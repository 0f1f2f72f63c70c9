//! A stable insertion sort over any type with a strict weak ranking, with the
//! guarantee that `slice::sort_by` gives: the output is a permutation of the
//! input, ordered by rank, and items of equal rank keep their input order.
use vstd::prelude::*;

verus! {

/// A strict weak order on `Self` ("ranks before"), with an executable test.
/// The order is stated on the items' views.
pub trait Ranked: Sized + View {
    spec fn ranks_before(a: Self::V, b: Self::V) -> bool;

    proof fn lemma_ranks_asymmetric(a: Self::V, b: Self::V)
        ensures
            Self::ranks_before(a, b) ==> !Self::ranks_before(b, a),
    ;

    proof fn lemma_ranks_transitive(a: Self::V, b: Self::V, c: Self::V)
        ensures
            Self::ranks_before(a, b) && Self::ranks_before(b, c) ==> Self::ranks_before(a, c),
    ;

    proof fn lemma_ranks_negatively_transitive(a: Self::V, b: Self::V, c: Self::V)
        ensures
            Self::ranks_before(a, c) ==> Self::ranks_before(a, b) || Self::ranks_before(b, c),
    ;

    fn before(&self, other: &Self) -> (r: bool)
        ensures
            r == Self::ranks_before(self@, other@),
    ;
}

/// No item ranks before an item that precedes it.
pub open spec fn sorted_by_rank<T: Ranked>(s: Seq<T::V>) -> bool {
    forall|i: int, j: int| #![trigger s[i], s[j]] 0 <= i < j < s.len() ==> !T::ranks_before(s[j], s[i])
}

/// `out[k] == inp[idx[k]]` for an injective `idx`, `out` is sorted by rank, and
/// items of equal rank appear in `out` in the order of their input positions.
pub open spec fn is_stable_arrangement<T: Ranked>(out: Seq<T::V>, inp: Seq<T::V>, idx: Seq<int>) -> bool {
    &&& idx.len() == inp.len()
    &&& out.len() == inp.len()
    &&& forall|k: int| 0 <= k < out.len() ==> 0 <= #[trigger] idx[k] < inp.len() && out[k] == inp[idx[k]]
    &&& forall|k1: int, k2: int| 0 <= k1 < k2 < out.len() ==> #[trigger] idx[k1] != #[trigger] idx[k2]
    &&& sorted_by_rank::<T>(out)
    &&& forall|k1: int, k2: int|
        #![trigger out[k1], out[k2]] 0 <= k1 < k2 < out.len() && !T::ranks_before(out[k1], out[k2]) ==> idx[k1] < idx[k2]
}

/// `out` is what a stable sort by rank makes of `inp`.
pub open spec fn is_stable_sort_of<T: Ranked>(out: Seq<T::V>, inp: Seq<T::V>) -> bool {
    exists|idx: Seq<int>| is_stable_arrangement::<T>(out, inp, idx)
}

/// The views of a sequence of items.
pub open spec fn views<T: View>(s: Seq<T>) -> Seq<T::V> {
    s.map_values(|t: T| t@)
}

/// Sorts `v` by rank, keeping items of equal rank in their input order.
#[verifier::loop_isolation(false)]
pub fn stable_sort<T: Ranked>(v: Vec<T>) -> (r: Vec<T>)
    ensures
        is_stable_sort_of::<T>(views(r@), views(v@)),
{
    let ghost inp = views(v@);
    let n = v.len();
    let mut rest = v;
    let mut out: Vec<T> = Vec::new();
    let ghost mut idx: Seq<int> = seq![];
    let mut i: usize = 0;
    while i < n
        invariant
            n == inp.len(),
            i <= n,
            views(rest@) == inp.skip(i as int),
            out@.len() == i,
            idx.len() == i,
            forall|k: int| 0 <= k < i ==> 0 <= #[trigger] idx[k] < i && views(out@)[k] == inp[idx[k]],
            forall|k1: int, k2: int| 0 <= k1 < k2 < i ==> #[trigger] idx[k1] != #[trigger] idx[k2],
            sorted_by_rank::<T>(views(out@)),
            forall|k1: int, k2: int|
                #![trigger views(out@)[k1], views(out@)[k2]]
                0 <= k1 < k2 < i && !T::ranks_before(views(out@)[k1], views(out@)[k2]) ==> idx[k1] < idx[k2],
        decreases n - i,
    {
        let ghost r0 = rest@;
        assert(views(r0)[0] == inp[i as int]);
        let x = rest.remove(0);
        assert forall|j: int| 0 <= j < views(rest@).len() implies views(rest@)[j] == inp.skip(i + 1)[j] by {
            assert(views(rest@)[j] == views(r0)[j + 1]);
        }
        assert(views(rest@) =~= inp.skip(i + 1));
        let mut p: usize = 0;
        while p < out.len()
            invariant
                p <= out@.len(),
                forall|k: int| #![trigger views(out@)[k]] 0 <= k < p ==> !T::ranks_before(x@, views(out@)[k]),
            decreases out@.len() - p,
        {
            if x.before(&out[p]) {
                break;
            }
            p = p + 1;
        }
        let ghost old_out = views(out@);
        let ghost old_idx = idx;
        proof {
            lemma_insert_keeps_arrangement::<T>(old_out, old_idx, inp, x@, p as int, i as int);
        }
        out.insert(p, x);
        assert(views(out@) =~= old_out.insert(p as int, x@));
        proof {
            idx = idx.insert(p as int, i as int);
        }
        i = i + 1;
    }
    assert(is_stable_arrangement::<T>(views(out@), inp, idx));
    out
}

proof fn lemma_insert_keeps_arrangement<T: Ranked>(
    out: Seq<T::V>,
    idx: Seq<int>,
    inp: Seq<T::V>,
    x: T::V,
    p: int,
    i: int,
)
    requires
        0 <= i < inp.len(),
        x == inp[i],
        out.len() == i,
        idx.len() == i,
        0 <= p <= i,
        forall|k: int| 0 <= k < i ==> 0 <= #[trigger] idx[k] < i && out[k] == inp[idx[k]],
        forall|k1: int, k2: int| 0 <= k1 < k2 < i ==> #[trigger] idx[k1] != #[trigger] idx[k2],
        sorted_by_rank::<T>(out),
        forall|k1: int, k2: int|
            #![trigger out[k1], out[k2]]
            0 <= k1 < k2 < i && !T::ranks_before(out[k1], out[k2]) ==> idx[k1] < idx[k2],
        forall|k: int| #![trigger out[k]] 0 <= k < p ==> !T::ranks_before(x, out[k]),
        p < i ==> T::ranks_before(x, out[p]),
    ensures
        ({
            let out2 = out.insert(p, x);
            let idx2 = idx.insert(p, i);
            &&& forall|k: int| 0 <= k < i + 1 ==> 0 <= #[trigger] idx2[k] < i + 1 && out2[k] == inp[idx2[k]]
            &&& forall|k1: int, k2: int| 0 <= k1 < k2 < i + 1 ==> #[trigger] idx2[k1] != #[trigger] idx2[k2]
            &&& sorted_by_rank::<T>(out2)
            &&& forall|k1: int, k2: int|
                #![trigger out2[k1], out2[k2]]
                0 <= k1 < k2 < i + 1 && !T::ranks_before(out2[k1], out2[k2]) ==> idx2[k1] < idx2[k2]
        }),
{
    let out2 = out.insert(p, x);
    let idx2 = idx.insert(p, i);
    assert forall|k: int| 0 <= k < i + 1 implies 0 <= #[trigger] idx2[k] < i + 1 && out2[k]
        == inp[idx2[k]] by {
        if k > p {
            assert(idx2[k] == idx[k - 1]);
        }
    }
    assert forall|k1: int, k2: int| 0 <= k1 < k2 < i + 1 implies #[trigger] idx2[k1]
        != #[trigger] idx2[k2] by {
        if k1 < p && k2 > p {
            assert(idx[k1] != idx[k2 - 1]);
        } else if k1 > p {
            assert(idx[k1 - 1] != idx[k2 - 1]);
        } else if k1 == p {
            assert(idx[k2 - 1] < i);
        } else if k2 == p {
            assert(idx[k1] < i);
        }
    }
    assert forall|a: int, b: int| #![trigger out2[a], out2[b]] 0 <= a < b < out2.len() implies !T::ranks_before(
        out2[b],
        out2[a],
    ) by {
        if b < p {
            assert(!T::ranks_before(out[b], out[a]));
        } else if b == p {
            assert(!T::ranks_before(x, out[a]));
        } else if a < p {
            assert(!T::ranks_before(out[b - 1], out[a]));
        } else if a == p {
            // x ranks before out[p]; out[b - 1] does not rank before out[p]
            T::lemma_ranks_asymmetric(x, out[p]);
            T::lemma_ranks_transitive(out[b - 1], x, out[p]);
            if b - 1 > p {
                assert(!T::ranks_before(out[b - 1], out[p]));
            }
        } else {
            assert(!T::ranks_before(out[b - 1], out[a - 1]));
        }
    }
    assert forall|k1: int, k2: int|
        #![trigger out2[k1], out2[k2]]
        0 <= k1 < k2 < i + 1 && !T::ranks_before(out2[k1], out2[k2]) implies idx2[k1] < idx2[k2] by {
        if k2 < p {
        } else if k2 == p {
            assert(idx[k1] < i);
        } else if k1 < p {
            assert(!T::ranks_before(out[k1], out[k2 - 1]));
        } else if k1 == p {
            // x ranks before out[p], so it ranks before every later item too
            T::lemma_ranks_negatively_transitive(x, out[k2 - 1], out[p]);
            if k2 - 1 > p {
                assert(!T::ranks_before(out[k2 - 1], out[p]));
            }
        } else {
            assert(!T::ranks_before(out[k1 - 1], out[k2 - 1]));
        }
    }
}

} // verus!
