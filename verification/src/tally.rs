//! Per-category tallies in category order, as a `BTreeMap` keyed by category
//! yields them.
use vstd::prelude::*;

use crate::text::{lemma_lex_irreflexive, lemma_lex_total, lemma_lex_transitive, lex_lt, str_eq, str_less};

verus! {

/// What a tally reads of an item: its category, whether it is solved, and its points.
pub type TallyItem = (Seq<char>, bool, nat);

/// How many items are in category `cat`.
pub open spec fn count_cat(items: Seq<TallyItem>, cat: Seq<char>) -> nat
    decreases items.len(),
{
    if items.len() == 0 {
        0
    } else {
        count_cat(items.drop_last(), cat) + if items.last().0 == cat {
            1nat
        } else {
            0nat
        }
    }
}

/// How many items are in category `cat` and solved.
pub open spec fn count_cat_solved(items: Seq<TallyItem>, cat: Seq<char>) -> nat
    decreases items.len(),
{
    if items.len() == 0 {
        0
    } else {
        count_cat_solved(items.drop_last(), cat) + if items.last().0 == cat && items.last().1 {
            1nat
        } else {
            0nat
        }
    }
}

/// The points of the items in category `cat`.
pub open spec fn sum_cat_points(items: Seq<TallyItem>, cat: Seq<char>) -> nat
    decreases items.len(),
{
    if items.len() == 0 {
        0
    } else {
        sum_cat_points(items.drop_last(), cat) + if items.last().0 == cat {
            items.last().2
        } else {
            0nat
        }
    }
}

/// Some item is in category `cat`.
pub open spec fn has_category(items: Seq<TallyItem>, cat: Seq<char>) -> bool {
    exists|i: int| 0 <= i < items.len() && (#[trigger] items[i]).0 == cat
}

/// `cat` is one of `names`.
pub open spec fn is_listed(names: Seq<Seq<char>>, cat: Seq<char>) -> bool {
    exists|k: int| 0 <= k < names.len() && #[trigger] names[k] == cat
}

/// Every name of `names` is the category of some item.
pub open spec fn names_occur(names: Seq<Seq<char>>, items: Seq<TallyItem>) -> bool {
    forall|k: int| 0 <= k < names.len() ==> has_category(items, #[trigger] names[k])
}

/// The category of every item is among `names`.
pub open spec fn items_named(names: Seq<Seq<char>>, items: Seq<TallyItem>) -> bool {
    forall|i: int| 0 <= i < items.len() ==> is_listed(names, (#[trigger] items[i]).0)
}

/// `names` lists each category of `items` once, in strictly increasing order.
pub open spec fn is_category_index(names: Seq<Seq<char>>, items: Seq<TallyItem>) -> bool {
    &&& index_sorted(names)
    &&& names_occur(names, items)
    &&& items_named(names, items)
}

pub proof fn lemma_count_bounds(items: Seq<TallyItem>, cat: Seq<char>)
    ensures
        count_cat_solved(items, cat) <= count_cat(items, cat),
        count_cat(items, cat) <= items.len(),
    decreases items.len(),
{
    if items.len() > 0 {
        lemma_count_bounds(items.drop_last(), cat);
    }
}

/// Sum of item points over the whole sequence.
pub open spec fn sum_points(items: Seq<TallyItem>) -> nat
    decreases items.len(),
{
    if items.len() == 0 {
        0
    } else {
        sum_points(items.drop_last()) + items.last().2
    }
}

pub proof fn lemma_cat_points_bound(items: Seq<TallyItem>, cat: Seq<char>)
    ensures
        sum_cat_points(items, cat) <= sum_points(items),
    decreases items.len(),
{
    if items.len() > 0 {
        lemma_cat_points_bound(items.drop_last(), cat);
    }
}

/// Where the category of the next item goes in `names`: the position of the
/// first name not below it, and whether that name is the category itself.
pub fn locate_category(names: &Vec<String>, cat: &str) -> (r: (usize, bool))
    ensures
        r.0 <= names@.len(),
        forall|k: int| 0 <= k < r.0 ==> lex_lt((#[trigger] names@[k])@, cat@),
        r.1 ==> r.0 < names@.len() && names@[r.0 as int]@ == cat@,
        !r.1 ==> r.0 == names@.len() || lex_lt(cat@, names@[r.0 as int]@),
{
    let mut p: usize = 0;
    while p < names.len()
        invariant
            p <= names@.len(),
            forall|k: int| 0 <= k < p ==> lex_lt((#[trigger] names@[k])@, cat@),
        decreases names@.len() - p,
    {
        if str_less(names[p].as_str(), cat) {
            p = p + 1;
        } else {
            let found = str_eq(names[p].as_str(), cat);
            proof {
                lemma_lex_total(names@[p as int]@, cat@);
            }
            return (p, found);
        }
    }
    (p, false)
}

pub open spec fn index_sorted(names: Seq<Seq<char>>) -> bool {
    forall|a: int, b: int| 0 <= a < b < names.len() ==> lex_lt(#[trigger] names[a], #[trigger] names[b])
}

proof fn lemma_insert_sorted(names: Seq<Seq<char>>, p: int, cat: Seq<char>)
    requires
        index_sorted(names),
        0 <= p <= names.len(),
        forall|k: int| 0 <= k < p ==> lex_lt(#[trigger] names[k], cat),
        p == names.len() || lex_lt(cat, names[p]),
    ensures
        index_sorted(names.insert(p, cat)),
        forall|k: int| 0 <= k < names.len() ==> names[k] != cat,
{
    let next = names.insert(p, cat);
    lemma_lex_irreflexive(cat);
    assert forall|k: int| 0 <= k < names.len() implies names[k] != cat by {
        if k < p {
            assert(lex_lt(names[k], cat));
        } else if k > p {
            assert(lex_lt(names[p], names[k]));
            lemma_lex_transitive(cat, names[p], names[k]);
        }
    }
    assert forall|a: int, b: int| 0 <= a < b < next.len() implies lex_lt(#[trigger] next[a], #[trigger] next[b]) by {
        if a < p && b > p {
            assert(lex_lt(names[a], names[b - 1]));
        } else if a > p {
            assert(lex_lt(names[a - 1], names[b - 1]));
        } else if a == p {
            if b - 1 > p {
                assert(lex_lt(names[p], names[b - 1]));
                lemma_lex_transitive(cat, names[p], names[b - 1]);
            }
        } else if b == p {
            assert(lex_lt(names[a], cat));
        } else {
            assert(lex_lt(names[a], names[b]));
        }
    }
}

proof fn lemma_found_unique(names: Seq<Seq<char>>, p: int)
    requires
        index_sorted(names),
        0 <= p < names.len(),
    ensures
        forall|k: int| 0 <= k < names.len() && k != p ==> names[k] != names[p],
{
    lemma_lex_irreflexive(names[p]);
    assert forall|k: int| 0 <= k < names.len() && k != p implies names[k] != names[p] by {
        if k < p {
            assert(lex_lt(names[k], names[p]));
        } else {
            assert(lex_lt(names[p], names[k]));
        }
    }
}

proof fn lemma_names_covered(next: Seq<Seq<char>>, names: Seq<Seq<char>>, before: Seq<TallyItem>, after: Seq<TallyItem>, p: int, found: bool)
    requires
        names_occur(names, before),
        after.len() == before.len() + 1,
        after.drop_last() == before,
        0 <= p <= names.len(),
        next == (if found { names } else { names.insert(p, after.last().0) }),
    ensures
        names_occur(next, after),
{
    assert forall|k: int| 0 <= k < next.len() implies has_category(after, #[trigger] next[k]) by {
        let last = after.len() - 1;
        if !found && k == p {
            assert(after[last].0 == next[k]);
        } else {
            let kk = if !found && k > p {
                k - 1
            } else {
                k
            };
            assert(next[k] == names[kk]);
            assert(has_category(before, names[kk]));
            let i = choose|i: int| 0 <= i < before.len() && (#[trigger] before[i]).0 == names[kk];
            assert(after[i] == before[i]);
        }
    }
}

proof fn lemma_items_covered(next: Seq<Seq<char>>, names: Seq<Seq<char>>, before: Seq<TallyItem>, after: Seq<TallyItem>, p: int, found: bool)
    requires
        items_named(names, before),
        after.len() == before.len() + 1,
        after.drop_last() == before,
        0 <= p <= names.len(),
        found ==> p < names.len() && names[p] == after.last().0,
        next == (if found { names } else { names.insert(p, after.last().0) }),
    ensures
        items_named(next, after),
{
    assert forall|i: int| 0 <= i < after.len() implies is_listed(next, (#[trigger] after[i]).0) by {
        if i < before.len() {
            assert(after[i] == before[i]);
            assert(is_listed(names, before[i].0));
            let kk = choose|kk: int| 0 <= kk < names.len() && #[trigger] names[kk] == before[i].0;
            if found || kk < p {
                assert(next[kk] == after[i].0);
            } else {
                assert(next[kk + 1] == after[i].0);
            }
        } else {
            assert(next[p] == after[i].0);
        }
    }
}

proof fn lemma_new_category_uncounted(names: Seq<Seq<char>>, before: Seq<TallyItem>, cat: Seq<char>)
    requires
        items_named(names, before),
        forall|k: int| 0 <= k < names.len() ==> names[k] != cat,
    ensures
        count_cat(before, cat) == 0,
{
    if count_cat(before, cat) > 0 {
        lemma_count_exists(before, cat);
        let i = choose|i: int| 0 <= i < before.len() && before[i].0 == cat;
        assert(is_listed(names, before[i].0));
        let kk = choose|kk: int| 0 <= kk < names.len() && #[trigger] names[kk] == before[i].0;
        assert(names[kk] != cat);
    }
}

/// Adding one item to a category index: if the category is new it is inserted
/// at its place, which keeps the index exact.
pub proof fn lemma_index_step(
    names: Seq<Seq<char>>,
    before: Seq<TallyItem>,
    after: Seq<TallyItem>,
    p: int,
    found: bool,
)
    requires
        is_category_index(names, before),
        after.len() == before.len() + 1,
        after.drop_last() == before,
        0 <= p <= names.len(),
        forall|k: int| 0 <= k < p ==> lex_lt(#[trigger] names[k], after.last().0),
        found ==> p < names.len() && names[p] == after.last().0,
        !found ==> p == names.len() || lex_lt(after.last().0, names[p]),
    ensures
        is_category_index(if found { names } else { names.insert(p, after.last().0) }, after),
        !found ==> count_cat(before, after.last().0) == 0,
        forall|k: int| 0 <= k < names.len() && k != p ==> names[k] != after.last().0,
        !found ==> forall|k: int| 0 <= k < names.len() ==> names[k] != after.last().0,
{
    let cat = after.last().0;
    let next = if found {
        names
    } else {
        names.insert(p, cat)
    };
    assert(index_sorted(names));
    if found {
        lemma_found_unique(names, p);
    } else {
        lemma_insert_sorted(names, p, cat);
        lemma_new_category_uncounted(names, before, cat);
    }
    lemma_names_covered(next, names, before, after, p, found);
    lemma_items_covered(next, names, before, after, p, found);
    assert(index_sorted(next));
}

pub proof fn lemma_count_exists(items: Seq<TallyItem>, cat: Seq<char>)
    requires
        count_cat(items, cat) > 0,
    ensures
        exists|i: int| 0 <= i < items.len() && items[i].0 == cat,
    decreases items.len(),
{
    if items.last().0 != cat {
        lemma_count_exists(items.drop_last(), cat);
        let i = choose|i: int| 0 <= i < items.drop_last().len() && items.drop_last()[i].0 == cat;
        assert(items[i] == items.drop_last()[i]);
    }
}

/// How many items are solved.
pub open spec fn count_solved_items(items: Seq<TallyItem>) -> nat
    decreases items.len(),
{
    if items.len() == 0 {
        0
    } else {
        count_solved_items(items.drop_last()) + if items.last().1 {
            1nat
        } else {
            0nat
        }
    }
}

/// The points of the solved items.
pub open spec fn sum_solved_points(items: Seq<TallyItem>) -> nat
    decreases items.len(),
{
    if items.len() == 0 {
        0
    } else {
        sum_solved_points(items.drop_last()) + if items.last().1 {
            items.last().2
        } else {
            0nat
        }
    }
}

pub proof fn lemma_totals_bounds(items: Seq<TallyItem>)
    ensures
        count_solved_items(items) <= items.len(),
        sum_solved_points(items) <= sum_points(items),
    decreases items.len(),
{
    if items.len() > 0 {
        lemma_totals_bounds(items.drop_last());
    }
}

pub proof fn lemma_sum_points_prefix(items: Seq<TallyItem>, i: int)
    requires
        0 <= i <= items.len(),
    ensures
        sum_points(items.take(i)) <= sum_points(items),
    decreases items.len() - i,
{
    if i < items.len() {
        lemma_sum_points_prefix(items, i + 1);
        assert(items.take(i + 1).drop_last() =~= items.take(i));
    } else {
        assert(items.take(i) =~= items);
    }
}

/// The item counts of the categories in `names`, added up.
pub open spec fn sum_counts(names: Seq<Seq<char>>, items: Seq<TallyItem>) -> nat
    decreases names.len(),
{
    if names.len() == 0 {
        0
    } else {
        sum_counts(names.drop_last(), items) + count_cat(items, names.last())
    }
}

/// How often `cat` occurs in `names`.
spec fn occurrences(names: Seq<Seq<char>>, cat: Seq<char>) -> nat
    decreases names.len(),
{
    if names.len() == 0 {
        0
    } else {
        occurrences(names.drop_last(), cat) + if names.last() == cat {
            1nat
        } else {
            0nat
        }
    }
}

proof fn lemma_sum_counts_push(names: Seq<Seq<char>>, items: Seq<TallyItem>, x: TallyItem)
    ensures
        sum_counts(names, items.push(x)) == sum_counts(names, items) + occurrences(names, x.0),
    decreases names.len(),
{
    assert(items.push(x).drop_last() =~= items);
    if names.len() > 0 {
        lemma_sum_counts_push(names.drop_last(), items, x);
    }
}

proof fn lemma_occurs_once(names: Seq<Seq<char>>, cat: Seq<char>)
    requires
        index_sorted(names),
        is_listed(names, cat),
    ensures
        occurrences(names, cat) == 1,
    decreases names.len(),
{
    let init = names.drop_last();
    assert(index_sorted(init)) by {
        assert forall|a: int, b: int| 0 <= a < b < init.len() implies lex_lt(#[trigger] init[a], #[trigger] init[b]) by {
            assert(lex_lt(names[a], names[b]));
        }
    }
    if names.last() == cat {
        assert(!is_listed(init, cat)) by {
            if is_listed(init, cat) {
                let k = choose|k: int| 0 <= k < init.len() && #[trigger] init[k] == cat;
                assert(lex_lt(names[k], names[names.len() - 1]));
                lemma_lex_irreflexive(cat);
            }
        }
        lemma_not_listed_no_occurrence(init, cat);
    } else {
        let k = choose|k: int| 0 <= k < names.len() && #[trigger] names[k] == cat;
        assert(init[k] == cat);
        lemma_occurs_once(init, cat);
    }
}

proof fn lemma_not_listed_no_occurrence(names: Seq<Seq<char>>, cat: Seq<char>)
    requires
        !is_listed(names, cat),
    ensures
        occurrences(names, cat) == 0,
    decreases names.len(),
{
    if names.len() > 0 {
        let init = names.drop_last();
        if is_listed(init, cat) {
            let k = choose|k: int| 0 <= k < init.len() && #[trigger] init[k] == cat;
            assert(names[k] == cat);
        }
        assert(names[names.len() - 1] == names.last());
        lemma_not_listed_no_occurrence(init, cat);
    }
}

/// A category tally accounts for every item exactly once: the counts of its
/// rows add up to the number of items.
pub proof fn lemma_tally_partitions(names: Seq<Seq<char>>, items: Seq<TallyItem>)
    requires
        is_category_index(names, items),
    ensures
        sum_counts(names, items) == items.len(),
{
    lemma_sum_items_named(names, items);
}

proof fn lemma_sum_items_named(names: Seq<Seq<char>>, items: Seq<TallyItem>)
    requires
        index_sorted(names),
        items_named(names, items),
    ensures
        sum_counts(names, items) == items.len(),
    decreases items.len(),
{
    if items.len() == 0 {
        lemma_sum_counts_empty(names, items);
    } else {
        let init = items.drop_last();
        assert(items_named(names, init)) by {
            assert forall|i: int| 0 <= i < init.len() implies is_listed(names, (#[trigger] init[i]).0) by {
                assert(init[i] == items[i]);
            }
        }
        lemma_sum_items_named(names, init);
        lemma_sum_counts_push(names, init, items.last());
        assert(init.push(items.last()) =~= items);
        assert(is_listed(names, items[items.len() - 1].0));
        lemma_occurs_once(names, items.last().0);
    }
}

proof fn lemma_sum_counts_empty(names: Seq<Seq<char>>, items: Seq<TallyItem>)
    requires
        items.len() == 0,
    ensures
        sum_counts(names, items) == 0,
    decreases names.len(),
{
    if names.len() > 0 {
        lemma_sum_counts_empty(names.drop_last(), items);
    }
}

/// The solved counts of the categories in `names`, added up.
pub open spec fn sum_solved_counts(names: Seq<Seq<char>>, items: Seq<TallyItem>) -> nat
    decreases names.len(),
{
    if names.len() == 0 {
        0
    } else {
        sum_solved_counts(names.drop_last(), items) + count_cat_solved(items, names.last())
    }
}

proof fn lemma_sum_solved_push(names: Seq<Seq<char>>, items: Seq<TallyItem>, x: TallyItem)
    ensures
        sum_solved_counts(names, items.push(x)) == sum_solved_counts(names, items) + if x.1 {
            occurrences(names, x.0)
        } else {
            0nat
        },
    decreases names.len(),
{
    assert(items.push(x).drop_last() =~= items);
    if names.len() > 0 {
        lemma_sum_solved_push(names.drop_last(), items, x);
    }
}

proof fn lemma_sum_solved_empty(names: Seq<Seq<char>>, items: Seq<TallyItem>)
    requires
        items.len() == 0,
    ensures
        sum_solved_counts(names, items) == 0,
    decreases names.len(),
{
    if names.len() > 0 {
        lemma_sum_solved_empty(names.drop_last(), items);
    }
}

proof fn lemma_sum_solved_named(names: Seq<Seq<char>>, items: Seq<TallyItem>)
    requires
        index_sorted(names),
        items_named(names, items),
    ensures
        sum_solved_counts(names, items) == count_solved_items(items),
    decreases items.len(),
{
    if items.len() == 0 {
        lemma_sum_solved_empty(names, items);
    } else {
        let init = items.drop_last();
        assert(items_named(names, init)) by {
            assert forall|i: int| 0 <= i < init.len() implies is_listed(names, (#[trigger] init[i]).0) by {
                assert(init[i] == items[i]);
            }
        }
        lemma_sum_solved_named(names, init);
        lemma_sum_solved_push(names, init, items.last());
        assert(init.push(items.last()) =~= items);
        assert(is_listed(names, items[items.len() - 1].0));
        lemma_occurs_once(names, items.last().0);
    }
}

/// The solved counts of a category tally add up to the number of solved items.
pub proof fn lemma_tally_solved_partitions(names: Seq<Seq<char>>, items: Seq<TallyItem>)
    requires
        is_category_index(names, items),
    ensures
        sum_solved_counts(names, items) == count_solved_items(items),
{
    lemma_sum_solved_named(names, items);
}

/// What one more item adds to each count and sum: to its category's count
/// one, to its category's solved count one if it is solved, to its category's
/// points its points, to the solved count one if solved, to the solved points
/// its points if solved, and to the points its points. Other categories are
/// unchanged, and no items count nothing.
pub proof fn lemma_tally_step(items: Seq<TallyItem>, it: TallyItem, cat: Seq<char>)
    ensures
        count_cat(Seq::<TallyItem>::empty(), cat) == 0,
        count_cat_solved(Seq::<TallyItem>::empty(), cat) == 0,
        sum_cat_points(Seq::<TallyItem>::empty(), cat) == 0,
        count_solved_items(Seq::<TallyItem>::empty()) == 0,
        sum_solved_points(Seq::<TallyItem>::empty()) == 0,
        sum_points(Seq::<TallyItem>::empty()) == 0,
        count_cat(items.push(it), cat) == count_cat(items, cat) + (if it.0 == cat {
            1int
        } else {
            0int
        }),
        count_cat_solved(items.push(it), cat) == count_cat_solved(items, cat) + (if it.0 == cat && it.1 {
            1int
        } else {
            0int
        }),
        sum_cat_points(items.push(it), cat) == sum_cat_points(items, cat) + (if it.0 == cat {
            it.2 as int
        } else {
            0int
        }),
        count_solved_items(items.push(it)) == count_solved_items(items) + (if it.1 {
            1int
        } else {
            0int
        }),
        sum_solved_points(items.push(it)) == sum_solved_points(items) + (if it.1 {
            it.2 as int
        } else {
            0int
        }),
        sum_points(items.push(it)) == sum_points(items) + it.2,
{
    assert(items.push(it).drop_last() =~= items);
}

} // verus!
