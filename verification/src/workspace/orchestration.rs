//! The challenge queue that an agent keeps across restarts: what to solve
//! next, what is in progress, and what failed.
use vstd::prelude::*;

use crate::clock::Timestamp;
use crate::platform::types::strs_view;

verus! {

/// A challenge waiting in the queue.
#[derive(Debug, Clone)]
pub struct QueuedChallenge {
    pub name: String,
}

/// A challenge given up on.
#[derive(Debug, Clone)]
pub struct FailedAttempt {
    pub name: String,
    pub category: String,
    pub attempted_at: Timestamp,
    pub notes: String,
}

pub struct FailedView {
    pub name: Seq<char>,
    pub category: Seq<char>,
    pub attempted_at: Timestamp,
    pub notes: Seq<char>,
}

impl View for FailedAttempt {
    type V = FailedView;

    open spec fn view(&self) -> FailedView {
        FailedView {
            name: self.name@,
            category: self.category@,
            attempted_at: self.attempted_at,
            notes: self.notes@,
        }
    }
}

/// The queue state.
#[derive(Debug, Clone)]
pub struct OrchestrationState {
    pub queue: Vec<QueuedChallenge>,
    pub in_progress: Vec<String>,
    pub failed: Vec<FailedAttempt>,
    pub updated_at: Option<Timestamp>,
}

pub struct OrchestrationView {
    /// The names of the queued challenges, in queue order.
    pub queue: Seq<Seq<char>>,
    pub in_progress: Seq<Seq<char>>,
    pub failed: Seq<FailedView>,
    pub updated_at: Option<Timestamp>,
}

pub open spec fn queue_names(q: Seq<QueuedChallenge>) -> Seq<Seq<char>> {
    q.map_values(|c: QueuedChallenge| c.name@)
}

impl View for OrchestrationState {
    type V = OrchestrationView;

    open spec fn view(&self) -> OrchestrationView {
        OrchestrationView {
            queue: queue_names(self.queue@),
            in_progress: strs_view(self.in_progress@),
            failed: self.failed@.map_values(|f: FailedAttempt| f@),
            updated_at: self.updated_at,
        }
    }
}

impl Default for OrchestrationState {
    fn default() -> (r: Self)
        ensures
            r@.queue.len() == 0,
            r@.in_progress.len() == 0,
            r@.failed.len() == 0,
            r@.updated_at is None,
    {
        OrchestrationState { queue: Vec::new(), in_progress: Vec::new(), failed: Vec::new(), updated_at: None }
    }
}

/// `s` without the occurrences of `x`.
pub open spec fn without(s: Seq<Seq<char>>, x: Seq<char>) -> Seq<Seq<char>> {
    s.filter(|y: Seq<char>| y != x)
}

fn retain_other_names(v: Vec<String>, name: &str) -> (r: Vec<String>)
    ensures
        strs_view(r@) == without(strs_view(v@), name@),
{
    let ghost sv = strs_view(v@);
    let ghost pred = |y: Seq<char>| y != name@;
    let mut out: Vec<String> = Vec::new();
    let mut i: usize = 0;
    while i < v.len()
        invariant
            sv == strs_view(v@),
            pred == (|y: Seq<char>| y != name@),
            i <= v@.len(),
            strs_view(out@) == sv.take(i as int).filter(pred),
        decreases v@.len() - i,
    {
        let ghost prev = out@;
        let keep = !crate::text::str_eq(v[i].as_str(), name);
        if keep {
            out.push(v[i].clone());
        }
        proof {
            assert(sv.take(i + 1).drop_last() =~= sv.take(i as int));
            assert(sv[i as int] == v@[i as int]@);
            reveal_with_fuel(Seq::filter, 1);
            if keep {
                assert(strs_view(out@) =~= strs_view(prev).push(v@[i as int]@));
            } else {
                assert(strs_view(out@) =~= strs_view(prev));
            }
        }
        i = i + 1;
    }
    assert(sv.take(i as int) =~= sv);
    out
}

fn retain_other_queued(v: Vec<QueuedChallenge>, name: &str) -> (r: Vec<QueuedChallenge>)
    ensures
        queue_names(r@) == without(queue_names(v@), name@),
{
    let ghost sv = queue_names(v@);
    let ghost pred = |y: Seq<char>| y != name@;
    let n = v.len();
    let mut rest = v;
    let mut out: Vec<QueuedChallenge> = Vec::new();
    let mut i: usize = 0;
    while i < n
        invariant
            n == sv.len(),
            pred == (|y: Seq<char>| y != name@),
            i <= n,
            queue_names(rest@) == sv.skip(i as int),
            queue_names(out@) == sv.take(i as int).filter(pred),
        decreases n - i,
    {
        let ghost r0 = rest@;
        let ghost prev = out@;
        assert(queue_names(r0).len() == r0.len());
        let q = rest.remove(0);
        assert(rest@ == r0.remove(0));
        assert forall|j: int| 0 <= j < queue_names(rest@).len() implies queue_names(rest@)[j] == sv.skip(i + 1)[j] by {
            assert(queue_names(rest@)[j] == queue_names(r0)[j + 1]);
        }
        assert(queue_names(rest@) =~= sv.skip(i + 1));
        let keep = !crate::text::str_eq(q.name.as_str(), name);
        let ghost qn = q.name@;
        assert(sv[i as int] == qn) by {
            assert(queue_names(r0)[0] == qn);
        }
        if keep {
            out.push(q);
        }
        proof {
            assert(sv.take(i + 1).drop_last() =~= sv.take(i as int));
            reveal_with_fuel(Seq::filter, 1);
            if keep {
                assert(queue_names(out@) =~= queue_names(prev).push(qn));
            } else {
                assert(queue_names(out@) =~= queue_names(prev));
            }
        }
        i = i + 1;
    }
    assert(sv.take(n as int) =~= sv);
    out
}

fn contains_name(v: &Vec<String>, name: &str) -> (r: bool)
    ensures
        r == strs_view(v@).contains(name@),
{
    let mut i: usize = 0;
    while i < v.len()
        invariant
            i <= v@.len(),
            forall|j: int| 0 <= j < i ==> (#[trigger] v@[j])@ != name@,
        decreases v@.len() - i,
    {
        if crate::text::str_eq(v[i].as_str(), name) {
            assert(strs_view(v@)[i as int] == name@);
            return true;
        }
        i = i + 1;
    }
    proof {
        if strs_view(v@).contains(name@) {
            let j = choose|j: int| 0 <= j < strs_view(v@).len() && strs_view(v@)[j] == name@;
            assert(v@[j]@ == name@);
        }
    }
    false
}

impl OrchestrationState {
    /// Replaces the queue.
    pub fn set_queue(&mut self, queue: Vec<QueuedChallenge>)
        ensures
            final(self)@.queue == queue_names(queue@),
            final(self)@.in_progress == old(self)@.in_progress,
            final(self)@.failed == old(self)@.failed,
            final(self)@.updated_at == old(self)@.updated_at,
    {
        self.queue = queue;
    }

    /// Starts work on `name`: it leaves the queue and is in progress once.
    pub fn start(&mut self, name: String)
        ensures
            final(self)@.queue == without(old(self)@.queue, name@),
            final(self)@.in_progress == (if old(self)@.in_progress.contains(name@) {
                old(self)@.in_progress
            } else {
                old(self)@.in_progress.push(name@)
            }),
            final(self)@.failed == old(self)@.failed,
            final(self)@.updated_at == old(self)@.updated_at,
    {
        let mut queue: Vec<QueuedChallenge> = Vec::new();
        std::mem::swap(&mut queue, &mut self.queue);
        self.queue = retain_other_queued(queue, name.as_str());
        if !contains_name(&self.in_progress, name.as_str()) {
            let ghost before = self.in_progress@;
            let ghost n = name@;
            self.in_progress.push(name);
            assert(strs_view(self.in_progress@) =~= strs_view(before).push(n));
        }
    }

    /// Ends work on `name`: it is no longer in progress.
    pub fn complete(&mut self, name: &str)
        ensures
            final(self)@.queue == old(self)@.queue,
            final(self)@.in_progress == without(old(self)@.in_progress, name@),
            final(self)@.failed == old(self)@.failed,
            final(self)@.updated_at == old(self)@.updated_at,
    {
        let mut in_progress: Vec<String> = Vec::new();
        std::mem::swap(&mut in_progress, &mut self.in_progress);
        self.in_progress = retain_other_names(in_progress, name);
    }

    /// Gives up on `name`: it is no longer in progress, and the attempt is
    /// recorded as failed at `now`.
    pub fn fail(&mut self, name: String, category: String, notes: String, now: Timestamp)
        ensures
            final(self)@.queue == old(self)@.queue,
            final(self)@.in_progress == without(old(self)@.in_progress, name@),
            final(self)@.failed == old(self)@.failed.push(
                FailedView { name: name@, category: category@, attempted_at: now, notes: notes@ },
            ),
            final(self)@.updated_at == old(self)@.updated_at,
    {
        self.complete(name.as_str());
        let ghost before = self.failed@;
        let attempt = FailedAttempt { name, category, attempted_at: now, notes };
        let ghost v = attempt@;
        self.failed.push(attempt);
        assert(self.failed@.map_values(|f: FailedAttempt| f@) =~= before.map_values(|f: FailedAttempt| f@).push(v));
    }
}

/// Taking `x` out of a list keeps every other name, in order: nothing comes
/// out of an empty list, and a name added at the end stays exactly when it is
/// not `x`.
pub proof fn lemma_without_laws(s: Seq<Seq<char>>, x: Seq<char>, y: Seq<char>)
    ensures
        without(Seq::<Seq<char>>::empty(), x) == Seq::<Seq<char>>::empty(),
        without(s.push(y), x) == without(s, x) + (if y == x {
            Seq::<Seq<char>>::empty()
        } else {
            seq![y]
        }),
{
    let pred = |z: Seq<char>| z != x;
    reveal_with_fuel(Seq::filter, 1);
    assert(Seq::<Seq<char>>::empty().filter(pred) =~= Seq::<Seq<char>>::empty());
    assert(s.push(y).drop_last() =~= s);
    if y == x {
        assert(s.push(y).filter(pred) == s.filter(pred));
        assert(s.filter(pred) =~= s.filter(pred) + Seq::<Seq<char>>::empty());
    } else {
        assert(s.push(y).filter(pred) == s.filter(pred).push(y));
        assert(s.filter(pred).push(y) =~= s.filter(pred) + seq![y]);
    }
}

} // verus!
