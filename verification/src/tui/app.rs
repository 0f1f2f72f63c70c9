//! The dashboard's state and its reaction to keys; drawing and the terminal
//! loop live with the caller.
use vstd::prelude::*;

use crate::sorting::{is_stable_arrangement, is_stable_sort_of, sorted_by_rank, stable_sort, views, Ranked};
use crate::tally::{
    count_cat, count_cat_solved, count_solved_items, is_category_index, lemma_count_bounds, lemma_index_step,
    lemma_tally_partitions, lemma_tally_solved_partitions, locate_category, sum_counts, sum_solved_counts,
    TallyItem,
};
use crate::text::{lemma_lex_asymmetric, lemma_lex_irreflexive, lemma_lex_total, lemma_lex_transitive, lex_lt, str_less};
use crate::workspace::state::{ChallengeState, ChallengeStateView, ChallengeStatus, WorkspaceState};

verus! {

/// The panel of the dashboard that has the keyboard focus.
#[derive(Debug, Clone, Copy, PartialEq, Eq, Structural)]
pub enum ActivePanel {
    Challenges,
    Queue,
    Notifications,
}

impl ActivePanel {
    /// The panel that follows `self` in the focus cycle.
    pub open spec fn spec_next(self) -> ActivePanel {
        match self {
            ActivePanel::Challenges => ActivePanel::Queue,
            ActivePanel::Queue => ActivePanel::Notifications,
            ActivePanel::Notifications => ActivePanel::Challenges,
        }
    }

    pub fn next(self) -> (r: Self)
        ensures
            r == self.spec_next(),
    {
        match self {
            ActivePanel::Challenges => ActivePanel::Queue,
            ActivePanel::Queue => ActivePanel::Notifications,
            ActivePanel::Notifications => ActivePanel::Challenges,
        }
    }
}

/// Focus cycles through the three panels: three steps come back to the start,
/// and fewer steps never do.
pub proof fn lemma_next_cycles(p: ActivePanel)
    ensures
        p.spec_next().spec_next().spec_next() == p,
        p.spec_next() != p,
        p.spec_next().spec_next() != p,
{
}

/// The keys the dashboard tells apart.
#[derive(Debug, Clone, Copy, PartialEq, Eq, Structural)]
pub enum Key {
    Char(char),
    Esc,
    Tab,
    Up,
    Down,
    Other,
}

pub open spec fn quits(key: Key) -> bool {
    key == Key::Char('q') || key == Key::Esc
}

pub open spec fn moves_down(key: Key) -> bool {
    key == Key::Down || key == Key::Char('j')
}

pub open spec fn moves_up(key: Key) -> bool {
    key == Key::Up || key == Key::Char('k')
}

/// The largest scroll offset for a list of `n` items.
pub open spec fn scroll_limit(n: nat) -> nat {
    if n == 0 {
        0
    } else {
        (n - 1) as nat
    }
}

/// One step down, stopping at the last item.
pub open spec fn scrolled_down(offset: usize, n: nat) -> usize {
    if offset < scroll_limit(n) {
        (offset + 1) as usize
    } else {
        offset
    }
}

/// One step up, stopping at the first item.
pub open spec fn scrolled_up(offset: usize) -> usize {
    if offset > 0 {
        (offset - 1) as usize
    } else {
        0
    }
}

/// Scrolling keeps the offset on the list: a step down from an item of the
/// list stays on the list, a step up never goes past the top, and a step down
/// followed by a step up (or the reverse) comes back to where it started,
/// unless the end of the list (or its top) was reached.
pub proof fn lemma_scroll_stays_on_list(offset: usize, n: nat)
    requires
        n <= usize::MAX,
    ensures
        offset <= scroll_limit(n) ==> scrolled_down(offset, n) <= scroll_limit(n),
        scrolled_up(offset) <= offset,
        offset < scroll_limit(n) ==> scrolled_up(scrolled_down(offset, n)) == offset,
        0 < offset <= scroll_limit(n) ==> scrolled_down(scrolled_up(offset), n) == offset,
{
}

/// How long the dashboard lets pass between reloads of the state file, in
/// milliseconds.
pub const RELOAD_INTERVAL_MS: u128 = 2000;

/// How long the dashboard waits for a key before drawing again, in
/// milliseconds.
pub const KEY_WAIT_MS: u64 = 250;

/// Whether the state file is due for a reload, `elapsed_ms` milliseconds
/// (whole, rounded down) after the last one.
pub fn reload_due(elapsed_ms: u128) -> (r: bool)
    ensures
        r == (elapsed_ms >= RELOAD_INTERVAL_MS),
{
    elapsed_ms >= RELOAD_INTERVAL_MS
}

/// The dashboard.
pub struct App {
    pub workspace_root: String,
    pub workspace_name: String,
    pub state: WorkspaceState,
    pub active_panel: ActivePanel,
    pub should_quit: bool,
    pub challenge_scroll: usize,
    pub notif_scroll: usize,
}

/// Rank of a status on the dashboard: in progress first, then unsolved, then solved.
pub open spec fn status_rank(s: ChallengeStatus) -> int {
    match s {
        ChallengeStatus::InProgress => 0,
        ChallengeStatus::Unsolved => 1,
        ChallengeStatus::Solved => 2,
    }
}

fn status_rank_of(s: ChallengeStatus) -> (r: u8)
    ensures
        r == status_rank(s),
{
    match s {
        ChallengeStatus::InProgress => 0,
        ChallengeStatus::Unsolved => 1,
        ChallengeStatus::Solved => 2,
    }
}

/// The dashboard's order: by status rank, then category, then name.
pub open spec fn dashboard_before(a: ChallengeStateView, b: ChallengeStateView) -> bool {
    ||| status_rank(a.status) < status_rank(b.status)
    ||| status_rank(a.status) == status_rank(b.status) && lex_lt(a.category, b.category)
    ||| status_rank(a.status) == status_rank(b.status) && a.category == b.category && lex_lt(
        a.name,
        b.name,
    )
}

proof fn lemma_dashboard_facts(a: ChallengeStateView, b: ChallengeStateView, c: ChallengeStateView)
    ensures
        dashboard_before(a, b) ==> !dashboard_before(b, a),
        dashboard_before(a, b) && dashboard_before(b, c) ==> dashboard_before(a, c),
        dashboard_before(a, c) ==> dashboard_before(a, b) || dashboard_before(b, c),
{
    lemma_lex_asymmetric(a.category, b.category);
    lemma_lex_asymmetric(a.name, b.name);
    lemma_lex_irreflexive(a.category);
    lemma_lex_irreflexive(b.category);
    lemma_lex_irreflexive(a.name);
    lemma_lex_irreflexive(b.name);
    lemma_lex_transitive(a.category, b.category, c.category);
    lemma_lex_transitive(a.name, b.name, c.name);
    lemma_lex_transitive(b.category, a.category, c.category);
    lemma_lex_transitive(b.name, a.name, c.name);
    lemma_lex_transitive(a.category, c.category, b.category);
    lemma_lex_transitive(a.name, c.name, b.name);
    lemma_lex_total(a.category, b.category);
    lemma_lex_total(a.name, b.name);
    lemma_lex_total(b.category, c.category);
    lemma_lex_total(b.name, c.name);
}

impl<'a> Ranked for &'a ChallengeState {
    open spec fn ranks_before(a: ChallengeStateView, b: ChallengeStateView) -> bool {
        dashboard_before(a, b)
    }

    proof fn lemma_ranks_asymmetric(a: ChallengeStateView, b: ChallengeStateView) {
        lemma_dashboard_facts(a, b, b);
    }

    proof fn lemma_ranks_transitive(a: ChallengeStateView, b: ChallengeStateView, c: ChallengeStateView) {
        lemma_dashboard_facts(a, b, c);
    }

    proof fn lemma_ranks_negatively_transitive(
        a: ChallengeStateView,
        b: ChallengeStateView,
        c: ChallengeStateView,
    ) {
        lemma_dashboard_facts(a, b, c);
    }

    fn before(&self, other: &Self) -> (r: bool) {
        let ra = status_rank_of(self.status);
        let rb = status_rank_of(other.status);
        if ra != rb {
            return ra < rb;
        }
        if str_less(self.category.as_str(), other.category.as_str()) {
            return true;
        }
        if str_less(other.category.as_str(), self.category.as_str()) {
            return false;
        }
        proof {
            lemma_lex_total(self.category@, other.category@);
        }
        str_less(self.name.as_str(), other.name.as_str())
    }
}

/// How many records of `s` are solved.
pub open spec fn count_solved(s: Seq<ChallengeStateView>) -> nat
    decreases s.len(),
{
    if s.len() == 0 {
        0
    } else {
        count_solved(s.drop_last()) + if s.last().status == ChallengeStatus::Solved {
            1nat
        } else {
            0nat
        }
    }
}

/// The points recorded for the solved records of `s`.
pub open spec fn solved_points(s: Seq<ChallengeStateView>) -> nat
    decreases s.len(),
{
    if s.len() == 0 {
        0
    } else {
        solved_points(s.drop_last()) + if s.last().status == ChallengeStatus::Solved
            && s.last().points is Some {
            s.last().points->0 as nat
        } else {
            0nat
        }
    }
}

proof fn lemma_count_solved_bound(s: Seq<ChallengeStateView>)
    ensures
        count_solved(s) <= s.len(),
    decreases s.len(),
{
    if s.len() > 0 {
        lemma_count_solved_bound(s.drop_last());
    }
}

proof fn lemma_solved_points_prefix(s: Seq<ChallengeStateView>, i: int)
    requires
        0 <= i <= s.len(),
    ensures
        solved_points(s.take(i)) <= solved_points(s),
    decreases s.len() - i,
{
    if i < s.len() {
        lemma_solved_points_prefix(s, i + 1);
        assert(s.take(i + 1).drop_last() =~= s.take(i));
    } else {
        assert(s.take(i) =~= s);
    }
}

/// What the per-category tally reads of each record: category and whether solved.
pub open spec fn state_tally_items(s: Seq<ChallengeStateView>) -> Seq<TallyItem> {
    s.map_values(|c: ChallengeStateView| (c.category, c.status == ChallengeStatus::Solved, 0nat))
}

/// The rows of the dashboard's category tally, by content.
pub open spec fn tally_names(rows: Seq<(String, usize, usize)>) -> Seq<Seq<char>> {
    rows.map_values(|r: (String, usize, usize)| r.0@)
}

proof fn lemma_count_solved_items(vals: Seq<ChallengeStateView>)
    ensures
        count_solved_items(state_tally_items(vals)) == count_solved(vals),
    decreases vals.len(),
{
    if vals.len() > 0 {
        lemma_count_solved_items(vals.drop_last());
        assert(state_tally_items(vals).drop_last() =~= state_tally_items(vals.drop_last()));
    }
}

/// The dashboard's category rows account for every challenge once: their
/// totals add up to the number of challenges and their solved counts to the
/// number of solved challenges.
pub proof fn lemma_dashboard_tally_adds_up(names: Seq<Seq<char>>, vals: Seq<ChallengeStateView>)
    requires
        is_category_index(names, state_tally_items(vals)),
    ensures
        sum_counts(names, state_tally_items(vals)) == vals.len(),
        sum_solved_counts(names, state_tally_items(vals)) == count_solved(vals),
{
    lemma_tally_partitions(names, state_tally_items(vals));
    lemma_tally_solved_partitions(names, state_tally_items(vals));
    lemma_count_solved_items(vals);
}

impl App {
    /// A dashboard over `state`, focused on the challenge list, scrolled to the top.
    pub fn new(workspace_root: String, workspace_name: String, state: WorkspaceState) -> (app: Self)
        ensures
            app.workspace_root == workspace_root,
            app.workspace_name == workspace_name,
            app.state == state,
            app.active_panel == ActivePanel::Challenges,
            !app.should_quit,
            app.challenge_scroll == 0,
            app.notif_scroll == 0,
    {
        App {
            workspace_root,
            workspace_name,
            state,
            active_panel: ActivePanel::Challenges,
            should_quit: false,
            challenge_scroll: 0,
            notif_scroll: 0,
        }
    }

    /// Takes a freshly loaded state if loading succeeded, and keeps the current
    /// one otherwise.
    pub fn reload_state(&mut self, loaded: Option<WorkspaceState>)
        ensures
            final(self).state == (match loaded {
                Some(s) => s,
                None => old(self).state,
            }),
            final(self).workspace_root == old(self).workspace_root,
            final(self).workspace_name == old(self).workspace_name,
            final(self).active_panel == old(self).active_panel,
            final(self).should_quit == old(self).should_quit,
            final(self).challenge_scroll == old(self).challenge_scroll,
            final(self).notif_scroll == old(self).notif_scroll,
    {
        if let Some(new_state) = loaded {
            self.state = new_state;
        }
    }

    /// Moves the active list one item down, stopping at its last item; the
    /// queue panel does not scroll.
    pub fn scroll_down(&mut self)
        ensures
            final(self).challenge_scroll == (if old(self).active_panel == ActivePanel::Challenges {
                scrolled_down(old(self).challenge_scroll, old(self).state.challenges@.len())
            } else {
                old(self).challenge_scroll
            }),
            final(self).notif_scroll == (if old(self).active_panel == ActivePanel::Notifications {
                scrolled_down(old(self).notif_scroll, old(self).state.notifications@.len())
            } else {
                old(self).notif_scroll
            }),
            final(self).state == old(self).state,
            final(self).workspace_root == old(self).workspace_root,
            final(self).workspace_name == old(self).workspace_name,
            final(self).active_panel == old(self).active_panel,
            final(self).should_quit == old(self).should_quit,
    {
        match self.active_panel {
            ActivePanel::Challenges => {
                let n = self.state.challenges.len();
                let limit = if n > 0 {
                    n - 1
                } else {
                    0
                };
                if self.challenge_scroll < limit {
                    self.challenge_scroll = self.challenge_scroll + 1;
                }
            },
            ActivePanel::Notifications => {
                let n = self.state.notifications.len();
                let limit = if n > 0 {
                    n - 1
                } else {
                    0
                };
                if self.notif_scroll < limit {
                    self.notif_scroll = self.notif_scroll + 1;
                }
            },
            ActivePanel::Queue => {},
        }
    }

    /// Moves the active list one item up, stopping at its first item; the
    /// queue panel does not scroll.
    pub fn scroll_up(&mut self)
        ensures
            final(self).challenge_scroll == (if old(self).active_panel == ActivePanel::Challenges {
                scrolled_up(old(self).challenge_scroll)
            } else {
                old(self).challenge_scroll
            }),
            final(self).notif_scroll == (if old(self).active_panel == ActivePanel::Notifications {
                scrolled_up(old(self).notif_scroll)
            } else {
                old(self).notif_scroll
            }),
            final(self).state == old(self).state,
            final(self).workspace_root == old(self).workspace_root,
            final(self).workspace_name == old(self).workspace_name,
            final(self).active_panel == old(self).active_panel,
            final(self).should_quit == old(self).should_quit,
    {
        match self.active_panel {
            ActivePanel::Challenges => {
                if self.challenge_scroll > 0 {
                    self.challenge_scroll = self.challenge_scroll - 1;
                }
            },
            ActivePanel::Notifications => {
                if self.notif_scroll > 0 {
                    self.notif_scroll = self.notif_scroll - 1;
                }
            },
            ActivePanel::Queue => {},
        }
    }

    /// Reacts to a key: `q` or Esc quits, Tab moves the focus, Down or `j` and
    /// Up or `k` scroll the focused list. Returns whether the key asks for the
    /// state to be reloaded (`r`); the caller loads it and hands it to
    /// `reload_state`.
    pub fn handle_key(&mut self, key: Key) -> (reload: bool)
        ensures
            reload == (key == Key::Char('r')),
            final(self).should_quit == (old(self).should_quit || quits(key)),
            final(self).active_panel == (if key == Key::Tab {
                old(self).active_panel.spec_next()
            } else {
                old(self).active_panel
            }),
            final(self).challenge_scroll == (if old(self).active_panel == ActivePanel::Challenges
                && moves_down(key) {
                scrolled_down(old(self).challenge_scroll, old(self).state.challenges@.len())
            } else if old(self).active_panel == ActivePanel::Challenges && moves_up(key) {
                scrolled_up(old(self).challenge_scroll)
            } else {
                old(self).challenge_scroll
            }),
            final(self).notif_scroll == (if old(self).active_panel == ActivePanel::Notifications
                && moves_down(key) {
                scrolled_down(old(self).notif_scroll, old(self).state.notifications@.len())
            } else if old(self).active_panel == ActivePanel::Notifications && moves_up(key) {
                scrolled_up(old(self).notif_scroll)
            } else {
                old(self).notif_scroll
            }),
            final(self).state == old(self).state,
            final(self).workspace_root == old(self).workspace_root,
            final(self).workspace_name == old(self).workspace_name,
    {
        match key {
            Key::Char('q') | Key::Esc => {
                self.should_quit = true;
                false
            },
            Key::Tab => {
                self.active_panel = self.active_panel.next();
                false
            },
            Key::Char('r') => true,
            Key::Down | Key::Char('j') => {
                self.scroll_down();
                false
            },
            Key::Up | Key::Char('k') => {
                self.scroll_up();
                false
            },
            _ => false,
        }
    }

    /// How many challenges are recorded as solved.
    pub fn solved_count(&self) -> (r: usize)
        ensures
            r == count_solved(self.state.challenges.values()),
            r <= self.state.challenges@.len(),
    {
        let n = self.state.challenges.len();
        let ghost vals = self.state.challenges.values();
        let mut count: usize = 0;
        let mut i: usize = 0;
        while i < n
            invariant
                n == vals.len(),
                vals == self.state.challenges.values(),
                i <= n,
                count == count_solved(vals.take(i as int)),
            decreases n - i,
        {
            proof {
                lemma_count_solved_bound(vals.take(i as int));
                assert(vals.take(i + 1).drop_last() =~= vals.take(i as int));
            }
            let c = self.state.challenges.value_at(i);
            if c.status == ChallengeStatus::Solved {
                count = count + 1;
            }
            i = i + 1;
        }
        assert(vals.take(n as int) =~= vals);
        proof {
            lemma_count_solved_bound(vals);
        }
        count
    }

    /// The points recorded for the solved challenges.
    pub fn total_points(&self) -> (r: u32)
        requires
            solved_points(self.state.challenges.values()) <= u32::MAX,
        ensures
            r == solved_points(self.state.challenges.values()),
    {
        let n = self.state.challenges.len();
        let ghost vals = self.state.challenges.values();
        let mut sum: u32 = 0;
        let mut i: usize = 0;
        while i < n
            invariant
                n == vals.len(),
                vals == self.state.challenges.values(),
                solved_points(vals) <= u32::MAX,
                i <= n,
                sum == solved_points(vals.take(i as int)),
            decreases n - i,
        {
            proof {
                assert(vals.take(i + 1).drop_last() =~= vals.take(i as int));
                lemma_solved_points_prefix(vals, i + 1);
            }
            let c = self.state.challenges.value_at(i);
            if c.status == ChallengeStatus::Solved {
                if let Some(p) = c.points {
                    sum = sum + p;
                }
            }
            i = i + 1;
        }
        assert(vals.take(n as int) =~= vals);
        sum
    }

    /// The challenges in dashboard order: in progress, then unsolved, then
    /// solved; within a status by category, then by name.
    pub fn sorted_challenges(&self) -> (r: Vec<&ChallengeState>)
        ensures
            is_stable_sort_of::<&ChallengeState>(views(r@), self.state.challenges.values()),
    {
        let n = self.state.challenges.len();
        let mut all: Vec<&ChallengeState> = Vec::new();
        let mut i: usize = 0;
        while i < n
            invariant
                n == self.state.challenges.values().len(),
                i <= n,
                all@.len() == i,
                forall|j: int| 0 <= j < i ==> (#[trigger] all@[j])@ == self.state.challenges.values()[j],
            decreases n - i,
        {
            all.push(self.state.challenges.value_at(i));
            i = i + 1;
        }
        assert(views(all@) =~= self.state.challenges.values());
        stable_sort(all)
    }

    /// Per category, in category order: the category, how many of its
    /// challenges are solved, and how many it has.
    pub fn categories(&self) -> (r: Vec<(String, usize, usize)>)
        ensures
            ({
                let items = state_tally_items(self.state.challenges.values());
                &&& is_category_index(tally_names(r@), items)
                &&& forall|k: int|
                    #![trigger r@[k]]
                    0 <= k < r@.len() ==> r@[k].1 == count_cat_solved(items, r@[k].0@) && r@[k].2
                        == count_cat(items, r@[k].0@)
            }),
    {
        let n = self.state.challenges.len();
        let ghost items = state_tally_items(self.state.challenges.values());
        let mut rows: Vec<(String, usize, usize)> = Vec::new();
        let mut names: Vec<String> = Vec::new();
        let mut i: usize = 0;
        while i < n
            invariant
                n == items.len(),
                items == state_tally_items(self.state.challenges.values()),
                i <= n,
                rows@.len() == names@.len(),
                forall|k: int| 0 <= k < rows@.len() ==> (#[trigger] rows@[k]).0@ == names@[k]@,
                is_category_index(tally_names(rows@), items.take(i as int)),
                forall|k: int|
                    #![trigger rows@[k]]
                    0 <= k < rows@.len() ==> rows@[k].1 == count_cat_solved(items.take(i as int), rows@[k].0@)
                        && rows@[k].2 == count_cat(items.take(i as int), rows@[k].0@),
            decreases n - i,
        {
            let ghost before = items.take(i as int);
            let ghost after = items.take(i + 1);
            let ghost prev_names = tally_names(rows@);
            let ghost prev_rows = rows@;
            proof {
                assert(after.drop_last() =~= before);
                assert(tally_names(rows@) =~= names@.map_values(|s: String| s@));
            }
            let c = self.state.challenges.value_at(i);
            let solved = c.status == ChallengeStatus::Solved;
            let (p, found) = locate_category(&names, c.category.as_str());
            proof {
                assert(after.last() == (c@.category, solved, 0nat));
                lemma_index_step(prev_names, before, after, p as int, found);
                lemma_count_bounds(before, c@.category);
            }
            if found {
                let (name, s, t) = rows.remove(p);
                let s2 = if solved {
                    s + 1
                } else {
                    s
                };
                rows.insert(p, (name, s2, t + 1));
                assert(tally_names(rows@) =~= prev_names);
            } else {
                rows.insert(p, (c.category.clone(), if solved {
                    1
                } else {
                    0
                }, 1));
                names.insert(p, c.category.clone());
                assert(tally_names(rows@) =~= prev_names.insert(p as int, c@.category));
            }
            proof {
                assert forall|k: int|
                    #![trigger rows@[k]]
                    0 <= k < rows@.len() implies rows@[k].1 == count_cat_solved(after, rows@[k].0@)
                        && rows@[k].2 == count_cat(after, rows@[k].0@) by {
                    if found {
                        if k != p {
                            assert(rows@[k] == prev_rows[k]);
                            assert(prev_names[k] != c@.category);
                        }
                    } else if k < p {
                        assert(rows@[k] == prev_rows[k]);
                        assert(prev_names[k] != c@.category);
                    } else if k > p {
                        assert(rows@[k] == prev_rows[k - 1]);
                        assert(prev_names[k - 1] != c@.category);
                    }
                }
            }
            i = i + 1;
        }
        assert(items.take(n as int) =~= items);
        rows
    }
}

/// The dashboard order of a sorted list: wherever two records stand in the
/// output of a sort by dashboard rank, a lower status rank comes first; within
/// a status the smaller category (in code-point order) comes first; within a
/// status and category the smaller name comes first.
pub proof fn lemma_dashboard_sorted_order(
    out: Seq<ChallengeStateView>,
    inp: Seq<ChallengeStateView>,
    i: int,
    j: int,
)
    requires
        is_stable_sort_of::<&ChallengeState>(out, inp),
        0 <= i < out.len(),
        0 <= j < out.len(),
    ensures
        status_rank(out[i].status) < status_rank(out[j].status) ==> i < j,
        status_rank(out[i].status) == status_rank(out[j].status) && lex_lt(out[i].category, out[j].category)
            ==> i < j,
        status_rank(out[i].status) == status_rank(out[j].status) && out[i].category == out[j].category
            && lex_lt(out[i].name, out[j].name) ==> i < j,
{
    let idx = choose|idx: Seq<int>| is_stable_arrangement::<&ChallengeState>(out, inp, idx);
    assert(sorted_by_rank::<&ChallengeState>(out));
    lemma_lex_irreflexive(out[i].category);
    lemma_lex_irreflexive(out[i].name);
    if j < i {
        assert(!<&ChallengeState as Ranked>::ranks_before(out[i], out[j]));
    }
}

/// What a record adds to the dashboard's counts: one solve if it is solved,
/// and its points if it is solved and has points, whatever else it records
/// (its flag among them). A list without records counts nothing.
pub proof fn lemma_dashboard_counts_step(s: Seq<ChallengeStateView>, e: ChallengeStateView)
    ensures
        count_solved(Seq::<ChallengeStateView>::empty()) == 0,
        solved_points(Seq::<ChallengeStateView>::empty()) == 0,
        count_solved(s.push(e)) == count_solved(s) + (if e.status == ChallengeStatus::Solved {
            1int
        } else {
            0int
        }),
        solved_points(s.push(e)) == solved_points(s) + (if e.status == ChallengeStatus::Solved {
            match e.points {
                Some(p) => p as int,
                None => 0int,
            }
        } else {
            0int
        }),
{
    assert(s.push(e).drop_last() =~= s);
}

} // verus!
