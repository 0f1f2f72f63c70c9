//! The decisions of a sync, one step at a time: which directory to create,
//! which file to download, whether to fetch full details, which free hints to
//! unlock, what to fetch again, which state update to make, and the summary.
//! The caller performs each action and hands back what came of it.
use vstd::prelude::*;

use crate::mcp::{
    challenges_to_refetch, free_hints_to_unlock, free_locked_hint_ids, has_free_locked,
    replace_challenge, sync_summary, sync_summary_text,
};
use crate::platform::types::{strs_view, Challenge, ChallengeView};
use crate::sorting::views;

verus! {

/// Where a sync stands.
#[derive(Debug, Clone, Copy, PartialEq, Eq, Structural)]
pub enum SyncPhase {
    Scaffold,
    CheckFile,
    Download,
    FetchDetails,
    Unlock,
    Refetch,
    Save,
    Notifications,
    Done,
}

/// What the caller is asked to do next.
#[derive(Debug)]
pub enum SyncAction {
    /// Create the directory of the listed challenge at `index`, if missing.
    Scaffold { index: usize },
    /// Look whether file `file` of the listed challenge at `index` is on disk.
    CheckFile { index: usize, file: usize },
    /// Download file `file` of the listed challenge at `index`.
    Download { index: usize, file: usize },
    /// Fetch the full details of every listed challenge.
    FetchDetails,
    /// Unlock the hint with this id.
    UnlockHint { id: String },
    /// Fetch the details of the challenge with this id again.
    Refetch { id: String },
    /// Record a plain sync of the listed challenges in the state file.
    SaveSync,
    /// Record a full sync of the detailed challenges in the state file.
    SaveSyncFull,
    /// Fetch the notifications.
    FetchNotifications,
    /// The sync is over; answer with this summary.
    Answer { summary: String },
}

/// What came of the last action.
#[derive(Debug)]
pub enum SyncEvent {
    Scaffolded { created: bool },
    FileChecked { exists: bool },
    Downloaded { ok: bool },
    /// The details that could be fetched.
    DetailsFetched { detailed: Vec<Challenge> },
    HintUnlocked { ok: bool },
    /// The challenge fetched again, if the fetch succeeded.
    Refetched { challenge: Option<Challenge> },
    Saved,
    NotificationsFetched { count: usize },
}

/// An action, by content.
pub enum SyncActionView {
    Scaffold { index: nat },
    CheckFile { index: nat, file: nat },
    Download { index: nat, file: nat },
    FetchDetails,
    UnlockHint { id: Seq<char> },
    Refetch { id: Seq<char> },
    SaveSync,
    SaveSyncFull,
    FetchNotifications,
    Answer { summary: Seq<char> },
}

/// An outcome, by content.
pub enum SyncEventView {
    Scaffolded { created: bool },
    FileChecked { exists: bool },
    Downloaded { ok: bool },
    DetailsFetched { detailed: Seq<ChallengeView> },
    HintUnlocked { ok: bool },
    Refetched { challenge: Option<ChallengeView> },
    Saved,
    NotificationsFetched { count: nat },
}

impl View for SyncAction {
    type V = SyncActionView;

    open spec fn view(&self) -> SyncActionView {
        match self {
            SyncAction::Scaffold { index } => SyncActionView::Scaffold { index: *index as nat },
            SyncAction::CheckFile { index, file } => SyncActionView::CheckFile {
                index: *index as nat,
                file: *file as nat,
            },
            SyncAction::Download { index, file } => SyncActionView::Download {
                index: *index as nat,
                file: *file as nat,
            },
            SyncAction::FetchDetails => SyncActionView::FetchDetails,
            SyncAction::UnlockHint { id } => SyncActionView::UnlockHint { id: id@ },
            SyncAction::Refetch { id } => SyncActionView::Refetch { id: id@ },
            SyncAction::SaveSync => SyncActionView::SaveSync,
            SyncAction::SaveSyncFull => SyncActionView::SaveSyncFull,
            SyncAction::FetchNotifications => SyncActionView::FetchNotifications,
            SyncAction::Answer { summary } => SyncActionView::Answer { summary: summary@ },
        }
    }
}

impl View for SyncEvent {
    type V = SyncEventView;

    open spec fn view(&self) -> SyncEventView {
        match self {
            SyncEvent::Scaffolded { created } => SyncEventView::Scaffolded { created: *created },
            SyncEvent::FileChecked { exists } => SyncEventView::FileChecked { exists: *exists },
            SyncEvent::Downloaded { ok } => SyncEventView::Downloaded { ok: *ok },
            SyncEvent::DetailsFetched { detailed } => SyncEventView::DetailsFetched {
                detailed: views(detailed@),
            },
            SyncEvent::HintUnlocked { ok } => SyncEventView::HintUnlocked { ok: *ok },
            SyncEvent::Refetched { challenge } => SyncEventView::Refetched {
                challenge: match challenge {
                    Some(c) => Some(c@),
                    None => None,
                },
            },
            SyncEvent::Saved => SyncEventView::Saved,
            SyncEvent::NotificationsFetched { count } => SyncEventView::NotificationsFetched {
                count: *count as nat,
            },
        }
    }
}

/// A sync under way.
pub struct SyncRun {
    listed: Vec<Challenge>,
    full: bool,
    phase: SyncPhase,
    index: usize,
    file: usize,
    new_count: u32,
    file_count: u32,
    detailed: Vec<Challenge>,
    unlock: Vec<String>,
    unlock_pos: usize,
    hints_unlocked: u32,
    refetch: Vec<String>,
    refetch_pos: usize,
    notif_count: usize,
}

/// A sync under way, by content: the challenges listed, whether full details
/// are wanted, where it stands, what it has counted, the detailed challenges,
/// the free hints to unlock and the challenges to fetch again (each with how
/// far it got), and the number of notifications fetched.
pub struct SyncRunView {
    pub listed: Seq<ChallengeView>,
    pub full: bool,
    pub phase: SyncPhase,
    pub index: nat,
    pub file: nat,
    pub new_count: nat,
    pub file_count: nat,
    pub detailed: Seq<ChallengeView>,
    pub unlock: Seq<Seq<char>>,
    pub unlock_pos: nat,
    pub hints_unlocked: nat,
    pub refetch: Seq<Seq<char>>,
    pub refetch_pos: nat,
    pub notif_count: nat,
}

impl View for SyncRun {
    type V = SyncRunView;

    closed spec fn view(&self) -> SyncRunView {
        SyncRunView {
            listed: views(self.listed@),
            full: self.full,
            phase: self.phase,
            index: self.index as nat,
            file: self.file as nat,
            new_count: self.new_count as nat,
            file_count: self.file_count as nat,
            detailed: views(self.detailed@),
            unlock: strs_view(self.unlock@),
            unlock_pos: self.unlock_pos as nat,
            hints_unlocked: self.hints_unlocked as nat,
            refetch: strs_view(self.refetch@),
            refetch_pos: self.refetch_pos as nat,
            notif_count: self.notif_count as nat,
        }
    }
}

// ---------------------------------------------------------------------------
// The model
// ---------------------------------------------------------------------------

/// How many files the challenges of `cs` carry in all.
pub open spec fn files_total(cs: Seq<ChallengeView>) -> nat
    decreases cs.len(),
{
    if cs.len() == 0 {
        0
    } else {
        files_total(cs.drop_last()) + cs.last().files.len()
    }
}

/// Once the listed challenges are all scaffolded: full details are fetched
/// if wanted, else the state is saved.
pub open spec fn after_listing(v: SyncRunView) -> SyncRunView {
    SyncRunView {
        phase: if v.full {
            SyncPhase::FetchDetails
        } else {
            SyncPhase::Save
        },
        index: v.listed.len(),
        file: 0,
        ..v
    }
}

/// The run about to look at file `j` of listed challenge `i`: that file if
/// there is one, else the next challenge, else what follows the listing.
pub open spec fn at_file(v: SyncRunView, i: nat, j: nat) -> SyncRunView {
    if j < v.listed[i as int].files.len() {
        SyncRunView { phase: SyncPhase::CheckFile, index: i, file: j, ..v }
    } else if i + 1 < v.listed.len() {
        SyncRunView { phase: SyncPhase::Scaffold, index: i + 1, file: 0, ..v }
    } else {
        after_listing(v)
    }
}

/// The run about to fetch again challenge `refetch_pos` of its list, or to
/// save once none is left.
pub open spec fn at_refetch(v: SyncRunView) -> SyncRunView {
    if v.refetch_pos < v.refetch.len() {
        SyncRunView { phase: SyncPhase::Refetch, ..v }
    } else {
        SyncRunView { phase: SyncPhase::Save, ..v }
    }
}

/// The run about to unlock hint `unlock_pos` of its list; once none is left,
/// challenges are fetched again only if some hint was unlocked.
pub open spec fn at_unlock(v: SyncRunView) -> SyncRunView {
    if v.unlock_pos < v.unlock.len() {
        SyncRunView { phase: SyncPhase::Unlock, ..v }
    } else if v.hints_unlocked > 0 {
        at_refetch(v)
    } else {
        SyncRunView { phase: SyncPhase::Save, ..v }
    }
}

/// A sync of `listed` as it starts.
pub open spec fn initial_run(listed: Seq<ChallengeView>, full: bool) -> SyncRunView {
    let v = SyncRunView {
        listed: listed,
        full: full,
        phase: SyncPhase::Scaffold,
        index: 0,
        file: 0,
        new_count: 0,
        file_count: 0,
        detailed: Seq::empty(),
        unlock: Seq::empty(),
        unlock_pos: 0,
        hints_unlocked: 0,
        refetch: Seq::empty(),
        refetch_pos: 0,
        notif_count: 0,
    };
    if listed.len() > 0 {
        v
    } else {
        after_listing(v)
    }
}

/// The position of the first challenge of `s` with id `id`, if any.
pub open spec fn first_with_id(s: Seq<ChallengeView>, id: Seq<char>) -> Option<int> {
    if exists|j: int|
        0 <= j < s.len() && s[j].id == id && forall|k: int| 0 <= k < j ==> (#[trigger] s[k]).id != id {
        Some(
            choose|j: int|
                0 <= j < s.len() && s[j].id == id && forall|k: int|
                    0 <= k < j ==> (#[trigger] s[k]).id != id,
        )
    } else {
        None
    }
}

/// `s` with its first challenge of id `id`, if any, replaced by `c`.
pub open spec fn replaced_first(s: Seq<ChallengeView>, id: Seq<char>, c: ChallengeView) -> Seq<ChallengeView> {
    match first_with_id(s, id) {
        Some(j) => s.update(j, c),
        None => s,
    }
}

/// The run after `e`. An event that does not answer the pending action
/// changes nothing.
pub open spec fn next_run(v: SyncRunView, e: SyncEventView) -> SyncRunView {
    match (v.phase, e) {
        (SyncPhase::Scaffold, SyncEventView::Scaffolded { created }) => at_file(
            SyncRunView {
                new_count: if created {
                    v.new_count + 1
                } else {
                    v.new_count
                },
                ..v
            },
            v.index,
            0,
        ),
        (SyncPhase::CheckFile, SyncEventView::FileChecked { exists }) => if exists {
            at_file(v, v.index, v.file + 1)
        } else {
            SyncRunView { phase: SyncPhase::Download, ..v }
        },
        (SyncPhase::Download, SyncEventView::Downloaded { ok }) => at_file(
            SyncRunView {
                file_count: if ok {
                    v.file_count + 1
                } else {
                    v.file_count
                },
                ..v
            },
            v.index,
            v.file + 1,
        ),
        (SyncPhase::FetchDetails, SyncEventView::DetailsFetched { detailed }) => at_unlock(
            SyncRunView {
                detailed: detailed,
                unlock: free_locked_hint_ids(detailed),
                unlock_pos: 0,
                hints_unlocked: 0,
                refetch: detailed.filter(|c: ChallengeView| has_free_locked(c)).map_values(
                    |c: ChallengeView| c.id,
                ),
                refetch_pos: 0,
                ..v
            },
        ),
        (SyncPhase::Unlock, SyncEventView::HintUnlocked { ok }) => at_unlock(
            SyncRunView {
                unlock_pos: v.unlock_pos + 1,
                hints_unlocked: if ok {
                    v.hints_unlocked + 1
                } else {
                    v.hints_unlocked
                },
                ..v
            },
        ),
        (SyncPhase::Refetch, SyncEventView::Refetched { challenge }) => at_refetch(
            SyncRunView {
                detailed: match challenge {
                    Some(c) => replaced_first(v.detailed, v.refetch[v.refetch_pos as int], c),
                    None => v.detailed,
                },
                refetch_pos: v.refetch_pos + 1,
                ..v
            },
        ),
        (SyncPhase::Save, SyncEventView::Saved) => SyncRunView { phase: SyncPhase::Notifications, ..v },
        (SyncPhase::Notifications, SyncEventView::NotificationsFetched { count }) => SyncRunView {
            phase: SyncPhase::Done,
            notif_count: count,
            ..v
        },
        _ => v,
    }
}

/// The action a run asks for.
pub open spec fn pending_action(v: SyncRunView) -> SyncActionView {
    match v.phase {
        SyncPhase::Scaffold => SyncActionView::Scaffold { index: v.index },
        SyncPhase::CheckFile => SyncActionView::CheckFile { index: v.index, file: v.file },
        SyncPhase::Download => SyncActionView::Download { index: v.index, file: v.file },
        SyncPhase::FetchDetails => SyncActionView::FetchDetails,
        SyncPhase::Unlock => SyncActionView::UnlockHint { id: v.unlock[v.unlock_pos as int] },
        SyncPhase::Refetch => SyncActionView::Refetch { id: v.refetch[v.refetch_pos as int] },
        SyncPhase::Save => if v.full {
            SyncActionView::SaveSyncFull
        } else {
            SyncActionView::SaveSync
        },
        SyncPhase::Notifications => SyncActionView::FetchNotifications,
        SyncPhase::Done => SyncActionView::Answer {
            summary: sync_summary_text(
                v.listed.len(),
                v.new_count,
                v.file_count,
                v.full,
                v.hints_unlocked,
                v.notif_count,
            ),
        },
    }
}

/// How many challenges have been scaffolded.
pub open spec fn scaffolds_done(v: SyncRunView) -> nat {
    match v.phase {
        SyncPhase::Scaffold => v.index,
        SyncPhase::CheckFile | SyncPhase::Download => v.index + 1,
        _ => v.listed.len(),
    }
}

/// How many files have been looked at.
pub open spec fn files_done(v: SyncRunView) -> nat {
    match v.phase {
        SyncPhase::Scaffold => files_total(v.listed.take(v.index as int)),
        SyncPhase::CheckFile | SyncPhase::Download => files_total(v.listed.take(v.index as int)) + v.file,
        _ => files_total(v.listed),
    }
}

/// What holds of a run at every step.
pub open spec fn run_wf(v: SyncRunView) -> bool {
    &&& v.listed.len() <= u32::MAX
    &&& files_total(v.listed) <= u32::MAX
    &&& v.index <= v.listed.len()
    &&& (v.phase == SyncPhase::Scaffold ==> v.index < v.listed.len() && v.file == 0)
    &&& (v.phase == SyncPhase::CheckFile || v.phase == SyncPhase::Download) ==> v.index < v.listed.len()
        && v.file < v.listed[v.index as int].files.len()
    &&& (v.phase != SyncPhase::Scaffold && v.phase != SyncPhase::CheckFile && v.phase
        != SyncPhase::Download) ==> v.index == v.listed.len() && v.file == 0
    &&& v.new_count <= scaffolds_done(v)
    &&& v.file_count <= files_done(v)
    &&& v.unlock.len() <= u32::MAX
    &&& v.unlock_pos <= v.unlock.len()
    &&& v.hints_unlocked <= v.unlock_pos
    &&& v.refetch_pos <= v.refetch.len()
    &&& (v.phase == SyncPhase::Unlock ==> v.unlock_pos < v.unlock.len())
    &&& (v.phase == SyncPhase::Refetch ==> v.refetch_pos < v.refetch.len() && v.hints_unlocked > 0)
    &&& v.notif_count <= usize::MAX
    &&& !v.full ==> v.phase != SyncPhase::FetchDetails && v.phase != SyncPhase::Unlock && v.phase
        != SyncPhase::Refetch
}

/// Files of the first `i` challenges never outnumber the files of all.
pub proof fn lemma_files_prefix(cs: Seq<ChallengeView>, i: int)
    requires
        0 <= i < cs.len(),
    ensures
        files_total(cs.take(i)) + cs[i].files.len() == files_total(cs.take(i + 1)),
        files_total(cs.take(i + 1)) <= files_total(cs),
    decreases cs.len(),
{
    assert(cs.take(i + 1).drop_last() =~= cs.take(i));
    if i + 1 < cs.len() {
        lemma_files_prefix(cs.drop_last(), i);
        assert(cs.drop_last().take(i) =~= cs.take(i));
        assert(cs.drop_last().take(i + 1) =~= cs.take(i + 1));
    } else {
        assert(cs.take(i + 1) =~= cs);
    }
}

/// A file is downloaded only once it was found missing: a run asks for a
/// download right after the check of that same file answered that it is not
/// on disk, or again while that download is unanswered.
pub proof fn lemma_sync_downloads_only_missing(v: SyncRunView, e: SyncEventView)
    requires
        run_wf(v),
    ensures
        next_run(v, e).phase == SyncPhase::Download ==> (v.phase == SyncPhase::Download && next_run(v, e)
            == v) || (v.phase == SyncPhase::CheckFile && e == (SyncEventView::FileChecked { exists: false })
            && next_run(v, e).index == v.index && next_run(v, e).file == v.file),
{
}

/// What a sync counts: a new directory for each scaffolding that created one,
/// a file for each download that succeeded, a hint for each unlock that
/// succeeded; no other step changes a count, but fetched details start the
/// hint count afresh.
pub proof fn lemma_sync_counts(v: SyncRunView, e: SyncEventView)
    requires
        run_wf(v),
    ensures
        next_run(v, e).new_count == v.new_count + (if v.phase == SyncPhase::Scaffold && e
            == (SyncEventView::Scaffolded { created: true }) {
            1int
        } else {
            0int
        }),
        next_run(v, e).file_count == v.file_count + (if v.phase == SyncPhase::Download && e
            == (SyncEventView::Downloaded { ok: true }) {
            1int
        } else {
            0int
        }),
        next_run(v, e).hints_unlocked == (if v.phase == SyncPhase::FetchDetails
            && e is DetailsFetched {
            0int
        } else if v.phase == SyncPhase::Unlock && e == (SyncEventView::HintUnlocked { ok: true }) {
            v.hints_unlocked + 1int
        } else {
            v.hints_unlocked as int
        }),
{
}

/// Details are fetched again only once some free hint was unlocked, and only
/// by a run that wants full details; a run without them never fetches details
/// or unlocks hints, and records a plain sync.
pub proof fn lemma_sync_full_or_plain(v: SyncRunView)
    requires
        run_wf(v),
    ensures
        pending_action(v) is Refetch ==> v.full && v.hints_unlocked > 0,
        pending_action(v) is FetchDetails || pending_action(v) is UnlockHint ==> v.full,
        pending_action(v) is SaveSyncFull ==> v.full,
        pending_action(v) is SaveSync ==> !v.full,
{
}

/// How a sync ends: once the state is saved the notifications are fetched,
/// and once they are the answer is the summary of the listed count, the new
/// directories, the files downloaded, whether details were cached, the hints
/// unlocked and the notifications fetched.
pub proof fn lemma_sync_ends(v: SyncRunView, count: nat)
    requires
        run_wf(v),
    ensures
        v.phase == SyncPhase::Save ==> pending_action(next_run(v, SyncEventView::Saved))
            == SyncActionView::FetchNotifications,
        v.phase == SyncPhase::Notifications ==> pending_action(
            next_run(v, SyncEventView::NotificationsFetched { count }),
        ) == (SyncActionView::Answer {
            summary: sync_summary_text(
                v.listed.len(),
                v.new_count,
                v.file_count,
                v.full,
                v.hints_unlocked,
                count,
            ),
        }),
{
}

// ---------------------------------------------------------------------------
// The steps
// ---------------------------------------------------------------------------

impl SyncRun {
    /// The challenges the sync lists.
    pub fn listed(&self) -> (r: &Vec<Challenge>)
        ensures
            views(r@) == self@.listed,
    {
        &self.listed
    }

    /// The challenges with their full details, as far as fetched.
    pub fn detailed(&self) -> (r: &Vec<Challenge>)
        ensures
            views(r@) == self@.detailed,
    {
        &self.detailed
    }

    /// The action the run asks for.
    pub fn pending(&self) -> (a: SyncAction)
        requires
            run_wf(self@),
        ensures
            a@ == pending_action(self@),
    {
        match self.phase {
            SyncPhase::Scaffold => SyncAction::Scaffold { index: self.index },
            SyncPhase::CheckFile => SyncAction::CheckFile { index: self.index, file: self.file },
            SyncPhase::Download => SyncAction::Download { index: self.index, file: self.file },
            SyncPhase::FetchDetails => SyncAction::FetchDetails,
            SyncPhase::Unlock => SyncAction::UnlockHint { id: self.unlock[self.unlock_pos].clone() },
            SyncPhase::Refetch => SyncAction::Refetch { id: self.refetch[self.refetch_pos].clone() },
            SyncPhase::Save => if self.full {
                SyncAction::SaveSyncFull
            } else {
                SyncAction::SaveSync
            },
            SyncPhase::Notifications => SyncAction::FetchNotifications,
            SyncPhase::Done => SyncAction::Answer {
                summary: sync_summary(
                    self.listed.len(),
                    self.new_count,
                    self.file_count,
                    self.full,
                    self.hints_unlocked,
                    self.notif_count,
                ),
            },
        }
    }

    /// Starts a sync of `challenges`, fetching full details if `full`; the
    /// counts it keeps must fit in 32 bits.
    pub fn start(challenges: Vec<Challenge>, full: bool) -> (r: (SyncRun, SyncAction))
        requires
            challenges@.len() <= u32::MAX,
            files_total(views(challenges@)) <= u32::MAX,
        ensures
            r.0@ == initial_run(views(challenges@), full),
            run_wf(r.0@),
            r.1@ == pending_action(r.0@),
    {
        let n = challenges.len();
        let run = SyncRun {
            listed: challenges,
            full: full,
            phase: if n > 0 {
                SyncPhase::Scaffold
            } else if full {
                SyncPhase::FetchDetails
            } else {
                SyncPhase::Save
            },
            index: 0,
            file: 0,
            new_count: 0,
            file_count: 0,
            detailed: Vec::new(),
            unlock: Vec::new(),
            unlock_pos: 0,
            hints_unlocked: 0,
            refetch: Vec::new(),
            refetch_pos: 0,
            notif_count: 0,
        };
        proof {
            assert(views(run.detailed@) =~= Seq::<ChallengeView>::empty());
            assert(strs_view(run.unlock@) =~= Seq::<Seq<char>>::empty());
            assert(strs_view(run.refetch@) =~= Seq::<Seq<char>>::empty());
            assert(run@ == initial_run(views(challenges@), full));
            assert(views(challenges@).take(0) =~= Seq::<ChallengeView>::empty());
        }
        let a = run.pending();
        (run, a)
    }

    /// Moves to file `j` of listed challenge `i`, or past it.
    fn go_to_file(&mut self, i: usize, j: usize)
        requires
            i < old(self).listed@.len(),
        ensures
            final(self)@ == at_file(old(self)@, i as nat, j as nat),
    {
        if j < self.listed[i].files.len() {
            self.phase = SyncPhase::CheckFile;
            self.index = i;
            self.file = j;
        } else if i < self.listed.len() - 1 {
            self.phase = SyncPhase::Scaffold;
            self.index = i + 1;
            self.file = 0;
        } else {
            self.phase = if self.full {
                SyncPhase::FetchDetails
            } else {
                SyncPhase::Save
            };
            self.index = self.listed.len();
            self.file = 0;
        }
    }

    /// Moves to the next challenge to fetch again, or to saving.
    fn go_to_refetch(&mut self)
        ensures
            final(self)@ == at_refetch(old(self)@),
    {
        if self.refetch_pos < self.refetch.len() {
            self.phase = SyncPhase::Refetch;
        } else {
            self.phase = SyncPhase::Save;
        }
    }

    /// Moves to the next hint to unlock, or past the unlocking.
    fn go_to_unlock(&mut self)
        ensures
            final(self)@ == at_unlock(old(self)@),
    {
        if self.unlock_pos < self.unlock.len() {
            self.phase = SyncPhase::Unlock;
        } else if self.hints_unlocked > 0 {
            self.go_to_refetch();
        } else {
            self.phase = SyncPhase::Save;
        }
    }

    /// A challenge directory was handled; counts it if it was created.
    fn on_scaffolded(&mut self, created: bool)
        requires
            run_wf(old(self)@),
            old(self)@.phase == SyncPhase::Scaffold,
        ensures
            final(self)@ == next_run(old(self)@, SyncEventView::Scaffolded { created }),
            run_wf(final(self)@),
    {
        let ghost v = self@;
        proof {
            lemma_files_prefix(v.listed, v.index as int);
        }
        if created {
            self.new_count = self.new_count + 1;
        }
        let i = self.index;
        self.go_to_file(i, 0);
    }

    /// A file was looked for; a missing one is downloaded next.
    fn on_file_checked(&mut self, exists: bool)
        requires
            run_wf(old(self)@),
            old(self)@.phase == SyncPhase::CheckFile,
        ensures
            final(self)@ == next_run(old(self)@, SyncEventView::FileChecked { exists }),
            run_wf(final(self)@),
    {
        let ghost v = self@;
        if exists {
            proof {
                lemma_files_prefix(v.listed, v.index as int);
            }
            let i = self.index;
            let j = self.file + 1;
            self.go_to_file(i, j);
        } else {
            self.phase = SyncPhase::Download;
        }
    }

    /// A download ended; counts it if it succeeded.
    fn on_downloaded(&mut self, ok: bool)
        requires
            run_wf(old(self)@),
            old(self)@.phase == SyncPhase::Download,
        ensures
            final(self)@ == next_run(old(self)@, SyncEventView::Downloaded { ok }),
            run_wf(final(self)@),
    {
        let ghost v = self@;
        proof {
            lemma_files_prefix(v.listed, v.index as int);
        }
        if ok {
            self.file_count = self.file_count + 1;
        }
        let i = self.index;
        let j = self.file + 1;
        self.go_to_file(i, j);
    }

    /// Full details came back; lists the free hints to unlock and the
    /// challenges to fetch again should any be unlocked.
    fn on_details(&mut self, detailed: Vec<Challenge>)
        requires
            run_wf(old(self)@),
            old(self)@.phase == SyncPhase::FetchDetails,
            free_locked_hint_ids(views(detailed@)).len() <= u32::MAX,
        ensures
            final(self)@ == next_run(old(self)@, SyncEventView::DetailsFetched { detailed: views(detailed@) }),
            run_wf(final(self)@),
    {
        self.unlock = free_hints_to_unlock(&detailed);
        self.refetch = challenges_to_refetch(&detailed);
        self.detailed = detailed;
        self.unlock_pos = 0;
        self.hints_unlocked = 0;
        self.refetch_pos = 0;
        self.go_to_unlock();
    }

    /// An unlock ended; counts it if it succeeded.
    fn on_hint_unlocked(&mut self, ok: bool)
        requires
            run_wf(old(self)@),
            old(self)@.phase == SyncPhase::Unlock,
        ensures
            final(self)@ == next_run(old(self)@, SyncEventView::HintUnlocked { ok }),
            run_wf(final(self)@),
    {
        self.unlock_pos = self.unlock_pos + 1;
        if ok {
            self.hints_unlocked = self.hints_unlocked + 1;
        }
        self.go_to_unlock();
    }

    /// A challenge was fetched again; a successful fetch replaces its details.
    fn on_refetched(&mut self, challenge: Option<Challenge>)
        requires
            run_wf(old(self)@),
            old(self)@.phase == SyncPhase::Refetch,
        ensures
            final(self)@ == next_run(
                old(self)@,
                SyncEventView::Refetched {
                    challenge: match challenge {
                        Some(c) => Some(c@),
                        None => None,
                    },
                },
            ),
            run_wf(final(self)@),
    {
        assert(strs_view(self.refetch@).len() == self.refetch@.len());
        let count = self.refetch.len();
        assert(self.refetch_pos < count);
        let next_pos = self.refetch_pos + 1;
        match challenge {
            Some(c) => {
                let ghost d0 = views(self.detailed@);
                let ghost id = strs_view(self.refetch@)[self.refetch_pos as int];
                let found = replace_challenge(&mut self.detailed, self.refetch[self.refetch_pos].as_str(), c);
                proof {
                    lemma_replace_is_first(d0, id, c@, found, views(self.detailed@));
                }
            },
            None => {},
        }
        self.refetch_pos = next_pos;
        self.go_to_refetch();
    }

    /// Takes what came of the pending action and returns the next one. An
    /// event that does not answer the pending action changes nothing. The
    /// free hints that fetched details offer must be countable in 32 bits.
    pub fn step(&mut self, event: SyncEvent) -> (a: SyncAction)
        requires
            run_wf(old(self)@),
            event matches SyncEvent::DetailsFetched { detailed } ==> free_locked_hint_ids(
                views(detailed@),
            ).len() <= u32::MAX,
        ensures
            final(self)@ == next_run(old(self)@, event@),
            run_wf(final(self)@),
            a@ == pending_action(final(self)@),
    {
        match event {
            SyncEvent::Scaffolded { created } => {
                if self.phase == SyncPhase::Scaffold {
                    self.on_scaffolded(created);
                }
            },
            SyncEvent::FileChecked { exists } => {
                if self.phase == SyncPhase::CheckFile {
                    self.on_file_checked(exists);
                }
            },
            SyncEvent::Downloaded { ok } => {
                if self.phase == SyncPhase::Download {
                    self.on_downloaded(ok);
                }
            },
            SyncEvent::DetailsFetched { detailed } => {
                if self.phase == SyncPhase::FetchDetails {
                    self.on_details(detailed);
                }
            },
            SyncEvent::HintUnlocked { ok } => {
                if self.phase == SyncPhase::Unlock {
                    self.on_hint_unlocked(ok);
                }
            },
            SyncEvent::Refetched { challenge } => {
                if self.phase == SyncPhase::Refetch {
                    self.on_refetched(challenge);
                }
            },
            SyncEvent::Saved => {
                if self.phase == SyncPhase::Save {
                    self.phase = SyncPhase::Notifications;
                }
            },
            SyncEvent::NotificationsFetched { count } => {
                if self.phase == SyncPhase::Notifications {
                    self.phase = SyncPhase::Done;
                    self.notif_count = count;
                }
            },
        }
        self.pending()
    }
}

/// What `replace_challenge` reports is the replacement of the first challenge
/// with the id.
proof fn lemma_replace_is_first(
    d0: Seq<ChallengeView>,
    id: Seq<char>,
    c: ChallengeView,
    found: Option<usize>,
    d1: Seq<ChallengeView>,
)
    requires
        match found {
            Some(j) => j < d0.len() && d0[j as int].id == id && (forall|k: int|
                0 <= k < j ==> (#[trigger] d0[k]).id != id) && d1 == d0.update(j as int, c),
            None => (forall|k: int| 0 <= k < d0.len() ==> (#[trigger] d0[k]).id != id) && d1 == d0,
        },
    ensures
        d1 == replaced_first(d0, id, c),
{
    match found {
        Some(j) => {
            let jj = j as int;
            assert(0 <= jj < d0.len() && d0[jj].id == id && forall|k: int|
                0 <= k < jj ==> (#[trigger] d0[k]).id != id);
            let w = choose|w: int|
                0 <= w < d0.len() && d0[w].id == id && forall|k: int| 0 <= k < w ==> (#[trigger] d0[k]).id != id;
            if w < jj {
                assert(d0[w].id != id);
            }
            if jj < w {
                assert(d0[jj].id != id);
            }
            assert(first_with_id(d0, id) == Some(jj));
        },
        None => {
            assert(first_with_id(d0, id) is None);
        },
    }
}

} // verus!
