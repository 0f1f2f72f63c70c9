//! The local workspace state: what is known of each challenge, and how a sync,
//! a solve or cached details change it.
use vstd::prelude::*;

use crate::clock::{current_time, is_clock_reading, Timestamp};
use crate::platform::types::{
    challenges_view, opt_str_view, strs_view, Challenge, ChallengeFile, ChallengeView, FileView,
    Hint, HintView, Notification,
};
use crate::text::{lowercase, to_lowercase};
use crate::workspace::challenge_map::ChallengeMap;
use vstd::string::*;

verus! {

/// How far the team has got with a challenge.
#[derive(Debug, Clone, Copy, PartialEq, Eq, Structural)]
pub enum ChallengeStatus {
    Unsolved,
    InProgress,
    Solved,
}

/// A hint as cached in the state file.
#[derive(Debug, Clone, PartialEq)]
pub struct CachedHint {
    pub id: String,
    pub content: Option<String>,
    pub cost: u32,
}

/// A file reference as cached in the state file.
#[derive(Debug, Clone, PartialEq)]
pub struct CachedFile {
    pub name: String,
    pub url: String,
}

/// What the workspace knows of one challenge.
#[derive(Debug, Clone)]
pub struct ChallengeState {
    pub id: String,
    pub name: String,
    pub category: String,
    pub status: ChallengeStatus,
    pub solved_at: Option<Timestamp>,
    pub points: Option<u32>,
    pub flag: Option<String>,
    pub description: Option<String>,
    pub hints: Option<Vec<CachedHint>>,
    pub files: Option<Vec<CachedFile>>,
    pub tags: Option<Vec<String>>,
    pub details_fetched_at: Option<Timestamp>,
}

/// What the workspace knows of one challenge, by content.
pub struct ChallengeStateView {
    pub id: Seq<char>,
    pub name: Seq<char>,
    pub category: Seq<char>,
    pub status: ChallengeStatus,
    pub solved_at: Option<Timestamp>,
    pub points: Option<u32>,
    pub flag: Option<Seq<char>>,
    pub description: Option<Seq<char>>,
    pub hints: Option<Seq<HintView>>,
    pub files: Option<Seq<FileView>>,
    pub tags: Option<Seq<Seq<char>>>,
    pub details_fetched_at: Option<Timestamp>,
}

impl View for CachedHint {
    type V = HintView;

    open spec fn view(&self) -> HintView {
        HintView { id: self.id@, content: opt_str_view(self.content), cost: self.cost }
    }
}

impl View for CachedFile {
    type V = FileView;

    open spec fn view(&self) -> FileView {
        FileView { name: self.name@, url: self.url@ }
    }
}

pub open spec fn opt_hints_view(o: Option<Vec<CachedHint>>) -> Option<Seq<HintView>> {
    match o {
        Some(v) => Some(v@.map_values(|h: CachedHint| h@)),
        None => None,
    }
}

pub open spec fn opt_files_view(o: Option<Vec<CachedFile>>) -> Option<Seq<FileView>> {
    match o {
        Some(v) => Some(v@.map_values(|f: CachedFile| f@)),
        None => None,
    }
}

pub open spec fn opt_strs_view(o: Option<Vec<String>>) -> Option<Seq<Seq<char>>> {
    match o {
        Some(v) => Some(strs_view(v@)),
        None => None,
    }
}

impl View for ChallengeState {
    type V = ChallengeStateView;

    open spec fn view(&self) -> ChallengeStateView {
        ChallengeStateView {
            id: self.id@,
            name: self.name@,
            category: self.category@,
            status: self.status,
            solved_at: self.solved_at,
            points: self.points,
            flag: opt_str_view(self.flag),
            description: opt_str_view(self.description),
            hints: opt_hints_view(self.hints),
            files: opt_files_view(self.files),
            tags: opt_strs_view(self.tags),
            details_fetched_at: self.details_fetched_at,
        }
    }
}

/// The whole state file of a workspace.
pub struct WorkspaceState {
    pub last_sync: Option<Timestamp>,
    pub challenges: ChallengeMap,
    pub notifications: Vec<Notification>,
}


// ---------------------------------------------------------------------------
// The model of the state transitions
// ---------------------------------------------------------------------------

/// The key a challenge is filed under: its name, lower-cased.
pub open spec fn state_key(name: Seq<char>) -> Seq<char> {
    lowercase(name)
}

/// The record under `k`, if any.
pub open spec fn lookup(m: Map<Seq<char>, ChallengeStateView>, k: Seq<char>) -> Option<ChallengeStateView> {
    if m.contains_key(k) {
        Some(m[k])
    } else {
        None
    }
}

/// The record a sync creates for a challenge seen for the first time.
pub open spec fn fresh_entry(c: ChallengeView) -> ChallengeStateView {
    ChallengeStateView {
        id: c.id,
        name: c.name,
        category: c.category,
        status: ChallengeStatus::Unsolved,
        solved_at: None,
        points: None,
        flag: None,
        description: None,
        hints: None,
        files: None,
        tags: None,
        details_fetched_at: None,
    }
}

/// The record after a sync has seen `c`, given the record `prev` under its key:
/// identity and category are taken from `c`; if the platform reports `c`
/// solved and the record was not solved yet, it becomes solved with `c`'s value
/// as points. Everything else is kept.
pub open spec fn synced_entry(prev: Option<ChallengeStateView>, c: ChallengeView) -> ChallengeStateView {
    let base = match prev {
        Some(e) => e,
        None => fresh_entry(c),
    };
    let solved_now = c.solved_by_me && base.status != ChallengeStatus::Solved;
    ChallengeStateView {
        id: c.id,
        name: c.name,
        category: c.category,
        status: if solved_now {
            ChallengeStatus::Solved
        } else {
            base.status
        },
        points: if solved_now {
            Some(c.value)
        } else {
            base.points
        },
        ..base
    }
}

/// The records after a sync has seen `c`, filing it under `k`.
pub open spec fn sync_one_keyed(
    m: Map<Seq<char>, ChallengeStateView>,
    c: ChallengeView,
    k: Seq<char>,
) -> Map<Seq<char>, ChallengeStateView> {
    m.insert(k, synced_entry(lookup(m, k), c))
}

/// The records after a sync has seen `c`.
pub open spec fn sync_one(m: Map<Seq<char>, ChallengeStateView>, c: ChallengeView) -> Map<
    Seq<char>,
    ChallengeStateView,
> {
    sync_one_keyed(m, c, state_key(c.name))
}

/// The records after a sync has seen the challenges of `cs` in order.
pub open spec fn sync_all(m: Map<Seq<char>, ChallengeStateView>, cs: Seq<ChallengeView>) -> Map<
    Seq<char>,
    ChallengeStateView,
>
    decreases cs.len(),
{
    if cs.len() == 0 {
        m
    } else {
        sync_one(sync_all(m, cs.drop_last()), cs.last())
    }
}

/// The record after a full sync has seen `c` at `fetched_at`: as a plain sync,
/// and each detail that `c` carries (non-empty) replaces the cached one.
pub open spec fn detailed_entry(
    prev: Option<ChallengeStateView>,
    c: ChallengeView,
    fetched_at: Timestamp,
) -> ChallengeStateView {
    let e = synced_entry(prev, c);
    ChallengeStateView {
        description: if c.description.len() > 0 {
            Some(c.description)
        } else {
            e.description
        },
        hints: if c.hints.len() > 0 {
            Some(c.hints)
        } else {
            e.hints
        },
        files: if c.files.len() > 0 {
            Some(c.files)
        } else {
            e.files
        },
        tags: if c.tags.len() > 0 {
            Some(c.tags)
        } else {
            e.tags
        },
        details_fetched_at: Some(fetched_at),
        ..e
    }
}

/// The records after a full sync has seen `c` at `fetched_at`, filing it under `k`.
pub open spec fn sync_full_one_keyed(
    m: Map<Seq<char>, ChallengeStateView>,
    c: ChallengeView,
    k: Seq<char>,
    fetched_at: Timestamp,
) -> Map<Seq<char>, ChallengeStateView> {
    m.insert(k, detailed_entry(lookup(m, k), c, fetched_at))
}

/// The records after a full sync has seen `c` at `fetched_at`.
pub open spec fn sync_full_one(
    m: Map<Seq<char>, ChallengeStateView>,
    c: ChallengeView,
    fetched_at: Timestamp,
) -> Map<Seq<char>, ChallengeStateView> {
    sync_full_one_keyed(m, c, state_key(c.name), fetched_at)
}

pub open spec fn sync_full_all(
    m: Map<Seq<char>, ChallengeStateView>,
    cs: Seq<ChallengeView>,
    fetched_at: Timestamp,
) -> Map<Seq<char>, ChallengeStateView>
    decreases cs.len(),
{
    if cs.len() == 0 {
        m
    } else {
        sync_full_one(sync_full_all(m, cs.drop_last(), fetched_at), cs.last(), fetched_at)
    }
}

/// The record after a solve of `name` (id `id`) for `points` with `flag` at `now`.
pub open spec fn solved_entry(
    prev: Option<ChallengeStateView>,
    id: Seq<char>,
    name: Seq<char>,
    points: u32,
    flag: Seq<char>,
    now: Timestamp,
) -> ChallengeStateView {
    let base = match prev {
        Some(e) => e,
        None => ChallengeStateView {
            id: id,
            name: name,
            category: Seq::empty(),
            status: ChallengeStatus::Unsolved,
            solved_at: None,
            points: None,
            flag: None,
            description: None,
            hints: None,
            files: None,
            tags: None,
            details_fetched_at: None,
        },
    };
    ChallengeStateView {
        status: ChallengeStatus::Solved,
        solved_at: Some(now),
        points: Some(points),
        flag: Some(flag),
        ..base
    }
}

/// A platform challenge with the details it lacks filled in from the record
/// cached under its key: each of description, hints, files and tags is taken
/// from the cache only where the challenge's own is empty and the cache has one.
pub open spec fn merged_challenge(c: ChallengeView, m: Map<Seq<char>, ChallengeStateView>) -> ChallengeView {
    merged_with_key(c, state_key(c.name), m)
}

/// A platform challenge with the details it lacks filled in from the record
/// cached under `k`, if there is one.
pub open spec fn merged_with_key(
    c: ChallengeView,
    k: Seq<char>,
    m: Map<Seq<char>, ChallengeStateView>,
) -> ChallengeView {
    if m.contains_key(k) {
        let e = m[k];
        ChallengeView {
            description: if c.description.len() == 0 && e.description is Some {
                e.description->0
            } else {
                c.description
            },
            hints: if c.hints.len() == 0 && e.hints is Some {
                e.hints->0
            } else {
                c.hints
            },
            files: if c.files.len() == 0 && e.files is Some {
                e.files->0
            } else {
                c.files
            },
            tags: if c.tags.len() == 0 && e.tags is Some {
                e.tags->0
            } else {
                c.tags
            },
            ..c
        }
    } else {
        c
    }
}

// ---------------------------------------------------------------------------
// Copies with content guarantees
// ---------------------------------------------------------------------------

fn copy_opt_str(o: &Option<String>) -> (r: Option<String>)
    ensures
        opt_str_view(r) == opt_str_view(*o),
{
    match o {
        Some(s) => Some(s.clone()),
        None => None,
    }
}

fn copy_strs(v: &Vec<String>) -> (r: Vec<String>)
    ensures
        strs_view(r@) == strs_view(v@),
{
    let mut r: Vec<String> = Vec::new();
    let mut i: usize = 0;
    while i < v.len()
        invariant
            i <= v@.len(),
            r@.len() == i,
            forall|j: int| 0 <= j < i ==> (#[trigger] r@[j])@ == v@[j]@,
        decreases v@.len() - i,
    {
        r.push(v[i].clone());
        i = i + 1;
    }
    assert(strs_view(r@) =~= strs_view(v@));
    r
}

fn cache_hints(v: &Vec<Hint>) -> (r: Vec<CachedHint>)
    ensures
        r@.map_values(|h: CachedHint| h@) == v@.map_values(|h: Hint| h@),
{
    let mut r: Vec<CachedHint> = Vec::new();
    let mut i: usize = 0;
    while i < v.len()
        invariant
            i <= v@.len(),
            r@.len() == i,
            forall|j: int| 0 <= j < i ==> (#[trigger] r@[j])@ == v@[j]@,
        decreases v@.len() - i,
    {
        let h = &v[i];
        r.push(CachedHint { id: h.id.clone(), content: copy_opt_str(&h.content), cost: h.cost });
        i = i + 1;
    }
    assert(r@.map_values(|h: CachedHint| h@) =~= v@.map_values(|h: Hint| h@));
    r
}

fn uncache_hints(v: &Vec<CachedHint>) -> (r: Vec<Hint>)
    ensures
        r@.map_values(|h: Hint| h@) == v@.map_values(|h: CachedHint| h@),
{
    let mut r: Vec<Hint> = Vec::new();
    let mut i: usize = 0;
    while i < v.len()
        invariant
            i <= v@.len(),
            r@.len() == i,
            forall|j: int| 0 <= j < i ==> (#[trigger] r@[j])@ == v@[j]@,
        decreases v@.len() - i,
    {
        let h = &v[i];
        r.push(Hint { id: h.id.clone(), content: copy_opt_str(&h.content), cost: h.cost });
        i = i + 1;
    }
    assert(r@.map_values(|h: Hint| h@) =~= v@.map_values(|h: CachedHint| h@));
    r
}

fn cache_files(v: &Vec<ChallengeFile>) -> (r: Vec<CachedFile>)
    ensures
        r@.map_values(|f: CachedFile| f@) == v@.map_values(|f: ChallengeFile| f@),
{
    let mut r: Vec<CachedFile> = Vec::new();
    let mut i: usize = 0;
    while i < v.len()
        invariant
            i <= v@.len(),
            r@.len() == i,
            forall|j: int| 0 <= j < i ==> (#[trigger] r@[j])@ == v@[j]@,
        decreases v@.len() - i,
    {
        r.push(CachedFile { name: v[i].name.clone(), url: v[i].url.clone() });
        i = i + 1;
    }
    assert(r@.map_values(|f: CachedFile| f@) =~= v@.map_values(|f: ChallengeFile| f@));
    r
}

fn uncache_files(v: &Vec<CachedFile>) -> (r: Vec<ChallengeFile>)
    ensures
        r@.map_values(|f: ChallengeFile| f@) == v@.map_values(|f: CachedFile| f@),
{
    let mut r: Vec<ChallengeFile> = Vec::new();
    let mut i: usize = 0;
    while i < v.len()
        invariant
            i <= v@.len(),
            r@.len() == i,
            forall|j: int| 0 <= j < i ==> (#[trigger] r@[j])@ == v@[j]@,
        decreases v@.len() - i,
    {
        r.push(ChallengeFile { name: v[i].name.clone(), url: v[i].url.clone() });
        i = i + 1;
    }
    assert(r@.map_values(|f: ChallengeFile| f@) =~= v@.map_values(|f: CachedFile| f@));
    r
}

// ---------------------------------------------------------------------------
// The transitions
// ---------------------------------------------------------------------------

/// A fresh workspace state: never synced, no challenges, no notifications.
pub fn init_state() -> (s: WorkspaceState)
    ensures
        s.last_sync is None,
        s.challenges@ == Map::<Seq<char>, ChallengeStateView>::empty(),
        s.notifications@.len() == 0,
{
    WorkspaceState { last_sync: None, challenges: ChallengeMap::new(), notifications: Vec::new() }
}

/// A record with empty identity and category, unsolved, with nothing cached:
/// what stands in a position while its record is being rewritten.
pub open spec fn blank_view() -> ChallengeStateView {
    ChallengeStateView {
        id: Seq::empty(),
        name: Seq::empty(),
        category: Seq::empty(),
        status: ChallengeStatus::Unsolved,
        solved_at: None,
        points: None,
        flag: None,
        description: None,
        hints: None,
        files: None,
        tags: None,
        details_fetched_at: None,
    }
}

fn blank_entry() -> (r: ChallengeState)
    ensures
        r@ == blank_view(),
{
    ChallengeState {
        id: String::new(),
        name: String::new(),
        category: String::new(),
        status: ChallengeStatus::Unsolved,
        solved_at: None,
        points: None,
        flag: None,
        description: None,
        hints: None,
        files: None,
        tags: None,
        details_fetched_at: None,
    }
}

/// Applies one challenge of a sync, filing it under `key`; returns the
/// position of its record.
pub fn sync_challenge_keyed(map: &mut ChallengeMap, c: &Challenge, key: String) -> (i: usize)
    ensures
        final(map)@ == sync_one_keyed(old(map)@, c@, key@),
        i < final(map).entry_seq().len(),
        final(map).entry_seq()[i as int].0 == key@,
        final(map).entry_seq()[i as int].1 == synced_entry(lookup(old(map)@, key@), c@),
{
    let ghost m0 = map@;
    let ghost k = key@;
    let fresh = ChallengeState {
        id: c.id.clone(),
        name: c.name.clone(),
        category: c.category.clone(),
        status: ChallengeStatus::Unsolved,
        solved_at: None,
        points: None,
        flag: None,
        description: None,
        hints: None,
        files: None,
        tags: None,
        details_fetched_at: None,
    };
    assert(fresh@ == fresh_entry(c@));
    let i = map.find_or_insert(key, fresh);
    let ghost base = map@[k];
    assert(base == (match lookup(m0, k) {
        Some(e) => e,
        None => fresh_entry(c@),
    }));
    let mut e = map.replace_at(i, blank_entry());
    e.id = c.id.clone();
    e.name = c.name.clone();
    e.category = c.category.clone();
    if c.solved_by_me && e.status != ChallengeStatus::Solved {
        e.status = ChallengeStatus::Solved;
        e.points = Some(c.value);
    }
    assert(e@ == synced_entry(lookup(m0, k), c@));
    map.replace_at(i, e);
    assert(map@ =~= sync_one_keyed(m0, c@, k));
    i
}

/// Applies one challenge of a sync; returns the position of its record.
fn sync_challenge(map: &mut ChallengeMap, c: &Challenge) -> (i: usize)
    ensures
        final(map)@ == sync_one(old(map)@, c@),
        i < final(map).entry_seq().len(),
        final(map).entry_seq()[i as int].0 == state_key(c@.name),
        final(map).entry_seq()[i as int].1 == synced_entry(lookup(old(map)@, state_key(c@.name)), c@),
{
    let key = to_lowercase(c.name.as_str());
    sync_challenge_keyed(map, c, key)
}

proof fn lemma_views_take_step(s: Seq<Challenge>, j: int)
    requires
        0 <= j < s.len(),
    ensures
        challenges_view(s.take(j + 1)).drop_last() == challenges_view(s.take(j)),
        challenges_view(s.take(j + 1)).last() == s[j]@,
        challenges_view(s.take(j + 1)).len() == j + 1,
{
    assert(challenges_view(s.take(j + 1)).drop_last() =~= challenges_view(s.take(j)));
}

/// Applies a sync of `challenges` at `now` to the state.
pub fn apply_sync(state: &mut WorkspaceState, challenges: &[Challenge], now: Timestamp)
    ensures
        final(state).challenges@ == sync_all(old(state).challenges@, challenges_view(challenges@)),
        final(state).last_sync == Some(now),
        final(state).notifications == old(state).notifications,
{
    let ghost m0 = state.challenges@;
    state.last_sync = Some(now);
    let mut j: usize = 0;
    while j < challenges.len()
        invariant
            j <= challenges@.len(),
            state.challenges@ == sync_all(m0, challenges_view(challenges@.take(j as int))),
            state.last_sync == Some(now),
            state.notifications == old(state).notifications,
        decreases challenges@.len() - j,
    {
        proof {
            lemma_views_take_step(challenges@, j as int);
        }
        sync_challenge(&mut state.challenges, &challenges[j]);
        j = j + 1;
    }
    assert(challenges@.take(j as int) =~= challenges@);
}

/// Syncs `challenges` into the state, stamping the sync with the current time.
pub fn update_sync(state: &mut WorkspaceState, challenges: &[Challenge])
    ensures
        final(state).challenges@ == sync_all(old(state).challenges@, challenges_view(challenges@)),
        final(state).last_sync matches Some(t) && is_clock_reading(t),
        final(state).notifications == old(state).notifications,
{
    let now = current_time();
    apply_sync(state, challenges, now);
}

/// Applies one challenge of a full sync fetched at `fetched_at`, filing it
/// under `key`.
pub fn sync_challenge_full_keyed(map: &mut ChallengeMap, c: &Challenge, key: String, fetched_at: Timestamp)
    ensures
        final(map)@ == sync_full_one_keyed(old(map)@, c@, key@, fetched_at),
{
    let ghost m0 = map@;
    let ghost k = key@;
    let i = sync_challenge_keyed(map, c, key);
    let mut e = map.replace_at(i, blank_entry());
    assert(e@ == synced_entry(lookup(m0, k), c@));
    if c.description.unicode_len() > 0 {
        e.description = Some(c.description.clone());
    }
    if c.hints.len() > 0 {
        e.hints = Some(cache_hints(&c.hints));
    }
    if c.files.len() > 0 {
        e.files = Some(cache_files(&c.files));
    }
    if c.tags.len() > 0 {
        e.tags = Some(copy_strs(&c.tags));
    }
    e.details_fetched_at = Some(fetched_at);
    assert(e@ == detailed_entry(lookup(m0, k), c@, fetched_at));
    map.replace_at(i, e);
    assert(map@ =~= sync_full_one_keyed(m0, c@, k, fetched_at));
}

/// Applies one challenge of a full sync fetched at `fetched_at`.
fn sync_challenge_full(map: &mut ChallengeMap, c: &Challenge, fetched_at: Timestamp)
    ensures
        final(map)@ == sync_full_one(old(map)@, c@, fetched_at),
{
    let key = to_lowercase(c.name.as_str());
    sync_challenge_full_keyed(map, c, key, fetched_at);
}

/// Applies a full sync of `challenges` to the state: stamped `synced_at`, with
/// details recorded as fetched at `fetched_at`.
pub fn apply_sync_full(
    state: &mut WorkspaceState,
    challenges: &[Challenge],
    synced_at: Timestamp,
    fetched_at: Timestamp,
)
    ensures
        final(state).challenges@ == sync_full_all(
            old(state).challenges@,
            challenges_view(challenges@),
            fetched_at,
        ),
        final(state).last_sync == Some(synced_at),
        final(state).notifications == old(state).notifications,
{
    let ghost m0 = state.challenges@;
    state.last_sync = Some(synced_at);
    let mut j: usize = 0;
    while j < challenges.len()
        invariant
            j <= challenges@.len(),
            state.challenges@ == sync_full_all(m0, challenges_view(challenges@.take(j as int)), fetched_at),
            state.last_sync == Some(synced_at),
            state.notifications == old(state).notifications,
        decreases challenges@.len() - j,
    {
        proof {
            lemma_views_take_step(challenges@, j as int);
        }
        sync_challenge_full(&mut state.challenges, &challenges[j], fetched_at);
        j = j + 1;
    }
    assert(challenges@.take(j as int) =~= challenges@);
}

/// Syncs `challenges` with their full details into the state, stamping the
/// sync and the details with the current time.
pub fn update_sync_full(state: &mut WorkspaceState, challenges: &[Challenge])
    ensures
        final(state).last_sync matches Some(t) && is_clock_reading(t),
        exists|fetched_at: Timestamp|
            is_clock_reading(fetched_at) && final(state).challenges@ == sync_full_all(
                old(state).challenges@,
                challenges_view(challenges@),
                fetched_at,
            ),
        final(state).notifications == old(state).notifications,
{
    let synced_at = current_time();
    let fetched_at = current_time();
    apply_sync_full(state, challenges, synced_at, fetched_at);
}

/// Records a solve of `challenge_name` at `now`, filed under `key`.
pub fn apply_mark_solved_keyed(
    state: &mut WorkspaceState,
    key: String,
    challenge_id: &str,
    challenge_name: &str,
    points: u32,
    flag: &str,
    now: Timestamp,
)
    ensures
        final(state).challenges@ == old(state).challenges@.insert(
            key@,
            solved_entry(
                lookup(old(state).challenges@, key@),
                challenge_id@,
                challenge_name@,
                points,
                flag@,
                now,
            ),
        ),
        final(state).last_sync == old(state).last_sync,
        final(state).notifications == old(state).notifications,
{
    let ghost m0 = state.challenges@;
    let ghost k = key@;
    let fresh = ChallengeState {
        id: String::from_str(challenge_id),
        name: String::from_str(challenge_name),
        category: String::new(),
        status: ChallengeStatus::Unsolved,
        solved_at: None,
        points: None,
        flag: None,
        description: None,
        hints: None,
        files: None,
        tags: None,
        details_fetched_at: None,
    };
    let i = state.challenges.find_or_insert(key, fresh);
    let mut e = state.challenges.replace_at(i, blank_entry());
    e.status = ChallengeStatus::Solved;
    e.solved_at = Some(now);
    e.points = Some(points);
    e.flag = Some(String::from_str(flag));
    assert(e@ == solved_entry(lookup(m0, k), challenge_id@, challenge_name@, points, flag@, now));
    state.challenges.replace_at(i, e);
    assert(state.challenges@ =~= m0.insert(
        k,
        solved_entry(lookup(m0, k), challenge_id@, challenge_name@, points, flag@, now),
    ));
}

/// Records a solve of `challenge_name` at `now`.
pub fn apply_mark_solved(
    state: &mut WorkspaceState,
    challenge_id: &str,
    challenge_name: &str,
    points: u32,
    flag: &str,
    now: Timestamp,
)
    ensures
        ({
            let k = state_key(challenge_name@);
            final(state).challenges@ == old(state).challenges@.insert(
                k,
                solved_entry(
                    lookup(old(state).challenges@, k),
                    challenge_id@,
                    challenge_name@,
                    points,
                    flag@,
                    now,
                ),
            )
        }),
        final(state).last_sync == old(state).last_sync,
        final(state).notifications == old(state).notifications,
{
    let key = to_lowercase(challenge_name);
    apply_mark_solved_keyed(state, key, challenge_id, challenge_name, points, flag, now);
}

/// Records a solve of `challenge_name`, stamped with the current time.
pub fn mark_solved(
    state: &mut WorkspaceState,
    challenge_id: &str,
    challenge_name: &str,
    points: u32,
    flag: &str,
)
    ensures
        ({
            let k = state_key(challenge_name@);
            exists|now: Timestamp|
                is_clock_reading(now) && final(state).challenges@ == old(state).challenges@.insert(
                    k,
                    solved_entry(
                        lookup(old(state).challenges@, k),
                        challenge_id@,
                        challenge_name@,
                        points,
                        flag@,
                        now,
                    ),
                )
        }),
        final(state).last_sync == old(state).last_sync,
        final(state).notifications == old(state).notifications,
{
    let now = current_time();
    apply_mark_solved(state, challenge_id, challenge_name, points, flag, now);
}

/// One challenge with its missing details filled in from the record cached
/// under `key`.
pub fn merge_with_key(c: Challenge, key: &str, state: &WorkspaceState) -> (r: Challenge)
    ensures
        r@ == merged_with_key(c@, key@, state.challenges@),
{
    let mut c = c;
    match state.challenges.get(key) {
        Some(cached) => {
            let ghost c0 = c@;
            if c.description.unicode_len() == 0 {
                if let Some(desc) = &cached.description {
                    c.description = desc.clone();
                }
            }
            if c.hints.len() == 0 {
                if let Some(hints) = &cached.hints {
                    c.hints = uncache_hints(hints);
                }
            }
            if c.files.len() == 0 {
                if let Some(files) = &cached.files {
                    c.files = uncache_files(files);
                }
            }
            if c.tags.len() == 0 {
                if let Some(tags) = &cached.tags {
                    c.tags = copy_strs(tags);
                }
            }
            assert(c@ =~= merged_with_key(c0, key@, state.challenges@));
            c
        },
        None => c,
    }
}

/// One challenge with its missing details filled in from the state.
fn merge_one(c: Challenge, state: &WorkspaceState) -> (r: Challenge)
    ensures
        r@ == merged_challenge(c@, state.challenges@),
{
    let key = to_lowercase(c.name.as_str());
    merge_with_key(c, key.as_str(), state)
}

/// Fills the empty details (description, hints, files, tags) of each challenge
/// from the details cached in the state under its key.
pub fn merge_cached_details(challenges: &mut Vec<Challenge>, state: &WorkspaceState)
    ensures
        challenges_view(final(challenges)@) == challenges_view(old(challenges)@).map_values(
            |c: ChallengeView| merged_challenge(c, state.challenges@),
        ),
{
    let ghost orig = challenges@;
    let mut rest: Vec<Challenge> = Vec::new();
    std::mem::swap(&mut rest, challenges);
    let n = rest.len();
    let mut i: usize = 0;
    while i < n
        invariant
            n == orig.len(),
            i <= n,
            rest@ == orig.skip(i as int),
            challenges@.len() == i,
            forall|j: int| 0 <= j < i ==> (#[trigger] challenges@[j])@ == merged_challenge(
                orig[j]@,
                state.challenges@,
            ),
        decreases n - i,
    {
        assert(rest@[0] == orig[i as int]);
        let c = rest.remove(0);
        assert(rest@ =~= orig.skip(i + 1));
        let m = merge_one(c, state);
        challenges.push(m);
        i = i + 1;
    }
    assert(challenges_view(challenges@) =~= challenges_view(orig).map_values(
        |c: ChallengeView| merged_challenge(c, state.challenges@),
    ));
}

// ---------------------------------------------------------------------------
// Laws
// ---------------------------------------------------------------------------

/// A sync never forgets a solve: a challenge recorded as solved stays solved,
/// with its points, flag and solve time unchanged.
pub proof fn lemma_sync_keeps_solved(
    m: Map<Seq<char>, ChallengeStateView>,
    cs: Seq<ChallengeView>,
    k: Seq<char>,
)
    requires
        m.contains_key(k),
        m[k].status == ChallengeStatus::Solved,
    ensures
        sync_all(m, cs).contains_key(k),
        sync_all(m, cs)[k].status == ChallengeStatus::Solved,
        sync_all(m, cs)[k].points == m[k].points,
        sync_all(m, cs)[k].flag == m[k].flag,
        sync_all(m, cs)[k].solved_at == m[k].solved_at,
    decreases cs.len(),
{
    if cs.len() > 0 {
        lemma_sync_keeps_solved(m, cs.drop_last(), k);
    }
}

/// A full sync never forgets a solve either.
pub proof fn lemma_sync_full_keeps_solved(
    m: Map<Seq<char>, ChallengeStateView>,
    cs: Seq<ChallengeView>,
    fetched_at: Timestamp,
    k: Seq<char>,
)
    requires
        m.contains_key(k),
        m[k].status == ChallengeStatus::Solved,
    ensures
        sync_full_all(m, cs, fetched_at).contains_key(k),
        sync_full_all(m, cs, fetched_at)[k].status == ChallengeStatus::Solved,
        sync_full_all(m, cs, fetched_at)[k].points == m[k].points,
        sync_full_all(m, cs, fetched_at)[k].flag == m[k].flag,
        sync_full_all(m, cs, fetched_at)[k].solved_at == m[k].solved_at,
    decreases cs.len(),
{
    if cs.len() > 0 {
        lemma_sync_full_keeps_solved(m, cs.drop_last(), fetched_at, k);
    }
}

/// After a sync the records are those that were there, plus one for every
/// synced challenge's key; nothing is dropped.
pub proof fn lemma_sync_keys(m: Map<Seq<char>, ChallengeStateView>, cs: Seq<ChallengeView>, k: Seq<char>)
    ensures
        sync_all(m, cs).contains_key(k) <==> (m.contains_key(k) || exists|i: int|
            0 <= i < cs.len() && state_key(#[trigger] cs[i].name) == k),
    decreases cs.len(),
{
    if cs.len() > 0 {
        let init = cs.drop_last();
        lemma_sync_keys(m, init, k);
        if exists|i: int| 0 <= i < init.len() && state_key(#[trigger] init[i].name) == k {
            let i = choose|i: int| 0 <= i < init.len() && state_key(#[trigger] init[i].name) == k;
            assert(cs[i] == init[i]);
        }
        if exists|i: int| 0 <= i < cs.len() && state_key(#[trigger] cs[i].name) == k {
            let i = choose|i: int| 0 <= i < cs.len() && state_key(#[trigger] cs[i].name) == k;
            if i < init.len() {
                assert(init[i] == cs[i]);
            }
        }
    }
}

/// A sync leaves the records of challenges it does not list as they were.
pub proof fn lemma_sync_leaves_others(m: Map<Seq<char>, ChallengeStateView>, cs: Seq<ChallengeView>, k: Seq<char>)
    requires
        forall|i: int| 0 <= i < cs.len() ==> state_key(#[trigger] cs[i].name) != k,
    ensures
        lookup(sync_all(m, cs), k) == lookup(m, k),
    decreases cs.len(),
{
    if cs.len() > 0 {
        let init = cs.drop_last();
        assert forall|i: int| 0 <= i < init.len() implies state_key(#[trigger] init[i].name) != k by {
            assert(init[i] == cs[i]);
        }
        lemma_sync_leaves_others(m, init, k);
        assert(state_key(cs[cs.len() - 1].name) != k);
    }
}

/// After a sync, the record of a challenge carries the id, name and category of
/// the last synced challenge with that key.
pub proof fn lemma_sync_last_wins(m: Map<Seq<char>, ChallengeStateView>, cs: Seq<ChallengeView>, i: int)
    requires
        0 <= i < cs.len(),
        forall|j: int| i < j < cs.len() ==> state_key(#[trigger] cs[j].name) != state_key(cs[i].name),
    ensures
        sync_all(m, cs).contains_key(state_key(cs[i].name)),
        sync_all(m, cs)[state_key(cs[i].name)].id == cs[i].id,
        sync_all(m, cs)[state_key(cs[i].name)].name == cs[i].name,
        sync_all(m, cs)[state_key(cs[i].name)].category == cs[i].category,
    decreases cs.len(),
{
    if i < cs.len() - 1 {
        let init = cs.drop_last();
        assert forall|j: int| i < j < init.len() implies state_key(#[trigger] init[j].name) != state_key(
            init[i].name,
        ) by {
            assert(init[j] == cs[j]);
        }
        lemma_sync_last_wins(m, init, i);
        assert(state_key(cs.last().name) != state_key(cs[i].name));
    }
}

/// After a full sync the records are those that were there, plus one for every
/// synced challenge's key; nothing is dropped.
pub proof fn lemma_sync_full_keys(
    m: Map<Seq<char>, ChallengeStateView>,
    cs: Seq<ChallengeView>,
    fetched_at: Timestamp,
    k: Seq<char>,
)
    ensures
        sync_full_all(m, cs, fetched_at).contains_key(k) <==> (m.contains_key(k) || exists|i: int|
            0 <= i < cs.len() && state_key(#[trigger] cs[i].name) == k),
    decreases cs.len(),
{
    if cs.len() > 0 {
        let init = cs.drop_last();
        lemma_sync_full_keys(m, init, fetched_at, k);
        if exists|i: int| 0 <= i < init.len() && state_key(#[trigger] init[i].name) == k {
            let i = choose|i: int| 0 <= i < init.len() && state_key(#[trigger] init[i].name) == k;
            assert(cs[i] == init[i]);
        }
        if exists|i: int| 0 <= i < cs.len() && state_key(#[trigger] cs[i].name) == k {
            let i = choose|i: int| 0 <= i < cs.len() && state_key(#[trigger] cs[i].name) == k;
            if i < init.len() {
                assert(init[i] == cs[i]);
            }
        }
    }
}

/// A full sync leaves the records of challenges it does not list as they were.
pub proof fn lemma_sync_full_leaves_others(
    m: Map<Seq<char>, ChallengeStateView>,
    cs: Seq<ChallengeView>,
    fetched_at: Timestamp,
    k: Seq<char>,
)
    requires
        forall|i: int| 0 <= i < cs.len() ==> state_key(#[trigger] cs[i].name) != k,
    ensures
        lookup(sync_full_all(m, cs, fetched_at), k) == lookup(m, k),
    decreases cs.len(),
{
    if cs.len() > 0 {
        let init = cs.drop_last();
        assert forall|i: int| 0 <= i < init.len() implies state_key(#[trigger] init[i].name) != k by {
            assert(init[i] == cs[i]);
        }
        lemma_sync_full_leaves_others(m, init, fetched_at, k);
        assert(state_key(cs[cs.len() - 1].name) != k);
    }
}

/// After a full sync, the record of a challenge carries the id, name and
/// category of the last synced challenge with that key.
pub proof fn lemma_sync_full_last_wins(
    m: Map<Seq<char>, ChallengeStateView>,
    cs: Seq<ChallengeView>,
    fetched_at: Timestamp,
    i: int,
)
    requires
        0 <= i < cs.len(),
        forall|j: int| i < j < cs.len() ==> state_key(#[trigger] cs[j].name) != state_key(cs[i].name),
    ensures
        sync_full_all(m, cs, fetched_at).contains_key(state_key(cs[i].name)),
        sync_full_all(m, cs, fetched_at)[state_key(cs[i].name)].id == cs[i].id,
        sync_full_all(m, cs, fetched_at)[state_key(cs[i].name)].name == cs[i].name,
        sync_full_all(m, cs, fetched_at)[state_key(cs[i].name)].category == cs[i].category,
    decreases cs.len(),
{
    if i < cs.len() - 1 {
        let init = cs.drop_last();
        assert forall|j: int| i < j < init.len() implies state_key(#[trigger] init[j].name) != state_key(
            init[i].name,
        ) by {
            assert(init[j] == cs[j]);
        }
        lemma_sync_full_last_wins(m, init, fetched_at, i);
        assert(state_key(cs.last().name) != state_key(cs[i].name));
    }
}

/// After a full sync, the record of a challenge holds the details of the last
/// synced challenge with that key, wherever that challenge carried them.
pub proof fn lemma_sync_full_caches_last(
    m: Map<Seq<char>, ChallengeStateView>,
    cs: Seq<ChallengeView>,
    fetched_at: Timestamp,
    i: int,
)
    requires
        0 <= i < cs.len(),
        forall|j: int| i < j < cs.len() ==> state_key(#[trigger] cs[j].name) != state_key(cs[i].name),
    ensures
        ({
            let r = sync_full_all(m, cs, fetched_at);
            let k = state_key(cs[i].name);
            &&& r.contains_key(k)
            &&& cs[i].description.len() > 0 ==> r[k].description == Some(cs[i].description)
            &&& cs[i].hints.len() > 0 ==> r[k].hints == Some(cs[i].hints)
            &&& cs[i].files.len() > 0 ==> r[k].files == Some(cs[i].files)
            &&& cs[i].tags.len() > 0 ==> r[k].tags == Some(cs[i].tags)
            &&& r[k].details_fetched_at == Some(fetched_at)
        }),
    decreases cs.len(),
{
    if i < cs.len() - 1 {
        let init = cs.drop_last();
        assert forall|j: int| i < j < init.len() implies state_key(#[trigger] init[j].name) != state_key(
            init[i].name,
        ) by {
            assert(init[j] == cs[j]);
        }
        lemma_sync_full_caches_last(m, init, fetched_at, i);
        assert(state_key(cs.last().name) != state_key(cs[i].name));
    }
}

/// What a full sync caches, a later listing gets back: a challenge sent
/// without details, merged with the records a full sync left, carries the
/// details of the last synced challenge with its key.
pub proof fn lemma_full_sync_then_merge(
    m: Map<Seq<char>, ChallengeStateView>,
    cs: Seq<ChallengeView>,
    fetched_at: Timestamp,
    i: int,
    d: ChallengeView,
)
    requires
        0 <= i < cs.len(),
        forall|j: int| i < j < cs.len() ==> state_key(#[trigger] cs[j].name) != state_key(cs[i].name),
        state_key(d.name) == state_key(cs[i].name),
        d.description.len() == 0,
        d.hints.len() == 0,
        d.files.len() == 0,
        d.tags.len() == 0,
    ensures
        ({
            let got = merged_challenge(d, sync_full_all(m, cs, fetched_at));
            &&& cs[i].description.len() > 0 ==> got.description == cs[i].description
            &&& cs[i].hints.len() > 0 ==> got.hints == cs[i].hints
            &&& cs[i].files.len() > 0 ==> got.files == cs[i].files
            &&& cs[i].tags.len() > 0 ==> got.tags == cs[i].tags
        }),
{
    lemma_sync_full_caches_last(m, cs, fetched_at, i);
}

/// A solve is recorded as such: solved, with the given points, flag and time.
pub proof fn lemma_solved_entry_records(
    prev: Option<ChallengeStateView>,
    id: Seq<char>,
    name: Seq<char>,
    points: u32,
    flag: Seq<char>,
    now: Timestamp,
)
    ensures
        solved_entry(prev, id, name, points, flag, now).status == ChallengeStatus::Solved,
        solved_entry(prev, id, name, points, flag, now).points == Some(points),
        solved_entry(prev, id, name, points, flag, now).flag == Some(flag),
        solved_entry(prev, id, name, points, flag, now).solved_at == Some(now),
        prev is Some ==> solved_entry(prev, id, name, points, flag, now).id == prev->0.id
            && solved_entry(prev, id, name, points, flag, now).category == prev->0.category,
{
}

/// A solve keeps the rest of a record: its id, name, category, cached details
/// and fetch time; a challenge solved without a record gets one with the
/// given id and name, no category and nothing cached.
pub proof fn lemma_solved_entry_keeps_rest(
    prev: Option<ChallengeStateView>,
    id: Seq<char>,
    name: Seq<char>,
    points: u32,
    flag: Seq<char>,
    now: Timestamp,
)
    ensures
        ({
            let e = solved_entry(prev, id, name, points, flag, now);
            &&& prev matches Some(p) ==> e.id == p.id && e.name == p.name && e.category == p.category
                && e.description == p.description && e.hints == p.hints && e.files == p.files && e.tags
                == p.tags && e.details_fetched_at == p.details_fetched_at
            &&& prev is None ==> e.id == id && e.name == name && e.category.len() == 0 && e.description
                is None && e.hints is None && e.files is None && e.tags is None && e.details_fetched_at is None
        }),
{
}

/// Merging cached details never overwrites what the platform sent, and never
/// touches a challenge's identity, value or solve flag.
pub proof fn lemma_merge_keeps_present(c: ChallengeView, m: Map<Seq<char>, ChallengeStateView>)
    ensures
        merged_challenge(c, m).id == c.id,
        merged_challenge(c, m).name == c.name,
        merged_challenge(c, m).category == c.category,
        merged_challenge(c, m).value == c.value,
        merged_challenge(c, m).solves == c.solves,
        merged_challenge(c, m).solved_by_me == c.solved_by_me,
        c.description.len() > 0 ==> merged_challenge(c, m).description == c.description,
        c.hints.len() > 0 ==> merged_challenge(c, m).hints == c.hints,
        c.files.len() > 0 ==> merged_challenge(c, m).files == c.files,
        c.tags.len() > 0 ==> merged_challenge(c, m).tags == c.tags,
{
}

/// The record under `k` after a sync of `cs`, given the record `p` before it:
/// only the challenges filed under `k` take part.
spec fn key_fold(p: Option<ChallengeStateView>, cs: Seq<ChallengeView>, k: Seq<char>) -> Option<
    ChallengeStateView,
>
    decreases cs.len(),
{
    if cs.len() == 0 {
        p
    } else {
        let q = key_fold(p, cs.drop_last(), k);
        if state_key(cs.last().name) == k {
            Some(synced_entry(q, cs.last()))
        } else {
            q
        }
    }
}

/// Id, name and category of the last challenge of `cs` filed under `k`.
spec fn last_identity(cs: Seq<ChallengeView>, k: Seq<char>) -> Option<(Seq<char>, Seq<char>, Seq<char>)>
    decreases cs.len(),
{
    if cs.len() == 0 {
        None
    } else if state_key(cs.last().name) == k {
        Some((cs.last().id, cs.last().name, cs.last().category))
    } else {
        last_identity(cs.drop_last(), k)
    }
}

/// Some challenge of `cs` filed under `k` is reported solved.
spec fn any_solved(cs: Seq<ChallengeView>, k: Seq<char>) -> bool
    decreases cs.len(),
{
    if cs.len() == 0 {
        false
    } else {
        (state_key(cs.last().name) == k && cs.last().solved_by_me) || any_solved(cs.drop_last(), k)
    }
}

spec fn same_but_identity(a: ChallengeStateView, b: ChallengeStateView) -> bool {
    &&& a.status == b.status
    &&& a.solved_at == b.solved_at
    &&& a.points == b.points
    &&& a.flag == b.flag
    &&& a.description == b.description
    &&& a.hints == b.hints
    &&& a.files == b.files
    &&& a.tags == b.tags
    &&& a.details_fetched_at == b.details_fetched_at
}

proof fn lemma_key_fold_lookup(m: Map<Seq<char>, ChallengeStateView>, cs: Seq<ChallengeView>, k: Seq<char>)
    ensures
        lookup(sync_all(m, cs), k) == key_fold(lookup(m, k), cs, k),
    decreases cs.len(),
{
    if cs.len() > 0 {
        lemma_key_fold_lookup(m, cs.drop_last(), k);
    }
}

proof fn lemma_key_fold_identity(p: Option<ChallengeStateView>, cs: Seq<ChallengeView>, k: Seq<char>)
    ensures
        last_identity(cs, k) is None ==> key_fold(p, cs, k) == p,
        last_identity(cs, k) is Some ==> key_fold(p, cs, k) is Some && ({
            let e = key_fold(p, cs, k)->0;
            let ids = last_identity(cs, k)->0;
            e.id == ids.0 && e.name == ids.1 && e.category == ids.2
        }),
    decreases cs.len(),
{
    if cs.len() > 0 {
        lemma_key_fold_identity(p, cs.drop_last(), k);
    }
}

proof fn lemma_key_fold_solved(p: Option<ChallengeStateView>, cs: Seq<ChallengeView>, k: Seq<char>)
    ensures
        any_solved(cs, k) ==> key_fold(p, cs, k) is Some && key_fold(p, cs, k)->0.status
            == ChallengeStatus::Solved,
    decreases cs.len(),
{
    if cs.len() > 0 {
        lemma_key_fold_solved(p, cs.drop_last(), k);
    }
}

proof fn lemma_key_fold_settled(e: ChallengeStateView, cs: Seq<ChallengeView>, k: Seq<char>)
    requires
        e.status == ChallengeStatus::Solved || !any_solved(cs, k),
    ensures
        key_fold(Some(e), cs, k) is Some,
        same_but_identity(key_fold(Some(e), cs, k)->0, e),
    decreases cs.len(),
{
    if cs.len() > 0 {
        lemma_key_fold_settled(e, cs.drop_last(), k);
    }
}

proof fn lemma_key_fold_keeps_cache(e: ChallengeStateView, cs: Seq<ChallengeView>, k: Seq<char>)
    ensures
        key_fold(Some(e), cs, k) is Some,
        key_fold(Some(e), cs, k)->0.solved_at == e.solved_at,
        key_fold(Some(e), cs, k)->0.flag == e.flag,
        key_fold(Some(e), cs, k)->0.description == e.description,
        key_fold(Some(e), cs, k)->0.hints == e.hints,
        key_fold(Some(e), cs, k)->0.files == e.files,
        key_fold(Some(e), cs, k)->0.tags == e.tags,
        key_fold(Some(e), cs, k)->0.details_fetched_at == e.details_fetched_at,
    decreases cs.len(),
{
    if cs.len() > 0 {
        lemma_key_fold_keeps_cache(e, cs.drop_last(), k);
    }
}

proof fn lemma_any_solved_at(cs: Seq<ChallengeView>, k: Seq<char>, i: int)
    requires
        0 <= i < cs.len(),
        state_key(cs[i].name) == k,
        cs[i].solved_by_me,
    ensures
        any_solved(cs, k),
    decreases cs.len(),
{
    if i < cs.len() - 1 {
        lemma_any_solved_at(cs.drop_last(), k, i);
    }
}

/// A plain sync keeps what a record caches: its solve time, flag,
/// description, hints, files, tags and when its details were fetched.
pub proof fn lemma_sync_keeps_cached(m: Map<Seq<char>, ChallengeStateView>, cs: Seq<ChallengeView>, k: Seq<char>)
    requires
        m.contains_key(k),
    ensures
        sync_all(m, cs).contains_key(k),
        sync_all(m, cs)[k].solved_at == m[k].solved_at,
        sync_all(m, cs)[k].flag == m[k].flag,
        sync_all(m, cs)[k].description == m[k].description,
        sync_all(m, cs)[k].hints == m[k].hints,
        sync_all(m, cs)[k].files == m[k].files,
        sync_all(m, cs)[k].tags == m[k].tags,
        sync_all(m, cs)[k].details_fetched_at == m[k].details_fetched_at,
{
    lemma_key_fold_lookup(m, cs, k);
    lemma_key_fold_keeps_cache(m[k], cs, k);
}

/// A challenge that the platform reports solved is recorded as solved after
/// the sync, whatever else the sync lists.
pub proof fn lemma_sync_records_platform_solves(m: Map<Seq<char>, ChallengeStateView>, cs: Seq<ChallengeView>, i: int)
    requires
        0 <= i < cs.len(),
        cs[i].solved_by_me,
    ensures
        sync_all(m, cs).contains_key(state_key(cs[i].name)),
        sync_all(m, cs)[state_key(cs[i].name)].status == ChallengeStatus::Solved,
{
    let k = state_key(cs[i].name);
    lemma_any_solved_at(cs, k, i);
    lemma_key_fold_lookup(m, cs, k);
    lemma_key_fold_solved(lookup(m, k), cs, k);
}

/// What a sync of one challenge `c`, filed under `k`, does to the record
/// there: it takes `c`'s id, name and category; a record that was not solved
/// becomes solved with `c`'s value as points when the platform reports `c`
/// solved, and otherwise keeps its status and points (a new record starts
/// unsolved, without points); everything else the record held is kept.
pub proof fn lemma_sync_one_record(m: Map<Seq<char>, ChallengeStateView>, c: ChallengeView, k: Seq<char>)
    ensures
        sync_one_keyed(m, c, k).contains_key(k),
        sync_one_keyed(m, c, k)[k].id == c.id,
        sync_one_keyed(m, c, k)[k].name == c.name,
        sync_one_keyed(m, c, k)[k].category == c.category,
        c.solved_by_me && !(m.contains_key(k) && m[k].status == ChallengeStatus::Solved) ==> sync_one_keyed(
            m,
            c,
            k,
        )[k].status == ChallengeStatus::Solved && sync_one_keyed(m, c, k)[k].points == Some(c.value),
        m.contains_key(k) && (!c.solved_by_me || m[k].status == ChallengeStatus::Solved) ==> sync_one_keyed(
            m,
            c,
            k,
        )[k].status == m[k].status && sync_one_keyed(m, c, k)[k].points == m[k].points,
        !m.contains_key(k) && !c.solved_by_me ==> sync_one_keyed(m, c, k)[k].status
            == ChallengeStatus::Unsolved && sync_one_keyed(m, c, k)[k].points is None,
        m.contains_key(k) ==> sync_one_keyed(m, c, k)[k].flag == m[k].flag && sync_one_keyed(
            m,
            c,
            k,
        )[k].solved_at == m[k].solved_at && sync_one_keyed(m, c, k)[k].description == m[k].description
            && sync_one_keyed(m, c, k)[k].hints == m[k].hints && sync_one_keyed(m, c, k)[k].files
            == m[k].files && sync_one_keyed(m, c, k)[k].tags == m[k].tags && sync_one_keyed(
            m,
            c,
            k,
        )[k].details_fetched_at == m[k].details_fetched_at,
        forall|k2: Seq<char>|
            k2 != k ==> (#[trigger] sync_one_keyed(m, c, k).contains_key(k2) <==> m.contains_key(k2)),
        forall|k2: Seq<char>|
            k2 != k && m.contains_key(k2) ==> #[trigger] sync_one_keyed(m, c, k)[k2] == m[k2],
{
}

/// What a full sync of one challenge `c`, filed under `k` at `fetched_at`,
/// does to the record there: identity, status and points as a plain sync;
/// each detail `c` carries (non-empty) replaces the cached one, each it lacks
/// leaves the cached one (none for a new record); the details are stamped
/// `fetched_at`; the solve time and flag are kept.
pub proof fn lemma_sync_full_one_record(
    m: Map<Seq<char>, ChallengeStateView>,
    c: ChallengeView,
    k: Seq<char>,
    fetched_at: Timestamp,
)
    ensures
        ({
            let r = sync_full_one_keyed(m, c, k, fetched_at);
            let p = sync_one_keyed(m, c, k);
            &&& r.contains_key(k)
            &&& r[k].id == c.id && r[k].name == c.name && r[k].category == c.category
            &&& r[k].status == p[k].status && r[k].points == p[k].points
            &&& r[k].flag == p[k].flag && r[k].solved_at == p[k].solved_at
            &&& r[k].details_fetched_at == Some(fetched_at)
            &&& r[k].description == (if c.description.len() > 0 {
                Some(c.description)
            } else if m.contains_key(k) {
                m[k].description
            } else {
                None
            })
            &&& r[k].hints == (if c.hints.len() > 0 {
                Some(c.hints)
            } else if m.contains_key(k) {
                m[k].hints
            } else {
                None
            })
            &&& r[k].files == (if c.files.len() > 0 {
                Some(c.files)
            } else if m.contains_key(k) {
                m[k].files
            } else {
                None
            })
            &&& r[k].tags == (if c.tags.len() > 0 {
                Some(c.tags)
            } else if m.contains_key(k) {
                m[k].tags
            } else {
                None
            })
            &&& forall|k2: Seq<char>|
                k2 != k ==> (#[trigger] r.contains_key(k2) <==> m.contains_key(k2))
            &&& forall|k2: Seq<char>| k2 != k && m.contains_key(k2) ==> #[trigger] r[k2] == m[k2]
        }),
{
    lemma_sync_one_record(m, c, k);
}

/// Merging fills each empty detail of a listed challenge from the record
/// cached under its key, when the record has it; with no record under the key
/// the challenge is returned as it was.
pub proof fn lemma_merge_fills_from_cache(c: ChallengeView, k: Seq<char>, m: Map<Seq<char>, ChallengeStateView>)
    ensures
        !m.contains_key(k) ==> merged_with_key(c, k, m) == c,
        m.contains_key(k) && c.description.len() == 0 && m[k].description is Some ==> merged_with_key(
            c,
            k,
            m,
        ).description == m[k].description->0,
        m.contains_key(k) && c.hints.len() == 0 && m[k].hints is Some ==> merged_with_key(c, k, m).hints
            == m[k].hints->0,
        m.contains_key(k) && c.files.len() == 0 && m[k].files is Some ==> merged_with_key(c, k, m).files
            == m[k].files->0,
        m.contains_key(k) && c.tags.len() == 0 && m[k].tags is Some ==> merged_with_key(c, k, m).tags
            == m[k].tags->0,
        c.description.len() > 0 || !(m.contains_key(k) && m[k].description is Some) ==> merged_with_key(
            c,
            k,
            m,
        ).description == c.description,
        c.hints.len() > 0 || !(m.contains_key(k) && m[k].hints is Some) ==> merged_with_key(c, k, m).hints
            == c.hints,
        c.files.len() > 0 || !(m.contains_key(k) && m[k].files is Some) ==> merged_with_key(c, k, m).files
            == c.files,
        c.tags.len() > 0 || !(m.contains_key(k) && m[k].tags is Some) ==> merged_with_key(c, k, m).tags
            == c.tags,
        merged_with_key(c, k, m).id == c.id && merged_with_key(c, k, m).name == c.name && merged_with_key(
            c,
            k,
            m,
        ).category == c.category && merged_with_key(c, k, m).value == c.value && merged_with_key(
            c,
            k,
            m,
        ).solves == c.solves && merged_with_key(c, k, m).solved_by_me == c.solved_by_me,
{
}

/// Syncing the same challenges twice gives the same records as syncing them once.
pub proof fn lemma_sync_idempotent(m: Map<Seq<char>, ChallengeStateView>, cs: Seq<ChallengeView>)
    ensures
        sync_all(sync_all(m, cs), cs) == sync_all(m, cs),
{
    let once = sync_all(m, cs);
    let twice = sync_all(once, cs);
    assert forall|k: Seq<char>| #[trigger] lookup(twice, k) == lookup(once, k) by {
        lemma_key_fold_lookup(m, cs, k);
        lemma_key_fold_lookup(once, cs, k);
        lemma_key_fold_identity(lookup(m, k), cs, k);
        lemma_key_fold_identity(lookup(once, k), cs, k);
        if last_identity(cs, k) is Some {
            let e = lookup(once, k)->0;
            lemma_key_fold_solved(lookup(m, k), cs, k);
            lemma_key_fold_settled(e, cs, k);
        }
    }
    assert forall|k: Seq<char>| #[trigger] twice.contains_key(k) <==> once.contains_key(k) by {
        assert(lookup(twice, k) == lookup(once, k));
    }
    assert forall|k: Seq<char>| #[trigger] twice.contains_key(k) implies twice[k] == once[k] by {
        assert(lookup(twice, k) == lookup(once, k));
    }
    assert(twice =~= once);
}

} // verus!
