use ctf::clock::Timestamp;
use ctf::platform::types::{Challenge, ChallengeFile, Hint};
use ctf::workspace::challenge_map::ChallengeMap;
use ctf::workspace::state::{
    apply_mark_solved, apply_mark_solved_keyed, apply_sync, apply_sync_full, init_state, mark_solved,
    merge_cached_details, merge_with_key, sync_challenge_full_keyed, sync_challenge_keyed, update_sync,
    update_sync_full, CachedHint, ChallengeState, ChallengeStatus, WorkspaceState,
};

fn make_challenge(id: &str, name: &str, category: &str) -> Challenge {
    Challenge {
        id: id.into(),
        name: name.into(),
        category: category.into(),
        description: String::new(),
        value: 100,
        solves: 5,
        solved_by_me: false,
        files: vec![],
        tags: vec![],
        hints: vec![],
    }
}

fn at(secs: i64) -> Timestamp {
    Timestamp { secs, nanos: 0 }
}

#[test]
fn init_creates_default_state() {
    let state = init_state();
    assert!(state.last_sync.is_none());
    assert!(state.challenges.is_empty());
}

#[test]
fn update_sync_adds_new_challenges() {
    let mut state = init_state();
    let challenges = vec![make_challenge("1", "Test A", "crypto"), make_challenge("2", "Test B", "web")];
    update_sync(&mut state, &challenges);

    assert_eq!(state.challenges.len(), 2);
    assert!(state.last_sync.is_some());
    assert_eq!(state.challenges.get("test a").unwrap().name, "Test A");
    assert_eq!(state.challenges.get("test b").unwrap().category, "web");
}

#[test]
fn update_sync_preserves_solved_status() {
    let mut state = init_state();
    mark_solved(&mut state, "1", "Test A", 100, "flag{test}");

    let challenges = vec![make_challenge("1", "Test A", "crypto")];
    update_sync(&mut state, &challenges);

    let entry = state.challenges.get("test a").unwrap();
    assert_eq!(entry.status, ChallengeStatus::Solved);
    assert_eq!(entry.flag.as_deref(), Some("flag{test}"));
}

#[test]
fn mark_solved_updates_state() {
    let mut state = init_state();
    mark_solved(&mut state, "42", "My Challenge", 500, "flag{win}");

    let entry = state.challenges.get("my challenge").unwrap();
    assert_eq!(entry.status, ChallengeStatus::Solved);
    assert_eq!(entry.points, Some(500));
    assert_eq!(entry.flag.as_deref(), Some("flag{win}"));
    assert!(entry.solved_at.is_some());
}

#[test]
fn update_sync_full_caches_details() {
    let mut state = init_state();

    let mut c = make_challenge("1", "Crypto 101", "crypto");
    c.description = "Solve this RSA problem".into();
    c.tags = vec!["easy".into()];
    c.hints = vec![Hint { id: "10".into(), content: Some("Think about factoring".into()), cost: 50 }];
    c.files = vec![ChallengeFile { name: "challenge.py".into(), url: "/files/challenge.py".into() }];

    update_sync_full(&mut state, &[c]);

    let entry = state.challenges.get("crypto 101").unwrap();
    assert_eq!(entry.description.as_deref(), Some("Solve this RSA problem"));
    assert_eq!(entry.hints.as_ref().unwrap().len(), 1);
    assert_eq!(entry.files.as_ref().unwrap().len(), 1);
    assert_eq!(entry.tags.as_ref().unwrap(), &["easy"]);
    assert!(entry.details_fetched_at.is_some());
}

fn cached_state() -> WorkspaceState {
    let mut state = init_state();
    state.challenges.insert(
        "test".into(),
        ChallengeState {
            id: "1".into(),
            name: "test".into(),
            category: "web".into(),
            status: ChallengeStatus::Unsolved,
            solved_at: None,
            points: None,
            flag: None,
            description: Some("A web challenge".into()),
            hints: Some(vec![CachedHint { id: "5".into(), content: Some("Check headers".into()), cost: 0 }]),
            files: None,
            tags: Some(vec!["easy".into()]),
            details_fetched_at: None,
        },
    );
    state
}

#[test]
fn merge_cached_details_fills_empty_fields() {
    let state = cached_state();
    let mut challenges = vec![make_challenge("1", "test", "web")];
    merge_cached_details(&mut challenges, &state);

    assert_eq!(challenges[0].description, "A web challenge");
    assert_eq!(challenges[0].hints.len(), 1);
    assert_eq!(challenges[0].tags, vec!["easy"]);
}

#[test]
fn merge_keeps_details_the_platform_sent() {
    let state = cached_state();
    let mut c = make_challenge("1", "TEST", "web");
    c.description = "fresh text".into();
    let mut challenges = vec![c, make_challenge("2", "other", "misc")];
    merge_cached_details(&mut challenges, &state);

    assert_eq!(challenges[0].description, "fresh text");
    assert_eq!(challenges[0].hints[0].content.as_deref(), Some("Check headers"));
    assert!(challenges[0].files.is_empty());
    assert_eq!(challenges[1].description, "");
    assert!(challenges[1].tags.is_empty());
}

#[test]
fn sync_keys_by_lowercased_name_and_last_wins() {
    let mut state = init_state();
    let challenges = vec![make_challenge("1", "Dup", "crypto"), make_challenge("2", "DUP", "web")];
    apply_sync(&mut state, &challenges, at(1000));

    assert_eq!(state.challenges.len(), 1);
    let entry = state.challenges.get("dup").unwrap();
    assert_eq!(entry.id, "2");
    assert_eq!(entry.name, "DUP");
    assert_eq!(entry.category, "web");
    assert_eq!(state.last_sync, Some(at(1000)));
}

#[test]
fn sync_marks_platform_solves_once() {
    let mut state = init_state();
    let mut a = make_challenge("1", "A", "pwn");
    a.solved_by_me = true;
    a.value = 300;
    apply_sync(&mut state, &[a.clone()], at(1));
    assert_eq!(state.challenges.get("a").unwrap().status, ChallengeStatus::Solved);
    assert_eq!(state.challenges.get("a").unwrap().points, Some(300));

    // a later sync with another value does not rewrite the points of a solve
    a.value = 999;
    apply_sync(&mut state, &[a], at(2));
    assert_eq!(state.challenges.get("a").unwrap().points, Some(300));
}

#[test]
fn sync_twice_is_sync_once() {
    let challenges = vec![make_challenge("1", "X", "web"), make_challenge("2", "Y", "web")];
    let mut once = init_state();
    apply_sync(&mut once, &challenges, at(5));
    let mut twice = init_state();
    apply_sync(&mut twice, &challenges, at(5));
    apply_sync(&mut twice, &challenges, at(5));
    assert_eq!(once.challenges.len(), twice.challenges.len());
    for key in ["x", "y"] {
        let a = once.challenges.get(key).unwrap();
        let b = twice.challenges.get(key).unwrap();
        assert_eq!(a.id, b.id);
        assert_eq!(a.status, b.status);
        assert_eq!(a.points, b.points);
    }
}

#[test]
fn full_sync_keeps_cached_details_when_platform_sends_none() {
    let mut state = cached_state();
    apply_sync_full(&mut state, &[make_challenge("1", "test", "web")], at(7), at(8));
    let entry = state.challenges.get("test").unwrap();
    assert_eq!(entry.description.as_deref(), Some("A web challenge"));
    assert_eq!(entry.tags.as_ref().unwrap(), &["easy"]);
    assert_eq!(entry.details_fetched_at, Some(at(8)));
    assert_eq!(state.last_sync, Some(at(7)));
}

#[test]
fn mark_solved_keeps_known_identity() {
    let mut state = init_state();
    apply_sync(&mut state, &[make_challenge("9", "Known", "rev")], at(1));
    apply_mark_solved(&mut state, "other-id", "KNOWN", 50, "flag{k}", at(3));
    let entry = state.challenges.get("known").unwrap();
    assert_eq!(entry.id, "9");
    assert_eq!(entry.category, "rev");
    assert_eq!(entry.solved_at, Some(at(3)));
    assert_eq!(entry.points, Some(50));
}

#[test]
fn mark_solved_of_unknown_challenge_creates_record() {
    let mut state = init_state();
    apply_mark_solved(&mut state, "7", "New One", 10, "f", at(4));
    let entry = state.challenges.get("new one").unwrap();
    assert_eq!(entry.id, "7");
    assert_eq!(entry.name, "New One");
    assert_eq!(entry.category, "");
    assert_eq!(entry.status, ChallengeStatus::Solved);
}

#[test]
fn current_time_stamps_a_sync() {
    let mut state = init_state();
    update_sync(&mut state, &[]);
    let t = state.last_sync.unwrap();
    assert!(t.secs > 0);
    assert!(t.nanos < 1_000_000_000);
}

#[test]
fn challenge_map_insert_replaces() {
    let mut m = ChallengeMap::new();
    let mut s = cached_state();
    let first = s.challenges.get("test").unwrap().clone();
    m.insert("k".into(), first.clone());
    let mut second = first;
    second.name = "renamed".into();
    m.insert("k".into(), second);
    assert_eq!(m.len(), 1);
    assert_eq!(m.get("k").unwrap().name, "renamed");
    assert!(m.get("K").is_none());
    s.challenges.insert("other".into(), m.get("k").unwrap().clone());
    assert_eq!(s.challenges.len(), 2);
}

#[test]
fn full_sync_then_merge_gives_details_back() {
    let mut state = init_state();
    let mut c = make_challenge("1", "Web 1", "web");
    c.description = "Find the admin panel".into();
    c.tags = vec!["medium".into()];
    c.hints = vec![Hint { id: "3".into(), content: None, cost: 0 }];
    apply_sync_full(&mut state, &[c], at(1), at(2));

    let mut listed = vec![make_challenge("1", "WEB 1", "web")];
    merge_cached_details(&mut listed, &state);
    assert_eq!(listed[0].description, "Find the admin panel");
    assert_eq!(listed[0].tags, vec!["medium"]);
    assert_eq!(listed[0].hints.len(), 1);
    assert!(listed[0].files.is_empty());
}

#[test]
fn stamps_are_clock_readings() {
    let mut state = init_state();
    update_sync(&mut state, &[make_challenge("1", "A", "web")]);
    let t = state.last_sync.unwrap();
    assert!(t.secs > 0 && t.nanos < 1_000_000_000);
    update_sync_full(&mut state, &[make_challenge("1", "A", "web")]);
    let f = state.challenges.get("a").unwrap().details_fetched_at.unwrap();
    assert!(f.secs > 0 && f.nanos < 1_000_000_000);
    mark_solved(&mut state, "1", "A", 10, "flag{a}");
    let s = state.challenges.get("a").unwrap().solved_at.unwrap();
    assert!(s.secs > 0 && s.nanos < 1_000_000_000);
}

#[test]
fn keyed_sync_files_under_the_given_key() {
    let mut map = ChallengeMap::new();
    let mut c = make_challenge("7", "Baby Pwn", "pwn");
    c.solved_by_me = true;
    c.value = 300;
    let i = sync_challenge_keyed(&mut map, &c, "custom key".into());
    assert_eq!(map.len(), 1);
    assert_eq!(map.key_at(i), "custom key");
    let e = map.get("custom key").unwrap();
    assert_eq!(e.name, "Baby Pwn");
    assert_eq!(e.status, ChallengeStatus::Solved);
    assert_eq!(e.points, Some(300));
    assert!(map.get("baby pwn").is_none());
    // a second sync under the same key renames, keeps the solve
    let c2 = make_challenge("8", "BABY PWN", "misc");
    let j = sync_challenge_keyed(&mut map, &c2, "custom key".into());
    assert_eq!(j, i);
    let e = map.get("custom key").unwrap();
    assert_eq!(e.id, "8");
    assert_eq!(e.category, "misc");
    assert_eq!(e.status, ChallengeStatus::Solved);
}

#[test]
fn keyed_full_sync_caches_details_under_the_key() {
    let mut map = ChallengeMap::new();
    let mut c = make_challenge("1", "Web 1", "web");
    c.description = "look closer".into();
    sync_challenge_full_keyed(&mut map, &c, "w1".into(), at(77));
    let e = map.get("w1").unwrap();
    assert_eq!(e.description.as_deref(), Some("look closer"));
    assert_eq!(e.details_fetched_at, Some(at(77)));
    assert!(e.hints.is_none());
}

#[test]
fn keyed_merge_reads_the_given_key() {
    let state = cached_state();
    let merged = merge_with_key(make_challenge("1", "Other Name", "web"), "test", &state);
    assert_eq!(merged.description, "A web challenge");
    assert_eq!(merged.name, "Other Name");
    let untouched = merge_with_key(make_challenge("1", "test", "web"), "nothing here", &state);
    assert_eq!(untouched.description, "");
    assert!(untouched.hints.is_empty());
}

#[test]
fn keyed_solve_is_filed_under_the_key() {
    let mut state = init_state();
    apply_mark_solved_keyed(&mut state, "k".into(), "3", "Rev Me", 250, "flag{k}", at(9));
    let e = state.challenges.get("k").unwrap();
    assert_eq!(e.name, "Rev Me");
    assert_eq!(e.points, Some(250));
    assert_eq!(e.solved_at, Some(at(9)));
    assert!(state.challenges.get("rev me").is_none());
}
