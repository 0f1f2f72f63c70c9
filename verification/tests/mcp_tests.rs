use ctf::mcp::types::{ChallengesParams, QueueUpdateParams, SubmitFlagParams, UnlockHintParams};
use ctf::mcp::{
    apply_queue_request, challenges_to_refetch, free_hints_to_unlock, hint_cost_warning,
    paid_hint_cost, parse_queue_update, pseudo_challenge, replace_challenge, select_challenges,
    solve_to_record, sync_summary, validate_hint_id, validate_submission, validate_writeup_challenge,
    workspace_status, writeup_record, writeup_record_keyed, writeup_saved_message, keep_challenge,
    no_files_answer, ChallengeAction, QueueError, QueueRequest, ToolError,
};
use ctf::mcp::sync_run::{SyncAction, SyncEvent, SyncRun};
use ctf::platform::types::{Challenge, ChallengeFile, Hint, SubmitResult};
use ctf::workspace::orchestration::{OrchestrationState, QueuedChallenge};
use ctf::workspace::state::{apply_mark_solved, init_state, CachedHint, ChallengeState, ChallengeStatus};
use ctf::clock::Timestamp;

fn chal(id: &str, name: &str, category: &str, value: u32, solved: bool) -> Challenge {
    Challenge {
        id: id.into(),
        name: name.into(),
        category: category.into(),
        description: String::new(),
        value,
        solves: 0,
        solved_by_me: solved,
        files: vec![],
        tags: vec![],
        hints: vec![],
    }
}

fn names(cs: &[Challenge]) -> Vec<String> {
    cs.iter().map(|c| c.name.clone()).collect()
}

#[test]
fn listing_sorts_by_category_then_name() {
    let cs = vec![
        chal("1", "b", "web", 1, false),
        chal("2", "a", "web", 1, false),
        chal("3", "z", "crypto", 1, true),
    ];
    let params = ChallengesParams { category: None, unsolved: None, solved: None };
    let r = select_challenges(cs, &params);
    assert_eq!(names(&r), vec!["z", "a", "b"]);
}

#[test]
fn listing_filters_category_ignoring_case() {
    let cs = vec![chal("1", "b", "Web", 1, false), chal("2", "a", "crypto", 1, false)];
    let params = ChallengesParams { category: Some("WEB".into()), unsolved: None, solved: None };
    let r = select_challenges(cs, &params);
    assert_eq!(names(&r), vec!["b"]);
}

#[test]
fn listing_unsolved_and_solved_filters() {
    let cs = vec![chal("1", "s", "x", 1, true), chal("2", "u", "x", 1, false)];
    let unsolved = ChallengesParams { category: None, unsolved: Some(true), solved: None };
    assert_eq!(names(&select_challenges(cs.clone(), &unsolved)), vec!["u"]);
    let solved = ChallengesParams { category: None, unsolved: Some(false), solved: Some(true) };
    assert_eq!(names(&select_challenges(cs.clone(), &solved)), vec!["s"]);
    let both = ChallengesParams { category: None, unsolved: Some(true), solved: Some(true) };
    assert!(select_challenges(cs, &both).is_empty());
}

#[test]
fn listing_keeps_platform_order_for_ties() {
    let cs = vec![chal("1", "same", "c", 1, false), chal("2", "same", "c", 2, false)];
    let params = ChallengesParams { category: None, unsolved: None, solved: None };
    let r = select_challenges(cs, &params);
    assert_eq!(r[0].id, "1");
    assert_eq!(r[1].id, "2");
}

#[test]
fn listing_orders_by_code_point() {
    let cs = vec![chal("1", "b", "a", 1, false), chal("2", "a", "B", 1, false), chal("3", "c", "ab", 1, false)];
    let params = ChallengesParams { category: None, unsolved: None, solved: None };
    let r = select_challenges(cs, &params);
    assert_eq!(names(&r), vec!["a", "b", "c"]);
}

#[test]
fn submission_is_trimmed_and_checked() {
    let ok = SubmitFlagParams { challenge: "  Easy RSA ".into(), flag: "\tflag{x} \n".into() };
    assert_eq!(validate_submission(&ok), Ok(("flag{x}".to_string(), "Easy RSA".to_string())));
    let no_flag = SubmitFlagParams { challenge: "".into(), flag: "   ".into() };
    assert_eq!(validate_submission(&no_flag), Err(ToolError::EmptyFlag));
    let no_name = SubmitFlagParams { challenge: " ".into(), flag: "f".into() };
    assert_eq!(validate_submission(&no_name), Err(ToolError::EmptyChallengeName));
    assert_eq!(ToolError::EmptyFlag.message(), "Flag cannot be empty");
    assert_eq!(ToolError::EmptyChallengeName.message(), "Challenge name cannot be empty");
}

#[test]
fn only_correct_submissions_are_recorded() {
    let correct = SubmitResult::Correct { challenge: "test".into(), points: 100 };
    assert_eq!(solve_to_record(&correct), Some(("test".to_string(), 100)));
    assert_eq!(solve_to_record(&SubmitResult::Incorrect), None);
    assert_eq!(solve_to_record(&SubmitResult::AlreadySolved), None);
    assert_eq!(solve_to_record(&SubmitResult::RateLimited { retry_after: Some(10) }), None);
}

#[test]
fn hint_id_is_checked() {
    assert_eq!(validate_hint_id(&UnlockHintParams { hint_id: " 12 ".into() }), Ok("12".to_string()));
    assert_eq!(validate_hint_id(&UnlockHintParams { hint_id: "  ".into() }), Err(ToolError::EmptyHintId));
    assert_eq!(ToolError::EmptyHintId.message(), "Hint ID cannot be empty");
}

fn hint(id: &str, content: Option<&str>, cost: u32) -> Hint {
    Hint { id: id.into(), content: content.map(|s| s.to_string()), cost }
}

#[test]
fn full_sync_unlocks_only_free_locked_hints() {
    let mut a = chal("1", "a", "x", 1, false);
    a.hints = vec![hint("h1", None, 0), hint("h2", None, 5), hint("h3", Some("known"), 0)];
    let b = chal("2", "b", "x", 1, false);
    let mut c = chal("3", "c", "x", 1, false);
    c.hints = vec![hint("h4", None, 0)];
    let detailed = vec![a, b, c];
    assert_eq!(free_hints_to_unlock(&detailed), vec!["h1", "h4"]);
    assert_eq!(challenges_to_refetch(&detailed), vec!["1", "3"]);
}

#[test]
fn refetched_challenge_replaces_first_with_id() {
    let mut detailed = vec![chal("1", "a", "x", 1, false), chal("2", "b", "x", 1, false)];
    let refreshed = chal("2", "b2", "x", 1, false);
    assert_eq!(replace_challenge(&mut detailed, "2", refreshed), Some(1));
    assert_eq!(detailed[1].name, "b2");
    assert_eq!(replace_challenge(&mut detailed, "9", chal("9", "n", "x", 1, false)), None);
    assert_eq!(detailed.len(), 2);
}

#[test]
fn sync_summary_texts() {
    assert_eq!(sync_summary(12, 3, 0, false, 0, 0), "Synced 12 challenges (3 new, 0 files downloaded)");
    assert_eq!(
        sync_summary(5, 0, 2, true, 4, 1),
        "Synced 5 challenges (0 new, 2 files downloaded) with full details cached, 4 free hints unlocked, 1 notifications fetched"
    );
}

#[test]
fn workspace_status_counts() {
    let cs = vec![
        chal("1", "a", "web", 100, true),
        chal("2", "b", "crypto", 200, false),
        chal("3", "c", "web", 300, false),
    ];
    let st = workspace_status(&cs);
    assert_eq!(st.total, 3);
    assert_eq!(st.solved, 1);
    assert_eq!(st.total_points, 600);
    assert_eq!(st.solved_points, 100);
    assert_eq!(st.categories.len(), 2);
    assert_eq!(st.categories[0].name, "crypto");
    assert_eq!((st.categories[0].solved, st.categories[0].total, st.categories[0].points), (0, 1, 200));
    assert_eq!(st.categories[1].name, "web");
    assert_eq!((st.categories[1].solved, st.categories[1].total, st.categories[1].points), (1, 2, 400));
    let total: u32 = st.categories.iter().map(|c| c.total).sum();
    assert_eq!(total as usize, st.total);
}

#[test]
fn workspace_status_of_nothing() {
    let st = workspace_status(&[]);
    assert_eq!((st.total, st.solved, st.total_points, st.solved_points), (0, 0, 0, 0));
    assert!(st.categories.is_empty());
}

#[test]
fn paid_hints_are_found_in_cache() {
    let mut state = init_state();
    state.challenges.insert(
        "x".into(),
        ChallengeState {
            id: "1".into(),
            name: "x".into(),
            category: "c".into(),
            status: ChallengeStatus::Unsolved,
            solved_at: None,
            points: None,
            flag: None,
            description: None,
            hints: Some(vec![
                CachedHint { id: "free".into(), content: None, cost: 0 },
                CachedHint { id: "paid".into(), content: None, cost: 25 },
            ]),
            files: None,
            tags: None,
            details_fetched_at: None,
        },
    );
    assert_eq!(paid_hint_cost(&state, "paid"), Some(25));
    assert_eq!(paid_hint_cost(&state, "free"), None);
    assert_eq!(paid_hint_cost(&state, "missing"), None);
    assert_eq!(hint_cost_warning(25), "This hint cost 25 points \u{2014} your team score has been reduced");
}

#[test]
fn writeup_needs_a_recorded_solve() {
    let mut state = init_state();
    assert_eq!(validate_writeup_challenge("  "), Err(ToolError::EmptyChallengeName));
    let name = validate_writeup_challenge(" Easy RSA ").unwrap();
    assert_eq!(name, "Easy RSA");
    let err = writeup_record(&state, &name).unwrap_err();
    assert_eq!(err, ToolError::ChallengeNotInState("Easy RSA".into()));
    assert_eq!(err.message(), "Challenge 'Easy RSA' not found in state. Submit the flag first.");
    apply_mark_solved(&mut state, "4", "Easy RSA", 150, "flag{r}", Timestamp { secs: 1, nanos: 0 });
    let record = writeup_record(&state, &name).unwrap();
    let c = pseudo_challenge(record);
    assert_eq!(c.id, "4");
    assert_eq!(c.value, 150);
    assert!(c.solved_by_me);
    assert_eq!(
        writeup_saved_message("Easy RSA", "/ws/crypto/easy-rsa"),
        "Writeup saved for 'Easy RSA' at /ws/crypto/easy-rsa/writeup.md"
    );
}

fn params(action: &str, challenge: Option<&str>) -> QueueUpdateParams {
    QueueUpdateParams {
        action: action.into(),
        queue_json: None,
        challenge: challenge.map(|s| s.to_string()),
        category: None,
        notes: None,
    }
}

#[test]
fn queue_updates_are_checked() {
    assert_eq!(parse_queue_update(params("set_queue", None)).unwrap_err(), QueueError::QueueJsonRequired);
    let err = parse_queue_update(params("start", None)).unwrap_err();
    assert_eq!(err, QueueError::ChallengeRequired(ChallengeAction::Start));
    assert_eq!(err.message(), "challenge required for start");
    let err = parse_queue_update(params("pause", Some("x"))).unwrap_err();
    assert_eq!(err.message(), "Unknown action: pause. Use set_queue, start, complete, fail, or clear.");
    assert_eq!(QueueError::QueueJsonRequired.message(), "queue_json required for set_queue");
    match parse_queue_update(params("fail", Some("x"))).unwrap() {
        QueueRequest::Fail { name, category, notes } => {
            assert_eq!(name, "x");
            assert_eq!(category, "");
            assert_eq!(notes, "failed");
        }
        other => panic!("unexpected {:?}", other),
    }
}

#[test]
fn queue_start_complete_fail() {
    let mut orch = OrchestrationState::default();
    let mut set = params("set_queue", None);
    set.queue_json = Some("[]".into());
    let req = parse_queue_update(set).unwrap();
    apply_queue_request(
        &mut orch,
        req,
        vec![QueuedChallenge { name: "a".into() }, QueuedChallenge { name: "b".into() }],
    );
    assert_eq!(orch.queue.len(), 2);
    assert!(orch.updated_at.is_some());

    apply_queue_request(&mut orch, parse_queue_update(params("start", Some("a"))).unwrap(), vec![]);
    apply_queue_request(&mut orch, parse_queue_update(params("start", Some("a"))).unwrap(), vec![]);
    assert_eq!(orch.queue.len(), 1);
    assert_eq!(orch.queue[0].name, "b");
    assert_eq!(orch.in_progress, vec!["a"]);

    apply_queue_request(&mut orch, parse_queue_update(params("fail", Some("a"))).unwrap(), vec![]);
    assert!(orch.in_progress.is_empty());
    assert_eq!(orch.failed.len(), 1);
    assert_eq!(orch.failed[0].notes, "failed");

    apply_queue_request(&mut orch, parse_queue_update(params("start", Some("b"))).unwrap(), vec![]);
    apply_queue_request(&mut orch, parse_queue_update(params("complete", Some("b"))).unwrap(), vec![]);
    assert!(orch.in_progress.is_empty());
    assert!(orch.queue.is_empty());

    apply_queue_request(&mut orch, parse_queue_update(params("clear", None)).unwrap(), vec![]);
    assert!(orch.failed.is_empty());
    assert!(orch.updated_at.is_some());
}

#[test]
fn keep_challenge_compares_the_given_keys() {
    let c = chal("1", "a", "Web", 10, false);
    let all = ChallengesParams { category: None, unsolved: None, solved: None };
    assert!(keep_challenge(&c, "web", &Some("web".into()), &all));
    assert!(!keep_challenge(&c, "Web", &Some("web".into()), &all));
    assert!(keep_challenge(&c, "anything", &None, &all));
    let solved_only = ChallengesParams { category: None, unsolved: None, solved: Some(true) };
    assert!(!keep_challenge(&c, "web", &None, &solved_only));
    let unsolved_only = ChallengesParams { category: None, unsolved: Some(true), solved: None };
    assert!(keep_challenge(&c, "web", &None, &unsolved_only));
}

#[test]
fn writeup_record_by_key() {
    let mut state = init_state();
    apply_mark_solved(&mut state, "4", "Easy RSA", 150, "flag{r}", Timestamp { secs: 1, nanos: 0 });
    let record = writeup_record_keyed(&state, "whatever", "easy rsa").unwrap();
    assert_eq!(record.id, "4");
    let err = writeup_record_keyed(&state, "Easy RSA", "Easy RSA").unwrap_err();
    assert_eq!(err, ToolError::ChallengeNotInState("Easy RSA".into()));
}

#[test]
fn download_answers_when_there_are_no_files() {
    let c = chal("1", "a", "web", 10, false);
    assert_eq!(no_files_answer(&c).as_deref(), Some("No files attached to this challenge."));
    let mut d = chal("2", "b", "web", 10, false);
    d.files.push(ChallengeFile { name: "x.bin".into(), url: "/f/x.bin".into() });
    assert_eq!(no_files_answer(&d), None);
}

#[test]
fn queue_update_is_stamped_with_a_clock_reading() {
    let mut orch = OrchestrationState::default();
    apply_queue_request(
        &mut orch,
        QueueRequest::Fail { name: "a".into(), category: "web".into(), notes: "stuck".into() },
        vec![],
    );
    let t = orch.updated_at.unwrap();
    assert!(t.secs > 0 && t.nanos < 1_000_000_000);
    assert_eq!(orch.failed.last().unwrap().attempted_at, t);
}

fn file(name: &str) -> ChallengeFile {
    ChallengeFile { name: name.into(), url: format!("/files/{name}") }
}

fn summary_of(a: SyncAction) -> String {
    match a {
        SyncAction::Answer { summary } => summary,
        other => panic!("expected the answer, got {other:?}"),
    }
}

#[test]
fn plain_sync_runs_step_by_step() {
    let mut a = chal("1", "A", "web", 10, false);
    a.files = vec![file("a.txt"), file("b.txt")];
    let b = chal("2", "B", "pwn", 20, false);
    let (mut run, action) = SyncRun::start(vec![a, b], false);
    assert!(matches!(action, SyncAction::Scaffold { index: 0 }));
    let action = run.step(SyncEvent::Scaffolded { created: true });
    assert!(matches!(action, SyncAction::CheckFile { index: 0, file: 0 }));
    // present files are not downloaded
    let action = run.step(SyncEvent::FileChecked { exists: true });
    assert!(matches!(action, SyncAction::CheckFile { index: 0, file: 1 }));
    let action = run.step(SyncEvent::FileChecked { exists: false });
    assert!(matches!(action, SyncAction::Download { index: 0, file: 1 }));
    // an event that answers nothing else changes nothing
    let action = run.step(SyncEvent::Saved);
    assert!(matches!(action, SyncAction::Download { index: 0, file: 1 }));
    let action = run.step(SyncEvent::Downloaded { ok: true });
    assert!(matches!(action, SyncAction::Scaffold { index: 1 }));
    let action = run.step(SyncEvent::Scaffolded { created: false });
    assert!(matches!(action, SyncAction::SaveSync));
    let action = run.step(SyncEvent::Saved);
    assert!(matches!(action, SyncAction::FetchNotifications));
    let action = run.step(SyncEvent::NotificationsFetched { count: 3 });
    assert_eq!(summary_of(action), "Synced 2 challenges (1 new, 1 files downloaded), 3 notifications fetched");
}

#[test]
fn full_sync_unlocks_free_hints_and_refetches() {
    let (mut run, action) = SyncRun::start(vec![], true);
    assert!(matches!(action, SyncAction::FetchDetails));
    let mut a = chal("1", "A", "web", 10, false);
    a.hints = vec![hint("h1", None, 0), hint("h2", None, 5)];
    let mut b = chal("2", "B", "web", 10, false);
    b.hints = vec![hint("h3", None, 0)];
    let action = run.step(SyncEvent::DetailsFetched { detailed: vec![a, b] });
    match action {
        SyncAction::UnlockHint { id } => assert_eq!(id, "h1"),
        other => panic!("unexpected {other:?}"),
    }
    let action = run.step(SyncEvent::HintUnlocked { ok: true });
    match action {
        SyncAction::UnlockHint { id } => assert_eq!(id, "h3"),
        other => panic!("unexpected {other:?}"),
    }
    let action = run.step(SyncEvent::HintUnlocked { ok: false });
    match action {
        SyncAction::Refetch { id } => assert_eq!(id, "1"),
        other => panic!("unexpected {other:?}"),
    }
    let mut fresh = chal("1", "A", "web", 10, false);
    fresh.hints = vec![hint("h1", Some("look here"), 0)];
    let action = run.step(SyncEvent::Refetched { challenge: Some(fresh) });
    match action {
        SyncAction::Refetch { id } => assert_eq!(id, "2"),
        other => panic!("unexpected {other:?}"),
    }
    let action = run.step(SyncEvent::Refetched { challenge: None });
    assert!(matches!(action, SyncAction::SaveSyncFull));
    assert_eq!(run.detailed()[0].hints[0].content.as_deref(), Some("look here"));
    assert_eq!(run.detailed()[1].hints[0].content, None);
    run.step(SyncEvent::Saved);
    let action = run.step(SyncEvent::NotificationsFetched { count: 0 });
    assert_eq!(summary_of(action), "Synced 0 challenges (0 new, 0 files downloaded) with full details cached, 1 free hints unlocked");
}

#[test]
fn full_sync_without_unlocks_does_not_refetch() {
    let (mut run, _) = SyncRun::start(vec![], true);
    let mut a = chal("1", "A", "web", 10, false);
    a.hints = vec![hint("h1", None, 0)];
    run.step(SyncEvent::DetailsFetched { detailed: vec![a] });
    let action = run.step(SyncEvent::HintUnlocked { ok: false });
    assert!(matches!(action, SyncAction::SaveSyncFull));
}

fn record_with_hints(name: &str, hints: Vec<CachedHint>) -> ChallengeState {
    ChallengeState {
        id: name.into(),
        name: name.into(),
        category: "c".into(),
        status: ChallengeStatus::Unsolved,
        solved_at: None,
        points: None,
        flag: None,
        description: None,
        hints: Some(hints),
        files: None,
        tags: None,
        details_fetched_at: None,
    }
}

#[test]
fn paid_hint_cost_is_the_first_paid_match() {
    let mut state = init_state();
    state.challenges.insert(
        "x".into(),
        record_with_hints(
            "x",
            vec![
                CachedHint { id: "h".into(), content: None, cost: 0 },
                CachedHint { id: "h".into(), content: None, cost: 25 },
                CachedHint { id: "h".into(), content: None, cost: 40 },
            ],
        ),
    );
    state.challenges.insert("y".into(), record_with_hints("y", vec![CachedHint { id: "h".into(), content: None, cost: 70 }]));
    assert_eq!(paid_hint_cost(&state, "h"), Some(25));
}
