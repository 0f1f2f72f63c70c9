use ctf::clock::Timestamp;
use ctf::platform::types::{Challenge, Notification};
use ctf::tui::app::{reload_due, ActivePanel, App, Key};
use ctf::workspace::state::{apply_mark_solved, apply_sync, init_state, ChallengeStatus, WorkspaceState};

fn chal(id: &str, name: &str, category: &str) -> Challenge {
    Challenge {
        id: id.into(),
        name: name.into(),
        category: category.into(),
        description: String::new(),
        value: 10,
        solves: 0,
        solved_by_me: false,
        files: vec![],
        tags: vec![],
        hints: vec![],
    }
}

fn t(secs: i64) -> Timestamp {
    Timestamp { secs, nanos: 0 }
}

fn sample_state() -> WorkspaceState {
    let mut state = init_state();
    apply_sync(
        &mut state,
        &[chal("1", "b", "web"), chal("2", "a", "web"), chal("3", "c", "crypto")],
        t(1),
    );
    apply_mark_solved(&mut state, "2", "a", 100, "flag{a}", t(2));
    state
}

#[test]
fn next_cycles_through_panels() {
    assert_eq!(ActivePanel::Challenges.next(), ActivePanel::Queue);
    assert_eq!(ActivePanel::Queue.next(), ActivePanel::Notifications);
    assert_eq!(ActivePanel::Notifications.next(), ActivePanel::Challenges);
    let p = ActivePanel::Queue;
    assert_eq!(p.next().next().next(), p);
}

#[test]
fn keys_quit_focus_and_reload() {
    let mut app = App::new("/ws".into(), "ws".into(), sample_state());
    assert!(!app.handle_key(Key::Tab));
    assert_eq!(app.active_panel, ActivePanel::Queue);
    assert!(app.handle_key(Key::Char('r')));
    assert!(!app.should_quit);
    assert!(!app.handle_key(Key::Char('q')));
    assert!(app.should_quit);
    let mut app2 = App::new("/ws".into(), "ws".into(), init_state());
    app2.handle_key(Key::Esc);
    assert!(app2.should_quit);
}

#[test]
fn scrolling_stays_within_the_list() {
    let mut app = App::new("/ws".into(), "ws".into(), sample_state());
    app.handle_key(Key::Up);
    assert_eq!(app.challenge_scroll, 0);
    app.handle_key(Key::Down);
    app.handle_key(Key::Char('j'));
    app.handle_key(Key::Down);
    assert_eq!(app.challenge_scroll, 2);
    app.handle_key(Key::Char('k'));
    assert_eq!(app.challenge_scroll, 1);
    // notifications panel scrolls its own list
    app.handle_key(Key::Tab);
    app.handle_key(Key::Tab);
    assert_eq!(app.active_panel, ActivePanel::Notifications);
    app.handle_key(Key::Down);
    assert_eq!(app.notif_scroll, 0);
    app.state.notifications.push(Notification { id: "1".into(), title: "t".into(), content: "c".into() });
    app.state.notifications.push(Notification { id: "2".into(), title: "t".into(), content: "c".into() });
    app.handle_key(Key::Down);
    app.handle_key(Key::Down);
    assert_eq!(app.notif_scroll, 1);
    assert_eq!(app.challenge_scroll, 1);
}

#[test]
fn reload_keeps_state_when_loading_failed() {
    let mut app = App::new("/ws".into(), "ws".into(), sample_state());
    app.reload_state(None);
    assert_eq!(app.state.challenges.len(), 3);
    app.reload_state(Some(init_state()));
    assert_eq!(app.state.challenges.len(), 0);
}

#[test]
fn counts_and_points() {
    let app = App::new("/ws".into(), "ws".into(), sample_state());
    assert_eq!(app.solved_count(), 1);
    assert_eq!(app.total_points(), 100);
}

#[test]
fn sorted_challenges_in_dashboard_order() {
    let mut state = sample_state();
    state.challenges.insert("c".into(), {
        let mut c = state.challenges.get("c").unwrap().clone();
        c.status = ChallengeStatus::InProgress;
        c
    });
    let app = App::new("/ws".into(), "ws".into(), state);
    let order: Vec<String> = app.sorted_challenges().iter().map(|c| c.name.clone()).collect();
    assert_eq!(order, vec!["c", "b", "a"]);
}

#[test]
fn categories_in_order_with_counts() {
    let app = App::new("/ws".into(), "ws".into(), sample_state());
    let cats = app.categories();
    assert_eq!(cats, vec![("crypto".to_string(), 0, 1), ("web".to_string(), 1, 2)]);
    let total: usize = cats.iter().map(|c| c.2).sum();
    assert_eq!(total, app.state.challenges.len());
    let solved: usize = cats.iter().map(|c| c.1).sum();
    assert_eq!(solved, app.solved_count());
}

#[test]
fn scroll_steps_move_the_active_list_only() {
    let mut app = App::new("/ws".into(), "ws".into(), sample_state());
    let n = app.state.challenges.len();
    for _ in 0..n + 3 {
        app.scroll_down();
    }
    assert_eq!(app.challenge_scroll, n - 1);
    assert_eq!(app.notif_scroll, 0);
    app.scroll_up();
    assert_eq!(app.challenge_scroll, n - 2);
    app.scroll_down();
    assert_eq!(app.challenge_scroll, n - 1);
    app.active_panel = ActivePanel::Queue;
    app.scroll_up();
    assert_eq!(app.challenge_scroll, n - 1);
    app.active_panel = ActivePanel::Challenges;
    for _ in 0..n + 3 {
        app.scroll_up();
    }
    assert_eq!(app.challenge_scroll, 0);
}

#[test]
fn reload_every_two_seconds() {
    assert!(!reload_due(0));
    assert!(!reload_due(1999));
    assert!(reload_due(2000));
    assert!(reload_due(60_000));
}
