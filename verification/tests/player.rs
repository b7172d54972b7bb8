use easymc::player::PlayerTracker;

#[test]
fn test_join_leave() {
    let mut t = PlayerTracker::new();
    t.process_log_line("[14:32:01 INFO]: Steve joined the game");
    assert_eq!(t.player_count(), 1);
    assert!(t.is_online("Steve"));

    t.process_log_line("[14:32:05 INFO]: Steve left the game");
    assert_eq!(t.player_count(), 0);
}

#[test]
fn test_uuid_tracking() {
    let mut t = PlayerTracker::new();
    t.process_log_line("[14:32:01 INFO]: Steve joined the game");
    t.process_log_line(
        "[14:32:02 INFO]: UUID of player Steve is 123e4567-e89b-12d3-a456-426614174000",
    );

    let info = t.player_info("Steve").unwrap();
    assert_eq!(
        info.uuid.as_deref(),
        Some("123e4567-e89b-12d3-a456-426614174000")
    );
}

#[test]
fn test_multiple_players() {
    let mut t = PlayerTracker::new();
    t.process_log_line("[14:32:01 INFO]: Alice joined the game");
    t.process_log_line("[14:32:05 INFO]: Bob joined the game");
    assert_eq!(t.player_count(), 2);

    let players = t.online_players();
    assert_eq!(players, vec!["Alice", "Bob"]);
}

#[test]
fn join_time_is_the_time_given() {
    let mut t = PlayerTracker::new();
    t.process_log_line_at("[10:00:00 INFO]: Alex joined the game", 1234);
    let info = t.player_info("Alex").unwrap();
    assert_eq!(info.joined_at, 1234);
    assert_eq!(info.name, "Alex");
    assert_eq!(info.uuid, None);
}

#[test]
fn unrelated_lines_change_nothing() {
    let mut t = PlayerTracker::new();
    t.process_log_line_at("[10:00:00 INFO]: Done (3.2s)! For help, type \"help\"", 1);
    t.process_log_line_at("no bracket at all", 2);
    assert_eq!(t.player_count(), 0);
    assert!(!t.is_online("Done"));
}

#[test]
fn leaving_twice_and_clearing() {
    let mut t = PlayerTracker::new();
    t.process_log_line_at("[10:00:00 INFO]: Steve joined the game", 1);
    t.process_log_line_at("[10:00:01 INFO]: Alex joined the game", 2);
    t.process_log_line_at("[10:00:02 INFO]: Steve left the game", 3);
    t.process_log_line_at("[10:00:03 INFO]: Steve left the game", 4);
    assert_eq!(t.online_players(), vec!["Alex"]);
    t.clear();
    assert_eq!(t.player_count(), 0);
}
