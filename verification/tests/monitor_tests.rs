use hive_hydra::game_monitor::{contains_id, games_to_start, move_to_send, GameState};

fn g(id: &str, state: &str) -> GameState {
    GameState { game_id: id.to_string(), state: state.to_string() }
}

#[test]
fn starts_only_games_without_task_once() {
    let mut active = vec!["a".to_string()];
    let games = vec![g("a", "s1"), g("b", "s2"), g("c", "s3"), g("b", "s4")];
    let started = games_to_start(&mut active, &games);
    assert_eq!(started.len(), 2);
    assert_eq!(started[0].game_id, "b");
    assert_eq!(started[0].state, "s2");
    assert_eq!(started[1].game_id, "c");
    assert_eq!(active, vec!["a".to_string(), "b".to_string(), "c".to_string()]);
    let again = games_to_start(&mut active, &games);
    assert!(again.is_empty());
    assert_eq!(active.len(), 3);
}

#[test]
fn contains_id_finds_ids() {
    let ids = vec!["x".to_string(), "y".to_string()];
    assert!(contains_id(&ids, &"y".to_string()));
    assert!(!contains_id(&ids, &"z".to_string()));
}

#[test]
fn move_for_engine_reply() {
    let game = g("42", "Base;InProgress");
    let m = move_to_send(&game, Some("wS1".to_string())).unwrap();
    assert_eq!(m.game_id, "42");
    assert_eq!(m.movement, "wS1");
    assert!(move_to_send(&game, None).is_none());
}
