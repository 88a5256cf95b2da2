use hive_hydra::hashing::calculate_hash;
use hive_hydra::hivegame_bot_api::{
    bearer_authorization, fake_game, fake_get_games, games_url, is_success_status, move_url,
    HiveGame, API_TIMEOUT,
};
use std::collections::hash_map::DefaultHasher;
use std::hash::{Hash, Hasher};

fn std_hash(s: &str) -> u64 {
    let mut h = DefaultHasher::new();
    s.hash(&mut h);
    h.finish()
}

#[test]
fn hash_matches_default_hasher() {
    for s in ["", "a", "Base;InProgress;White[3];wS1;bG1"] {
        assert_eq!(calculate_hash(s), std_hash(s));
    }
    assert_eq!(calculate_hash("abc"), calculate_hash("abc"));
    assert_ne!(calculate_hash("abc"), calculate_hash("abd"));
}

#[test]
fn fake_games_content() {
    let games = fake_get_games("/games/bot1", "test_key");
    assert_eq!(games.len(), 1);
    let g = &games[0];
    assert_eq!(g.game_id, "123");
    assert_eq!(g.time, "20+10");
    assert_eq!(g.opponent_username, "player1");
    assert_eq!(g.game_type, "Base+PLM");
    assert_eq!(g.game_status, "InProgress");
    assert_eq!(g.player_turn, "White[3]");
    assert_eq!(g.moves, "wS1;bG1 -wS1;wA1 wS1/;bG2 /bG1");
    assert_eq!(fake_game().game_id, "123");
}

#[test]
fn game_string_and_hash() {
    let g = HiveGame {
        game_id: "123".to_string(),
        time: "20+10".to_string(),
        opponent_username: "p".to_string(),
        game_type: "Base".to_string(),
        game_status: "InProgress".to_string(),
        player_turn: "White[3]".to_string(),
        moves: "wS1;bG1".to_string(),
    };
    assert_eq!(g.game_string(), "123;Base;InProgress;White[3];wS1;bG1");
    assert_eq!(g.calculate_hash(), std_hash("123;Base;InProgress;White[3];wS1;bG1"));
}

#[test]
fn urls_and_header() {
    assert_eq!(games_url("http://h", "/games/bot1"), "http://h/games/bot1");
    assert_eq!(move_url("http://h", "123"), "http://h/games/123/move");
    assert_eq!(bearer_authorization("test_key"), "Bearer test_key");
    assert_eq!(API_TIMEOUT, 10);
}

#[test]
fn success_statuses() {
    assert!(is_success_status(200));
    assert!(is_success_status(204));
    assert!(is_success_status(299));
    assert!(!is_success_status(199));
    assert!(!is_success_status(300));
    assert!(!is_success_status(404));
}
