use hive_hydra::config::BotConfig;
use hive_hydra::game_turn::collect_turns;
use hive_hydra::hivegame_bot_api::{fake_get_games, HiveGame};
use hive_hydra::turn_tracker::{TurnTracker, TurnTracking};

fn bot() -> BotConfig {
    BotConfig {
        name: "bot1".to_string(),
        uri: "/games/bot1".to_string(),
        ai_command: "engine".to_string(),
        bestmove_command_args: "depth 1".to_string(),
        api_key: "k".to_string(),
    }
}

fn game(id: &str, moves: &str) -> HiveGame {
    HiveGame {
        game_id: id.to_string(),
        time: "20+10".to_string(),
        opponent_username: "p".to_string(),
        game_type: "Base".to_string(),
        game_status: "InProgress".to_string(),
        player_turn: "White[3]".to_string(),
        moves: moves.to_string(),
    }
}

#[test]
fn first_collection_queues_second_does_not() {
    let mut t = TurnTracker::new();
    let games = fake_get_games("/games/bot1", "k");
    let b = bot();
    let turns = collect_turns(&mut t, &games, &b);
    assert_eq!(turns.len(), 1);
    assert_eq!(turns[0].game_string, "123;Base+PLM;InProgress;White[3];wS1;bG1 -wS1;wA1 wS1/;bG2 /bG1");
    assert_eq!(turns[0].hash, games[0].calculate_hash());
    assert_eq!(turns[0].bot.name, "bot1");
    assert!(t.is_tracked(turns[0].hash));
    let again = collect_turns(&mut t, &games, &b);
    assert!(again.is_empty());
}

#[test]
fn duplicates_in_one_batch_give_one_turn() {
    let mut t = TurnTracker::new();
    let games = vec![game("1", "wS1"), game("2", "wS1"), game("1", "wS1")];
    let turns = collect_turns(&mut t, &games, &bot());
    assert_eq!(turns.len(), 2);
    assert_eq!(turns[0].game_string, "1;Base;InProgress;White[3];wS1");
    assert_eq!(turns[1].game_string, "2;Base;InProgress;White[3];wS1");
}

#[test]
fn tracked_games_are_skipped() {
    let mut t = TurnTracker::new();
    let games = vec![game("1", "wS1"), game("2", "wS1")];
    t.processed_at(games[0].calculate_hash(), 0);
    let turns = collect_turns(&mut t, &games, &bot());
    assert_eq!(turns.len(), 1);
    assert_eq!(turns[0].hash, games[1].calculate_hash());
}

#[test]
fn new_move_is_a_new_turn() {
    let mut t = TurnTracker::new();
    let first = vec![game("1", "wS1")];
    assert_eq!(collect_turns(&mut t, &first, &bot()).len(), 1);
    let next = vec![game("1", "wS1;bG1")];
    assert_eq!(collect_turns(&mut t, &next, &bot()).len(), 1);
}
