//! The games of the hivegame.com bot API, and the requests sent to it.

use crate::hashing::calculate_hash;
use crate::hashing::spec_calculate_hash;
use vstd::prelude::*;

verus! {

/// Seconds that a call to the API may take.
pub const API_TIMEOUT: u64 = 10;

/// A game that waits for a bot's move, as the API reports it.
pub struct HiveGame {
    pub game_id: String,
    pub time: String,
    pub opponent_username: String,
    /// Base, Base+PLM, ...
    pub game_type: String,
    /// InProgress, ...
    pub game_status: String,
    /// White[3], ...
    pub player_turn: String,
    /// wS1;bG1 -wS1;wA1 wS1/;bG2 /bG1
    pub moves: String,
}

impl HiveGame {
    /// `game_id;game_type;game_status;player_turn;moves`
    pub open spec fn spec_game_string(&self) -> Seq<char> {
        self.game_id@ + ";"@ + self.game_type@ + ";"@ + self.game_status@ + ";"@
            + self.player_turn@ + ";"@ + self.moves@
    }

    /// The line that describes the game to an engine:
    /// `game_id;game_type;game_status;player_turn;moves`.
    pub fn game_string(&self) -> (line: String)
        ensures
            line@ == self.spec_game_string(),
            line@ == self.game_id@ + ";"@ + self.game_type@ + ";"@ + self.game_status@ + ";"@
                + self.player_turn@ + ";"@ + self.moves@,
    {
        let mut line = self.game_id.clone();
        line.append(";");
        line.append(self.game_type.as_str());
        line.append(";");
        line.append(self.game_status.as_str());
        line.append(";");
        line.append(self.player_turn.as_str());
        line.append(";");
        line.append(self.moves.as_str());
        line
    }

    /// The hash of the game's line, which identifies the turn.
    pub open spec fn spec_hash(&self) -> u64 {
        spec_calculate_hash(self.spec_game_string())
    }

    /// Hashes the game's line; equal lines give equal hashes.
    pub fn calculate_hash(&self) -> (hash: u64)
        ensures
            hash == self.spec_hash(),
    {
        let line = self.game_string();
        calculate_hash(line.as_str())
    }
}

/// A game's line is its fields joined by `;`, in the order id, type,
/// status, player turn, moves: it starts with the id and ends with the whole
/// move list, and its length is the fields' lengths plus four separators.
pub proof fn lemma_game_string_fields(game: HiveGame)
    ensures
        game.spec_game_string() == game.game_id@ + ";"@ + game.game_type@ + ";"@
            + game.game_status@ + ";"@ + game.player_turn@ + ";"@ + game.moves@,
        game.spec_game_string().len() == game.game_id@.len() + game.game_type@.len()
            + game.game_status@.len() + game.player_turn@.len() + game.moves@.len() + 4,
        game.spec_game_string().subrange(0, game.game_id@.len() as int) == game.game_id@,
        game.spec_game_string().subrange(
            game.spec_game_string().len() - game.moves@.len(),
            game.spec_game_string().len() as int,
        ) == game.moves@,
{
    reveal_strlit(";");
    let s = game.spec_game_string();
    assert(s.subrange(0, game.game_id@.len() as int) =~= game.game_id@);
    assert(s.subrange(s.len() - game.moves@.len(), s.len() as int) =~= game.moves@);
}

/// The one game that `fake_get_games` reports.
pub fn fake_game() -> (game: HiveGame)
    ensures
        game.game_id@ == "123"@,
        game.time@ == "20+10"@,
        game.opponent_username@ == "player1"@,
        game.game_type@ == "Base+PLM"@,
        game.game_status@ == "InProgress"@,
        game.player_turn@ == "White[3]"@,
        game.moves@ == "wS1;bG1 -wS1;wA1 wS1/;bG2 /bG1"@,
{
    HiveGame {
        game_id: String::from_str("123"),
        time: String::from_str("20+10"),
        opponent_username: String::from_str("player1"),
        game_type: String::from_str("Base+PLM"),
        game_status: String::from_str("InProgress"),
        player_turn: String::from_str("White[3]"),
        moves: String::from_str("wS1;bG1 -wS1;wA1 wS1/;bG2 /bG1"),
    }
}

/// Stands in for `get_games` when testing without a server: one fixed game,
/// whatever the bot.
pub fn fake_get_games(_uri: &str, _api_key: &str) -> (games: Vec<HiveGame>)
    ensures
        games@.len() == 1,
        games@[0].game_id@ == "123"@,
        games@[0].time@ == "20+10"@,
        games@[0].opponent_username@ == "player1"@,
        games@[0].game_type@ == "Base+PLM"@,
        games@[0].game_status@ == "InProgress"@,
        games@[0].player_turn@ == "White[3]"@,
        games@[0].moves@ == "wS1;bG1 -wS1;wA1 wS1/;bG2 /bG1"@,
{
    let mut games: Vec<HiveGame> = Vec::new();
    games.push(fake_game());
    games
}

/// The URL of a bot's games: the base URL followed by the bot's URI.
pub fn games_url(base_url: &str, uri: &str) -> (url: String)
    ensures
        url@ == base_url@ + uri@,
{
    let mut url = String::from_str(base_url);
    url.append(uri);
    url
}

/// The URL that a move in a game is sent to: `<base>/games/<id>/move`.
pub fn move_url(base_url: &str, game_id: &str) -> (url: String)
    ensures
        url@ == base_url@ + "/games/"@ + game_id@ + "/move"@,
{
    let mut url = String::from_str(base_url);
    url.append("/games/");
    url.append(game_id);
    url.append("/move");
    url
}

/// The value of the `Authorization` header: `Bearer <key>`.
pub fn bearer_authorization(api_key: &str) -> (value: String)
    ensures
        value@ == "Bearer "@ + api_key@,
{
    let mut value = String::from_str("Bearer ");
    value.append(api_key);
    value
}

/// Whether an HTTP status code reports success (200 to 299).
pub fn is_success_status(status_code: u16) -> (success: bool)
    ensures
        success == (200 <= status_code && status_code <= 299),
{
    200 <= status_code && status_code <= 299
}

} // verus!
