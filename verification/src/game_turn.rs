//! Which of a bot's games become turns for an engine: the producer's
//! decisions.

use crate::config::BotConfig;
use crate::hivegame_bot_api::HiveGame;
use crate::turn_tracker::TrackerView;
use crate::turn_tracker::TurnTracker;
use crate::turn_tracker::TurnTracking;
use vstd::prelude::*;

verus! {

/// A turn to be answered by a bot's engine.
pub struct GameTurn {
    /// The game's line, as sent to the engine.
    pub game_string: String,
    /// The hash of `game_string`.
    pub hash: u64,
    /// The bot whose turn it is.
    pub bot: BotConfig,
}

/// No game before index `i` has the hash of game `i`.
pub open spec fn first_of_its_hash(games: Seq<HiveGame>, i: int) -> bool {
    forall|j: int| 0 <= j < i ==> #[trigger] games[j].spec_hash() != games[i].spec_hash()
}

/// Game `i` becomes a turn: its hash was not tracked, and no earlier game in
/// the list has it.
pub open spec fn admitted(v: TrackerView, games: Seq<HiveGame>, i: int) -> bool {
    !v.is_tracked(games[i].spec_hash()) && first_of_its_hash(games, i)
}

/// The games that become turns, in the order of the list.
pub open spec fn admitted_games(v: TrackerView, games: Seq<HiveGame>) -> Seq<HiveGame>
    decreases games.len(),
{
    if games.len() == 0 {
        Seq::empty()
    } else {
        let before = admitted_games(v, games.drop_last());
        if admitted(v, games, games.len() - 1) {
            before.push(games.last())
        } else {
            before
        }
    }
}

/// Some game of the list has this hash.
pub open spec fn some_game_hashes_to(games: Seq<HiveGame>, hash: u64) -> bool {
    exists|j: int| 0 <= j < games.len() && #[trigger] games[j].spec_hash() == hash
}

/// After a collection from `games` on a tracker in state `v`, the turns in
/// work are those that were, and the untracked hashes of the games.
pub open spec fn collected_processing(
    v: TrackerView,
    games: Seq<HiveGame>,
    after: TrackerView,
) -> bool {
    &&& after.processed == v.processed
    &&& forall|h: u64|
        #[trigger] after.processing.contains_key(h) <==> (v.processing.contains_key(h) || (
        !v.is_tracked(h) && some_game_hashes_to(games, h)))
    &&& forall|h: u64| #[trigger]
        v.processing.contains_key(h) ==> after.processing[h] == v.processing[h]
}

/// `turn` is bot `bot`'s turn for `game`, a game whose hash `v` does not
/// track: it carries the game's hash and the game's whole line, its fields
/// joined by `;` in the order id, type, status, player turn, moves.
pub open spec fn turn_is_new_game(v: TrackerView, game: HiveGame, turn: GameTurn, bot: BotConfig) -> bool {
    &&& !v.is_tracked(game.spec_hash())
    &&& turn.hash == game.spec_hash()
    &&& turn.game_string@ == game.game_id@ + ";"@ + game.game_type@ + ";"@ + game.game_status@ + ";"@
        + game.player_turn@ + ";"@ + game.moves@
    &&& turn.bot == bot
}

/// Turn `turn` is game `game` of bot `bot`.
pub open spec fn turn_of(turn: GameTurn, game: HiveGame, bot: BotConfig) -> bool {
    &&& turn.game_string@ == game.spec_game_string()
    &&& turn.hash == game.spec_hash()
    &&& turn.bot == bot
}

proof fn lemma_first_of_its_hash_prefix(games: Seq<HiveGame>, i: int, n: int)
    requires
        0 <= i < n <= games.len(),
    ensures
        first_of_its_hash(games.take(n), i) == first_of_its_hash(games, i),
{
    assert forall|j: int| 0 <= j < i implies games.take(n)[j] == games[j] by {}
    assert(games.take(n)[i] == games[i]);
}

proof fn lemma_admitted_prefix_step(v: TrackerView, games: Seq<HiveGame>, i: int)
    requires
        0 <= i < games.len(),
    ensures
        admitted_games(v, games.take(i + 1)) == (if admitted(v, games, i) {
            admitted_games(v, games.take(i)).push(games[i])
        } else {
            admitted_games(v, games.take(i))
        }),
{
    let p = games.take(i + 1);
    assert(p.drop_last() =~= games.take(i));
    assert(p.last() == games[i]);
    lemma_first_of_its_hash_prefix(games, i, i + 1);
}

/// Marks as in work, on `tracker`, each game of `games` whose hash is not
/// tracked, and returns the turns for those games, in order, as bot `bot`'s.
/// A game whose hash repeats an earlier one of the list is skipped too.
#[verifier::spinoff_prover]
pub fn collect_turns(tracker: &mut TurnTracker, games: &Vec<HiveGame>, bot: &BotConfig) -> (turns:
    Vec<GameTurn>)
    ensures
        turns@.len() == admitted_games(old(tracker)@, games@).len(),
        forall|k: int|
            0 <= k < turns@.len() ==> turn_of(
                #[trigger] turns@[k],
                admitted_games(old(tracker)@, games@)[k],
                *bot,
            ),
        collected_processing(old(tracker)@, games@, final(tracker)@),
        forall|j: int|
            0 <= j < games@.len() && !old(tracker)@.is_tracked(games@[j].spec_hash()) ==> exists|
                k: int,
            | 0 <= k < turns@.len() && #[trigger] turns@[k].hash == #[trigger] games@[j].spec_hash(),
        forall|k: int|
            #![trigger turns@[k]]
            0 <= k < turns@.len() ==> !old(tracker)@.is_tracked(turns@[k].hash) && exists|j: int|
                0 <= j < games@.len() && #[trigger] turn_is_new_game(
                    old(tracker)@,
                    games@[j],
                    turns@[k],
                    *bot,
                ),
{
    let ghost v0 = tracker@;
    let mut turns: Vec<GameTurn> = Vec::new();
    let n = games.len();
    for i in 0..n
        invariant
            n == games@.len(),
            turns@.len() == admitted_games(v0, games@.take(i as int)).len(),
            forall|k: int|
                0 <= k < turns@.len() ==> turn_of(
                    #[trigger] turns@[k],
                    admitted_games(v0, games@.take(i as int))[k],
                    *bot,
                ),
            collected_processing(v0, games@.take(i as int), tracker@),
    {
        let game = &games[i];
        let line = game.game_string();
        let hash = crate::hashing::calculate_hash(line.as_str());
        let ghost before = tracker@;
        proof {
            lemma_admitted_prefix_step(v0, games@, i as int);
            assert(games@.take(i + 1)[i as int] == games@[i as int]);
            if some_game_hashes_to(games@.take(i as int), hash) {
                let j = choose|j: int|
                    0 <= j < i && #[trigger] games@.take(i as int)[j].spec_hash() == hash;
                assert(games@[j].spec_hash() == hash);
            }
            if !first_of_its_hash(games@, i as int) {
                let j = choose|j: int|
                    0 <= j < i && #[trigger] games@[j].spec_hash() == games@[i as int].spec_hash();
                assert(games@.take(i as int)[j] == games@[j]);
            }
        }
        let known = tracker.is_tracked(hash);
        if !known {
            tracker.processing(hash);
            turns.push(GameTurn { game_string: line, hash, bot: bot.clone() });
        }
        proof {
            assert forall|h: u64| #[trigger]
                tracker@.processing.contains_key(h) <==> (v0.processing.contains_key(h) || (
                !v0.is_tracked(h) && some_game_hashes_to(games@.take(i + 1), h))) by {
                if some_game_hashes_to(games@.take(i + 1), h) && !some_game_hashes_to(
                    games@.take(i as int),
                    h,
                ) {
                    let j = choose|j: int|
                        0 <= j < i + 1 && #[trigger] games@.take(i + 1)[j].spec_hash() == h;
                    if j < i {
                        assert(games@.take(i as int)[j] == games@.take(i + 1)[j]);
                    }
                }
                if some_game_hashes_to(games@.take(i as int), h) {
                    let j = choose|j: int|
                        0 <= j < i && #[trigger] games@.take(i as int)[j].spec_hash() == h;
                    assert(games@.take(i + 1)[j] == games@.take(i as int)[j]);
                }
                if h == hash {
                    assert(games@.take(i + 1)[i as int].spec_hash() == h);
                }
            }
        }
    }
    assert(games@.take(n as int) =~= games@);
    proof {
        lemma_turns_are_the_new_games(old(tracker)@, games@, turns@, *bot);
    }
    turns
}

/// The turns of a collection, told by the games alone: every listed game
/// whose hash was untracked has a turn with that hash, and every turn is a
/// listed game whose hash was untracked, with the game's whole line
/// `game_id;game_type;game_status;player_turn;moves`.
pub proof fn lemma_turns_are_the_new_games(
    v: TrackerView,
    games: Seq<HiveGame>,
    turns: Seq<GameTurn>,
    bot: BotConfig,
)
    requires
        turns.len() == admitted_games(v, games).len(),
        forall|k: int|
            0 <= k < turns.len() ==> turn_of(#[trigger] turns[k], admitted_games(v, games)[k], bot),
    ensures
        forall|j: int|
            0 <= j < games.len() && !v.is_tracked(games[j].spec_hash()) ==> exists|k: int|
                0 <= k < turns.len() && #[trigger] turns[k].hash == #[trigger] games[j].spec_hash(),
        forall|k: int|
            #![trigger turns[k]]
            0 <= k < turns.len() ==> !v.is_tracked(turns[k].hash) && exists|j: int|
                0 <= j < games.len() && #[trigger] turn_is_new_game(v, games[j], turns[k], bot),
{
    lemma_untracked_games_admitted(v, games);
    lemma_admitted_untracked(v, games);
    let a = admitted_games(v, games);
    assert forall|j: int| 0 <= j < games.len() && !v.is_tracked(games[j].spec_hash()) implies exists|
        k: int,
    | 0 <= k < turns.len() && #[trigger] turns[k].hash == #[trigger] games[j].spec_hash() by {
        let k = choose|k: int| 0 <= k < a.len() && #[trigger] a[k].spec_hash() == games[j].spec_hash();
        assert(turn_of(turns[k], a[k], bot));
    }
    assert forall|k: int| #![trigger turns[k]] 0 <= k < turns.len() implies !v.is_tracked(
        turns[k].hash,
    ) && exists|j: int| 0 <= j < games.len() && #[trigger] turn_is_new_game(v, games[j], turns[k], bot) by {
        assert(turn_of(turns[k], a[k], bot));
        let j = choose|j: int| 0 <= j < games.len() && games[j] == #[trigger] a[k];
        assert(!v.is_tracked(a[k].spec_hash()));
        assert(turns[k].game_string@ =~= games[j].game_id@ + ";"@ + games[j].game_type@ + ";"@
            + games[j].game_status@ + ";"@ + games[j].player_turn@ + ";"@ + games[j].moves@);
        assert(turn_is_new_game(v, games[j], turns[k], bot));
    }
}

/// Every listed game whose hash is not tracked becomes a turn: some turn
/// carries its hash (the first game of the list with that hash).
pub proof fn lemma_untracked_games_admitted(v: TrackerView, games: Seq<HiveGame>)
    ensures
        forall|j: int|
            0 <= j < games.len() && !v.is_tracked(games[j].spec_hash()) ==> exists|k: int|
                0 <= k < admitted_games(v, games).len() && #[trigger] admitted_games(v, games)[k].spec_hash()
                    == #[trigger] games[j].spec_hash(),
    decreases games.len(),
{
    if games.len() > 0 {
        let d = games.drop_last();
        lemma_untracked_games_admitted(v, d);
        let a = admitted_games(v, d);
        let last = games.len() - 1;
        let full = admitted_games(v, games);
        assert forall|k: int| 0 <= k < a.len() implies full[k] == a[k] by {}
        assert forall|j: int| 0 <= j < games.len() && !v.is_tracked(games[j].spec_hash()) implies exists|
            k: int,
        | 0 <= k < full.len() && #[trigger] full[k].spec_hash() == #[trigger] games[j].spec_hash() by {
            if j < last {
                assert(d[j] == games[j]);
                let k = choose|k: int| 0 <= k < a.len() && #[trigger] a[k].spec_hash() == d[j].spec_hash();
                assert(full[k] == a[k]);
            } else if admitted(v, games, last) {
                assert(full[a.len() as int] == games[last]);
            } else {
                let j2 = choose|j2: int|
                    0 <= j2 < last && #[trigger] games[j2].spec_hash() == games[last].spec_hash();
                assert(d[j2] == games[j2]);
                let k = choose|k: int| 0 <= k < a.len() && #[trigger] a[k].spec_hash() == d[j2].spec_hash();
                assert(full[k] == a[k]);
            }
        }
    }
}

/// Game `i` of a list becomes a turn exactly when its hash is not tracked and
/// no earlier game of the list has the same hash.
pub proof fn lemma_admitted_iff(v: TrackerView, games: Seq<HiveGame>, i: int)
    requires
        0 <= i < games.len(),
    ensures
        admitted(v, games, i) <==> (!(v.processing.contains_key(games[i].spec_hash())
            || v.processed.contains_key(games[i].spec_hash())) && forall|j: int|
            0 <= j < i ==> games[j].spec_hash() != #[trigger] games[i].spec_hash()),
{
}

proof fn lemma_admitted_untracked(v: TrackerView, games: Seq<HiveGame>)
    ensures
        forall|k: int|
            0 <= k < admitted_games(v, games).len() ==> !v.is_tracked(
                #[trigger] admitted_games(v, games)[k].spec_hash(),
            ),
        forall|k: int|
            0 <= k < admitted_games(v, games).len() ==> exists|j: int|
                0 <= j < games.len() && games[j] == #[trigger] admitted_games(v, games)[k],
        forall|k1: int, k2: int|
            0 <= k1 < k2 < admitted_games(v, games).len() ==> #[trigger] admitted_games(
                v,
                games,
            )[k1].spec_hash() != #[trigger] admitted_games(v, games)[k2].spec_hash(),
    decreases games.len(),
{
    if games.len() > 0 {
        let d = games.drop_last();
        lemma_admitted_untracked(v, d);
        let a = admitted_games(v, d);
        let last = games.len() - 1;
        assert forall|k: int| 0 <= k < a.len() implies exists|j: int|
            0 <= j < games.len() && games[j] == #[trigger] a[k] by {
            let j = choose|j: int| 0 <= j < d.len() && d[j] == a[k];
            assert(games[j] == d[j]);
        }
        if admitted(v, games, last) {
            assert(admitted_games(v, games) == a.push(games[last]));
            assert forall|k: int| 0 <= k < a.len() implies #[trigger] a[k].spec_hash()
                != games[last].spec_hash() by {
                let j = choose|j: int| 0 <= j < d.len() && d[j] == a[k];
                assert(games[j] == d[j]);
                assert(games[j].spec_hash() != games[last].spec_hash());
            }
        }
    }
}

/// The producer never hands out a turn twice: every turn of a collection was
/// untracked before it, and no two turns of a collection share a hash. Each
/// turn is one of the games given.
pub proof fn lemma_collected_turns_are_new(v: TrackerView, games: Seq<HiveGame>)
    ensures
        forall|k: int|
            0 <= k < admitted_games(v, games).len() ==> !v.is_tracked(
                #[trigger] admitted_games(v, games)[k].spec_hash(),
            ),
        forall|k1: int, k2: int|
            0 <= k1 < k2 < admitted_games(v, games).len() ==> #[trigger] admitted_games(
                v,
                games,
            )[k1].spec_hash() != #[trigger] admitted_games(v, games)[k2].spec_hash(),
        forall|k: int|
            0 <= k < admitted_games(v, games).len() ==> games.contains(
                #[trigger] admitted_games(v, games)[k],
            ),
{
    lemma_admitted_untracked(v, games);
    assert forall|k: int| 0 <= k < admitted_games(v, games).len() implies games.contains(
        #[trigger] admitted_games(v, games)[k],
    ) by {
        let j = choose|j: int| 0 <= j < games.len() && games[j] == admitted_games(v, games)[k];
    }
}

proof fn lemma_all_tracked_admits_none(v: TrackerView, games: Seq<HiveGame>)
    requires
        forall|j: int| 0 <= j < games.len() ==> v.is_tracked(#[trigger] games[j].spec_hash()),
    ensures
        admitted_games(v, games).len() == 0,
    decreases games.len(),
{
    if games.len() > 0 {
        let d = games.drop_last();
        assert forall|j: int| 0 <= j < d.len() implies v.is_tracked(#[trigger] d[j].spec_hash()) by {
            assert(d[j] == games[j]);
        }
        lemma_all_tracked_admits_none(v, d);
        assert(v.is_tracked(games[games.len() - 1].spec_hash()));
    }
}

/// Collecting again from the same games right after a collection gives no
/// turn: every game is then tracked.
pub proof fn lemma_second_collection_empty(v: TrackerView, games: Seq<HiveGame>, after: TrackerView)
    requires
        collected_processing(v, games, after),
    ensures
        admitted_games(after, games).len() == 0,
{
    assert forall|j: int| 0 <= j < games.len() implies after.is_tracked(
        #[trigger] games[j].spec_hash(),
    ) by {
        let h = games[j].spec_hash();
        assert(some_game_hashes_to(games, h));
        if !v.processing.contains_key(h) && v.processed.contains_key(h) {
            assert(after.processed.contains_key(h));
        }
    }
    lemma_all_tracked_admits_none(after, games);
}

proof fn lemma_all_games_tracked_after(states: Seq<TrackerView>, games: Seq<HiveGame>, i: int)
    requires
        1 <= i < states.len(),
        forall|k: int|
            0 <= k < states.len() - 1 ==> collected_processing(
                #[trigger] states[k],
                games,
                states[k + 1],
            ),
    ensures
        forall|j: int| 0 <= j < games.len() ==> states[i].is_tracked(#[trigger] games[j].spec_hash()),
    decreases i,
{
    assert(collected_processing(states[i - 1], games, states[i]));
    if i == 1 {
        assert forall|j: int| 0 <= j < games.len() implies states[i].is_tracked(
            #[trigger] games[j].spec_hash(),
        ) by {
            let h = games[j].spec_hash();
            assert(some_game_hashes_to(games, h));
            if !states[0].processing.contains_key(h) && states[0].processed.contains_key(h) {
                assert(states[i].processed.contains_key(h));
            }
        }
    } else {
        lemma_all_games_tracked_after(states, games, i - 1);
        assert forall|j: int| 0 <= j < games.len() implies states[i].is_tracked(
            #[trigger] games[j].spec_hash(),
        ) by {
            let h = games[j].spec_hash();
            assert(states[i - 1].is_tracked(h));
            if !states[i - 1].processing.contains_key(h) {
                assert(states[i].processed.contains_key(h));
            }
        }
    }
}

/// Over any number of poll cycles on the same games, with no other use of the
/// tracker in between, only the first cycle gives turns: from the second one
/// on, every game is tracked and no turn is given again.
pub proof fn lemma_repeated_collections(states: Seq<TrackerView>, games: Seq<HiveGame>)
    requires
        states.len() >= 1,
        forall|k: int|
            0 <= k < states.len() - 1 ==> collected_processing(
                #[trigger] states[k],
                games,
                states[k + 1],
            ),
    ensures
        forall|i: int|
            1 <= i < states.len() ==> #[trigger] admitted_games(states[i], games).len() == 0,
{
    assert forall|i: int| 1 <= i < states.len() implies #[trigger] admitted_games(
        states[i],
        games,
    ).len() == 0 by {
        lemma_all_games_tracked_after(states, games, i);
        lemma_all_tracked_admits_none(states[i], games);
    }
}

} // verus!
