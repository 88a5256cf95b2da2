//! The decisions of the game monitor: which fetched games start a task of
//! their own, and what a game's task sends after its engine answered.

use vstd::prelude::*;

verus! {

/// A game as the remote server lists it.
pub struct GameState {
    pub game_id: String,
    pub state: String,
}

/// A move to send for a game.
pub struct GameMove {
    pub game_id: String,
    pub movement: String,
}

/// Some id of `ids` is `id`.
pub open spec fn has_id(ids: Seq<String>, id: Seq<char>) -> bool {
    exists|k: int| 0 <= k < ids.len() && #[trigger] ids[k]@ == id
}

/// No game before index `i` has the id of game `i`.
pub open spec fn first_of_its_id(games: Seq<GameState>, i: int) -> bool {
    forall|j: int| 0 <= j < i ==> #[trigger] games[j].game_id@ != games[i].game_id@
}

/// The games that start a task: those whose id has no task yet and is not
/// repeated from earlier in the list, in the order of the list.
pub open spec fn games_started(active: Seq<String>, games: Seq<GameState>) -> Seq<GameState>
    decreases games.len(),
{
    if games.len() == 0 {
        Seq::empty()
    } else {
        let before = games_started(active, games.drop_last());
        let i = games.len() - 1;
        if !has_id(active, games[i].game_id@) && first_of_its_id(games, i) {
            before.push(games.last())
        } else {
            before
        }
    }
}

/// Whether `id` is among `ids`.
pub fn contains_id(ids: &Vec<String>, id: &String) -> (found: bool)
    ensures
        found == has_id(ids@, id@),
        found <==> exists|k: int| 0 <= k < ids@.len() && #[trigger] ids@[k]@ == id@,
{
    let n = ids.len();
    for i in 0..n
        invariant
            n == ids@.len(),
            forall|k: int| 0 <= k < i ==> #[trigger] ids@[k]@ != id@,
    {
        if ids[i] == *id {
            assert(ids@[i as int]@ == id@);
            return true;
        }
    }
    false
}

proof fn lemma_started_prefix_step(active: Seq<String>, games: Seq<GameState>, i: int)
    requires
        0 <= i < games.len(),
    ensures
        games_started(active, games.take(i + 1)) == (if !has_id(active, games[i].game_id@)
            && first_of_its_id(games, i) {
            games_started(active, games.take(i)).push(games[i])
        } else {
            games_started(active, games.take(i))
        }),
{
    let p = games.take(i + 1);
    assert(p.drop_last() =~= games.take(i));
    assert(p.last() == games[i]);
    assert(first_of_its_id(p, i) == first_of_its_id(games, i)) by {
        assert forall|j: int| 0 <= j < i implies p[j] == games[j] by {}
    }
}

/// Picks the fetched games that start a task: each game whose id has no task
/// in `active_ids`, once per id; their ids are added to `active_ids`, in
/// order, as the tasks start.
pub fn games_to_start(active_ids: &mut Vec<String>, games: &Vec<GameState>) -> (started: Vec<
    GameState,
>)
    ensures
        started@ == games_started(old(active_ids)@, games@),
        final(active_ids)@.len() == old(active_ids)@.len() + started@.len(),
        forall|k: int|
            0 <= k < old(active_ids)@.len() ==> #[trigger] final(active_ids)@[k] == old(
                active_ids,
            )@[k],
        forall|k: int|
            0 <= k < started@.len() ==> #[trigger] final(active_ids)@[old(active_ids)@.len()
                + k]@ == started@[k].game_id@,
        forall|j: int|
            0 <= j < games@.len() && (forall|k: int|
                0 <= k < old(active_ids)@.len() ==> #[trigger] old(active_ids)@[k]@
                    != games@[j].game_id@) ==> exists|m: int|
                0 <= m < started@.len() && #[trigger] started@[m].game_id@ == #[trigger] games@[
                    j
                ].game_id@,
        forall|m: int, k: int|
            0 <= m < started@.len() && 0 <= k < old(active_ids)@.len() ==> #[trigger] started@[
                m
            ].game_id@ != #[trigger] old(active_ids)@[k]@,
        forall|m1: int, m2: int|
            0 <= m1 < m2 < started@.len() ==> #[trigger] started@[m1].game_id@
                != #[trigger] started@[m2].game_id@,
{
    let ghost a0 = active_ids@;
    let mut started: Vec<GameState> = Vec::new();
    let n = games.len();
    for i in 0..n
        invariant
            n == games@.len(),
            started@ == games_started(a0, games@.take(i as int)),
            active_ids@.len() == a0.len() + started@.len(),
            forall|k: int| 0 <= k < a0.len() ==> #[trigger] active_ids@[k] == a0[k],
            forall|k: int|
                0 <= k < started@.len() ==> #[trigger] active_ids@[a0.len() + k]@
                    == started@[k].game_id@,
            forall|k: int|
                0 <= k < started@.len() ==> exists|j: int|
                    0 <= j < i && games@[j] == #[trigger] started@[k],
            forall|j: int|
                0 <= j < i ==> #[trigger] has_id(active_ids@, games@[j].game_id@),
            forall|k: int|
                0 <= k < active_ids@.len() ==> has_id(a0, #[trigger] active_ids@[k]@) || exists|
                    j: int,
                | 0 <= j < i && games@[j].game_id@ == active_ids@[k]@,
    {
        proof {
            lemma_started_prefix_step(a0, games@, i as int);
        }
        let game = &games[i];
        let known = contains_id(active_ids, &game.game_id);
        proof {
            if known {
                let k = choose|k: int|
                    0 <= k < active_ids@.len() && #[trigger] active_ids@[k]@ == game.game_id@;
                if !has_id(a0, active_ids@[k]@) {
                    let j = choose|j: int|
                        0 <= j < i && games@[j].game_id@ == active_ids@[k]@;
                    assert(!first_of_its_id(games@, i as int));
                }
            } else {
                if has_id(a0, game.game_id@) {
                    let k = choose|k: int| 0 <= k < a0.len() && #[trigger] a0[k]@ == game.game_id@;
                    assert(active_ids@[k] == a0[k]);
                    assert(has_id(active_ids@, game.game_id@));
                }
                assert forall|j: int| 0 <= j < i implies #[trigger] games@[j].game_id@
                    != games@[i as int].game_id@ by {
                    assert(has_id(active_ids@, games@[j].game_id@));
                }
            }
        }
        if !known {
            let g = GameState { game_id: game.game_id.clone(), state: game.state.clone() };
            let ghost before_ids = active_ids@;
            let ghost before_started = started@;
            active_ids.push(game.game_id.clone());
            started.push(g);
            proof {
                assert(g == games@[i as int]);
                assert forall|j: int| 0 <= j < i + 1 implies #[trigger] has_id(
                    active_ids@,
                    games@[j].game_id@,
                ) by {
                    if j < i {
                        assert(has_id(before_ids, games@[j].game_id@));
                        let k = choose|k: int|
                            0 <= k < before_ids.len() && #[trigger] before_ids[k]@
                                == games@[j].game_id@;
                        assert(active_ids@[k] == before_ids[k]);
                    } else {
                        assert(active_ids@[before_ids.len() as int]@ == games@[j].game_id@);
                    }
                }
                assert forall|k: int| 0 <= k < started@.len() implies exists|j: int|
                    0 <= j < i + 1 && games@[j] == #[trigger] started@[k] by {
                    if k < before_started.len() {
                        assert(started@[k] == before_started[k]);
                    } else {
                        assert(started@[k] == games@[i as int]);
                    }
                }
                assert forall|k: int| 0 <= k < active_ids@.len() implies has_id(
                    a0,
                    #[trigger] active_ids@[k]@,
                ) || exists|j: int| 0 <= j < i + 1 && games@[j].game_id@ == active_ids@[k]@ by {
                    if k < before_ids.len() {
                        assert(active_ids@[k] == before_ids[k]);
                    } else {
                        assert(active_ids@[k]@ == games@[i as int].game_id@);
                    }
                }
                assert forall|k: int| 0 <= k < started@.len() implies #[trigger] active_ids@[a0.len()
                    + k]@ == started@[k].game_id@ by {
                    if k < before_started.len() {
                        assert(active_ids@[a0.len() + k] == before_ids[a0.len() + k]);
                    }
                }
            }
        }
    }
    assert(games@.take(n as int) =~= games@);
    proof {
        lemma_started_games_are_new(a0, games@);
        lemma_new_ids_started(a0, games@);
    }
    started
}

/// Every listed game whose id equals no active id starts a task: some
/// started game has its id.
pub proof fn lemma_new_ids_started(active: Seq<String>, games: Seq<GameState>)
    ensures
        forall|j: int|
            0 <= j < games.len() && (forall|k: int|
                0 <= k < active.len() ==> #[trigger] active[k]@ != games[j].game_id@) ==> exists|
                m: int,
            | 0 <= m < games_started(active, games).len() && #[trigger] games_started(
                active,
                games,
            )[m].game_id@ == #[trigger] games[j].game_id@,
    decreases games.len(),
{
    if games.len() > 0 {
        let d = games.drop_last();
        lemma_new_ids_started(active, d);
        let a = games_started(active, d);
        let full = games_started(active, games);
        let last = games.len() - 1;
        assert forall|m: int| 0 <= m < a.len() implies full[m] == a[m] by {}
        assert forall|j: int|
            0 <= j < games.len() && (forall|k: int|
                0 <= k < active.len() ==> #[trigger] active[k]@ != games[j].game_id@) implies exists|
            m: int,
        | 0 <= m < full.len() && #[trigger] full[m].game_id@ == #[trigger] games[j].game_id@ by {
            if j < last {
                assert(d[j] == games[j]);
                let m = choose|m: int| 0 <= m < a.len() && #[trigger] a[m].game_id@ == d[j].game_id@;
                assert(full[m] == a[m]);
            } else {
                assert(!has_id(active, games[last].game_id@));
                if first_of_its_id(games, last) {
                    assert(full[a.len() as int] == games[last]);
                } else {
                    let j2 = choose|j2: int|
                        0 <= j2 < last && #[trigger] games[j2].game_id@ == games[last].game_id@;
                    assert(d[j2] == games[j2]);
                    assert(forall|k: int|
                        0 <= k < active.len() ==> #[trigger] active[k]@ != d[j2].game_id@);
                    let m = choose|m: int|
                        0 <= m < a.len() && #[trigger] a[m].game_id@ == d[j2].game_id@;
                    assert(full[m] == a[m]);
                }
            }
        }
    }
}

/// An id is among the ids only when it equals one of them: an id that is a
/// prefix of another, or the other way round, does not count.
pub proof fn lemma_has_id_is_equality(ids: Seq<String>, id: Seq<char>)
    ensures
        has_id(ids, id) <==> exists|k: int| 0 <= k < ids.len() && #[trigger] ids[k]@ == id,
{
}

/// A listed game repeats an earlier one only when an earlier game has an
/// equal id.
pub proof fn lemma_first_of_its_id_is_equality(games: Seq<GameState>, i: int)
    ensures
        first_of_its_id(games, i) <==> forall|j: int|
            0 <= j < i ==> #[trigger] games[j].game_id@ != games[i].game_id@,
{
}

/// A game gets at most one task: no started game's id had a task, no two
/// started games share an id, and each started game is one of the list.
pub proof fn lemma_started_games_are_new(active: Seq<String>, games: Seq<GameState>)
    ensures
        forall|k: int|
            0 <= k < games_started(active, games).len() ==> !has_id(
                active,
                #[trigger] games_started(active, games)[k].game_id@,
            ),
        forall|k1: int, k2: int|
            0 <= k1 < k2 < games_started(active, games).len() ==> #[trigger] games_started(
                active,
                games,
            )[k1].game_id@ != #[trigger] games_started(active, games)[k2].game_id@,
        forall|k: int|
            0 <= k < games_started(active, games).len() ==> exists|j: int|
                0 <= j < games.len() && games[j] == #[trigger] games_started(active, games)[k],
    decreases games.len(),
{
    if games.len() > 0 {
        let d = games.drop_last();
        lemma_started_games_are_new(active, d);
        let a = games_started(active, d);
        let last = games.len() - 1;
        assert forall|k: int| 0 <= k < a.len() implies exists|j: int|
            0 <= j < games.len() && games[j] == #[trigger] a[k] by {
            let j = choose|j: int| 0 <= j < d.len() && d[j] == a[k];
            assert(games[j] == d[j]);
        }
        if !has_id(active, games[last].game_id@) && first_of_its_id(games, last) {
            assert(games_started(active, games) == a.push(games[last]));
            assert forall|k: int| 0 <= k < a.len() implies #[trigger] a[k].game_id@
                != games[last].game_id@ by {
                let j = choose|j: int| 0 <= j < d.len() && d[j] == a[k];
                assert(games[j] == d[j]);
                assert(games[j].game_id@ != games[last].game_id@);
            }
        }
    }
}

/// What a game's task sends after its engine answered: the move, for this
/// game, or nothing (the task stops) when the engine gave no move.
pub fn move_to_send(game: &GameState, engine_move: Option<String>) -> (to_send: Option<GameMove>)
    ensures
        engine_move is None <==> to_send is None,
        engine_move matches Some(m) ==> to_send matches Some(gm) && gm.game_id == game.game_id
            && gm.movement == m,
{
    match engine_move {
        Some(movement) => Some(GameMove { game_id: game.game_id.clone(), movement }),
        None => None,
    }
}

} // verus!
