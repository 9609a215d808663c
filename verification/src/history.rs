//! What the tables keep of what has been: games, rounds and turns that are
//! over stay as they are, and nothing that was recorded is dropped.

use crate::model::WorldView;
use crate::types::{Draw, DrawStatus, Game, GameStatus, Round, RoundStatus, Turn, TurnStatus};
use vstd::prelude::*;

verus! {

/// Game `b` is game `a` later on: the same game of the same lobby under
/// the same trump, not in an earlier round, and unchanged where `a` was over.
pub open spec fn game_kept(a: Game, b: Game) -> bool {
    &&& b.id == a.id
    &&& b.lobby_id == a.lobby_id
    &&& b.trump_suit == a.trump_suit
    &&& b.started_at == a.started_at
    &&& a.current_round <= b.current_round
    &&& a.status == GameStatus::Finished ==> b == a
}

/// Round `b` is round `a` later on: the same round of the same game, and
/// unchanged where `a` was over.
pub open spec fn round_kept(a: Round, b: Round) -> bool {
    &&& b.id == a.id
    &&& b.game_id == a.game_id
    &&& b.round_number == a.round_number
    &&& b.started_at == a.started_at
    &&& a.status == RoundStatus::Finished ==> b == a
}

/// Turn `b` is turn `a` later on: the same turn between the same players,
/// and unchanged where `a` was resolved. An open turn stays open or is
/// resolved as beaten or as taken; a resolved turn stays as it is.
pub open spec fn turn_kept(a: Turn, b: Turn) -> bool {
    &&& b.id == a.id
    &&& b.round_id == a.round_id
    &&& b.turn_number == a.turn_number
    &&& b.attacker == a.attacker
    &&& b.defender == a.defender
    &&& b.started_at == a.started_at
    &&& a.status != TurnStatus::Active ==> b == a
}

/// Draw `b` is draw `a` later on: the same attack in the same turn. A draw
/// that was beaten keeps its defending card and does not wait again; a draw
/// that was taken stays as it is.
pub open spec fn draw_kept(a: Draw, b: Draw) -> bool {
    &&& b.id == a.id
    &&& b.turn_id == a.turn_id
    &&& b.attacker == a.attacker
    &&& b.attacking_card == a.attacking_card
    &&& b.created_at == a.created_at
    &&& a.status == DrawStatus::Beaten ==> b.status != DrawStatus::Pending && b.defending_card
        == a.defending_card
    &&& a.status == DrawStatus::Taken ==> b == a
}

/// The tables `w` keep the history of the tables `v`: every game, round,
/// turn and draw of `v` stands at its place in `w`, later on.
pub open spec fn history_kept(v: WorldView, w: WorldView) -> bool {
    &&& v.games.len() <= w.games.len()
    &&& forall|i: int| 0 <= i < v.games.len() ==> game_kept(v.games[i], #[trigger] w.games[i])
    &&& v.rounds.len() <= w.rounds.len()
    &&& forall|i: int| 0 <= i < v.rounds.len() ==> round_kept(v.rounds[i], #[trigger] w.rounds[i])
    &&& v.turns.len() <= w.turns.len()
    &&& forall|i: int| 0 <= i < v.turns.len() ==> turn_kept(v.turns[i], #[trigger] w.turns[i])
    &&& v.draws.len() <= w.draws.len()
    &&& forall|i: int| 0 <= i < v.draws.len() ==> draw_kept(v.draws[i], #[trigger] w.draws[i])
}

/// What keeps the history of tables that keep a history keeps that history.
pub proof fn lemma_history_chain(a: WorldView, b: WorldView, c: WorldView)
    requires
        history_kept(a, b),
        history_kept(b, c),
    ensures
        history_kept(a, c),
{
    assert forall|i: int| 0 <= i < a.games.len() implies game_kept(
        a.games[i],
        #[trigger] c.games[i],
    ) by {
        assert(game_kept(a.games[i], b.games[i]));
        assert(game_kept(b.games[i], c.games[i]));
    }
    assert forall|i: int| 0 <= i < a.rounds.len() implies round_kept(
        a.rounds[i],
        #[trigger] c.rounds[i],
    ) by {
        assert(round_kept(a.rounds[i], b.rounds[i]));
        assert(round_kept(b.rounds[i], c.rounds[i]));
    }
    assert forall|i: int| 0 <= i < a.turns.len() implies turn_kept(
        a.turns[i],
        #[trigger] c.turns[i],
    ) by {
        assert(turn_kept(a.turns[i], b.turns[i]));
        assert(turn_kept(b.turns[i], c.turns[i]));
    }
    assert forall|i: int| 0 <= i < a.draws.len() implies draw_kept(
        a.draws[i],
        #[trigger] c.draws[i],
    ) by {
        assert(draw_kept(a.draws[i], b.draws[i]));
        assert(draw_kept(b.draws[i], c.draws[i]));
    }
}

} // verus!
