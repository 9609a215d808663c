//! What keeps the tables sound from one step to the next.

use crate::cards::Card;
use crate::model::{
    ascending, card_ids, cards_sound, draw_ids, game_ids, has_game, ids_sound, is_active_round_of,
    is_active_turn_of, is_card_of, is_game, lobby_ids, names_sound, round_ids, rounds_sound,
    seat_clash, seats_sound, turn_ids, turns_sound, users_sound, well_formed, WorldView,
};
use crate::seqs::{
    count, first_where, lemma_count_le, lemma_count_matched, lemma_count_push, lemma_first_where,
    lemma_first_where_is,
};
use crate::types::{Draw, Game, Lobby, PlayerCard, Round, RoundStatus, Turn, TurnStatus, User};
use vstd::prelude::*;

verus! {

/// The rows of `b` stand for the same cards of the same games as the rows of
/// `a`, place by place, under the same identifiers.
pub open spec fn same_keys(a: Seq<PlayerCard>, b: Seq<PlayerCard>) -> bool {
    &&& a.len() == b.len()
    &&& forall|i: int|
        #![trigger a[i]]
        #![trigger b[i]]
        0 <= i < a.len() ==> b[i].id == a[i].id && b[i].game_id == a[i].game_id && b[i].card
            == a[i].card
}

/// The rows of `b` stand for the same draws as the rows of `a`, place by
/// place.
pub open spec fn same_draws(a: Seq<Draw>, b: Seq<Draw>) -> bool {
    &&& a.len() == b.len()
    &&& forall|i: int|
        #![trigger a[i]]
        #![trigger b[i]]
        0 <= i < a.len() ==> b[i].id == a[i].id && b[i].turn_id == a[i].turn_id
}

/// The rows of `b` stand for the same lobbies as the rows of `a`, place by
/// place.
pub open spec fn same_lobbies(a: Seq<Lobby>, b: Seq<Lobby>) -> bool {
    &&& a.len() == b.len()
    &&& forall|i: int|
        #![trigger a[i]]
        #![trigger b[i]]
        0 <= i < a.len() ==> b[i].id == a[i].id
}

/// The rows of `b` stand for the same users as the rows of `a`, place by
/// place, and whoever plays in a game does so where and as they did.
pub open spec fn same_seats(a: Seq<User>, b: Seq<User>) -> bool {
    &&& a.len() == b.len()
    &&& forall|i: int|
        #![trigger a[i]]
        #![trigger b[i]]
        0 <= i < a.len() ==> b[i].identity == a[i].identity && (b[i].current_game_id is Some
            ==> b[i].current_game_id == a[i].current_game_id && b[i].game_position
            == a[i].game_position)
}

/// The rows of `b` stand for the same games as the rows of `a`, place by
/// place.
pub open spec fn same_ids(a: Seq<Game>, b: Seq<Game>) -> bool {
    &&& a.len() == b.len()
    &&& forall|i: int|
        #![trigger a[i]]
        #![trigger b[i]]
        0 <= i < a.len() ==> b[i].id == a[i].id
}

pub(crate) proof fn lemma_same_ids_has_game(a: Seq<Game>, b: Seq<Game>, g: u64)
    requires
        same_ids(a, b),
    ensures
        has_game(a, g) == has_game(b, g),
        first_where(a, is_game(g)) == first_where(b, is_game(g)),
{
    lemma_first_where(a, is_game(g));
    let k = first_where(a, is_game(g));
    assert forall|j: int| 0 <= j < k implies !is_game(g)(b[j]) by {
        assert(!is_game(g)(a[j]));
    }
    if k < a.len() {
        assert(is_game(g)(a[k]));
    }
    lemma_first_where_is(b, is_game(g), k);
}

pub(crate) proof fn lemma_same_keys_count(a: Seq<PlayerCard>, b: Seq<PlayerCard>, g: u64, c: Card)
    requires
        same_keys(a, b),
    ensures
        count(a, is_card_of(g, c)) == count(b, is_card_of(g, c)),
{
    assert forall|i: int| 0 <= i < a.len() implies is_card_of(g, c)(a[i]) == is_card_of(g, c)(
        b[i],
    ) by {}
    lemma_count_matched(a, b, is_card_of(g, c), is_card_of(g, c));
}

/// The rows of `b` stand for the same rounds of the same games as the rows
/// of `a`, place by place, and none of them is active that was not.
pub open spec fn calmer_rounds(a: Seq<Round>, b: Seq<Round>) -> bool {
    &&& a.len() == b.len()
    &&& forall|i: int|
        #![trigger a[i]]
        #![trigger b[i]]
        0 <= i < a.len() ==> b[i].id == a[i].id && b[i].game_id == a[i].game_id && (b[i].status
            == RoundStatus::Active ==> a[i].status == RoundStatus::Active)
}

/// The rows of `b` stand for the same turns of the same rounds as the rows
/// of `a`, place by place, and none of them is open that was not.
pub open spec fn calmer_turns(a: Seq<Turn>, b: Seq<Turn>) -> bool {
    &&& a.len() == b.len()
    &&& forall|i: int|
        #![trigger a[i]]
        #![trigger b[i]]
        0 <= i < a.len() ==> b[i].id == a[i].id && b[i].round_id == a[i].round_id && (b[i].status
            == TurnStatus::Active ==> a[i].status == TurnStatus::Active)
}

/// Sound cards stay sound where the games keep their identifiers, the card
/// rows keep their games and cards, and the counter does not fall.
pub(crate) proof fn lemma_cards_kept(
    games: Seq<Game>,
    cards: Seq<PlayerCard>,
    next_id: u64,
    games2: Seq<Game>,
    cards2: Seq<PlayerCard>,
    next_id2: u64,
)
    requires
        cards_sound(games, cards, next_id),
        same_ids(games, games2),
        same_keys(cards, cards2),
        next_id <= next_id2,
    ensures
        cards_sound(games2, cards2, next_id2),
{
    assert forall|i: int| 0 <= i < games2.len() implies (#[trigger] games2[i]).id < next_id2 by {
        assert(games[i].id < next_id);
    }
    assert forall|i: int| 0 <= i < cards2.len() implies (#[trigger] cards2[i]).game_id
        < next_id2 by {
        assert(cards[i].game_id < next_id);
    }
    assert forall|g: u64, c: Card| has_game(games2, g) implies #[trigger] count(
        cards2,
        is_card_of(g, c),
    ) == 1 by {
        lemma_same_ids_has_game(games, games2, g);
        lemma_same_keys_count(cards, cards2, g, c);
    }
}

/// Sound rounds stay sound where no round becomes active and the counter
/// does not fall.
pub(crate) proof fn lemma_rounds_kept(rounds: Seq<Round>, next_id: u64, rounds2: Seq<Round>, next_id2: u64)
    requires
        rounds_sound(rounds, next_id),
        calmer_rounds(rounds, rounds2),
        next_id <= next_id2,
    ensures
        rounds_sound(rounds2, next_id2),
{
    assert forall|i: int| 0 <= i < rounds2.len() implies (#[trigger] rounds2[i]).game_id
        < next_id2 by {
        assert(rounds[i].game_id < next_id);
    }
    assert forall|g: u64| #[trigger] count(rounds2, is_active_round_of(g)) <= 1 by {
        assert forall|i: int|
            0 <= i < rounds.len() && is_active_round_of(g)(rounds2[i]) implies is_active_round_of(
            g,
        )(rounds[i]) by {
            assert(rounds2[i].game_id == rounds[i].game_id);
        }
        lemma_count_le(rounds, rounds2, is_active_round_of(g), is_active_round_of(g));
        assert(count(rounds, is_active_round_of(g)) <= 1);
    }
}

/// Sound rounds stay sound where a round is added to a game that plays
/// none.
pub(crate) proof fn lemma_round_added(rounds: Seq<Round>, next_id: u64, row: Round, next_id2: u64)
    requires
        rounds_sound(rounds, next_id),
        next_id <= next_id2,
        row.game_id < next_id2,
        count(rounds, is_active_round_of(row.game_id)) == 0,
    ensures
        rounds_sound(rounds.push(row), next_id2),
{
    let longer = rounds.push(row);
    assert forall|i: int| 0 <= i < longer.len() implies (#[trigger] longer[i]).game_id
        < next_id2 by {
        if i < rounds.len() {
            assert(rounds[i].game_id < next_id);
        }
    }
    assert forall|g: u64| #[trigger] count(longer, is_active_round_of(g)) <= 1 by {
        lemma_count_push(rounds, row, is_active_round_of(g));
        assert(count(rounds, is_active_round_of(g)) <= 1);
    }
}

/// Sound turns stay sound where no turn is opened.
pub(crate) proof fn lemma_turns_kept(turns: Seq<Turn>, turns2: Seq<Turn>)
    requires
        turns_sound(turns),
        calmer_turns(turns, turns2),
    ensures
        turns_sound(turns2),
{
    assert forall|r: u64| #[trigger] count(turns2, is_active_turn_of(r)) <= 1 by {
        assert forall|i: int|
            0 <= i < turns.len() && is_active_turn_of(r)(turns2[i]) implies is_active_turn_of(r)(
            turns[i],
        ) by {
            assert(turns2[i].round_id == turns[i].round_id);
        }
        lemma_count_le(turns, turns2, is_active_turn_of(r), is_active_turn_of(r));
        assert(count(turns, is_active_turn_of(r)) <= 1);
    }
}

/// Sound turns stay sound where a turn is added to a round that has none
/// open.
pub(crate) proof fn lemma_turn_added(turns: Seq<Turn>, row: Turn)
    requires
        turns_sound(turns),
        count(turns, is_active_turn_of(row.round_id)) == 0,
    ensures
        turns_sound(turns.push(row)),
{
    assert forall|r: u64| #[trigger] count(turns.push(row), is_active_turn_of(r)) <= 1 by {
        lemma_count_push(turns, row, is_active_turn_of(r));
        assert(count(turns, is_active_turn_of(r)) <= 1);
    }
}

/// Rising identifiers stay so under a bound that does not fall.
pub(crate) proof fn lemma_ascending_kept(ids: Seq<u64>, bound: u64, ids2: Seq<u64>, bound2: u64)
    requires
        ascending(ids, bound),
        ids2 =~= ids,
        bound <= bound2,
    ensures
        ascending(ids2, bound2),
{
}

/// Rising identifiers stay so where one that was not given out before is
/// added.
pub(crate) proof fn lemma_ascending_push(ids: Seq<u64>, bound: u64, id: u64, bound2: u64)
    requires
        ascending(ids, bound),
        bound <= id < bound2,
    ensures
        ascending(ids.push(id), bound2),
{
}

/// Rising identifiers stay so where more are added that rise and were not
/// given out before.
pub(crate) proof fn lemma_ascending_add(ids: Seq<u64>, bound: u64, more: Seq<u64>, bound2: u64)
    requires
        ascending(ids, bound),
        ascending(more, bound2),
        bound <= bound2,
        forall|i: int| 0 <= i < more.len() ==> bound <= more[i],
    ensures
        ascending(ids + more, bound2),
{
}

/// Sound identifiers stay sound where every row keeps its own and the
/// counter does not fall.
pub(crate) proof fn lemma_ids_kept(v: WorldView, w: WorldView)
    requires
        ids_sound(v),
        same_lobbies(v.lobbies, w.lobbies),
        same_ids(v.games, w.games),
        same_keys(v.cards, w.cards),
        calmer_rounds(v.rounds, w.rounds),
        calmer_turns(v.turns, w.turns),
        same_draws(v.draws, w.draws),
        v.next_id <= w.next_id,
    ensures
        ids_sound(w),
{
    assert(lobby_ids(w.lobbies) =~= lobby_ids(v.lobbies));
    assert(game_ids(w.games) =~= game_ids(v.games));
    assert(round_ids(w.rounds) =~= round_ids(v.rounds));
    assert(turn_ids(w.turns) =~= turn_ids(v.turns));
    assert(draw_ids(w.draws) =~= draw_ids(v.draws));
    assert(card_ids(w.cards) =~= card_ids(v.cards));
}

/// Sound seats stay sound where nobody takes a seat and the counter does
/// not fall.
pub(crate) proof fn lemma_seats_kept(users: Seq<User>, next_id: u64, users2: Seq<User>, next_id2: u64)
    requires
        seats_sound(users, next_id),
        same_seats(users, users2),
        next_id <= next_id2,
    ensures
        seats_sound(users2, next_id2),
{
    assert forall|i: int|
        0 <= i < users2.len() && (#[trigger] users2[i]).current_game_id is Some implies users2[i].current_game_id->0
        < next_id2 && users2[i].game_position is Some by {
        assert(users[i].current_game_id is Some);
    }
    assert forall|i: int, j: int| 0 <= i < j < users2.len() implies !#[trigger] seat_clash(
        users2[i],
        users2[j],
    ) by {
        assert(!seat_clash(users[i], users[j]));
    }
}

/// Sound users stay sound where every row keeps its user.
pub(crate) proof fn lemma_users_kept(users: Seq<User>, users2: Seq<User>)
    requires
        users_sound(users),
        same_seats(users, users2),
    ensures
        users_sound(users2),
{
    assert forall|i: int, j: int| 0 <= i < j < users2.len() implies (#[trigger] users2[i]).identity
        != (#[trigger] users2[j]).identity by {
        assert(users[i].identity != users[j].identity);
    }
}

/// What the rows name stays sound where every turn keeps its round, every
/// draw its turn, and the counter does not fall.
pub(crate) proof fn lemma_names_kept(v: WorldView, w: WorldView)
    requires
        names_sound(v.turns, v.draws, v.next_id),
        calmer_turns(v.turns, w.turns),
        same_draws(v.draws, w.draws),
        v.next_id <= w.next_id,
    ensures
        names_sound(w.turns, w.draws, w.next_id),
{
    assert forall|i: int| 0 <= i < w.turns.len() implies (#[trigger] w.turns[i]).round_id
        < w.next_id by {
        assert(v.turns[i].round_id < v.next_id);
    }
    assert forall|i: int| 0 <= i < w.draws.len() implies (#[trigger] w.draws[i]).turn_id
        < w.next_id by {
        assert(v.draws[i].turn_id < v.next_id);
    }
}

/// Rising identifiers stay so where one of them is taken out.
pub(crate) proof fn lemma_ascending_remove(ids: Seq<u64>, bound: u64, i: int)
    requires
        ascending(ids, bound),
        0 <= i < ids.len(),
    ensures
        ascending(ids.remove(i), bound),
{
}

/// Sound seats stay sound where a user who plays in no game is added.
pub(crate) proof fn lemma_seats_user_added(users: Seq<User>, next_id: u64, row: User)
    requires
        seats_sound(users, next_id),
        row.current_game_id is None,
    ensures
        seats_sound(users.push(row), next_id),
{
}

/// Sound tables stay sound where every row keeps its identifier, the card
/// rows keep their games and cards, no round becomes active, no turn is
/// opened, nobody takes a seat, and the counter does not fall.
pub(crate) proof fn lemma_wf_kept(v: WorldView, w: WorldView)
    requires
        well_formed(v),
        same_lobbies(v.lobbies, w.lobbies),
        same_ids(v.games, w.games),
        same_keys(v.cards, w.cards),
        calmer_rounds(v.rounds, w.rounds),
        calmer_turns(v.turns, w.turns),
        same_draws(v.draws, w.draws),
        same_seats(v.users, w.users),
        v.next_id <= w.next_id,
    ensures
        well_formed(w),
{
    lemma_cards_kept(v.games, v.cards, v.next_id, w.games, w.cards, w.next_id);
    lemma_rounds_kept(v.rounds, v.next_id, w.rounds, w.next_id);
    lemma_turns_kept(v.turns, w.turns);
    lemma_ids_kept(v, w);
    lemma_seats_kept(v.users, v.next_id, w.users, w.next_id);
    lemma_users_kept(v.users, w.users);
    lemma_names_kept(v, w);
}

/// A game that the tables hold has an identifier below the counter.
pub(crate) proof fn lemma_game_below_counter(v: WorldView, g: u64)
    requires
        cards_sound(v.games, v.cards, v.next_id),
        has_game(v.games, g),
    ensures
        g < v.next_id,
{
    lemma_first_where(v.games, is_game(g));
    let i = first_where(v.games, is_game(g));
    assert(v.games[i].id == g);
}

/// Which games the tables hold once one more is added.
pub(crate) proof fn lemma_has_game_push(games: Seq<Game>, row: Game, g: u64)
    ensures
        has_game(games.push(row), g) == (has_game(games, g) || row.id == g),
{
    let longer = games.push(row);
    assert(longer.drop_last() =~= games);
    lemma_first_where(games, is_game(g));
    lemma_first_where(longer, is_game(g));
}

} // verus!
