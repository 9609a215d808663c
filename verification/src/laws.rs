//! What holds of the tables whatever has been played.

use crate::cards::Card;
use crate::deck::{
    built_deck, dealt, deck_place, lemma_built_deck_places, lemma_dealt_deck, lemma_dealt_hands,
    lemma_shuffled_deck_complete, shuffled,
};
use crate::model::{
    active_in, active_turn_index, ascending, card_ids, current_round_index, deck_size, draw_ids,
    game_ids, game_index, hand_size, has_game, in_game, in_lobby, is_active_round_of,
    is_active_turn_of, is_card_of, is_discarded, is_draw_of, is_in_deck, is_in_game, is_in_hand,
    is_in_lobby, is_on_table, round_ids, seat_clash, seat_of, settings_of_lobby, turn_ids,
    user_index, users_sound, well_formed, WorldView,
};
use crate::rotation::{
    comes_first, lemma_active_is_playing, lemma_found_at_own_place, lemma_next_clockwise_is_nearest,
    lemma_order_holds_every_player, lemma_order_len, lemma_order_names_each_player_once,
    next_clockwise, next_move, order_from,
};
use crate::rounds::{
    holds_cards, is_holder, lemma_refilled_bounds, lemma_refilled_hands, refilled, round_is_over,
    round_loser,
};
use crate::scoring::{is_not_of_game, new_round_refusal, round_started};
use crate::seqs::{
    count, is_value, keep, lemma_count_add, lemma_count_is_multiplicity, lemma_count_matched,
    lemma_count_one, lemma_count_two, lemma_first_where, lemma_keep, lemma_keep_all, lemma_keep_len,
    lemma_keep_place, lemma_two_counted,
};
use crate::start::{lobby_roster, started};
use crate::turns::{attack_refusal, attacked};
use crate::types::{
    GameError, Micros, PendingMove, PlayerCard, PlayerId, RoundStatus, TurnStatus, User,
};
use crate::world::World;
use vstd::prelude::*;

verus! {

pub open spec fn is_of_game(g: u64) -> spec_fn(PlayerCard) -> bool {
    |pc: PlayerCard| pc.game_id == g
}

/// The cards of game `g`, one for each of its rows, in the order of the
/// table.
pub open spec fn game_cards(cards: Seq<PlayerCard>, g: u64) -> Seq<Card> {
    keep(cards, is_of_game(g)).map_values(|pc: PlayerCard| pc.card)
}

/// No card is made and none is lost: in sound tables, the cards of a game,
/// wherever they lie and whoever holds them, are the cards of the built
/// deck, each exactly once.
///
/// Every action of the engine takes sound tables to sound tables, so this
/// holds before and after each of them.
pub proof fn lemma_cards_conserved(v: WorldView, g: u64)
    requires
        well_formed(v),
        has_game(v.games, g),
    ensures
        game_cards(v.cards, g).to_multiset() == built_deck().to_multiset(),
        game_cards(v.cards, g).len() == 36,
{
    let rows = keep(v.cards, is_of_game(g));
    let held = game_cards(v.cards, g);
    assert forall|c: Card| held.to_multiset().count(c) == built_deck().to_multiset().count(c) by {
        lemma_count_is_multiplicity(held, c);
        lemma_count_is_multiplicity(built_deck(), c);
        lemma_keep(v.cards, is_of_game(g), is_card_of(g, c));
        assert forall|i: int| 0 <= i < rows.len() implies is_card_of(g, c)(rows[i]) == is_value(c)(
            held[i],
        ) by {
            assert(is_of_game(g)(rows[i]));
        }
        lemma_count_matched(rows, held, is_card_of(g, c), is_value(c));
        assert(count(v.cards, is_card_of(g, c)) == 1);
        lemma_built_deck_places(c);
        assert forall|i: int| 0 <= i < built_deck().len() implies (is_value(c)(built_deck()[i])
            <==> i == deck_place(c)) by {}
        lemma_count_one(built_deck(), is_value(c), deck_place(c));
    }
    assert(held.to_multiset() =~= built_deck().to_multiset());
    held.to_multiset_ensures();
    built_deck().to_multiset_ensures();
}

/// No card is made and none is lost, whatever has been played: the tables
/// of a world are sound before and after every action, so the cards of each
/// of its games are the cards of the built deck, each exactly once.
pub proof fn lemma_world_conserves_cards(world: &World, g: u64)
    requires
        world.wf(),
        has_game(world@.games, g),
    ensures
        game_cards(world@.cards, g).to_multiset() == built_deck().to_multiset(),
        game_cards(world@.cards, g).len() == 36,
{
    lemma_cards_conserved(world@, g);
}

/// A game plays one round at a time: in sound tables, two rows that are
/// active rounds of one game are one row.
pub proof fn lemma_one_round_at_a_time(v: WorldView, i: int, j: int)
    requires
        well_formed(v),
        0 <= i < v.rounds.len(),
        0 <= j < v.rounds.len(),
        v.rounds[i].status == RoundStatus::Active,
        v.rounds[j].status == RoundStatus::Active,
        v.rounds[i].game_id == v.rounds[j].game_id,
    ensures
        i == j,
{
    let g = v.rounds[i].game_id;
    assert(count(v.rounds, is_active_round_of(g)) <= 1);
    if i < j {
        lemma_count_two(v.rounds, is_active_round_of(g), i, j);
    } else if j < i {
        lemma_count_two(v.rounds, is_active_round_of(g), j, i);
    }
}

/// A round has one turn open at a time: in sound tables, two rows that are
/// open turns of one round are one row.
pub proof fn lemma_one_turn_at_a_time(v: WorldView, i: int, j: int)
    requires
        well_formed(v),
        0 <= i < v.turns.len(),
        0 <= j < v.turns.len(),
        v.turns[i].status == TurnStatus::Active,
        v.turns[j].status == TurnStatus::Active,
        v.turns[i].round_id == v.turns[j].round_id,
    ensures
        i == j,
{
    let r = v.turns[i].round_id;
    assert(count(v.turns, is_active_turn_of(r)) <= 1);
    if i < j {
        lemma_count_two(v.turns, is_active_turn_of(r), i, j);
    } else if j < i {
        lemma_count_two(v.turns, is_active_turn_of(r), j, i);
    }
}

/// After a turn that the defender won, the defender attacks and the
/// neighbour to the defender's left defends, as long as the defender is
/// still active.
pub proof fn lemma_move_after_beat(users: Seq<User>, g: u64, defender: PlayerId, next: PlayerId)
    requires
        active_in(users[user_index(users, defender)], g),
        next_clockwise(users, g, defender) == Ok::<PlayerId, GameError>(next),
    ensures
        next_move(users, g, defender, false) == Some(PendingMove { attacker: defender, defender: next }),
{
    lemma_first_where(users, crate::model::is_user(defender));
    lemma_order_len(users, g, true, seat_of(users[user_index(users, defender)]) + 1);
    lemma_active_is_playing(users, g);
}

/// After a turn whose defender took the cards, the defender is passed over:
/// the neighbour to the defender's left attacks, and the neighbour to the
/// attacker's left defends.
pub proof fn lemma_move_after_take(
    users: Seq<User>,
    g: u64,
    defender: PlayerId,
    attacker: PlayerId,
    next: PlayerId,
)
    requires
        next_clockwise(users, g, defender) == Ok::<PlayerId, GameError>(attacker),
        next_clockwise(users, g, attacker) == Ok::<PlayerId, GameError>(next),
    ensures
        next_move(users, g, defender, true) == Some(PendingMove { attacker, defender: next }),
{
    lemma_first_where(users, crate::model::is_user(defender));
    lemma_first_where(users, crate::model::is_user(attacker));
    lemma_order_len(users, g, true, seat_of(users[user_index(users, defender)]) + 1);
    lemma_order_len(users, g, true, seat_of(users[user_index(users, attacker)]) + 1);
    lemma_active_is_playing(users, g);
}

/// No two rows of a table share an identifier: in sound tables, two games
/// with one identifier are one row, and so for the rounds, the turns, the
/// draws and the card rows.
pub proof fn lemma_identifiers_differ(v: WorldView, i: int, j: int)
    requires
        well_formed(v),
        0 <= i,
        0 <= j,
    ensures
        i < v.games.len() && j < v.games.len() && v.games[i].id == v.games[j].id ==> i == j,
        i < v.rounds.len() && j < v.rounds.len() && v.rounds[i].id == v.rounds[j].id ==> i == j,
        i < v.turns.len() && j < v.turns.len() && v.turns[i].id == v.turns[j].id ==> i == j,
        i < v.draws.len() && j < v.draws.len() && v.draws[i].id == v.draws[j].id ==> i == j,
        i < v.cards.len() && j < v.cards.len() && v.cards[i].id == v.cards[j].id ==> i == j,
{
    if i < j {
        lemma_rising_differ(game_ids(v.games), v.next_id, i, j);
        lemma_rising_differ(round_ids(v.rounds), v.next_id, i, j);
        lemma_rising_differ(turn_ids(v.turns), v.next_id, i, j);
        lemma_rising_differ(draw_ids(v.draws), v.next_id, i, j);
        lemma_rising_differ(card_ids(v.cards), v.next_id, i, j);
    } else if j < i {
        lemma_rising_differ(game_ids(v.games), v.next_id, j, i);
        lemma_rising_differ(round_ids(v.rounds), v.next_id, j, i);
        lemma_rising_differ(turn_ids(v.turns), v.next_id, j, i);
        lemma_rising_differ(draw_ids(v.draws), v.next_id, j, i);
        lemma_rising_differ(card_ids(v.cards), v.next_id, j, i);
    }
}

proof fn lemma_rising_differ(ids: Seq<u64>, bound: u64, i: int, j: int)
    requires
        ascending(ids, bound),
        0 <= i < j,
    ensures
        j < ids.len() ==> ids[i] != ids[j],
{
}

/// The players of a game sit at seats of their own: in sound tables, two
/// users who play in one game sit at different seats.
pub proof fn lemma_seats_differ(v: WorldView, i: int, j: int)
    requires
        well_formed(v),
        0 <= i < v.users.len(),
        0 <= j < v.users.len(),
        i != j,
        v.users[i].current_game_id is Some,
        v.users[i].current_game_id == v.users[j].current_game_id,
    ensures
        v.users[i].game_position != v.users[j].game_position,
{
    if i < j {
        assert(!seat_clash(v.users[i], v.users[j]));
    } else {
        assert(!seat_clash(v.users[j], v.users[i]));
    }
}

/// A round that is over is lost by the one player who still holds cards:
/// where an active player holds cards in a round that is over, that player
/// is its loser.
pub proof fn lemma_sole_holder_loses(v: WorldView, g: u64, k: int)
    requires
        round_is_over(v, g),
        0 <= k < v.users.len(),
        holds_cards(v.users[k], v.cards, g),
    ensures
        round_loser(v, g) == Some(v.users[k].identity),
{
    lemma_first_where(v.users, is_holder(v.cards, g));
    let first = crate::seqs::first_where(v.users, is_holder(v.cards, g));
    if first < k {
        lemma_count_two(v.users, is_holder(v.cards, g), first, k);
    } else if first > k {
        assert(!is_holder(v.cards, g)(v.users[k]));
    }
}

/// A round in which nobody holds cards any more is over and has no loser.
pub proof fn lemma_no_holder_no_loser(v: WorldView, g: u64)
    requires
        forall|k: int| 0 <= k < v.users.len() ==> !holds_cards(#[trigger] v.users[k], v.cards, g),
    ensures
        round_is_over(v, g),
        round_loser(v, g) is None,
{
    lemma_first_where(v.users, is_holder(v.cards, g));
    crate::seqs::lemma_count_zero(v.users, is_holder(v.cards, g));
}

/// A round in which two active players hold cards goes on.
pub proof fn lemma_two_holders_play_on(v: WorldView, g: u64, i: int, j: int)
    requires
        0 <= i < j < v.users.len(),
        holds_cards(v.users[i], v.cards, g),
        holds_cards(v.users[j], v.cards, g),
    ensures
        !round_is_over(v, g),
{
    lemma_count_two(v.users, is_holder(v.cards, g), i, j);
}

/// Filling the hands up leaves no active player short while the deck has
/// cards: once it is done, every active player of the game holds the
/// starting number of cards at least, or the deck is empty.
pub proof fn lemma_refill_fills_every_hand(v: WorldView, g: u64, first_seat: int, k: int)
    requires
        0 <= first_seat <= 256,
        0 <= k < v.users.len(),
        active_in(v.users[k], g),
    ensures
        hand_size(refilled(v, g, first_seat), g, v.users[k].identity) >= settings_of_lobby(
            v.settings,
            v.games[game_index(v.games, g)].lobby_id,
        ).starting_cards || deck_size(refilled(v, g, first_seat), g) == 0,
{
    let rules = settings_of_lobby(v.settings, v.games[game_index(v.games, g)].lobby_id);
    lemma_order_holds_every_player(v.users, g, true, first_seat, k);
    lemma_refilled_hands(
        v.cards,
        g,
        order_from(v.users, g, true, first_seat),
        rules.starting_cards as nat,
        v.users[k].identity,
    );
}

/// The last seat of game `g`: the player who stands last when the players
/// of the game are taken by rising seat.
pub open spec fn last_seat(users: Seq<User>, g: u64) -> PlayerId {
    order_from(users, g, false, 0).last()
}

/// The trump card of a new round of game `g` goes to the last seat: the
/// game is told to move it, and cards are left over once the hands are
/// dealt.
pub open spec fn new_round_moves_trump(v: WorldView, g: u64) -> bool {
    let rules = settings_of_lobby(v.settings, v.games[game_index(v.games, g)].lobby_id);
    rules.trump_card_to_player && count(v.users, is_in_game(g)) > 0 && count(
        v.users,
        is_in_game(g),
    ) * rules.starting_cards < 36
}

/// A new round deals afresh. Where the deck has cards enough for every
/// hand, every player of the game holds the starting number of cards once
/// the round has begun, and the last seat one more where the trump card is
/// moved to it. The rest of the thirty-six cards lies in the deck, and none
/// lies on the table or is discarded.
pub proof fn lemma_new_round_hands(v: WorldView, g: u64, now: Micros, seed: u64, i: int)
    requires
        well_formed(v),
        new_round_refusal(v, g) is None,
        0 <= i < v.users.len(),
        in_game(v.users[i], g),
        count(v.users, is_in_game(g)) * settings_of_lobby(
            v.settings,
            v.games[game_index(v.games, g)].lobby_id,
        ).starting_cards <= 36,
    ensures
        hand_size(round_started(v, g, now, seed).cards, g, v.users[i].identity)
            == settings_of_lobby(
            v.settings,
            v.games[game_index(v.games, g)].lobby_id,
        ).starting_cards + if last_seat(v.users, g) == v.users[i].identity
            && new_round_moves_trump(v, g) {
            1int
        } else {
            0int
        },
        deck_size(round_started(v, g, now, seed).cards, g) == 36 - count(
            v.users,
            is_in_game(g),
        ) * settings_of_lobby(
            v.settings,
            v.games[game_index(v.games, g)].lobby_id,
        ).starting_cards - if new_round_moves_trump(v, g) {
            1int
        } else {
            0int
        },
        count(round_started(v, g, now, seed).cards, is_on_table(g)) == 0,
        count(round_started(v, g, now, seed).cards, is_discarded(g)) == 0,
{
    let rules = settings_of_lobby(v.settings, v.games[game_index(v.games, g)].lobby_id);
    let k = rules.starting_cards as int;
    let id = v.users[i].identity;
    let order = order_from(v.users, g, false, 0);
    let deck = shuffled(built_deck(), seed);
    let kept = keep(v.cards, is_not_of_game(g));
    let fresh = dealt(deck, g, order, k, rules.trump_card_to_player, v.next_id + 1);
    lemma_order_len(v.users, g, false, 0);
    lemma_active_is_playing(v.users, g);
    lemma_order_holds_every_player(v.users, g, false, 0, i);
    lemma_order_names_each_player_once(v.users, g, false, 0);
    lemma_shuffled_deck_complete(seed, Card {
        suit: crate::cards::Suit::Hearts,
        rank: crate::cards::Rank::Six,
    });
    let j = choose|j: int| 0 <= j < order.len() && order[j] == id;
    lemma_dealt_hands(deck, g, order, k, rules.trump_card_to_player, v.next_id + 1, j);
    lemma_dealt_deck(deck, g, order, k, rules.trump_card_to_player, v.next_id + 1);
    assert(j == order.len() - 1 <==> order.last() == id);
    lemma_count_add(kept, fresh, is_in_hand(g, id));
    lemma_count_add(kept, fresh, is_in_deck(g));
    lemma_count_add(kept, fresh, is_on_table(g));
    lemma_count_add(kept, fresh, is_discarded(g));
    lemma_keep(v.cards, is_not_of_game(g), is_in_hand(g, id));
    lemma_keep(v.cards, is_not_of_game(g), is_in_deck(g));
    lemma_keep(v.cards, is_not_of_game(g), is_on_table(g));
    lemma_keep(v.cards, is_not_of_game(g), is_discarded(g));
    crate::seqs::lemma_count_zero(fresh, is_discarded(g));
}

proof fn lemma_roster_names_each_player_once(users: Seq<User>, l: u64)
    requires
        users_sound(users),
    ensures
        lobby_roster(users, l).no_duplicates(),
    decreases users.len(),
{
    if users.len() > 0 {
        let front = users.drop_last();
        let last = users.last();
        assert forall|i: int, j: int| 0 <= i < j < front.len() implies (#[trigger] front[i]).identity
            != (#[trigger] front[j]).identity by {
            assert(users[i].identity != users[j].identity);
        }
        lemma_roster_names_each_player_once(front, l);
        let other = |u: User| u.identity != last.identity;
        assert forall|i: int| 0 <= i < front.len() implies other(front[i]) by {
            assert(users[i].identity != users[users.len() - 1].identity);
        }
        lemma_keep_all(front, is_in_lobby(l), other);
        let before = lobby_roster(front, l);
        let now = lobby_roster(users, l);
        assert forall|a: int, b: int| 0 <= a < now.len() && 0 <= b < now.len() && a != b implies now[a]
            != now[b] by {
            if a < before.len() {
                assert(now[a] == before[a]);
                assert(other(keep(front, is_in_lobby(l))[a]));
            }
            if b < before.len() {
                assert(now[b] == before[b]);
                assert(other(keep(front, is_in_lobby(l))[b]));
            }
        }
    }
}

/// The trump card of a game that starts from lobby `l` goes to the last
/// player of the lobby: the lobby's rules tell to move it, and cards are left
/// over once the hands are dealt.
pub open spec fn first_deal_moves_trump(v: WorldView, l: u64) -> bool {
    let rules = settings_of_lobby(v.settings, l);
    rules.trump_card_to_player && count(v.users, is_in_lobby(l)) > 0 && count(
        v.users,
        is_in_lobby(l),
    ) * rules.starting_cards < 36
}

/// The first deal of a game. Where the deck has cards enough for every
/// hand, every player of the lobby holds the starting number of cards once
/// the game has started, and the last of them one more where the trump card
/// is moved. The rest of the thirty-six cards lies in the deck, and none lies
/// on the table or is discarded.
pub proof fn lemma_first_deal_hands(v: WorldView, l: u64, now: Micros, seed: u64, i: int)
    requires
        well_formed(v),
        0 <= i < v.users.len(),
        in_lobby(v.users[i], l),
        count(v.users, is_in_lobby(l)) * settings_of_lobby(v.settings, l).starting_cards <= 36,
    ensures
        hand_size(started(v, l, now, seed).cards, v.next_id, v.users[i].identity)
            == settings_of_lobby(v.settings, l).starting_cards + if lobby_roster(
            v.users,
            l,
        ).last() == v.users[i].identity && first_deal_moves_trump(v, l) {
            1int
        } else {
            0int
        },
        deck_size(started(v, l, now, seed).cards, v.next_id) == 36 - count(
            v.users,
            is_in_lobby(l),
        ) * settings_of_lobby(v.settings, l).starting_cards - if first_deal_moves_trump(v, l) {
            1int
        } else {
            0int
        },
        count(started(v, l, now, seed).cards, is_on_table(v.next_id)) == 0,
        count(started(v, l, now, seed).cards, is_discarded(v.next_id)) == 0,
{
    let rules = settings_of_lobby(v.settings, l);
    let k = rules.starting_cards as int;
    let g = v.next_id;
    let id = v.users[i].identity;
    let roster = lobby_roster(v.users, l);
    let deck = shuffled(built_deck(), seed);
    let fresh = dealt(deck, g, roster, k, rules.trump_card_to_player, g + 2);
    lemma_keep_len(v.users, is_in_lobby(l));
    lemma_keep_place(v.users, is_in_lobby(l), i);
    lemma_roster_names_each_player_once(v.users, l);
    lemma_shuffled_deck_complete(seed, Card {
        suit: crate::cards::Suit::Hearts,
        rank: crate::cards::Rank::Six,
    });
    let j = keep(v.users.take(i), is_in_lobby(l)).len() as int;
    assert(roster[j] == id);
    lemma_dealt_hands(deck, g, roster, k, rules.trump_card_to_player, g + 2, j);
    lemma_dealt_deck(deck, g, roster, k, rules.trump_card_to_player, g + 2);
    assert(j == roster.len() - 1 <==> roster.last() == id);
    lemma_count_add(v.cards, fresh, is_in_hand(g, id));
    lemma_count_add(v.cards, fresh, is_in_deck(g));
    lemma_count_add(v.cards, fresh, is_on_table(g));
    lemma_count_add(v.cards, fresh, is_discarded(g));
    assert forall|a: int| 0 <= a < v.cards.len() implies (#[trigger] v.cards[a]).game_id != g by {
        assert(v.cards[a].game_id < v.next_id);
    }
    crate::seqs::lemma_count_zero(v.cards, is_in_hand(g, id));
    crate::seqs::lemma_count_zero(v.cards, is_in_deck(g));
    crate::seqs::lemma_count_zero(v.cards, is_on_table(g));
    crate::seqs::lemma_count_zero(v.cards, is_discarded(g));
    crate::seqs::lemma_count_zero(fresh, is_discarded(g));
}

/// The neighbour to the left is another player: in sound tables, whoever
/// is found as the neighbour of a player is not that player.
pub proof fn lemma_neighbour_is_another(v: WorldView, g: u64, player: PlayerId, next: PlayerId)
    requires
        well_formed(v),
        next_clockwise(v.users, g, player) == Ok::<PlayerId, GameError>(next),
    ensures
        next != player,
{
    let users = v.users;
    let at = user_index(users, player);
    lemma_first_where(users, crate::model::is_user(player));
    let k = lemma_next_clockwise_is_nearest(users, g, player);
    if next == player {
        lemma_found_at_own_place(users, k);
        let (a, b) = lemma_two_counted(users, crate::model::is_active_in(g));
        let j = if a == k {
            b
        } else {
            a
        };
        assert(active_in(users[j], g) && j != k);
        assert(comes_first(users, seat_of(users[at]) + 1, k, j));
        if j < k {
            assert(!seat_clash(users[j], users[k]));
        } else {
            assert(!seat_clash(users[k], users[j]));
        }
        assert(users[j].game_position is Some && users[k].game_position is Some);
    }
}

/// Filling the hands up takes no card from a hand and deals no hand beyond
/// the starting number: once it is done, every hand is as large as it was at
/// least, and as large as it was or as the starting number at most; and the
/// deck has not grown.
pub proof fn lemma_refill_keeps_within_bounds(v: WorldView, g: u64, first_seat: int, p: PlayerId)
    ensures
        hand_size(v.cards, g, p) <= hand_size(refilled(v, g, first_seat), g, p),
        hand_size(refilled(v, g, first_seat), g, p) <= hand_size(v.cards, g, p) || hand_size(
            refilled(v, g, first_seat),
            g,
            p,
        ) <= settings_of_lobby(v.settings, v.games[game_index(v.games, g)].lobby_id).starting_cards,
        deck_size(refilled(v, g, first_seat), g) <= deck_size(v.cards, g),
{
    let rules = settings_of_lobby(v.settings, v.games[game_index(v.games, g)].lobby_id);
    lemma_refilled_bounds(
        v.cards,
        g,
        order_from(v.users, g, true, first_seat),
        rules.starting_cards as nat,
        p,
    );
}

/// No two rows stand for one user: in sound tables, two rows with one
/// identity are one row.
pub proof fn lemma_users_differ(v: WorldView, i: int, j: int)
    requires
        well_formed(v),
        0 <= i < v.users.len(),
        0 <= j < v.users.len(),
        v.users[i].identity == v.users[j].identity,
    ensures
        i == j,
{
    if i < j {
        assert(v.users[i].identity != v.users[j].identity);
    } else if j < i {
        assert(v.users[j].identity != v.users[i].identity);
    }
}

/// A turn that an attack opens has exactly one draw: the attack.
pub proof fn lemma_opened_turn_has_one_draw(
    v: WorldView,
    p: PlayerId,
    g: u64,
    card: Card,
    target: PlayerId,
    now: Micros,
)
    requires
        well_formed(v),
        attack_refusal(v, p, g, card, target) is None,
        active_turn_index(v.turns, v.rounds[current_round_index(v.rounds, g)].id) >= v.turns.len(),
    ensures
        attacked(v, p, g, card, target, now).turns.len() == v.turns.len() + 1,
        attacked(v, p, g, card, target, now).turns.last().id == v.next_id,
        count(attacked(v, p, g, card, target, now).draws, is_draw_of(v.next_id)) == 1,
{
    assert forall|i: int| 0 <= i < v.draws.len() implies !is_draw_of(v.next_id)(v.draws[i]) by {
        assert(v.draws[i].turn_id < v.next_id);
    }
    crate::seqs::lemma_count_zero(v.draws, is_draw_of(v.next_id));
    crate::seqs::lemma_count_push(
        v.draws,
        attacked(v, p, g, card, target, now).draws.last(),
        is_draw_of(v.next_id),
    );
    assert(attacked(v, p, g, card, target, now).draws =~= v.draws.push(
        attacked(v, p, g, card, target, now).draws.last(),
    ));
}

} // verus!
