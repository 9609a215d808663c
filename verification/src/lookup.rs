//! Searching and counting in the tables.

use crate::cards::{Card, Rank};
use crate::model::{
    active_in, active_turn_index, current_round_index, deck_size, deck_top_index, game_index,
    game_refusal, hand_card_index, hand_size, is_active_round_of, is_active_turn_of, is_draw_of,
    is_draw_showing, is_game, is_hand_card, is_in_deck, is_in_hand, is_lobby, is_pending_of,
    is_round, is_settings_of, is_turn, is_turn_of, is_user, lobby_index, round_index, seat_of,
    settings_of_lobby, shows_rank, turn_index, user_index, WorldView,
};
use crate::seqs::{count, first_where, lemma_count_step, lemma_first_where_is, lemma_last_where_is};
use crate::types::{
    get_default_settings, CardLocation, Draw, DrawStatus, Game, GameError, GameSettings, GameStatus,
    Lobby, PlayerCard, PlayerId, PlayerStatus, Round, RoundStatus, Turn, TurnStatus, User,
};
use vstd::prelude::*;

verus! {

pub(crate) fn same_id(a: Option<u64>, b: u64) -> (same: bool)
    ensures
        same == (a == Some(b)),
{
    match a {
        Some(x) => x == b,
        None => false,
    }
}

pub(crate) fn same_player(a: Option<PlayerId>, b: PlayerId) -> (same: bool)
    ensures
        same == (a == Some(b)),
{
    match a {
        Some(x) => x == b,
        None => false,
    }
}

pub(crate) fn user_active_in(u: &User, g: u64) -> (active: bool)
    ensures
        active == active_in(*u, g),
{
    same_id(u.current_game_id, g) && match u.player_status {
        Some(s) => s == PlayerStatus::Active,
        None => false,
    }
}

pub(crate) fn user_seat(u: &User) -> (seat: u8)
    ensures
        seat as int == seat_of(*u),
{
    match u.game_position {
        Some(s) => s,
        None => 0,
    }
}

pub(crate) fn find_user(users: &Vec<User>, id: PlayerId) -> (i: usize)
    ensures
        i as int == user_index(users@, id),
        i <= users@.len(),
        i < users@.len() ==> users@[i as int].identity == id,
{
    let mut i: usize = 0;
    while i < users.len()
        invariant
            i <= users@.len(),
            forall|j: int| 0 <= j < i ==> !is_user(id)(users@[j]),
        decreases users@.len() - i,
    {
        if users[i].identity == id {
            proof {
                lemma_first_where_is(users@, is_user(id), i as int);
            }
            return i;
        }
        i = i + 1;
    }
    proof {
        lemma_first_where_is(users@, is_user(id), i as int);
    }
    i
}

pub(crate) fn find_lobby(lobbies: &Vec<Lobby>, id: u64) -> (i: usize)
    ensures
        i as int == lobby_index(lobbies@, id),
        i <= lobbies@.len(),
        i < lobbies@.len() ==> lobbies@[i as int].id == id,
{
    let mut i: usize = 0;
    while i < lobbies.len()
        invariant
            i <= lobbies@.len(),
            forall|j: int| 0 <= j < i ==> !is_lobby(id)(lobbies@[j]),
        decreases lobbies@.len() - i,
    {
        if lobbies[i].id == id {
            proof {
                lemma_first_where_is(lobbies@, is_lobby(id), i as int);
            }
            return i;
        }
        i = i + 1;
    }
    proof {
        lemma_first_where_is(lobbies@, is_lobby(id), i as int);
    }
    i
}

pub(crate) fn find_settings_row(settings: &Vec<GameSettings>, lobby_id: u64) -> (i: usize)
    ensures
        i as int == first_where(settings@, is_settings_of(lobby_id)),
        i <= settings@.len(),
{
    let mut i: usize = 0;
    while i < settings.len()
        invariant
            i <= settings@.len(),
            forall|j: int| 0 <= j < i ==> !is_settings_of(lobby_id)(settings@[j]),
        decreases settings@.len() - i,
    {
        if settings[i].lobby_id == lobby_id {
            proof {
                lemma_first_where_is(settings@, is_settings_of(lobby_id), i as int);
            }
            return i;
        }
        i = i + 1;
    }
    proof {
        lemma_first_where_is(settings@, is_settings_of(lobby_id), i as int);
    }
    i
}

pub(crate) fn find_settings(settings: &Vec<GameSettings>, lobby_id: u64) -> (found: GameSettings)
    ensures
        found == settings_of_lobby(settings@, lobby_id),
{
    let i = find_settings_row(settings, lobby_id);
    if i < settings.len() {
        settings[i]
    } else {
        get_default_settings(lobby_id)
    }
}

pub(crate) fn find_game(games: &Vec<Game>, id: u64) -> (i: usize)
    ensures
        i as int == game_index(games@, id),
        i <= games@.len(),
        i < games@.len() ==> games@[i as int].id == id,
{
    let mut i: usize = 0;
    while i < games.len()
        invariant
            i <= games@.len(),
            forall|j: int| 0 <= j < i ==> !is_game(id)(games@[j]),
        decreases games@.len() - i,
    {
        if games[i].id == id {
            proof {
                lemma_first_where_is(games@, is_game(id), i as int);
            }
            return i;
        }
        i = i + 1;
    }
    proof {
        lemma_first_where_is(games@, is_game(id), i as int);
    }
    i
}

pub(crate) fn find_round(rounds: &Vec<Round>, id: u64) -> (i: usize)
    ensures
        i as int == round_index(rounds@, id),
        i <= rounds@.len(),
        i < rounds@.len() ==> rounds@[i as int].id == id,
{
    let mut i: usize = 0;
    while i < rounds.len()
        invariant
            i <= rounds@.len(),
            forall|j: int| 0 <= j < i ==> !is_round(id)(rounds@[j]),
        decreases rounds@.len() - i,
    {
        if rounds[i].id == id {
            proof {
                lemma_first_where_is(rounds@, is_round(id), i as int);
            }
            return i;
        }
        i = i + 1;
    }
    proof {
        lemma_first_where_is(rounds@, is_round(id), i as int);
    }
    i
}

pub(crate) fn find_current_round(rounds: &Vec<Round>, g: u64) -> (i: usize)
    ensures
        i as int == current_round_index(rounds@, g),
        i <= rounds@.len(),
        i < rounds@.len() ==> rounds@[i as int].game_id == g && rounds@[i as int].status
            == RoundStatus::Active,
{
    let mut i: usize = 0;
    while i < rounds.len()
        invariant
            i <= rounds@.len(),
            forall|j: int| 0 <= j < i ==> !is_active_round_of(g)(rounds@[j]),
        decreases rounds@.len() - i,
    {
        if rounds[i].game_id == g && rounds[i].status == RoundStatus::Active {
            proof {
                lemma_first_where_is(rounds@, is_active_round_of(g), i as int);
            }
            return i;
        }
        i = i + 1;
    }
    proof {
        lemma_first_where_is(rounds@, is_active_round_of(g), i as int);
    }
    i
}

pub(crate) fn find_turn(turns: &Vec<Turn>, id: u64) -> (i: usize)
    ensures
        i as int == turn_index(turns@, id),
        i <= turns@.len(),
        i < turns@.len() ==> turns@[i as int].id == id,
{
    let mut i: usize = 0;
    while i < turns.len()
        invariant
            i <= turns@.len(),
            forall|j: int| 0 <= j < i ==> !is_turn(id)(turns@[j]),
        decreases turns@.len() - i,
    {
        if turns[i].id == id {
            proof {
                lemma_first_where_is(turns@, is_turn(id), i as int);
            }
            return i;
        }
        i = i + 1;
    }
    proof {
        lemma_first_where_is(turns@, is_turn(id), i as int);
    }
    i
}

pub(crate) fn find_active_turn(turns: &Vec<Turn>, round_id: u64) -> (i: usize)
    ensures
        i as int == active_turn_index(turns@, round_id),
        i <= turns@.len(),
        i < turns@.len() ==> turns@[i as int].round_id == round_id && turns@[i as int].status
            == TurnStatus::Active,
{
    let mut i: usize = 0;
    while i < turns.len()
        invariant
            i <= turns@.len(),
            forall|j: int| 0 <= j < i ==> !is_active_turn_of(round_id)(turns@[j]),
        decreases turns@.len() - i,
    {
        if turns[i].round_id == round_id && turns[i].status == TurnStatus::Active {
            proof {
                lemma_first_where_is(turns@, is_active_turn_of(round_id), i as int);
            }
            return i;
        }
        i = i + 1;
    }
    proof {
        lemma_first_where_is(turns@, is_active_turn_of(round_id), i as int);
    }
    i
}

pub(crate) fn find_pending_draw(draws: &Vec<Draw>, turn_id: u64) -> (i: usize)
    ensures
        i as int == first_where(draws@, is_pending_of(turn_id)),
        i <= draws@.len(),
        i < draws@.len() ==> draws@[i as int].turn_id == turn_id && draws@[i as int].status
            == DrawStatus::Pending,
{
    let mut i: usize = 0;
    while i < draws.len()
        invariant
            i <= draws@.len(),
            forall|j: int| 0 <= j < i ==> !is_pending_of(turn_id)(draws@[j]),
        decreases draws@.len() - i,
    {
        if draws[i].turn_id == turn_id && draws[i].status == DrawStatus::Pending {
            proof {
                lemma_first_where_is(draws@, is_pending_of(turn_id), i as int);
            }
            return i;
        }
        i = i + 1;
    }
    proof {
        lemma_first_where_is(draws@, is_pending_of(turn_id), i as int);
    }
    i
}

pub(crate) fn find_hand_card(cards: &Vec<PlayerCard>, g: u64, p: PlayerId, c: Card) -> (i: usize)
    ensures
        i as int == hand_card_index(cards@, g, p, c),
        i <= cards@.len(),
        i < cards@.len() ==> is_hand_card(g, p, c)(cards@[i as int]),
{
    let mut i: usize = 0;
    while i < cards.len()
        invariant
            i <= cards@.len(),
            forall|j: int| 0 <= j < i ==> !is_hand_card(g, p, c)(cards@[j]),
        decreases cards@.len() - i,
    {
        let row = &cards[i];
        if row.game_id == g && same_player(row.player, p) && row.location == CardLocation::Hand
            && row.card == c {
            proof {
                lemma_first_where_is(cards@, is_hand_card(g, p, c), i as int);
            }
            return i;
        }
        i = i + 1;
    }
    proof {
        lemma_first_where_is(cards@, is_hand_card(g, p, c), i as int);
    }
    i
}

/// The place of the deck row of game `g` that is drawn next, if the deck has
/// one.
pub(crate) fn find_deck_top(cards: &Vec<PlayerCard>, g: u64) -> (top: Option<usize>)
    ensures
        match top {
            Some(i) => i as int == deck_top_index(cards@, g) && i < cards@.len() && is_in_deck(g)(
                cards@[i as int],
            ),
            None => deck_top_index(cards@, g) == -1,
        },
{
    let mut i: usize = cards.len();
    while i > 0
        invariant
            i <= cards@.len(),
            forall|j: int| i <= j < cards@.len() ==> !is_in_deck(g)(cards@[j]),
        decreases i,
    {
        i = i - 1;
        if cards[i].game_id == g && cards[i].location == CardLocation::Deck {
            proof {
                lemma_last_where_is(cards@, is_in_deck(g), i as int);
            }
            return Some(i);
        }
    }
    proof {
        lemma_last_where_is(cards@, is_in_deck(g), -1);
    }
    None
}

pub(crate) fn count_hand(cards: &Vec<PlayerCard>, g: u64, p: PlayerId) -> (n: usize)
    ensures
        n == hand_size(cards@, g, p),
{
    let mut n: usize = 0;
    let mut i: usize = 0;
    while i < cards.len()
        invariant
            i <= cards@.len(),
            n <= i,
            n == count(cards@.take(i as int), is_in_hand(g, p)),
        decreases cards@.len() - i,
    {
        proof {
            lemma_count_step(cards@, i as int, is_in_hand(g, p));
        }
        let row = &cards[i];
        if row.game_id == g && same_player(row.player, p) && row.location == CardLocation::Hand {
            n = n + 1;
        }
        i = i + 1;
    }
    assert(cards@.take(i as int) =~= cards@);
    n
}

pub(crate) fn count_deck(cards: &Vec<PlayerCard>, g: u64) -> (n: usize)
    ensures
        n == deck_size(cards@, g),
{
    let mut n: usize = 0;
    let mut i: usize = 0;
    while i < cards.len()
        invariant
            i <= cards@.len(),
            n <= i,
            n == count(cards@.take(i as int), is_in_deck(g)),
        decreases cards@.len() - i,
    {
        proof {
            lemma_count_step(cards@, i as int, is_in_deck(g));
        }
        if cards[i].game_id == g && cards[i].location == CardLocation::Deck {
            n = n + 1;
        }
        i = i + 1;
    }
    assert(cards@.take(i as int) =~= cards@);
    n
}

pub(crate) fn count_draws(draws: &Vec<Draw>, turn_id: u64) -> (n: usize)
    ensures
        n == count(draws@, is_draw_of(turn_id)),
{
    let mut n: usize = 0;
    let mut i: usize = 0;
    while i < draws.len()
        invariant
            i <= draws@.len(),
            n <= i,
            n == count(draws@.take(i as int), is_draw_of(turn_id)),
        decreases draws@.len() - i,
    {
        proof {
            lemma_count_step(draws@, i as int, is_draw_of(turn_id));
        }
        if draws[i].turn_id == turn_id {
            n = n + 1;
        }
        i = i + 1;
    }
    assert(draws@.take(i as int) =~= draws@);
    n
}

pub(crate) fn count_pending(draws: &Vec<Draw>, turn_id: u64) -> (n: usize)
    ensures
        n == count(draws@, is_pending_of(turn_id)),
{
    let mut n: usize = 0;
    let mut i: usize = 0;
    while i < draws.len()
        invariant
            i <= draws@.len(),
            n <= i,
            n == count(draws@.take(i as int), is_pending_of(turn_id)),
        decreases draws@.len() - i,
    {
        proof {
            lemma_count_step(draws@, i as int, is_pending_of(turn_id));
        }
        if draws[i].turn_id == turn_id && draws[i].status == DrawStatus::Pending {
            n = n + 1;
        }
        i = i + 1;
    }
    assert(draws@.take(i as int) =~= draws@);
    n
}

fn draw_shows(d: &Draw, rank: Rank) -> (shows: bool)
    ensures
        shows == shows_rank(*d, rank),
{
    d.attacking_card.rank == rank || match d.defending_card {
        Some(c) => c.rank == rank,
        None => false,
    }
}

pub(crate) fn count_showing(draws: &Vec<Draw>, turn_id: u64, rank: Rank) -> (n: usize)
    ensures
        n == count(draws@, is_draw_showing(turn_id, rank)),
{
    let mut n: usize = 0;
    let mut i: usize = 0;
    while i < draws.len()
        invariant
            i <= draws@.len(),
            n <= i,
            n == count(draws@.take(i as int), is_draw_showing(turn_id, rank)),
        decreases draws@.len() - i,
    {
        proof {
            lemma_count_step(draws@, i as int, is_draw_showing(turn_id, rank));
        }
        if draws[i].turn_id == turn_id && draw_shows(&draws[i], rank) {
            n = n + 1;
        }
        i = i + 1;
    }
    assert(draws@.take(i as int) =~= draws@);
    n
}

pub(crate) fn count_turns(turns: &Vec<Turn>, round_id: u64) -> (n: usize)
    ensures
        n == count(turns@, is_turn_of(round_id)),
{
    let mut n: usize = 0;
    let mut i: usize = 0;
    while i < turns.len()
        invariant
            i <= turns@.len(),
            n <= i,
            n == count(turns@.take(i as int), is_turn_of(round_id)),
        decreases turns@.len() - i,
    {
        proof {
            lemma_count_step(turns@, i as int, is_turn_of(round_id));
        }
        if turns[i].round_id == round_id {
            n = n + 1;
        }
        i = i + 1;
    }
    assert(turns@.take(i as int) =~= turns@);
    n
}

pub(crate) fn count_active_rounds(rounds: &Vec<Round>, g: u64) -> (n: usize)
    ensures
        n == count(rounds@, is_active_round_of(g)),
{
    let mut n: usize = 0;
    let mut i: usize = 0;
    while i < rounds.len()
        invariant
            i <= rounds@.len(),
            n <= i,
            n == count(rounds@.take(i as int), is_active_round_of(g)),
        decreases rounds@.len() - i,
    {
        proof {
            lemma_count_step(rounds@, i as int, is_active_round_of(g));
        }
        if rounds[i].game_id == g && rounds[i].status == RoundStatus::Active {
            n = n + 1;
        }
        i = i + 1;
    }
    assert(rounds@.take(i as int) =~= rounds@);
    n
}

pub(crate) fn count_active_turns(turns: &Vec<Turn>, round_id: u64) -> (n: usize)
    ensures
        n == count(turns@, is_active_turn_of(round_id)),
{
    let mut n: usize = 0;
    let mut i: usize = 0;
    while i < turns.len()
        invariant
            i <= turns@.len(),
            n <= i,
            n == count(turns@.take(i as int), is_active_turn_of(round_id)),
        decreases turns@.len() - i,
    {
        proof {
            lemma_count_step(turns@, i as int, is_active_turn_of(round_id));
        }
        if turns[i].round_id == round_id && turns[i].status == TurnStatus::Active {
            n = n + 1;
        }
        i = i + 1;
    }
    assert(turns@.take(i as int) =~= turns@);
    n
}

/// The place of game `g`, if it is there and active.
pub(crate) fn check_game(games: &Vec<Game>, g: u64) -> (result: Result<usize, GameError>)
    ensures
        match result {
            Ok(gi) => game_refusal(WorldView { games: games@, ..arbitrary() }, g) is None
                && gi as int == game_index(games@, g) && gi < games@.len() && games@[gi as int].id
                == g && games@[gi as int].status == GameStatus::Active,
            Err(e) => game_refusal(WorldView { games: games@, ..arbitrary() }, g) == Some(e),
        },
{
    let gi = find_game(games, g);
    if gi >= games.len() {
        return Err(GameError::GameNotFound);
    }
    if games[gi].status != GameStatus::Active {
        return Err(GameError::GameNotActive);
    }
    Ok(gi)
}

} // verus!
