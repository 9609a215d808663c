//! Reading the tables.

use crate::cards::{Card, Rank};
use crate::lookup::{
    count_draws, count_pending, count_showing, find_active_turn, find_current_round, find_game,
    find_hand_card, find_settings, same_id, same_player,
};
use crate::model::{
    active_turn_index, current_round_index, game_index, hand_card_index, has_game, is_draw_of,
    is_in_game, is_in_hand, is_in_lobby, is_on_table, is_pending_of, rank_may_attack,
    settings_of_lobby,
};
use crate::seqs::{count, keep, lemma_keep_step};
use crate::types::{
    CardLocation, Draw, Game, GameError, GameSettings, Lobby, LobbyStatus, PlayerCard, PlayerId,
    Round, Turn, User,
};
use crate::world::World;
use vstd::prelude::*;

verus! {

pub open spec fn is_waiting() -> spec_fn(Lobby) -> bool {
    |l: Lobby| l.status == LobbyStatus::Waiting
}

/// The lobbies that still take players.
pub fn get_available_lobbies(world: &World) -> (lobbies: Vec<Lobby>)
    ensures
        lobbies@ == keep(world@.lobbies, is_waiting()),
{
    let rows = world.lobbies();
    let mut out: Vec<Lobby> = Vec::new();
    let mut i: usize = 0;
    while i < rows.len()
        invariant
            i <= rows@.len(),
            out@ == keep(rows@.take(i as int), is_waiting()),
        decreases rows@.len() - i,
    {
        proof {
            lemma_keep_step(rows@, i as int, is_waiting());
        }
        if rows[i].status == LobbyStatus::Waiting {
            out.push(rows[i]);
        }
        i = i + 1;
    }
    assert(rows@.take(i as int) =~= rows@);
    out
}

/// The users who sit in lobby `lobby_id`.
pub fn get_lobby_players(world: &World, lobby_id: u64) -> (players: Vec<User>)
    ensures
        players@ == keep(world@.users, is_in_lobby(lobby_id)),
{
    let rows = world.users();
    let mut out: Vec<User> = Vec::new();
    let mut i: usize = 0;
    while i < rows.len()
        invariant
            i <= rows@.len(),
            out@ == keep(rows@.take(i as int), is_in_lobby(lobby_id)),
        decreases rows@.len() - i,
    {
        proof {
            lemma_keep_step(rows@, i as int, is_in_lobby(lobby_id));
        }
        if same_id(rows[i].current_lobby_id, lobby_id) {
            out.push(rows[i]);
        }
        i = i + 1;
    }
    assert(rows@.take(i as int) =~= rows@);
    out
}

/// The users who play in game `game_id`.
pub fn get_game_players(world: &World, game_id: u64) -> (players: Vec<User>)
    ensures
        players@ == keep(world@.users, is_in_game(game_id)),
{
    let rows = world.users();
    let mut out: Vec<User> = Vec::new();
    let mut i: usize = 0;
    while i < rows.len()
        invariant
            i <= rows@.len(),
            out@ == keep(rows@.take(i as int), is_in_game(game_id)),
        decreases rows@.len() - i,
    {
        proof {
            lemma_keep_step(rows@, i as int, is_in_game(game_id));
        }
        if same_id(rows[i].current_game_id, game_id) {
            out.push(rows[i]);
        }
        i = i + 1;
    }
    assert(rows@.take(i as int) =~= rows@);
    out
}

/// The rows of the cards that `player` holds in game `game_id`.
pub fn get_player_cards(world: &World, game_id: u64, player: PlayerId) -> (rows: Vec<PlayerCard>)
    ensures
        rows@ == keep(world@.cards, is_in_hand(game_id, player)),
{
    let cards = world.cards();
    let mut out: Vec<PlayerCard> = Vec::new();
    let mut i: usize = 0;
    while i < cards.len()
        invariant
            i <= cards@.len(),
            out@ == keep(cards@.take(i as int), is_in_hand(game_id, player)),
        decreases cards@.len() - i,
    {
        proof {
            lemma_keep_step(cards@, i as int, is_in_hand(game_id, player));
        }
        let row = cards[i];
        if row.game_id == game_id && same_player(row.player, player) && row.location
            == CardLocation::Hand {
            out.push(row);
        }
        i = i + 1;
    }
    assert(cards@.take(i as int) =~= cards@);
    out
}

/// The cards that `player` holds in game `game_id`.
pub fn get_player_hand(world: &World, game_id: u64, player: PlayerId) -> (hand: Vec<Card>)
    ensures
        hand@ == keep(world@.cards, is_in_hand(game_id, player)).map_values(
            |row: PlayerCard| row.card,
        ),
{
    let rows = get_player_cards(world, game_id, player);
    let mut hand: Vec<Card> = Vec::new();
    let mut i: usize = 0;
    while i < rows.len()
        invariant
            i <= rows@.len(),
            hand@.len() == i,
            forall|j: int| 0 <= j < i ==> hand@[j] == rows@[j].card,
        decreases rows@.len() - i,
    {
        hand.push(rows[i].card);
        i = i + 1;
    }
    assert(hand@ =~= rows@.map_values(|row: PlayerCard| row.card));
    hand
}

/// Whether `player` holds `card` in game `game_id`.
pub fn player_has_card(world: &World, game_id: u64, player: PlayerId, card: &Card) -> (held: bool)
    ensures
        held == (hand_card_index(world@.cards, game_id, player, *card) < world@.cards.len()),
{
    find_hand_card(world.cards(), game_id, player, *card) < world.cards().len()
}

/// The game `game_id`, if the tables hold it.
pub fn get_game_state(world: &World, game_id: u64) -> (game: Option<Game>)
    ensures
        game == if has_game(world@.games, game_id) {
            Some(world@.games[game_index(world@.games, game_id)])
        } else {
            None
        },
{
    let i = find_game(world.games(), game_id);
    if i < world.games().len() {
        Some(world.games()[i])
    } else {
        None
    }
}

/// The settings of lobby `lobby_id`: its own, or the traditional ones.
pub fn get_game_settings(world: &World, lobby_id: u64) -> (settings: GameSettings)
    ensures
        settings == settings_of_lobby(world@.settings, lobby_id),
{
    find_settings(world.settings(), lobby_id)
}

/// The settings that game `game_id` is played by.
pub fn get_game_settings_for_game(world: &World, game_id: u64) -> (result: Result<
    GameSettings,
    GameError,
>)
    ensures
        result == if has_game(world@.games, game_id) {
            Ok(
                settings_of_lobby(
                    world@.settings,
                    world@.games[game_index(world@.games, game_id)].lobby_id,
                ),
            )
        } else {
            Err(GameError::GameNotFound)
        },
{
    let i = find_game(world.games(), game_id);
    if i < world.games().len() {
        Ok(find_settings(world.settings(), world.games()[i].lobby_id))
    } else {
        Err(GameError::GameNotFound)
    }
}

/// The round that game `game_id` is playing, if it plays one.
pub fn get_current_round(world: &World, game_id: u64) -> (round: Option<Round>)
    ensures
        round == if current_round_index(world@.rounds, game_id) < world@.rounds.len() {
            Some(world@.rounds[current_round_index(world@.rounds, game_id)])
        } else {
            None
        },
{
    let i = find_current_round(world.rounds(), game_id);
    if i < world.rounds().len() {
        Some(world.rounds()[i])
    } else {
        None
    }
}

/// The turn that is open in round `round_id`, if one is.
pub fn get_active_turn(world: &World, round_id: u64) -> (turn: Option<Turn>)
    ensures
        turn == if active_turn_index(world@.turns, round_id) < world@.turns.len() {
            Some(world@.turns[active_turn_index(world@.turns, round_id)])
        } else {
            None
        },
{
    let i = find_active_turn(world.turns(), round_id);
    if i < world.turns().len() {
        Some(world.turns()[i])
    } else {
        None
    }
}

/// The turn that is open in the round that game `game_id` is playing.
pub fn get_current_turn(world: &World, game_id: u64) -> (turn: Option<Turn>)
    ensures
        turn == if current_round_index(world@.rounds, game_id) < world@.rounds.len()
            && active_turn_index(
            world@.turns,
            world@.rounds[current_round_index(world@.rounds, game_id)].id,
        ) < world@.turns.len() {
            Some(
                world@.turns[active_turn_index(
                    world@.turns,
                    world@.rounds[current_round_index(world@.rounds, game_id)].id,
                )],
            )
        } else {
            None
        },
{
    match get_current_round(world, game_id) {
        Some(round) => get_active_turn(world, round.id),
        None => None,
    }
}

/// The draws of turn `turn_id`.
pub fn get_turn_draws(world: &World, turn_id: u64) -> (draws: Vec<Draw>)
    ensures
        draws@ == keep(world@.draws, is_draw_of(turn_id)),
{
    let rows = world.draws();
    let mut out: Vec<Draw> = Vec::new();
    let mut i: usize = 0;
    while i < rows.len()
        invariant
            i <= rows@.len(),
            out@ == keep(rows@.take(i as int), is_draw_of(turn_id)),
        decreases rows@.len() - i,
    {
        proof {
            lemma_keep_step(rows@, i as int, is_draw_of(turn_id));
        }
        if rows[i].turn_id == turn_id {
            out.push(rows[i]);
        }
        i = i + 1;
    }
    assert(rows@.take(i as int) =~= rows@);
    out
}

/// How many attacks of turn `turn_id` wait for their defence.
pub fn count_pending_draws(world: &World, turn_id: u64) -> (n: usize)
    ensures
        n == count(world@.draws, is_pending_of(turn_id)),
{
    count_pending(world.draws(), turn_id)
}

/// Whether a card of `rank` may be added to turn `turn_id`: the first card
/// of a turn may have any rank, a later one must have a rank that lies on
/// the table.
pub fn is_valid_attack_rank(rank: Rank, turn_id: u64, world: &World) -> (valid: bool)
    ensures
        valid == rank_may_attack(world@.draws, turn_id, rank),
{
    count_draws(world.draws(), turn_id) == 0 || count_showing(world.draws(), turn_id, rank) > 0
}

/// The rows of the cards that lie on the table of game `game_id`.
pub fn get_table_cards(world: &World, game_id: u64) -> (rows: Vec<PlayerCard>)
    ensures
        rows@ == keep(world@.cards, is_on_table(game_id)),
{
    let cards = world.cards();
    let mut out: Vec<PlayerCard> = Vec::new();
    let mut i: usize = 0;
    while i < cards.len()
        invariant
            i <= cards@.len(),
            out@ == keep(cards@.take(i as int), is_on_table(game_id)),
        decreases cards@.len() - i,
    {
        proof {
            lemma_keep_step(cards@, i as int, is_on_table(game_id));
        }
        if cards[i].game_id == game_id && cards[i].location == CardLocation::OnTable {
            out.push(cards[i]);
        }
        i = i + 1;
    }
    assert(cards@.take(i as int) =~= cards@);
    out
}

} // verus!
