//! The mathematical image of the game tables, and the words in which the
//! engine's contracts speak of it.

use crate::cards::Card;
use crate::seqs::{count, first_where, last_where};
use crate::types::{
    default_settings, CardLocation, Draw, DrawStatus, Game, GameError, GameSettings, GameStatus,
    Lobby, PlayerCard, PlayerId, PlayerStatus, Round, RoundStatus, Turn, TurnStatus, User,
};
use vstd::prelude::*;

verus! {

/// The tables as sequences of rows, in the order in which the rows stand.
pub struct WorldView {
    pub users: Seq<User>,
    pub lobbies: Seq<Lobby>,
    pub settings: Seq<GameSettings>,
    pub games: Seq<Game>,
    pub rounds: Seq<Round>,
    pub turns: Seq<Turn>,
    pub draws: Seq<Draw>,
    pub cards: Seq<PlayerCard>,
    /// The next identifier that the engine gives out.
    pub next_id: u64,
}

// ---- users ------------------------------------------------------------

pub open spec fn is_user(id: PlayerId) -> spec_fn(User) -> bool {
    |u: User| u.identity == id
}

/// The place of the user `id` among `users`; their length if there is none.
pub open spec fn user_index(users: Seq<User>, id: PlayerId) -> int {
    first_where(users, is_user(id))
}

/// The user plays in game `g`.
pub open spec fn in_game(u: User, g: u64) -> bool {
    u.current_game_id == Some(g)
}

/// The user plays in game `g` and has not left or finished.
pub open spec fn active_in(u: User, g: u64) -> bool {
    in_game(u, g) && u.player_status == Some(PlayerStatus::Active)
}

/// The user sits in lobby `l`.
pub open spec fn in_lobby(u: User, l: u64) -> bool {
    u.current_lobby_id == Some(l)
}

/// The seat of a user; seat 0 where none is recorded.
pub open spec fn seat_of(u: User) -> int {
    match u.game_position {
        Some(s) => s as int,
        None => 0,
    }
}

pub open spec fn is_in_game(g: u64) -> spec_fn(User) -> bool {
    |u: User| in_game(u, g)
}

pub open spec fn is_active_in(g: u64) -> spec_fn(User) -> bool {
    |u: User| active_in(u, g)
}

pub open spec fn is_in_lobby(l: u64) -> spec_fn(User) -> bool {
    |u: User| in_lobby(u, l)
}

// ---- lobbies, settings, games ------------------------------------------

pub open spec fn is_lobby(id: u64) -> spec_fn(Lobby) -> bool {
    |l: Lobby| l.id == id
}

pub open spec fn lobby_index(lobbies: Seq<Lobby>, id: u64) -> int {
    first_where(lobbies, is_lobby(id))
}

pub open spec fn is_settings_of(lobby_id: u64) -> spec_fn(GameSettings) -> bool {
    |s: GameSettings| s.lobby_id == lobby_id
}

/// The settings that lobby `lobby_id` plays by: its own row, or the
/// traditional ones.
pub open spec fn settings_of_lobby(settings: Seq<GameSettings>, lobby_id: u64) -> GameSettings {
    let i = first_where(settings, is_settings_of(lobby_id));
    if i < settings.len() {
        settings[i]
    } else {
        default_settings(lobby_id)
    }
}

pub open spec fn is_game(id: u64) -> spec_fn(Game) -> bool {
    |g: Game| g.id == id
}

pub open spec fn game_index(games: Seq<Game>, id: u64) -> int {
    first_where(games, is_game(id))
}

pub open spec fn has_game(games: Seq<Game>, id: u64) -> bool {
    game_index(games, id) < games.len()
}

/// The first of two refusals that is one.
pub open spec fn first_refusal(a: Option<GameError>, b: Option<GameError>) -> Option<GameError> {
    if a is Some {
        a
    } else {
        b
    }
}

/// Why game `g` takes no action, if it takes none: it is missing or over.
pub open spec fn game_refusal(v: WorldView, g: u64) -> Option<GameError> {
    let gi = game_index(v.games, g);
    if gi >= v.games.len() {
        Some(GameError::GameNotFound)
    } else if v.games[gi].status != GameStatus::Active {
        Some(GameError::GameNotActive)
    } else {
        None
    }
}

// ---- rounds, turns, draws -----------------------------------------------

pub open spec fn is_round(id: u64) -> spec_fn(Round) -> bool {
    |r: Round| r.id == id
}

pub open spec fn round_index(rounds: Seq<Round>, id: u64) -> int {
    first_where(rounds, is_round(id))
}

pub open spec fn is_active_round_of(g: u64) -> spec_fn(Round) -> bool {
    |r: Round| r.game_id == g && r.status == RoundStatus::Active
}

/// The place of the round that game `g` is playing.
pub open spec fn current_round_index(rounds: Seq<Round>, g: u64) -> int {
    first_where(rounds, is_active_round_of(g))
}

pub open spec fn is_turn(id: u64) -> spec_fn(Turn) -> bool {
    |t: Turn| t.id == id
}

pub open spec fn turn_index(turns: Seq<Turn>, id: u64) -> int {
    first_where(turns, is_turn(id))
}

pub open spec fn is_turn_of(round_id: u64) -> spec_fn(Turn) -> bool {
    |t: Turn| t.round_id == round_id
}

pub open spec fn is_active_turn_of(round_id: u64) -> spec_fn(Turn) -> bool {
    |t: Turn| t.round_id == round_id && t.status == TurnStatus::Active
}

/// The place of the turn that is open in round `round_id`.
pub open spec fn active_turn_index(turns: Seq<Turn>, round_id: u64) -> int {
    first_where(turns, is_active_turn_of(round_id))
}

pub open spec fn is_draw_of(turn_id: u64) -> spec_fn(Draw) -> bool {
    |d: Draw| d.turn_id == turn_id
}

pub open spec fn is_pending_of(turn_id: u64) -> spec_fn(Draw) -> bool {
    |d: Draw| d.turn_id == turn_id && d.status == DrawStatus::Pending
}

/// A card of `rank` lies on the table of the draw, as attack or as defence.
pub open spec fn shows_rank(d: Draw, rank: crate::cards::Rank) -> bool {
    d.attacking_card.rank == rank || match d.defending_card {
        Some(c) => c.rank == rank,
        None => false,
    }
}

pub open spec fn is_draw_showing(turn_id: u64, rank: crate::cards::Rank) -> spec_fn(Draw) -> bool {
    |d: Draw| d.turn_id == turn_id && shows_rank(d, rank)
}

/// A card of `rank` may be added to turn `turn_id`: the turn has no draw yet,
/// or one of its draws shows the rank.
pub open spec fn rank_may_attack(draws: Seq<Draw>, turn_id: u64, rank: crate::cards::Rank) -> bool {
    count(draws, is_draw_of(turn_id)) == 0 || count(draws, is_draw_showing(turn_id, rank)) > 0
}

// ---- cards ----------------------------------------------------------------

pub open spec fn is_card_of(g: u64, c: Card) -> spec_fn(PlayerCard) -> bool {
    |pc: PlayerCard| pc.game_id == g && pc.card == c
}

pub open spec fn is_in_hand(g: u64, p: PlayerId) -> spec_fn(PlayerCard) -> bool {
    |pc: PlayerCard| pc.game_id == g && pc.player == Some(p) && pc.location == CardLocation::Hand
}

pub open spec fn is_hand_card(g: u64, p: PlayerId, c: Card) -> spec_fn(PlayerCard) -> bool {
    |pc: PlayerCard|
        pc.game_id == g && pc.player == Some(p) && pc.location == CardLocation::Hand && pc.card
            == c
}

pub open spec fn is_in_deck(g: u64) -> spec_fn(PlayerCard) -> bool {
    |pc: PlayerCard| pc.game_id == g && pc.location == CardLocation::Deck
}

pub open spec fn is_on_table(g: u64) -> spec_fn(PlayerCard) -> bool {
    |pc: PlayerCard| pc.game_id == g && pc.location == CardLocation::OnTable
}

pub open spec fn is_discarded(g: u64) -> spec_fn(PlayerCard) -> bool {
    |pc: PlayerCard| pc.game_id == g && pc.location == CardLocation::Discarded
}

/// How many cards player `p` holds in game `g`.
pub open spec fn hand_size(cards: Seq<PlayerCard>, g: u64, p: PlayerId) -> nat {
    count(cards, is_in_hand(g, p))
}

/// How many cards are left in the deck of game `g`.
pub open spec fn deck_size(cards: Seq<PlayerCard>, g: u64) -> nat {
    count(cards, is_in_deck(g))
}

/// The place of the row by which `p` holds card `c` in game `g`.
pub open spec fn hand_card_index(cards: Seq<PlayerCard>, g: u64, p: PlayerId, c: Card) -> int {
    first_where(cards, is_hand_card(g, p, c))
}

/// The place of the row that is drawn next from the deck of game `g`: the
/// last one that lies in it.
pub open spec fn deck_top_index(cards: Seq<PlayerCard>, g: u64) -> int {
    last_where(cards, is_in_deck(g))
}

// ---- validity --------------------------------------------------------------

/// The cards are sound: every game has each card of the deck in exactly one
/// row, and no row names a game that has not been started.
pub open spec fn cards_sound(games: Seq<Game>, cards: Seq<PlayerCard>, next_id: u64) -> bool {
    &&& forall|i: int| 0 <= i < games.len() ==> (#[trigger] games[i]).id < next_id
    &&& forall|i: int| 0 <= i < cards.len() ==> (#[trigger] cards[i]).game_id < next_id
    &&& forall|g: u64, c: Card| has_game(games, g) ==> #[trigger] count(cards, is_card_of(g, c)) == 1
}

/// The rounds are sound: no game plays two rounds at a time, and no round
/// names a game that has not been started.
pub open spec fn rounds_sound(rounds: Seq<Round>, next_id: u64) -> bool {
    &&& forall|i: int| 0 <= i < rounds.len() ==> (#[trigger] rounds[i]).game_id < next_id
    &&& forall|g: u64| #[trigger] count(rounds, is_active_round_of(g)) <= 1
}

/// The turns are sound: no round has two turns open at a time.
pub open spec fn turns_sound(turns: Seq<Turn>) -> bool {
    forall|r: u64| #[trigger] count(turns, is_active_turn_of(r)) <= 1
}

/// The identifiers rise along the rows and stay below `bound`.
pub open spec fn ascending(ids: Seq<u64>, bound: u64) -> bool {
    &&& forall|i: int, j: int| 0 <= i < j < ids.len() ==> ids[i] < ids[j]
    &&& forall|i: int| 0 <= i < ids.len() ==> ids[i] < bound
}

pub open spec fn game_ids(rows: Seq<Game>) -> Seq<u64> {
    rows.map_values(|row: Game| row.id)
}

pub open spec fn round_ids(rows: Seq<Round>) -> Seq<u64> {
    rows.map_values(|row: Round| row.id)
}

pub open spec fn turn_ids(rows: Seq<Turn>) -> Seq<u64> {
    rows.map_values(|row: Turn| row.id)
}

pub open spec fn draw_ids(rows: Seq<Draw>) -> Seq<u64> {
    rows.map_values(|row: Draw| row.id)
}

pub open spec fn card_ids(rows: Seq<PlayerCard>) -> Seq<u64> {
    rows.map_values(|row: PlayerCard| row.id)
}

pub open spec fn lobby_ids(rows: Seq<Lobby>) -> Seq<u64> {
    rows.map_values(|row: Lobby| row.id)
}

/// The identifiers are sound: in each of the tables of lobbies, games,
/// rounds, turns, draws and cards they rise along the rows, so that no two
/// rows share one, and all of them have been given out.
pub open spec fn ids_sound(v: WorldView) -> bool {
    &&& ascending(lobby_ids(v.lobbies), v.next_id)
    &&& ascending(game_ids(v.games), v.next_id)
    &&& ascending(round_ids(v.rounds), v.next_id)
    &&& ascending(turn_ids(v.turns), v.next_id)
    &&& ascending(draw_ids(v.draws), v.next_id)
    &&& ascending(card_ids(v.cards), v.next_id)
}

/// Two users play in one game at one seat.
pub open spec fn seat_clash(a: User, b: User) -> bool {
    a.current_game_id is Some && a.current_game_id == b.current_game_id && a.game_position
        == b.game_position
}

/// The seats are sound: whoever plays in a game has a seat there, no two
/// players of one game share a seat, and no user plays in a game that has
/// not been started.
pub open spec fn seats_sound(users: Seq<User>, next_id: u64) -> bool {
    &&& forall|i: int|
        0 <= i < users.len() && (#[trigger] users[i]).current_game_id is Some
            ==> users[i].current_game_id->0 < next_id && users[i].game_position is Some
    &&& forall|i: int, j: int| 0 <= i < j < users.len() ==> !#[trigger] seat_clash(users[i], users[j])
}

/// The users are sound: no two rows stand for one user.
pub open spec fn users_sound(users: Seq<User>) -> bool {
    forall|i: int, j: int|
        0 <= i < j < users.len() ==> (#[trigger] users[i]).identity != (
        #[trigger] users[j]).identity
}

/// What the rows name is sound: no turn names a round, and no draw a turn,
/// whose identifier has not been given out.
pub open spec fn names_sound(turns: Seq<Turn>, draws: Seq<Draw>, next_id: u64) -> bool {
    &&& forall|i: int| 0 <= i < turns.len() ==> (#[trigger] turns[i]).round_id < next_id
    &&& forall|i: int| 0 <= i < draws.len() ==> (#[trigger] draws[i]).turn_id < next_id
}

/// The tables are sound: the cards, the rounds, the turns, the identifiers,
/// the seats, the users and what the rows name are.
pub open spec fn well_formed(v: WorldView) -> bool {
    &&& cards_sound(v.games, v.cards, v.next_id)
    &&& rounds_sound(v.rounds, v.next_id)
    &&& turns_sound(v.turns)
    &&& ids_sound(v)
    &&& seats_sound(v.users, v.next_id)
    &&& users_sound(v.users)
    &&& names_sound(v.turns, v.draws, v.next_id)
}

} // verus!
