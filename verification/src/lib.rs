//! Rules engine of a Durak-style card game: dealing, attack and defence
//! legality, the life of turns and rounds, seat rotation, scoring and the end
//! of the game, over an in-memory image of the game tables.
//!
//! The tables live in a [`World`]. Every action takes sound tables to sound
//! tables (see [`model::well_formed`]) and says in its contract, over the
//! image of the tables as sequences of rows ([`model::WorldView`]), on which
//! inputs it is refused and what it changes where it is not. A refused
//! action changes nothing.

pub mod cards;
pub mod deck;
pub mod digest;
pub mod history;
pub mod invariants;
pub mod laws;
pub mod lobby;
mod lookup;
pub mod model;
pub mod queries;
pub mod rotation;
pub mod rounds;
pub mod scoring;
pub mod seqs;
pub mod start;
pub mod turns;
pub mod types;
pub mod validation;
pub mod world;

pub use cards::{can_beat_card, Card, DeckSize, Rank, Suit};
pub use deck::{create_deck, deal, shuffle_deck};
pub use digest::{derive_seed, generate_round_id, generate_turn_id};
pub use lobby::{
    client_connected, create_lobby, join_lobby, leave_lobby, update_game_settings, LobbyError,
};
pub use queries::{
    count_pending_draws, get_active_turn, get_available_lobbies, get_current_round,
    get_current_turn, get_game_players, get_game_settings, get_game_settings_for_game,
    get_game_state, get_lobby_players, get_player_cards, get_player_hand, get_table_cards,
    get_turn_draws, is_valid_attack_rank, player_has_card,
};
pub use rotation::get_next_player_clockwise;
pub use rounds::{check_round_end, refill_hands};
pub use scoring::{finish_game, handle_round_scoring, start_new_round};
pub use start::start_game;
pub use turns::{
    attack, defend, finish_turn_defender_won, pass_turn, start_next_turn_after_defense,
    start_next_turn_after_take, take_cards,
};
pub use types::{
    get_default_settings, CardLocation, Context, Draw, DrawStatus, ErrorKind, Game, GameError,
    GameSettings, GameStatus, Lobby, LobbyStatus, Micros, PendingMove, PlayerCard, PlayerId,
    PlayerStatus, Resolution, Round, RoundStatus, Turn, TurnStatus, User,
};
pub use validation::{validate_message, validate_name};
pub use world::{tables_are_sound, Tables, World};
