//! The rows of the game tables, their states, and the errors of the engine.

use crate::cards::{Card, DeckSize, Suit};
use vstd::prelude::*;

verus! {

/// Who a player is: a 256-bit identity, held as two halves.
#[derive(Debug, Clone, Copy, PartialEq, Eq, Structural, Hash)]
pub struct PlayerId {
    pub hi: u128,
    pub lo: u128,
}

/// A point in time, in microseconds since the Unix epoch.
pub type Micros = i64;

/// Whether a lobby waits for players, plays, or is done.
#[derive(Debug, Clone, Copy, PartialEq, Eq, Structural)]
pub enum LobbyStatus {
    Waiting,
    InGame,
    Finished,
}

/// Whether a game is being played or is over.
#[derive(Debug, Clone, Copy, PartialEq, Eq, Structural)]
pub enum GameStatus {
    Active,
    Finished,
}

/// How a player stands in the round.
#[derive(Debug, Clone, Copy, PartialEq, Eq, Structural)]
pub enum PlayerStatus {
    Active,
    /// Quit early.
    Left,
    /// Emptied the hand.
    Finished,
}

/// Whether a round is being played or is over.
#[derive(Debug, Clone, Copy, PartialEq, Eq, Structural)]
pub enum RoundStatus {
    Active,
    Finished,
}

/// Whether a turn is open, and how it was resolved if it is not.
#[derive(Debug, Clone, Copy, PartialEq, Eq, Structural)]
pub enum TurnStatus {
    Active,
    /// The defender took the cards.
    DefenderTook,
    /// The defender beat every attack.
    DefenderBeat,
}

/// How an attack stands.
#[derive(Debug, Clone, Copy, PartialEq, Eq, Structural)]
pub enum DrawStatus {
    /// An attack that waits for its defence.
    Pending,
    Beaten,
    Taken,
}

/// Where a card lies.
#[derive(Debug, Clone, Copy, PartialEq, Eq, Structural)]
pub enum CardLocation {
    Hand,
    Deck,
    Discarded,
    OnTable,
}

/// The part of a user's record that the engine reads and writes.
#[derive(Debug, Clone, Copy, PartialEq, Eq)]
pub struct User {
    pub identity: PlayerId,
    pub current_lobby_id: Option<u64>,
    pub current_game_id: Option<u64>,
    /// The seat, which fixes the order of play.
    pub game_position: Option<u8>,
    /// Penalty points gathered over the rounds.
    pub total_points: Option<u8>,
    pub player_status: Option<PlayerStatus>,
}

/// The part of a lobby's record that the engine reads and writes.
#[derive(Debug, Clone, Copy, PartialEq, Eq)]
pub struct Lobby {
    pub id: u64,
    pub creator: PlayerId,
    pub max_players: u8,
    pub current_players: u8,
    pub status: LobbyStatus,
    pub created_at: Micros,
}

/// A game: the session that a lobby has started.
#[derive(Debug, Clone, Copy, PartialEq, Eq)]
pub struct Game {
    pub id: u64,
    pub lobby_id: u64,
    pub status: GameStatus,
    /// Fixed when the game starts and kept over all its rounds.
    pub trump_suit: Suit,
    pub current_round: u32,
    pub started_at: Micros,
    pub finished_at: Option<Micros>,
}

/// The rules that a lobby has chosen for its game.
#[derive(Debug, Clone, Copy, PartialEq, Eq)]
pub struct GameSettings {
    pub lobby_id: u64,
    pub deck_size: DeckSize,
    pub starting_cards: u8,
    /// Zero stands for no limit.
    pub max_attack_cards: u8,
    pub multi_round_mode: bool,
    pub max_points: u8,
    pub anyone_can_attack: bool,
    pub trump_card_to_player: bool,
}

/// Who is to attack whom once a turn has been resolved.
#[derive(Debug, Clone, Copy, PartialEq, Eq, Structural)]
pub struct PendingMove {
    pub attacker: PlayerId,
    pub defender: PlayerId,
}

/// A round of a game: from a fresh deal until at most one player holds cards.
#[derive(Debug, Clone, Copy, PartialEq, Eq)]
pub struct Round {
    pub id: u64,
    pub game_id: u64,
    pub round_number: u32,
    pub status: RoundStatus,
    /// Who lost the round; nobody where all hands emptied together.
    pub loser: Option<PlayerId>,
    /// The move that the last resolved turn of the round leaves open.
    pub pending_move: Option<PendingMove>,
    pub started_at: Micros,
    pub finished_at: Option<Micros>,
}

/// A turn: one exchange between an attacker and a defender.
#[derive(Debug, Clone, Copy, PartialEq, Eq)]
pub struct Turn {
    pub id: u64,
    pub round_id: u64,
    pub turn_number: u32,
    pub attacker: PlayerId,
    pub defender: PlayerId,
    pub status: TurnStatus,
    pub started_at: Micros,
    pub finished_at: Option<Micros>,
}

/// One attacking card and the card that answers it.
#[derive(Debug, Clone, Copy, PartialEq, Eq)]
pub struct Draw {
    pub id: u64,
    pub turn_id: u64,
    pub attacker: PlayerId,
    pub attacking_card: Card,
    pub defending_card: Option<Card>,
    pub status: DrawStatus,
    pub created_at: Micros,
}

/// Where one card of one game is, and whose it is. A card in the deck is
/// nobody's.
#[derive(Debug, Clone, Copy, PartialEq, Eq)]
pub struct PlayerCard {
    pub id: u64,
    pub game_id: u64,
    pub player: Option<PlayerId>,
    pub card: Card,
    pub location: CardLocation,
}

/// What the host hands to an action: who acts, when, and a number that no
/// player can foresee, for the shuffle that the action may lead to.
#[derive(Debug, Clone, Copy, PartialEq, Eq)]
pub struct Context {
    pub sender: PlayerId,
    pub timestamp: Micros,
    pub seed: u64,
}

/// What an action has led to.
#[derive(Debug, Clone, Copy, PartialEq, Eq, Structural)]
pub enum Resolution {
    /// The turn is still open.
    TurnOpen,
    /// The turn is resolved and the round goes on with the move `next`.
    TurnOver { next: Option<PendingMove> },
    /// The round is over and a new one has been dealt.
    RoundOver { loser: Option<PlayerId> },
    /// The game is over.
    GameOver { final_loser: Option<PlayerId> },
}

/// The four kinds of refusal.
#[derive(Debug, Clone, Copy, PartialEq, Eq, Structural)]
pub enum ErrorKind {
    /// A game, round, turn or player is missing.
    NotFound,
    /// The game or turn is not active, or too few players are.
    IllegalState,
    /// The caller has not the role or seat that the action asks for.
    Unauthorized,
    /// The card is not held, or the rules forbid the move.
    InvalidMove,
}

/// Why an action was refused.
#[derive(Debug, Clone, Copy, PartialEq, Eq, Structural)]
pub enum GameError {
    GameNotFound,
    GameNotActive,
    UserNotFound,
    NotInGame,
    NotActiveInGame,
    TargetNotFound,
    TargetNotInGame,
    TargetNotActive,
    NoActiveRound,
    CardNotInHand,
    NotCurrentDefender,
    RankNotOnTable,
    AttackLimitReached,
    NotFirstAttacker,
    NotExpectedAttacker,
    NotExpectedDefender,
    TurnNotFound,
    NotTurnDefender,
    TurnNotActive,
    NothingToDefend,
    CannotBeat,
    NoActiveTurn,
    UndefendedAttacks,
    NotTurnAttacker,
    PlayerNotFound,
    PlayerNotSeated,
    NotEnoughActivePlayers,
    RoundNotFound,
    RoundNotActive,
    RoundStillActive,
    LoserNotFound,
    NotInLobby,
    LobbyNotFound,
    NotLobbyCreator,
    AlreadyStarted,
    NotEnoughPlayers,
    PlayerCountMismatch,
    NotEnoughCards,
    OutOfIdentifiers,
}

impl GameError {
    /// The kind of a refusal.
    pub open spec fn spec_kind(self) -> ErrorKind {
        match self {
            GameError::GameNotFound
            | GameError::UserNotFound
            | GameError::TargetNotFound
            | GameError::NoActiveRound
            | GameError::TurnNotFound
            | GameError::NoActiveTurn
            | GameError::PlayerNotFound
            | GameError::RoundNotFound
            | GameError::LoserNotFound
            | GameError::LobbyNotFound => ErrorKind::NotFound,
            GameError::GameNotActive
            | GameError::TurnNotActive
            | GameError::RoundNotActive
            | GameError::RoundStillActive
            | GameError::NotEnoughActivePlayers
            | GameError::AlreadyStarted
            | GameError::NotEnoughPlayers
            | GameError::PlayerCountMismatch
            | GameError::NotEnoughCards
            | GameError::OutOfIdentifiers => ErrorKind::IllegalState,
            GameError::NotInGame
            | GameError::NotActiveInGame
            | GameError::TargetNotInGame
            | GameError::TargetNotActive
            | GameError::NotFirstAttacker
            | GameError::NotExpectedAttacker
            | GameError::NotTurnDefender
            | GameError::NotTurnAttacker
            | GameError::PlayerNotSeated
            | GameError::NotInLobby
            | GameError::NotLobbyCreator => ErrorKind::Unauthorized,
            GameError::CardNotInHand
            | GameError::NotCurrentDefender
            | GameError::RankNotOnTable
            | GameError::AttackLimitReached
            | GameError::NotExpectedDefender
            | GameError::NothingToDefend
            | GameError::CannotBeat
            | GameError::UndefendedAttacks => ErrorKind::InvalidMove,
        }
    }

    /// The kind of a refusal.
    #[verifier::when_used_as_spec(spec_kind)]
    pub fn kind(self) -> (kind: ErrorKind)
        ensures
            kind == self.spec_kind(),
    {
        match self {
            GameError::GameNotFound
            | GameError::UserNotFound
            | GameError::TargetNotFound
            | GameError::NoActiveRound
            | GameError::TurnNotFound
            | GameError::NoActiveTurn
            | GameError::PlayerNotFound
            | GameError::RoundNotFound
            | GameError::LoserNotFound
            | GameError::LobbyNotFound => ErrorKind::NotFound,
            GameError::GameNotActive
            | GameError::TurnNotActive
            | GameError::RoundNotActive
            | GameError::RoundStillActive
            | GameError::NotEnoughActivePlayers
            | GameError::AlreadyStarted
            | GameError::NotEnoughPlayers
            | GameError::PlayerCountMismatch
            | GameError::NotEnoughCards
            | GameError::OutOfIdentifiers => ErrorKind::IllegalState,
            GameError::NotInGame
            | GameError::NotActiveInGame
            | GameError::TargetNotInGame
            | GameError::TargetNotActive
            | GameError::NotFirstAttacker
            | GameError::NotExpectedAttacker
            | GameError::NotTurnDefender
            | GameError::NotTurnAttacker
            | GameError::PlayerNotSeated
            | GameError::NotInLobby
            | GameError::NotLobbyCreator => ErrorKind::Unauthorized,
            GameError::CardNotInHand
            | GameError::NotCurrentDefender
            | GameError::RankNotOnTable
            | GameError::AttackLimitReached
            | GameError::NotExpectedDefender
            | GameError::NothingToDefend
            | GameError::CannotBeat
            | GameError::UndefendedAttacks => ErrorKind::InvalidMove,
        }
    }
}

/// The settings of the traditional game.
pub open spec fn default_settings(lobby_id: u64) -> GameSettings {
    GameSettings {
        lobby_id,
        deck_size: DeckSize::Standard36,
        starting_cards: 7,
        max_attack_cards: 6,
        multi_round_mode: true,
        max_points: 15,
        anyone_can_attack: true,
        trump_card_to_player: true,
    }
}

/// The settings that a lobby plays by until it chooses its own.
pub fn get_default_settings(lobby_id: u64) -> (settings: GameSettings)
    ensures
        settings == default_settings(lobby_id),
{
    GameSettings {
        lobby_id,
        deck_size: DeckSize::Standard36,
        starting_cards: 7,
        max_attack_cards: 6,
        multi_round_mode: true,
        max_points: 15,
        anyone_can_attack: true,
        trump_card_to_player: true,
    }
}

} // verus!
