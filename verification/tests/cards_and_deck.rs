use std::collections::hash_map::DefaultHasher;
use std::hash::{Hash, Hasher};

use spacefool::{
    can_beat_card, create_deck, deal, get_default_settings, shuffle_deck, validate_message,
    validate_name, Card, CardLocation, DeckSize, ErrorKind, GameError, PlayerId, Rank, Suit,
};

fn card(suit: Suit, rank: Rank) -> Card {
    Card { suit, rank }
}

fn pid(n: u128) -> PlayerId {
    PlayerId { hi: 0, lo: n }
}

#[test]
fn plain_card_beaten_by_higher_card_of_its_suit() {
    assert!(can_beat_card(
        &card(Suit::Hearts, Rank::Six),
        &card(Suit::Hearts, Rank::Seven),
        Suit::Spades
    ));
}

#[test]
fn plain_card_beaten_by_any_trump() {
    assert!(can_beat_card(
        &card(Suit::Hearts, Rank::Six),
        &card(Suit::Spades, Rank::Six),
        Suit::Spades
    ));
}

#[test]
fn trump_beaten_by_higher_trump() {
    assert!(can_beat_card(
        &card(Suit::Spades, Rank::Six),
        &card(Suit::Spades, Rank::Seven),
        Suit::Spades
    ));
}

#[test]
fn trump_not_beaten_by_plain_ace() {
    assert!(!can_beat_card(
        &card(Suit::Spades, Rank::Six),
        &card(Suit::Hearts, Rank::Ace),
        Suit::Spades
    ));
}

#[test]
fn trump_not_beaten_by_lower_or_equal_trump() {
    assert!(!can_beat_card(
        &card(Suit::Spades, Rank::Seven),
        &card(Suit::Spades, Rank::Six),
        Suit::Spades
    ));
    assert!(!can_beat_card(
        &card(Suit::Spades, Rank::Seven),
        &card(Suit::Spades, Rank::Seven),
        Suit::Spades
    ));
}

#[test]
fn plain_card_not_beaten_by_other_plain_suit_or_lower_rank() {
    assert!(!can_beat_card(
        &card(Suit::Hearts, Rank::Six),
        &card(Suit::Clubs, Rank::Ace),
        Suit::Spades
    ));
    assert!(!can_beat_card(
        &card(Suit::Hearts, Rank::Ten),
        &card(Suit::Hearts, Rank::Nine),
        Suit::Spades
    ));
    assert!(!can_beat_card(
        &card(Suit::Hearts, Rank::Ten),
        &card(Suit::Hearts, Rank::Ten),
        Suit::Spades
    ));
}

#[test]
fn rank_values_run_from_six_to_fourteen() {
    assert_eq!(Rank::Six.value(), 6);
    assert_eq!(Rank::Ten.value(), 10);
    assert_eq!(Rank::Jack.value(), 11);
    assert_eq!(Rank::Ace.value(), 14);
    assert!(Rank::Six < Rank::Seven && Rank::King < Rank::Ace);
}

#[test]
fn built_deck_has_thirty_six_distinct_cards_in_order() {
    let deck = create_deck(DeckSize::Standard36);
    assert_eq!(deck.len(), 36);
    assert_eq!(deck[0], card(Suit::Hearts, Rank::Six));
    assert_eq!(deck[8], card(Suit::Hearts, Rank::Ace));
    assert_eq!(deck[9], card(Suit::Diamonds, Rank::Six));
    assert_eq!(deck[18], card(Suit::Clubs, Rank::Six));
    assert_eq!(deck[35], card(Suit::Spades, Rank::Ace));
    for i in 0..36 {
        for j in 0..i {
            assert_ne!(deck[i], deck[j]);
        }
    }
}

#[test]
fn extended_deck_is_dealt_as_the_short_deck() {
    assert_eq!(create_deck(DeckSize::Extended52), create_deck(DeckSize::Standard36));
}

#[test]
fn shuffle_under_a_small_seed_moves_every_card_one_place_up() {
    let deck = create_deck(DeckSize::Standard36);
    let out = shuffle_deck(deck.clone(), 0);
    assert_eq!(out.len(), 36);
    for i in 0..35 {
        assert_eq!(out[i], deck[i + 1]);
    }
    assert_eq!(out[35], deck[0]);
    assert_eq!(shuffle_deck(deck.clone(), 12345), out);
}

#[test]
fn shuffle_follows_the_seed() {
    let seed: u64 = 0xDEAD_BEEF_CAFE_F00D;
    let deck = create_deck(DeckSize::Standard36);
    let mut expected = deck.clone();
    for i in (1..expected.len()).rev() {
        let k = i as u128 + 1;
        let j = ((seed as u128 * k) % (1u128 << 64)) % k;
        expected.swap(i, j as usize);
    }
    let out = shuffle_deck(deck.clone(), seed);
    assert_eq!(out, expected);
    assert_ne!(out, shuffle_deck(deck.clone(), 0));
    assert_eq!(out, shuffle_deck(deck, seed));
}

#[test]
fn shuffle_keeps_every_card_once() {
    let deck = create_deck(DeckSize::Standard36);
    for seed in [0u64, 1, 0xDEAD_BEEF_CAFE_F00D, u64::MAX, 0x8000_0000_0000_0001] {
        let out = shuffle_deck(deck.clone(), seed);
        assert_eq!(out.len(), 36);
        for c in &deck {
            assert_eq!(out.iter().filter(|x| *x == c).count(), 1);
        }
    }
}

#[test]
fn shuffle_of_empty_and_single_deck() {
    assert_eq!(shuffle_deck(Vec::new(), 7), Vec::new());
    let one = vec![card(Suit::Clubs, Rank::Ten)];
    assert_eq!(shuffle_deck(one.clone(), 7), one);
}

#[test]
fn deal_gives_hands_in_seat_order_and_leaves_the_rest_in_the_deck() {
    let deck = create_deck(DeckSize::Standard36);
    let seats = vec![pid(1), pid(2), pid(3)];
    let rows = deal(&deck, 9, &seats, 7, false, 100);
    assert_eq!(rows.len(), 36);
    for (i, row) in rows.iter().enumerate() {
        assert_eq!(row.id, 100 + i as u64);
        assert_eq!(row.game_id, 9);
        assert_eq!(row.card, deck[i]);
        if i < 21 {
            assert_eq!(row.player, Some(seats[i / 7]));
            assert_eq!(row.location, CardLocation::Hand);
        } else {
            assert_eq!(row.player, None);
            assert_eq!(row.location, CardLocation::Deck);
        }
    }
}

#[test]
fn deal_moves_the_trump_card_to_the_last_seat() {
    let deck = create_deck(DeckSize::Standard36);
    let seats = vec![pid(1), pid(2)];
    let rows = deal(&deck, 9, &seats, 6, true, 0);
    assert_eq!(rows[35].player, Some(pid(2)));
    assert_eq!(rows[35].location, CardLocation::Hand);
    assert_eq!(rows[34].player, None);
    assert_eq!(rows[34].location, CardLocation::Deck);
    let in_deck = rows.iter().filter(|r| r.location == CardLocation::Deck).count();
    assert_eq!(in_deck, 36 - 12 - 1);
    let last_hand = rows
        .iter()
        .filter(|r| r.player == Some(pid(2)) && r.location == CardLocation::Hand)
        .count();
    assert_eq!(last_hand, 7);
}

#[test]
fn deal_with_no_starting_cards_or_no_seats_leaves_all_in_the_deck() {
    let deck = create_deck(DeckSize::Standard36);
    let rows = deal(&deck, 1, &vec![pid(1), pid(2)], 0, false, 0);
    assert!(rows.iter().all(|r| r.location == CardLocation::Deck && r.player.is_none()));
    let rows = deal(&deck, 1, &Vec::new(), 7, true, 0);
    assert!(rows.iter().all(|r| r.location == CardLocation::Deck && r.player.is_none()));
}

#[test]
fn deal_stops_at_the_last_seat_when_cards_outnumber_the_hands() {
    let deck = create_deck(DeckSize::Standard36);
    let rows = deal(&deck, 1, &vec![pid(1), pid(2)], 20, false, 0);
    assert_eq!(rows.iter().filter(|r| r.player == Some(pid(1))).count(), 20);
    assert_eq!(rows.iter().filter(|r| r.player == Some(pid(2))).count(), 16);
}

#[test]
fn default_settings_are_the_traditional_ones() {
    let s = get_default_settings(42);
    assert_eq!(s.lobby_id, 42);
    assert_eq!(s.deck_size, DeckSize::Standard36);
    assert_eq!(s.starting_cards, 7);
    assert_eq!(s.max_attack_cards, 6);
    assert!(s.multi_round_mode);
    assert_eq!(s.max_points, 15);
    assert!(s.anyone_can_attack);
    assert!(s.trump_card_to_player);
}

#[test]
fn names_and_messages_must_not_be_empty() {
    assert_eq!(validate_name("Ann".to_string()), Ok("Ann".to_string()));
    assert_eq!(validate_name(String::new()), Err("Names must not be empty".to_string()));
    assert_eq!(validate_message("hi".to_string()), Ok("hi".to_string()));
    assert_eq!(
        validate_message(String::new()),
        Err("Messages must not be empty".to_string())
    );
}

#[test]
fn every_error_has_its_kind() {
    let not_found = [
        GameError::GameNotFound,
        GameError::UserNotFound,
        GameError::TargetNotFound,
        GameError::NoActiveRound,
        GameError::TurnNotFound,
        GameError::NoActiveTurn,
        GameError::PlayerNotFound,
        GameError::RoundNotFound,
        GameError::LoserNotFound,
        GameError::LobbyNotFound,
    ];
    let illegal_state = [
        GameError::GameNotActive,
        GameError::TurnNotActive,
        GameError::RoundNotActive,
        GameError::RoundStillActive,
        GameError::NotEnoughActivePlayers,
        GameError::AlreadyStarted,
        GameError::NotEnoughPlayers,
        GameError::PlayerCountMismatch,
        GameError::NotEnoughCards,
        GameError::OutOfIdentifiers,
    ];
    let unauthorized = [
        GameError::NotInGame,
        GameError::NotActiveInGame,
        GameError::TargetNotInGame,
        GameError::TargetNotActive,
        GameError::NotFirstAttacker,
        GameError::NotExpectedAttacker,
        GameError::NotTurnDefender,
        GameError::NotTurnAttacker,
        GameError::PlayerNotSeated,
        GameError::NotInLobby,
        GameError::NotLobbyCreator,
    ];
    let invalid_move = [
        GameError::CardNotInHand,
        GameError::NotCurrentDefender,
        GameError::RankNotOnTable,
        GameError::AttackLimitReached,
        GameError::NotExpectedDefender,
        GameError::NothingToDefend,
        GameError::CannotBeat,
        GameError::UndefendedAttacks,
    ];
    assert!(not_found.iter().all(|e| e.kind() == ErrorKind::NotFound));
    assert!(illegal_state.iter().all(|e| e.kind() == ErrorKind::IllegalState));
    assert!(unauthorized.iter().all(|e| e.kind() == ErrorKind::Unauthorized));
    assert!(invalid_move.iter().all(|e| e.kind() == ErrorKind::InvalidMove));
    assert_eq!(not_found.len() + illegal_state.len() + unauthorized.len() + invalid_move.len(), 39);
}

#[test]
fn digests_are_those_of_the_default_hasher() {
    let mut h = DefaultHasher::new();
    h.write(&5u64.to_le_bytes());
    h.write(&2u32.to_le_bytes());
    assert_eq!(spacefool::generate_round_id(5, 2), h.finish());
    if u16::from_ne_bytes([1, 0]) == 1 {
        let mut h = DefaultHasher::new();
        5u64.hash(&mut h);
        2u32.hash(&mut h);
        assert_eq!(spacefool::generate_round_id(5, 2), h.finish());
    }
    let mut h = DefaultHasher::new();
    h.write(&u64::MAX.to_le_bytes());
    h.write(&0u32.to_le_bytes());
    assert_eq!(spacefool::generate_turn_id(u64::MAX, 0), h.finish());
    assert_eq!(spacefool::generate_round_id(5, 2), spacefool::generate_round_id(5, 2));
    assert_eq!(spacefool::generate_round_id(5, 2), spacefool::generate_turn_id(5, 2));
    assert_ne!(spacefool::generate_round_id(5, 2), spacefool::generate_round_id(5, 3));
    assert_ne!(spacefool::generate_round_id(5, 2), spacefool::generate_round_id(2, 5));
    assert_ne!(spacefool::generate_round_id(5, 2), 5);
}

#[test]
fn seeds_are_derived_from_secret_and_salt() {
    let mut h = DefaultHasher::new();
    h.write(&77u64.to_le_bytes());
    h.write(&1_000u64.to_le_bytes());
    assert_eq!(spacefool::derive_seed(77, 1_000), h.finish());
    assert_eq!(spacefool::derive_seed(77, 1_000), spacefool::derive_seed(77, 1_000));
    assert_ne!(spacefool::derive_seed(77, 1_000), spacefool::derive_seed(78, 1_000));
    assert_ne!(spacefool::derive_seed(77, 1_000), spacefool::derive_seed(77, 1_001));
    assert_ne!(spacefool::derive_seed(77, 1_000), spacefool::derive_seed(1_000, 77));
    assert_ne!(spacefool::derive_seed(77, 1_000), 77);
    assert_ne!(spacefool::derive_seed(77, 1_000), 1_000);
    let deck = create_deck(DeckSize::Standard36);
    let a = shuffle_deck(deck.clone(), spacefool::derive_seed(1, 2));
    let b = shuffle_deck(deck.clone(), spacefool::derive_seed(1, 3));
    assert_ne!(a, b);
}
