//! Cards: suits, ranks, and the rule by which one card beats another.

use vstd::prelude::*;

verus! {

/// The four suits.
#[derive(Debug, Clone, Copy, PartialEq, Eq, Structural, Hash)]
pub enum Suit {
    Hearts,
    Diamonds,
    Clubs,
    Spades,
}

/// The nine ranks of the short deck, from the lowest to the highest.
#[derive(Debug, Clone, Copy, PartialEq, Eq, Structural, PartialOrd, Ord, Hash)]
pub enum Rank {
    Six,
    Seven,
    Eight,
    Nine,
    Ten,
    Jack,
    Queen,
    King,
    Ace,
}

/// A playing card. Two cards are equal when suit and rank are.
#[derive(Debug, Clone, Copy, PartialEq, Eq, Structural, Hash)]
pub struct Card {
    pub suit: Suit,
    pub rank: Rank,
}

/// The deck a game is played with.
#[derive(Debug, Clone, Copy, PartialEq, Eq, Structural)]
pub enum DeckSize {
    /// Six to ace in four suits.
    Standard36,
    /// Declared for a full deck; it is dealt as the short deck.
    Extended52,
}

impl Rank {
    /// The face value of a rank: six is 6, ace is 14.
    pub open spec fn spec_value(self) -> u8 {
        match self {
            Rank::Six => 6,
            Rank::Seven => 7,
            Rank::Eight => 8,
            Rank::Nine => 9,
            Rank::Ten => 10,
            Rank::Jack => 11,
            Rank::Queen => 12,
            Rank::King => 13,
            Rank::Ace => 14,
        }
    }

    /// The face value of a rank: six is 6, ace is 14.
    #[verifier::when_used_as_spec(spec_value)]
    pub fn value(self) -> (v: u8)
        ensures
            v == self.spec_value(),
            6 <= v <= 14,
    {
        match self {
            Rank::Six => 6,
            Rank::Seven => 7,
            Rank::Eight => 8,
            Rank::Nine => 9,
            Rank::Ten => 10,
            Rank::Jack => 11,
            Rank::Queen => 12,
            Rank::King => 13,
            Rank::Ace => 14,
        }
    }
}

/// Whether `defending` beats `attacking` under the trump suit `trump`.
///
/// A trump beats every card that is no trump. Between two trumps, and between
/// two cards of one plain suit, the higher rank wins. A plain card never beats
/// a trump, nor a card of another plain suit.
pub open spec fn beats(attacking: Card, defending: Card, trump: Suit) -> bool {
    if defending.suit == trump {
        attacking.suit != trump || defending.rank.spec_value() > attacking.rank.spec_value()
    } else {
        attacking.suit != trump && defending.suit == attacking.suit
            && defending.rank.spec_value() > attacking.rank.spec_value()
    }
}

/// Decides whether a defending card beats an attacking card.
pub fn can_beat_card(attacking_card: &Card, defending_card: &Card, trump_suit: Suit) -> (legal: bool)
    ensures
        legal == beats(*attacking_card, *defending_card, trump_suit),
{
    let attack_is_trump = attacking_card.suit == trump_suit;
    let defend_is_trump = defending_card.suit == trump_suit;
    let higher = defending_card.rank.value() > attacking_card.rank.value();
    if attack_is_trump && defend_is_trump {
        higher
    } else if defend_is_trump {
        true
    } else if attack_is_trump {
        false
    } else {
        defending_card.suit == attacking_card.suit && higher
    }
}

} // verus!
