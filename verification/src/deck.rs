//! The deck: building it and shuffling it.

use crate::cards::{Card, DeckSize, Rank, Suit};
use crate::model::{ascending, card_ids, is_card_of};
use crate::seqs::{
    count, is_value, lemma_count_is_multiplicity, lemma_count_matched, lemma_count_one,
    lemma_count_zero,
};
use crate::types::{CardLocation, PlayerCard, PlayerId};
use vstd::prelude::*;

verus! {

/// The suit that stands at place `i` among the suits.
pub open spec fn suit_at(i: int) -> Suit {
    if i == 0 {
        Suit::Hearts
    } else if i == 1 {
        Suit::Diamonds
    } else if i == 2 {
        Suit::Clubs
    } else {
        Suit::Spades
    }
}

/// The rank that stands at place `i` among the ranks.
pub open spec fn rank_at(i: int) -> Rank {
    if i == 0 {
        Rank::Six
    } else if i == 1 {
        Rank::Seven
    } else if i == 2 {
        Rank::Eight
    } else if i == 3 {
        Rank::Nine
    } else if i == 4 {
        Rank::Ten
    } else if i == 5 {
        Rank::Jack
    } else if i == 6 {
        Rank::Queen
    } else if i == 7 {
        Rank::King
    } else {
        Rank::Ace
    }
}

/// The deck as it is built: suit by suit, each from six to ace.
pub open spec fn built_deck() -> Seq<Card> {
    Seq::new(36, |i: int| Card { suit: suit_at(i / 9), rank: rank_at(i % 9) })
}

/// The place of a card in the built deck.
pub open spec fn deck_place(card: Card) -> int {
    let s: int = match card.suit {
        Suit::Hearts => 0,
        Suit::Diamonds => 1,
        Suit::Clubs => 2,
        Suit::Spades => 3,
    };
    s * 9 + (card.rank.spec_value() - 6)
}

/// Every card has one place in the built deck, and every place holds the card
/// that names it: the built deck holds each card exactly once.
pub proof fn lemma_built_deck_places(card: Card)
    ensures
        0 <= deck_place(card) < 36,
        built_deck().len() == 36,
        built_deck()[deck_place(card)] == card,
        forall|i: int| 0 <= i < 36 && built_deck()[i] == card ==> i == deck_place(card),
{
    let p = deck_place(card);
    assert(p / 9 * 9 + p % 9 == p);
    assert forall|i: int| 0 <= i < 36 && built_deck()[i] == card implies i == p by {
        assert(i / 9 * 9 + i % 9 == i);
    }
}

fn suit_from_place(i: usize) -> (suit: Suit)
    requires
        i < 4,
    ensures
        suit == suit_at(i as int),
{
    if i == 0 {
        Suit::Hearts
    } else if i == 1 {
        Suit::Diamonds
    } else if i == 2 {
        Suit::Clubs
    } else {
        Suit::Spades
    }
}

fn rank_from_place(i: usize) -> (rank: Rank)
    requires
        i < 9,
    ensures
        rank == rank_at(i as int),
{
    if i == 0 {
        Rank::Six
    } else if i == 1 {
        Rank::Seven
    } else if i == 2 {
        Rank::Eight
    } else if i == 3 {
        Rank::Nine
    } else if i == 4 {
        Rank::Ten
    } else if i == 5 {
        Rank::Jack
    } else if i == 6 {
        Rank::Queen
    } else if i == 7 {
        Rank::King
    } else {
        Rank::Ace
    }
}

/// Builds the deck. Both sizes give the thirty-six cards from six to ace: the
/// full deck is a declared option that has no ranks of its own yet.
pub fn create_deck(deck_size: DeckSize) -> (deck: Vec<Card>)
    ensures
        deck@ == built_deck(),
{
    let mut deck: Vec<Card> = Vec::new();
    let mut s: usize = 0;
    while s < 4
        invariant
            s <= 4,
            deck@.len() == s * 9,
            forall|i: int| 0 <= i < deck@.len() ==> deck@[i] == built_deck()[i],
        decreases 4 - s,
    {
        let suit = suit_from_place(s);
        let mut r: usize = 0;
        while r < 9
            invariant
                s < 4,
                r <= 9,
                suit == suit_at(s as int),
                deck@.len() == s * 9 + r,
                forall|i: int| 0 <= i < deck@.len() ==> deck@[i] == built_deck()[i],
            decreases 9 - r,
        {
            let rank = rank_from_place(r);
            proof {
                let k = (s * 9 + r) as int;
                assert(k / 9 == s && k % 9 == r);
            }
            deck.push(Card { suit, rank });
            r = r + 1;
        }
        s = s + 1;
    }
    assert(deck@ =~= built_deck());
    deck
}

/// The sequence `s` with the items at `i` and `j` exchanged.
pub open spec fn exchanged<T>(s: Seq<T>, i: int, j: int) -> Seq<T> {
    s.update(i, s[j]).update(j, s[i])
}

/// The place that the shuffle exchanges place `i` with, under `seed`.
pub open spec fn shuffle_partner(seed: u64, i: int) -> int {
    (seed.wrapping_mul((i + 1) as u64) as int) % (i + 1)
}

/// The deck after the shuffle has worked from the last place down to place `k`.
pub open spec fn shuffled_down_to(deck: Seq<Card>, seed: u64, k: int) -> Seq<Card>
    decreases deck.len() - k,
{
    if k < 1 || k >= deck.len() {
        deck
    } else {
        exchanged(shuffled_down_to(deck, seed, k + 1), k, shuffle_partner(seed, k))
    }
}

/// The deck after the whole shuffle under `seed`.
pub open spec fn shuffled(deck: Seq<Card>, seed: u64) -> Seq<Card> {
    shuffled_down_to(deck, seed, 1)
}

/// Exchanging two items keeps the length and the multiset of a sequence.
pub proof fn lemma_exchanged_permutes<T>(s: Seq<T>, i: int, j: int)
    requires
        0 <= i < s.len(),
        0 <= j < s.len(),
    ensures
        exchanged(s, i, j).len() == s.len(),
        exchanged(s, i, j).to_multiset() == s.to_multiset(),
{
    let a = s.update(i, s[j]);
    vstd::seq_lib::to_multiset_update(s, i, s[j]);
    vstd::seq_lib::to_multiset_update(a, j, s[i]);
    s.to_multiset_ensures();
    assert(s.contains(s[i]));
    assert(s.contains(s[j]));
    assert(exchanged(s, i, j).to_multiset() =~= s.to_multiset());
}

/// The shuffle is a permutation: at every stage the deck has the cards it
/// began with, each as often as before.
pub proof fn lemma_shuffle_permutes(deck: Seq<Card>, seed: u64, k: int)
    ensures
        shuffled_down_to(deck, seed, k).len() == deck.len(),
        shuffled_down_to(deck, seed, k).to_multiset() == deck.to_multiset(),
    decreases deck.len() - k,
{
    if k < 1 || k >= deck.len() {
    } else {
        lemma_shuffle_permutes(deck, seed, k + 1);
        let prev = shuffled_down_to(deck, seed, k + 1);
        let j = shuffle_partner(seed, k);
        assert(0 <= j <= k);
        lemma_exchanged_permutes(prev, k, j);
    }
}

/// Shuffles a deck. The order that comes out is fixed by `seed` alone: from the
/// last place down to the second, each place is exchanged with a place at or
/// below it that the seed picks.
pub fn shuffle_deck(deck: Vec<Card>, seed: u64) -> (out: Vec<Card>)
    ensures
        out@ == shuffled(deck@, seed),
        out@.len() == deck@.len(),
        out@.to_multiset() == deck@.to_multiset(),
{
    let ghost start = deck@;
    let mut deck = deck;
    let mut i: usize = deck.len();
    proof {
        lemma_shuffle_permutes(start, seed, 1);
    }
    if i == 0 {
        return deck;
    }
    i = i - 1;
    while i >= 1
        invariant
            i < start.len(),
            deck@.len() == start.len(),
            deck@ == shuffled_down_to(start, seed, i + 1),
        decreases i,
    {
        assert(i < deck.len());
        let bound: u64 = i as u64 + 1;
        let j: usize = (seed.wrapping_mul(bound) % bound) as usize;
        let a = deck[i];
        let b = deck[j];
        deck.set(i, b);
        deck.set(j, a);
        assert(deck@ =~= shuffled_down_to(start, seed, i as int));
        i = i - 1;
    }
    deck
}

/// The built deck, shuffled under whatever seed, holds every card once.
pub proof fn lemma_shuffled_deck_complete(seed: u64, card: Card)
    ensures
        shuffled(built_deck(), seed).len() == 36,
        count(shuffled(built_deck(), seed), is_value(card)) == 1,
        shuffled(built_deck(), seed).to_multiset() == built_deck().to_multiset(),
{
    let deck = built_deck();
    lemma_shuffle_permutes(deck, seed, 1);
    lemma_count_is_multiplicity(shuffled(deck, seed), card);
    lemma_count_is_multiplicity(deck, card);
    lemma_built_deck_places(card);
    assert forall|i: int| 0 <= i < deck.len() implies (is_value(card)(deck[i]) <==> i == deck_place(
        card,
    )) by {}
    lemma_count_one(deck, is_value(card), deck_place(card));
}

/// The row that the deal makes of the card at place `i` of the deck.
///
/// The first cards go to the hands, `starting_cards` to each seat in turn, as
/// far as the seats reach. The rest form the deck. Where
/// `trump_card_to_player` is set, the last card of the deck goes to the hand
/// of the last seat instead.
pub open spec fn dealt_row(
    deck: Seq<Card>,
    game_id: u64,
    seats: Seq<PlayerId>,
    starting_cards: int,
    trump_card_to_player: bool,
    first_id: int,
    i: int,
) -> PlayerCard {
    let to_hand = starting_cards > 0 && i / starting_cards < seats.len();
    let trump_moves = trump_card_to_player && i == deck.len() - 1 && seats.len() > 0;
    PlayerCard {
        id: (first_id + i) as u64,
        game_id,
        player: if to_hand {
            Some(seats[i / starting_cards])
        } else if trump_moves {
            Some(seats.last())
        } else {
            None
        },
        card: deck[i],
        location: if to_hand || trump_moves {
            CardLocation::Hand
        } else {
            CardLocation::Deck
        },
    }
}

/// The rows that the deal makes of a deck, in the order of the deck.
pub open spec fn dealt(
    deck: Seq<Card>,
    game_id: u64,
    seats: Seq<PlayerId>,
    starting_cards: int,
    trump_card_to_player: bool,
    first_id: int,
) -> Seq<PlayerCard> {
    Seq::new(
        deck.len(),
        |i: int|
            dealt_row(deck, game_id, seats, starting_cards, trump_card_to_player, first_id, i),
    )
}

/// The deal gives every card of the deck one row in its game, and no row in
/// another.
pub proof fn lemma_dealt_cards(
    deck: Seq<Card>,
    game_id: u64,
    seats: Seq<PlayerId>,
    starting_cards: int,
    trump_card_to_player: bool,
    first_id: int,
    g: u64,
    card: Card,
)
    ensures
        count(
            dealt(deck, game_id, seats, starting_cards, trump_card_to_player, first_id),
            is_card_of(g, card),
        ) == if g == game_id {
            count(deck, is_value(card))
        } else {
            0
        },
{
    let rows = dealt(deck, game_id, seats, starting_cards, trump_card_to_player, first_id);
    if g == game_id {
        lemma_count_matched(rows, deck, is_card_of(g, card), is_value(card));
    } else {
        lemma_count_zero(rows, is_card_of(g, card));
    }
}

proof fn lemma_seat_of_place(i: int, k: int, j: int)
    requires
        0 <= i,
        0 < k,
        0 <= j,
    ensures
        i / k == j <==> j * k <= i < j * k + k,
        i / k >= j <==> i >= j * k,
{
    vstd::arithmetic::div_mod::lemma_fundamental_div_mod(i, k);
    vstd::arithmetic::div_mod::lemma_mod_bound(i, k);
    assert(i / k == j <==> j * k <= i < j * k + k) by (nonlinear_arith)
        requires
            i == k * (i / k) + i % k,
            0 <= i % k < k,
            0 < k,
    ;
    assert(i / k >= j <==> i >= j * k) by (nonlinear_arith)
        requires
            i == k * (i / k) + i % k,
            0 <= i % k < k,
            0 < k,
    ;
}

/// The trump card is moved by the deal: it is told to, and cards are left
/// over once the hands are dealt.
pub open spec fn trump_is_moved(
    deck: Seq<Card>,
    seats: Seq<PlayerId>,
    starting_cards: int,
    trump_card_to_player: bool,
) -> bool {
    trump_card_to_player && seats.len() > 0 && seats.len() * starting_cards < deck.len()
}

/// What a deal gives each seat: where the deck has cards enough for every
/// hand and no player sits twice, every seat holds the starting number of
/// cards, and the last seat one more where the trump card is moved to it.
pub proof fn lemma_dealt_hands(
    deck: Seq<Card>,
    game_id: u64,
    seats: Seq<PlayerId>,
    starting_cards: int,
    trump_card_to_player: bool,
    first_id: int,
    j: int,
)
    requires
        seats.no_duplicates(),
        0 <= starting_cards,
        0 <= j < seats.len(),
        seats.len() * starting_cards <= deck.len(),
    ensures
        crate::model::hand_size(
            dealt(deck, game_id, seats, starting_cards, trump_card_to_player, first_id),
            game_id,
            seats[j],
        ) == starting_cards + if j == seats.len() - 1 && trump_is_moved(
            deck,
            seats,
            starting_cards,
            trump_card_to_player,
        ) {
            1int
        } else {
            0int
        },
{
    let rows = dealt(deck, game_id, seats, starting_cards, trump_card_to_player, first_id);
    let k = starting_cards;
    let n = seats.len() as int;
    let len = deck.len() as int;
    let f = crate::model::is_in_hand(game_id, seats[j]);
    let extra = j == n - 1 && trump_is_moved(deck, seats, k, trump_card_to_player);
    assert(j * k + k <= n * k) by (nonlinear_arith)
        requires
            0 <= j < n,
            0 <= k,
    ;
    assert(j * k >= 0) by (nonlinear_arith)
        requires
            0 <= j,
            0 <= k,
    ;
    assert forall|i: int| 0 <= i < len implies (f(rows[i]) <==> (j * k <= i < j * k + k) || (extra
        && i == len - 1)) by {
        if k > 0 {
            lemma_seat_of_place(i, k, j);
            lemma_seat_of_place(i, k, n);
            if i / k < n {
                assert(seats[i / k] == seats[j] <==> i / k == j);
            }
        }
    }
    if len > 0 {
        let front = rows.drop_last();
        assert(rows =~= front.push(rows.last()));
        crate::seqs::lemma_count_push(front, rows.last(), f);
        if extra {
            assert forall|i: int| 0 <= i < front.len() implies (f(front[i]) <==> j * k <= i < j * k
                + k) by {
                assert(front[i] == rows[i]);
            }
            crate::seqs::lemma_count_stretch(front, f, j * k, j * k + k);
        } else if j * k + k <= len - 1 {
            assert forall|i: int| 0 <= i < front.len() implies (f(front[i]) <==> j * k <= i < j * k
                + k) by {
                assert(front[i] == rows[i]);
            }
            crate::seqs::lemma_count_stretch(front, f, j * k, j * k + k);
        } else {
            assert forall|i: int| 0 <= i < rows.len() implies (f(rows[i]) <==> j * k <= i < j * k
                + k) by {}
            crate::seqs::lemma_count_stretch(rows, f, j * k, j * k + k);
        }
    } else {
        crate::seqs::lemma_count_stretch(rows, f, 0, 0);
    }
}

/// What a deal leaves in the deck: all but the cards of the hands, and but
/// the trump card where it is moved. No card of a deal lies on the table or
/// is discarded.
pub proof fn lemma_dealt_deck(
    deck: Seq<Card>,
    game_id: u64,
    seats: Seq<PlayerId>,
    starting_cards: int,
    trump_card_to_player: bool,
    first_id: int,
)
    requires
        0 <= starting_cards,
        seats.len() * starting_cards <= deck.len(),
    ensures
        crate::model::deck_size(
            dealt(deck, game_id, seats, starting_cards, trump_card_to_player, first_id),
            game_id,
        ) == deck.len() - seats.len() * starting_cards - if trump_is_moved(
            deck,
            seats,
            starting_cards,
            trump_card_to_player,
        ) {
            1int
        } else {
            0int
        },
        count(
            dealt(deck, game_id, seats, starting_cards, trump_card_to_player, first_id),
            crate::model::is_on_table(game_id),
        ) == 0,
        forall|i: int|
            0 <= i < deck.len() ==> (#[trigger] dealt(
                deck,
                game_id,
                seats,
                starting_cards,
                trump_card_to_player,
                first_id,
            )[i]).location != CardLocation::Discarded,
{
    let rows = dealt(deck, game_id, seats, starting_cards, trump_card_to_player, first_id);
    let k = starting_cards;
    let n = seats.len() as int;
    let len = deck.len() as int;
    let f = crate::model::is_in_deck(game_id);
    let moved = trump_is_moved(deck, seats, k, trump_card_to_player);
    let top = if moved {
        len - 1
    } else {
        len
    };
    assert(n * k >= 0) by (nonlinear_arith)
        requires
            0 <= n,
            0 <= k,
    ;
    assert forall|i: int| 0 <= i < len implies (f(rows[i]) <==> n * k <= i < top) by {
        if k > 0 {
            lemma_seat_of_place(i, k, n);
        }
    }
    crate::seqs::lemma_count_stretch(rows, f, n * k, top);
    lemma_count_zero(rows, crate::model::is_on_table(game_id));
}

/// The rows of a deal are numbered from `first_id` on, one by one.
pub(crate) proof fn lemma_dealt_ids(
    deck: Seq<Card>,
    game_id: u64,
    seats: Seq<PlayerId>,
    starting_cards: int,
    trump_card_to_player: bool,
    first_id: int,
)
    requires
        0 <= first_id,
        first_id + deck.len() <= u64::MAX,
    ensures
        ascending(
            card_ids(dealt(deck, game_id, seats, starting_cards, trump_card_to_player, first_id)),
            (first_id + deck.len()) as u64,
        ),
        forall|i: int|
            0 <= i < deck.len() ==> first_id <= #[trigger] card_ids(
                dealt(deck, game_id, seats, starting_cards, trump_card_to_player, first_id),
            )[i],
{
}

/// Deals a deck: makes the row of each card, numbered from `first_id` on.
pub fn deal(
    deck: &Vec<Card>,
    game_id: u64,
    seats: &Vec<PlayerId>,
    starting_cards: u8,
    trump_card_to_player: bool,
    first_id: u64,
) -> (rows: Vec<PlayerCard>)
    requires
        first_id + deck@.len() <= u64::MAX,
    ensures
        rows@ == dealt(
            deck@,
            game_id,
            seats@,
            starting_cards as int,
            trump_card_to_player,
            first_id as int,
        ),
{
    let mut rows: Vec<PlayerCard> = Vec::new();
    let k: usize = starting_cards as usize;
    let n: usize = deck.len();
    let mut i: usize = 0;
    while i < n
        invariant
            i <= n,
            n == deck@.len(),
            k == starting_cards,
            first_id + n <= u64::MAX,
            rows@.len() == i,
            forall|j: int|
                0 <= j < i ==> rows@[j] == dealt_row(
                    deck@,
                    game_id,
                    seats@,
                    starting_cards as int,
                    trump_card_to_player,
                    first_id as int,
                    j,
                ),
        decreases n - i,
    {
        let to_hand = k > 0 && i / k < seats.len();
        let trump_moves = trump_card_to_player && i == n - 1 && seats.len() > 0;
        let player = if to_hand {
            Some(seats[i / k])
        } else if trump_moves {
            Some(seats[seats.len() - 1])
        } else {
            None
        };
        let location = if to_hand || trump_moves {
            CardLocation::Hand
        } else {
            CardLocation::Deck
        };
        rows.push(PlayerCard { id: first_id + i as u64, game_id, player, card: deck[i], location });
        i = i + 1;
    }
    assert(rows@ =~= dealt(
        deck@,
        game_id,
        seats@,
        starting_cards as int,
        trump_card_to_player,
        first_id as int,
    ));
    rows
}

} // verus!
