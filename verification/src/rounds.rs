//! Rounds: filling the hands up from the deck, and telling when a round is
//! over.

use crate::history::{history_kept, lemma_history_chain};
use crate::invariants::{lemma_wf_kept, same_ids, same_keys};
use crate::lookup::{
    check_game, count_deck, count_hand, find_deck_top, find_game, find_round, find_settings,
    find_user, user_active_in,
};
use crate::model::{
    active_in, deck_size, deck_top_index, first_refusal, game_index, game_refusal, hand_size,
    has_game, is_active_round_of, is_in_deck, is_in_hand, is_round, is_user, round_index,
    settings_of_lobby, user_index, well_formed, WorldView,
};
use crate::rotation::{order_from, seat_order_from};
use crate::scoring::{
    has_headroom, lemma_scored_wf, score_report, score_round, scored, scoring_refusal, ID_RESERVE,
};
use crate::seqs::{
    count, first_where, lemma_count_step, lemma_count_update, lemma_first_where,
    lemma_first_where_is, lemma_last_where,
};
use crate::types::{
    CardLocation, Context, GameError, Micros, PlayerCard, PlayerId, PlayerStatus, Resolution, Round,
    RoundStatus, User,
};
use crate::world::{copy_rows, World};
use vstd::prelude::*;

verus! {

/// The cards once player `p` has drawn the next card of the deck of game
/// `g`; the cards as they are where the deck is empty.
pub open spec fn drawn(cards: Seq<PlayerCard>, g: u64, p: PlayerId) -> Seq<PlayerCard> {
    let top = deck_top_index(cards, g);
    if 0 <= top < cards.len() {
        cards.update(
            top,
            PlayerCard { player: Some(p), location: CardLocation::Hand, ..cards[top] },
        )
    } else {
        cards
    }
}

/// The cards once player `p` has drawn `n` cards, or as many as the deck
/// had.
pub open spec fn drawn_n(cards: Seq<PlayerCard>, g: u64, p: PlayerId, n: nat) -> Seq<PlayerCard>
    decreases n,
{
    if n == 0 || deck_top_index(cards, g) < 0 {
        cards
    } else {
        drawn_n(drawn(cards, g, p), g, p, (n - 1) as nat)
    }
}

/// How many cards player `p` lacks to hold `target`.
pub open spec fn missing(cards: Seq<PlayerCard>, g: u64, p: PlayerId, target: nat) -> nat {
    if hand_size(cards, g, p) >= target {
        0
    } else {
        (target - hand_size(cards, g, p)) as nat
    }
}

/// The cards once player `p` has drawn up to `target` cards, as far as the
/// deck goes.
pub open spec fn topped_up(cards: Seq<PlayerCard>, g: u64, p: PlayerId, target: nat) -> Seq<
    PlayerCard,
> {
    drawn_n(cards, g, p, missing(cards, g, p, target))
}

/// The cards once the players of `order` have drawn up to `target` cards,
/// one after the other.
pub open spec fn refilled_in(cards: Seq<PlayerCard>, g: u64, order: Seq<PlayerId>, target: nat) -> Seq<
    PlayerCard,
>
    decreases order.len(),
{
    if order.len() == 0 {
        cards
    } else {
        topped_up(refilled_in(cards, g, order.drop_last(), target), g, order.last(), target)
    }
}

/// The cards of the tables once the hands of game `g` are filled up: the
/// active players draw in clockwise order, beginning at seat `first_seat`,
/// each up to the starting number of cards or until the deck is empty.
pub open spec fn refilled(v: WorldView, g: u64, first_seat: int) -> Seq<PlayerCard> {
    let rules = settings_of_lobby(v.settings, v.games[game_index(v.games, g)].lobby_id);
    refilled_in(v.cards, g, order_from(v.users, g, true, first_seat), rules.starting_cards as nat)
}

pub(crate) proof fn lemma_drawn_keys(cards: Seq<PlayerCard>, g: u64, p: PlayerId)
    ensures
        same_keys(cards, drawn(cards, g, p)),
{
}

pub(crate) proof fn lemma_drawn_n_keys(cards: Seq<PlayerCard>, g: u64, p: PlayerId, n: nat)
    ensures
        same_keys(cards, drawn_n(cards, g, p, n)),
    decreases n,
{
    if n == 0 || deck_top_index(cards, g) < 0 {
    } else {
        lemma_drawn_keys(cards, g, p);
        lemma_drawn_n_keys(drawn(cards, g, p), g, p, (n - 1) as nat);
    }
}

/// Filling the hands up moves cards and makes or loses none.
pub proof fn lemma_refilled_keys(cards: Seq<PlayerCard>, g: u64, order: Seq<PlayerId>, target: nat)
    ensures
        same_keys(cards, refilled_in(cards, g, order, target)),
    decreases order.len(),
{
    if order.len() > 0 {
        lemma_refilled_keys(cards, g, order.drop_last(), target);
        let before = refilled_in(cards, g, order.drop_last(), target);
        lemma_drawn_n_keys(before, g, order.last(), missing(before, g, order.last(), target));
    }
}

/// Drawing a card moves one card from the deck to the hand of the player
/// who draws, and leaves the hands of the others as they are.
pub(crate) proof fn lemma_drawn_counts(cards: Seq<PlayerCard>, g: u64, p: PlayerId, q: PlayerId)
    requires
        deck_top_index(cards, g) >= 0,
    ensures
        deck_size(drawn(cards, g, p), g) == deck_size(cards, g) - 1,
        hand_size(drawn(cards, g, p), g, p) == hand_size(cards, g, p) + 1,
        q != p ==> hand_size(drawn(cards, g, p), g, q) == hand_size(cards, g, q),
{
    lemma_last_where(cards, is_in_deck(g));
    let top = deck_top_index(cards, g);
    let row = PlayerCard { player: Some(p), location: CardLocation::Hand, ..cards[top] };
    lemma_count_update(cards, top, row, is_in_deck(g));
    lemma_count_update(cards, top, row, is_in_hand(g, p));
    lemma_count_update(cards, top, row, is_in_hand(g, q));
}

/// Drawing up to `n` cards gives the player as many as the deck had, `n` at
/// most, and leaves the hands of the others as they are.
pub(crate) proof fn lemma_drawn_n_counts(cards: Seq<PlayerCard>, g: u64, p: PlayerId, n: nat, q: PlayerId)
    ensures
        deck_size(cards, g) >= n ==> hand_size(drawn_n(cards, g, p, n), g, p) == hand_size(
            cards,
            g,
            p,
        ) + n && deck_size(drawn_n(cards, g, p, n), g) == deck_size(cards, g) - n,
        deck_size(cards, g) < n ==> hand_size(drawn_n(cards, g, p, n), g, p) == hand_size(
            cards,
            g,
            p,
        ) + deck_size(cards, g) && deck_size(drawn_n(cards, g, p, n), g) == 0,
        q != p ==> hand_size(drawn_n(cards, g, p, n), g, q) == hand_size(cards, g, q),
    decreases n,
{
    lemma_last_where(cards, is_in_deck(g));
    if n == 0 || deck_top_index(cards, g) < 0 {
    } else {
        lemma_drawn_counts(cards, g, p, q);
        lemma_drawn_n_counts(drawn(cards, g, p), g, p, (n - 1) as nat, q);
    }
}

/// Once the players of `order` have filled their hands up, each of them
/// holds `target` cards at least, or the deck is empty.
pub proof fn lemma_refilled_hands(
    cards: Seq<PlayerCard>,
    g: u64,
    order: Seq<PlayerId>,
    target: nat,
    p: PlayerId,
)
    requires
        order.contains(p),
    ensures
        hand_size(refilled_in(cards, g, order, target), g, p) >= target || deck_size(
            refilled_in(cards, g, order, target),
            g,
        ) == 0,
    decreases order.len(),
{
    let before = refilled_in(cards, g, order.drop_last(), target);
    let last = order.last();
    lemma_drawn_n_counts(before, g, last, missing(before, g, last, target), p);
    if last != p {
        let i = choose|i: int| 0 <= i < order.len() && order[i] == p;
        assert(order.drop_last()[i] == p);
        lemma_refilled_hands(cards, g, order.drop_last(), target, p);
    }
}

/// Filling the hands up takes no card from a hand and gives no hand more
/// than it lacks: every hand is as large as it was at least, and as large
/// as it was or as the target at most; and the deck has not grown.
pub proof fn lemma_refilled_bounds(
    cards: Seq<PlayerCard>,
    g: u64,
    order: Seq<PlayerId>,
    target: nat,
    p: PlayerId,
)
    ensures
        hand_size(cards, g, p) <= hand_size(refilled_in(cards, g, order, target), g, p),
        hand_size(refilled_in(cards, g, order, target), g, p) <= hand_size(cards, g, p)
            || hand_size(refilled_in(cards, g, order, target), g, p) <= target,
        deck_size(refilled_in(cards, g, order, target), g) <= deck_size(cards, g),
    decreases order.len(),
{
    if order.len() > 0 {
        lemma_refilled_bounds(cards, g, order.drop_last(), target, p);
        let before = refilled_in(cards, g, order.drop_last(), target);
        let last = order.last();
        lemma_drawn_n_counts(before, g, last, missing(before, g, last, target), p);
    }
}

fn draw_up(cards: &mut Vec<PlayerCard>, g: u64, p: PlayerId, target: u8)
    ensures
        final(cards)@ == topped_up(old(cards)@, g, p, target as nat),
{
    let hand = count_hand(cards, g, p);
    let need: usize = if hand >= target as usize {
        0
    } else {
        target as usize - hand
    };
    let ghost start = cards@;
    let mut n: usize = 0;
    while n < need
        invariant
            n <= need,
            drawn_n(cards@, g, p, (need - n) as nat) == drawn_n(start, g, p, need as nat),
        ensures
            cards@ == drawn_n(start, g, p, need as nat),
        decreases need - n,
    {
        match find_deck_top(cards, g) {
            Some(top) => {
                let row = cards[top];
                cards.set(top, PlayerCard { player: Some(p), location: CardLocation::Hand, ..row });
            },
            None => {
                break ;
            },
        }
        n = n + 1;
    }
}

/// Fills the hands of game `g` up from the deck, beginning at seat `start`.
pub(crate) fn refill_from(world: &mut World, gi: usize, start: u16)
    requires
        gi < old(world)@.games.len(),
        gi as int == game_index(old(world)@.games, old(world)@.games[gi as int].id),
        start <= 256,
    ensures
        final(world)@ == (WorldView {
            cards: refilled(old(world)@, old(world)@.games[gi as int].id, start as int),
            ..old(world)@
        }),
{
    let game = world.games()[gi];
    let g = game.id;
    let rules = find_settings(world.settings(), game.lobby_id);
    let order = seat_order_from(world.users(), g, true, start);
    let ghost before = world@.cards;
    let mut cards = copy_rows(world.cards());
    let mut i: usize = 0;
    assert(order@.take(0) =~= Seq::<PlayerId>::empty());
    while i < order.len()
        invariant
            i <= order@.len(),
            cards@ == refilled_in(before, g, order@.take(i as int), rules.starting_cards as nat),
        decreases order@.len() - i,
    {
        assert(order@.take(i + 1).drop_last() =~= order@.take(i as int));
        draw_up(&mut cards, g, order[i], rules.starting_cards);
        i = i + 1;
    }
    assert(order@.take(i as int) =~= order@);
    world.set_cards(cards);
}

/// Why the filling of the hands is refused, if it is.
pub open spec fn refill_refusal(v: WorldView, g: u64) -> Option<GameError> {
    if !has_game(v.games, g) {
        Some(GameError::GameNotFound)
    } else {
        None
    }
}

/// Fills the hands of a game up from its deck (see [`refilled`]). The player
/// who attacks next sits at `first_seat` and draws first. A hand stays short
/// where the deck runs out.
pub fn refill_hands(world: &mut World, game_id: u64, first_seat: u8) -> (result: Result<
    (),
    GameError,
>)
    requires
        old(world).wf(),
    ensures
        final(world).wf(),
        history_kept(old(world)@, final(world)@),
        match result {
            Ok(()) => refill_refusal(old(world)@, game_id) is None && final(world)@ == (WorldView {
                cards: refilled(old(world)@, game_id, first_seat as int),
                ..old(world)@
            }),
            Err(e) => refill_refusal(old(world)@, game_id) == Some(e) && final(world)@ == old(
                world,
            )@,
        },
{
    let gi = find_game(world.games(), game_id);
    if gi >= world.games().len() {
        return Err(GameError::GameNotFound);
    }
    proof {
        lemma_refilled_wf(world@, game_id, first_seat as int);
    }
    refill_from(world, gi, first_seat as u16);
    Ok(())
}

pub(crate) proof fn lemma_refilled_wf(v: WorldView, g: u64, first_seat: int)
    requires
        well_formed(v),
    ensures
        well_formed(WorldView { cards: refilled(v, g, first_seat), ..v }),
{
    let rules = settings_of_lobby(v.settings, v.games[game_index(v.games, g)].lobby_id);
    lemma_refilled_keys(
        v.cards,
        g,
        order_from(v.users, g, true, first_seat),
        rules.starting_cards as nat,
    );
    lemma_wf_kept(v, WorldView { cards: refilled(v, g, first_seat), ..v });
}

// ---- the end of a round -----------------------------------------------------

/// The user is active in game `g` and holds cards.
pub open spec fn holds_cards(u: User, cards: Seq<PlayerCard>, g: u64) -> bool {
    active_in(u, g) && hand_size(cards, g, u.identity) > 0
}

pub open spec fn is_holder(cards: Seq<PlayerCard>, g: u64) -> spec_fn(User) -> bool {
    |u: User| holds_cards(u, cards, g)
}

/// The user is active in game `g`, holds no card, and can draw none.
pub open spec fn is_out(u: User, cards: Seq<PlayerCard>, g: u64) -> bool {
    active_in(u, g) && hand_size(cards, g, u.identity) == 0 && deck_size(cards, g) == 0
}

/// The users once those who are out of cards in game `g` have finished.
pub open spec fn hands_checked(users: Seq<User>, cards: Seq<PlayerCard>, g: u64) -> Seq<User> {
    users.map_values(
        |u: User|
            if is_out(u, cards, g) {
                User { player_status: Some(PlayerStatus::Finished), ..u }
            } else {
                u
            },
    )
}

/// The round of game `g` is over: at most one active player holds cards.
pub open spec fn round_is_over(v: WorldView, g: u64) -> bool {
    count(v.users, is_holder(v.cards, g)) <= 1
}

/// The loser of the round of game `g` that is over: the one player who still
/// holds cards, or nobody.
pub open spec fn round_loser(v: WorldView, g: u64) -> Option<PlayerId> {
    let i = first_where(v.users, is_holder(v.cards, g));
    if i < v.users.len() {
        Some(v.users[i].identity)
    } else {
        None
    }
}

/// The tables once the hands of game `g` are looked at: who is out of cards
/// has finished, and where the round is over, the round `round_id` is closed
/// at `now` with its loser.
pub open spec fn round_settled(v: WorldView, g: u64, round_id: u64, now: Micros) -> WorldView {
    let ri = round_index(v.rounds, round_id);
    WorldView {
        users: hands_checked(v.users, v.cards, g),
        rounds: if round_is_over(v, g) && ri < v.rounds.len() {
            v.rounds.update(
                ri,
                Round {
                    status: RoundStatus::Finished,
                    loser: round_loser(v, g),
                    finished_at: Some(now),
                    ..v.rounds[ri]
                },
            )
        } else {
            v.rounds
        },
        ..v
    }
}

/// The tables once the end of the round has been looked for: settled, and
/// scored where the round is over.
pub open spec fn round_checked(v: WorldView, g: u64, round_id: u64, now: Micros, seed: u64) -> WorldView {
    let settled = round_settled(v, g, round_id, now);
    if round_is_over(v, g) {
        scored(settled, g, round_loser(v, g), now, seed)
    } else {
        settled
    }
}

/// What the look for the end of the round reports: nothing where the round
/// goes on.
pub open spec fn round_report(v: WorldView, g: u64, round_id: u64, now: Micros) -> Option<
    Resolution,
> {
    if round_is_over(v, g) {
        Some(score_report(round_settled(v, g, round_id, now), g, round_loser(v, g)))
    } else {
        None
    }
}

/// Why round `round_id` cannot be closed as a round of game `g`, if so: it
/// is missing, belongs to another game, or is closed already.
pub open spec fn closing_refusal(rounds: Seq<Round>, g: u64, round_id: u64) -> Option<GameError> {
    let ri = round_index(rounds, round_id);
    if ri >= rounds.len() || rounds[ri].game_id != g {
        Some(GameError::RoundNotFound)
    } else if rounds[ri].status != RoundStatus::Active {
        Some(GameError::RoundNotActive)
    } else {
        None
    }
}

/// Why the look for the end of the round is refused, if it is.
pub open spec fn round_check_refusal(v: WorldView, g: u64, round_id: u64, now: Micros) -> Option<
    GameError,
> {
    first_refusal(
        game_refusal(v, g),
        if !round_is_over(v, g) {
            None
        } else {
            first_refusal(
                closing_refusal(v.rounds, g, round_id),
                scoring_refusal(round_settled(v, g, round_id, now), g, round_loser(v, g)),
            )
        },
    )
}

/// Looking at the hands changes no identity, so a user is found where they
/// were found before.
pub(crate) proof fn lemma_hands_checked_index(users: Seq<User>, cards: Seq<PlayerCard>, g: u64, p: PlayerId)
    ensures
        user_index(hands_checked(users, cards, g), p) == user_index(users, p),
        hands_checked(users, cards, g).len() == users.len(),
{
    let after = hands_checked(users, cards, g);
    lemma_first_where(users, is_user(p));
    let k = first_where(users, is_user(p));
    assert forall|j: int| 0 <= j < k implies !is_user(p)(after[j]) by {
        assert(!is_user(p)(users[j]));
    }
    if k < users.len() {
        assert(is_user(p)(users[k]));
    }
    lemma_first_where_is(after, is_user(p), k);
}

/// The loser of a round is a user of the tables.
pub(crate) proof fn lemma_round_loser_known(v: WorldView, g: u64)
    ensures
        round_loser(v, g) is Some ==> user_index(v.users, round_loser(v, g)->0) < v.users.len(),
{
    lemma_first_where(v.users, is_holder(v.cards, g));
    let i = first_where(v.users, is_holder(v.cards, g));
    if i < v.users.len() {
        let p = v.users[i].identity;
        lemma_first_where(v.users, is_user(p));
        if user_index(v.users, p) >= v.users.len() {
            assert(!is_user(p)(v.users[i]));
        }
    }
}

/// Where the round is the one that the game plays and the counters leave
/// room, a settled round that is over can be scored.
pub(crate) proof fn lemma_settled_can_be_scored(v: WorldView, g: u64, round_id: u64, now: Micros)
    requires
        well_formed(v),
        game_refusal(v, g) is None,
        has_headroom(v, g),
        closing_refusal(v.rounds, g, round_id) is None,
    ensures
        round_is_over(v, g) ==> scoring_refusal(
            round_settled(v, g, round_id, now),
            g,
            round_loser(v, g),
        ) is None,
        round_check_refusal(v, g, round_id, now) is None,
{
    lemma_round_loser_known(v, g);
    if round_loser(v, g) is Some {
        lemma_hands_checked_index(v.users, v.cards, g, round_loser(v, g)->0);
    }
    if round_is_over(v, g) {
        let ri = round_index(v.rounds, round_id);
        let settled = round_settled(v, g, round_id, now);
        lemma_first_where(v.rounds, is_round(round_id));
        lemma_count_update(v.rounds, ri, settled.rounds[ri], is_active_round_of(g));
        assert(count(v.rounds, is_active_round_of(g)) <= 1);
        assert(settled.rounds =~= v.rounds.update(ri, settled.rounds[ri]));
    }
}

pub(crate) proof fn lemma_round_checked_wf(v: WorldView, g: u64, round_id: u64, now: Micros, seed: u64)
    requires
        well_formed(v),
        round_check_refusal(v, g, round_id, now) is None,
    ensures
        well_formed(round_checked(v, g, round_id, now, seed)),
        history_kept(v, round_checked(v, g, round_id, now, seed)),
        same_ids(v.games, round_checked(v, g, round_id, now, seed).games),
        round_checked(v, g, round_id, now, seed).next_id >= v.next_id,
{
    let settled = round_settled(v, g, round_id, now);
    lemma_first_where(v.rounds, is_round(round_id));
    lemma_wf_kept(v, settled);
    if round_is_over(v, g) {
        lemma_scored_wf(settled, g, round_loser(v, g), now, seed);
        let after = scored(settled, g, round_loser(v, g), now, seed);
        lemma_history_chain(v, settled, after);
        assert forall|i: int| 0 <= i < v.games.len() implies (#[trigger] after.games[i]).id
            == v.games[i].id by {
            assert(settled.games[i].id == v.games[i].id);
        }
    }
}

fn check_hands(users: &Vec<User>, cards: &Vec<PlayerCard>, g: u64) -> (out: (
    Vec<User>,
    usize,
    Option<PlayerId>,
))
    ensures
        out.0@ == hands_checked(users@, cards@, g),
        out.1 == count(users@, is_holder(cards@, g)),
        out.2 == round_loser(WorldView { users: users@, cards: cards@, ..arbitrary() }, g),
{
    let deck_empty = count_deck(cards, g) == 0;
    let mut checked: Vec<User> = Vec::new();
    let mut holders: usize = 0;
    let mut first: Option<PlayerId> = None;
    let mut i: usize = 0;
    while i < users.len()
        invariant
            i <= users@.len(),
            deck_empty == (deck_size(cards@, g) == 0),
            checked@.len() == i,
            forall|j: int| 0 <= j < i ==> checked@[j] == hands_checked(users@, cards@, g)[j],
            holders <= i,
            holders == count(users@.take(i as int), is_holder(cards@, g)),
            first is None ==> forall|j: int| 0 <= j < i ==> !is_holder(cards@, g)(users@[j]),
            first is Some ==> first_where(users@, is_holder(cards@, g)) < i && first
                == Some(users@[first_where(users@, is_holder(cards@, g))].identity),
        decreases users@.len() - i,
    {
        proof {
            lemma_count_step(users@, i as int, is_holder(cards@, g));
        }
        let u = users[i];
        if user_active_in(&u, g) {
            let hand = count_hand(cards, g, u.identity);
            if hand > 0 {
                holders = holders + 1;
                if first.is_none() {
                    proof {
                        lemma_first_where_is(users@, is_holder(cards@, g), i as int);
                    }
                    first = Some(u.identity);
                }
                checked.push(u);
            } else if deck_empty {
                checked.push(User { player_status: Some(PlayerStatus::Finished), ..u });
            } else {
                checked.push(u);
            }
        } else {
            checked.push(u);
        }
        i = i + 1;
    }
    proof {
        assert(users@.take(i as int) =~= users@);
        assert(checked@ =~= hands_checked(users@, cards@, g));
        if first is None {
            lemma_first_where_is(users@, is_holder(cards@, g), users@.len() as int);
        }
    }
    (checked, holders, first)
}

/// Looks for the end of the round `ri` of game `gi`, by place.
pub(crate) fn settle_round(world: &mut World, gi: usize, ri: usize, now: Micros, seed: u64) -> (report:
    Option<Resolution>)
    requires
        gi < old(world)@.games.len(),
        gi as int == game_index(old(world)@.games, old(world)@.games[gi as int].id),
        ri < old(world)@.rounds.len(),
        ri as int == round_index(old(world)@.rounds, old(world)@.rounds[ri as int].id),
        round_check_refusal(
            old(world)@,
            old(world)@.games[gi as int].id,
            old(world)@.rounds[ri as int].id,
            now,
        ) is None,
    ensures
        final(world)@ == round_checked(
            old(world)@,
            old(world)@.games[gi as int].id,
            old(world)@.rounds[ri as int].id,
            now,
            seed,
        ),
        report == round_report(
            old(world)@,
            old(world)@.games[gi as int].id,
            old(world)@.rounds[ri as int].id,
            now,
        ),
{
    let g = world.games()[gi].id;
    let (checked, holders, loser) = check_hands(world.users(), world.cards(), g);
    assert(loser == round_loser(world@, g));
    world.set_users(checked);
    if holders <= 1 {
        let round = world.rounds()[ri];
        world.set_round(
            ri,
            Round { status: RoundStatus::Finished, loser, finished_at: Some(now), ..round },
        );
        Some(score_round(world, gi, loser, now, seed))
    } else {
        None
    }
}

/// Looks whether the round of a game is over: marks the players who are out
/// of cards as finished and, where at most one player still holds cards,
/// closes the round with that player as its loser and scores it. Reports
/// nothing where the round goes on.
pub fn check_round_end(world: &mut World, ctx: &Context, game_id: u64, round_id: u64) -> (result:
    Result<Option<Resolution>, GameError>)
    requires
        old(world).wf(),
    ensures
        final(world).wf(),
        history_kept(old(world)@, final(world)@),
        match result {
            Ok(report) => round_check_refusal(old(world)@, game_id, round_id, ctx.timestamp)
                is None && final(world)@ == round_checked(
                old(world)@,
                game_id,
                round_id,
                ctx.timestamp,
                ctx.seed,
            ) && report == round_report(old(world)@, game_id, round_id, ctx.timestamp),
            Err(e) => round_check_refusal(old(world)@, game_id, round_id, ctx.timestamp) == Some(e)
                && final(world)@ == old(world)@,
        },
{
    let gi = match check_game(world.games(), game_id) {
        Ok(gi) => gi,
        Err(e) => {
            return Err(e);
        },
    };
    let (checked, holders, loser) = check_hands(world.users(), world.cards(), game_id);
    assert(loser == round_loser(world@, game_id));
    let ri = find_round(world.rounds(), round_id);
    if holders > 1 {
        world.set_users(checked);
        proof {
            lemma_round_checked_wf(old(world)@, game_id, round_id, ctx.timestamp, ctx.seed);
        }
        return Ok(None);
    }
    if ri >= world.rounds().len() || world.rounds()[ri].game_id != game_id {
        return Err(GameError::RoundNotFound);
    }
    if world.rounds()[ri].status != RoundStatus::Active {
        return Err(GameError::RoundNotActive);
    }
    let game = world.games()[gi];
    let rules = find_settings(world.settings(), game.lobby_id);
    let mut over = !rules.multi_round_mode;
    if rules.multi_round_mode {
        match loser {
            Some(l) => {
                proof {
                    lemma_round_loser_known(world@, game_id);
                    lemma_hands_checked_index(world@.users, world@.cards, game_id, l);
                }
                let li = find_user(world.users(), l);
                let before: u8 = match world.users()[li].total_points {
                    Some(p) => p,
                    None => 0,
                };
                let after: u8 = if before > 255 - crate::scoring::ROUND_PENALTY {
                    255
                } else {
                    before + crate::scoring::ROUND_PENALTY
                };
                over = after >= rules.max_points;
            },
            None => {},
        }
    }
    proof {
        lemma_round_loser_known(world@, game_id);
        if loser is Some {
            lemma_hands_checked_index(world@.users, world@.cards, game_id, loser->0);
        }
    }
    if !over {
        proof {
            let settled = round_settled(world@, game_id, round_id, ctx.timestamp);
            lemma_first_where(world@.rounds, is_round(round_id));
            lemma_count_update(
                world@.rounds,
                ri as int,
                settled.rounds[ri as int],
                is_active_round_of(game_id),
            );
            assert(settled.rounds =~= world@.rounds.update(ri as int, settled.rounds[ri as int]));
            assert(count(world@.rounds, is_active_round_of(game_id)) <= 1);
        }
        if world.next_id() > u64::MAX - ID_RESERVE || game.current_round == u32::MAX {
            return Err(GameError::OutOfIdentifiers);
        }
    }
    proof {
        lemma_round_checked_wf(world@, game_id, round_id, ctx.timestamp, ctx.seed);
    }
    let report = settle_round(world, gi, ri, ctx.timestamp, ctx.seed);
    Ok(report)
}

} // verus!
