//! Turns: attacking, defending, taking the cards, passing, and what follows
//! when a turn is resolved.

use crate::cards::{beats, can_beat_card, Card};
use crate::history::{history_kept, lemma_history_chain};
use crate::invariants::{
    lemma_ascending_kept, lemma_ascending_push, lemma_cards_kept, lemma_rounds_kept,
    lemma_seats_kept, lemma_turn_added, lemma_turns_kept, lemma_users_kept, lemma_wf_kept,
};
use crate::lookup::{
    check_game, count_draws, count_pending, count_showing, count_turns, find_active_turn,
    find_current_round, find_hand_card, find_pending_draw, find_round, find_settings, find_turn,
    find_user, same_id,
};
use crate::model::{
    active_turn_index, card_ids, current_round_index, draw_ids, first_refusal, game_ids, game_index,
    game_refusal, hand_card_index, in_game, is_active_turn_of, is_draw_of, is_on_table,
    is_pending_of, is_turn_of, lobby_ids, rank_may_attack, round_ids, round_index,
    settings_of_lobby, turn_ids, turn_index, user_index, well_formed, WorldView,
};
use crate::rotation::{next_move, plan_next_move, seat_of_player, seat_or_zero};
use crate::rounds::{
    closing_refusal, lemma_refilled_wf, lemma_round_checked_wf, lemma_settled_can_be_scored,
    refill_from, refilled, round_check_refusal, round_checked, round_is_over, round_report,
    round_settled, settle_round,
};
use crate::scoring::{has_headroom, ID_RESERVE};
use crate::seqs::{count, first_where, lemma_first_where, lemma_none_found};
use crate::types::{
    CardLocation, Context, Draw, DrawStatus, GameError, GameSettings, Micros, PlayerCard, PlayerId,
    PlayerStatus, Resolution, Round, Turn, TurnStatus, User,
};
use crate::world::World;
use vstd::prelude::*;

verus! {

/// Why `p` is no player of game `g`, if so: unknown, or not of the game.
pub open spec fn member_refusal(users: Seq<User>, g: u64, p: PlayerId) -> Option<GameError> {
    let i = user_index(users, p);
    if i >= users.len() {
        Some(GameError::UserNotFound)
    } else if !in_game(users[i], g) {
        Some(GameError::NotInGame)
    } else {
        None
    }
}

/// Why `p`, a player of the game, may not act in it, if so: not active.
pub open spec fn standing_refusal(users: Seq<User>, p: PlayerId) -> Option<GameError> {
    if users[user_index(users, p)].player_status != Some(PlayerStatus::Active) {
        Some(GameError::NotActiveInGame)
    } else {
        None
    }
}

/// Why `p` may not act in game `g`, if so: unknown, not of the game, or not
/// active in it.
pub open spec fn actor_refusal(users: Seq<User>, g: u64, p: PlayerId) -> Option<GameError> {
    first_refusal(member_refusal(users, g, p), standing_refusal(users, p))
}

/// Why `p` may not be attacked in game `g`, if so.
pub open spec fn target_refusal(users: Seq<User>, g: u64, p: PlayerId) -> Option<GameError> {
    let i = user_index(users, p);
    if i >= users.len() {
        Some(GameError::TargetNotFound)
    } else if !in_game(users[i], g) {
        Some(GameError::TargetNotInGame)
    } else if users[i].player_status != Some(PlayerStatus::Active) {
        Some(GameError::TargetNotActive)
    } else {
        None
    }
}

/// Why a turn of round `round_id` of game `g` cannot be resolved, if so: the
/// game is missing or over, the round is missing, another game's or closed,
/// or the counters leave no room for a new round.
pub open spec fn resolution_refusal(v: WorldView, g: u64, round_id: u64) -> Option<GameError> {
    first_refusal(
        game_refusal(v, g),
        first_refusal(
            closing_refusal(v.rounds, g, round_id),
            if !has_headroom(v, g) {
                Some(GameError::OutOfIdentifiers)
            } else {
                None
            },
        ),
    )
}

// ---- what follows a resolved turn --------------------------------------------

/// The tables once the round has moved on after a resolved turn: the end of
/// the round is looked for, and where the round goes on, it records the move
/// that is open now.
pub open spec fn round_advanced(
    v: WorldView,
    g: u64,
    round_id: u64,
    defender: PlayerId,
    took: bool,
    now: Micros,
    seed: u64,
) -> WorldView {
    let checked = round_checked(v, g, round_id, now, seed);
    if round_is_over(v, g) {
        checked
    } else {
        let ri = round_index(checked.rounds, round_id);
        WorldView {
            rounds: checked.rounds.update(
                ri,
                Round {
                    pending_move: next_move(checked.users, g, defender, took),
                    ..checked.rounds[ri]
                },
            ),
            ..checked
        }
    }
}

/// What a resolved turn reports: the end of the round or of the game, or the
/// move that is open now.
pub open spec fn advance_report(
    v: WorldView,
    g: u64,
    round_id: u64,
    defender: PlayerId,
    took: bool,
    now: Micros,
) -> Resolution {
    match round_report(v, g, round_id, now) {
        Some(report) => report,
        None => Resolution::TurnOver {
            next: next_move(round_settled(v, g, round_id, now).users, g, defender, took),
        },
    }
}

pub(crate) proof fn lemma_round_advanced_wf(
    v: WorldView,
    g: u64,
    round_id: u64,
    defender: PlayerId,
    took: bool,
    now: Micros,
    seed: u64,
)
    requires
        well_formed(v),
        resolution_refusal(v, g, round_id) is None,
    ensures
        well_formed(round_advanced(v, g, round_id, defender, took, now, seed)),
        history_kept(v, round_advanced(v, g, round_id, defender, took, now, seed)),
        round_check_refusal(v, g, round_id, now) is None,
{
    lemma_settled_can_be_scored(v, g, round_id, now);
    lemma_round_checked_wf(v, g, round_id, now, seed);
    let checked = round_checked(v, g, round_id, now, seed);
    lemma_first_where(checked.rounds, crate::model::is_round(round_id));
    lemma_first_where(v.rounds, crate::model::is_round(round_id));
    lemma_wf_kept(checked, round_advanced(v, g, round_id, defender, took, now, seed));
    lemma_history_chain(v, checked, round_advanced(v, g, round_id, defender, took, now, seed));
}

pub(crate) fn advance_round(
    world: &mut World,
    gi: usize,
    ri: usize,
    defender: PlayerId,
    took: bool,
    now: Micros,
    seed: u64,
) -> (report: Resolution)
    requires
        old(world).wf(),
        gi < old(world)@.games.len(),
        gi as int == game_index(old(world)@.games, old(world)@.games[gi as int].id),
        ri < old(world)@.rounds.len(),
        ri as int == round_index(old(world)@.rounds, old(world)@.rounds[ri as int].id),
        resolution_refusal(
            old(world)@,
            old(world)@.games[gi as int].id,
            old(world)@.rounds[ri as int].id,
        ) is None,
    ensures
        final(world)@ == round_advanced(
            old(world)@,
            old(world)@.games[gi as int].id,
            old(world)@.rounds[ri as int].id,
            defender,
            took,
            now,
            seed,
        ),
        report == advance_report(
            old(world)@,
            old(world)@.games[gi as int].id,
            old(world)@.rounds[ri as int].id,
            defender,
            took,
            now,
        ),
{
    let g = world.games()[gi].id;
    proof {
        lemma_settled_can_be_scored(world@, g, world@.rounds[ri as int].id, now);
    }
    match settle_round(world, gi, ri, now, seed) {
        Some(report) => report,
        None => {
            let next = plan_next_move(world.users(), g, defender, took);
            let round = world.rounds()[ri];
            world.set_round(ri, Round { pending_move: next, ..round });
            Resolution::TurnOver { next }
        },
    }
}

// ---- the cards on the table ----------------------------------------------------

/// The cards once all that lay on the table of game `g` is discarded.
pub open spec fn table_discarded(cards: Seq<PlayerCard>, g: u64) -> Seq<PlayerCard> {
    cards.map_values(
        |pc: PlayerCard|
            if is_on_table(g)(pc) {
                PlayerCard { location: CardLocation::Discarded, ..pc }
            } else {
                pc
            },
    )
}

/// The cards once player `p` has taken all that lay on the table of game `g`.
pub open spec fn table_taken(cards: Seq<PlayerCard>, g: u64, p: PlayerId) -> Seq<PlayerCard> {
    cards.map_values(
        |pc: PlayerCard|
            if is_on_table(g)(pc) {
                PlayerCard { player: Some(p), location: CardLocation::Hand, ..pc }
            } else {
                pc
            },
    )
}

/// The draws once every draw of turn `turn_id` is taken.
pub open spec fn draws_taken(draws: Seq<Draw>, turn_id: u64) -> Seq<Draw> {
    draws.map_values(
        |d: Draw|
            if d.turn_id == turn_id {
                Draw { status: DrawStatus::Taken, ..d }
            } else {
                d
            },
    )
}

fn clear_table(cards: &Vec<PlayerCard>, g: u64, taker: Option<PlayerId>) -> (out: Vec<PlayerCard>)
    ensures
        out@ == match taker {
            Some(p) => table_taken(cards@, g, p),
            None => table_discarded(cards@, g),
        },
{
    let ghost goal = match taker {
        Some(p) => table_taken(cards@, g, p),
        None => table_discarded(cards@, g),
    };
    let mut out: Vec<PlayerCard> = Vec::new();
    let mut i: usize = 0;
    while i < cards.len()
        invariant
            i <= cards@.len(),
            out@.len() == i,
            goal == match taker {
                Some(p) => table_taken(cards@, g, p),
                None => table_discarded(cards@, g),
            },
            forall|j: int| 0 <= j < i ==> out@[j] == goal[j],
        decreases cards@.len() - i,
    {
        let row = cards[i];
        if row.game_id == g && row.location == CardLocation::OnTable {
            match taker {
                Some(p) => out.push(
                    PlayerCard { player: Some(p), location: CardLocation::Hand, ..row },
                ),
                None => out.push(PlayerCard { location: CardLocation::Discarded, ..row }),
            }
        } else {
            out.push(row);
        }
        i = i + 1;
    }
    assert(out@ =~= goal);
    out
}

fn mark_draws_taken(draws: &Vec<Draw>, turn_id: u64) -> (out: Vec<Draw>)
    ensures
        out@ == draws_taken(draws@, turn_id),
{
    let mut out: Vec<Draw> = Vec::new();
    let mut i: usize = 0;
    while i < draws.len()
        invariant
            i <= draws@.len(),
            out@.len() == i,
            forall|j: int| 0 <= j < i ==> out@[j] == draws_taken(draws@, turn_id)[j],
        decreases draws@.len() - i,
    {
        let d = draws[i];
        if d.turn_id == turn_id {
            out.push(Draw { status: DrawStatus::Taken, ..d });
        } else {
            out.push(d);
        }
        i = i + 1;
    }
    assert(out@ =~= draws_taken(draws@, turn_id));
    out
}

// ---- a turn that the defender wins ----------------------------------------------

/// The tables once the turn at place `ti` is closed as beaten: the cards of
/// the table are discarded and the hands are filled up, the defender
/// drawing first.
pub open spec fn beat_filled(v: WorldView, g: u64, ti: int, now: Micros) -> WorldView {
    let turn = v.turns[ti];
    let closed = WorldView {
        turns: v.turns.update(
            ti,
            Turn { status: TurnStatus::DefenderBeat, finished_at: Some(now), ..turn },
        ),
        cards: table_discarded(v.cards, g),
        ..v
    };
    WorldView { cards: refilled(closed, g, seat_or_zero(v.users, turn.defender)), ..closed }
}

/// The tables once the turn at place `ti` is resolved as beaten.
pub open spec fn beat_resolved(v: WorldView, g: u64, ti: int, now: Micros, seed: u64) -> WorldView {
    let turn = v.turns[ti];
    round_advanced(beat_filled(v, g, ti, now), g, turn.round_id, turn.defender, false, now, seed)
}

/// What a turn resolved as beaten reports.
pub open spec fn beat_report(v: WorldView, g: u64, ti: int, now: Micros) -> Resolution {
    let turn = v.turns[ti];
    advance_report(beat_filled(v, g, ti, now), g, turn.round_id, turn.defender, false, now)
}

/// The tables once the turn at place `ti` is closed as taken: its draws are
/// taken, the defender holds what lay on the table, and the hands are filled
/// up, the player after the defender drawing first.
pub open spec fn take_filled(v: WorldView, g: u64, ti: int, now: Micros) -> WorldView {
    let turn = v.turns[ti];
    let closed = WorldView {
        draws: draws_taken(v.draws, turn.id),
        cards: table_taken(v.cards, g, turn.defender),
        turns: v.turns.update(
            ti,
            Turn { status: TurnStatus::DefenderTook, finished_at: Some(now), ..turn },
        ),
        ..v
    };
    WorldView { cards: refilled(closed, g, seat_or_zero(v.users, turn.defender) + 1), ..closed }
}

/// The tables once the turn at place `ti` is resolved as taken.
pub open spec fn take_resolved(v: WorldView, g: u64, ti: int, now: Micros, seed: u64) -> WorldView {
    let turn = v.turns[ti];
    round_advanced(take_filled(v, g, ti, now), g, turn.round_id, turn.defender, true, now, seed)
}

/// What a turn resolved as taken reports.
pub open spec fn take_report(v: WorldView, g: u64, ti: int, now: Micros) -> Resolution {
    let turn = v.turns[ti];
    advance_report(take_filled(v, g, ti, now), g, turn.round_id, turn.defender, true, now)
}

pub(crate) proof fn lemma_beat_filled_wf(v: WorldView, g: u64, ti: int, now: Micros)
    requires
        well_formed(v),
        0 <= ti < v.turns.len(),
        v.turns[ti].status == TurnStatus::Active,
    ensures
        well_formed(beat_filled(v, g, ti, now)),
        history_kept(v, beat_filled(v, g, ti, now)),
        beat_filled(v, g, ti, now).games == v.games,
        beat_filled(v, g, ti, now).rounds == v.rounds,
        beat_filled(v, g, ti, now).next_id == v.next_id,
{
    let turn = v.turns[ti];
    let closed = WorldView {
        turns: v.turns.update(
            ti,
            Turn { status: TurnStatus::DefenderBeat, finished_at: Some(now), ..turn },
        ),
        cards: table_discarded(v.cards, g),
        ..v
    };
    lemma_wf_kept(v, closed);
    lemma_refilled_wf(closed, g, seat_or_zero(v.users, turn.defender));
}

pub(crate) proof fn lemma_take_filled_wf(v: WorldView, g: u64, ti: int, now: Micros)
    requires
        well_formed(v),
        0 <= ti < v.turns.len(),
        v.turns[ti].status == TurnStatus::Active,
    ensures
        well_formed(take_filled(v, g, ti, now)),
        history_kept(v, take_filled(v, g, ti, now)),
        take_filled(v, g, ti, now).games == v.games,
        take_filled(v, g, ti, now).rounds == v.rounds,
        take_filled(v, g, ti, now).next_id == v.next_id,
{
    let turn = v.turns[ti];
    let closed = WorldView {
        draws: draws_taken(v.draws, turn.id),
        cards: table_taken(v.cards, g, turn.defender),
        turns: v.turns.update(
            ti,
            Turn { status: TurnStatus::DefenderTook, finished_at: Some(now), ..turn },
        ),
        ..v
    };
    lemma_wf_kept(v, closed);
    lemma_refilled_wf(closed, g, seat_or_zero(v.users, turn.defender) + 1);
}

pub(crate) proof fn lemma_beat_resolved_wf(v: WorldView, g: u64, ti: int, now: Micros, seed: u64)
    requires
        well_formed(v),
        0 <= ti < v.turns.len(),
        v.turns[ti].status == TurnStatus::Active,
        resolution_refusal(v, g, v.turns[ti].round_id) is None,
    ensures
        well_formed(beat_resolved(v, g, ti, now, seed)),
        history_kept(v, beat_resolved(v, g, ti, now, seed)),
{
    let turn = v.turns[ti];
    lemma_beat_filled_wf(v, g, ti, now);
    lemma_round_advanced_wf(
        beat_filled(v, g, ti, now),
        g,
        turn.round_id,
        turn.defender,
        false,
        now,
        seed,
    );
    lemma_history_chain(v, beat_filled(v, g, ti, now), beat_resolved(v, g, ti, now, seed));
}

pub(crate) proof fn lemma_take_resolved_wf(v: WorldView, g: u64, ti: int, now: Micros, seed: u64)
    requires
        well_formed(v),
        0 <= ti < v.turns.len(),
        v.turns[ti].status == TurnStatus::Active,
        resolution_refusal(v, g, v.turns[ti].round_id) is None,
    ensures
        well_formed(take_resolved(v, g, ti, now, seed)),
        history_kept(v, take_resolved(v, g, ti, now, seed)),
{
    let turn = v.turns[ti];
    lemma_take_filled_wf(v, g, ti, now);
    lemma_round_advanced_wf(
        take_filled(v, g, ti, now),
        g,
        turn.round_id,
        turn.defender,
        true,
        now,
        seed,
    );
    lemma_history_chain(v, take_filled(v, g, ti, now), take_resolved(v, g, ti, now, seed));
}

pub(crate) fn resolve_beat(world: &mut World, gi: usize, ti: usize, ri: usize, now: Micros, seed: u64) -> (report:
    Resolution)
    requires
        old(world).wf(),
        gi < old(world)@.games.len(),
        gi as int == game_index(old(world)@.games, old(world)@.games[gi as int].id),
        ti < old(world)@.turns.len(),
        ri < old(world)@.rounds.len(),
        ri as int == round_index(old(world)@.rounds, old(world)@.turns[ti as int].round_id),
        old(world)@.turns[ti as int].status == TurnStatus::Active,
        resolution_refusal(
            old(world)@,
            old(world)@.games[gi as int].id,
            old(world)@.turns[ti as int].round_id,
        ) is None,
    ensures
        final(world)@ == beat_resolved(
            old(world)@,
            old(world)@.games[gi as int].id,
            ti as int,
            now,
            seed,
        ),
        report == beat_report(old(world)@, old(world)@.games[gi as int].id, ti as int, now),
{
    let g = world.games()[gi].id;
    let turn = world.turns()[ti];
    proof {
        lemma_first_where(world@.rounds, crate::model::is_round(turn.round_id));
    }
    let seat = seat_of_player(world.users(), turn.defender);
    world.set_turn(ti, Turn { status: TurnStatus::DefenderBeat, finished_at: Some(now), ..turn });
    let cards = clear_table(world.cards(), g, None);
    world.set_cards(cards);
    refill_from(world, gi, seat as u16);
    proof {
        lemma_beat_filled_wf(old(world)@, g, ti as int, now);
    }
    advance_round(world, gi, ri, turn.defender, false, now, seed)
}

pub(crate) fn resolve_take(world: &mut World, gi: usize, ti: usize, ri: usize, now: Micros, seed: u64) -> (report:
    Resolution)
    requires
        old(world).wf(),
        gi < old(world)@.games.len(),
        gi as int == game_index(old(world)@.games, old(world)@.games[gi as int].id),
        ti < old(world)@.turns.len(),
        ri < old(world)@.rounds.len(),
        ri as int == round_index(old(world)@.rounds, old(world)@.turns[ti as int].round_id),
        old(world)@.turns[ti as int].status == TurnStatus::Active,
        resolution_refusal(
            old(world)@,
            old(world)@.games[gi as int].id,
            old(world)@.turns[ti as int].round_id,
        ) is None,
    ensures
        final(world)@ == take_resolved(
            old(world)@,
            old(world)@.games[gi as int].id,
            ti as int,
            now,
            seed,
        ),
        report == take_report(old(world)@, old(world)@.games[gi as int].id, ti as int, now),
{
    let g = world.games()[gi].id;
    let turn = world.turns()[ti];
    proof {
        lemma_first_where(world@.rounds, crate::model::is_round(turn.round_id));
    }
    let seat = seat_of_player(world.users(), turn.defender);
    let draws = mark_draws_taken(world.draws(), turn.id);
    world.set_draws(draws);
    let cards = clear_table(world.cards(), g, Some(turn.defender));
    world.set_cards(cards);
    world.set_turn(ti, Turn { status: TurnStatus::DefenderTook, finished_at: Some(now), ..turn });
    refill_from(world, gi, seat as u16 + 1);
    proof {
        lemma_take_filled_wf(old(world)@, g, ti as int, now);
    }
    advance_round(world, gi, ri, turn.defender, true, now, seed)
}

// ---- attack -----------------------------------------------------------------------

/// Why `p` may not open a new turn of `round` against `target`, if so.
///
/// Where only the attacker of a turn may attack and the round has a move
/// open, `p` and `target` must be the attacker and the defender of that move.
pub open spec fn opening_refusal(
    v: WorldView,
    rules: GameSettings,
    round: Round,
    p: PlayerId,
    target: PlayerId,
) -> Option<GameError> {
    if !rules.anyone_can_attack && round.pending_move is Some && round.pending_move->0.attacker
        != p {
        Some(GameError::NotExpectedAttacker)
    } else if !rules.anyone_can_attack && round.pending_move is Some
        && round.pending_move->0.defender != target {
        Some(GameError::NotExpectedDefender)
    } else if count(v.turns, is_turn_of(round.id)) >= u32::MAX {
        Some(GameError::OutOfIdentifiers)
    } else {
        None
    }
}

/// Why `p` may not add `card` to the open `turn` against `target`, if so.
pub open spec fn adding_refusal(
    v: WorldView,
    rules: GameSettings,
    turn: Turn,
    p: PlayerId,
    card: Card,
    target: PlayerId,
) -> Option<GameError> {
    if turn.defender != target {
        Some(GameError::NotCurrentDefender)
    } else if !rank_may_attack(v.draws, turn.id, card.rank) {
        Some(GameError::RankNotOnTable)
    } else if rules.max_attack_cards > 0 && count(v.draws, is_draw_of(turn.id))
        >= rules.max_attack_cards {
        Some(GameError::AttackLimitReached)
    } else if !rules.anyone_can_attack && turn.attacker != p {
        Some(GameError::NotFirstAttacker)
    } else {
        None
    }
}

/// Why the attack of `p` with `card` on `target` in game `g` is refused, if it
/// is. The checks stand in the order in which they are made.
pub open spec fn attack_refusal(v: WorldView, p: PlayerId, g: u64, card: Card, target: PlayerId) -> Option<
    GameError,
> {
    let ri = current_round_index(v.rounds, g);
    let rules = settings_of_lobby(v.settings, v.games[game_index(v.games, g)].lobby_id);
    let ti = active_turn_index(v.turns, v.rounds[ri].id);
    first_refusal(
        game_refusal(v, g),
        first_refusal(
            actor_refusal(v.users, g, p),
            first_refusal(
                target_refusal(v.users, g, target),
                if ri >= v.rounds.len() {
                    Some(GameError::NoActiveRound)
                } else if hand_card_index(v.cards, g, p, card) >= v.cards.len() {
                    Some(GameError::CardNotInHand)
                } else if ti < v.turns.len() {
                    first_refusal(
                        adding_refusal(v, rules, v.turns[ti], p, card, target),
                        if v.next_id > u64::MAX - ID_RESERVE {
                            Some(GameError::OutOfIdentifiers)
                        } else {
                            None
                        },
                    )
                } else {
                    first_refusal(
                        opening_refusal(v, rules, v.rounds[ri], p, target),
                        if v.next_id > u64::MAX - ID_RESERVE {
                            Some(GameError::OutOfIdentifiers)
                        } else {
                            None
                        },
                    )
                },
            ),
        ),
    )
}

/// The tables once `p` has attacked `target` with `card` in game `g`.
///
/// Where the round has no open turn, one is opened with `p` as attacker and
/// `target` as defender. The turn gets a pending draw of the card, and the
/// card goes from the hand of `p` onto the table.
pub open spec fn attacked(
    v: WorldView,
    p: PlayerId,
    g: u64,
    card: Card,
    target: PlayerId,
    now: Micros,
) -> WorldView {
    let round = v.rounds[current_round_index(v.rounds, g)];
    let ti = active_turn_index(v.turns, round.id);
    let hi = hand_card_index(v.cards, g, p, card);
    let cards = v.cards.update(hi, PlayerCard { location: CardLocation::OnTable, ..v.cards[hi] });
    if ti < v.turns.len() {
        WorldView {
            draws: v.draws.push(
                Draw {
                    id: v.next_id,
                    turn_id: v.turns[ti].id,
                    attacker: p,
                    attacking_card: card,
                    defending_card: None,
                    status: DrawStatus::Pending,
                    created_at: now,
                },
            ),
            cards,
            next_id: (v.next_id + 1) as u64,
            ..v
        }
    } else {
        WorldView {
            turns: v.turns.push(
                Turn {
                    id: v.next_id,
                    round_id: round.id,
                    turn_number: (count(v.turns, is_turn_of(round.id)) + 1) as u32,
                    attacker: p,
                    defender: target,
                    status: TurnStatus::Active,
                    started_at: now,
                    finished_at: None,
                },
            ),
            draws: v.draws.push(
                Draw {
                    id: (v.next_id + 1) as u64,
                    turn_id: v.next_id,
                    attacker: p,
                    attacking_card: card,
                    defending_card: None,
                    status: DrawStatus::Pending,
                    created_at: now,
                },
            ),
            cards,
            next_id: (v.next_id + 2) as u64,
            ..v
        }
    }
}

fn is_active_status(status: Option<PlayerStatus>) -> (active: bool)
    ensures
        active == (status == Some(PlayerStatus::Active)),
{
    match status {
        Some(s) => s == PlayerStatus::Active,
        None => false,
    }
}

fn check_member(world: &World, g: u64, p: PlayerId) -> (result: Result<usize, GameError>)
    ensures
        match result {
            Ok(i) => member_refusal(world@.users, g, p) is None && i as int == user_index(
                world@.users,
                p,
            ) && i < world@.users.len(),
            Err(e) => member_refusal(world@.users, g, p) == Some(e),
        },
{
    let users = world.users();
    let i = find_user(users, p);
    if i >= users.len() {
        return Err(GameError::UserNotFound);
    }
    if !same_id(users[i].current_game_id, g) {
        return Err(GameError::NotInGame);
    }
    Ok(i)
}

fn check_actor(world: &World, g: u64, p: PlayerId) -> (result: Result<(), GameError>)
    ensures
        match result {
            Ok(()) => actor_refusal(world@.users, g, p) is None,
            Err(e) => actor_refusal(world@.users, g, p) == Some(e),
        },
{
    let i = match check_member(world, g, p) {
        Ok(i) => i,
        Err(e) => {
            return Err(e);
        },
    };
    if !is_active_status(world.users()[i].player_status) {
        return Err(GameError::NotActiveInGame);
    }
    Ok(())
}

fn check_target(world: &World, g: u64, p: PlayerId) -> (result: Result<(), GameError>)
    ensures
        match result {
            Ok(()) => target_refusal(world@.users, g, p) is None,
            Err(e) => target_refusal(world@.users, g, p) == Some(e),
        },
{
    let users = world.users();
    let i = find_user(users, p);
    if i >= users.len() {
        return Err(GameError::TargetNotFound);
    }
    if !same_id(users[i].current_game_id, g) {
        return Err(GameError::TargetNotInGame);
    }
    if !is_active_status(users[i].player_status) {
        return Err(GameError::TargetNotActive);
    }
    Ok(())
}

fn check_resolution(world: &World, g: u64, round_id: u64) -> (result: Result<
    (usize, usize),
    GameError,
>)
    ensures
        match result {
            Ok((gi, ri)) => resolution_refusal(world@, g, round_id) is None && gi as int
                == game_index(world@.games, g) && gi < world@.games.len() && world@.games[gi as int].id
                == g && ri as int == round_index(world@.rounds, round_id) && ri
                < world@.rounds.len(),
            Err(e) => resolution_refusal(world@, g, round_id) == Some(e),
        },
{
    let gi = match check_game(world.games(), g) {
        Ok(gi) => gi,
        Err(e) => {
            return Err(e);
        },
    };
    let game = world.games()[gi];
    let ri = find_round(world.rounds(), round_id);
    if ri >= world.rounds().len() || world.rounds()[ri].game_id != game.id {
        return Err(GameError::RoundNotFound);
    }
    if world.rounds()[ri].status != crate::types::RoundStatus::Active {
        return Err(GameError::RoundNotActive);
    }
    if world.next_id() > u64::MAX - ID_RESERVE || game.current_round == u32::MAX {
        return Err(GameError::OutOfIdentifiers);
    }
    Ok((gi, ri))
}

/// Attacks `target` with `card`: opens a turn, or adds a card to the open
/// turn of the round. Refused as [`attack_refusal`] says, and then nothing
/// changes; done as [`attacked`] says.
pub fn attack(world: &mut World, ctx: &Context, game_id: u64, card: Card, target: PlayerId) -> (result:
    Result<(), GameError>)
    requires
        old(world).wf(),
    ensures
        final(world).wf(),
        history_kept(old(world)@, final(world)@),
        match result {
            Ok(()) => attack_refusal(old(world)@, ctx.sender, game_id, card, target) is None
                && final(world)@ == attacked(
                old(world)@,
                ctx.sender,
                game_id,
                card,
                target,
                ctx.timestamp,
            ),
            Err(e) => attack_refusal(old(world)@, ctx.sender, game_id, card, target) == Some(e)
                && final(world)@ == old(world)@,
        },
{
    let gi = match check_game(world.games(), game_id) {
        Ok(gi) => gi,
        Err(e) => {
            return Err(e);
        },
    };
    match check_actor(world, game_id, ctx.sender) {
        Ok(()) => {},
        Err(e) => {
            return Err(e);
        },
    }
    match check_target(world, game_id, target) {
        Ok(()) => {},
        Err(e) => {
            return Err(e);
        },
    }
    let ri = find_current_round(world.rounds(), game_id);
    if ri >= world.rounds().len() {
        return Err(GameError::NoActiveRound);
    }
    let round = world.rounds()[ri];
    let hi = find_hand_card(world.cards(), game_id, ctx.sender, card);
    if hi >= world.cards().len() {
        return Err(GameError::CardNotInHand);
    }
    let rules = find_settings(world.settings(), world.games()[gi].lobby_id);
    let ti = find_active_turn(world.turns(), round.id);
    let first = world.next_id();
    let turn_id: u64;
    let draw_id: u64;
    if ti < world.turns().len() {
        let turn = world.turns()[ti];
        if turn.defender != target {
            return Err(GameError::NotCurrentDefender);
        }
        if count_draws(world.draws(), turn.id) != 0 && count_showing(
            world.draws(),
            turn.id,
            card.rank,
        ) == 0 {
            return Err(GameError::RankNotOnTable);
        }
        if rules.max_attack_cards > 0 && count_draws(world.draws(), turn.id)
            >= rules.max_attack_cards as usize {
            return Err(GameError::AttackLimitReached);
        }
        if !rules.anyone_can_attack && turn.attacker != ctx.sender {
            return Err(GameError::NotFirstAttacker);
        }
        if first > u64::MAX - ID_RESERVE {
            return Err(GameError::OutOfIdentifiers);
        }
        turn_id = turn.id;
        draw_id = first;
        world.set_next_id(first + 1);
    } else {
        if !rules.anyone_can_attack {
            match round.pending_move {
                Some(m) => {
                    if m.attacker != ctx.sender {
                        return Err(GameError::NotExpectedAttacker);
                    }
                    if m.defender != target {
                        return Err(GameError::NotExpectedDefender);
                    }
                },
                None => {},
            }
        }
        let played = count_turns(world.turns(), round.id);
        if played >= u32::MAX as usize {
            return Err(GameError::OutOfIdentifiers);
        }
        if first > u64::MAX - ID_RESERVE {
            return Err(GameError::OutOfIdentifiers);
        }
        turn_id = first;
        draw_id = first + 1;
        world.push_turn(
            Turn {
                id: first,
                round_id: round.id,
                turn_number: played as u32 + 1,
                attacker: ctx.sender,
                defender: target,
                status: TurnStatus::Active,
                started_at: ctx.timestamp,
                finished_at: None,
            },
        );
        world.set_next_id(first + 2);
    }
    world.push_draw(
        Draw {
            id: draw_id,
            turn_id,
            attacker: ctx.sender,
            attacking_card: card,
            defending_card: None,
            status: DrawStatus::Pending,
            created_at: ctx.timestamp,
        },
    );
    let row = world.cards()[hi];
    world.set_card(hi, PlayerCard { location: CardLocation::OnTable, ..row });
    proof {
        let v = old(world)@;
        let w = world@;
        lemma_cards_kept(v.games, v.cards, v.next_id, w.games, w.cards, w.next_id);
        lemma_rounds_kept(v.rounds, v.next_id, w.rounds, w.next_id);
        lemma_seats_kept(v.users, v.next_id, w.users, w.next_id);
        lemma_users_kept(v.users, w.users);
        lemma_ascending_kept(lobby_ids(v.lobbies), v.next_id, lobby_ids(w.lobbies), w.next_id);
        lemma_first_where(v.rounds, crate::model::is_active_round_of(game_id));
        assert(round_ids(v.rounds)[ri as int] < v.next_id);
        assert forall|i: int| 0 <= i < w.turns.len() implies (#[trigger] w.turns[i]).round_id
            < w.next_id by {
            if i < v.turns.len() {
                assert(v.turns[i].round_id < v.next_id);
            }
        }
        assert forall|i: int| 0 <= i < w.draws.len() implies (#[trigger] w.draws[i]).turn_id
            < w.next_id by {
            if i < v.draws.len() {
                assert(v.draws[i].turn_id < v.next_id);
            } else if ti < v.turns.len() {
                assert(turn_ids(v.turns)[ti as int] < v.next_id);
            }
        }
        lemma_ascending_kept(game_ids(v.games), v.next_id, game_ids(w.games), w.next_id);
        lemma_ascending_kept(round_ids(v.rounds), v.next_id, round_ids(w.rounds), w.next_id);
        assert(card_ids(w.cards) =~= card_ids(v.cards));
        lemma_ascending_kept(card_ids(v.cards), v.next_id, card_ids(w.cards), w.next_id);
        lemma_ascending_push(draw_ids(v.draws), v.next_id, draw_id, w.next_id);
        assert(draw_ids(w.draws) =~= draw_ids(v.draws).push(draw_id));
        if ti < v.turns.len() {
            lemma_turns_kept(v.turns, w.turns);
            lemma_ascending_kept(turn_ids(v.turns), v.next_id, turn_ids(w.turns), w.next_id);
        } else {
            lemma_none_found(v.turns, is_active_turn_of(round.id));
            lemma_turn_added(v.turns, w.turns.last());
            assert(w.turns =~= v.turns.push(w.turns.last()));
            lemma_ascending_push(turn_ids(v.turns), v.next_id, turn_id, w.next_id);
            assert(turn_ids(w.turns) =~= turn_ids(v.turns).push(turn_id));
        }
    }
    Ok(())
}

// ---- defend -----------------------------------------------------------------------

/// Why `p` may not answer for turn `turn_id`, if so: the turn is missing, is
/// another's to defend, or is closed.
pub open spec fn defender_refusal(v: WorldView, p: PlayerId, turn_id: u64) -> Option<GameError> {
    let ti = turn_index(v.turns, turn_id);
    if ti >= v.turns.len() {
        Some(GameError::TurnNotFound)
    } else if v.turns[ti].defender != p {
        Some(GameError::NotTurnDefender)
    } else if v.turns[ti].status != TurnStatus::Active {
        Some(GameError::TurnNotActive)
    } else {
        None
    }
}

/// Why the defence of `p` with `card` in turn `turn_id` of game `g` is
/// refused, if it is. The checks stand in the order in which they are made:
/// the game, whether `p` plays in it, the turn, whether `p` is active, the
/// card, and what the resolution of the turn needs. The card must beat the
/// attack of the first pending draw of the turn.
pub open spec fn defend_refusal(v: WorldView, p: PlayerId, g: u64, turn_id: u64, card: Card) -> Option<
    GameError,
> {
    let pi = first_where(v.draws, is_pending_of(turn_id));
    first_refusal(
        game_refusal(v, g),
        first_refusal(
            member_refusal(v.users, g, p),
            first_refusal(
                defender_refusal(v, p, turn_id),
                first_refusal(
                    standing_refusal(v.users, p),
                    if hand_card_index(v.cards, g, p, card) >= v.cards.len() {
                        Some(GameError::CardNotInHand)
                    } else if pi >= v.draws.len() {
                        Some(GameError::NothingToDefend)
                    } else if !beats(
                        v.draws[pi].attacking_card,
                        card,
                        v.games[game_index(v.games, g)].trump_suit,
                    ) {
                        Some(GameError::CannotBeat)
                    } else {
                        resolution_refusal(v, g, v.turns[turn_index(v.turns, turn_id)].round_id)
                    },
                ),
            ),
        ),
    )
}

/// The tables once `card` has beaten the first pending draw of turn
/// `turn_id`: the draw is beaten by the card, and the card lies on the table.
pub open spec fn answered(v: WorldView, p: PlayerId, g: u64, turn_id: u64, card: Card) -> WorldView {
    let pi = first_where(v.draws, is_pending_of(turn_id));
    let hi = hand_card_index(v.cards, g, p, card);
    WorldView {
        draws: v.draws.update(
            pi,
            Draw { defending_card: Some(card), status: DrawStatus::Beaten, ..v.draws[pi] },
        ),
        cards: v.cards.update(hi, PlayerCard { location: CardLocation::OnTable, ..v.cards[hi] }),
        ..v
    }
}

/// The defence has answered the last pending draw of the turn.
pub open spec fn turn_is_beaten(v: WorldView, p: PlayerId, g: u64, turn_id: u64, card: Card) -> bool {
    count(answered(v, p, g, turn_id, card).draws, is_pending_of(turn_id)) == 0
}

/// The tables once `p` has defended with `card`: the draw is answered, and
/// where no draw of the turn is pending any more, the turn is resolved as
/// beaten.
pub open spec fn defended(
    v: WorldView,
    p: PlayerId,
    g: u64,
    turn_id: u64,
    card: Card,
    now: Micros,
    seed: u64,
) -> WorldView {
    let after = answered(v, p, g, turn_id, card);
    if turn_is_beaten(v, p, g, turn_id, card) {
        beat_resolved(after, g, turn_index(v.turns, turn_id), now, seed)
    } else {
        after
    }
}

/// What a defence reports.
pub open spec fn defend_report(
    v: WorldView,
    p: PlayerId,
    g: u64,
    turn_id: u64,
    card: Card,
    now: Micros,
) -> Resolution {
    if turn_is_beaten(v, p, g, turn_id, card) {
        beat_report(answered(v, p, g, turn_id, card), g, turn_index(v.turns, turn_id), now)
    } else {
        Resolution::TurnOpen
    }
}

fn check_defender(world: &World, p: PlayerId, turn_id: u64) -> (result: Result<usize, GameError>)
    ensures
        match result {
            Ok(ti) => defender_refusal(world@, p, turn_id) is None && ti as int == turn_index(
                world@.turns,
                turn_id,
            ) && ti < world@.turns.len(),
            Err(e) => defender_refusal(world@, p, turn_id) == Some(e),
        },
{
    let ti = find_turn(world.turns(), turn_id);
    if ti >= world.turns().len() {
        return Err(GameError::TurnNotFound);
    }
    if world.turns()[ti].defender != p {
        return Err(GameError::NotTurnDefender);
    }
    if world.turns()[ti].status != TurnStatus::Active {
        return Err(GameError::TurnNotActive);
    }
    Ok(ti)
}

/// Defends against the first pending attack of a turn with `card`. Refused
/// as [`defend_refusal`] says, and then nothing changes; done as
/// [`defended`] says, with the report of [`defend_report`].
pub fn defend(world: &mut World, ctx: &Context, game_id: u64, turn_id: u64, card: Card) -> (result:
    Result<Resolution, GameError>)
    requires
        old(world).wf(),
    ensures
        final(world).wf(),
        history_kept(old(world)@, final(world)@),
        match result {
            Ok(report) => defend_refusal(old(world)@, ctx.sender, game_id, turn_id, card) is None
                && final(world)@ == defended(
                old(world)@,
                ctx.sender,
                game_id,
                turn_id,
                card,
                ctx.timestamp,
                ctx.seed,
            ) && report == defend_report(
                old(world)@,
                ctx.sender,
                game_id,
                turn_id,
                card,
                ctx.timestamp,
            ),
            Err(e) => defend_refusal(old(world)@, ctx.sender, game_id, turn_id, card) == Some(e)
                && final(world)@ == old(world)@,
        },
{
    let gi = match check_game(world.games(), game_id) {
        Ok(gi) => gi,
        Err(e) => {
            return Err(e);
        },
    };
    let ui = match check_member(world, game_id, ctx.sender) {
        Ok(ui) => ui,
        Err(e) => {
            return Err(e);
        },
    };
    let ti = match check_defender(world, ctx.sender, turn_id) {
        Ok(ti) => ti,
        Err(e) => {
            return Err(e);
        },
    };
    if !is_active_status(world.users()[ui].player_status) {
        return Err(GameError::NotActiveInGame);
    }
    let hi = find_hand_card(world.cards(), game_id, ctx.sender, card);
    if hi >= world.cards().len() {
        return Err(GameError::CardNotInHand);
    }
    let pi = find_pending_draw(world.draws(), turn_id);
    if pi >= world.draws().len() {
        return Err(GameError::NothingToDefend);
    }
    let pending = world.draws()[pi];
    if !can_beat_card(&pending.attacking_card, &card, world.games()[gi].trump_suit) {
        return Err(GameError::CannotBeat);
    }
    let (gi, ri) = match check_resolution(world, game_id, world.turns()[ti].round_id) {
        Ok(found) => found,
        Err(e) => {
            return Err(e);
        },
    };
    world.set_draw(
        pi,
        Draw { defending_card: Some(card), status: DrawStatus::Beaten, ..pending },
    );
    let row = world.cards()[hi];
    world.set_card(hi, PlayerCard { location: CardLocation::OnTable, ..row });
    proof {
        lemma_wf_kept(old(world)@, world@);
    }
    if count_pending(world.draws(), turn_id) == 0 {
        proof {
            lemma_beat_resolved_wf(world@, game_id, ti as int, ctx.timestamp, ctx.seed);
        }
        Ok(resolve_beat(world, gi, ti, ri, ctx.timestamp, ctx.seed))
    } else {
        Ok(Resolution::TurnOpen)
    }
}

// ---- take the cards -----------------------------------------------------------------

/// Why `p` may not take the cards of turn `turn_id` of game `g`, if so: the
/// game is missing or over, the turn is missing, another's to defend or
/// resolved, or the turn cannot be resolved. The checks stand in the order
/// in which they are made.
pub open spec fn take_refusal(v: WorldView, p: PlayerId, g: u64, turn_id: u64) -> Option<GameError> {
    first_refusal(
        game_refusal(v, g),
        first_refusal(
            defender_refusal(v, p, turn_id),
            resolution_refusal(v, g, v.turns[turn_index(v.turns, turn_id)].round_id),
        ),
    )
}

/// Takes the cards: the defender of an open turn gives the turn up. Every
/// draw of the turn is taken, all that lies on the table of the game goes to
/// the defender's hand, the hands are filled up, and the round moves on with
/// the defender passed over. Refused as [`take_refusal`] says, and then
/// nothing changes.
pub fn take_cards(world: &mut World, ctx: &Context, game_id: u64, turn_id: u64) -> (result: Result<
    Resolution,
    GameError,
>)
    requires
        old(world).wf(),
    ensures
        final(world).wf(),
        history_kept(old(world)@, final(world)@),
        match result {
            Ok(report) => take_refusal(old(world)@, ctx.sender, game_id, turn_id) is None
                && final(world)@ == take_resolved(
                old(world)@,
                game_id,
                turn_index(old(world)@.turns, turn_id),
                ctx.timestamp,
                ctx.seed,
            ) && report == take_report(
                old(world)@,
                game_id,
                turn_index(old(world)@.turns, turn_id),
                ctx.timestamp,
            ),
            Err(e) => take_refusal(old(world)@, ctx.sender, game_id, turn_id) == Some(e)
                && final(world)@ == old(world)@,
        },
{
    match check_game(world.games(), game_id) {
        Ok(_) => {},
        Err(e) => {
            return Err(e);
        },
    }
    let ti = match check_defender(world, ctx.sender, turn_id) {
        Ok(ti) => ti,
        Err(e) => {
            return Err(e);
        },
    };
    let (gi, ri) = match check_resolution(world, game_id, world.turns()[ti].round_id) {
        Ok(found) => found,
        Err(e) => {
            return Err(e);
        },
    };
    proof {
        lemma_take_resolved_wf(world@, game_id, ti as int, ctx.timestamp, ctx.seed);
    }
    Ok(resolve_take(world, gi, ti, ri, ctx.timestamp, ctx.seed))
}

// ---- pass ---------------------------------------------------------------------------

/// Why `p` may not pass in game `g`, if so. The checks stand in the order in
/// which they are made.
pub open spec fn pass_refusal(v: WorldView, p: PlayerId, g: u64) -> Option<GameError> {
    let ri = current_round_index(v.rounds, g);
    let ti = active_turn_index(v.turns, v.rounds[ri].id);
    let rules = settings_of_lobby(v.settings, v.games[game_index(v.games, g)].lobby_id);
    first_refusal(
        game_refusal(v, g),
        if ri >= v.rounds.len() {
            Some(GameError::NoActiveRound)
        } else if ti >= v.turns.len() {
            Some(GameError::NoActiveTurn)
        } else if count(v.draws, is_pending_of(v.turns[ti].id)) > 0 {
            Some(GameError::UndefendedAttacks)
        } else if !rules.anyone_can_attack && v.turns[ti].attacker != p {
            Some(GameError::NotTurnAttacker)
        } else {
            resolution_refusal(v, g, v.rounds[ri].id)
        },
    )
}

/// The place of the turn that a pass in game `g` closes.
pub open spec fn passed_turn_index(v: WorldView, g: u64) -> int {
    active_turn_index(v.turns, v.rounds[current_round_index(v.rounds, g)].id)
}

/// Passes: the attack adds no more cards. The open turn of the round, with
/// every attack answered, is resolved as beaten and the round moves on.
/// Refused as [`pass_refusal`] says, and then nothing changes.
pub fn pass_turn(world: &mut World, ctx: &Context, game_id: u64) -> (result: Result<
    Resolution,
    GameError,
>)
    requires
        old(world).wf(),
    ensures
        final(world).wf(),
        history_kept(old(world)@, final(world)@),
        match result {
            Ok(report) => pass_refusal(old(world)@, ctx.sender, game_id) is None && final(world)@
                == beat_resolved(
                old(world)@,
                game_id,
                passed_turn_index(old(world)@, game_id),
                ctx.timestamp,
                ctx.seed,
            ) && report == beat_report(
                old(world)@,
                game_id,
                passed_turn_index(old(world)@, game_id),
                ctx.timestamp,
            ),
            Err(e) => pass_refusal(old(world)@, ctx.sender, game_id) == Some(e) && final(world)@
                == old(world)@,
        },
{
    let gi = match check_game(world.games(), game_id) {
        Ok(gi) => gi,
        Err(e) => {
            return Err(e);
        },
    };
    let ri = find_current_round(world.rounds(), game_id);
    if ri >= world.rounds().len() {
        return Err(GameError::NoActiveRound);
    }
    let round = world.rounds()[ri];
    let ti = find_active_turn(world.turns(), round.id);
    if ti >= world.turns().len() {
        return Err(GameError::NoActiveTurn);
    }
    let turn = world.turns()[ti];
    if count_pending(world.draws(), turn.id) > 0 {
        return Err(GameError::UndefendedAttacks);
    }
    let rules = find_settings(world.settings(), world.games()[gi].lobby_id);
    if !rules.anyone_can_attack && turn.attacker != ctx.sender {
        return Err(GameError::NotTurnAttacker);
    }
    let (gi, ri) = match check_resolution(world, game_id, round.id) {
        Ok(found) => found,
        Err(e) => {
            return Err(e);
        },
    };
    proof {
        lemma_beat_resolved_wf(world@, game_id, ti as int, ctx.timestamp, ctx.seed);
    }
    Ok(resolve_beat(world, gi, ti, ri, ctx.timestamp, ctx.seed))
}

// ---- the steps of a resolution, one by one ----------------------------------------------

/// Why turn `turn_id` of game `g` cannot be closed as beaten, if so.
pub open spec fn finish_refusal(v: WorldView, g: u64, turn_id: u64) -> Option<GameError> {
    let ti = turn_index(v.turns, turn_id);
    if ti >= v.turns.len() {
        Some(GameError::TurnNotFound)
    } else if v.turns[ti].status != TurnStatus::Active {
        Some(GameError::TurnNotActive)
    } else {
        resolution_refusal(v, g, v.turns[ti].round_id)
    }
}

/// Closes a turn that the defender has won: the turn is beaten, the cards of
/// the table are discarded, the hands are filled up with the defender
/// drawing first, and the round moves on with the defender as attacker.
/// Refused as [`finish_refusal`] says, and then nothing changes.
pub fn finish_turn_defender_won(world: &mut World, ctx: &Context, game_id: u64, turn_id: u64) -> (result:
    Result<Resolution, GameError>)
    requires
        old(world).wf(),
    ensures
        final(world).wf(),
        history_kept(old(world)@, final(world)@),
        match result {
            Ok(report) => finish_refusal(old(world)@, game_id, turn_id) is None && final(world)@
                == beat_resolved(
                old(world)@,
                game_id,
                turn_index(old(world)@.turns, turn_id),
                ctx.timestamp,
                ctx.seed,
            ) && report == beat_report(
                old(world)@,
                game_id,
                turn_index(old(world)@.turns, turn_id),
                ctx.timestamp,
            ),
            Err(e) => finish_refusal(old(world)@, game_id, turn_id) == Some(e) && final(world)@
                == old(world)@,
        },
{
    let ti = find_turn(world.turns(), turn_id);
    if ti >= world.turns().len() {
        return Err(GameError::TurnNotFound);
    }
    if world.turns()[ti].status != TurnStatus::Active {
        return Err(GameError::TurnNotActive);
    }
    let (gi, ri) = match check_resolution(world, game_id, world.turns()[ti].round_id) {
        Ok(found) => found,
        Err(e) => {
            return Err(e);
        },
    };
    proof {
        lemma_beat_resolved_wf(world@, game_id, ti as int, ctx.timestamp, ctx.seed);
    }
    Ok(resolve_beat(world, gi, ti, ri, ctx.timestamp, ctx.seed))
}

/// Moves a round on after a turn that the defender won, `new_attacker`
/// being that defender: looks for the end of the round and, where it goes
/// on, records the move that is open now. Refused as [`resolution_refusal`]
/// says, and then nothing changes.
pub fn start_next_turn_after_defense(
    world: &mut World,
    ctx: &Context,
    game_id: u64,
    round_id: u64,
    new_attacker: PlayerId,
) -> (result: Result<Resolution, GameError>)
    requires
        old(world).wf(),
    ensures
        final(world).wf(),
        history_kept(old(world)@, final(world)@),
        match result {
            Ok(report) => resolution_refusal(old(world)@, game_id, round_id) is None && final(world)@ == round_advanced(
                old(world)@,
                game_id,
                round_id,
                new_attacker,
                false,
                ctx.timestamp,
                ctx.seed,
            ) && report == advance_report(
                old(world)@,
                game_id,
                round_id,
                new_attacker,
                false,
                ctx.timestamp,
            ),
            Err(e) => resolution_refusal(old(world)@, game_id, round_id) == Some(e) && final(world)@ == old(world)@,
        },
{
    let (gi, ri) = match check_resolution(world, game_id, round_id) {
        Ok(found) => found,
        Err(e) => {
            return Err(e);
        },
    };
    proof {
        lemma_round_advanced_wf(
            world@,
            game_id,
            round_id,
            new_attacker,
            false,
            ctx.timestamp,
            ctx.seed,
        );
        lemma_first_where(world@.rounds, crate::model::is_round(round_id));
    }
    Ok(advance_round(world, gi, ri, new_attacker, false, ctx.timestamp, ctx.seed))
}

/// The place of the latest turn of round `round_id` among the first `k`
/// turns: the one with the highest number, the later one of two with the
/// same; -1 where the round has no turn.
pub open spec fn latest_turn_index(turns: Seq<Turn>, round_id: u64, k: int) -> int
    decreases k,
{
    if k <= 0 {
        -1
    } else {
        let before = latest_turn_index(turns, round_id, k - 1);
        if k <= turns.len() && turns[k - 1].round_id == round_id && (before < 0 || turns[k
            - 1].turn_number >= turns[before].turn_number) {
            k - 1
        } else {
            before
        }
    }
}

fn find_latest_turn(turns: &Vec<Turn>, round_id: u64) -> (latest: Option<usize>)
    ensures
        match latest {
            Some(i) => i as int == latest_turn_index(turns@, round_id, turns@.len() as int) && i
                < turns@.len(),
            None => latest_turn_index(turns@, round_id, turns@.len() as int) == -1,
        },
{
    let mut latest: Option<usize> = None;
    let mut k: usize = 0;
    while k < turns.len()
        invariant
            k <= turns@.len(),
            match latest {
                Some(i) => i as int == latest_turn_index(turns@, round_id, k as int) && i < k,
                None => latest_turn_index(turns@, round_id, k as int) == -1,
            },
        decreases turns@.len() - k,
    {
        if turns[k].round_id == round_id {
            match latest {
                Some(i) => {
                    if turns[k].turn_number >= turns[i].turn_number {
                        latest = Some(k);
                    }
                },
                None => {
                    latest = Some(k);
                },
            }
        }
        k = k + 1;
    }
    latest
}

/// Why round `round_id` of game `g` cannot move on after a taken turn, if so.
pub open spec fn after_take_refusal(v: WorldView, g: u64, round_id: u64) -> Option<GameError> {
    first_refusal(
        game_refusal(v, g),
        if latest_turn_index(v.turns, round_id, v.turns.len() as int) < 0 {
            Some(GameError::TurnNotFound)
        } else {
            resolution_refusal(v, g, round_id)
        },
    )
}

/// The defender of the latest turn of round `round_id`.
pub open spec fn latest_defender(v: WorldView, round_id: u64) -> PlayerId {
    v.turns[latest_turn_index(v.turns, round_id, v.turns.len() as int)].defender
}

/// Moves a round on after a turn whose defender took the cards: looks for
/// the end of the round and, where it goes on, records the move that is open
/// now, in which the defender of the latest turn is passed over. Refused as
/// [`after_take_refusal`] says, and then nothing changes.
pub fn start_next_turn_after_take(world: &mut World, ctx: &Context, game_id: u64, round_id: u64) -> (result:
    Result<Resolution, GameError>)
    requires
        old(world).wf(),
    ensures
        final(world).wf(),
        history_kept(old(world)@, final(world)@),
        match result {
            Ok(report) => after_take_refusal(old(world)@, game_id, round_id) is None && final(world)@ == round_advanced(
                old(world)@,
                game_id,
                round_id,
                latest_defender(old(world)@, round_id),
                true,
                ctx.timestamp,
                ctx.seed,
            ) && report == advance_report(
                old(world)@,
                game_id,
                round_id,
                latest_defender(old(world)@, round_id),
                true,
                ctx.timestamp,
            ),
            Err(e) => after_take_refusal(old(world)@, game_id, round_id) == Some(e) && final(world)@ == old(world)@,
        },
{
    match check_game(world.games(), game_id) {
        Ok(_) => {},
        Err(e) => {
            return Err(e);
        },
    }
    let defender = match find_latest_turn(world.turns(), round_id) {
        Some(i) => world.turns()[i].defender,
        None => {
            return Err(GameError::TurnNotFound);
        },
    };
    let (gi, ri) = match check_resolution(world, game_id, round_id) {
        Ok(found) => found,
        Err(e) => {
            return Err(e);
        },
    };
    proof {
        lemma_round_advanced_wf(world@, game_id, round_id, defender, true, ctx.timestamp, ctx.seed);
        lemma_first_where(world@.rounds, crate::model::is_round(round_id));
    }
    Ok(advance_round(world, gi, ri, defender, true, ctx.timestamp, ctx.seed))
}

} // verus!
