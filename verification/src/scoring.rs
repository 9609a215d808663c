//! Scoring: penalty points, the end of the game, and the next round.

use crate::cards::Card;
use crate::deck::{
    built_deck, create_deck, deal, dealt, lemma_dealt_cards, lemma_dealt_ids,
    lemma_shuffled_deck_complete, shuffle_deck, shuffled,
};
use crate::history::{history_kept, lemma_history_chain};
use crate::invariants::{
    lemma_ascending_add, lemma_ascending_kept, lemma_ascending_push, lemma_game_below_counter,
    lemma_round_added, lemma_same_ids_has_game, lemma_seats_kept, lemma_turns_kept, lemma_wf_kept,
    same_ids,
};
use crate::lookup::{
    check_game, count_active_rounds, find_game, find_lobby, find_settings, find_user, same_id,
};
use crate::model::{
    ascending, card_ids, draw_ids, first_refusal, game_ids, game_index, game_refusal, has_game,
    in_game, is_active_round_of, is_card_of, is_game, is_user, lobby_index, round_ids,
    settings_of_lobby, turn_ids, user_index, well_formed, WorldView,
};
use crate::rotation::{order_from, seat_order_from};
use crate::seqs::{
    count, keep, lemma_count_add, lemma_first_where, lemma_keep, lemma_keep_all, lemma_keep_step,
};
use crate::types::{
    Context, Game, GameError, GameStatus, Lobby, LobbyStatus, Micros, PlayerCard, PlayerId,
    PlayerStatus, Resolution, Round, RoundStatus, User,
};
use crate::world::World;
use vstd::prelude::*;

verus! {

/// The points that losing a round costs.
pub const ROUND_PENALTY: u8 = 5;

/// How many identifiers an action must find free.
pub const ID_RESERVE: u64 = 64;

/// A user who has been let go of a game.
pub open spec fn cleared(u: User) -> User {
    User {
        current_game_id: None,
        game_position: None,
        total_points: None,
        player_status: None,
        ..u
    }
}

/// The users once game `g` has let go of its players.
pub open spec fn released(users: Seq<User>, g: u64) -> Seq<User> {
    users.map_values(
        |u: User|
            if in_game(u, g) {
                cleared(u)
            } else {
                u
            },
    )
}

/// A game once it is over: finished at `now`, or as it is where it was over
/// already.
pub open spec fn game_closed(game: Game, now: Micros) -> Game {
    if game.status == GameStatus::Finished {
        game
    } else {
        Game { status: GameStatus::Finished, finished_at: Some(now), ..game }
    }
}

/// The tables once game `g` is over: the game is finished, at `now` unless
/// it was over before, its players are let go, and its lobby, if there is
/// one, is finished.
pub open spec fn game_finished(v: WorldView, g: u64, now: Micros) -> WorldView {
    let gi = game_index(v.games, g);
    let game = v.games[gi];
    let li = lobby_index(v.lobbies, game.lobby_id);
    WorldView {
        games: v.games.update(gi, game_closed(game, now)),
        users: released(v.users, g),
        lobbies: if li < v.lobbies.len() {
            v.lobbies.update(li, Lobby { status: LobbyStatus::Finished, ..v.lobbies[li] })
        } else {
            v.lobbies
        },
        ..v
    }
}

/// The users once every player of game `g` is active again.
pub open spec fn reactivated(users: Seq<User>, g: u64) -> Seq<User> {
    users.map_values(
        |u: User|
            if in_game(u, g) {
                User { player_status: Some(PlayerStatus::Active), ..u }
            } else {
                u
            },
    )
}

pub open spec fn is_not_of_game(g: u64) -> spec_fn(PlayerCard) -> bool {
    |pc: PlayerCard| pc.game_id != g
}

/// The counters leave room for what an action on game `g` may add.
pub open spec fn has_headroom(v: WorldView, g: u64) -> bool {
    v.next_id <= u64::MAX - ID_RESERVE && v.games[game_index(v.games, g)].current_round < u32::MAX
}

/// The tables once game `g` has gone on to its next round: every player of
/// the game is active again, the round is added, and the cards of the game
/// are dealt anew from a fresh deck shuffled under `seed`, to the seats in
/// their order and by the settings of the game. The trump suit stays.
pub open spec fn round_started(v: WorldView, g: u64, now: Micros, seed: u64) -> WorldView {
    let gi = game_index(v.games, g);
    let game = v.games[gi];
    let rules = settings_of_lobby(v.settings, game.lobby_id);
    let number = (game.current_round + 1) as u32;
    WorldView {
        users: reactivated(v.users, g),
        rounds: v.rounds.push(
            Round {
                id: v.next_id,
                game_id: g,
                round_number: number,
                status: RoundStatus::Active,
                loser: None,
                pending_move: None,
                started_at: now,
                finished_at: None,
            },
        ),
        games: v.games.update(gi, Game { current_round: number, ..game }),
        cards: keep(v.cards, is_not_of_game(g)) + dealt(
            shuffled(built_deck(), seed),
            g,
            order_from(v.users, g, false, 0),
            rules.starting_cards as int,
            rules.trump_card_to_player,
            v.next_id + 1,
        ),
        next_id: (v.next_id + 37) as u64,
        ..v
    }
}

/// The points of a user after one more lost round. The sum stops at 255.
pub open spec fn points_after_loss(u: User) -> u8 {
    let before: u8 = match u.total_points {
        Some(p) => p,
        None => 0,
    };
    if before > 255 - ROUND_PENALTY {
        255
    } else {
        (before + ROUND_PENALTY) as u8
    }
}

/// The users once the loser of a round, if there is one, bears its penalty.
pub open spec fn penalised(users: Seq<User>, loser: Option<PlayerId>) -> Seq<User> {
    match loser {
        Some(l) => {
            let i = user_index(users, l);
            if i < users.len() {
                users.update(i, User { total_points: Some(points_after_loss(users[i])), ..users[i] })
            } else {
                users
            }
        },
        None => users,
    }
}

/// A round of game `g` lost by `loser` ends the game: the game plays one
/// round only, or the loser's points reach the limit of the game.
pub open spec fn ends_game(v: WorldView, g: u64, loser: Option<PlayerId>) -> bool {
    let rules = settings_of_lobby(v.settings, v.games[game_index(v.games, g)].lobby_id);
    !rules.multi_round_mode || match loser {
        Some(l) => points_after_loss(v.users[user_index(v.users, l)]) >= rules.max_points,
        None => false,
    }
}

/// Why a new round of game `g` is refused, if it is: the game is missing
/// or over, it still plays a round, or the counters leave no room.
pub open spec fn new_round_refusal(v: WorldView, g: u64) -> Option<GameError> {
    first_refusal(
        game_refusal(v, g),
        if count(v.rounds, is_active_round_of(g)) > 0 {
            Some(GameError::RoundStillActive)
        } else if !has_headroom(v, g) {
            Some(GameError::OutOfIdentifiers)
        } else {
            None
        },
    )
}

/// Why the scoring of a round is refused, if it is.
pub open spec fn scoring_refusal(v: WorldView, g: u64, loser: Option<PlayerId>) -> Option<
    GameError,
> {
    let rules = settings_of_lobby(v.settings, v.games[game_index(v.games, g)].lobby_id);
    first_refusal(
        game_refusal(v, g),
        if rules.multi_round_mode && loser is Some && user_index(v.users, loser->0)
            >= v.users.len() {
            Some(GameError::LoserNotFound)
        } else if !ends_game(v, g, loser) {
            new_round_refusal(v, g)
        } else {
            None
        },
    )
}

/// The tables once a round of game `g` lost by `loser` is scored.
///
/// A game of one round ends at once, with no points given. Otherwise the
/// loser bears the penalty; a round that nobody lost costs nobody anything.
/// The game ends where the loser's points reach its limit, and goes on to
/// its next round where they do not.
pub open spec fn scored(v: WorldView, g: u64, loser: Option<PlayerId>, now: Micros, seed: u64) -> WorldView {
    let rules = settings_of_lobby(v.settings, v.games[game_index(v.games, g)].lobby_id);
    if !rules.multi_round_mode {
        game_finished(v, g, now)
    } else {
        let charged = WorldView { users: penalised(v.users, loser), ..v };
        if ends_game(v, g, loser) {
            game_finished(charged, g, now)
        } else {
            round_started(charged, g, now, seed)
        }
    }
}

/// What the scoring of a round reports.
pub open spec fn score_report(v: WorldView, g: u64, loser: Option<PlayerId>) -> Resolution {
    if ends_game(v, g, loser) {
        Resolution::GameOver { final_loser: loser }
    } else {
        Resolution::RoundOver { loser }
    }
}

pub(crate) proof fn lemma_game_finished_wf(v: WorldView, g: u64, now: Micros)
    requires
        well_formed(v),
        has_game(v.games, g),
    ensures
        well_formed(game_finished(v, g, now)),
        history_kept(v, game_finished(v, g, now)),
        same_ids(v.games, game_finished(v, g, now).games),
        game_finished(v, g, now).next_id == v.next_id,
{
    lemma_first_where(v.games, is_game(g));
    lemma_first_where(v.lobbies, crate::model::is_lobby(v.games[game_index(v.games, g)].lobby_id));
    lemma_wf_kept(v, game_finished(v, g, now));
}

pub(crate) proof fn lemma_round_started_wf(v: WorldView, g: u64, now: Micros, seed: u64)
    requires
        well_formed(v),
        new_round_refusal(v, g) is None,
    ensures
        well_formed(round_started(v, g, now, seed)),
        history_kept(v, round_started(v, g, now, seed)),
        same_ids(v.games, round_started(v, g, now, seed).games),
        round_started(v, g, now, seed).next_id >= v.next_id,
{
    let w = round_started(v, g, now, seed);
    let gi = game_index(v.games, g);
    let rules = settings_of_lobby(v.settings, v.games[gi].lobby_id);
    let kept = keep(v.cards, is_not_of_game(g));
    let fresh = dealt(
        shuffled(built_deck(), seed),
        g,
        order_from(v.users, g, false, 0),
        rules.starting_cards as int,
        rules.trump_card_to_player,
        v.next_id + 1,
    );
    lemma_first_where(v.games, is_game(g));
    lemma_game_below_counter(v, g);
    lemma_round_added(v.rounds, v.next_id, w.rounds.last(), w.next_id);
    assert(w.rounds =~= v.rounds.push(w.rounds.last()));
    assert(same_ids(v.games, w.games));
    lemma_seats_kept(v.users, v.next_id, w.users, w.next_id);
    lemma_turns_kept(v.turns, w.turns);
    lemma_ascending_kept(game_ids(v.games), v.next_id, game_ids(w.games), w.next_id);
    lemma_ascending_kept(turn_ids(v.turns), v.next_id, turn_ids(w.turns), w.next_id);
    lemma_ascending_kept(draw_ids(v.draws), v.next_id, draw_ids(w.draws), w.next_id);
    lemma_ascending_push(round_ids(v.rounds), v.next_id, v.next_id, w.next_id);
    assert(round_ids(w.rounds) =~= round_ids(v.rounds).push(v.next_id));
    lemma_keep_ascending(v.cards, is_not_of_game(g), v.next_id);
    lemma_shuffled_deck_complete(seed, Card { suit: crate::cards::Suit::Hearts, rank: crate::cards::Rank::Six });
    lemma_dealt_ids(
        shuffled(built_deck(), seed),
        g,
        order_from(v.users, g, false, 0),
        rules.starting_cards as int,
        rules.trump_card_to_player,
        v.next_id + 1,
    );
    lemma_ascending_add(card_ids(kept), v.next_id, card_ids(fresh), w.next_id);
    assert(card_ids(w.cards) =~= card_ids(kept) + card_ids(fresh));
    assert forall|i: int| 0 <= i < w.games.len() implies (#[trigger] w.games[i]).id
        < w.next_id by {
        assert(v.games[i].id < v.next_id);
    }
    let below = |pc: PlayerCard| pc.game_id < v.next_id;
    assert forall|i: int| 0 <= i < v.cards.len() implies below(v.cards[i]) by {}
    lemma_keep_all(v.cards, is_not_of_game(g), below);
    assert forall|i: int| 0 <= i < w.cards.len() implies (#[trigger] w.cards[i]).game_id
        < w.next_id by {
        if i < kept.len() {
            assert(below(kept[i]));
        } else {
            assert(w.cards[i] == fresh[i - kept.len()]);
        }
    }
    assert forall|h: u64, c: Card| has_game(w.games, h) implies #[trigger] count(
        w.cards,
        is_card_of(h, c),
    ) == 1 by {
        lemma_same_ids_has_game(v.games, w.games, h);
        lemma_count_add(kept, fresh, is_card_of(h, c));
        lemma_keep(v.cards, is_not_of_game(g), is_card_of(h, c));
        lemma_dealt_cards(
            shuffled(built_deck(), seed),
            g,
            order_from(v.users, g, false, 0),
            rules.starting_cards as int,
            rules.trump_card_to_player,
            v.next_id + 1,
            h,
            c,
        );
        lemma_shuffled_deck_complete(seed, c);
    }
}

/// The rows that are kept of a table with rising identifiers have rising
/// identifiers.
pub(crate) proof fn lemma_keep_ascending(cards: Seq<PlayerCard>, f: spec_fn(PlayerCard) -> bool, bound: u64)
    requires
        ascending(card_ids(cards), bound),
    ensures
        ascending(card_ids(keep(cards, f)), bound),
    decreases cards.len(),
{
    if cards.len() > 0 {
        let front = cards.drop_last();
        let last = cards.last();
        assert(card_ids(front) =~= card_ids(cards).drop_last());
        lemma_keep_ascending(front, f, bound);
        let below = |pc: PlayerCard| pc.id < last.id;
        assert forall|i: int| 0 <= i < front.len() implies below(front[i]) by {
            assert(card_ids(cards)[i] < card_ids(cards)[cards.len() - 1]);
        }
        lemma_keep_all(front, f, below);
        assert(card_ids(cards)[cards.len() - 1] < bound);
        let kept = keep(front, f);
        assert forall|i: int| 0 <= i < kept.len() implies card_ids(kept)[i] < last.id by {
            assert(below(kept[i]));
        }
        if f(last) {
            assert(card_ids(keep(cards, f)) =~= card_ids(kept).push(last.id));
        }
    }
}

pub(crate) proof fn lemma_scored_wf(v: WorldView, g: u64, loser: Option<PlayerId>, now: Micros, seed: u64)
    requires
        well_formed(v),
        scoring_refusal(v, g, loser) is None,
    ensures
        well_formed(scored(v, g, loser, now, seed)),
        history_kept(v, scored(v, g, loser, now, seed)),
        same_ids(v.games, scored(v, g, loser, now, seed).games),
        scored(v, g, loser, now, seed).next_id >= v.next_id,
{
    let rules = settings_of_lobby(v.settings, v.games[game_index(v.games, g)].lobby_id);
    if !rules.multi_round_mode {
        lemma_game_finished_wf(v, g, now);
    } else {
        let charged = WorldView { users: penalised(v.users, loser), ..v };
        if loser is Some {
            lemma_first_where(v.users, is_user(loser->0));
        }
        lemma_wf_kept(v, charged);
        if ends_game(v, g, loser) {
            lemma_game_finished_wf(charged, g, now);
        } else {
            lemma_round_started_wf(charged, g, now, seed);
        }
        lemma_history_chain(v, charged, scored(v, g, loser, now, seed));
    }
}

fn release_players(users: &Vec<User>, g: u64) -> (out: Vec<User>)
    ensures
        out@ == released(users@, g),
{
    let mut out: Vec<User> = Vec::new();
    let mut i: usize = 0;
    while i < users.len()
        invariant
            i <= users@.len(),
            out@.len() == i,
            forall|j: int| 0 <= j < i ==> out@[j] == released(users@, g)[j],
        decreases users@.len() - i,
    {
        let u = users[i];
        if same_id(u.current_game_id, g) {
            out.push(
                User {
                    current_game_id: None,
                    game_position: None,
                    total_points: None,
                    player_status: None,
                    ..u
                },
            );
        } else {
            out.push(u);
        }
        i = i + 1;
    }
    assert(out@ =~= released(users@, g));
    out
}

fn reactivate_players(users: &Vec<User>, g: u64) -> (out: Vec<User>)
    ensures
        out@ == reactivated(users@, g),
{
    let mut out: Vec<User> = Vec::new();
    let mut i: usize = 0;
    while i < users.len()
        invariant
            i <= users@.len(),
            out@.len() == i,
            forall|j: int| 0 <= j < i ==> out@[j] == reactivated(users@, g)[j],
        decreases users@.len() - i,
    {
        let u = users[i];
        if same_id(u.current_game_id, g) {
            out.push(User { player_status: Some(PlayerStatus::Active), ..u });
        } else {
            out.push(u);
        }
        i = i + 1;
    }
    assert(out@ =~= reactivated(users@, g));
    out
}

fn cards_of_other_games(cards: &Vec<PlayerCard>, g: u64) -> (out: Vec<PlayerCard>)
    ensures
        out@ == keep(cards@, is_not_of_game(g)),
{
    let mut out: Vec<PlayerCard> = Vec::new();
    let mut i: usize = 0;
    while i < cards.len()
        invariant
            i <= cards@.len(),
            out@ == keep(cards@.take(i as int), is_not_of_game(g)),
        decreases cards@.len() - i,
    {
        proof {
            lemma_keep_step(cards@, i as int, is_not_of_game(g));
        }
        if cards[i].game_id != g {
            out.push(cards[i]);
        }
        i = i + 1;
    }
    assert(cards@.take(i as int) =~= cards@);
    out
}

/// Ends game `g`, which stands at place `gi`.
pub(crate) fn close_game(world: &mut World, gi: usize, now: Micros)
    requires
        gi < old(world)@.games.len(),
        gi as int == game_index(old(world)@.games, old(world)@.games[gi as int].id),
    ensures
        final(world)@ == game_finished(old(world)@, old(world)@.games[gi as int].id, now),
{
    let game = world.games()[gi];
    if game.status != GameStatus::Finished {
        world.set_game(gi, Game { status: GameStatus::Finished, finished_at: Some(now), ..game });
    }
    assert(world@.games =~= old(world)@.games.update(gi as int, game_closed(game, now)));
    let users = release_players(world.users(), game.id);
    world.set_users(users);
    let li = find_lobby(world.lobbies(), game.lobby_id);
    if li < world.lobbies().len() {
        let lobby = world.lobbies()[li];
        world.set_lobby(li, Lobby { status: LobbyStatus::Finished, ..lobby });
    }
}

/// Moves game `g`, which stands at place `gi`, on to its next round.
pub(crate) fn open_next_round(world: &mut World, gi: usize, now: Micros, seed: u64)
    requires
        gi < old(world)@.games.len(),
        gi as int == game_index(old(world)@.games, old(world)@.games[gi as int].id),
        has_headroom(old(world)@, old(world)@.games[gi as int].id),
    ensures
        final(world)@ == round_started(old(world)@, old(world)@.games[gi as int].id, now, seed),
{
    let game = world.games()[gi];
    let g = game.id;
    let rules = find_settings(world.settings(), game.lobby_id);
    let number: u32 = game.current_round + 1;
    let first = world.next_id();
    let seats = seat_order_from(world.users(), g, false, 0);
    let deck = shuffle_deck(create_deck(rules.deck_size), seed);
    let fresh = deal(&deck, g, &seats, rules.starting_cards, rules.trump_card_to_player, first + 1);
    let mut cards = cards_of_other_games(world.cards(), g);
    let mut fresh = fresh;
    cards.append(&mut fresh);
    let users = reactivate_players(world.users(), g);
    world.set_users(users);
    world.push_round(
        Round {
            id: first,
            game_id: g,
            round_number: number,
            status: RoundStatus::Active,
            loser: None,
            pending_move: None,
            started_at: now,
            finished_at: None,
        },
    );
    world.set_game(gi, Game { current_round: number, ..game });
    world.set_cards(cards);
    world.set_next_id(first + 37);
}

/// Ends a game: it is finished, its players are let go of their seat,
/// points and standing, and its lobby is finished. A game that was over
/// already keeps the time at which it ended. Reports the loser it was given.
/// Refused only where the game is missing, and then nothing changes.
pub fn finish_game(
    world: &mut World,
    ctx: &Context,
    game_id: u64,
    final_loser: Option<PlayerId>,
) -> (result: Result<Resolution, GameError>)
    requires
        old(world).wf(),
    ensures
        final(world).wf(),
        history_kept(old(world)@, final(world)@),
        match result {
            Ok(report) => has_game(old(world)@.games, game_id) && final(world)@ == game_finished(
                old(world)@,
                game_id,
                ctx.timestamp,
            ) && report == (Resolution::GameOver { final_loser }),
            Err(e) => !has_game(old(world)@.games, game_id) && e == GameError::GameNotFound
                && final(world)@ == old(world)@,
        },
{
    let gi = find_game(world.games(), game_id);
    if gi >= world.games().len() {
        return Err(GameError::GameNotFound);
    }
    proof {
        lemma_game_finished_wf(world@, game_id, ctx.timestamp);
    }
    close_game(world, gi, ctx.timestamp);
    Ok(Resolution::GameOver { final_loser })
}

/// Starts the next round of a game (see [`round_started`]).
pub fn start_new_round(world: &mut World, ctx: &Context, game_id: u64) -> (result: Result<
    (),
    GameError,
>)
    requires
        old(world).wf(),
    ensures
        final(world).wf(),
        history_kept(old(world)@, final(world)@),
        match result {
            Ok(()) => new_round_refusal(old(world)@, game_id) is None && final(world)@
                == round_started(old(world)@, game_id, ctx.timestamp, ctx.seed),
            Err(e) => new_round_refusal(old(world)@, game_id) == Some(e) && final(world)@ == old(
                world,
            )@,
        },
{
    let gi = match check_game(world.games(), game_id) {
        Ok(gi) => gi,
        Err(e) => {
            return Err(e);
        },
    };
    if count_active_rounds(world.rounds(), game_id) > 0 {
        return Err(GameError::RoundStillActive);
    }
    if world.next_id() > u64::MAX - ID_RESERVE || world.games()[gi].current_round == u32::MAX {
        return Err(GameError::OutOfIdentifiers);
    }
    proof {
        lemma_round_started_wf(world@, game_id, ctx.timestamp, ctx.seed);
    }
    open_next_round(world, gi, ctx.timestamp, ctx.seed);
    Ok(())
}

/// Scores a round of game `g`, which stands at place `gi`.
pub(crate) fn score_round(
    world: &mut World,
    gi: usize,
    loser: Option<PlayerId>,
    now: Micros,
    seed: u64,
) -> (report: Resolution)
    requires
        gi < old(world)@.games.len(),
        gi as int == game_index(old(world)@.games, old(world)@.games[gi as int].id),
        scoring_refusal(old(world)@, old(world)@.games[gi as int].id, loser) is None,
    ensures
        final(world)@ == scored(old(world)@, old(world)@.games[gi as int].id, loser, now, seed),
        report == score_report(old(world)@, old(world)@.games[gi as int].id, loser),
{
    let game = world.games()[gi];
    let rules = find_settings(world.settings(), game.lobby_id);
    if !rules.multi_round_mode {
        close_game(world, gi, now);
        return Resolution::GameOver { final_loser: loser };
    }
    let mut over = false;
    match loser {
        Some(l) => {
            let li = find_user(world.users(), l);
            let u = world.users()[li];
            let before: u8 = match u.total_points {
                Some(p) => p,
                None => 0,
            };
            let after: u8 = if before > 255 - ROUND_PENALTY {
                255
            } else {
                before + ROUND_PENALTY
            };
            world.set_user(li, User { total_points: Some(after), ..u });
            over = after >= rules.max_points;
        },
        None => {},
    }
    if over {
        close_game(world, gi, now);
        Resolution::GameOver { final_loser: loser }
    } else {
        open_next_round(world, gi, now, seed);
        Resolution::RoundOver { loser }
    }
}

/// Scores a finished round of a game (see [`scored`]).
pub fn handle_round_scoring(
    world: &mut World,
    ctx: &Context,
    game_id: u64,
    loser: Option<PlayerId>,
) -> (result: Result<Resolution, GameError>)
    requires
        old(world).wf(),
    ensures
        final(world).wf(),
        history_kept(old(world)@, final(world)@),
        match result {
            Ok(report) => scoring_refusal(old(world)@, game_id, loser) is None && final(world)@
                == scored(old(world)@, game_id, loser, ctx.timestamp, ctx.seed) && report
                == score_report(old(world)@, game_id, loser),
            Err(e) => scoring_refusal(old(world)@, game_id, loser) == Some(e) && final(world)@
                == old(world)@,
        },
{
    let gi = match check_game(world.games(), game_id) {
        Ok(gi) => gi,
        Err(e) => {
            return Err(e);
        },
    };
    let game = world.games()[gi];
    let rules = find_settings(world.settings(), game.lobby_id);
    let mut over = !rules.multi_round_mode;
    if rules.multi_round_mode {
        match loser {
            Some(l) => {
                let li = find_user(world.users(), l);
                if li >= world.users().len() {
                    return Err(GameError::LoserNotFound);
                }
                let before: u8 = match world.users()[li].total_points {
                    Some(p) => p,
                    None => 0,
                };
                let after: u8 = if before > 255 - ROUND_PENALTY {
                    255
                } else {
                    before + ROUND_PENALTY
                };
                over = after >= rules.max_points;
            },
            None => {},
        }
    }
    if !over && count_active_rounds(world.rounds(), game_id) > 0 {
        return Err(GameError::RoundStillActive);
    }
    if !over && (world.next_id() > u64::MAX - ID_RESERVE || game.current_round == u32::MAX) {
        return Err(GameError::OutOfIdentifiers);
    }
    proof {
        lemma_scored_wf(world@, game_id, loser, ctx.timestamp, ctx.seed);
    }
    Ok(score_round(world, gi, loser, ctx.timestamp, ctx.seed))
}

} // verus!
