//! Starting a game from a lobby.

use crate::cards::Card;
use crate::deck::{
    built_deck, create_deck, deal, dealt, lemma_dealt_cards, lemma_dealt_ids,
    lemma_shuffled_deck_complete, shuffle_deck, shuffled,
};
use crate::history::history_kept;
use crate::invariants::{
    lemma_ascending_add, lemma_ascending_kept, lemma_ascending_push, lemma_has_game_push,
    lemma_names_kept, lemma_round_added, lemma_turns_kept,
};
use crate::lookup::{find_lobby, find_settings, find_user, same_id};
use crate::model::{
    card_ids, draw_ids, game_ids, has_game, in_lobby, is_active_round_of, is_card_of, is_in_lobby,
    lobby_ids, lobby_index, round_ids, seat_clash, seats_sound, settings_of_lobby, turn_ids,
    user_index, well_formed, WorldView,
};
use crate::scoring::ID_RESERVE;
use crate::seqs::{
    count, keep, lemma_count_add, lemma_count_step, lemma_count_zero, lemma_first_where,
    lemma_keep_len, lemma_keep_step,
};
use crate::types::{
    Context, Game, GameError, GameStatus, Lobby, LobbyStatus, Micros, PlayerId, PlayerStatus, Round,
    RoundStatus, User,
};
use crate::world::{copy_rows, World};
use vstd::prelude::*;

verus! {

/// The players of lobby `l`, in the order of the table.
pub open spec fn lobby_roster(users: Seq<User>, l: u64) -> Seq<PlayerId> {
    keep(users, is_in_lobby(l)).map_values(|u: User| u.identity)
}

/// A user of the lobby who has taken seat `seat` in game `g`.
pub open spec fn seated_user(u: User, g: u64, seat: int) -> User {
    User {
        current_lobby_id: None,
        current_game_id: Some(g),
        game_position: Some(seat as u8),
        total_points: Some(0),
        player_status: Some(PlayerStatus::Active),
        ..u
    }
}

/// The users once the players of lobby `l` have sat down in game `g`: they
/// take the seats 0, 1, 2 and so on in the order of the table, leave the
/// lobby, and begin active and without points.
pub open spec fn seated(users: Seq<User>, l: u64, g: u64) -> Seq<User> {
    Seq::new(
        users.len(),
        |i: int|
            if in_lobby(users[i], l) {
                seated_user(users[i], g, keep(users.take(i), is_in_lobby(l)).len() as int)
            } else {
                users[i]
            },
    )
}

/// Why `p` may not start the game of lobby `l`, if so. The checks stand in
/// the order in which they are made.
pub open spec fn start_refusal(v: WorldView, p: PlayerId, l: u64) -> Option<GameError> {
    let ui = user_index(v.users, p);
    let li = lobby_index(v.lobbies, l);
    let rules = settings_of_lobby(v.settings, l);
    let players = count(v.users, is_in_lobby(l));
    if ui >= v.users.len() {
        Some(GameError::UserNotFound)
    } else if !in_lobby(v.users[ui], l) {
        Some(GameError::NotInLobby)
    } else if li >= v.lobbies.len() {
        Some(GameError::LobbyNotFound)
    } else if v.lobbies[li].creator != p {
        Some(GameError::NotLobbyCreator)
    } else if v.lobbies[li].status != LobbyStatus::Waiting {
        Some(GameError::AlreadyStarted)
    } else if v.lobbies[li].current_players < 2 {
        Some(GameError::NotEnoughPlayers)
    } else if players != v.lobbies[li].current_players {
        Some(GameError::PlayerCountMismatch)
    } else if players * rules.starting_cards > 36 {
        Some(GameError::NotEnoughCards)
    } else if v.next_id > u64::MAX - ID_RESERVE {
        Some(GameError::OutOfIdentifiers)
    } else {
        None
    }
}

/// The game that is started from lobby `l`.
pub open spec fn started_game(v: WorldView, l: u64, now: Micros, seed: u64) -> Game {
    Game {
        id: v.next_id,
        lobby_id: l,
        status: GameStatus::Active,
        trump_suit: shuffled(built_deck(), seed).last().suit,
        current_round: 1,
        started_at: now,
        finished_at: None,
    }
}

/// The tables once the game of lobby `l` is started.
///
/// A fresh deck is shuffled under `seed`; the suit of its last card is the
/// trump of the game. The players of the lobby sit down, the deck is dealt
/// to them by the settings of the lobby, the first round begins, and the
/// lobby is in game.
pub open spec fn started(v: WorldView, l: u64, now: Micros, seed: u64) -> WorldView {
    let li = lobby_index(v.lobbies, l);
    let rules = settings_of_lobby(v.settings, l);
    let g = v.next_id;
    WorldView {
        games: v.games.push(started_game(v, l, now, seed)),
        users: seated(v.users, l, g),
        cards: v.cards + dealt(
            shuffled(built_deck(), seed),
            g,
            lobby_roster(v.users, l),
            rules.starting_cards as int,
            rules.trump_card_to_player,
            g + 2,
        ),
        rounds: v.rounds.push(
            Round {
                id: (g + 1) as u64,
                game_id: g,
                round_number: 1,
                status: RoundStatus::Active,
                loser: None,
                pending_move: None,
                started_at: now,
                finished_at: None,
            },
        ),
        lobbies: v.lobbies.update(li, Lobby { status: LobbyStatus::InGame, ..v.lobbies[li] }),
        next_id: (g + 38) as u64,
        ..v
    }
}

/// Every player of the lobby has taken a seat of their own.
proof fn lemma_seated_sound(users: Seq<User>, l: u64, g: u64)
    requires
        seats_sound(users, g),
        count(users, is_in_lobby(l)) <= 255,
        g < u64::MAX,
    ensures
        seats_sound(seated(users, l, g), (g + 1) as u64),
{
    let after = seated(users, l, g);
    assert forall|i: int|
        0 <= i < after.len() && (#[trigger] after[i]).current_game_id is Some implies after[i].current_game_id->0
        < g + 1 && after[i].game_position is Some by {
        if !in_lobby(users[i], l) {
            assert(users[i].current_game_id is Some);
        }
    }
    assert forall|i: int, j: int| 0 <= i < j < after.len() implies !#[trigger] seat_clash(
        after[i],
        after[j],
    ) by {
        assert(!seat_clash(users[i], users[j]));
        if in_lobby(users[i], l) && in_lobby(users[j], l) {
            lemma_seat_numbers_rise(users, l, i, j);
            lemma_seat_numbers_rise(users, l, j, users.len() as int);
            assert(users.take(users.len() as int) =~= users);
            lemma_keep_len(users, is_in_lobby(l));
        } else if !in_lobby(users[i], l) && !in_lobby(users[j], l) {
        } else if in_lobby(users[i], l) {
            assert(users[j].current_game_id is Some ==> users[j].current_game_id->0 < g);
        } else {
            assert(users[i].current_game_id is Some ==> users[i].current_game_id->0 < g);
        }
    }
}

/// From a player of the lobby to a later place in the table, the number of
/// players of the lobby that stand before the place rises.
proof fn lemma_seat_numbers_rise(users: Seq<User>, l: u64, i: int, j: int)
    requires
        0 <= i < j <= users.len(),
        in_lobby(users[i], l),
    ensures
        keep(users.take(i), is_in_lobby(l)).len() < keep(users.take(j), is_in_lobby(l)).len(),
    decreases j - i,
{
    lemma_keep_step(users, j - 1, is_in_lobby(l));
    if j - 1 > i {
        lemma_seat_numbers_rise(users, l, i, j - 1);
    }
}

pub(crate) proof fn lemma_started_wf(v: WorldView, l: u64, now: Micros, seed: u64)
    requires
        well_formed(v),
        v.next_id <= u64::MAX - ID_RESERVE,
        count(v.users, is_in_lobby(l)) <= 255,
        lobby_index(v.lobbies, l) < v.lobbies.len(),
    ensures
        well_formed(started(v, l, now, seed)),
{
    let w = started(v, l, now, seed);
    lemma_seated_sound(v.users, l, v.next_id);
    assert forall|i: int, j: int| 0 <= i < j < w.users.len() implies (#[trigger] w.users[i]).identity
        != (#[trigger] w.users[j]).identity by {
        assert(v.users[i].identity != v.users[j].identity);
    }
    lemma_names_kept(v, w);
    lemma_first_where(v.lobbies, crate::model::is_lobby(l));
    assert(lobby_ids(w.lobbies) =~= lobby_ids(v.lobbies));
    lemma_ascending_kept(lobby_ids(v.lobbies), v.next_id, lobby_ids(w.lobbies), w.next_id);
    lemma_turns_kept(v.turns, w.turns);
    lemma_ascending_kept(turn_ids(v.turns), v.next_id, turn_ids(w.turns), w.next_id);
    lemma_ascending_kept(draw_ids(v.draws), v.next_id, draw_ids(w.draws), w.next_id);
    lemma_ascending_push(game_ids(v.games), v.next_id, v.next_id, w.next_id);
    assert(game_ids(w.games) =~= game_ids(v.games).push(v.next_id));
    lemma_ascending_push(round_ids(v.rounds), v.next_id, (v.next_id + 1) as u64, w.next_id);
    assert(round_ids(w.rounds) =~= round_ids(v.rounds).push((v.next_id + 1) as u64));
    lemma_shuffled_deck_complete(seed, Card {
        suit: crate::cards::Suit::Hearts,
        rank: crate::cards::Rank::Six,
    });
    lemma_dealt_ids(
        shuffled(built_deck(), seed),
        v.next_id,
        lobby_roster(v.users, l),
        settings_of_lobby(v.settings, l).starting_cards as int,
        settings_of_lobby(v.settings, l).trump_card_to_player,
        v.next_id + 2,
    );
    lemma_ascending_add(
        card_ids(v.cards),
        v.next_id,
        card_ids(
            dealt(
                shuffled(built_deck(), seed),
                v.next_id,
                lobby_roster(v.users, l),
                settings_of_lobby(v.settings, l).starting_cards as int,
                settings_of_lobby(v.settings, l).trump_card_to_player,
                v.next_id + 2,
            ),
        ),
        w.next_id,
    );
    assert(card_ids(w.cards) =~= card_ids(v.cards) + card_ids(
        dealt(
            shuffled(built_deck(), seed),
            v.next_id,
            lobby_roster(v.users, l),
            settings_of_lobby(v.settings, l).starting_cards as int,
            settings_of_lobby(v.settings, l).trump_card_to_player,
            v.next_id + 2,
        ),
    ));
    let g = v.next_id;
    let rules = settings_of_lobby(v.settings, l);
    let fresh = dealt(
        shuffled(built_deck(), seed),
        g,
        lobby_roster(v.users, l),
        rules.starting_cards as int,
        rules.trump_card_to_player,
        g + 2,
    );
    assert forall|i: int| 0 <= i < v.rounds.len() implies !is_active_round_of(g)(v.rounds[i]) by {
        assert(v.rounds[i].game_id < v.next_id);
    }
    lemma_count_zero(v.rounds, is_active_round_of(g));
    lemma_round_added(v.rounds, v.next_id, w.rounds.last(), w.next_id);
    assert(w.rounds =~= v.rounds.push(w.rounds.last()));
    assert forall|i: int| 0 <= i < w.games.len() implies (#[trigger] w.games[i]).id
        < w.next_id by {
        if i < v.games.len() {
            assert(v.games[i].id < v.next_id);
        }
    }
    assert forall|i: int| 0 <= i < w.cards.len() implies (#[trigger] w.cards[i]).game_id
        < w.next_id by {
        if i < v.cards.len() {
            assert(v.cards[i].game_id < v.next_id);
        } else {
            assert(w.cards[i] == fresh[i - v.cards.len()]);
        }
    }
    assert forall|h: u64, c: Card| has_game(w.games, h) implies #[trigger] count(
        w.cards,
        is_card_of(h, c),
    ) == 1 by {
        lemma_has_game_push(v.games, started_game(v, l, now, seed), h);
        lemma_count_add(v.cards, fresh, is_card_of(h, c));
        lemma_dealt_cards(
            shuffled(built_deck(), seed),
            g,
            lobby_roster(v.users, l),
            rules.starting_cards as int,
            rules.trump_card_to_player,
            g + 2,
            h,
            c,
        );
        lemma_shuffled_deck_complete(seed, c);
        if h == g {
            assert forall|i: int| 0 <= i < v.cards.len() implies !is_card_of(h, c)(
                v.cards[i],
            ) by {
                assert(v.cards[i].game_id < v.next_id);
            }
            lemma_count_zero(v.cards, is_card_of(h, c));
        } else {
            assert(has_game(v.games, h));
        }
    }
}

fn seat_players(users: &Vec<User>, l: u64, g: u64) -> (out: (Vec<User>, Vec<PlayerId>))
    requires
        count(users@, is_in_lobby(l)) <= 255,
    ensures
        out.0@ == seated(users@, l, g),
        out.1@ == lobby_roster(users@, l),
{
    let mut after: Vec<User> = Vec::new();
    let mut roster: Vec<PlayerId> = Vec::new();
    let mut i: usize = 0;
    assert(keep(users@.take(0), is_in_lobby(l)).map_values(|u: User| u.identity) =~= Seq::<
        PlayerId,
    >::empty());
    while i < users.len()
        invariant
            i <= users@.len(),
            count(users@, is_in_lobby(l)) <= 255,
            after@.len() == i,
            forall|j: int| 0 <= j < i ==> after@[j] == seated(users@, l, g)[j],
            roster@ == keep(users@.take(i as int), is_in_lobby(l)).map_values(
                |u: User| u.identity,
            ),
            roster@.len() == count(users@.take(i as int), is_in_lobby(l)),
            roster@.len() <= i,
        decreases users@.len() - i,
    {
        proof {
            lemma_keep_step(users@, i as int, is_in_lobby(l));
            lemma_count_step(users@, i as int, is_in_lobby(l));
            lemma_count_prefix(users@, i as int + 1, is_in_lobby(l));
        }
        let u = users[i];
        if same_id(u.current_lobby_id, l) {
            let seat: u8 = roster.len() as u8;
            after.push(
                User {
                    current_lobby_id: None,
                    current_game_id: Some(g),
                    game_position: Some(seat),
                    total_points: Some(0),
                    player_status: Some(PlayerStatus::Active),
                    ..u
                },
            );
            roster.push(u.identity);
        } else {
            after.push(u);
        }
        i = i + 1;
        assert(roster@ =~= keep(users@.take(i as int), is_in_lobby(l)).map_values(
            |u: User| u.identity,
        ));
    }
    assert(users@.take(i as int) =~= users@);
    assert(after@ =~= seated(users@, l, g));
    (after, roster)
}

/// A prefix counts no more than the whole.
proof fn lemma_count_prefix<T>(s: Seq<T>, k: int, f: spec_fn(T) -> bool)
    requires
        0 <= k <= s.len(),
    ensures
        count(s.take(k), f) <= count(s, f),
    decreases s.len() - k,
{
    if k < s.len() {
        lemma_count_step(s, k, f);
        lemma_count_prefix(s, k + 1, f);
    } else {
        assert(s.take(k) =~= s);
    }
}

fn count_in_lobby(users: &Vec<User>, l: u64) -> (n: usize)
    ensures
        n == count(users@, is_in_lobby(l)),
{
    let mut n: usize = 0;
    let mut i: usize = 0;
    while i < users.len()
        invariant
            i <= users@.len(),
            n <= i,
            n == count(users@.take(i as int), is_in_lobby(l)),
        decreases users@.len() - i,
    {
        proof {
            lemma_count_step(users@, i as int, is_in_lobby(l));
        }
        if same_id(users[i].current_lobby_id, l) {
            n = n + 1;
        }
        i = i + 1;
    }
    assert(users@.take(i as int) =~= users@);
    n
}

/// Starts the game of a lobby, which only its creator may do, and gives back
/// the game. Refused as [`start_refusal`] says, and then nothing changes;
/// done as [`started`] says.
pub fn start_game(world: &mut World, ctx: &Context, lobby_id: u64) -> (result: Result<
    Game,
    GameError,
>)
    requires
        old(world).wf(),
    ensures
        final(world).wf(),
        history_kept(old(world)@, final(world)@),
        match result {
            Ok(game) => start_refusal(old(world)@, ctx.sender, lobby_id) is None && final(world)@
                == started(old(world)@, lobby_id, ctx.timestamp, ctx.seed) && game == started_game(
                old(world)@,
                lobby_id,
                ctx.timestamp,
                ctx.seed,
            ),
            Err(e) => start_refusal(old(world)@, ctx.sender, lobby_id) == Some(e) && final(world)@
                == old(world)@,
        },
{
    let ui = find_user(world.users(), ctx.sender);
    if ui >= world.users().len() {
        return Err(GameError::UserNotFound);
    }
    if !same_id(world.users()[ui].current_lobby_id, lobby_id) {
        return Err(GameError::NotInLobby);
    }
    let li = find_lobby(world.lobbies(), lobby_id);
    if li >= world.lobbies().len() {
        return Err(GameError::LobbyNotFound);
    }
    let lobby = world.lobbies()[li];
    if lobby.creator != ctx.sender {
        return Err(GameError::NotLobbyCreator);
    }
    if lobby.status != LobbyStatus::Waiting {
        return Err(GameError::AlreadyStarted);
    }
    if lobby.current_players < 2 {
        return Err(GameError::NotEnoughPlayers);
    }
    let rules = find_settings(world.settings(), lobby_id);
    let players = count_in_lobby(world.users(), lobby_id);
    if players != lobby.current_players as usize {
        return Err(GameError::PlayerCountMismatch);
    }
    assert(players * rules.starting_cards <= 255 * 255) by (nonlinear_arith)
        requires
            players <= 255,
            rules.starting_cards <= 255,
    ;
    if players * rules.starting_cards as usize > 36 {
        return Err(GameError::NotEnoughCards);
    }
    let g = world.next_id();
    if g > u64::MAX - ID_RESERVE {
        return Err(GameError::OutOfIdentifiers);
    }
    proof {
        lemma_started_wf(world@, lobby_id, ctx.timestamp, ctx.seed);
        lemma_shuffled_deck_complete(ctx.seed, Card {
            suit: crate::cards::Suit::Hearts,
            rank: crate::cards::Rank::Six,
        });
    }
    let deck = shuffle_deck(create_deck(rules.deck_size), ctx.seed);
    let game = Game {
        id: g,
        lobby_id,
        status: GameStatus::Active,
        trump_suit: deck[deck.len() - 1].suit,
        current_round: 1,
        started_at: ctx.timestamp,
        finished_at: None,
    };
    let (users, roster) = seat_players(world.users(), lobby_id, g);
    let mut fresh = deal(
        &deck,
        g,
        &roster,
        rules.starting_cards,
        rules.trump_card_to_player,
        g + 2,
    );
    let mut cards = copy_rows(world.cards());
    cards.append(&mut fresh);
    world.push_game(game);
    world.set_users(users);
    world.set_cards(cards);
    world.push_round(
        Round {
            id: g + 1,
            game_id: g,
            round_number: 1,
            status: RoundStatus::Active,
            loser: None,
            pending_move: None,
            started_at: ctx.timestamp,
            finished_at: None,
        },
    );
    world.set_lobby(li, Lobby { status: LobbyStatus::InGame, ..lobby });
    world.set_next_id(g + 38);
    Ok(game)
}

} // verus!
