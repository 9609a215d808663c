//! Lobbies: opening one, joining, leaving, and choosing the rules.

use crate::history::history_kept;
use crate::invariants::{
    lemma_ascending_push, lemma_ascending_remove, lemma_seats_user_added, lemma_wf_kept,
};
use crate::lookup::{find_lobby, find_settings_row, find_user, same_id};
use crate::model::{
    in_lobby, is_settings_of, is_user, lobby_ids, lobby_index, user_index, WorldView,
};
use crate::scoring::ID_RESERVE;
use crate::seqs::{first_where, lemma_first_where};
use crate::types::{Context, GameSettings, Lobby, LobbyStatus, Micros, PlayerId, User};
use crate::world::World;
use vstd::prelude::*;

verus! {

/// Why a request about a lobby was refused.
#[derive(Debug, Clone, Copy, PartialEq, Eq, Structural)]
pub enum LobbyError {
    EmptyLobbyName,
    BadPlayerLimit,
    UserNotFound,
    AlreadyInLobby,
    InGame,
    LobbyNotFound,
    LobbyClosed,
    LobbyFull,
    NotInLobby,
    NotInThisLobby,
    NotCreator,
    SettingsLocked,
    BadStartingCards,
    BadMaxPoints,
    OutOfIdentifiers,
}

/// Why user `p` may not take a place in a lobby, if so: unknown, or bound
/// to a lobby or a game already.
pub open spec fn newcomer_refusal(users: Seq<User>, p: PlayerId) -> Option<LobbyError> {
    let i = user_index(users, p);
    if i >= users.len() {
        Some(LobbyError::UserNotFound)
    } else if users[i].current_lobby_id is Some {
        Some(LobbyError::AlreadyInLobby)
    } else if users[i].current_game_id is Some {
        Some(LobbyError::InGame)
    } else {
        None
    }
}

/// Why `p` may not open a lobby, if so. The checks stand in the order in
/// which they are made.
pub open spec fn create_refusal(v: WorldView, p: PlayerId, name: Seq<char>, max_players: u8) -> Option<
    LobbyError,
> {
    if name.len() == 0 {
        Some(LobbyError::EmptyLobbyName)
    } else if max_players < 2 || max_players > 6 {
        Some(LobbyError::BadPlayerLimit)
    } else if newcomer_refusal(v.users, p) is Some {
        newcomer_refusal(v.users, p)
    } else if v.next_id > u64::MAX - ID_RESERVE {
        Some(LobbyError::OutOfIdentifiers)
    } else {
        None
    }
}

/// The lobby that `p` opens.
pub open spec fn created_lobby(v: WorldView, p: PlayerId, max_players: u8, now: Micros) -> Lobby {
    Lobby {
        id: v.next_id,
        creator: p,
        max_players,
        current_players: 1,
        status: LobbyStatus::Waiting,
        created_at: now,
    }
}

/// The tables once `p` has opened a lobby and sits in it.
pub open spec fn lobby_created(v: WorldView, p: PlayerId, max_players: u8, now: Micros) -> WorldView {
    let i = user_index(v.users, p);
    WorldView {
        lobbies: v.lobbies.push(created_lobby(v, p, max_players, now)),
        users: v.users.update(i, User { current_lobby_id: Some(v.next_id), ..v.users[i] }),
        next_id: (v.next_id + 1) as u64,
        ..v
    }
}

fn check_newcomer(world: &World, p: PlayerId) -> (result: Result<usize, LobbyError>)
    ensures
        match result {
            Ok(i) => newcomer_refusal(world@.users, p) is None && i as int == user_index(
                world@.users,
                p,
            ) && i < world@.users.len(),
            Err(e) => newcomer_refusal(world@.users, p) == Some(e),
        },
{
    let i = find_user(world.users(), p);
    if i >= world.users().len() {
        return Err(LobbyError::UserNotFound);
    }
    if world.users()[i].current_lobby_id.is_some() {
        return Err(LobbyError::AlreadyInLobby);
    }
    if world.users()[i].current_game_id.is_some() {
        return Err(LobbyError::InGame);
    }
    Ok(i)
}

/// Opens a lobby named `name` for two to six players; the caller sits in it
/// as its creator. Gives back the lobby. Refused as [`create_refusal`] says,
/// and then nothing changes.
pub fn create_lobby(world: &mut World, ctx: &Context, name: &str, max_players: u8) -> (result:
    Result<Lobby, LobbyError>)
    requires
        old(world).wf(),
    ensures
        final(world).wf(),
        history_kept(old(world)@, final(world)@),
        match result {
            Ok(lobby) => create_refusal(old(world)@, ctx.sender, name@, max_players) is None
                && final(world)@ == lobby_created(
                old(world)@,
                ctx.sender,
                max_players,
                ctx.timestamp,
            ) && lobby == created_lobby(old(world)@, ctx.sender, max_players, ctx.timestamp),
            Err(e) => create_refusal(old(world)@, ctx.sender, name@, max_players) == Some(e)
                && final(world)@ == old(world)@,
        },
{
    if name.is_empty() {
        return Err(LobbyError::EmptyLobbyName);
    }
    if max_players < 2 || max_players > 6 {
        return Err(LobbyError::BadPlayerLimit);
    }
    let i = match check_newcomer(world, ctx.sender) {
        Ok(i) => i,
        Err(e) => {
            return Err(e);
        },
    };
    let id = world.next_id();
    if id > u64::MAX - ID_RESERVE {
        return Err(LobbyError::OutOfIdentifiers);
    }
    let lobby = Lobby {
        id,
        creator: ctx.sender,
        max_players,
        current_players: 1,
        status: LobbyStatus::Waiting,
        created_at: ctx.timestamp,
    };
    world.push_lobby(lobby);
    let user = world.users()[i];
    world.set_user(i, User { current_lobby_id: Some(id), ..user });
    world.set_next_id(id + 1);
    proof {
        let v = old(world)@;
        let w = world@;
        lemma_wf_kept(v, WorldView { lobbies: v.lobbies, ..w });
        lemma_ascending_push(lobby_ids(v.lobbies), v.next_id, id, w.next_id);
        assert(lobby_ids(w.lobbies) =~= lobby_ids(v.lobbies).push(id));
    }
    Ok(lobby)
}

/// Why `p` may not join lobby `l`, if so. The checks stand in the order in
/// which they are made.
pub open spec fn join_refusal(v: WorldView, p: PlayerId, l: u64) -> Option<LobbyError> {
    let li = lobby_index(v.lobbies, l);
    if newcomer_refusal(v.users, p) is Some {
        newcomer_refusal(v.users, p)
    } else if li >= v.lobbies.len() {
        Some(LobbyError::LobbyNotFound)
    } else if v.lobbies[li].status != LobbyStatus::Waiting {
        Some(LobbyError::LobbyClosed)
    } else if v.lobbies[li].current_players >= v.lobbies[li].max_players {
        Some(LobbyError::LobbyFull)
    } else {
        None
    }
}

/// The tables once `p` has joined lobby `l`.
pub open spec fn lobby_joined(v: WorldView, p: PlayerId, l: u64) -> WorldView {
    let i = user_index(v.users, p);
    let li = lobby_index(v.lobbies, l);
    WorldView {
        lobbies: v.lobbies.update(
            li,
            Lobby {
                current_players: (v.lobbies[li].current_players + 1) as u8,
                ..v.lobbies[li]
            },
        ),
        users: v.users.update(i, User { current_lobby_id: Some(l), ..v.users[i] }),
        ..v
    }
}

/// Joins a lobby that waits for players and has room. Refused as
/// [`join_refusal`] says, and then nothing changes.
pub fn join_lobby(world: &mut World, ctx: &Context, lobby_id: u64) -> (result: Result<
    (),
    LobbyError,
>)
    requires
        old(world).wf(),
    ensures
        final(world).wf(),
        history_kept(old(world)@, final(world)@),
        match result {
            Ok(()) => join_refusal(old(world)@, ctx.sender, lobby_id) is None && final(world)@
                == lobby_joined(old(world)@, ctx.sender, lobby_id),
            Err(e) => join_refusal(old(world)@, ctx.sender, lobby_id) == Some(e) && final(world)@
                == old(world)@,
        },
{
    let i = match check_newcomer(world, ctx.sender) {
        Ok(i) => i,
        Err(e) => {
            return Err(e);
        },
    };
    let li = find_lobby(world.lobbies(), lobby_id);
    if li >= world.lobbies().len() {
        return Err(LobbyError::LobbyNotFound);
    }
    let lobby = world.lobbies()[li];
    if lobby.status != LobbyStatus::Waiting {
        return Err(LobbyError::LobbyClosed);
    }
    if lobby.current_players >= lobby.max_players {
        return Err(LobbyError::LobbyFull);
    }
    world.set_lobby(li, Lobby { current_players: lobby.current_players + 1, ..lobby });
    let user = world.users()[i];
    world.set_user(i, User { current_lobby_id: Some(lobby_id), ..user });
    proof {
        lemma_wf_kept(old(world)@, world@);
    }
    Ok(())
}

/// Why `p` may not leave their lobby, if so.
pub open spec fn leave_refusal(v: WorldView, p: PlayerId) -> Option<LobbyError> {
    let i = user_index(v.users, p);
    if i >= v.users.len() {
        Some(LobbyError::UserNotFound)
    } else if v.users[i].current_lobby_id is None {
        Some(LobbyError::NotInLobby)
    } else if lobby_index(v.lobbies, v.users[i].current_lobby_id->0) >= v.lobbies.len() {
        Some(LobbyError::LobbyNotFound)
    } else {
        None
    }
}

/// The tables once `p` has left their lobby: the lobby counts one player
/// less, or is removed where it is empty then or `p` was its creator.
pub open spec fn lobby_left(v: WorldView, p: PlayerId) -> WorldView {
    let i = user_index(v.users, p);
    let li = lobby_index(v.lobbies, v.users[i].current_lobby_id->0);
    let lobby = v.lobbies[li];
    let left: u8 = if lobby.current_players == 0 {
        0
    } else {
        (lobby.current_players - 1) as u8
    };
    WorldView {
        lobbies: if left == 0 || lobby.creator == p {
            v.lobbies.remove(li)
        } else {
            v.lobbies.update(li, Lobby { current_players: left, ..lobby })
        },
        users: v.users.update(i, User { current_lobby_id: None, ..v.users[i] }),
        ..v
    }
}

/// Leaves the lobby the caller sits in. Refused as [`leave_refusal`] says,
/// and then nothing changes.
pub fn leave_lobby(world: &mut World, ctx: &Context) -> (result: Result<(), LobbyError>)
    requires
        old(world).wf(),
    ensures
        final(world).wf(),
        history_kept(old(world)@, final(world)@),
        match result {
            Ok(()) => leave_refusal(old(world)@, ctx.sender) is None && final(world)@
                == lobby_left(old(world)@, ctx.sender),
            Err(e) => leave_refusal(old(world)@, ctx.sender) == Some(e) && final(world)@ == old(
                world,
            )@,
        },
{
    let i = find_user(world.users(), ctx.sender);
    if i >= world.users().len() {
        return Err(LobbyError::UserNotFound);
    }
    let user = world.users()[i];
    let lobby_id = match user.current_lobby_id {
        Some(l) => l,
        None => {
            return Err(LobbyError::NotInLobby);
        },
    };
    let li = find_lobby(world.lobbies(), lobby_id);
    if li >= world.lobbies().len() {
        return Err(LobbyError::LobbyNotFound);
    }
    let lobby = world.lobbies()[li];
    let left: u8 = if lobby.current_players == 0 {
        0
    } else {
        lobby.current_players - 1
    };
    if left == 0 || lobby.creator == ctx.sender {
        world.remove_lobby(li);
    } else {
        world.set_lobby(li, Lobby { current_players: left, ..lobby });
    }
    world.set_user(i, User { current_lobby_id: None, ..user });
    proof {
        let v = old(world)@;
        let w = world@;
        lemma_wf_kept(v, WorldView { lobbies: v.lobbies, ..w });
        if left == 0 || lobby.creator == ctx.sender {
            lemma_ascending_remove(lobby_ids(v.lobbies), v.next_id, li as int);
            assert(lobby_ids(w.lobbies) =~= lobby_ids(v.lobbies).remove(li as int));
        } else {
            assert(lobby_ids(w.lobbies) =~= lobby_ids(v.lobbies));
        }
    }
    Ok(())
}

/// Why `p` may not set the rules of a lobby to `rules`, if so. The checks
/// stand in the order in which they are made.
pub open spec fn settings_refusal(v: WorldView, p: PlayerId, rules: GameSettings) -> Option<
    LobbyError,
> {
    let i = user_index(v.users, p);
    let li = lobby_index(v.lobbies, rules.lobby_id);
    if i >= v.users.len() {
        Some(LobbyError::UserNotFound)
    } else if !in_lobby(v.users[i], rules.lobby_id) {
        Some(LobbyError::NotInThisLobby)
    } else if li >= v.lobbies.len() {
        Some(LobbyError::LobbyNotFound)
    } else if v.lobbies[li].creator != p {
        Some(LobbyError::NotCreator)
    } else if v.lobbies[li].status != LobbyStatus::Waiting {
        Some(LobbyError::SettingsLocked)
    } else if rules.starting_cards < 3 || rules.starting_cards > 20 {
        Some(LobbyError::BadStartingCards)
    } else if rules.max_points < 5 || rules.max_points > 50 {
        Some(LobbyError::BadMaxPoints)
    } else {
        None
    }
}

/// The settings once those of a lobby are set to `rules`: its row is
/// replaced, or added where it had none.
pub open spec fn settings_updated(settings: Seq<GameSettings>, rules: GameSettings) -> Seq<
    GameSettings,
> {
    let i = first_where(settings, is_settings_of(rules.lobby_id));
    if i < settings.len() {
        settings.update(i, rules)
    } else {
        settings.push(rules)
    }
}

/// Sets the rules of a lobby, which only its creator may do, and only while
/// it waits for players. Refused as [`settings_refusal`] says, and then
/// nothing changes.
pub fn update_game_settings(world: &mut World, ctx: &Context, rules: GameSettings) -> (result:
    Result<(), LobbyError>)
    requires
        old(world).wf(),
    ensures
        final(world).wf(),
        history_kept(old(world)@, final(world)@),
        match result {
            Ok(()) => settings_refusal(old(world)@, ctx.sender, rules) is None && final(world)@
                == (WorldView {
                settings: settings_updated(old(world)@.settings, rules),
                ..old(world)@
            }),
            Err(e) => settings_refusal(old(world)@, ctx.sender, rules) == Some(e) && final(world)@
                == old(world)@,
        },
{
    let i = find_user(world.users(), ctx.sender);
    if i >= world.users().len() {
        return Err(LobbyError::UserNotFound);
    }
    if !same_id(world.users()[i].current_lobby_id, rules.lobby_id) {
        return Err(LobbyError::NotInThisLobby);
    }
    let li = find_lobby(world.lobbies(), rules.lobby_id);
    if li >= world.lobbies().len() {
        return Err(LobbyError::LobbyNotFound);
    }
    let lobby = world.lobbies()[li];
    if lobby.creator != ctx.sender {
        return Err(LobbyError::NotCreator);
    }
    if lobby.status != LobbyStatus::Waiting {
        return Err(LobbyError::SettingsLocked);
    }
    if rules.starting_cards < 3 || rules.starting_cards > 20 {
        return Err(LobbyError::BadStartingCards);
    }
    if rules.max_points < 5 || rules.max_points > 50 {
        return Err(LobbyError::BadMaxPoints);
    }
    let k = find_settings_row(world.settings(), rules.lobby_id);
    if k < world.settings().len() {
        world.set_settings(k, rules);
        proof {
            lemma_wf_kept(old(world)@, world@);
        }
        return Ok(());
    }
    world.insert_settings(rules);
    Ok(())
}

/// A user who has just come: bound to no lobby and no game.
pub open spec fn fresh_user(p: PlayerId) -> User {
    User {
        identity: p,
        current_lobby_id: None,
        current_game_id: None,
        game_position: None,
        total_points: None,
        player_status: None,
    }
}

/// Takes note of a client that has connected: a caller who is not yet
/// among the users is added, bound to no lobby and no game; a known one
/// stays as they are. Says whether the user was added.
pub fn client_connected(world: &mut World, ctx: &Context) -> (added: bool)
    requires
        old(world).wf(),
    ensures
        final(world).wf(),
        history_kept(old(world)@, final(world)@),
        added == (user_index(old(world)@.users, ctx.sender) >= old(world)@.users.len()),
        final(world)@ == if added {
            WorldView { users: old(world)@.users.push(fresh_user(ctx.sender)), ..old(world)@ }
        } else {
            old(world)@
        },
{
    if find_user(world.users(), ctx.sender) < world.users().len() {
        return false;
    }
    world.push_user(
        User {
            identity: ctx.sender,
            current_lobby_id: None,
            current_game_id: None,
            game_position: None,
            total_points: None,
            player_status: None,
        },
    );
    proof {
        let v = old(world)@;
        lemma_seats_user_added(v.users, v.next_id, fresh_user(ctx.sender));
        lemma_first_where(v.users, is_user(ctx.sender));
        assert forall|i: int| 0 <= i < v.users.len() implies (#[trigger] v.users[i]).identity
            != ctx.sender by {
            assert(!is_user(ctx.sender)(v.users[i]));
        }
    }
    true
}

} // verus!
