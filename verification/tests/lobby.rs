use spacefool::{
    client_connected, create_lobby, get_available_lobbies, get_default_settings,
    get_game_players, get_game_settings, get_game_settings_for_game, get_lobby_players,
    join_lobby, leave_lobby, start_game, update_game_settings, Context, DeckSize, GameError,
    GameSettings, Lobby, LobbyError, LobbyStatus, PlayerId, User, World,
};

fn pid(n: u128) -> PlayerId {
    PlayerId { hi: 0, lo: n }
}

fn ctx(sender: u128) -> Context {
    Context { sender: pid(sender), timestamp: 77, seed: 0 }
}

fn connected(n: u128) -> World {
    let mut world = World::new();
    for k in 1..=n {
        assert!(client_connected(&mut world, &ctx(k)));
    }
    world
}

fn user_of(world: &World, who: u128) -> User {
    *world.users().iter().find(|u| u.identity == pid(who)).unwrap()
}

#[test]
fn connecting_adds_a_user_once() {
    let mut world = World::new();
    assert!(client_connected(&mut world, &ctx(1)));
    assert!(!client_connected(&mut world, &ctx(1)));
    assert!(client_connected(&mut world, &ctx(2)));
    assert_eq!(world.users().len(), 2);
    assert_eq!(
        world.users()[0],
        User {
            identity: pid(1),
            current_lobby_id: None,
            current_game_id: None,
            game_position: None,
            total_points: None,
            player_status: None,
        }
    );
}

#[test]
fn creating_a_lobby_seats_its_creator() {
    let mut world = connected(2);
    let lobby = create_lobby(&mut world, &ctx(1), "friends", 4).unwrap();
    assert_eq!(
        lobby,
        Lobby {
            id: 1,
            creator: pid(1),
            max_players: 4,
            current_players: 1,
            status: LobbyStatus::Waiting,
            created_at: 77,
        }
    );
    assert_eq!(world.lobbies().clone(), vec![lobby]);
    assert_eq!(user_of(&world, 1).current_lobby_id, Some(1));
    assert_eq!(user_of(&world, 2).current_lobby_id, None);
    assert_eq!(world.next_id(), 2);
    assert_eq!(get_available_lobbies(&world), vec![lobby]);
}

#[test]
fn create_lobby_refusals() {
    let mut world = connected(1);
    let before = world.to_tables();
    assert_eq!(create_lobby(&mut world, &ctx(1), "", 4), Err(LobbyError::EmptyLobbyName));
    assert_eq!(create_lobby(&mut world, &ctx(1), "a", 1), Err(LobbyError::BadPlayerLimit));
    assert_eq!(create_lobby(&mut world, &ctx(1), "a", 7), Err(LobbyError::BadPlayerLimit));
    assert_eq!(create_lobby(&mut world, &ctx(9), "a", 4), Err(LobbyError::UserNotFound));
    assert_eq!(world.to_tables(), before);
    assert!(create_lobby(&mut world, &ctx(1), "a", 2).is_ok());
    assert!(create_lobby(&mut world, &ctx(1), "b", 6).is_err());
    assert_eq!(create_lobby(&mut world, &ctx(1), "b", 6), Err(LobbyError::AlreadyInLobby));
}

#[test]
fn create_lobby_refuses_a_player_in_a_game_and_an_exhausted_counter() {
    let mut tables = connected(1).into_tables();
    tables.users[0].current_game_id = Some(3);
    tables.users[0].game_position = Some(0);
    tables.next_id = 10;
    let mut world = World::from_tables(tables).unwrap();
    assert_eq!(create_lobby(&mut world, &ctx(1), "a", 4), Err(LobbyError::InGame));
    let mut tables = connected(1).into_tables();
    tables.next_id = u64::MAX - 5;
    let mut world = World::from_tables(tables).unwrap();
    assert_eq!(create_lobby(&mut world, &ctx(1), "a", 4), Err(LobbyError::OutOfIdentifiers));
}

#[test]
fn joining_counts_the_players_up_to_the_limit() {
    let mut world = connected(4);
    let lobby = create_lobby(&mut world, &ctx(1), "friends", 3).unwrap();
    assert_eq!(join_lobby(&mut world, &ctx(2), lobby.id), Ok(()));
    assert_eq!(world.lobbies()[0].current_players, 2);
    assert_eq!(user_of(&world, 2).current_lobby_id, Some(lobby.id));
    assert_eq!(join_lobby(&mut world, &ctx(3), lobby.id), Ok(()));
    let before = world.to_tables();
    assert_eq!(join_lobby(&mut world, &ctx(4), lobby.id), Err(LobbyError::LobbyFull));
    assert_eq!(join_lobby(&mut world, &ctx(2), lobby.id), Err(LobbyError::AlreadyInLobby));
    assert_eq!(join_lobby(&mut world, &ctx(9), lobby.id), Err(LobbyError::UserNotFound));
    assert_eq!(join_lobby(&mut world, &ctx(4), 555), Err(LobbyError::LobbyNotFound));
    assert_eq!(world.to_tables(), before);
    let players: Vec<PlayerId> =
        get_lobby_players(&world, lobby.id).iter().map(|u| u.identity).collect();
    assert_eq!(players, vec![pid(1), pid(2), pid(3)]);
}

#[test]
fn a_lobby_in_game_takes_no_players() {
    let mut world = connected(3);
    let lobby = create_lobby(&mut world, &ctx(1), "friends", 4).unwrap();
    join_lobby(&mut world, &ctx(2), lobby.id).unwrap();
    let game = start_game(&mut world, &ctx(1), lobby.id).unwrap();
    assert_eq!(join_lobby(&mut world, &ctx(3), lobby.id), Err(LobbyError::LobbyClosed));
    assert_eq!(join_lobby(&mut world, &ctx(1), lobby.id), Err(LobbyError::InGame));
    assert!(get_available_lobbies(&world).is_empty());
    assert_eq!(get_game_players(&world, game.id).len(), 2);
    assert!(get_lobby_players(&world, lobby.id).is_empty());
    assert_eq!(
        update_game_settings(&mut world, &ctx(1), get_default_settings(lobby.id)),
        Err(LobbyError::NotInThisLobby)
    );
}

#[test]
fn leaving_counts_down_and_the_creator_takes_the_lobby_along() {
    let mut world = connected(3);
    let lobby = create_lobby(&mut world, &ctx(1), "friends", 4).unwrap();
    join_lobby(&mut world, &ctx(2), lobby.id).unwrap();
    join_lobby(&mut world, &ctx(3), lobby.id).unwrap();
    assert_eq!(leave_lobby(&mut world, &ctx(3)), Ok(()));
    assert_eq!(world.lobbies()[0].current_players, 2);
    assert_eq!(user_of(&world, 3).current_lobby_id, None);
    assert_eq!(leave_lobby(&mut world, &ctx(3)), Err(LobbyError::NotInLobby));
    assert_eq!(leave_lobby(&mut world, &ctx(9)), Err(LobbyError::UserNotFound));
    assert_eq!(leave_lobby(&mut world, &ctx(1)), Ok(()));
    assert!(world.lobbies().is_empty());
    assert_eq!(user_of(&world, 2).current_lobby_id, Some(lobby.id));
    assert_eq!(leave_lobby(&mut world, &ctx(2)), Err(LobbyError::LobbyNotFound));
}

#[test]
fn the_last_player_takes_the_lobby_along() {
    let mut tables = connected(2).into_tables();
    tables.users[1].current_lobby_id = Some(40);
    tables.lobbies.push(Lobby {
        id: 40,
        creator: pid(1),
        max_players: 4,
        current_players: 1,
        status: LobbyStatus::Waiting,
        created_at: 1,
    });
    tables.next_id = 50;
    let mut world = World::from_tables(tables).unwrap();
    assert_eq!(leave_lobby(&mut world, &ctx(2)), Ok(()));
    assert!(world.lobbies().is_empty());
}

#[test]
fn settings_are_set_by_the_creator_while_the_lobby_waits() {
    let mut world = connected(2);
    let lobby = create_lobby(&mut world, &ctx(1), "friends", 4).unwrap();
    join_lobby(&mut world, &ctx(2), lobby.id).unwrap();
    assert_eq!(get_game_settings(&world, lobby.id), get_default_settings(lobby.id));
    let rules = GameSettings {
        lobby_id: lobby.id,
        deck_size: DeckSize::Extended52,
        starting_cards: 3,
        max_attack_cards: 0,
        multi_round_mode: false,
        max_points: 50,
        anyone_can_attack: false,
        trump_card_to_player: false,
    };
    assert_eq!(update_game_settings(&mut world, &ctx(1), rules), Ok(()));
    assert_eq!(get_game_settings(&world, lobby.id), rules);
    let again = GameSettings { starting_cards: 20, max_points: 5, ..rules };
    assert_eq!(update_game_settings(&mut world, &ctx(1), again), Ok(()));
    assert_eq!(world.settings().clone(), vec![again]);
    let before = world.to_tables();
    assert_eq!(update_game_settings(&mut world, &ctx(2), rules), Err(LobbyError::NotCreator));
    assert_eq!(update_game_settings(&mut world, &ctx(9), rules), Err(LobbyError::UserNotFound));
    assert_eq!(
        update_game_settings(&mut world, &ctx(1), GameSettings { lobby_id: 99, ..rules }),
        Err(LobbyError::NotInThisLobby)
    );
    for bad in [2u8, 21] {
        assert_eq!(
            update_game_settings(&mut world, &ctx(1), GameSettings { starting_cards: bad, ..rules }),
            Err(LobbyError::BadStartingCards)
        );
    }
    for bad in [4u8, 51] {
        assert_eq!(
            update_game_settings(&mut world, &ctx(1), GameSettings { max_points: bad, ..rules }),
            Err(LobbyError::BadMaxPoints)
        );
    }
    assert_eq!(world.to_tables(), before);
}

#[test]
fn settings_of_a_missing_or_started_lobby_are_not_set() {
    let mut tables = connected(1).into_tables();
    tables.users[0].current_lobby_id = Some(40);
    let mut world = World::from_tables(tables).unwrap();
    assert_eq!(
        update_game_settings(&mut world, &ctx(1), get_default_settings(40)),
        Err(LobbyError::LobbyNotFound)
    );
    let mut tables = world.into_tables();
    tables.next_id = 50;
    tables.lobbies.push(Lobby {
        id: 40,
        creator: pid(1),
        max_players: 4,
        current_players: 1,
        status: LobbyStatus::InGame,
        created_at: 1,
    });
    let mut world = World::from_tables(tables).unwrap();
    assert_eq!(
        update_game_settings(&mut world, &ctx(1), get_default_settings(40)),
        Err(LobbyError::SettingsLocked)
    );
}

#[test]
fn a_game_is_played_by_the_settings_of_its_lobby() {
    let mut world = connected(2);
    let lobby = create_lobby(&mut world, &ctx(1), "friends", 2).unwrap();
    join_lobby(&mut world, &ctx(2), lobby.id).unwrap();
    let rules = GameSettings { starting_cards: 5, ..get_default_settings(lobby.id) };
    update_game_settings(&mut world, &ctx(1), rules).unwrap();
    let game = start_game(&mut world, &ctx(1), lobby.id).unwrap();
    assert_eq!(get_game_settings_for_game(&world, game.id), Ok(rules));
    assert_eq!(get_game_settings_for_game(&world, 999), Err(GameError::GameNotFound));
    assert_eq!(spacefool::get_player_hand(&world, game.id, pid(1)).len(), 5);
}
