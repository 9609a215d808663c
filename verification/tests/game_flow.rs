use spacefool::{
    attack, check_round_end, create_deck, defend, finish_game, get_current_round,
    get_current_turn, get_default_settings, get_game_state, get_next_player_clockwise,
    get_player_hand, get_table_cards, get_turn_draws, handle_round_scoring, pass_turn,
    refill_hands, start_game, start_new_round, tables_are_sound, take_cards, Card, CardLocation,
    Context, DeckSize, Draw, DrawStatus, ErrorKind, Game, GameError, GameSettings, GameStatus,
    Lobby, LobbyStatus, PendingMove, PlayerCard, PlayerId, PlayerStatus, Rank, Resolution, Round,
    RoundStatus, Suit, Tables, Turn, TurnStatus, User, World,
};

const LOBBY: u64 = 0;
const GAME: u64 = 1;
const ROUND: u64 = 2;

fn card(suit: Suit, rank: Rank) -> Card {
    Card { suit, rank }
}

fn pid(n: u128) -> PlayerId {
    PlayerId { hi: 0, lo: n }
}

fn ctx(sender: u128) -> Context {
    Context { sender: pid(sender), timestamp: 1_000, seed: 0 }
}

fn rules() -> GameSettings {
    GameSettings { lobby_id: LOBBY, ..get_default_settings(LOBBY) }
}

fn lobby_user(n: u128, lobby: u64) -> User {
    User {
        identity: pid(n),
        current_lobby_id: Some(lobby),
        current_game_id: None,
        game_position: None,
        total_points: None,
        player_status: None,
    }
}

/// A lobby of `n` players, numbered from 1, of whom the first is the creator.
fn lobby_of(n: u8, settings: Option<GameSettings>) -> World {
    let tables = Tables {
        users: (1..=n).map(|k| lobby_user(k as u128, LOBBY)).collect(),
        lobbies: vec![Lobby {
            id: LOBBY,
            creator: pid(1),
            max_players: 6,
            current_players: n,
            status: LobbyStatus::Waiting,
            created_at: 5,
        }],
        settings: settings.into_iter().collect(),
        games: Vec::new(),
        rounds: Vec::new(),
        turns: Vec::new(),
        draws: Vec::new(),
        cards: Vec::new(),
        next_id: 1,
    };
    World::from_tables(tables).expect("sound tables")
}

/// A game in its first round in which the players, seated in the order
/// given, hold the hands given; `deck` is the deck, and every other card is
/// discarded.
fn table(hands: &[(u128, Vec<Card>)], deck: &[Card], settings: GameSettings, trump: Suit) -> World {
    let mut users = Vec::new();
    let mut cards = Vec::new();
    let mut id = 10;
    for (seat, (who, hand)) in hands.iter().enumerate() {
        users.push(User {
            identity: pid(*who),
            current_lobby_id: None,
            current_game_id: Some(GAME),
            game_position: Some(seat as u8),
            total_points: Some(0),
            player_status: Some(PlayerStatus::Active),
        });
        for c in hand {
            cards.push(PlayerCard {
                id,
                game_id: GAME,
                player: Some(pid(*who)),
                card: *c,
                location: CardLocation::Hand,
            });
            id += 1;
        }
    }
    for c in deck {
        cards.push(PlayerCard {
            id,
            game_id: GAME,
            player: None,
            card: *c,
            location: CardLocation::Deck,
        });
        id += 1;
    }
    for c in create_deck(DeckSize::Standard36) {
        if !cards.iter().any(|row| row.card == c) {
            cards.push(PlayerCard {
                id,
                game_id: GAME,
                player: None,
                card: c,
                location: CardLocation::Discarded,
            });
            id += 1;
        }
    }
    let tables = Tables {
        users,
        lobbies: vec![Lobby {
            id: LOBBY,
            creator: pid(hands[0].0),
            max_players: 6,
            current_players: hands.len() as u8,
            status: LobbyStatus::InGame,
            created_at: 5,
        }],
        settings: vec![settings],
        games: vec![Game {
            id: GAME,
            lobby_id: LOBBY,
            status: GameStatus::Active,
            trump_suit: trump,
            current_round: 1,
            started_at: 10,
            finished_at: None,
        }],
        rounds: vec![Round {
            id: ROUND,
            game_id: GAME,
            round_number: 1,
            status: RoundStatus::Active,
            loser: None,
            pending_move: None,
            started_at: 10,
            finished_at: None,
        }],
        turns: Vec::new(),
        draws: Vec::new(),
        cards,
        next_id: 1000,
    };
    World::from_tables(tables).expect("sound tables")
}

fn hand_of(world: &World, who: u128) -> Vec<Card> {
    get_player_hand(world, GAME, pid(who))
}

fn location_of(world: &World, c: Card) -> CardLocation {
    world.cards().iter().find(|row| row.game_id == GAME && row.card == c).unwrap().location
}

fn user_of(world: &World, who: u128) -> User {
    *world.users().iter().find(|u| u.identity == pid(who)).unwrap()
}

fn sound(world: &World) -> bool {
    tables_are_sound(&world.to_tables())
}

/// The same tables with every round closed.
fn with_rounds_closed(world: World) -> World {
    let mut tables = world.into_tables();
    for round in tables.rounds.iter_mut() {
        round.status = RoundStatus::Finished;
    }
    World::from_tables(tables).unwrap()
}

fn four_players() -> World {
    table(
        &[
            (1, vec![card(Suit::Hearts, Rank::Six), card(Suit::Clubs, Rank::Seven), card(Suit::Clubs, Rank::Eight)]),
            (2, vec![card(Suit::Hearts, Rank::Seven), card(Suit::Diamonds, Rank::Nine), card(Suit::Clubs, Rank::Nine)]),
            (3, vec![card(Suit::Hearts, Rank::Eight), card(Suit::Diamonds, Rank::Ten)]),
            (4, vec![card(Suit::Hearts, Rank::Nine), card(Suit::Diamonds, Rank::Jack)]),
        ],
        &[],
        rules(),
        Suit::Spades,
    )
}

// ---- starting a game ---------------------------------------------------------

#[test]
fn start_game_seats_the_players_and_deals() {
    let mut world = lobby_of(4, None);
    let game = start_game(&mut world, &ctx(1), LOBBY).unwrap();
    assert_eq!(
        game,
        Game {
            id: 1,
            lobby_id: LOBBY,
            status: GameStatus::Active,
            trump_suit: Suit::Hearts,
            current_round: 1,
            started_at: 1_000,
            finished_at: None,
        }
    );
    assert_eq!(get_game_state(&world, 1), Some(game));
    for k in 1..=4u8 {
        let u = user_of(&world, k as u128);
        assert_eq!(u.current_lobby_id, None);
        assert_eq!(u.current_game_id, Some(1));
        assert_eq!(u.game_position, Some(k - 1));
        assert_eq!(u.total_points, Some(0));
        assert_eq!(u.player_status, Some(PlayerStatus::Active));
    }
    let deck = create_deck(DeckSize::Standard36);
    assert_eq!(get_player_hand(&world, 1, pid(1)), deck[1..8].to_vec());
    assert_eq!(get_player_hand(&world, 1, pid(2)), deck[8..15].to_vec());
    assert_eq!(get_player_hand(&world, 1, pid(3)), deck[15..22].to_vec());
    let mut last = deck[22..29].to_vec();
    last.push(deck[0]);
    assert_eq!(get_player_hand(&world, 1, pid(4)), last);
    let in_deck: Vec<Card> = world
        .cards()
        .iter()
        .filter(|r| r.location == CardLocation::Deck)
        .map(|r| r.card)
        .collect();
    assert_eq!(in_deck, deck[29..36].to_vec());
    assert!(world.cards().iter().filter(|r| r.location == CardLocation::Deck).all(|r| r.player.is_none()));
    assert_eq!(world.cards().len(), 36);
    assert_eq!(
        get_current_round(&world, 1),
        Some(Round {
            id: 2,
            game_id: 1,
            round_number: 1,
            status: RoundStatus::Active,
            loser: None,
            pending_move: None,
            started_at: 1_000,
            finished_at: None,
        })
    );
    assert_eq!(world.lobbies()[0].status, LobbyStatus::InGame);
    assert_eq!(world.next_id(), 39);
    assert!(sound(&world));
}

#[test]
fn start_game_leaves_the_trump_card_in_the_deck_when_told_so() {
    let mut world = lobby_of(2, Some(GameSettings { trump_card_to_player: false, starting_cards: 6, ..rules() }));
    start_game(&mut world, &ctx(1), LOBBY).unwrap();
    assert_eq!(get_player_hand(&world, 1, pid(1)).len(), 6);
    assert_eq!(get_player_hand(&world, 1, pid(2)).len(), 6);
    let last = world.cards().last().unwrap();
    assert_eq!(last.location, CardLocation::Deck);
    assert_eq!(last.player, None);
    assert_eq!(last.card.suit, get_game_state(&world, 1).unwrap().trump_suit);
}

#[test]
fn start_game_refuses_an_unknown_caller() {
    let mut world = lobby_of(3, None);
    let before = world.to_tables();
    assert_eq!(start_game(&mut world, &ctx(99), LOBBY), Err(GameError::UserNotFound));
    assert_eq!(world.to_tables(), before);
}

#[test]
fn start_game_refuses_a_caller_outside_the_lobby() {
    let mut world = lobby_of(3, None);
    assert_eq!(start_game(&mut world, &ctx(1), 8), Err(GameError::NotInLobby));
    let mut tables = world.into_tables();
    tables.users.push(lobby_user(50, 8));
    let mut world = World::from_tables(tables).unwrap();
    assert_eq!(start_game(&mut world, &ctx(50), 8), Err(GameError::LobbyNotFound));
}

#[test]
fn start_game_is_for_the_creator_only() {
    let mut world = lobby_of(3, None);
    assert_eq!(start_game(&mut world, &ctx(2), LOBBY), Err(GameError::NotLobbyCreator));
    assert_eq!(GameError::NotLobbyCreator.kind(), ErrorKind::Unauthorized);
}

#[test]
fn start_game_refuses_a_second_start() {
    let mut world = lobby_of(3, None);
    start_game(&mut world, &ctx(1), LOBBY).unwrap();
    let mut tables = world.into_tables();
    tables.users.push(lobby_user(60, LOBBY));
    tables.lobbies[0].creator = pid(60);
    let mut world = World::from_tables(tables).unwrap();
    assert_eq!(start_game(&mut world, &ctx(60), LOBBY), Err(GameError::AlreadyStarted));
}

#[test]
fn start_game_needs_two_players_and_a_true_count() {
    let mut world = lobby_of(1, None);
    assert_eq!(start_game(&mut world, &ctx(1), LOBBY), Err(GameError::NotEnoughPlayers));
    let mut tables = lobby_of(3, None).into_tables();
    tables.lobbies[0].current_players = 4;
    let mut world = World::from_tables(tables).unwrap();
    assert_eq!(start_game(&mut world, &ctx(1), LOBBY), Err(GameError::PlayerCountMismatch));
}

#[test]
fn start_game_needs_enough_cards() {
    let mut world = lobby_of(6, Some(GameSettings { starting_cards: 7, ..rules() }));
    assert_eq!(start_game(&mut world, &ctx(1), LOBBY), Err(GameError::NotEnoughCards));
    let mut world = lobby_of(6, Some(GameSettings { starting_cards: 6, ..rules() }));
    assert!(start_game(&mut world, &ctx(1), LOBBY).is_ok());
    assert!(world.cards().iter().all(|r| r.location == CardLocation::Hand));
}

#[test]
fn start_game_refuses_when_identifiers_run_out() {
    let mut tables = lobby_of(2, None).into_tables();
    tables.next_id = u64::MAX - 63;
    let mut world = World::from_tables(tables).unwrap();
    assert_eq!(start_game(&mut world, &ctx(1), LOBBY), Err(GameError::OutOfIdentifiers));
    let mut tables = world.into_tables();
    tables.next_id = u64::MAX - 64;
    let mut world = World::from_tables(tables).unwrap();
    assert!(start_game(&mut world, &ctx(1), LOBBY).is_ok());
}

// ---- rotation ------------------------------------------------------------------

#[test]
fn next_clockwise_follows_the_seats_and_wraps() {
    let world = four_players();
    assert_eq!(get_next_player_clockwise(&world, GAME, pid(1)), Ok(pid(2)));
    assert_eq!(get_next_player_clockwise(&world, GAME, pid(2)), Ok(pid(3)));
    assert_eq!(get_next_player_clockwise(&world, GAME, pid(4)), Ok(pid(1)));
}

#[test]
fn next_clockwise_skips_players_who_are_not_active() {
    let mut tables = four_players().into_tables();
    tables.users[1].player_status = Some(PlayerStatus::Finished);
    tables.users[3].player_status = Some(PlayerStatus::Left);
    let world = World::from_tables(tables).unwrap();
    assert_eq!(get_next_player_clockwise(&world, GAME, pid(1)), Ok(pid(3)));
    assert_eq!(get_next_player_clockwise(&world, GAME, pid(3)), Ok(pid(1)));
    assert_eq!(get_next_player_clockwise(&world, GAME, pid(2)), Ok(pid(3)));
}

#[test]
fn next_clockwise_goes_by_seat_not_by_table_order() {
    let mut tables = four_players().into_tables();
    tables.users.reverse();
    let world = World::from_tables(tables).unwrap();
    assert_eq!(get_next_player_clockwise(&world, GAME, pid(1)), Ok(pid(2)));
    assert_eq!(get_next_player_clockwise(&world, GAME, pid(4)), Ok(pid(1)));
}

#[test]
fn next_clockwise_refusals() {
    let mut tables = four_players().into_tables();
    tables.users[1].player_status = Some(PlayerStatus::Finished);
    tables.users[2].player_status = Some(PlayerStatus::Finished);
    tables.users[3].player_status = Some(PlayerStatus::Finished);
    tables.users.push(User {
        identity: pid(9),
        current_lobby_id: None,
        current_game_id: None,
        game_position: None,
        total_points: None,
        player_status: None,
    });
    let world = World::from_tables(tables).unwrap();
    assert_eq!(get_next_player_clockwise(&world, GAME, pid(77)), Err(GameError::PlayerNotFound));
    assert_eq!(get_next_player_clockwise(&world, GAME, pid(9)), Err(GameError::PlayerNotSeated));
    assert_eq!(
        get_next_player_clockwise(&world, GAME, pid(1)),
        Err(GameError::NotEnoughActivePlayers)
    );
    assert_eq!(GameError::NotEnoughActivePlayers.kind(), ErrorKind::IllegalState);
    assert_eq!(get_next_player_clockwise(&world, 55, pid(1)), Err(GameError::PlayerNotSeated));
}

// ---- attack ----------------------------------------------------------------------

#[test]
fn attack_opens_a_turn() {
    let mut world = four_players();
    assert_eq!(attack(&mut world, &ctx(1), GAME, card(Suit::Hearts, Rank::Six), pid(2)), Ok(()));
    assert_eq!(
        get_current_turn(&world, GAME),
        Some(Turn {
            id: 1000,
            round_id: ROUND,
            turn_number: 1,
            attacker: pid(1),
            defender: pid(2),
            status: TurnStatus::Active,
            started_at: 1_000,
            finished_at: None,
        })
    );
    assert_eq!(
        get_turn_draws(&world, 1000),
        vec![Draw {
            id: 1001,
            turn_id: 1000,
            attacker: pid(1),
            attacking_card: card(Suit::Hearts, Rank::Six),
            defending_card: None,
            status: DrawStatus::Pending,
            created_at: 1_000,
        }]
    );
    assert_eq!(location_of(&world, card(Suit::Hearts, Rank::Six)), CardLocation::OnTable);
    assert_eq!(get_table_cards(&world, GAME).len(), 1);
    assert_eq!(hand_of(&world, 1), vec![card(Suit::Clubs, Rank::Seven), card(Suit::Clubs, Rank::Eight)]);
    assert_eq!(world.next_id(), 1002);
    assert!(sound(&world));
}

#[test]
fn attack_refuses_a_missing_or_finished_game() {
    let mut world = four_players();
    let c = card(Suit::Hearts, Rank::Six);
    assert_eq!(attack(&mut world, &ctx(1), 99, c, pid(2)), Err(GameError::GameNotFound));
    assert_eq!(GameError::GameNotFound.kind(), ErrorKind::NotFound);
    let mut tables = world.into_tables();
    tables.games[0].status = GameStatus::Finished;
    let mut world = World::from_tables(tables).unwrap();
    assert_eq!(attack(&mut world, &ctx(1), GAME, c, pid(2)), Err(GameError::GameNotActive));
    assert_eq!(GameError::GameNotActive.kind(), ErrorKind::IllegalState);
}

#[test]
fn attack_refuses_actors_and_targets_who_do_not_play() {
    let mut tables = four_players().into_tables();
    tables.users[2].player_status = Some(PlayerStatus::Left);
    tables.users[3].current_game_id = Some(5);
    let mut world = World::from_tables(tables).unwrap();
    let c = card(Suit::Hearts, Rank::Six);
    let before = world.to_tables();
    assert_eq!(attack(&mut world, &ctx(99), GAME, c, pid(2)), Err(GameError::UserNotFound));
    assert_eq!(attack(&mut world, &ctx(4), GAME, c, pid(2)), Err(GameError::NotInGame));
    assert_eq!(attack(&mut world, &ctx(3), GAME, c, pid(2)), Err(GameError::NotActiveInGame));
    assert_eq!(attack(&mut world, &ctx(1), GAME, c, pid(99)), Err(GameError::TargetNotFound));
    assert_eq!(attack(&mut world, &ctx(1), GAME, c, pid(4)), Err(GameError::TargetNotInGame));
    assert_eq!(attack(&mut world, &ctx(1), GAME, c, pid(3)), Err(GameError::TargetNotActive));
    assert_eq!(GameError::NotInGame.kind(), ErrorKind::Unauthorized);
    assert_eq!(GameError::TargetNotActive.kind(), ErrorKind::Unauthorized);
    assert_eq!(GameError::TargetNotFound.kind(), ErrorKind::NotFound);
    assert_eq!(world.to_tables(), before);
}

#[test]
fn attack_needs_a_round_and_the_card_in_hand() {
    let mut world = four_players();
    assert_eq!(
        attack(&mut world, &ctx(1), GAME, card(Suit::Hearts, Rank::Seven), pid(2)),
        Err(GameError::CardNotInHand)
    );
    assert_eq!(GameError::CardNotInHand.kind(), ErrorKind::InvalidMove);
    let mut tables = world.into_tables();
    tables.rounds[0].status = RoundStatus::Finished;
    let mut world = World::from_tables(tables).unwrap();
    assert_eq!(
        attack(&mut world, &ctx(1), GAME, card(Suit::Hearts, Rank::Six), pid(2)),
        Err(GameError::NoActiveRound)
    );
}

#[test]
fn added_attack_must_match_a_rank_on_the_table() {
    let mut world = four_players();
    attack(&mut world, &ctx(1), GAME, card(Suit::Clubs, Rank::Seven), pid(2)).unwrap();
    let before = world.to_tables();
    assert_eq!(
        attack(&mut world, &ctx(1), GAME, card(Suit::Clubs, Rank::Eight), pid(2)),
        Err(GameError::RankNotOnTable)
    );
    assert_eq!(GameError::RankNotOnTable.kind(), ErrorKind::InvalidMove);
    assert_eq!(world.to_tables(), before);
    assert_eq!(attack(&mut world, &ctx(2), GAME, card(Suit::Hearts, Rank::Seven), pid(2)), Ok(()));
    assert_eq!(get_turn_draws(&world, 1000).len(), 2);
    assert_eq!(world.turns().len(), 1);
    assert_eq!(world.next_id(), 1003);
}

#[test]
fn added_attack_may_match_the_rank_of_a_defending_card() {
    let mut world = table(
        &[
            (1, vec![card(Suit::Hearts, Rank::Six), card(Suit::Clubs, Rank::Nine), card(Suit::Clubs, Rank::Ten)]),
            (2, vec![card(Suit::Hearts, Rank::Nine), card(Suit::Diamonds, Rank::Six), card(Suit::Diamonds, Rank::King)]),
            (3, vec![card(Suit::Diamonds, Rank::Nine)]),
        ],
        &[],
        GameSettings { max_attack_cards: 0, ..rules() },
        Suit::Spades,
    );
    attack(&mut world, &ctx(1), GAME, card(Suit::Hearts, Rank::Six), pid(2)).unwrap();
    attack(&mut world, &ctx(2), GAME, card(Suit::Diamonds, Rank::Six), pid(2)).unwrap();
    assert_eq!(defend(&mut world, &ctx(2), GAME, 1000, card(Suit::Hearts, Rank::Nine)), Ok(Resolution::TurnOpen));
    assert_eq!(attack(&mut world, &ctx(1), GAME, card(Suit::Clubs, Rank::Nine), pid(2)), Ok(()));
    assert_eq!(
        attack(&mut world, &ctx(1), GAME, card(Suit::Clubs, Rank::Ten), pid(2)),
        Err(GameError::RankNotOnTable)
    );
}

#[test]
fn added_attack_goes_to_the_defender_of_the_turn() {
    let mut world = four_players();
    attack(&mut world, &ctx(1), GAME, card(Suit::Clubs, Rank::Seven), pid(2)).unwrap();
    assert_eq!(
        attack(&mut world, &ctx(3), GAME, card(Suit::Hearts, Rank::Eight), pid(4)),
        Err(GameError::NotCurrentDefender)
    );
    assert_eq!(GameError::NotCurrentDefender.kind(), ErrorKind::InvalidMove);
}

#[test]
fn attack_stops_at_the_limit_of_cards() {
    let mut world = table(
        &[
            (1, vec![card(Suit::Hearts, Rank::Six), card(Suit::Clubs, Rank::Six), card(Suit::Diamonds, Rank::Six)]),
            (2, vec![card(Suit::Hearts, Rank::Nine), card(Suit::Hearts, Rank::Ten)]),
        ],
        &[],
        GameSettings { max_attack_cards: 2, ..rules() },
        Suit::Spades,
    );
    attack(&mut world, &ctx(1), GAME, card(Suit::Hearts, Rank::Six), pid(2)).unwrap();
    attack(&mut world, &ctx(1), GAME, card(Suit::Clubs, Rank::Six), pid(2)).unwrap();
    assert_eq!(
        attack(&mut world, &ctx(1), GAME, card(Suit::Diamonds, Rank::Six), pid(2)),
        Err(GameError::AttackLimitReached)
    );
    assert_eq!(GameError::AttackLimitReached.kind(), ErrorKind::InvalidMove);
}

#[test]
fn attack_without_limit_takes_any_number_of_cards() {
    let mut world = table(
        &[
            (1, vec![card(Suit::Hearts, Rank::Six), card(Suit::Clubs, Rank::Six), card(Suit::Diamonds, Rank::Six)]),
            (2, vec![card(Suit::Hearts, Rank::Nine), card(Suit::Hearts, Rank::Ten)]),
        ],
        &[],
        GameSettings { max_attack_cards: 0, ..rules() },
        Suit::Spades,
    );
    attack(&mut world, &ctx(1), GAME, card(Suit::Hearts, Rank::Six), pid(2)).unwrap();
    attack(&mut world, &ctx(1), GAME, card(Suit::Clubs, Rank::Six), pid(2)).unwrap();
    assert_eq!(attack(&mut world, &ctx(1), GAME, card(Suit::Diamonds, Rank::Six), pid(2)), Ok(()));
}

#[test]
fn only_the_attacker_adds_cards_where_the_rules_say_so() {
    let mut world = table(
        &[
            (1, vec![card(Suit::Hearts, Rank::Six), card(Suit::Clubs, Rank::Six)]),
            (2, vec![card(Suit::Hearts, Rank::Nine), card(Suit::Hearts, Rank::Ten)]),
            (3, vec![card(Suit::Diamonds, Rank::Six), card(Suit::Diamonds, Rank::Ten)]),
        ],
        &[],
        GameSettings { anyone_can_attack: false, ..rules() },
        Suit::Spades,
    );
    attack(&mut world, &ctx(1), GAME, card(Suit::Hearts, Rank::Six), pid(2)).unwrap();
    assert_eq!(
        attack(&mut world, &ctx(3), GAME, card(Suit::Diamonds, Rank::Six), pid(2)),
        Err(GameError::NotFirstAttacker)
    );
    assert_eq!(GameError::NotFirstAttacker.kind(), ErrorKind::Unauthorized);
    assert_eq!(attack(&mut world, &ctx(1), GAME, card(Suit::Clubs, Rank::Six), pid(2)), Ok(()));
}

#[test]
fn the_open_move_binds_the_next_turn_where_the_rules_say_so() {
    let mut world = table(
        &[
            (1, vec![card(Suit::Hearts, Rank::Six), card(Suit::Clubs, Rank::Six)]),
            (2, vec![card(Suit::Hearts, Rank::Nine), card(Suit::Hearts, Rank::Ten)]),
            (3, vec![card(Suit::Diamonds, Rank::Six), card(Suit::Diamonds, Rank::Ten)]),
        ],
        &[],
        GameSettings { anyone_can_attack: false, ..rules() },
        Suit::Spades,
    );
    attack(&mut world, &ctx(1), GAME, card(Suit::Hearts, Rank::Six), pid(2)).unwrap();
    let report = defend(&mut world, &ctx(2), GAME, 1000, card(Suit::Hearts, Rank::Nine)).unwrap();
    assert_eq!(
        report,
        Resolution::TurnOver { next: Some(PendingMove { attacker: pid(2), defender: pid(3) }) }
    );
    assert_eq!(
        attack(&mut world, &ctx(1), GAME, card(Suit::Clubs, Rank::Six), pid(2)),
        Err(GameError::NotExpectedAttacker)
    );
    assert_eq!(GameError::NotExpectedAttacker.kind(), ErrorKind::Unauthorized);
    assert_eq!(
        attack(&mut world, &ctx(2), GAME, card(Suit::Hearts, Rank::Ten), pid(1)),
        Err(GameError::NotExpectedDefender)
    );
    assert_eq!(GameError::NotExpectedDefender.kind(), ErrorKind::InvalidMove);
    assert_eq!(attack(&mut world, &ctx(2), GAME, card(Suit::Hearts, Rank::Ten), pid(3)), Ok(()));
    assert_eq!(get_current_turn(&world, GAME).unwrap().turn_number, 2);
}

#[test]
fn anyone_opens_the_next_turn_where_anyone_can_attack() {
    let mut world = four_players();
    attack(&mut world, &ctx(1), GAME, card(Suit::Hearts, Rank::Six), pid(2)).unwrap();
    defend(&mut world, &ctx(2), GAME, 1000, card(Suit::Hearts, Rank::Seven)).unwrap();
    assert_eq!(attack(&mut world, &ctx(4), GAME, card(Suit::Hearts, Rank::Nine), pid(1)), Ok(()));
}

#[test]
fn attack_refuses_when_identifiers_run_out() {
    let mut tables = four_players().into_tables();
    tables.next_id = u64::MAX - 10;
    let mut world = World::from_tables(tables).unwrap();
    assert_eq!(
        attack(&mut world, &ctx(1), GAME, card(Suit::Hearts, Rank::Six), pid(2)),
        Err(GameError::OutOfIdentifiers)
    );
    assert_eq!(GameError::OutOfIdentifiers.kind(), ErrorKind::IllegalState);
}

// ---- defend ----------------------------------------------------------------------

#[test]
fn beaten_turn_makes_the_defender_the_next_attacker() {
    let mut world = four_players();
    attack(&mut world, &ctx(1), GAME, card(Suit::Hearts, Rank::Six), pid(2)).unwrap();
    let report = defend(&mut world, &ctx(2), GAME, 1000, card(Suit::Hearts, Rank::Seven)).unwrap();
    let next = Some(PendingMove { attacker: pid(2), defender: pid(3) });
    assert_eq!(report, Resolution::TurnOver { next });
    assert_eq!(get_current_round(&world, GAME).unwrap().pending_move, next);
    assert_eq!(get_current_turn(&world, GAME), None);
    let turn = world.turns()[0];
    assert_eq!(turn.status, TurnStatus::DefenderBeat);
    assert_eq!(turn.finished_at, Some(1_000));
    let draw = world.draws()[0];
    assert_eq!(draw.status, DrawStatus::Beaten);
    assert_eq!(draw.defending_card, Some(card(Suit::Hearts, Rank::Seven)));
    assert_eq!(location_of(&world, card(Suit::Hearts, Rank::Six)), CardLocation::Discarded);
    assert_eq!(location_of(&world, card(Suit::Hearts, Rank::Seven)), CardLocation::Discarded);
    assert!(get_table_cards(&world, GAME).is_empty());
    assert_eq!(world.next_id(), 1002);
    assert!(sound(&world));
}

#[test]
fn defence_leaves_the_turn_open_while_attacks_wait() {
    let mut world = four_players();
    attack(&mut world, &ctx(1), GAME, card(Suit::Clubs, Rank::Seven), pid(2)).unwrap();
    attack(&mut world, &ctx(2), GAME, card(Suit::Hearts, Rank::Seven), pid(2)).unwrap();
    let report = defend(&mut world, &ctx(2), GAME, 1000, card(Suit::Clubs, Rank::Nine)).unwrap();
    assert_eq!(report, Resolution::TurnOpen);
    assert_eq!(world.draws()[0].status, DrawStatus::Beaten);
    assert_eq!(world.draws()[1].status, DrawStatus::Pending);
    assert_eq!(location_of(&world, card(Suit::Clubs, Rank::Nine)), CardLocation::OnTable);
    assert_eq!(get_current_turn(&world, GAME).unwrap().status, TurnStatus::Active);
}

#[test]
fn defence_must_beat_the_first_pending_attack() {
    let mut world = four_players();
    attack(&mut world, &ctx(1), GAME, card(Suit::Hearts, Rank::Six), pid(2)).unwrap();
    let before = world.to_tables();
    assert_eq!(
        defend(&mut world, &ctx(2), GAME, 1000, card(Suit::Diamonds, Rank::Nine)),
        Err(GameError::CannotBeat)
    );
    assert_eq!(GameError::CannotBeat.kind(), ErrorKind::InvalidMove);
    assert_eq!(
        defend(&mut world, &ctx(2), GAME, 1000, card(Suit::Hearts, Rank::Ace)),
        Err(GameError::CardNotInHand)
    );
    assert_eq!(world.to_tables(), before);
}

#[test]
fn defence_refusals_of_turn_and_role() {
    let mut world = four_players();
    attack(&mut world, &ctx(1), GAME, card(Suit::Hearts, Rank::Six), pid(2)).unwrap();
    let c = card(Suit::Hearts, Rank::Seven);
    assert_eq!(defend(&mut world, &ctx(2), 99, 1000, c), Err(GameError::GameNotFound));
    assert_eq!(defend(&mut world, &ctx(99), GAME, 1000, c), Err(GameError::UserNotFound));
    assert_eq!(defend(&mut world, &ctx(2), GAME, 4242, c), Err(GameError::TurnNotFound));
    assert_eq!(GameError::TurnNotFound.kind(), ErrorKind::NotFound);
    assert_eq!(
        defend(&mut world, &ctx(3), GAME, 1000, card(Suit::Hearts, Rank::Eight)),
        Err(GameError::NotTurnDefender)
    );
    assert_eq!(GameError::NotTurnDefender.kind(), ErrorKind::Unauthorized);
    defend(&mut world, &ctx(2), GAME, 1000, c).unwrap();
    assert_eq!(
        defend(&mut world, &ctx(2), GAME, 1000, card(Suit::Clubs, Rank::Nine)),
        Err(GameError::TurnNotActive)
    );
    assert_eq!(GameError::TurnNotActive.kind(), ErrorKind::IllegalState);
}

#[test]
fn defence_needs_a_pending_attack() {
    let mut tables = four_players().into_tables();
    tables.turns.push(Turn {
        id: 500,
        round_id: ROUND,
        turn_number: 1,
        attacker: pid(1),
        defender: pid(2),
        status: TurnStatus::Active,
        started_at: 20,
        finished_at: None,
    });
    let mut world = World::from_tables(tables).unwrap();
    assert_eq!(
        defend(&mut world, &ctx(2), GAME, 500, card(Suit::Hearts, Rank::Seven)),
        Err(GameError::NothingToDefend)
    );
    assert_eq!(GameError::NothingToDefend.kind(), ErrorKind::InvalidMove);
}

#[test]
fn defence_needs_the_round_of_the_turn() {
    let mut tables = four_players().into_tables();
    tables.turns.push(Turn {
        id: 500,
        round_id: 777,
        turn_number: 1,
        attacker: pid(1),
        defender: pid(2),
        status: TurnStatus::Active,
        started_at: 20,
        finished_at: None,
    });
    tables.draws.push(Draw {
        id: 501,
        turn_id: 500,
        attacker: pid(1),
        attacking_card: card(Suit::Hearts, Rank::Six),
        defending_card: None,
        status: DrawStatus::Pending,
        created_at: 20,
    });
    let mut world = World::from_tables(tables).unwrap();
    assert_eq!(
        defend(&mut world, &ctx(2), GAME, 500, card(Suit::Hearts, Rank::Seven)),
        Err(GameError::RoundNotFound)
    );
    assert_eq!(GameError::RoundNotFound.kind(), ErrorKind::NotFound);
}

// ---- take ------------------------------------------------------------------------

#[test]
fn taken_turn_passes_the_defender_over() {
    let mut world = four_players();
    attack(&mut world, &ctx(1), GAME, card(Suit::Hearts, Rank::Six), pid(2)).unwrap();
    let report = take_cards(&mut world, &ctx(2), GAME, 1000).unwrap();
    let next = Some(PendingMove { attacker: pid(3), defender: pid(4) });
    assert_eq!(report, Resolution::TurnOver { next });
    assert_eq!(get_current_round(&world, GAME).unwrap().pending_move, next);
    assert_eq!(world.turns()[0].status, TurnStatus::DefenderTook);
    assert_eq!(world.turns()[0].finished_at, Some(1_000));
    assert_eq!(world.draws()[0].status, DrawStatus::Taken);
    assert_eq!(
        hand_of(&world, 2),
        vec![
            card(Suit::Hearts, Rank::Six),
            card(Suit::Hearts, Rank::Seven),
            card(Suit::Diamonds, Rank::Nine),
            card(Suit::Clubs, Rank::Nine)
        ]
    );
    assert!(get_table_cards(&world, GAME).is_empty());
    assert!(sound(&world));
}

#[test]
fn taking_gathers_attacks_and_defences() {
    let mut world = four_players();
    attack(&mut world, &ctx(1), GAME, card(Suit::Clubs, Rank::Seven), pid(2)).unwrap();
    attack(&mut world, &ctx(2), GAME, card(Suit::Hearts, Rank::Seven), pid(2)).unwrap();
    defend(&mut world, &ctx(2), GAME, 1000, card(Suit::Clubs, Rank::Nine)).unwrap();
    take_cards(&mut world, &ctx(2), GAME, 1000).unwrap();
    assert_eq!(hand_of(&world, 2).len(), 4);
    assert_eq!(hand_of(&world, 1).len(), 2);
    assert!(world.draws().iter().all(|d| d.status == DrawStatus::Taken));
    assert_eq!(world.draws()[0].defending_card, Some(card(Suit::Clubs, Rank::Nine)));
}

#[test]
fn take_refusals() {
    let mut world = four_players();
    attack(&mut world, &ctx(1), GAME, card(Suit::Hearts, Rank::Six), pid(2)).unwrap();
    let before = world.to_tables();
    assert_eq!(take_cards(&mut world, &ctx(2), 99, 1000), Err(GameError::GameNotFound));
    assert_eq!(take_cards(&mut world, &ctx(2), GAME, 4242), Err(GameError::TurnNotFound));
    assert_eq!(take_cards(&mut world, &ctx(1), GAME, 1000), Err(GameError::NotTurnDefender));
    assert_eq!(world.to_tables(), before);
    take_cards(&mut world, &ctx(2), GAME, 1000).unwrap();
    assert_eq!(take_cards(&mut world, &ctx(2), GAME, 1000), Err(GameError::TurnNotActive));
}

// ---- pass ------------------------------------------------------------------------

fn open_turn_without_pending(anyone_can_attack: bool) -> World {
    let mut tables = table(
        &[
            (1, vec![card(Suit::Clubs, Rank::Seven), card(Suit::Clubs, Rank::Eight)]),
            (2, vec![card(Suit::Diamonds, Rank::Nine), card(Suit::Clubs, Rank::Nine)]),
            (3, vec![card(Suit::Hearts, Rank::Eight)]),
        ],
        &[],
        GameSettings { anyone_can_attack, ..rules() },
        Suit::Spades,
    )
    .into_tables();
    tables.turns.push(Turn {
        id: 500,
        round_id: ROUND,
        turn_number: 1,
        attacker: pid(1),
        defender: pid(2),
        status: TurnStatus::Active,
        started_at: 20,
        finished_at: None,
    });
    tables.draws.push(Draw {
        id: 501,
        turn_id: 500,
        attacker: pid(1),
        attacking_card: card(Suit::Hearts, Rank::Six),
        defending_card: Some(card(Suit::Hearts, Rank::Seven)),
        status: DrawStatus::Beaten,
        created_at: 20,
    });
    for row in tables.cards.iter_mut() {
        if row.card == card(Suit::Hearts, Rank::Six) || row.card == card(Suit::Hearts, Rank::Seven) {
            row.location = CardLocation::OnTable;
        }
    }
    World::from_tables(tables).unwrap()
}

#[test]
fn pass_closes_a_turn_whose_attacks_are_all_answered() {
    let mut world = open_turn_without_pending(false);
    assert_eq!(pass_turn(&mut world, &ctx(3), GAME), Err(GameError::NotTurnAttacker));
    assert_eq!(GameError::NotTurnAttacker.kind(), ErrorKind::Unauthorized);
    let report = pass_turn(&mut world, &ctx(1), GAME).unwrap();
    assert_eq!(
        report,
        Resolution::TurnOver { next: Some(PendingMove { attacker: pid(2), defender: pid(3) }) }
    );
    assert_eq!(world.turns()[0].status, TurnStatus::DefenderBeat);
    assert_eq!(location_of(&world, card(Suit::Hearts, Rank::Six)), CardLocation::Discarded);
    assert_eq!(location_of(&world, card(Suit::Hearts, Rank::Seven)), CardLocation::Discarded);
    assert!(sound(&world));
}

#[test]
fn anyone_passes_where_anyone_can_attack() {
    let mut world = open_turn_without_pending(true);
    assert!(pass_turn(&mut world, &ctx(3), GAME).is_ok());
}

#[test]
fn pass_refusals() {
    let mut world = four_players();
    assert_eq!(pass_turn(&mut world, &ctx(1), 99), Err(GameError::GameNotFound));
    assert_eq!(pass_turn(&mut world, &ctx(1), GAME), Err(GameError::NoActiveTurn));
    assert_eq!(GameError::NoActiveTurn.kind(), ErrorKind::NotFound);
    attack(&mut world, &ctx(1), GAME, card(Suit::Hearts, Rank::Six), pid(2)).unwrap();
    let before = world.to_tables();
    assert_eq!(pass_turn(&mut world, &ctx(1), GAME), Err(GameError::UndefendedAttacks));
    assert_eq!(GameError::UndefendedAttacks.kind(), ErrorKind::InvalidMove);
    assert_eq!(world.to_tables(), before);
    let mut tables = world.into_tables();
    tables.rounds[0].status = RoundStatus::Finished;
    let mut world = World::from_tables(tables).unwrap();
    assert_eq!(pass_turn(&mut world, &ctx(1), GAME), Err(GameError::NoActiveRound));
}

// ---- refill ----------------------------------------------------------------------

#[test]
fn refill_draws_from_the_end_of_the_deck_in_seat_order_from_the_first_seat() {
    let deck = [
        card(Suit::Spades, Rank::Six),
        card(Suit::Spades, Rank::Seven),
        card(Suit::Spades, Rank::Eight),
        card(Suit::Spades, Rank::Nine),
    ];
    let mut world = table(
        &[
            (1, vec![card(Suit::Hearts, Rank::Six)]),
            (2, vec![card(Suit::Hearts, Rank::Seven), card(Suit::Hearts, Rank::Eight)]),
            (3, vec![card(Suit::Hearts, Rank::Nine)]),
        ],
        &deck,
        GameSettings { starting_cards: 3, ..rules() },
        Suit::Spades,
    );
    assert_eq!(refill_hands(&mut world, GAME, 1), Ok(()));
    assert_eq!(
        hand_of(&world, 2),
        vec![card(Suit::Hearts, Rank::Seven), card(Suit::Hearts, Rank::Eight), card(Suit::Spades, Rank::Nine)]
    );
    assert_eq!(
        hand_of(&world, 3),
        vec![card(Suit::Hearts, Rank::Nine), card(Suit::Spades, Rank::Seven), card(Suit::Spades, Rank::Eight)]
    );
    assert_eq!(hand_of(&world, 1), vec![card(Suit::Hearts, Rank::Six), card(Suit::Spades, Rank::Six)]);
    assert!(world.cards().iter().all(|r| r.location != CardLocation::Deck));
    assert!(sound(&world));
}

#[test]
fn refill_leaves_full_hands_and_other_games_alone() {
    let deck = [card(Suit::Spades, Rank::Six), card(Suit::Spades, Rank::Seven)];
    let mut world = table(
        &[
            (1, vec![card(Suit::Hearts, Rank::Six), card(Suit::Hearts, Rank::Ten)]),
            (2, vec![card(Suit::Hearts, Rank::Seven), card(Suit::Hearts, Rank::Eight), card(Suit::Hearts, Rank::Nine)]),
        ],
        &deck,
        GameSettings { starting_cards: 2, ..rules() },
        Suit::Spades,
    );
    let before = world.to_tables();
    assert_eq!(refill_hands(&mut world, GAME, 0), Ok(()));
    assert_eq!(world.to_tables(), before);
    assert_eq!(refill_hands(&mut world, 99, 0), Err(GameError::GameNotFound));
}

#[test]
fn turn_resolution_refills_the_hands() {
    let deck = [
        card(Suit::Spades, Rank::Six),
        card(Suit::Spades, Rank::Seven),
        card(Suit::Spades, Rank::Eight),
    ];
    let mut world = table(
        &[
            (1, vec![card(Suit::Hearts, Rank::Six), card(Suit::Clubs, Rank::Seven)]),
            (2, vec![card(Suit::Hearts, Rank::Seven), card(Suit::Diamonds, Rank::Nine)]),
        ],
        &deck,
        GameSettings { starting_cards: 2, ..rules() },
        Suit::Clubs,
    );
    attack(&mut world, &ctx(1), GAME, card(Suit::Hearts, Rank::Six), pid(2)).unwrap();
    let report = defend(&mut world, &ctx(2), GAME, 1000, card(Suit::Hearts, Rank::Seven)).unwrap();
    assert_eq!(
        report,
        Resolution::TurnOver { next: Some(PendingMove { attacker: pid(2), defender: pid(1) }) }
    );
    assert_eq!(hand_of(&world, 2), vec![card(Suit::Diamonds, Rank::Nine), card(Suit::Spades, Rank::Eight)]);
    assert_eq!(hand_of(&world, 1), vec![card(Suit::Clubs, Rank::Seven), card(Suit::Spades, Rank::Seven)]);
}

#[test]
fn taker_draws_last() {
    let deck = [card(Suit::Spades, Rank::Six), card(Suit::Spades, Rank::Seven)];
    let mut world = table(
        &[
            (1, vec![card(Suit::Hearts, Rank::Six), card(Suit::Clubs, Rank::Seven)]),
            (2, vec![card(Suit::Diamonds, Rank::Nine)]),
            (3, vec![card(Suit::Diamonds, Rank::Ten), card(Suit::Diamonds, Rank::Jack)]),
        ],
        &deck,
        GameSettings { starting_cards: 3, ..rules() },
        Suit::Clubs,
    );
    attack(&mut world, &ctx(1), GAME, card(Suit::Hearts, Rank::Six), pid(2)).unwrap();
    take_cards(&mut world, &ctx(2), GAME, 1000).unwrap();
    assert_eq!(hand_of(&world, 3).len(), 3);
    assert_eq!(hand_of(&world, 1).len(), 2);
    assert_eq!(hand_of(&world, 2).len(), 2);
    assert!(hand_of(&world, 3).contains(&card(Suit::Spades, Rank::Seven)));
    assert!(hand_of(&world, 1).contains(&card(Suit::Spades, Rank::Six)));
}

// ---- the end of a round ------------------------------------------------------------

fn two_players_one_empty(settings: GameSettings) -> World {
    table(
        &[
            (1, vec![]),
            (2, vec![card(Suit::Hearts, Rank::Six), card(Suit::Hearts, Rank::Seven), card(Suit::Hearts, Rank::Eight)]),
        ],
        &[],
        settings,
        Suit::Spades,
    )
}

#[test]
fn round_ends_with_the_last_holder_as_loser() {
    let mut world = two_players_one_empty(rules());
    let report = check_round_end(&mut world, &ctx(1), GAME, ROUND).unwrap();
    assert_eq!(report, Some(Resolution::RoundOver { loser: Some(pid(2)) }));
    let round = world.rounds()[0];
    assert_eq!(round.status, RoundStatus::Finished);
    assert_eq!(round.loser, Some(pid(2)));
    assert_eq!(round.finished_at, Some(1_000));
    assert_eq!(user_of(&world, 2).total_points, Some(5));
    assert_eq!(user_of(&world, 1).total_points, Some(0));
    assert!(sound(&world));
}

#[test]
fn round_end_in_a_game_of_one_round_ends_the_game() {
    let mut world = two_players_one_empty(GameSettings { multi_round_mode: false, ..rules() });
    let report = check_round_end(&mut world, &ctx(1), GAME, ROUND).unwrap();
    assert_eq!(report, Some(Resolution::GameOver { final_loser: Some(pid(2)) }));
    assert_eq!(world.games()[0].status, GameStatus::Finished);
    assert_eq!(world.games()[0].finished_at, Some(1_000));
    assert_eq!(world.rounds()[0].loser, Some(pid(2)));
    assert_eq!(world.lobbies()[0].status, LobbyStatus::Finished);
    for k in 1..=2 {
        let u = user_of(&world, k);
        assert_eq!(u.current_game_id, None);
        assert_eq!(u.game_position, None);
        assert_eq!(u.total_points, None);
        assert_eq!(u.player_status, None);
    }
}

#[test]
fn round_goes_on_while_two_players_hold_cards() {
    let mut world = table(
        &[
            (1, vec![]),
            (2, vec![card(Suit::Hearts, Rank::Six)]),
            (3, vec![card(Suit::Hearts, Rank::Seven)]),
        ],
        &[],
        rules(),
        Suit::Spades,
    );
    assert_eq!(check_round_end(&mut world, &ctx(1), GAME, ROUND), Ok(None));
    assert_eq!(user_of(&world, 1).player_status, Some(PlayerStatus::Finished));
    assert_eq!(user_of(&world, 2).player_status, Some(PlayerStatus::Active));
    assert_eq!(world.rounds()[0].status, RoundStatus::Active);
    assert_eq!(get_next_player_clockwise(&world, GAME, pid(3)), Ok(pid(2)));
}

#[test]
fn empty_hand_does_not_finish_a_player_while_the_deck_has_cards() {
    let mut world = table(
        &[
            (1, vec![]),
            (2, vec![card(Suit::Hearts, Rank::Six)]),
            (3, vec![card(Suit::Hearts, Rank::Seven)]),
        ],
        &[card(Suit::Spades, Rank::Six)],
        rules(),
        Suit::Spades,
    );
    assert_eq!(check_round_end(&mut world, &ctx(1), GAME, ROUND), Ok(None));
    assert_eq!(user_of(&world, 1).player_status, Some(PlayerStatus::Active));
}

#[test]
fn round_without_holders_has_no_loser_and_costs_nothing() {
    let mut world = table(&[(1, vec![]), (2, vec![])], &[], rules(), Suit::Spades);
    let report = check_round_end(&mut world, &ctx(1), GAME, ROUND).unwrap();
    assert_eq!(report, Some(Resolution::RoundOver { loser: None }));
    assert_eq!(world.rounds()[0].loser, None);
    assert_eq!(world.rounds()[0].status, RoundStatus::Finished);
    assert_eq!(user_of(&world, 1).total_points, Some(0));
    assert_eq!(user_of(&world, 2).total_points, Some(0));
    assert_eq!(world.games()[0].current_round, 2);
}

#[test]
fn round_end_refusals() {
    let mut world = two_players_one_empty(rules());
    let before = world.to_tables();
    assert_eq!(check_round_end(&mut world, &ctx(1), 99, ROUND), Err(GameError::GameNotFound));
    assert_eq!(check_round_end(&mut world, &ctx(1), GAME, 4242), Err(GameError::RoundNotFound));
    assert_eq!(world.to_tables(), before);
    let mut world = with_rounds_closed(world);
    assert_eq!(check_round_end(&mut world, &ctx(1), GAME, ROUND), Err(GameError::RoundNotActive));
    assert_eq!(GameError::RoundNotActive.kind(), ErrorKind::IllegalState);
}

#[test]
fn a_turn_of_a_closed_round_cannot_be_resolved() {
    let mut world = four_players();
    attack(&mut world, &ctx(1), GAME, card(Suit::Hearts, Rank::Six), pid(2)).unwrap();
    let mut world = with_rounds_closed(world);
    let before = world.to_tables();
    assert_eq!(
        defend(&mut world, &ctx(2), GAME, 1000, card(Suit::Hearts, Rank::Seven)),
        Err(GameError::RoundNotActive)
    );
    assert_eq!(take_cards(&mut world, &ctx(2), GAME, 1000), Err(GameError::RoundNotActive));
    assert_eq!(world.to_tables(), before);
}

#[test]
fn last_card_played_ends_the_round_through_the_actions() {
    let mut world = table(
        &[
            (1, vec![card(Suit::Hearts, Rank::Six)]),
            (2, vec![card(Suit::Hearts, Rank::Seven), card(Suit::Hearts, Rank::Eight)]),
        ],
        &[],
        rules(),
        Suit::Spades,
    );
    attack(&mut world, &ctx(1), GAME, card(Suit::Hearts, Rank::Six), pid(2)).unwrap();
    let report = defend(&mut world, &ctx(2), GAME, 1000, card(Suit::Hearts, Rank::Seven)).unwrap();
    assert_eq!(report, Resolution::RoundOver { loser: Some(pid(2)) });
    assert_eq!(world.rounds()[0].status, RoundStatus::Finished);
    assert_eq!(world.rounds()[0].loser, Some(pid(2)));
    assert_eq!(world.rounds()[0].pending_move, None);
    assert_eq!(user_of(&world, 2).total_points, Some(5));
    assert_eq!(world.games()[0].current_round, 2);
    assert_eq!(world.rounds().len(), 2);
    assert!(sound(&world));
}

// ---- scoring ---------------------------------------------------------------------

#[test]
fn third_lost_round_in_a_row_makes_the_fool() {
    let mut world = with_rounds_closed(four_players());
    let first = handle_round_scoring(&mut world, &ctx(1), GAME, Some(pid(3))).unwrap();
    assert_eq!(first, Resolution::RoundOver { loser: Some(pid(3)) });
    assert_eq!(user_of(&world, 3).total_points, Some(5));
    assert_eq!(world.games()[0].status, GameStatus::Active);
    let mut world = with_rounds_closed(world);
    let second = handle_round_scoring(&mut world, &ctx(1), GAME, Some(pid(3))).unwrap();
    assert_eq!(second, Resolution::RoundOver { loser: Some(pid(3)) });
    assert_eq!(user_of(&world, 3).total_points, Some(10));
    assert_eq!(world.games()[0].status, GameStatus::Active);
    assert_eq!(world.games()[0].current_round, 3);
    let mut world = with_rounds_closed(world);
    let third = handle_round_scoring(&mut world, &ctx(1), GAME, Some(pid(3))).unwrap();
    assert_eq!(third, Resolution::GameOver { final_loser: Some(pid(3)) });
    assert_eq!(world.games()[0].status, GameStatus::Finished);
    assert_eq!(world.games()[0].current_round, 3);
    assert_eq!(user_of(&world, 3).current_game_id, None);
    assert_eq!(user_of(&world, 3).total_points, None);
    assert_eq!(world.lobbies()[0].status, LobbyStatus::Finished);
    assert!(sound(&world));
}

#[test]
fn points_of_other_players_do_not_count_for_the_loser() {
    let mut tables = four_players().into_tables();
    tables.users[0].total_points = Some(10);
    tables.users[1].total_points = Some(9);
    let mut world = with_rounds_closed(World::from_tables(tables).unwrap());
    let report = handle_round_scoring(&mut world, &ctx(1), GAME, Some(pid(2))).unwrap();
    assert_eq!(report, Resolution::RoundOver { loser: Some(pid(2)) });
    assert_eq!(user_of(&world, 2).total_points, Some(14));
    assert_eq!(user_of(&world, 1).total_points, Some(10));
    let report = handle_round_scoring(&mut world, &ctx(1), GAME, Some(pid(1))).unwrap();
    assert_eq!(report, Resolution::GameOver { final_loser: Some(pid(1)) });
}

#[test]
fn points_stop_at_the_top_of_their_range() {
    let mut tables = four_players().into_tables();
    tables.users[0].total_points = Some(253);
    tables.settings[0].max_points = 255;
    let mut world = World::from_tables(tables).unwrap();
    let report = handle_round_scoring(&mut world, &ctx(1), GAME, Some(pid(1))).unwrap();
    assert_eq!(report, Resolution::GameOver { final_loser: Some(pid(1)) });
}

#[test]
fn game_of_one_round_ends_without_points() {
    let mut tables = four_players().into_tables();
    tables.settings[0].multi_round_mode = false;
    let mut world = World::from_tables(tables).unwrap();
    let report = handle_round_scoring(&mut world, &ctx(1), GAME, None).unwrap();
    assert_eq!(report, Resolution::GameOver { final_loser: None });
    assert_eq!(world.games()[0].status, GameStatus::Finished);
}

#[test]
fn scoring_refusals() {
    let mut world = four_players();
    let before = world.to_tables();
    assert_eq!(
        handle_round_scoring(&mut world, &ctx(1), 99, Some(pid(1))),
        Err(GameError::GameNotFound)
    );
    assert_eq!(
        handle_round_scoring(&mut world, &ctx(1), GAME, Some(pid(99))),
        Err(GameError::LoserNotFound)
    );
    assert_eq!(GameError::LoserNotFound.kind(), ErrorKind::NotFound);
    assert_eq!(world.to_tables(), before);
    assert_eq!(
        handle_round_scoring(&mut world, &ctx(1), GAME, None),
        Err(GameError::RoundStillActive)
    );
    assert_eq!(GameError::RoundStillActive.kind(), ErrorKind::IllegalState);
    assert_eq!(world.to_tables(), before);
    let mut tables = with_rounds_closed(world).into_tables();
    tables.games[0].current_round = u32::MAX;
    let mut world = World::from_tables(tables).unwrap();
    assert_eq!(
        handle_round_scoring(&mut world, &ctx(1), GAME, None),
        Err(GameError::OutOfIdentifiers)
    );
}

#[test]
fn new_round_deals_afresh_and_keeps_the_trump() {
    let mut world = four_players();
    let mut tables = world.into_tables();
    tables.users[1].player_status = Some(PlayerStatus::Finished);
    tables.settings[0].starting_cards = 6;
    world = World::from_tables(tables).unwrap();
    let c = Context { sender: pid(1), timestamp: 2_000, seed: 0 };
    assert_eq!(start_new_round(&mut world, &c, GAME), Err(GameError::RoundStillActive));
    world = with_rounds_closed(world);
    assert_eq!(start_new_round(&mut world, &c, GAME), Ok(()));
    assert_eq!(world.games()[0].current_round, 2);
    assert_eq!(world.games()[0].trump_suit, Suit::Spades);
    assert_eq!(world.rounds().len(), 2);
    assert_eq!(
        world.rounds().last().copied(),
        Some(Round {
            id: 1000,
            game_id: GAME,
            round_number: 2,
            status: RoundStatus::Active,
            loser: None,
            pending_move: None,
            started_at: 2_000,
            finished_at: None,
        })
    );
    assert_eq!(user_of(&world, 2).player_status, Some(PlayerStatus::Active));
    let deck = create_deck(DeckSize::Standard36);
    assert_eq!(hand_of(&world, 1), deck[1..7].to_vec());
    assert_eq!(hand_of(&world, 2), deck[7..13].to_vec());
    assert_eq!(hand_of(&world, 3), deck[13..19].to_vec());
    let mut last = deck[19..25].to_vec();
    last.push(deck[0]);
    assert_eq!(hand_of(&world, 4), last);
    assert_eq!(world.cards().len(), 36);
    assert_eq!(world.cards()[0].id, 1001);
    assert_eq!(world.cards()[35].id, 1036);
    assert_eq!(world.next_id(), 1037);
    assert!(sound(&world));
    assert_eq!(start_new_round(&mut world, &c, 99), Err(GameError::GameNotFound));
    assert_eq!(get_current_round(&world, GAME).unwrap().id, 1000);
}

#[test]
fn finish_game_lets_the_players_go() {
    let mut world = four_players();
    let report = finish_game(&mut world, &ctx(1), GAME, Some(pid(4)));
    assert_eq!(report, Ok(Resolution::GameOver { final_loser: Some(pid(4)) }));
    assert_eq!(world.games()[0].status, GameStatus::Finished);
    assert_eq!(world.games()[0].finished_at, Some(1_000));
    assert!(world.users().iter().all(|u| u.current_game_id.is_none()
        && u.game_position.is_none()
        && u.total_points.is_none()
        && u.player_status.is_none()));
    assert_eq!(world.lobbies()[0].status, LobbyStatus::Finished);
    assert_eq!(world.cards().len(), 36);
    assert!(sound(&world));
    assert_eq!(finish_game(&mut world, &ctx(1), 99, None), Err(GameError::GameNotFound));
    let before = world.to_tables();
    let later = Context { sender: pid(1), timestamp: 9_000, seed: 0 };
    assert_eq!(
        finish_game(&mut world, &later, GAME, None),
        Ok(Resolution::GameOver { final_loser: None })
    );
    assert_eq!(world.to_tables(), before);
    assert_eq!(world.games()[0].finished_at, Some(1_000));
    assert_eq!(
        handle_round_scoring(&mut world, &ctx(1), GAME, None),
        Err(GameError::GameNotActive)
    );
    assert_eq!(start_new_round(&mut world, &ctx(1), GAME), Err(GameError::GameNotActive));
    assert_eq!(check_round_end(&mut world, &ctx(1), GAME, ROUND), Err(GameError::GameNotActive));
    assert_eq!(world.to_tables(), before);
    assert_eq!(
        attack(&mut world, &ctx(1), GAME, card(Suit::Hearts, Rank::Six), pid(2)),
        Err(GameError::GameNotActive)
    );
}

// ---- the tables ------------------------------------------------------------------

#[test]
fn tables_with_a_lost_or_doubled_card_are_not_taken() {
    let mut tables = four_players().into_tables();
    assert!(tables_are_sound(&tables));
    let lost = tables.cards.pop().unwrap();
    assert!(!tables_are_sound(&tables));
    assert!(World::from_tables(tables.clone()).is_none());
    tables.cards.push(lost);
    tables.cards.push(PlayerCard { id: 999, ..lost });
    assert!(!tables_are_sound(&tables));
    tables.cards.pop();
    tables.cards[0].card = tables.cards[1].card;
    assert!(!tables_are_sound(&tables));
}

#[test]
fn tables_must_not_name_identifiers_that_were_not_given_out() {
    let mut tables = four_players().into_tables();
    assert_eq!(tables.cards.last().unwrap().id, 45);
    tables.next_id = 45;
    assert!(!tables_are_sound(&tables));
    tables.next_id = 46;
    assert!(tables_are_sound(&tables));
    tables.cards[0].game_id = 46;
    assert!(!tables_are_sound(&tables));
    tables.cards[0].game_id = GAME;
    tables.users[0].current_game_id = Some(46);
    assert!(!tables_are_sound(&tables));
}

#[test]
fn identifiers_must_rise_along_the_rows() {
    let sound = four_players().into_tables();
    let mut tables = sound.clone();
    tables.cards.swap(3, 4);
    assert!(!tables_are_sound(&tables));
    let mut tables = sound.clone();
    tables.cards[4].id = tables.cards[3].id;
    assert!(!tables_are_sound(&tables));
    let mut tables = sound.clone();
    let game = tables.games[0];
    tables.games.push(Game { status: GameStatus::Finished, ..game });
    assert!(!tables_are_sound(&tables));
    let mut tables = sound.clone();
    let round = tables.rounds[0];
    tables.rounds.push(Round { status: RoundStatus::Finished, ..round });
    assert!(!tables_are_sound(&tables));
    let turn = Turn {
        id: 500,
        round_id: ROUND,
        turn_number: 1,
        attacker: pid(1),
        defender: pid(2),
        status: TurnStatus::DefenderBeat,
        started_at: 20,
        finished_at: Some(21),
    };
    let mut tables = sound.clone();
    tables.turns.push(turn);
    tables.turns.push(Turn { id: 499, ..turn });
    assert!(!tables_are_sound(&tables));
    let draw = Draw {
        id: 600,
        turn_id: 500,
        attacker: pid(1),
        attacking_card: card(Suit::Hearts, Rank::Six),
        defending_card: None,
        status: DrawStatus::Taken,
        created_at: 20,
    };
    let mut tables = sound.clone();
    tables.draws.push(draw);
    tables.draws.push(draw);
    assert!(!tables_are_sound(&tables));
    tables.draws[1].id = 601;
    assert!(tables_are_sound(&tables));
}

#[test]
fn two_players_of_a_game_do_not_share_a_seat() {
    let mut tables = four_players().into_tables();
    tables.users[2].game_position = Some(0);
    assert!(!tables_are_sound(&tables));
    tables.users[2].current_game_id = None;
    assert!(tables_are_sound(&tables));
    tables.users[2].current_game_id = Some(GAME);
    tables.users[2].game_position = None;
    tables.users[3].game_position = None;
    assert!(!tables_are_sound(&tables));
}

#[test]
fn identifiers_are_given_out_once() {
    let mut world = lobby_of(2, None);
    let game = start_game(&mut world, &ctx(1), LOBBY).unwrap();
    let hand = get_player_hand(&world, game.id, pid(1));
    attack(&mut world, &ctx(1), game.id, hand[0], pid(2)).unwrap();
    let turn_id = world.turns()[0].id;
    take_cards(&mut world, &ctx(2), game.id, turn_id).unwrap();
    let mut ids: Vec<u64> = Vec::new();
    ids.extend(world.games().iter().map(|r| r.id));
    ids.extend(world.rounds().iter().map(|r| r.id));
    ids.extend(world.turns().iter().map(|r| r.id));
    ids.extend(world.draws().iter().map(|r| r.id));
    ids.extend(world.cards().iter().map(|r| r.id));
    let n = ids.len();
    ids.sort();
    ids.dedup();
    assert_eq!(ids.len(), n);
    assert!(ids.iter().all(|id| *id < world.next_id()));
}

#[test]
fn tables_with_two_rounds_or_two_open_turns_at_a_time_are_not_taken() {
    let mut tables = four_players().into_tables();
    let round = tables.rounds[0];
    tables.rounds.push(Round { id: 3, round_number: 2, ..round });
    assert!(!tables_are_sound(&tables));
    tables.rounds[1].status = RoundStatus::Finished;
    assert!(tables_are_sound(&tables));
    tables.rounds[1].game_id = 5000;
    assert!(!tables_are_sound(&tables));
    tables.rounds.pop();
    let turn = Turn {
        id: 500,
        round_id: ROUND,
        turn_number: 1,
        attacker: pid(1),
        defender: pid(2),
        status: TurnStatus::Active,
        started_at: 20,
        finished_at: None,
    };
    tables.turns.push(turn);
    assert!(tables_are_sound(&tables));
    tables.turns.push(Turn { id: 501, turn_number: 2, ..turn });
    assert!(!tables_are_sound(&tables));
    tables.turns[0].status = TurnStatus::DefenderTook;
    assert!(tables_are_sound(&tables));
}

#[test]
fn one_round_and_one_turn_at_a_time_through_a_whole_game() {
    let mut world = lobby_of(2, Some(GameSettings { starting_cards: 6, ..rules() }));
    let game = start_game(&mut world, &Context { sender: pid(1), timestamp: 1, seed: u64::MAX }, LOBBY).unwrap();
    let mut steps = 0;
    while world.games()[0].status == GameStatus::Active && steps < 300 {
        steps += 1;
        let c = Context { sender: pid(1), timestamp: steps, seed: u64::MAX - steps as u64 };
        match get_current_turn(&world, game.id) {
            None => {
                let who = if get_player_hand(&world, game.id, pid(1)).is_empty() { 2 } else { 1 };
                let hand = get_player_hand(&world, game.id, pid(who));
                let c = Context { sender: pid(who), ..c };
                attack(&mut world, &c, game.id, hand[0], pid(3 - who)).unwrap();
            }
            Some(turn) => {
                let d = Context { sender: turn.defender, ..c };
                take_cards(&mut world, &d, game.id, turn.id).unwrap();
            }
        }
        let active_rounds =
            world.rounds().iter().filter(|r| r.status == RoundStatus::Active).count();
        let open_turns = world.turns().iter().filter(|t| t.status == TurnStatus::Active).count();
        assert!(active_rounds <= 1);
        assert!(open_turns <= 1);
        assert!(sound(&world));
    }
}

#[test]
fn cards_are_conserved_through_a_whole_game() {
    let mut world = lobby_of(3, Some(GameSettings { starting_cards: 6, max_attack_cards: 0, ..rules() }));
    let game = start_game(&mut world, &Context { sender: pid(1), timestamp: 1, seed: 0x9E37_79B9_7F4A_7C15 }, LOBBY).unwrap();
    assert!(sound(&world));
    let mut steps = 0;
    while world.games()[0].status == GameStatus::Active && steps < 400 {
        steps += 1;
        let who: Vec<u128> = world
            .users()
            .iter()
            .filter(|u| u.player_status == Some(PlayerStatus::Active))
            .map(|u| u.identity.lo)
            .collect();
        let c = Context { sender: pid(who[0]), timestamp: steps, seed: steps as u64 * 0x9E37_79B9_7F4A_7C15 };
        match get_current_turn(&world, game.id) {
            None => {
                let hand = get_player_hand(&world, game.id, pid(who[0]));
                let target = get_next_player_clockwise(&world, game.id, pid(who[0])).unwrap();
                attack(&mut world, &c, game.id, hand[0], target).unwrap();
            }
            Some(turn) => {
                let d = Context { sender: turn.defender, ..c };
                let hand = get_player_hand(&world, game.id, turn.defender);
                let pending = get_turn_draws(&world, turn.id)
                    .into_iter()
                    .find(|x| x.status == DrawStatus::Pending)
                    .unwrap();
                let answer = hand
                    .iter()
                    .find(|h| spacefool::can_beat_card(&pending.attacking_card, h, game.trump_suit));
                match answer {
                    Some(h) => {
                        defend(&mut world, &d, game.id, turn.id, *h).unwrap();
                    }
                    None => {
                        take_cards(&mut world, &d, game.id, turn.id).unwrap();
                    }
                }
            }
        }
        assert!(sound(&world));
        for g in world.games() {
            let mut held: Vec<Card> =
                world.cards().iter().filter(|r| r.game_id == g.id).map(|r| r.card).collect();
            assert_eq!(held.len(), 36);
            held.sort_by_key(|c| (c.suit as u8, c.rank));
            let mut deck = create_deck(DeckSize::Standard36);
            deck.sort_by_key(|c| (c.suit as u8, c.rank));
            assert_eq!(held, deck);
        }
    }
    assert!(steps > 10);
}

// ---- reading ---------------------------------------------------------------------

#[test]
fn queries_read_the_tables() {
    let mut world = four_players();
    assert_eq!(spacefool::get_active_turn(&world, ROUND), None);
    assert!(spacefool::is_valid_attack_rank(Rank::Ace, 1000, &world));
    attack(&mut world, &ctx(1), GAME, card(Suit::Hearts, Rank::Six), pid(2)).unwrap();
    assert_eq!(spacefool::get_active_turn(&world, ROUND).unwrap().id, 1000);
    assert_eq!(spacefool::count_pending_draws(&world, 1000), 1);
    assert_eq!(spacefool::count_pending_draws(&world, 1), 0);
    assert!(spacefool::is_valid_attack_rank(Rank::Six, 1000, &world));
    assert!(!spacefool::is_valid_attack_rank(Rank::Seven, 1000, &world));
    assert!(spacefool::player_has_card(&world, GAME, pid(1), &card(Suit::Clubs, Rank::Seven)));
    assert!(!spacefool::player_has_card(&world, GAME, pid(1), &card(Suit::Hearts, Rank::Six)));
    assert!(!spacefool::player_has_card(&world, GAME, pid(2), &card(Suit::Clubs, Rank::Seven)));
    let rows = spacefool::get_player_cards(&world, GAME, pid(1));
    assert_eq!(rows.len(), 2);
    assert!(rows.iter().all(|r| r.player == Some(pid(1)) && r.location == CardLocation::Hand));
    assert_eq!(get_game_state(&world, 99), None);
    assert_eq!(get_current_round(&world, 99), None);
    assert_eq!(get_current_turn(&world, 99), None);
    assert_eq!(get_table_cards(&world, GAME)[0].card, card(Suit::Hearts, Rank::Six));
    assert!(get_table_cards(&world, 99).is_empty());
}

#[test]
fn the_steps_of_a_resolution_can_be_taken_one_by_one() {
    let mut world = four_players();
    attack(&mut world, &ctx(1), GAME, card(Suit::Hearts, Rank::Six), pid(2)).unwrap();
    assert_eq!(
        spacefool::finish_turn_defender_won(&mut world, &ctx(1), GAME, 4242),
        Err(GameError::TurnNotFound)
    );
    assert_eq!(
        spacefool::finish_turn_defender_won(&mut world, &ctx(1), 99, 1000),
        Err(GameError::GameNotFound)
    );
    let report = spacefool::finish_turn_defender_won(&mut world, &ctx(1), GAME, 1000).unwrap();
    assert_eq!(
        report,
        Resolution::TurnOver { next: Some(PendingMove { attacker: pid(2), defender: pid(3) }) }
    );
    assert_eq!(world.turns()[0].status, TurnStatus::DefenderBeat);
    assert_eq!(
        spacefool::finish_turn_defender_won(&mut world, &ctx(1), GAME, 1000),
        Err(GameError::TurnNotActive)
    );
    let report =
        spacefool::start_next_turn_after_defense(&mut world, &ctx(1), GAME, ROUND, pid(4)).unwrap();
    assert_eq!(
        report,
        Resolution::TurnOver { next: Some(PendingMove { attacker: pid(4), defender: pid(1) }) }
    );
    let report = spacefool::start_next_turn_after_take(&mut world, &ctx(1), GAME, ROUND).unwrap();
    assert_eq!(
        report,
        Resolution::TurnOver { next: Some(PendingMove { attacker: pid(3), defender: pid(4) }) }
    );
    assert_eq!(
        get_current_round(&world, GAME).unwrap().pending_move,
        Some(PendingMove { attacker: pid(3), defender: pid(4) })
    );
    assert_eq!(
        spacefool::start_next_turn_after_take(&mut world, &ctx(1), GAME, 4242),
        Err(GameError::TurnNotFound)
    );
    assert_eq!(
        spacefool::start_next_turn_after_defense(&mut world, &ctx(1), GAME, 4242, pid(1)),
        Err(GameError::RoundNotFound)
    );
}

#[test]
fn a_defender_who_finishes_hands_the_attack_to_the_next_player() {
    let mut world = table(
        &[
            (1, vec![card(Suit::Hearts, Rank::Six), card(Suit::Clubs, Rank::Seven)]),
            (2, vec![card(Suit::Hearts, Rank::Seven)]),
            (3, vec![card(Suit::Hearts, Rank::Eight), card(Suit::Diamonds, Rank::Ten)]),
        ],
        &[],
        rules(),
        Suit::Spades,
    );
    attack(&mut world, &ctx(1), GAME, card(Suit::Hearts, Rank::Six), pid(2)).unwrap();
    let report = defend(&mut world, &ctx(2), GAME, 1000, card(Suit::Hearts, Rank::Seven)).unwrap();
    assert_eq!(
        report,
        Resolution::TurnOver { next: Some(PendingMove { attacker: pid(3), defender: pid(1) }) }
    );
    assert_eq!(user_of(&world, 2).player_status, Some(PlayerStatus::Finished));
}

#[test]
fn what_is_over_stays_as_it_was() {
    let mut world = lobby_of(3, Some(GameSettings { starting_cards: 4, ..rules() }));
    let game = start_game(&mut world, &Context { sender: pid(1), timestamp: 1, seed: 7 }, LOBBY).unwrap();
    let mut steps = 0;
    while world.games()[0].status == GameStatus::Active && steps < 300 {
        steps += 1;
        let before = world.to_tables();
        let c = Context { sender: pid(1), timestamp: 10 + steps, seed: steps as u64 };
        match get_current_turn(&world, game.id) {
            None => {
                let who = world
                    .users()
                    .iter()
                    .find(|u| u.player_status == Some(PlayerStatus::Active))
                    .unwrap()
                    .identity;
                let hand = get_player_hand(&world, game.id, who);
                let target = get_next_player_clockwise(&world, game.id, who).unwrap();
                attack(&mut world, &Context { sender: who, ..c }, game.id, hand[0], target).unwrap();
            }
            Some(turn) => {
                take_cards(&mut world, &Context { sender: turn.defender, ..c }, game.id, turn.id)
                    .unwrap();
            }
        }
        let after = world.to_tables();
        assert_eq!(after.games[0].trump_suit, game.trump_suit);
        for (old, new) in before.rounds.iter().zip(after.rounds.iter()) {
            assert_eq!(old.id, new.id);
            if old.status == RoundStatus::Finished {
                assert_eq!(old, new);
            }
        }
        for (old, new) in before.turns.iter().zip(after.turns.iter()) {
            assert_eq!((old.id, old.attacker, old.defender), (new.id, new.attacker, new.defender));
            if old.status != TurnStatus::Active {
                assert_eq!(old, new);
            }
        }
        for (old, new) in before.draws.iter().zip(after.draws.iter()) {
            assert_eq!((old.id, old.attacking_card), (new.id, new.attacking_card));
            if old.status == DrawStatus::Taken {
                assert_eq!(old, new);
            }
        }
        assert!(before.rounds.len() <= after.rounds.len());
        assert!(before.turns.len() <= after.turns.len());
        assert!(before.draws.len() <= after.draws.len());
    }
}

#[test]
fn a_turn_is_not_resolved_when_the_counters_leave_no_room() {
    let mut world = four_players();
    attack(&mut world, &ctx(1), GAME, card(Suit::Hearts, Rank::Six), pid(2)).unwrap();
    let mut tables = world.into_tables();
    tables.games[0].current_round = u32::MAX;
    let mut world = World::from_tables(tables).unwrap();
    let before = world.to_tables();
    assert_eq!(
        defend(&mut world, &ctx(2), GAME, 1000, card(Suit::Hearts, Rank::Seven)),
        Err(GameError::OutOfIdentifiers)
    );
    assert_eq!(take_cards(&mut world, &ctx(2), GAME, 1000), Err(GameError::OutOfIdentifiers));
    assert_eq!(world.to_tables(), before);
    let mut tables = world.into_tables();
    tables.games[0].current_round = 1;
    tables.next_id = u64::MAX - 63;
    let mut world = World::from_tables(tables).unwrap();
    assert_eq!(take_cards(&mut world, &ctx(2), GAME, 1000), Err(GameError::OutOfIdentifiers));
    let mut tables = world.into_tables();
    tables.next_id = u64::MAX - 64;
    let mut world = World::from_tables(tables).unwrap();
    assert!(take_cards(&mut world, &ctx(2), GAME, 1000).is_ok());
}

#[test]
fn finishing_a_finished_game_lets_late_players_go() {
    let mut tables = four_players().into_tables();
    tables.games[0].status = GameStatus::Finished;
    tables.games[0].finished_at = Some(500);
    let mut world = World::from_tables(tables).unwrap();
    assert_eq!(
        finish_game(&mut world, &ctx(1), GAME, Some(pid(2))),
        Ok(Resolution::GameOver { final_loser: Some(pid(2)) })
    );
    assert_eq!(world.games()[0].status, GameStatus::Finished);
    assert_eq!(world.games()[0].finished_at, Some(500));
    assert_eq!(world.games()[0].trump_suit, Suit::Spades);
    assert!(world.users().iter().all(|u| u.current_game_id.is_none()
        && u.game_position.is_none()
        && u.total_points.is_none()
        && u.player_status.is_none()));
    assert_eq!(world.lobbies()[0].status, LobbyStatus::Finished);
    assert!(sound(&world));
}

#[test]
fn a_resolved_turn_is_not_active_whoever_asks_for_it() {
    let mut world = table(
        &[
            (1, vec![card(Suit::Hearts, Rank::Six), card(Suit::Clubs, Rank::Seven)]),
            (2, vec![card(Suit::Hearts, Rank::Seven)]),
            (3, vec![card(Suit::Hearts, Rank::Eight), card(Suit::Diamonds, Rank::Ten)]),
        ],
        &[],
        rules(),
        Suit::Spades,
    );
    attack(&mut world, &ctx(1), GAME, card(Suit::Hearts, Rank::Six), pid(2)).unwrap();
    defend(&mut world, &ctx(2), GAME, 1000, card(Suit::Hearts, Rank::Seven)).unwrap();
    assert_eq!(user_of(&world, 2).player_status, Some(PlayerStatus::Finished));
    let before = world.to_tables();
    assert_eq!(take_cards(&mut world, &ctx(2), GAME, 1000), Err(GameError::TurnNotActive));
    assert_eq!(GameError::TurnNotActive.kind(), ErrorKind::IllegalState);
    assert_eq!(
        defend(&mut world, &ctx(2), GAME, 1000, card(Suit::Hearts, Rank::Seven)),
        Err(GameError::TurnNotActive)
    );
    assert_eq!(take_cards(&mut world, &ctx(3), GAME, 1000), Err(GameError::NotTurnDefender));
    assert_eq!(GameError::NotTurnDefender.kind(), ErrorKind::Unauthorized);
    assert_eq!(world.to_tables(), before);
}

#[test]
fn a_defender_who_is_not_active_does_not_defend_an_open_turn() {
    let mut world = four_players();
    attack(&mut world, &ctx(1), GAME, card(Suit::Hearts, Rank::Six), pid(2)).unwrap();
    let mut tables = world.into_tables();
    tables.users[1].player_status = Some(PlayerStatus::Left);
    let mut world = World::from_tables(tables).unwrap();
    assert_eq!(
        defend(&mut world, &ctx(2), GAME, 1000, card(Suit::Hearts, Rank::Seven)),
        Err(GameError::NotActiveInGame)
    );
    assert_eq!(
        defend(&mut world, &ctx(3), GAME, 1000, card(Suit::Hearts, Rank::Eight)),
        Err(GameError::NotTurnDefender)
    );
    assert!(take_cards(&mut world, &ctx(2), GAME, 1000).is_ok());
}

#[test]
fn no_two_rows_stand_for_one_user_or_one_lobby() {
    let sound = four_players().into_tables();
    let mut tables = sound.clone();
    tables.users[3].identity = pid(1);
    assert!(!tables_are_sound(&tables));
    let mut tables = sound.clone();
    let stray = User {
        identity: pid(2),
        current_lobby_id: None,
        current_game_id: None,
        game_position: None,
        total_points: None,
        player_status: None,
    };
    tables.users.push(stray);
    assert!(!tables_are_sound(&tables));
    tables.users[4].identity = pid(5);
    assert!(tables_are_sound(&tables));
    let mut tables = sound.clone();
    let lobby = tables.lobbies[0];
    tables.lobbies.push(lobby);
    assert!(!tables_are_sound(&tables));
    tables.lobbies[1].id = 999;
    assert!(tables_are_sound(&tables));
    tables.lobbies[1].id = 1000;
    assert!(!tables_are_sound(&tables));
}

#[test]
fn rows_name_only_what_has_been_given_out() {
    let sound = four_players().into_tables();
    let turn = Turn {
        id: 500,
        round_id: ROUND,
        turn_number: 1,
        attacker: pid(1),
        defender: pid(2),
        status: TurnStatus::DefenderBeat,
        started_at: 20,
        finished_at: Some(21),
    };
    let draw = Draw {
        id: 600,
        turn_id: 500,
        attacker: pid(1),
        attacking_card: card(Suit::Hearts, Rank::Six),
        defending_card: None,
        status: DrawStatus::Taken,
        created_at: 20,
    };
    let mut tables = sound.clone();
    tables.turns.push(turn);
    tables.draws.push(draw);
    assert!(tables_are_sound(&tables));
    tables.draws[0].turn_id = 1000;
    assert!(!tables_are_sound(&tables));
    tables.draws[0].turn_id = 999;
    assert!(tables_are_sound(&tables));
    tables.turns[0].round_id = 1000;
    assert!(!tables_are_sound(&tables));
}

#[test]
fn a_newly_opened_turn_has_exactly_one_draw() {
    let mut world = four_players();
    attack(&mut world, &ctx(1), GAME, card(Suit::Hearts, Rank::Six), pid(2)).unwrap();
    let turn = get_current_turn(&world, GAME).unwrap();
    assert_eq!(get_turn_draws(&world, turn.id).len(), 1);
    assert!(world.draws().iter().all(|d| d.turn_id < world.next_id()));
    assert!(world.turns().iter().all(|t| t.round_id < world.next_id()));
}

#[test]
fn a_new_round_gives_every_player_a_full_hand() {
    let mut tables = with_rounds_closed(four_players()).into_tables();
    tables.settings[0].starting_cards = 5;
    tables.users.reverse();
    let mut world = World::from_tables(tables).unwrap();
    let c = Context { sender: pid(1), timestamp: 2_000, seed: 0xABCD_EF01_2345_6789 };
    assert_eq!(start_new_round(&mut world, &c, GAME), Ok(()));
    assert_eq!(hand_of(&world, 1).len(), 5);
    assert_eq!(hand_of(&world, 2).len(), 5);
    assert_eq!(hand_of(&world, 3).len(), 5);
    assert_eq!(hand_of(&world, 4).len(), 6);
    let in_deck = world.cards().iter().filter(|r| r.location == CardLocation::Deck).count();
    assert_eq!(in_deck, 36 - 20 - 1);
    assert!(world
        .cards()
        .iter()
        .all(|r| r.location == CardLocation::Hand || r.location == CardLocation::Deck));
    assert_eq!(world.cards().len(), 36);
    assert_eq!(world.cards().last().unwrap().player, Some(pid(4)));
    assert!(sound(&world));
}

#[test]
fn the_last_seat_holds_no_extra_card_when_all_cards_are_dealt() {
    let mut world = lobby_of(6, Some(GameSettings { starting_cards: 6, ..rules() }));
    let game = start_game(&mut world, &ctx(1), LOBBY).unwrap();
    for k in 1..=6 {
        assert_eq!(get_player_hand(&world, game.id, pid(k)).len(), 6);
    }
    let mut world = with_rounds_closed(world);
    assert_eq!(start_new_round(&mut world, &ctx(1), game.id), Ok(()));
    for k in 1..=6 {
        assert_eq!(get_player_hand(&world, game.id, pid(k)).len(), 6);
    }
    assert!(world.cards().iter().all(|r| r.location == CardLocation::Hand));
    let mut world = lobby_of(5, Some(GameSettings { starting_cards: 7, ..rules() }));
    let game = start_game(&mut world, &ctx(1), LOBBY).unwrap();
    for k in 1..=4 {
        assert_eq!(get_player_hand(&world, game.id, pid(k)).len(), 7);
    }
    assert_eq!(get_player_hand(&world, game.id, pid(5)).len(), 8);
    assert!(world.cards().iter().all(|r| r.location == CardLocation::Hand));
    let mut world = lobby_of(5, Some(GameSettings { starting_cards: 7, trump_card_to_player: false, ..rules() }));
    let game = start_game(&mut world, &ctx(1), LOBBY).unwrap();
    assert_eq!(get_player_hand(&world, game.id, pid(5)).len(), 7);
    assert_eq!(world.cards().iter().filter(|r| r.location == CardLocation::Deck).count(), 1);
}

#[test]
fn the_neighbour_is_another_player() {
    let mut tables = four_players().into_tables();
    tables.users[1].player_status = Some(PlayerStatus::Finished);
    tables.users[2].player_status = Some(PlayerStatus::Left);
    let world = World::from_tables(tables).unwrap();
    for k in 1..=4 {
        let next = get_next_player_clockwise(&world, GAME, pid(k)).unwrap();
        assert_ne!(next, pid(k));
    }
    assert_eq!(get_next_player_clockwise(&world, GAME, pid(1)), Ok(pid(4)));
    assert_eq!(get_next_player_clockwise(&world, GAME, pid(4)), Ok(pid(1)));
}

#[test]
fn a_player_of_a_game_has_a_seat() {
    let mut tables = four_players().into_tables();
    tables.users[2].game_position = None;
    assert!(!tables_are_sound(&tables));
    tables.users[2].current_game_id = None;
    assert!(tables_are_sound(&tables));
}

#[test]
fn refill_gives_no_hand_more_than_it_lacks() {
    let deck = [
        card(Suit::Spades, Rank::Six),
        card(Suit::Spades, Rank::Seven),
        card(Suit::Spades, Rank::Eight),
        card(Suit::Spades, Rank::Nine),
        card(Suit::Spades, Rank::Ten),
    ];
    let mut world = table(
        &[
            (1, vec![card(Suit::Hearts, Rank::Six)]),
            (2, vec![
                card(Suit::Hearts, Rank::Seven),
                card(Suit::Hearts, Rank::Eight),
                card(Suit::Hearts, Rank::Nine),
            ]),
        ],
        &deck,
        GameSettings { starting_cards: 2, ..rules() },
        Suit::Spades,
    );
    assert_eq!(refill_hands(&mut world, GAME, 0), Ok(()));
    assert_eq!(hand_of(&world, 1).len(), 2);
    assert_eq!(hand_of(&world, 2).len(), 3);
    assert_eq!(world.cards().iter().filter(|r| r.location == CardLocation::Deck).count(), 4);
}
