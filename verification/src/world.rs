//! The game tables, held in memory.

use crate::cards::{Card, DeckSize};
use crate::deck::{built_deck, create_deck, lemma_built_deck_places};
use crate::invariants::lemma_wf_kept;
use crate::lookup::{count_active_rounds, count_active_turns};
use crate::model::{
    ascending, card_ids, cards_sound, draw_ids, game_ids, has_game, ids_sound, is_active_round_of,
    is_active_turn_of, is_card_of, is_game, lobby_ids, names_sound, round_ids, rounds_sound,
    seat_clash, seats_sound, turn_ids, turns_sound, users_sound, well_formed, WorldView,
};
use crate::seqs::{count, first_where, lemma_count_step, lemma_count_zero, lemma_first_where};
use crate::types::{Draw, Game, GameSettings, Lobby, PlayerCard, Round, Turn, User};
use vstd::prelude::*;

verus! {

/// All tables that the engine works on. Rows stand in the order in which they
/// were added; the engine gives every game, round, turn, draw and card row an
/// identifier of its own from one rising counter.
pub struct World {
    users: Vec<User>,
    lobbies: Vec<Lobby>,
    settings: Vec<GameSettings>,
    games: Vec<Game>,
    rounds: Vec<Round>,
    turns: Vec<Turn>,
    draws: Vec<Draw>,
    cards: Vec<PlayerCard>,
    next_id: u64,
}

/// The tables as plain rows, as they are handed in and out.
#[derive(Debug, Clone, PartialEq, Eq)]
pub struct Tables {
    pub users: Vec<User>,
    pub lobbies: Vec<Lobby>,
    pub settings: Vec<GameSettings>,
    pub games: Vec<Game>,
    pub rounds: Vec<Round>,
    pub turns: Vec<Turn>,
    pub draws: Vec<Draw>,
    pub cards: Vec<PlayerCard>,
    pub next_id: u64,
}

impl View for Tables {
    type V = WorldView;

    open spec fn view(&self) -> WorldView {
        WorldView {
            users: self.users@,
            lobbies: self.lobbies@,
            settings: self.settings@,
            games: self.games@,
            rounds: self.rounds@,
            turns: self.turns@,
            draws: self.draws@,
            cards: self.cards@,
            next_id: self.next_id,
        }
    }
}

/// A copy of a table.
pub(crate) fn copy_rows<T: Copy>(rows: &Vec<T>) -> (out: Vec<T>)
    ensures
        out@ == rows@,
{
    let mut out: Vec<T> = Vec::new();
    let mut i: usize = 0;
    while i < rows.len()
        invariant
            i <= rows@.len(),
            out@ == rows@.take(i as int),
        decreases rows@.len() - i,
    {
        out.push(rows[i]);
        i = i + 1;
        assert(out@ =~= rows@.take(i as int));
    }
    assert(rows@.take(i as int) =~= rows@);
    out
}

fn count_rows_of(cards: &Vec<PlayerCard>, g: u64, c: Card) -> (n: usize)
    ensures
        n == count(cards@, is_card_of(g, c)),
{
    let mut n: usize = 0;
    let mut i: usize = 0;
    while i < cards.len()
        invariant
            i <= cards@.len(),
            n <= i,
            n == count(cards@.take(i as int), is_card_of(g, c)),
        decreases cards@.len() - i,
    {
        proof {
            lemma_count_step(cards@, i as int, is_card_of(g, c));
        }
        if cards[i].game_id == g && cards[i].card == c {
            n = n + 1;
        }
        i = i + 1;
    }
    assert(cards@.take(i as int) =~= cards@);
    n
}

fn cards_are_sound(games: &Vec<Game>, cards: &Vec<PlayerCard>, next_id: u64) -> (sound: bool)
    ensures
        sound == cards_sound(games@, cards@, next_id),
{
    let mut i: usize = 0;
    while i < games.len()
        invariant
            i <= games@.len(),
            forall|j: int| 0 <= j < i ==> (#[trigger] games@[j]).id < next_id,
        decreases games@.len() - i,
    {
        if games[i].id >= next_id {
            return false;
        }
        i = i + 1;
    }
    let mut k: usize = 0;
    while k < cards.len()
        invariant
            k <= cards@.len(),
            forall|j: int| 0 <= j < k ==> (#[trigger] cards@[j]).game_id < next_id,
        decreases cards@.len() - k,
    {
        if cards[k].game_id >= next_id {
            return false;
        }
        k = k + 1;
    }
    let deck = create_deck(DeckSize::Standard36);
    let mut gi: usize = 0;
    while gi < games.len()
        invariant
            gi <= games@.len(),
            deck@ == built_deck(),
            forall|j: int, c: Card|
                0 <= j < gi ==> #[trigger] count(cards@, is_card_of(games@[j].id, c)) == 1,
        decreases games@.len() - gi,
    {
        let g = games[gi].id;
        let mut d: usize = 0;
        while d < deck.len()
            invariant
                d <= deck@.len(),
                deck@ == built_deck(),
                gi < games@.len(),
                g == games@[gi as int].id,
                forall|j: int| 0 <= j < d ==> count(cards@, is_card_of(g, #[trigger] deck@[j])) == 1,
            decreases deck@.len() - d,
        {
            if count_rows_of(cards, g, deck[d]) != 1 {
                proof {
                    lemma_first_where(games@, is_game(g));
                    if first_where(games@, is_game(g)) >= games@.len() {
                        assert(!is_game(g)(games@[gi as int]));
                    }
                    assert(has_game(games@, g));
                }
                return false;
            }
            d = d + 1;
        }
        proof {
            assert forall|c: Card| #[trigger] count(cards@, is_card_of(g, c)) == 1 by {
                lemma_built_deck_places(c);
                assert(deck@[crate::deck::deck_place(c)] == c);
            }
        }
        gi = gi + 1;
    }
    proof {
        assert forall|g: u64, c: Card| has_game(games@, g) implies #[trigger] count(
            cards@,
            is_card_of(g, c),
        ) == 1 by {
            lemma_first_where(games@, is_game(g));
            let j = first_where(games@, is_game(g));
            assert(games@[j].id == g);
        }
    }
    true
}

fn rounds_are_sound(rounds: &Vec<Round>, next_id: u64) -> (sound: bool)
    ensures
        sound == rounds_sound(rounds@, next_id),
{
    let mut i: usize = 0;
    while i < rounds.len()
        invariant
            i <= rounds@.len(),
            forall|j: int| 0 <= j < i ==> (#[trigger] rounds@[j]).game_id < next_id,
            forall|j: int|
                0 <= j < i ==> #[trigger] count(rounds@, is_active_round_of(rounds@[j].game_id))
                    <= 1,
        decreases rounds@.len() - i,
    {
        if rounds[i].game_id >= next_id {
            return false;
        }
        if count_active_rounds(rounds, rounds[i].game_id) > 1 {
            return false;
        }
        i = i + 1;
    }
    proof {
        assert forall|g: u64| #[trigger] count(rounds@, is_active_round_of(g)) <= 1 by {
            if count(rounds@, is_active_round_of(g)) > 0 {
                lemma_count_zero(rounds@, is_active_round_of(g));
                let j = choose|j: int|
                    0 <= j < rounds@.len() && is_active_round_of(g)(rounds@[j]);
                assert(rounds@[j].game_id == g);
                assert(count(rounds@, is_active_round_of(rounds@[j].game_id)) <= 1);
            }
        }
    }
    true
}

fn turns_are_sound(turns: &Vec<Turn>) -> (sound: bool)
    ensures
        sound == turns_sound(turns@),
{
    let mut i: usize = 0;
    while i < turns.len()
        invariant
            i <= turns@.len(),
            forall|j: int|
                0 <= j < i ==> #[trigger] count(turns@, is_active_turn_of(turns@[j].round_id)) <= 1,
        decreases turns@.len() - i,
    {
        if count_active_turns(turns, turns[i].round_id) > 1 {
            return false;
        }
        i = i + 1;
    }
    proof {
        assert forall|r: u64| #[trigger] count(turns@, is_active_turn_of(r)) <= 1 by {
            if count(turns@, is_active_turn_of(r)) > 0 {
                lemma_count_zero(turns@, is_active_turn_of(r));
                let j = choose|j: int| 0 <= j < turns@.len() && is_active_turn_of(r)(turns@[j]);
                assert(turns@[j].round_id == r);
                assert(count(turns@, is_active_turn_of(turns@[j].round_id)) <= 1);
            }
        }
    }
    true
}

fn rises(ids: &Vec<u64>, bound: u64) -> (sound: bool)
    ensures
        sound == ascending(ids@, bound),
{
    let mut i: usize = 0;
    while i < ids.len()
        invariant
            i <= ids@.len(),
            forall|a: int, b: int| 0 <= a < b < i ==> ids@[a] < ids@[b],
            forall|a: int| 0 <= a < i ==> ids@[a] < bound,
        decreases ids@.len() - i,
    {
        if ids[i] >= bound {
            return false;
        }
        if i > 0 && ids[i - 1] >= ids[i] {
            return false;
        }
        i = i + 1;
    }
    true
}

fn ids_of_games(rows: &Vec<Game>) -> (ids: Vec<u64>)
    ensures
        ids@ == game_ids(rows@),
{
    let mut ids: Vec<u64> = Vec::new();
    let mut i: usize = 0;
    while i < rows.len()
        invariant
            i <= rows@.len(),
            ids@.len() == i,
            forall|j: int| 0 <= j < i ==> ids@[j] == rows@[j].id,
        decreases rows@.len() - i,
    {
        ids.push(rows[i].id);
        i = i + 1;
    }
    assert(ids@ =~= game_ids(rows@));
    ids
}

fn ids_of_rounds(rows: &Vec<Round>) -> (ids: Vec<u64>)
    ensures
        ids@ == round_ids(rows@),
{
    let mut ids: Vec<u64> = Vec::new();
    let mut i: usize = 0;
    while i < rows.len()
        invariant
            i <= rows@.len(),
            ids@.len() == i,
            forall|j: int| 0 <= j < i ==> ids@[j] == rows@[j].id,
        decreases rows@.len() - i,
    {
        ids.push(rows[i].id);
        i = i + 1;
    }
    assert(ids@ =~= round_ids(rows@));
    ids
}

fn ids_of_turns(rows: &Vec<Turn>) -> (ids: Vec<u64>)
    ensures
        ids@ == turn_ids(rows@),
{
    let mut ids: Vec<u64> = Vec::new();
    let mut i: usize = 0;
    while i < rows.len()
        invariant
            i <= rows@.len(),
            ids@.len() == i,
            forall|j: int| 0 <= j < i ==> ids@[j] == rows@[j].id,
        decreases rows@.len() - i,
    {
        ids.push(rows[i].id);
        i = i + 1;
    }
    assert(ids@ =~= turn_ids(rows@));
    ids
}

fn ids_of_draws(rows: &Vec<Draw>) -> (ids: Vec<u64>)
    ensures
        ids@ == draw_ids(rows@),
{
    let mut ids: Vec<u64> = Vec::new();
    let mut i: usize = 0;
    while i < rows.len()
        invariant
            i <= rows@.len(),
            ids@.len() == i,
            forall|j: int| 0 <= j < i ==> ids@[j] == rows@[j].id,
        decreases rows@.len() - i,
    {
        ids.push(rows[i].id);
        i = i + 1;
    }
    assert(ids@ =~= draw_ids(rows@));
    ids
}

fn ids_of_cards(rows: &Vec<PlayerCard>) -> (ids: Vec<u64>)
    ensures
        ids@ == card_ids(rows@),
{
    let mut ids: Vec<u64> = Vec::new();
    let mut i: usize = 0;
    while i < rows.len()
        invariant
            i <= rows@.len(),
            ids@.len() == i,
            forall|j: int| 0 <= j < i ==> ids@[j] == rows@[j].id,
        decreases rows@.len() - i,
    {
        ids.push(rows[i].id);
        i = i + 1;
    }
    assert(ids@ =~= card_ids(rows@));
    ids
}

fn ids_of_lobbies(rows: &Vec<Lobby>) -> (ids: Vec<u64>)
    ensures
        ids@ == lobby_ids(rows@),
{
    let mut ids: Vec<u64> = Vec::new();
    let mut i: usize = 0;
    while i < rows.len()
        invariant
            i <= rows@.len(),
            ids@.len() == i,
            forall|j: int| 0 <= j < i ==> ids@[j] == rows@[j].id,
        decreases rows@.len() - i,
    {
        ids.push(rows[i].id);
        i = i + 1;
    }
    assert(ids@ =~= lobby_ids(rows@));
    ids
}

fn users_are_sound(users: &Vec<User>) -> (sound: bool)
    ensures
        sound == users_sound(users@),
{
    let mut j: usize = 0;
    while j < users.len()
        invariant
            j <= users@.len(),
            forall|a: int, b: int|
                0 <= a < b < j ==> (#[trigger] users@[a]).identity != (
                #[trigger] users@[b]).identity,
        decreases users@.len() - j,
    {
        let mut i: usize = 0;
        while i < j
            invariant
                i <= j < users@.len(),
                forall|a: int|
                    0 <= a < i ==> (#[trigger] users@[a]).identity != users@[j as int].identity,
            decreases j - i,
        {
            if users[i].identity == users[j].identity {
                return false;
            }
            i = i + 1;
        }
        j = j + 1;
    }
    true
}

fn names_are_sound(turns: &Vec<Turn>, draws: &Vec<Draw>, next_id: u64) -> (sound: bool)
    ensures
        sound == names_sound(turns@, draws@, next_id),
{
    let mut i: usize = 0;
    while i < turns.len()
        invariant
            i <= turns@.len(),
            forall|j: int| 0 <= j < i ==> (#[trigger] turns@[j]).round_id < next_id,
        decreases turns@.len() - i,
    {
        if turns[i].round_id >= next_id {
            return false;
        }
        i = i + 1;
    }
    let mut k: usize = 0;
    while k < draws.len()
        invariant
            k <= draws@.len(),
            forall|j: int| 0 <= j < turns@.len() ==> (#[trigger] turns@[j]).round_id < next_id,
            forall|j: int| 0 <= j < k ==> (#[trigger] draws@[j]).turn_id < next_id,
        decreases draws@.len() - k,
    {
        if draws[k].turn_id >= next_id {
            return false;
        }
        k = k + 1;
    }
    true
}

fn ids_are_sound(tables: &Tables) -> (sound: bool)
    ensures
        sound == ids_sound(tables@),
{
    rises(&ids_of_lobbies(&tables.lobbies), tables.next_id) && rises(&ids_of_games(&tables.games), tables.next_id) && rises(
        &ids_of_rounds(&tables.rounds),
        tables.next_id,
    ) && rises(&ids_of_turns(&tables.turns), tables.next_id) && rises(
        &ids_of_draws(&tables.draws),
        tables.next_id,
    ) && rises(&ids_of_cards(&tables.cards), tables.next_id)
}

fn seats_clash(a: &User, b: &User) -> (clash: bool)
    ensures
        clash == seat_clash(*a, *b),
{
    let same_game = match (a.current_game_id, b.current_game_id) {
        (Some(x), Some(y)) => x == y,
        _ => false,
    };
    let same_seat = match (a.game_position, b.game_position) {
        (Some(x), Some(y)) => x == y,
        (None, None) => true,
        _ => false,
    };
    same_game && same_seat
}

fn seats_are_sound(users: &Vec<User>, next_id: u64) -> (sound: bool)
    ensures
        sound == seats_sound(users@, next_id),
{
    let mut j: usize = 0;
    while j < users.len()
        invariant
            j <= users@.len(),
            forall|a: int|
                0 <= a < j && (#[trigger] users@[a]).current_game_id is Some
                    ==> users@[a].current_game_id->0 < next_id && users@[a].game_position
                    is Some,
            forall|a: int, b: int| 0 <= a < b < j ==> !#[trigger] seat_clash(users@[a], users@[b]),
        decreases users@.len() - j,
    {
        match users[j].current_game_id {
            Some(g) => {
                if g >= next_id || users[j].game_position.is_none() {
                    return false;
                }
            },
            None => {},
        }
        let mut i: usize = 0;
        while i < j
            invariant
                i <= j < users@.len(),
                forall|a: int| 0 <= a < i ==> !#[trigger] seat_clash(users@[a], users@[j as int]),
            decreases j - i,
        {
            if seats_clash(&users[i], &users[j]) {
                return false;
            }
            i = i + 1;
        }
        j = j + 1;
    }
    true
}

/// Whether tables are sound (see [`well_formed`]).
pub fn tables_are_sound(tables: &Tables) -> (sound: bool)
    ensures
        sound == well_formed(tables@),
{
    cards_are_sound(&tables.games, &tables.cards, tables.next_id) && rounds_are_sound(
        &tables.rounds,
        tables.next_id,
    ) && turns_are_sound(&tables.turns) && ids_are_sound(tables) && seats_are_sound(
        &tables.users,
        tables.next_id,
    ) && users_are_sound(&tables.users) && names_are_sound(
        &tables.turns,
        &tables.draws,
        tables.next_id,
    )
}

impl View for World {
    type V = WorldView;

    closed spec fn view(&self) -> WorldView {
        WorldView {
            users: self.users@,
            lobbies: self.lobbies@,
            settings: self.settings@,
            games: self.games@,
            rounds: self.rounds@,
            turns: self.turns@,
            draws: self.draws@,
            cards: self.cards@,
            next_id: self.next_id,
        }
    }
}

impl World {
    /// The tables are sound (see [`well_formed`]).
    pub open spec fn wf(&self) -> bool {
        well_formed(self@)
    }

    /// Empty tables.
    pub fn new() -> (world: World)
        ensures
            world@.users.len() == 0,
            world@.lobbies.len() == 0,
            world@.settings.len() == 0,
            world@.games.len() == 0,
            world@.rounds.len() == 0,
            world@.turns.len() == 0,
            world@.draws.len() == 0,
            world@.cards.len() == 0,
            world@.next_id == 1,
            world.wf(),
    {
        let world = World {
            users: Vec::new(),
            lobbies: Vec::new(),
            settings: Vec::new(),
            games: Vec::new(),
            rounds: Vec::new(),
            turns: Vec::new(),
            draws: Vec::new(),
            cards: Vec::new(),
            next_id: 1,
        };
        proof {
            assert forall|g: u64, c: Card| has_game(world@.games, g) implies #[trigger] count(
                world@.cards,
                is_card_of(g, c),
            ) == 1 by {
                lemma_first_where(world@.games, is_game(g));
            }
        }
        world
    }

    /// Takes tables over, if they are sound.
    pub fn from_tables(tables: Tables) -> (world: Option<World>)
        ensures
            match world {
                Some(w) => well_formed(tables@) && w@ == tables@ && w.wf(),
                None => !well_formed(tables@),
            },
    {
        if tables_are_sound(&tables) {
            Some(
                World {
                    users: tables.users,
                    lobbies: tables.lobbies,
                    settings: tables.settings,
                    games: tables.games,
                    rounds: tables.rounds,
                    turns: tables.turns,
                    draws: tables.draws,
                    cards: tables.cards,
                    next_id: tables.next_id,
                },
            )
        } else {
            None
        }
    }

    /// Hands the tables out.
    pub fn into_tables(self) -> (tables: Tables)
        ensures
            tables@ == self@,
    {
        Tables {
            users: self.users,
            lobbies: self.lobbies,
            settings: self.settings,
            games: self.games,
            rounds: self.rounds,
            turns: self.turns,
            draws: self.draws,
            cards: self.cards,
            next_id: self.next_id,
        }
    }

    /// A copy of the tables.
    pub fn to_tables(&self) -> (tables: Tables)
        ensures
            tables@ == self@,
    {
        Tables {
            users: copy_rows(&self.users),
            lobbies: copy_rows(&self.lobbies),
            settings: copy_rows(&self.settings),
            games: copy_rows(&self.games),
            rounds: copy_rows(&self.rounds),
            turns: copy_rows(&self.turns),
            draws: copy_rows(&self.draws),
            cards: copy_rows(&self.cards),
            next_id: self.next_id,
        }
    }

    pub(crate) fn push_user(&mut self, row: User)
        ensures
            final(self)@ == (WorldView { users: old(self)@.users.push(row), ..old(self)@ }),
    {
        self.users.push(row);
    }

    pub(crate) fn push_lobby(&mut self, row: Lobby)
        ensures
            final(self)@ == (WorldView { lobbies: old(self)@.lobbies.push(row), ..old(self)@ }),
    {
        self.lobbies.push(row);
    }

    /// Adds the settings of a lobby.
    pub(crate) fn insert_settings(&mut self, row: GameSettings)
        requires
            old(self).wf(),
        ensures
            final(self).wf(),
            final(self)@ == (WorldView { settings: old(self)@.settings.push(row), ..old(self)@ }),
    {
        self.settings.push(row);
        proof {
            lemma_wf_kept(old(self)@, self@);
        }
    }

    /// The users, in the order of the table.
    pub fn users(&self) -> (rows: &Vec<User>)
        ensures
            rows@ == self@.users,
    {
        &self.users
    }

    /// The lobbies, in the order of the table.
    pub fn lobbies(&self) -> (rows: &Vec<Lobby>)
        ensures
            rows@ == self@.lobbies,
    {
        &self.lobbies
    }

    /// The settings of the lobbies, in the order of the table.
    pub fn settings(&self) -> (rows: &Vec<GameSettings>)
        ensures
            rows@ == self@.settings,
    {
        &self.settings
    }

    /// The games, in the order of the table.
    pub fn games(&self) -> (rows: &Vec<Game>)
        ensures
            rows@ == self@.games,
    {
        &self.games
    }

    /// The rounds, in the order of the table.
    pub fn rounds(&self) -> (rows: &Vec<Round>)
        ensures
            rows@ == self@.rounds,
    {
        &self.rounds
    }

    /// The turns, in the order of the table.
    pub fn turns(&self) -> (rows: &Vec<Turn>)
        ensures
            rows@ == self@.turns,
    {
        &self.turns
    }

    /// The draws, in the order of the table.
    pub fn draws(&self) -> (rows: &Vec<Draw>)
        ensures
            rows@ == self@.draws,
    {
        &self.draws
    }

    /// The card rows, in the order of the table.
    pub fn cards(&self) -> (rows: &Vec<PlayerCard>)
        ensures
            rows@ == self@.cards,
    {
        &self.cards
    }

    /// The next identifier that will be given out.
    pub fn next_id(&self) -> (id: u64)
        ensures
            id == self@.next_id,
    {
        self.next_id
    }

    pub(crate) fn set_user(&mut self, i: usize, row: User)
        requires
            i < old(self)@.users.len(),
        ensures
            final(self)@ == (WorldView { users: old(self)@.users.update(i as int, row), ..old(self)@ }),
    {
        self.users.set(i, row);
    }

    pub(crate) fn set_users(&mut self, rows: Vec<User>)
        ensures
            final(self)@ == (WorldView { users: rows@, ..old(self)@ }),
    {
        self.users = rows;
    }

    pub(crate) fn set_lobby(&mut self, i: usize, row: Lobby)
        requires
            i < old(self)@.lobbies.len(),
        ensures
            final(self)@ == (WorldView {
                lobbies: old(self)@.lobbies.update(i as int, row),
                ..old(self)@
            }),
    {
        self.lobbies.set(i, row);
    }

    pub(crate) fn remove_lobby(&mut self, i: usize)
        requires
            i < old(self)@.lobbies.len(),
        ensures
            final(self)@ == (WorldView { lobbies: old(self)@.lobbies.remove(i as int), ..old(self)@ }),
    {
        self.lobbies.remove(i);
    }

    pub(crate) fn set_settings(&mut self, i: usize, row: GameSettings)
        requires
            i < old(self)@.settings.len(),
        ensures
            final(self)@ == (WorldView {
                settings: old(self)@.settings.update(i as int, row),
                ..old(self)@
            }),
    {
        self.settings.set(i, row);
    }

    pub(crate) fn set_game(&mut self, i: usize, row: Game)
        requires
            i < old(self)@.games.len(),
        ensures
            final(self)@ == (WorldView { games: old(self)@.games.update(i as int, row), ..old(self)@ }),
    {
        self.games.set(i, row);
    }

    pub(crate) fn push_game(&mut self, row: Game)
        ensures
            final(self)@ == (WorldView { games: old(self)@.games.push(row), ..old(self)@ }),
    {
        self.games.push(row);
    }

    pub(crate) fn set_round(&mut self, i: usize, row: Round)
        requires
            i < old(self)@.rounds.len(),
        ensures
            final(self)@ == (WorldView {
                rounds: old(self)@.rounds.update(i as int, row),
                ..old(self)@
            }),
    {
        self.rounds.set(i, row);
    }

    pub(crate) fn push_round(&mut self, row: Round)
        ensures
            final(self)@ == (WorldView { rounds: old(self)@.rounds.push(row), ..old(self)@ }),
    {
        self.rounds.push(row);
    }

    pub(crate) fn set_turn(&mut self, i: usize, row: Turn)
        requires
            i < old(self)@.turns.len(),
        ensures
            final(self)@ == (WorldView { turns: old(self)@.turns.update(i as int, row), ..old(self)@ }),
    {
        self.turns.set(i, row);
    }

    pub(crate) fn push_turn(&mut self, row: Turn)
        ensures
            final(self)@ == (WorldView { turns: old(self)@.turns.push(row), ..old(self)@ }),
    {
        self.turns.push(row);
    }

    pub(crate) fn set_draw(&mut self, i: usize, row: Draw)
        requires
            i < old(self)@.draws.len(),
        ensures
            final(self)@ == (WorldView { draws: old(self)@.draws.update(i as int, row), ..old(self)@ }),
    {
        self.draws.set(i, row);
    }

    pub(crate) fn set_draws(&mut self, rows: Vec<Draw>)
        ensures
            final(self)@ == (WorldView { draws: rows@, ..old(self)@ }),
    {
        self.draws = rows;
    }

    pub(crate) fn push_draw(&mut self, row: Draw)
        ensures
            final(self)@ == (WorldView { draws: old(self)@.draws.push(row), ..old(self)@ }),
    {
        self.draws.push(row);
    }

    pub(crate) fn set_card(&mut self, i: usize, row: PlayerCard)
        requires
            i < old(self)@.cards.len(),
        ensures
            final(self)@ == (WorldView { cards: old(self)@.cards.update(i as int, row), ..old(self)@ }),
    {
        self.cards.set(i, row);
    }

    pub(crate) fn set_cards(&mut self, rows: Vec<PlayerCard>)
        ensures
            final(self)@ == (WorldView { cards: rows@, ..old(self)@ }),
    {
        self.cards = rows;
    }

    pub(crate) fn set_next_id(&mut self, id: u64)
        ensures
            final(self)@ == (WorldView { next_id: id, ..old(self)@ }),
    {
        self.next_id = id;
    }
}

} // verus!
