//! Seats and the order of play.

use crate::lookup::{find_user, same_id, user_active_in, user_seat};
use crate::model::{
    active_in, in_game, is_active_in, is_in_game, is_user, seat_of, user_index, users_sound,
};
use crate::seqs::{count, lemma_count_matched, lemma_count_split, lemma_count_step};
use crate::types::{GameError, PendingMove, PlayerId, User};
use crate::world::World;
use vstd::prelude::*;

verus! {

/// The user plays in game `g`; where `active_only`, as an active player.
pub open spec fn plays(u: User, g: u64, active_only: bool) -> bool {
    if active_only {
        active_in(u, g)
    } else {
        in_game(u, g)
    }
}

/// The players of game `g` at seat `s` among the first `k` users, in the
/// order of the table.
pub open spec fn at_seat(users: Seq<User>, g: u64, active_only: bool, s: int, k: int) -> Seq<
    PlayerId,
>
    decreases k,
{
    if k <= 0 {
        Seq::empty()
    } else {
        let before = at_seat(users, g, active_only, s, k - 1);
        if k <= users.len() && plays(users[k - 1], g, active_only) && seat_of(users[k - 1]) == s {
            before.push(users[k - 1].identity)
        } else {
            before
        }
    }
}

/// The players of game `g` whose seats lie from `lo` up to, not including,
/// `hi`, by rising seat.
pub open spec fn seat_range(users: Seq<User>, g: u64, active_only: bool, lo: int, hi: int) -> Seq<
    PlayerId,
>
    decreases hi - lo,
{
    if hi <= lo {
        Seq::empty()
    } else {
        seat_range(users, g, active_only, lo, hi - 1) + at_seat(
            users,
            g,
            active_only,
            hi - 1,
            users.len() as int,
        )
    }
}

/// The players of game `g` in clockwise order, beginning at seat `s`: by
/// rising seat from `s` on, then from seat 0 up to `s`.
pub open spec fn order_from(users: Seq<User>, g: u64, active_only: bool, s: int) -> Seq<PlayerId> {
    seat_range(users, g, active_only, s, 256) + seat_range(users, g, active_only, 0, s)
}

pub open spec fn plays_at(g: u64, active_only: bool, s: int) -> spec_fn(User) -> bool {
    |u: User| plays(u, g, active_only) && seat_of(u) == s
}

pub open spec fn plays_within(g: u64, active_only: bool, lo: int, hi: int) -> spec_fn(User) -> bool {
    |u: User| plays(u, g, active_only) && lo <= seat_of(u) < hi
}

pub open spec fn is_playing(g: u64, active_only: bool) -> spec_fn(User) -> bool {
    |u: User| plays(u, g, active_only)
}

proof fn lemma_at_seat_len(users: Seq<User>, g: u64, active_only: bool, s: int, k: int)
    requires
        0 <= k <= users.len(),
    ensures
        at_seat(users, g, active_only, s, k).len() == count(
            users.take(k),
            plays_at(g, active_only, s),
        ),
    decreases k,
{
    if k > 0 {
        lemma_at_seat_len(users, g, active_only, s, k - 1);
        lemma_count_step(users, k - 1, plays_at(g, active_only, s));
    }
}

proof fn lemma_seat_range_len(users: Seq<User>, g: u64, active_only: bool, lo: int, hi: int)
    requires
        lo <= hi,
    ensures
        seat_range(users, g, active_only, lo, hi).len() == count(
            users,
            plays_within(g, active_only, lo, hi),
        ),
    decreases hi - lo,
{
    if hi <= lo {
        crate::seqs::lemma_count_zero(users, plays_within(g, active_only, lo, hi));
    } else {
        lemma_seat_range_len(users, g, active_only, lo, hi - 1);
        lemma_at_seat_len(users, g, active_only, hi - 1, users.len() as int);
        assert(users.take(users.len() as int) =~= users);
        lemma_count_split(
            users,
            plays_within(g, active_only, lo, hi),
            plays_within(g, active_only, lo, hi - 1),
            plays_at(g, active_only, hi - 1),
        );
    }
}

/// The clockwise order holds as many players as play in the game.
pub proof fn lemma_order_len(users: Seq<User>, g: u64, active_only: bool, s: int)
    requires
        0 <= s <= 256,
    ensures
        order_from(users, g, active_only, s).len() == count(users, is_playing(g, active_only)),
{
    lemma_seat_range_len(users, g, active_only, s, 256);
    lemma_seat_range_len(users, g, active_only, 0, s);
    lemma_count_split(
        users,
        is_playing(g, active_only),
        plays_within(g, active_only, s, 256),
        plays_within(g, active_only, 0, s),
    );
}

fn user_plays(u: &User, g: u64, active_only: bool) -> (b: bool)
    ensures
        b == plays(*u, g, active_only),
{
    if active_only {
        user_active_in(u, g)
    } else {
        same_id(u.current_game_id, g)
    }
}

fn append_seat_range(
    out: &mut Vec<PlayerId>,
    users: &Vec<User>,
    g: u64,
    active_only: bool,
    lo: u16,
    hi: u16,
)
    requires
        lo <= hi <= 256,
    ensures
        final(out)@ == old(out)@ + seat_range(users@, g, active_only, lo as int, hi as int),
{
    let ghost start = out@;
    let mut s: u16 = lo;
    assert(start + seat_range(users@, g, active_only, lo as int, lo as int) =~= start);
    while s < hi
        invariant
            lo <= s <= hi <= 256,
            out@ == start + seat_range(users@, g, active_only, lo as int, s as int),
        decreases hi - s,
    {
        let ghost before = out@;
        let mut k: usize = 0;
        assert(before + at_seat(users@, g, active_only, s as int, 0) =~= before);
        while k < users.len()
            invariant
                k <= users@.len(),
                s < 256,
                out@ == before + at_seat(users@, g, active_only, s as int, k as int),
            decreases users@.len() - k,
        {
            let u = &users[k];
            if user_plays(u, g, active_only) && user_seat(u) as u16 == s {
                out.push(u.identity);
            }
            k = k + 1;
            assert(out@ =~= before + at_seat(users@, g, active_only, s as int, k as int));
        }
        s = s + 1;
        assert(out@ =~= start + seat_range(users@, g, active_only, lo as int, s as int));
    }
}

/// The players of game `g` in clockwise order, beginning at seat `start`.
pub(crate) fn seat_order_from(users: &Vec<User>, g: u64, active_only: bool, start: u16) -> (order:
    Vec<PlayerId>)
    requires
        start <= 256,
    ensures
        order@ == order_from(users@, g, active_only, start as int),
        order@.len() == count(users@, is_playing(g, active_only)),
{
    let mut order: Vec<PlayerId> = Vec::new();
    append_seat_range(&mut order, users, g, active_only, start, 256);
    append_seat_range(&mut order, users, g, active_only, 0, start);
    proof {
        lemma_order_len(users@, g, active_only, start as int);
        assert(order@ =~= order_from(users@, g, active_only, start as int));
    }
    order
}

/// The active player of game `g` who sits at seat `s` or, where nobody
/// active does, at the next taken seat clockwise.
pub open spec fn first_active_from(users: Seq<User>, g: u64, s: int) -> PlayerId {
    order_from(users, g, true, s)[0]
}

/// The seat of player `p`; seat 0 where the player is unknown.
pub open spec fn seat_or_zero(users: Seq<User>, p: PlayerId) -> int {
    let i = user_index(users, p);
    if i < users.len() {
        seat_of(users[i])
    } else {
        0
    }
}

/// The active player of game `g` who follows the seat of `p` clockwise;
/// nobody where `p` is unknown or no player is active.
pub open spec fn following(users: Seq<User>, g: u64, p: PlayerId) -> Option<PlayerId> {
    let i = user_index(users, p);
    let order = order_from(users, g, true, seat_of(users[i]) + 1);
    if i < users.len() && order.len() > 0 {
        Some(order[0])
    } else {
        None
    }
}

/// The move that a resolved turn leaves open.
///
/// Where the defender beat the attack, the defender attacks next, or, having
/// finished, the player who follows. Where the defender took the cards, the
/// defender is passed over and the player who follows attacks. Whoever
/// attacks, the player who follows them defends.
pub open spec fn next_move(users: Seq<User>, g: u64, defender: PlayerId, took: bool) -> Option<
    PendingMove,
> {
    let di = user_index(users, defender);
    let attacker = if !took && di < users.len() && active_in(users[di], g) {
        Some(defender)
    } else {
        following(users, g, defender)
    };
    match attacker {
        Some(a) => match following(users, g, a) {
            Some(d) => Some(PendingMove { attacker: a, defender: d }),
            None => None,
        },
        None => None,
    }
}

/// The neighbour to the left of `player` in game `g`: among the active
/// players by seat, the one who follows the seat of `player`, going round
/// from the highest seat to the lowest.
///
/// Refused where `player` is unknown, has no seat in this game, or fewer
/// than two players are active.
pub open spec fn next_clockwise(users: Seq<User>, g: u64, player: PlayerId) -> Result<
    PlayerId,
    GameError,
> {
    let i = user_index(users, player);
    if i >= users.len() {
        Err(GameError::PlayerNotFound)
    } else if users[i].game_position is None || !in_game(users[i], g) {
        Err(GameError::PlayerNotSeated)
    } else if count(users, is_active_in(g)) < 2 {
        Err(GameError::NotEnoughActivePlayers)
    } else {
        Ok(first_active_from(users, g, seat_of(users[i]) + 1))
    }
}

pub(crate) proof fn lemma_active_is_playing(users: Seq<User>, g: u64)
    ensures
        count(users, is_playing(g, true)) == count(users, is_active_in(g)),
        count(users, is_playing(g, false)) == count(users, is_in_game(g)),
{
    assert forall|i: int| 0 <= i < users.len() implies is_playing(g, true)(users[i])
        == is_active_in(g)(users[i]) by {}
    lemma_count_matched(users, users, is_playing(g, true), is_active_in(g));
    assert forall|i: int| 0 <= i < users.len() implies is_playing(g, false)(users[i])
        == is_in_game(g)(users[i]) by {}
    lemma_count_matched(users, users, is_playing(g, false), is_in_game(g));
}

/// How many players of game `g` are active.
pub(crate) fn count_active(users: &Vec<User>, g: u64) -> (n: usize)
    ensures
        n == count(users@, is_active_in(g)),
{
    let mut n: usize = 0;
    let mut i: usize = 0;
    while i < users.len()
        invariant
            i <= users@.len(),
            n <= i,
            n == count(users@.take(i as int), is_active_in(g)),
        decreases users@.len() - i,
    {
        proof {
            lemma_count_step(users@, i as int, is_active_in(g));
        }
        if user_active_in(&users[i], g) {
            n = n + 1;
        }
        i = i + 1;
    }
    assert(users@.take(i as int) =~= users@);
    n
}

/// Finds the neighbour to the left of `current_player` among the active
/// players of the game.
pub fn get_next_player_clockwise(world: &World, game_id: u64, current_player: PlayerId) -> (next:
    Result<PlayerId, GameError>)
    ensures
        next == next_clockwise(world@.users, game_id, current_player),
{
    let users = world.users();
    let i = find_user(users, current_player);
    if i >= users.len() {
        return Err(GameError::PlayerNotFound);
    }
    let u = &users[i];
    if u.game_position.is_none() || !same_id(u.current_game_id, game_id) {
        return Err(GameError::PlayerNotSeated);
    }
    if count_active(users, game_id) < 2 {
        return Err(GameError::NotEnoughActivePlayers);
    }
    let order = seat_order_from(users, game_id, true, user_seat(u) as u16 + 1);
    proof {
        lemma_active_is_playing(users@, game_id);
    }
    Ok(order[0])
}

pub(crate) fn seat_of_player(users: &Vec<User>, p: PlayerId) -> (seat: u8)
    ensures
        seat as int == seat_or_zero(users@, p),
{
    let i = find_user(users, p);
    if i < users.len() {
        user_seat(&users[i])
    } else {
        0
    }
}

pub(crate) fn follower(users: &Vec<User>, g: u64, p: PlayerId) -> (next: Option<PlayerId>)
    ensures
        next == following(users@, g, p),
{
    let i = find_user(users, p);
    if i >= users.len() {
        return None;
    }
    let order = seat_order_from(users, g, true, user_seat(&users[i]) as u16 + 1);
    if order.len() > 0 {
        Some(order[0])
    } else {
        None
    }
}

pub(crate) fn plan_next_move(users: &Vec<User>, g: u64, defender: PlayerId, took: bool) -> (next:
    Option<PendingMove>)
    ensures
        next == next_move(users@, g, defender, took),
{
    let di = find_user(users, defender);
    let attacker = if !took && di < users.len() && user_active_in(&users[di], g) {
        Some(defender)
    } else {
        follower(users, g, defender)
    };
    match attacker {
        Some(a) => match follower(users, g, a) {
            Some(d) => Some(PendingMove { attacker: a, defender: d }),
            None => None,
        },
        None => None,
    }
}

proof fn lemma_at_seat_holds(users: Seq<User>, g: u64, active_only: bool, k: int, n: int)
    requires
        0 <= k < n <= users.len(),
        plays(users[k], g, active_only),
    ensures
        at_seat(users, g, active_only, seat_of(users[k]), n).contains(users[k].identity),
    decreases n,
{
    let t = seat_of(users[k]);
    let before = at_seat(users, g, active_only, t, n - 1);
    let now = at_seat(users, g, active_only, t, n);
    if k == n - 1 {
        assert(now[now.len() - 1] == users[k].identity);
    } else {
        lemma_at_seat_holds(users, g, active_only, k, n - 1);
        let i = choose|i: int| 0 <= i < before.len() && before[i] == users[k].identity;
        assert(now[i] == users[k].identity);
    }
}

proof fn lemma_seat_range_holds(users: Seq<User>, g: u64, active_only: bool, lo: int, hi: int, k: int)
    requires
        0 <= k < users.len(),
        plays(users[k], g, active_only),
        lo <= seat_of(users[k]) < hi,
    ensures
        seat_range(users, g, active_only, lo, hi).contains(users[k].identity),
    decreases hi - lo,
{
    let before = seat_range(users, g, active_only, lo, hi - 1);
    let at = at_seat(users, g, active_only, hi - 1, users.len() as int);
    let whole = seat_range(users, g, active_only, lo, hi);
    if seat_of(users[k]) == hi - 1 {
        lemma_at_seat_holds(users, g, active_only, k, users.len() as int);
        let i = choose|i: int| 0 <= i < at.len() && at[i] == users[k].identity;
        assert(whole[before.len() + i] == users[k].identity);
    } else {
        lemma_seat_range_holds(users, g, active_only, lo, hi - 1, k);
        let i = choose|i: int| 0 <= i < before.len() && before[i] == users[k].identity;
        assert(whole[i] == users[k].identity);
    }
}

/// Every player of the game stands in the clockwise order, from whatever
/// seat it begins.
pub proof fn lemma_order_holds_every_player(
    users: Seq<User>,
    g: u64,
    active_only: bool,
    s: int,
    k: int,
)
    requires
        0 <= s <= 256,
        0 <= k < users.len(),
        plays(users[k], g, active_only),
    ensures
        order_from(users, g, active_only, s).contains(users[k].identity),
{
    let upper = seat_range(users, g, active_only, s, 256);
    let lower = seat_range(users, g, active_only, 0, s);
    let whole = order_from(users, g, active_only, s);
    if seat_of(users[k]) >= s {
        lemma_seat_range_holds(users, g, active_only, s, 256, k);
        let i = choose|i: int| 0 <= i < upper.len() && upper[i] == users[k].identity;
        assert(whole[i] == users[k].identity);
    } else {
        lemma_seat_range_holds(users, g, active_only, 0, s, k);
        let i = choose|i: int| 0 <= i < lower.len() && lower[i] == users[k].identity;
        assert(whole[upper.len() + i] == users[k].identity);
    }
}

/// Where no two rows stand for one user, a user is found at their own
/// place.
pub(crate) proof fn lemma_found_at_own_place(users: Seq<User>, i: int)
    requires
        users_sound(users),
        0 <= i < users.len(),
    ensures
        user_index(users, users[i].identity) == i,
{
    let id = users[i].identity;
    crate::seqs::lemma_first_where(users, is_user(id));
    let k = user_index(users, id);
    if k < i {
        assert(is_user(id)(users[k]));
    } else if k > i {
        assert(!is_user(id)(users[i]));
    }
}

proof fn lemma_at_seat_rises(users: Seq<User>, g: u64, active_only: bool, t: int, k: int)
    requires
        users_sound(users),
        0 <= k <= users.len(),
    ensures
        forall|a: int|
            0 <= a < at_seat(users, g, active_only, t, k).len() ==> {
                let i = user_index(users, #[trigger] at_seat(users, g, active_only, t, k)[a]);
                0 <= i < k && plays(users[i], g, active_only) && seat_of(users[i]) == t
            },
        forall|a: int, b: int|
            0 <= a < b < at_seat(users, g, active_only, t, k).len() ==> user_index(
                users,
                #[trigger] at_seat(users, g, active_only, t, k)[a],
            ) < user_index(users, #[trigger] at_seat(users, g, active_only, t, k)[b]),
    decreases k,
{
    if k > 0 {
        lemma_at_seat_rises(users, g, active_only, t, k - 1);
        lemma_found_at_own_place(users, k - 1);
        let before = at_seat(users, g, active_only, t, k - 1);
        let now = at_seat(users, g, active_only, t, k);
        assert forall|a: int| 0 <= a < now.len() implies {
            let i = user_index(users, #[trigger] now[a]);
            0 <= i < k && plays(users[i], g, active_only) && seat_of(users[i]) == t
        } by {
            if a < before.len() {
                assert(now[a] == before[a]);
            }
        }
        assert forall|a: int, b: int| 0 <= a < b < now.len() implies user_index(
            users,
            #[trigger] now[a],
        ) < user_index(users, #[trigger] now[b]) by {
            assert(now[a] == before[a]);
            if b < before.len() {
                assert(now[b] == before[b]);
            }
        }
    }
}

/// A player stands before another in seat order: at a lower seat, or at
/// the same seat and earlier in the table.
pub open spec fn sits_before(users: Seq<User>, p: PlayerId, q: PlayerId) -> bool {
    let i = user_index(users, p);
    let j = user_index(users, q);
    seat_of(users[i]) < seat_of(users[j]) || (seat_of(users[i]) == seat_of(users[j]) && i < j)
}

proof fn lemma_seat_range_rises(users: Seq<User>, g: u64, active_only: bool, lo: int, hi: int)
    requires
        users_sound(users),
        lo <= hi,
    ensures
        forall|a: int|
            0 <= a < seat_range(users, g, active_only, lo, hi).len() ==> {
                let i = user_index(users, #[trigger] seat_range(users, g, active_only, lo, hi)[a]);
                0 <= i < users.len() && plays(users[i], g, active_only) && lo <= seat_of(users[i])
                    < hi
            },
        forall|a: int, b: int|
            0 <= a < b < seat_range(users, g, active_only, lo, hi).len() ==> sits_before(
                users,
                #[trigger] seat_range(users, g, active_only, lo, hi)[a],
                #[trigger] seat_range(users, g, active_only, lo, hi)[b],
            ),
    decreases hi - lo,
{
    if hi > lo {
        lemma_seat_range_rises(users, g, active_only, lo, hi - 1);
        lemma_at_seat_rises(users, g, active_only, hi - 1, users.len() as int);
        let before = seat_range(users, g, active_only, lo, hi - 1);
        let at = at_seat(users, g, active_only, hi - 1, users.len() as int);
        let now = seat_range(users, g, active_only, lo, hi);
        assert forall|a: int| 0 <= a < now.len() implies {
            let i = user_index(users, #[trigger] now[a]);
            0 <= i < users.len() && plays(users[i], g, active_only) && lo <= seat_of(users[i]) < hi
        } by {
            if a < before.len() {
                assert(now[a] == before[a]);
            } else {
                assert(now[a] == at[a - before.len()]);
            }
        }
        assert forall|a: int, b: int| 0 <= a < b < now.len() implies sits_before(
            users,
            #[trigger] now[a],
            #[trigger] now[b],
        ) by {
            if b < before.len() {
                assert(now[a] == before[a]);
                assert(now[b] == before[b]);
            } else if a < before.len() {
                assert(now[a] == before[a]);
                assert(now[b] == at[b - before.len()]);
            } else {
                assert(now[a] == at[a - before.len()]);
                assert(now[b] == at[b - before.len()]);
            }
        }
    }
}

/// Where no two rows stand for one user, no player stands twice in the
/// clockwise order.
pub proof fn lemma_order_names_each_player_once(
    users: Seq<User>,
    g: u64,
    active_only: bool,
    s: int,
)
    requires
        users_sound(users),
        0 <= s <= 256,
    ensures
        order_from(users, g, active_only, s).no_duplicates(),
{
    let upper = seat_range(users, g, active_only, s, 256);
    let lower = seat_range(users, g, active_only, 0, s);
    let whole = order_from(users, g, active_only, s);
    lemma_seat_range_rises(users, g, active_only, s, 256);
    lemma_seat_range_rises(users, g, active_only, 0, s);
    assert forall|a: int, b: int| 0 <= a < whole.len() && 0 <= b < whole.len() && a != b implies whole[a]
        != whole[b] by {
        let (x, y) = if a < b {
            (a, b)
        } else {
            (b, a)
        };
        if y < upper.len() {
            assert(whole[x] == upper[x] && whole[y] == upper[y]);
            assert(sits_before(users, upper[x], upper[y]));
        } else if x < upper.len() {
            assert(whole[x] == upper[x] && whole[y] == lower[y - upper.len()]);
            assert(seat_of(users[user_index(users, upper[x])]) >= s);
            assert(seat_of(users[user_index(users, lower[y - upper.len()])]) < s);
        } else {
            assert(whole[x] == lower[x - upper.len()] && whole[y] == lower[y - upper.len()]);
            assert(sits_before(users, lower[x - upper.len()], lower[y - upper.len()]));
        }
    }
}

// ---- what the order means ---------------------------------------------------------

/// How many seats lie between seat `from` and seat `to`, going clockwise:
/// up from `from`, and on from seat 0 after the highest seat.
pub open spec fn clockwise_distance(from: int, to: int) -> int {
    if to >= from {
        to - from
    } else {
        to - from + 256
    }
}

/// User `k` comes before user `j` when the round is made from seat `s`: `k`
/// sits nearer clockwise, or as near and earlier in the table.
pub open spec fn comes_first(users: Seq<User>, s: int, k: int, j: int) -> bool {
    let dk = clockwise_distance(s, seat_of(users[k]));
    let dj = clockwise_distance(s, seat_of(users[j]));
    dk < dj || (dk == dj && k <= j)
}

proof fn lemma_at_seat_first(users: Seq<User>, g: u64, active_only: bool, t: int, k: int)
    requires
        0 <= k <= users.len(),
    ensures
        at_seat(users, g, active_only, t, k).len() > 0 <==> crate::seqs::first_where(
            users,
            plays_at(g, active_only, t),
        ) < k,
        at_seat(users, g, active_only, t, k).len() > 0 ==> at_seat(users, g, active_only, t, k)[0]
            == users[crate::seqs::first_where(users, plays_at(g, active_only, t))].identity,
    decreases k,
{
    crate::seqs::lemma_first_where(users, plays_at(g, active_only, t));
    if k > 0 {
        lemma_at_seat_first(users, g, active_only, t, k - 1);
    }
}

proof fn lemma_seat_range_first(users: Seq<User>, g: u64, active_only: bool, lo: int, hi: int) -> (k:
    int)
    requires
        0 <= lo <= hi,
        seat_range(users, g, active_only, lo, hi).len() > 0,
    ensures
        0 <= k < users.len(),
        plays(users[k], g, active_only),
        lo <= seat_of(users[k]) < hi,
        seat_range(users, g, active_only, lo, hi)[0] == users[k].identity,
        forall|j: int|
            0 <= j < users.len() && plays(#[trigger] users[j], g, active_only) && lo <= seat_of(
                users[j],
            ) < hi ==> seat_of(users[k]) < seat_of(users[j]) || (seat_of(users[k]) == seat_of(
                users[j],
            ) && k <= j),
    decreases hi - lo,
{
    let before = seat_range(users, g, active_only, lo, hi - 1);
    let at = at_seat(users, g, active_only, hi - 1, users.len() as int);
    if before.len() > 0 {
        let k = lemma_seat_range_first(users, g, active_only, lo, hi - 1);
        k
    } else {
        assert(seat_range(users, g, active_only, lo, hi) =~= at);
        lemma_at_seat_first(users, g, active_only, hi - 1, users.len() as int);
        crate::seqs::lemma_first_where(users, plays_at(g, active_only, hi - 1));
        let k = crate::seqs::first_where(users, plays_at(g, active_only, hi - 1));
        lemma_seat_range_len(users, g, active_only, lo, hi - 1);
        crate::seqs::lemma_count_zero(users, plays_within(g, active_only, lo, hi - 1));
        assert forall|j: int|
            0 <= j < users.len() && plays(#[trigger] users[j], g, active_only) && lo <= seat_of(
                users[j],
            ) < hi implies seat_of(users[k]) < seat_of(users[j]) || (seat_of(users[k]) == seat_of(
            users[j],
        ) && k <= j) by {
            assert(!plays_within(g, active_only, lo, hi - 1)(users[j]));
            assert(plays_at(g, active_only, hi - 1)(users[j]));
        }
        k
    }
}

/// The first player of the clockwise order from seat `s` is the player of
/// the game who comes first from that seat: the one who sits nearest
/// clockwise and, among players at one seat, stands first in the table.
/// The lemma gives the place of that player among the users.
pub proof fn lemma_order_begins_with_nearest(users: Seq<User>, g: u64, active_only: bool, s: int) -> (k:
    int)
    requires
        0 <= s <= 256,
        order_from(users, g, active_only, s).len() > 0,
    ensures
        0 <= k < users.len(),
        plays(users[k], g, active_only),
        order_from(users, g, active_only, s)[0] == users[k].identity,
        forall|j: int|
            0 <= j < users.len() && plays(#[trigger] users[j], g, active_only) ==> comes_first(
                users,
                s,
                k,
                j,
            ),
{
    let upper = seat_range(users, g, active_only, s, 256);
    let lower = seat_range(users, g, active_only, 0, s);
    if upper.len() > 0 {
        let k = lemma_seat_range_first(users, g, active_only, s, 256);
        assert(order_from(users, g, active_only, s)[0] == upper[0]);
        k
    } else {
        assert(order_from(users, g, active_only, s) =~= lower);
        let k = lemma_seat_range_first(users, g, active_only, 0, s);
        lemma_seat_range_len(users, g, active_only, s, 256);
        crate::seqs::lemma_count_zero(users, plays_within(g, active_only, s, 256));
        assert forall|j: int|
            0 <= j < users.len() && plays(#[trigger] users[j], g, active_only) implies comes_first(
            users,
            s,
            k,
            j,
        ) by {
            assert(!plays_within(g, active_only, s, 256)(users[j]));
        }
        k
    }
}

/// The neighbour to the left is the active player who sits nearest
/// clockwise after the seat of the player asked for. Where the seats of the
/// game differ, that pins the neighbour down: the next taken seat, and the
/// lowest taken seat after the highest. The lemma gives the place of the
/// neighbour among the users.
pub proof fn lemma_next_clockwise_is_nearest(users: Seq<User>, g: u64, player: PlayerId) -> (k: int)
    requires
        next_clockwise(users, g, player) is Ok,
    ensures
        0 <= k < users.len(),
        active_in(users[k], g),
        next_clockwise(users, g, player) == Ok::<PlayerId, GameError>(users[k].identity),
        forall|j: int|
            0 <= j < users.len() && active_in(#[trigger] users[j], g) ==> comes_first(
                users,
                seat_of(users[user_index(users, player)]) + 1,
                k,
                j,
            ),
{
    let s = seat_of(users[user_index(users, player)]) + 1;
    lemma_order_len(users, g, true, s);
    lemma_active_is_playing(users, g);
    lemma_order_begins_with_nearest(users, g, true, s)
}

} // verus!
