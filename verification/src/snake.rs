use vstd::prelude::*;

use std::collections::hash_map::DefaultHasher;
use std::hash::Hasher;
use vstd::std_specs::hash::DefaultHasherAdditionalSpecFns;
use std::collections::VecDeque;

use crate::types::{Difficulty, GameOutcome, GameSettings, PlayerId};

verus! {

// ---------------------------------------------------------------------------
// Data model
// ---------------------------------------------------------------------------

/// Arena width in cells.
pub const ARENA_W: u16 = 32;

/// Arena height in cells.
pub const ARENA_H: u16 = 18;

/// Food items placed when a game starts.
pub const INITIAL_FOOD: usize = 2;

/// Random placements tried before a food spawn gives up.
pub const SPAWN_RETRIES: usize = 64;

#[derive(Clone, Copy, Debug, PartialEq, Eq, Structural, Hash)]
pub enum Direction {
    Up,
    Down,
    Left,
    Right,
}

/// The reverse of a direction.
pub open spec fn opposite_of(d: Direction) -> Direction {
    match d {
        Direction::Up => Direction::Down,
        Direction::Down => Direction::Up,
        Direction::Left => Direction::Right,
        Direction::Right => Direction::Left,
    }
}

impl Direction {
    pub fn opposite(self) -> (r: Direction)
        ensures
            r == opposite_of(self),
    {
        match self {
            Direction::Up => Direction::Down,
            Direction::Down => Direction::Up,
            Direction::Left => Direction::Right,
            Direction::Right => Direction::Left,
        }
    }
}

/// A cell of the arena; (0, 0) is the top-left corner.
#[derive(Clone, Copy, Debug, PartialEq, Eq, Structural, Hash)]
pub struct Position {
    pub x: u16,
    pub y: u16,
}

/// One player's snake; `body[0]` is the head.
#[derive(Clone, Debug)]
pub struct Snake {
    pub player_id: PlayerId,
    pub body: VecDeque<Position>,
    pub direction: Direction,
    pub pending_direction: Option<Direction>,
    pub alive: bool,
    pub score: u32,
}

#[derive(Clone, Debug)]
pub struct SnakeState {
    pub arena_w: u16,
    pub arena_h: u16,
    pub snakes: Vec<Snake>,
    pub food: Vec<Position>,
    pub tick: u64,
    pub rng_seed: u64,
    pub rng_state: u64,
    pub game_over: Option<GameOutcome>,
}

#[derive(Clone, Copy, Debug, PartialEq, Eq, Structural)]
pub struct SnakeInput {
    pub direction: Direction,
}

/// What changed during one tick.
#[derive(Clone, Debug)]
pub struct SnakeDelta {
    pub tick: u64,
    pub moves: Vec<(PlayerId, Position)>,
    pub grew: Vec<PlayerId>,
    pub deaths: Vec<PlayerId>,
    pub new_food: Vec<Position>,
    pub eaten_food: Vec<Position>,
    pub game_over: Option<GameOutcome>,
}

/// The snake engine (stateless: all state lives in `SnakeState`).
#[derive(Clone, Copy, Debug)]
pub struct SnakeEngine;

impl SnakeState {
    /// A state the engine can step: a non-empty arena, and a head for every
    /// living snake.
    pub open spec fn wf(&self) -> bool {
        &&& self.arena_w > 0
        &&& self.arena_h > 0
        &&& forall|i: int|
            0 <= i < self.snakes@.len() && (#[trigger] self.snakes@[i]).alive
                ==> self.snakes@[i].body@.len() > 0
    }
}

// ---------------------------------------------------------------------------
// Random numbers
// ---------------------------------------------------------------------------

pub open spec fn lcg_step(s: u64) -> u64 {
    ((s as int * 6364136223846793005int + 1442695040888963407int) % 0x1_0000_0000_0000_0000int) as u64
}

/// Advances the linear congruential generator (Knuth's MMIX constants) and
/// returns the new state.
pub fn lcg_next(s: &mut u64) -> (r: u64)
    ensures
        *final(s) == lcg_step(*old(s)),
        r == *final(s),
{
    let m = s.wrapping_mul(6364136223846793005);
    let r = m.wrapping_add(1442695040888963407);
    proof {
        let a = *old(s) as int * 6364136223846793005int;
        let big = 0x1_0000_0000_0000_0000int;
        assert(m as int == a % big);
        vstd::arithmetic::div_mod::lemma_add_mod_noop(a, 1442695040888963407int, big);
        vstd::arithmetic::div_mod::lemma_mod_twice(a, big);
        vstd::arithmetic::div_mod::lemma_small_mod(1442695040888963407nat, big as nat);
        vstd::arithmetic::div_mod::lemma_mod_bound(m as int + 1442695040888963407int, big);
        if m as int + 1442695040888963407int >= big {
            vstd::arithmetic::div_mod::lemma_mod_sub_multiples_vanish(
                m as int + 1442695040888963407int - big,
                big,
            );
            vstd::arithmetic::div_mod::lemma_small_mod(
                (m as int + 1442695040888963407int - big) as nat,
                big as nat,
            );
        } else {
            vstd::arithmetic::div_mod::lemma_small_mod(
                (m as int + 1442695040888963407int) as nat,
                big as nat,
            );
        }
    }
    *s = r;
    r
}

/// `usize::to_ne_bytes`, as a vector: the bytes of `x` in the machine's own
/// order. Nothing is claimed of them: they depend on the machine.
#[verifier::external_body]
fn usize_ne_bytes(x: usize) -> (r: Vec<u8>) {
    x.to_ne_bytes().to_vec()
}

/// Byte `k` (0..16) of `id`, most significant first.
pub open spec fn id_byte(id: u128, k: int) -> u8 {
    ((id >> ((8 * (15 - k)) as u128)) & 0xffu128) as u8
}

/// The sixteen bytes of `id`, most significant first (`u128::to_be_bytes`).
pub open spec fn id_bytes(id: u128) -> Seq<u8> {
    Seq::new(16, |k: int| id_byte(id, k))
}

fn be_bytes(id: u128) -> (r: Vec<u8>)
    ensures
        r@ == id_bytes(id),
{
    let mut r: Vec<u8> = Vec::new();
    let mut k: u32 = 0;
    while k < 16
        invariant
            k <= 16,
            r@.len() == k,
            forall|j: int| 0 <= j < k ==> r@[j] == id_byte(id, j),
        decreases 16 - k,
    {
        let shift: u32 = 8 * (15 - k);
        let b = ((id >> (shift as u128)) & 0xffu128) as u8;
        r.push(b);
        k += 1;
    }
    assert(r@ =~= id_bytes(id));
    r
}

/// The writes that hashing each identity's sixteen bytes as an array makes
/// to a std hasher: the length prefix `prefix` (the machine's bytes of 16),
/// then the bytes, identity after identity.
pub open spec fn id_writes(prefix: Seq<u8>, ids: Seq<u128>) -> Seq<Seq<u8>>
    decreases ids.len(),
{
    if ids.len() == 0 {
        Seq::empty()
    } else {
        id_writes(prefix, ids.drop_last()).push(prefix).push(id_bytes(ids.last()))
    }
}

/// The identities of `players`.
pub open spec fn player_ids(players: Seq<PlayerId>) -> Seq<u128> {
    players.map_values(|p: PlayerId| p.0)
}

/// A hash made a seed: zero is replaced by a fixed odd constant.
pub open spec fn nonzero_seed(v: u64) -> u64 {
    if v == 0 {
        0x9E37_79B9_7F4A_7C15u64
    } else {
        v
    }
}

/// A seed derived from the players' identities: std's `DefaultHasher` fed
/// each identity's bytes as an array (`id_writes`, for the machine's length
/// prefix), zero replaced (`nonzero_seed`).
pub fn seed_from_players(players: &[PlayerId]) -> (r: u64)
    ensures
        r != 0,
        exists|prefix: Seq<u8>|
            r == nonzero_seed(DefaultHasher::spec_finish(#[trigger] id_writes(prefix, player_ids(players@)))),
{
    let prefix = usize_ne_bytes(16);
    let ghost ids = player_ids(players@);
    let mut h = DefaultHasher::new();
    let mut i: usize = 0;
    while i < players.len()
        invariant
            i <= players.len(),
            ids == player_ids(players@),
            h@ == id_writes(prefix@, ids.subrange(0, i as int)),
        decreases players.len() - i,
    {
        let b = be_bytes(players[i].0);
        h.write(prefix.as_slice());
        h.write(b.as_slice());
        proof {
            let sub = ids.subrange(0, i + 1);
            assert(sub.drop_last() =~= ids.subrange(0, i as int));
            assert(sub.last() == players@[i as int].0);
        }
        i += 1;
    }
    assert(ids.subrange(0, i as int) =~= ids);
    let v = h.finish();
    if v == 0 {
        0x9E37_79B9_7F4A_7C15
    } else {
        v
    }
}

// ---------------------------------------------------------------------------
// Movement
// ---------------------------------------------------------------------------

/// The neighbouring cell in direction `d`, or `None` past a wall.
pub open spec fn step_to(p: Position, d: Direction, w: int, h: int) -> Option<Position> {
    match d {
        Direction::Up => if p.y == 0 {
            None
        } else {
            Some(Position { x: p.x, y: (p.y - 1) as u16 })
        },
        Direction::Down => if p.y + 1 >= h {
            None
        } else {
            Some(Position { x: p.x, y: (p.y + 1) as u16 })
        },
        Direction::Left => if p.x == 0 {
            None
        } else {
            Some(Position { x: (p.x - 1) as u16, y: p.y })
        },
        Direction::Right => if p.x + 1 >= w {
            None
        } else {
            Some(Position { x: (p.x + 1) as u16, y: p.y })
        },
    }
}

pub fn step(pos: Position, dir: Direction, w: u16, h: u16) -> (r: Option<Position>)
    ensures
        r == step_to(pos, dir, w as int, h as int),
{
    match dir {
        Direction::Up => {
            if pos.y == 0 {
                None
            } else {
                Some(Position { x: pos.x, y: pos.y - 1 })
            }
        },
        Direction::Down => {
            if pos.y as u32 + 1 >= h as u32 {
                None
            } else {
                Some(Position { x: pos.x, y: pos.y + 1 })
            }
        },
        Direction::Left => {
            if pos.x == 0 {
                None
            } else {
                Some(Position { x: pos.x - 1, y: pos.y })
            }
        },
        Direction::Right => {
            if pos.x as u32 + 1 >= w as u32 {
                None
            } else {
                Some(Position { x: pos.x + 1, y: pos.y })
            }
        },
    }
}

// ---------------------------------------------------------------------------
// Occupancy and food
// ---------------------------------------------------------------------------

/// `p` is a cell of a living snake.
pub open spec fn in_living_body(snakes: Seq<Snake>, p: Position) -> bool {
    exists|i: int, k: int|
        0 <= i < snakes.len() && (#[trigger] snakes[i]).alive && 0 <= k < snakes[i].body@.len()
            && #[trigger] snakes[i].body@[k] == p
}

/// The cells covered by living snakes or food.
pub open spec fn occupied(snakes: Seq<Snake>, food: Seq<Position>) -> Set<Position> {
    Set::new(|p: Position| in_living_body(snakes, p) || food.contains(p))
}

/// The cell a random draw `r` designates.
pub open spec fn cell_from(r: u64, w: u16, h: u16) -> Position {
    Position { x: (((r >> 16u64) as u16) % w) as u16, y: (((r >> 32u64) as u16) % h) as u16 }
}

/// Up to `n` random placements avoiding `occ`: the cell found (if any) and the
/// generator state afterwards.
pub open spec fn spawn_tries(occ: Set<Position>, rng: u64, w: u16, h: u16, n: nat) -> (
    Option<Position>,
    u64,
)
    decreases n,
{
    if n == 0 {
        (None, rng)
    } else {
        let r = lcg_step(rng);
        let p = cell_from(r, w, h);
        if !occ.contains(p) {
            (Some(p), r)
        } else {
            spawn_tries(occ, r, w, h, (n - 1) as nat)
        }
    }
}

/// One food spawn: nothing (and no draw) on a full arena, else up to
/// `SPAWN_RETRIES` random placements.
pub open spec fn spawn_once(snakes: Seq<Snake>, food: Seq<Position>, rng: u64, w: u16, h: u16) -> (
    Option<Position>,
    u64,
) {
    let occ = occupied(snakes, food);
    if occ.len() >= w as int * h as int {
        (None, rng)
    } else {
        spawn_tries(occ, rng, w, h, SPAWN_RETRIES as nat)
    }
}

/// `n` successive spawns: (food afterwards, generator state, cells spawned).
pub open spec fn respawn(
    snakes: Seq<Snake>,
    food: Seq<Position>,
    rng: u64,
    w: u16,
    h: u16,
    n: nat,
) -> (Seq<Position>, u64, Seq<Position>)
    decreases n,
{
    if n == 0 {
        (food, rng, Seq::empty())
    } else {
        let prev = respawn(snakes, food, rng, w, h, (n - 1) as nat);
        let one = spawn_once(snakes, prev.0, prev.1, w, h);
        match one.0 {
            Some(p) => (prev.0.push(p), one.1, prev.2.push(p)),
            None => (prev.0, one.1, prev.2),
        }
    }
}

fn contains_pos(v: &Vec<Position>, p: Position) -> (r: bool)
    ensures
        r == v@.contains(p),
{
    let mut i: usize = 0;
    while i < v.len()
        invariant
            i <= v.len(),
            forall|j: int| 0 <= j < i ==> v@[j] != p,
        decreases v.len() - i,
    {
        if v[i] == p {
            return true;
        }
        i += 1;
    }
    false
}

fn push_new(v: &mut Vec<Position>, p: Position)
    requires
        old(v)@.no_duplicates(),
    ensures
        final(v)@.no_duplicates(),
        final(v)@.to_set() == old(v)@.to_set().insert(p),
{
    proof {
        old(v)@.lemma_push_to_set_commute(p);
    }
    if !contains_pos(v, p) {
        v.push(p);
    } else {
        assert(old(v)@.to_set().insert(p) =~= old(v)@.to_set());
    }
}

/// Some of the first `n` cells of `cells` is `p`.
pub open spec fn prefix_has(cells: Seq<Position>, n: int, p: Position) -> bool {
    exists|j: int| 0 <= j < n && cells[j] == p
}

/// The distinct occupied cells (living bodies, then food).
fn occupied_cells(state: &SnakeState) -> (v: Vec<Position>)
    ensures
        v@.no_duplicates(),
        v@.to_set() == occupied(state.snakes@, state.food@),
{
    let mut v: Vec<Position> = Vec::new();
    let ghost sn = state.snakes@;
    let mut i: usize = 0;
    while i < state.snakes.len()
        invariant
            sn == state.snakes@,
            i <= sn.len(),
            v@.no_duplicates(),
            forall|p: Position|
                v@.to_set().contains(p) <==> exists|a: int, k: int|
                    0 <= a < i && (#[trigger] sn[a]).alive && 0 <= k < sn[a].body@.len()
                        && #[trigger] sn[a].body@[k] == p,
        decreases sn.len() - i,
    {
        let s = &state.snakes[i];
        if s.alive {
            let mut k: usize = 0;
            while k < s.body.len()
                invariant
                    sn == state.snakes@,
                    i < sn.len(),
                    *s == sn[i as int],
                    s.alive,
                    k <= s.body@.len(),
                    v@.no_duplicates(),
                    forall|p: Position|
                        v@.to_set().contains(p) <==> (exists|a: int, kk: int|
                            0 <= a < i && (#[trigger] sn[a]).alive && 0 <= kk < sn[a].body@.len()
                                && #[trigger] sn[a].body@[kk] == p) || (exists|kk: int|
                            0 <= kk < k && #[trigger] s.body@[kk] == p),
                decreases s.body@.len() - k,
            {
                let c = s.body[k];
                push_new(&mut v, c);
                proof {
                    assert forall|p: Position|
                        v@.to_set().contains(p) <==> (exists|a: int, kk: int|
                            0 <= a < i && (#[trigger] sn[a]).alive && 0 <= kk < sn[a].body@.len()
                                && #[trigger] sn[a].body@[kk] == p) || (exists|kk: int|
                            0 <= kk < k + 1 && #[trigger] s.body@[kk] == p) by {
                        if p == c {
                            assert(s.body@[k as int] == p);
                        }
                    }
                }
                k += 1;
            }
            proof {
                assert forall|p: Position|
                    v@.to_set().contains(p) <==> exists|a: int, kk: int|
                        0 <= a < i + 1 && (#[trigger] sn[a]).alive && 0 <= kk < sn[a].body@.len()
                            && #[trigger] sn[a].body@[kk] == p by {
                    if exists|kk: int| 0 <= kk < s.body@.len() && #[trigger] s.body@[kk] == p {
                        let kk = choose|kk: int| 0 <= kk < s.body@.len() && #[trigger] s.body@[kk] == p;
                        assert(sn[i as int].body@[kk] == p);
                    }
                    if exists|a: int, kk: int|
                        0 <= a < i + 1 && (#[trigger] sn[a]).alive && 0 <= kk < sn[a].body@.len()
                            && #[trigger] sn[a].body@[kk] == p {
                        let (a, kk) = choose|a: int, kk: int|
                            0 <= a < i + 1 && (#[trigger] sn[a]).alive && 0 <= kk
                                < sn[a].body@.len() && #[trigger] sn[a].body@[kk] == p;
                        if a == i {
                            assert(s.body@[kk] == p);
                        }
                    }
                }
            }
        }
        i += 1;
    }
    let mut f: usize = 0;
    while f < state.food.len()
        invariant
            sn == state.snakes@,
            f <= state.food@.len(),
            v@.no_duplicates(),
            forall|p: Position|
                #![trigger v@.to_set().contains(p)]
                v@.to_set().contains(p) <==> in_living_body(sn, p) || prefix_has(state.food@, f as int, p),
        decreases state.food@.len() - f,
    {
        let ghost vo = v@;
        let ghost fo = f as int;
        let c = state.food[f];
        push_new(&mut v, c);
        f += 1;
        proof {
            assert forall|p: Position|
                #![trigger v@.to_set().contains(p)]
                v@.to_set().contains(p) <==> in_living_body(sn, p) || prefix_has(state.food@, f as int, p) by {
                assert(v@.to_set().contains(p) == (p == c || vo.to_set().contains(p)));
                if p == c {
                    assert(state.food@[fo] == p);
                } else {
                    if prefix_has(state.food@, f as int, p) {
                        let j = choose|j: int| 0 <= j < f && state.food@[j] == p;
                        assert(state.food@[j] == p && j < fo);
                    }
                }
            }
        }
    }
    assert forall|p: Position| #[trigger] v@.to_set().contains(p) == occupied(
        state.snakes@,
        state.food@,
    ).contains(p) by {
        if prefix_has(state.food@, f as int, p) {
            let j = choose|j: int| 0 <= j < f && state.food@[j] == p;
            assert(state.food@[j] == p);
        }
    }
    assert(v@.to_set() =~= occupied(state.snakes@, state.food@));
    v
}

/// Places one food item on a free cell, if one is found (see `spawn_once`).
pub fn spawn_food(state: &mut SnakeState) -> (r: Option<Position>)
    requires
        old(state).wf(),
    ensures
        ({
            let one = spawn_once(
                old(state).snakes@,
                old(state).food@,
                old(state).rng_state,
                old(state).arena_w,
                old(state).arena_h,
            );
            &&& r == one.0
            &&& final(state).rng_state == one.1
            &&& final(state).food@ == match r {
                Some(p) => old(state).food@.push(p),
                None => old(state).food@,
            }
        }),
        final(state).snakes == old(state).snakes,
        final(state).arena_w == old(state).arena_w,
        final(state).arena_h == old(state).arena_h,
        final(state).tick == old(state).tick,
        final(state).rng_seed == old(state).rng_seed,
        final(state).game_over == old(state).game_over,
{
    let occ = occupied_cells(state);
    let ghost occ_set = occupied(state.snakes@, state.food@);
    proof {
        occ@.unique_seq_to_set();
    }
    assert((state.arena_w as int) * (state.arena_h as int) <= 65535 * 65535) by (nonlinear_arith)
        requires
            state.arena_w <= 65535,
            state.arena_h <= 65535,
    ;
    let total: usize = (state.arena_w as usize) * (state.arena_h as usize);
    if occ.len() >= total {
        return None;
    }
    let ghost w = state.arena_w;
    let ghost h = state.arena_h;
    let mut tries: usize = 0;
    while tries < SPAWN_RETRIES
        invariant
            tries <= SPAWN_RETRIES,
            state.wf(),
            w == old(state).arena_w,
            h == old(state).arena_h,
            state.arena_w == w,
            state.arena_h == h,
            occ@.to_set() == occ_set,
            occ_set == occupied(old(state).snakes@, old(state).food@),
            occ_set.len() < w as int * h as int,
            state.snakes == old(state).snakes,
            state.food@ == old(state).food@,
            state.tick == old(state).tick,
            state.rng_seed == old(state).rng_seed,
            state.game_over == old(state).game_over,
            spawn_tries(occ_set, old(state).rng_state, w, h, SPAWN_RETRIES as nat) == spawn_tries(
                occ_set,
                state.rng_state,
                w,
                h,
                (SPAWN_RETRIES - tries) as nat,
            ),
        decreases SPAWN_RETRIES - tries,
    {
        let ghost rb = state.rng_state;
        let r = lcg_next(&mut state.rng_state);
        let x = ((r >> 16u64) as u16) % state.arena_w;
        let y = ((r >> 32u64) as u16) % state.arena_h;
        let p = Position { x, y };
        assert(p == cell_from(r, w, h));
        if !contains_pos(&occ, p) {
            assert(!occ_set.contains(p));
            assert(spawn_tries(occ_set, rb, w, h, (SPAWN_RETRIES - tries) as nat) == (Some(p), r));
            state.food.push(p);
            return Some(p);
        }
        assert(occ_set.contains(p));
        tries += 1;
    }
    None
}

// ---------------------------------------------------------------------------
// Game start
// ---------------------------------------------------------------------------

/// The starting body of the `i`-th snake: even ones on the left facing right,
/// odd ones on the right facing left, all on the middle row.
pub open spec fn start_body(i: int) -> Seq<Position> {
    if i % 2 == 0 {
        seq![Position { x: 4, y: 9 }, Position { x: 3, y: 9 }, Position { x: 2, y: 9 }]
    } else {
        seq![Position { x: 27, y: 9 }, Position { x: 28, y: 9 }, Position { x: 29, y: 9 }]
    }
}

pub open spec fn start_direction(i: int) -> Direction {
    if i % 2 == 0 {
        Direction::Right
    } else {
        Direction::Left
    }
}

/// Whether the game is decided by attrition: with two or more snakes, none
/// alive is a draw and exactly one alive wins.
pub open spec fn terminal_of(snakes: Seq<Snake>) -> Option<GameOutcome> {
    if snakes.len() < 2 {
        None
    } else {
        let alive = snakes.filter(|s: Snake| s.alive);
        if alive.len() == 0 {
            Some(GameOutcome::Draw)
        } else if alive.len() == 1 {
            Some(GameOutcome::Win(alive[0].player_id))
        } else {
            None
        }
    }
}

pub fn compute_terminal(state: &SnakeState) -> (r: Option<GameOutcome>)
    ensures
        r == terminal_of(state.snakes@),
{
    if state.snakes.len() < 2 {
        return None;
    }
    let ghost sn = state.snakes@;
    let ghost pred = |s: Snake| s.alive;
    let mut count: usize = 0;
    let mut first: Option<PlayerId> = None;
    let mut i: usize = 0;
    while i < state.snakes.len()
        invariant
            sn == state.snakes@,
            pred == (|s: Snake| s.alive),
            i <= sn.len(),
            count == sn.subrange(0, i as int).filter(pred).len(),
            count <= i,
            count > 0 ==> first == Some(sn.subrange(0, i as int).filter(pred)[0].player_id),
        decreases sn.len() - i,
    {
        proof {
            assert(sn.subrange(0, i + 1) =~= sn.subrange(0, i as int).push(sn[i as int]));
            sn.subrange(0, i as int).lemma_filter_push(sn[i as int], pred);
        }
        if state.snakes[i].alive {
            if count == 0 {
                first = Some(state.snakes[i].player_id);
            }
            count += 1;
        }
        i += 1;
    }
    assert(sn.subrange(0, sn.len() as int) =~= sn);
    if count == 0 {
        Some(GameOutcome::Draw)
    } else if count == 1 {
        match first {
            Some(p) => Some(GameOutcome::Win(p)),
            None => None,
        }
    } else {
        None
    }
}

fn start_snake(i: usize, pid: PlayerId) -> (s: Snake)
    ensures
        s.player_id == pid,
        s.body@ == start_body(i as int),
        s.direction == start_direction(i as int),
        s.pending_direction.is_none(),
        s.alive,
        s.score == 0,
{
    let mut body: VecDeque<Position> = VecDeque::with_capacity(3);
    if i % 2 == 0 {
        body.push_back(Position { x: 4, y: 9 });
        body.push_back(Position { x: 3, y: 9 });
        body.push_back(Position { x: 2, y: 9 });
        assert(body@ =~= start_body(i as int));
        Snake {
            player_id: pid,
            body,
            direction: Direction::Right,
            pending_direction: None,
            alive: true,
            score: 0,
        }
    } else {
        body.push_back(Position { x: ARENA_W - 5, y: 9 });
        body.push_back(Position { x: ARENA_W - 4, y: 9 });
        body.push_back(Position { x: ARENA_W - 3, y: 9 });
        assert(body@ =~= start_body(i as int));
        Snake {
            player_id: pid,
            body,
            direction: Direction::Left,
            pending_direction: None,
            alive: true,
            score: 0,
        }
    }
}


// ---------------------------------------------------------------------------
// One tick
// ---------------------------------------------------------------------------

/// The direction the player `pid` asked for, if the inputs (keyed by the
/// players' ids) hold one for them.
pub open spec fn input_for(inputs: Map<u128, SnakeInput>, pid: PlayerId) -> Option<Direction> {
    if inputs.contains_key(pid.0) {
        Some(inputs[pid.0].direction)
    } else {
        None
    }
}

/// The direction a living snake moves in this tick: the requested one is
/// buffered unless it reverses the current direction, and the buffered one is
/// committed unless it reverses it.
pub open spec fn committed_dir(s: Snake, inputs: Map<u128, SnakeInput>) -> Direction {
    let d0 = s.direction;
    let pending = match input_for(inputs, s.player_id) {
        Some(d) => if d != opposite_of(d0) {
            Some(d)
        } else {
            s.pending_direction
        },
        None => s.pending_direction,
    };
    match pending {
        Some(p) => if p != opposite_of(d0) {
            p
        } else {
            d0
        },
        None => d0,
    }
}

/// Where a snake's head goes this tick (`None`: dead already, or into a wall).
pub open spec fn planned_head(s: Snake, inputs: Map<u128, SnakeInput>, w: u16, h: u16) -> Option<
    Position,
> {
    if s.alive {
        step_to(s.body@[0], committed_dir(s, inputs), w as int, h as int)
    } else {
        None
    }
}

pub open spec fn heads_of(st: SnakeState, inputs: Map<u128, SnakeInput>) -> Seq<
    Option<Position>,
> {
    Seq::new(
        st.snakes@.len(),
        |i: int| planned_head(st.snakes@[i], inputs, st.arena_w, st.arena_h),
    )
}

/// Which snakes move onto food.
pub open spec fn grows_from(food: Seq<Position>, heads: Seq<Option<Position>>) -> Seq<bool> {
    Seq::new(
        heads.len(),
        |i: int|
            match heads[i] {
                Some(p) => food.contains(p),
                None => false,
            },
    )
}

/// Another snake's head goes to the same cell.
pub open spec fn head_clash(heads: Seq<Option<Position>>, i: int) -> bool {
    heads[i] is Some && exists|j: int| 0 <= j < heads.len() && j != i && heads[j] == heads[i]
}

/// Deaths by walls and head-on collisions.
pub open spec fn first_deaths(snakes: Seq<Snake>, heads: Seq<Option<Position>>) -> Seq<bool> {
    Seq::new(
        snakes.len(),
        |i: int| (snakes[i].alive && heads[i] is None) || head_clash(heads, i),
    )
}

/// Cell `k` of snake `j` is in the way of snake `i` moving its head to `p`:
/// a tail that moves away this tick (its snake neither grows nor dies) is not,
/// nor is the mover's own current head.
pub open spec fn blocks(
    snakes: Seq<Snake>,
    grows: Seq<bool>,
    dying: Seq<bool>,
    i: int,
    j: int,
    k: int,
    p: Position,
) -> bool {
    &&& 0 <= j < snakes.len()
    &&& snakes[j].alive
    &&& 0 <= k < snakes[j].body@.len()
    &&& !(!grows[j] && !dying[j] && k == snakes[j].body@.len() - 1)
    &&& !(i == j && k == 0)
    &&& snakes[j].body@[k] == p
}

pub open spec fn hits_body(
    snakes: Seq<Snake>,
    grows: Seq<bool>,
    dying: Seq<bool>,
    i: int,
    p: Position,
) -> bool {
    exists|j: int, k: int| #[trigger] blocks(snakes, grows, dying, i, j, k, p)
}

/// Body collisions, decided snake by snake in order: a snake found dying
/// keeps its tail in place for the snakes decided after it.
pub open spec fn deaths_through(
    snakes: Seq<Snake>,
    heads: Seq<Option<Position>>,
    grows: Seq<bool>,
    dying0: Seq<bool>,
    m: nat,
) -> Seq<bool>
    decreases m,
{
    if m == 0 {
        dying0
    } else {
        let d = deaths_through(snakes, heads, grows, dying0, (m - 1) as nat);
        let i = m - 1;
        if !d[i] && heads[i] is Some && hits_body(snakes, grows, d, i, heads[i]->Some_0) {
            d.update(i, true)
        } else {
            d
        }
    }
}

pub open spec fn deaths_of(st: SnakeState, inputs: Map<u128, SnakeInput>) -> Seq<bool> {
    let heads = heads_of(st, inputs);
    deaths_through(
        st.snakes@,
        heads,
        grows_from(st.food@, heads),
        first_deaths(st.snakes@, heads),
        st.snakes@.len(),
    )
}

/// Snake `i` is alive before the tick and after it.
pub open spec fn survives(st: SnakeState, inputs: Map<u128, SnakeInput>, i: int) -> bool {
    st.snakes@[i].alive && !deaths_of(st, inputs)[i]
}

/// Snake `i` survives and its head lands on food.
pub open spec fn eats(st: SnakeState, inputs: Map<u128, SnakeInput>, i: int) -> bool {
    survives(st, inputs, i) && grows_from(st.food@, heads_of(st, inputs))[i]
}

/// The index of the first `p` in `f`.
pub open spec fn first_index_of(f: Seq<Position>, p: Position) -> int {
    choose|k: int| 0 <= k < f.len() && f[k] == p && forall|j: int| 0 <= j < k ==> f[j] != p
}

/// Food left and food eaten after the first `m` snakes have moved.
pub open spec fn food_after(st: SnakeState, inputs: Map<u128, SnakeInput>, m: nat) -> (
    Seq<Position>,
    Seq<Position>,
)
    decreases m,
{
    if m == 0 {
        (st.food@, Seq::empty())
    } else {
        let prev = food_after(st, inputs, (m - 1) as nat);
        let i = m - 1;
        let p = heads_of(st, inputs)[i]->Some_0;
        if eats(st, inputs, i) && prev.0.contains(p) {
            (prev.0.remove(first_index_of(prev.0, p)), prev.1.push(p))
        } else {
            prev
        }
    }
}

/// Players whose snake dies, in snake order (first `m` snakes).
pub open spec fn deaths_list(st: SnakeState, inputs: Map<u128, SnakeInput>, m: nat) -> Seq<
    PlayerId,
>
    decreases m,
{
    if m == 0 {
        Seq::empty()
    } else {
        let prev = deaths_list(st, inputs, (m - 1) as nat);
        let i = m - 1;
        if st.snakes@[i].alive && deaths_of(st, inputs)[i] {
            prev.push(st.snakes@[i].player_id)
        } else {
            prev
        }
    }
}

/// Surviving players and their new head cell, in snake order.
pub open spec fn moves_list(st: SnakeState, inputs: Map<u128, SnakeInput>, m: nat) -> Seq<
    (PlayerId, Position),
>
    decreases m,
{
    if m == 0 {
        Seq::empty()
    } else {
        let prev = moves_list(st, inputs, (m - 1) as nat);
        let i = m - 1;
        if survives(st, inputs, i) {
            prev.push((st.snakes@[i].player_id, heads_of(st, inputs)[i]->Some_0))
        } else {
            prev
        }
    }
}

/// Players whose snake ate, in snake order.
pub open spec fn grew_list(st: SnakeState, inputs: Map<u128, SnakeInput>, m: nat) -> Seq<
    PlayerId,
>
    decreases m,
{
    if m == 0 {
        Seq::empty()
    } else {
        let prev = grew_list(st, inputs, (m - 1) as nat);
        let i = m - 1;
        if eats(st, inputs, i) {
            prev.push(st.snakes@[i].player_id)
        } else {
            prev
        }
    }
}

/// Snake `t` is snake `i` of `st` after the tick.
pub open spec fn snake_after(st: SnakeState, inputs: Map<u128, SnakeInput>, i: int, t: Snake) -> bool {
    let s = st.snakes@[i];
    &&& t.player_id == s.player_id
    &&& if !s.alive {
        &&& !t.alive
        &&& t.body@ == s.body@
        &&& t.direction == s.direction
        &&& t.pending_direction == s.pending_direction
        &&& t.score == s.score
    } else {
        &&& t.direction == committed_dir(s, inputs)
        &&& t.pending_direction.is_none()
        &&& if survives(st, inputs, i) {
            let p = heads_of(st, inputs)[i]->Some_0;
            &&& t.alive
            &&& if grows_from(st.food@, heads_of(st, inputs))[i] {
                t.body@ == seq![p] + s.body@ && t.score == s.score + 1
            } else {
                t.body@ == (seq![p] + s.body@).drop_last() && t.score == s.score
            }
        } else {
            !t.alive && t.body@ == s.body@ && t.score == s.score
        }
    }
}


fn input_lookup(inputs: &std::collections::HashMap<u128, SnakeInput>, pid: PlayerId) -> (r: Option<Direction>)
    ensures
        r == input_for(inputs@, pid),
{
    broadcast use vstd::std_specs::hash::group_hash_axioms;

    match inputs.get(&pid.0) {
        Some(i) => Some(i.direction),
        None => None,
    }
}

fn commit_direction(s: &Snake, inputs: &std::collections::HashMap<u128, SnakeInput>) -> (d: Direction)
    ensures
        d == committed_dir(*s, inputs@),
{
    let d0 = s.direction;
    let pending = match input_lookup(inputs, s.player_id) {
        Some(d) => if d != d0.opposite() {
            Some(d)
        } else {
            s.pending_direction
        },
        None => s.pending_direction,
    };
    match pending {
        Some(p) => if p != d0.opposite() {
            p
        } else {
            d0
        },
        None => d0,
    }
}

/// Committed directions and planned heads of all snakes.
fn plan_moves(state: &SnakeState, inputs: &std::collections::HashMap<u128, SnakeInput>) -> (r: (
    Vec<Direction>,
    Vec<Option<Position>>,
))
    requires
        state.wf(),
    ensures
        r.0@.len() == state.snakes@.len(),
        forall|i: int|
            0 <= i < state.snakes@.len() && state.snakes@[i].alive ==> r.0@[i] == committed_dir(
                state.snakes@[i],
                inputs@,
            ),
        r.1@ == heads_of(*state, inputs@),
{
    let mut dirs: Vec<Direction> = Vec::new();
    let mut heads: Vec<Option<Position>> = Vec::new();
    let mut i: usize = 0;
    while i < state.snakes.len()
        invariant
            state.wf(),
            i <= state.snakes@.len(),
            dirs@.len() == i,
            heads@.len() == i,
            forall|a: int|
                0 <= a < i && state.snakes@[a].alive ==> dirs@[a] == committed_dir(
                    state.snakes@[a],
                    inputs@,
                ),
            forall|a: int|
                0 <= a < i ==> heads@[a] == planned_head(
                    state.snakes@[a],
                    inputs@,
                    state.arena_w,
                    state.arena_h,
                ),
        decreases state.snakes@.len() - i,
    {
        let s = &state.snakes[i];
        if s.alive {
            let d = commit_direction(s, inputs);
            dirs.push(d);
            assert(s.body@.len() > 0);
            let hd = step(s.body[0], d, state.arena_w, state.arena_h);
            heads.push(hd);
        } else {
            dirs.push(s.direction);
            heads.push(None);
        }
        i += 1;
    }
    assert(heads@ =~= heads_of(*state, inputs@));
    (dirs, heads)
}

fn plan_grows(food: &Vec<Position>, heads: &Vec<Option<Position>>) -> (g: Vec<bool>)
    ensures
        g@ == grows_from(food@, heads@),
{
    let mut g: Vec<bool> = Vec::new();
    let mut i: usize = 0;
    while i < heads.len()
        invariant
            i <= heads@.len(),
            g@.len() == i,
            forall|a: int| 0 <= a < i ==> g@[a] == grows_from(food@, heads@)[a],
        decreases heads@.len() - i,
    {
        let b = match heads[i] {
            Some(p) => contains_pos(food, p),
            None => false,
        };
        g.push(b);
        i += 1;
    }
    assert(g@ =~= grows_from(food@, heads@));
    g
}

fn plan_first_deaths(snakes: &Vec<Snake>, heads: &Vec<Option<Position>>) -> (d: Vec<bool>)
    requires
        heads@.len() == snakes@.len(),
    ensures
        d@ == first_deaths(snakes@, heads@),
{
    let n = snakes.len();
    let mut d: Vec<bool> = Vec::new();
    let mut i: usize = 0;
    while i < n
        invariant
            n == snakes@.len(),
            heads@.len() == n,
            i <= n,
            d@.len() == i,
            forall|a: int| 0 <= a < i ==> d@[a] == first_deaths(snakes@, heads@)[a],
        decreases n - i,
    {
        let mut dead = snakes[i].alive && heads[i].is_none();
        match heads[i] {
            Some(hi) => {
                let mut j: usize = 0;
                let mut clash = false;
                while j < n
                    invariant
                        n == heads@.len(),
                        i < n,
                        heads@[i as int] == Some(hi),
                        j <= n,
                        clash <==> exists|b: int| 0 <= b < j && b != i && heads@[b] == heads@[i as int],
                    decreases n - j,
                {
                    let same = match heads[j] {
                        Some(hj) => hj == hi,
                        None => false,
                    };
                    if j != i && same {
                        clash = true;
                    }
                    j += 1;
                }
                dead = dead || clash;
            },
            None => {},
        }
        d.push(dead);
        i += 1;
    }
    assert(d@ =~= first_deaths(snakes@, heads@));
    d
}

fn body_hit(
    snakes: &Vec<Snake>,
    grows: &Vec<bool>,
    dying: &Vec<bool>,
    i: usize,
    p: Position,
) -> (r: bool)
    requires
        grows@.len() == snakes@.len(),
        dying@.len() == snakes@.len(),
    ensures
        r == hits_body(snakes@, grows@, dying@, i as int, p),
{
    let mut j: usize = 0;
    while j < snakes.len()
        invariant
            grows@.len() == snakes@.len(),
            dying@.len() == snakes@.len(),
            j <= snakes@.len(),
            forall|a: int, k: int| 0 <= a < j ==> !blocks(snakes@, grows@, dying@, i as int, a, k, p),
        decreases snakes@.len() - j,
    {
        let other = &snakes[j];
        if other.alive {
            let tail_vacated = !grows[j] && !dying[j];
            let len = other.body.len();
            let mut k: usize = 0;
            while k < len
                invariant
                    grows@.len() == snakes@.len(),
                    dying@.len() == snakes@.len(),
                    j < snakes@.len(),
                    *other == snakes@[j as int],
                    other.alive,
                    len == other.body@.len(),
                    tail_vacated == (!grows@[j as int] && !dying@[j as int]),
                    k <= len,
                    forall|kk: int| 0 <= kk < k ==> !blocks(snakes@, grows@, dying@, i as int, j as int, kk, p),
                decreases len - k,
            {
                if !(tail_vacated && k + 1 == len) && !(i == j && k == 0) && other.body[k] == p {
                    assert(blocks(snakes@, grows@, dying@, i as int, j as int, k as int, p));
                    return true;
                }
                k += 1;
            }
        }
        j += 1;
    }
    false
}

proof fn lemma_deaths_keep(
    snakes: Seq<Snake>,
    heads: Seq<Option<Position>>,
    grows: Seq<bool>,
    dying0: Seq<bool>,
    m: nat,
)
    requires
        m <= dying0.len(),
    ensures
        deaths_through(snakes, heads, grows, dying0, m).len() == dying0.len(),
        forall|i: int|
            0 <= i < dying0.len() && dying0[i] ==> #[trigger] deaths_through(
                snakes,
                heads,
                grows,
                dying0,
                m,
            )[i],
    decreases m,
{
    if m > 0 {
        lemma_deaths_keep(snakes, heads, grows, dying0, (m - 1) as nat);
    }
}

fn body_collisions(
    snakes: &Vec<Snake>,
    heads: &Vec<Option<Position>>,
    grows: &Vec<bool>,
    dying: &mut Vec<bool>,
)
    requires
        heads@.len() == snakes@.len(),
        grows@.len() == snakes@.len(),
        old(dying)@.len() == snakes@.len(),
    ensures
        final(dying)@ == deaths_through(snakes@, heads@, grows@, old(dying)@, snakes@.len()),
{
    let ghost d0 = dying@;
    let n = snakes.len();
    let mut i: usize = 0;
    while i < n
        invariant
            n == snakes@.len(),
            heads@.len() == n,
            grows@.len() == n,
            i <= n,
            dying@ == deaths_through(snakes@, heads@, grows@, d0, i as nat),
            dying@.len() == n,
        decreases n - i,
    {
        if !dying[i] {
            match heads[i] {
                Some(p) => {
                    if body_hit(snakes, grows, dying, i, p) {
                        dying.set(i, true);
                    }
                },
                None => {},
            }
        }
        i += 1;
    }
}

fn find_pos(v: &Vec<Position>, p: Position) -> (r: Option<usize>)
    ensures
        match r {
            Some(k) => k < v@.len() && v@[k as int] == p && forall|j: int| 0 <= j < k ==> v@[j] != p,
            None => !v@.contains(p),
        },
{
    let mut i: usize = 0;
    while i < v.len()
        invariant
            i <= v@.len(),
            forall|j: int| 0 <= j < i ==> v@[j] != p,
        decreases v@.len() - i,
    {
        if v[i] == p {
            return Some(i);
        }
        i += 1;
    }
    None
}

proof fn lemma_first_index(f: Seq<Position>, p: Position, k: int)
    requires
        0 <= k < f.len(),
        f[k] == p,
        forall|j: int| 0 <= j < k ==> f[j] != p,
    ensures
        first_index_of(f, p) == k,
{
    let c = first_index_of(f, p);
    assert(0 <= c < f.len() && f[c] == p && forall|j: int| 0 <= j < c ==> f[j] != p);
    if c < k {
        assert(f[c] != p);
    }
    if k < c {
        assert(f[k] != p);
    }
}

fn copy_body(b: &VecDeque<Position>) -> (r: VecDeque<Position>)
    ensures
        r@ == b@,
{
    let mut r: VecDeque<Position> = VecDeque::new();
    let mut i: usize = 0;
    while i < b.len()
        invariant
            i <= b@.len(),
            r@ == b@.subrange(0, i as int),
        decreases b@.len() - i,
    {
        r.push_back(b[i]);
        assert(b@.subrange(0, i + 1) =~= b@.subrange(0, i as int).push(b@[i as int]));
        i += 1;
    }
    assert(b@.subrange(0, b@.len() as int) =~= b@);
    r
}


/// Whether the scores of the living snakes leave room for one more point.
pub open spec fn scores_bounded(st: SnakeState) -> bool {
    forall|i: int|
        0 <= i < st.snakes@.len() && (#[trigger] st.snakes@[i]).alive ==> st.snakes@[i].score
            < u32::MAX
}

/// `s1` and the delta `d` are what one tick on `inputs` makes of `s0`:
/// every snake as `snake_after` says, the food eaten (`food_after`) and
/// respawned (`respawn`), the tick advanced, and the outcome decided once.
pub open spec fn ticked(s0: SnakeState, inputs: Map<u128, SnakeInput>, s1: SnakeState, d: SnakeDelta) -> bool {
    let n = s0.snakes@.len();
    let eaten = food_after(s0, inputs, n);
    let sp = respawn(s1.snakes@, eaten.0, s0.rng_state, s0.arena_w, s0.arena_h, eaten.1.len());
    &&& s1.arena_w == s0.arena_w
    &&& s1.arena_h == s0.arena_h
    &&& s1.rng_seed == s0.rng_seed
    &&& s1.tick == s0.tick + 1
    &&& s1.snakes@.len() == n
    &&& forall|i: int| 0 <= i < n ==> snake_after(s0, inputs, i, #[trigger] s1.snakes@[i])
    &&& d.eaten_food@ == eaten.1
    &&& s1.food@ == sp.0
    &&& s1.rng_state == sp.1
    &&& d.new_food@ == sp.2
    &&& d.tick == s0.tick + 1
    &&& d.deaths@ == deaths_list(s0, inputs, n)
    &&& d.moves@ == moves_list(s0, inputs, n)
    &&& d.grew@ == grew_list(s0, inputs, n)
    &&& s0.game_over.is_none() ==> s1.game_over == terminal_of(s1.snakes@)
    &&& s0.game_over.is_some() ==> s1.game_over == s0.game_over
    &&& d.game_over == s1.game_over
}

impl SnakeEngine {
    /// A new game: one snake per player (even ones on the left facing right,
    /// odd ones on the right facing left), then `INITIAL_FOOD` food spawns drawn
    /// from the seed (the settings' seed, else one derived from the players).
    pub fn initial_state(players: &[PlayerId], settings: &GameSettings) -> (st: SnakeState)
        ensures
            st.wf(),
            st.arena_w == ARENA_W,
            st.arena_h == ARENA_H,
            st.snakes@.len() == players@.len(),
            forall|i: int|
                0 <= i < players@.len() ==> {
                    let s = #[trigger] st.snakes@[i];
                    &&& s.player_id == players@[i]
                    &&& s.body@ == start_body(i)
                    &&& s.direction == start_direction(i)
                    &&& s.pending_direction.is_none()
                    &&& s.alive
                    &&& s.score == 0
                },
            st.tick == 0,
            st.game_over.is_none(),
            settings.seed matches Some(x) ==> st.rng_seed == x,
            settings.seed.is_none() ==> st.rng_seed != 0,
            st.food@ == respawn(
                st.snakes@,
                Seq::empty(),
                st.rng_seed,
                ARENA_W,
                ARENA_H,
                INITIAL_FOOD as nat,
            ).0,
            st.rng_state == respawn(
                st.snakes@,
                Seq::empty(),
                st.rng_seed,
                ARENA_W,
                ARENA_H,
                INITIAL_FOOD as nat,
            ).1,
    {
        let seed = match settings.seed {
            Some(x) => x,
            None => seed_from_players(players),
        };
        let mut snakes: Vec<Snake> = Vec::new();
        let mut i: usize = 0;
        while i < players.len()
            invariant
                i <= players@.len(),
                snakes@.len() == i,
                forall|a: int|
                    0 <= a < i ==> {
                        let s = #[trigger] snakes@[a];
                        &&& s.player_id == players@[a]
                        &&& s.body@ == start_body(a)
                        &&& s.direction == start_direction(a)
                        &&& s.pending_direction.is_none()
                        &&& s.alive
                        &&& s.score == 0
                    },
            decreases players@.len() - i,
        {
            snakes.push(start_snake(i, players[i]));
            i += 1;
        }
        let mut state = SnakeState {
            arena_w: ARENA_W,
            arena_h: ARENA_H,
            snakes,
            food: Vec::new(),
            tick: 0,
            rng_seed: seed,
            rng_state: seed,
            game_over: None,
        };
        let ghost sn = state.snakes;
        let mut k: usize = 0;
        while k < INITIAL_FOOD
            invariant
                k <= INITIAL_FOOD,
                state.wf(),
                state.arena_w == ARENA_W,
                state.arena_h == ARENA_H,
                state.snakes == sn,
                state.tick == 0,
                state.game_over.is_none(),
                state.rng_seed == seed,
                state.food@ == respawn(sn@, Seq::empty(), seed, ARENA_W, ARENA_H, k as nat).0,
                state.rng_state == respawn(sn@, Seq::empty(), seed, ARENA_W, ARENA_H, k as nat).1,
            decreases INITIAL_FOOD - k,
        {
            spawn_food(&mut state);
            k += 1;
        }
        state
    }

    /// The outcome once the game is over: the recorded one, else the attrition
    /// rule (`terminal_of`).
    pub fn is_terminal(state: &SnakeState) -> (r: Option<GameOutcome>)
        ensures
            r == match state.game_over {
                Some(o) => Some(o),
                None => terminal_of(state.snakes@),
            },
    {
        match state.game_over {
            Some(o) => Some(o),
            None => compute_terminal(state),
        }
    }

    /// Advances the game by one tick: directions from `inputs` (reversals
    /// refused), moves, deaths by wall, head-on and body collisions, growth on
    /// food, a food respawn per item eaten, then the end-of-game check.
    pub fn tick(state: &mut SnakeState, inputs: &std::collections::HashMap<u128, SnakeInput>) -> (delta: SnakeDelta)
        requires
            old(state).wf(),
            old(state).tick < u64::MAX,
            scores_bounded(*old(state)),
        ensures
            final(state).wf(),
            ticked(*old(state), inputs@, *final(state), delta),
    {
        let ghost st = *state;
        let n = state.snakes.len();
        let (dirs, heads) = plan_moves(state, inputs);
        let grows = plan_grows(&state.food, &heads);
        let mut dying = plan_first_deaths(&state.snakes, &heads);
        body_collisions(&state.snakes, &heads, &grows, &mut dying);
        proof {
            lemma_deaths_keep(
                st.snakes@,
                heads@,
                grows@,
                first_deaths(st.snakes@, heads@),
                n as nat,
            );
        }
        let mut new_snakes: Vec<Snake> = Vec::new();
        let mut deaths: Vec<PlayerId> = Vec::new();
        let mut moves: Vec<(PlayerId, Position)> = Vec::new();
        let mut grew: Vec<PlayerId> = Vec::new();
        let mut eaten: Vec<Position> = Vec::new();
        let mut i: usize = 0;
        while i < n
            invariant
                n == st.snakes@.len(),
                st.wf(),
                scores_bounded(st),
                state.snakes == st.snakes,
                state.arena_w == st.arena_w,
                state.arena_h == st.arena_h,
                state.rng_state == st.rng_state,
                state.rng_seed == st.rng_seed,
                state.tick == st.tick,
                state.game_over == st.game_over,
                dirs@.len() == n,
                forall|a: int|
                    0 <= a < n && st.snakes@[a].alive ==> dirs@[a] == committed_dir(
                        st.snakes@[a],
                        inputs@,
                    ),
                heads@ == heads_of(st, inputs@),
                grows@ == grows_from(st.food@, heads@),
                dying@ == deaths_of(st, inputs@),
                dying@.len() == n,
                forall|a: int|
                    0 <= a < n && first_deaths(st.snakes@, heads@)[a] ==> #[trigger] dying@[a],
                i <= n,
                new_snakes@.len() == i,
                forall|a: int|
                    0 <= a < i ==> snake_after(st, inputs@, a, #[trigger] new_snakes@[a]),
                state.food@ == food_after(st, inputs@, i as nat).0,
                eaten@ == food_after(st, inputs@, i as nat).1,
                deaths@ == deaths_list(st, inputs@, i as nat),
                moves@ == moves_list(st, inputs@, i as nat),
                grew@ == grew_list(st, inputs@, i as nat),
            decreases n - i,
        {
            let pid = state.snakes[i].player_id;
            let alive = state.snakes[i].alive;
            let score = state.snakes[i].score;
            let body = copy_body(&state.snakes[i].body);
            let ghost old_food = state.food@;
            if !alive {
                new_snakes.push(
                    Snake {
                        player_id: pid,
                        body,
                        direction: state.snakes[i].direction,
                        pending_direction: state.snakes[i].pending_direction,
                        alive: false,
                        score,
                    },
                );
            } else if dying[i] {
                deaths.push(pid);
                new_snakes.push(
                    Snake {
                        player_id: pid,
                        body,
                        direction: dirs[i],
                        pending_direction: None,
                        alive: false,
                        score,
                    },
                );
            } else {
                match heads[i] {
                    Some(hp) => {
                        let mut body = body;
                        body.push_front(hp);
                        let mut score = score;
                        if grows[i] {
                            score = score + 1;
                            grew.push(pid);
                            match find_pos(&state.food, hp) {
                                Some(idx) => {
                                    proof {
                                        lemma_first_index(state.food@, hp, idx as int);
                                    }
                                    let e = state.food.remove(idx);
                                    eaten.push(e);
                                },
                                None => {},
                            }
                        } else {
                            body.pop_back();
                        }
                        moves.push((pid, hp));
                        new_snakes.push(
                            Snake {
                                player_id: pid,
                                body,
                                direction: dirs[i],
                                pending_direction: None,
                                alive: true,
                                score,
                            },
                        );
                    },
                    None => {
                        assert(first_deaths(st.snakes@, heads@)[i as int]);
                        assert(false);
                    },
                }
            }
            i += 1;
        }
        state.snakes = new_snakes;
        let ghost sn2 = state.snakes;
        let ghost food1 = state.food@;
        let to_spawn = eaten.len();
        let mut new_food: Vec<Position> = Vec::new();
        let mut k: usize = 0;
        while k < to_spawn
            invariant
                state.wf(),
                state.snakes == sn2,
                state.arena_w == st.arena_w,
                state.arena_h == st.arena_h,
                state.rng_seed == st.rng_seed,
                state.tick == st.tick,
                state.game_over == st.game_over,
                k <= to_spawn,
                state.food@ == respawn(sn2@, food1, st.rng_state, st.arena_w, st.arena_h, k as nat).0,
                state.rng_state == respawn(sn2@, food1, st.rng_state, st.arena_w, st.arena_h, k as nat).1,
                new_food@ == respawn(sn2@, food1, st.rng_state, st.arena_w, st.arena_h, k as nat).2,
            decreases to_spawn - k,
        {
            match spawn_food(state) {
                Some(p) => {
                    new_food.push(p);
                },
                None => {},
            }
            k += 1;
        }
        state.tick = state.tick + 1;
        let mut game_over: Option<GameOutcome> = state.game_over;
        if state.game_over.is_none() {
            match compute_terminal(state) {
                Some(o) => {
                    state.game_over = Some(o);
                    game_over = Some(o);
                },
                None => {},
            }
        }
        SnakeDelta {
            tick: state.tick,
            moves,
            grew,
            deaths,
            new_food,
            eaten_food: eaten,
            game_over,
        }
    }
}


// ---------------------------------------------------------------------------
// Bot
// ---------------------------------------------------------------------------

/// The directions in tie-breaking order: up, right, down, left.
pub open spec fn dir_order(i: int) -> Direction {
    if i == 0 {
        Direction::Up
    } else if i == 1 {
        Direction::Right
    } else if i == 2 {
        Direction::Down
    } else {
        Direction::Left
    }
}

fn dir_at(i: usize) -> (d: Direction)
    ensures
        d == dir_order(i as int),
{
    if i == 0 {
        Direction::Up
    } else if i == 1 {
        Direction::Right
    } else if i == 2 {
        Direction::Down
    } else {
        Direction::Left
    }
}

/// The first snake of `player`, if any.
pub open spec fn snake_of(snakes: Seq<Snake>, player: PlayerId) -> Option<Snake>
    decreases snakes.len(),
{
    if snakes.len() == 0 {
        None
    } else if snakes[0].player_id == player {
        Some(snakes[0])
    } else {
        snake_of(snakes.drop_first(), player)
    }
}

pub open spec fn adjacent(a: Position, b: Position) -> bool {
    let dx = a.x - b.x;
    let dy = a.y - b.y;
    (if dx < 0 {
        -dx
    } else {
        dx
    }) + (if dy < 0 {
        -dy
    } else {
        dy
    }) == 1
}

/// The bot's guess that a snake grows next tick: its head touches food.
pub open spec fn will_grow(s: Snake, food: Seq<Position>) -> bool {
    s.body@.len() > 0 && exists|j: int| 0 <= j < food.len() && adjacent(s.body@[0], #[trigger] food[j])
}

/// A cell the bot treats as blocked: any cell of a living snake, except the
/// tail of one that is not about to grow.
pub open spec fn is_obstacle(st: SnakeState, p: Position) -> bool {
    exists|i: int, k: int|
        0 <= i < st.snakes@.len() && (#[trigger] st.snakes@[i]).alive && 0 <= k
            < st.snakes@[i].body@.len() && !(!will_grow(st.snakes@[i], st.food@) && k
            == st.snakes@[i].body@.len() - 1) && #[trigger] st.snakes@[i].body@[k] == p
}

/// Moving from `head` in direction `d` stays in the arena and off obstacles.
pub open spec fn safe_dir(st: SnakeState, head: Position, d: Direction) -> bool {
    match step_to(head, d, st.arena_w as int, st.arena_h as int) {
        Some(p) => !is_obstacle(st, p),
        None => false,
    }
}

/// A direction the bot may choose from `current`: anything but a reversal.
pub open spec fn is_candidate(current: Direction, d: Direction) -> bool {
    d != opposite_of(current)
}

fn is_adjacent(a: Position, b: Position) -> (r: bool)
    ensures
        r == adjacent(a, b),
{
    let dx: i32 = a.x as i32 - b.x as i32;
    let dy: i32 = a.y as i32 - b.y as i32;
    let ax: i32 = if dx < 0 {
        -dx
    } else {
        dx
    };
    let ay: i32 = if dy < 0 {
        -dy
    } else {
        dy
    };
    ax + ay == 1
}

fn grows_soon(s: &Snake, food: &Vec<Position>) -> (r: bool)
    ensures
        r == will_grow(*s, food@),
{
    if s.body.len() == 0 {
        return false;
    }
    let h = s.body[0];
    let mut j: usize = 0;
    while j < food.len()
        invariant
            s.body@.len() > 0,
            h == s.body@[0],
            j <= food@.len(),
            forall|a: int| 0 <= a < j ==> !adjacent(h, #[trigger] food@[a]),
        decreases food@.len() - j,
    {
        if is_adjacent(h, food[j]) {
            return true;
        }
        j += 1;
    }
    false
}

/// The cells the bot avoids (possibly with repeats).
fn obstacle_cells(state: &SnakeState) -> (v: Vec<Position>)
    ensures
        forall|p: Position| #[trigger] v@.contains(p) <==> is_obstacle(*state, p),
{
    let mut v: Vec<Position> = Vec::new();
    let ghost sn = state.snakes@;
    let mut i: usize = 0;
    while i < state.snakes.len()
        invariant
            sn == state.snakes@,
            i <= sn.len(),
            forall|p: Position|
                #[trigger] v@.contains(p) <==> exists|a: int, k: int|
                    0 <= a < i && (#[trigger] sn[a]).alive && 0 <= k < sn[a].body@.len() && !(
                    !will_grow(sn[a], state.food@) && k == sn[a].body@.len() - 1)
                        && #[trigger] sn[a].body@[k] == p,
        decreases sn.len() - i,
    {
        let s = &state.snakes[i];
        if s.alive {
            let grow = grows_soon(s, &state.food);
            let len = s.body.len();
            let mut k: usize = 0;
            while k < len
                invariant
                    sn == state.snakes@,
                    i < sn.len(),
                    *s == sn[i as int],
                    s.alive,
                    len == s.body@.len(),
                    grow == will_grow(*s, state.food@),
                    k <= len,
                    forall|p: Position|
                        #[trigger] v@.contains(p) <==> (exists|a: int, kk: int|
                            0 <= a < i && (#[trigger] sn[a]).alive && 0 <= kk < sn[a].body@.len()
                                && !(!will_grow(sn[a], state.food@) && kk == sn[a].body@.len() - 1)
                                && #[trigger] sn[a].body@[kk] == p) || (exists|kk: int|
                            0 <= kk < k && !(!grow && kk == len - 1) && #[trigger] s.body@[kk] == p),
                decreases len - k,
            {
                let ghost vo = v@;
                if !(!grow && k + 1 == len) {
                    let c = s.body[k];
                    v.push(c);
                    proof {
                        assert(v@ == vo.push(c));
                        assert forall|p: Position| #[trigger] v@.contains(p) == (vo.contains(p) || p == c) by {
                            if p == c {
                                assert(v@[vo.len() as int] == c);
                            }
                            if vo.contains(p) {
                                let j = choose|j: int| 0 <= j < vo.len() && vo[j] == p;
                                assert(v@[j] == p);
                            }
                            if v@.contains(p) {
                                let j = choose|j: int| 0 <= j < v@.len() && v@[j] == p;
                                if j < vo.len() {
                                    assert(vo[j] == p);
                                }
                            }
                        }
                    }
                }
                proof {
                    assert forall|p: Position|
                        #[trigger] v@.contains(p) <==> (exists|a: int, kk: int|
                            0 <= a < i && (#[trigger] sn[a]).alive && 0 <= kk < sn[a].body@.len()
                                && !(!will_grow(sn[a], state.food@) && kk == sn[a].body@.len() - 1)
                                && #[trigger] sn[a].body@[kk] == p) || (exists|kk: int|
                            0 <= kk < k + 1 && !(!grow && kk == len - 1) && #[trigger] s.body@[kk]
                                == p) by {
                        if !(!grow && k + 1 == len) && p == s.body@[k as int] {
                            assert(s.body@[k as int] == p);
                        }
                        if exists|kk: int|
                            0 <= kk < k + 1 && !(!grow && kk == len - 1) && #[trigger] s.body@[kk]
                                == p {
                            let kk = choose|kk: int|
                                0 <= kk < k + 1 && !(!grow && kk == len - 1) && #[trigger] s.body@[kk]
                                    == p;
                            if kk < k {
                                assert(s.body@[kk] == p);
                            }
                        }
                    }
                }
                k += 1;
            }
            proof {
                assert forall|p: Position|
                    #[trigger] v@.contains(p) <==> exists|a: int, kk: int|
                        0 <= a < i + 1 && (#[trigger] sn[a]).alive && 0 <= kk < sn[a].body@.len()
                            && !(!will_grow(sn[a], state.food@) && kk == sn[a].body@.len() - 1)
                            && #[trigger] sn[a].body@[kk] == p by {
                    if exists|kk: int|
                        0 <= kk < len && !(!grow && kk == len - 1) && #[trigger] s.body@[kk] == p {
                        let kk = choose|kk: int|
                            0 <= kk < len && !(!grow && kk == len - 1) && #[trigger] s.body@[kk] == p;
                        assert(sn[i as int].body@[kk] == p);
                    }
                    if exists|a: int, kk: int|
                        0 <= a < i + 1 && (#[trigger] sn[a]).alive && 0 <= kk < sn[a].body@.len()
                            && !(!will_grow(sn[a], state.food@) && kk == sn[a].body@.len() - 1)
                            && #[trigger] sn[a].body@[kk] == p {
                        let (a, kk) = choose|a: int, kk: int|
                            0 <= a < i + 1 && (#[trigger] sn[a]).alive && 0 <= kk
                                < sn[a].body@.len() && !(!will_grow(sn[a], state.food@) && kk
                                == sn[a].body@.len() - 1) && #[trigger] sn[a].body@[kk] == p;
                        if a == i {
                            assert(s.body@[kk] == p);
                        }
                    }
                }
            }
        }
        i += 1;
    }
    v
}


/// Number of `true` entries.
pub open spec fn count_true(s: Seq<bool>) -> nat
    decreases s.len(),
{
    if s.len() == 0 {
        0
    } else {
        count_true(s.drop_last()) + if s.last() {
            1nat
        } else {
            0nat
        }
    }
}

pub proof fn lemma_count_true_bound(s: Seq<bool>)
    ensures
        count_true(s) <= s.len(),
    decreases s.len(),
{
    if s.len() > 0 {
        lemma_count_true_bound(s.drop_last());
    }
}

pub proof fn lemma_count_true_set(s: Seq<bool>, i: int)
    requires
        0 <= i < s.len(),
        !s[i],
    ensures
        count_true(s.update(i, true)) == count_true(s) + 1,
    decreases s.len(),
{
    let t = s.update(i, true);
    if i == s.len() - 1 {
        assert(t.drop_last() =~= s.drop_last());
    } else {
        assert(t.drop_last() =~= s.drop_last().update(i, true));
        lemma_count_true_set(s.drop_last(), i);
    }
}

proof fn lemma_count_true_falses(n: nat)
    ensures
        count_true(Seq::new(n, |i: int| false)) == 0,
    decreases n,
{
    if n > 0 {
        assert(Seq::new(n, |i: int| false).drop_last() =~= Seq::new((n - 1) as nat, |i: int| false));
        lemma_count_true_falses((n - 1) as nat);
    }
}

pub open spec fn in_arena(p: Position, w: u16, h: u16) -> bool {
    p.x < w && p.y < h
}

/// A grid of `w * h` cells, all unmarked.
fn blank_grid(w: u16, h: u16) -> (g: Vec<bool>)
    ensures
        g@.len() == w as int * h as int,
        count_true(g@) == 0,
        forall|i: int| 0 <= i < g@.len() ==> !g@[i],
{
    assert((w as int) * (h as int) <= 65535 * 65535) by (nonlinear_arith)
        requires
            w <= 65535,
            h <= 65535,
    ;
    let total: usize = (w as usize) * (h as usize);
    let mut g: Vec<bool> = Vec::new();
    let mut i: usize = 0;
    while i < total
        invariant
            i <= total,
            g@ == Seq::new(i as nat, |j: int| false),
        decreases total - i,
    {
        g.push(false);
        assert(g@ =~= Seq::new((i + 1) as nat, |j: int| false));
        i += 1;
    }
    proof {
        lemma_count_true_falses(total as nat);
    }
    g
}

fn cell_index(p: Position, w: u16, h: u16) -> (r: usize)
    requires
        in_arena(p, w, h),
    ensures
        r < w as int * h as int,
        r == cell_of(p, w),
{
    assert((p.y as int) * (w as int) + (p.x as int) < (h as int) * (w as int)) by (nonlinear_arith)
        requires
            p.x < w,
            p.y < h,
    ;
    assert((w as int) * (h as int) <= 65535 * 65535) by (nonlinear_arith)
        requires
            w <= 65535,
            h <= 65535,
    ;
    (p.y as usize) * (w as usize) + (p.x as usize)
}

/// The grid index of the cell `p` in an arena `w` wide (row by row).
pub open spec fn cell_of(p: Position, w: u16) -> int {
    p.y as int * w as int + p.x as int
}

/// Marks `p` visited unless it is blocked or already visited; reports whether
/// it was newly marked.
fn visit(
    grid: &mut Vec<bool>,
    count: &mut usize,
    obstacles: &Vec<Position>,
    p: Position,
    w: u16,
    h: u16,
) -> (fresh: bool)
    requires
        in_arena(p, w, h),
        old(grid)@.len() == w as int * h as int,
        *old(count) == count_true(old(grid)@),
    ensures
        final(grid)@.len() == old(grid)@.len(),
        *final(count) == count_true(final(grid)@),
        fresh == (!obstacles@.contains(p) && !old(grid)@[cell_of(p, w)]),
        final(grid)@ == if fresh {
            old(grid)@.update(cell_of(p, w), true)
        } else {
            old(grid)@
        },
        fresh ==> !obstacles@.contains(p) && *final(count) == *old(count) + 1,
        !fresh ==> *final(count) == *old(count),
{
    let idx = cell_index(p, w, h);
    if contains_pos(obstacles, p) || grid[idx] {
        return false;
    }
    assert((w as int) * (h as int) <= 65535 * 65535) by (nonlinear_arith)
        requires
            w <= 65535,
            h <= 65535,
    ;
    proof {
        lemma_count_true_set(grid@, idx as int);
        lemma_count_true_bound(grid@.update(idx as int, true));
    }
    grid.set(idx, true);
    *count = *count + 1;
    true
}

/// Moving from `start` in direction `d` reaches a food cell that is not an
/// obstacle.
pub open spec fn food_neighbor(st: SnakeState, start: Position, obstacles: Seq<Position>, d: Direction) -> bool {
    step_to(start, d, st.arena_w as int, st.arena_h as int) matches Some(q) && !obstacles.contains(q)
        && st.food@.contains(q)
}

/// Some neighbour of `start` is a food cell that is not an obstacle.
pub open spec fn food_next_to(st: SnakeState, start: Position, obstacles: Seq<Position>) -> bool {
    exists|d: Direction| #[trigger] food_neighbor(st, start, obstacles, d)
}

/// Some queued cell holds food.
pub open spec fn food_queued<A>(st: SnakeState, q: Seq<(Position, A)>) -> bool {
    exists|k: int| 0 <= k < q.len() && st.food@.contains(#[trigger] q[k].0)
}

/// Cells of the arena have distinct grid indices.
proof fn lemma_cell_of_injective(a: Position, b: Position, w: u16, h: u16)
    requires
        in_arena(a, w, h),
        in_arena(b, w, h),
        cell_of(a, w) == cell_of(b, w),
    ensures
        a == b,
{
    assert(a.y == b.y && a.x == b.x) by (nonlinear_arith)
        requires
            a.x < w,
            b.x < w,
            a.y as int * w as int + a.x as int == b.y as int * w as int + b.x as int,
    ;
}

// ---------------------------------------------------------------------------
// The searches the bots run, as breadth-first walks over the arena
// ---------------------------------------------------------------------------

/// A step from a cell of the arena that stays on the board lands in the arena.
pub proof fn lemma_step_in_arena(p: Position, d: Direction, w: u16, h: u16)
    requires
        in_arena(p, w, h),
    ensures
        step_to(p, d, w as int, h as int) matches Some(q) ==> in_arena(q, w, h),
{
}

/// The visited-cells grid at the start of a search from `start`: only the
/// start is marked.
pub open spec fn start_grid(w: u16, h: u16, start: Position) -> Seq<bool> {
    Seq::new((w as int * h as int) as nat, |i: int| i == cell_of(start, w))
}

/// Every queued cell lies in the arena, and the grid has one entry per cell.
pub open spec fn search_shape<T>(w: u16, h: u16, grid: Seq<bool>, queue: Seq<(Position, T)>) -> bool {
    &&& grid.len() == w as int * h as int
    &&& forall|k: int| 0 <= k < queue.len() ==> in_arena(#[trigger] queue[k].0, w, h)
}

/// Looking at the neighbours of `pos` in the directions `di..4` of
/// `dir_order`: each one on the board, free of obstacles and not yet visited
/// is marked visited and queued with `tag`.
pub open spec fn expand<T>(st: SnakeState, grid: Seq<bool>, queue: Seq<(Position, T)>, pos: Position, tag: T, di: int) -> (
    Seq<bool>,
    Seq<(Position, T)>,
)
    decreases 4 - di,
{
    if di >= 4 || di < 0 {
        (grid, queue)
    } else {
        match step_to(pos, dir_order(di), st.arena_w as int, st.arena_h as int) {
            Some(p) => if !is_obstacle(st, p) && !grid[cell_of(p, st.arena_w)] {
                expand(st, grid.update(cell_of(p, st.arena_w), true), queue.push((p, tag)), pos, tag, di + 1)
            } else {
                expand(st, grid, queue, pos, tag, di + 1)
            },
            None => expand(st, grid, queue, pos, tag, di + 1),
        }
    }
}

/// The first ring of the search for food: like `expand` from `start`, each
/// neighbour queued with the direction that reaches it.
pub open spec fn expand_first(st: SnakeState, grid: Seq<bool>, queue: Seq<(Position, Direction)>, start: Position, di: int) -> (
    Seq<bool>,
    Seq<(Position, Direction)>,
)
    decreases 4 - di,
{
    if di >= 4 || di < 0 {
        (grid, queue)
    } else {
        match step_to(start, dir_order(di), st.arena_w as int, st.arena_h as int) {
            Some(p) => if !is_obstacle(st, p) && !grid[cell_of(p, st.arena_w)] {
                expand_first(
                    st,
                    grid.update(cell_of(p, st.arena_w), true),
                    queue.push((p, dir_order(di))),
                    start,
                    di + 1,
                )
            } else {
                expand_first(st, grid, queue, start, di + 1)
            },
            None => expand_first(st, grid, queue, start, di + 1),
        }
    }
}

/// Expanding keeps the shape, marks exactly one cell per queued neighbour,
/// and keeps what was queued before.
pub proof fn lemma_expand<T>(st: SnakeState, grid: Seq<bool>, queue: Seq<(Position, T)>, pos: Position, tag: T, di: int)
    requires
        search_shape(st.arena_w, st.arena_h, grid, queue),
        in_arena(pos, st.arena_w, st.arena_h),
        0 <= di <= 4,
    ensures
        ({
            let (g2, q2) = expand(st, grid, queue, pos, tag, di);
            &&& search_shape(st.arena_w, st.arena_h, g2, q2)
            &&& q2.len() >= queue.len()
            &&& count_true(g2) == count_true(grid) + (q2.len() - queue.len())
            &&& q2.subrange(0, queue.len() as int) == queue
        }),
    decreases 4 - di,
{
    if di < 4 {
        let w = st.arena_w;
        let h = st.arena_h;
        lemma_step_in_arena(pos, dir_order(di), w, h);
        match step_to(pos, dir_order(di), w as int, h as int) {
            Some(p) => if !is_obstacle(st, p) && !grid[cell_of(p, w)] {
                assert(0 <= cell_of(p, w) < grid.len()) by (nonlinear_arith)
                    requires
                        p.x < w,
                        p.y < h,
                        grid.len() == w as int * h as int,
                ;
                lemma_count_true_set(grid, cell_of(p, w));
                let g1 = grid.update(cell_of(p, w), true);
                let q1 = queue.push((p, tag));
                lemma_expand(st, g1, q1, pos, tag, di + 1);
                let (g2, q2) = expand(st, g1, q1, pos, tag, di + 1);
                assert(q2.subrange(0, queue.len() as int) =~= q1.subrange(0, queue.len() as int));
            } else {
                lemma_expand(st, grid, queue, pos, tag, di + 1);
            },
            None => lemma_expand(st, grid, queue, pos, tag, di + 1),
        }
    } else {
        assert(queue.subrange(0, queue.len() as int) =~= queue);
    }
}

pub proof fn lemma_expand_first(st: SnakeState, grid: Seq<bool>, queue: Seq<(Position, Direction)>, start: Position, di: int)
    requires
        search_shape(st.arena_w, st.arena_h, grid, queue),
        in_arena(start, st.arena_w, st.arena_h),
        0 <= di <= 4,
    ensures
        ({
            let (g2, q2) = expand_first(st, grid, queue, start, di);
            &&& search_shape(st.arena_w, st.arena_h, g2, q2)
            &&& q2.len() >= queue.len()
            &&& count_true(g2) == count_true(grid) + (q2.len() - queue.len())
        }),
    decreases 4 - di,
{
    if di < 4 {
        let w = st.arena_w;
        let h = st.arena_h;
        lemma_step_in_arena(start, dir_order(di), w, h);
        match step_to(start, dir_order(di), w as int, h as int) {
            Some(p) => if !is_obstacle(st, p) && !grid[cell_of(p, w)] {
                assert(0 <= cell_of(p, w) < grid.len()) by (nonlinear_arith)
                    requires
                        p.x < w,
                        p.y < h,
                        grid.len() == w as int * h as int,
                ;
                lemma_count_true_set(grid, cell_of(p, w));
                lemma_expand_first(
                    st,
                    grid.update(cell_of(p, w), true),
                    queue.push((p, dir_order(di))),
                    start,
                    di + 1,
                );
            } else {
                lemma_expand_first(st, grid, queue, start, di + 1);
            },
            None => lemma_expand_first(st, grid, queue, start, di + 1),
        }
    }
}

/// The search for food from a queue of cells, each with the first move of
/// the path that reached it: the first queued food cell's move.
pub open spec fn food_search(st: SnakeState, grid: Seq<bool>, queue: Seq<(Position, Direction)>) -> Option<Direction>
    decreases 2 * (grid.len() - count_true(grid)) + queue.len(),
    when search_shape(st.arena_w, st.arena_h, grid, queue)
{
    if queue.len() == 0 {
        None
    } else if st.food@.contains(queue[0].0) {
        Some(queue[0].1)
    } else {
        proof {
            lemma_count_true_bound(grid);
            lemma_expand(st, grid, queue.drop_first(), queue[0].0, queue[0].1, 0);
            let (g2, q2) = expand(st, grid, queue.drop_first(), queue[0].0, queue[0].1, 0);
            lemma_count_true_bound(g2);
        }
        let (g2, q2) = expand(st, grid, queue.drop_first(), queue[0].0, queue[0].1, 0);
        food_search(st, g2, q2)
    }
}

/// The number of cells the flood from the queue marks in all.
pub open spec fn flood_search(st: SnakeState, grid: Seq<bool>, queue: Seq<(Position, ())>) -> nat
    decreases 2 * (grid.len() - count_true(grid)) + queue.len(),
    when search_shape(st.arena_w, st.arena_h, grid, queue)
{
    if queue.len() == 0 {
        count_true(grid)
    } else {
        proof {
            lemma_count_true_bound(grid);
            lemma_expand(st, grid, queue.drop_first(), queue[0].0, (), 0);
            let (g2, q2) = expand(st, grid, queue.drop_first(), queue[0].0, (), 0);
            lemma_count_true_bound(g2);
        }
        let (g2, q2) = expand(st, grid, queue.drop_first(), queue[0].0, (), 0);
        flood_search(st, g2, q2)
    }
}

/// The distance search from a queue of cells with their distances: the
/// distance of the first queued food cell.
pub open spec fn distance_search(st: SnakeState, grid: Seq<bool>, queue: Seq<(Position, usize)>) -> Option<usize>
    decreases 2 * (grid.len() - count_true(grid)) + queue.len(),
    when search_shape(st.arena_w, st.arena_h, grid, queue)
{
    if queue.len() == 0 {
        None
    } else if st.food@.contains(queue[0].0) {
        Some(queue[0].1)
    } else {
        proof {
            lemma_count_true_bound(grid);
            lemma_expand(st, grid, queue.drop_first(), queue[0].0, (queue[0].1 + 1) as usize, 0);
            let (g2, q2) = expand(st, grid, queue.drop_first(), queue[0].0, (queue[0].1 + 1) as usize, 0);
            lemma_count_true_bound(g2);
        }
        let (g2, q2) = expand(st, grid, queue.drop_first(), queue[0].0, (queue[0].1 + 1) as usize, 0);
        distance_search(st, g2, q2)
    }
}

/// The first move toward food found by a breadth-first search from `start`
/// that avoids obstacles and tries directions in `dir_order`; `None` when
/// there is no food or none can be reached.
pub open spec fn first_step_toward_food(st: SnakeState, start: Position) -> Option<Direction> {
    if st.food@.len() == 0 {
        None
    } else {
        let (g, q) = expand_first(st, start_grid(st.arena_w, st.arena_h, start), Seq::empty(), start, 0);
        food_search(st, g, q)
    }
}

/// The number of cells reachable from `start` (itself included) without
/// crossing obstacles, counted by a flood from `start`; 0 when `start` is an
/// obstacle.
pub open spec fn open_area(st: SnakeState, start: Position) -> nat {
    if is_obstacle(st, start) {
        0
    } else {
        flood_search(st, start_grid(st.arena_w, st.arena_h, start), seq![(start, ())])
    }
}

/// The distance from `start` to the nearest food by a breadth-first search
/// around obstacles; `None` when there is no food or none can be reached.
pub open spec fn food_distance(st: SnakeState, start: Position) -> Option<usize> {
    if st.food@.len() == 0 {
        None
    } else {
        distance_search(st, start_grid(st.arena_w, st.arena_h, start), seq![(start, 0usize)])
    }
}

/// Breadth-first search from `start` to the nearest food, avoiding obstacles:
/// the first move of the path found. Neighbours are tried in `dir_order`.
fn bfs_first_step(state: &SnakeState, start: Position, obstacles: &Vec<Position>) -> (r: Option<
    Direction,
>)
    requires
        in_arena(start, state.arena_w, state.arena_h),
        forall|q: Position| #[trigger] obstacles@.contains(q) <==> is_obstacle(*state, q),
    ensures
        r == first_step_toward_food(*state, start),
        r matches Some(d) ==> step_to(start, d, state.arena_w as int, state.arena_h as int) matches Some(
            q,
        ) && !obstacles@.contains(q),
        food_next_to(*state, start, obstacles@) ==> r is Some,
{
    if state.food.len() == 0 {
        return None;
    }
    let w = state.arena_w;
    let h = state.arena_h;
    let mut grid = blank_grid(w, h);
    let ghost total = w as int * h as int;
    let mut count: usize = 0;
    let si = cell_index(start, w, h);
    proof {
        lemma_count_true_set(grid@, si as int);
        lemma_count_true_bound(grid@.update(si as int, true));
    }
    grid.set(si, true);
    count = 1;
    let mut queue: VecDeque<(Position, Direction)> = VecDeque::new();
    let ghost sg = start_grid(w, h, start);
    proof {
        assert(grid@ =~= sg);
        assert(queue@ =~= Seq::<(Position, Direction)>::empty());
    }
    let mut di: usize = 0;
    while di < 4
        invariant
            forall|q: Position| #[trigger] obstacles@.contains(q) <==> is_obstacle(*state, q),
            sg == start_grid(w, h, start),
            expand_first(*state, grid@, queue@, start, di as int) == expand_first(
                *state,
                sg,
                Seq::empty(),
                start,
                0,
            ),
            forall|j: int|
                0 <= j < total && #[trigger] grid@[j] ==> j == cell_of(start, w) || exists|k: int|
                    0 <= k < queue@.len() && cell_of(#[trigger] queue@[k].0, w) == j,
            forall|i: int|
                0 <= i < di && #[trigger] food_neighbor(*state, start, obstacles@, dir_order(i)) ==> food_queued(
                    *state,
                    queue@,
                ),
            di <= 4,
            in_arena(start, w, h),
            grid@.len() == total,
            total == w as int * h as int,
            w == state.arena_w,
            h == state.arena_h,
            count == count_true(grid@),
            count <= total,
            forall|k: int|
                0 <= k < queue@.len() ==> in_arena((#[trigger] queue@[k]).0, w, h) && (step_to(
                    start,
                    queue@[k].1,
                    w as int,
                    h as int,
                ) matches Some(q) && !obstacles@.contains(q)),
        decreases 4 - di,
    {
        let d = dir_at(di);
        let ghost q0 = queue@;
        let ghost g0 = grid@;
        match step(start, d, w, h) {
            Some(p) => {
                let fresh = visit(&mut grid, &mut count, obstacles, p, w, h);
                if fresh {
                    proof {
                        lemma_count_true_bound(grid@);
                    }
                    queue.push_back((p, d));
                }
                proof {
                    assert(0 <= cell_of(p, w) < total) by (nonlinear_arith)
                        requires
                            p.x < w,
                            p.y < h,
                            total == w as int * h as int,
                    ;
                    assert(grid@ == (if fresh {
                        g0.update(cell_of(p, w), true)
                    } else {
                        g0
                    }));
                    assert(expand_first(*state, g0, q0, start, di as int) == expand_first(
                        *state,
                        grid@,
                        queue@,
                        start,
                        di + 1,
                    ));
                    assert forall|j: int| 0 <= j < total && #[trigger] grid@[j] implies j == cell_of(start, w)
                        || exists|k: int| 0 <= k < queue@.len() && cell_of(#[trigger] queue@[k].0, w) == j by {
                        if fresh && j == cell_of(p, w) {
                            assert(queue@[queue@.len() - 1].0 == p);
                        } else if j != cell_of(start, w) {
                            assert(grid@[j] == g0[j]);
                            let k = choose|k: int| 0 <= k < q0.len() && cell_of(#[trigger] q0[k].0, w) == j;
                            assert(queue@[k] == q0[k]);
                        }
                    }
                    assert forall|i: int|
                        0 <= i < di + 1 && #[trigger] food_neighbor(*state, start, obstacles@, dir_order(i))
                            implies food_queued(*state, queue@) by {
                        if i < di {
                            let k = choose|k: int| 0 <= k < q0.len() && state.food@.contains(#[trigger] q0[k].0);
                            assert(queue@[k] == q0[k]);
                        } else if fresh {
                            assert(queue@[queue@.len() - 1].0 == p);
                        } else {
                            assert(g0[cell_of(p, w)]);
                            if cell_of(p, w) == cell_of(start, w) {
                                lemma_cell_of_injective(p, start, w, h);
                            } else {
                                let k = choose|k: int| 0 <= k < q0.len() && cell_of(#[trigger] q0[k].0, w) == cell_of(p, w);
                                assert(queue@[k] == q0[k]);
                                assert(in_arena(queue@[k].0, w, h));
                                lemma_cell_of_injective(q0[k].0, p, w, h);
                            }
                        }
                    }
                }
            },
            None => {},
        }
        di += 1;
    }
    proof {
        lemma_count_true_bound(grid@);
        assert forall|d: Direction| #[trigger] food_neighbor(*state, start, obstacles@, d) implies food_queued(
            *state,
            queue@,
        ) by {
            let i: int = match d {
                Direction::Up => 0,
                Direction::Right => 1,
                Direction::Down => 2,
                Direction::Left => 3,
            };
            assert(dir_order(i) == d);
        }
    }
    let ghost result = first_step_toward_food(*state, start);
    while queue.len() > 0
        invariant
            forall|q: Position| #[trigger] obstacles@.contains(q) <==> is_obstacle(*state, q),
            food_search(*state, grid@, queue@) == result,
            result == first_step_toward_food(*state, start),
            grid@.len() == total,
            total == w as int * h as int,
            w == state.arena_w,
            h == state.arena_h,
            count == count_true(grid@),
            count <= total,
            forall|k: int|
                0 <= k < queue@.len() ==> in_arena((#[trigger] queue@[k]).0, w, h) && (step_to(
                    start,
                    queue@[k].1,
                    w as int,
                    h as int,
                ) matches Some(q) && !obstacles@.contains(q)),
            food_next_to(*state, start, obstacles@) ==> food_queued(*state, queue@),
        decreases 2 * (total - count) + queue@.len(),
    {
        let ghost m0 = 2 * (total - count) + queue@.len();
        let ghost q0 = queue@;
        let (pos, fd) = match queue.pop_front() {
            Some(e) => e,
            None => {
                return None;
            },
        };
        assert(q0[0] == (pos, fd));
        assert(forall|k: int| 0 <= k < queue@.len() ==> #[trigger] queue@[k] == q0[k + 1]);
        assert(queue@ =~= q0.drop_first());
        let ghost g0 = grid@;
        let ghost qp = queue@;
        proof {
            assert(search_shape(w, h, g0, q0));
        }
        if contains_pos(&state.food, pos) {
            assert(food_search(*state, g0, q0) == Some(fd));
            return Some(fd);
        }
        proof {
            if food_next_to(*state, start, obstacles@) {
                let k = choose|k: int| 0 <= k < q0.len() && state.food@.contains(#[trigger] q0[k].0);
                assert(k != 0);
                assert(queue@[k - 1] == q0[k]);
            }
        }
        let mut di: usize = 0;
        while di < 4
            invariant
                in_arena(pos, w, h),
                step_to(start, fd, w as int, h as int) matches Some(q) && !obstacles@.contains(q),
                grid@.len() == total,
                total == w as int * h as int,
                w == state.arena_w,
                h == state.arena_h,
            total == w as int * h as int,
            w == state.arena_w,
            h == state.arena_h,
                count == count_true(grid@),
                count <= total,
                2 * (total - count) + queue@.len() < m0,
                forall|k: int|
                    0 <= k < queue@.len() ==> in_arena((#[trigger] queue@[k]).0, w, h) && (step_to(
                        start,
                        queue@[k].1,
                        w as int,
                        h as int,
                    ) matches Some(q) && !obstacles@.contains(q)),
                food_next_to(*state, start, obstacles@) ==> food_queued(*state, queue@),
                forall|q: Position| #[trigger] obstacles@.contains(q) <==> is_obstacle(*state, q),
                di <= 4,
                expand(*state, grid@, queue@, pos, fd, di as int) == expand(*state, g0, qp, pos, fd, 0),
            decreases 4 - di,
        {
            let d = dir_at(di);
            let ghost q1 = queue@;
            let ghost g1 = grid@;
            match step(pos, d, w, h) {
                Some(p) => {
                    if visit(&mut grid, &mut count, obstacles, p, w, h) {
                        proof {
                            lemma_count_true_bound(grid@);
                        }
                        queue.push_back((p, fd));
                        proof {
                            if food_next_to(*state, start, obstacles@) {
                                let k = choose|k: int| 0 <= k < q1.len() && state.food@.contains(#[trigger] q1[k].0);
                                assert(queue@[k] == q1[k]);
                            }
                        }
                    }
                    assert(expand(*state, g1, q1, pos, fd, di as int) == expand(*state, grid@, queue@, pos, fd, di + 1));
                },
                None => {},
            }
            di += 1;
        }
    }
    None
}

/// Number of cells reachable from `start` without crossing obstacles
/// (0 when `start` itself is blocked): `open_area`.
fn flood_fill(state: &SnakeState, start: Position, obstacles: &Vec<Position>) -> (r: usize)
    requires
        in_arena(start, state.arena_w, state.arena_h),
        forall|q: Position| #[trigger] obstacles@.contains(q) <==> is_obstacle(*state, q),
    ensures
        r <= state.arena_w as int * state.arena_h as int,
        r == 0 <==> obstacles@.contains(start),
        r == open_area(*state, start),
{
    if contains_pos(obstacles, start) {
        return 0;
    }
    let w = state.arena_w;
    let h = state.arena_h;
    let mut grid = blank_grid(w, h);
    let ghost total = w as int * h as int;
    let mut count: usize = 0;
    let si = cell_index(start, w, h);
    proof {
        lemma_count_true_set(grid@, si as int);
        lemma_count_true_bound(grid@.update(si as int, true));
    }
    grid.set(si, true);
    count = 1;
    let mut queue: VecDeque<(Position, ())> = VecDeque::new();
    queue.push_back((start, ()));
    let ghost result = open_area(*state, start);
    proof {
        assert(grid@ =~= start_grid(w, h, start));
        assert(queue@ =~= seq![(start, ())]);
    }
    while queue.len() > 0
        invariant
            grid@.len() == total,
            total == w as int * h as int,
            w == state.arena_w,
            h == state.arena_h,
            count == count_true(grid@),
            1 <= count <= total,
            forall|k: int| 0 <= k < queue@.len() ==> in_arena(#[trigger] queue@[k].0, w, h),
            forall|q: Position| #[trigger] obstacles@.contains(q) <==> is_obstacle(*state, q),
            flood_search(*state, grid@, queue@) == result,
        decreases 2 * (total - count) + queue@.len(),
    {
        let ghost m0 = 2 * (total - count) + queue@.len();
        let ghost q0 = queue@;
        let ghost g0 = grid@;
        let (pos, _) = match queue.pop_front() {
            Some(e) => e,
            None => {
                return count;
            },
        };
        assert(q0[0].0 == pos);
        assert(forall|k: int| 0 <= k < queue@.len() ==> #[trigger] queue@[k] == q0[k + 1]);
        assert(queue@ =~= q0.drop_first());
        let ghost qp = queue@;
        let mut di: usize = 0;
        while di < 4
            invariant
                in_arena(pos, w, h),
                grid@.len() == total,
                total == w as int * h as int,
                w == state.arena_w,
                h == state.arena_h,
                count == count_true(grid@),
                1 <= count <= total,
                2 * (total - count) + queue@.len() < m0,
                forall|k: int| 0 <= k < queue@.len() ==> in_arena(#[trigger] queue@[k].0, w, h),
                forall|q: Position| #[trigger] obstacles@.contains(q) <==> is_obstacle(*state, q),
                di <= 4,
                expand(*state, grid@, queue@, pos, (), di as int) == expand(*state, g0, qp, pos, (), 0),
            decreases 4 - di,
        {
            let d = dir_at(di);
            let ghost gi = grid@;
            let ghost qi = queue@;
            match step(pos, d, w, h) {
                Some(p) => {
                    if visit(&mut grid, &mut count, obstacles, p, w, h) {
                        proof {
                            lemma_count_true_bound(grid@);
                        }
                        queue.push_back((p, ()));
                    }
                    assert(expand(*state, gi, qi, pos, (), di as int) == expand(*state, grid@, queue@, pos, (), di + 1));
                },
                None => {},
            }
            di += 1;
        }
        proof {
            assert(search_shape(w, h, g0, q0));
        }
    }
    count
}

/// Length of the shortest obstacle-free path from `start` to a food cell, found
/// by breadth-first search.
fn nearest_food_distance(state: &SnakeState, start: Position, obstacles: &Vec<Position>) -> (r:
    Option<usize>)
    requires
        in_arena(start, state.arena_w, state.arena_h),
        forall|q: Position| #[trigger] obstacles@.contains(q) <==> is_obstacle(*state, q),
    ensures
        r == food_distance(*state, start),
        r matches Some(d) ==> d < state.arena_w as int * state.arena_h as int,
        state.food@.contains(start) || food_next_to(*state, start, obstacles@) ==> r is Some,
{
    if state.food.len() == 0 {
        return None;
    }
    let w = state.arena_w;
    let h = state.arena_h;
    let mut grid = blank_grid(w, h);
    let ghost total = w as int * h as int;
    let mut count: usize = 0;
    let si = cell_index(start, w, h);
    proof {
        lemma_count_true_set(grid@, si as int);
        lemma_count_true_bound(grid@.update(si as int, true));
    }
    grid.set(si, true);
    count = 1;
    let mut queue: VecDeque<(Position, usize)> = VecDeque::new();
    queue.push_back((start, 0));
    let ghost mut started = false;
    proof {
        assert(queue@ =~= seq![(start, 0usize)]);
        assert(0 <= cell_of(start, w) < total) by (nonlinear_arith)
            requires
                start.x < w,
                start.y < h,
                total == w as int * h as int,
        ;
        assert forall|j: int| 0 <= j < total implies (#[trigger] grid@[j] <==> j == cell_of(start, w)) by {}
        assert(grid@ =~= start_grid(w, h, start));
    }
    let ghost result = food_distance(*state, start);
    while queue.len() > 0
        invariant
            in_arena(start, w, h),
            !started ==> queue@ == seq![(start, 0usize)] && forall|j: int|
                0 <= j < total ==> (#[trigger] grid@[j] <==> j == cell_of(start, w)),
            started ==> (food_next_to(*state, start, obstacles@) ==> food_queued(*state, queue@)),
            started ==> !state.food@.contains(start),
            grid@.len() == total,
            total == w as int * h as int,
            w == state.arena_w,
            h == state.arena_h,
            count == count_true(grid@),
            1 <= count <= total,
            forall|k: int|
                0 <= k < queue@.len() ==> in_arena((#[trigger] queue@[k]).0, w, h) && queue@[k].1
                    < count,
            forall|q: Position| #[trigger] obstacles@.contains(q) <==> is_obstacle(*state, q),
            state.food@.len() > 0,
            distance_search(*state, grid@, queue@) == result,
            result == food_distance(*state, start),
        decreases 2 * (total - count) + queue@.len(),
    {
        let ghost m0 = 2 * (total - count) + queue@.len();
        let ghost q0 = queue@;
        let (pos, dist) = match queue.pop_front() {
            Some(e) => e,
            None => {
                return None;
            },
        };
        assert(q0[0] == (pos, dist));
        assert(forall|k: int| 0 <= k < queue@.len() ==> #[trigger] queue@[k] == q0[k + 1]);
        assert(queue@ =~= q0.drop_first());
        let ghost g0 = grid@;
        let ghost qp = queue@;
        proof {
            assert(search_shape(w, h, g0, q0));
        }
        if contains_pos(&state.food, pos) {
            assert(distance_search(*state, g0, q0) == Some(dist));
            return Some(dist);
        }
        let ghost first = !started;
        proof {
            if first {
                assert(pos == start);
            }
            if !first && food_next_to(*state, start, obstacles@) {
                let k = choose|k: int| 0 <= k < q0.len() && state.food@.contains(#[trigger] q0[k].0);
                assert(k != 0);
                assert(queue@[k - 1] == q0[k]);
            }
        }
        let mut di: usize = 0;
        while di < 4
            invariant
                first ==> pos == start,
                first ==> forall|j: int|
                    0 <= j < total && #[trigger] grid@[j] ==> j == cell_of(start, w) || exists|k: int|
                        0 <= k < queue@.len() && cell_of(#[trigger] queue@[k].0, w) == j,
                first ==> forall|i: int|
                    0 <= i < di && #[trigger] food_neighbor(*state, start, obstacles@, dir_order(i)) ==> food_queued(
                        *state,
                        queue@,
                    ),
                !first ==> (food_next_to(*state, start, obstacles@) ==> food_queued(*state, queue@)),
                first || started,
                !state.food@.contains(start),
                di <= 4,
                in_arena(start, w, h),
                in_arena(pos, w, h),
                dist < count,
                grid@.len() == total,
                total == w as int * h as int,
                w == state.arena_w,
                h == state.arena_h,
            total == w as int * h as int,
            w == state.arena_w,
            h == state.arena_h,
                count == count_true(grid@),
                1 <= count <= total,
                2 * (total - count) + queue@.len() < m0,
                forall|k: int|
                    0 <= k < queue@.len() ==> in_arena((#[trigger] queue@[k]).0, w, h)
                        && queue@[k].1 < count,
                forall|q: Position| #[trigger] obstacles@.contains(q) <==> is_obstacle(*state, q),
                expand(*state, grid@, queue@, pos, (dist + 1) as usize, di as int) == expand(
                    *state,
                    g0,
                    qp,
                    pos,
                    (dist + 1) as usize,
                    0,
                ),
            decreases 4 - di,
        {
            let d = dir_at(di);
            let ghost q1 = queue@;
            let ghost g1 = grid@;
            match step(pos, d, w, h) {
                Some(p) => {
                    let fresh = visit(&mut grid, &mut count, obstacles, p, w, h);
                    if fresh {
                        proof {
                            lemma_count_true_bound(grid@);
                        }
                        queue.push_back((p, dist + 1));
                    }
                    proof {
                        assert(0 <= cell_of(p, w) < total) by (nonlinear_arith)
                            requires
                                p.x < w,
                                p.y < h,
                                total == w as int * h as int,
                        ;
                        assert(grid@ == (if fresh {
                            g1.update(cell_of(p, w), true)
                        } else {
                            g1
                        }));
                        assert(expand(*state, g1, q1, pos, (dist + 1) as usize, di as int) == expand(
                            *state,
                            grid@,
                            queue@,
                            pos,
                            (dist + 1) as usize,
                            di + 1,
                        ));
                        if !first {
                            if food_next_to(*state, start, obstacles@) {
                                let k = choose|k: int| 0 <= k < q1.len() && state.food@.contains(#[trigger] q1[k].0);
                                assert(queue@[k] == q1[k]);
                            }
                        } else {
                            assert forall|j: int| 0 <= j < total && #[trigger] grid@[j] implies j == cell_of(start, w)
                                || exists|k: int| 0 <= k < queue@.len() && cell_of(#[trigger] queue@[k].0, w) == j by {
                                if fresh && j == cell_of(p, w) {
                                    assert(queue@[queue@.len() - 1].0 == p);
                                } else if j != cell_of(start, w) {
                                    assert(grid@[j] == g1[j]);
                                    let k = choose|k: int| 0 <= k < q1.len() && cell_of(#[trigger] q1[k].0, w) == j;
                                    assert(queue@[k] == q1[k]);
                                }
                            }
                            assert forall|i: int|
                                0 <= i < di + 1 && #[trigger] food_neighbor(*state, start, obstacles@, dir_order(i))
                                    implies food_queued(*state, queue@) by {
                                if i < di {
                                    let k = choose|k: int| 0 <= k < q1.len() && state.food@.contains(#[trigger] q1[k].0);
                                    assert(queue@[k] == q1[k]);
                                } else if fresh {
                                    assert(queue@[queue@.len() - 1].0 == p);
                                } else {
                                    assert(g1[cell_of(p, w)]);
                                    if cell_of(p, w) == cell_of(start, w) {
                                        lemma_cell_of_injective(p, start, w, h);
                                    } else {
                                        let k = choose|k: int|
                                            0 <= k < q1.len() && cell_of(#[trigger] q1[k].0, w) == cell_of(p, w);
                                        assert(queue@[k] == q1[k]);
                                        assert(in_arena(queue@[k].0, w, h));
                                        lemma_cell_of_injective(q1[k].0, p, w, h);
                                    }
                                }
                            }
                        }
                    }
                },
                None => {},
            }
            di += 1;
        }
        proof {
            if first {
                assert forall|d: Direction| #[trigger] food_neighbor(*state, start, obstacles@, d) implies food_queued(
                    *state,
                    queue@,
                ) by {
                    let i: int = match d {
                        Direction::Up => 0,
                        Direction::Right => 1,
                        Direction::Down => 2,
                        Direction::Left => 3,
                    };
                    assert(dir_order(i) == d);
                }
            }
            started = true;
        }
    }
    None
}


/// The directions the bot considers from `current`: all but the reversal, in
/// `dir_order`.
pub open spec fn candidate_list(current: Direction) -> Seq<Direction> {
    match current {
        Direction::Up => seq![Direction::Up, Direction::Right, Direction::Left],
        Direction::Right => seq![Direction::Up, Direction::Right, Direction::Down],
        Direction::Down => seq![Direction::Right, Direction::Down, Direction::Left],
        Direction::Left => seq![Direction::Up, Direction::Down, Direction::Left],
    }
}

proof fn lemma_candidate_list(current: Direction)
    ensures
        candidate_list(current).len() == 3,
        forall|d: Direction| #[trigger] candidate_list(current).contains(d) <==> is_candidate(current, d),
{
    let l = candidate_list(current);
    assert forall|d: Direction| #[trigger] l.contains(d) <==> is_candidate(current, d) by {
        if d == l[0] {
        } else if d == l[1] {
        } else if d == l[2] {
        }
        if l.contains(d) {
            let k = choose|k: int| 0 <= k < l.len() && l[k] == d;
        }
    }
}

fn candidate_vec(current: Direction) -> (v: Vec<Direction>)
    ensures
        v@ == candidate_list(current),
{
    let mut v: Vec<Direction> = Vec::new();
    match current {
        Direction::Up => {
            v.push(Direction::Up);
            v.push(Direction::Right);
            v.push(Direction::Left);
        },
        Direction::Right => {
            v.push(Direction::Up);
            v.push(Direction::Right);
            v.push(Direction::Down);
        },
        Direction::Down => {
            v.push(Direction::Right);
            v.push(Direction::Down);
            v.push(Direction::Left);
        },
        Direction::Left => {
            v.push(Direction::Up);
            v.push(Direction::Down);
            v.push(Direction::Left);
        },
    }
    assert(v@ =~= candidate_list(current));
    v
}

fn dir_in(v: &Vec<Direction>, d: Direction) -> (r: bool)
    ensures
        r == v@.contains(d),
{
    let mut i: usize = 0;
    while i < v.len()
        invariant
            i <= v@.len(),
            forall|j: int| 0 <= j < i ==> v@[j] != d,
        decreases v@.len() - i,
    {
        if v[i] == d {
            return true;
        }
        i += 1;
    }
    false
}

/// Moving from `head` in direction `d` stays in the arena and off `obs`.
pub open spec fn safe_with(obs: Seq<Position>, head: Position, d: Direction, w: u16, h: u16) -> bool {
    match step_to(head, d, w as int, h as int) {
        Some(q) => !obs.contains(q),
        None => false,
    }
}

/// The position of `d` in `dir_order`.
pub open spec fn rank_of(d: Direction) -> int {
    match d {
        Direction::Up => 0,
        Direction::Right => 1,
        Direction::Down => 2,
        Direction::Left => 3,
    }
}

/// The first candidate move from `current` (in `candidate_list` order) whose
/// step is safe; `current` when none is.
pub open spec fn first_safe(st: SnakeState, head: Position, current: Direction) -> Direction {
    let c = candidate_list(current);
    if safe_dir(st, head, c[0]) {
        c[0]
    } else if safe_dir(st, head, c[1]) {
        c[1]
    } else if safe_dir(st, head, c[2]) {
        c[2]
    } else {
        current
    }
}

/// The easy bot's move: the first step toward the nearest food when that is
/// not a reversal, otherwise the first safe candidate.
pub open spec fn easy_choice(st: SnakeState, head: Position, current: Direction) -> Direction {
    match first_step_toward_food(st, head) {
        Some(d) => if is_candidate(current, d) {
            d
        } else {
            first_safe(st, head, current)
        },
        None => first_safe(st, head, current),
    }
}

/// The hard bot's score of a new head at `p`: ten times the open area from
/// there plus closeness to food (1000 minus the distance, 0 without food).
pub open spec fn hard_score(st: SnakeState, p: Position) -> int {
    open_area(st, p) * 10 + (1000 - match food_distance(st, p) {
        Some(d) => d as int,
        None => 1000,
    })
}

/// Whether the hard bot takes `dir`, scoring `score`, over the best so far:
/// a higher score wins; on a tie the current direction, then the earlier
/// direction in `dir_order`.
pub open spec fn hard_prefers(current: Direction, score: int, dir: Direction, best: Option<(int, Direction)>) -> bool {
    match best {
        None => true,
        Some((bs, bd)) => if score > bs {
            true
        } else if score == bs {
            if dir == current && bd != current {
                true
            } else if bd == current {
                false
            } else {
                rank_of(dir) < rank_of(bd)
            }
        } else {
            false
        },
    }
}

/// The hard bot's scan over the candidates `k..3`, from the best so far.
pub open spec fn hard_scan(st: SnakeState, head: Position, current: Direction, k: int, best: Option<(int, Direction)>) -> Option<
    (int, Direction),
>
    decreases 3 - k,
{
    if k >= 3 || k < 0 {
        best
    } else {
        let dir = candidate_list(current)[k];
        match step_to(head, dir, st.arena_w as int, st.arena_h as int) {
            Some(p) => if !is_obstacle(st, p) {
                let sc = hard_score(st, p);
                hard_scan(st, head, current, k + 1, if hard_prefers(current, sc, dir, best) {
                    Some((sc, dir))
                } else {
                    best
                })
            } else {
                hard_scan(st, head, current, k + 1, best)
            },
            None => hard_scan(st, head, current, k + 1, best),
        }
    }
}

/// The hard bot's move: the best-scoring safe candidate (see
/// `hard_prefers`), or the current direction when no candidate is safe.
pub open spec fn hard_choice(st: SnakeState, head: Position, current: Direction) -> Direction {
    match hard_scan(st, head, current, 0, None) {
        Some((_, d)) => d,
        None => current,
    }
}

fn rank(d: Direction) -> (r: usize)
    ensures
        dir_order(r as int) == d,
        r < 4,
        r == rank_of(d),
{
    match d {
        Direction::Up => 0,
        Direction::Right => 1,
        Direction::Down => 2,
        Direction::Left => 3,
    }
}

/// Easy bot: the first step towards the nearest food when that is allowed,

/// With the obstacle cells given as a list, a step is safe exactly when it
/// is safe for the state.
proof fn lemma_safe_with(st: SnakeState, head: Position, obs: Seq<Position>)
    requires
        forall|q: Position| #[trigger] obs.contains(q) <==> is_obstacle(st, q),
    ensures
        forall|d: Direction| #[trigger] safe_dir(st, head, d) == safe_with(obs, head, d, st.arena_w, st.arena_h),
{
    assert forall|d: Direction| #[trigger] safe_dir(st, head, d) == safe_with(obs, head, d, st.arena_w, st.arena_h) by {
        match step_to(head, d, st.arena_w as int, st.arena_h as int) {
            Some(q) => {
                assert(obs.contains(q) == is_obstacle(st, q));
            },
            None => {},
        }
    }
}

/// else the first safe candidate, else straight on.
fn bot_easy(
    state: &SnakeState,
    head: Position,
    current: Direction,
    candidates: &Vec<Direction>,
    obstacles: &Vec<Position>,
) -> (r: SnakeInput)
    requires
        in_arena(head, state.arena_w, state.arena_h),
        candidates@ == candidate_list(current),
        forall|q: Position| #[trigger] obstacles@.contains(q) <==> is_obstacle(*state, q),
    ensures
        r.direction == easy_choice(*state, head, current),
        is_candidate(current, r.direction),
        (exists|k: int|
            0 <= k < 3 && safe_with(
                obstacles@,
                head,
                #[trigger] candidates@[k],
                state.arena_w,
                state.arena_h,
            )) ==> safe_with(obstacles@, head, r.direction, state.arena_w, state.arena_h),
        (forall|k: int|
            0 <= k < 3 ==> !safe_with(
                obstacles@,
                head,
                #[trigger] candidates@[k],
                state.arena_w,
                state.arena_h,
            )) ==> r.direction == current,
{
    proof {
        lemma_candidate_list(current);
        lemma_safe_with(*state, head, obstacles@);
    }
    match bfs_first_step(state, head, obstacles) {
        Some(dir) => {
            if dir_in(candidates, dir) {
                proof {
                    let k = choose|k: int| 0 <= k < candidates@.len() && candidates@[k] == dir;
                    assert(safe_with(obstacles@, head, candidates@[k], state.arena_w, state.arena_h));
                }
                return SnakeInput { direction: dir };
            }
        },
        None => {},
    }
    assert(easy_choice(*state, head, current) == first_safe(*state, head, current));
    let mut k: usize = 0;
    while k < candidates.len()
        invariant
            easy_choice(*state, head, current) == first_safe(*state, head, current),
            forall|d: Direction| #[trigger] safe_dir(*state, head, d) == safe_with(
                obstacles@,
                head,
                d,
                state.arena_w,
                state.arena_h,
            ),
            candidates@ == candidate_list(current),
            candidates@.len() == 3,
            k <= 3,
            forall|j: int|
                0 <= j < k ==> !safe_with(
                    obstacles@,
                    head,
                    #[trigger] candidates@[j],
                    state.arena_w,
                    state.arena_h,
                ),
        decreases 3 - k,
    {
        let d = candidates[k];
        match step(head, d, state.arena_w, state.arena_h) {
            Some(p) => {
                if !contains_pos(obstacles, p) {
                    assert(candidate_list(current).contains(d));
                    return SnakeInput { direction: d };
                }
            },
            None => {},
        }
        k += 1;
    }
    SnakeInput { direction: current }
}

/// The best-so-far of the hard bot's scan, its score as an integer.
pub open spec fn best_view(best: Option<(i64, Direction)>) -> Option<(int, Direction)> {
    match best {
        Some((bs, bd)) => Some((bs as int, bd)),
        None => None,
    }
}

/// Hard bot: among safe candidates, the one maximising ten times the room
/// reachable from the new head plus closeness to food; ties go to the current
/// direction, then to `dir_order`.
fn bot_hard(
    state: &SnakeState,
    head: Position,
    current: Direction,
    candidates: &Vec<Direction>,
    obstacles: &Vec<Position>,
) -> (r: SnakeInput)
    requires
        in_arena(head, state.arena_w, state.arena_h),
        candidates@ == candidate_list(current),
        forall|q: Position| #[trigger] obstacles@.contains(q) <==> is_obstacle(*state, q),
    ensures
        r.direction == hard_choice(*state, head, current),
        is_candidate(current, r.direction),
        (exists|k: int|
            0 <= k < 3 && safe_with(
                obstacles@,
                head,
                #[trigger] candidates@[k],
                state.arena_w,
                state.arena_h,
            )) ==> safe_with(obstacles@, head, r.direction, state.arena_w, state.arena_h),
        (forall|k: int|
            0 <= k < 3 ==> !safe_with(
                obstacles@,
                head,
                #[trigger] candidates@[k],
                state.arena_w,
                state.arena_h,
            )) ==> r.direction == current,
{
    proof {
        lemma_candidate_list(current);
    }
    let w = state.arena_w;
    let h = state.arena_h;
    assert((w as int) * (h as int) <= 65535 * 65535) by (nonlinear_arith)
        requires
            w <= 65535,
            h <= 65535,
    ;
    let mut best: Option<(i64, Direction)> = None;
    let mut k: usize = 0;
    while k < candidates.len()
        invariant
            w == state.arena_w,
            h == state.arena_h,
            w as int * h as int <= 65535 * 65535,
            in_arena(head, w, h),
            candidates@ == candidate_list(current),
            candidates@.len() == 3,
            k <= 3,
            best matches Some(b) ==> safe_with(obstacles@, head, b.1, w, h) && candidates@.contains(
                b.1,
            ),
            best.is_none() ==> forall|j: int|
                0 <= j < k ==> !safe_with(obstacles@, head, #[trigger] candidates@[j], w, h),
            forall|q: Position| #[trigger] obstacles@.contains(q) <==> is_obstacle(*state, q),
            hard_scan(*state, head, current, k as int, best_view(best)) == hard_scan(*state, head, current, 0, None),
        decreases 3 - k,
    {
        let dir = candidates[k];
        assert(candidates@.contains(dir)) by {
            assert(candidates@[k as int] == dir);
        }
        match step(head, dir, w, h) {
            Some(new_head) => {
                if !contains_pos(obstacles, new_head) {
                    let open = flood_fill(state, new_head, obstacles);
                    let dist_food: usize = match nearest_food_distance(state, new_head, obstacles) {
                        Some(d) => d,
                        None => 1000,
                    };
                    let score: i64 = (open as i64) * 10 + (1000 - dist_food as i64);
                    let replace = match best {
                        None => true,
                        Some((bs, bd)) => {
                            if score > bs {
                                true
                            } else if score == bs {
                                if dir == current && bd != current {
                                    true
                                } else if bd == current {
                                    false
                                } else {
                                    rank(dir) < rank(bd)
                                }
                            } else {
                                false
                            }
                        },
                    };
                    assert(score as int == hard_score(*state, new_head));
                    assert(replace == hard_prefers(current, score as int, dir, best_view(best)));
                    if replace {
                        best = Some((score, dir));
                    }
                }
            },
            None => {},
        }
        k += 1;
    }
    match best {
        Some((_, d)) => SnakeInput { direction: d },
        None => SnakeInput { direction: current },
    }
}

pub(crate) fn find_snake(snakes: &Vec<Snake>, pid: PlayerId) -> (r: Option<usize>)
    ensures
        match r {
            Some(i) => i < snakes@.len() && snake_of(snakes@, pid) == Some(snakes@[i as int]),
            None => snake_of(snakes@, pid).is_none(),
        },
{
    let mut i: usize = 0;
    assert(snakes@.skip(0) =~= snakes@);
    while i < snakes.len()
        invariant
            i <= snakes@.len(),
            snake_of(snakes@, pid) == snake_of(snakes@.skip(i as int), pid),
        decreases snakes@.len() - i,
    {
        assert(snakes@.skip(i as int)[0] == snakes@[i as int]);
        if snakes[i].player_id == pid {
            return Some(i);
        }
        assert(snakes@.skip(i as int).drop_first() =~= snakes@.skip(i + 1));
        i += 1;
    }
    assert(snakes@.skip(i as int).len() == 0);
    None
}

/// The bot's move for `my_pid`'s snake: `easy_choice` or `hard_choice`.
/// It never reverses, moves to a safe cell whenever one of its
/// candidate moves is safe, and keeps its direction when none is. Without a
/// living snake it answers `Right`.
pub fn bot_move(state: &SnakeState, my_pid: PlayerId, difficulty: Difficulty) -> (r: SnakeInput)
    requires
        state.wf(),
        match snake_of(state.snakes@, my_pid) {
            Some(s) => s.alive ==> in_arena(s.body@[0], state.arena_w, state.arena_h),
            None => true,
        },
    ensures
        match snake_of(state.snakes@, my_pid) {
            Some(s) => if s.alive {
                let cur = s.direction;
                let head = s.body@[0];
                &&& is_candidate(cur, r.direction)
                &&& (exists|d: Direction|
                    is_candidate(cur, d) && #[trigger] safe_dir(*state, head, d)) ==> safe_dir(
                    *state,
                    head,
                    r.direction,
                )
                &&& (forall|d: Direction|
                    is_candidate(cur, d) ==> !#[trigger] safe_dir(*state, head, d)) ==> r.direction
                    == cur
                &&& difficulty == Difficulty::Easy ==> r.direction == easy_choice(*state, head, cur)
                &&& difficulty == Difficulty::Hard ==> r.direction == hard_choice(*state, head, cur)
            } else {
                r.direction == Direction::Right
            },
            None => r.direction == Direction::Right,
        },
{
    let idx = match find_snake(&state.snakes, my_pid) {
        Some(i) => i,
        None => {
            return SnakeInput { direction: Direction::Right };
        },
    };
    let me = &state.snakes[idx];
    if !me.alive {
        return SnakeInput { direction: Direction::Right };
    }
    let head = me.body[0];
    let current = me.direction;
    let candidates = candidate_vec(current);
    let obstacles = obstacle_cells(state);
    proof {
        lemma_candidate_list(current);
        assert forall|d: Direction| #[trigger] safe_dir(*state, head, d) == safe_with(
            obstacles@,
            head,
            d,
            state.arena_w,
            state.arena_h,
        ) by {
            match step_to(head, d, state.arena_w as int, state.arena_h as int) {
                Some(q) => {
                    assert(obstacles@.contains(q) == is_obstacle(*state, q));
                },
                None => {},
            }
        }
    }
    let r = match difficulty {
        Difficulty::Easy => bot_easy(state, head, current, &candidates, &obstacles),
        Difficulty::Hard => bot_hard(state, head, current, &candidates, &obstacles),
    };
    proof {
        if exists|d: Direction| is_candidate(current, d) && #[trigger] safe_dir(*state, head, d) {
            let d = choose|d: Direction| is_candidate(current, d) && #[trigger] safe_dir(*state, head, d);
            assert(candidates@.contains(d));
            let k = choose|k: int| 0 <= k < candidates@.len() && candidates@[k] == d;
            assert(safe_with(obstacles@, head, candidates@[k], state.arena_w, state.arena_h));
        }
        if forall|d: Direction| is_candidate(current, d) ==> !#[trigger] safe_dir(*state, head, d) {
            assert forall|k: int| 0 <= k < 3 implies !safe_with(
                obstacles@,
                head,
                #[trigger] candidates@[k],
                state.arena_w,
                state.arena_h,
            ) by {
                assert(candidates@.contains(candidates@[k]));
                assert(!safe_dir(*state, head, candidates@[k]));
            }
        }
        assert(safe_dir(*state, head, r.direction) == safe_with(
            obstacles@,
            head,
            r.direction,
            state.arena_w,
            state.arena_h,
        ));
    }
    r
}


/// Two snakes hold the same data.
pub open spec fn same_snake(a: Snake, b: Snake) -> bool {
    &&& a.player_id == b.player_id
    &&& a.body@ == b.body@
    &&& a.direction == b.direction
    &&& a.pending_direction == b.pending_direction
    &&& a.alive == b.alive
    &&& a.score == b.score
}

/// Two states hold the same data.
pub open spec fn same_state(a: SnakeState, b: SnakeState) -> bool {
    &&& a.arena_w == b.arena_w
    &&& a.arena_h == b.arena_h
    &&& a.snakes@.len() == b.snakes@.len()
    &&& forall|i: int| 0 <= i < a.snakes@.len() ==> same_snake(#[trigger] a.snakes@[i], b.snakes@[i])
    &&& a.food@ == b.food@
    &&& a.tick == b.tick
    &&& a.rng_seed == b.rng_seed
    &&& a.rng_state == b.rng_state
    &&& a.game_over == b.game_over
}

/// A state the engine can advance by one more tick and in which every
/// living head lies in the arena (what `tick` and `bot_move` need).
#[verifier::opaque]
pub open spec fn steppable(st: SnakeState) -> bool {
    &&& st.wf()
    &&& st.tick < u64::MAX
    &&& scores_bounded(st)
    &&& forall|i: int|
        0 <= i < st.snakes@.len() && (#[trigger] st.snakes@[i]).alive ==> in_arena(
            st.snakes@[i].body@[0],
            st.arena_w,
            st.arena_h,
        )
}

/// Whether `state` is `steppable`.
pub fn is_steppable(state: &SnakeState) -> (r: bool)
    ensures
        r == steppable(*state),
{
    reveal(steppable);
    if state.arena_w == 0 || state.arena_h == 0 || state.tick == u64::MAX {
        return false;
    }
    let mut i: usize = 0;
    while i < state.snakes.len()
        invariant
            i <= state.snakes@.len(),
            forall|j: int|
                0 <= j < i && (#[trigger] state.snakes@[j]).alive ==> state.snakes@[j].body@.len() > 0
                    && state.snakes@[j].score < u32::MAX && in_arena(
                    state.snakes@[j].body@[0],
                    state.arena_w,
                    state.arena_h,
                ),
        decreases state.snakes@.len() - i,
    {
        reveal(steppable);
        let s = &state.snakes[i];
        if s.alive {
            if s.body.len() == 0 || s.score == u32::MAX {
                return false;
            }
            let head = s.body[0];
            if !(head.x < state.arena_w && head.y < state.arena_h) {
                return false;
            }
        }
        i += 1;
    }
    true
}

/// The snake that `snake_of` finds is one of `snakes`.
pub proof fn lemma_snake_of_member(snakes: Seq<Snake>, pid: PlayerId)
    ensures
        snake_of(snakes, pid) matches Some(s) ==> exists|i: int| 0 <= i < snakes.len() && #[trigger] snakes[i] == s,
    decreases snakes.len(),
{
    if snakes.len() > 0 && snakes[0].player_id != pid {
        lemma_snake_of_member(snakes.drop_first(), pid);
        if let Some(s) = snake_of(snakes, pid) {
            let j = choose|j: int| 0 <= j < snakes.drop_first().len() && #[trigger] snakes.drop_first()[j] == s;
            assert(snakes[j + 1] == s);
        }
    } else if snakes.len() > 0 {
        assert(snakes[0] == snakes[0]);
    }
}

fn copy_food(v: &Vec<Position>) -> (r: Vec<Position>)
    ensures
        r@ == v@,
{
    let mut r: Vec<Position> = Vec::new();
    let mut i: usize = 0;
    while i < v.len()
        invariant
            i <= v@.len(),
            r@ == v@.subrange(0, i as int),
        decreases v@.len() - i,
    {
        r.push(v[i]);
        assert(v@.subrange(0, i + 1) =~= v@.subrange(0, i as int).push(v@[i as int]));
        i += 1;
    }
    assert(v@.subrange(0, v@.len() as int) =~= v@);
    r
}

impl SnakeEngine {
    /// A full copy of the state, for broadcasting.
    pub fn snapshot(state: &SnakeState) -> (r: SnakeState)
        ensures
            same_state(r, *state),
    {
        let mut snakes: Vec<Snake> = Vec::new();
        let mut i: usize = 0;
        while i < state.snakes.len()
            invariant
                i <= state.snakes@.len(),
                snakes@.len() == i,
                forall|a: int| 0 <= a < i ==> same_snake(#[trigger] snakes@[a], state.snakes@[a]),
            decreases state.snakes@.len() - i,
        {
            let s = &state.snakes[i];
            snakes.push(
                Snake {
                    player_id: s.player_id,
                    body: copy_body(&s.body),
                    direction: s.direction,
                    pending_direction: s.pending_direction,
                    alive: s.alive,
                    score: s.score,
                },
            );
            i += 1;
        }
        SnakeState {
            arena_w: state.arena_w,
            arena_h: state.arena_h,
            snakes,
            food: copy_food(&state.food),
            tick: state.tick,
            rng_seed: state.rng_seed,
            rng_state: state.rng_state,
            game_over: state.game_over,
        }
    }
}

// ---------------------------------------------------------------------------
// Laws
// ---------------------------------------------------------------------------

/// A snake never turns back on itself within a tick: whatever the inputs and
/// the buffered direction, the committed direction is not the reverse of the
/// current one.
pub proof fn law_no_reversal(s: Snake, inputs: Map<u128, SnakeInput>)
    ensures
        committed_dir(s, inputs) != opposite_of(s.direction),
{
}

/// A tick never brings a dead snake back, never changes whose snake is where,
/// and never lowers a score.
pub proof fn law_tick_monotone(st: SnakeState, inputs: Map<u128, SnakeInput>, i: int, t: Snake)
    requires
        0 <= i < st.snakes@.len(),
        snake_after(st, inputs, i, t),
    ensures
        !st.snakes@[i].alive ==> !t.alive,
        t.player_id == st.snakes@[i].player_id,
        t.score >= st.snakes@[i].score,
{
}

/// A surviving snake keeps its length, or grows by exactly one cell when it
/// eats; its new head is the planned one.
pub proof fn law_tick_length(st: SnakeState, inputs: Map<u128, SnakeInput>, i: int, t: Snake)
    requires
        0 <= i < st.snakes@.len(),
        st.wf(),
        snake_after(st, inputs, i, t),
        t.alive,
    ensures
        t.body@.len() == st.snakes@[i].body@.len() + if grows_from(st.food@, heads_of(st, inputs))[i] {
            1int
        } else {
            0int
        },
        Some(t.body@[0]) == heads_of(st, inputs)[i],
{
    let heads = heads_of(st, inputs);
    lemma_deaths_keep(
        st.snakes@,
        heads,
        grows_from(st.food@, heads),
        first_deaths(st.snakes@, heads),
        st.snakes@.len(),
    );
    assert(first_deaths(st.snakes@, heads)[i] ==> deaths_of(st, inputs)[i]);
}

/// Two snakes that survive a tick never move their heads to the same cell:
/// such a clash kills both.
pub proof fn lemma_survivors_apart(st: SnakeState, inputs: Map<u128, SnakeInput>, i: int, j: int)
    requires
        0 <= i < st.snakes@.len(),
        0 <= j < st.snakes@.len(),
        survives(st, inputs, i),
    ensures
        heads_of(st, inputs)[i] is Some,
        i != j ==> heads_of(st, inputs)[j] != heads_of(st, inputs)[i],
{
    let heads = heads_of(st, inputs);
    let first = first_deaths(st.snakes@, heads);
    lemma_deaths_keep(st.snakes@, heads, grows_from(st.food@, heads), first, st.snakes@.len());
    assert(!first[i]);
}

} // verus!
