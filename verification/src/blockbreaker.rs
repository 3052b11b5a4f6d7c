//! Block Breaker: the integer side of the solo arcade game — difficulty
//! tables, brick bookkeeping, bonus draws and life accounting. Ball and
//! paddle motion are continuous and live with the client.
use vstd::prelude::*;
use crate::snake::{lcg_next, lcg_step};

verus! {

pub const DEFAULT_ARENA_W: u16 = 78;
pub const DEFAULT_ARENA_H: u16 = 38;
pub const MIN_ARENA_W: u16 = 60;
pub const MIN_ARENA_H: u16 = 30;
pub const BRICK_W: u16 = 6;
pub const BRICK_H: u16 = 2;
pub const BRICK_TOP_OFFSET: u16 = 2;
pub const BRICK_MAX_ROWS: u16 = 8;
pub const PADDLE_INERTIA_DECAY_MS: u64 = 60;
pub const MAX_BALLS: usize = 5;
pub const MAX_LIVES: u8 = 5;
pub const BRICK_DESTROY_FRAMES: u8 = 3;
pub const BRICK_FX_FRAMES: u8 = 2;
pub const PADDLE_FLASH_FRAMES: u8 = 2;
pub const SCORE_PER_BRICK: u64 = 10;
pub const SCORE_PER_LEVEL: u64 = 250;

#[derive(Debug, Clone, Copy, PartialEq, Eq, Structural)]
pub enum BBDifficulty {
    Easy,
    Hard,
    Hardcore,
}

impl BBDifficulty {
    /// Lives at the start of a game.
    pub fn start_lives(self) -> (n: u8)
        ensures
            n == (if self == BBDifficulty::Hardcore { 1u8 } else { 3u8 }),
    {
        match self {
            BBDifficulty::Hardcore => 1,
            _ => 3,
        }
    }

    /// Whole-percent chance that a destroyed brick drops a bonus.
    pub fn bonus_drop_pct(self) -> (n: u8)
        ensures
            n == match self {
                BBDifficulty::Easy => 15u8,
                BBDifficulty::Hard => 8u8,
                BBDifficulty::Hardcore => 0u8,
            },
    {
        match self {
            BBDifficulty::Easy => 15,
            BBDifficulty::Hard => 8,
            BBDifficulty::Hardcore => 0,
        }
    }
}

#[derive(Debug, Clone, Copy, PartialEq, Eq, Structural)]
pub enum BonusKind {
    Enlarge,
    MultiBall,
    BlastBlock,
    ExtraLife,
}

/// A brick: a rectangle on the grid. A brick that was just hit stays in the
/// list, dead, for `destroy_frames` more frames.
#[derive(Debug, Clone, Copy, PartialEq, Eq, Structural)]
pub struct Brick {
    pub x: u16,
    pub y: u16,
    pub w: u16,
    pub h: u16,
    pub color_idx: u8,
    pub alive: bool,
    pub destroy_frames: u8,
}

/// One frame of player input: `dir` is -1 (left), 0 or +1 (right).
#[derive(Debug, Clone, Copy, PartialEq, Eq, Structural)]
pub struct BBInput {
    pub dir: i32,
    pub launch: bool,
}

impl Default for BBInput {
    fn default() -> (r: Self)
        ensures
            r.dir == 0,
            !r.launch,
    {
        BBInput { dir: 0, launch: false }
    }
}

/// The bonus that a draw `r` in `0..100` selects: enlarge 40%, multi-ball
/// 30%, blast 25%, extra life 5%.
pub open spec fn bonus_for(r: int) -> BonusKind {
    if r < 40 {
        BonusKind::Enlarge
    } else if r < 70 {
        BonusKind::MultiBall
    } else if r < 95 {
        BonusKind::BlastBlock
    } else {
        BonusKind::ExtraLife
    }
}

/// Draws a bonus kind from the generator.
pub fn pick_bonus(rng: &mut u64) -> (k: BonusKind)
    ensures
        *final(rng) == lcg_step(*old(rng)),
        k == bonus_for((lcg_step(*old(rng)) % 100) as int),
{
    let r = (lcg_next(rng) % 100) as u8;
    if r < 40 {
        BonusKind::Enlarge
    } else if r < 70 {
        BonusKind::MultiBall
    } else if r < 95 {
        BonusKind::BlastBlock
    } else {
        BonusKind::ExtraLife
    }
}

/// Whether a destroyed brick drops a bonus, and which: with a drop chance of
/// `pct` percent, one draw decides the drop and a second the kind. A chance of
/// zero draws nothing.
pub fn roll_bonus_drop(rng: &mut u64, pct: u8) -> (k: Option<BonusKind>)
    ensures
        pct == 0 ==> k is None && *final(rng) == *old(rng),
        pct > 0 && lcg_step(*old(rng)) % 100 >= pct ==> k is None && *final(rng) == lcg_step(
            *old(rng),
        ),
        pct > 0 && lcg_step(*old(rng)) % 100 < pct ==> k == Some(
            bonus_for((lcg_step(lcg_step(*old(rng))) % 100) as int),
        ) && *final(rng) == lcg_step(lcg_step(*old(rng))),
{
    if pct == 0 {
        return None;
    }
    let r = (lcg_next(rng) % 100) as u8;
    if r < pct {
        Some(pick_bonus(rng))
    } else {
        None
    }
}

/// Number of live bricks.
pub open spec fn alive_count(bricks: Seq<Brick>) -> nat
    decreases bricks.len(),
{
    if bricks.len() == 0 {
        0
    } else {
        alive_count(bricks.drop_last()) + if bricks.last().alive { 1nat } else { 0nat }
    }
}

proof fn lemma_alive_count_le(bricks: Seq<Brick>)
    ensures
        alive_count(bricks) <= bricks.len(),
    decreases bricks.len(),
{
    if bricks.len() > 0 {
        lemma_alive_count_le(bricks.drop_last());
    }
}

/// Counts the live bricks.
pub fn alive_brick_count(bricks: &[Brick]) -> (n: usize)
    ensures
        n == alive_count(bricks@),
{
    let mut n: usize = 0;
    let mut i: usize = 0;
    while i < bricks.len()
        invariant
            i <= bricks@.len(),
            n == alive_count(bricks@.subrange(0, i as int)),
        decreases bricks@.len() - i,
    {
        proof {
            assert(bricks@.subrange(0, i + 1).drop_last() =~= bricks@.subrange(0, i as int));
            lemma_alive_count_le(bricks@.subrange(0, i as int));
        }
        if bricks[i].alive {
            n = n + 1;
        }
        i = i + 1;
    }
    assert(bricks@.subrange(0, i as int) =~= bricks@);
    n
}

/// A brick after one frame of ageing: its fade counter counts down to zero.
pub open spec fn aged(b: Brick) -> Brick {
    Brick { destroy_frames: if b.destroy_frames > 0 { (b.destroy_frames - 1) as u8 } else { 0u8 }, ..b }
}

/// Whether a brick is still drawn: alive, or fading.
pub open spec fn still_shown(b: Brick) -> bool {
    b.alive || b.destroy_frames > 0
}

/// The bricks after one frame of ageing, in order: each counter steps down,
/// and the bricks that are dead and done fading leave.
pub open spec fn aged_bricks(bricks: Seq<Brick>) -> Seq<Brick>
    decreases bricks.len(),
{
    if bricks.len() == 0 {
        Seq::empty()
    } else {
        let rest = aged_bricks(bricks.drop_last());
        let b = aged(bricks.last());
        if still_shown(b) {
            rest.push(b)
        } else {
            rest
        }
    }
}

/// Ages every brick by one frame and drops those no longer shown.
pub fn age_bricks(bricks: &mut Vec<Brick>)
    ensures
        final(bricks)@ == aged_bricks(old(bricks)@),
{
    let mut out: Vec<Brick> = Vec::new();
    let mut i: usize = 0;
    while i < bricks.len()
        invariant
            i <= bricks@.len(),
            out@ == aged_bricks(bricks@.subrange(0, i as int)),
        decreases bricks@.len() - i,
    {
        proof {
            assert(bricks@.subrange(0, i + 1).drop_last() =~= bricks@.subrange(0, i as int));
        }
        let b = bricks[i];
        let f: u8 = if b.destroy_frames > 0 { b.destroy_frames - 1 } else { 0 };
        let nb = Brick { destroy_frames: f, ..b };
        if nb.alive || nb.destroy_frames > 0 {
            out.push(nb);
        }
        i = i + 1;
    }
    assert(bricks@.subrange(0, i as int) =~= bricks@);
    *bricks = out;
}

/// Marks brick `idx` as hit: it dies and starts fading. Returns whether it
/// was alive (a dead brick is left as it is).
pub fn kill_brick(bricks: &mut Vec<Brick>, idx: usize) -> (was_alive: bool)
    requires
        idx < old(bricks)@.len(),
    ensures
        was_alive == old(bricks)@[idx as int].alive,
        was_alive ==> final(bricks)@ == old(bricks)@.update(
            idx as int,
            Brick { alive: false, destroy_frames: BRICK_DESTROY_FRAMES, ..old(bricks)@[idx as int] },
        ),
        !was_alive ==> final(bricks)@ == old(bricks)@,
{
    let b = bricks[idx];
    if !b.alive {
        return false;
    }
    bricks.set(idx, Brick { alive: false, destroy_frames: BRICK_DESTROY_FRAMES, ..b });
    true
}

/// Lives after an extra-life bonus: one more, never above `MAX_LIVES`.
pub fn gain_life(lives: u8) -> (n: u8)
    ensures
        n == (if lives + 1 < MAX_LIVES { lives + 1 } else { MAX_LIVES as int }),
{
    if lives < MAX_LIVES - 1 {
        lives + 1
    } else {
        MAX_LIVES
    }
}

/// What losing the last ball costs: `None` when the game is over (no life
/// left to spend), else the remaining lives.
pub fn lose_life(lives: u8) -> (r: Option<u8>)
    ensures
        lives <= 1 ==> r is None,
        lives > 1 ==> r == Some((lives - 1) as u8),
{
    if lives <= 1 {
        None
    } else {
        Some(lives - 1)
    }
}

/// Brick columns that fit in an arena `arena_w` wide (at least one), after
/// the arena is widened to `MIN_ARENA_W`.
pub fn brick_columns(arena_w: u16) -> (n: u16)
    ensures
        n == (if arena_w < MIN_ARENA_W { MIN_ARENA_W / BRICK_W } else if arena_w / BRICK_W >= 1 {
            arena_w / BRICK_W
        } else {
            1
        }),
{
    let w = if arena_w < MIN_ARENA_W { MIN_ARENA_W } else { arena_w };
    let c = w / BRICK_W;
    if c >= 1 { c } else { 1 }
}

/// Rows of bricks on `level` (counted from 1): four to eight, cycling.
pub fn level_rows(level: u32) -> (n: u16)
    requires
        level >= 1,
    ensures
        n == 4 + (level - 1) % 5,
{
    (4 + ((level - 1) % 5)) as u16
}

/// The bonus draws select each kind on the stated share of the hundred
/// values a draw can take.
pub proof fn law_bonus_shares()
    ensures
        forall|r: int| 0 <= r < 40 ==> bonus_for(r) == BonusKind::Enlarge,
        forall|r: int| 40 <= r < 70 ==> bonus_for(r) == BonusKind::MultiBall,
        forall|r: int| 70 <= r < 95 ==> bonus_for(r) == BonusKind::BlastBlock,
        forall|r: int| 95 <= r < 100 ==> bonus_for(r) == BonusKind::ExtraLife,
{
}

/// Ageing never adds bricks, keeps every live brick, and leaves no brick that
/// is both dead and done fading.
pub proof fn law_ageing_keeps_live_bricks(bricks: Seq<Brick>)
    ensures
        aged_bricks(bricks).len() <= bricks.len(),
        alive_count(aged_bricks(bricks)) == alive_count(bricks),
        forall|i: int| 0 <= i < aged_bricks(bricks).len() ==> still_shown(#[trigger] aged_bricks(bricks)[i]),
    decreases bricks.len(),
{
    if bricks.len() > 0 {
        law_ageing_keeps_live_bricks(bricks.drop_last());
        let rest = aged_bricks(bricks.drop_last());
        let b = aged(bricks.last());
        if still_shown(b) {
            assert(rest.push(b).drop_last() =~= rest);
        }
    }
}

} // verus!
