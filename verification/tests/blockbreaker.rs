use game_center::blockbreaker::{
    age_bricks, alive_brick_count, brick_columns, gain_life, kill_brick, level_rows, lose_life,
    pick_bonus, roll_bonus_drop, BBDifficulty, BBInput, BonusKind, Brick, BRICK_DESTROY_FRAMES,
    MAX_LIVES,
};
use game_center::snake::lcg_next;

fn brick(x: u16, alive: bool, frames: u8) -> Brick {
    Brick { x, y: 2, w: 6, h: 2, color_idx: 1, alive, destroy_frames: frames }
}

#[test]
fn difficulty_tables() {
    assert_eq!(BBDifficulty::Easy.start_lives(), 3);
    assert_eq!(BBDifficulty::Hard.start_lives(), 3);
    assert_eq!(BBDifficulty::Hardcore.start_lives(), 1);
    assert_eq!(BBDifficulty::Easy.bonus_drop_pct(), 15);
    assert_eq!(BBDifficulty::Hard.bonus_drop_pct(), 8);
    assert_eq!(BBDifficulty::Hardcore.bonus_drop_pct(), 0);
}

#[test]
fn default_input_is_idle() {
    let i = BBInput::default();
    assert_eq!(i.dir, 0);
    assert!(!i.launch);
}

#[test]
fn pick_bonus_follows_the_draw() {
    for seed in 0u64..50 {
        let mut a = seed;
        let mut b = seed;
        let r = lcg_next(&mut b) % 100;
        let expected = if r < 40 {
            BonusKind::Enlarge
        } else if r < 70 {
            BonusKind::MultiBall
        } else if r < 95 {
            BonusKind::BlastBlock
        } else {
            BonusKind::ExtraLife
        };
        assert_eq!(pick_bonus(&mut a), expected);
        assert_eq!(a, b);
    }
}

#[test]
fn no_drop_without_chance() {
    let mut rng = 99u64;
    assert_eq!(roll_bonus_drop(&mut rng, 0), None);
    assert_eq!(rng, 99);
    let mut rng2 = 99u64;
    let mut probe = 99u64;
    let first = lcg_next(&mut probe) % 100;
    let got = roll_bonus_drop(&mut rng2, 100);
    assert!(first < 100);
    assert!(got.is_some());
    assert_eq!(got, Some(pick_bonus(&mut probe.clone())));
}

#[test]
fn count_and_age_bricks() {
    let mut bricks = vec![brick(0, true, 0), brick(6, false, 2), brick(12, false, 1), brick(18, false, 0)];
    assert_eq!(alive_brick_count(&bricks), 1);
    age_bricks(&mut bricks);
    assert_eq!(bricks.len(), 2);
    assert_eq!(bricks[0], brick(0, true, 0));
    assert_eq!(bricks[1], brick(6, false, 1));
    age_bricks(&mut bricks);
    assert_eq!(bricks, vec![brick(0, true, 0)]);
    assert_eq!(alive_brick_count(&bricks), 1);
}

#[test]
fn killing_a_brick_starts_its_fade() {
    let mut bricks = vec![brick(0, true, 0), brick(6, false, 0)];
    assert!(kill_brick(&mut bricks, 0));
    assert!(!bricks[0].alive);
    assert_eq!(bricks[0].destroy_frames, BRICK_DESTROY_FRAMES);
    assert!(!kill_brick(&mut bricks, 1));
    assert_eq!(bricks[1], brick(6, false, 0));
    assert_eq!(alive_brick_count(&bricks), 0);
}

#[test]
fn lives_accounting() {
    assert_eq!(gain_life(3), 4);
    assert_eq!(gain_life(MAX_LIVES - 1), MAX_LIVES);
    assert_eq!(gain_life(MAX_LIVES), MAX_LIVES);
    assert_eq!(lose_life(3), Some(2));
    assert_eq!(lose_life(1), None);
    assert_eq!(lose_life(0), None);
}

#[test]
fn grid_dimensions() {
    assert_eq!(brick_columns(78), 13);
    assert_eq!(brick_columns(10), 10);
    assert_eq!(brick_columns(61), 10);
    assert_eq!(level_rows(1), 4);
    assert_eq!(level_rows(5), 8);
    assert_eq!(level_rows(6), 4);
}
