use std::collections::HashMap;
use std::collections::VecDeque;

use game_center::snake::{
    bot_move, seed_from_players, step, Direction, Position, Snake, SnakeEngine, SnakeInput, SnakeState, ARENA_H,
    ARENA_W, INITIAL_FOOD,
};
use game_center::types::{Difficulty, GameOutcome, GameSettings, PlayerId};

fn two_players() -> (Vec<PlayerId>, PlayerId, PlayerId) {
    let a = PlayerId::new();
    let b = PlayerId::new();
    (vec![a, b], a, b)
}

fn settings_with_seed(seed: u64) -> GameSettings {
    GameSettings {
        seed: Some(seed),
        ..GameSettings::default()
    }
}

#[test]
fn initial_state_deterministic_with_seed() {
    let (players, _, _) = two_players();
    let s1 = SnakeEngine::initial_state(&players, &settings_with_seed(42));
    let s2 = SnakeEngine::initial_state(&players, &settings_with_seed(42));
    assert_eq!(s1.food, s2.food);
    assert_eq!(s1.rng_seed, s2.rng_seed);
    assert_eq!(s1.rng_state, s2.rng_state);
    assert_eq!(s1.snakes.len(), 2);
    assert_eq!(s1.food.len(), INITIAL_FOOD);
}

#[test]
fn cannot_reverse_180_within_one_tick() {
    let (players, a, _) = two_players();
    let mut state = SnakeEngine::initial_state(&players, &settings_with_seed(1));
    // Snake 0 starts facing Right. Try to reverse to Left.
    let mut inputs = HashMap::new();
    inputs.insert(a.0, SnakeInput {
            direction: Direction::Left,
        });
    SnakeEngine::tick(&mut state, &inputs);
    assert_eq!(state.snakes[0].direction, Direction::Right);
    assert!(state.snakes[0].alive);
}

#[test]
fn wall_collision_kills() {
    let (players, a, _) = two_players();
    let mut state = SnakeEngine::initial_state(&players, &settings_with_seed(7));
    // Walk snake 0 up until it hits the top wall.
    let mut inputs = HashMap::new();
    inputs.insert(a.0, SnakeInput {
            direction: Direction::Up,
        });
    for _ in 0..ARENA_H + 2 {
        SnakeEngine::tick(&mut state, &inputs);
        if !state.snakes[0].alive {
            break;
        }
        inputs.clear();
        inputs.insert(a.0, SnakeInput {
                direction: Direction::Up,
            });
    }
    assert!(!state.snakes[0].alive, "snake should have hit the wall");
}

#[test]
fn self_collision_kills() {
    // Build a tight loop manually: length-5 snake that turns into its own body.
    let pid = PlayerId::new();
    let body: VecDeque<Position> = [
        Position { x: 5, y: 5 },
        Position { x: 5, y: 6 },
        Position { x: 6, y: 6 },
        Position { x: 6, y: 5 },
        Position { x: 7, y: 5 },
    ]
    .into_iter()
    .collect();
    let snake = Snake {
        player_id: pid,
        body,
        direction: Direction::Up,
        pending_direction: None,
        alive: true,
        score: 0,
    };
    let mut state = SnakeState {
        arena_w: ARENA_W,
        arena_h: ARENA_H,
        snakes: vec![snake],
        food: Vec::new(),
        tick: 0,
        rng_seed: 1,
        rng_state: 1,
        game_over: None,
    };
    // Head (5,5) facing Up. Force Right -> new head (6,5) which is body cell.
    let mut inputs = HashMap::new();
    inputs.insert(pid.0, SnakeInput {
            direction: Direction::Right,
        });
    SnakeEngine::tick(&mut state, &inputs);
    assert!(!state.snakes[0].alive);
}

#[test]
fn head_on_collision_both_die() {
    let a = PlayerId::new();
    let b = PlayerId::new();
    // Two snakes one step apart, moving toward each other.
    let snake_a = Snake {
        player_id: a,
        body: [Position { x: 10, y: 10 }, Position { x: 9, y: 10 }]
            .into_iter()
            .collect(),
        direction: Direction::Right,
        pending_direction: None,
        alive: true,
        score: 0,
    };
    let snake_b = Snake {
        player_id: b,
        body: [Position { x: 12, y: 10 }, Position { x: 13, y: 10 }]
            .into_iter()
            .collect(),
        direction: Direction::Left,
        pending_direction: None,
        alive: true,
        score: 0,
    };
    let mut state = SnakeState {
        arena_w: ARENA_W,
        arena_h: ARENA_H,
        snakes: vec![snake_a, snake_b],
        food: Vec::new(),
        tick: 0,
        rng_seed: 1,
        rng_state: 1,
        game_over: None,
    };
    SnakeEngine::tick(&mut state, &HashMap::new());
    assert!(!state.snakes[0].alive);
    assert!(!state.snakes[1].alive);
    assert!(matches!(state.game_over, Some(GameOutcome::Draw)));
}

#[test]
fn food_growth_extends_and_respawns() {
    let pid = PlayerId::new();
    let snake = Snake {
        player_id: pid,
        body: [Position { x: 5, y: 5 }, Position { x: 4, y: 5 }]
            .into_iter()
            .collect(),
        direction: Direction::Right,
        pending_direction: None,
        alive: true,
        score: 0,
    };
    let food = Position { x: 6, y: 5 };
    let mut state = SnakeState {
        arena_w: ARENA_W,
        arena_h: ARENA_H,
        snakes: vec![snake],
        food: vec![food],
        tick: 0,
        rng_seed: 123,
        rng_state: 123,
        game_over: None,
    };
    let delta = SnakeEngine::tick(&mut state, &HashMap::new());
    assert_eq!(state.snakes[0].body.len(), 3, "snake should have grown");
    assert_eq!(state.snakes[0].score, 1);
    assert!(delta.grew.contains(&pid));
    assert_eq!(delta.eaten_food, vec![food]);
    assert_eq!(delta.new_food.len(), 1);
    assert_eq!(state.food.len(), 1);
}

#[test]
fn bot_never_returns_reversal() {
    let (players, a, _) = two_players();
    let state = SnakeEngine::initial_state(&players, &settings_with_seed(9));
    let current = state.snakes[0].direction;
    for diff in [Difficulty::Easy, Difficulty::Hard] {
        let mv = bot_move(&state, a, diff);
        assert_ne!(mv.direction, current.opposite(), "{:?}", diff);
    }
}

#[test]
fn bot_avoids_immediate_wall() {
    // Put a lone snake one cell from the right wall, facing Right.
    let pid = PlayerId::new();
    let snake = Snake {
        player_id: pid,
        body: [
            Position {
                x: ARENA_W - 1,
                y: 5,
            },
            Position {
                x: ARENA_W - 2,
                y: 5,
            },
        ]
        .into_iter()
        .collect(),
        direction: Direction::Right,
        pending_direction: None,
        alive: true,
        score: 0,
    };
    let state = SnakeState {
        arena_w: ARENA_W,
        arena_h: ARENA_H,
        snakes: vec![snake],
        food: vec![Position { x: 0, y: 5 }],
        tick: 0,
        rng_seed: 1,
        rng_state: 1,
        game_over: None,
    };
    for diff in [Difficulty::Easy, Difficulty::Hard] {
        let mv = bot_move(&state, pid, diff);
        assert_ne!(
            mv.direction,
            Direction::Right,
            "bot walked into wall ({:?})",
            diff
        );
        assert_ne!(mv.direction, Direction::Left, "bot reversed ({:?})", diff);
    }
}

#[test]
fn step_stays_inside_the_arena() {
    let p = Position { x: 0, y: 0 };
    assert_eq!(step(p, Direction::Up, ARENA_W, ARENA_H), None);
    assert_eq!(step(p, Direction::Left, ARENA_W, ARENA_H), None);
    assert_eq!(
        step(p, Direction::Down, ARENA_W, ARENA_H),
        Some(Position { x: 0, y: 1 })
    );
    let q = Position { x: ARENA_W - 1, y: ARENA_H - 1 };
    assert_eq!(step(q, Direction::Right, ARENA_W, ARENA_H), None);
    assert_eq!(step(q, Direction::Down, ARENA_W, ARENA_H), None);
    assert_eq!(
        step(q, Direction::Left, ARENA_W, ARENA_H),
        Some(Position { x: ARENA_W - 2, y: ARENA_H - 1 })
    );
}

#[test]
fn opposite_directions() {
    assert_eq!(Direction::Up.opposite(), Direction::Down);
    assert_eq!(Direction::Down.opposite(), Direction::Up);
    assert_eq!(Direction::Left.opposite(), Direction::Right);
    assert_eq!(Direction::Right.opposite(), Direction::Left);
}

#[test]
fn seed_from_players_is_stable_and_nonzero() {
    let a = PlayerId(7);
    let b = PlayerId(9);
    let s1 = seed_from_players(&[a, b]);
    let s2 = seed_from_players(&[a, b]);
    assert_eq!(s1, s2);
    assert_ne!(s1, 0);
    let (players, _, _) = two_players();
    let st = SnakeEngine::initial_state(&players, &GameSettings::default());
    assert_ne!(st.rng_seed, 0);
    assert_eq!(st.food.len(), INITIAL_FOOD);
}

#[test]
fn tick_moves_every_live_snake_one_cell() {
    let (players, a, b) = two_players();
    let mut state = SnakeEngine::initial_state(&players, &settings_with_seed(5));
    let head_a = state.snakes[0].body[0];
    let len_a = state.snakes[0].body.len();
    let delta = SnakeEngine::tick(&mut state, &HashMap::new());
    assert_eq!(delta.tick, 1);
    assert_eq!(state.tick, 1);
    assert!(state.snakes[0].alive);
    assert_eq!(
        state.snakes[0].body[0],
        Position { x: head_a.x + 1, y: head_a.y }
    );
    assert!(state.snakes[0].body.len() == len_a || state.snakes[0].body.len() == len_a + 1);
    assert!(delta.moves.iter().any(|(p, _)| *p == a));
    assert!(delta.moves.iter().any(|(p, _)| *p == b));
    assert!(SnakeEngine::is_terminal(&state).is_none());
}

#[test]
fn last_snake_standing_wins() {
    let a = PlayerId::new();
    let b = PlayerId::new();
    let alive = Snake {
        player_id: a,
        body: [Position { x: 3, y: 3 }, Position { x: 2, y: 3 }]
            .into_iter()
            .collect(),
        direction: Direction::Right,
        pending_direction: None,
        alive: true,
        score: 0,
    };
    let doomed = Snake {
        player_id: b,
        body: [Position { x: 0, y: 10 }, Position { x: 1, y: 10 }]
            .into_iter()
            .collect(),
        direction: Direction::Left,
        pending_direction: None,
        alive: true,
        score: 0,
    };
    let mut state = SnakeState {
        arena_w: ARENA_W,
        arena_h: ARENA_H,
        snakes: vec![alive, doomed],
        food: Vec::new(),
        tick: 0,
        rng_seed: 1,
        rng_state: 1,
        game_over: None,
    };
    let delta = SnakeEngine::tick(&mut state, &HashMap::new());
    assert_eq!(delta.deaths, vec![b]);
    assert_eq!(state.game_over, Some(GameOutcome::Win(a)));
    assert_eq!(delta.game_over, Some(GameOutcome::Win(a)));
    let _: VecDeque<Position> = state.snakes[0].body.clone();
}

#[test]
fn tick_growth_matches_reported_growth() {
    let a = PlayerId(1);
    let b = PlayerId(2);
    let mk = |pid: PlayerId, cells: &[(u16, u16)], dir: Direction| Snake {
        player_id: pid,
        body: cells.iter().map(|&(x, y)| Position { x, y }).collect(),
        direction: dir,
        pending_direction: None,
        alive: true,
        score: 0,
    };
    let food = Position { x: 6, y: 5 };
    let mut state = SnakeState {
        arena_w: ARENA_W,
        arena_h: ARENA_H,
        snakes: vec![
            mk(a, &[(5, 5), (4, 5), (3, 5)], Direction::Right),
            mk(b, &[(5, 10), (4, 10)], Direction::Right),
        ],
        food: vec![food],
        tick: 7,
        rng_seed: 5,
        rng_state: 5,
        game_over: None,
    };
    let before = state.clone();
    let delta = SnakeEngine::tick(&mut state, &HashMap::new());
    assert_eq!(state.tick, 8);
    assert_eq!(delta.tick, 8);
    assert_eq!(delta.eaten_food.len(), delta.grew.len());
    assert_eq!(delta.grew, vec![a]);
    for (old, new) in before.snakes.iter().zip(state.snakes.iter()) {
        assert!(new.alive);
        let grown = if delta.grew.contains(&old.player_id) { 1 } else { 0 };
        assert_eq!(new.body.len(), old.body.len() + grown);
        assert_eq!(new.body[1], old.body[0]);
    }
}
