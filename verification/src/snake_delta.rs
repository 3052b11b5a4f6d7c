//! Replaying a server's Snake tick (`SnakeDelta`) on a client's copy of the
//! game.
use vstd::prelude::*;

use crate::snake::{
    law_no_reversal, opposite_of, lemma_survivors_apart, deaths_list, deaths_of, eats, first_index_of, food_after, grew_list, grows_from, heads_of, moves_list,
    respawn, scores_bounded, snake_after, survives, ticked, Position, Snake, SnakeDelta, SnakeInput,
    SnakeState,
};
use crate::types::PlayerId;

verus! {

/// The index of the first `x` in `s`, or -1 when there is none.
pub open spec fn first_of<A>(s: Seq<A>, x: A) -> int {
    if exists|k: int| 0 <= k < s.len() && s[k] == x && forall|j: int| 0 <= j < k ==> s[j] != x {
        choose|k: int| 0 <= k < s.len() && s[k] == x && forall|j: int| 0 <= j < k ==> s[j] != x
    } else {
        -1
    }
}

/// The player of each snake.
pub open spec fn ids_of(snakes: Seq<Snake>) -> Seq<PlayerId> {
    snakes.map_values(|s: Snake| s.player_id)
}

/// The body of each snake.
pub open spec fn bodies_of(snakes: Seq<Snake>) -> Seq<Seq<Position>> {
    snakes.map_values(|s: Snake| s.body@)
}

/// The score of each snake.
pub open spec fn scores_of(snakes: Seq<Snake>) -> Seq<u32> {
    snakes.map_values(|s: Snake| s.score)
}

/// Bodies after the head moves of `moves`, in order: each goes to the first
/// snake of its player, whose tail stays only when the player grew.
pub open spec fn moved_bodies(
    bodies: Seq<Seq<Position>>,
    ids: Seq<PlayerId>,
    moves: Seq<(PlayerId, Position)>,
    grew: Seq<PlayerId>,
) -> Seq<Seq<Position>>
    decreases moves.len(),
{
    if moves.len() == 0 {
        bodies
    } else {
        let prev = moved_bodies(bodies, ids, moves.drop_last(), grew);
        let m = moves.last();
        let i = first_of(ids, m.0);
        if 0 <= i < prev.len() {
            let b = seq![m.1] + prev[i];
            prev.update(
                i,
                if grew.contains(m.0) {
                    b
                } else {
                    b.drop_last()
                },
            )
        } else {
            prev
        }
    }
}

/// Scores after the moves of `moves`: a player that grew scores one more
/// (wrapping), once per move.
pub open spec fn moved_scores(
    scores: Seq<u32>,
    ids: Seq<PlayerId>,
    moves: Seq<(PlayerId, Position)>,
    grew: Seq<PlayerId>,
) -> Seq<u32>
    decreases moves.len(),
{
    if moves.len() == 0 {
        scores
    } else {
        let prev = moved_scores(scores, ids, moves.drop_last(), grew);
        let m = moves.last();
        let i = first_of(ids, m.0);
        if 0 <= i < prev.len() && grew.contains(m.0) {
            prev.update(
                i,
                if prev[i] == u32::MAX {
                    0u32
                } else {
                    (prev[i] + 1) as u32
                },
            )
        } else {
            prev
        }
    }
}

/// Food after removing, in order, the first occurrence of each eaten item.
pub open spec fn without_eaten(food: Seq<Position>, eaten: Seq<Position>) -> Seq<Position>
    decreases eaten.len(),
{
    if eaten.len() == 0 {
        food
    } else {
        let prev = without_eaten(food, eaten.drop_last());
        let i = first_of(prev, eaten.last());
        if 0 <= i < prev.len() {
            prev.remove(i)
        } else {
            prev
        }
    }
}

/// Snake `i` dies when some death names its player and it is that player's
/// first snake.
pub open spec fn killed(ids: Seq<PlayerId>, deaths: Seq<PlayerId>, i: int) -> bool {
    exists|k: int| 0 <= k < deaths.len() && first_of(ids, #[trigger] deaths[k]) == i
}

/// `s1` is `s0` with `d` replayed: heads, growth and scores from the moves,
/// deaths, food eaten and spawned, the tick and, when given, the outcome.
pub open spec fn replayed(s0: SnakeState, d: SnakeDelta, s1: SnakeState) -> bool {
    let ids = ids_of(s0.snakes@);
    let n = s0.snakes@.len();
    &&& s1.arena_w == s0.arena_w
    &&& s1.arena_h == s0.arena_h
    &&& s1.rng_seed == s0.rng_seed
    &&& s1.rng_state == s0.rng_state
    &&& s1.snakes@.len() == n
    &&& forall|i: int|
        0 <= i < n ==> {
            let a = s0.snakes@[i];
            let b = #[trigger] s1.snakes@[i];
            &&& b.player_id == a.player_id
            &&& b.direction == a.direction
            &&& b.pending_direction == a.pending_direction
            &&& b.alive == (a.alive && !killed(ids, d.deaths@, i))
            &&& b.body@ == moved_bodies(bodies_of(s0.snakes@), ids, d.moves@, d.grew@)[i]
            &&& b.score == moved_scores(scores_of(s0.snakes@), ids, d.moves@, d.grew@)[i]
        }
    &&& s1.food@ == without_eaten(s0.food@, d.eaten_food@) + d.new_food@
    &&& s1.tick == d.tick
    &&& s1.game_over == match d.game_over {
        Some(o) => Some(o),
        None => s0.game_over,
    }
}

proof fn lemma_moved_len(
    bodies: Seq<Seq<Position>>,
    scores: Seq<u32>,
    ids: Seq<PlayerId>,
    moves: Seq<(PlayerId, Position)>,
    grew: Seq<PlayerId>,
)
    ensures
        moved_bodies(bodies, ids, moves, grew).len() == bodies.len(),
        moved_scores(scores, ids, moves, grew).len() == scores.len(),
    decreases moves.len(),
{
    if moves.len() > 0 {
        lemma_moved_len(bodies, scores, ids, moves.drop_last(), grew);
    }
}

/// The index of the first snake of `pid`.
fn find_first_snake(snakes: &Vec<Snake>, pid: PlayerId) -> (r: Option<usize>)
    ensures
        match r {
            Some(i) => i < snakes@.len() && first_of(ids_of(snakes@), pid) == i,
            None => first_of(ids_of(snakes@), pid) == -1,
        },
{
    let ghost ids = ids_of(snakes@);
    let mut i: usize = 0;
    while i < snakes.len()
        invariant
            i <= snakes@.len(),
            ids == ids_of(snakes@),
            forall|j: int| 0 <= j < i ==> ids[j] != pid,
        decreases snakes@.len() - i,
    {
        if snakes[i].player_id == pid {
            assert(ids[i as int] == pid);
            return Some(i);
        }
        i += 1;
    }
    None
}

/// The index of the first `p` in `food`.
fn find_first_food(food: &Vec<Position>, p: Position) -> (r: Option<usize>)
    ensures
        match r {
            Some(i) => i < food@.len() && first_of(food@, p) == i,
            None => first_of(food@, p) == -1,
        },
{
    let mut i: usize = 0;
    while i < food.len()
        invariant
            i <= food@.len(),
            forall|j: int| 0 <= j < i ==> food@[j] != p,
        decreases food@.len() - i,
    {
        if food[i] == p {
            return Some(i);
        }
        i += 1;
    }
    None
}

/// Whether `pid` is among `ids`.
fn has_player(ids: &Vec<PlayerId>, pid: PlayerId) -> (r: bool)
    ensures
        r == ids@.contains(pid),
{
    let mut i: usize = 0;
    while i < ids.len()
        invariant
            i <= ids@.len(),
            forall|j: int| 0 <= j < i ==> ids@[j] != pid,
        decreases ids@.len() - i,
    {
        if ids[i] == pid {
            return true;
        }
        i += 1;
    }
    false
}

/// Applies the head moves of `d` (with growth and scores).
fn replay_moves(snakes: &mut Vec<Snake>, d: &SnakeDelta)
    ensures
        final(snakes)@.len() == old(snakes)@.len(),
        forall|i: int|
            0 <= i < old(snakes)@.len() ==> {
                let a = old(snakes)@[i];
                let b = #[trigger] final(snakes)@[i];
                &&& b.player_id == a.player_id
                &&& b.direction == a.direction
                &&& b.pending_direction == a.pending_direction
                &&& b.alive == a.alive
                &&& b.body@ == moved_bodies(bodies_of(old(snakes)@), ids_of(old(snakes)@), d.moves@, d.grew@)[i]
                &&& b.score == moved_scores(scores_of(old(snakes)@), ids_of(old(snakes)@), d.moves@, d.grew@)[i]
            },
{
    let ghost s0 = snakes@;
    let ghost ids = ids_of(s0);
    let ghost n = s0.len();
    let mut k: usize = 0;
    proof {
        assert(d.moves@.take(0) =~= Seq::<(PlayerId, Position)>::empty());
        assert(moved_bodies(bodies_of(s0), ids, d.moves@.take(0), d.grew@) == bodies_of(s0));
        assert(moved_scores(scores_of(s0), ids, d.moves@.take(0), d.grew@) == scores_of(s0));
    }
    while k < d.moves.len()
        invariant
            k <= d.moves@.len(),
            n == s0.len(),
            ids == ids_of(s0),
            snakes@.len() == n,
            ids_of(snakes@) == ids,
            forall|i: int|
                0 <= i < n ==> {
                    let a = s0[i];
                    let b = #[trigger] snakes@[i];
                    &&& b.player_id == a.player_id
                    &&& b.direction == a.direction
                    &&& b.pending_direction == a.pending_direction
                    &&& b.alive == a.alive
                    &&& b.body@ == moved_bodies(bodies_of(s0), ids, d.moves@.take(k as int), d.grew@)[i]
                    &&& b.score == moved_scores(scores_of(s0), ids, d.moves@.take(k as int), d.grew@)[i]
                },
        decreases d.moves@.len() - k,
    {
        let (pid, head) = d.moves[k];
        let ghost before = snakes@;
        let ghost prev_b = moved_bodies(bodies_of(s0), ids, d.moves@.take(k as int), d.grew@);
        let ghost prev_s = moved_scores(scores_of(s0), ids, d.moves@.take(k as int), d.grew@);
        proof {
            lemma_moved_len(bodies_of(s0), scores_of(s0), ids, d.moves@.take(k as int), d.grew@);
            assert(d.moves@.take(k + 1).drop_last() =~= d.moves@.take(k as int));
            assert(d.moves@.take(k + 1).last() == d.moves@[k as int]);
        }
        let found = find_first_snake(snakes, pid);
        match found {
            Some(j) => {
                let grows = has_player(&d.grew, pid);
                let mut s = snakes.remove(j);
                s.body.push_front(head);
                if grows {
                    s.score = s.score.wrapping_add(1);
                } else {
                    let _ = s.body.pop_back();
                }
                snakes.insert(j, s);
                proof {
                    assert forall|i: int| 0 <= i < n implies #[trigger] snakes@[i] == (if i == j {
                        s
                    } else {
                        before[i]
                    }) by {}
                    assert(ids_of(snakes@) =~= ids);
                }
            },
            None => {},
        }
        k += 1;
    }
    proof {
        assert(d.moves@.take(k as int) =~= d.moves@);
    }
}

/// Marks dead the first snake of each player in `deaths`.
fn replay_deaths(snakes: &mut Vec<Snake>, deaths: &Vec<PlayerId>)
    ensures
        final(snakes)@.len() == old(snakes)@.len(),
        forall|i: int|
            0 <= i < old(snakes)@.len() ==> {
                let a = old(snakes)@[i];
                let b = #[trigger] final(snakes)@[i];
                &&& b.player_id == a.player_id
                &&& b.direction == a.direction
                &&& b.pending_direction == a.pending_direction
                &&& b.alive == (a.alive && !killed(ids_of(old(snakes)@), deaths@, i))
                &&& b.body@ == a.body@
                &&& b.score == a.score
            },
{
    let ghost s0 = snakes@;
    let ghost ids = ids_of(s0);
    let ghost n = s0.len();
    let mut k: usize = 0;
    while k < deaths.len()
        invariant
            k <= deaths@.len(),
            n == s0.len(),
            ids == ids_of(s0),
            snakes@.len() == n,
            ids_of(snakes@) == ids,
            forall|i: int|
                0 <= i < n ==> {
                    let a = s0[i];
                    let b = #[trigger] snakes@[i];
                    &&& b.player_id == a.player_id
                    &&& b.direction == a.direction
                    &&& b.pending_direction == a.pending_direction
                    &&& b.alive == (a.alive && !killed(ids, deaths@.take(k as int), i))
                    &&& b.body@ == a.body@
                    &&& b.score == a.score
                },
        decreases deaths@.len() - k,
    {
        let pid = deaths[k];
        let ghost before = snakes@;
        let found = find_first_snake(snakes, pid);
        match found {
            Some(j) => {
                let mut s = snakes.remove(j);
                s.alive = false;
                snakes.insert(j, s);
                proof {
                    assert forall|i: int| 0 <= i < n implies #[trigger] snakes@[i] == (if i == j {
                        s
                    } else {
                        before[i]
                    }) by {}
                    assert(ids_of(snakes@) =~= ids);
                }
            },
            None => {},
        }
        proof {
            let t0 = deaths@.take(k as int);
            let t1 = deaths@.take(k + 1);
            assert forall|i: int| 0 <= i < n implies killed(ids, t1, i) == (killed(ids, t0, i) || first_of(ids, pid) == i) by {
                if killed(ids, t1, i) {
                    let q = choose|q: int| 0 <= q < t1.len() && first_of(ids, #[trigger] t1[q]) == i;
                    if q < k {
                        assert(t0[q] == t1[q]);
                    }
                }
                if killed(ids, t0, i) {
                    let q = choose|q: int| 0 <= q < t0.len() && first_of(ids, #[trigger] t0[q]) == i;
                    assert(t1[q] == t0[q]);
                }
                if first_of(ids, pid) == i {
                    assert(t1[k as int] == pid);
                }
            }
        }
        k += 1;
    }
    proof {
        assert(deaths@.take(k as int) =~= deaths@);
    }
}

/// Removes the eaten food, then adds the new food at the end.
fn replay_food(food: &mut Vec<Position>, eaten: &Vec<Position>, spawned: &Vec<Position>)
    ensures
        final(food)@ == without_eaten(old(food)@, eaten@) + spawned@,
{
    let ghost f0 = food@;
    let mut k: usize = 0;
    assert(eaten@.take(0) =~= Seq::<Position>::empty());
    while k < eaten.len()
        invariant
            k <= eaten@.len(),
            food@ == without_eaten(f0, eaten@.take(k as int)),
        decreases eaten@.len() - k,
    {
        let p = eaten[k];
        proof {
            assert(eaten@.take(k + 1).drop_last() =~= eaten@.take(k as int));
            assert(eaten@.take(k + 1).last() == p);
        }
        match find_first_food(food, p) {
            Some(i) => {
                food.remove(i);
            },
            None => {},
        }
        k += 1;
    }
    assert(eaten@.take(k as int) =~= eaten@);
    let ghost mid = food@;
    let mut j: usize = 0;
    while j < spawned.len()
        invariant
            j <= spawned@.len(),
            food@ == mid + spawned@.take(j as int),
        decreases spawned@.len() - j,
    {
        food.push(spawned[j]);
        assert(spawned@.take(j + 1) =~= spawned@.take(j as int).push(spawned@[j as int]));
        j += 1;
    }
    assert(spawned@.take(j as int) =~= spawned@);
}

/// Replays `d` on `state` (`replayed`): the moves with growth and scores,
/// the deaths, the food eaten then spawned, the tick, and the outcome when
/// the delta ends the game.
pub fn apply_delta(state: &mut SnakeState, d: &SnakeDelta)
    ensures
        replayed(*old(state), *d, *final(state)),
{
    let ghost s0 = *state;
    replay_moves(&mut state.snakes, d);
    let ghost s1 = state.snakes@;
    replay_deaths(&mut state.snakes, &d.deaths);
    proof {
        assert(ids_of(s1) =~= ids_of(s0.snakes@));
    }
    replay_food(&mut state.food, &d.eaten_food, &d.new_food);
    state.tick = d.tick;
    match d.game_over {
        Some(o) => {
            state.game_over = Some(o);
        },
        None => {},
    }
}

// ---------------------------------------------------------------------------
// Replaying a tick
// ---------------------------------------------------------------------------

/// No player has two snakes.
pub open spec fn distinct_players(snakes: Seq<Snake>) -> bool {
    forall|i: int, j: int|
        0 <= i < snakes.len() && 0 <= j < snakes.len() && i != j ==> (#[trigger] snakes[i]).player_id
            != (#[trigger] snakes[j]).player_id
}

/// The body a surviving snake `i` gets from its move in a replay.
pub open spec fn replayed_body(st: SnakeState, inputs: Map<u128, SnakeInput>, grew: Seq<PlayerId>, i: int) -> Seq<
    Position,
> {
    let b = seq![heads_of(st, inputs)[i]->Some_0] + st.snakes@[i].body@;
    if grew.contains(st.snakes@[i].player_id) {
        b
    } else {
        b.drop_last()
    }
}

/// The score a surviving snake `i` gets from its move in a replay.
pub open spec fn replayed_score(st: SnakeState, grew: Seq<PlayerId>, i: int) -> u32 {
    let v = st.snakes@[i].score;
    if grew.contains(st.snakes@[i].player_id) {
        if v == u32::MAX {
            0u32
        } else {
            (v + 1) as u32
        }
    } else {
        v
    }
}

proof fn lemma_first_distinct(snakes: Seq<Snake>, i: int)
    requires
        distinct_players(snakes),
        0 <= i < snakes.len(),
    ensures
        first_of(ids_of(snakes), snakes[i].player_id) == i,
{
    let ids = ids_of(snakes);
    let x = snakes[i].player_id;
    assert(ids[i] == x);
    assert forall|j: int| 0 <= j < i implies ids[j] != x by {
        assert(snakes[j].player_id != snakes[i].player_id);
    }
    let k = choose|k: int| 0 <= k < ids.len() && ids[k] == x && forall|j: int| 0 <= j < k ==> ids[j] != x;
    if k != i {
        assert(snakes[k].player_id != snakes[i].player_id);
    }
}

proof fn lemma_grew_list(st: SnakeState, inputs: Map<u128, SnakeInput>, m: nat)
    requires
        m <= st.snakes@.len(),
        distinct_players(st.snakes@),
    ensures
        forall|i: int|
            0 <= i < st.snakes@.len() ==> (grew_list(st, inputs, m).contains(#[trigger] st.snakes@[i].player_id)
                <==> (i < m && eats(st, inputs, i))),
    decreases m,
{
    if m > 0 {
        lemma_grew_list(st, inputs, (m - 1) as nat);
        let prev = grew_list(st, inputs, (m - 1) as nat);
        let cur = grew_list(st, inputs, m);
        let last = st.snakes@[m - 1].player_id;
        assert forall|i: int| 0 <= i < st.snakes@.len() implies (cur.contains(
            #[trigger] st.snakes@[i].player_id,
        ) <==> (i < m && eats(st, inputs, i))) by {
            let x = st.snakes@[i].player_id;
            if eats(st, inputs, m - 1) {
                assert(cur == prev.push(last));
                if cur.contains(x) {
                    let k = choose|k: int| 0 <= k < cur.len() && cur[k] == x;
                    if k < prev.len() {
                        assert(prev[k] == x);
                        assert(prev.contains(x));
                    } else {
                        assert(x == last);
                        if i != m - 1 {
                            assert(st.snakes@[i].player_id != st.snakes@[m - 1].player_id);
                        }
                    }
                }
                if i < m && eats(st, inputs, i) {
                    if i == m - 1 {
                        assert(cur[prev.len() as int] == x);
                    } else {
                        let k = choose|k: int| 0 <= k < prev.len() && prev[k] == x;
                        assert(cur[k] == x);
                    }
                }
            } else {
                assert(cur == prev);
            }
        }
    }
}

proof fn lemma_deaths_list(st: SnakeState, inputs: Map<u128, SnakeInput>, m: nat)
    requires
        m <= st.snakes@.len(),
        distinct_players(st.snakes@),
    ensures
        forall|i: int|
            0 <= i < st.snakes@.len() ==> (deaths_list(st, inputs, m).contains(
                #[trigger] st.snakes@[i].player_id,
            ) <==> (i < m && st.snakes@[i].alive && deaths_of(st, inputs)[i])),
        forall|k: int|
            #![trigger deaths_list(st, inputs, m)[k]]
            0 <= k < deaths_list(st, inputs, m).len() ==> exists|j: int|
                0 <= j < m && #[trigger] st.snakes@[j].player_id == deaths_list(st, inputs, m)[k],
    decreases m,
{
    if m > 0 {
        lemma_deaths_list(st, inputs, (m - 1) as nat);
        let prev = deaths_list(st, inputs, (m - 1) as nat);
        let cur = deaths_list(st, inputs, m);
        let last = st.snakes@[m - 1].player_id;
        let dies = st.snakes@[m - 1].alive && deaths_of(st, inputs)[m - 1];
        assert forall|i: int| 0 <= i < st.snakes@.len() implies (cur.contains(
            #[trigger] st.snakes@[i].player_id,
        ) <==> (i < m && st.snakes@[i].alive && deaths_of(st, inputs)[i])) by {
            let x = st.snakes@[i].player_id;
            if dies {
                assert(cur == prev.push(last));
                if cur.contains(x) {
                    let k = choose|k: int| 0 <= k < cur.len() && cur[k] == x;
                    if k < prev.len() {
                        assert(prev[k] == x);
                        assert(prev.contains(x));
                    } else {
                        if i != m - 1 {
                            assert(st.snakes@[i].player_id != st.snakes@[m - 1].player_id);
                        }
                    }
                }
                if i < m && st.snakes@[i].alive && deaths_of(st, inputs)[i] {
                    if i == m - 1 {
                        assert(cur[prev.len() as int] == x);
                    } else {
                        let k = choose|k: int| 0 <= k < prev.len() && prev[k] == x;
                        assert(cur[k] == x);
                    }
                }
            } else {
                assert(cur == prev);
            }
        }
        assert forall|k: int| #![trigger cur[k]] 0 <= k < cur.len() implies exists|j: int|
            0 <= j < m && #[trigger] st.snakes@[j].player_id == cur[k] by {
            if dies {
                assert(cur == prev.push(last));
                if k < prev.len() {
                    assert(cur[k] == prev[k]);
                    let j = choose|j: int| 0 <= j < m - 1 && #[trigger] st.snakes@[j].player_id == prev[k];
                    assert(st.snakes@[j].player_id == cur[k]);
                } else {
                    assert(st.snakes@[m - 1].player_id == cur[k]);
                }
            } else {
                assert(cur == prev);
                let j = choose|j: int| 0 <= j < m - 1 && #[trigger] st.snakes@[j].player_id == prev[k];
                assert(st.snakes@[j].player_id == cur[k]);
            }
        }
    }
}

proof fn lemma_moves_list(st: SnakeState, inputs: Map<u128, SnakeInput>, grew: Seq<PlayerId>, m: nat)
    requires
        m <= st.snakes@.len(),
        distinct_players(st.snakes@),
    ensures
        moved_bodies(bodies_of(st.snakes@), ids_of(st.snakes@), moves_list(st, inputs, m), grew).len()
            == st.snakes@.len(),
        moved_scores(scores_of(st.snakes@), ids_of(st.snakes@), moves_list(st, inputs, m), grew).len()
            == st.snakes@.len(),
        forall|i: int|
            0 <= i < st.snakes@.len() ==> #[trigger] moved_bodies(
                bodies_of(st.snakes@),
                ids_of(st.snakes@),
                moves_list(st, inputs, m),
                grew,
            )[i] == if i < m && survives(st, inputs, i) {
                replayed_body(st, inputs, grew, i)
            } else {
                st.snakes@[i].body@
            },
        forall|i: int|
            0 <= i < st.snakes@.len() ==> #[trigger] moved_scores(
                scores_of(st.snakes@),
                ids_of(st.snakes@),
                moves_list(st, inputs, m),
                grew,
            )[i] == if i < m && survives(st, inputs, i) {
                replayed_score(st, grew, i)
            } else {
                st.snakes@[i].score
            },
    decreases m,
{
    let b0 = bodies_of(st.snakes@);
    let s0 = scores_of(st.snakes@);
    let ids = ids_of(st.snakes@);
    lemma_moved_len(b0, s0, ids, moves_list(st, inputs, m), grew);
    if m > 0 {
        lemma_moves_list(st, inputs, grew, (m - 1) as nat);
        let prev = moves_list(st, inputs, (m - 1) as nat);
        let cur = moves_list(st, inputs, m);
        let j = m - 1;
        if survives(st, inputs, j) {
            assert(cur.drop_last() =~= prev);
            assert(cur.last() == (st.snakes@[j].player_id, heads_of(st, inputs)[j]->Some_0));
            lemma_first_distinct(st.snakes@, j);
            lemma_moved_len(b0, s0, ids, prev, grew);
        } else {
            assert(cur == prev);
        }
    }
}

proof fn lemma_min_index(s: Seq<Position>, x: Position)
    requires
        s.contains(x),
    ensures
        exists|k: int| 0 <= k < s.len() && s[k] == x && forall|j: int| 0 <= j < k ==> s[j] != x,
    decreases s.len(),
{
    if s[0] == x {
        assert(0 < s.len() && s[0] == x && forall|j: int| 0 <= j < 0 ==> s[j] != x);
    } else {
        let t = s.drop_first();
        let k0 = choose|k: int| 0 <= k < s.len() && s[k] == x;
        assert(t[k0 - 1] == x);
        lemma_min_index(t, x);
        let k = choose|k: int| 0 <= k < t.len() && t[k] == x && forall|j: int| 0 <= j < k ==> t[j] != x;
        assert(s[k + 1] == x);
        assert forall|j: int| 0 <= j < k + 1 implies s[j] != x by {
            if j > 0 {
                assert(s[j] == t[j - 1]);
            }
        }
    }
}

proof fn lemma_remove_keeps(s: Seq<Position>, k: int, q: Position)
    requires
        0 <= k < s.len(),
        s[k] != q,
        s.contains(q),
    ensures
        s.remove(k).contains(q),
{
    let w = choose|w: int| 0 <= w < s.len() && s[w] == q;
    if w < k {
        assert(s.remove(k)[w] == q);
    } else {
        assert(s.remove(k)[w - 1] == q);
    }
}

/// No snake among the first `m` ate at `q`.
pub open spec fn uneaten(st: SnakeState, inputs: Map<u128, SnakeInput>, m: int, q: Position) -> bool {
    forall|j: int| 0 <= j < m ==> !(eats(st, inputs, j) && #[trigger] heads_of(st, inputs)[j] == Some(q))
}

/// Food a snake eats is still there when its turn to eat comes (two
/// survivors never share a cell), so each snake that eats takes exactly one
/// piece; a piece at a cell where no earlier snake ate is still there.
proof fn lemma_eaten_count(st: SnakeState, inputs: Map<u128, SnakeInput>, m: nat)
    requires
        m <= st.snakes@.len(),
    ensures
        food_after(st, inputs, m).1.len() == grew_list(st, inputs, m).len(),
        forall|q: Position|
            st.food@.contains(q) && uneaten(st, inputs, m as int, q) ==> #[trigger] food_after(
                st,
                inputs,
                m,
            ).0.contains(q),
    decreases m,
{
    if m > 0 {
        lemma_eaten_count(st, inputs, (m - 1) as nat);
        let prev = food_after(st, inputs, (m - 1) as nat);
        let i = m - 1;
        let heads = heads_of(st, inputs);
        let p = heads[i]->Some_0;
        if eats(st, inputs, i) {
            lemma_survivors_apart(st, inputs, i, i);
            assert(uneaten(st, inputs, i, p)) by {
                assert forall|j: int| 0 <= j < i implies !(eats(st, inputs, j) && #[trigger] heads[j] == Some(p)) by {
                    if eats(st, inputs, j) {
                        lemma_survivors_apart(st, inputs, j, i);
                    }
                }
            }
            assert(prev.0.contains(p));
            lemma_min_index(prev.0, p);
            let k = first_index_of(prev.0, p);
            assert forall|q: Position|
                st.food@.contains(q) && uneaten(st, inputs, m as int, q) implies #[trigger] food_after(
                    st,
                    inputs,
                    m,
                ).0.contains(q) by {
                assert(uneaten(st, inputs, i, q));
                assert(q != p);
                lemma_remove_keeps(prev.0, k, q);
            }
        } else {
            assert forall|q: Position|
                st.food@.contains(q) && uneaten(st, inputs, m as int, q) implies #[trigger] food_after(
                    st,
                    inputs,
                    m,
                ).0.contains(q) by {
                assert(uneaten(st, inputs, i, q));
            }
        }
    }
}

proof fn lemma_food_after(st: SnakeState, inputs: Map<u128, SnakeInput>, m: nat)
    requires
        m <= st.snakes@.len(),
    ensures
        without_eaten(st.food@, food_after(st, inputs, m).1) == food_after(st, inputs, m).0,
    decreases m,
{
    if m > 0 {
        lemma_food_after(st, inputs, (m - 1) as nat);
        let prev = food_after(st, inputs, (m - 1) as nat);
        let i = m - 1;
        let p = heads_of(st, inputs)[i]->Some_0;
        if eats(st, inputs, i) && prev.0.contains(p) {
            let cur = food_after(st, inputs, m);
            assert(cur.1.drop_last() =~= prev.1);
            lemma_min_index(prev.0, p);
            let a = first_of(prev.0, p);
            let b = first_index_of(prev.0, p);
            if a != b {
                if a < b {
                    assert(prev.0[a] == p);
                } else {
                    assert(prev.0[b] == p);
                }
            }
        }
    }
}

proof fn lemma_respawn(snakes: Seq<Snake>, food: Seq<Position>, rng: u64, w: u16, h: u16, n: nat)
    ensures
        respawn(snakes, food, rng, w, h, n).0 == food + respawn(snakes, food, rng, w, h, n).2,
    decreases n,
{
    if n > 0 {
        lemma_respawn(snakes, food, rng, w, h, (n - 1) as nat);
        let prev = respawn(snakes, food, rng, w, h, (n - 1) as nat);
        assert((food + prev.2).push(respawn(snakes, food, rng, w, h, n).0.last()) =~= food + prev.2.push(
            respawn(snakes, food, rng, w, h, n).0.last(),
        ));
    } else {
        assert(food + Seq::<Position>::empty() =~= food);
    }
}

/// Replaying the delta of a tick on the state before it gives the state the
/// tick made: the same snakes (players, bodies, liveness, scores), food,
/// tick and outcome. (A replay cannot know the directions the snakes took.)
/// It needs each player to have one snake; with two snakes of one player a
/// replay moves only the first.
pub proof fn law_replay_matches_tick(
    s0: SnakeState,
    inputs: Map<u128, SnakeInput>,
    s1: SnakeState,
    d: SnakeDelta,
    s2: SnakeState,
)
    requires
        scores_bounded(s0),
        distinct_players(s0.snakes@),
        ticked(s0, inputs, s1, d),
        replayed(s0, d, s2),
    ensures
        s2.snakes@.len() == s1.snakes@.len(),
        forall|i: int|
            0 <= i < s1.snakes@.len() ==> {
                let a = #[trigger] s1.snakes@[i];
                let b = s2.snakes@[i];
                &&& b.player_id == a.player_id
                &&& b.body@ == a.body@
                &&& b.alive == a.alive
                &&& b.score == a.score
            },
        s2.food@ == s1.food@,
        s2.tick == s1.tick,
        s2.game_over == s1.game_over,
{
    let n = s0.snakes@.len();
    let ids = ids_of(s0.snakes@);
    lemma_grew_list(s0, inputs, n);
    lemma_deaths_list(s0, inputs, n);
    lemma_moves_list(s0, inputs, d.grew@, n);
    assert forall|i: int| 0 <= i < s1.snakes@.len() implies {
        let a = #[trigger] s1.snakes@[i];
        let b = s2.snakes@[i];
        &&& b.player_id == a.player_id
        &&& b.body@ == a.body@
        &&& b.alive == a.alive
        &&& b.score == a.score
    } by {
        let a = s1.snakes@[i];
        let b = s2.snakes@[i];
        let x = s0.snakes@[i].player_id;
        assert(snake_after(s0, inputs, i, a));
        assert(ids[i] == x);
        assert(d.deaths@.contains(x) <==> (s0.snakes@[i].alive && deaths_of(s0, inputs)[i]));
        if killed(ids, d.deaths@, i) {
            let k = choose|k: int| 0 <= k < d.deaths@.len() && first_of(ids, #[trigger] d.deaths@[k]) == i;
            let j = choose|j: int| 0 <= j < n && #[trigger] s0.snakes@[j].player_id == d.deaths@[k];
            lemma_first_distinct(s0.snakes@, j);
            assert(d.deaths@[k] == x);
            assert(d.deaths@.contains(x));
        }
        if d.deaths@.contains(x) {
            let k = choose|k: int| 0 <= k < d.deaths@.len() && d.deaths@[k] == x;
            lemma_first_distinct(s0.snakes@, i);
            assert(first_of(ids, d.deaths@[k]) == i);
        }
        assert(d.grew@.contains(x) <==> eats(s0, inputs, i));
        assert(bodies_of(s0.snakes@)[i] == s0.snakes@[i].body@);
        assert(scores_of(s0.snakes@)[i] == s0.snakes@[i].score);
    }
    let eaten = food_after(s0, inputs, n);
    lemma_food_after(s0, inputs, n);
    lemma_respawn(s1.snakes@, eaten.0, s0.rng_state, s0.arena_w, s0.arena_h, eaten.1.len());
}

/// One tick, snake by snake: a snake alive after the tick has its new head
/// in front of its old body, so its old head is its second cell, and it is
/// one cell longer exactly when the tick reports its player among those that
/// grew; the tick reports as many pieces of food eaten as snakes grown, and
/// advances the tick count by one. It needs each player to have one snake.
pub proof fn law_tick_growth(s0: SnakeState, inputs: Map<u128, SnakeInput>, s1: SnakeState, d: SnakeDelta)
    requires
        s0.wf(),
        distinct_players(s0.snakes@),
        ticked(s0, inputs, s1, d),
    ensures
        s1.tick == s0.tick + 1,
        d.tick == s1.tick,
        d.eaten_food@.len() == d.grew@.len(),
        forall|i: int|
            0 <= i < s0.snakes@.len() && (#[trigger] s1.snakes@[i]).alive ==> {
                &&& s1.snakes@[i].body@.len() == s0.snakes@[i].body@.len() + if d.grew@.contains(
                    s0.snakes@[i].player_id,
                ) {
                    1int
                } else {
                    0int
                }
                &&& s1.snakes@[i].body@.len() >= 2 ==> s1.snakes@[i].body@[1] == s0.snakes@[i].body@[0]
            },
{
    let n = s0.snakes@.len();
    lemma_eaten_count(s0, inputs, n);
    lemma_grew_list(s0, inputs, n);
    assert forall|i: int| 0 <= i < n && (#[trigger] s1.snakes@[i]).alive implies {
        &&& s1.snakes@[i].body@.len() == s0.snakes@[i].body@.len() + if d.grew@.contains(s0.snakes@[i].player_id) {
            1int
        } else {
            0int
        }
        &&& s1.snakes@[i].body@.len() >= 2 ==> s1.snakes@[i].body@[1] == s0.snakes@[i].body@[0]
    } by {
        assert(snake_after(s0, inputs, i, s1.snakes@[i]));
        assert(s0.snakes@[i].alive);
        assert(survives(s0, inputs, i));
    }
}

/// What one tick keeps, snake by snake (each player having one snake): the
/// tick count goes up by one and the delta carries it; a dead snake stays as
/// it was; a living snake never turns back on itself; a snake alive after the
/// tick has its old head as its second cell and is one cell longer exactly
/// when its player is reported as grown; as many pieces of food are eaten as
/// snakes grow.
pub proof fn law_tick_invariants(s0: SnakeState, inputs: Map<u128, SnakeInput>, s1: SnakeState, d: SnakeDelta)
    requires
        s0.wf(),
        distinct_players(s0.snakes@),
        ticked(s0, inputs, s1, d),
    ensures
        s1.tick == s0.tick + 1,
        d.tick == s1.tick,
        d.eaten_food@.len() == d.grew@.len(),
        s1.snakes@.len() == s0.snakes@.len(),
        forall|i: int|
            0 <= i < s0.snakes@.len() ==> {
                let o = s0.snakes@[i];
                let t = #[trigger] s1.snakes@[i];
                &&& t.player_id == o.player_id
                &&& !o.alive ==> !t.alive && t.body@ == o.body@ && t.direction == o.direction
                    && t.pending_direction == o.pending_direction && t.score == o.score
                &&& o.alive ==> t.direction != opposite_of(o.direction)
                &&& t.alive ==> t.body@.len() == o.body@.len() + if d.grew@.contains(o.player_id) {
                    1int
                } else {
                    0int
                }
                &&& t.alive && t.body@.len() >= 2 ==> t.body@[1] == o.body@[0]
            },
{
    law_tick_growth(s0, inputs, s1, d);
    assert forall|i: int| 0 <= i < s0.snakes@.len() implies {
        let o = s0.snakes@[i];
        let t = #[trigger] s1.snakes@[i];
        &&& t.player_id == o.player_id
        &&& !o.alive ==> !t.alive && t.body@ == o.body@ && t.direction == o.direction
            && t.pending_direction == o.pending_direction && t.score == o.score
        &&& o.alive ==> t.direction != opposite_of(o.direction)
        &&& t.alive ==> t.body@.len() == o.body@.len() + if d.grew@.contains(o.player_id) {
            1int
        } else {
            0int
        }
        &&& t.alive && t.body@.len() >= 2 ==> t.body@[1] == o.body@[0]
    } by {
        assert(snake_after(s0, inputs, i, s1.snakes@[i]));
        law_no_reversal(s0.snakes@[i], inputs);
    }
}

} // verus!
