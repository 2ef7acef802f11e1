use vstd::prelude::*;

use crate::game::{lemma_total_take, total, GameState, MAX_TURN_TIME, RESOURCE_UNIT};
use crate::geometry::{near, within, Coordinate};

verus! {

/// A unit during a turn, as the pair of where it started and where it heads.
pub type Course = (Coordinate, Coordinate);

/// One axis of a unit that has made `moves` of the `t` equal steps from
/// `start` to `dest`, scaled by `t` so that it stays an integer.
pub open spec fn moved(start: int, dest: int, t: int, moves: int) -> int {
    start * t + (dest - start) * moves
}

/// `n / d` rounded to the nearest integer, halves away from zero.
pub open spec fn round_div(n: int, d: int) -> int {
    if n >= 0 {
        (2 * n + d) / (2 * d)
    } else {
        -((d - 2 * n) / (2 * d))
    }
}

/// The units of a game, each with its destination.
pub open spec fn courses(g: GameState) -> Seq<Course> {
    Seq::new(g.units.len(), |i: int| (g.units[i], g.destinations[i]))
}

/// Whether a unit on course `c` is within `radius` of `target` at `tick`
/// (after `tick + 1` of the `t` steps of a turn).
pub open spec fn caught(c: Course, t: int, radius: int, tick: int, target: Coordinate) -> bool {
    within(
        moved(c.0.x as int, c.1.x as int, t, tick + 1),
        moved(c.0.y as int, c.1.y as int, t, tick + 1),
        target.x * t,
        target.y * t,
        radius * t,
    )
}

/// The units that a blast at `target` on `tick` leaves standing.
pub open spec fn spared(t: int, radius: int, tick: int, target: Coordinate) -> spec_fn(Course) -> bool {
    |c: Course| !caught(c, t, radius, tick, target)
}

/// Whether a unit on course `c` is within the base's radius at `tick`.
pub open spec fn at_base(g: GameState, c: Course, tick: int) -> bool {
    let t = g.turn_time as int;
    within(
        moved(c.0.x as int, c.1.x as int, t, tick + 1),
        moved(c.0.y as int, c.1.y as int, t, tick + 1),
        g.base_coords.x * t,
        g.base_coords.y * t,
        g.base_radius * t,
    )
}

/// Tick at which target `k` detonates: the sum of the whole resource units
/// that the targets before it cost.
pub open spec fn fire_tick(costs: Seq<u64>, k: int) -> int
    decreases k,
{
    if k <= 0 {
        0
    } else {
        fire_tick(costs, k - 1) + (costs[k - 1] / RESOURCE_UNIT) as int
    }
}

/// Whether the target at `aim` detonates at `tick`.
pub open spec fn fires(g: GameState, aim: int, tick: int) -> bool {
    g.targets.len() > 0 && fire_tick(g.target_costs, aim) == tick
}

/// The units left after the blasts of `tick`.
pub open spec fn after_blast(g: GameState, alive: Seq<Course>, aim: int, tick: int) -> Seq<Course> {
    if fires(g, aim, tick) {
        alive.filter(spared(g.turn_time as int, g.target_radius as int, tick, g.targets[aim]))
    } else {
        alive
    }
}

/// The target aimed at after `tick`: the next one once the current one has
/// detonated, unless it is the last.
pub open spec fn next_aim(g: GameState, aim: int, tick: int) -> int {
    if fires(g, aim, tick) && aim + 1 < g.targets.len() {
        aim + 1
    } else {
        aim
    }
}

/// The rest of a turn from `tick` on, with the units `alive` and the target at
/// `aim` next to detonate: the outcome (0 when the turn runs out, 1 when a unit
/// reaches the base, 2 when no unit is left) and the units left at that point.
pub open spec fn play(g: GameState, alive: Seq<Course>, aim: int, tick: int) -> (usize, Seq<Course>)
    decreases g.turn_time - tick,
{
    if tick >= g.turn_time {
        (0, alive)
    } else {
        let rest = after_blast(g, alive, aim, tick);
        if rest.len() == 0 {
            (2, rest)
        } else if exists|i: int| 0 <= i < rest.len() && at_base(g, rest[i], tick) {
            (1, rest)
        } else {
            play(g, rest, next_aim(g, aim, tick), tick + 1)
        }
    }
}

/// Outcome of a whole turn of `g`, and the units left when it ends.
pub open spec fn turn_result(g: GameState) -> (usize, Seq<Course>) {
    play(g, courses(g), 0, 0)
}

/// The state after a whole turn of `g`: a fresh game once either side has won;
/// otherwise the survivors at their rounded positions, with their
/// destinations, and no targets.
pub open spec fn after_turn(g: GameState) -> GameState {
    let (code, left) = turn_result(g);
    if code == 0 {
        GameState {
            units: left.map_values(|c: Course| settled(g, c)),
            destinations: left.map_values(|c: Course| c.1),
            ..g.without_targets()
        }
    } else {
        GameState::initial()
    }
}

/// A unit's velocity and scaled position agree with its course after `moves`
/// steps of `t`.
pub open spec fn on_course(c: Course, v: (i64, i64), p: (i64, i64), t: int, moves: int) -> bool {
    &&& v.0 == c.1.x - c.0.x
    &&& v.1 == c.1.y - c.0.y
    &&& p.0 == moved(c.0.x as int, c.1.x as int, t, moves)
    &&& p.1 == moved(c.0.y as int, c.1.y as int, t, moves)
}

/// Velocities and positions are aligned with the courses, index by index.
pub open spec fn all_on_course(
    alive: Seq<Course>,
    vel: Seq<(i64, i64)>,
    pos: Seq<(i64, i64)>,
    t: int,
    moves: int,
) -> bool {
    &&& vel.len() == alive.len()
    &&& pos.len() == alive.len()
    &&& forall|i: int| 0 <= i < alive.len() ==> on_course(alive[i], vel[i], pos[i], t, moves)
}

/// Where a unit on course `c` stands once the turn is over: its last position,
/// rounded to whole hundredths.
pub open spec fn settled(g: GameState, c: Course) -> Coordinate {
    let t = g.turn_time as int;
    Coordinate {
        x: round_div(moved(c.0.x as int, c.1.x as int, t, t), t) as i32,
        y: round_div(moved(c.0.y as int, c.1.y as int, t, t), t) as i32,
    }
}

/// A unit that has made every step of a turn has reached its destination
/// exactly, so rounding leaves it there.
pub proof fn lemma_settled_at_destination(g: GameState, c: Course)
    requires
        g.turn_time > 0,
    ensures
        settled(g, c) == c.1,
        round_div(moved(c.0.x as int, c.1.x as int, g.turn_time as int, g.turn_time as int), g.turn_time as int) == c.1.x,
        round_div(moved(c.0.y as int, c.1.y as int, g.turn_time as int, g.turn_time as int), g.turn_time as int) == c.1.y,
{
    let t = g.turn_time as int;
    lemma_moved_full(c.0.x as int, c.1.x as int, t);
    lemma_moved_full(c.0.y as int, c.1.y as int, t);
    lemma_round_div_exact(c.1.x as int, t);
    lemma_round_div_exact(c.1.y as int, t);
}

proof fn lemma_moved_full(start: int, dest: int, t: int)
    ensures
        moved(start, dest, t, t) == dest * t,
{
    assert(start * t + (dest - start) * t == dest * t) by (nonlinear_arith);
}

proof fn lemma_round_div_exact(c: int, d: int)
    requires
        d > 0,
    ensures
        round_div(c * d, d) == c,
{
    if c >= 0 {
        assert(2 * (c * d) + d == c * (2 * d) + d) by (nonlinear_arith);
        vstd::arithmetic::div_mod::lemma_fundamental_div_mod_converse(2 * (c * d) + d, 2 * d, c, d);
    } else {
        assert(c * d < 0) by (nonlinear_arith)
            requires
                c < 0,
                d > 0,
        ;
        assert(d - 2 * (c * d) == (-c) * (2 * d) + d) by (nonlinear_arith);
        vstd::arithmetic::div_mod::lemma_fundamental_div_mod_converse(d - 2 * (c * d), 2 * d, -c, d);
    }
}

/// Bound on a scaled position during a turn.
pub proof fn lemma_moved_bound(start: int, dest: int, t: int, moves: int)
    requires
        -0x8000_0000 <= start < 0x8000_0000,
        -0x8000_0000 <= dest < 0x8000_0000,
        0 <= moves <= t <= 1_000_000,
    ensures
        -0x20_0000_0000_0000 < moved(start, dest, t, moves) < 0x20_0000_0000_0000,
{
    assert(-0x8000_0000 * 1_000_000 <= start * t <= 0x8000_0000 * 1_000_000) by (nonlinear_arith)
        requires
            -0x8000_0000 <= start < 0x8000_0000,
            0 <= t <= 1_000_000,
    ;
    assert(-0x1_0000_0000 * 1_000_000 <= (dest - start) * moves <= 0x1_0000_0000 * 1_000_000)
        by (nonlinear_arith)
        requires
            -0x1_0000_0000 <= dest - start <= 0x1_0000_0000,
            0 <= moves <= 1_000_000,
    ;
}

proof fn lemma_filter_keeps_all(s: Seq<Course>, keep: spec_fn(Course) -> bool)
    requires
        forall|i: int| 0 <= i < s.len() ==> keep(s[i]),
    ensures
        s.filter(keep) == s,
    decreases s.len(),
{
    reveal(Seq::filter);
    if s.len() > 0 {
        lemma_filter_keeps_all(s.drop_last(), keep);
        assert(s.drop_last().push(s.last()) =~= s);
    }
}

proof fn lemma_filter_drops_one(x: Course, keep: spec_fn(Course) -> bool)
    requires
        !keep(x),
    ensures
        seq![x].filter(keep) == Seq::<Course>::empty(),
{
    reveal_with_fuel(Seq::filter, 2);
    assert(seq![x].drop_last() =~= Seq::<Course>::empty());
}

/// The first position past the marks that are still to be removed.
pub open spec fn mark_top(marks: Seq<usize>, j: int) -> int {
    if j <= 0 {
        0
    } else {
        marks[j - 1] + 1
    }
}

/// `marks` lists, in increasing order, exactly the indices of `s` whose
/// element `keep` rejects.
pub open spec fn marks_rejected(marks: Seq<usize>, s: Seq<Course>, keep: spec_fn(Course) -> bool) -> bool {
    &&& forall|a: int, b: int| 0 <= a < b < marks.len() ==> marks[a] < marks[b]
    &&& forall|a: int| 0 <= a < marks.len() ==> marks[a] < s.len()
    &&& forall|k: int|
        0 <= k < s.len() ==> (!keep(s[k]) <==> exists|a: int|
            0 <= a < marks.len() && marks[a] as int == k)
}

/// Before any removal: the part of `s` after the last mark is kept whole.
pub proof fn lemma_removal_start(s: Seq<Course>, marks: Seq<usize>, keep: spec_fn(Course) -> bool)
    requires
        marks_rejected(marks, s, keep),
    ensures
        s == s.take(mark_top(marks, marks.len() as int)) + s.skip(
            mark_top(marks, marks.len() as int),
        ).filter(keep),
{
    let top = mark_top(marks, marks.len() as int);
    let tail = s.skip(top);
    assert forall|i: int| 0 <= i < tail.len() implies keep(tail[i]) by {
        let k = i + top;
        assert(tail[i] == s[k]);
        if !keep(s[k]) {
            let a = choose|a: int| 0 <= a < marks.len() && marks[a] as int == k;
            if a < marks.len() - 1 {
                assert(marks[a] < marks[marks.len() - 1]);
            }
        }
    }
    lemma_filter_keeps_all(tail, keep);
    assert(s =~= s.take(top) + tail);
}

/// Removing the greatest remaining mark `marks[j - 1]` keeps `cur` equal to
/// the untouched prefix followed by the kept part of the rest.
pub proof fn lemma_removal_step(
    s: Seq<Course>,
    marks: Seq<usize>,
    keep: spec_fn(Course) -> bool,
    cur: Seq<Course>,
    j: int,
)
    requires
        marks_rejected(marks, s, keep),
        0 < j <= marks.len(),
        cur == s.take(mark_top(marks, j)) + s.skip(mark_top(marks, j)).filter(keep),
    ensures
        (marks[j - 1] as int) < cur.len(),
        cur[marks[j - 1] as int] == s[marks[j - 1] as int],
        cur.remove(marks[j - 1] as int) == s.take(mark_top(marks, j - 1)) + s.skip(
            mark_top(marks, j - 1),
        ).filter(keep),
{
    let m = marks[j - 1] as int;
    let top = mark_top(marks, j - 1);
    assert(0 <= top <= m) by {
        if j > 1 {
            assert(marks[j - 2] < marks[j - 1]);
        }
    }
    let mid = s.subrange(top, m);
    let tail = s.skip(m + 1);
    assert forall|i: int| 0 <= i < mid.len() implies keep(mid[i]) by {
        let k = i + top;
        assert(mid[i] == s[k]);
        if !keep(s[k]) {
            let a = choose|a: int| 0 <= a < marks.len() && marks[a] as int == k;
            if a >= j - 1 {
                if a > j - 1 {
                    assert(marks[j - 1] < marks[a]);
                }
            } else if a < j - 2 {
                assert(marks[a] < marks[j - 2]);
            }
        }
    }
    assert(!keep(s[m])) by {
        assert(marks[j - 1] as int == m);
    }
    lemma_filter_keeps_all(mid, keep);
    lemma_filter_drops_one(s[m], keep);
    assert(s.skip(top) =~= mid + seq![s[m]] + tail);
    Seq::filter_distributes_over_add(mid + seq![s[m]], tail, keep);
    Seq::filter_distributes_over_add(mid, seq![s[m]], keep);
    assert(s.skip(top).filter(keep) =~= mid + tail.filter(keep));
    assert(s.take(m + 1) =~= s.take(m).push(s[m]));
    assert(cur.remove(m) =~= s.take(top) + (mid + tail.filter(keep)));
}

/// Detonation ticks never exceed what the earlier targets cost.
pub proof fn lemma_fire_tick_bound(costs: Seq<u64>, k: int)
    requires
        0 <= k <= costs.len(),
    ensures
        0 <= fire_tick(costs, k) <= total(costs.take(k)),
    decreases k,
{
    if k > 0 {
        lemma_fire_tick_bound(costs, k - 1);
        lemma_total_take(costs, k - 1);
    }
}

/// Makes one step of every unit: adds each velocity to its position.
pub(crate) fn advance(
    positions: &mut Vec<(i64, i64)>,
    velocities: &Vec<(i64, i64)>,
    Ghost(alive): Ghost<Seq<Course>>,
    Ghost(t): Ghost<int>,
    Ghost(moves): Ghost<int>,
)
    requires
        all_on_course(alive, velocities@, old(positions)@, t, moves),
        0 <= moves < t <= MAX_TURN_TIME,
    ensures
        all_on_course(alive, velocities@, final(positions)@, t, moves + 1),
{
    let mut i: usize = 0;
    while i < positions.len()
        invariant
            0 <= moves < t <= MAX_TURN_TIME,
            velocities@.len() == alive.len(),
            positions@.len() == alive.len(),
            0 <= i <= alive.len(),
            forall|j: int| 0 <= j < i ==> on_course(alive[j], velocities[j], positions[j], t, moves + 1),
            forall|j: int|
                i <= j < alive.len() ==> on_course(alive[j], velocities[j], positions[j], t, moves),
        decreases alive.len() - i,
    {
        let ghost c = alive[i as int];
        proof {
            lemma_moved_bound(c.0.x as int, c.1.x as int, t, moves + 1);
            lemma_moved_bound(c.0.y as int, c.1.y as int, t, moves + 1);
            lemma_moved_step(c.0.x as int, c.1.x as int, t, moves);
            lemma_moved_step(c.0.y as int, c.1.y as int, t, moves);
        }
        let p = positions[i];
        let v = velocities[i];
        positions[i] = (p.0 + v.0, p.1 + v.1);
        i = i + 1;
    }
}

proof fn lemma_moved_step(start: int, dest: int, t: int, moves: int)
    ensures
        moved(start, dest, t, moves + 1) == moved(start, dest, t, moves) + (dest - start),
{
    assert((dest - start) * (moves + 1) == (dest - start) * moves + (dest - start)) by (nonlinear_arith);
}

/// Indices, in increasing order, of the units caught by a blast at `target` on
/// `tick`.
pub(crate) fn mark_caught(
    positions: &Vec<(i64, i64)>,
    velocities: &Vec<(i64, i64)>,
    target: Coordinate,
    radius: u32,
    t: usize,
    Ghost(alive): Ghost<Seq<Course>>,
    Ghost(tick): Ghost<int>,
) -> (r: Vec<usize>)
    requires
        all_on_course(alive, velocities@, positions@, t as int, tick + 1),
        0 <= tick < t <= MAX_TURN_TIME,
    ensures
        marks_rejected(r@, alive, spared(t as int, radius as int, tick, target)),
{
    let ghost keep = spared(t as int, radius as int, tick, target);
    let ti: i64 = t as i64;
    proof {
        lemma_scale_bound(target.x as int, t as int);
        lemma_scale_bound(target.y as int, t as int);
        lemma_scale_bound(radius as int, t as int);
    }
    let tx: i64 = target.x as i64 * ti;
    let ty: i64 = target.y as i64 * ti;
    let tr: i64 = radius as i64 * ti;
    let mut marks: Vec<usize> = Vec::new();
    let mut k: usize = 0;
    while k < positions.len()
        invariant
            all_on_course(alive, velocities@, positions@, t as int, tick + 1),
            0 <= tick < t <= MAX_TURN_TIME,
            ti == t,
            tx == target.x * t,
            ty == target.y * t,
            tr == radius * t,
            -0x10_0000_0000_0000 < tx < 0x10_0000_0000_0000,
            -0x10_0000_0000_0000 < ty < 0x10_0000_0000_0000,
            -0x10_0000_0000_0000 < tr < 0x10_0000_0000_0000,
            keep == spared(t as int, radius as int, tick, target),
            0 <= k <= alive.len(),
            forall|a: int, b: int| 0 <= a < b < marks.len() ==> marks[a] < marks[b],
            forall|a: int| 0 <= a < marks.len() ==> marks[a] < k,
            forall|j: int|
                0 <= j < k ==> (!keep(alive[j]) <==> exists|a: int|
                    0 <= a < marks.len() && marks[a] as int == j),
        decreases alive.len() - k,
    {
        let ghost c = alive[k as int];
        proof {
            lemma_moved_bound(c.0.x as int, c.1.x as int, t as int, tick + 1);
            lemma_moved_bound(c.0.y as int, c.1.y as int, t as int, tick + 1);
        }
        let p = positions[k];
        assert(on_course(c, velocities[k as int], p, t as int, tick + 1));
        let hit = near(p.0, p.1, tx, ty, tr);
        assert(keep(c) == !caught(c, t as int, radius as int, tick, target));
        assert(hit == !keep(c));
        let ghost before = marks@;
        if hit {
            marks.push(k);
            proof {
                assert forall|j: int|
                    0 <= j < k implies (!keep(alive[j]) <==> exists|a: int|
                        0 <= a < marks.len() && marks[a] as int == j) by {
                    if exists|a: int| 0 <= a < before.len() && before[a] as int == j {
                        let a = choose|a: int| 0 <= a < before.len() && before[a] as int == j;
                        assert(marks[a] == before[a]);
                    }
                }
                assert(marks[marks.len() - 1] as int == k as int);
            }
        } else {
            proof {
                assert forall|j: int|
                    0 <= j <= k implies (!keep(alive[j]) <==> exists|a: int|
                        0 <= a < marks.len() && marks[a] as int == j) by {
                    if j == k {
                        if exists|a: int| 0 <= a < marks.len() && marks[a] as int == j {
                            let a = choose|a: int| 0 <= a < marks.len() && marks[a] as int == j;
                        }
                    }
                }
            }
        }
        k = k + 1;
    }
    marks
}

/// Bound on a length or an axis scaled by the number of ticks.
pub proof fn lemma_scale_bound(a: int, t: int)
    requires
        -0x1_0000_0000 < a < 0x1_0000_0000,
        0 <= t <= MAX_TURN_TIME,
    ensures
        -0x10_0000_0000_0000 < a * t < 0x10_0000_0000_0000,
{
    assert(-0x1_0000_0000 * 1_000_000 <= a * t <= 0x1_0000_0000 * 1_000_000) by (nonlinear_arith)
        requires
            -0x1_0000_0000 < a < 0x1_0000_0000,
            0 <= t <= 1_000_000,
    ;
}

/// Rounds the scaled position `v` back to whole hundredths.
pub(crate) fn round_scaled(v: i64, t: i64) -> (r: i64)
    requires
        0 < t <= MAX_TURN_TIME,
        -0x20_0000_0000_0000 < v < 0x20_0000_0000_0000,
    ensures
        r == round_div(v as int, t as int),
{
    if v >= 0 {
        (2 * v + t) / (2 * t)
    } else {
        -((t - 2 * v) / (2 * t))
    }
}

} // verus!

