use vstd::prelude::*;

use crate::error::{ArtilleryError, DistanceLimit};
use crate::geometry::{contains_spec, distance_of, dist_sq, near, Coordinate};
use crate::turn::{
    advance, after_blast, after_turn, all_on_course, at_base, courses, fire_tick, fires,
    lemma_fire_tick_bound, lemma_moved_bound, lemma_removal_start, lemma_removal_step,
    lemma_scale_bound, lemma_settled_at_destination, mark_caught, mark_top, marks_rejected,
    moved, next_aim, on_course, play, round_scaled, settled, spared, turn_result, Course,
};

verus! {

/// One resource unit, in the billionths that costs and budgets are counted in.
pub const RESOURCE_UNIT: u64 = 1_000_000_000;

/// The most ticks a turn may be divided into.
pub const MAX_TURN_TIME: usize = 1_000_000;

/// The whole state of a game, as plain values.
pub struct GameState {
    pub map_radius: u32,
    pub turn_time: usize,
    pub target_radius: u32,
    pub base_coords: Coordinate,
    pub base_radius: u32,
    pub max_unit_range: u32,
    pub max_resources: u64,
    pub units: Seq<Coordinate>,
    pub destinations: Seq<Coordinate>,
    pub targets: Seq<Coordinate>,
    pub target_costs: Seq<u64>,
}

/// Sum of a sequence of costs.
pub open spec fn total(s: Seq<u64>) -> int
    decreases s.len(),
{
    if s.len() == 0 {
        0
    } else {
        total(s.drop_last()) + s.last()
    }
}

/// Cost of a strike at `coord` aimed from `from`, in billionths:
/// `0.00122 * d^2 + 0.16 * d + 4.83` for the distance `d` in map units, where
/// `d^2` is exact and `d` is taken in whole hundredths, rounded down.
pub open spec fn shot_cost_between(from: Coordinate, coord: Coordinate) -> int {
    122 * dist_sq(from, coord) + 1_600_000 * distance_of(from, coord) + 4_830_000_000
}

impl GameState {
    /// A fresh game with the default configuration and nothing placed.
    pub open spec fn initial() -> GameState {
        GameState {
            map_radius: 10_000,
            turn_time: 100,
            target_radius: 500,
            base_coords: Coordinate { x: 0, y: 0 },
            base_radius: 100,
            max_unit_range: 500,
            max_resources: 100_000_000_000,
            units: Seq::empty(),
            destinations: Seq::empty(),
            targets: Seq::empty(),
            target_costs: Seq::empty(),
        }
    }

    /// Units and their destinations are aligned, and so are targets and their
    /// costs; the costs stay within the budget; units, destinations and
    /// targets all lie on the map; a turn has at least one tick.
    pub open spec fn wf(self) -> bool {
        &&& self.units.len() == self.destinations.len()
        &&& self.targets.len() == self.target_costs.len()
        &&& total(self.target_costs) <= self.max_resources
        &&& forall|i: int| 0 <= i < self.units.len() ==> self.in_map(#[trigger] self.units[i])
        &&& forall|i: int|
            0 <= i < self.destinations.len() ==> self.in_map(#[trigger] self.destinations[i])
        &&& forall|i: int| 0 <= i < self.targets.len() ==> self.in_map(#[trigger] self.targets[i])
        &&& 0 < self.turn_time <= MAX_TURN_TIME
    }

    /// Whether `c` lies on the map: within `map_radius` of the base.
    pub open spec fn in_map(self, c: Coordinate) -> bool {
        contains_spec(self.base_coords, c, self.map_radius as int)
    }

    /// The point the next strike is aimed from: the last target, or the base.
    pub open spec fn aim_point(self) -> Coordinate {
        if self.targets.len() == 0 {
            self.base_coords
        } else {
            self.targets.last()
        }
    }

    /// What is left of the budget.
    pub open spec fn available(self) -> int {
        self.max_resources - total(self.target_costs)
    }

    /// The same game with its targets and their costs cleared.
    pub open spec fn without_targets(self) -> GameState {
        GameState { targets: Seq::empty(), target_costs: Seq::empty(), ..self }
    }
}

/// A game in progress. Its fields are reached through methods, which keep the
/// state well formed.
pub struct Game {
    map_radius: u32,
    turn_time: usize,
    target_radius: u32,
    base_coords: Coordinate,
    base_radius: u32,
    max_unit_range: u32,
    max_resources: u64,
    units: Vec<Coordinate>,
    destinations: Vec<Coordinate>,
    targets: Vec<Coordinate>,
    target_costs: Vec<u64>,
}

impl View for Game {
    type V = GameState;

    closed spec fn view(&self) -> GameState {
        GameState {
            map_radius: self.map_radius,
            turn_time: self.turn_time,
            target_radius: self.target_radius,
            base_coords: self.base_coords,
            base_radius: self.base_radius,
            max_unit_range: self.max_unit_range,
            max_resources: self.max_resources,
            units: self.units@,
            destinations: self.destinations@,
            targets: self.targets@,
            target_costs: self.target_costs@,
        }
    }
}

pub(crate) proof fn lemma_total_take(s: Seq<u64>, i: int)
    requires
        0 <= i < s.len(),
    ensures
        total(s.take(i + 1)) == total(s.take(i)) + s[i],
{
    assert(s.take(i + 1).drop_last() =~= s.take(i));
}

pub(crate) proof fn lemma_total_take_bound(s: Seq<u64>, i: int)
    requires
        0 <= i <= s.len(),
    ensures
        0 <= total(s.take(i)) <= total(s),
    decreases s.len() - i,
{
    lemma_total_nonneg(s.take(i));
    if i < s.len() {
        lemma_total_take(s, i);
        lemma_total_take_bound(s, i + 1);
    } else {
        assert(s.take(i) =~= s);
        lemma_total_nonneg(s);
    }
}

proof fn lemma_total_nonneg(s: Seq<u64>)
    ensures
        total(s) >= 0,
    decreases s.len(),
{
    if s.len() > 0 {
        lemma_total_nonneg(s.drop_last());
    }
}

proof fn lemma_total_concat(a: Seq<u64>, b: Seq<u64>)
    ensures
        total(a + b) == total(a) + total(b),
    decreases b.len(),
{
    if b.len() > 0 {
        assert((a + b).drop_last() =~= a + b.drop_last());
        lemma_total_concat(a, b.drop_last());
    } else {
        assert(a + b =~= a);
    }
}

proof fn lemma_total_remove(s: Seq<u64>, i: int)
    requires
        0 <= i < s.len(),
    ensures
        total(s.remove(i)) == total(s) - s[i],
{
    let a = s.take(i);
    let b = s.skip(i + 1);
    assert(s.remove(i) =~= a + b);
    assert(s =~= (a + seq![s[i]]) + b);
    lemma_total_concat(a, b);
    lemma_total_concat(a + seq![s[i]], b);
    assert((a + seq![s[i]]).drop_last() =~= a);
    assert(total(a + seq![s[i]]) == total(a) + s[i]);
}

/// Clearing the targets a second time changes nothing more: both times they
/// end up empty, together with their costs.
pub proof fn lemma_reset_targets_idempotent(g: GameState)
    ensures
        g.without_targets().without_targets() == g.without_targets(),
        g.without_targets().targets.len() == 0,
        g.without_targets().target_costs.len() == 0,
        g.wf() ==> g.without_targets().wf(),
{
}

impl Game {
    pub open spec fn wf(&self) -> bool {
        self@.wf()
    }

    /// A fresh game: a map of radius 100 around a base at the origin with a
    /// capture radius of 1, blasts of radius 5, a unit range of 5, a budget of
    /// 100 resource units and 100 ticks per turn.
    pub fn new() -> (r: Game)
        ensures
            r@ == GameState::initial(),
            r.wf(),
    {
        let r = Game {
            map_radius: 10_000,
            turn_time: 100,
            target_radius: 500,
            base_coords: Coordinate { x: 0, y: 0 },
            base_radius: 100,
            max_unit_range: 500,
            max_resources: 100_000_000_000,
            units: Vec::new(),
            destinations: Vec::new(),
            targets: Vec::new(),
            target_costs: Vec::new(),
        };
        assert(r@.units =~= Seq::<Coordinate>::empty());
        assert(r@.destinations =~= Seq::<Coordinate>::empty());
        assert(r@.targets =~= Seq::<Coordinate>::empty());
        assert(r@.target_costs =~= Seq::<u64>::empty());
        r
    }

    /// Whether `coord` lies on the map.
    fn is_in_map(&self, coord: &Coordinate) -> (r: bool)
        ensures
            r == self@.in_map(*coord),
    {
        self.base_coords.contains(coord, self.map_radius)
    }

    /// Cost of a strike at `coord`, aimed from the last target or, before the
    /// first one, from the base. The map bounds are not checked here.
    fn shot_cost(&self, coord: &Coordinate) -> (r: u128)
        ensures
            r == shot_cost_between(self@.aim_point(), *coord),
    {
        let from: Coordinate = if self.targets.len() == 0 {
            self.base_coords
        } else {
            self.targets[self.targets.len() - 1]
        };
        let sq: u128 = from.squared_distance(coord);
        let d: u64 = from.distance(coord);
        122 * sq + 1_600_000 * (d as u128) + 4_830_000_000
    }

    /// Sum of the costs of the targets placed so far.
    fn spent(&self) -> (r: u64)
        requires
            self.wf(),
        ensures
            r == total(self@.target_costs),
    {
        let mut sum: u64 = 0;
        let mut i: usize = 0;
        while i < self.target_costs.len()
            invariant
                self.wf(),
                i <= self.target_costs.len(),
                sum == total(self.target_costs@.take(i as int)),
            decreases self.target_costs.len() - i,
        {
            proof {
                lemma_total_take(self.target_costs@, i as int);
                lemma_total_take_bound(self.target_costs@, i as int + 1);
            }
            sum = sum + self.target_costs[i];
            i = i + 1;
        }
        assert(self.target_costs@.take(i as int) =~= self.target_costs@);
        sum
    }

    /// Places a unit at `(x, y)`, heading for where it stands. Refused when the
    /// point lies off the map.
    pub fn add_unit(&mut self, x: i32, y: i32) -> (r: Result<(), ArtilleryError>)
        requires
            old(self).wf(),
        ensures
            final(self).wf(),
            ({
                let g = old(self)@;
                let c = Coordinate { x, y };
                &&& g.in_map(c) ==> r is Ok && final(self)@ == (GameState {
                    units: g.units.push(c),
                    destinations: g.destinations.push(c),
                    ..g
                })
                &&& !g.in_map(c) ==> r == Err::<(), ArtilleryError>(
                    ArtilleryError::DistanceError {
                        op: "add_unit",
                        limit: DistanceLimit::MapRadius,
                        coord: c,
                        reference: g.base_coords,
                    },
                ) && final(self)@ == g
            }),
    {
        let temp_coord = Coordinate { x, y };
        if !self.is_in_map(&temp_coord) {
            return Err(
                ArtilleryError::maximum_distance_error(
                    "add_unit",
                    DistanceLimit::MapRadius,
                    &temp_coord,
                    &self.base_coords,
                ),
            );
        }
        self.units.push(temp_coord);
        self.destinations.push(temp_coord);
        Ok(())
    }

    /// Buys a strike at `(x, y)`. Refused when the point lies off the map, or
    /// when its cost, aimed from the last target (or from the base before the
    /// first), exceeds what is left of the budget.
    pub fn add_target(&mut self, x: i32, y: i32) -> (r: Result<(), ArtilleryError>)
        requires
            old(self).wf(),
        ensures
            final(self).wf(),
            ({
                let g = old(self)@;
                let c = Coordinate { x, y };
                let cost = shot_cost_between(g.aim_point(), c);
                &&& !g.in_map(c) ==> r == Err::<(), ArtilleryError>(
                    ArtilleryError::DistanceError {
                        op: "add_target",
                        limit: DistanceLimit::MapRadius,
                        coord: c,
                        reference: g.base_coords,
                    },
                ) && final(self)@ == g
                &&& g.in_map(c) && cost > g.available() ==> r == Err::<(), ArtilleryError>(
                    ArtilleryError::ResourceError {
                        op: "add_target",
                        cost: cost as u128,
                        available: g.available() as u64,
                    },
                ) && final(self)@ == g
                &&& g.in_map(c) && cost <= g.available() ==> r is Ok && final(self)@ == (
                GameState {
                    targets: g.targets.push(c),
                    target_costs: g.target_costs.push(cost as u64),
                    ..g
                })
            }),
    {
        let temp_coord = Coordinate { x, y };
        if !self.is_in_map(&temp_coord) {
            return Err(
                ArtilleryError::maximum_distance_error(
                    "add_target",
                    DistanceLimit::MapRadius,
                    &temp_coord,
                    &self.base_coords,
                ),
            );
        }
        let shot_cost = self.shot_cost(&temp_coord);
        let spent = self.spent();
        let available = self.max_resources - spent;
        if shot_cost > available as u128 {
            return Err(ArtilleryError::resource_error("add_target", shot_cost, available));
        }
        proof {
            assert(self.target_costs@.push(shot_cost as u64).drop_last() =~= self.target_costs@);
        }
        self.targets.push(temp_coord);
        self.target_costs.push(shot_cost as u64);
        Ok(())
    }

    /// Sends the unit at `index` toward `(x, y)`. Refused when no unit is
    /// there, when the point lies off the map, or when it lies farther than
    /// `max_unit_range` from the unit's current position.
    pub fn set_destination(&mut self, index: usize, x: i32, y: i32) -> (r: Result<
        (),
        ArtilleryError,
    >)
        requires
            old(self).wf(),
        ensures
            final(self).wf(),
            ({
                let g = old(self)@;
                let c = Coordinate { x, y };
                &&& index >= g.units.len() ==> r == Err::<(), ArtilleryError>(
                    ArtilleryError::IndexError { op: "set_destination", index },
                ) && final(self)@ == g
                &&& index < g.units.len() && !g.in_map(c) ==> r == Err::<(), ArtilleryError>(
                    ArtilleryError::DistanceError {
                        op: "set_destination",
                        limit: DistanceLimit::MapRadius,
                        coord: c,
                        reference: g.base_coords,
                    },
                ) && final(self)@ == g
                &&& index < g.units.len() && g.in_map(c) && !contains_spec(
                    c,
                    g.units[index as int],
                    g.max_unit_range as int,
                ) ==> r == Err::<(), ArtilleryError>(
                    ArtilleryError::DistanceError {
                        op: "set_destination",
                        limit: DistanceLimit::UnitRange,
                        coord: c,
                        reference: g.units[index as int],
                    },
                ) && final(self)@ == g
                &&& index < g.units.len() && g.in_map(c) && contains_spec(
                    c,
                    g.units[index as int],
                    g.max_unit_range as int,
                ) ==> r is Ok && final(self)@ == (GameState {
                    destinations: g.destinations.update(index as int, c),
                    ..g
                })
            }),
    {
        if index >= self.units.len() {
            return Err(ArtilleryError::index_error("set_destination", index));
        }
        let temp_coord = Coordinate { x, y };
        if !self.is_in_map(&temp_coord) {
            return Err(
                ArtilleryError::maximum_distance_error(
                    "set_destination",
                    DistanceLimit::MapRadius,
                    &temp_coord,
                    &self.base_coords,
                ),
            );
        }
        let unit = self.units[index];
        if !temp_coord.contains(&unit, self.max_unit_range) {
            return Err(
                ArtilleryError::maximum_distance_error(
                    "set_destination",
                    DistanceLimit::UnitRange,
                    &temp_coord,
                    &unit,
                ),
            );
        }
        self.destinations[index] = temp_coord;
        Ok(())
    }

    /// Moves the unit at `index` to `(x, y)` at once; its destination stays.
    /// Refused when no unit is there or when the point lies off the map.
    pub fn set_position(&mut self, index: usize, x: i32, y: i32) -> (r: Result<
        (),
        ArtilleryError,
    >)
        requires
            old(self).wf(),
        ensures
            final(self).wf(),
            ({
                let g = old(self)@;
                let c = Coordinate { x, y };
                &&& index >= g.units.len() ==> r == Err::<(), ArtilleryError>(
                    ArtilleryError::IndexError { op: "set_position", index },
                ) && final(self)@ == g
                &&& index < g.units.len() && !g.in_map(c) ==> r == Err::<(), ArtilleryError>(
                    ArtilleryError::DistanceError {
                        op: "set_position",
                        limit: DistanceLimit::MapRadius,
                        coord: c,
                        reference: g.base_coords,
                    },
                ) && final(self)@ == g
                &&& index < g.units.len() && g.in_map(c) ==> r is Ok && final(self)@ == (
                GameState { units: g.units.update(index as int, c), ..g })
            }),
    {
        if index >= self.units.len() {
            return Err(ArtilleryError::index_error("set_position", index));
        }
        let temp_coord = Coordinate { x, y };
        if !self.is_in_map(&temp_coord) {
            return Err(
                ArtilleryError::maximum_distance_error(
                    "set_position",
                    DistanceLimit::MapRadius,
                    &temp_coord,
                    &self.base_coords,
                ),
            );
        }
        self.units[index] = temp_coord;
        Ok(())
    }

    /// Removes the unit at `index` together with its destination; the other
    /// units keep their order.
    pub fn remove_unit(&mut self, index: usize) -> (r: Result<(), ArtilleryError>)
        requires
            old(self).wf(),
        ensures
            final(self).wf(),
            index < old(self)@.units.len() ==> r is Ok && final(self)@ == (GameState {
                units: old(self)@.units.remove(index as int),
                destinations: old(self)@.destinations.remove(index as int),
                ..old(self)@
            }),
            index >= old(self)@.units.len() ==> r == Err::<(), ArtilleryError>(
                ArtilleryError::IndexError { op: "remove_unit", index },
            ) && final(self)@ == old(self)@,
    {
        if index >= self.units.len() {
            return Err(ArtilleryError::index_error("remove_unit", index));
        }
        self.units.remove(index);
        self.destinations.remove(index);
        Ok(())
    }

    /// Removes the target at `index` together with its cost; the other targets
    /// keep their order.
    pub fn remove_target(&mut self, index: usize) -> (r: Result<(), ArtilleryError>)
        requires
            old(self).wf(),
        ensures
            final(self).wf(),
            index < old(self)@.targets.len() ==> r is Ok && final(self)@ == (GameState {
                targets: old(self)@.targets.remove(index as int),
                target_costs: old(self)@.target_costs.remove(index as int),
                ..old(self)@
            }),
            index >= old(self)@.targets.len() ==> r == Err::<(), ArtilleryError>(
                ArtilleryError::IndexError { op: "remove_target", index },
            ) && final(self)@ == old(self)@,
    {
        if index >= self.targets.len() {
            return Err(ArtilleryError::index_error("remove_target", index));
        }
        proof {
            lemma_total_remove(self.target_costs@, index as int);
        }
        self.targets.remove(index);
        self.target_costs.remove(index);
        Ok(())
    }

    /// Clears the targets and their costs together.
    pub fn reset_targets(&mut self)
        requires
            old(self).wf(),
        ensures
            final(self).wf(),
            final(self)@ == old(self)@.without_targets(),
    {
        self.targets.clear();
        self.target_costs.clear();
    }

    /// Replaces the whole state with a fresh game.
    pub fn reset_game(&mut self)
        ensures
            final(self).wf(),
            final(self)@ == GameState::initial(),
    {
        *self = Game::new();
    }

    /// Current position of the unit at `index`.
    pub fn get_unit(&self, index: usize) -> (r: Result<&Coordinate, ArtilleryError>)
        ensures
            index < self@.units.len() ==> r is Ok && *r->Ok_0 == self@.units[index as int],
            index >= self@.units.len() ==> r == Err::<&Coordinate, ArtilleryError>(
                ArtilleryError::IndexError { op: "get_unit", index },
            ),
    {
        if index >= self.units.len() {
            return Err(ArtilleryError::index_error("get_unit", index));
        }
        Ok(&self.units[index])
    }

    /// Current positions of all units, by index.
    pub fn get_units(&self) -> (r: &Vec<Coordinate>)
        ensures
            r@ == self@.units,
    {
        &self.units
    }

    /// Costs of the targets, by index, in billionths of a resource unit.
    pub fn get_target_costs(&self) -> (r: &Vec<u64>)
        ensures
            r@ == self@.target_costs,
    {
        &self.target_costs
    }

    /// Destination of the unit at `index`.
    pub fn get_destination(&self, index: usize) -> (r: Result<&Coordinate, ArtilleryError>)
        ensures
            index < self@.destinations.len() ==> r is Ok && *r->Ok_0
                == self@.destinations[index as int],
            index >= self@.destinations.len() ==> r == Err::<&Coordinate, ArtilleryError>(
                ArtilleryError::IndexError { op: "get_destination", index },
            ),
    {
        if index >= self.destinations.len() {
            return Err(ArtilleryError::index_error("get_destination", index));
        }
        Ok(&self.destinations[index])
    }

    /// Destinations of all units, by index.
    pub fn get_destinations(&self) -> (r: &Vec<Coordinate>)
        ensures
            r@ == self@.destinations,
    {
        &self.destinations
    }

    /// The target at `index`.
    pub fn get_target(&self, index: usize) -> (r: Result<&Coordinate, ArtilleryError>)
        ensures
            index < self@.targets.len() ==> r is Ok && *r->Ok_0 == self@.targets[index as int],
            index >= self@.targets.len() ==> r == Err::<&Coordinate, ArtilleryError>(
                ArtilleryError::IndexError { op: "get_target", index },
            ),
    {
        if index >= self.targets.len() {
            return Err(ArtilleryError::index_error("get_target", index));
        }
        Ok(&self.targets[index])
    }

    /// All targets, in the order they were bought.
    pub fn get_targets(&self) -> (r: &Vec<Coordinate>)
        ensures
            r@ == self@.targets,
    {
        &self.targets
    }

    /// Where the army's base stands.
    pub fn get_base_coords(&self) -> (r: &Coordinate)
        ensures
            *r == self@.base_coords,
    {
        &self.base_coords
    }

    /// Capture radius of the base, in hundredths.
    pub fn get_base_radius(&self) -> (r: u32)
        ensures
            r == self@.base_radius,
    {
        self.base_radius
    }

    /// Radius of the map around the base, in hundredths.
    pub fn get_map_radius(&self) -> (r: u32)
        ensures
            r == self@.map_radius,
    {
        self.map_radius
    }

    /// Farthest a destination may be set from a unit, in hundredths.
    pub fn get_max_unit_range(&self) -> (r: u32)
        ensures
            r == self@.max_unit_range,
    {
        self.max_unit_range
    }

    /// The artillery's whole budget, in billionths of a resource unit.
    pub fn get_max_resources(&self) -> (r: u64)
        ensures
            r == self@.max_resources,
    {
        self.max_resources
    }

    /// Blast radius of a strike, in hundredths.
    pub fn get_target_radius(&self) -> (r: u32)
        ensures
            r == self@.target_radius,
    {
        self.target_radius
    }

    /// Velocity of the unit at `index` for one tick, scaled by the number of
    /// ticks in a turn: the whole way to its destination.
    fn calculate_velocity(&self, index: usize) -> (r: (i64, i64))
        requires
            self.wf(),
            index < self@.units.len(),
        ensures
            r.0 == self@.destinations[index as int].x - self@.units[index as int].x,
            r.1 == self@.destinations[index as int].y - self@.units[index as int].y,
    {
        let x_velocity: i64 = self.destinations[index].x as i64 - self.units[index].x as i64;
        let y_velocity: i64 = self.destinations[index].y as i64 - self.units[index].y as i64;
        (x_velocity, y_velocity)
    }

    /// Whether some unit, at the scaled `positions` of `tick`, is within the
    /// base's radius.
    fn reaches_base(
        &self,
        positions: &Vec<(i64, i64)>,
        velocities: &Vec<(i64, i64)>,
        Ghost(tick): Ghost<int>,
    ) -> (r: bool)
        requires
            self.wf(),
            all_on_course(courses(self@), velocities@, positions@, self@.turn_time as int, tick + 1),
            0 <= tick < self@.turn_time,
        ensures
            r == exists|i: int|
                0 <= i < courses(self@).len() && at_base(self@, courses(self@)[i], tick),
    {
        let ghost alive = courses(self@);
        let t: usize = self.turn_time;
        let ti: i64 = t as i64;
        proof {
            lemma_scale_bound(self.base_coords.x as int, t as int);
            lemma_scale_bound(self.base_coords.y as int, t as int);
            lemma_scale_bound(self.base_radius as int, t as int);
        }
        let bx: i64 = self.base_coords.x as i64 * ti;
        let by: i64 = self.base_coords.y as i64 * ti;
        let br: i64 = self.base_radius as i64 * ti;
        let mut k: usize = 0;
        while k < positions.len()
            invariant
                self.wf(),
                all_on_course(alive, velocities@, positions@, t as int, tick + 1),
                alive == courses(self@),
                0 <= tick < t,
                t == self@.turn_time,
                ti == t,
                bx == self@.base_coords.x * t,
                by == self@.base_coords.y * t,
                br == self@.base_radius * t,
                -0x10_0000_0000_0000 < bx < 0x10_0000_0000_0000,
                -0x10_0000_0000_0000 < by < 0x10_0000_0000_0000,
                -0x10_0000_0000_0000 < br < 0x10_0000_0000_0000,
                0 <= k <= alive.len(),
                forall|j: int| 0 <= j < k ==> !at_base(self@, alive[j], tick),
            decreases alive.len() - k,
        {
            let ghost c = alive[k as int];
            proof {
                lemma_moved_bound(c.0.x as int, c.1.x as int, t as int, tick + 1);
                lemma_moved_bound(c.0.y as int, c.1.y as int, t as int, tick + 1);
            }
            let p = positions[k];
            assert(on_course(c, velocities[k as int], p, t as int, tick + 1));
            if near(p.0, p.1, bx, by, br) {
                return true;
            }
            k = k + 1;
        }
        false
    }

    /// Removes the units at the indices `destroyed`, greatest index first so
    /// that no removal shifts an index still to be removed; each unit's
    /// destination, velocity and position go with it.
    fn remove_destroyed(
        &mut self,
        destroyed: Vec<usize>,
        positions: &mut Vec<(i64, i64)>,
        velocities: &mut Vec<(i64, i64)>,
        Ghost(keep): Ghost<spec_fn(Course) -> bool>,
        Ghost(t): Ghost<int>,
        Ghost(moves): Ghost<int>,
    )
        requires
            old(self).wf(),
            marks_rejected(destroyed@, courses(old(self)@), keep),
            all_on_course(courses(old(self)@), old(velocities)@, old(positions)@, t, moves),
        ensures
            final(self).wf(),
            final(self)@ == (GameState {
                units: final(self)@.units,
                destinations: final(self)@.destinations,
                ..old(self)@
            }),
            courses(final(self)@) == courses(old(self)@).filter(keep),
            all_on_course(courses(final(self)@), final(velocities)@, final(positions)@, t, moves),
    {
        let ghost g = self@;
        let ghost s0 = courses(self@);
        let ghost marks = destroyed@;
        let mut destroyed = destroyed;
        proof {
            lemma_removal_start(s0, marks, keep);
        }
        while destroyed.len() > 0
            invariant
                self.wf(),
                self@ == (GameState { units: self@.units, destinations: self@.destinations, ..g }),
                marks_rejected(marks, s0, keep),
                destroyed.len() <= marks.len(),
                destroyed@ == marks.take(destroyed.len() as int),
                courses(self@) == s0.take(mark_top(marks, destroyed.len() as int)) + s0.skip(
                    mark_top(marks, destroyed.len() as int),
                ).filter(keep),
                all_on_course(courses(self@), velocities@, positions@, t, moves),
            decreases destroyed.len(),
        {
            let ghost j = destroyed.len() as int;
            let ghost cur = courses(self@);
            let ghost vel = velocities@;
            let ghost pos = positions@;
            proof {
                lemma_removal_step(s0, marks, keep, cur, j);
            }
            let index = destroyed.pop().unwrap();
            assert(index == marks[j - 1]);
            assert(destroyed@ =~= marks.take(j - 1));
            let removed = self.remove_unit(index);
            assert(removed is Ok);
            positions.remove(index);
            velocities.remove(index);
            proof {
                assert(courses(self@) =~= cur.remove(index as int));
                assert forall|i: int| 0 <= i < courses(self@).len() implies on_course(
                    courses(self@)[i],
                    velocities[i],
                    positions[i],
                    t,
                    moves,
                ) by {
                    if i < index {
                        assert(on_course(cur[i], vel[i], pos[i], t, moves));
                    } else {
                        assert(on_course(cur[i + 1], vel[i + 1], pos[i + 1], t, moves));
                    }
                }
            }
        }
        assert(s0.take(0) + s0.skip(0).filter(keep) =~= s0.filter(keep)) by {
            assert(s0.skip(0) =~= s0);
        }
    }

    /// Plays one turn: every unit walks to its destination in `turn_time` equal
    /// steps; each target detonates at the tick given by the whole resource
    /// units spent on the targets before it, destroying the units within
    /// `target_radius`; the artillery wins (2) when no unit is left, the army
    /// (1) when a unit comes within `base_radius` of the base, and the game is
    /// then reset. When the turn runs out (0), the units are rounded to whole
    /// hundredths, which puts each on its destination, and the targets are
    /// cleared. Nothing is validated here: placements were checked when made.
    pub fn run_turn(&mut self) -> (r: Result<usize, ArtilleryError>)
        requires
            old(self).wf(),
        ensures
            final(self).wf(),
            r == Ok::<usize, ArtilleryError>(turn_result(old(self)@).0),
            final(self)@ == after_turn(old(self)@),
            turn_result(old(self)@).0 == 0 ==> final(self)@.units == final(self)@.destinations,
    {
        let ghost g = self@;
        let t: usize = self.turn_time;
        // Velocities and starting positions, both scaled by the tick count.
        let mut velocities: Vec<(i64, i64)> = Vec::new();
        let mut positions: Vec<(i64, i64)> = Vec::new();
        let mut index: usize = 0;
        while index < self.units.len()
            invariant
                self@ == g,
                g.wf(),
                t == g.turn_time,
                index <= g.units.len(),
                velocities@.len() == index,
                positions@.len() == index,
                forall|j: int|
                    0 <= j < index ==> on_course(
                        courses(g)[j],
                        velocities[j],
                        positions[j],
                        t as int,
                        0,
                    ),
            decreases g.units.len() - index,
        {
            proof {
                lemma_scale_bound(g.units[index as int].x as int, t as int);
                lemma_scale_bound(g.units[index as int].y as int, t as int);
            }
            velocities.push(self.calculate_velocity(index));
            positions.push(
                (self.units[index].x as i64 * t as i64, self.units[index].y as i64 * t as i64),
            );
            index = index + 1;
        }
        let mut target_index: usize = 0;
        let mut next_fire: u64 = 0;
        let mut cur_tick: usize = 0;
        while cur_tick < t
            invariant
                old(self)@ == g,
                self.wf(),
                self@ == (GameState { units: self@.units, destinations: self@.destinations, ..g }),
                t == g.turn_time,
                cur_tick <= t,
                all_on_course(courses(self@), velocities@, positions@, t as int, cur_tick as int),
                turn_result(g) == play(g, courses(self@), target_index as int, cur_tick as int),
                next_fire == fire_tick(g.target_costs, target_index as int),
                g.targets.len() == 0 ==> target_index == 0,
                g.targets.len() > 0 ==> target_index < g.targets.len(),
            decreases t - cur_tick,
        {
            let ghost alive = courses(self@);
            let ghost tick = cur_tick as int;
            let ghost aim = target_index as int;
            advance(&mut positions, &velocities, Ghost(alive), Ghost(t as int), Ghost(tick));
            let fired = self.targets.len() != 0 && next_fire == cur_tick as u64;
            assert(fired == fires(g, aim, tick));
            if fired {
                let ghost keep = spared(
                    g.turn_time as int,
                    g.target_radius as int,
                    tick,
                    g.targets[aim],
                );
                let destroyed = mark_caught(
                    &positions,
                    &velocities,
                    self.targets[target_index],
                    self.target_radius,
                    t,
                    Ghost(alive),
                    Ghost(tick),
                );
                if target_index < self.targets.len() - 1 {
                    proof {
                        lemma_fire_tick_bound(g.target_costs, aim + 1);
                        crate::game::lemma_total_take_bound(g.target_costs, aim + 1);
                    }
                    next_fire = next_fire + self.target_costs[target_index] / RESOURCE_UNIT;
                    target_index = target_index + 1;
                }
                self.remove_destroyed(
                    destroyed,
                    &mut positions,
                    &mut velocities,
                    Ghost(keep),
                    Ghost(t as int),
                    Ghost(tick + 1),
                );
            }
            assert(courses(self@) == after_blast(g, alive, aim, tick));
            assert(target_index == next_aim(g, aim, tick));
            if self.units.len() == 0 {
                assert(play(g, alive, aim, tick).0 == 2);
                self.reset_game();
                return Ok(2);
            }
            if self.reaches_base(&positions, &velocities, Ghost(tick)) {
                self.reset_game();
                return Ok(1);
            }
            cur_tick = cur_tick + 1;
        }
        // The turn ran out: round the positions back to whole hundredths.
        let ghost left = courses(self@);
        let mut k: usize = 0;
        while k < self.units.len()
            invariant
                self.wf(),
                self@ == (GameState { units: self@.units, destinations: self@.destinations, ..g }),
                t == g.turn_time,
                left.len() == self@.units.len(),
                self@.destinations == left.map_values(|c: Course| c.1),
                all_on_course(left, velocities@, positions@, t as int, t as int),
                0 <= k <= left.len(),
                forall|j: int| 0 <= j < k ==> self@.units[j] == settled(g, left[j]),
                forall|j: int| k <= j < left.len() ==> self@.units[j] == left[j].0,
            decreases left.len() - k,
        {
            let ghost c = left[k as int];
            proof {
                lemma_moved_bound(c.0.x as int, c.1.x as int, t as int, t as int);
                lemma_moved_bound(c.0.y as int, c.1.y as int, t as int, t as int);
                lemma_settled_at_destination(g, c);
            }
            let p = positions[k];
            assert(on_course(c, velocities[k as int], p, t as int, t as int));
            let x = round_scaled(p.0, t as i64);
            let y = round_scaled(p.1, t as i64);
            let ghost before = self@;
            self.units[k] = Coordinate { x: x as i32, y: y as i32 };
            proof {
                assert(self@.units[k as int] == before.destinations[k as int]);
                assert forall|i: int| 0 <= i < self@.units.len() implies self@.in_map(
                    #[trigger] self@.units[i],
                ) by {
                    if i != k {
                        assert(self@.units[i] == before.units[i]);
                    }
                }
            }
            k = k + 1;
        }
        self.reset_targets();
        proof {
            assert(self@.units =~= left.map_values(|c: Course| settled(g, c)));
            assert forall|j: int| 0 <= j < left.len() implies self@.units[j]
                == self@.destinations[j] by {
                lemma_settled_at_destination(g, left[j]);
            }
            assert(self@.units =~= self@.destinations);
        }
        Ok(0)
    }
}

} // verus!
