use vstd::prelude::*;

use crate::geometry::Coordinate;

verus! {

/// Which distance limit a rejected coordinate broke.
#[derive(Clone, Copy, Debug, PartialEq, Eq, Structural)]
pub enum DistanceLimit {
    /// The coordinate lies outside the map disk around the base.
    MapRadius,
    /// The coordinate lies beyond a unit's movement range from its position.
    UnitRange,
}

/// What went wrong in an operation on a game. Every error leaves the game
/// unchanged. `op` names the operation that refused the call.
#[derive(Clone, Copy, Debug)]
pub enum ArtilleryError {
    /// No unit, destination or target exists at `index`.
    IndexError { op: &'static str, index: usize },
    /// `coord` lies farther from `reference` than the limit `limit` allows.
    DistanceError {
        op: &'static str,
        limit: DistanceLimit,
        coord: Coordinate,
        reference: Coordinate,
    },
    /// A strike costs `cost` while only `available` is left of the budget
    /// (both in billionths of a resource unit).
    ResourceError { op: &'static str, cost: u128, available: u64 },
}

impl ArtilleryError {
    /// The error of `func_name` for an `index` that addresses nothing.
    pub fn index_error(func_name: &'static str, index: usize) -> (r: ArtilleryError)
        ensures
            r == (ArtilleryError::IndexError { op: func_name, index }),
    {
        ArtilleryError::IndexError { op: func_name, index }
    }

    /// The error of `func_name` for `coord1`, which lies beyond `limit` from
    /// `coord2`.
    pub fn maximum_distance_error(
        func_name: &'static str,
        limit: DistanceLimit,
        coord1: &Coordinate,
        coord2: &Coordinate,
    ) -> (r: ArtilleryError)
        ensures
            r == (ArtilleryError::DistanceError {
                op: func_name,
                limit,
                coord: *coord1,
                reference: *coord2,
            }),
    {
        ArtilleryError::DistanceError { op: func_name, limit, coord: *coord1, reference: *coord2 }
    }

    /// The error of `func_name` for a strike of `cost` beyond the `available`
    /// budget.
    pub fn resource_error(func_name: &'static str, cost: u128, available: u64) -> (r:
        ArtilleryError)
        ensures
            r == (ArtilleryError::ResourceError { op: func_name, cost, available }),
    {
        ArtilleryError::ResourceError { op: func_name, cost, available }
    }
}

} // verus!
