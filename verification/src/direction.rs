//! `Direction` (south = 0 .. east = 3) and its rotation tables.

use vstd::prelude::*;

use crate::facing::{facing_id, Facing};

verus! {

/// One of the four horizontal directions used to orient a tile or entity.
/// The ids (see [`Direction::id`]) are the orientation ids stored in save
/// data, so they must not be reordered.
#[derive(Clone, Copy, Debug, PartialEq, Eq, Hash, Structural)]
pub enum Direction {
    /// +Z
    South,
    /// −X
    West,
    /// −Z
    North,
    /// +X
    East,
}

/// The id of a direction: south 0, west 1, north 2, east 3.
pub open spec fn direction_id(d: Direction) -> u8 {
    match d {
        Direction::South => 0,
        Direction::West => 1,
        Direction::North => 2,
        Direction::East => 3,
    }
}

/// The direction with a given id, if the id is one of `0..=3`.
pub open spec fn direction_from_id(id: u8) -> Option<Direction> {
    if id == 0 {
        Some(Direction::South)
    } else if id == 1 {
        Some(Direction::West)
    } else if id == 2 {
        Some(Direction::North)
    } else if id == 3 {
        Some(Direction::East)
    } else {
        None
    }
}

/// The unit step along X when moving in a direction.
pub open spec fn direction_step_x(d: Direction) -> int {
    match d {
        Direction::West => -1,
        Direction::East => 1,
        _ => 0,
    }
}

/// The unit step along Z when moving in a direction.
pub open spec fn direction_step_z(d: Direction) -> int {
    match d {
        Direction::South => 1,
        Direction::North => -1,
        _ => 0,
    }
}

/// The tile face a direction points toward.
pub open spec fn direction_facing(d: Direction) -> Facing {
    match d {
        Direction::South => Facing::South,
        Direction::West => Facing::West,
        Direction::North => Facing::North,
        Direction::East => Facing::East,
    }
}

/// The direction a face points toward; none for the two vertical faces.
pub open spec fn direction_from_facing(f: Facing) -> Option<Direction> {
    match f {
        Facing::Down => None,
        Facing::Up => None,
        Facing::North => Some(Direction::North),
        Facing::South => Some(Direction::South),
        Facing::West => Some(Direction::West),
        Facing::East => Some(Direction::East),
    }
}

/// The direction pointing the other way.
pub open spec fn direction_opposite(d: Direction) -> Direction {
    match d {
        Direction::South => Direction::North,
        Direction::West => Direction::East,
        Direction::North => Direction::South,
        Direction::East => Direction::West,
    }
}

/// A quarter turn clockwise, viewed from above.
pub open spec fn direction_clockwise(d: Direction) -> Direction {
    match d {
        Direction::South => Direction::West,
        Direction::West => Direction::North,
        Direction::North => Direction::East,
        Direction::East => Direction::South,
    }
}

/// A quarter turn counter-clockwise, viewed from above.
pub open spec fn direction_counter_clockwise(d: Direction) -> Direction {
    match d {
        Direction::South => Direction::East,
        Direction::West => Direction::South,
        Direction::North => Direction::West,
        Direction::East => Direction::North,
    }
}

/// The face that a world-space face becomes when re-expressed relative to an
/// object oriented in direction `d`.
///
/// For every direction the two vertical faces swap; the horizontal faces
/// rotate with the direction, north being the identity orientation.
pub open spec fn direction_relative_facing(d: Direction, f: Facing) -> Facing {
    match f {
        Facing::Down => Facing::Up,
        Facing::Up => Facing::Down,
        Facing::North => match d {
            Direction::South => Facing::South,
            Direction::West => Facing::East,
            Direction::North => Facing::North,
            Direction::East => Facing::West,
        },
        Facing::South => match d {
            Direction::South => Facing::North,
            Direction::West => Facing::West,
            Direction::North => Facing::South,
            Direction::East => Facing::East,
        },
        Facing::West => match d {
            Direction::South => Facing::East,
            Direction::West => Facing::North,
            Direction::North => Facing::West,
            Direction::East => Facing::South,
        },
        Facing::East => match d {
            Direction::South => Facing::West,
            Direction::West => Facing::South,
            Direction::North => Facing::East,
            Direction::East => Facing::North,
        },
    }
}

impl Direction {
    /// All four directions, indexed by id (south, west, north, east).
    pub const ALL: [Direction; 4] = [
        Direction::South,
        Direction::West,
        Direction::North,
        Direction::East,
    ];

    /// This direction's id, `0` (south) through `3` (east).
    pub fn id(self) -> (r: u8)
        ensures
            r == direction_id(self),
            r < 4,
    {
        match self {
            Direction::South => 0,
            Direction::West => 1,
            Direction::North => 2,
            Direction::East => 3,
        }
    }

    /// The direction with the given id, or `None` if `id` is not `0..=3`.
    pub fn from_id(id: u8) -> (r: Option<Direction>)
        ensures
            r == direction_from_id(id),
            r is None <==> id >= 4,
            r matches Some(d) ==> direction_id(d) == id,
    {
        match id {
            0 => Some(Direction::South),
            1 => Some(Direction::West),
            2 => Some(Direction::North),
            3 => Some(Direction::East),
            _ => None,
        }
    }

    /// The unit step along `x` when moving this way: `-1` for west, `1` for
    /// east, `0` for north/south.
    pub fn step_x(self) -> (r: i32)
        ensures
            r == direction_step_x(self),
    {
        match self {
            Direction::West => -1,
            Direction::East => 1,
            Direction::South | Direction::North => 0,
        }
    }

    /// The unit step along `z` when moving this way: `-1` for north, `1` for
    /// south, `0` for west/east.
    pub fn step_z(self) -> (r: i32)
        ensures
            r == direction_step_z(self),
    {
        match self {
            Direction::South => 1,
            Direction::North => -1,
            Direction::West | Direction::East => 0,
        }
    }

    /// The tile face this direction points toward.
    pub fn facing(self) -> (r: Facing)
        ensures
            r == direction_facing(self),
    {
        match self {
            Direction::South => Facing::South,
            Direction::West => Facing::West,
            Direction::North => Facing::North,
            Direction::East => Facing::East,
        }
    }

    /// The direction a face points toward, or `None` for [`Facing::Down`] and
    /// [`Facing::Up`], which have no horizontal direction.
    pub fn from_facing(facing: Facing) -> (r: Option<Direction>)
        ensures
            r == direction_from_facing(facing),
    {
        match facing {
            Facing::Down | Facing::Up => None,
            Facing::North => Some(Direction::North),
            Facing::South => Some(Direction::South),
            Facing::West => Some(Direction::West),
            Facing::East => Some(Direction::East),
        }
    }

    /// The direction pointing the opposite way.
    pub fn opposite(self) -> (r: Direction)
        ensures
            r == direction_opposite(self),
    {
        match self {
            Direction::South => Direction::North,
            Direction::West => Direction::East,
            Direction::North => Direction::South,
            Direction::East => Direction::West,
        }
    }

    /// This direction rotated 90 degrees clockwise (viewed from above).
    pub fn clockwise(self) -> (r: Direction)
        ensures
            r == direction_clockwise(self),
    {
        match self {
            Direction::South => Direction::West,
            Direction::West => Direction::North,
            Direction::North => Direction::East,
            Direction::East => Direction::South,
        }
    }

    /// This direction rotated 90 degrees counter-clockwise (viewed from
    /// above).
    pub fn counter_clockwise(self) -> (r: Direction)
        ensures
            r == direction_counter_clockwise(self),
    {
        match self {
            Direction::South => Direction::East,
            Direction::West => Direction::South,
            Direction::North => Direction::West,
            Direction::East => Direction::North,
        }
    }

    /// Re-expresses a world-space face relative to an object oriented this
    /// way, e.g. turning a stair's "world north" side into its "left" side
    /// once the stair itself faces west.
    pub fn relative_facing(self, world_facing: Facing) -> (r: Facing)
        ensures
            r == direction_relative_facing(self, world_facing),
    {
        match world_facing {
            Facing::Down => Facing::Up,
            Facing::Up => Facing::Down,
            Facing::North => match self {
                Direction::South => Facing::South,
                Direction::West => Facing::East,
                Direction::North => Facing::North,
                Direction::East => Facing::West,
            },
            Facing::South => match self {
                Direction::South => Facing::North,
                Direction::West => Facing::West,
                Direction::North => Facing::South,
                Direction::East => Facing::East,
            },
            Facing::West => match self {
                Direction::South => Facing::East,
                Direction::West => Facing::North,
                Direction::North => Facing::West,
                Direction::East => Facing::South,
            },
            Facing::East => match self {
                Direction::South => Facing::West,
                Direction::West => Facing::South,
                Direction::North => Facing::East,
                Direction::East => Facing::North,
            },
        }
    }
}

impl core::convert::TryFrom<u8> for Direction {
    /// The rejected id.
    type Error = u8;

    fn try_from(id: u8) -> (r: Result<Direction, u8>) {
        match Direction::from_id(id) {
            Some(d) => Ok(d),
            None => Err(id),
        }
    }
}

impl vstd::std_specs::convert::TryFromSpecImpl<u8> for Direction {
    open spec fn obeys_try_from_spec() -> bool {
        true
    }

    open spec fn try_from_spec(id: u8) -> Result<Direction, u8> {
        match direction_from_id(id) {
            Some(d) => Ok(d),
            None => Err(id),
        }
    }
}

/// The opposite direction is an involution with no fixed point, and it
/// points toward the opposite face.
pub proof fn lemma_direction_opposite(d: Direction)
    ensures
        direction_opposite(direction_opposite(d)) == d,
        direction_opposite(d) != d,
        direction_facing(direction_opposite(d)) == crate::facing::facing_opposite(
            direction_facing(d),
        ),
        direction_step_x(direction_opposite(d)) == -direction_step_x(d),
        direction_step_z(direction_opposite(d)) == -direction_step_z(d),
{
}

/// Rotations: four quarter turns either way are the identity, a clockwise and
/// a counter-clockwise turn undo each other, and two clockwise turns give the
/// opposite direction.
pub proof fn lemma_direction_rotations(d: Direction)
    ensures
        direction_clockwise(direction_clockwise(direction_clockwise(direction_clockwise(d))))
            == d,
        direction_counter_clockwise(
            direction_counter_clockwise(direction_counter_clockwise(direction_counter_clockwise(d))),
        ) == d,
        direction_counter_clockwise(direction_clockwise(d)) == d,
        direction_clockwise(direction_counter_clockwise(d)) == d,
        direction_clockwise(direction_clockwise(d)) == direction_opposite(d),
{
}

/// Every direction steps by one unit along exactly one horizontal axis.
pub proof fn lemma_direction_unit_step(d: Direction)
    ensures
        (if direction_step_x(d) < 0 { -direction_step_x(d) } else { direction_step_x(d) }) + (
        if direction_step_z(d) < 0 { -direction_step_z(d) } else { direction_step_z(d) }) == 1,
{
}

/// Directions and horizontal faces correspond one to one; the vertical faces
/// have no direction.
pub proof fn lemma_direction_facing_round_trip(d: Direction, f: Facing)
    ensures
        direction_from_facing(direction_facing(d)) == Some(d),
        direction_from_facing(f) matches Some(e) ==> direction_facing(e) == f,
        direction_from_facing(f) is None <==> (f == Facing::Down || f == Facing::Up),
{
}

/// Ids round-trip, and exactly the ids `0..=3` name a direction.
pub proof fn lemma_direction_id_round_trip(d: Direction, id: u8)
    ensures
        direction_from_id(direction_id(d)) == Some(d),
        direction_from_id(id) is Some <==> id < 4,
        direction_from_id(id) matches Some(e) ==> direction_id(e) == id,
{
}

/// Relative facing: the vertical faces swap for every direction, north is
/// the identity on the horizontal faces, and for each direction the mapping
/// is a permutation of the six faces.
pub proof fn lemma_relative_facing(d: Direction, f: Facing, g: Facing)
    ensures
        direction_relative_facing(d, Facing::Down) == Facing::Up,
        direction_relative_facing(d, Facing::Up) == Facing::Down,
        (f != Facing::Down && f != Facing::Up) ==> direction_relative_facing(Direction::North, f)
            == f,
        direction_relative_facing(d, f) == direction_relative_facing(d, g) ==> f == g,
        facing_id(direction_relative_facing(d, f)) < 6,
{
}

} // verus!
