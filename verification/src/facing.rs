//! `Facing` (down = 0 .. east = 5), opposite-face and per-axis step tables.

use vstd::prelude::*;

verus! {

/// One of the six faces of a tile. The ids (see [`Facing::id`]) are the face
/// ids stored in hit results and save data, so they must not be reordered.
#[derive(Clone, Copy, Debug, PartialEq, Eq, Hash, Structural)]
pub enum Facing {
    /// −Y
    Down,
    /// +Y
    Up,
    /// −Z
    North,
    /// +Z
    South,
    /// −X
    West,
    /// +X
    East,
}

/// The id of a face: down 0, up 1, north 2, south 3, west 4, east 5.
pub open spec fn facing_id(f: Facing) -> u8 {
    match f {
        Facing::Down => 0,
        Facing::Up => 1,
        Facing::North => 2,
        Facing::South => 3,
        Facing::West => 4,
        Facing::East => 5,
    }
}

/// The face with a given id, if the id is one of `0..=5`.
pub open spec fn facing_from_id(id: u8) -> Option<Facing> {
    if id == 0 {
        Some(Facing::Down)
    } else if id == 1 {
        Some(Facing::Up)
    } else if id == 2 {
        Some(Facing::North)
    } else if id == 3 {
        Some(Facing::South)
    } else if id == 4 {
        Some(Facing::West)
    } else if id == 5 {
        Some(Facing::East)
    } else {
        None
    }
}

/// The face across the tile: down/up, north/south and west/east pair up.
pub open spec fn facing_opposite(f: Facing) -> Facing {
    match f {
        Facing::Down => Facing::Up,
        Facing::Up => Facing::Down,
        Facing::North => Facing::South,
        Facing::South => Facing::North,
        Facing::West => Facing::East,
        Facing::East => Facing::West,
    }
}

/// The unit step along X when crossing a face.
pub open spec fn facing_step_x(f: Facing) -> int {
    match f {
        Facing::West => -1,
        Facing::East => 1,
        _ => 0,
    }
}

/// The unit step along Y when crossing a face.
pub open spec fn facing_step_y(f: Facing) -> int {
    match f {
        Facing::Down => -1,
        Facing::Up => 1,
        _ => 0,
    }
}

/// The unit step along Z when crossing a face.
pub open spec fn facing_step_z(f: Facing) -> int {
    match f {
        Facing::North => -1,
        Facing::South => 1,
        _ => 0,
    }
}

impl Facing {
    /// All six faces, indexed by id (down, up, north, south, west, east).
    pub const ALL: [Facing; 6] = [
        Facing::Down,
        Facing::Up,
        Facing::North,
        Facing::South,
        Facing::West,
        Facing::East,
    ];

    /// This face's id, `0` (down) through `5` (east).
    pub fn id(self) -> (r: u8)
        ensures
            r == facing_id(self),
            r < 6,
    {
        match self {
            Facing::Down => 0,
            Facing::Up => 1,
            Facing::North => 2,
            Facing::South => 3,
            Facing::West => 4,
            Facing::East => 5,
        }
    }

    /// The face with the given id, or `None` if `id` is not `0..=5`.
    pub fn from_id(id: u8) -> (r: Option<Facing>)
        ensures
            r == facing_from_id(id),
            r is None <==> id >= 6,
            r matches Some(f) ==> facing_id(f) == id,
    {
        match id {
            0 => Some(Facing::Down),
            1 => Some(Facing::Up),
            2 => Some(Facing::North),
            3 => Some(Facing::South),
            4 => Some(Facing::West),
            5 => Some(Facing::East),
            _ => None,
        }
    }

    /// The face on the other side of a tile from this one.
    pub fn opposite(self) -> (r: Facing)
        ensures
            r == facing_opposite(self),
    {
        match self {
            Facing::Down => Facing::Up,
            Facing::Up => Facing::Down,
            Facing::North => Facing::South,
            Facing::South => Facing::North,
            Facing::West => Facing::East,
            Facing::East => Facing::West,
        }
    }

    /// The unit step along `x` when crossing this face: `-1` for west, `1`
    /// for east, `0` for every other face.
    pub fn step_x(self) -> (r: i32)
        ensures
            r == facing_step_x(self),
    {
        match self {
            Facing::West => -1,
            Facing::East => 1,
            Facing::Down | Facing::Up | Facing::North | Facing::South => 0,
        }
    }

    /// The unit step along `y` when crossing this face: `-1` for down, `1`
    /// for up, `0` for every other face.
    pub fn step_y(self) -> (r: i32)
        ensures
            r == facing_step_y(self),
    {
        match self {
            Facing::Down => -1,
            Facing::Up => 1,
            Facing::North | Facing::South | Facing::West | Facing::East => 0,
        }
    }

    /// The unit step along `z` when crossing this face: `-1` for north, `1`
    /// for south, `0` for every other face.
    pub fn step_z(self) -> (r: i32)
        ensures
            r == facing_step_z(self),
    {
        match self {
            Facing::North => -1,
            Facing::South => 1,
            Facing::Down | Facing::Up | Facing::West | Facing::East => 0,
        }
    }
}

impl core::convert::TryFrom<u8> for Facing {
    /// The rejected id.
    type Error = u8;

    fn try_from(id: u8) -> (r: Result<Facing, u8>) {
        match Facing::from_id(id) {
            Some(f) => Ok(f),
            None => Err(id),
        }
    }
}

impl vstd::std_specs::convert::TryFromSpecImpl<u8> for Facing {
    open spec fn obeys_try_from_spec() -> bool {
        true
    }

    open spec fn try_from_spec(id: u8) -> Result<Facing, u8> {
        match facing_from_id(id) {
            Some(f) => Ok(f),
            None => Err(id),
        }
    }
}

/// Opposite faces pair up: taking the opposite twice gives the face back.
pub proof fn lemma_facing_opposite_involution(f: Facing)
    ensures
        facing_opposite(facing_opposite(f)) == f,
        facing_opposite(f) != f,
{
}

/// Every face steps along exactly one axis, by one unit, and its opposite
/// face steps the other way along the same axis.
pub proof fn lemma_facing_steps(f: Facing)
    ensures
        (facing_step_x(f) != 0) as int + (facing_step_y(f) != 0) as int + (facing_step_z(f)
            != 0) as int == 1,
        -1 <= facing_step_x(f) <= 1,
        -1 <= facing_step_y(f) <= 1,
        -1 <= facing_step_z(f) <= 1,
        facing_step_x(facing_opposite(f)) == -facing_step_x(f),
        facing_step_y(facing_opposite(f)) == -facing_step_y(f),
        facing_step_z(facing_opposite(f)) == -facing_step_z(f),
{
}

/// Ids round-trip: every face is found again under its id, and exactly the
/// ids `0..=5` name a face.
pub proof fn lemma_facing_id_round_trip(f: Facing, id: u8)
    ensures
        facing_from_id(facing_id(f)) == Some(f),
        facing_from_id(id) is Some <==> id < 6,
        facing_from_id(id) matches Some(g) ==> facing_id(g) == id,
{
}

} // verus!
