//! Exhaustive tables for [`Facing`] and [`Direction`]: every entry of every
//! table these two types expose, so a single mismatched or transposed entry
//! is caught. Face ids are down 0, up 1, north 2, south 3, west 4, east 5;
//! direction ids are south 0, west 1, north 2, east 3; `-1` marks "none".

use lce_math::direction::Direction;
use lce_math::facing::Facing;

fn facing(id: u8) -> Facing {
    Facing::from_id(id).expect("valid facing id")
}

fn direction(id: u8) -> Direction {
    Direction::from_id(id).expect("valid direction id")
}

/// Opposite face id, by face id.
const FACING_OPPOSITE: [i32; 6] = [1, 0, 3, 2, 5, 4];

/// `(step_x, step_y, step_z)`, by face id.
const FACING_STEP: [[i32; 3]; 6] = [
    [0, -1, 0],
    [0, 1, 0],
    [0, 0, -1],
    [0, 0, 1],
    [-1, 0, 0],
    [1, 0, 0],
];

/// Direction id of a face, or `-1`, by face id.
const FACING_DIRECTION: [i32; 6] = [-1, -1, 2, 0, 1, 3];

/// `(step_x, step_z)`, by direction id.
const DIRECTION_STEP: [[i32; 2]; 4] = [[0, 1], [-1, 0], [0, -1], [1, 0]];

/// Face id a direction points toward, by direction id.
const DIRECTION_FACING: [i32; 4] = [3, 4, 2, 5];

/// Opposite direction id, by direction id.
const DIRECTION_OPPOSITE: [i32; 4] = [2, 3, 0, 1];

/// Clockwise neighbour id, by direction id.
const DIRECTION_CLOCKWISE: [i32; 4] = [1, 2, 3, 0];

/// Counter-clockwise neighbour id, by direction id.
const DIRECTION_COUNTER_CLOCKWISE: [i32; 4] = [3, 0, 1, 2];

/// Relative face id, by direction id then world face id.
const RELATIVE_DIRECTION_FACING: [[i32; 6]; 4] = [
    [1, 0, 3, 2, 5, 4],
    [1, 0, 5, 4, 2, 3],
    [1, 0, 2, 3, 4, 5],
    [1, 0, 4, 5, 3, 2],
];

#[test]
fn facing_opposite_table() {
    for f in 0..6u8 {
        let got = i32::from(facing(f).opposite().id());
        assert_eq!(got, FACING_OPPOSITE[f as usize], "f={f}");
    }
}

#[test]
fn facing_step_tables() {
    for f in 0..6u8 {
        let face = facing(f);
        let got = [face.step_x(), face.step_y(), face.step_z()];
        assert_eq!(got, FACING_STEP[f as usize], "f={f}");
    }
}

#[test]
fn facing_to_direction_table() {
    for f in 0..6u8 {
        let got = Direction::from_facing(facing(f)).map_or(-1, |d| i32::from(d.id()));
        assert_eq!(got, FACING_DIRECTION[f as usize], "f={f}");
    }
}

#[test]
fn direction_step_tables() {
    for d in 0..4u8 {
        let dir = direction(d);
        assert_eq!([dir.step_x(), dir.step_z()], DIRECTION_STEP[d as usize], "d={d}");
    }
}

#[test]
fn direction_to_facing_table() {
    for d in 0..4u8 {
        let got = i32::from(direction(d).facing().id());
        assert_eq!(got, DIRECTION_FACING[d as usize], "d={d}");
    }
}

#[test]
fn direction_opposite_table() {
    for d in 0..4u8 {
        let got = i32::from(direction(d).opposite().id());
        assert_eq!(got, DIRECTION_OPPOSITE[d as usize], "d={d}");
    }
}

#[test]
fn direction_clockwise_table() {
    for d in 0..4u8 {
        let got = i32::from(direction(d).clockwise().id());
        assert_eq!(got, DIRECTION_CLOCKWISE[d as usize], "d={d}");
    }
}

#[test]
fn direction_counter_clockwise_table() {
    for d in 0..4u8 {
        let got = i32::from(direction(d).counter_clockwise().id());
        assert_eq!(got, DIRECTION_COUNTER_CLOCKWISE[d as usize], "d={d}");
    }
}

#[test]
fn relative_direction_facing_table() {
    for d in 0..4u8 {
        for f in 0..6u8 {
            let got = i32::from(direction(d).relative_facing(facing(f)).id());
            assert_eq!(got, RELATIVE_DIRECTION_FACING[d as usize][f as usize], "d={d} f={f}");
        }
    }
}
