//! Numeric primitives of the simulation: integer positions and their
//! hashes, tile faces and horizontal directions, the seeded 48-bit
//! generator and weighted selection.

pub mod direction;
pub mod facing;
pub mod mth;
pub mod pos;
pub mod random;
pub mod text;
pub mod weighed_random;
