//! `Pos`, `TilePos`, `ChunkPos` and the `ChunkPos` 64-bit hash.
//!
//! All coordinate arithmetic in this module is two's-complement and wraps on
//! overflow. That is part of the specified behaviour: the hashes in
//! particular are expected to overflow for large coordinates, and the same
//! inputs must always produce the same bits.

use vstd::prelude::*;

use crate::mth::{lemma_wrap_i32_congruent, lemma_wrap_i32_repr, lemma_wrap_i32_small, wrap_i32};
use vstd::std_specs::ops::{AddSpec, SubSpec};
use crate::text::{decimal_chars, push_decimal, push_str};

verus! {

/// An integer position, used for things like village centres and door
/// positions.
///
/// North is −Z, south is +Z, west is −X and east is +X.
#[derive(Clone, Copy, Debug, PartialEq, Eq, Hash, Structural)]
pub struct Pos {
    pub x: i32,
    pub y: i32,
    pub z: i32,
}

/// The position `(x, y, z)` translated by `(dx, dy, dz)`, each coordinate
/// wrapping.
pub open spec fn pos_offset(p: Pos, dx: int, dy: int, dz: int) -> Pos {
    Pos {
        x: wrap_i32(p.x + dx) as i32,
        y: wrap_i32(p.y + dy) as i32,
        z: wrap_i32(p.z + dz) as i32,
    }
}

/// The 32-bit hash of a position, `x + (z << 8) + (y << 16)`, wrapping.
pub open spec fn pos_hash(p: Pos) -> int {
    wrap_i32(p.x + p.z * 0x100 + p.y * 0x1_0000)
}

/// The comparison of [`Pos::compare_to`]: the wrapping difference of the
/// first of `y`, `z`, `x` that differs, or `0`.
pub open spec fn pos_compare(p: Pos, q: Pos) -> int {
    if p.y != q.y {
        wrap_i32(p.y - q.y)
    } else if p.z != q.z {
        wrap_i32(p.z - q.z)
    } else {
        wrap_i32(p.x - q.x)
    }
}

impl Pos {
    /// The origin, `(0, 0, 0)`.
    pub fn zero() -> (r: Pos)
        ensures
            r == (Pos { x: 0, y: 0, z: 0 }),
    {
        Pos { x: 0, y: 0, z: 0 }
    }

    pub fn new(x: i32, y: i32, z: i32) -> (r: Pos)
        ensures
            r == (Pos { x, y, z }),
    {
        Pos { x, y, z }
    }

    /// The 32-bit hash `x + (z << 8) + (y << 16)`, wrapping.
    ///
    /// Positions that differ by 256 in `x` and −1 in `z` (and similar)
    /// collide; the hash is only meant to spread nearby positions.
    pub fn hash_code(self) -> (r: i32)
        ensures
            r == pos_hash(self),
    {
        let z8 = self.z.wrapping_mul(0x100);
        let y16 = self.y.wrapping_mul(0x1_0000);
        let r = self.x.wrapping_add(z8).wrapping_add(y16);
        proof {
            crate::mth::lemma_wrapping_mul_i32(self.z, 0x100);
            crate::mth::lemma_wrapping_mul_i32(self.y, 0x1_0000);
            crate::mth::lemma_wrapping_add_i32(self.x, z8);
            let t = self.x.wrapping_add(z8);
            crate::mth::lemma_wrapping_add_i32(t, y16);
            crate::mth::lemma_wrap_i32_add(self.x + self.z * 0x100, self.y * 0x1_0000);
            crate::mth::lemma_wrap_i32_add(self.z * 0x100, self.x as int);
            crate::mth::lemma_wrap_i32_add(self.y * 0x1_0000, t as int);
        }
        r
    }

    /// Orders by `y`, then `z`, then `x`, returning the wrapping difference
    /// of the first coordinate that differs (or `0` if all are equal).
    ///
    /// Only the sign of the result is meaningful, and even that flips when
    /// the difference overflows (for example `i32::MIN` against `1`), so this
    /// is deliberately not exposed as `Ord`.
    pub fn compare_to(self, other: Pos) -> (r: i32)
        ensures
            r == pos_compare(self, other),
    {
        proof {
            crate::mth::lemma_wrapping_sub_i32(self.y, other.y);
            crate::mth::lemma_wrapping_sub_i32(self.z, other.z);
            crate::mth::lemma_wrapping_sub_i32(self.x, other.x);
        }
        if self.y != other.y {
            self.y.wrapping_sub(other.y)
        } else if self.z != other.z {
            self.z.wrapping_sub(other.z)
        } else {
            self.x.wrapping_sub(other.x)
        }
    }

    /// Returns this position translated by `(dx, dy, dz)`.
    pub fn offset(self, dx: i32, dy: i32, dz: i32) -> (r: Pos)
        ensures
            r == pos_offset(self, dx as int, dy as int, dz as int),
    {
        proof {
            crate::mth::lemma_wrapping_add_i32(self.x, dx);
            crate::mth::lemma_wrapping_add_i32(self.y, dy);
            crate::mth::lemma_wrapping_add_i32(self.z, dz);
        }
        Pos::new(self.x.wrapping_add(dx), self.y.wrapping_add(dy), self.z.wrapping_add(dz))
    }

    /// One step up (+Y).
    pub fn above(self) -> (r: Pos)
        ensures
            r == pos_offset(self, 0, 1, 0),
    {
        self.above_n(1)
    }

    /// `steps` up (+Y).
    pub fn above_n(self, steps: i32) -> (r: Pos)
        ensures
            r == pos_offset(self, 0, steps as int, 0),
    {
        self.offset(0, steps, 0)
    }

    /// One step down (−Y).
    pub fn below(self) -> (r: Pos)
        ensures
            r == pos_offset(self, 0, -1, 0),
    {
        self.below_n(1)
    }

    /// `steps` down (−Y).
    pub fn below_n(self, steps: i32) -> (r: Pos)
        ensures
            r == pos_offset(self, 0, -steps, 0),
    {
        proof {
            crate::mth::lemma_wrapping_sub_i32(self.y, steps);
            crate::mth::lemma_wrap_i32_small(self.x as int);
            crate::mth::lemma_wrap_i32_small(self.z as int);
        }
        Pos::new(self.x, self.y.wrapping_sub(steps), self.z)
    }

    /// One step north (−Z).
    pub fn north(self) -> (r: Pos)
        ensures
            r == pos_offset(self, 0, 0, -1),
    {
        self.north_n(1)
    }

    /// `steps` north (−Z).
    pub fn north_n(self, steps: i32) -> (r: Pos)
        ensures
            r == pos_offset(self, 0, 0, -steps),
    {
        proof {
            crate::mth::lemma_wrapping_sub_i32(self.z, steps);
            crate::mth::lemma_wrap_i32_small(self.x as int);
            crate::mth::lemma_wrap_i32_small(self.y as int);
        }
        Pos::new(self.x, self.y, self.z.wrapping_sub(steps))
    }

    /// One step south (+Z).
    pub fn south(self) -> (r: Pos)
        ensures
            r == pos_offset(self, 0, 0, 1),
    {
        self.south_n(1)
    }

    /// `steps` south (+Z).
    pub fn south_n(self, steps: i32) -> (r: Pos)
        ensures
            r == pos_offset(self, 0, 0, steps as int),
    {
        self.offset(0, 0, steps)
    }

    /// One step west (−X).
    pub fn west(self) -> (r: Pos)
        ensures
            r == pos_offset(self, -1, 0, 0),
    {
        self.west_n(1)
    }

    /// `steps` west (−X).
    pub fn west_n(self, steps: i32) -> (r: Pos)
        ensures
            r == pos_offset(self, -steps, 0, 0),
    {
        proof {
            crate::mth::lemma_wrapping_sub_i32(self.x, steps);
            crate::mth::lemma_wrap_i32_small(self.y as int);
            crate::mth::lemma_wrap_i32_small(self.z as int);
        }
        Pos::new(self.x.wrapping_sub(steps), self.y, self.z)
    }

    /// One step east (+X).
    pub fn east(self) -> (r: Pos)
        ensures
            r == pos_offset(self, 1, 0, 0),
    {
        self.east_n(1)
    }

    /// `steps` east (+X).
    pub fn east_n(self, steps: i32) -> (r: Pos)
        ensures
            r == pos_offset(self, steps as int, 0, 0),
    {
        self.offset(steps, 0, 0)
    }

    /// The coordinate differences to `(x, y, z)` that [`Pos::dist`] measures,
    /// before the root: the wrapping `x` difference (squared in `f64` by the
    /// caller), and the `y` and `z` differences each squared as a wrapping
    /// `i32` product. These overflow once a difference exceeds 46340 in
    /// magnitude.
    pub fn dist_terms(self, x: i32, y: i32, z: i32) -> (r: (i32, i32, i32))
        ensures
            r.0 == wrap_i32(self.x - x),
            r.1 == wrap_i32(wrap_i32(self.y - y) * wrap_i32(self.y - y)),
            r.2 == wrap_i32(wrap_i32(self.z - z) * wrap_i32(self.z - z)),
    {
        let dx = self.x.wrapping_sub(x);
        let dy = self.y.wrapping_sub(y);
        let dz = self.z.wrapping_sub(z);
        proof {
            crate::mth::lemma_wrapping_sub_i32(self.x, x);
            crate::mth::lemma_wrapping_sub_i32(self.y, y);
            crate::mth::lemma_wrapping_sub_i32(self.z, z);
            crate::mth::lemma_wrapping_mul_i32(dy, dy);
            crate::mth::lemma_wrapping_mul_i32(dz, dz);
        }
        (dx, dy.wrapping_mul(dy), dz.wrapping_mul(dz))
    }

    /// The squared distance to `(x, y, z)` that [`Pos::dist_sqr`] rounds to
    /// `f32`: computed entirely in wrapping `i32` arithmetic.
    pub fn dist_sqr_sum(self, x: i32, y: i32, z: i32) -> (r: i32)
        ensures
            r == wrap_i32(
                (self.x - x) * (self.x - x) + (self.y - y) * (self.y - y) + (self.z - z) * (self.z
                    - z),
            ),
    {
        let dx = self.x.wrapping_sub(x);
        let dy = self.y.wrapping_sub(y);
        let dz = self.z.wrapping_sub(z);
        let xx = dx.wrapping_mul(dx);
        let yy = dy.wrapping_mul(dy);
        let zz = dz.wrapping_mul(dz);
        let s1 = xx.wrapping_add(yy);
        let s2 = s1.wrapping_add(zz);
        proof {
            crate::mth::lemma_wrapping_sub_i32(self.x, x);
            crate::mth::lemma_wrapping_sub_i32(self.y, y);
            crate::mth::lemma_wrapping_sub_i32(self.z, z);
            crate::mth::lemma_wrapping_mul_i32(dx, dx);
            crate::mth::lemma_wrapping_mul_i32(dy, dy);
            crate::mth::lemma_wrapping_mul_i32(dz, dz);
            crate::mth::lemma_wrapping_add_i32(xx, yy);
            crate::mth::lemma_wrapping_add_i32(s1, zz);
            crate::mth::lemma_wrap_i32_square(self.x - x);
            crate::mth::lemma_wrap_i32_square(self.y - y);
            crate::mth::lemma_wrap_i32_square(self.z - z);
            let a = (self.x - x) * (self.x - x);
            let b = (self.y - y) * (self.y - y);
            let c = (self.z - z) * (self.z - z);
            crate::mth::lemma_wrap_i32_add2(a, b);
            crate::mth::lemma_wrap_i32_add2(a + b, c);
        }
        s2
    }
}

impl core::default::Default for Pos {
    fn default() -> (r: Pos)
        ensures
            r == (Pos { x: 0, y: 0, z: 0 }),
    {
        Pos { x: 0, y: 0, z: 0 }
    }
}

impl core::ops::Add for Pos {
    type Output = Pos;

    fn add(self, rhs: Pos) -> (r: Pos)
        ensures
            r.x == wrap_i32(self.x + rhs.x),
            r.y == wrap_i32(self.y + rhs.y),
            r.z == wrap_i32(self.z + rhs.z),
    {
        self.offset(rhs.x, rhs.y, rhs.z)
    }
}

impl vstd::std_specs::ops::AddSpecImpl for Pos {
    open spec fn obeys_add_spec() -> bool {
        true
    }

    open spec fn add_req(self, rhs: Pos) -> bool {
        true
    }

    open spec fn add_spec(self, rhs: Pos) -> Pos {
        pos_offset(self, rhs.x as int, rhs.y as int, rhs.z as int)
    }
}

impl core::ops::Sub for Pos {
    type Output = Pos;

    fn sub(self, rhs: Pos) -> (r: Pos)
        ensures
            r.x == wrap_i32(self.x - rhs.x),
            r.y == wrap_i32(self.y - rhs.y),
            r.z == wrap_i32(self.z - rhs.z),
    {
        proof {
            crate::mth::lemma_wrapping_sub_i32(self.x, rhs.x);
            crate::mth::lemma_wrapping_sub_i32(self.y, rhs.y);
            crate::mth::lemma_wrapping_sub_i32(self.z, rhs.z);
        }
        Pos::new(
            self.x.wrapping_sub(rhs.x),
            self.y.wrapping_sub(rhs.y),
            self.z.wrapping_sub(rhs.z),
        )
    }
}

impl vstd::std_specs::ops::SubSpecImpl for Pos {
    open spec fn obeys_sub_spec() -> bool {
        true
    }

    open spec fn sub_req(self, rhs: Pos) -> bool {
        true
    }

    open spec fn sub_spec(self, rhs: Pos) -> Pos {
        pos_offset(self, -rhs.x, -rhs.y, -rhs.z)
    }
}

impl core::ops::AddAssign for Pos {
    fn add_assign(&mut self, rhs: Pos)
        ensures
            *final(self) == pos_offset(*old(self), rhs.x as int, rhs.y as int, rhs.z as int),
    {
        *self = self.offset(rhs.x, rhs.y, rhs.z);
    }
}

impl core::ops::SubAssign for Pos {
    fn sub_assign(&mut self, rhs: Pos)
        ensures
            *final(self) == pos_offset(*old(self), -rhs.x, -rhs.y, -rhs.z),
    {
        *self = *self - rhs;
    }
}

/// Offsets compose, and an offset is undone by the opposite offset: the
/// positions form a group under wrapping translation. In particular
/// `(p + q) - q == p`, a step up is undone by a step down, a step north by a
/// step south, and `west_n(k)` is `east_n(-k)`.
pub proof fn lemma_pos_offsets(p: Pos, a: int, b: int, c: int, d: int, e: int, f: int)
    ensures
        pos_offset(pos_offset(p, a, b, c), d, e, f) == pos_offset(p, a + d, b + e, c + f),
        pos_offset(pos_offset(p, a, b, c), -a, -b, -c) == p,
        pos_offset(p, 0, 0, 0) == p,
{
    crate::mth::lemma_wrap_i32_add(p.x + a, d);
    crate::mth::lemma_wrap_i32_add(p.y + b, e);
    crate::mth::lemma_wrap_i32_add(p.z + c, f);
    crate::mth::lemma_wrap_i32_add(p.x + a, -a);
    crate::mth::lemma_wrap_i32_add(p.y + b, -b);
    crate::mth::lemma_wrap_i32_add(p.z + c, -c);
    crate::mth::lemma_wrap_i32_small(p.x as int);
    crate::mth::lemma_wrap_i32_small(p.y as int);
    crate::mth::lemma_wrap_i32_small(p.z as int);
}

/// The hash only spreads nearby positions: moving 256 east and one north
/// gives the same hash, as does moving 256 north and one down.
pub proof fn lemma_pos_hash_collisions(p: Pos)
    ensures
        pos_hash(pos_offset(p, 256, 0, -1)) == pos_hash(p),
        pos_hash(pos_offset(p, 0, -1, 256)) == pos_hash(p),
{
    crate::mth::lemma_wrap_i32_mul(p.z - 1, 0x100);
    crate::mth::lemma_wrap_i32_small(0x100);
    let q = pos_offset(p, 256, 0, -1);
    crate::mth::lemma_wrap_i32_add(p.x + 256, q.z * 0x100 + q.y * 0x1_0000);
    crate::mth::lemma_wrap_i32_add2(p.x + 256 + q.z * 0x100, q.y * 0x1_0000);
    lemma_hash_terms(p.x + 256, p.z - 1, p.y + 0);
    lemma_hash_terms(p.x as int, p.z + 256, p.y - 1);
}

/// The hash of wrapped coordinates is the wrapped hash of the exact ones.
proof fn lemma_hash_terms(x: int, z: int, y: int)
    ensures
        wrap_i32(wrap_i32(x) + wrap_i32(z) * 0x100 + wrap_i32(y) * 0x1_0000) == wrap_i32(x + z
            * 0x100 + y * 0x1_0000),
{
    let m: int = 0x1_0000_0000;
    crate::mth::lemma_wrap_i32_small(0x100);
    crate::mth::lemma_wrap_i32_small(0x1_0000);
    crate::mth::lemma_wrap_i32_mul(z, 0x100);
    crate::mth::lemma_wrap_i32_mul(y, 0x1_0000);
    crate::mth::lemma_wrap_i32_add2(wrap_i32(z) * 0x100, z * 0x100);
    crate::mth::lemma_wrap_i32_add2(x + z * 0x100, y * 0x1_0000);
    crate::mth::lemma_wrap_i32_add2(x, z * 0x100);
    crate::mth::lemma_wrap_i32_add2(wrap_i32(x) + wrap_i32(z) * 0x100, wrap_i32(y) * 0x1_0000);
    crate::mth::lemma_wrap_i32_add2(wrap_i32(x), wrap_i32(z) * 0x100);
    crate::mth::lemma_wrap_i32_add(x, 0);
}

/// Only equal positions compare as `0`; when no coordinate difference
/// overflows, the sign of the comparison is the order by `y`, then `z`, then
/// `x`.
pub proof fn lemma_pos_compare(p: Pos, q: Pos)
    ensures
        pos_compare(p, q) == 0 <==> p == q,
        (i32::MIN <= p.y - q.y <= i32::MAX && i32::MIN <= p.z - q.z <= i32::MAX && i32::MIN
            <= p.x - q.x <= i32::MAX) ==> (pos_compare(p, q) < 0 <==> (p.y < q.y || (p.y == q.y
            && p.z < q.z) || (p.y == q.y && p.z == q.z && p.x < q.x))),
{
    crate::mth::lemma_wrap_i32_zero(p.y - q.y);
    crate::mth::lemma_wrap_i32_zero(p.z - q.z);
    crate::mth::lemma_wrap_i32_zero(p.x - q.x);
    crate::mth::lemma_wrap_i32_small(p.y - q.y);
    crate::mth::lemma_wrap_i32_small(p.z - q.z);
    crate::mth::lemma_wrap_i32_small(p.x - q.x);
}

/// The integer coordinates of a single tile.
#[derive(Clone, Copy, Debug, PartialEq, Eq, Hash, Structural)]
pub struct TilePos {
    pub x: i32,
    pub y: i32,
    pub z: i32,
}

/// The 32-bit hash of a tile, `x * 8976890 + y * 981131 + z`, wrapping.
pub open spec fn tile_hash(t: TilePos) -> int {
    wrap_i32(t.x * 8_976_890 + t.y * 981_131 + t.z)
}

impl TilePos {
    pub fn new(x: i32, y: i32, z: i32) -> (r: TilePos)
        ensures
            r == (TilePos { x, y, z }),
    {
        TilePos { x, y, z }
    }

    /// The 32-bit hash `x * 8976890 + y * 981131 + z`, wrapping.
    pub fn hash_code(self) -> (r: i32)
        ensures
            r == tile_hash(self),
    {
        let a = self.x.wrapping_mul(8_976_890);
        let b = self.y.wrapping_mul(981_131);
        let s = a.wrapping_add(b);
        let r = s.wrapping_add(self.z);
        proof {
            crate::mth::lemma_wrapping_mul_i32(self.x, 8_976_890);
            crate::mth::lemma_wrapping_mul_i32(self.y, 981_131);
            crate::mth::lemma_wrapping_add_i32(a, b);
            crate::mth::lemma_wrapping_add_i32(s, self.z);
            crate::mth::lemma_wrap_i32_add2(self.x * 8_976_890, self.y * 981_131);
            crate::mth::lemma_wrap_i32_add(self.x * 8_976_890 + self.y * 981_131, self.z as int);
            crate::mth::lemma_wrap_i32_add(self.z as int, s as int);
        }
        r
    }
}

impl core::default::Default for TilePos {
    fn default() -> (r: TilePos)
        ensures
            r == (TilePos { x: 0, y: 0, z: 0 }),
    {
        TilePos { x: 0, y: 0, z: 0 }
    }
}

/// The coordinates of a 16 × 16 column of tiles.
#[derive(Clone, Copy, Debug, PartialEq, Eq, Hash, Structural)]
pub struct ChunkPos {
    pub x: i32,
    pub z: i32,
}

/// The 64-bit key of a chunk coordinate pair: `z · 2³² + (x mod 2³²)`, i.e.
/// the bits of `x` in the low word and those of `z` in the high word.
pub open spec fn chunk_key(x: int, z: int) -> int {
    z * 0x1_0000_0000 + x % 0x1_0000_0000
}

/// The centre coordinate of a chunk along one axis, `c * 16 + 8`, wrapping.
pub open spec fn chunk_middle(c: int) -> int {
    wrap_i32(c * 16 + 8)
}

impl ChunkPos {
    pub fn new(x: i32, z: i32) -> (r: ChunkPos)
        ensures
            r == (ChunkPos { x, z }),
    {
        ChunkPos { x, z }
    }

    /// Packs a chunk coordinate pair into one 64-bit key: the low 32 bits are
    /// the two's-complement bits of `x`, the high 32 bits those of `z`.
    ///
    /// The mapping is a bijection, so distinct pairs never collide. The key
    /// is negative exactly when `z` is negative, and `x` is never
    /// sign-extended into the high word.
    pub fn long_hash(x: i32, z: i32) -> (r: i64)
        ensures
            r == chunk_key(x as int, z as int),
    {
        let lo = x as u32 as u64;
        let hi = (z as u32 as u64) << 32;
        let r = (lo | hi) as i64;
        assert(r == z * 0x1_0000_0000i64 + (x as u32) as i64) by (bit_vector)
            requires
                lo == x as u32 as u64,
                hi == (z as u32 as u64) << 32,
                r == (lo | hi) as i64,
        ;
        proof {
            lemma_u32_residue(x);
        }
        r
    }

    /// [`ChunkPos::long_hash`] of this position.
    pub fn to_long(self) -> (r: i64)
        ensures
            r == chunk_key(self.x as int, self.z as int),
    {
        ChunkPos::long_hash(self.x, self.z)
    }

    /// The 32-bit hash: the low and high words of [`ChunkPos::to_long`]
    /// XORed together, which comes to `x ^ z`.
    ///
    /// Unlike the 64-bit key this collides, e.g. for every `(n, n)`.
    pub fn hash_code(self) -> (r: i32)
        ensures
            r == self.x ^ self.z,
    {
        let key = self.to_long();
        let x = self.x;
        let z = self.z;
        let r = (key as i32) ^ ((key >> 32) as i32);
        proof {
            lemma_u32_residue(x);
        }
        assert(r == x ^ z) by (bit_vector)
            requires
                key == z * 0x1_0000_0000i64 + (x as u32) as i64,
                r == (key as i32) ^ ((key >> 32) as i32),
        ;
        r
    }

    /// The X coordinate of the tile at the centre of this chunk,
    /// `(x << 4) + 8`, wrapping.
    pub fn middle_block_x(self) -> (r: i32)
        ensures
            r == chunk_middle(self.x as int),
    {
        let m = self.x.wrapping_mul(16);
        proof {
            crate::mth::lemma_wrapping_mul_i32(self.x, 16);
            crate::mth::lemma_wrapping_add_i32(m, 8);
            crate::mth::lemma_wrap_i32_add(self.x * 16, 8);
        }
        m.wrapping_add(8)
    }

    /// The Z coordinate of the tile at the centre of this chunk,
    /// `(z << 4) + 8`, wrapping.
    pub fn middle_block_z(self) -> (r: i32)
        ensures
            r == chunk_middle(self.z as int),
    {
        let m = self.z.wrapping_mul(16);
        proof {
            crate::mth::lemma_wrapping_mul_i32(self.z, 16);
            crate::mth::lemma_wrapping_add_i32(m, 8);
            crate::mth::lemma_wrap_i32_add(self.z * 16, 8);
        }
        m.wrapping_add(8)
    }

    /// The centre tile of this chunk at height `y`.
    pub fn middle_block_position(self, y: i32) -> (r: TilePos)
        ensures
            r == (TilePos {
                x: chunk_middle(self.x as int) as i32,
                y,
                z: chunk_middle(self.z as int) as i32,
            }),
    {
        TilePos::new(self.middle_block_x(), y, self.middle_block_z())
    }

    /// The position formatted as `[x, z]`, each coordinate in decimal.
    pub fn to_string(&self) -> (r: String)
        ensures
            r@ == seq!['['] + decimal_chars(self.x as int) + seq![',', ' '] + decimal_chars(
                self.z as int,
            ) + seq![']'],
    {
        proof {
            reveal_strlit("[");
            reveal_strlit(", ");
            reveal_strlit("]");
        }
        let mut s = String::new();
        push_str(&mut s, "[");
        push_decimal(&mut s, self.x);
        push_str(&mut s, ", ");
        push_decimal(&mut s, self.z);
        push_str(&mut s, "]");
        assert(s@ == seq!['['] + decimal_chars(self.x as int) + seq![',', ' '] + decimal_chars(
            self.z as int,
        ) + seq![']']);
        s
    }
}

impl core::default::Default for ChunkPos {
    fn default() -> (r: ChunkPos)
        ensures
            r == (ChunkPos { x: 0, z: 0 }),
    {
        ChunkPos { x: 0, z: 0 }
    }
}

/// Every diagonal chunk `(n, n)` hashes to zero.
pub proof fn lemma_chunk_hash_diagonal(n: i32)
    ensures
        n ^ n == 0,
{
    assert(n ^ n == 0) by (bit_vector);
}

/// The bits of an `i32` read as a `u32` are its residue modulo `2³²`.
proof fn lemma_u32_residue(x: i32)
    ensures
        (x as u32) as int == x as int % 0x1_0000_0000,
{
    assert((x as u32) as int == if x >= 0 { x as int } else { x as int + 0x1_0000_0000 })
        by (bit_vector);
    if x < 0 {
        vstd::arithmetic::div_mod::lemma_mod_multiples_vanish(1, x as int, 0x1_0000_0000);
        vstd::arithmetic::div_mod::lemma_small_mod((x + 0x1_0000_0000) as nat, 0x1_0000_0000);
    } else {
        vstd::arithmetic::div_mod::lemma_small_mod(x as nat, 0x1_0000_0000);
    }
}

/// The 64-bit chunk key is a bijection onto its range: distinct pairs never
/// collide, the key is negative exactly when `z` is, and its low 32 bits are
/// the bits of `x`.
pub proof fn lemma_chunk_key(x1: i32, z1: i32, x2: i32, z2: i32)
    ensures
        chunk_key(x1 as int, z1 as int) == chunk_key(x2 as int, z2 as int) ==> x1 == x2 && z1
            == z2,
        chunk_key(x1 as int, z1 as int) < 0 <==> z1 < 0,
        chunk_key(x1 as int, z1 as int) % 0x1_0000_0000 == x1 as int % 0x1_0000_0000,
        i64::MIN <= chunk_key(x1 as int, z1 as int) <= i64::MAX,
{
    vstd::arithmetic::div_mod::lemma_mod_bound(x1 as int, 0x1_0000_0000);
    vstd::arithmetic::div_mod::lemma_mod_bound(x2 as int, 0x1_0000_0000);
    let k1 = chunk_key(x1 as int, z1 as int);
    let k2 = chunk_key(x2 as int, z2 as int);
    vstd::arithmetic::div_mod::lemma_fundamental_div_mod_converse(
        k1,
        0x1_0000_0000,
        z1 as int,
        x1 as int % 0x1_0000_0000,
    );
    vstd::arithmetic::div_mod::lemma_fundamental_div_mod_converse(
        k2,
        0x1_0000_0000,
        z2 as int,
        x2 as int % 0x1_0000_0000,
    );
    if k1 == k2 {
        assert(x1 as int % 0x1_0000_0000 == x2 as int % 0x1_0000_0000);
        crate::mth::lemma_i32_mod_injective(x1, x2);
    }
}


/// Position addition and subtraction are componentwise and wrapping, and
/// subtracting what was added gives the position back.
pub proof fn lemma_pos_add_sub(p: Pos, q: Pos)
    ensures
        p.add_spec(q).x == wrap_i32(p.x + q.x),
        p.add_spec(q).y == wrap_i32(p.y + q.y),
        p.add_spec(q).z == wrap_i32(p.z + q.z),
        p.sub_spec(q).x == wrap_i32(p.x - q.x),
        p.sub_spec(q).y == wrap_i32(p.y - q.y),
        p.sub_spec(q).z == wrap_i32(p.z - q.z),
        p.add_spec(q).sub_spec(q) == p,
{
    lemma_wrap_i32_small(p.x + q.x);
    lemma_wrap_i32_small(p.y + q.y);
    lemma_wrap_i32_small(p.z + q.z);
    lemma_wrap_i32_small(p.x - q.x);
    lemma_wrap_i32_small(p.y - q.y);
    lemma_wrap_i32_small(p.z - q.z);
    lemma_pos_offsets(p, q.x as int, q.y as int, q.z as int, 0, 0, 0);
}

/// The comparison is the wrapping difference of the first coordinate (in the
/// order `y`, `z`, `x`) in which the positions differ: adding the other
/// position's coordinate back gives this position's. Swapping the positions
/// negates it, wrapping.
pub proof fn lemma_pos_compare_difference(p: Pos, q: Pos)
    ensures
        p.y != q.y ==> wrap_i32(pos_compare(p, q) + q.y) == p.y,
        p.y == q.y && p.z != q.z ==> wrap_i32(pos_compare(p, q) + q.z) == p.z,
        p.y == q.y && p.z == q.z ==> wrap_i32(pos_compare(p, q) + q.x) == p.x,
        pos_compare(p, q) == wrap_i32(-pos_compare(q, p)),
{
    crate::mth::lemma_wrap_i32_add(p.y - q.y, q.y as int);
    crate::mth::lemma_wrap_i32_add(p.z - q.z, q.z as int);
    crate::mth::lemma_wrap_i32_add(p.x - q.x, q.x as int);
    lemma_wrap_i32_small(p.y as int);
    lemma_wrap_i32_small(p.z as int);
    lemma_wrap_i32_small(p.x as int);
    lemma_wrap_negated(q.y - p.y);
    lemma_wrap_negated(q.z - p.z);
    lemma_wrap_negated(q.x - p.x);
}

/// Negating a wrapped value and wrapping again is wrapping the negation.
proof fn lemma_wrap_negated(a: int)
    ensures
        wrap_i32(-wrap_i32(a)) == wrap_i32(-a),
{
    let k = lemma_wrap_i32_repr(a);
    lemma_wrap_i32_congruent(-wrap_i32(a), -a, k);
}

/// The position hash is the wrapping combination `x + 256·z + 65536·y`:
/// the origin hashes to zero, and translating a position by `(dx, dy, dz)`
/// adds `dx + 256·dz + 65536·dy` to its hash, wrapping.
pub proof fn lemma_pos_hash_linear(p: Pos, dx: int, dy: int, dz: int)
    ensures
        pos_hash(Pos { x: 0, y: 0, z: 0 }) == 0,
        pos_hash(pos_offset(p, dx, dy, dz)) == wrap_i32(pos_hash(p) + dx + dz * 0x100 + dy
            * 0x1_0000),
{
    lemma_wrap_i32_small(0);
    let q = pos_offset(p, dx, dy, dz);
    lemma_wrap_i32_small(p.x + dx);
    lemma_wrap_i32_small(p.y + dy);
    lemma_wrap_i32_small(p.z + dz);
    let kx = lemma_wrap_i32_repr(p.x + dx);
    let ky = lemma_wrap_i32_repr(p.y + dy);
    let kz = lemma_wrap_i32_repr(p.z + dz);
    let h = p.x + p.z * 0x100 + p.y * 0x1_0000;
    let d = dx + dz * 0x100 + dy * 0x1_0000;
    crate::mth::lemma_wrap_i32_add(h, d);
    let k = kx + kz * 0x100 + ky * 0x1_0000;
    assert(q.x + q.z * 0x100 + q.y * 0x1_0000 == h + d - k * 0x1_0000_0000) by (nonlinear_arith)
        requires
            q.x == p.x + dx - kx * 0x1_0000_0000,
            q.y == p.y + dy - ky * 0x1_0000_0000,
            q.z == p.z + dz - kz * 0x1_0000_0000,
            h == p.x + p.z * 0x100 + p.y * 0x1_0000,
            d == dx + dz * 0x100 + dy * 0x1_0000,
            k == kx + kz * 0x100 + ky * 0x1_0000,
    ;
    lemma_wrap_i32_congruent(q.x + q.z * 0x100 + q.y * 0x1_0000, h + d, -k);
}

/// The tile hash is the wrapping combination `8976890·x + 981131·y + z`:
/// the origin hashes to zero, and moving a tile by `(dx, dy, dz)` adds
/// `8976890·dx + 981131·dy + dz` to its hash, wrapping.
pub proof fn lemma_tile_hash_linear(t: TilePos, dx: int, dy: int, dz: int)
    ensures
        tile_hash(TilePos { x: 0, y: 0, z: 0 }) == 0,
        tile_hash(
            TilePos {
                x: wrap_i32(t.x + dx) as i32,
                y: wrap_i32(t.y + dy) as i32,
                z: wrap_i32(t.z + dz) as i32,
            },
        ) == wrap_i32(tile_hash(t) + dx * 8_976_890 + dy * 981_131 + dz),
{
    lemma_wrap_i32_small(0);
    lemma_wrap_i32_small(t.x + dx);
    lemma_wrap_i32_small(t.y + dy);
    lemma_wrap_i32_small(t.z + dz);
    let u = TilePos {
        x: wrap_i32(t.x + dx) as i32,
        y: wrap_i32(t.y + dy) as i32,
        z: wrap_i32(t.z + dz) as i32,
    };
    let kx = lemma_wrap_i32_repr(t.x + dx);
    let ky = lemma_wrap_i32_repr(t.y + dy);
    let kz = lemma_wrap_i32_repr(t.z + dz);
    let h = t.x * 8_976_890 + t.y * 981_131 + t.z;
    let d = dx * 8_976_890 + dy * 981_131 + dz;
    crate::mth::lemma_wrap_i32_add(h, d);
    let k = kx * 8_976_890 + ky * 981_131 + kz;
    assert(u.x * 8_976_890 + u.y * 981_131 + u.z == h + d - k * 0x1_0000_0000)
        by (nonlinear_arith)
        requires
            u.x == t.x + dx - kx * 0x1_0000_0000,
            u.y == t.y + dy - ky * 0x1_0000_0000,
            u.z == t.z + dz - kz * 0x1_0000_0000,
            h == t.x * 8_976_890 + t.y * 981_131 + t.z,
            d == dx * 8_976_890 + dy * 981_131 + dz,
            k == kx * 8_976_890 + ky * 981_131 + kz,
    ;
    lemma_wrap_i32_congruent(u.x * 8_976_890 + u.y * 981_131 + u.z, h + d, -k);
}

} // verus!
