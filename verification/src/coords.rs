//! The coordinate mapper: conversion between world-space positions (in
//! whole world units) and discrete chunk coordinates, parameterized by a
//! fixed chunk size.
//!
//! `to_chunk_coord` computes `floor(world_pos / chunk_size)` component-wise,
//! truncating toward negative infinity rather than toward zero, so that
//! negative world coordinates map to negative chunk coordinates without an
//! off-by-one error at the boundary. `to_world_origin` is its near-inverse:
//! it returns the minimum corner of a chunk's axis-aligned bounding box.

use vstd::prelude::*;

verus! {

use vstd::arithmetic::div_mod::{
    lemma_div_is_ordered, lemma_div_multiples_vanish, lemma_div_nonincreasing, lemma_div_of0,
    lemma_div_pos_is_pos, lemma_fundamental_div_mod, lemma_fundamental_div_mod_converse,
};

/// A chunk coordinate: a signed integer 3-vector identifying one chunk in
/// chunk-space. It is the registry's key; equality is field equality.
#[derive(Clone, Copy, PartialEq, Eq, Structural, Hash, Debug)]
pub struct ChunkPos {
    pub x: i64,
    pub y: i64,
    pub z: i64,
}

/// A world-space position, in whole world units per axis.
#[derive(Clone, Copy, PartialEq, Eq, Structural, Hash, Debug)]
pub struct WorldPos {
    pub x: i64,
    pub y: i64,
    pub z: i64,
}

/// The world-space extent of one chunk along each axis. Every component is
/// positive: construction through [`ChunkSize::new`] refuses anything else,
/// so no degenerate size can exist.
#[derive(Clone, Copy, Debug)]
pub struct ChunkSize {
    x: i64,
    y: i64,
    z: i64,
}

impl ChunkSize {
    #[verifier::type_invariant]
    spec fn inv(self) -> bool {
        self.x >= 1 && self.y >= 1 && self.z >= 1
    }

    /// The extent along the x axis.
    pub closed spec fn sx(self) -> i64 {
        self.x
    }

    /// The extent along the y axis.
    pub closed spec fn sy(self) -> i64 {
        self.y
    }

    /// The extent along the z axis.
    pub closed spec fn sz(self) -> i64 {
        self.z
    }

    /// Builds a chunk size from per-axis extents. A size with any component
    /// below one world unit is malformed and is refused outright.
    pub fn new(x: i64, y: i64, z: i64) -> (r: Option<ChunkSize>)
        ensures
            (x >= 1 && y >= 1 && z >= 1) ==> (r matches Some(s) && s.sx() == x && s.sy() == y
                && s.sz() == z),
            !(x >= 1 && y >= 1 && z >= 1) ==> r is None,
    {
        if x >= 1 && y >= 1 && z >= 1 {
            Some(ChunkSize { x, y, z })
        } else {
            None
        }
    }

    /// The extent along the x axis.
    pub fn x(&self) -> (r: i64)
        ensures
            r == self.sx(),
    {
        self.x
    }

    /// The extent along the y axis.
    pub fn y(&self) -> (r: i64)
        ensures
            r == self.sy(),
    {
        self.y
    }

    /// The extent along the z axis.
    pub fn z(&self) -> (r: i64)
        ensures
            r == self.sz(),
    {
        self.z
    }

    /// Positivity, as a predicate for contracts and lemmas to quantify over.
    /// Every value built by [`ChunkSize::new`] satisfies it.
    pub open spec fn positive(self) -> bool {
        self.sx() >= 1 && self.sy() >= 1 && self.sz() >= 1
    }
}

/// The chunk coordinate containing world position `p`, as mathematics:
/// component-wise `floor(p / s)`. Division on `int` rounds toward negative
/// infinity for positive divisors, which is exactly the intended flooring.
pub open spec fn spec_to_chunk_coord(p: WorldPos, s: ChunkSize) -> ChunkPos {
    ChunkPos {
        x: (p.x as int / s.sx() as int) as i64,
        y: (p.y as int / s.sy() as int) as i64,
        z: (p.z as int / s.sz() as int) as i64,
    }
}

/// The minimum corner of chunk `c`'s bounding box, as mathematics:
/// component-wise `c * s`.
pub open spec fn spec_to_world_origin(c: ChunkPos, s: ChunkSize) -> WorldPos {
    WorldPos {
        x: (c.x * s.sx()) as i64,
        y: (c.y * s.sy()) as i64,
        z: (c.z * s.sz()) as i64,
    }
}

/// For a divisor of at least one, flooring division keeps the quotient
/// between the dividend and zero, so it stays in machine range.
proof fn lemma_floor_div_range(p: int, s: int)
    requires
        s >= 1,
        i64::MIN <= p <= i64::MAX,
    ensures
        p >= 0 ==> 0 <= p / s <= p,
        p < 0 ==> p <= p / s <= 0,
        i64::MIN <= p / s <= i64::MAX,
{
    if p >= 0 {
        lemma_div_pos_is_pos(p, s);
        lemma_div_nonincreasing(p, s);
    } else {
        assert(p * s <= p) by (nonlinear_arith)
            requires
                p < 0,
                s >= 1,
        ;
        assert(p * s == s * p) by (nonlinear_arith);
        lemma_div_multiples_vanish(p, s);
        lemma_div_is_ordered(p * s, p, s);
        lemma_div_is_ordered(p, 0, s);
        lemma_div_of0(s);
    }
}

/// Floor division of a world coordinate by a positive chunk extent.
fn floor_div(p: i64, s: i64) -> (r: i64)
    requires
        s >= 1,
    ensures
        r == p as int / s as int,
{
    proof {
        lemma_floor_div_range(p as int, s as int);
    }
    p.checked_div_euclid(s).unwrap()
}

/// Converts a world-space position to the coordinate of the chunk containing
/// it: component-wise `floor(world_pos / chunk_size)`, truncating toward
/// negative infinity. Total: defined for every position. Each resulting
/// component lies between the position's component and zero.
pub fn to_chunk_coord(world_pos: WorldPos, chunk_size: &ChunkSize) -> (r: ChunkPos)
    ensures
        r == spec_to_chunk_coord(world_pos, *chunk_size),
        world_pos.x >= 0 ==> 0 <= r.x <= world_pos.x,
        world_pos.x < 0 ==> world_pos.x <= r.x <= 0,
        world_pos.y >= 0 ==> 0 <= r.y <= world_pos.y,
        world_pos.y < 0 ==> world_pos.y <= r.y <= 0,
        world_pos.z >= 0 ==> 0 <= r.z <= world_pos.z,
        world_pos.z < 0 ==> world_pos.z <= r.z <= 0,
{
    proof {
        use_type_invariant(*chunk_size);
        lemma_floor_div_range(world_pos.x as int, chunk_size.sx() as int);
        lemma_floor_div_range(world_pos.y as int, chunk_size.sy() as int);
        lemma_floor_div_range(world_pos.z as int, chunk_size.sz() as int);
    }
    ChunkPos {
        x: floor_div(world_pos.x, chunk_size.x),
        y: floor_div(world_pos.y, chunk_size.y),
        z: floor_div(world_pos.z, chunk_size.z),
    }
}

/// Converts a chunk coordinate to the minimum corner of that chunk's
/// axis-aligned bounding box: component-wise `coord * chunk_size`. The
/// bounds in `requires` only keep the product within machine range.
pub fn to_world_origin(coord: ChunkPos, chunk_size: &ChunkSize) -> (r: WorldPos)
    requires
        i64::MIN <= coord.x * chunk_size.sx() <= i64::MAX,
        i64::MIN <= coord.y * chunk_size.sy() <= i64::MAX,
        i64::MIN <= coord.z * chunk_size.sz() <= i64::MAX,
    ensures
        r == spec_to_world_origin(coord, *chunk_size),
{
    WorldPos {
        x: coord.x * chunk_size.x,
        y: coord.y * chunk_size.y,
        z: coord.z * chunk_size.z,
    }
}

/// Round-trip near-inverse: for every chunk size and every chunk coordinate
/// whose box corner is representable, mapping the chunk's world origin back
/// through `to_chunk_coord` returns the same coordinate.
pub proof fn lemma_round_trip(c: ChunkPos, s: ChunkSize)
    requires
        s.positive(),
        i64::MIN <= c.x * s.sx() <= i64::MAX,
        i64::MIN <= c.y * s.sy() <= i64::MAX,
        i64::MIN <= c.z * s.sz() <= i64::MAX,
    ensures
        spec_to_chunk_coord(spec_to_world_origin(c, s), s) == c,
{
    lemma_round_trip_axis(c.x as int, s.sx() as int);
    lemma_round_trip_axis(c.y as int, s.sy() as int);
    lemma_round_trip_axis(c.z as int, s.sz() as int);
}

/// One axis of the round trip: `(c * s) / s == c` for positive `s`.
proof fn lemma_round_trip_axis(c: int, s: int)
    requires
        s >= 1,
    ensures
        (c * s) / s == c,
{
    assert(c * s == s * c) by (nonlinear_arith);
    lemma_div_multiples_vanish(c, s);
}

/// Floor semantics, stated without division: the chunk coordinate of a
/// position is the unique coordinate whose half-open box contains it, on
/// every axis, for negative positions as much as positive ones.
pub proof fn lemma_chunk_coord_bounds(p: WorldPos, s: ChunkSize)
    requires
        s.positive(),
    ensures
        ({
            let c = spec_to_chunk_coord(p, s);
            &&& c.x * s.sx() <= p.x < (c.x + 1) * s.sx()
            &&& c.y * s.sy() <= p.y < (c.y + 1) * s.sy()
            &&& c.z * s.sz() <= p.z < (c.z + 1) * s.sz()
        }),
{
    lemma_floor_bounds_axis(p.x as int, s.sx() as int);
    lemma_floor_bounds_axis(p.y as int, s.sy() as int);
    lemma_floor_bounds_axis(p.z as int, s.sz() as int);
}

/// Uniqueness of the floor characterization: any coordinate whose half-open
/// box contains `p` on every axis is the chunk coordinate of `p`.
pub proof fn lemma_chunk_coord_unique(p: WorldPos, s: ChunkSize, c: ChunkPos)
    requires
        s.positive(),
        c.x * s.sx() <= p.x < (c.x + 1) * s.sx(),
        c.y * s.sy() <= p.y < (c.y + 1) * s.sy(),
        c.z * s.sz() <= p.z < (c.z + 1) * s.sz(),
    ensures
        spec_to_chunk_coord(p, s) == c,
{
    lemma_floor_unique_axis(p.x as int, s.sx() as int, c.x as int);
    lemma_floor_unique_axis(p.y as int, s.sy() as int, c.y as int);
    lemma_floor_unique_axis(p.z as int, s.sz() as int, c.z as int);
}

/// One axis of the uniqueness direction: `c * s <= p < (c + 1) * s` forces
/// `p / s == c`.
proof fn lemma_floor_unique_axis(p: int, s: int, c: int)
    requires
        s >= 1,
        c * s <= p < (c + 1) * s,
    ensures
        p / s == c,
{
    assert((c + 1) * s == c * s + s) by (nonlinear_arith);
    lemma_fundamental_div_mod_converse(p, s, c, p - c * s);
}

/// One axis of the floor characterization: `(p/s) * s <= p < (p/s + 1) * s`.
proof fn lemma_floor_bounds_axis(p: int, s: int)
    requires
        s >= 1,
        i64::MIN <= p <= i64::MAX,
    ensures
        (p / s) * s <= p < (p / s + 1) * s,
        i64::MIN <= p / s <= i64::MAX,
{
    lemma_floor_div_range(p, s);
    lemma_fundamental_div_mod(p, s);
    let q = p / s;
    let r = p % s;
    assert(0 <= r < s);
    assert(q * s == s * q) by (nonlinear_arith);
    assert((q + 1) * s == s * q + s) by (nonlinear_arith);
}

} // verus!
