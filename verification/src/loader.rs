//! The loader: radius-based enumeration of chunk coordinates around
//! observers, and the per-pass collection of coordinates that still need a
//! chunk.
//!
//! Each observer carries a world position and a per-axis load radius. One
//! pass computes, for every observer, the full axis-aligned box of
//! coordinates around the observer's chunk — `(2·rx+1)·(2·ry+1)·(2·rz+1)`
//! candidates, a box, not a sphere — and collects every candidate that is
//! not yet registered. A coordinate wanted by several overlapping boxes is
//! collected once, so no creation request is issued twice within a pass.

use vstd::prelude::*;

verus! {

use crate::coords::{spec_to_chunk_coord, to_chunk_coord, ChunkPos, ChunkSize, WorldPos};
use crate::registry::ChunkManager;

/// A per-axis load radius: how many chunks outward of the observer's own
/// chunk to keep loaded along each axis. Meaningful when non-negative.
#[derive(Clone, Copy, PartialEq, Eq, Structural, Hash, Debug)]
pub struct LoadRadius {
    pub x: i64,
    pub y: i64,
    pub z: i64,
}

impl LoadRadius {
    /// Radii are counts of chunks: each component must be non-negative.
    pub open spec fn non_negative(self) -> bool {
        self.x >= 0 && self.y >= 0 && self.z >= 0
    }
}

/// Marks an observer: an entity whose position drives automatic loading of
/// the chunks around it, out to the carried per-axis radius.
#[derive(Clone, Copy, PartialEq, Eq, Structural, Hash, Debug)]
pub struct ChunkLoader(pub LoadRadius);

/// One observer's request for a loader pass: its current world position and
/// its load radius. Recomputed every pass, never stored.
#[derive(Clone, Copy, PartialEq, Eq, Structural, Hash, Debug)]
pub struct LoadRequest {
    /// The observer's current world position.
    pub pos: WorldPos,
    /// The observer's per-axis load radius.
    pub radius: LoadRadius,
}

/// Loader configuration recognized by the host. `max_loaded` of zero means
/// no bound; enforcement of a non-zero bound is the host's concern, separate
/// from candidate generation.
#[derive(Clone, Copy, PartialEq, Eq, Structural, Hash, Debug)]
pub struct ChunkLoaderSettings {
    /// Evict chunks beyond this count; zero disables eviction.
    pub max_loaded: usize,
}

/// Whether `c` lies in the inclusive coordinate box `[x0, x1] × [y0, y1] ×
/// [z0, z1]`.
pub open spec fn in_ranges(x0: int, x1: int, y0: int, y1: int, z0: int, z1: int, c: ChunkPos) -> bool {
    x0 <= c.x <= x1 && y0 <= c.y <= y1 && z0 <= c.z <= z1
}

/// Whether `c` lies in the box of radius `r` around `center`, per axis.
pub open spec fn in_box(center: ChunkPos, r: LoadRadius, c: ChunkPos) -> bool {
    in_ranges(
        center.x - r.x,
        center.x + r.x,
        center.y - r.y,
        center.y + r.y,
        center.z - r.z,
        center.z + r.z,
        c,
    )
}

/// `s.push(p)` contains exactly what `s` contains, plus `p`.
proof fn lemma_push_contains(s: Seq<ChunkPos>, p: ChunkPos, c: ChunkPos)
    ensures
        s.push(p).contains(c) <==> (s.contains(c) || c == p),
{
    let t = s.push(p);
    if t.contains(c) {
        let i = choose|i: int| 0 <= i < t.len() && t[i] == c;
        if i < s.len() {
            assert(s[i] == c);
        }
    }
    if s.contains(c) {
        let i = choose|i: int| 0 <= i < s.len() && s[i] == c;
        assert(t[i] == c);
    }
    if c == p {
        assert(t[s.len() as int] == c);
    }
}

/// Pushing an element not yet present keeps a sequence duplicate-free.
proof fn lemma_push_no_dup(s: Seq<ChunkPos>, p: ChunkPos)
    requires
        s.no_duplicates(),
        !s.contains(p),
    ensures
        s.push(p).no_duplicates(),
{
    let t = s.push(p);
    assert forall|i: int, j: int|
        0 <= i < t.len() && 0 <= j < t.len() && i != j implies t[i] != t[j] by {
        if i < s.len() && j < s.len() {
            assert(t[i] == s[i] && t[j] == s[j]);
        } else if i < s.len() {
            assert(t[i] == s[i] && t[j] == p);
            if s[i] == p {
                assert(s.contains(p));
            }
        } else {
            assert(t[i] == p && t[j] == s[j]);
            if s[j] == p {
                assert(s.contains(p));
            }
        }
    }
}

/// Every coordinate of the inclusive box `[x0, x1] × [y0, y1] × [z0, z1]`,
/// each exactly once. The strict upper bounds in `requires` only keep the
/// loop counters within machine range.
pub fn chunks_in_ranges(x0: i64, x1: i64, y0: i64, y1: i64, z0: i64, z1: i64) -> (r: Vec<
    ChunkPos,
>)
    requires
        x0 <= x1 < i64::MAX,
        y0 <= y1 < i64::MAX,
        z0 <= z1 < i64::MAX,
    ensures
        forall|c: ChunkPos| #[trigger] r@.contains(c) <==> in_ranges(
            x0 as int,
            x1 as int,
            y0 as int,
            y1 as int,
            z0 as int,
            z1 as int,
            c,
        ),
        r@.no_duplicates(),
        r@.len() == (x1 - x0 + 1) * ((y1 - y0 + 1) * (z1 - z0 + 1)),
{
    let ghost w_z: int = z1 - z0 + 1;
    let ghost w_yz: int = (y1 - y0 + 1) * w_z;
    let mut r: Vec<ChunkPos> = Vec::new();
    let mut cx: i64 = x0;
    while cx <= x1
        invariant
            x0 <= cx <= x1 + 1,
            x1 < i64::MAX,
            y0 <= y1 < i64::MAX,
            z0 <= z1 < i64::MAX,
            w_z == z1 - z0 + 1,
            w_yz == (y1 - y0 + 1) * w_z,
            forall|c: ChunkPos| #[trigger] r@.contains(c) <==> (x0 <= c.x < cx && y0 <= c.y
                <= y1 && z0 <= c.z <= z1),
            r@.no_duplicates(),
            r@.len() == (cx - x0) * w_yz,
        decreases x1 + 1 - cx,
    {
        let mut cy: i64 = y0;
        while cy <= y1
            invariant
                x0 <= cx <= x1,
                y0 <= cy <= y1 + 1,
                x1 < i64::MAX,
                y0 <= y1 < i64::MAX,
                z0 <= z1 < i64::MAX,
                w_z == z1 - z0 + 1,
                w_yz == (y1 - y0 + 1) * w_z,
                forall|c: ChunkPos| #[trigger] r@.contains(c) <==> ((x0 <= c.x < cx && y0 <= c.y
                    <= y1 && z0 <= c.z <= z1) || (c.x == cx && y0 <= c.y < cy && z0 <= c.z
                    <= z1)),
                r@.no_duplicates(),
                r@.len() == (cx - x0) * w_yz + (cy - y0) * w_z,
            decreases y1 + 1 - cy,
        {
            let mut cz: i64 = z0;
            while cz <= z1
                invariant
                    x0 <= cx <= x1,
                    y0 <= cy <= y1,
                    z0 <= cz <= z1 + 1,
                    x1 < i64::MAX,
                    y0 <= y1 < i64::MAX,
                    z0 <= z1 < i64::MAX,
                    w_z == z1 - z0 + 1,
                    w_yz == (y1 - y0 + 1) * w_z,
                    forall|c: ChunkPos| #[trigger] r@.contains(c) <==> ((x0 <= c.x < cx && y0
                        <= c.y <= y1 && z0 <= c.z <= z1) || (c.x == cx && y0 <= c.y < cy && z0
                        <= c.z <= z1) || (c.x == cx && c.y == cy && z0 <= c.z < cz)),
                    r@.no_duplicates(),
                    r@.len() == (cx - x0) * w_yz + (cy - y0) * w_z + (cz - z0),
                decreases z1 + 1 - cz,
            {
                let p = ChunkPos { x: cx, y: cy, z: cz };
                proof {
                    assert(!r@.contains(p));
                    lemma_push_no_dup(r@, p);
                    assert forall|c: ChunkPos| #[trigger] r@.push(p).contains(c) <==> (
                    r@.contains(c) || c == p) by {
                        lemma_push_contains(r@, p, c);
                    }
                }
                r.push(p);
                cz = cz + 1;
            }
            proof {
                assert((cy + 1 - y0) * w_z == (cy - y0) * w_z + w_z) by (nonlinear_arith);
            }
            cy = cy + 1;
        }
        proof {
            assert((cx + 1 - x0) * w_yz == (cx - x0) * w_yz + w_yz) by (nonlinear_arith);
        }
        cx = cx + 1;
    }
    r
}

/// Every coordinate of the axis-aligned box of radius `radius` around
/// `center`, each exactly once: `(2·rx+1)·(2·ry+1)·(2·rz+1)` coordinates.
/// The machine-range bounds in `requires` keep the box corners
/// representable.
pub fn chunks_in_box(center: ChunkPos, radius: LoadRadius) -> (r: Vec<ChunkPos>)
    requires
        radius.non_negative(),
        i64::MIN <= center.x - radius.x,
        center.x + radius.x < i64::MAX,
        i64::MIN <= center.y - radius.y,
        center.y + radius.y < i64::MAX,
        i64::MIN <= center.z - radius.z,
        center.z + radius.z < i64::MAX,
    ensures
        forall|c: ChunkPos| #[trigger] r@.contains(c) <==> in_box(center, radius, c),
        r@.no_duplicates(),
        r@.len() == (2 * radius.x + 1) * ((2 * radius.y + 1) * (2 * radius.z + 1)),
{
    chunks_in_ranges(
        center.x - radius.x,
        center.x + radius.x,
        center.y - radius.y,
        center.y + radius.y,
        center.z - radius.z,
        center.z + radius.z,
    )
}

/// Whether `v` contains `c`.
fn vec_contains(v: &Vec<ChunkPos>, c: &ChunkPos) -> (r: bool)
    ensures
        r == v@.contains(*c),
{
    let mut i: usize = 0;
    while i < v.len()
        invariant
            i <= v@.len(),
            forall|j: int| 0 <= j < i ==> v@[j] != *c,
        decreases v@.len() - i,
    {
        if v[i].x == c.x && v[i].y == c.y && v[i].z == c.z {
            return true;
        }
        i = i + 1;
    }
    proof {
        if v@.contains(*c) {
            let j = choose|j: int| 0 <= j < v@.len() && v@[j] == *c;
            assert(v@[j] != *c);
        }
    }
    false
}

/// The chunk an observer's box is centered on: the chunk containing the
/// observer.
pub open spec fn request_center(req: LoadRequest, m: ChunkManager) -> ChunkPos {
    spec_to_chunk_coord(req.pos, m.size())
}

/// Whether coordinate `c` falls in the box requested by `req` against
/// registry `m`.
pub open spec fn in_request_box(req: LoadRequest, m: ChunkManager, c: ChunkPos) -> bool {
    in_box(request_center(req, m), req.radius, c)
}

/// A request the loader can act on: non-negative radius, box corners in
/// machine range.
pub open spec fn request_wf(req: LoadRequest, m: ChunkManager) -> bool {
    &&& req.radius.non_negative()
    &&& i64::MIN <= request_center(req, m).x - req.radius.x
    &&& request_center(req, m).x + req.radius.x < i64::MAX
    &&& i64::MIN <= request_center(req, m).y - req.radius.y
    &&& request_center(req, m).y + req.radius.y < i64::MAX
    &&& i64::MIN <= request_center(req, m).z - req.radius.z
    &&& request_center(req, m).z + req.radius.z < i64::MAX
}

/// One loader pass: for every observer, enumerate the box of coordinates
/// around the observer's chunk, and collect exactly those not yet present in
/// the registry — each missing coordinate at most once, however many
/// overlapping boxes want it. The caller issues one creation request per
/// returned coordinate.
pub fn loader_pass(manager: &ChunkManager, requests: &Vec<LoadRequest>) -> (missing: Vec<
    ChunkPos,
>)
    requires
        forall|k: int| 0 <= k < requests@.len() ==> request_wf(#[trigger] requests@[k], *manager),
    ensures
        missing@.no_duplicates(),
        forall|c: ChunkPos| #[trigger] missing@.contains(c) <==> (!manager@.contains_key(c)
            && exists|k: int| 0 <= k < requests@.len() && in_request_box(
            #[trigger] requests@[k],
            *manager,
            c,
        )),
{
    let mut missing: Vec<ChunkPos> = Vec::new();
    let mut k: usize = 0;
    while k < requests.len()
        invariant
            k <= requests@.len(),
            forall|j: int| 0 <= j < requests@.len() ==> request_wf(
                #[trigger] requests@[j],
                *manager,
            ),
            missing@.no_duplicates(),
            forall|c: ChunkPos| #[trigger] missing@.contains(c) <==> (!manager@.contains_key(c)
                && exists|j: int| 0 <= j < k && in_request_box(
                #[trigger] requests@[j],
                *manager,
                c,
            )),
        decreases requests@.len() - k,
    {
        let req = requests[k];
        let center = manager.get_chunk_pos(&req.pos);
        let candidates = chunks_in_box(center, req.radius);
        let ghost missing_at_entry = missing@;
        let mut t: usize = 0;
        while t < candidates.len()
            invariant
                t <= candidates@.len(),
                k < requests@.len(),
                requests@[k as int] == req,
                center == request_center(req, *manager),
                forall|c: ChunkPos| #[trigger] candidates@.contains(c) <==> in_box(
                    center,
                    req.radius,
                    c,
                ),
                candidates@.no_duplicates(),
                missing@.no_duplicates(),
                forall|c: ChunkPos| #[trigger] missing@.contains(c) <==> (
                !manager@.contains_key(c) && ((exists|j: int| 0 <= j < k && in_request_box(
                    #[trigger] requests@[j],
                    *manager,
                    c,
                )) || (exists|u: int| 0 <= u < t && candidates@[u] == c))),
            decreases candidates@.len() - t,
        {
            let cand = candidates[t];
            let ghost missing_before = missing@;
            if !manager.is_loaded(&cand) && !vec_contains(&missing, &cand) {
                proof {
                    lemma_push_no_dup(missing@, cand);
                    assert forall|c: ChunkPos| #[trigger] missing@.push(cand).contains(c) <==> (
                    missing@.contains(c) || c == cand) by {
                        lemma_push_contains(missing@, cand, c);
                    }
                }
                missing.push(cand);
            }
            proof {
                assert(candidates@[t as int] == cand);
                assert forall|c: ChunkPos| #[trigger] missing@.contains(c) <==> (
                !manager@.contains_key(c) && ((exists|j: int| 0 <= j < k && in_request_box(
                    #[trigger] requests@[j],
                    *manager,
                    c,
                )) || (exists|u: int| 0 <= u < t + 1 && candidates@[u] == c))) by {
                    if c == cand {
                        assert(candidates@[t as int] == c);
                        assert(exists|u: int| 0 <= u < t + 1 && candidates@[u] == c);
                        if !manager@.contains_key(c) && !missing_before.contains(c) {
                            assert(missing@.contains(c));
                        }
                    } else {
                        assert(missing@.contains(c) == missing_before.contains(c));
                        assert((exists|u: int| 0 <= u < t + 1 && candidates@[u] == c) == (
                        exists|u: int| 0 <= u < t && candidates@[u] == c));
                    }
                }
            }
            t = t + 1;
        }
        proof {
            assert forall|c: ChunkPos| #[trigger] missing@.contains(c) <==> (
            !manager@.contains_key(c) && exists|j: int| 0 <= j < k + 1 && in_request_box(
                #[trigger] requests@[j],
                *manager,
                c,
            )) by {
                if missing@.contains(c) {
                    if exists|u: int| 0 <= u < candidates@.len() && candidates@[u] == c {
                        assert(candidates@.contains(c));
                        assert(in_request_box(requests@[k as int], *manager, c));
                    }
                }
                if !manager@.contains_key(c) && exists|j: int| 0 <= j < k + 1 && in_request_box(
                    #[trigger] requests@[j],
                    *manager,
                    c,
                ) {
                    let j = choose|j: int| 0 <= j < k + 1 && in_request_box(
                        #[trigger] requests@[j],
                        *manager,
                        c,
                    );
                    if j == k {
                        assert(candidates@.contains(c));
                        let u = choose|u: int| 0 <= u < candidates@.len() && candidates@[u] == c;
                        assert(missing@.contains(c));
                    }
                }
            }
        }
        k = k + 1;
    }
    missing
}

/// The smaller of two corner components.
pub open spec fn axis_lo(a: i64, b: i64) -> i64 {
    if a <= b {
        a
    } else {
        b
    }
}

/// The larger of two corner components.
pub open spec fn axis_hi(a: i64, b: i64) -> i64 {
    if a <= b {
        b
    } else {
        a
    }
}

/// Whether `c` lies in the rectangular region spanned by the two corner
/// coordinates, inclusive, the corners given in any order per axis.
pub open spec fn in_corner_box(c0: ChunkPos, c1: ChunkPos, c: ChunkPos) -> bool {
    in_ranges(
        axis_lo(c0.x, c1.x) as int,
        axis_hi(c0.x, c1.x) as int,
        axis_lo(c0.y, c1.y) as int,
        axis_hi(c0.y, c1.y) as int,
        axis_lo(c0.z, c1.z) as int,
        axis_hi(c0.z, c1.z) as int,
        c,
    )
}

/// How many coordinates the region spanned by the two corners holds: the
/// product of the per-axis widths.
pub open spec fn corner_box_volume(c0: ChunkPos, c1: ChunkPos) -> int {
    (axis_hi(c0.x, c1.x) - axis_lo(c0.x, c1.x) + 1) * ((axis_hi(c0.y, c1.y) - axis_lo(c0.y, c1.y)
        + 1) * (axis_hi(c0.z, c1.z) - axis_lo(c0.z, c1.z) + 1))
}

/// Every coordinate of the rectangular region spanned by the two corner
/// coordinates, inclusive, each exactly once. The corners may be given in
/// any order per axis. The strict bounds in `requires` only keep the loop
/// counters within machine range.
pub fn spawn_chunks_rect(chunk_pos_0: ChunkPos, chunk_pos_1: ChunkPos) -> (r: Vec<ChunkPos>)
    requires
        chunk_pos_0.x < i64::MAX,
        chunk_pos_0.y < i64::MAX,
        chunk_pos_0.z < i64::MAX,
        chunk_pos_1.x < i64::MAX,
        chunk_pos_1.y < i64::MAX,
        chunk_pos_1.z < i64::MAX,
    ensures
        forall|c: ChunkPos| #[trigger] r@.contains(c) <==> in_corner_box(
            chunk_pos_0,
            chunk_pos_1,
            c,
        ),
        r@.no_duplicates(),
        r@.len() == corner_box_volume(chunk_pos_0, chunk_pos_1),
{
    let (x_small, x_big) = if chunk_pos_0.x > chunk_pos_1.x {
        (chunk_pos_1.x, chunk_pos_0.x)
    } else {
        (chunk_pos_0.x, chunk_pos_1.x)
    };
    let (y_small, y_big) = if chunk_pos_0.y > chunk_pos_1.y {
        (chunk_pos_1.y, chunk_pos_0.y)
    } else {
        (chunk_pos_0.y, chunk_pos_1.y)
    };
    let (z_small, z_big) = if chunk_pos_0.z > chunk_pos_1.z {
        (chunk_pos_1.z, chunk_pos_0.z)
    } else {
        (chunk_pos_0.z, chunk_pos_1.z)
    };
    chunks_in_ranges(x_small, x_big, y_small, y_big, z_small, z_big)
}

/// Every coordinate of the rectangular region of chunks spanned by two world
/// positions: each corner goes through the coordinate mapper —
/// `floor(corner / chunk_size)` component-wise — and the region between the
/// two resulting chunk coordinates is enumerated, each coordinate exactly
/// once. The strict bounds in `requires` only keep the loop counters within
/// machine range.
pub fn spawn_chunks_rect_from_world_pos(
    chunk_pos_0: WorldPos,
    chunk_pos_1: WorldPos,
    chunk_size: &ChunkSize,
) -> (r: Vec<ChunkPos>)
    requires
        chunk_pos_0.x < i64::MAX,
        chunk_pos_0.y < i64::MAX,
        chunk_pos_0.z < i64::MAX,
        chunk_pos_1.x < i64::MAX,
        chunk_pos_1.y < i64::MAX,
        chunk_pos_1.z < i64::MAX,
    ensures
        forall|c: ChunkPos| #[trigger] r@.contains(c) <==> in_corner_box(
            spec_to_chunk_coord(chunk_pos_0, *chunk_size),
            spec_to_chunk_coord(chunk_pos_1, *chunk_size),
            c,
        ),
        r@.no_duplicates(),
        r@.len() == corner_box_volume(
            spec_to_chunk_coord(chunk_pos_0, *chunk_size),
            spec_to_chunk_coord(chunk_pos_1, *chunk_size),
        ),
{
    let c0 = to_chunk_coord(chunk_pos_0, chunk_size);
    let c1 = to_chunk_coord(chunk_pos_1, chunk_size);
    spawn_chunks_rect(c0, c1)
}

} // verus!
