//! The chunk registry: the authoritative mapping from chunk coordinate to the
//! entity occupying that chunk.
//!
//! [`ChunkManager`] owns the chunk size and a mapping with unique keys, viewed
//! in specifications as a `Map<ChunkPos, Entity>`. A coordinate is in the map
//! exactly while a live chunk occupies it: `insert` (driven by chunk-object
//! creation) puts it there, `remove` (driven by destruction) takes it out.
//! Inserting onto an occupied coordinate overwrites and returns the prior
//! occupant, so the caller can surface the conflict; removing an unoccupied
//! coordinate is a no-op.

use vstd::prelude::*;

verus! {

use bevy::ecs::entity::Entity;
use crate::coords::{
    spec_to_chunk_coord, spec_to_world_origin, to_chunk_coord, to_world_origin, ChunkPos,
    ChunkSize, WorldPos,
};

/// Chunk occupants are the host entity system's `Entity` handles. Relies only
/// on the type existing: it is carried opaquely, never inspected — the
/// registry stores handles and returns them, and treats them as identities.
#[verifier::external_type_specification]
#[verifier::external_body]
pub struct ExEntity(Entity);

/// Whether some entry of `s` has key `c`.
spec fn seq_has_key(s: Seq<(ChunkPos, Entity)>, c: ChunkPos) -> bool {
    exists|i: int| 0 <= i < s.len() && (#[trigger] s[i]).0 == c
}

/// The index of the entry with key `c` (meaningful when `seq_has_key`).
spec fn key_index(s: Seq<(ChunkPos, Entity)>, c: ChunkPos) -> int {
    choose|i: int| 0 <= i < s.len() && (#[trigger] s[i]).0 == c
}

/// The value stored under key `c` (meaningful when `seq_has_key`).
spec fn seq_value(s: Seq<(ChunkPos, Entity)>, c: ChunkPos) -> Entity {
    s[key_index(s, c)].1
}

/// The entry sequence read as a mapping from coordinate to occupant.
spec fn seq_as_map(s: Seq<(ChunkPos, Entity)>) -> Map<ChunkPos, Entity> {
    Map::new(|c: ChunkPos| seq_has_key(s, c), |c: ChunkPos| seq_value(s, c))
}

/// No two entries share a key.
spec fn unique_keys(s: Seq<(ChunkPos, Entity)>) -> bool {
    forall|i: int, j: int|
        0 <= i < j < s.len() ==> (#[trigger] s[i]).0 != (#[trigger] s[j]).0
}

/// The entry at index `i` is the one `seq_value` denotes for its key.
proof fn lemma_seq_value_at(s: Seq<(ChunkPos, Entity)>, i: int)
    requires
        unique_keys(s),
        0 <= i < s.len(),
    ensures
        seq_has_key(s, s[i].0),
        seq_value(s, s[i].0) == s[i].1,
{
    assert(seq_has_key(s, s[i].0));
    let k = key_index(s, s[i].0);
    assert(0 <= k < s.len() && s[k].0 == s[i].0);
    if k != i {
        assert(false);
    }
}

/// Pushing an entry with a fresh key keeps keys unique and inserts into the
/// mapping view.
proof fn lemma_push_view(s: Seq<(ChunkPos, Entity)>, p: (ChunkPos, Entity))
    requires
        unique_keys(s),
        !seq_has_key(s, p.0),
    ensures
        unique_keys(s.push(p)),
        seq_as_map(s.push(p)) == seq_as_map(s).insert(p.0, p.1),
{
    let t = s.push(p);
    let n = s.len() as int;
    assert forall|i: int, j: int| 0 <= i < j < t.len() implies (#[trigger] t[i]).0 != (
    #[trigger] t[j]).0 by {
        if j == n {
            assert(t[i] == s[i]);
            if t[i].0 == p.0 {
                assert(seq_has_key(s, p.0));
            }
        } else {
            assert(t[i] == s[i] && t[j] == s[j]);
        }
    }
    assert forall|c: ChunkPos| #[trigger] seq_has_key(t, c) <==> (seq_has_key(s, c) || p.0
        == c) by {
        if seq_has_key(t, c) {
            let k = key_index(t, c);
            if k < n {
                assert(t[k] == s[k]);
                assert(seq_has_key(s, c));
            } else {
                assert(t[k] == p);
            }
        }
        if seq_has_key(s, c) {
            let k = key_index(s, c);
            assert(t[k] == s[k]);
            assert(seq_has_key(t, c));
        }
        if p.0 == c {
            assert(t[n] == p);
            assert(seq_has_key(t, c));
        }
    }
    assert forall|c: ChunkPos| seq_has_key(t, c) implies seq_value(t, c) == (if p.0 == c {
        p.1
    } else {
        seq_value(s, c)
    }) by {
        let k = key_index(t, c);
        assert(0 <= k < t.len() && t[k].0 == c);
        if p.0 == c {
            if k < n {
                assert(t[k] == s[k]);
                assert(seq_has_key(s, p.0));
                assert(false);
            }
            assert(t[k] == p);
        } else {
            assert(k < n);
            assert(t[k] == s[k]);
            assert(seq_has_key(s, c));
            let k2 = key_index(s, c);
            assert(0 <= k2 < n && s[k2].0 == c);
            if k2 != k {
                assert(false);
            }
        }
    }
    assert(seq_as_map(t) =~= seq_as_map(s).insert(p.0, p.1));
}

/// Swap-removing the entry at index `i` keeps keys unique and removes its key
/// from the mapping view.
proof fn lemma_swap_remove_view(s: Seq<(ChunkPos, Entity)>, i: int)
    requires
        unique_keys(s),
        0 <= i < s.len(),
    ensures
        unique_keys(s.update(i, s.last()).drop_last()),
        !seq_has_key(s.update(i, s.last()).drop_last(), s[i].0),
        seq_as_map(s.update(i, s.last()).drop_last()) == seq_as_map(s).remove(s[i].0),
{
    let n = s.len() as int;
    let t = s.update(i, s.last()).drop_last();
    let c0 = s[i].0;
    assert(t.len() == n - 1);
    assert forall|j: int| 0 <= j < n - 1 implies #[trigger] t[j] == (if j == i {
        s[n - 1]
    } else {
        s[j]
    }) by {
        assert(t[j] == s.update(i, s[n - 1])[j]);
    }
    assert forall|a: int, b: int| 0 <= a < b < t.len() implies (#[trigger] t[a]).0 != (
    #[trigger] t[b]).0 by {
        let ga = if a == i { n - 1 } else { a };
        let gb = if b == i { n - 1 } else { b };
        assert(t[a] == s[ga] && t[b] == s[gb]);
        assert(ga != gb);
    }
    assert forall|c: ChunkPos| #[trigger] seq_has_key(t, c) <==> (seq_has_key(s, c) && c
        != c0) by {
        if seq_has_key(t, c) {
            let k = key_index(t, c);
            let g = if k == i { n - 1 } else { k };
            assert(t[k] == s[g]);
            assert(seq_has_key(s, c));
            assert(g != i);
            if c == c0 {
                assert(s[g].0 == s[i].0);
                assert(false);
            }
        }
        if seq_has_key(s, c) && c != c0 {
            let k = key_index(s, c);
            assert(0 <= k < n && s[k].0 == c);
            assert(k != i);
            if k == n - 1 {
                assert(i < n - 1);
                assert(t[i] == s[n - 1]);
                assert(seq_has_key(t, c));
            } else {
                assert(t[k] == s[k]);
                assert(seq_has_key(t, c));
            }
        }
    }
    assert forall|c: ChunkPos| seq_has_key(t, c) implies seq_value(t, c) == seq_value(s, c) by {
        let k = key_index(t, c);
        assert(0 <= k < t.len() && t[k].0 == c);
        let g = if k == i { n - 1 } else { k };
        assert(t[k] == s[g]);
        assert(seq_has_key(s, c));
        let k2 = key_index(s, c);
        assert(0 <= k2 < n && s[k2].0 == c);
        if k2 != g {
            assert(false);
        }
    }
    assert(seq_as_map(t) =~= seq_as_map(s).remove(c0));
}

/// The index of the entry keyed `pos`, if any entry has that key.
fn find_index(chunks: &Vec<(ChunkPos, Entity)>, pos: ChunkPos) -> (r: Option<usize>)
    ensures
        match r {
            Some(i) => i < chunks@.len() && chunks@[i as int].0 == pos,
            None => !seq_has_key(chunks@, pos),
        },
{
    let mut i: usize = 0;
    while i < chunks.len()
        invariant
            i <= chunks@.len(),
            forall|j: int| 0 <= j < i ==> (#[trigger] chunks@[j]).0 != pos,
        decreases chunks@.len() - i,
    {
        if chunks[i].0 == pos {
            return Some(i);
        }
        i = i + 1;
    }
    None
}

/// The occupant stored under `c`, if `c` is occupied.
pub open spec fn spec_lookup(m: Map<ChunkPos, Entity>, c: ChunkPos) -> Option<Entity> {
    if m.contains_key(c) {
        Some(m[c])
    } else {
        None
    }
}

/// The registry of materialized chunks: owns the (immutable) chunk size and
/// the mapping from chunk coordinate to occupying entity. In specifications
/// `self@` is that mapping as a `Map<ChunkPos, Entity>`.
pub struct ChunkManager {
    chunk_size: ChunkSize,
    chunks: Vec<(ChunkPos, Entity)>,
}

impl View for ChunkManager {
    type V = Map<ChunkPos, Entity>;

    closed spec fn view(&self) -> Map<ChunkPos, Entity> {
        seq_as_map(self.chunks@)
    }
}

impl ChunkManager {
    #[verifier::type_invariant]
    spec fn inv(self) -> bool {
        unique_keys(self.chunks@)
    }

    /// The registry's chunk size, for specifications.
    pub closed spec fn size(self) -> ChunkSize {
        self.chunk_size
    }

    /// Creates an empty registry with the given chunk size. The size was
    /// validated at construction ([`ChunkSize::new`]), so no degenerate
    /// registry can be produced.
    pub fn new(chunk_size: ChunkSize) -> (r: ChunkManager)
        ensures
            r.size() == chunk_size,
            r@ == Map::<ChunkPos, Entity>::empty(),
    {
        let r = ChunkManager { chunk_size, chunks: Vec::new() };
        proof {
            assert(r@ =~= Map::<ChunkPos, Entity>::empty());
        }
        r
    }

    /// The size of chunks in world units.
    pub fn get_size(&self) -> (r: ChunkSize)
        ensures
            r == self.size(),
    {
        self.chunk_size
    }

    /// Inserts or overwrites the occupant at `pos`, returning the previous
    /// occupant if the coordinate was already occupied. A caller must treat a
    /// non-empty return as a conflict and report it: the prior occupant still
    /// exists but no longer holds its coordinate.
    pub fn insert(&mut self, pos: ChunkPos, id: Entity) -> (prev: Option<Entity>)
        ensures
            final(self)@ == old(self)@.insert(pos, id),
            final(self).size() == old(self).size(),
            prev == spec_lookup(old(self)@, pos),
    {
        proof {
            use_type_invariant(&*self);
        }
        let ghost s0 = self.chunks@;
        let idx = find_index(&self.chunks, pos);
        let mut chunks: Vec<(ChunkPos, Entity)> = Vec::new();
        core::mem::swap(&mut chunks, &mut self.chunks);
        let prev = match idx {
            Some(i) => {
                proof {
                    lemma_seq_value_at(s0, i as int);
                    lemma_swap_remove_view(s0, i as int);
                }
                let pair = chunks.swap_remove(i);
                Some(pair.1)
            },
            None => None,
        };
        proof {
            lemma_push_view(chunks@, (pos, id));
        }
        chunks.push((pos, id));
        self.chunks = chunks;
        proof {
            assert(final(self)@ =~= old(self)@.insert(pos, id));
        }
        prev
    }

    /// Removes and returns the occupant at `pos` if one is present; removing
    /// an unoccupied coordinate changes nothing and returns nothing.
    pub fn remove(&mut self, pos: &ChunkPos) -> (removed: Option<Entity>)
        ensures
            final(self)@ == old(self)@.remove(*pos),
            final(self).size() == old(self).size(),
            removed == spec_lookup(old(self)@, *pos),
    {
        proof {
            use_type_invariant(&*self);
        }
        let ghost s0 = self.chunks@;
        match find_index(&self.chunks, *pos) {
            Some(i) => {
                proof {
                    lemma_seq_value_at(s0, i as int);
                    lemma_swap_remove_view(s0, i as int);
                }
                let mut chunks: Vec<(ChunkPos, Entity)> = Vec::new();
                core::mem::swap(&mut chunks, &mut self.chunks);
                let pair = chunks.swap_remove(i);
                self.chunks = chunks;
                Some(pair.1)
            },
            None => {
                proof {
                    assert(old(self)@.remove(*pos) =~= old(self)@);
                }
                None
            },
        }
    }

    /// The coordinate of the chunk containing world position `pos`:
    /// `floor(pos / chunk_size)` component-wise.
    pub fn get_chunk_pos(&self, pos: &WorldPos) -> (r: ChunkPos)
        ensures
            r == spec_to_chunk_coord(*pos, self.size()),
    {
        to_chunk_coord(*pos, &self.chunk_size)
    }

    /// The minimum corner of chunk `coord`'s bounding box, in world space.
    /// The bounds in `requires` only keep the product within machine range.
    pub fn chunk_to_world_origin(&self, coord: &ChunkPos) -> (r: WorldPos)
        requires
            i64::MIN <= coord.x * self.size().sx() <= i64::MAX,
            i64::MIN <= coord.y * self.size().sy() <= i64::MAX,
            i64::MIN <= coord.z * self.size().sz() <= i64::MAX,
        ensures
            r == spec_to_world_origin(*coord, self.size()),
    {
        to_world_origin(*coord, &self.chunk_size)
    }

    /// The occupant at chunk coordinate `chunk_pos`, if that chunk is loaded.
    pub fn get_chunk(&self, chunk_pos: &ChunkPos) -> (r: Option<Entity>)
        ensures
            r == spec_lookup(self@, *chunk_pos),
    {
        proof {
            use_type_invariant(&*self);
        }
        match find_index(&self.chunks, *chunk_pos) {
            Some(i) => {
                proof {
                    lemma_seq_value_at(self.chunks@, i as int);
                }
                Some(self.chunks[i].1)
            },
            None => None,
        }
    }

    /// The occupant of the chunk containing world position `pos`, if that
    /// chunk is loaded.
    pub fn get_chunk_form_pos(&self, pos: &WorldPos) -> (r: Option<Entity>)
        ensures
            r == spec_lookup(self@, spec_to_chunk_coord(*pos, self.size())),
    {
        self.get_chunk(&self.get_chunk_pos(pos))
    }

    /// Whether a chunk is loaded at `chunk_pos`.
    pub fn is_loaded(&self, chunk_pos: &ChunkPos) -> (r: bool)
        ensures
            r == self@.contains_key(*chunk_pos),
    {
        match find_index(&self.chunks, *chunk_pos) {
            Some(_) => true,
            None => false,
        }
    }
}

/// One registry-affecting operation, for stating laws about operation
/// sequences.
pub enum RegistryOp {
    /// Insert an occupant at a coordinate.
    Insert(ChunkPos, Entity),
    /// Remove whatever occupies a coordinate.
    Remove(ChunkPos),
}

/// The coordinate an operation affects.
pub open spec fn op_coord(op: RegistryOp) -> ChunkPos {
    match op {
        RegistryOp::Insert(c, _) => c,
        RegistryOp::Remove(c) => c,
    }
}

/// The mapping after one operation: exactly what `insert` and `remove`
/// promise of the registry's view.
pub open spec fn apply_op(m: Map<ChunkPos, Entity>, op: RegistryOp) -> Map<ChunkPos, Entity> {
    match op {
        RegistryOp::Insert(c, e) => m.insert(c, e),
        RegistryOp::Remove(c) => m.remove(c),
    }
}

/// The mapping after a sequence of operations, applied in order.
pub open spec fn apply_ops(m: Map<ChunkPos, Entity>, ops: Seq<RegistryOp>) -> Map<
    ChunkPos,
    Entity,
>
    decreases ops.len(),
{
    if ops.len() == 0 {
        m
    } else {
        apply_op(apply_ops(m, ops.drop_last()), ops.last())
    }
}

/// Whether the most recent operation in `ops` affecting `c` is an insert.
pub open spec fn latest_op_is_insert(ops: Seq<RegistryOp>, c: ChunkPos) -> bool
    decreases ops.len(),
{
    if ops.len() == 0 {
        false
    } else if op_coord(ops.last()) == c {
        ops.last() is Insert
    } else {
        latest_op_is_insert(ops.drop_last(), c)
    }
}

/// Registry uniqueness invariant: starting from an empty registry, after any
/// sequence of insert/remove operations, a coordinate is loaded exactly when
/// the most recent operation affecting it was an insert not yet followed by a
/// remove.
pub proof fn lemma_registry_uniqueness(ops: Seq<RegistryOp>, c: ChunkPos)
    ensures
        apply_ops(Map::<ChunkPos, Entity>::empty(), ops).contains_key(c) <==> latest_op_is_insert(
            ops,
            c,
        ),
    decreases ops.len(),
{
    if ops.len() > 0 {
        lemma_registry_uniqueness(ops.drop_last(), c);
    }
}

/// Conflict detection: inserting `a` at `c` and then `b` at the same `c` has
/// the second insert return `Some(a)` — the overwritten occupant — while a
/// lookup afterwards finds `b`.
pub proof fn lemma_conflict_detection(
    m: Map<ChunkPos, Entity>,
    c: ChunkPos,
    a: Entity,
    b: Entity,
)
    ensures
        spec_lookup(m.insert(c, a), c) == Some(a),
        spec_lookup(m.insert(c, a).insert(c, b), c) == Some(b),
{
}

/// Idempotent removal: removing a coordinate that is not occupied — in
/// particular, any coordinate of an empty registry — returns nothing and
/// leaves the registry unchanged.
pub proof fn lemma_remove_absent(m: Map<ChunkPos, Entity>, c: ChunkPos)
    requires
        !m.contains_key(c),
    ensures
        spec_lookup(m, c) == None::<Entity>,
        m.remove(c) == m,
{
    assert(m.remove(c) =~= m);
}

} // verus!
