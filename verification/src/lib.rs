//! Chunk bookkeeping for an unbounded 3D world partitioned into fixed-size
//! axis-aligned cells ("chunks").
//!
//! The crate has three parts, leaf first:
//!
//! * [`coords`] — the pure mapping between world-space positions and discrete
//!   chunk coordinates, parameterized by a fixed, positive chunk size.
//!   Conversion floors toward negative infinity, so negative positions land in
//!   the correct chunk.
//! * [`registry`] — [`registry::ChunkManager`], the authoritative map from
//!   chunk coordinate to the entity occupying that chunk, with
//!   insert/remove/lookup operations and a conflict-reporting insert.
//! * [`loader`] — the radius-based loading pass: given observers (a position
//!   and a per-axis load radius each), enumerate the box of chunk coordinates
//!   around every observer and collect the ones not yet registered, each at
//!   most once.
//!
//! World positions are modeled as whole numbers of world units. A host whose
//! positions are finer-grained than one unit can scale positions and chunk
//! sizes by a common factor before handing them in; flooring commutes with
//! such scaling.

pub mod coords;
pub mod loader;
pub mod registry;
