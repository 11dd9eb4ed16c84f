//! A chunked data-transformation pipeline: a dataset of fixed-shape records
//! is split into disjoint contiguous segments, each segment is transformed
//! independently (the two payload fields of every record are swapped, the
//! sequence number is carried through), and the per-segment outputs are
//! reassembled in order and checked against the input.

pub mod partition;
pub mod pipeline;
pub mod record;
pub mod verify;
