//! Leaf value types shared with the previous format version, and the
//! previous-version segment aggregate itself.
//!
//! The in-memory shape of a segment did not change between the previous
//! format version and the current one — only the serialization did — so the
//! block descriptor and statistics types live here and are reused by the
//! current version.

use std::sync::Arc;
use vstd::prelude::*;

verus! {

/// The wire tag of the previous segment format version.
pub const V2_FORMAT_VERSION: u64 = 2;

/// Descriptor of one physical data block. Immutable once constructed; shared
/// by reference (`Arc`) across the segment aggregates that mention it, so a
/// migration never deep-copies block descriptors.
#[derive(Clone, Copy, Debug, PartialEq, Eq, Structural)]
pub struct BlockMeta {
    /// Byte size of the block.
    pub block_size: u64,
}

/// Aggregate summary over all blocks of a segment. Produced once by the
/// caller; this layer stores it verbatim and does not recompute it from the
/// blocks.
#[derive(Clone, Copy, Debug, PartialEq, Eq, Structural)]
pub struct Statistics {
    /// Total number of rows across the segment's blocks.
    pub row_count: u64,
}

/// A segment aggregate in the previous format version's shape.
#[derive(Clone, Debug, PartialEq, Eq)]
pub struct SegmentInfo {
    /// Format version this aggregate was read in.
    pub format_version: u64,
    /// Blocks belonging to this segment, in significant order.
    pub blocks: Vec<Arc<BlockMeta>>,
    /// Summary statistics over the blocks.
    pub summary: Statistics,
}

impl SegmentInfo {
    pub fn new(blocks: Vec<Arc<BlockMeta>>, summary: Statistics) -> (r: Self)
        ensures
            r.format_version == V2_FORMAT_VERSION,
            r.blocks == blocks,
            r.summary == summary,
    {
        SegmentInfo { format_version: V2_FORMAT_VERSION, blocks, summary }
    }
}

} // verus!
