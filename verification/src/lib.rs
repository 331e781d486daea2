//! Persisted segment-metadata layer of a columnar table store: a versioned,
//! self-describing binary envelope around a segment's block descriptors and
//! aggregate statistics, with migration from older in-memory shapes.

pub mod codec;
pub mod format;
pub mod segment;
pub mod v2;

pub use format::Compression;
pub use format::Encoding;
pub use format::SegmentError;
pub use segment::SegmentInfo;
pub use segment::CURRENT_FORMAT_VERSION;
pub use v2::BlockMeta;
pub use v2::Statistics;
