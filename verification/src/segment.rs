//! The current-version segment aggregate and its envelope codec: framing a
//! segment's metadata into one self-describing byte buffer and reversing it,
//! plus migration from the previous in-memory shape.
//!
//! Byte layout of the envelope (all integers little-endian, no padding):
//! format version (8 bytes), encoding tag (1 byte), compression tag (1 byte),
//! blocks payload length (8 bytes), summary payload length (8 bytes), blocks
//! payload, summary payload. A buffer with bytes left over after the summary
//! payload is rejected as corrupt rather than silently accepted.

use std::sync::Arc;
use vstd::bytes::lemma_auto_spec_u64_to_from_le_bytes;
use vstd::bytes::spec_u64_from_le_bytes;
use vstd::bytes::spec_u64_to_le_bytes;
use vstd::bytes::u64_from_le_bytes;
use vstd::bytes::u64_to_le_bytes;
use vstd::prelude::*;
use vstd::slice::slice_subrange;
use vstd::slice::slice_to_vec;

use crate::codec::decode_blocks;
use crate::codec::decode_summary;
use crate::codec::encode_blocks;
use crate::codec::encode_summary;
use crate::codec::lemma_blocks_payload_injective;
use crate::codec::lemma_blocks_payload_wf;
use crate::codec::lemma_flat_len;
use crate::codec::spec_blocks_payload;
use crate::codec::spec_blocks_payload_wf;
use crate::codec::spec_summary_bytes;
use crate::format::compress;
use crate::format::decompress;
use crate::format::spec_compress;
use crate::format::Compression;
use crate::format::Encoding;
use crate::format::SegmentError;
use crate::v2;
use crate::v2::BlockMeta;
use crate::v2::Statistics;

verus! {

/// The wire tag of the current segment format version: the constant the
/// writer stamps into every envelope it emits, and the only version the
/// reader in this module accepts.
pub const CURRENT_FORMAT_VERSION: u64 = 3;

/// A segment: one or more blocks and their summary statistics. The in-memory
/// shape equals the previous version's; only the serialization differs.
#[derive(Clone, Debug, PartialEq, Eq)]
pub struct SegmentInfo {
    /// Format version of this segment metadata.
    ///
    /// A freshly constructed aggregate carries [`CURRENT_FORMAT_VERSION`]. An
    /// aggregate produced by a migration adapter carries the wire tag of the
    /// version it was read in, as provenance; the writer re-stamps the
    /// current constant on every write regardless of this field.
    pub format_version: u64,
    /// Blocks belonging to this segment. Order is significant and is
    /// preserved exactly through encode, decode and migration.
    pub blocks: Vec<Arc<BlockMeta>>,
    /// Summary statistics over the blocks, stored verbatim.
    pub summary: Statistics,
}

/// Sum of `block_size` over a block list; 0 for the empty list.
pub open spec fn spec_total_bytes(s: Seq<Arc<BlockMeta>>) -> int
    decreases s.len(),
{
    if s.len() == 0 {
        0
    } else {
        (*s[0]).block_size + spec_total_bytes(s.drop_first())
    }
}

/// A block-size sum is never negative.
pub proof fn lemma_total_bytes_nonneg(s: Seq<Arc<BlockMeta>>)
    ensures
        0 <= spec_total_bytes(s),
    decreases s.len(),
{
    if s.len() > 0 {
        lemma_total_bytes_nonneg(s.drop_first());
    }
}

/// The envelope framing: header fields, then the two compressed payloads.
pub open spec fn spec_envelope(bp: Seq<u8>, sp: Seq<u8>) -> Seq<u8>
    recommends
        bp.len() <= u64::MAX,
        sp.len() <= u64::MAX,
{
    spec_u64_to_le_bytes(CURRENT_FORMAT_VERSION) + seq![
        Encoding::Binary.spec_tag(),
        Compression::Uncompressed.spec_tag(),
    ] + spec_u64_to_le_bytes(bp.len() as u64) + spec_u64_to_le_bytes(sp.len() as u64) + bp + sp
}

/// The exact bytes the writer emits for a segment with the given blocks and
/// summary. The in-memory `format_version` does not appear here: the writer
/// always stamps [`CURRENT_FORMAT_VERSION`] and the default codec tags.
pub open spec fn spec_segment_bytes(blocks: Seq<Arc<BlockMeta>>, summary: Statistics) -> Seq<u8>
    recommends
        8 + 8 * blocks.len() <= u64::MAX,
{
    spec_envelope(
        spec_compress(Compression::Uncompressed, spec_blocks_payload(blocks)),
        spec_compress(Compression::Uncompressed, spec_summary_bytes(summary)),
    )
}

/// How reading an envelope fails, if it does: `None` exactly on buffers the
/// reader accepts. The checks run in the reader's order: header truncation,
/// version, encoding tag, compression tag, declared lengths, blocks payload,
/// summary payload, and finally rejection of trailing bytes.
pub open spec fn spec_from_bytes_err(b: Seq<u8>) -> Option<SegmentError> {
    if b.len() < 8 {
        Some(SegmentError::TruncatedInput)
    } else if spec_u64_from_le_bytes(b.subrange(0, 8)) != CURRENT_FORMAT_VERSION {
        Some(SegmentError::VersionMismatch)
    } else if b.len() < 9 {
        Some(SegmentError::TruncatedInput)
    } else if Encoding::spec_from_tag(b[8]) is None {
        Some(SegmentError::UnsupportedEncoding(b[8]))
    } else if b.len() < 10 {
        Some(SegmentError::TruncatedInput)
    } else if Compression::spec_from_tag(b[9]) is None {
        Some(SegmentError::UnsupportedCompression(b[9]))
    } else if b.len() < 26 {
        Some(SegmentError::TruncatedInput)
    } else {
        let bl = spec_u64_from_le_bytes(b.subrange(10, 18)) as int;
        let sl = spec_u64_from_le_bytes(b.subrange(18, 26)) as int;
        if b.len() < 26 + bl {
            Some(SegmentError::TruncatedInput)
        } else if !spec_blocks_payload_wf(b.subrange(26, 26 + bl)) {
            Some(SegmentError::CorruptPayload)
        } else if b.len() < 26 + bl + sl {
            Some(SegmentError::TruncatedInput)
        } else if sl != 8 {
            Some(SegmentError::CorruptPayload)
        } else if b.len() != 26 + bl + sl {
            Some(SegmentError::CorruptPayload)
        } else {
            None
        }
    }
}

impl SegmentInfo {
    /// Builds a fresh aggregate, stamped with the current format version.
    pub fn new(blocks: Vec<Arc<BlockMeta>>, summary: Statistics) -> (r: Self)
        ensures
            r.format_version == CURRENT_FORMAT_VERSION,
            r.blocks == blocks,
            r.summary == summary,
    {
        SegmentInfo { format_version: CURRENT_FORMAT_VERSION, blocks, summary }
    }

    /// Total block bytes of this segment: the sum of `block_size` over
    /// `blocks`, 0 when there are no blocks.
    pub fn total_bytes(&self) -> (r: u64)
        requires
            spec_total_bytes(self.blocks@) <= u64::MAX,
        ensures
            r == spec_total_bytes(self.blocks@),
    {
        proof {
            assert(self.blocks@.skip(0) =~= self.blocks@);
        }
        let mut sum: u64 = 0;
        let mut i: usize = 0;
        while i < self.blocks.len()
            invariant
                i <= self.blocks@.len(),
                spec_total_bytes(self.blocks@) <= u64::MAX,
                sum + spec_total_bytes(self.blocks@.skip(i as int)) == spec_total_bytes(
                    self.blocks@,
                ),
            decreases self.blocks@.len() - i,
        {
            proof {
                let sk = self.blocks@.skip(i as int);
                assert(sk[0] == self.blocks@[i as int]);
                assert(sk.drop_first() =~= self.blocks@.skip(i as int + 1));
                lemma_total_bytes_nonneg(self.blocks@.skip(i as int + 1));
            }
            sum = sum + self.blocks[i].block_size;
            i = i + 1;
        }
        proof {
            assert(self.blocks@.skip(self.blocks@.len() as int) =~= Seq::<Arc<BlockMeta>>::empty());
        }
        sum
    }

    /// The payload encoding new writes use.
    #[inline]
    pub fn encoding() -> (r: Encoding)
        ensures
            r == Encoding::Binary,
    {
        Encoding::default()
    }

    /// Lifts a previous-version aggregate into the current shape.
    ///
    /// Blocks and summary are carried over as they are — no payload is
    /// reserialized, and the shared block descriptors are the same ones. The
    /// `format_version` deliberately keeps the tag of the aggregate being
    /// converted, as provenance of which wire format was actually read; the
    /// writer re-stamps the current constant before persisting.
    pub fn from_v2(s: v2::SegmentInfo) -> (r: Self)
        ensures
            r.format_version == s.format_version,
            r.blocks == s.blocks,
            r.summary == s.summary,
    {
        SegmentInfo { format_version: s.format_version, blocks: s.blocks, summary: s.summary }
    }

    /// Serializes this segment into one self-describing byte buffer.
    ///
    /// The buffer always begins with [`CURRENT_FORMAT_VERSION`] — not
    /// `self.format_version`, so a migrated aggregate is re-stamped on write —
    /// followed by the default encoding and compression tags, both payload
    /// lengths, and the two payloads. Pure: `self` is never mutated, and no
    /// partial buffer is returned.
    pub fn to_bytes(&self) -> (r: Result<Vec<u8>, SegmentError>)
        ensures
            r matches Ok(buf) && buf@ == spec_segment_bytes(self.blocks@, self.summary),
    {
        let encoding = Encoding::default();
        let compression = Compression::default();

        let blocks_bytes = match encode_blocks(encoding, &self.blocks) {
            Ok(bs) => bs,
            Err(err) => {
                return Err(err);
            },
        };
        let blocks_payload = match compress(compression, blocks_bytes) {
            Ok(p) => p,
            Err(err) => {
                return Err(err);
            },
        };
        let summary_bytes = match encode_summary(encoding, &self.summary) {
            Ok(bs) => bs,
            Err(err) => {
                return Err(err);
            },
        };
        let summary_payload = match compress(compression, summary_bytes) {
            Ok(p) => p,
            Err(err) => {
                return Err(err);
            },
        };

        let mut buf = u64_to_le_bytes(CURRENT_FORMAT_VERSION);
        buf.push(encoding.tag());
        buf.push(compression.tag());
        let mut field = u64_to_le_bytes(blocks_payload.len() as u64);
        buf.append(&mut field);
        let mut field = u64_to_le_bytes(summary_payload.len() as u64);
        buf.append(&mut field);
        let mut blocks_payload = blocks_payload;
        buf.append(&mut blocks_payload);
        let mut summary_payload = summary_payload;
        buf.append(&mut summary_payload);
        proof {
            assert(buf@ =~= spec_segment_bytes(self.blocks@, self.summary));
        }
        Ok(buf)
    }

    /// Reads a segment back from a buffer known by the caller's dispatch to
    /// be in the current format version: the exact inverse of [`Self::to_bytes`].
    ///
    /// Succeeds exactly on the buffers [`spec_from_bytes_err`] accepts, and
    /// then the buffer is precisely the serialization of the returned
    /// segment, which is stamped with the current version. Every failure is
    /// reported as the error [`spec_from_bytes_err`] names; nothing panics,
    /// and no partially populated segment escapes.
    pub fn from_bytes(bytes: Vec<u8>) -> (r: Result<SegmentInfo, SegmentError>)
        ensures
            match r {
                Ok(s) => {
                    &&& spec_from_bytes_err(bytes@) is None
                    &&& s.format_version == CURRENT_FORMAT_VERSION
                    &&& 8 + 8 * s.blocks@.len() <= u64::MAX
                    &&& bytes@ == spec_segment_bytes(s.blocks@, s.summary)
                },
                Err(e) => spec_from_bytes_err(bytes@) == Some(e),
            },
    {
        proof {
            lemma_auto_spec_u64_to_from_le_bytes();
        }
        if bytes.len() < 8 {
            return Err(SegmentError::TruncatedInput);
        }
        let version = u64_from_le_bytes(slice_subrange(bytes.as_slice(), 0, 8));
        if version != CURRENT_FORMAT_VERSION {
            return Err(SegmentError::VersionMismatch);
        }
        if bytes.len() < 9 {
            return Err(SegmentError::TruncatedInput);
        }
        let encoding = match Encoding::from_tag(bytes[8]) {
            Ok(e) => e,
            Err(err) => {
                return Err(err);
            },
        };
        if bytes.len() < 10 {
            return Err(SegmentError::TruncatedInput);
        }
        let compression = match Compression::from_tag(bytes[9]) {
            Ok(c) => c,
            Err(err) => {
                return Err(err);
            },
        };
        if bytes.len() < 26 {
            return Err(SegmentError::TruncatedInput);
        }
        let blocks_len = u64_from_le_bytes(slice_subrange(bytes.as_slice(), 10, 18));
        let summary_len = u64_from_le_bytes(slice_subrange(bytes.as_slice(), 18, 26));

        let remaining = bytes.len() - 26;
        if (remaining as u64) < blocks_len {
            return Err(SegmentError::TruncatedInput);
        }
        let bl = blocks_len as usize;
        let blocks_raw = slice_to_vec(slice_subrange(bytes.as_slice(), 26, 26 + bl));
        let blocks_plain = match decompress(compression, blocks_raw, blocks_len) {
            Ok(p) => p,
            Err(err) => {
                return Err(err);
            },
        };
        let blocks = match decode_blocks(encoding, &blocks_plain) {
            Ok(bs) => bs,
            Err(err) => {
                return Err(err);
            },
        };

        let remaining = remaining - bl;
        if (remaining as u64) < summary_len {
            return Err(SegmentError::TruncatedInput);
        }
        let sl = summary_len as usize;
        let summary_raw = slice_to_vec(slice_subrange(bytes.as_slice(), 26 + bl, 26 + bl + sl));
        let summary_plain = match decompress(compression, summary_raw, summary_len) {
            Ok(p) => p,
            Err(err) => {
                return Err(err);
            },
        };
        let summary = match decode_summary(encoding, &summary_plain) {
            Ok(st) => st,
            Err(err) => {
                return Err(err);
            },
        };
        if remaining != sl {
            return Err(SegmentError::CorruptPayload);
        }

        let info = SegmentInfo::new(blocks, summary);
        proof {
            let b = bytes@;
            assert(b.subrange(0, 8) == spec_u64_to_le_bytes(CURRENT_FORMAT_VERSION)) by {
                let sub = b.subrange(0, 8);
                assert(spec_u64_to_le_bytes(spec_u64_from_le_bytes(sub)) == sub);
            }
            assert(b.subrange(10, 18) == spec_u64_to_le_bytes(blocks_len)) by {
                let sub = b.subrange(10, 18);
                assert(spec_u64_to_le_bytes(spec_u64_from_le_bytes(sub)) == sub);
            }
            assert(b.subrange(18, 26) == spec_u64_to_le_bytes(summary_len)) by {
                let sub = b.subrange(18, 26);
                assert(spec_u64_to_le_bytes(spec_u64_from_le_bytes(sub)) == sub);
            }
            assert(blocks_plain@.len() == blocks_len);
            assert(summary_plain@.len() == 8);
            lemma_flat_len(info.blocks@);
            assert(8 + 8 * info.blocks@.len() <= u64::MAX);
            assert(b =~= spec_segment_bytes(info.blocks@, info.summary));
            assert(spec_from_bytes_err(b) is None);
        }
        Ok(info)
    }
}

/// Round-trip law: the bytes written for any blocks and summary parse back
/// without error, and no other blocks or summary serialize to the same bytes
/// — so reading what was written recovers the segment, field for field.
pub proof fn lemma_round_trip(blocks: Seq<Arc<BlockMeta>>, summary: Statistics)
    requires
        8 + 8 * blocks.len() <= u64::MAX,
    ensures
        spec_from_bytes_err(spec_segment_bytes(blocks, summary)) is None,
        forall|blocks2: Seq<Arc<BlockMeta>>, summary2: Statistics|
            blocks2.len() <= u64::MAX && #[trigger] spec_segment_bytes(blocks2, summary2)
                == spec_segment_bytes(blocks, summary) ==> blocks2 == blocks && summary2
                == summary,
{
    lemma_auto_spec_u64_to_from_le_bytes();
    lemma_blocks_payload_wf(blocks);
    lemma_flat_len(blocks);
    let bp = spec_blocks_payload(blocks);
    let sp = spec_summary_bytes(summary);
    let e = spec_segment_bytes(blocks, summary);
    assert(bp.len() == 8 + 8 * blocks.len());
    assert(e.len() == 26 + bp.len() + 8);
    assert(e.subrange(0, 8) =~= spec_u64_to_le_bytes(CURRENT_FORMAT_VERSION));
    assert(e[8] == 1 && e[9] == 0);
    assert(e.subrange(10, 18) =~= spec_u64_to_le_bytes(bp.len() as u64));
    assert(e.subrange(18, 26) =~= spec_u64_to_le_bytes(sp.len() as u64));
    assert(e.subrange(26, 26 + bp.len() as int) =~= bp);
    assert(e.subrange(26 + bp.len() as int, e.len() as int) =~= sp);
    assert(spec_from_bytes_err(e) is None);
    assert forall|blocks2: Seq<Arc<BlockMeta>>, summary2: Statistics|
        blocks2.len() <= u64::MAX && #[trigger] spec_segment_bytes(blocks2, summary2)
            == e implies blocks2 == blocks && summary2 == summary by {
        let bp2 = spec_blocks_payload(blocks2);
        let sp2 = spec_summary_bytes(summary2);
        let e2 = spec_segment_bytes(blocks2, summary2);
        assert(e2.len() == 26 + bp2.len() + 8);
        assert(bp2.len() == bp.len());
        assert(bp2 =~= e2.subrange(26, 26 + bp2.len() as int));
        assert(bp2 == bp);
        lemma_blocks_payload_injective(blocks2, blocks);
        assert(sp2 =~= e2.subrange(26 + bp2.len() as int, e2.len() as int));
        assert(sp2 == sp);
        assert(summary2.row_count == summary.row_count) by {
            assert(spec_u64_from_le_bytes(spec_u64_to_le_bytes(summary2.row_count))
                == summary2.row_count);
            assert(spec_u64_from_le_bytes(spec_u64_to_le_bytes(summary.row_count))
                == summary.row_count);
        }
    }
}

/// Re-stamp-on-write law, at the wire: the first eight bytes of every
/// envelope the writer emits decode to [`CURRENT_FORMAT_VERSION`], whatever
/// `format_version` the in-memory aggregate carried — [`spec_segment_bytes`]
/// does not even take it as an input.
pub proof fn lemma_envelope_version_field(blocks: Seq<Arc<BlockMeta>>, summary: Statistics)
    ensures
        spec_u64_from_le_bytes(spec_segment_bytes(blocks, summary).subrange(0, 8))
            == CURRENT_FORMAT_VERSION,
{
    lemma_auto_spec_u64_to_from_le_bytes();
    assert(spec_segment_bytes(blocks, summary).subrange(0, 8) =~= spec_u64_to_le_bytes(
        CURRENT_FORMAT_VERSION,
    ));
}

/// Tag-closure law: once the version field reads as current and the header
/// reaches the tag bytes, an unregistered encoding tag fails as
/// `UnsupportedEncoding` and an unregistered compression tag as
/// `UnsupportedCompression` — whatever the declared payload lengths and
/// however many bytes remain.
pub proof fn lemma_tag_closure(b: Seq<u8>)
    requires
        b.len() >= 10,
        spec_u64_from_le_bytes(b.subrange(0, 8)) == CURRENT_FORMAT_VERSION,
    ensures
        Encoding::spec_from_tag(b[8]) is None ==> spec_from_bytes_err(b) == Some(
            SegmentError::UnsupportedEncoding(b[8]),
        ),
        Encoding::spec_from_tag(b[8]) is Some && Compression::spec_from_tag(b[9]) is None
            ==> spec_from_bytes_err(b) == Some(SegmentError::UnsupportedCompression(b[9])),
{
}

/// Truncation-boundary law: cutting a valid envelope anywhere short of its
/// end makes the reader fail with `TruncatedInput` — never another error, and
/// never a partially populated segment.
pub proof fn lemma_truncation(blocks: Seq<Arc<BlockMeta>>, summary: Statistics, k: int)
    requires
        8 + 8 * blocks.len() <= u64::MAX,
        0 <= k < spec_segment_bytes(blocks, summary).len(),
    ensures
        spec_from_bytes_err(spec_segment_bytes(blocks, summary).subrange(0, k)) == Some(
            SegmentError::TruncatedInput,
        ),
{
    lemma_auto_spec_u64_to_from_le_bytes();
    lemma_blocks_payload_wf(blocks);
    lemma_flat_len(blocks);
    let bp = spec_blocks_payload(blocks);
    let sp = spec_summary_bytes(summary);
    let e = spec_segment_bytes(blocks, summary);
    let p = e.subrange(0, k);
    assert(bp.len() == 8 + 8 * blocks.len());
    assert(e.len() == 26 + bp.len() + 8);
    if k < 8 {
    } else {
        assert(p.subrange(0, 8) =~= e.subrange(0, 8));
        assert(e.subrange(0, 8) =~= spec_u64_to_le_bytes(CURRENT_FORMAT_VERSION));
        if k >= 9 {
            assert(p[8] == e[8] && e[8] == 1);
        }
        if k >= 10 {
            assert(p[9] == e[9] && e[9] == 0);
        }
        if k >= 26 {
            assert(p.subrange(10, 18) =~= e.subrange(10, 18));
            assert(e.subrange(10, 18) =~= spec_u64_to_le_bytes(bp.len() as u64));
            assert(p.subrange(18, 26) =~= e.subrange(18, 26));
            assert(e.subrange(18, 26) =~= spec_u64_to_le_bytes(sp.len() as u64));
            if k >= 26 + bp.len() {
                assert(p.subrange(26, 26 + bp.len() as int) =~= bp);
                assert(spec_blocks_payload_wf(bp));
                assert(p.len() < 26 + bp.len() + 8);
            }
        }
    }
}

} // verus!
