//! Binary payload codec: how a segment's block list and summary statistics
//! are laid out as bytes under the fixed-width little-endian encoding, with
//! the verified encoders and decoders and the facts the envelope relies on
//! (payload lengths, and injectivity of the layout).
//!
//! All integers are little-endian, without padding. A block list payload is
//! the block count (8 bytes) followed by each block's `block_size` (8 bytes
//! each, in list order); a summary payload is the `row_count` (8 bytes).

use std::sync::Arc;
use vstd::bytes::lemma_auto_spec_u64_to_from_le_bytes;
use vstd::bytes::spec_u64_from_le_bytes;
use vstd::bytes::spec_u64_to_le_bytes;
use vstd::bytes::u64_from_le_bytes;
use vstd::bytes::u64_to_le_bytes;
use vstd::prelude::*;
use vstd::slice::slice_subrange;

use crate::format::Encoding;
use crate::format::SegmentError;
use crate::v2::BlockMeta;
use crate::v2::Statistics;

verus! {

/// The bytes of one block descriptor.
pub open spec fn spec_block_bytes(b: BlockMeta) -> Seq<u8> {
    spec_u64_to_le_bytes(b.block_size)
}

/// The bytes of a block list, one descriptor after another, in list order.
pub open spec fn spec_blocks_flat(s: Seq<Arc<BlockMeta>>) -> Seq<u8>
    decreases s.len(),
{
    if s.len() == 0 {
        Seq::empty()
    } else {
        spec_block_bytes(*s[0]) + spec_blocks_flat(s.drop_first())
    }
}

/// The full block list payload: the block count, then the descriptors.
pub open spec fn spec_blocks_payload(s: Seq<Arc<BlockMeta>>) -> Seq<u8>
    recommends
        s.len() <= u64::MAX,
{
    spec_u64_to_le_bytes(s.len() as u64) + spec_blocks_flat(s)
}

/// Whether a byte sequence has the shape of a block list payload: long enough
/// for a count, and exactly as long as that count declares.
pub open spec fn spec_blocks_payload_wf(p: Seq<u8>) -> bool {
    &&& p.len() >= 8
    &&& p.len() == 8 + 8 * (spec_u64_from_le_bytes(p.subrange(0, 8)) as int)
}

/// The bytes of a summary statistics payload.
pub open spec fn spec_summary_bytes(st: Statistics) -> Seq<u8> {
    spec_u64_to_le_bytes(st.row_count)
}

/// A block list's bytes take 8 bytes per descriptor.
pub proof fn lemma_flat_len(s: Seq<Arc<BlockMeta>>)
    ensures
        spec_blocks_flat(s).len() == 8 * s.len(),
    decreases s.len(),
{
    lemma_auto_spec_u64_to_from_le_bytes();
    if s.len() > 0 {
        lemma_flat_len(s.drop_first());
    }
}

/// Appending one descriptor appends its bytes.
pub proof fn lemma_flat_push(s: Seq<Arc<BlockMeta>>, b: Arc<BlockMeta>)
    ensures
        spec_blocks_flat(s.push(b)) == spec_blocks_flat(s) + spec_block_bytes(*b),
    decreases s.len(),
{
    let p = s.push(b);
    if s.len() == 0 {
        assert(p[0] == b);
        assert(p.drop_first() =~= Seq::<Arc<BlockMeta>>::empty());
        assert(spec_blocks_flat(p) == spec_block_bytes(*p[0]) + spec_blocks_flat(p.drop_first()));
        assert(spec_blocks_flat(p) =~= spec_blocks_flat(s) + spec_block_bytes(*b));
    } else {
        assert(p[0] == s[0]);
        assert(p.drop_first() =~= s.drop_first().push(b));
        lemma_flat_push(s.drop_first(), b);
        assert(spec_blocks_flat(p) == spec_block_bytes(*p[0]) + spec_blocks_flat(p.drop_first()));
        assert(spec_blocks_flat(p) =~= spec_blocks_flat(s) + spec_block_bytes(*b));
    }
}

/// Two block lists of equal length with equal bytes are the same list.
pub proof fn lemma_flat_injective(s1: Seq<Arc<BlockMeta>>, s2: Seq<Arc<BlockMeta>>)
    requires
        s1.len() == s2.len(),
        spec_blocks_flat(s1) == spec_blocks_flat(s2),
    ensures
        s1 == s2,
    decreases s1.len(),
{
    lemma_auto_spec_u64_to_from_le_bytes();
    if s1.len() > 0 {
        lemma_flat_len(s1.drop_first());
        lemma_flat_len(s2.drop_first());
        let f1 = spec_blocks_flat(s1);
        let f2 = spec_blocks_flat(s2);
        assert(spec_block_bytes(*s1[0]) =~= f1.subrange(0, 8));
        assert(spec_block_bytes(*s2[0]) =~= f2.subrange(0, 8));
        assert((*s1[0]).block_size == (*s2[0]).block_size) by {
            assert(spec_u64_from_le_bytes(spec_block_bytes(*s1[0])) == (*s1[0]).block_size);
            assert(spec_u64_from_le_bytes(spec_block_bytes(*s2[0])) == (*s2[0]).block_size);
        }
        assert(s1[0] == s2[0]);
        assert(spec_blocks_flat(s1.drop_first()) =~= f1.subrange(8, f1.len() as int));
        assert(spec_blocks_flat(s2.drop_first()) =~= f2.subrange(8, f2.len() as int));
        lemma_flat_injective(s1.drop_first(), s2.drop_first());
        assert forall|i: int| 0 <= i < s1.len() implies s1[i] == s2[i] by {
            if i > 0 {
                assert(s1[i] == s1.drop_first()[i - 1]);
                assert(s2[i] == s2.drop_first()[i - 1]);
            }
        }
        assert(s1 =~= s2);
    } else {
        assert(s1 =~= s2);
    }
}

/// A block list payload built by [`spec_blocks_payload`] is well formed.
pub proof fn lemma_blocks_payload_wf(s: Seq<Arc<BlockMeta>>)
    requires
        s.len() <= u64::MAX,
    ensures
        spec_blocks_payload_wf(spec_blocks_payload(s)),
{
    lemma_auto_spec_u64_to_from_le_bytes();
    lemma_flat_len(s);
    let p = spec_blocks_payload(s);
    assert(p.subrange(0, 8) =~= spec_u64_to_le_bytes(s.len() as u64));
}

/// Equal block list payloads describe equal block lists.
pub proof fn lemma_blocks_payload_injective(s1: Seq<Arc<BlockMeta>>, s2: Seq<Arc<BlockMeta>>)
    requires
        s1.len() <= u64::MAX,
        s2.len() <= u64::MAX,
        spec_blocks_payload(s1) == spec_blocks_payload(s2),
    ensures
        s1 == s2,
{
    lemma_auto_spec_u64_to_from_le_bytes();
    lemma_flat_len(s1);
    lemma_flat_len(s2);
    let p1 = spec_blocks_payload(s1);
    let p2 = spec_blocks_payload(s2);
    assert(p1.subrange(0, 8) =~= spec_u64_to_le_bytes(s1.len() as u64));
    assert(p2.subrange(0, 8) =~= spec_u64_to_le_bytes(s2.len() as u64));
    assert(s1.len() == s2.len()) by {
        assert(spec_u64_from_le_bytes(p1.subrange(0, 8)) == s1.len() as u64);
        assert(spec_u64_from_le_bytes(p2.subrange(0, 8)) == s2.len() as u64);
    }
    assert(spec_blocks_flat(s1) =~= p1.subrange(8, p1.len() as int));
    assert(spec_blocks_flat(s2) =~= p2.subrange(8, p2.len() as int));
    lemma_flat_injective(s1, s2);
}

/// Serializes a block list under the given encoding.
pub fn encode_blocks(e: Encoding, blocks: &Vec<Arc<BlockMeta>>) -> (r: Result<
    Vec<u8>,
    SegmentError,
>)
    ensures
        r matches Ok(out) && out@ == spec_blocks_payload(blocks@),
{
    match e {
        Encoding::Binary => {
            let mut out = u64_to_le_bytes(blocks.len() as u64);
            let mut i: usize = 0;
            while i < blocks.len()
                invariant
                    i <= blocks@.len(),
                    out@ == spec_u64_to_le_bytes(blocks@.len() as u64) + spec_blocks_flat(
                        blocks@.take(i as int),
                    ),
                decreases blocks@.len() - i,
            {
                let ghost prefix = blocks@.take(i as int);
                let mut bb = u64_to_le_bytes(blocks[i].block_size);
                out.append(&mut bb);
                proof {
                    lemma_flat_push(prefix, blocks@[i as int]);
                    assert(blocks@.take(i + 1 as int) =~= prefix.push(blocks@[i as int]));
                    assert(out@ =~= spec_u64_to_le_bytes(blocks@.len() as u64)
                        + spec_blocks_flat(blocks@.take(i + 1 as int)));
                }
                i = i + 1;
            }
            proof {
                assert(blocks@.take(blocks@.len() as int) =~= blocks@);
            }
            Ok(out)
        },
    }
}

/// Parses a block list payload under the given encoding. Succeeds exactly on
/// well-formed payloads, and then returns the one block list whose
/// serialization the payload is; a malformed payload fails with
/// `CorruptPayload`.
pub fn decode_blocks(e: Encoding, payload: &Vec<u8>) -> (r: Result<
    Vec<Arc<BlockMeta>>,
    SegmentError,
>)
    ensures
        match r {
            Ok(bs) => spec_blocks_payload_wf(payload@) && payload@ == spec_blocks_payload(bs@),
            Err(err) => !spec_blocks_payload_wf(payload@) && err == SegmentError::CorruptPayload,
        },
{
    match e {
        Encoding::Binary => {
            proof {
                lemma_auto_spec_u64_to_from_le_bytes();
            }
            if payload.len() < 8 {
                return Err(SegmentError::CorruptPayload);
            }
            let count = u64_from_le_bytes(slice_subrange(payload.as_slice(), 0, 8));
            let body = payload.len() - 8;
            if body % 8 != 0 || (body / 8) as u64 != count {
                return Err(SegmentError::CorruptPayload);
            }
            let n: usize = body / 8;
            proof {
                assert(payload@.len() == 8 + body);
                assert(body == 8 * (n as int));
            }
            let mut out: Vec<Arc<BlockMeta>> = Vec::new();
            let mut i: usize = 0;
            while i < n
                invariant
                    i <= n,
                    8 + 8 * (n as int) <= usize::MAX,
                    payload@.len() == 8 + 8 * (n as int),
                    out@.len() == i,
                    spec_blocks_flat(out@) == payload@.subrange(8, 8 + 8 * (i as int)),
                decreases n - i,
            {
                let ghost prefix = out@;
                let off = 8 + 8 * i;
                let sz = u64_from_le_bytes(slice_subrange(payload.as_slice(), off, off + 8));
                out.push(Arc::new(BlockMeta { block_size: sz }));
                proof {
                    lemma_auto_spec_u64_to_from_le_bytes();
                    lemma_flat_push(prefix, out@[i as int]);
                    let sub = payload@.subrange(off as int, off + 8 as int);
                    assert(spec_u64_to_le_bytes(spec_u64_from_le_bytes(sub)) == sub);
                    assert(spec_block_bytes(*out@[i as int]) =~= sub);
                    assert(spec_blocks_flat(out@) =~= payload@.subrange(8, 8 + 8 * (i + 1)));
                }
                i = i + 1;
            }
            proof {
                assert(payload@.subrange(0, 8) =~= spec_u64_to_le_bytes(count));
                assert(payload@ =~= spec_blocks_payload(out@));
            }
            Ok(out)
        },
    }
}

/// Serializes summary statistics under the given encoding.
pub fn encode_summary(e: Encoding, summary: &Statistics) -> (r: Result<Vec<u8>, SegmentError>)
    ensures
        r matches Ok(out) && out@ == spec_summary_bytes(*summary),
{
    match e {
        Encoding::Binary => Ok(u64_to_le_bytes(summary.row_count)),
    }
}

/// Parses a summary statistics payload under the given encoding. Succeeds
/// exactly on payloads of the statistics' fixed width, and then returns the
/// one summary whose serialization the payload is; anything else fails with
/// `CorruptPayload`.
pub fn decode_summary(e: Encoding, payload: &Vec<u8>) -> (r: Result<Statistics, SegmentError>)
    ensures
        match r {
            Ok(st) => payload@.len() == 8 && payload@ == spec_summary_bytes(st),
            Err(err) => payload@.len() != 8 && err == SegmentError::CorruptPayload,
        },
{
    match e {
        Encoding::Binary => {
            if payload.len() != 8 {
                return Err(SegmentError::CorruptPayload);
            }
            let row_count = u64_from_le_bytes(slice_subrange(payload.as_slice(), 0, 8));
            proof {
                lemma_auto_spec_u64_to_from_le_bytes();
                assert(payload@.subrange(0, 8) =~= payload@);
            }
            Ok(Statistics { row_count })
        },
    }
}

} // verus!
