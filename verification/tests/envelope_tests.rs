//! Envelope codec behaviour: round trips, header layout, tag closure,
//! truncation, and corrupt-payload rejection.

use std::sync::Arc;

use segment_meta::BlockMeta;
use segment_meta::SegmentError;
use segment_meta::SegmentInfo;
use segment_meta::Statistics;
use segment_meta::CURRENT_FORMAT_VERSION;

fn segment_with_sizes(sizes: &[u64], row_count: u64) -> SegmentInfo {
    let blocks: Vec<Arc<BlockMeta>> = sizes
        .iter()
        .map(|s| Arc::new(BlockMeta { block_size: *s }))
        .collect();
    SegmentInfo::new(blocks, Statistics { row_count })
}

/// Header: version (8), encoding tag (1), compression tag (1), blocks
/// payload length (8), summary payload length (8), then the payloads.
fn envelope_bytes(version: u64, enc: u8, comp: u8, blocks_payload: &[u8], summary_payload: &[u8]) -> Vec<u8> {
    let mut buf = Vec::new();
    buf.extend_from_slice(&version.to_le_bytes());
    buf.push(enc);
    buf.push(comp);
    buf.extend_from_slice(&(blocks_payload.len() as u64).to_le_bytes());
    buf.extend_from_slice(&(summary_payload.len() as u64).to_le_bytes());
    buf.extend_from_slice(blocks_payload);
    buf.extend_from_slice(summary_payload);
    buf
}

fn blocks_payload(sizes: &[u64]) -> Vec<u8> {
    let mut p = Vec::new();
    p.extend_from_slice(&(sizes.len() as u64).to_le_bytes());
    for s in sizes {
        p.extend_from_slice(&s.to_le_bytes());
    }
    p
}

#[test]
fn round_trip_empty_segment() {
    let s = segment_with_sizes(&[], 0);
    let buf = s.to_bytes().unwrap();
    let back = SegmentInfo::from_bytes(buf).unwrap();
    assert_eq!(back, s);
    assert_eq!(back.format_version, CURRENT_FORMAT_VERSION);
}

#[test]
fn round_trip_multiple_blocks() {
    let s = segment_with_sizes(&[1, 2, 3, u64::MAX], 42);
    let buf = s.to_bytes().unwrap();
    let back = SegmentInfo::from_bytes(buf).unwrap();
    assert_eq!(back.format_version, CURRENT_FORMAT_VERSION);
    assert_eq!(back.blocks.len(), 4);
    assert_eq!(back, s);
}

#[test]
fn written_buffer_matches_layout() {
    let s = segment_with_sizes(&[7, 9], 5);
    let buf = s.to_bytes().unwrap();
    let expected = envelope_bytes(
        3,
        1,
        0,
        &blocks_payload(&[7, 9]),
        &5u64.to_le_bytes(),
    );
    assert_eq!(buf, expected);
}

#[test]
fn concrete_scenario_one_block() {
    let s = segment_with_sizes(&[100], 1);
    let buf = s.to_bytes().unwrap();
    let mut version_field = [0u8; 8];
    version_field.copy_from_slice(&buf[0..8]);
    assert_eq!(u64::from_le_bytes(version_field), CURRENT_FORMAT_VERSION);
    assert_eq!(buf[8], SegmentInfo::encoding().tag());
    assert_eq!(buf[9], segment_meta::Compression::default().tag());
    let back = SegmentInfo::from_bytes(buf).unwrap();
    assert_eq!(back.total_bytes(), 100);
}

#[test]
fn version_mismatch_is_fatal() {
    let buf = envelope_bytes(2, 1, 0, &blocks_payload(&[]), &0u64.to_le_bytes());
    assert_eq!(
        SegmentInfo::from_bytes(buf),
        Err(SegmentError::VersionMismatch)
    );
}

#[test]
fn unknown_encoding_tag_rejected_for_every_declared_length() {
    let valid = segment_with_sizes(&[4], 2).to_bytes().unwrap();
    let remaining = valid.len() - 26;
    for declared in 0..=remaining as u64 {
        let mut buf = valid.clone();
        buf[8] = 7;
        buf[10..18].copy_from_slice(&declared.to_le_bytes());
        assert_eq!(
            SegmentInfo::from_bytes(buf),
            Err(SegmentError::UnsupportedEncoding(7))
        );
    }
}

#[test]
fn unknown_compression_tag_rejected_for_every_declared_length() {
    let valid = segment_with_sizes(&[4], 2).to_bytes().unwrap();
    let remaining = valid.len() - 26;
    for declared in 0..=remaining as u64 {
        let mut buf = valid.clone();
        buf[9] = 9;
        buf[10..18].copy_from_slice(&declared.to_le_bytes());
        assert_eq!(
            SegmentInfo::from_bytes(buf),
            Err(SegmentError::UnsupportedCompression(9))
        );
    }
}

#[test]
fn encoding_tag_checked_before_compression_tag() {
    let mut buf = segment_with_sizes(&[], 0).to_bytes().unwrap();
    buf[8] = 200;
    buf[9] = 200;
    assert_eq!(
        SegmentInfo::from_bytes(buf),
        Err(SegmentError::UnsupportedEncoding(200))
    );
}

#[test]
fn truncation_fails_at_every_cut_point() {
    let valid = segment_with_sizes(&[10, 20, 30], 6).to_bytes().unwrap();
    for k in 0..valid.len() {
        let cut = valid[..k].to_vec();
        assert_eq!(
            SegmentInfo::from_bytes(cut),
            Err(SegmentError::TruncatedInput),
            "cut at {k}"
        );
    }
}

#[test]
fn declared_blocks_length_beyond_buffer_is_truncation() {
    let mut buf = segment_with_sizes(&[1], 1).to_bytes().unwrap();
    let remaining = (buf.len() - 26) as u64;
    buf[10..18].copy_from_slice(&(remaining + 1).to_le_bytes());
    assert_eq!(
        SegmentInfo::from_bytes(buf),
        Err(SegmentError::TruncatedInput)
    );
}

#[test]
fn blocks_payload_count_mismatch_is_corrupt() {
    // A blocks payload declaring two blocks but holding bytes for one.
    let mut payload = blocks_payload(&[5]);
    payload[0..8].copy_from_slice(&2u64.to_le_bytes());
    let buf = envelope_bytes(3, 1, 0, &payload, &0u64.to_le_bytes());
    assert_eq!(
        SegmentInfo::from_bytes(buf),
        Err(SegmentError::CorruptPayload)
    );
}

#[test]
fn summary_payload_of_wrong_width_is_corrupt() {
    let buf = envelope_bytes(3, 1, 0, &blocks_payload(&[]), &[1, 2, 3]);
    assert_eq!(
        SegmentInfo::from_bytes(buf),
        Err(SegmentError::CorruptPayload)
    );
}

#[test]
fn trailing_bytes_are_rejected() {
    let mut buf = segment_with_sizes(&[8], 3).to_bytes().unwrap();
    buf.push(0);
    assert_eq!(
        SegmentInfo::from_bytes(buf),
        Err(SegmentError::CorruptPayload)
    );
}

#[test]
fn empty_buffer_is_truncated() {
    assert_eq!(
        SegmentInfo::from_bytes(Vec::new()),
        Err(SegmentError::TruncatedInput)
    );
}

#[test]
fn declared_summary_length_beyond_buffer_is_truncation() {
    let mut buf = segment_with_sizes(&[1], 1).to_bytes().unwrap();
    buf[18..26].copy_from_slice(&9u64.to_le_bytes());
    assert_eq!(
        SegmentInfo::from_bytes(buf),
        Err(SegmentError::TruncatedInput)
    );
}

#[test]
fn huge_declared_lengths_are_truncation_not_panic() {
    let mut buf = segment_with_sizes(&[1], 1).to_bytes().unwrap();
    let mut with_huge_blocks = buf.clone();
    with_huge_blocks[10..18].copy_from_slice(&u64::MAX.to_le_bytes());
    assert_eq!(
        SegmentInfo::from_bytes(with_huge_blocks),
        Err(SegmentError::TruncatedInput)
    );
    buf[18..26].copy_from_slice(&u64::MAX.to_le_bytes());
    assert_eq!(
        SegmentInfo::from_bytes(buf),
        Err(SegmentError::TruncatedInput)
    );
}

#[test]
fn arbitrary_buffers_never_panic() {
    // Deterministic pseudo-random buffers: every outcome must be a clean
    // Ok or Err, never a panic or a partially read segment.
    let mut state: u64 = 0x2545F4914F6CDD1D;
    for len in 0..200usize {
        let mut buf = Vec::with_capacity(len);
        for _ in 0..len {
            state = state.wrapping_mul(6364136223846793005).wrapping_add(1442695040888963407);
            buf.push((state >> 56) as u8);
        }
        let _ = SegmentInfo::from_bytes(buf);
    }
}
