//! Segment aggregate behaviour: construction, derived totals, migration
//! provenance, and the codec registries.

use std::sync::Arc;

use segment_meta::v2;
use segment_meta::BlockMeta;
use segment_meta::Compression;
use segment_meta::Encoding;
use segment_meta::SegmentError;
use segment_meta::SegmentInfo;
use segment_meta::Statistics;
use segment_meta::CURRENT_FORMAT_VERSION;

fn arcs(sizes: &[u64]) -> Vec<Arc<BlockMeta>> {
    sizes
        .iter()
        .map(|s| Arc::new(BlockMeta { block_size: *s }))
        .collect()
}

#[test]
fn new_stamps_current_version() {
    let s = SegmentInfo::new(arcs(&[1]), Statistics { row_count: 1 });
    assert_eq!(s.format_version, CURRENT_FORMAT_VERSION);
    assert_eq!(s.format_version, 3);
}

#[test]
fn total_bytes_sums_block_sizes() {
    let s = SegmentInfo::new(arcs(&[100, 200, 300]), Statistics { row_count: 9 });
    assert_eq!(s.total_bytes(), 600);
}

#[test]
fn total_bytes_of_empty_segment_is_zero() {
    let s = SegmentInfo::new(arcs(&[]), Statistics { row_count: 0 });
    assert_eq!(s.total_bytes(), 0);
}

#[test]
fn migration_preserves_provenance_and_blocks() {
    let shared = arcs(&[11, 22]);
    let legacy = v2::SegmentInfo::new(shared.clone(), Statistics { row_count: 33 });
    assert_eq!(legacy.format_version, v2::V2_FORMAT_VERSION);
    let migrated = SegmentInfo::from_v2(legacy);
    assert_eq!(migrated.format_version, v2::V2_FORMAT_VERSION);
    assert_ne!(migrated.format_version, CURRENT_FORMAT_VERSION);
    assert_eq!(migrated.summary, Statistics { row_count: 33 });
    assert_eq!(migrated.blocks.len(), 2);
    for (m, original) in migrated.blocks.iter().zip(shared.iter()) {
        assert!(Arc::ptr_eq(m, original));
    }
}

#[test]
fn migrated_segment_is_restamped_on_write() {
    let legacy = v2::SegmentInfo::new(arcs(&[50]), Statistics { row_count: 7 });
    let migrated = SegmentInfo::from_v2(legacy);
    assert_eq!(migrated.format_version, 2);
    let buf = migrated.to_bytes().unwrap();
    let mut version_field = [0u8; 8];
    version_field.copy_from_slice(&buf[0..8]);
    assert_eq!(u64::from_le_bytes(version_field), CURRENT_FORMAT_VERSION);
    let back = SegmentInfo::from_bytes(buf).unwrap();
    assert_eq!(back.format_version, CURRENT_FORMAT_VERSION);
    assert_eq!(back.blocks, migrated.blocks);
    assert_eq!(back.summary, migrated.summary);
}

#[test]
fn default_encoding_is_the_write_encoding() {
    assert_eq!(SegmentInfo::encoding(), Encoding::default());
    assert_eq!(SegmentInfo::encoding().tag(), 1);
}

#[test]
fn default_compression_tag_is_stable() {
    assert_eq!(Compression::default().tag(), 0);
}

#[test]
fn encoding_registry_is_closed() {
    assert_eq!(Encoding::from_tag(1), Ok(Encoding::Binary));
    for tag in [0u8, 2, 3, 128, 255] {
        assert_eq!(
            Encoding::from_tag(tag),
            Err(SegmentError::UnsupportedEncoding(tag))
        );
    }
}

#[test]
fn compression_registry_is_closed() {
    assert_eq!(Compression::from_tag(0), Ok(Compression::Uncompressed));
    for tag in [1u8, 2, 3, 128, 255] {
        assert_eq!(
            Compression::from_tag(tag),
            Err(SegmentError::UnsupportedCompression(tag))
        );
    }
}

#[test]
fn compress_is_identity_for_uncompressed() {
    let data = vec![1u8, 2, 3];
    let out = segment_meta::format::compress(Compression::Uncompressed, data.clone()).unwrap();
    assert_eq!(out, data);
}

#[test]
fn decompress_checks_declared_length() {
    let data = vec![1u8, 2, 3];
    let ok = segment_meta::format::decompress(Compression::Uncompressed, data.clone(), 3).unwrap();
    assert_eq!(ok, data);
    assert_eq!(
        segment_meta::format::decompress(Compression::Uncompressed, data, 4),
        Err(SegmentError::CorruptPayload)
    );
}
