use std::sync::Arc;

use arrow_array::{Int32Array, RecordBatch};
use arrow_ipc::writer::StreamWriter;
use arrow_schema::{DataType, Field, Schema};
use poros::block::{decode, encode, DecodeError, EncodeError, HEADER_SIZE, WAL_MAGIC};
use poros::checksum::compute_checksum;
use poros::offset::{SegmentFull, WalOffsetManager};
use poros::segment::{replay, Segment, WalError};
use poros::wal::{should_sync, BlockPosition, SyncPolicy, Wal};
use poros::batch::Metadata;
use poros::envelope::{decode_envelope, encode_envelope, EnvelopeError, MetadataEnvelope, SERIALIZATION_ARROW};
use poros::receiver::{FlightReceiver, FrameMessage, FrameShape, ReceiverAction};

fn ipc_payload(values: Vec<i32>) -> Vec<u8> {
    let schema = Arc::new(Schema::new(vec![Field::new("value", DataType::Int32, false)]));
    let array = Arc::new(Int32Array::from(values));
    let batch = RecordBatch::try_new(schema.clone(), vec![array]).expect("Failed to create RecordBatch");
    let mut buf = Vec::new();
    {
        let mut w = StreamWriter::try_new(&mut buf, &schema).unwrap();
        w.write(&batch).unwrap();
        w.finish().unwrap();
    }
    buf
}

fn u16_at(b: &[u8], i: usize) -> u16 {
    u16::from_le_bytes([b[i], b[i + 1]])
}

fn u32_at(b: &[u8], i: usize) -> u32 {
    u32::from_le_bytes([b[i], b[i + 1], b[i + 2], b[i + 3]])
}

fn u64_at(b: &[u8], i: usize) -> u64 {
    let mut a = [0u8; 8];
    a.copy_from_slice(&b[i..i + 8]);
    u64::from_le_bytes(a)
}

#[test]
fn test_write_and_validate_wal_block() {
    let payload = ipc_payload(vec![10, 20, 30, 40, 50]);
    let metadata = b"{\"wal\": \"test-block\"}".to_vec();
    let block = encode(&metadata, &payload, 0).unwrap();
    assert_eq!(&block[0..8], b"WALBLOCK");
    assert_eq!(u16_at(&block, 16) as usize, metadata.len());
    assert!(u32_at(&block, 20) != 0);
    let mo = u64_at(&block, 8) as usize;
    let ml = u16_at(&block, 16) as usize;
    assert_eq!(&block[mo..mo + ml], &metadata[..]);
}

#[test]
fn header_layout_is_little_endian_and_absolute() {
    let meta = vec![1u8, 2, 3];
    let payload = vec![9u8; 10];
    let start = 128u64;
    let block = encode(&meta, &payload, start).unwrap();
    assert_eq!(block.len(), 64 + 3 + 10);
    assert_eq!(u64_at(&block, 0), WAL_MAGIC);
    assert_eq!(u64_at(&block, 8), start + 64);
    assert_eq!(u16_at(&block, 16), 3);
    assert_eq!(u16_at(&block, 18), 0);
    assert_eq!(u32_at(&block, 20), compute_checksum(&meta, &payload));
    assert_eq!(u64_at(&block, 24), 0);
    assert_eq!(u64_at(&block, 32), 0);
    assert_eq!(u64_at(&block, 40), start + 64 + 3);
    assert_eq!(u64_at(&block, 48), 10);
    assert_eq!(u64_at(&block, 56), 77);
}

#[test]
fn checksum_is_crc32_of_concatenation() {
    let a = b"12345".to_vec();
    let b = b"6789".to_vec();
    assert_eq!(compute_checksum(&a, &b), 0xCBF43926);
    assert_eq!(compute_checksum(&Vec::new(), b""), 0);
}

#[test]
fn encode_rejects_long_metadata_and_overflowing_offsets() {
    let long = vec![0u8; 70000];
    assert_eq!(encode(&long, &vec![], 0), Err(EncodeError::MetadataTooLong));
    assert_eq!(encode(&vec![1], &vec![2], u64::MAX - 10), Err(EncodeError::BlockTooLarge));
}

#[test]
fn decode_of_encode_round_trips() {
    let meta = b"meta-envelope".to_vec();
    let payload = ipc_payload(vec![1, 2, 3]);
    let start = 100u64;
    let mut seg = vec![0u8; 100];
    seg.extend_from_slice(&encode(&meta, &payload, start).unwrap());
    seg.extend_from_slice(&[0u8; 17]);
    let d = decode(&seg, start).unwrap();
    assert_eq!(d.metadata, meta);
    assert_eq!(d.payload, payload);
    assert_eq!(d.header.checksum, compute_checksum(&meta, &payload));
    assert_eq!(d.header.total_block_size, HEADER_SIZE + meta.len() as u64 + payload.len() as u64);
}

#[test]
fn empty_payload_round_trips() {
    let block = encode(&vec![], &vec![], 0).unwrap();
    let d = decode(&block, 0).unwrap();
    assert!(d.metadata.is_empty());
    assert!(d.payload.is_empty());
}

#[test]
fn any_single_byte_corruption_is_detected() {
    let meta = b"flight=orders".to_vec();
    let payload = b"payload bytes of a batch".to_vec();
    let block = encode(&meta, &payload, 0).unwrap();
    for i in 64..block.len() {
        let mut bad = block.clone();
        bad[i] ^= 0x5a;
        assert_eq!(decode(&bad, 0).unwrap_err(), DecodeError::ChecksumMismatch, "byte {}", i);
    }
}

#[test]
fn decode_reports_short_read_bad_magic_and_bad_layout() {
    let block = encode(&vec![1, 2], &vec![3, 4, 5], 0).unwrap();
    assert_eq!(decode(&block[..40], 0).unwrap_err(), DecodeError::ShortRead);
    assert_eq!(decode(&block[..block.len() - 1], 0).unwrap_err(), DecodeError::ShortRead);
    let mut bad = block.clone();
    bad[0] = b'X';
    assert_eq!(decode(&bad, 0).unwrap_err(), DecodeError::BadMagic);
    let mut moved = vec![0u8; 8];
    moved.extend_from_slice(&block);
    assert_eq!(decode(&moved, 8).unwrap_err(), DecodeError::BadLayout);
    let zeros = vec![0u8; 128];
    assert_eq!(decode(&zeros, 0).unwrap_err(), DecodeError::BadMagic);
}

#[test]
fn claims_do_not_overlap_and_stay_within_cap() {
    let mut m = WalOffsetManager::new(100);
    let sizes = [30u64, 50, 40, 20, 5];
    let mut got = Vec::new();
    for s in sizes {
        got.push(m.claim_offset(s));
    }
    assert_eq!(got[0], Ok(0));
    assert_eq!(got[1], Ok(30));
    assert_eq!(got[2], Err(SegmentFull { current_offset: 80, requested: 40 }));
    assert_eq!(got[3], Ok(80));
    assert_eq!(got[4], Err(SegmentFull { current_offset: 100, requested: 5 }));
    assert_eq!(m.get_current_offset(), 100);
    assert!(m.is_max_size_reached());
}

#[test]
fn oversized_claim_fails_without_moving_counter() {
    let mut m = WalOffsetManager::new(64);
    assert!(m.claim_offset(65).is_err());
    assert_eq!(m.get_current_offset(), 0);
    assert_eq!(m.claim_offset(u64::MAX), Err(SegmentFull { current_offset: 0, requested: u64::MAX }));
    assert_eq!(m.get_current_offset(), 0);
    assert_eq!(m.claim_offset(64), Ok(0));
}

#[test]
fn offset_manager_setters() {
    let mut m = WalOffsetManager::new(10);
    m.update_offset(7);
    assert_eq!(m.get_current_offset(), 7);
    m.increment_offset(2);
    assert_eq!(m.get_current_offset(), 9);
    assert!(!m.is_max_size_reached());
    m.increment_offset(u64::MAX);
    assert_eq!(m.get_current_offset(), u64::MAX);
    m.reset_offset();
    assert_eq!(m.get_current_offset(), 0);
}

fn blocks_of(n: usize) -> Vec<(Vec<u8>, Vec<u8>)> {
    (0..n)
        .map(|i| (format!("meta-{}", i).into_bytes(), vec![i as u8; 10 + i]))
        .collect()
}

#[test]
fn appended_blocks_replay_in_write_order() {
    let mut seg = Segment::new(4096);
    let blocks = blocks_of(5);
    let mut expected_offset = 0u64;
    for (m, p) in &blocks {
        assert_eq!(seg.append(m, p), Ok(expected_offset));
        expected_offset += 64 + m.len() as u64 + p.len() as u64;
    }
    assert_eq!(seg.used(), expected_offset);
    let r = seg.replay();
    assert_eq!(r.blocks.len(), 5);
    for (d, (m, p)) in r.blocks.iter().zip(blocks.iter()) {
        assert_eq!(&d.metadata, m);
        assert_eq!(&d.payload, p);
    }
    assert_eq!(r.end, expected_offset);
    assert_eq!(r.stopped_on, DecodeError::BadMagic);
}

#[test]
fn crash_mid_block_truncates_to_previous_block() {
    let mut seg = Segment::new(4096);
    let blocks = blocks_of(4);
    let mut offsets = Vec::new();
    for (m, p) in &blocks {
        offsets.push(seg.append(m, p).unwrap());
    }
    // block 3 lost its payload: header and metadata reached the disk, the payload did not
    let mut bytes = seg.bytes().to_vec();
    let k = 2;
    let payload_start = offsets[k] as usize + 64 + blocks[k].0.len();
    for b in &mut bytes[payload_start..] {
        *b = 0;
    }
    let r = replay(&bytes);
    assert_eq!(r.blocks.len(), 2);
    assert_eq!(r.end, offsets[k]);
    assert_eq!(r.stopped_on, DecodeError::ChecksumMismatch);
    // the file itself ends before the payload
    let r = replay(&bytes[..payload_start]);
    assert_eq!(r.blocks.len(), 2);
    assert_eq!(r.end, offsets[k]);
    assert_eq!(r.stopped_on, DecodeError::ShortRead);
}

#[test]
fn metadata_too_long_is_refused_by_segment() {
    let mut seg = Segment::new(1 << 20);
    assert_eq!(seg.append(&vec![0u8; 70000], &vec![]), Err(WalError::MetadataTooLong));
    assert_eq!(seg.used(), 0);
}

#[test]
fn block_exactly_filling_segment_then_rotation() {
    let mut wal = Wal::new(200);
    let a = wal.append(&vec![1u8; 16], &vec![2u8; 20]).unwrap();
    assert_eq!(a, BlockPosition { segment: 0, offset: 0 });
    // 100 bytes left: 64 + 6 + 30 fills them exactly
    let b = wal.append(&vec![3u8; 6], &vec![4u8; 30]).unwrap();
    assert_eq!(b, BlockPosition { segment: 0, offset: 100 });
    assert_eq!(wal.active().used(), 200);
    let c = wal.append(&vec![], &vec![5u8]).unwrap();
    assert_eq!(c, BlockPosition { segment: 1, offset: 0 });
    assert_eq!(wal.sealed().len(), 1);
    assert_eq!(wal.sealed()[0].used, 200);
    assert!(matches!(wal.append(&vec![], &vec![0u8; 200]), Err(WalError::SegmentFull(_))));
}

#[test]
fn segment_rotation_at_4096() {
    let mut wal = Wal::new(4096);
    let mut positions = Vec::new();
    for i in 0..4u8 {
        let meta = vec![i; 36];
        let payload = vec![i; 1200];
        positions.push(wal.append(&meta, &payload).unwrap());
    }
    assert_eq!(positions[2].segment, 0);
    assert_eq!(positions[3], BlockPosition { segment: 1, offset: 0 });
    let segments = wal.finish();
    assert_eq!(segments.len(), 2);
    let a = replay(&segments[0].bytes);
    let b = replay(&segments[1].bytes);
    assert_eq!(a.blocks.len(), 3);
    assert_eq!(b.blocks.len(), 1);
    assert_eq!(b.blocks[0].payload, vec![3u8; 1200]);
}

#[test]
fn sync_policy_decisions() {
    assert_eq!(SyncPolicy::default(), SyncPolicy::EveryN(64));
    assert!(should_sync(SyncPolicy::Every, 0, 0));
    assert!(!should_sync(SyncPolicy::EveryN(64), 63, 1000));
    assert!(should_sync(SyncPolicy::EveryN(64), 64, 0));
    assert!(!should_sync(SyncPolicy::Interval(50), 1000, 49));
    assert!(should_sync(SyncPolicy::Interval(50), 0, 50));
}

#[test]
fn envelope_round_trips() {
    let e = MetadataEnvelope {
        flight: "flights.orders".to_string(),
        service_id: "svc-é".to_string(),
        buffer_id: 7,
        schema_id: 0xdead_beef,
        partition_fields: vec!["service".to_string(), "log_name".to_string()],
        timestamp_micros: 1_700_000_000_000_000,
        serialization: SERIALIZATION_ARROW,
        flags: 1,
        reserved: 0,
    };
    let bytes = encode_envelope(&e).unwrap();
    assert_eq!(u32::from_le_bytes([bytes[0], bytes[1], bytes[2], bytes[3]]) as usize, bytes.len() - 4);
    assert_eq!(bytes[4], 1);
    let d = decode_envelope(&bytes).unwrap();
    assert_eq!(d.flight, e.flight);
    assert_eq!(d.service_id, e.service_id);
    assert_eq!(d.buffer_id, 7);
    assert_eq!(d.schema_id, 0xdead_beef);
    assert_eq!(d.partition_fields, e.partition_fields);
    assert_eq!(d.timestamp_micros, e.timestamp_micros);
    assert_eq!((d.serialization, d.flags, d.reserved), (1, 1, 0));
}

#[test]
fn envelope_rejects_malformed_and_too_long() {
    let m = Metadata { flight: "f".to_string(), buffer_id: 3, service_id: "f".to_string() };
    let e = MetadataEnvelope::for_batch(&m, 9, 10, true);
    assert_eq!(e.flags, 1);
    let bytes = encode_envelope(&e).unwrap();
    assert_eq!(decode_envelope(&bytes[..bytes.len() - 1]).unwrap_err(), EnvelopeError::Malformed);
    let mut extra = bytes.clone();
    extra.push(0);
    assert_eq!(decode_envelope(&extra).unwrap_err(), EnvelopeError::Malformed);
    let mut bad_version = bytes.clone();
    bad_version[4] = 2;
    assert_eq!(decode_envelope(&bad_version).unwrap_err(), EnvelopeError::Malformed);
    let mut bad_utf8 = bytes.clone();
    // first byte of the flight name
    bad_utf8[4 + 28 + 2] = 0xff;
    assert_eq!(decode_envelope(&bad_utf8).unwrap_err(), EnvelopeError::Malformed);
    let mut long = e.clone();
    long.flight = "x".repeat(70000);
    assert_eq!(encode_envelope(&long).unwrap_err(), EnvelopeError::TooLong);
}

#[test]
fn happy_path_block_carries_flight_and_rows() {
    let mut rx = FlightReceiver::new();
    let shape = |path: Option<Vec<String>>, message: FrameMessage| FrameShape { descriptor_path: path, message };
    rx.on_frame(&shape(Some(vec!["flights.orders".to_string()]), FrameMessage::NoHeader)).unwrap();
    rx.on_frame(&shape(None, FrameMessage::Schema)).unwrap();
    let metadata: Metadata = match rx.on_frame(&shape(None, FrameMessage::RecordBatch)).unwrap() {
        ReceiverAction::EmitBatch { metadata } => metadata,
        other => panic!("unexpected {:?}", other),
    };
    let meta = encode_envelope(&MetadataEnvelope::for_batch(&metadata, 1, 0, false)).unwrap();
    let payload = ipc_payload(vec![1, 2]);
    let mut wal = Wal::new(1 << 16);
    wal.append(&meta, &payload).unwrap();
    let segs = wal.finish();
    assert_eq!(segs.len(), 1);
    let r = replay(&segs[0].bytes);
    assert_eq!(r.blocks.len(), 1);
    assert_eq!(r.blocks[0].header.magic, WAL_MAGIC);
    assert_eq!(&segs[0].bytes[0..8], b"WALBLOCK");
    assert_eq!(decode_envelope(&r.blocks[0].metadata).unwrap().flight, "flights.orders");
    let reader = arrow_ipc::reader::StreamReader::try_new(std::io::Cursor::new(r.blocks[0].payload.clone()), None).unwrap();
    let rows: usize = reader.map(|b| b.unwrap().num_rows()).sum();
    assert_eq!(rows, 2);
}

#[test]
fn append_writes_block_bytes_at_offset_and_reports_requested_size() {
    let mut seg = Segment::new(300);
    let m1 = vec![7u8; 5];
    let p1 = vec![8u8; 11];
    assert_eq!(seg.append(&m1, &p1), Ok(0));
    let off = seg.used();
    let before = seg.bytes().to_vec();
    let m2 = vec![1u8, 2];
    let p2 = vec![3u8; 9];
    assert_eq!(seg.append(&m2, &p2), Ok(off));
    let after = seg.bytes().to_vec();
    let expected = encode(&m2, &p2, off).unwrap();
    let (o, n) = (off as usize, expected.len());
    assert_eq!(&after[..o], &before[..o]);
    assert_eq!(&after[o..o + n], &expected[..]);
    assert_eq!(&after[o + n..], &before[o + n..]);
    let used = seg.used();
    assert_eq!(
        seg.append(&vec![], &vec![0u8; 200]),
        Err(WalError::SegmentFull(SegmentFull { current_offset: used, requested: 264 }))
    );
}
