use pingpong_sync::codec::Message;
use pingpong_sync::region::{LeaseState, ReadError, SharedRegion, WriteError};

fn msg(version: u32, texts: &[&str]) -> Message {
    Message {
        version,
        messages: texts.iter().map(|t| t.as_bytes().to_vec()).collect(),
    }
}

#[test]
fn uninitialized_region_is_distinct() {
    let region = SharedRegion::new("/tmp/hello_world".to_string());
    assert!(matches!(region.read(true), Err(ReadError::RegionUninitialized)));
    assert!(matches!(region.read(false), Err(ReadError::RegionUninitialized)));
    assert!(matches!(region.read_value(true), Err(ReadError::RegionUninitialized)));
    assert!(matches!(region.begin_read(), Err(ReadError::RegionUninitialized)));
}

#[test]
fn write_then_read_round_trip() {
    let mut region = SharedRegion::new("/tmp/hello_world".to_string());
    let value = msg(1, &["Single Writer Message"]);
    let report = region.write(&value, 1, 0, 1000).expect("Writer failed to write");
    assert_eq!(report.slot, 0);
    assert_eq!(report.bytes_written, value.encode().len());
    let (back, generation) = region.read_value(true).expect("Reader failed to read");
    assert_eq!(back.version, 1);
    assert_eq!(back.messages, vec![b"Single Writer Message".to_vec()]);
    assert_eq!(generation, 1);
}

#[test]
fn generations_are_monotonic() {
    let mut region = SharedRegion::new("/tmp/hello_world".to_string());
    let mut last = 0u64;
    for i in 0..5u32 {
        region.write(&msg(i, &["tick"]), 1, i as u64 * 100, 1000).unwrap();
        let snapshot = region.read(true).unwrap();
        assert!(snapshot.generation >= last);
        last = snapshot.generation;
    }
    assert_eq!(last, 5);
}

#[test]
fn reads_with_equal_generation_see_equal_bytes() {
    let mut region = SharedRegion::new("/tmp/hello_world".to_string());
    region.write(&msg(3, &["alpha", "beta"]), 1, 0, 1000).unwrap();
    let first = region.read(true).unwrap();
    let second = region.read(false).unwrap();
    assert_eq!(first.generation, second.generation);
    assert_eq!(first.bytes, second.bytes);
}

#[test]
fn ping_pong_alternates_slots() {
    let mut region = SharedRegion::new("/tmp/hello_world".to_string());
    let r1 = region.write(&msg(1, &["a"]), 1, 0, 1000).unwrap();
    let r2 = region.write(&msg(2, &["b"]), 1, 10, 1000).unwrap();
    let r3 = region.write(&msg(3, &["c"]), 1, 20, 1000).unwrap();
    assert_eq!(r1.slot, 0);
    assert_eq!(r2.slot, 1);
    assert_eq!(r3.slot, 0);
    assert_eq!(region.lease, LeaseState::Free);
}

#[test]
fn slot_capacity_only_grows() {
    let mut region = SharedRegion::new("/tmp/hello_world".to_string());
    region.write(&msg(1, &["abcdefgh"]), 1, 0, 1000).unwrap();
    let cap0 = region.slot0.len();
    region.write(&msg(2, &["a much longer message body than before"]), 1, 10, 1000).unwrap();
    let cap1 = region.slot1.len();
    // shrink back to a small payload: lengths are retained
    region.write(&msg(3, &["x"]), 1, 20, 1000).unwrap();
    region.write(&msg(4, &["y"]), 1, 30, 1000).unwrap();
    assert!(region.slot0.len() >= cap0);
    assert!(region.slot1.len() >= cap1);
}

#[test]
fn growth_does_not_corrupt_in_progress_read() {
    let mut region = SharedRegion::new("/tmp/hello_world".to_string());
    let small = msg(1, &["a"]);
    region.write(&small, 1, 0, 1000).unwrap();
    // a reader snapshots the control block before the big write
    let snap = region.begin_read().unwrap();
    // the writer publishes a far larger payload into the other slot
    let big = msg(2, &["Message 0"; 64]);
    region.write(&big, 1, 10, 1000).unwrap();
    // the in-progress reader still fetches the old slot's bytes intact
    let bytes = region.fetch_payload(&snap).expect("old extent must still fit");
    assert_eq!(bytes, small.encode());
    // ... but the re-validation detects the racing publish and retries
    assert!(matches!(
        region.complete_read(&snap, bytes, true),
        Err(ReadError::ReadContention)
    ));
    let (latest, generation) = region.read_value(true).unwrap();
    assert_eq!(latest.version, 2);
    assert_eq!(generation, 2);
}

#[test]
fn integrity_check_rejects_tampered_bytes() {
    let mut region = SharedRegion::new("/tmp/hello_world".to_string());
    region.write(&msg(1, &["payload"]), 1, 0, 1000).unwrap();
    let snap = region.begin_read().unwrap();
    let tampered = vec![0xFFu8; snap.payload_len];
    assert!(matches!(
        region.complete_read(&snap, tampered, true),
        Err(ReadError::IntegrityError)
    ));
    // skipping validation hands the bytes through
    let honest = region.fetch_payload(&snap).unwrap();
    assert!(region.complete_read(&snap, honest, false).is_ok());
}

#[test]
fn foreign_payload_bytes_fail_decode() {
    let mut region = SharedRegion::new("/tmp/hello_world".to_string());
    // a payload written by some other codec: opaque bytes to the engine
    region.write_bytes(&vec![0xAB, 0xCD], 9, 0, 1000).unwrap();
    let snapshot = region.read(true).unwrap();
    assert_eq!(snapshot.bytes, vec![0xAB, 0xCD]);
    assert!(matches!(region.read_value(true), Err(ReadError::DecodeError)));
}

#[test]
fn oversized_payload_cannot_grow_region() {
    let mut region = SharedRegion::new("/tmp/hello_world".to_string());
    region.write(&msg(1, &["kept"]), 1, 0, 1000).unwrap();
    let oversized = vec![0u8; pingpong_sync::region::MAX_PAYLOAD_BYTES + 1];
    assert_eq!(
        region.write_bytes(&oversized, 1, 10, 1000),
        Err(WriteError::RegionGrowError)
    );
    // the failed grow left the published payload untouched
    let (value, generation) = region.read_value(true).unwrap();
    assert_eq!(value.version, 1);
    assert_eq!(generation, 1);
}

#[test]
fn stale_lease_is_reclaimed() {
    let mut region = SharedRegion::new("/tmp/hello_world".to_string());
    region.acquire_writer(1, 0, 1000).unwrap();
    // holder 1 has crashed; holder 2 arrives long after the lease went stale
    let report = region.write(&msg(5, &["recovered"]), 2, 20_000, 1000);
    assert!(report.is_ok());
    let (value, _) = region.read_value(true).unwrap();
    assert_eq!(value.version, 5);
}

#[test]
fn bounded_wait_reaches_staleness() {
    let mut region = SharedRegion::new("/tmp/hello_world".to_string());
    region.acquire_writer(1, 0, 1000).unwrap();
    // 9500 + 1000 >= 10000: the bounded wait outlives the lease
    assert!(region.write(&msg(6, &["late"]), 2, 9_500, 1000).is_ok());
    // but 8000 + 1000 < 10000 does not
    let mut other = SharedRegion::new("/tmp/hello_world".to_string());
    other.acquire_writer(1, 0, 1000).unwrap();
    assert_eq!(
        other.write(&msg(6, &["early"]), 2, 8_000, 1000),
        Err(WriteError::WriteLockTimeout)
    );
}

#[test]
fn failed_write_mutates_nothing() {
    let mut region = SharedRegion::new("/tmp/hello_world".to_string());
    region.write(&msg(1, &["kept"]), 1, 0, 1000).unwrap();
    let generation_before = region.generation;
    region.acquire_writer(1, 100, 1000).unwrap();
    let attempt = region.write(&msg(2, &["lost"]), 2, 100, 1000);
    assert_eq!(attempt, Err(WriteError::WriteLockTimeout));
    assert_eq!(region.generation, generation_before);
    region.release_writer(1);
    let (value, _) = region.read_value(true).unwrap();
    assert_eq!(value.version, 1);
}
