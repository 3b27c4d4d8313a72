use pingpong_sync::codec::Message;
use pingpong_sync::region::{ReadError, SharedRegion, WriteError};

fn hello(version: u32, texts: &[String]) -> Message {
    Message {
        version,
        messages: texts.iter().map(|t| t.as_bytes().to_vec()).collect(),
    }
}

fn texts_of(m: &Message) -> Vec<String> {
    m.messages
        .iter()
        .map(|b| String::from_utf8(b.clone()).unwrap())
        .collect()
}

/// A writer publishes version 1 and then version 2; a reader whose read
/// completed before the second publish sees version 1, one that reads
/// after it sees version 2, and a read that straddles the publish is
/// detected and retried.
#[test]
fn reader_sees_publish_boundary() {
    let mut region = SharedRegion::new("/tmp/hello_world".to_string());
    let v1 = hello(1, &["a".to_string()]);
    region.write(&v1, 1, 0, 1000).unwrap();

    // completed before the second publish: version 1
    let (seen, generation) = region.read_value(true).unwrap();
    assert_eq!(seen.version, 1);
    assert_eq!(texts_of(&seen), vec!["a".to_string()]);
    assert_eq!(generation, 1);

    // this read is still in flight when the second publish lands
    let stale_snap = region.begin_read().unwrap();

    let v2 = hello(2, &[]);
    region.write(&v2, 1, 100, 1000).unwrap();

    let stale_bytes = region.fetch_payload(&stale_snap).unwrap();
    assert!(matches!(
        region.complete_read(&stale_snap, stale_bytes, true),
        Err(ReadError::ReadContention)
    ));

    // the retry observes version 2 under the incremented generation
    let (seen2, generation2) = region.read_value(true).unwrap();
    assert_eq!(seen2.version, 2);
    assert!(texts_of(&seen2).is_empty());
    assert_eq!(generation2, 2);
}

/// Two writer handles contend inside one exclusivity window with a one
/// second timeout: exactly one succeeds, the loser gets a clean
/// `WriteLockTimeout` and the region is untouched by it.
#[test]
fn two_writers_one_window() {
    let mut region = SharedRegion::new("/tmp/hello_world".to_string());
    let data1 = hello(1, &["Writer1".to_string()]);
    let data2 = hello(2, &["Writer2".to_string()]);

    // writer 1 is mid-write: it holds the lease
    region.acquire_writer(1, 0, 1000).unwrap();
    // writer 2 attempts within the same window
    let loser = region.write(&data2, 2, 0, 1000);
    assert_eq!(loser, Err(WriteError::WriteLockTimeout));
    // writer 1 completes
    let winner = region.write(&data1, 1, 0, 1000);
    assert!(winner.is_ok());

    let (value, _) = region.read_value(true).unwrap();
    assert_eq!(value.version, 1);
    assert_eq!(texts_of(&value), vec!["Writer1".to_string()]);
}

#[test]
fn test_single_writer_multiple_readers() {
    let mut region = SharedRegion::new("/tmp/hello_world".to_string());
    let data = hello(1, &["Single Writer Message".to_string()]);
    for round in 0..5u64 {
        region.write(&data, 1, round * 100, 1000).expect("Writer failed to write");
        for _reader in 0..3 {
            let (seen, _) = region.read_value(false).expect("Reader failed to read");
            assert_eq!(seen.version, 1);
            assert_eq!(texts_of(&seen), vec!["Single Writer Message".to_string()]);
        }
    }
}

#[test]
fn test_concurrent_writers_and_readers() {
    let mut region = SharedRegion::new("/tmp/hello_world".to_string());
    let data1 = hello(1, &["Writer1".to_string()]);
    let data2 = hello(2, &["Writer2".to_string()]);
    let mut last_generation = 0u64;
    for round in 0..5u64 {
        region.write(&data1, 1, round * 300, 1000).expect("Writer1 failed to write");
        region.write(&data2, 2, round * 300 + 150, 1000).expect("Writer2 failed to write");
        let (seen, generation) = region.read_value(false).expect("Reader failed to read");
        assert!(seen.version == 1 || seen.version == 2);
        assert!(generation >= last_generation);
        last_generation = generation;
    }
    assert_eq!(last_generation, 10);
}

#[test]
fn test_large_data() {
    let mut region = SharedRegion::new("/tmp/hello_world".to_string());
    let large_messages: Vec<String> = (0..1000).map(|i| format!("Message {}", i)).collect();
    let data = hello(1, &large_messages);
    region.write(&data, 1, 0, 1000).expect("Writer failed to write");
    let (seen, _) = region.read_value(true).expect("Reader failed to read");
    assert_eq!(seen.version, 1);
    assert_eq!(texts_of(&seen), large_messages);
}

#[test]
fn test_frequent_state_reset() {
    let mut region = SharedRegion::new("/tmp/hello_world".to_string());
    let data = hello(1, &["Reset Test".to_string()]);
    for round in 0..5u64 {
        region.write(&data, 1, round * 100, 1000).expect("Writer failed to write");
        let reset_data = hello(0, &[]);
        region.write(&reset_data, 1, round * 100 + 50, 1000).expect(
            "Writer failed to reset state",
        );
        let (seen, _) = region.read_value(true).expect("Reader failed to read");
        assert_eq!(seen.version, 0);
        assert!(seen.messages.is_empty());
    }
}
