use ram_directory::bundle::read_bundle;
use ram_directory::directory::RAMDirectory;
use ram_directory::errors::SerializeBundleError;

fn read_u64(bytes: &[u8], at: usize) -> u64 {
    let mut field = [0u8; 8];
    field.copy_from_slice(&bytes[at..at + 8]);
    u64::from_le_bytes(field)
}

/// Parses a bundle by hand: trailer, then index block, then file ranges.
fn parse_bundle_bytes(bundle: &[u8]) -> Vec<(Vec<u8>, Vec<u8>)> {
    assert!(bundle.len() >= 16);
    let index_offset = read_u64(bundle, bundle.len() - 8) as usize;
    let mut at = index_offset;
    let count = read_u64(bundle, at) as usize;
    at += 8;
    let mut files = Vec::new();
    for _ in 0..count {
        let path_len = read_u64(bundle, at) as usize;
        at += 8;
        let path = bundle[at..at + path_len].to_vec();
        at += path_len;
        let start = read_u64(bundle, at) as usize;
        at += 8;
        let stop = read_u64(bundle, at) as usize;
        at += 8;
        assert!(start <= stop && stop <= index_offset);
        files.push((path, bundle[start..stop].to_vec()));
    }
    // The index block ends exactly at the trailer.
    assert_eq!(at, bundle.len() - 8);
    files
}

#[test]
fn serialize_fails_while_second_handle_alive() {
    let dir = RAMDirectory::create();
    let other = dir.clone();
    match dir.serialize_bundle() {
        Err(SerializeBundleError::OwnershipConflict) => {},
        Ok(_) => panic!("serialization with a live clone must fail"),
    }
    // With the conflicting handle gone (the first was consumed by the
    // failed attempt), the sole survivor may serialize.
    assert!(other.serialize_bundle().is_ok());
}

#[test]
fn staging_writer_holds_a_handle() {
    let mut dir = RAMDirectory::create();
    let path = String::from("staged");
    let writer = dir.open_write(&path).unwrap_or_else(|_| panic!("fresh path"));
    let clone_for_serialize = dir.clone();
    match clone_for_serialize.serialize_bundle() {
        Err(SerializeBundleError::OwnershipConflict) => {},
        Ok(_) => panic!("a live staging writer keeps the store shared"),
    }
    writer.terminate();
    assert!(dir.serialize_bundle().is_ok());
}

#[test]
fn bundle_round_trip_various_sizes() {
    let mut dir = RAMDirectory::create();
    let empty_path = String::from("empty.file");
    let tiny_path = String::from("tiny.file");
    let big_path = String::from("big.file");
    let empty: Vec<u8> = Vec::new();
    let tiny: Vec<u8> = vec![0xABu8];
    let big: Vec<u8> = (0..70_000u32).map(|i| (i % 251) as u8).collect();
    dir.atomic_write(&empty_path, &empty).unwrap_or_else(|_| panic!("no fault injected"));
    dir.atomic_write(&tiny_path, &tiny).unwrap_or_else(|_| panic!("no fault injected"));
    dir.atomic_write(&big_path, &big).unwrap_or_else(|_| panic!("no fault injected"));
    let bundle = dir.serialize_bundle().ok().unwrap();
    let files = parse_bundle_bytes(&bundle);
    assert_eq!(files.len(), 3);
    // The library's own reader agrees with the hand parse.
    assert_eq!(read_bundle(&bundle).unwrap(), files);
    let mut seen: usize = 0;
    for (path, content) in files {
        if path == empty_path.as_bytes() {
            assert_eq!(content, empty);
        } else if path == tiny_path.as_bytes() {
            assert_eq!(content, tiny);
        } else if path == big_path.as_bytes() {
            assert_eq!(content, big);
        } else {
            panic!("unexpected path in bundle");
        }
        seen += 1;
    }
    assert_eq!(seen, 3);
}

#[test]
fn empty_store_bundle_is_self_describing() {
    let dir = RAMDirectory::create();
    let bundle = dir.serialize_bundle().ok().unwrap();
    // No bodies: the index block starts at offset zero and holds only a
    // zero count; the trailer is the last 8 bytes.
    assert_eq!(bundle.len(), 16);
    assert_eq!(read_u64(&bundle, 8), 0);
    assert_eq!(read_u64(&bundle, 0), 0);
    assert!(parse_bundle_bytes(&bundle).is_empty());
    assert!(read_bundle(&bundle).unwrap().is_empty());
    // A truncated or garbled bundle is rejected outright.
    assert!(read_bundle(&bundle[..8]).is_none());
    assert!(read_bundle(&[0xFFu8; 16]).is_none());
}
