use ram_directory::directory::RAMDirectory;

#[test]
fn backward_seek_patches_header() {
    let mut dir = RAMDirectory::create();
    let path = String::from("patched");
    let mut writer = dir.open_write(&path).unwrap_or_else(|_| panic!("fresh path"));
    writer.write(b"????rest of the record");
    writer.seek(0);
    writer.write(b"HEAD");
    writer.flush();
    assert_eq!(dir.atomic_read(&path).ok().unwrap(), b"HEADrest of the record".to_vec());
    writer.terminate();
}

#[test]
fn forward_seek_zero_fills_gap() {
    let mut dir = RAMDirectory::create();
    let path = String::from("sparse");
    let mut writer = dir.open_write(&path).unwrap_or_else(|_| panic!("fresh path"));
    writer.seek(3);
    writer.write(b"z");
    writer.flush();
    assert_eq!(dir.atomic_read(&path).ok().unwrap(), vec![0u8, 0, 0, b'z']);
    writer.terminate();
}

#[test]
fn readers_never_observe_unflushed_writes() {
    let mut dir = RAMDirectory::create();
    let path = String::from("pending");
    let mut writer = dir.open_write(&path).unwrap_or_else(|_| panic!("fresh path"));
    writer.write(b"not yet visible");
    // Only the empty reservation is readable before the flush.
    assert_eq!(dir.atomic_read(&path).ok().unwrap(), Vec::<u8>::new());
    writer.flush();
    assert_eq!(dir.atomic_read(&path).ok().unwrap(), b"not yet visible".to_vec());
    writer.terminate();
}

#[test]
fn flush_is_idempotent_and_republishes() {
    let mut dir = RAMDirectory::create();
    let path = String::from("republished");
    let mut writer = dir.open_write(&path).unwrap_or_else(|_| panic!("fresh path"));
    writer.write(b"one");
    writer.flush();
    writer.flush();
    assert_eq!(dir.atomic_read(&path).ok().unwrap(), b"one".to_vec());
    writer.write(b" two");
    writer.flush();
    assert_eq!(dir.atomic_read(&path).ok().unwrap(), b"one two".to_vec());
    writer.terminate();
}

#[test]
fn dirty_writer_is_detectable() {
    let mut dir = RAMDirectory::create();
    let path = String::from("dirty");
    let mut writer = dir.open_write(&path).unwrap_or_else(|_| panic!("fresh path"));
    // A fresh writer is clean; a write dirties it; only a flush cleans it
    // again.  Disposing it while dirty is the fatal usage defect.
    assert!(!writer.is_dirty());
    writer.write(b"unflushed");
    assert!(writer.is_dirty());
    writer.flush();
    assert!(!writer.is_dirty());
    writer.terminate();
}
