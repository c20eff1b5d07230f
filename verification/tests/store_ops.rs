use ram_directory::directory::RAMDirectory;
use ram_directory::errors::{AtomicWriteError, DeleteError, OpenReadError, OpenWriteError};

#[test]
fn write_then_read_roundtrip() {
    let mut dir = RAMDirectory::create();
    let path = String::from("segment.idx");
    let mut writer = dir.open_write(&path).unwrap_or_else(|_| panic!("fresh path"));
    writer.write(b"hello bytes");
    writer.flush();
    let source = match dir.open_read(&path) {
        Ok(source) => source,
        Err(_) => panic!("path must be present after flush"),
    };
    assert_eq!(source.as_slice(), b"hello bytes");
    writer.terminate();
}

#[test]
fn open_write_existing_fails_and_reserves() {
    let mut dir = RAMDirectory::create();
    let path = String::from("claimed");
    assert!(!dir.file_exists(&path));
    let writer = dir.open_write(&path).unwrap_or_else(|_| panic!("fresh path"));
    // The reservation is visible before any bytes are flushed.
    assert!(dir.file_exists(&path));
    match dir.open_write(&path) {
        Err(OpenWriteError::FileAlreadyExists(p)) => assert_eq!(p, path),
        Ok(_) => panic!("second exclusive-create open must fail"),
    }
    writer.terminate();
}

#[test]
fn delete_semantics() {
    let mut dir = RAMDirectory::create();
    let path = String::from("doomed");
    match dir.delete(&path) {
        Err(DeleteError::FileDoesNotExist(p)) => assert_eq!(p, path),
        _ => panic!("delete of an absent path must report FileDoesNotExist"),
    }
    let ids = dir.atomic_write(&path, b"payload");
    assert!(ids.is_ok());
    assert!(dir.file_exists(&path));
    assert!(dir.delete(&path).is_ok());
    assert!(!dir.file_exists(&path));
    match dir.open_read(&path) {
        Err(OpenReadError::FileDoesNotExist(p)) => assert_eq!(p, path),
        Ok(_) => panic!("deleted path must not be readable"),
    }
}

#[test]
fn atomic_read_copies_content() {
    let mut dir = RAMDirectory::create();
    let path = String::from("blob");
    dir.atomic_write(&path, &[1u8, 2, 3, 4]).unwrap_or_else(|_| panic!("no fault injected"));
    assert_eq!(dir.atomic_read(&path).ok().unwrap(), vec![1u8, 2, 3, 4]);
}

#[test]
fn total_mem_usage_tracks_stores() {
    let mut dir = RAMDirectory::create();
    assert_eq!(dir.total_mem_usage(), 0);
    let a = String::from("a");
    let b = String::from("b");
    dir.atomic_write(&a, &[0u8; 10]).unwrap_or_else(|_| panic!("no fault injected"));
    dir.atomic_write(&b, &[0u8; 32]).unwrap_or_else(|_| panic!("no fault injected"));
    assert_eq!(dir.total_mem_usage(), 42);
    // Whole-buffer replace: the old size is gone, the new one counted.
    dir.atomic_write(&a, &[0u8; 3]).unwrap_or_else(|_| panic!("no fault injected"));
    assert_eq!(dir.total_mem_usage(), 35);
    dir.delete(&b).unwrap();
    assert_eq!(dir.total_mem_usage(), 3);
}

#[test]
fn injected_faults_fail_deterministically() {
    let mut dir = RAMDirectory::create();
    let path = String::from("victim");
    dir.atomic_write(&path, b"x").unwrap_or_else(|_| panic!("no fault injected yet"));
    dir.set_fault_injection(true, true);
    match dir.delete(&path) {
        Err(DeleteError::IoFailure) => {},
        _ => panic!("injected delete fault must surface as IoFailure"),
    }
    match dir.atomic_write(&path, b"y") {
        Err(AtomicWriteError::IoFailure) => {},
        Ok(_) => panic!("injected atomic-write fault must surface as IoFailure"),
    }
    // The store was untouched by the failing operations.
    assert_eq!(dir.atomic_read(&path).ok().unwrap(), b"x".to_vec());
    dir.set_fault_injection(false, false);
    assert!(dir.delete(&path).is_ok());
}
