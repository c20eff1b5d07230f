use ram_directory::directory::RAMDirectory;
use ram_directory::store::meta_filepath;

#[test]
fn meta_write_notifies_every_subscription_once() {
    let mut dir = RAMDirectory::create();
    let first = dir.watch();
    let second = dir.watch();
    let first_id = first.id();
    let second_id = second.id();
    assert_ne!(first_id, second_id);
    let ids = dir
        .atomic_write(&meta_filepath(), b"generation 1")
        .unwrap_or_else(|_| panic!("no fault injected"));
    assert_eq!(ids.len(), 2);
    assert!(ids.contains(&first_id));
    assert!(ids.contains(&second_id));
    // The data was already visible when the broadcast list was made.
    assert_eq!(dir.atomic_read(&meta_filepath()).ok().unwrap(), b"generation 1".to_vec());
    dir.unwatch(first);
    dir.unwatch(second);
}

#[test]
fn non_meta_write_notifies_nobody() {
    let mut dir = RAMDirectory::create();
    let sub = dir.watch();
    let path = String::from("ordinary.file");
    let ids = dir.atomic_write(&path, b"data").unwrap_or_else(|_| panic!("no fault injected"));
    assert!(ids.is_empty());
    dir.unwatch(sub);
}

#[test]
fn unsubscribed_callback_not_notified_again() {
    let mut dir = RAMDirectory::create();
    let keep = dir.watch();
    let drop_me = dir.watch();
    let keep_id = keep.id();
    let drop_id = drop_me.id();
    assert!(dir.unwatch(drop_me));
    let ids = dir
        .atomic_write(&meta_filepath(), b"after unsubscribe")
        .unwrap_or_else(|_| panic!("no fault injected"));
    assert_eq!(ids, vec![keep_id]);
    assert!(!ids.contains(&drop_id));
    dir.unwatch(keep);
}
