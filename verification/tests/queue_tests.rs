use sp2p::paths::is_direct_child;
use sp2p::send_queue::{delivery, join_relative, Delivery, SendQueue, UnlockWait};

fn p(parts: &[&str]) -> Vec<String> {
    parts.iter().map(|s| s.to_string()).collect()
}

#[test]
fn file_under_inbox_folder_is_dispatched() {
    let mut q = SendQueue::new(p(&["/", "tmp", "app", "send"]));
    let d = q.offer(p(&["/", "tmp", "app", "send", "test_inbox", "hello.txt"])).unwrap();
    assert_eq!(d.inbox, "test_inbox");
    assert_eq!(d.relative_path, "hello.txt");
    assert_eq!(d.path, p(&["/", "tmp", "app", "send", "test_inbox", "hello.txt"]));
}

#[test]
fn nested_file_keeps_its_folders() {
    let mut q = SendQueue::new(p(&["send"]));
    let d = q.offer(p(&["send", "media_inbox", "photos", "summer", "pic.jpg"])).unwrap();
    assert_eq!(d.inbox, "media_inbox");
    assert_eq!(d.relative_path, "photos/summer/pic.jpg");
}

#[test]
fn backslashes_become_slashes() {
    assert_eq!(join_relative(&p(&["a\\b", "c"])), "a/b/c");
    assert_eq!(join_relative(&p(&[])), "");
}

#[test]
fn file_directly_in_send_or_elsewhere_goes_nowhere() {
    let mut q = SendQueue::new(p(&["send"]));
    assert!(q.offer(p(&["send", "loose.txt"])).is_none());
    assert!(q.offer(p(&["other", "inbox", "f.txt"])).is_none());
    assert!(q.offer(p(&["send"])).is_none());
}

#[test]
fn file_in_hand_is_not_dispatched_twice() {
    let mut q = SendQueue::new(p(&["send"]));
    let f = p(&["send", "in", "f.txt"]);
    assert!(q.offer(f.clone()).is_some());
    assert!(q.offer(f.clone()).is_none());
    q.release(&f);
    assert!(q.offer(f.clone()).is_some());
}

#[test]
fn cleanup_stops_above_the_inbox_folder() {
    let q = SendQueue::new(p(&["send"]));
    let f = p(&["send", "media_inbox", "photos", "summer", "pic.jpg"]);
    let dirs = q.cleanup_dirs(&f);
    assert_eq!(dirs, vec![p(&["send", "media_inbox", "photos", "summer"]), p(&["send", "media_inbox", "photos"])]);
    assert!(q.cleanup_dirs(&p(&["send", "in", "f"])).is_empty());
}

#[test]
fn unlock_wait_gives_up_after_thirty_retries() {
    let mut w = UnlockWait::new();
    for _ in 0..30 {
        assert!(w.on_locked());
    }
    assert!(!w.on_locked());
    assert_eq!(w.retries, 31);
}

#[test]
fn direct_children() {
    assert!(is_direct_child(&p(&["in"]), &p(&["in", "photos"])));
    assert!(!is_direct_child(&p(&["in"]), &p(&["in", "photos", "x"])));
    assert!(!is_direct_child(&p(&["in"]), &p(&["out", "photos"])));
}

#[test]
fn file_is_deleted_only_when_every_peer_took_it() {
    assert_eq!(delivery(&vec![]), Delivery::NoPeers);
    assert_eq!(delivery(&vec![true]), Delivery::Delivered);
    assert_eq!(delivery(&vec![true, true, true]), Delivery::Delivered);
    assert_eq!(delivery(&vec![true, false, true]), Delivery::Kept);
    assert_eq!(delivery(&vec![false]), Delivery::Kept);
}
