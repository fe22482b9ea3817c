use sp2p::net::{IpAddress, PeerAddr};
use sp2p::router::Router;

fn addr(last: u8, port: u16) -> PeerAddr {
    PeerAddr { ip: IpAddress::V4(u32::from_be_bytes([192, 168, 1, last])), port }
}

fn names(v: &[&str]) -> Vec<String> {
    v.iter().map(|s| s.to_string()).collect()
}

fn sorted(mut v: Vec<String>) -> Vec<String> {
    v.sort();
    v
}

#[test]
fn new_router_routes_nothing() {
    let r = Router::new();
    assert!(r.get_peers_for_inbox(&"photos".to_string()).is_empty());
}

#[test]
fn announcement_routes_each_inbox_to_the_peer() {
    let mut r = Router::new();
    let a = addr(5, 9081);
    let u = r.update_peer_inboxes(a, "alice".to_string(), names(&["photos", "work_docs"]));
    assert!(u.is_new_peer);
    assert_eq!(sorted(u.discovered), names(&["photos", "work_docs"]));
    assert_eq!(r.get_peers_for_inbox(&"photos".to_string()), vec![a]);
    assert_eq!(r.get_peers_for_inbox(&"work_docs".to_string()), vec![a]);
    assert!(r.get_peers_for_inbox(&"music".to_string()).is_empty());
}

#[test]
fn dropped_inbox_is_no_longer_routed() {
    let mut r = Router::new();
    let a = addr(5, 9081);
    r.update_peer_inboxes(a, "alice".to_string(), names(&["photos", "work_docs"]));
    let u = r.update_peer_inboxes(a, "alice".to_string(), names(&["work_docs"]));
    assert!(!u.is_new_peer);
    assert!(u.discovered.is_empty());
    assert!(r.get_peers_for_inbox(&"photos".to_string()).is_empty());
    assert_eq!(r.get_peers_for_inbox(&"work_docs".to_string()), vec![a]);
}

#[test]
fn shared_inbox_routes_to_every_owner() {
    let mut r = Router::new();
    let b = addr(6, 10088);
    let c = addr(7, 10089);
    r.update_peer_inboxes(b, "Bob".to_string(), names(&["team_inbox"]));
    r.update_peer_inboxes(c, "Charlie".to_string(), names(&["team_inbox"]));
    let mut peers = r.get_peers_for_inbox(&"team_inbox".to_string());
    peers.sort_by_key(|p| p.port);
    assert_eq!(peers, vec![b, c]);
    // one owner leaving keeps the other
    r.update_peer_inboxes(b, "Bob".to_string(), vec![]);
    assert_eq!(r.get_peers_for_inbox(&"team_inbox".to_string()), vec![c]);
}

#[test]
fn repeated_announcement_discovers_nothing() {
    let mut r = Router::new();
    let a = addr(9, 9081);
    r.update_peer_inboxes(a, "x".to_string(), names(&["a", "b"]));
    let u = r.update_peer_inboxes(a, "x".to_string(), names(&["b", "a"]));
    assert!(!u.is_new_peer);
    assert!(u.discovered.is_empty());
    assert_eq!(r.get_peers_for_inbox(&"a".to_string()), vec![a]);
}

#[test]
fn duplicate_names_in_announcement_count_once() {
    let mut r = Router::new();
    let a = addr(9, 9081);
    let u = r.update_peer_inboxes(a, "x".to_string(), names(&["a", "a", "b"]));
    assert_eq!(sorted(u.discovered), names(&["a", "b"]));
    assert_eq!(r.get_peers_for_inbox(&"a".to_string()), vec![a]);
}

#[test]
fn same_host_other_port_is_another_peer() {
    let mut r = Router::new();
    let a1 = addr(1, 10081);
    let a2 = addr(1, 10082);
    r.update_peer_inboxes(a1, "one".to_string(), names(&["in"]));
    let u = r.update_peer_inboxes(a2, "two".to_string(), names(&["in"]));
    assert!(u.is_new_peer);
    assert_eq!(u.discovered, names(&["in"]));
    assert_eq!(r.get_peers_for_inbox(&"in".to_string()).len(), 2);
}

#[test]
fn announcements_of_two_peers_commute() {
    let a = addr(1, 1);
    let b = addr(2, 2);
    let mut r1 = Router::new();
    r1.update_peer_inboxes(a, "a".to_string(), names(&["x", "y"]));
    r1.update_peer_inboxes(b, "b".to_string(), names(&["y", "z"]));
    let mut r2 = Router::new();
    r2.update_peer_inboxes(b, "b".to_string(), names(&["y", "z"]));
    r2.update_peer_inboxes(a, "a".to_string(), names(&["x", "y"]));
    for inbox in ["x", "y", "z", "w"] {
        let mut p1 = r1.get_peers_for_inbox(&inbox.to_string());
        let mut p2 = r2.get_peers_for_inbox(&inbox.to_string());
        p1.sort_by_key(|p| p.port);
        p2.sort_by_key(|p| p.port);
        assert_eq!(p1, p2);
    }
}

#[test]
fn lookups_follow_each_peers_latest_announcement() {
    let a = addr(1, 1);
    let b = addr(2, 2);
    let c = addr(3, 3);
    let mut r = Router::new();
    r.update_peer_inboxes(a, "a".to_string(), names(&["x", "y"]));
    r.update_peer_inboxes(b, "b".to_string(), names(&["x"]));
    r.update_peer_inboxes(a, "a".to_string(), names(&["y", "z"]));
    r.update_peer_inboxes(c, "c".to_string(), names(&["x", "x"]));
    r.update_peer_inboxes(b, "b".to_string(), names(&[]));
    let mut x = r.get_peers_for_inbox(&"x".to_string());
    x.sort_by_key(|p| p.port);
    assert_eq!(x, vec![c]);
    let mut y = r.get_peers_for_inbox(&"y".to_string());
    y.sort_by_key(|p| p.port);
    assert_eq!(y, vec![a]);
    assert_eq!(r.get_peers_for_inbox(&"z".to_string()), vec![a]);
}
