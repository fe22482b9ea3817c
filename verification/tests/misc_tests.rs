use sp2p::app_dirs::AppDirs;
use sp2p::config::Config;
use sp2p::dashboard::{direction_label, history_labels, megabytes, DashboardHost, Tab};
use sp2p::discovery::{accept_announcement, announce_targets, announcement, handle_announcement, AnnouncePayload, BROADCAST_PORT};
use sp2p::inboxes::LocalInboxes;
use sp2p::net::{IpAddress, PeerAddr};
use sp2p::notifications::{root_item, FileReceivedEvent, NotificationDebouncer, Toast};
use sp2p::router::Router;
use sp2p::transfer_state::{ActiveTransfer, TransferHistoryItem, TransferState};
use sp2p::upnp::{port_mappings, MappingProtocol};

fn s(x: &str) -> String {
    x.to_string()
}

#[test]
fn default_config_and_password() {
    let c = Config::default();
    assert!(c.peers.is_empty());
    assert_eq!(c.password.as_deref(), Some("sp2p-default-net"));
    assert_eq!(c.effective_password(), "sp2p-default-net");
    let c = Config { peers: vec![s("11.22.33.44")], password: None };
    assert_eq!(c.effective_password(), "sp2p-default-net");
    let c = Config { peers: vec![], password: Some(s("my-secret-password")) };
    assert_eq!(c.effective_password(), "my-secret-password");
}

#[test]
fn app_dirs_layout() {
    let d = AppDirs::from_root(vec![s("/"), s("data"), s("sp2p")]);
    assert_eq!(d.inbox, vec![s("/"), s("data"), s("sp2p"), s("inbox")]);
    assert_eq!(d.send, vec![s("/"), s("data"), s("sp2p"), s("send")]);
    assert_eq!(d.config_path(), vec![s("/"), s("data"), s("sp2p"), s("config.toml")]);
}

#[test]
fn local_inboxes_follow_the_scan() {
    let mut l = LocalInboxes::new();
    assert!(l.list().is_empty());
    l.replace_all(vec![s("photos"), s("work_docs"), s("photos")]);
    let mut v = l.list();
    v.sort();
    assert_eq!(v, vec![s("photos"), s("work_docs")]);
    assert!(l.contains(&s("photos")));
    l.replace_all(vec![s("work_docs")]);
    assert!(!l.contains(&s("photos")));
}

fn payload(id: &str, network: &str, port: u16, inboxes: &[&str]) -> AnnouncePayload {
    AnnouncePayload {
        instance_id: s(id),
        name: s("Bob"),
        network: s(network),
        tcp_port: port,
        inboxes: inboxes.iter().map(|x| s(x)).collect(),
    }
}

#[test]
fn announcements_from_self_or_other_groups_are_ignored() {
    let from = PeerAddr { ip: IpAddress::V4(0x0a000002), port: 54321 };
    let me = s("me");
    let net = s("net_e2e");
    assert_eq!(accept_announcement(&payload("me", "net_e2e", 10081, &[]), from, &me, &net), None);
    assert_eq!(accept_announcement(&payload("other", "default", 10081, &[]), from, &me, &net), None);
    assert_eq!(
        accept_announcement(&payload("other", "net_e2e", 10082, &[]), from, &me, &net),
        Some(PeerAddr { ip: IpAddress::V4(0x0a000002), port: 10082 })
    );
}

#[test]
fn accepted_announcement_updates_the_router() {
    let mut r = Router::new();
    let from = PeerAddr { ip: IpAddress::V4(0x0a000002), port: 54321 };
    let u = handle_announcement(&mut r, payload("b", "g", 10082, &["test_inbox"]), from, &s("a"), &s("g")).unwrap();
    assert!(u.is_new_peer);
    assert_eq!(u.discovered, vec![s("test_inbox")]);
    assert_eq!(r.get_peers_for_inbox(&s("test_inbox")), vec![PeerAddr { ip: IpAddress::V4(0x0a000002), port: 10082 }]);
    assert!(handle_announcement(&mut r, payload("c", "h", 1, &["x"]), from, &s("a"), &s("g")).is_none());
    assert!(r.get_peers_for_inbox(&s("x")).is_empty());
}

#[test]
fn announcement_and_targets() {
    let mut l = LocalInboxes::new();
    l.replace_all(vec![s("photos")]);
    let a = announcement(&l, s("id"), s("name"), s("default"), 9081);
    assert_eq!(a.inboxes, vec![s("photos")]);
    assert_eq!(a.tcp_port, 9081);
    let peers = vec![IpAddress::V4(0x0b16212c)];
    let t = announce_targets(false, &peers);
    assert_eq!(t, vec![
        PeerAddr { ip: IpAddress::V4(0xffffffff), port: BROADCAST_PORT },
        PeerAddr { ip: IpAddress::V4(0x0b16212c), port: 9082 },
    ]);
    assert_eq!(announce_targets(true, &peers), vec![PeerAddr { ip: IpAddress::V4(0x0b16212c), port: 9082 }]);
    assert!(announce_targets(true, &vec![]).is_empty());
}

#[test]
fn root_of_received_path() {
    assert_eq!(root_item("photos/summer/pic.jpg"), "photos");
    assert_eq!(root_item("dir\\file.txt"), "dir");
    assert_eq!(root_item("hello.txt"), "hello.txt");
    assert_eq!(root_item("/abs"), "");
}

#[test]
fn notifications_are_grouped_and_flushed_when_quiet() {
    let mut d = NotificationDebouncer::new();
    let ev = |path: &str| FileReceivedEvent { inbox_name: s("photos"), relative_path: s(path) };
    d.on_file_received(ev("summer/a.jpg"), 0);
    d.on_file_received(ev("summer/b.jpg"), 1_000);
    d.on_file_received(ev("single.txt"), 2_000);
    assert!(d.has_room());
    assert!(d.on_tick(5_000).is_empty());
    assert!(d.on_tick(10_999).is_empty());
    let t = d.on_tick(11_000);
    assert_eq!(t, vec![Toast::Folder { inbox: s("photos"), root: s("summer"), others: 1 }]);
    assert!(d.on_tick(11_500).is_empty());
    let t = d.on_tick(12_000);
    assert_eq!(t, vec![Toast::Item { inbox: s("photos"), root: s("single.txt") }]);
    assert!(d.on_tick(100_000).is_empty());
}

#[test]
fn transfer_state_tracks_progress_and_history() {
    let mut st = TransferState::new();
    st.begin(ActiveTransfer { id: s("a-f"), filename: s("f"), bytes_transferred: 0, total_bytes: 10, is_sending: true });
    st.begin(ActiveTransfer { id: s("b-g"), filename: s("g"), bytes_transferred: 0, total_bytes: 5, is_sending: true });
    st.set_progress(&s("a-f"), 7);
    assert_eq!(st.active_transfers[0].bytes_transferred, 7);
    assert_eq!(st.active_transfers[1].bytes_transferred, 0);
    st.set_progress(&s("zzz"), 3);
    st.finish(&s("a-f"), s("f"), true, true, 100);
    assert_eq!(st.active_transfers.len(), 1);
    assert_eq!(st.active_transfers[0].id, "b-g");
    assert_eq!(st.history.len(), 1);
    assert!(st.history[0].success);
    assert_eq!(st.history[0].timestamp, 100);
}

#[test]
fn history_is_shown_newest_first_and_capped() {
    let mut st = TransferState::new();
    for i in 0..60u64 {
        st.history.push(TransferHistoryItem { filename: format!("f{}", i), is_sending: i % 2 == 0, success: true, timestamp: i / 2 });
    }
    let h = st.recent_history();
    assert_eq!(h.len(), 50);
    assert_eq!(h[0].filename, "f58");
    assert_eq!(h[1].filename, "f59");
    assert_eq!(h[2].filename, "f56");
    for w in h.windows(2) {
        assert!(w[0].timestamp >= w[1].timestamp);
    }
    assert_eq!(history_labels(&h[0]), ("Sent", "Success"));
}

#[test]
fn dashboard_bits() {
    let host = DashboardHost::new(true);
    assert_eq!(host.active_tab, Tab::Progress);
    assert!(host.auto_start);
    let t = ActiveTransfer { id: s("x"), filename: s("f"), bytes_transferred: 2_500_000, total_bytes: 9_999_999, is_sending: false };
    assert_eq!(direction_label(&t), "Receiving");
    assert_eq!(megabytes(t.bytes_transferred), 2);
    assert_eq!(megabytes(t.total_bytes), 9);
}

#[test]
fn upnp_mapping_only_for_ipv4() {
    let m = port_mappings(IpAddress::V4(0xc0a80105), 9081);
    assert_eq!(m.len(), 2);
    assert_eq!(m[0].protocol, MappingProtocol::Tcp);
    assert_eq!(m[0].external_port, 9081);
    assert_eq!(m[0].local_port, 9081);
    assert_eq!(m[0].local_ip, 0xc0a80105);
    assert_eq!(m[0].lease_secs, 86400);
    assert_eq!(m[1].protocol, MappingProtocol::Udp);
    assert_eq!(m[1].external_port, 9082);
    assert_eq!(m[1].local_port, 9082);
    assert_eq!(m[1].local_ip, 0xc0a80105);
    assert!(port_mappings(IpAddress::V6(1), 9081).is_empty());
}
