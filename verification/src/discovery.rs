use vstd::prelude::*;

use crate::inboxes::LocalInboxes;
use crate::net::{IpAddress, PeerAddr};
use crate::router::{PeerUpdate, Router};
use crate::strings::views;

verus! {

/// The UDP port that discovery announcements go to.
pub const BROADCAST_PORT: u16 = 9082;

/// Seconds between two announcements.
pub const ANNOUNCE_INTERVAL_SECS: u64 = 5;

/// The limited-broadcast address 255.255.255.255.
pub const BROADCAST_IP: u32 = 0xFFFF_FFFF;

/// What a peer announces of itself.
pub struct AnnouncePayload {
    pub instance_id: String,
    pub name: String,
    pub network: String,
    pub tcp_port: u16,
    pub inboxes: Vec<String>,
}

/// The announcement of this peer: who it is, its network group, the port it takes
/// files on, and its inboxes.
pub fn announcement(
    local: &LocalInboxes,
    instance_id: String,
    name: String,
    network: String,
    tcp_port: u16,
) -> (res: AnnouncePayload)
    requires
        local.wf(),
    ensures
        res.instance_id == instance_id,
        res.name == name,
        res.network == network,
        res.tcp_port == tcp_port,
        views(res.inboxes@).no_duplicates(),
        views(res.inboxes@).to_set() == local.names(),
{
    AnnouncePayload { instance_id, name, network, tcp_port, inboxes: local.list() }
}

/// Where announcements go: the local network by broadcast unless `no_lan`, and each
/// configured peer directly, all on `BROADCAST_PORT`.
pub fn announce_targets(no_lan: bool, static_peers: &Vec<IpAddress>) -> (res: Vec<PeerAddr>)
    ensures
        res@.len() == (if no_lan { 0int } else { 1int }) + static_peers@.len(),
        !no_lan ==> res@[0] == (PeerAddr { ip: IpAddress::V4(BROADCAST_IP), port: BROADCAST_PORT }),
        forall|k: int| 0 <= k < static_peers@.len() ==>
            res@[(if no_lan { 0int } else { 1int }) + k] == (PeerAddr { ip: #[trigger] static_peers@[k], port: BROADCAST_PORT }),
{
    let mut res: Vec<PeerAddr> = Vec::new();
    if !no_lan {
        res.push(PeerAddr { ip: IpAddress::V4(BROADCAST_IP), port: BROADCAST_PORT });
    }
    let ghost base = res@.len();
    let mut i: usize = 0;
    while i < static_peers.len()
        invariant
            i <= static_peers@.len(),
            base == (if no_lan { 0int } else { 1int }),
            res@.len() == base + i,
            !no_lan ==> res@[0] == (PeerAddr { ip: IpAddress::V4(BROADCAST_IP), port: BROADCAST_PORT }),
            forall|k: int| 0 <= k < i ==> res@[base + k] == (PeerAddr { ip: #[trigger] static_peers@[k], port: BROADCAST_PORT }),
        decreases static_peers@.len() - i,
    {
        res.push(PeerAddr { ip: static_peers[i], port: BROADCAST_PORT });
        i = i + 1;
    }
    res
}

/// Whether an announcement received from `from` is taken in, and as which peer:
/// announcements of this very instance and of other network groups are ignored;
/// others stand for the sender's host at the port it announces.
pub open spec fn accepted_peer(payload: AnnouncePayload, from: PeerAddr, my_instance_id: Seq<char>, my_network: Seq<char>) -> Option<PeerAddr> {
    if payload.instance_id@ == my_instance_id || payload.network@ != my_network {
        None
    } else {
        Some(PeerAddr { ip: from.ip, port: payload.tcp_port })
    }
}

/// The peer that an announcement stands for, if it is taken in.
pub fn accept_announcement(payload: &AnnouncePayload, from: PeerAddr, my_instance_id: &String, my_network: &String) -> (res: Option<PeerAddr>)
    ensures
        res == accepted_peer(*payload, from, my_instance_id@, my_network@),
        res is None <==> (payload.instance_id@ == my_instance_id@ || payload.network@ != my_network@),
        res matches Some(p) ==> p.ip == from.ip && p.port == payload.tcp_port,
{
    if payload.instance_id == *my_instance_id {
        return None;
    }
    if payload.network != *my_network {
        return None;
    }
    Some(from.with_port(payload.tcp_port))
}

/// An announcement is ignored only when it is this instance's own or comes from
/// another network group; any other announcement stands for the host it came from,
/// at the port it announces, whatever its instance id, name or inboxes.
pub proof fn lemma_announcement_acceptance(
    payload: AnnouncePayload,
    from: PeerAddr,
    my_instance_id: Seq<char>,
    my_network: Seq<char>,
)
    ensures
        accepted_peer(payload, from, my_instance_id, my_network) is None
            <==> (payload.instance_id@ == my_instance_id || payload.network@ != my_network),
        payload.instance_id@ != my_instance_id && payload.network@ == my_network
            ==> accepted_peer(payload, from, my_instance_id, my_network)
                == Some(PeerAddr { ip: from.ip, port: payload.tcp_port }),
{
}

/// Takes in an announcement received from `from`. If it is accepted, the sending
/// peer now owns exactly the announced inboxes, and the update comes back.
pub fn handle_announcement(
    router: &mut Router,
    payload: AnnouncePayload,
    from: PeerAddr,
    my_instance_id: &String,
    my_network: &String,
) -> (res: Option<PeerUpdate>)
    requires
        old(router).wf(),
    ensures
        final(router).wf(),
        match accepted_peer(payload, from, my_instance_id@, my_network@) {
            None => res is None && final(router).names() == old(router).names()
                && final(router).inbox_sets() == old(router).inbox_sets(),
            Some(peer) => {
                &&& res matches Some(u)
                &&& final(router).names() == old(router).names().insert(peer, payload.name@)
                &&& final(router).inbox_sets() == old(router).inbox_sets().insert(peer, views(payload.inboxes@).to_set())
                &&& u.is_new_peer == !old(router).names().dom().contains(peer)
                &&& views(u.discovered@).no_duplicates()
                &&& views(u.discovered@).to_set() == views(payload.inboxes@).to_set().difference(old(router).announced(peer))
            },
        },
{
    match accept_announcement(&payload, from, my_instance_id, my_network) {
        None => None,
        Some(peer) => Some(router.update_peer_inboxes(peer, payload.name, payload.inboxes)),
    }
}

} // verus!
