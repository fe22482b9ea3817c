use vstd::prelude::*;

use crate::net::PeerAddr;
use crate::strings::{contains_string, dedup_strings, views};

verus! {

/// What the router knows of one peer: its name and the inboxes it announced last.
pub struct PeerRecord {
    pub addr: PeerAddr,
    pub name: String,
    pub inboxes: Vec<String>,
}

/// The peers that announce one inbox.
pub struct InboxRoute {
    pub inbox: String,
    pub addrs: Vec<PeerAddr>,
}

/// The routing table: which peer announces which inboxes, and, as an index,
/// which peers announce each inbox.
pub struct Router {
    peers: Vec<PeerRecord>,
    table: Vec<InboxRoute>,
}

/// The result of taking in one announcement of a peer.
pub struct PeerUpdate {
    /// The peer was not known before.
    pub is_new_peer: bool,
    /// The inboxes that the peer announces now and did not announce before.
    pub discovered: Vec<String>,
}

// ---------------------------------------------------------------------------
// The index of inbox routes

/// `a` is listed under the inbox named `i` in the route table `t`.
pub open spec fn route_has(t: Seq<InboxRoute>, i: Seq<char>, a: PeerAddr) -> bool {
    exists|j: int| 0 <= j < t.len() && #[trigger] t[j].inbox@ == i && t[j].addrs@.contains(a)
}

/// Each inbox has at most one route, and each route lists at least one peer, none twice.
pub open spec fn table_wf(t: Seq<InboxRoute>) -> bool {
    &&& forall|j: int, k: int| 0 <= j < t.len() && 0 <= k < t.len() && j != k
        ==> #[trigger] t[j].inbox@ != #[trigger] t[k].inbox@
    &&& forall|j: int| 0 <= j < t.len() ==> (#[trigger] t[j]).addrs@.len() > 0 && t[j].addrs@.no_duplicates()
}

/// `a` is a peer recorded in `p` that announces the inbox named `i`.
pub open spec fn peer_has(p: Seq<PeerRecord>, a: PeerAddr, i: Seq<char>) -> bool {
    exists|j: int| 0 <= j < p.len() && (#[trigger] p[j]).addr == a && views(p[j].inboxes@).contains(i)
}

/// Each peer has one record, and no record lists an inbox twice.
pub open spec fn peers_wf(p: Seq<PeerRecord>) -> bool {
    &&& forall|j: int, k: int| 0 <= j < p.len() && 0 <= k < p.len() && j != k
        ==> #[trigger] p[j].addr != #[trigger] p[k].addr
    &&& forall|j: int| 0 <= j < p.len() ==> views((#[trigger] p[j]).inboxes@).no_duplicates()
}

fn position_of_addr(v: &Vec<PeerAddr>, a: PeerAddr) -> (res: Option<usize>)
    ensures
        match res {
            Some(k) => k < v@.len() && v@[k as int] == a,
            None => !v@.contains(a),
        },
{
    let mut i: usize = 0;
    while i < v.len()
        invariant
            i <= v.len(),
            forall|k: int| 0 <= k < i ==> v@[k] != a,
        decreases v.len() - i,
    {
        if v[i] == a {
            return Some(i);
        }
        i = i + 1;
    }
    None
}

fn route_position(t: &Vec<InboxRoute>, inbox: &String) -> (res: Option<usize>)
    ensures
        match res {
            Some(k) => k < t@.len() && t@[k as int].inbox@ == inbox@,
            None => forall|k: int| 0 <= k < t@.len() ==> t@[k].inbox@ != inbox@,
        },
{
    let mut i: usize = 0;
    while i < t.len()
        invariant
            i <= t.len(),
            forall|k: int| 0 <= k < i ==> t@[k].inbox@ != inbox@,
        decreases t.len() - i,
    {
        if t[i].inbox == *inbox {
            return Some(i);
        }
        i = i + 1;
    }
    None
}

/// Lists `addr` under `inbox`.
fn table_add(table: &mut Vec<InboxRoute>, inbox: &String, addr: PeerAddr)
    requires
        table_wf(old(table)@),
    ensures
        table_wf(final(table)@),
        forall|i: Seq<char>, a: PeerAddr|
            route_has(final(table)@, i, a) <==> (route_has(old(table)@, i, a) || (i == inbox@ && a == addr)),
{
    let ghost t0 = table@;
    match route_position(table, inbox) {
        Some(j) => {
            let mut route = table.remove(j);
            let ghost addrs0 = route.addrs@;
            match position_of_addr(&route.addrs, addr) {
                Some(m) => {
                    assert(route.addrs@[m as int] == addr);
                },
                None => {
                    route.addrs.push(addr);
                    assert(route.addrs@ =~= addrs0.push(addr));
                    assert(route.addrs@[addrs0.len() as int] == addr);
                },
            }
            assert(route.addrs@.contains(addr));
            table.insert(j, route);
            assert(table@ =~= t0.update(j as int, route));
            assert forall|i: Seq<char>, a: PeerAddr|
                route_has(table@, i, a) <==> (route_has(t0, i, a) || (i == inbox@ && a == addr)) by {
                if route_has(table@, i, a) {
                    let k = choose|k: int| 0 <= k < table@.len() && #[trigger] table@[k].inbox@ == i && table@[k].addrs@.contains(a);
                    if k != j {
                        assert(t0[k].inbox@ == i);
                    } else if a != addr {
                        let m = choose|m: int| 0 <= m < route.addrs@.len() && route.addrs@[m] == a;
                        assert(t0[k].addrs@[m] == a);
                        assert(t0[k].inbox@ == i);
                    }
                }
                if route_has(t0, i, a) {
                    let k = choose|k: int| 0 <= k < t0.len() && #[trigger] t0[k].inbox@ == i && t0[k].addrs@.contains(a);
                    if k == j {
                        let m = choose|m: int| 0 <= m < t0[k].addrs@.len() && t0[k].addrs@[m] == a;
                        assert(table@[k].addrs@[m] == a);
                    }
                    assert(table@[k].inbox@ == i);
                }
                if i == inbox@ && a == addr {
                    assert(table@[j as int].inbox@ == i);
                    assert(route.addrs@.contains(addr));
                }
            }
        },
        None => {
            let mut addrs: Vec<PeerAddr> = Vec::new();
            addrs.push(addr);
            let route = InboxRoute { inbox: inbox.clone(), addrs };
            table.push(route);
            assert(table@ =~= t0.push(route));
            assert(addrs@ =~= seq![addr]);
            assert forall|i: Seq<char>, a: PeerAddr|
                route_has(table@, i, a) <==> (route_has(t0, i, a) || (i == inbox@ && a == addr)) by {
                if route_has(table@, i, a) {
                    let k = choose|k: int| 0 <= k < table@.len() && #[trigger] table@[k].inbox@ == i && table@[k].addrs@.contains(a);
                    if k < t0.len() {
                        assert(t0[k].inbox@ == i);
                    } else {
                        assert(addrs@.contains(a));
                    }
                }
                if route_has(t0, i, a) {
                    let k = choose|k: int| 0 <= k < t0.len() && #[trigger] t0[k].inbox@ == i && t0[k].addrs@.contains(a);
                    assert(table@[k].inbox@ == i);
                }
                if i == inbox@ && a == addr {
                    assert(table@[t0.len() as int].inbox@ == i);
                    assert(addrs@[0] == addr);
                }
            }
        },
    }
}

/// Takes `addr` off the list of `inbox`, and drops the route once no peer is left on it.
fn table_remove(table: &mut Vec<InboxRoute>, inbox: &String, addr: PeerAddr)
    requires
        table_wf(old(table)@),
    ensures
        table_wf(final(table)@),
        forall|i: Seq<char>, a: PeerAddr|
            route_has(final(table)@, i, a) <==> (route_has(old(table)@, i, a) && !(i == inbox@ && a == addr)),
{
    let ghost t0 = table@;
    match route_position(table, inbox) {
        Some(j) => {
            let mut route = table.remove(j);
            let ghost t1 = table@;
            assert(t1 =~= t0.remove(j as int));
            let ghost addrs0 = route.addrs@;
            match position_of_addr(&route.addrs, addr) {
                Some(m) => {
                    route.addrs.remove(m);
                    assert(route.addrs@ =~= addrs0.remove(m as int));
                },
                None => {},
            }
            assert forall|a: PeerAddr| route.addrs@.contains(a) <==> (addrs0.contains(a) && a != addr) by {
                if route.addrs@.contains(a) {
                    let k = choose|k: int| 0 <= k < route.addrs@.len() && route.addrs@[k] == a;
                    if exists|m: int| 0 <= m < addrs0.len() && addrs0[m] == addr {
                        let m = choose|m: int| 0 <= m < addrs0.len() && addrs0[m] == addr;
                        if k < m {
                            assert(addrs0[k] == a);
                        } else {
                            assert(addrs0[k + 1] == a);
                        }
                    } else {
                        assert(addrs0[k] == a);
                    }
                }
                if addrs0.contains(a) && a != addr {
                    let k = choose|k: int| 0 <= k < addrs0.len() && addrs0[k] == a;
                    if exists|m: int| 0 <= m < addrs0.len() && addrs0[m] == addr {
                        let m = choose|m: int| 0 <= m < addrs0.len() && addrs0[m] == addr;
                        if k < m {
                            assert(route.addrs@[k] == a);
                        } else {
                            assert(route.addrs@[k - 1] == a);
                        }
                    } else {
                        assert(route.addrs@[k] == a);
                    }
                }
            }
            if route.addrs.len() > 0 {
                table.insert(j, route);
                assert(table@ =~= t0.update(j as int, route));
                assert forall|i: Seq<char>, a: PeerAddr|
                    route_has(table@, i, a) <==> (route_has(t0, i, a) && !(i == inbox@ && a == addr)) by {
                    if route_has(table@, i, a) {
                        let k = choose|k: int| 0 <= k < table@.len() && #[trigger] table@[k].inbox@ == i && table@[k].addrs@.contains(a);
                        assert(t0[k].inbox@ == i);
                        if k == j {
                            assert(addrs0.contains(a));
                        }
                    }
                    if route_has(t0, i, a) && !(i == inbox@ && a == addr) {
                        let k = choose|k: int| 0 <= k < t0.len() && #[trigger] t0[k].inbox@ == i && t0[k].addrs@.contains(a);
                        assert(table@[k].inbox@ == i);
                        if k == j {
                            assert(route.addrs@.contains(a));
                        }
                    }
                }
            } else {
                assert forall|i: Seq<char>, a: PeerAddr|
                    route_has(table@, i, a) <==> (route_has(t0, i, a) && !(i == inbox@ && a == addr)) by {
                    if route_has(table@, i, a) {
                        let k = choose|k: int| 0 <= k < table@.len() && #[trigger] table@[k].inbox@ == i && table@[k].addrs@.contains(a);
                        if k < j {
                            assert(t0[k].inbox@ == i);
                        } else {
                            assert(t0[k + 1].inbox@ == i);
                        }
                    }
                    if route_has(t0, i, a) && !(i == inbox@ && a == addr) {
                        let k = choose|k: int| 0 <= k < t0.len() && #[trigger] t0[k].inbox@ == i && t0[k].addrs@.contains(a);
                        if k < j {
                            assert(table@[k].inbox@ == i);
                        } else if k > j {
                            assert(table@[k - 1].inbox@ == i);
                        } else {
                            assert(route.addrs@.contains(a));
                        }
                    }
                }
            }
        },
        None => {
            assert forall|i: Seq<char>, a: PeerAddr|
                route_has(table@, i, a) <==> (route_has(t0, i, a) && !(i == inbox@ && a == addr)) by {
                if route_has(t0, i, a) {
                    let k = choose|k: int| 0 <= k < t0.len() && #[trigger] t0[k].inbox@ == i && t0[k].addrs@.contains(a);
                    assert(t0[k].inbox@ != inbox@);
                }
            }
        },
    }
}


// ---------------------------------------------------------------------------
// Peer records

/// `a` has a record in `p`.
pub open spec fn has_addr(p: Seq<PeerRecord>, a: PeerAddr) -> bool {
    exists|j: int| 0 <= j < p.len() && (#[trigger] p[j]).addr == a
}

/// The position of the record of `a` in `p`.
pub open spec fn index_of(p: Seq<PeerRecord>, a: PeerAddr) -> int {
    choose|j: int| 0 <= j < p.len() && (#[trigger] p[j]).addr == a
}

proof fn lemma_index_of(p: Seq<PeerRecord>, a: PeerAddr, j: int)
    requires
        peers_wf(p),
        0 <= j < p.len(),
        p[j].addr == a,
    ensures
        index_of(p, a) == j,
{
    let k = index_of(p, a);
    assert(0 <= k < p.len() && p[k].addr == a);
}

/// The peer names recorded in `p`.
pub open spec fn names_of(p: Seq<PeerRecord>) -> Map<PeerAddr, Seq<char>> {
    Map::new(|a: PeerAddr| has_addr(p, a), |a: PeerAddr| p[index_of(p, a)].name@)
}

/// The inboxes recorded in `p` for each peer.
pub open spec fn inbox_sets_of(p: Seq<PeerRecord>) -> Map<PeerAddr, Set<Seq<char>>> {
    Map::new(|a: PeerAddr| has_addr(p, a), |a: PeerAddr| views(p[index_of(p, a)].inboxes@).to_set())
}

proof fn lemma_peer_has(p: Seq<PeerRecord>, a: PeerAddr, i: Seq<char>)
    requires
        peers_wf(p),
    ensures
        peer_has(p, a, i) <==> (has_addr(p, a) && views(p[index_of(p, a)].inboxes@).contains(i)),
{
    if peer_has(p, a, i) {
        let j = choose|j: int| 0 <= j < p.len() && (#[trigger] p[j]).addr == a && views(p[j].inboxes@).contains(i);
        lemma_index_of(p, a, j);
    }
    if has_addr(p, a) && views(p[index_of(p, a)].inboxes@).contains(i) {
        let j = index_of(p, a);
        assert(0 <= j < p.len() && p[j].addr == a);
    }
}

fn find_peer(p: &Vec<PeerRecord>, addr: PeerAddr) -> (res: Option<usize>)
    ensures
        match res {
            Some(j) => j < p@.len() && p@[j as int].addr == addr,
            None => !has_addr(p@, addr),
        },
{
    let mut j: usize = 0;
    while j < p.len()
        invariant
            j <= p@.len(),
            forall|k: int| 0 <= k < j ==> p@[k].addr != addr,
        decreases p@.len() - j,
    {
        if p[j].addr == addr {
            return Some(j);
        }
        j = j + 1;
    }
    None
}

proof fn lemma_push_contains<T>(s: Seq<T>, x: T, y: T)
    ensures
        s.push(x).contains(y) <==> (s.contains(y) || y == x),
{
    if s.push(x).contains(y) {
        let m = choose|m: int| 0 <= m < s.len() + 1 && s.push(x)[m] == y;
        if m < s.len() {
            assert(s[m] == y);
        }
    }
    if s.contains(y) {
        let m = choose|m: int| 0 <= m < s.len() && s[m] == y;
        assert(s.push(x)[m] == y);
    }
    if y == x {
        assert(s.push(x)[s.len() as int] == y);
    }
}

impl Router {
    /// The internal invariant: records are unique, routes are well formed, and the
    /// route index lists exactly the peers whose record holds the inbox.
    pub closed spec fn wf(&self) -> bool {
        &&& peers_wf(self.peers@)
        &&& table_wf(self.table@)
        &&& forall|i: Seq<char>, a: PeerAddr| #[trigger] route_has(self.table@, i, a) <==> peer_has(self.peers@, a, i)
    }

    /// The name that each known peer gave last.
    pub closed spec fn names(&self) -> Map<PeerAddr, Seq<char>> {
        names_of(self.peers@)
    }

    /// The inboxes that each known peer announced last.
    pub closed spec fn inbox_sets(&self) -> Map<PeerAddr, Set<Seq<char>>> {
        inbox_sets_of(self.peers@)
    }

    /// The inboxes that `a` announced last; none if `a` is unknown.
    pub open spec fn announced(&self, a: PeerAddr) -> Set<Seq<char>> {
        if self.inbox_sets().dom().contains(a) {
            self.inbox_sets()[a]
        } else {
            Set::empty()
        }
    }

    /// The peers that announced the inbox named `inbox` last.
    pub open spec fn peers_for(&self, inbox: Seq<char>) -> Set<PeerAddr> {
        Set::new(|a: PeerAddr| self.announced(a).contains(inbox))
    }

    /// An empty routing table.
    pub fn new() -> (res: Router)
        ensures
            res.wf(),
            res.names() == Map::<PeerAddr, Seq<char>>::empty(),
            res.inbox_sets() == Map::<PeerAddr, Set<Seq<char>>>::empty(),
    {
        let res = Router { peers: Vec::new(), table: Vec::new() };
        assert(res.names() =~= Map::<PeerAddr, Seq<char>>::empty());
        assert(res.inbox_sets() =~= Map::<PeerAddr, Set<Seq<char>>>::empty());
        res
    }

    /// The peers that announce `inbox`, each once.
    pub fn get_peers_for_inbox(&self, inbox: &String) -> (res: Vec<PeerAddr>)
        requires
            self.wf(),
        ensures
            res@.no_duplicates(),
            res@.to_set() == self.peers_for(inbox@),
    {
        let mut res: Vec<PeerAddr> = Vec::new();
        match route_position(&self.table, inbox) {
            Some(j) => {
                let addrs = &self.table[j].addrs;
                let mut k: usize = 0;
                while k < addrs.len()
                    invariant
                        k <= addrs.len(),
                        res@ =~= addrs@.subrange(0, k as int),
                    decreases addrs.len() - k,
                {
                    res.push(addrs[k]);
                    k = k + 1;
                }
                assert(res@ =~= addrs@);
                assert forall|a: PeerAddr| res@.to_set().contains(a) <==> self.peers_for(inbox@).contains(a) by {
                    lemma_peer_has(self.peers@, a, inbox@);
                    if route_has(self.table@, inbox@, a) {
                        let m = choose|m: int| 0 <= m < self.table@.len() && #[trigger] self.table@[m].inbox@ == inbox@ && self.table@[m].addrs@.contains(a);
                        assert(m == j);
                    }
                    if res@.contains(a) {
                        assert(self.table@[j as int].inbox@ == inbox@);
                    }
                }
            },
            None => {
                assert forall|a: PeerAddr| res@.to_set().contains(a) <==> self.peers_for(inbox@).contains(a) by {
                    lemma_peer_has(self.peers@, a, inbox@);
                    if route_has(self.table@, inbox@, a) {
                        let m = choose|m: int| 0 <= m < self.table@.len() && #[trigger] self.table@[m].inbox@ == inbox@ && self.table@[m].addrs@.contains(a);
                    }
                }
            },
        }
        res
    }

    /// Takes in an announcement: the peer at `addr`, named `peer_name`, now owns
    /// exactly `inboxes`. The route index follows, and the inboxes that are new for
    /// this peer come back so that the send queue can be rescanned for them.
    pub fn update_peer_inboxes(&mut self, addr: PeerAddr, peer_name: String, inboxes: Vec<String>) -> (res: PeerUpdate)
        requires
            old(self).wf(),
        ensures
            final(self).wf(),
            final(self).names() == old(self).names().insert(addr, peer_name@),
            final(self).inbox_sets() == old(self).inbox_sets().insert(addr, views(inboxes@).to_set()),
            res.is_new_peer == !old(self).names().dom().contains(addr),
            views(res.discovered@).no_duplicates(),
            views(res.discovered@).to_set() == views(inboxes@).to_set().difference(old(self).announced(addr)),
    {
        let ghost p0 = self.peers@;
        let ghost t0 = self.table@;
        let ghost in0 = views(inboxes@).to_set();
        let found = find_peer(&self.peers, addr);
        let is_new_peer = found.is_none();
        let old_set: Vec<String> = match found {
            Some(j) => {
                let rec = self.peers.remove(j);
                rec.inboxes
            },
            None => Vec::new(),
        };
        let ghost p1 = self.peers@;
        proof {
            match found {
                Some(j) => {
                    lemma_index_of(p0, addr, j as int);
                    assert(p1 =~= p0.remove(j as int));
                },
                None => {
                    assert(p1 == p0);
                },
            }
            assert(is_new_peer == !has_addr(p0, addr));
            // what the index holds for `addr` is what its old record held
            assert forall|i: Seq<char>| route_has(t0, i, addr) <==> views(old_set@).contains(i) by {
                lemma_peer_has(p0, addr, i);
            }
            assert(views(old_set@).to_set() =~= old(self).announced(addr));
            assert(views(old_set@).no_duplicates());
        }
        let new_set = dedup_strings(inboxes);
        let mut discovered: Vec<String> = Vec::new();
        let mut k: usize = 0;
        while k < new_set.len()
            invariant
                k <= new_set@.len(),
                views(new_set@).no_duplicates(),
                table_wf(self.table@),
                self.peers@ == p1,
                forall|i: Seq<char>| route_has(t0, i, addr) <==> views(old_set@).contains(i),
                forall|i: Seq<char>, a: PeerAddr| #[trigger] route_has(self.table@, i, a) <==>
                    (route_has(t0, i, a) || (a == addr && views(new_set@.subrange(0, k as int)).contains(i))),
                views(discovered@).no_duplicates(),
                forall|x: Seq<char>| views(discovered@).contains(x) <==>
                    (views(new_set@.subrange(0, k as int)).contains(x) && !views(old_set@).contains(x)),
            decreases new_set@.len() - k,
        {
            let ghost pre = views(new_set@.subrange(0, k as int));
            let ghost d0 = discovered@;
            let ghost t_before = self.table@;
            let ghost x = new_set@[k as int]@;
            assert(views(new_set@)[k as int] == x);
            assert(views(new_set@.subrange(0, k + 1)) =~= pre.push(x));
            assert(!pre.contains(x)) by {
                if pre.contains(x) {
                    let m = choose|m: int| 0 <= m < pre.len() && pre[m] == x;
                    assert(views(new_set@)[m] == views(new_set@)[k as int]);
                }
            }
            proof {
                assert forall|y: Seq<char>| pre.push(x).contains(y) <==> (pre.contains(y) || y == x) by {
                    lemma_push_contains(pre, x, y);
                }
            }
            if !contains_string(&old_set, &new_set[k]) {
                table_add(&mut self.table, &new_set[k], addr);
                discovered.push(new_set[k].clone());
                proof {
                    assert(views(discovered@) =~= views(d0).push(x));
                    assert forall|y: Seq<char>| views(discovered@).contains(y) <==> (views(d0).contains(y) || y == x) by {
                        lemma_push_contains(views(d0), x, y);
                    }
                    assert(!views(d0).contains(x));
                }
            } else {
                assert(route_has(t0, x, addr));
            }
            assert forall|i: Seq<char>, a: PeerAddr| #[trigger] route_has(self.table@, i, a) <==>
                (route_has(t0, i, a) || (a == addr && views(new_set@.subrange(0, k + 1)).contains(i))) by {
                assert(route_has(t_before, i, a) <==> (route_has(t0, i, a) || (a == addr && pre.contains(i))));
            }
            assert forall|y: Seq<char>| views(discovered@).contains(y) <==>
                (views(new_set@.subrange(0, k + 1)).contains(y) && !views(old_set@).contains(y)) by {
                assert(views(d0).contains(y) <==> (pre.contains(y) && !views(old_set@).contains(y)));
            }
            k = k + 1;
        }
        assert(new_set@.subrange(0, new_set@.len() as int) =~= new_set@);
        let ghost t1 = self.table@;
        let mut k: usize = 0;
        while k < old_set.len()
            invariant
                k <= old_set@.len(),
                table_wf(self.table@),
                self.peers@ == p1,
                forall|i: Seq<char>, a: PeerAddr| #[trigger] route_has(self.table@, i, a) <==>
                    (route_has(t1, i, a) && !(a == addr && views(old_set@.subrange(0, k as int)).contains(i)
                        && !views(new_set@).contains(i))),
            decreases old_set@.len() - k,
        {
            let ghost pre = views(old_set@.subrange(0, k as int));
            let ghost x = old_set@[k as int]@;
            assert(views(old_set@)[k as int] == x);
            assert(views(old_set@.subrange(0, k + 1)) =~= pre.push(x));
            proof {
                assert forall|y: Seq<char>| pre.push(x).contains(y) <==> (pre.contains(y) || y == x) by {
                    lemma_push_contains(pre, x, y);
                }
            }
            let ghost t_before = self.table@;
            if !contains_string(&new_set, &old_set[k]) {
                table_remove(&mut self.table, &old_set[k], addr);
            }
            assert forall|i: Seq<char>, a: PeerAddr| #[trigger] route_has(self.table@, i, a) <==>
                (route_has(t1, i, a) && !(a == addr && views(old_set@.subrange(0, k + 1)).contains(i)
                    && !views(new_set@).contains(i))) by {
                assert(route_has(t_before, i, a) <==> (route_has(t1, i, a) && !(a == addr && pre.contains(i)
                    && !views(new_set@).contains(i))));
            }
            k = k + 1;
        }
        assert(old_set@.subrange(0, old_set@.len() as int) =~= old_set@);
        let rec = PeerRecord { addr, name: peer_name, inboxes: new_set };
        self.peers.push(rec);
        let ghost p2 = self.peers@;
        proof {
            assert(p2 =~= p1.push(rec));
            // the records of other peers are those of before
            assert forall|b: PeerAddr| b != addr implies (has_addr(p1, b) <==> has_addr(p0, b)) by {
                if b != addr {
                    match found {
                        Some(j) => {
                            if has_addr(p1, b) {
                                let m = choose|m: int| 0 <= m < p1.len() && (#[trigger] p1[m]).addr == b;
                                if m < j { assert(p0[m].addr == b); } else { assert(p0[m + 1].addr == b); }
                            }
                            if has_addr(p0, b) {
                                let m = choose|m: int| 0 <= m < p0.len() && (#[trigger] p0[m]).addr == b;
                                if m < j { assert(p1[m].addr == b); } else if m > j { assert(p1[m - 1].addr == b); }
                            }
                        },
                        None => {},
                    }
                }
            }
            assert(!has_addr(p1, addr)) by {
                if has_addr(p1, addr) {
                    let m = choose|m: int| 0 <= m < p1.len() && (#[trigger] p1[m]).addr == addr;
                    match found {
                        Some(j) => {
                            if m < j { assert(p0[m].addr == addr); } else { assert(p0[m + 1].addr == addr); }
                        },
                        None => { assert(p0[m].addr == addr); },
                    }
                }
            }
            assert(peers_wf(p2)) by {
                assert forall|a: int, b: int| 0 <= a < p2.len() && 0 <= b < p2.len() && a != b
                    implies #[trigger] p2[a].addr != #[trigger] p2[b].addr by {
                    if a == p1.len() { assert(p1[b].addr != addr); }
                    else if b == p1.len() { assert(p1[a].addr != addr); }
                    else {
                        match found {
                            Some(j) => {
                                let a0 = if a < j { a } else { a + 1 };
                                let b0 = if b < j { b } else { b + 1 };
                                assert(p0[a0] == p1[a] && p0[b0] == p1[b]);
                            },
                            None => {},
                        }
                    }
                }
                assert forall|a: int| 0 <= a < p2.len() implies views((#[trigger] p2[a]).inboxes@).no_duplicates() by {
                    if a < p1.len() {
                        match found {
                            Some(j) => {
                                let a0 = if a < j { a } else { a + 1 };
                                assert(p0[a0] == p1[a]);
                            },
                            None => {},
                        }
                    }
                }
            }
            // for each other peer, its record in p2 is its record in p0
            assert forall|b: PeerAddr| b != addr && has_addr(p0, b) implies
                has_addr(p2, b) && #[trigger] p2[index_of(p2, b)] == p0[index_of(p0, b)] by {
                let m0 = index_of(p0, b);
                assert(0 <= m0 < p0.len() && p0[m0].addr == b);
                let m2: int = match found {
                    Some(j) => if m0 < j { m0 } else { m0 - 1 },
                    None => m0,
                };
                match found {
                    Some(j) => { assert(m0 != j); },
                    None => {},
                }
                assert(p2[m2] == p0[m0]);
                lemma_index_of(p2, b, m2);
            }
            lemma_index_of(p2, addr, p1.len() as int);
            assert forall|b: PeerAddr| has_addr(p2, b) <==> (b == addr || has_addr(p0, b)) by {
                if b != addr && has_addr(p2, b) {
                    let m = choose|m: int| 0 <= m < p2.len() && (#[trigger] p2[m]).addr == b;
                    assert(m < p1.len());
                    assert(p1[m].addr == b);
                }
                if b != addr && has_addr(p0, b) {
                    assert(has_addr(p1, b));
                    let m = choose|m: int| 0 <= m < p1.len() && (#[trigger] p1[m]).addr == b;
                    assert(p2[m].addr == b);
                }
                if b == addr { assert(p2[p1.len() as int].addr == addr); }
            }
            assert(self.names() =~= old(self).names().insert(addr, rec.name@));
            assert(self.inbox_sets() =~= old(self).inbox_sets().insert(addr, in0));
            // the index matches the records
            assert forall|i: Seq<char>, a: PeerAddr| #[trigger] route_has(self.table@, i, a) <==> peer_has(p2, a, i) by {
                lemma_peer_has(p2, a, i);
                lemma_peer_has(p0, a, i);
                if a == addr {
                    assert(route_has(t0, i, addr) <==> views(old_set@).contains(i));
                } else {
                    assert(has_addr(p2, a) <==> has_addr(p0, a)) by {
                        if has_addr(p2, a) {
                            let m = choose|m: int| 0 <= m < p2.len() && (#[trigger] p2[m]).addr == a;
                            assert(m < p1.len());
                            assert(p1[m].addr == a);
                        }
                        if has_addr(p1, a) {
                            let m = choose|m: int| 0 <= m < p1.len() && (#[trigger] p1[m]).addr == a;
                            assert(p2[m].addr == a);
                        }
                    }
                }
            }
            assert(views(discovered@).to_set() =~= in0.difference(old(self).announced(addr)));
        }
        PeerUpdate { is_new_peer, discovered }
    }
}


// ---------------------------------------------------------------------------
// Laws of the routing table

/// After a peer announces a set of inboxes, it is listed under exactly those
/// inboxes; the listing of every other peer stays as it was.
pub proof fn lemma_peers_for_after_update(
    before: Router,
    after: Router,
    addr: PeerAddr,
    name: Seq<char>,
    inboxes: Set<Seq<char>>,
    inbox: Seq<char>,
)
    requires
        after.names() == before.names().insert(addr, name),
        after.inbox_sets() == before.inbox_sets().insert(addr, inboxes),
    ensures
        after.peers_for(inbox) == (if inboxes.contains(inbox) {
            before.peers_for(inbox).insert(addr)
        } else {
            before.peers_for(inbox).remove(addr)
        }),
{
    assert(after.peers_for(inbox) =~= (if inboxes.contains(inbox) {
        before.peers_for(inbox).insert(addr)
    } else {
        before.peers_for(inbox).remove(addr)
    }));
}

/// Taking in the same announcement twice changes nothing the second time, and
/// the second time discovers no inbox.
pub proof fn lemma_repeated_announcement(
    before: Router,
    once: Router,
    twice: Router,
    addr: PeerAddr,
    name: Seq<char>,
    inboxes: Set<Seq<char>>,
)
    requires
        once.names() == before.names().insert(addr, name),
        once.inbox_sets() == before.inbox_sets().insert(addr, inboxes),
        twice.names() == once.names().insert(addr, name),
        twice.inbox_sets() == once.inbox_sets().insert(addr, inboxes),
    ensures
        twice.names() == once.names(),
        twice.inbox_sets() == once.inbox_sets(),
        inboxes.difference(once.announced(addr)) == Set::<Seq<char>>::empty(),
{
    assert(twice.names() =~= once.names());
    assert(twice.inbox_sets() =~= once.inbox_sets());
    assert(inboxes.difference(once.announced(addr)) =~= Set::<Seq<char>>::empty());
}

/// Announcements of two different peers can be taken in in either order.
pub proof fn lemma_announcements_commute(
    start: Router,
    a_first: Router,
    a_then_b: Router,
    b_first: Router,
    b_then_a: Router,
    a: PeerAddr,
    a_name: Seq<char>,
    a_inboxes: Set<Seq<char>>,
    b: PeerAddr,
    b_name: Seq<char>,
    b_inboxes: Set<Seq<char>>,
)
    requires
        a != b,
        a_first.names() == start.names().insert(a, a_name),
        a_first.inbox_sets() == start.inbox_sets().insert(a, a_inboxes),
        a_then_b.names() == a_first.names().insert(b, b_name),
        a_then_b.inbox_sets() == a_first.inbox_sets().insert(b, b_inboxes),
        b_first.names() == start.names().insert(b, b_name),
        b_first.inbox_sets() == start.inbox_sets().insert(b, b_inboxes),
        b_then_a.names() == b_first.names().insert(a, a_name),
        b_then_a.inbox_sets() == b_first.inbox_sets().insert(a, a_inboxes),
    ensures
        a_then_b.names() == b_then_a.names(),
        a_then_b.inbox_sets() == b_then_a.inbox_sets(),
{
    assert(a_then_b.names() =~= b_then_a.names());
    assert(a_then_b.inbox_sets() =~= b_then_a.inbox_sets());
}

/// The inboxes that `a` listed in its latest announcement among `updates`, each an
/// address and the inboxes it announced; none if it never announced.
pub open spec fn latest_announced(updates: Seq<(PeerAddr, Set<Seq<char>>)>, a: PeerAddr) -> Set<Seq<char>>
    decreases updates.len(),
{
    if updates.len() == 0 {
        Set::empty()
    } else if updates.last().0 == a {
        updates.last().1
    } else {
        latest_announced(updates.drop_last(), a)
    }
}

proof fn lemma_announced_after(routers: Seq<Router>, updates: Seq<(PeerAddr, Set<Seq<char>>)>, m: int)
    requires
        routers.len() == updates.len() + 1,
        routers[0].inbox_sets() == Map::<PeerAddr, Set<Seq<char>>>::empty(),
        forall|k: int| 0 <= k < updates.len() ==>
            (#[trigger] routers[k + 1]).inbox_sets() == routers[k].inbox_sets().insert(updates[k].0, updates[k].1),
        0 <= m <= updates.len(),
    ensures
        forall|a: PeerAddr| #[trigger] routers[m].announced(a) == latest_announced(updates.take(m), a),
    decreases m,
{
    if m == 0 {
        assert forall|a: PeerAddr| #[trigger] routers[m].announced(a) == latest_announced(updates.take(m), a) by {
            assert(updates.take(0).len() == 0);
        }
    } else {
        lemma_announced_after(routers, updates, m - 1);
        let prev = routers[m - 1];
        assert(routers[m].inbox_sets() == prev.inbox_sets().insert(updates[m - 1].0, updates[m - 1].1)) by {
            assert(routers[(m - 1) + 1] == routers[m]);
        }
        assert(updates.take(m).drop_last() =~= updates.take(m - 1));
        assert(updates.take(m).last() == updates[m - 1]);
        assert forall|a: PeerAddr| #[trigger] routers[m].announced(a) == latest_announced(updates.take(m), a) by {
            assert(prev.announced(a) == latest_announced(updates.take(m - 1), a));
        }
    }
}

/// After any sequence of announcements taken in from an empty table, the peers
/// listed under an inbox are exactly those whose latest announcement named it; an
/// announcement of one peer changes nothing of what is listed for another.
pub proof fn lemma_announcement_sequence(
    routers: Seq<Router>,
    updates: Seq<(PeerAddr, Set<Seq<char>>)>,
    inbox: Seq<char>,
)
    requires
        routers.len() == updates.len() + 1,
        routers[0].inbox_sets() == Map::<PeerAddr, Set<Seq<char>>>::empty(),
        forall|k: int| 0 <= k < updates.len() ==>
            (#[trigger] routers[k + 1]).inbox_sets() == routers[k].inbox_sets().insert(updates[k].0, updates[k].1),
    ensures
        routers.last().peers_for(inbox) == Set::new(|a: PeerAddr| latest_announced(updates, a).contains(inbox)),
{
    lemma_announced_after(routers, updates, updates.len() as int);
    assert(updates.take(updates.len() as int) =~= updates);
    assert(routers.last() == routers[updates.len() as int]);
    assert(routers.last().peers_for(inbox) =~= Set::new(|a: PeerAddr| latest_announced(updates, a).contains(inbox)));
}

} // verus!
