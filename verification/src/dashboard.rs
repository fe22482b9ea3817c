use vstd::prelude::*;

use crate::transfer_state::{ActiveTransfer, TransferHistoryItem, TransferState};

verus! {

/// How many finished transfers the history shows.
pub const HISTORY_LIMIT: usize = 50;

/// The pages of the dashboard.
#[derive(PartialEq, Eq, Structural, Clone, Copy, Debug)]
pub enum Tab {
    Progress,
    History,
    Settings,
}

/// What the dashboard window holds between frames.
pub struct DashboardHost {
    pub active_tab: Tab,
    pub auto_start: bool,
}

impl DashboardHost {
    /// A dashboard that opens on the progress page; `auto_start` tells whether the
    /// program is set to run at login.
    pub fn new(auto_start: bool) -> (res: DashboardHost)
        ensures
            res.active_tab == Tab::Progress,
            res.auto_start == auto_start,
    {
        DashboardHost { active_tab: Tab::Progress, auto_start }
    }
}

/// Item `i` comes before item `j` in the history: newer first, and of two equally
/// old ones, the one recorded first.
pub open spec fn shown_before(h: Seq<TransferHistoryItem>, i: int, j: int) -> bool {
    h[i].timestamp > h[j].timestamp || (h[i].timestamp == h[j].timestamp && i < j)
}

/// `order` lists each position of `h` once, in the order the history is shown.
pub open spec fn is_display_order(h: Seq<TransferHistoryItem>, order: Seq<int>) -> bool {
    &&& order.len() == h.len()
    &&& forall|k: int| 0 <= k < order.len() ==> 0 <= #[trigger] order[k] < h.len()
    &&& forall|a: int, b: int| 0 <= a < b < order.len() ==> shown_before(h, #[trigger] order[a], #[trigger] order[b])
}

/// In a display order, each item is at least as new as every item shown after it,
/// and of two items of one time the one recorded first comes first; so no item is
/// listed twice.
pub proof fn lemma_display_order_newest_first(h: Seq<TransferHistoryItem>, order: Seq<int>, a: int, b: int)
    requires
        is_display_order(h, order),
        0 <= a < b < order.len(),
    ensures
        h[order[a]].timestamp >= h[order[b]].timestamp,
        h[order[a]].timestamp == h[order[b]].timestamp ==> order[a] < order[b],
        order[a] != order[b],
{
    assert(shown_before(h, order[a], order[b]));
}

/// Every item of the history has its place in a display order, and an item newer
/// than another is shown before it.
pub proof fn lemma_display_order_complete(h: Seq<TransferHistoryItem>, order: Seq<int>, i: int, j: int)
    requires
        is_display_order(h, order),
        0 <= i < h.len(),
        0 <= j < h.len(),
        h[i].timestamp > h[j].timestamp,
    ensures
        exists|a: int, b: int| 0 <= a < b < order.len() && order[a] == i && order[b] == j,
{
    // the order is a permutation: it holds no position twice, so every position
    lemma_order_is_onto(h, order, i);
    lemma_order_is_onto(h, order, j);
    let a = choose|a: int| 0 <= a < order.len() && order[a] == i;
    let b = choose|b: int| 0 <= b < order.len() && order[b] == j;
    if b < a {
        assert(shown_before(h, order[b], order[a]));
    }
    assert(a != b);
}

proof fn lemma_order_is_onto(h: Seq<TransferHistoryItem>, order: Seq<int>, i: int)
    requires
        is_display_order(h, order),
        0 <= i < h.len(),
    ensures
        exists|a: int| 0 <= a < order.len() && order[a] == i,
{
    // positions of `order` are distinct and lie in 0..h.len(), and there are h.len() of them
    let s = order.to_set();
    assert(order.no_duplicates()) by {
        assert forall|a: int, b: int| 0 <= a < order.len() && 0 <= b < order.len() && a != b
            implies order[a] != order[b] by {
            if a < b {
                assert(shown_before(h, order[a], order[b]));
            } else {
                assert(shown_before(h, order[b], order[a]));
            }
        }
    }
    order.unique_seq_to_set();
    assert(s.subset_of(Set::new(|k: int| 0 <= k < h.len())));
    vstd::set_lib::lemma_int_range(0, h.len() as int);
    assert(Set::new(|k: int| 0 <= k < h.len()) =~= vstd::set_lib::set_int_range(0, h.len() as int));
    if !s.contains(i) {
        let r = vstd::set_lib::set_int_range(0, h.len() as int);
        assert(s.subset_of(r.remove(i)));
        vstd::set_lib::lemma_len_subset(s, r.remove(i));
    }
}

fn copy_item(t: &TransferHistoryItem) -> (res: TransferHistoryItem)
    ensures
        res == *t,
{
    TransferHistoryItem { filename: t.filename.clone(), is_sending: t.is_sending, success: t.success, timestamp: t.timestamp }
}

/// Positions of `h` in display order.
fn display_order(h: &Vec<TransferHistoryItem>) -> (order: Vec<usize>)
    ensures
        is_display_order(h@, order@.map_values(|i: usize| i as int)),
{
    let mut order: Vec<usize> = Vec::new();
    let mut i: usize = 0;
    while i < h.len()
        invariant
            i <= h@.len(),
            order@.len() == i,
            forall|k: int| 0 <= k < order@.len() ==> #[trigger] order@[k] < i,
            forall|a: int, b: int| 0 <= a < b < order@.len() ==>
                shown_before(h@, #[trigger] order@[a] as int, #[trigger] order@[b] as int),
        decreases h@.len() - i,
    {
        let mut p: usize = 0;
        while p < order.len() && h[order[p]].timestamp >= h[i].timestamp
            invariant
                i < h@.len(),
                p <= order@.len(),
                forall|k: int| 0 <= k < order@.len() ==> #[trigger] order@[k] < i,
                forall|k: int| 0 <= k < p ==> h@[#[trigger] order@[k] as int].timestamp >= h@[i as int].timestamp,
            decreases order@.len() - p,
        {
            p = p + 1;
        }
        let ghost o0 = order@;
        proof {
            if p < o0.len() {
                assert(h@[o0[p as int] as int].timestamp < h@[i as int].timestamp);
            }
        }
        order.insert(p, i);
        proof {
            assert(order@ =~= o0.insert(p as int, i));
            assert forall|a: int, b: int| 0 <= a < b < order@.len() implies
                shown_before(h@, #[trigger] order@[a] as int, #[trigger] order@[b] as int) by {
                if b < p {
                    assert(order@[a] == o0[a] && order@[b] == o0[b]);
                } else if b == p {
                    assert(order@[a] == o0[a]);
                    assert(h@[o0[a] as int].timestamp >= h@[i as int].timestamp);
                } else if a < p {
                    assert(order@[a] == o0[a] && order@[b] == o0[b - 1]);
                } else if a == p {
                    assert(order@[b] == o0[b - 1]);
                    if p < o0.len() {
                        // everything from p on is older than item i
                        assert forall|k: int| p <= k < o0.len() implies h@[o0[k] as int].timestamp < h@[i as int].timestamp by {
                            if k > p {
                                assert(shown_before(h@, o0[p as int] as int, o0[k] as int));
                            }
                        }
                    }
                } else {
                    assert(order@[a] == o0[a - 1] && order@[b] == o0[b - 1]);
                }
            }
        }
        i = i + 1;
    }
    proof {
        let m = order@.map_values(|i: usize| i as int);
        assert forall|a: int, b: int| 0 <= a < b < m.len() implies shown_before(h@, #[trigger] m[a], #[trigger] m[b]) by {
            assert(shown_before(h@, order@[a] as int, order@[b] as int));
        }
    }
    order
}

impl TransferState {
    /// The history as the dashboard shows it: newest first, two of the same time in
    /// the order they were recorded, at most `HISTORY_LIMIT` of them.
    pub fn recent_history(&self) -> (res: Vec<TransferHistoryItem>)
        ensures
            res@.len() == (if self.history@.len() < HISTORY_LIMIT { self.history@.len() as int } else { HISTORY_LIMIT as int }),
            exists|order: Seq<int>| #[trigger] is_display_order(self.history@, order)
                && forall|k: int| 0 <= k < res@.len() ==> res@[k] == self.history@[order[k]],
            forall|a: int, b: int| 0 <= a < b < res@.len() ==> #[trigger] res@[a].timestamp >= #[trigger] res@[b].timestamp,
    {
        let order = display_order(&self.history);
        let ghost m = order@.map_values(|i: usize| i as int);
        let n = if self.history.len() < HISTORY_LIMIT { self.history.len() } else { HISTORY_LIMIT };
        let mut res: Vec<TransferHistoryItem> = Vec::new();
        let mut k: usize = 0;
        while k < n
            invariant
                n <= order@.len(),
                order@.len() == self.history@.len(),
                m == order@.map_values(|i: usize| i as int),
                is_display_order(self.history@, m),
                k <= n,
                res@.len() == k,
                forall|j: int| 0 <= j < k ==> res@[j] == self.history@[m[j]],
            decreases n - k,
        {
            assert(0 <= m[k as int] < self.history@.len());
            let item = copy_item(&self.history[order[k]]);
            res.push(item);
            k = k + 1;
        }
        proof {
            assert forall|a: int, b: int| 0 <= a < b < res@.len() implies
                #[trigger] res@[a].timestamp >= #[trigger] res@[b].timestamp by {
                lemma_display_order_newest_first(self.history@, m, a, b);
            }
        }
        res
    }
}

/// What the dashboard says of a transfer's direction.
pub fn direction_label(t: &ActiveTransfer) -> (res: &'static str)
    ensures
        res@ == (if t.is_sending { "Sending"@ } else { "Receiving"@ }),
{
    if t.is_sending { "Sending" } else { "Receiving" }
}

/// What the dashboard says of a finished transfer: its direction and its outcome.
pub fn history_labels(item: &TransferHistoryItem) -> (res: (&'static str, &'static str))
    ensures
        res.0@ == (if item.is_sending { "Sent"@ } else { "Received"@ }),
        res.1@ == (if item.success { "Success"@ } else { "Failed"@ }),
{
    (if item.is_sending { "Sent" } else { "Received" }, if item.success { "Success" } else { "Failed" })
}

/// Whole megabytes (10^6 bytes) in `bytes`, as the progress text shows them.
pub fn megabytes(bytes: u64) -> (res: u64)
    ensures
        res == bytes / 1_000_000,
{
    bytes / 1_000_000
}

} // verus!
