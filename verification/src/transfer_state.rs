use vstd::prelude::*;

verus! {

/// A transfer in progress, as the dashboard shows it.
pub struct ActiveTransfer {
    pub id: String,
    pub filename: String,
    pub bytes_transferred: u64,
    pub total_bytes: u64,
    pub is_sending: bool,
}

/// A finished transfer. `timestamp` is in milliseconds since the Unix epoch.
pub struct TransferHistoryItem {
    pub filename: String,
    pub is_sending: bool,
    pub success: bool,
    pub timestamp: u64,
}

/// The transfers of this process: those under way and those done.
pub struct TransferState {
    pub active_transfers: Vec<ActiveTransfer>,
    pub history: Vec<TransferHistoryItem>,
}

/// `i` is the first position in `s` of a transfer with the id `id`.
pub open spec fn is_first_with_id(s: Seq<ActiveTransfer>, id: Seq<char>, i: int) -> bool {
    &&& 0 <= i < s.len()
    &&& s[i].id@ == id
    &&& forall|k: int| 0 <= k < i ==> (#[trigger] s[k]).id@ != id
}

/// `s` holds a transfer with the id `id`.
pub open spec fn has_id(s: Seq<ActiveTransfer>, id: Seq<char>) -> bool {
    exists|i: int| 0 <= i < s.len() && (#[trigger] s[i]).id@ == id
}

/// The transfers of `s` whose id is not `id`, in order.
pub open spec fn without_id(s: Seq<ActiveTransfer>, id: Seq<char>) -> Seq<ActiveTransfer> {
    s.filter(|t: ActiveTransfer| t.id@ != id)
}

fn copy_transfer(t: &ActiveTransfer) -> (res: ActiveTransfer)
    ensures
        res == *t,
{
    ActiveTransfer {
        id: t.id.clone(),
        filename: t.filename.clone(),
        bytes_transferred: t.bytes_transferred,
        total_bytes: t.total_bytes,
        is_sending: t.is_sending,
    }
}

impl TransferState {
    /// No transfers.
    pub fn new() -> (res: TransferState)
        ensures
            res.active_transfers@ == Seq::<ActiveTransfer>::empty(),
            res.history@ == Seq::<TransferHistoryItem>::empty(),
    {
        TransferState { active_transfers: Vec::new(), history: Vec::new() }
    }

    /// A transfer starts.
    pub fn begin(&mut self, t: ActiveTransfer)
        ensures
            final(self).active_transfers@ == old(self).active_transfers@.push(t),
            final(self).history@ == old(self).history@,
    {
        self.active_transfers.push(t);
    }

    /// The first transfer with the id `id` has now moved `bytes` bytes; nothing
    /// changes when there is none.
    pub fn set_progress(&mut self, id: &String, bytes: u64)
        ensures
            final(self).history@ == old(self).history@,
            !has_id(old(self).active_transfers@, id@) ==> final(self).active_transfers@ == old(self).active_transfers@,
            forall|i: int| is_first_with_id(old(self).active_transfers@, id@, i) ==>
                final(self).active_transfers@ == old(self).active_transfers@.update(i, ActiveTransfer {
                    bytes_transferred: bytes,
                    ..old(self).active_transfers@[i]
                }),
    {
        let mut i: usize = 0;
        while i < self.active_transfers.len()
            invariant
                i <= self.active_transfers@.len(),
                self.active_transfers@ == old(self).active_transfers@,
                self.history@ == old(self).history@,
                forall|k: int| 0 <= k < i ==> (#[trigger] self.active_transfers@[k]).id@ != id@,
            decreases self.active_transfers@.len() - i,
        {
            if self.active_transfers[i].id == *id {
                let ghost s0 = self.active_transfers@;
                let mut t = self.active_transfers.remove(i);
                t.bytes_transferred = bytes;
                self.active_transfers.insert(i, t);
                assert(self.active_transfers@ =~= s0.update(i as int, t));
                assert forall|j: int| is_first_with_id(s0, id@, j) implies j == i by {
                    if j < i {
                        assert(s0[j].id@ != id@);
                    }
                    if j > i {
                        assert(s0[i as int].id@ == id@);
                    }
                }
                return;
            }
            i = i + 1;
        }
    }

    /// A transfer ends: every transfer with the id `id` leaves the active list and
    /// the outcome joins the history.
    pub fn finish(&mut self, id: &String, filename: String, is_sending: bool, success: bool, timestamp: u64)
        ensures
            final(self).active_transfers@ == without_id(old(self).active_transfers@, id@),
            final(self).history@ == old(self).history@.push(
                TransferHistoryItem { filename, is_sending, success, timestamp },
            ),
    {
        let ghost s0 = self.active_transfers@;
        let mut kept: Vec<ActiveTransfer> = Vec::new();
        let mut i: usize = 0;
        while i < self.active_transfers.len()
            invariant
                i <= self.active_transfers@.len(),
                self.active_transfers@ == s0,
                self.history@ == old(self).history@,
                kept@ == without_id(s0.subrange(0, i as int), id@),
            decreases self.active_transfers@.len() - i,
        {
            let ghost pre = s0.subrange(0, i as int);
            assert(s0.subrange(0, i + 1) =~= pre.push(s0[i as int]));
            proof { pre.lemma_filter_push(s0[i as int], |t: ActiveTransfer| t.id@ != id@); }
            if self.active_transfers[i].id != *id {
                let t = copy_transfer(&self.active_transfers[i]);
                kept.push(t);
            }
            i = i + 1;
        }
        assert(s0.subrange(0, s0.len() as int) =~= s0);
        self.active_transfers = kept;
        self.history.push(TransferHistoryItem { filename, is_sending, success, timestamp });
    }
}

} // verus!
