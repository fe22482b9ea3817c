use vstd::prelude::*;

use crate::paths::{components_from, components_to, path_view, same_path, starts_with};
use vstd::string::StrSliceExecFns;
use vstd::string::StringExecFns;

verus! {

/// `s` with each backslash turned into a slash.
pub open spec fn unbackslash(s: Seq<char>) -> Seq<char> {
    s.map_values(|c: char| if c == '\\' { '/' } else { c })
}

/// The components of a path joined with `/`, each backslash turned into a slash:
/// the relative path under which a receiver files the file.
pub open spec fn slash_join(parts: Seq<Seq<char>>) -> Seq<char>
    decreases parts.len(),
{
    if parts.len() == 0 {
        Seq::empty()
    } else if parts.len() == 1 {
        unbackslash(parts[0])
    } else {
        slash_join(parts.drop_last()) + seq!['/'] + unbackslash(parts.last())
    }
}

/// Appends `s` to `out` with each backslash turned into a slash.
fn append_unbackslashed(out: &mut String, s: &str)
    ensures
        final(out)@ == old(out)@ + unbackslash(s@),
{
    let n = s.unicode_len();
    let ghost base = out@;
    let mut seg_start: usize = 0;
    let mut i: usize = 0;
    while i < n
        invariant
            n == s@.len(),
            seg_start <= i <= n,
            out@ == base + unbackslash(s@.subrange(0, seg_start as int)),
            forall|k: int| seg_start <= k < i ==> s@[k] != '\\',
        decreases n - i,
    {
        if s.get_char(i) == '\\' {
            let ghost before = out@;
            out.append(s.substring_char(seg_start, i));
            out.append("/");
            proof {
                reveal_strlit("/");
                assert(unbackslash(s@.subrange(0, i + 1)) =~= unbackslash(s@.subrange(0, seg_start as int))
                    + s@.subrange(seg_start as int, i as int) + seq!['/']);
            }
            seg_start = i + 1;
        }
        i = i + 1;
    }
    out.append(s.substring_char(seg_start, n));
    assert(unbackslash(s@) =~= unbackslash(s@.subrange(0, seg_start as int)) + s@.subrange(seg_start as int, n as int));
    assert(s@.subrange(0, n as int) =~= s@);
}

/// The components of `parts` joined as `slash_join` says.
pub fn join_relative(parts: &Vec<String>) -> (res: String)
    ensures
        res@ == slash_join(path_view(parts@)),
{
    let mut out = String::new();
    let mut i: usize = 0;
    while i < parts.len()
        invariant
            i <= parts@.len(),
            out@ == slash_join(path_view(parts@).take(i as int)),
        decreases parts@.len() - i,
    {
        let ghost pv = path_view(parts@);
        assert(pv.take(i + 1).drop_last() =~= pv.take(i as int));
        if i > 0 {
            out.append("/");
            proof { reveal_strlit("/"); }
        } else {
            assert(pv.take(0) =~= Seq::<Seq<char>>::empty());
        }
        append_unbackslashed(&mut out, parts[i].as_str());
        i = i + 1;
    }
    assert(path_view(parts@).take(parts@.len() as int) =~= path_view(parts@));
    out
}

/// Where a file of the send folder goes: a file at `path`, somewhere below
/// `send_dir/<inbox>/`, goes to `<inbox>` under its path relative to that folder.
/// Files right inside `send_dir` and paths outside it go nowhere.
pub open spec fn classify(send_dir: Seq<Seq<char>>, path: Seq<Seq<char>>) -> Option<(Seq<char>, Seq<char>)> {
    if send_dir.len() + 2 <= path.len() && path.take(send_dir.len() as int) == send_dir {
        Some((path[send_dir.len() as int], slash_join(path.skip(send_dir.len() + 1int))))
    } else {
        None
    }
}

/// The paths of a list of paths.
pub open spec fn pending_views(v: Seq<Vec<String>>) -> Seq<Seq<Seq<char>>> {
    v.map_values(|p: Vec<String>| path_view(p@))
}

/// A file to hand to the peers of an inbox.
pub struct Dispatch {
    pub path: Vec<String>,
    pub inbox: String,
    pub relative_path: String,
}

/// The send folder and the files of it that are being handled.
pub struct SendQueue {
    send_dir: Vec<String>,
    in_progress: Vec<Vec<String>>,
}

impl SendQueue {
    pub closed spec fn dir(&self) -> Seq<Seq<char>> {
        path_view(self.send_dir@)
    }

    /// The files being handled.
    pub closed spec fn pending(&self) -> Set<Seq<Seq<char>>> {
        pending_views(self.in_progress@).to_set()
    }

    /// A queue on the folder `send_dir` with nothing in hand.
    pub fn new(send_dir: Vec<String>) -> (res: SendQueue)
        ensures
            res.dir() == path_view(send_dir@),
            res.pending() == Set::<Seq<Seq<char>>>::empty(),
    {
        let res = SendQueue { send_dir, in_progress: Vec::new() };
        assert(res.pending() =~= Set::<Seq<Seq<char>>>::empty());
        res
    }

    fn find_pending(&self, path: &Vec<String>) -> (res: Option<usize>)
        ensures
            match res {
                Some(k) => k < self.in_progress@.len() && path_view(self.in_progress@[k as int]@) == path_view(path@)
                    && self.pending().contains(path_view(path@)),
                None => !self.pending().contains(path_view(path@)),
            },
    {
        let mut i: usize = 0;
        while i < self.in_progress.len()
            invariant
                i <= self.in_progress@.len(),
                forall|k: int| 0 <= k < i ==> path_view(self.in_progress@[k]@) != path_view(path@),
            decreases self.in_progress@.len() - i,
        {
            if same_path(&self.in_progress[i], path) {
                proof {
                    let mapped = pending_views(self.in_progress@);
                    assert(mapped[i as int] == path_view(path@));
                    assert(mapped.contains(path_view(path@)));
                }
                return Some(i);
            }
            i = i + 1;
        }
        proof {
            let mapped = pending_views(self.in_progress@);
            if mapped.to_set().contains(path_view(path@)) {
                let k = choose|k: int| 0 <= k < mapped.len() && mapped[k] == path_view(path@);
                assert(path_view(self.in_progress@[k]@) == path_view(path@));
            }
        }
        None
    }

    /// A file of the send folder has appeared or changed. Unless it goes nowhere or
    /// is already being handled, it is now being handled and comes back with its
    /// inbox and relative path.
    pub fn offer(&mut self, path: Vec<String>) -> (res: Option<Dispatch>)
        ensures
            final(self).dir() == old(self).dir(),
            match classify(old(self).dir(), path_view(path@)) {
                None => res is None && final(self).pending() == old(self).pending(),
                Some((inbox, rel)) => if old(self).pending().contains(path_view(path@)) {
                    res is None && final(self).pending() == old(self).pending()
                } else {
                    &&& res matches Some(d)
                    &&& path_view(d.path@) == path_view(path@)
                    &&& d.inbox@ == inbox
                    &&& d.relative_path@ == rel
                    &&& final(self).pending() == old(self).pending().insert(path_view(path@))
                },
            },
    {
        let k = self.send_dir.len();
        assert(path_view(path@).len() == path@.len());
        assert(self.dir().len() == k);
        if path.len() < 2 || path.len() - 2 < k {
            return None;
        }
        if !starts_with(&path, &self.send_dir) {
            return None;
        }
        if self.find_pending(&path).is_some() {
            return None;
        }
        let inbox = path[k].clone();
        let rest = components_from(&path, k + 1);
        let relative_path = join_relative(&rest);
        let copy = components_to(&path, path.len());
        assert(path_view(path@).take(path@.len() as int) =~= path_view(path@));
        let ghost before = self.in_progress@;
        self.in_progress.push(copy);
        proof {
            assert(pending_views(self.in_progress@) =~= pending_views(before).push(path_view(path@)));
            pending_views(before).lemma_push_to_set_commute(path_view(path@));
        }
        Some(Dispatch { path, inbox, relative_path })
    }

    /// The file at `path` is no longer being handled.
    pub fn release(&mut self, path: &Vec<String>)
        ensures
            final(self).dir() == old(self).dir(),
            final(self).pending() == old(self).pending().remove(path_view(path@)),
    {
        let mut i: usize = 0;
        let ghost orig = self.in_progress@;
        while i < self.in_progress.len()
            invariant
                i <= self.in_progress@.len(),
                self.send_dir@ == old(self).send_dir@,
                forall|k: int| 0 <= k < i ==> path_view(self.in_progress@[k]@) != path_view(path@),
                forall|x: Seq<Seq<char>>| x != path_view(path@) ==>
                    (pending_views(self.in_progress@).contains(x) <==> pending_views(orig).contains(x)),
                            decreases self.in_progress@.len() - i,
        {
            if same_path(&self.in_progress[i], path) {
                let ghost before = self.in_progress@;
                self.in_progress.remove(i);
                proof {
                    assert(self.in_progress@ =~= before.remove(i as int));
                    assert forall|x: Seq<Seq<char>>| x != path_view(path@) implies
                        (pending_views(self.in_progress@).contains(x) <==> pending_views(before).contains(x)) by {
                        if pending_views(self.in_progress@).contains(x) {
                            let m = choose|m: int| 0 <= m < pending_views(self.in_progress@).len() && pending_views(self.in_progress@)[m] == x;
                            if m < i {
                                assert(self.in_progress@[m] == before[m]);
                                assert(pending_views(before)[m] == x);
                            } else {
                                assert(self.in_progress@[m] == before[m + 1]);
                                assert(pending_views(before)[m + 1] == x);
                            }
                        }
                        if pending_views(before).contains(x) {
                            let m = choose|m: int| 0 <= m < pending_views(before).len() && pending_views(before)[m] == x;
                            if m < i {
                                assert(self.in_progress@[m] == before[m]);
                                assert(pending_views(self.in_progress@)[m] == x);
                            } else if m > i {
                                assert(self.in_progress@[m - 1] == before[m]);
                                assert(pending_views(self.in_progress@)[m - 1] == x);
                            } else {
                                assert(pending_views(before)[m] == path_view(before[m]@));
                            }
                        }
                    }
                }
            } else {
                i = i + 1;
            }
        }
        proof {
            if pending_views(self.in_progress@).contains(path_view(path@)) {
                let m = choose|m: int| 0 <= m < self.in_progress@.len() && pending_views(self.in_progress@)[m] == path_view(path@);
                assert(path_view(self.in_progress@[m]@) == path_view(path@));
            }
            assert(self.pending() =~= old(self).pending().remove(path_view(path@)));
        }
    }

    /// The folders to try to remove, in this order, once the file at `path` has gone
    /// out: its parent, that folder's parent, and so on, while they lie below the inbox
    /// folder. Removal stops at the first folder that cannot be removed.
    pub fn cleanup_dirs(&self, path: &Vec<String>) -> (res: Vec<Vec<String>>)
        requires
            classify(self.dir(), path_view(path@)) is Some,
        ensures
            res@.len() == path@.len() - self.dir().len() - 2,
            forall|k: int| 0 <= k < res@.len() ==>
                path_view((#[trigger] res@[k])@) == path_view(path@).take(path@.len() - 1 - k),
    {
        let plen = path.len();
        assert(path_view(path@).len() == plen);
        let stop = self.send_dir.len() + 2;
        let mut res: Vec<Vec<String>> = Vec::new();
        let mut m: usize = path.len() - 1;
        while m >= stop
            invariant
                stop == self.dir().len() + 2,
                stop <= path@.len(),
                stop - 1 <= m <= path@.len() - 1,
                res@.len() == path@.len() - 1 - m,
                forall|k: int| 0 <= k < res@.len() ==>
                    path_view((#[trigger] res@[k])@) == path_view(path@).take(path@.len() - 1 - k),
            decreases m,
        {
            let dir = components_to(path, m);
            res.push(dir);
            m = m - 1;
        }
        res
    }
}

/// Most times a locked file is tried again before it is given up.
pub const MAX_UNLOCK_RETRIES: u32 = 30;

/// Waiting for another program to let go of a file before it is sent.
pub struct UnlockWait {
    pub retries: u32,
}

impl UnlockWait {
    pub fn new() -> (res: UnlockWait)
        ensures
            res.retries == 0,
    {
        UnlockWait { retries: 0 }
    }

    /// The file was still locked: whether to wait and try again, or give up.
    pub fn on_locked(&mut self) -> (keep_waiting: bool)
        requires
            old(self).retries <= MAX_UNLOCK_RETRIES,
        ensures
            final(self).retries == old(self).retries + 1,
            keep_waiting == (final(self).retries <= MAX_UNLOCK_RETRIES),
    {
        self.retries = self.retries + 1;
        self.retries <= MAX_UNLOCK_RETRIES
    }
}

/// What becomes of a file of the send folder once it has been offered to the peers
/// of its inbox.
#[derive(PartialEq, Eq, Structural, Clone, Copy, Debug)]
pub enum Delivery {
    /// No peer announces the inbox: the file stays, to be sent when one does.
    NoPeers,
    /// Every peer took the file: it is deleted, and its emptied folders after it.
    Delivered,
    /// Some peer did not take it: the file stays for a later attempt.
    Kept,
}

/// The outcome of sending a file to each peer of its inbox, one result per peer.
pub open spec fn delivery_of(results: Seq<bool>) -> Delivery {
    if results.len() == 0 {
        Delivery::NoPeers
    } else if forall|i: int| 0 <= i < results.len() ==> #[trigger] results[i] {
        Delivery::Delivered
    } else {
        Delivery::Kept
    }
}

/// Decides, from whether each peer took the file, what becomes of it: a file is
/// deleted only when there was at least one peer and all of them took it.
pub fn delivery(results: &Vec<bool>) -> (res: Delivery)
    ensures
        res == delivery_of(results@),
        res == Delivery::NoPeers <==> results@.len() == 0,
        res == Delivery::Delivered ==> forall|i: int| 0 <= i < results@.len() ==> results@[i],
        res == Delivery::Kept <==> exists|i: int| 0 <= i < results@.len() && !results@[i],
{
    if results.len() == 0 {
        return Delivery::NoPeers;
    }
    let mut i: usize = 0;
    while i < results.len()
        invariant
            i <= results@.len(),
            forall|k: int| 0 <= k < i ==> #[trigger] results@[k],
        decreases results@.len() - i,
    {
        if !results[i] {
            return Delivery::Kept;
        }
        i = i + 1;
    }
    Delivery::Delivered
}

/// A file is deleted only when it reached every peer: with no peer it waits, a
/// single failed transfer keeps it, and it counts as delivered exactly when there
/// was a peer and every transfer succeeded.
pub proof fn lemma_delivery_outcome(results: Seq<bool>)
    ensures
        delivery_of(results) == Delivery::NoPeers <==> results.len() == 0,
        delivery_of(results) == Delivery::Delivered <==>
            (results.len() > 0 && forall|i: int| 0 <= i < results.len() ==> results[i]),
        delivery_of(results) == Delivery::Kept <==> exists|i: int| 0 <= i < results.len() && !results[i],
        forall|i: int| 0 <= i < results.len() && !results[i] ==> delivery_of(results) != Delivery::Delivered,
{
}

/// Cleaning up after a sent file never removes the send folder or an inbox folder
/// inside it: every folder it tries lies below `send_dir/<inbox>/` and holds the file.
pub proof fn lemma_cleanup_stays_below_inbox(send_dir: Seq<Seq<char>>, file: Seq<Seq<char>>, dirs: Seq<Seq<Seq<char>>>)
    requires
        classify(send_dir, file) is Some,
        dirs.len() == file.len() - send_dir.len() - 2,
        forall|k: int| 0 <= k < dirs.len() ==> #[trigger] dirs[k] == file.take(file.len() - 1 - k),
    ensures
        forall|k: int| 0 <= k < dirs.len() ==> {
            &&& (#[trigger] dirs[k]).len() >= send_dir.len() + 2
            &&& dirs[k].len() < file.len()
            &&& dirs[k].take(send_dir.len() as int) == send_dir
            &&& dirs[k] != send_dir
        },
{
    assert forall|k: int| 0 <= k < dirs.len() implies {
        &&& (#[trigger] dirs[k]).len() >= send_dir.len() + 2
        &&& dirs[k].len() < file.len()
        &&& dirs[k].take(send_dir.len() as int) == send_dir
        &&& dirs[k] != send_dir
    } by {
        assert(dirs[k].take(send_dir.len() as int) =~= file.take(send_dir.len() as int));
        assert(dirs[k].len() != send_dir.len());
    }
}

} // verus!
