use vstd::prelude::*;
use vstd::string::StrSliceExecFns;

verus! {

/// A file has arrived in an inbox.
pub struct FileReceivedEvent {
    pub inbox_name: String,
    pub relative_path: String,
}

/// How long, in milliseconds, a group of arrivals stays quiet before it is announced.
pub const QUIET_MS: u64 = 10_000;

/// An announcement of arrivals to show the user.
#[derive(PartialEq, Eq, Debug)]
pub enum Toast {
    /// One file or folder entry arrived.
    Item { inbox: String, root: String },
    /// Several files arrived under one top-level entry.
    Folder { inbox: String, root: String, others: usize },
}

/// Arrivals in one inbox under one top-level entry that are not announced yet.
pub struct PendingNotification {
    pub inbox: String,
    pub root: String,
    pub file_count: usize,
    pub last_update: u64,
}

/// The part of a relative path before its first `/` or `\`.
pub open spec fn root_of(path: Seq<char>) -> Seq<char> {
    if exists|i: int| 0 <= i < path.len() && (path[i] == '/' || path[i] == '\\') {
        let i = choose|i: int| 0 <= i < path.len() && (path[i] == '/' || path[i] == '\\')
            && forall|k: int| 0 <= k < i ==> path[k] != '/' && path[k] != '\\';
        path.take(i)
    } else {
        path
    }
}

/// The top-level entry of a received path: what comes before its first separator.
pub fn root_item(path: &str) -> (res: String)
    ensures
        res@ == root_of(path@),
{
    let n = path.unicode_len();
    let mut i: usize = 0;
    while i < n
        invariant
            n == path@.len(),
            i <= n,
            forall|k: int| 0 <= k < i ==> path@[k] != '/' && path@[k] != '\\',
        decreases n - i,
    {
        let c = path.get_char(i);
        if c == '/' || c == '\\' {
            let ghost j = choose|j: int| 0 <= j < path@.len() && (path@[j] == '/' || path@[j] == '\\')
                && forall|k: int| 0 <= k < j ==> path@[k] != '/' && path@[k] != '\\';
            proof {
                assert(0 <= i < path@.len() && (path@[i as int] == '/' || path@[i as int] == '\\')
                    && forall|k: int| 0 <= k < i ==> path@[k] != '/' && path@[k] != '\\');
                if j < i {
                    assert(path@[j] != '/' && path@[j] != '\\');
                }
                if j > i {
                    assert(path@[i as int] != '/' && path@[i as int] != '\\');
                }
            }
            return path.substring_char(0, i).to_string();
        }
        i = i + 1;
    }
    path.to_string()
}

/// Arrivals waiting to be announced, grouped by inbox and top-level entry.
pub struct NotificationDebouncer {
    pending: Vec<PendingNotification>,
}

/// The group `(inbox, root)` is at position `i` of `p`.
pub open spec fn group_at(p: Seq<PendingNotification>, inbox: Seq<char>, root: Seq<char>, i: int) -> bool {
    0 <= i < p.len() && p[i].inbox@ == inbox && p[i].root@ == root
}

/// The announcement for a group of `count` files.
pub open spec fn toast_for(inbox: Seq<char>, root: Seq<char>, count: usize, t: Toast) -> bool {
    if count == 1 {
        t matches Toast::Item { inbox: i, root: r } && i@ == inbox && r@ == root
    } else {
        t matches Toast::Folder { inbox: i, root: r, others } && i@ == inbox && r@ == root && others == count - 1
    }
}

/// The announcement of a group tells its size: one file is announced as an item,
/// and `n` files, `n` two or more, as a folder and `n - 1` others, so that the
/// named entry and the others add up to every file of the group.
pub proof fn lemma_toast_counts(inbox: Seq<char>, root: Seq<char>, count: usize, t: Toast)
    requires
        toast_for(inbox, root, count, t),
    ensures
        match t {
            Toast::Item { inbox: i, root: r } => count == 1 && i@ == inbox && r@ == root,
            Toast::Folder { inbox: i, root: r, others } => others + 1 == count && count >= 2
                && i@ == inbox && r@ == root,
        },
{
}

/// The groups of `s` that are not due at `now`.
pub open spec fn waiting_part(s: Seq<PendingNotification>, now: u64) -> Seq<PendingNotification> {
    s.filter(|g: PendingNotification| !is_due(g, now))
}

/// The groups of `s` that are due at `now`.
pub open spec fn due_part(s: Seq<PendingNotification>, now: u64) -> Seq<PendingNotification> {
    s.filter(|g: PendingNotification| is_due(g, now))
}

proof fn lemma_parts_push(s: Seq<PendingNotification>, g: PendingNotification, now: u64)
    ensures
        waiting_part(s.push(g), now) == (if is_due(g, now) { waiting_part(s, now) } else { waiting_part(s, now).push(g) }),
        due_part(s.push(g), now) == (if is_due(g, now) { due_part(s, now).push(g) } else { due_part(s, now) }),
{
    s.lemma_filter_push(g, |x: PendingNotification| !is_due(x, now));
    s.lemma_filter_push(g, |x: PendingNotification| is_due(x, now));
}

proof fn lemma_waiting_part_contains(s: Seq<PendingNotification>, now: u64, x: PendingNotification)
    requires
        waiting_part(s, now).contains(x),
    ensures
        s.contains(x),
{
    s.lemma_filter_contains_rev(|g: PendingNotification| !is_due(g, now), x);
}

/// `a` and `b` gather the arrivals of the same inbox and top-level entry.
pub open spec fn same_group(a: PendingNotification, b: PendingNotification) -> bool {
    a.inbox@ == b.inbox@ && a.root@ == b.root@
}

/// A group that has been quiet long enough at `now`.
pub open spec fn is_due(g: PendingNotification, now: u64) -> bool {
    now >= g.last_update && now - g.last_update >= QUIET_MS
}

impl NotificationDebouncer {
    /// The groups waiting, in the order they were opened.
    pub closed spec fn groups(&self) -> Seq<PendingNotification> {
        self.pending@
    }

    /// Each group appears once and counts at least one file.
    pub closed spec fn wf(&self) -> bool {
        &&& forall|i: int, j: int| 0 <= i < self.pending@.len() && 0 <= j < self.pending@.len() && i != j ==>
            !same_group(#[trigger] self.pending@[i], #[trigger] self.pending@[j])
        &&& forall|i: int| 0 <= i < self.pending@.len() ==> (#[trigger] self.pending@[i]).file_count >= 1
    }

    pub fn new() -> (res: NotificationDebouncer)
        ensures
            res.wf(),
            res.groups() == Seq::<PendingNotification>::empty(),
    {
        NotificationDebouncer { pending: Vec::new() }
    }

    /// Whether every group can count one more file.
    pub fn has_room(&self) -> (res: bool)
        ensures
            res == forall|i: int| 0 <= i < self.groups().len() ==> (#[trigger] self.groups()[i]).file_count < usize::MAX,
    {
        let mut i: usize = 0;
        while i < self.pending.len()
            invariant
                i <= self.pending@.len(),
                forall|k: int| 0 <= k < i ==> (#[trigger] self.pending@[k]).file_count < usize::MAX,
            decreases self.pending@.len() - i,
        {
            if self.pending[i].file_count == usize::MAX {
                assert(self.groups()[i as int].file_count == usize::MAX);
                return false;
            }
            i = i + 1;
        }
        true
    }

    /// A file arrived at time `now`: it joins the group of its inbox and top-level
    /// entry, which is opened if needed; the group counts it and is quiet from `now`.
    pub fn on_file_received(&mut self, event: FileReceivedEvent, now: u64)
        requires
            old(self).wf(),
            forall|i: int| 0 <= i < old(self).groups().len() ==> (#[trigger] old(self).groups()[i]).file_count < usize::MAX,
        ensures
            final(self).wf(),
            ({
                let root = root_of(event.relative_path@);
                let inbox = event.inbox_name@;
                if exists|i: int| group_at(old(self).groups(), inbox, root, i) {
                    forall|i: int| #[trigger] group_at(old(self).groups(), inbox, root, i) ==>
                        final(self).groups() == old(self).groups().update(i, PendingNotification {
                            file_count: (old(self).groups()[i].file_count + 1) as usize,
                            last_update: now,
                            ..old(self).groups()[i]
                        })
                } else {
                    &&& final(self).groups().len() == old(self).groups().len() + 1
                    &&& final(self).groups().take(old(self).groups().len() as int) == old(self).groups()
                    &&& final(self).groups().last().inbox@ == inbox
                    &&& final(self).groups().last().root@ == root
                    &&& final(self).groups().last().file_count == 1
                    &&& final(self).groups().last().last_update == now
                }
            }),
    {
        let root = root_item(event.relative_path.as_str());
        let ghost p0 = self.pending@;
        let mut i: usize = 0;
        while i < self.pending.len()
            invariant
                i <= self.pending@.len(),
                self.pending@ == p0,
                p0 == old(self).pending@,
                root@ == root_of(event.relative_path@),
                forall|k: int| 0 <= k < p0.len() ==> (#[trigger] p0[k]).file_count < usize::MAX,
                forall|k: int| 0 <= k < p0.len() ==> (#[trigger] p0[k]).file_count >= 1,
                forall|a: int, b: int| 0 <= a < p0.len() && 0 <= b < p0.len() && a != b ==>
                    !same_group(#[trigger] p0[a], #[trigger] p0[b]),
                forall|k: int| 0 <= k < i ==> !(p0[k].inbox@ == event.inbox_name@ && p0[k].root@ == root@),
            decreases self.pending@.len() - i,
        {
            if self.pending[i].inbox == event.inbox_name && self.pending[i].root == root {
                let mut g = self.pending.remove(i);
                g.file_count = g.file_count + 1;
                g.last_update = now;
                self.pending.insert(i, g);
                proof {
                    assert(g == (PendingNotification {
                        file_count: (p0[i as int].file_count + 1) as usize,
                        last_update: now,
                        ..p0[i as int]
                    }));
                    assert(self.pending@ =~= p0.update(i as int, g));
                    assert forall|j: int| #[trigger] group_at(p0, event.inbox_name@, root@, j) implies j == i by {
                        if j != i {
                            assert(!same_group(p0[j], p0[i as int]));
                        }
                    }
                    assert(group_at(p0, event.inbox_name@, root@, i as int));
                    assert forall|j: int| #[trigger] group_at(p0, event.inbox_name@, root@, j) implies
                        self.pending@ == p0.update(j, PendingNotification {
                            file_count: (p0[j].file_count + 1) as usize,
                            last_update: now,
                            ..p0[j]
                        }) by {}
                }
                return;
            }
            i = i + 1;
        }
        let g = PendingNotification { inbox: event.inbox_name, root, file_count: 1, last_update: now };
        self.pending.push(g);
        proof {
            assert(self.pending@ =~= p0.push(g));
            assert(self.pending@.take(p0.len() as int) =~= p0);
            assert(!exists|j: int| group_at(p0, g.inbox@, g.root@, j));
        }
    }

    /// Time `now` has come: every group quiet for `QUIET_MS` or more is announced and
    /// closed; the others wait on unchanged.
    pub fn on_tick(&mut self, now: u64) -> (toasts: Vec<Toast>)
        requires
            old(self).wf(),
        ensures
            final(self).wf(),
            final(self).groups() == waiting_part(old(self).groups(), now),
            toasts@.len() == due_part(old(self).groups(), now).len(),
            forall|k: int| 0 <= k < toasts@.len() ==> {
                let g = due_part(old(self).groups(), now)[k];
                toast_for(g.inbox@, g.root@, g.file_count, #[trigger] toasts@[k])
            },
            forall|k: int| 0 <= k < toasts@.len() ==> {
                let g = due_part(old(self).groups(), now)[k];
                match #[trigger] toasts@[k] {
                    Toast::Item { inbox, root } => g.file_count == 1 && inbox@ == g.inbox@ && root@ == g.root@,
                    Toast::Folder { inbox, root, others } => others + 1 == g.file_count && g.file_count >= 2
                        && inbox@ == g.inbox@ && root@ == g.root@,
                }
            },
    {
        let ghost p0 = self.pending@;
        let mut kept: Vec<PendingNotification> = Vec::new();
        let mut toasts: Vec<Toast> = Vec::new();
        let mut rest = Vec::new();
        std::mem::swap(&mut rest, &mut self.pending);
        while rest.len() > 0
            invariant
                rest@.len() <= p0.len(),
                rest@ == p0.skip(p0.len() - rest@.len()),
                kept@ == waiting_part(p0.take(p0.len() - rest@.len()), now),
                forall|i: int, j: int| 0 <= i < p0.len() && 0 <= j < p0.len() && i != j ==>
                    !same_group(#[trigger] p0[i], #[trigger] p0[j]),
                forall|i: int| 0 <= i < p0.len() ==> (#[trigger] p0[i]).file_count >= 1,
                forall|i: int| 0 <= i < kept@.len() ==> (#[trigger] kept@[i]).file_count >= 1,
                forall|i: int, j: int| 0 <= i < kept@.len() && 0 <= j < kept@.len() && i != j ==>
                    !same_group(#[trigger] kept@[i], #[trigger] kept@[j]),
                toasts@.len() == due_part(p0.take(p0.len() - rest@.len()), now).len(),
                forall|k: int| 0 <= k < toasts@.len() ==> {
                    let g = due_part(p0.take(p0.len() - rest@.len()), now)[k];
                    toast_for(g.inbox@, g.root@, g.file_count, #[trigger] toasts@[k])
                },
            decreases rest@.len(),
        {
            let ghost done = p0.take(p0.len() - rest@.len());
            let ghost r_before = rest@;
            let g = rest.remove(0);
            proof {
                assert(r_before[0] == p0[done.len() as int]);
                assert(g == p0[done.len() as int]);
                assert(rest@ =~= p0.skip(p0.len() - rest@.len()));
                assert(p0.take(done.len() + 1int) =~= done.push(g));
                lemma_parts_push(done, g, now);
            }
            if now >= g.last_update && now - g.last_update >= QUIET_MS {
                let t = if g.file_count == 1 {
                    Toast::Item { inbox: g.inbox, root: g.root }
                } else {
                    Toast::Folder { inbox: g.inbox, root: g.root, others: g.file_count - 1 }
                };
                toasts.push(t);
            } else {
                proof {
                    assert forall|i: int| 0 <= i < kept@.len() implies
                        !(kept@[i].inbox@ == g.inbox@ && kept@[i].root@ == g.root@) by {
                        assert(kept@.contains(kept@[i]));
                        lemma_waiting_part_contains(done, now, kept@[i]);
                        assert(done.contains(kept@[i]));
                        let j = choose|j: int| 0 <= j < done.len() && done[j] == kept@[i];
                        assert(p0[j] == kept@[i]);
                        assert(j != done.len());
                    }
                }
                let ghost k0 = kept@;
                kept.push(g);
                proof {
                    assert forall|i: int, j: int| 0 <= i < kept@.len() && 0 <= j < kept@.len() && i != j implies
                        !same_group(#[trigger] kept@[i], #[trigger] kept@[j]) by {
                        if i < k0.len() && j < k0.len() {
                            assert(kept@[i] == k0[i] && kept@[j] == k0[j]);
                        }
                    }
                }
            }
        }
        assert(p0.take(p0.len() as int) =~= p0);
        proof {
            assert forall|k: int| 0 <= k < toasts@.len() implies {
                let g = due_part(p0, now)[k];
                match #[trigger] toasts@[k] {
                    Toast::Item { inbox, root } => g.file_count == 1 && inbox@ == g.inbox@ && root@ == g.root@,
                    Toast::Folder { inbox, root, others } => others + 1 == g.file_count && g.file_count >= 2
                        && inbox@ == g.inbox@ && root@ == g.root@,
                }
            } by {
                let g = due_part(p0, now)[k];
                lemma_toast_counts(g.inbox@, g.root@, g.file_count, toasts@[k]);
            }
        }
        self.pending = kept;
        toasts
    }
}

} // verus!
