use vstd::prelude::*;

use crate::strings::{contains_string, dedup_strings, views};

verus! {

/// The inboxes of this peer: the names of the folders inside its inbox folder.
pub struct LocalInboxes {
    folders: Vec<String>,
}

impl LocalInboxes {
    /// The names of the inboxes.
    pub closed spec fn names(&self) -> Set<Seq<char>> {
        views(self.folders@).to_set()
    }

    /// No name twice.
    pub closed spec fn wf(&self) -> bool {
        views(self.folders@).no_duplicates()
    }

    /// No inboxes yet.
    pub fn new() -> (res: LocalInboxes)
        ensures
            res.wf(),
            res.names() == Set::<Seq<char>>::empty(),
    {
        let res = LocalInboxes { folders: Vec::new() };
        assert(res.names() =~= Set::<Seq<char>>::empty());
        res
    }

    /// A fresh scan of the inbox folder found the folders `names`: they are now the
    /// inboxes, and no others.
    pub fn replace_all(&mut self, names: Vec<String>)
        ensures
            final(self).wf(),
            final(self).names() == views(names@).to_set(),
    {
        self.folders = dedup_strings(names);
    }

    /// Whether `name` is one of the inboxes.
    pub fn contains(&self, name: &String) -> (res: bool)
        ensures
            res == self.names().contains(name@),
    {
        contains_string(&self.folders, name)
    }

    /// The inboxes, each once, to announce to the network.
    pub fn list(&self) -> (res: Vec<String>)
        requires
            self.wf(),
        ensures
            views(res@).no_duplicates(),
            views(res@).to_set() == self.names(),
    {
        let mut res: Vec<String> = Vec::new();
        let mut i: usize = 0;
        while i < self.folders.len()
            invariant
                i <= self.folders@.len(),
                views(res@) == views(self.folders@).take(i as int),
            decreases self.folders@.len() - i,
        {
            let ghost before = res@;
            res.push(self.folders[i].clone());
            assert(views(res@) =~= views(before).push(self.folders@[i as int]@));
            assert(views(res@) =~= views(self.folders@).take(i + 1));
            i = i + 1;
        }
        assert(views(self.folders@).take(self.folders@.len() as int) =~= views(self.folders@));
        res
    }
}

} // verus!
