use vstd::prelude::*;

use crate::strings::views;

verus! {

/// A path as the sequence of its components, each as text.
pub open spec fn path_view(p: Seq<String>) -> Seq<Seq<char>> {
    views(p)
}

/// Whether two paths have the same components.
pub fn same_path(a: &Vec<String>, b: &Vec<String>) -> (res: bool)
    ensures
        res == (path_view(a@) == path_view(b@)),
{
    if a.len() != b.len() {
        assert(path_view(a@).len() != path_view(b@).len());
        return false;
    }
    let mut i: usize = 0;
    while i < a.len()
        invariant
            a@.len() == b@.len(),
            i <= a@.len(),
            forall|k: int| 0 <= k < i ==> a@[k]@ == b@[k]@,
        decreases a@.len() - i,
    {
        if a[i] != b[i] {
            assert(path_view(a@)[i as int] != path_view(b@)[i as int]);
            return false;
        }
        i = i + 1;
    }
    assert(path_view(a@) =~= path_view(b@));
    true
}

/// Whether `prefix` is where `path` starts: the components of `prefix` lead it.
pub fn starts_with(path: &Vec<String>, prefix: &Vec<String>) -> (res: bool)
    ensures
        res == (prefix@.len() <= path@.len() && path_view(path@).take(prefix@.len() as int) == path_view(prefix@)),
{
    if prefix.len() > path.len() {
        return false;
    }
    let mut i: usize = 0;
    while i < prefix.len()
        invariant
            prefix@.len() <= path@.len(),
            i <= prefix@.len(),
            forall|k: int| 0 <= k < i ==> path@[k]@ == prefix@[k]@,
        decreases prefix@.len() - i,
    {
        if path[i] != prefix[i] {
            assert(path_view(path@).take(prefix@.len() as int)[i as int] != path_view(prefix@)[i as int]);
            return false;
        }
        i = i + 1;
    }
    assert(path_view(path@).take(prefix@.len() as int) =~= path_view(prefix@));
    true
}

/// A copy of the components of `path` from `start` on.
pub fn components_from(path: &Vec<String>, start: usize) -> (res: Vec<String>)
    requires
        start <= path@.len(),
    ensures
        path_view(res@) == path_view(path@).skip(start as int),
{
    let mut res: Vec<String> = Vec::new();
    let mut i: usize = start;
    while i < path.len()
        invariant
            start <= i <= path@.len(),
            path_view(res@) == path_view(path@).subrange(start as int, i as int),
        decreases path@.len() - i,
    {
        let c = path[i].clone();
        let ghost before = res@;
        res.push(c);
        assert(res@ =~= before.push(c));
        assert(path_view(res@) =~= path_view(before).push(c@));
        assert(path_view(res@) =~= path_view(path@).subrange(start as int, i + 1));
        i = i + 1;
    }
    assert(path_view(path@).subrange(start as int, path@.len() as int) =~= path_view(path@).skip(start as int));
    res
}

/// A copy of the first `len` components of `path`.
pub fn components_to(path: &Vec<String>, len: usize) -> (res: Vec<String>)
    requires
        len <= path@.len(),
    ensures
        path_view(res@) == path_view(path@).take(len as int),
{
    let mut res: Vec<String> = Vec::new();
    let mut i: usize = 0;
    while i < len
        invariant
            i <= len <= path@.len(),
            path_view(res@) == path_view(path@).take(i as int),
        decreases len - i,
    {
        let c = path[i].clone();
        let ghost before = res@;
        res.push(c);
        assert(res@ =~= before.push(c));
        assert(path_view(res@) =~= path_view(before).push(c@));
        assert(path_view(res@) =~= path_view(path@).take(i + 1));
        i = i + 1;
    }
    res
}

/// Whether `path` lies directly inside `dir`.
pub fn is_direct_child(dir: &Vec<String>, path: &Vec<String>) -> (res: bool)
    ensures
        res == (path@.len() == dir@.len() + 1 && path_view(path@).take(dir@.len() as int) == path_view(dir@)),
{
    path.len() > 0 && path.len() - 1 == dir.len() && starts_with(path, dir)
}

} // verus!
