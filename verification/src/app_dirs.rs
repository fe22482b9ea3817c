use vstd::prelude::*;

use crate::paths::path_view;

verus! {

/// The folders of the program, each as its path components.
pub struct AppDirs {
    pub root: Vec<String>,
    pub inbox: Vec<String>,
    pub send: Vec<String>,
}

/// `dir` with one more component.
fn child(dir: &Vec<String>, name: &str) -> (res: Vec<String>)
    ensures
        path_view(res@) == path_view(dir@).push(name@),
{
    let mut res: Vec<String> = Vec::new();
    let mut i: usize = 0;
    while i < dir.len()
        invariant
            i <= dir@.len(),
            path_view(res@) == path_view(dir@).take(i as int),
        decreases dir@.len() - i,
    {
        let c = dir[i].clone();
        let ghost before = res@;
        res.push(c);
        assert(path_view(res@) =~= path_view(before).push(c@));
        assert(path_view(res@) =~= path_view(dir@).take(i + 1));
        i = i + 1;
    }
    let ghost before = res@;
    let c = name.to_string();
    res.push(c);
    assert(path_view(res@) =~= path_view(before).push(name@));
    assert(path_view(dir@).take(dir@.len() as int) =~= path_view(dir@));
    res
}

impl AppDirs {
    /// The layout under `root`: `inbox` and `send` beside each other.
    pub fn from_root(root: Vec<String>) -> (res: AppDirs)
        ensures
            path_view(res.root@) == path_view(root@),
            path_view(res.inbox@) == path_view(root@).push("inbox"@),
            path_view(res.send@) == path_view(root@).push("send"@),
    {
        let inbox = child(&root, "inbox");
        let send = child(&root, "send");
        AppDirs { root, inbox, send }
    }

    /// Where the configuration file lies.
    pub fn config_path(&self) -> (res: Vec<String>)
        ensures
            path_view(res@) == path_view(self.root@).push("config.toml"@),
    {
        child(&self.root, "config.toml")
    }
}

} // verus!
