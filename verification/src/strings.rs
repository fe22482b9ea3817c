use vstd::prelude::*;
use vstd::utf8::{decode_utf8, valid_utf8};

verus! {

/// The character sequences of a list of strings.
pub open spec fn views(v: Seq<String>) -> Seq<Seq<char>> {
    v.map_values(|s: String| s@)
}

/// Whether `v` holds a string equal to `s`.
pub fn contains_string(v: &Vec<String>, s: &String) -> (res: bool)
    ensures
        res == views(v@).contains(s@),
{
    let mut i: usize = 0;
    while i < v.len()
        invariant
            i <= v.len(),
            forall|k: int| 0 <= k < i ==> v@[k]@ != s@,
        decreases v.len() - i,
    {
        if v[i] == *s {
            assert(views(v@)[i as int] == s@);
            return true;
        }
        i = i + 1;
    }
    assert forall|k: int| 0 <= k < views(v@).len() implies views(v@)[k] != s@ by {}
    false
}

/// The strings of `v` with later repetitions left out.
pub fn dedup_strings(v: Vec<String>) -> (res: Vec<String>)
    ensures
        views(res@).no_duplicates(),
        views(res@).to_set() == views(v@).to_set(),
{
    let mut res: Vec<String> = Vec::new();
    let mut i: usize = 0;
    while i < v.len()
        invariant
            i <= v.len(),
            views(res@).no_duplicates(),
            forall|x: Seq<char>| views(res@).contains(x) <==> views(v@.subrange(0, i as int)).contains(x),
        decreases v.len() - i,
    {
        let s = v[i].clone();
        let ghost before = res@;
        if !contains_string(&res, &s) {
            res.push(s);
            assert(views(res@) =~= views(before).push(s@));
        }
        assert forall|x: Seq<char>| views(res@).contains(x) <==> views(v@.subrange(0, i + 1)).contains(x) by {
            let prefix = views(v@.subrange(0, i as int));
            assert(views(v@.subrange(0, i + 1)) =~= prefix.push(s@));
            assert(prefix.push(s@)[prefix.len() as int] == s@);
            if x == s@ {
                if !views(before).contains(s@) {
                    assert(views(res@)[views(res@).len() - 1] == s@);
                }
            } else {
                assert(views(res@).contains(x) <==> views(before).contains(x)) by {
                    if views(res@).contains(x) {
                        let k = choose|k: int| 0 <= k < views(res@).len() && views(res@)[k] == x;
                        assert(views(before)[k] == x);
                    }
                    if views(before).contains(x) {
                        let k = choose|k: int| 0 <= k < views(before).len() && views(before)[k] == x;
                        assert(views(res@)[k] == x);
                    }
                }
                assert(prefix.push(s@).contains(x) <==> prefix.contains(x)) by {
                    if prefix.push(s@).contains(x) {
                        let k = choose|k: int| 0 <= k < prefix.len() + 1 && prefix.push(s@)[k] == x;
                        assert(prefix[k] == x);
                    }
                    if prefix.contains(x) {
                        let k = choose|k: int| 0 <= k < prefix.len() && prefix[k] == x;
                        assert(prefix.push(s@)[k] == x);
                    }
                }
            }
        }
        i = i + 1;
    }
    assert(v@.subrange(0, v@.len() as int) =~= v@);
    assert(views(res@).to_set() =~= views(v@).to_set());
    res
}

/// `String::from_utf8` of std: the bytes as a string when they are valid UTF-8.
/// Claimed: `Some` exactly for valid UTF-8, holding the decoded characters; std's
/// documentation says that it fails if and only if the bytes are not UTF-8.
#[verifier::external_body]
pub(crate) fn string_from_utf8(bytes: Vec<u8>) -> (res: Option<String>)
    ensures
        res is Some <==> valid_utf8(bytes@),
        res matches Some(s) ==> s@ == decode_utf8(bytes@),
{
    String::from_utf8(bytes).ok()
}

} // verus!
