use vstd::prelude::*;

use vstd::string::{StrSliceExecFns, StringExecFns};

verus! {

/// Character-exact string equality.
pub fn str_eq(a: &str, b: &str) -> (r: bool)
    ensures
        r == (a@ == b@),
{
    let la = a.unicode_len();
    let lb = b.unicode_len();
    if la != lb {
        return false;
    }
    let mut i: usize = 0;
    while i < la
        invariant
            i <= la,
            la as nat == a@.len(),
            la as nat == b@.len(),
            forall|k: int| 0 <= k < i ==> a@[k] == b@[k],
        decreases la - i,
    {
        if a.get_char(i) != b.get_char(i) {
            return false;
        }
        i = i + 1;
    }
    proof {
        assert(a@ =~= b@);
    }
    true
}

/// `prefix` is an initial run of whole path components of `path`: the
/// characters match and the match ends at a separator or at the end.
pub open spec fn component_prefixed(path: Seq<char>, prefix: Seq<char>) -> bool {
    &&& prefix.len() <= path.len()
    &&& path.subrange(0, prefix.len() as int) == prefix
    &&& (path.len() == prefix.len() || path[prefix.len() as int] == '/')
}

pub fn has_component_prefix(path: &str, prefix: &str) -> (r: bool)
    ensures
        r == component_prefixed(path@, prefix@),
{
    let lp = path.unicode_len();
    let lpre = prefix.unicode_len();
    if lp < lpre {
        return false;
    }
    let mut i: usize = 0;
    while i < lpre
        invariant
            i <= lpre,
            lpre as nat == prefix@.len(),
            lp as nat == path@.len(),
            lpre <= lp,
            forall|k: int| 0 <= k < i ==> path@[k] == prefix@[k],
        decreases lpre - i,
    {
        if path.get_char(i) != prefix.get_char(i) {
            proof {
                assert(path@.subrange(0, prefix@.len() as int) != prefix@) by {
                    assert(path@.subrange(0, prefix@.len() as int)[i as int] != prefix@[i as int]);
                }
            }
            return false;
        }
        i = i + 1;
    }
    proof {
        assert(path@.subrange(0, prefix@.len() as int) =~= prefix@);
    }
    if lp == lpre {
        true
    } else {
        path.get_char(lpre) == '/'
    }
}

/// The position of the first path separator at or after `start`, or the
/// end of the string.
pub open spec fn first_component_end(s: Seq<char>, start: int) -> int
    decreases s.len() - start,
{
    if start < 0 || start >= s.len() {
        s.len() as int
    } else if s[start] == '/' {
        start
    } else {
        first_component_end(s, start + 1)
    }
}

proof fn lemma_first_component_end(s: Seq<char>, start: int, i: int)
    requires
        0 <= start <= i <= s.len(),
        forall|k: int| start <= k < i ==> s[k] != '/',
        i < s.len() ==> s[i] == '/',
    ensures
        first_component_end(s, start) == i,
    decreases i - start,
{
    if start == i {
    } else {
        lemma_first_component_end(s, start + 1, i);
    }
}

pub fn find_component_end(s: &str, start: usize) -> (r: usize)
    requires
        start <= s@.len(),
    ensures
        r == first_component_end(s@, start as int),
        start <= r <= s@.len(),
{
    let n = s.unicode_len();
    let mut i: usize = start;
    while i < n
        invariant
            start <= i <= n,
            n as nat == s@.len(),
            forall|k: int| start <= k < i ==> s@[k] != '/',
        decreases n - i,
    {
        if s.get_char(i) == '/' {
            proof {
                lemma_first_component_end(s@, start as int, i as int);
            }
            return i;
        }
        i = i + 1;
    }
    proof {
        lemma_first_component_end(s@, start as int, n as int);
    }
    n
}

/// An absolute path of an entry inside a directory: the directory's path,
/// a separator, the entry's name.
pub open spec fn spec_join(dir: Seq<char>, name: Seq<char>) -> Seq<char> {
    dir + seq!['/'] + name
}

pub fn join_path(dir: &str, name: &str) -> (r: String)
    ensures
        r@ == spec_join(dir@, name@),
{
    proof {
        reveal_strlit("/");
        assert("/"@ =~= seq!['/']);
    }
    let mut s = dir.to_owned();
    s.append("/");
    s.append(name);
    s
}

} // verus!
