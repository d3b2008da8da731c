use vstd::prelude::*;

use unicode_normalization::UnicodeNormalization;
use vstd::string::StrSliceExecFns;

verus! {

/// Unicode Normalization Form C of a sequence of characters.
pub uninterp spec fn nfc_of(s: Seq<char>) -> Seq<char>;

/// Relies on unicode_normalization's `nfc`: canonical decomposition
/// followed by canonical composition, a function of the characters alone.
#[verifier::external_body]
pub fn nfc_normalize(s: &str) -> (r: String)
    ensures
        r@ == nfc_of(s@),
{
    s.nfc().collect()
}

/// The index where the last path component begins: just after the last
/// separator, or the start of the string when it has none.
pub open spec fn basename_start(s: Seq<char>) -> int
    decreases s.len(),
{
    if s.len() == 0 {
        0
    } else if s[s.len() - 1] == '/' {
        s.len() as int
    } else {
        basename_start(s.drop_last())
    }
}

proof fn lemma_basename_start(s: Seq<char>, i: int)
    requires
        0 <= i <= s.len(),
        forall|k: int| i <= k < s.len() ==> s[k] != '/',
        i > 0 ==> s[i - 1] == '/',
    ensures
        basename_start(s) == i,
    decreases s.len(),
{
    if s.len() == 0 {
    } else if s[s.len() - 1] == '/' {
    } else {
        assert(i < s.len() || i == s.len());
        if i == s.len() {
            assert(s[i - 1] != '/');
            assert(false);
        }
        lemma_basename_start(s.drop_last(), i);
    }
}

/// The display name of a path: its last component, Unicode-normalized for
/// cross-platform stability.
pub fn name(path: &str) -> (r: String)
    ensures
        r@ == nfc_of(path@.skip(basename_start(path@))),
{
    let n = path.unicode_len();
    let mut i: usize = 0;
    let mut start: usize = 0;
    while i < n
        invariant
            start <= i <= n,
            n as nat == path@.len(),
            start > 0 ==> path@[start - 1] == '/',
            forall|k: int| start <= k < i ==> path@[k] != '/',
        decreases n - i,
    {
        if path.get_char(i) == '/' {
            start = i + 1;
        }
        i = i + 1;
    }
    proof {
        lemma_basename_start(path@, start as int);
    }
    let base = path.substring_char(start, n);
    proof {
        assert(base@ =~= path@.skip(start as int));
    }
    nfc_normalize(base)
}

/// The whole path, Unicode-normalized for display and comparison.
pub fn absolute_path(path: &str) -> (r: String)
    ensures
        r@ == nfc_of(path@),
{
    nfc_normalize(path)
}

} // verus!
