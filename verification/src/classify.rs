//! Classification of a `resources` entry: a remote locator (skipped by
//! the walk) versus a local relative path (followed).

use vstd::prelude::*;

verus! {

/// `pre` is an initial segment of `s`.
pub open spec fn is_prefix_of(pre: Seq<char>, s: Seq<char>) -> bool {
    pre.len() <= s.len() && s.take(pre.len() as int) == pre
}

/// A reference is remote (and so is skipped, never followed) exactly
/// when it starts with one of the fixed recognized locator prefixes:
/// the network and version-control URL schemes, or the bare hosting
/// hostname form.
pub open spec fn is_remote(s: Seq<char>) -> bool {
    ||| is_prefix_of("git://"@, s)
    ||| is_prefix_of("http://"@, s)
    ||| is_prefix_of("https://"@, s)
    ||| is_prefix_of("github.com"@, s)
}

/// `s` starts with `pre`, decided character by character.
fn has_prefix(s: &str, pre: &str) -> (r: bool)
    ensures
        r == is_prefix_of(pre@, s@),
{
    let n = pre.unicode_len();
    let m = s.unicode_len();
    if n > m {
        assert(!is_prefix_of(pre@, s@));
        return false;
    }
    let mut i: usize = 0;
    while i < n
        invariant
            i <= n,
            n == pre@.len(),
            n <= m,
            m == s@.len(),
            forall|j: int| 0 <= j < i ==> s@[j] == pre@[j],
        decreases n - i,
    {
        if s.get_char(i) != pre.get_char(i) {
            assert(s@.take(n as int)[i as int] != pre@[i as int]);
            return false;
        }
        i = i + 1;
    }
    assert(s@.take(n as int) =~= pre@);
    true
}

/// Whether a `resources` entry denotes a remote locator that the walk
/// must skip rather than follow.
pub fn unsupported(resource: &str) -> (r: bool)
    ensures
        r == is_remote(resource@),
{
    has_prefix(resource, "git://") || has_prefix(resource, "http://")
        || has_prefix(resource, "https://") || has_prefix(resource, "github.com")
}

} // verus!
