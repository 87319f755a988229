//! Pure algebra on path strings: joining a relative entry onto a
//! directory, taking the parent directory, and swapping the manifest
//! extension. Canonicalization itself is a filesystem question and so
//! is not here; these functions only rearrange characters.

use vstd::prelude::*;

verus! {

/// Index of the last occurrence of `c` in `s`, or `-1` when `c` does
/// not occur.
pub open spec fn last_index_of(s: Seq<char>, c: char) -> int
    decreases s.len(),
{
    if s.len() == 0 {
        -1
    } else if s[s.len() - 1] == c {
        s.len() - 1
    } else {
        last_index_of(s.drop_last(), c)
    }
}

pub proof fn lemma_last_index_of_bounds(s: Seq<char>, c: char)
    ensures
        -1 <= last_index_of(s, c) < s.len(),
        last_index_of(s, c) >= 0 ==> s[last_index_of(s, c)] == c,
    decreases s.len(),
{
    if s.len() == 0 {
    } else if s[s.len() - 1] == c {
    } else {
        lemma_last_index_of_bounds(s.drop_last(), c);
    }
}

/// Joining a reference onto a directory: an absolute reference stands
/// alone; otherwise a single separator goes between, unless the
/// directory already ends with one (the root directory does).
pub open spec fn join_spec(dir: Seq<char>, rel: Seq<char>) -> Seq<char> {
    if rel.len() > 0 && rel[0] == '/' {
        rel
    } else if dir.len() > 0 && dir[dir.len() - 1] == '/' {
        dir + rel
    } else {
        dir + "/"@ + rel
    }
}

/// The directory holding `p`: everything before the last separator,
/// the root itself when the last separator leads, and empty when `p`
/// has no separator at all.
pub open spec fn parent_spec(p: Seq<char>) -> Seq<char> {
    let i = last_index_of(p, '/');
    if i < 0 {
        Seq::<char>::empty()
    } else if i == 0 {
        "/"@
    } else {
        p.take(i)
    }
}

/// `p` with its final component's extension replaced by `yaml`: the
/// part from the last dot of the final component on is replaced by
/// `.yaml`, or `.yaml` is appended when the component has no extension
/// (no dot, or only a leading dot). A path whose final component is
/// empty is left unchanged.
pub open spec fn set_yaml_spec(p: Seq<char>) -> Seq<char> {
    let start = last_index_of(p, '/') + 1;
    let name = p.skip(start);
    let d = last_index_of(name, '.');
    if name.len() == 0 {
        p
    } else if d > 0 {
        p.take(start + d) + ".yaml"@
    } else {
        p + ".yaml"@
    }
}

/// Index of the last occurrence of `c` in `s`, if any.
fn rfind_char(s: &str, c: char) -> (r: Option<usize>)
    ensures
        match r {
            Some(i) => last_index_of(s@, c) == i as int,
            None => last_index_of(s@, c) == -1,
        },
{
    let n = s.unicode_len();
    proof {
        assert(s@.take(n as int) =~= s@);
    }
    let mut i: usize = n;
    while i > 0
        invariant
            i <= n,
            n == s@.len(),
            last_index_of(s@, c) == last_index_of(s@.take(i as int), c),
        decreases i,
    {
        i = i - 1;
        if s.get_char(i) == c {
            proof {
                assert(s@.take(i as int + 1).last() == c);
            }
            return Some(i);
        }
        proof {
            assert(s@.take(i as int + 1).last() != c);
            assert(s@.take(i as int + 1).drop_last() =~= s@.take(i as int));
        }
    }
    proof {
        assert(s@.take(0) =~= Seq::<char>::empty());
    }
    None
}

/// Join a reference onto a directory, as `join_spec` says.
pub fn join(dir: &str, rel: &str) -> (r: String)
    ensures
        r@ == join_spec(dir@, rel@),
{
    let nr = rel.unicode_len();
    if nr > 0 && rel.get_char(0) == '/' {
        return rel.to_owned();
    }
    let nd = dir.unicode_len();
    if nd > 0 && dir.get_char(nd - 1) == '/' {
        return dir.to_owned().concat(rel);
    }
    dir.to_owned().concat("/").concat(rel)
}

/// The parent directory of `p`, as `parent_spec` says.
pub fn parent_dir(p: &str) -> (r: String)
    ensures
        r@ == parent_spec(p@),
{
    proof {
        lemma_last_index_of_bounds(p@, '/');
    }
    match rfind_char(p, '/') {
        None => String::new(),
        Some(i) => {
            if i == 0 {
                "/".to_owned()
            } else {
                p.substring_char(0, i).to_owned()
            }
        },
    }
}

/// `p` with its extension replaced by `yaml`, as `set_yaml_spec` says.
pub fn set_yaml_ext(p: &str) -> (r: String)
    ensures
        r@ == set_yaml_spec(p@),
{
    let n = p.unicode_len();
    proof {
        lemma_last_index_of_bounds(p@, '/');
    }
    let start: usize = match rfind_char(p, '/') {
        Some(i) => i + 1,
        None => 0,
    };
    if start == n {
        return p.to_owned();
    }
    let name = p.substring_char(start, n);
    proof {
        assert(name@ =~= p@.skip(start as int));
        lemma_last_index_of_bounds(name@, '.');
    }
    match rfind_char(name, '.') {
        Some(d) if d > 0 => {
            let stem = p.substring_char(0, start + d);
            stem.to_owned().concat(".yaml")
        },
        _ => p.to_owned().concat(".yaml"),
    }
}

} // verus!
