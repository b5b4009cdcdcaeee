use vstd::prelude::*;

use crate::strutil::{append_str, push_char, string_of};

verus! {

/// A path is absolute when it starts with a slash. Paths are modeled as
/// strings with `/` separators throughout the library.
pub open spec fn spec_is_abs(p: Seq<char>) -> bool {
    p.len() > 0 && p[0] == '/'
}

/// Joining a base directory and a relative path, inserting one slash unless
/// the base already ends with one or is empty.
pub open spec fn spec_join(base: Seq<char>, p: Seq<char>) -> Seq<char> {
    if base.len() == 0 {
        p
    } else if base[base.len() - 1] == '/' {
        base + p
    } else {
        base + seq!['/'] + p
    }
}

/// Component-wise prefix: `p` lies under the directory `pre` when it extends
/// it at a component boundary.
pub open spec fn spec_under_dir(p: Seq<char>, pre: Seq<char>) -> bool {
    &&& pre.len() <= p.len()
    &&& p.subrange(0, pre.len() as int) == pre
    &&& (p.len() == pre.len() || p[pre.len() as int] == '/' || (pre.len() > 0 && pre[pre.len()
        - 1] == '/'))
}

/// Where an asset destination may land: a relative destination goes under
/// the output directory; an absolute one is allowed only if it already lies
/// under the output directory; anything else escapes and is rejected.
pub open spec fn spec_resolve_dest(dest: Seq<char>, dist: Seq<char>) -> Option<Seq<char>> {
    if !spec_is_abs(dest) {
        Some(spec_join(dist, dest))
    } else if spec_under_dir(dest, dist) {
        Some(dest)
    } else {
        None
    }
}

pub fn is_absolute(p: &str) -> (r: bool)
    ensures
        r == spec_is_abs(p@),
{
    let n = p.unicode_len();
    n > 0 && p.get_char(0) == '/'
}

pub fn join_path(base: &str, p: &str) -> (r: String)
    ensures
        r@ == spec_join(base@, p@),
{
    let n = base.unicode_len();
    if n == 0 {
        return string_of(p);
    }
    let mut out = String::new();
    append_str(&mut out, base);
    if base.get_char(n - 1) != '/' {
        push_char(&mut out, '/');
    }
    append_str(&mut out, p);
    proof {
        if base@[base@.len() - 1] == '/' {
            assert(out@ =~= spec_join(base@, p@));
        } else {
            assert(out@ =~= base@ + seq!['/'] + p@);
        }
    }
    out
}

/// The index of the last occurrence of `c` in `p`, or -1 when absent.
pub open spec fn spec_last_index_of(p: Seq<char>, c: char) -> int
    decreases p.len(),
{
    if p.len() == 0 {
        -1
    } else if p.last() == c {
        p.len() - 1
    } else {
        spec_last_index_of(p.drop_last(), c)
    }
}

proof fn lemma_last_index_at(p: Seq<char>, c: char, i: int)
    requires
        0 <= i < p.len(),
        p[i] == c,
        forall|j: int| i < j < p.len() ==> p[j] != c,
    ensures
        spec_last_index_of(p, c) == i,
    decreases p.len(),
{
    if i == p.len() - 1 {
    } else {
        assert(p.last() != c);
        assert(p.drop_last()[i] == c);
        lemma_last_index_at(p.drop_last(), c, i);
    }
}

proof fn lemma_last_index_none(p: Seq<char>, c: char)
    requires
        forall|j: int| 0 <= j < p.len() ==> p[j] != c,
    ensures
        spec_last_index_of(p, c) == -1,
    decreases p.len(),
{
    if p.len() > 0 {
        lemma_last_index_none(p.drop_last(), c);
    }
}

fn last_index_of(p: &str, c: char) -> (r: Option<usize>)
    ensures
        (match r {
            Some(i) => i < p@.len() && spec_last_index_of(p@, c) == i,
            None => spec_last_index_of(p@, c) == -1,
        }),
{
    let n = p.unicode_len();
    let mut i: usize = n;
    while i > 0
        invariant
            0 <= i <= n,
            n == p@.len(),
            forall|j: int| i <= j < n ==> p@[j] != c,
        decreases i,
    {
        i = i - 1;
        if p.get_char(i) == c {
            proof {
                lemma_last_index_at(p@, c, i as int);
            }
            return Some(i);
        }
    }
    proof {
        lemma_last_index_none(p@, c);
    }
    None
}

/// A path with its extension replaced (or added): the final component's last
/// dot — unless it is the component's first character — marks the extension,
/// which is cut; then a dot and the new extension are appended.
pub open spec fn spec_replace_extension(p: Seq<char>, ext: Seq<char>) -> Seq<char> {
    let comp = spec_last_index_of(p, '/') + 1;
    let dot = spec_last_index_of(p, '.');
    if dot > comp {
        p.take(dot) + seq!['.'] + ext
    } else {
        p + seq!['.'] + ext
    }
}

pub fn replace_extension(p: &str, ext: &str) -> (r: String)
    ensures
        r@ == spec_replace_extension(p@, ext@),
{
    let n = p.unicode_len();
    let comp = match last_index_of(p, '/') {
        Some(i) => i + 1,
        None => 0,
    };
    let dot_at = last_index_of(p, '.');
    let keep = match dot_at {
        Some(d) => if d > comp {
            d
        } else {
            n
        },
        None => n,
    };
    let stem = p.substring_char(0, keep);
    let mut out = string_of(stem);
    push_char(&mut out, '.');
    append_str(&mut out, ext);
    proof {
        let c = spec_last_index_of(p@, '/') + 1;
        let d = spec_last_index_of(p@, '.');
        if d > c {
            assert(keep == d);
            assert(out@ =~= p@.take(d) + seq!['.'] + ext@);
        } else {
            assert(keep == n);
            assert(p@.subrange(0, n as int) =~= p@);
            assert(out@ =~= p@ + seq!['.'] + ext@);
        }
    }
    out
}

pub fn under_dir(p: &str, pre: &str) -> (r: bool)
    ensures
        r == spec_under_dir(p@, pre@),
{
    let n = p.unicode_len();
    let m = pre.unicode_len();
    if !crate::strutil::str_starts_with(p, pre) {
        return false;
    }
    if n == m {
        return true;
    }
    if p.get_char(m) == '/' {
        return true;
    }
    m > 0 && pre.get_char(m - 1) == '/'
}

/// Resolves an asset destination against the output directory, rejecting a
/// destination that escapes it.
pub fn resolve_dest(dest: &str, dist: &str) -> (r: Option<String>)
    ensures
        (match r {
            Some(d) => spec_resolve_dest(dest@, dist@) == Some(d@),
            None => spec_resolve_dest(dest@, dist@) is None,
        }),
{
    if !is_absolute(dest) {
        Some(join_path(dist, dest))
    } else if under_dir(dest, dist) {
        Some(string_of(dest))
    } else {
        None
    }
}

} // verus!
