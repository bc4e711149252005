//! Paths as `/`-separated text.

use vstd::prelude::*;

verus! {

/// `base` with `part` adjoined: an absolute `part` takes the place of `base`,
/// and a separator is put between the two unless `base` is empty or already
/// ends with one.
pub open spec fn joined(base: Seq<char>, part: Seq<char>) -> Seq<char> {
    if part.len() > 0 && part[0] == '/' {
        part
    } else if base.len() == 0 || base.last() == '/' {
        base + part
    } else {
        base + seq!['/'] + part
    }
}

/// The place of the last separator in `path`, or -1 where it has none.
pub open spec fn last_separator(path: Seq<char>) -> int
    decreases path.len(),
{
    if path.len() == 0 {
        -1
    } else if path.last() == '/' {
        path.len() - 1
    } else {
        last_separator(path.drop_last())
    }
}

/// What follows the last separator of `path`; the whole of it where it has
/// none.
pub open spec fn file_name_of(path: Seq<char>) -> Seq<char> {
    path.subrange(last_separator(path) + 1, path.len() as int)
}

/// `path` without its last component: what stands before the last separator,
/// the root for a path directly below it, and nothing where `path` has no
/// separator.
pub open spec fn parent_of(path: Seq<char>) -> Seq<char> {
    let at = last_separator(path);
    if at < 0 {
        Seq::empty()
    } else if at == 0 {
        seq!['/']
    } else {
        path.subrange(0, at)
    }
}

/// A place that holds a separator, with none after it, is the last separator.
pub proof fn lemma_last_separator_is(path: Seq<char>, at: int)
    requires
        -1 <= at < path.len(),
        at >= 0 ==> path[at] == '/',
        forall|i: int| at < i < path.len() ==> path[i] != '/',
    ensures
        last_separator(path) == at,
    decreases path.len(),
{
    if path.len() > 0 && path.last() != '/' {
        lemma_last_separator_is(path.drop_last(), at);
    }
}

/// The place of the last separator of `path`, if it has one.
fn find_last_separator(path: &str) -> (r: Option<usize>)
    ensures
        match r {
            Some(at) => last_separator(path@) == at && at < path@.len(),
            None => last_separator(path@) == -1,
        },
{
    let n = path.unicode_len();
    let mut i: usize = n;
    while i > 0
        invariant
            i <= n,
            n == path@.len(),
            forall|j: int| i <= j < n ==> path@[j] != '/',
        decreases i,
    {
        if path.get_char(i - 1) == '/' {
            proof {
                lemma_last_separator_is(path@, i - 1);
            }
            return Some(i - 1);
        }
        i -= 1;
    }
    proof {
        lemma_last_separator_is(path@, -1);
    }
    None
}

/// Adjoins `part` to `base`.
pub fn join(base: &str, part: &str) -> (r: String)
    ensures
        r@ == joined(base@, part@),
{
    if part.unicode_len() > 0 && part.get_char(0) == '/' {
        return String::from_str(part);
    }
    let n = base.unicode_len();
    let mut r = String::from_str(base);
    if n > 0 && base.get_char(n - 1) != '/' {
        proof {
            reveal_strlit("/");
            assert("/"@ =~= seq!['/']);
        }
        r.append("/");
    }
    r.append(part);
    r
}

/// The last component of `path`.
pub fn file_name(path: &str) -> (r: &str)
    ensures
        r@ == file_name_of(path@),
{
    let n = path.unicode_len();
    match find_last_separator(path) {
        Some(at) => path.substring_char(at + 1, n),
        None => path.substring_char(0, n),
    }
}

/// `path` without its last component.
pub fn parent(path: &str) -> (r: String)
    ensures
        r@ == parent_of(path@),
{
    match find_last_separator(path) {
        Some(at) => {
            if at == 0 {
                proof {
                    reveal_strlit("/");
                    assert("/"@ =~= seq!['/']);
                }
                String::from_str("/")
            } else {
                String::from_str(path.substring_char(0, at))
            }
        },
        None => String::new(),
    }
}

/// The root of the workspace, given the directory of a crate that lies
/// directly below it: that directory without its last component.
pub fn workspace_root(manifest_dir: &str) -> (r: String)
    ensures
        r@ == parent_of(manifest_dir@),
{
    parent(manifest_dir)
}

} // verus!
