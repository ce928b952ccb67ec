//! Path text: joining, parent directories and resolution.
use vstd::prelude::*;

use resolve_path::PathResolveExt;

use crate::text::{chars_of, push_all, string_from_chars};

verus! {

/// A path is absolute when it starts at the root.
pub open spec fn is_absolute(p: Seq<char>) -> bool {
    p.len() > 0 && p[0] == '/'
}

/// `p` appended to `base`: an absolute `p` replaces `base`, and a single
/// separator stands between the two.
pub open spec fn join(base: Seq<char>, p: Seq<char>) -> Seq<char> {
    if is_absolute(p) || base.len() == 0 {
        p
    } else if base.last() == '/' {
        base + p
    } else {
        base + seq!['/'] + p
    }
}

/// `dir` and `name` with one `/` between them, as plain text.
pub open spec fn child(dir: Seq<char>, name: Seq<char>) -> Seq<char> {
    dir + seq!['/'] + name
}

/// Everything before the last `/` of `p`; empty when `p` has none.
pub open spec fn parent_dir(p: Seq<char>) -> Seq<char>
    decreases p.len(),
{
    if p.len() == 0 {
        p
    } else if p.last() == '/' {
        p.drop_last()
    } else {
        parent_dir(p.drop_last())
    }
}

pub fn join_path(base: &str, p: &str) -> (r: String)
    ensures
        r@ == join(base@, p@),
{
    let b = chars_of(base);
    let q = chars_of(p);
    if (q.len() > 0 && q[0] == '/') || b.len() == 0 {
        string_from_chars(&q)
    } else {
        let mut out = b.clone();
        if b[b.len() - 1] != '/' {
            out.push('/');
        }
        push_all(&mut out, &q);
        string_from_chars(&out)
    }
}

pub fn child_path(dir: &str, name: &str) -> (r: String)
    ensures
        r@ == child(dir@, name@),
{
    let mut out = chars_of(dir);
    out.push('/');
    push_all(&mut out, &chars_of(name));
    string_from_chars(&out)
}

pub fn parent_of(p: &str) -> (r: String)
    ensures
        r@ == parent_dir(p@),
{
    let c = chars_of(p);
    let mut k: usize = c.len();
    assert(c@.subrange(0, k as int) =~= c@);
    while k > 0 && c[k - 1] != '/'
        invariant
            k <= c.len(),
            parent_dir(c@) == parent_dir(c@.subrange(0, k as int)),
        decreases k,
    {
        assert(c@.subrange(0, k - 1) =~= c@.subrange(0, k as int).drop_last());
        k = k - 1;
    }
    let mut out: Vec<char> = Vec::new();
    if k > 0 {
        assert(c@.subrange(0, k - 1) =~= c@.subrange(0, k as int).drop_last());
        let mut j: usize = 0;
        while j < k - 1
            invariant
                k > 0,
                k <= c.len(),
                j <= k - 1,
                out@ == c@.subrange(0, j as int),
            decreases k - 1 - j,
        {
            out.push(c[j]);
            j = j + 1;
            assert(out@ =~= c@.subrange(0, j as int));
        }
    } else {
        assert(c@.subrange(0, 0) =~= out@);
    }
    string_from_chars(&out)
}

/// Relies on resolve_path's `PathResolveExt::try_resolve`. It reads the
/// current directory first, which may fail; a path that then comes back is
/// the absolute path unchanged, or `~` and relative paths expanded against
/// the home and current directories.
#[verifier::external_body]
pub(crate) fn resolve(p: &str) -> (r: Option<String>)
    ensures
        r is Some ==> (is_absolute(p@) ==> r->0@ == p@),
{
    p.try_resolve().ok().and_then(|c| c.to_str().map(|s| s.to_string()))
}

} // verus!
