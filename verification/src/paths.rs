//! Path strings: absolute system paths, category-relative repository paths,
//! and the helpers that translate between them.
//!
//! A system path is an absolute path such as `/etc/nginx/nginx.conf`; a
//! repository path is relative and starts with a category name, such as
//! `web/etc/nginx/nginx.conf`. Both are handled as plain strings: no
//! normalisation beyond separator handling is performed.

use vstd::prelude::*;

verus! {

/// A well-formed absolute system path: a single leading separator followed
/// by at least one further character that is not itself a separator.
pub open spec fn valid_abs_path(p: Seq<char>) -> bool {
    p.len() >= 2 && p[0] == '/' && p[1] != '/'
}

/// A well-formed category name: nonempty and free of path separators, so the
/// category owns one whole subtree directly under the repository root.
pub open spec fn valid_category_name(n: Seq<char>) -> bool {
    n.len() > 0 && forall|i: int| 0 <= i < n.len() ==> n[i] != '/'
}

/// `p` with every leading separator removed.
pub open spec fn strip_leading_separators(p: Seq<char>) -> Seq<char>
    decreases p.len(),
{
    if p.len() > 0 && p[0] == '/' {
        strip_leading_separators(p.drop_first())
    } else {
        p
    }
}

/// Stripping leading separators removes exactly the longest separator prefix.
proof fn lemma_strip_is_subrange(p: Seq<char>, i: int)
    requires
        0 <= i <= p.len(),
        forall|j: int| 0 <= j < i ==> p[j] == '/',
        i == p.len() || p[i] != '/',
    ensures
        strip_leading_separators(p) =~= p.subrange(i, p.len() as int),
    decreases i,
{
    if i == 0 {
        if p.len() > 0 {
            assert(p[0] != '/');
        }
        assert(p.subrange(0, p.len() as int) =~= p);
    } else {
        let q = p.drop_first();
        assert(p[0] == '/');
        assert(forall|j: int| 0 <= j < i - 1 ==> q[j] == p[j + 1] && q[j] == '/');
        lemma_strip_is_subrange(q, i - 1);
        assert(q.subrange(i - 1, q.len() as int) =~= p.subrange(i, p.len() as int));
    }
}

/// Returns `p` without its leading separators, as the original string when
/// none leads.
pub fn strip_separators(p: &str) -> (r: String)
    ensures
        r@ == strip_leading_separators(p@),
{
    let n: usize = p.unicode_len();
    let mut i: usize = 0;
    while i < n && p.get_char(i) == '/'
        invariant
            0 <= i <= n,
            n == p@.len(),
            forall|j: int| 0 <= j < i ==> p@[j] == '/',
        decreases n - i,
    {
        i = i + 1;
    }
    let rest = p.substring_char(i, n);
    proof {
        lemma_strip_is_subrange(p@, i as int);
    }
    String::from_str(rest)
}

/// The index of the first separator of `p`, if any.
pub open spec fn first_separator(p: Seq<char>) -> Option<int> {
    p.index_of_first('/')
}

/// Returns the index of the first separator of `p`, if any.
pub fn find_separator(p: &str) -> (r: Option<usize>)
    ensures
        match r {
            Some(i) => first_separator(p@) == Some(i as int),
            None => first_separator(p@) is None,
        },
{
    let n: usize = p.unicode_len();
    let mut i: usize = 0;
    while i < n && p.get_char(i) != '/'
        invariant
            0 <= i <= n,
            n == p@.len(),
            forall|j: int| 0 <= j < i ==> p@[j] != '/',
        decreases n - i,
    {
        i = i + 1;
    }
    proof {
        p@.index_of_first_ensures('/');
    }
    if i < n {
        Some(i)
    } else {
        assert(!p@.contains('/'));
        None
    }
}


/// The repository path under category `name` for the absolute path `p`: the
/// name, a separator, and `p` without its leading separators.
pub open spec fn repo_path_of(name: Seq<char>, p: Seq<char>) -> Seq<char> {
    name + seq!['/'] + strip_leading_separators(p)
}

/// Returns the repository path under category `name` for the absolute path
/// `p`.
pub fn join_repo_path(name: &str, p: &str) -> (r: String)
    ensures
        r@ == repo_path_of(name@, p@),
{
    let relative = strip_separators(p);
    let mut out = String::from_str(name);
    out.append("/");
    out.append(relative.as_str());
    proof {
        reveal_strlit("/");
        assert(out@ =~= repo_path_of(name@, p@));
    }
    out
}

/// `p` is strictly below the directory `name`: it begins with `name`
/// followed by a separator and at least one further character.
pub open spec fn under_category(name: Seq<char>, p: Seq<char>) -> bool {
    &&& p.len() > name.len() + 1
    &&& p.subrange(0, name.len() as int) == name
    &&& p[name.len() as int] == '/'
}

/// Returns whether `p` is strictly below the directory `name`.
pub fn is_under(name: &str, p: &str) -> (r: bool)
    ensures
        r == under_category(name@, p@),
{
    let nl: usize = name.unicode_len();
    let pl: usize = p.unicode_len();
    if nl >= usize::MAX - 1 || pl < nl + 2 {
        proof {
            assert(p@.len() <= usize::MAX);
        }
        return false;
    }
    if p.get_char(nl) != '/' {
        return false;
    }
    let mut i: usize = 0;
    while i < nl
        invariant
            0 <= i <= nl,
            nl == name@.len(),
            nl + 2 <= pl == p@.len(),
            forall|j: int| 0 <= j < i ==> p@[j] == name@[j],
        decreases nl - i,
    {
        if p.get_char(i) != name.get_char(i) {
            assert(p@.subrange(0, nl as int) != name@);
            return false;
        }
        i = i + 1;
    }
    proof {
        assert(p@.subrange(0, nl as int) =~= name@);
    }
    true
}

} // verus!
