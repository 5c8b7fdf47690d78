//! Tree snapshots: flat lists of files, each a path with its content, standing
//! for the repository tree or the system tree at one moment.
//!
//! A snapshot is the value that a walk of a tree yields; every comparison the
//! reconciler makes is a pure function of such snapshots.

use vstd::prelude::*;

use crate::category::str_eq;

verus! {

/// One file of a tree snapshot: its path and its whole content.
pub struct FileEntry {
    /// The file's path: absolute for a system tree, repository-relative for
    /// a repository tree.
    pub path: String,
    /// The file's content.
    pub content: Vec<u8>,
}

/// The abstract value of a list of entries: each file's path and content
/// character and byte sequences, in order.
pub open spec fn entries_view(s: Seq<FileEntry>) -> Seq<(Seq<char>, Seq<u8>)> {
    s.map_values(|e: FileEntry| (e.path@, e.content@))
}

/// Returns a copy of the byte vector.
pub fn clone_bytes(v: &Vec<u8>) -> (r: Vec<u8>)
    ensures
        r@ == v@,
{
    let n: usize = v.len();
    let mut out: Vec<u8> = Vec::new();
    let mut i: usize = 0;
    while i < n
        invariant
            0 <= i <= n,
            n == v@.len(),
            out@ =~= v@.subrange(0, i as int),
        decreases n - i,
    {
        out.push(v[i]);
        proof {
            assert(out@ =~= v@.subrange(0, i + 1 as int));
        }
        i = i + 1;
    }
    proof {
        assert(v@.subrange(0, n as int) =~= v@);
    }
    out
}

/// The content of the first entry of the given path, if any.
pub open spec fn tree_get<T>(t: Seq<(Seq<char>, T)>, path: Seq<char>) -> Option<T>
    decreases t.len(),
{
    if t.len() == 0 {
        None
    } else if t[0].0 == path {
        Some(t[0].1)
    } else {
        tree_get(t.drop_first(), path)
    }
}

/// `t` with `content` stored at `path`: the first entry of that path is
/// replaced, or a new entry is appended where none exists.
pub open spec fn tree_store<T>(t: Seq<(Seq<char>, T)>, path: Seq<char>, content: T) -> Seq<
    (Seq<char>, T),
>
    decreases t.len(),
{
    if t.len() == 0 {
        seq![(path, content)]
    } else if t[0].0 == path {
        seq![(path, content)] + t.drop_first()
    } else {
        seq![t[0]] + tree_store(t.drop_first(), path, content)
    }
}

/// `t` without its first entry of the given path; `t` itself where none
/// exists.
pub open spec fn tree_delete<T>(t: Seq<(Seq<char>, T)>, path: Seq<char>) -> Seq<(Seq<char>, T)>
    decreases t.len(),
{
    if t.len() == 0 {
        t
    } else if t[0].0 == path {
        t.drop_first()
    } else {
        seq![t[0]] + tree_delete(t.drop_first(), path)
    }
}

/// Where the first entry of path `p` stands at index `i`, `tree_get` yields
/// its content.
pub proof fn lemma_tree_get_at<T>(t: Seq<(Seq<char>, T)>, p: Seq<char>, i: int)
    requires
        0 <= i < t.len(),
        t[i].0 == p,
        forall|j: int| 0 <= j < i ==> t[j].0 != p,
    ensures
        tree_get(t, p) == Some(t[i].1),
    decreases i,
{
    if i > 0 {
        lemma_tree_get_at(t.drop_first(), p, i - 1);
    }
}

/// Where no entry bears path `p`, `tree_get` yields nothing.
pub proof fn lemma_tree_get_none<T>(t: Seq<(Seq<char>, T)>, p: Seq<char>)
    requires
        forall|j: int| 0 <= j < t.len() ==> t[j].0 != p,
    ensures
        tree_get(t, p) is None,
    decreases t.len(),
{
    if t.len() > 0 {
        lemma_tree_get_none(t.drop_first(), p);
    }
}

/// Where the first entry of path `p` stands at index `i`, `tree_store`
/// replaces exactly that entry.
pub proof fn lemma_tree_store_at<T>(t: Seq<(Seq<char>, T)>, p: Seq<char>, c: T, i: int)
    requires
        0 <= i < t.len(),
        t[i].0 == p,
        forall|j: int| 0 <= j < i ==> t[j].0 != p,
    ensures
        tree_store(t, p, c) =~= t.update(i, (p, c)),
    decreases i,
{
    if i == 0 {
        assert(seq![(p, c)] + t.drop_first() =~= t.update(0, (p, c)));
    } else {
        lemma_tree_store_at(t.drop_first(), p, c, i - 1);
        assert(seq![t[0]] + t.drop_first().update(i - 1, (p, c)) =~= t.update(i, (p, c)));
    }
}

/// Where no entry bears path `p`, `tree_store` appends a new entry.
pub proof fn lemma_tree_store_absent<T>(t: Seq<(Seq<char>, T)>, p: Seq<char>, c: T)
    requires
        forall|j: int| 0 <= j < t.len() ==> t[j].0 != p,
    ensures
        tree_store(t, p, c) =~= t.push((p, c)),
    decreases t.len(),
{
    if t.len() == 0 {
        assert(seq![(p, c)] =~= t.push((p, c)));
    } else {
        lemma_tree_store_absent(t.drop_first(), p, c);
        assert(seq![t[0]] + t.drop_first().push((p, c)) =~= t.push((p, c)));
    }
}

/// Where the first entry of path `p` stands at index `i`, `tree_delete`
/// removes exactly that entry.
pub proof fn lemma_tree_delete_at<T>(t: Seq<(Seq<char>, T)>, p: Seq<char>, i: int)
    requires
        0 <= i < t.len(),
        t[i].0 == p,
        forall|j: int| 0 <= j < i ==> t[j].0 != p,
    ensures
        tree_delete(t, p) =~= t.remove(i),
    decreases i,
{
    if i == 0 {
        assert(t.drop_first() =~= t.remove(0));
    } else {
        lemma_tree_delete_at(t.drop_first(), p, i - 1);
        assert(seq![t[0]] + t.drop_first().remove(i - 1) =~= t.remove(i));
    }
}

/// Where no entry bears path `p`, `tree_delete` changes nothing.
pub proof fn lemma_tree_delete_absent<T>(t: Seq<(Seq<char>, T)>, p: Seq<char>)
    requires
        forall|j: int| 0 <= j < t.len() ==> t[j].0 != p,
    ensures
        tree_delete(t, p) =~= t,
    decreases t.len(),
{
    if t.len() > 0 {
        lemma_tree_delete_absent(t.drop_first(), p);
        assert(seq![t[0]] + t.drop_first() =~= t);
    }
}

/// Reading a path after a store yields the stored content; every other path
/// is untouched.
pub proof fn lemma_tree_get_store<T>(t: Seq<(Seq<char>, T)>, p: Seq<char>, c: T, q: Seq<char>)
    ensures
        tree_get(tree_store(t, p, c), q) == if q == p {
            Some(c)
        } else {
            tree_get(t, q)
        },
    decreases t.len(),
{
    if t.len() == 0 {
        assert(tree_store(t, p, c) =~= seq![(p, c)]);
        let s = seq![(p, c)];
        assert(s[0] == (p, c));
        assert(s.drop_first() =~= Seq::<(Seq<char>, T)>::empty());
        assert(tree_get(s.drop_first(), q) is None);
    } else if t[0].0 == p {
        let s = seq![(p, c)] + t.drop_first();
        assert(s[0] == (p, c));
        assert(s.drop_first() =~= t.drop_first());
    } else {
        lemma_tree_get_store(t.drop_first(), p, c, q);
        let s = seq![t[0]] + tree_store(t.drop_first(), p, c);
        assert(s[0] == t[0]);
        assert(s.drop_first() =~= tree_store(t.drop_first(), p, c));
    }
}

/// Returns whether the byte sequences of `a` and `b` are equal.
pub fn bytes_eq(a: &Vec<u8>, b: &Vec<u8>) -> (r: bool)
    ensures
        r == (a@ == b@),
{
    let n: usize = a.len();
    if n != b.len() {
        return false;
    }
    let mut i: usize = 0;
    while i < n
        invariant
            0 <= i <= n,
            n == a@.len() == b@.len(),
            forall|j: int| 0 <= j < i ==> a@[j] == b@[j],
        decreases n - i,
    {
        if a[i] != b[i] {
            return false;
        }
        i = i + 1;
    }
    proof {
        assert(a@ =~= b@);
    }
    true
}

/// A tree snapshot: the files a walk of the tree yields, in walk order.
pub struct TreeSnapshot {
    /// The files of the tree.
    pub files: Vec<FileEntry>,
}

impl View for TreeSnapshot {
    type V = Seq<(Seq<char>, Seq<u8>)>;

    open spec fn view(&self) -> Seq<(Seq<char>, Seq<u8>)> {
        entries_view(self.files@)
    }
}

impl TreeSnapshot {
    /// Creates an empty snapshot.
    pub fn new() -> (r: Self)
        ensures
            r@.len() == 0,
    {
        let r = Self { files: Vec::new() };
        proof {
            assert(r@ =~= Seq::<(Seq<char>, Seq<u8>)>::empty());
        }
        r
    }

    /// Returns the content of the first file of the given path, if any.
    pub fn lookup(&self, path: &str) -> (r: Option<&Vec<u8>>)
        ensures
            match r {
                Some(c) => tree_get(self@, path@) == Some(c@),
                None => tree_get(self@, path@) is None,
            },
    {
        let n: usize = self.files.len();
        let mut i: usize = 0;
        while i < n
            invariant
                0 <= i <= n,
                n == self.files@.len(),
                self@.len() == self.files@.len(),
                forall|j: int| 0 <= j < self.files@.len()
                    ==> self@[j] == (self.files@[j].path@, self.files@[j].content@),
                forall|j: int| 0 <= j < i ==> self@[j].0 != path@,
            decreases n - i,
        {
            if str_eq(self.files[i].path.as_str(), path) {
                proof {
                    lemma_tree_get_at(self@, path@, i as int);
                }
                return Some(&self.files[i].content);
            }
            i = i + 1;
        }
        proof {
            lemma_tree_get_none(self@, path@);
        }
        None
    }

    /// Stores `content` at `path`, replacing the first entry of that path or
    /// appending a new one.
    pub fn store(&mut self, path: String, content: Vec<u8>)
        ensures
            final(self)@ == tree_store(old(self)@, path@, content@),
    {
        let n: usize = self.files.len();
        let mut i: usize = 0;
        while i < n
            invariant
                0 <= i <= n,
                n == self.files@.len(),
                self@ == old(self)@,
                self@.len() == self.files@.len(),
                forall|j: int| 0 <= j < self.files@.len()
                    ==> self@[j] == (self.files@[j].path@, self.files@[j].content@),
                forall|j: int| 0 <= j < i ==> self@[j].0 != path@,
            decreases n - i,
        {
            if str_eq(self.files[i].path.as_str(), path.as_str()) {
                let ghost pre = self@;
                let ghost idx = i as int;
                self.files.remove(i);
                self.files.insert(i, FileEntry { path, content });
                proof {
                    lemma_tree_store_at(pre, pre[idx].0, content@, idx);
                    assert(final(self)@ =~= pre.update(idx, (pre[idx].0, content@)));
                    assert(pre[idx].0 == final(self).files@[idx].path@);
                }
                return ;
            }
            i = i + 1;
        }
        let ghost pre = self@;
        self.files.push(FileEntry { path, content });
        proof {
            lemma_tree_store_absent(pre, final(self).files@.last().path@, content@);
            assert(final(self)@ =~= pre.push((final(self).files@.last().path@, content@)));
        }
    }

    /// Removes the first entry of the given path, if any.
    pub fn delete(&mut self, path: &str)
        ensures
            final(self)@ == tree_delete(old(self)@, path@),
    {
        let n: usize = self.files.len();
        let mut i: usize = 0;
        while i < n
            invariant
                0 <= i <= n,
                n == self.files@.len(),
                self@ == old(self)@,
                self@.len() == self.files@.len(),
                forall|j: int| 0 <= j < self.files@.len()
                    ==> self@[j] == (self.files@[j].path@, self.files@[j].content@),
                forall|j: int| 0 <= j < i ==> self@[j].0 != path@,
            decreases n - i,
        {
            if str_eq(self.files[i].path.as_str(), path) {
                let ghost pre = self@;
                let ghost idx = i as int;
                self.files.remove(i);
                proof {
                    lemma_tree_delete_at(pre, path@, idx);
                    assert(final(self)@ =~= pre.remove(idx));
                }
                return ;
            }
            i = i + 1;
        }
        proof {
            lemma_tree_delete_absent(self@, path@);
        }
    }
}

} // verus!
