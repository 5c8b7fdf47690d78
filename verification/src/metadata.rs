//! POSIX metadata records: mode, ownership and symlink targets, captured per
//! system path and kept out of band so a restore can reapply them.
//!
//! The store itself is pure bookkeeping over a flat mapping from path to
//! record; reading a file's attributes and applying them back are the
//! caller's filesystem work.

use vstd::prelude::*;

use crate::category::str_eq;
use crate::diff::digit_str;
use crate::tree::{lemma_tree_delete_absent, lemma_tree_delete_at, lemma_tree_get_at,
    lemma_tree_get_none, lemma_tree_get_store, lemma_tree_store_absent, lemma_tree_store_at,
    tree_delete, tree_get, tree_store};

verus! {

/// The captured POSIX metadata of one system path.
pub struct FileMetadata {
    /// Permission and file-type mode bits.
    pub mode: u32,
    /// The owner's user id.
    pub uid: u32,
    /// The owning group's id.
    pub gid: u32,
    /// The owner's name, best effort: the numeric id as a string where no
    /// name resolves; it may be stale.
    pub owner: String,
    /// The owning group's name, best effort as for `owner`.
    pub group: String,
    /// The modification time as seconds since the epoch, where known.
    pub mtime: Option<i64>,
    /// The symlink's target string; present exactly where the captured entry
    /// was a symlink.
    pub symlink_target: Option<String>,
}

/// The four-octal-digit rendering of the permission bits of `mode`, with
/// leading zeros.
pub open spec fn spec_mode_string(mode: u32) -> Seq<char> {
    let m = (mode & 0o7777) as int;
    seq![
        crate::diff::dec_digit(m / 512),
        crate::diff::dec_digit((m / 64) % 8),
        crate::diff::dec_digit((m / 8) % 8),
        crate::diff::dec_digit(m % 8),
    ]
}

impl FileMetadata {
    /// Renders the permission bits as four octal digits, `0644` style.
    pub fn mode_string(&self) -> (r: String)
        ensures
            r@ == spec_mode_string(self.mode),
    {
        let mode_val = self.mode;
        proof {
            assert(mode_val & 0o7777 <= 0o7777) by (bit_vector);
        }
        let m = mode_val & 0o7777;
        let d0 = (m / 512) as usize;
        let d1 = ((m / 64) % 8) as usize;
        let d2 = ((m / 8) % 8) as usize;
        let d3 = (m % 8) as usize;
        let mut out = String::from_str(digit_str(d0));
        out.append(digit_str(d1));
        out.append(digit_str(d2));
        out.append(digit_str(d3));
        proof {
            assert(out@ =~= spec_mode_string(self.mode));
        }
        out
    }
}

/// The filesystem work that applying one record asks for.
pub enum ApplyAction {
    /// Remove whatever sits at the path and recreate the symlink with the
    /// given target. Ownership restoration on symlinks is out of scope.
    RecreateSymlink(String),
    /// Set the permission bits, then the ownership, in that order.
    SetAttributes {
        /// The mode bits to set.
        mode: u32,
        /// The owner to set.
        uid: u32,
        /// The group to set.
        gid: u32,
    },
}

/// Decides the filesystem work for one record: a symlink entry recreates the
/// link; every other entry sets permission bits, then ownership.
pub fn plan_apply(meta: &FileMetadata) -> (r: ApplyAction)
    ensures
        match meta.symlink_target {
            Some(t) => r matches ApplyAction::RecreateSymlink(u) && u@ == t@,
            None => r matches ApplyAction::SetAttributes { mode, uid, gid } && mode == meta.mode
                && uid == meta.uid && gid == meta.gid,
        },
{
    match &meta.symlink_target {
        Some(t) => ApplyAction::RecreateSymlink(t.clone()),
        None => ApplyAction::SetAttributes { mode: meta.mode, uid: meta.uid, gid: meta.gid },
    }
}

/// A record is applied where its path currently exists, and also where it
/// records a symlink, so a missing symlink can be recreated.
pub open spec fn spec_should_apply(meta: FileMetadata, path_exists: bool) -> bool {
    path_exists || meta.symlink_target is Some
}

/// Returns whether a stored record should be applied, given whether its path
/// currently exists.
pub fn should_apply(meta: &FileMetadata, path_exists: bool) -> (r: bool)
    ensures
        r == spec_should_apply(*meta, path_exists),
{
    if path_exists {
        true
    } else {
        match &meta.symlink_target {
            Some(_) => true,
            None => false,
        }
    }
}

/// The best-effort name for a numeric id: the resolved name where the
/// caller's lookup found one, and the id rendered in decimal otherwise.
pub fn name_or_id(name: Option<String>, id: u32) -> (r: String)
    ensures
        match name {
            Some(n) => r@ == n@,
            None => r@ == crate::diff::spec_dec(id as nat),
        },
{
    match name {
        Some(n) => n,
        None => crate::diff::dec_string(id as usize),
    }
}

/// The store of captured metadata: a flat mapping from system path to
/// record, persisted independently of file content.
pub struct MetadataStore {
    entries: Vec<(String, FileMetadata)>,
}

impl View for MetadataStore {
    type V = Seq<(Seq<char>, FileMetadata)>;

    closed spec fn view(&self) -> Seq<(Seq<char>, FileMetadata)> {
        self.entries@.map_values(|e: (String, FileMetadata)| (e.0@, e.1))
    }
}

impl MetadataStore {
    /// Creates an empty store.
    pub fn new() -> (r: Self)
        ensures
            r@.len() == 0,
    {
        let r = Self { entries: Vec::new() };
        proof {
            assert(r@ =~= Seq::<(Seq<char>, FileMetadata)>::empty());
        }
        r
    }

    /// The stored entries, in store order.
    pub fn entries(&self) -> (r: &Vec<(String, FileMetadata)>)
        ensures
            r@.map_values(|e: (String, FileMetadata)| (e.0@, e.1)) == self@,
            r@.len() == self@.len(),
    {
        &self.entries
    }

    /// Records the metadata captured for `path`, overwriting any prior entry
    /// for that path.
    pub fn update_from_system(&mut self, path: String, meta: FileMetadata)
        ensures
            final(self)@ == tree_store(old(self)@, path@, meta),
    {
        let n: usize = self.entries.len();
        let mut i: usize = 0;
        while i < n
            invariant
                0 <= i <= n,
                n == self.entries@.len(),
                self@ == old(self)@,
                self@.len() == self.entries@.len(),
                forall|j: int| 0 <= j < self.entries@.len()
                    ==> self@[j] == (self.entries@[j].0@, self.entries@[j].1),
                forall|j: int| 0 <= j < i ==> self@[j].0 != path@,
            decreases n - i,
        {
            if str_eq(self.entries[i].0.as_str(), path.as_str()) {
                let ghost pre = self@;
                let ghost idx = i as int;
                self.entries.remove(i);
                self.entries.insert(i, (path, meta));
                proof {
                    lemma_tree_store_at(pre, pre[idx].0, meta, idx);
                    assert(final(self)@ =~= pre.update(idx, (pre[idx].0, meta)));
                    assert(pre[idx].0 == final(self).entries@[idx].0@);
                }
                return ;
            }
            i = i + 1;
        }
        let ghost pre = self@;
        self.entries.push((path, meta));
        proof {
            lemma_tree_store_absent(pre, final(self).entries@.last().0@, meta);
            assert(final(self)@ =~= pre.push((final(self).entries@.last().0@, meta)));
        }
    }

    /// Returns the stored record for `path`, if any.
    pub fn get(&self, path: &str) -> (r: Option<&FileMetadata>)
        ensures
            match r {
                Some(m) => tree_get(self@, path@) == Some(*m),
                None => tree_get(self@, path@) is None,
            },
    {
        let n: usize = self.entries.len();
        let mut i: usize = 0;
        while i < n
            invariant
                0 <= i <= n,
                n == self.entries@.len(),
                self@.len() == self.entries@.len(),
                forall|j: int| 0 <= j < self.entries@.len()
                    ==> self@[j] == (self.entries@[j].0@, self.entries@[j].1),
                forall|j: int| 0 <= j < i ==> self@[j].0 != path@,
            decreases n - i,
        {
            if str_eq(self.entries[i].0.as_str(), path) {
                proof {
                    lemma_tree_get_at(self@, path@, i as int);
                }
                return Some(&self.entries[i].1);
            }
            i = i + 1;
        }
        proof {
            lemma_tree_get_none(self@, path@);
        }
        None
    }

    /// Drops the entry for `path`, if any.
    pub fn remove(&mut self, path: &str)
        ensures
            final(self)@ == tree_delete(old(self)@, path@),
    {
        let n: usize = self.entries.len();
        let mut i: usize = 0;
        while i < n
            invariant
                0 <= i <= n,
                n == self.entries@.len(),
                self@ == old(self)@,
                self@.len() == self.entries@.len(),
                forall|j: int| 0 <= j < self.entries@.len()
                    ==> self@[j] == (self.entries@[j].0@, self.entries@[j].1),
                forall|j: int| 0 <= j < i ==> self@[j].0 != path@,
            decreases n - i,
        {
            if str_eq(self.entries[i].0.as_str(), path) {
                let ghost pre = self@;
                let ghost idx = i as int;
                self.entries.remove(i);
                proof {
                    lemma_tree_delete_at(pre, path@, idx);
                    assert(final(self)@ =~= pre.remove(idx));
                }
                return ;
            }
            i = i + 1;
        }
        proof {
            lemma_tree_delete_absent(self@, path@);
        }
    }
}

/// Law (metadata round trip): consulting the store for a path right after
/// recording a capture for it returns exactly the captured record, and every
/// other path's entry is untouched.
pub proof fn lemma_metadata_round_trip(
    store: Seq<(Seq<char>, FileMetadata)>,
    path: Seq<char>,
    meta: FileMetadata,
    other: Seq<char>,
)
    ensures
        tree_get(tree_store(store, path, meta), path) == Some(meta),
        other != path ==> tree_get(tree_store(store, path, meta), other) == tree_get(
            store,
            other,
        ),
{
    lemma_tree_get_store(store, path, meta, path);
    lemma_tree_get_store(store, path, meta, other);
}

} // verus!
