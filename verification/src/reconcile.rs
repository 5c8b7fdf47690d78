//! The reconciliation engine: classifies differences between the system tree
//! and the repository tree, plans copies and restores, and resolves which
//! category owns a path.
//!
//! Every operation is a pure function of tree snapshots taken at call time;
//! no state is kept between calls.

use vstd::prelude::*;

use crate::category::{has_category, spec_get, Category, CategoryManager};
use crate::codec::{encrypts_to, AgeEncryption};
use crate::error::ConfectError;
use crate::paths::{repo_path_of, under_category};
use crate::tree::{clone_bytes, entries_view, lemma_tree_get_store, tree_delete, tree_get,
    tree_store, FileEntry, TreeSnapshot};

verus! {

/// The status of one tracked pair of files. Pairs with identical content get
/// no status at all.
#[derive(Debug, Clone, Copy, PartialEq, Eq, Hash, Structural)]
pub enum FileStatus {
    /// Both files exist and their contents differ.
    Modified,
    /// The file exists in the system tree only.
    Added,
    /// The file exists in the repository tree only.
    Deleted,
    /// The file is tracked but exists in neither tree.
    Missing,
}

/// The abstract value of an optional borrowed content.
pub open spec fn content_view(o: Option<&Vec<u8>>) -> Option<Seq<u8>> {
    match o {
        Some(c) => Some(c@),
        None => None,
    }
}

/// The status of a pair of files given by existence and content: identical
/// pairs yield nothing; differing pairs are `Modified`; a system-only file is
/// `Added`; a repository-only file is `Deleted`; a pair that exists in
/// neither tree is `Missing`.
pub open spec fn spec_classify(system: Option<Seq<u8>>, repo: Option<Seq<u8>>) -> Option<
    FileStatus,
> {
    match (system, repo) {
        (Some(s), Some(r)) => if s == r {
            None
        } else {
            Some(FileStatus::Modified)
        },
        (Some(_), None) => Some(FileStatus::Added),
        (None, Some(_)) => Some(FileStatus::Deleted),
        (None, None) => Some(FileStatus::Missing),
    }
}

/// Classifies a pair of files by existence and content.
pub fn classify(system: Option<&Vec<u8>>, repo: Option<&Vec<u8>>) -> (r: Option<FileStatus>)
    ensures
        r == spec_classify(content_view(system), content_view(repo)),
{
    match (system, repo) {
        (Some(s), Some(c)) => {
            if crate::tree::bytes_eq(s, c) {
                None
            } else {
                Some(FileStatus::Modified)
            }
        },
        (Some(_), None) => Some(FileStatus::Added),
        (None, Some(_)) => Some(FileStatus::Deleted),
        (None, None) => Some(FileStatus::Missing),
    }
}

/// The abstract value of a list of path/status pairs.
pub open spec fn pairs_view(s: Seq<(String, FileStatus)>) -> Seq<(Seq<char>, FileStatus)> {
    s.map_values(|p: (String, FileStatus)| (p.0@, p.1))
}

/// The status entries that one repository file contributes for category `c`:
/// nothing where the file is outside the category's subtree or maps to no
/// system path or is identical to the system file, and one classified pair
/// otherwise.
pub open spec fn entry_status(
    c: Category,
    e: (Seq<char>, Seq<u8>),
    system: Seq<(Seq<char>, Seq<u8>)>,
) -> Seq<(Seq<char>, FileStatus)> {
    if under_category(c.name@, e.0) {
        match c.spec_system_path_for(e.0) {
            Some(sp) => match spec_classify(tree_get(system, sp), Some(e.1)) {
                Some(st) => seq![(sp, st)],
                None => Seq::empty(),
            },
            None => Seq::empty(),
        }
    } else {
        Seq::empty()
    }
}

/// The status entries of one category: every repository file of its subtree,
/// inverse-mapped and classified against the system tree, in repository
/// order.
pub open spec fn category_status(
    c: Category,
    repo: Seq<(Seq<char>, Seq<u8>)>,
    system: Seq<(Seq<char>, Seq<u8>)>,
) -> Seq<(Seq<char>, FileStatus)>
    decreases repo.len(),
{
    if repo.len() == 0 {
        Seq::empty()
    } else {
        category_status(c, repo.drop_last(), system) + entry_status(c, repo.last(), system)
    }
}

/// The status entries of every category of the registry, in registry order.
pub open spec fn registry_status(
    cats: Seq<Category>,
    repo: Seq<(Seq<char>, Seq<u8>)>,
    system: Seq<(Seq<char>, Seq<u8>)>,
) -> Seq<(Seq<char>, FileStatus)>
    decreases cats.len(),
{
    if cats.len() == 0 {
        Seq::empty()
    } else {
        registry_status(cats.drop_last(), repo, system) + category_status(cats.last(), repo, system)
    }
}

/// Appends the status entries of one category to `out`.
fn status_for_category(
    c: &Category,
    repo: &TreeSnapshot,
    system: &TreeSnapshot,
    out: &mut Vec<(String, FileStatus)>,
)
    ensures
        pairs_view(final(out)@) == pairs_view(old(out)@) + category_status(*c, repo@, system@),
{
    let n: usize = repo.files.len();
    let mut i: usize = 0;
    while i < n
        invariant
            0 <= i <= n,
            n == repo.files@.len(),
            repo@.len() == repo.files@.len(),
            forall|j: int| 0 <= j < repo.files@.len()
                ==> repo@[j] == (repo.files@[j].path@, repo.files@[j].content@),
            pairs_view(out@) =~= pairs_view(old(out)@) + category_status(
                *c,
                repo@.subrange(0, i as int),
                system@,
            ),
        decreases n - i,
    {
        let ghost pre = pairs_view(out@);
        if crate::paths::is_under(c.name.as_str(), repo.files[i].path.as_str()) {
            match c.system_path_for(repo.files[i].path.as_str()) {
                Some(sp) => {
                    let st = classify(system.lookup(sp.as_str()), Some(&repo.files[i].content));
                    match st {
                        Some(s) => {
                            out.push((sp, s));
                        },
                        None => {},
                    }
                },
                None => {},
            }
        }
        proof {
            let cur = repo@.subrange(0, i + 1 as int);
            assert(cur.drop_last() =~= repo@.subrange(0, i as int));
            assert(cur.last() == repo@[i as int]);
            assert(pairs_view(out@) =~= pre + entry_status(*c, repo@[i as int], system@));
        }
        i = i + 1;
    }
    proof {
        assert(repo@.subrange(0, n as int) =~= repo@);
    }
}

/// Computes the status of every tracked pair: for the named category where a
/// filter is given (failing with `CategoryNotFound` where it names no
/// category), and for every category of the registry otherwise. Identical
/// pairs are omitted; each reported pair carries the system path.
pub fn status(
    cats: &CategoryManager,
    repo: &TreeSnapshot,
    system: &TreeSnapshot,
    filter: Option<&str>,
) -> (r: Result<Vec<(String, FileStatus)>, ConfectError>)
    ensures
        match r {
            Ok(v) => match filter {
                Some(name) => {
                    &&& spec_get(cats@, name@) matches Some(c) && pairs_view(v@)
                        == category_status(c, repo@, system@)
                },
                None => pairs_view(v@) == registry_status(cats@, repo@, system@),
            },
            Err(e) => {
                &&& filter matches Some(name) && !has_category(cats@, name@) && (
                e matches ConfectError::CategoryNotFound(n) && n@ == name@)
            },
        },
{
    match filter {
        Some(name) => {
            match cats.get(name) {
                Ok(c) => {
                    let mut out: Vec<(String, FileStatus)> = Vec::new();
                    proof {
                        assert(pairs_view(out@) =~= Seq::<(Seq<char>, FileStatus)>::empty());
                    }
                    status_for_category(c, repo, system, &mut out);
                    proof {
                        assert(pairs_view(out@) =~= category_status(*c, repo@, system@));
                    }
                    Ok(out)
                },
                Err(e) => Err(e),
            }
        },
        None => {
            let list = cats.list();
            let n: usize = list.len();
            let mut out: Vec<(String, FileStatus)> = Vec::new();
            let mut i: usize = 0;
            proof {
                assert(pairs_view(out@) =~= Seq::<(Seq<char>, FileStatus)>::empty());
            }
            while i < n
                invariant
                    0 <= i <= n,
                    n == cats@.len(),
                    list@ == cats@,
                    pairs_view(out@) =~= registry_status(
                        cats@.subrange(0, i as int),
                        repo@,
                        system@,
                    ),
                decreases n - i,
            {
                status_for_category(&list[i], repo, system, &mut out);
                proof {
                    let cur = cats@.subrange(0, i + 1 as int);
                    assert(cur.drop_last() =~= cats@.subrange(0, i as int));
                    assert(cur.last() == cats@[i as int]);
                }
                i = i + 1;
            }
            proof {
                assert(cats@.subrange(0, n as int) =~= cats@);
            }
            Ok(out)
        },
    }
}

/// The system paths that one category's repository subtree names: every file
/// below the category root, inverse-mapped, entries that map to no system
/// path silently skipped.
pub open spec fn category_files(c: Category, repo: Seq<(Seq<char>, Seq<u8>)>) -> Seq<Seq<char>>
    decreases repo.len(),
{
    if repo.len() == 0 {
        Seq::empty()
    } else {
        let rest = category_files(c, repo.drop_last());
        let e = repo.last();
        if under_category(c.name@, e.0) {
            match c.spec_system_path_for(e.0) {
                Some(sp) => rest.push(sp),
                None => rest,
            }
        } else {
            rest
        }
    }
}

/// The system paths of every category of the registry, in registry order.
pub open spec fn all_tracked_files(cats: Seq<Category>, repo: Seq<(Seq<char>, Seq<u8>)>) -> Seq<
    Seq<char>,
>
    decreases cats.len(),
{
    if cats.len() == 0 {
        Seq::empty()
    } else {
        all_tracked_files(cats.drop_last(), repo) + category_files(cats.last(), repo)
    }
}

/// Appends the system paths of one category's subtree to `out`.
fn files_for_category(c: &Category, repo: &TreeSnapshot, out: &mut Vec<String>)
    ensures
        final(out).deep_view() == old(out).deep_view() + category_files(*c, repo@),
{
    let n: usize = repo.files.len();
    let mut i: usize = 0;
    while i < n
        invariant
            0 <= i <= n,
            n == repo.files@.len(),
            repo@.len() == repo.files@.len(),
            forall|j: int| 0 <= j < repo.files@.len()
                ==> repo@[j] == (repo.files@[j].path@, repo.files@[j].content@),
            out.deep_view() =~= old(out).deep_view() + category_files(
                *c,
                repo@.subrange(0, i as int),
            ),
        decreases n - i,
    {
        let ghost pre = out.deep_view();
        let ghost e = repo@[i as int];
        if crate::paths::is_under(c.name.as_str(), repo.files[i].path.as_str()) {
            match c.system_path_for(repo.files[i].path.as_str()) {
                Some(sp) => {
                    proof {
                        assert(c.spec_system_path_for(e.0) == Some(sp@));
                    }
                    out.push(sp);
                    proof {
                        assert(out.deep_view() =~= pre.push(out.deep_view().last()));
                    }
                },
                None => {},
            }
        }
        proof {
            let cur = repo@.subrange(0, i + 1 as int);
            assert(cur.drop_last() =~= repo@.subrange(0, i as int));
            assert(cur.last() == e);
            assert(category_files(*c, cur.drop_last()) == category_files(
                *c,
                repo@.subrange(0, i as int),
            ));
            if under_category(c.name@, e.0) && c.spec_system_path_for(e.0) is Some {
                assert(category_files(*c, cur) == category_files(*c, cur.drop_last()).push(
                    c.spec_system_path_for(e.0)->0,
                ));
                assert(out.deep_view() =~= old(out).deep_view() + category_files(*c, cur));
            } else {
                assert(category_files(*c, cur) == category_files(*c, cur.drop_last()));
                assert(out.deep_view() =~= old(out).deep_view() + category_files(*c, cur));
            }
        }
        i = i + 1;
    }
    proof {
        assert(repo@.subrange(0, n as int) =~= repo@);
    }
}

/// Lists the system paths tracked by the named category, in repository
/// order; fails with `CategoryNotFound` exactly where the registry holds no
/// category of the name.
pub fn list_files_in_category(
    cats: &CategoryManager,
    repo: &TreeSnapshot,
    category_name: &str,
) -> (r: Result<Vec<String>, ConfectError>)
    ensures
        match r {
            Ok(v) => spec_get(cats@, category_name@) matches Some(c) && v.deep_view()
                == category_files(c, repo@),
            Err(e) => {
                &&& !has_category(cats@, category_name@)
                &&& e matches ConfectError::CategoryNotFound(n) && n@ == category_name@
            },
        },
{
    match cats.get(category_name) {
        Ok(c) => {
            let mut out: Vec<String> = Vec::new();
            proof {
                assert(out.deep_view() =~= Seq::<Seq<char>>::empty());
            }
            files_for_category(c, repo, &mut out);
            proof {
                assert(out.deep_view() =~= category_files(*c, repo@));
            }
            Ok(out)
        },
        Err(e) => Err(e),
    }
}

/// Lists the system paths tracked by every category, in registry order.
pub fn list_all_tracked_files(cats: &CategoryManager, repo: &TreeSnapshot) -> (r: Vec<String>)
    ensures
        r.deep_view() == all_tracked_files(cats@, repo@),
{
    let list = cats.list();
    let n: usize = list.len();
    let mut out: Vec<String> = Vec::new();
    let mut i: usize = 0;
    proof {
        assert(out.deep_view() =~= Seq::<Seq<char>>::empty());
    }
    while i < n
        invariant
            0 <= i <= n,
            n == cats@.len(),
            list@ == cats@,
            out.deep_view() =~= all_tracked_files(cats@.subrange(0, i as int), repo@),
        decreases n - i,
    {
        files_for_category(&list[i], repo, &mut out);
        proof {
            let cur = cats@.subrange(0, i + 1 as int);
            assert(cur.drop_last() =~= cats@.subrange(0, i as int));
            assert(cur.last() == cats@[i as int]);
        }
        i = i + 1;
    }
    proof {
        assert(cats@.subrange(0, n as int) =~= cats@);
    }
    out
}

/// Counts the files tracked by the named category; fails with
/// `CategoryNotFound` exactly where the registry holds no category of the
/// name.
pub fn count_files_in_category(
    cats: &CategoryManager,
    repo: &TreeSnapshot,
    category_name: &str,
) -> (r: Result<usize, ConfectError>)
    ensures
        match r {
            Ok(k) => spec_get(cats@, category_name@) matches Some(c) && k == category_files(
                c,
                repo@,
            ).len(),
            Err(e) => {
                &&& !has_category(cats@, category_name@)
                &&& e matches ConfectError::CategoryNotFound(n) && n@ == category_name@
            },
        },
{
    match list_files_in_category(cats, repo, category_name) {
        Ok(v) => Ok(v.len()),
        Err(e) => Err(e),
    }
}

/// Counts the files tracked by every category.
pub fn count_all_files(cats: &CategoryManager, repo: &TreeSnapshot) -> (r: usize)
    ensures
        r == all_tracked_files(cats@, repo@).len(),
{
    list_all_tracked_files(cats, repo).len()
}

/// Returns the name of a category whose patterns claim `path`, and
/// `PathNotTracked` exactly where none does.
pub fn get_category(cats: &CategoryManager, path: &str) -> (r: Result<String, ConfectError>)
    ensures
        match r {
            Ok(name) => exists|c: Category|
                cats@.contains(c) && c.spec_matches(path@) && name@ == c.name@,
            Err(e) => {
                &&& forall|i: int| 0 <= i < cats@.len() ==> !cats@[i].spec_matches(path@)
                &&& e matches ConfectError::PathNotTracked(p) && p@ == path@
            },
        },
{
    match cats.find_for_path(path) {
        Some(c) => {
            let name = c.name.clone();
            proof {
                assert(cats@.contains(*c) && c.spec_matches(path@) && name@ == c.name@);
            }
            Ok(name)
        },
        None => Err(ConfectError::PathNotTracked(String::from_str(path))),
    }
}

/// Some category of the registry claims `path` and its repository subtree
/// holds `content` as the copy for `path`.
pub open spec fn restored_ok(
    cats: Seq<Category>,
    repo: Seq<(Seq<char>, Seq<u8>)>,
    path: Seq<char>,
    content: Seq<u8>,
) -> bool {
    exists|c: Category|
        #![auto]
        cats.contains(c) && c.spec_matches(path) && tree_get(repo, c.spec_repo_path_for(path))
            == Some(content)
}

/// The failure `restore_file` reports for `path`: `PathNotTracked` naming
/// the path, exactly where no category claims it; or `FileNotFound` naming
/// the repository path of a claiming category whose subtree holds no copy.
pub open spec fn restore_failure(
    cats: Seq<Category>,
    repo: Seq<(Seq<char>, Seq<u8>)>,
    path: Seq<char>,
    e: ConfectError,
) -> bool {
    match e {
        ConfectError::PathNotTracked(p) => {
            &&& forall|i: int| 0 <= i < cats.len() ==> !cats[i].spec_matches(path)
            &&& p@ == path
        },
        ConfectError::FileNotFound(p) => exists|c: Category|
            #![auto]
            cats.contains(c) && c.spec_matches(path) && tree_get(
                repo,
                c.spec_repo_path_for(path),
            ) is None && p@ == c.spec_repo_path_for(path),
        _ => false,
    }
}

/// `path` is owed a successful restore: some category claims it, and every
/// category that claims it holds a repository copy for it.
pub open spec fn restore_owed(
    cats: Seq<Category>,
    repo: Seq<(Seq<char>, Seq<u8>)>,
    path: Seq<char>,
) -> bool {
    &&& exists|i: int| 0 <= i < cats.len() && cats[i].spec_matches(path)
    &&& forall|i: int|
        #![auto]
        0 <= i < cats.len() && cats[i].spec_matches(path) ==> tree_get(
            repo,
            cats[i].spec_repo_path_for(path),
        ) is Some
}

/// Some success entry of a batch result carries the given path.
pub open spec fn contains_restored(oks: Seq<(String, Vec<u8>)>, path: Seq<char>) -> bool {
    exists|j: int| 0 <= j < oks.len() && oks[j].0@ == path
}

/// Returns the repository content to copy onto `system_path`: fails with
/// `PathNotTracked` where no category claims the path, and with
/// `FileNotFound` where the owning category's repository subtree holds no
/// copy. Where every category that claims the path holds a repository copy,
/// the call succeeds.
pub fn restore_file(
    cats: &CategoryManager,
    repo: &TreeSnapshot,
    system_path: &str,
) -> (r: Result<Vec<u8>, ConfectError>)
    ensures
        match r {
            Ok(content) => restored_ok(cats@, repo@, system_path@, content@),
            Err(e) => restore_failure(cats@, repo@, system_path@, e),
        },
        (forall|i: int| 0 <= i < cats@.len() ==> !cats@[i].spec_matches(system_path@))
            ==> r matches Err(ConfectError::PathNotTracked(_)),
        restore_owed(cats@, repo@, system_path@) ==> r is Ok,
{
    match cats.find_for_path(system_path) {
        Some(c) => {
            let rp = c.repo_path_for(system_path);
            match repo.lookup(rp.as_str()) {
                Some(content) => Ok(clone_bytes(content)),
                None => Err(ConfectError::FileNotFound(rp)),
            }
        },
        None => Err(ConfectError::PathNotTracked(String::from_str(system_path))),
    }
}

/// Restores a batch of paths: per-item failures are collected and reported
/// beside the successes rather than aborting the batch. Every input path
/// lands in exactly one of the two lists; a success carries the repository
/// content for its path, a failure satisfies `restore_file`'s error
/// conditions for its path, and every path owed a restore lands in the
/// success list.
pub fn restore_batch(
    cats: &CategoryManager,
    repo: &TreeSnapshot,
    paths: &Vec<String>,
) -> (r: (Vec<(String, Vec<u8>)>, Vec<(String, ConfectError)>))
    ensures
        r.0@.len() + r.1@.len() == paths@.len(),
        forall|k: int|
            #![auto]
            0 <= k < r.0@.len() ==> restored_ok(cats@, repo@, r.0@[k].0@, r.0@[k].1@),
        forall|k: int|
            #![auto]
            0 <= k < r.1@.len() ==> restore_failure(cats@, repo@, r.1@[k].0@, r.1@[k].1),
        forall|k: int|
            #![auto]
            0 <= k < paths@.len() && restore_owed(cats@, repo@, paths@[k]@)
                ==> contains_restored(r.0@, paths@[k]@),
{
    let n: usize = paths.len();
    let mut oks: Vec<(String, Vec<u8>)> = Vec::new();
    let mut errs: Vec<(String, ConfectError)> = Vec::new();
    let mut i: usize = 0;
    while i < n
        invariant
            0 <= i <= n,
            n == paths@.len(),
            oks@.len() + errs@.len() == i,
            forall|k: int|
                #![auto]
                0 <= k < oks@.len() ==> restored_ok(cats@, repo@, oks@[k].0@, oks@[k].1@),
            forall|k: int|
                #![auto]
                0 <= k < errs@.len() ==> restore_failure(cats@, repo@, errs@[k].0@, errs@[k].1),
            forall|k: int|
                #![auto]
                0 <= k < i && restore_owed(cats@, repo@, paths@[k]@) ==> contains_restored(
                    oks@,
                    paths@[k]@,
                ),
        decreases n - i,
    {
        let ghost pre_oks = oks@;
        match restore_file(cats, repo, paths[i].as_str()) {
            Ok(content) => {
                oks.push((paths[i].clone(), content));
                proof {
                    assert forall|k: int|
                        0 <= k < i + 1 && restore_owed(cats@, repo@, paths@[k]@) implies
                        contains_restored(oks@, paths@[k]@) by {
                        if k < i as int {
                            let j = choose|j: int| 0 <= j < pre_oks.len() && pre_oks[j].0@
                                == paths@[k]@;
                            assert(oks@[j] == pre_oks[j]);
                        } else {
                            assert(oks@[pre_oks.len() as int].0@ == paths@[i as int]@);
                        }
                    }
                }
            },
            Err(e) => {
                errs.push((paths[i].clone(), e));
                proof {
                    assert(!restore_owed(cats@, repo@, paths@[i as int]@));
                    assert forall|k: int|
                        0 <= k < i + 1 && restore_owed(cats@, repo@, paths@[k]@) implies
                        contains_restored(oks@, paths@[k]@) by {
                        if k < i as int {
                            let j = choose|j: int| 0 <= j < pre_oks.len() && pre_oks[j].0@
                                == paths@[k]@;
                            assert(oks@[j] == pre_oks[j]);
                        }
                    }
                }
            },
        }
        i = i + 1;
    }
    (oks, errs)
}

/// The repository bytes for one copied file: the envelope where the owning
/// category marks the system path for encryption and a codec is supplied,
/// and the plain content otherwise. Fails exactly where an envelope is
/// called for but the supplied codec has no recipients configured.
pub fn content_for_copy(
    cat: &Category,
    codec: Option<&AgeEncryption>,
    system_path: &str,
    content: &Vec<u8>,
) -> (r: Result<Vec<u8>, ConfectError>)
    requires
        codec matches Some(c) ==> c.wf(),
    ensures
        match r {
            Ok(out) => {
                if cat.spec_should_encrypt(system_path@) && codec is Some {
                    encrypts_to(codec->0@, content@, out@)
                } else {
                    out@ == content@
                }
            },
            Err(e) => {
                &&& cat.spec_should_encrypt(system_path@)
                &&& codec matches Some(c) && c@.len() == 0
                &&& e matches ConfectError::Encryption(_)
            },
        },
{
    if cat.should_encrypt(system_path) {
        match codec {
            Some(c) => c.encrypt(content),
            None => Ok(clone_bytes(content)),
        }
    } else {
        Ok(clone_bytes(content))
    }
}

/// The system-critical roots that must never be tracked.
pub open spec fn is_forbidden_path(p: Seq<char>) -> bool {
    ||| p == "/"@
    ||| p == "/root"@
    ||| p == "/home"@
    ||| p == "/boot"@
    ||| p == "/dev"@
    ||| p == "/proc"@
    ||| p == "/sys"@
    ||| p == "/run"@
}

/// Rejects a system-critical root with `ForbiddenPath`, and accepts every
/// other path.
pub fn validate_path(path: &str) -> (r: Result<(), ConfectError>)
    ensures
        match r {
            Ok(()) => !is_forbidden_path(path@),
            Err(e) => {
                &&& is_forbidden_path(path@)
                &&& e matches ConfectError::ForbiddenPath(p) && p@ == path@
            },
        },
{
    if crate::category::str_eq(path, "/") || crate::category::str_eq(path, "/root")
        || crate::category::str_eq(path, "/home") || crate::category::str_eq(path, "/boot")
        || crate::category::str_eq(path, "/dev") || crate::category::str_eq(path, "/proc")
        || crate::category::str_eq(path, "/sys") || crate::category::str_eq(path, "/run") {
        Err(ConfectError::ForbiddenPath(String::from_str(path)))
    } else {
        Ok(())
    }
}


/// The paths of a list of tree entries, in order.
pub open spec fn paths_of(t: Seq<(Seq<char>, Seq<u8>)>) -> Seq<Seq<char>> {
    t.map_values(|e: (Seq<char>, Seq<u8>)| e.0)
}

/// The repository tree after copying `files` into category `name`: each
/// file's content stored at its mapped repository path, in order.
pub open spec fn spec_add_tree(
    name: Seq<char>,
    files: Seq<(Seq<char>, Seq<u8>)>,
    repo: Seq<(Seq<char>, Seq<u8>)>,
) -> Seq<(Seq<char>, Seq<u8>)>
    decreases files.len(),
{
    if files.len() == 0 {
        repo
    } else {
        tree_store(
            spec_add_tree(name, files.drop_last(), repo),
            repo_path_of(name, files.last().0),
            files.last().1,
        )
    }
}

/// Copies every given file into the category's repository subtree, creating
/// or overwriting the repository copy at the file's mapped path, and returns
/// the system paths processed, in order. For a directory, the caller hands
/// over every regular file and symlink beneath it, symlinks dereferenced to
/// their target's content; a symlink's target string is recorded by the
/// metadata store, never inside the repository tree.
pub fn add(category_name: &str, files: &Vec<FileEntry>, repo: &mut TreeSnapshot) -> (r: Vec<
    String,
>)
    ensures
        final(repo)@ == spec_add_tree(category_name@, entries_view(files@), old(repo)@),
        r.deep_view() == paths_of(entries_view(files@)),
{
    let n: usize = files.len();
    let mut out: Vec<String> = Vec::new();
    let mut i: usize = 0;
    proof {
        assert(entries_view(files@.subrange(0, 0)) =~= Seq::<(Seq<char>, Seq<u8>)>::empty());
        assert(out.deep_view() =~= paths_of(entries_view(files@.subrange(0, 0))));
    }
    while i < n
        invariant
            0 <= i <= n,
            n == files@.len(),
            repo@ == spec_add_tree(
                category_name@,
                entries_view(files@.subrange(0, i as int)),
                old(repo)@,
            ),
            out@.len() == i,
            out.deep_view() =~= paths_of(entries_view(files@.subrange(0, i as int))),
        decreases n - i,
    {
        let rp = crate::paths::join_repo_path(category_name, files[i].path.as_str());
        repo.store(rp, clone_bytes(&files[i].content));
        out.push(files[i].path.clone());
        proof {
            let cur = entries_view(files@.subrange(0, i + 1 as int));
            let pre = entries_view(files@.subrange(0, i as int));
            assert(cur.drop_last() =~= pre);
            assert(cur.last() == (files@[i as int].path@, files@[i as int].content@));
            assert(out.deep_view().len() == paths_of(cur).len());
            assert forall|k: int| 0 <= k < out.deep_view().len() implies out.deep_view()[k]
                == paths_of(cur)[k] by {
                assert(paths_of(cur)[k] == cur[k].0);
                if k < i as int {
                    assert(out.deep_view()[k] == paths_of(pre)[k]);
                    assert(paths_of(pre)[k] == pre[k].0);
                }
            }
            assert(out.deep_view() =~= paths_of(cur));
        }
        i = i + 1;
    }
    proof {
        assert(files@.subrange(0, n as int) =~= files@);
        assert(entries_view(files@.subrange(0, n as int)) =~= entries_view(files@));
    }
    out
}

/// What removing `path` does for the owning category `c`: where `c`'s
/// subtree holds a copy, the path is reported removed and the copy is
/// deleted exactly when deletion was asked for; where it holds none, nothing
/// is reported and the tree is unchanged.
pub open spec fn removal_described(
    c: Category,
    pre: Seq<(Seq<char>, Seq<u8>)>,
    post: Seq<(Seq<char>, Seq<u8>)>,
    path: Seq<char>,
    removed: Seq<Seq<char>>,
    delete: bool,
) -> bool {
    &&& c.spec_matches(path)
    &&& match tree_get(pre, c.spec_repo_path_for(path)) {
        Some(_) => removed == seq![path] && post == (if delete {
            tree_delete(pre, c.spec_repo_path_for(path))
        } else {
            pre
        }),
        None => removed == Seq::<Seq<char>>::empty() && post == pre,
    }
}

/// Removes `path` from tracking: resolves the owning category and, where its
/// subtree holds a repository copy, deletes that copy when asked to and
/// reports the path as removed. A path no category claims removes nothing.
pub fn remove(
    cats: &CategoryManager,
    repo: &mut TreeSnapshot,
    path: &str,
    delete_from_repo: bool,
) -> (r: Vec<String>)
    ensures
        (forall|i: int| 0 <= i < cats@.len() ==> !cats@[i].spec_matches(path@))
            ==> (final(repo)@ == old(repo)@ && r@.len() == 0),
        (exists|i: int| 0 <= i < cats@.len() && cats@[i].spec_matches(path@))
            ==> exists|c: Category|
                #![auto]
                cats@.contains(c) && removal_described(
                    c,
                    old(repo)@,
                    final(repo)@,
                    path@,
                    r.deep_view(),
                    delete_from_repo,
                ),
{
    let mut out: Vec<String> = Vec::new();
    match cats.find_for_path(path) {
        Some(c) => {
            let rp = c.repo_path_for(path);
            let present = match repo.lookup(rp.as_str()) {
                Some(_) => true,
                None => false,
            };
            if present {
                if delete_from_repo {
                    repo.delete(rp.as_str());
                }
                out.push(String::from_str(path));
            }
            proof {
                assert(out.deep_view() =~= if present {
                    seq![path@]
                } else {
                    Seq::<Seq<char>>::empty()
                });
                assert(removal_described(
                    *c,
                    old(repo)@,
                    final(repo)@,
                    path@,
                    out.deep_view(),
                    delete_from_repo,
                ));
            }
            out
        },
        None => {
            proof {
                assert(out.deep_view() =~= Seq::<Seq<char>>::empty());
            }
            out
        },
    }
}

/// One category's share of a refresh pass: the category's name and the
/// regular files its include globs expand to on the live system, each with
/// its content.
pub struct CategoryFiles {
    /// The category's name.
    pub category: String,
    /// The files the category's include patterns name, with their contents.
    pub files: Vec<FileEntry>,
}

/// The repository tree and updated-path list after refreshing one category's
/// files, in order: a file whose repository copy is missing or differs is
/// copied over and reported; an identical copy is left alone.
pub open spec fn refresh_files(
    name: Seq<char>,
    files: Seq<(Seq<char>, Seq<u8>)>,
    repo: Seq<(Seq<char>, Seq<u8>)>,
) -> (Seq<(Seq<char>, Seq<u8>)>, Seq<Seq<char>>)
    decreases files.len(),
{
    if files.len() == 0 {
        (repo, Seq::empty())
    } else {
        let prior = refresh_files(name, files.drop_last(), repo);
        let f = files.last();
        let rp = repo_path_of(name, f.0);
        if tree_get(prior.0, rp) == Some(f.1) {
            prior
        } else {
            (tree_store(prior.0, rp, f.1), prior.1.push(f.0))
        }
    }
}

/// The repository tree and updated-path list after refreshing every group,
/// in order.
pub open spec fn refresh_groups(
    groups: Seq<CategoryFiles>,
    repo: Seq<(Seq<char>, Seq<u8>)>,
) -> (Seq<(Seq<char>, Seq<u8>)>, Seq<Seq<char>>)
    decreases groups.len(),
{
    if groups.len() == 0 {
        (repo, Seq::empty())
    } else {
        let prior = refresh_groups(groups.drop_last(), repo);
        let g = groups.last();
        let step = refresh_files(g.category@, entries_view(g.files@), prior.0);
        (step.0, prior.1 + step.1)
    }
}

/// Refreshes one category: copies every given file whose repository copy is
/// missing or differs, appending the updated system paths to `updated`.
fn refresh_category(
    name: &str,
    files: &Vec<FileEntry>,
    repo: &mut TreeSnapshot,
    updated: &mut Vec<String>,
)
    ensures
        final(repo)@ == refresh_files(name@, entries_view(files@), old(repo)@).0,
        final(updated).deep_view() == old(updated).deep_view() + refresh_files(
            name@,
            entries_view(files@),
            old(repo)@,
        ).1,
{
    let n: usize = files.len();
    let mut i: usize = 0;
    proof {
        assert(entries_view(files@.subrange(0, 0)) =~= Seq::<(Seq<char>, Seq<u8>)>::empty());
        assert(updated.deep_view() =~= old(updated).deep_view() + refresh_files(
            name@,
            entries_view(files@.subrange(0, 0)),
            old(repo)@,
        ).1);
    }
    while i < n
        invariant
            0 <= i <= n,
            n == files@.len(),
            repo@ == refresh_files(
                name@,
                entries_view(files@.subrange(0, i as int)),
                old(repo)@,
            ).0,
            updated.deep_view() =~= old(updated).deep_view() + refresh_files(
                name@,
                entries_view(files@.subrange(0, i as int)),
                old(repo)@,
            ).1,
        decreases n - i,
    {
        let ghost pre_tree = repo@;
        let ghost pre_upd = updated.deep_view();
        let rp = crate::paths::join_repo_path(name, files[i].path.as_str());
        let same = match repo.lookup(rp.as_str()) {
            Some(c) => crate::tree::bytes_eq(c, &files[i].content),
            None => false,
        };
        if !same {
            repo.store(rp, clone_bytes(&files[i].content));
            updated.push(files[i].path.clone());
        }
        proof {
            let cur = entries_view(files@.subrange(0, i + 1 as int));
            let pre = entries_view(files@.subrange(0, i as int));
            assert(cur.drop_last() =~= pre);
            assert(cur.last() == (files@[i as int].path@, files@[i as int].content@));
            if !same {
                assert(updated.deep_view() =~= pre_upd.push(files@[i as int].path@));
            }
            assert(updated.deep_view() =~= old(updated).deep_view() + refresh_files(
                name@,
                cur,
                old(repo)@,
            ).1);
        }
        i = i + 1;
    }
    proof {
        assert(files@.subrange(0, n as int) =~= files@);
        assert(entries_view(files@.subrange(0, n as int)) =~= entries_view(files@));
    }
}

/// Refreshes every tracked file from the system to the repository: for each
/// group, each file whose repository copy is missing or differs in content
/// is copied over, and its system path reported, in order. This is the
/// system-to-repository direction run before committing changes.
pub fn refresh_all(groups: &Vec<CategoryFiles>, repo: &mut TreeSnapshot) -> (updated: Vec<
    String,
>)
    ensures
        final(repo)@ == refresh_groups(groups@, old(repo)@).0,
        updated.deep_view() == refresh_groups(groups@, old(repo)@).1,
{
    let n: usize = groups.len();
    let mut updated: Vec<String> = Vec::new();
    let mut i: usize = 0;
    proof {
        assert(updated.deep_view() =~= refresh_groups(groups@.subrange(0, 0), old(repo)@).1);
    }
    while i < n
        invariant
            0 <= i <= n,
            n == groups@.len(),
            repo@ == refresh_groups(groups@.subrange(0, i as int), old(repo)@).0,
            updated.deep_view() =~= refresh_groups(groups@.subrange(0, i as int), old(repo)@).1,
        decreases n - i,
    {
        refresh_category(groups[i].category.as_str(), &groups[i].files, repo, &mut updated);
        proof {
            let cur = groups@.subrange(0, i + 1 as int);
            assert(cur.drop_last() =~= groups@.subrange(0, i as int));
            assert(cur.last() == groups@[i as int]);
        }
        i = i + 1;
    }
    proof {
        assert(groups@.subrange(0, n as int) =~= groups@);
    }
    updated
}


/// The repository path that entry `i` of group `k` is stored under.
pub open spec fn group_entry_path(groups: Seq<CategoryFiles>, k: int, i: int) -> Seq<char> {
    repo_path_of(groups[k].category@, groups[k].files@[i].path@)
}

/// The groups of one refresh pass are consistent: two entries stored under
/// the same repository path carry the same content. This holds whenever the
/// groups are built from one system snapshot with no intervening change.
pub open spec fn groups_consistent(groups: Seq<CategoryFiles>) -> bool {
    forall|k1: int, i1: int, k2: int, i2: int|
        0 <= k1 < groups.len() && 0 <= i1 < groups[k1].files@.len() && 0 <= k2 < groups.len() && 0
            <= i2 < groups[k2].files@.len() && #[trigger] group_entry_path(groups, k1, i1)
            == #[trigger] group_entry_path(groups, k2, i2)
            ==> groups[k1].files@[i1].content@ == groups[k2].files@[i2].content@
}

/// A file list is consistent: two entries mapped to the same repository path
/// carry the same content.
pub open spec fn files_consistent(name: Seq<char>, files: Seq<(Seq<char>, Seq<u8>)>) -> bool {
    forall|i: int, j: int|
        0 <= i < files.len() && 0 <= j < files.len() && #[trigger] repo_path_of(name, files[i].0)
            == #[trigger] repo_path_of(name, files[j].0) ==> files[i].1 == files[j].1
}

/// The tree already holds every file of the list at its mapped repository
/// path, with identical content.
pub open spec fn tree_holds_files(
    name: Seq<char>,
    files: Seq<(Seq<char>, Seq<u8>)>,
    t: Seq<(Seq<char>, Seq<u8>)>,
) -> bool {
    forall|i: int|
        0 <= i < files.len() ==> #[trigger] tree_get(t, repo_path_of(name, files[i].0)) == Some(
            files[i].1,
        )
}

/// The tree already holds every file of every group.
pub open spec fn tree_holds_groups(groups: Seq<CategoryFiles>, t: Seq<(Seq<char>, Seq<u8>)>) -> bool {
    forall|k: int|
        0 <= k < groups.len() ==> #[trigger] tree_holds_files(
            groups[k].category@,
            entries_view(groups[k].files@),
            t,
        )
}

/// Refreshing a file list that the tree already holds changes nothing and
/// reports nothing.
proof fn lemma_refresh_files_noop(
    name: Seq<char>,
    files: Seq<(Seq<char>, Seq<u8>)>,
    t: Seq<(Seq<char>, Seq<u8>)>,
)
    requires
        tree_holds_files(name, files, t),
    ensures
        refresh_files(name, files, t) == (t, Seq::<Seq<char>>::empty()),
    decreases files.len(),
{
    if files.len() > 0 {
        assert(tree_holds_files(name, files.drop_last(), t)) by {
            assert forall|i: int| 0 <= i < files.drop_last().len() implies #[trigger] tree_get(
                t,
                repo_path_of(name, files.drop_last()[i].0),
            ) == Some(files.drop_last()[i].1) by {
                assert(files.drop_last()[i] == files[i]);
            }
        }
        lemma_refresh_files_noop(name, files.drop_last(), t);
        assert(files.last() == files[files.len() - 1]);
    }
}

/// After a refresh pass over a consistent file list, the tree holds every
/// file of the list; every other path is untouched, and a touched path holds
/// a listed file's content.
proof fn lemma_refresh_files_post(
    name: Seq<char>,
    files: Seq<(Seq<char>, Seq<u8>)>,
    t: Seq<(Seq<char>, Seq<u8>)>,
)
    requires
        files_consistent(name, files),
    ensures
        tree_holds_files(name, files, refresh_files(name, files, t).0),
        forall|q: Seq<char>|
            #![auto]
            tree_get(refresh_files(name, files, t).0, q) == tree_get(t, q) || exists|i: int|
                0 <= i < files.len() && repo_path_of(name, files[i].0) == q && tree_get(
                    refresh_files(name, files, t).0,
                    q,
                ) == Some(files[i].1),
    decreases files.len(),
{
    if files.len() > 0 {
        let pre = files.drop_last();
        assert(files_consistent(name, pre)) by {
            assert forall|i: int, j: int|
                0 <= i < pre.len() && 0 <= j < pre.len() && #[trigger] repo_path_of(
                    name,
                    pre[i].0,
                ) == #[trigger] repo_path_of(name, pre[j].0) implies pre[i].1 == pre[j].1 by {
                assert(pre[i] == files[i] && pre[j] == files[j]);
            }
        }
        lemma_refresh_files_post(name, pre, t);
        let t1 = refresh_files(name, pre, t).0;
        let f = files.last();
        let rp = repo_path_of(name, f.0);
        let t2 = refresh_files(name, files, t).0;
        assert(f == files[files.len() - 1]);
        if tree_get(t1, rp) == Some(f.1) {
            assert(t2 == t1);
            assert forall|i: int| 0 <= i < files.len() implies #[trigger] tree_get(
                t2,
                repo_path_of(name, files[i].0),
            ) == Some(files[i].1) by {
                if i < files.len() - 1 {
                    assert(pre[i] == files[i]);
                    assert(tree_get(t1, repo_path_of(name, pre[i].0)) == Some(pre[i].1));
                }
            }
        } else {
            assert(t2 == tree_store(t1, rp, f.1));
            assert forall|i: int| 0 <= i < files.len() implies #[trigger] tree_get(
                t2,
                repo_path_of(name, files[i].0),
            ) == Some(files[i].1) by {
                let rpi = repo_path_of(name, files[i].0);
                lemma_tree_get_store(t1, rp, f.1, rpi);
                if rpi == rp {
                    assert(files[i].1 == f.1);
                } else {
                    assert(i < files.len() - 1);
                    assert(pre[i] == files[i]);
                    assert(tree_get(t1, repo_path_of(name, pre[i].0)) == Some(pre[i].1));
                }
            }
            assert forall|q: Seq<char>|
                #![auto]
                tree_get(t2, q) == tree_get(t, q) || exists|i: int|
                    0 <= i < files.len() && repo_path_of(name, files[i].0) == q && tree_get(t2, q)
                        == Some(files[i].1) by {
                lemma_tree_get_store(t1, rp, f.1, q);
                if q == rp {
                    assert(0 <= files.len() - 1 < files.len() && repo_path_of(
                        name,
                        files[files.len() - 1].0,
                    ) == q && tree_get(t2, q) == Some(files[files.len() - 1].1));
                } else {
                    if tree_get(t1, q) == tree_get(t, q) {
                    } else {
                        let i = choose|i: int|
                            0 <= i < pre.len() && repo_path_of(name, pre[i].0) == q && tree_get(
                                t1,
                                q,
                            ) == Some(pre[i].1);
                        assert(pre[i] == files[i]);
                        assert(0 <= i < files.len() && repo_path_of(name, files[i].0) == q
                            && tree_get(t2, q) == Some(files[i].1));
                    }
                }
            }
        }
    }
}

/// After a full refresh pass over consistent groups, the tree holds every
/// file of every group.
proof fn lemma_refresh_groups_post(groups: Seq<CategoryFiles>, t: Seq<(Seq<char>, Seq<u8>)>)
    requires
        groups_consistent(groups),
    ensures
        tree_holds_groups(groups, refresh_groups(groups, t).0),
    decreases groups.len(),
{
    if groups.len() > 0 {
        let pre = groups.drop_last();
        let last_k = groups.len() - 1;
        assert(groups_consistent(pre)) by {
            assert forall|k1: int, i1: int, k2: int, i2: int|
                0 <= k1 < pre.len() && 0 <= i1 < pre[k1].files@.len() && 0 <= k2 < pre.len() && 0
                    <= i2 < pre[k2].files@.len() && #[trigger] group_entry_path(pre, k1, i1)
                    == #[trigger] group_entry_path(pre, k2, i2) implies pre[k1].files@[i1].content@
                == pre[k2].files@[i2].content@ by {
                assert(pre[k1] == groups[k1] && pre[k2] == groups[k2]);
                assert(group_entry_path(groups, k1, i1) == group_entry_path(groups, k2, i2));
            }
        }
        lemma_refresh_groups_post(pre, t);
        let t1 = refresh_groups(pre, t).0;
        let g = groups.last();
        let gname = g.category@;
        let gfiles = entries_view(g.files@);
        assert(g == groups[last_k]);
        assert(files_consistent(gname, gfiles)) by {
            assert forall|i: int, j: int|
                0 <= i < gfiles.len() && 0 <= j < gfiles.len() && #[trigger] repo_path_of(
                    gname,
                    gfiles[i].0,
                ) == #[trigger] repo_path_of(gname, gfiles[j].0) implies gfiles[i].1
                == gfiles[j].1 by {
                assert(gfiles[i] == (g.files@[i].path@, g.files@[i].content@));
                assert(gfiles[j] == (g.files@[j].path@, g.files@[j].content@));
                assert(group_entry_path(groups, last_k, i) == group_entry_path(groups, last_k, j));
            }
        }
        lemma_refresh_files_post(gname, gfiles, t1);
        let t2 = refresh_files(gname, gfiles, t1).0;
        assert(refresh_groups(groups, t).0 == t2);
        assert forall|k: int| 0 <= k < groups.len() implies #[trigger] tree_holds_files(
            groups[k].category@,
            entries_view(groups[k].files@),
            t2,
        ) by {
            if k == last_k {
            } else {
                assert(pre[k] == groups[k]);
                let kname = groups[k].category@;
                let kfiles = entries_view(groups[k].files@);
                assert(tree_holds_files(kname, kfiles, t1));
                assert forall|i: int| 0 <= i < kfiles.len() implies #[trigger] tree_get(
                    t2,
                    repo_path_of(kname, kfiles[i].0),
                ) == Some(kfiles[i].1) by {
                    let q = repo_path_of(kname, kfiles[i].0);
                    assert(kfiles[i] == (groups[k].files@[i].path@, groups[k].files@[i].content@));
                    assert(q == group_entry_path(groups, k, i));
                    assert(tree_get(t1, q) == Some(kfiles[i].1));
                    if tree_get(t2, q) == tree_get(t1, q) {
                    } else {
                        let j = choose|j: int|
                            0 <= j < gfiles.len() && repo_path_of(gname, gfiles[j].0) == q
                                && tree_get(t2, q) == Some(gfiles[j].1);
                        assert(gfiles[j] == (g.files@[j].path@, g.files@[j].content@));
                        assert(group_entry_path(groups, last_k, j) == q);
                        assert(groups[last_k].files@[j].content@ == groups[k].files@[i].content@);
                    }
                }
            }
        }
    }
}

/// Refreshing groups that the tree already holds changes nothing and reports
/// nothing.
proof fn lemma_refresh_groups_noop(groups: Seq<CategoryFiles>, t: Seq<(Seq<char>, Seq<u8>)>)
    requires
        tree_holds_groups(groups, t),
    ensures
        refresh_groups(groups, t) == (t, Seq::<Seq<char>>::empty()),
    decreases groups.len(),
{
    if groups.len() > 0 {
        let pre = groups.drop_last();
        assert(tree_holds_groups(pre, t)) by {
            assert forall|k: int| 0 <= k < pre.len() implies #[trigger] tree_holds_files(
                pre[k].category@,
                entries_view(pre[k].files@),
                t,
            ) by {
                assert(pre[k] == groups[k]);
                assert(tree_holds_files(groups[k].category@, entries_view(groups[k].files@), t));
            }
        }
        lemma_refresh_groups_noop(pre, t);
        let g = groups.last();
        assert(g == groups[groups.len() - 1]);
        assert(tree_holds_files(g.category@, entries_view(g.files@), t));
        lemma_refresh_files_noop(g.category@, entries_view(g.files@), t);
        assert(refresh_groups(groups, t).1 =~= Seq::<Seq<char>>::empty());
    }
}

/// Law (refresh idempotence): running a refresh pass twice over one system
/// snapshot updates no file the second time, and the second pass leaves the
/// repository tree exactly as the first pass left it.
pub proof fn lemma_refresh_idempotent(
    groups: Seq<CategoryFiles>,
    repo: Seq<(Seq<char>, Seq<u8>)>,
)
    requires
        groups_consistent(groups),
    ensures
        refresh_groups(groups, refresh_groups(groups, repo).0).0 == refresh_groups(
            groups,
            repo,
        ).0,
        refresh_groups(groups, refresh_groups(groups, repo).0).1 == Seq::<Seq<char>>::empty(),
{
    lemma_refresh_groups_post(groups, repo);
    lemma_refresh_groups_noop(groups, refresh_groups(groups, repo).0);
}

} // verus!
