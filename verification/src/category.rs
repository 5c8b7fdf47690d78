//! Categories: named groups of glob patterns that classify system paths and
//! carry the bidirectional mapping between absolute system paths and
//! category-relative repository paths.

use vstd::prelude::*;

use crate::error::ConfectError;
use crate::paths::{find_separator, first_separator, strip_leading_separators, strip_separators,
    valid_abs_path, valid_category_name};

verus! {

/// Whether `pat` compiles as a glob pattern; names the success of
/// `glob::Pattern::new` on `pat`.
pub uninterp spec fn is_glob_pattern(pat: Seq<char>) -> bool;

/// Whether the glob pattern `pat` matches the string `text`; names the result
/// of `glob::Pattern::matches`, which depends on its two arguments alone.
pub uninterp spec fn glob_matches(pat: Seq<char>, text: Seq<char>) -> bool;

/// Relies on glob's `Pattern::new` and `Pattern::matches`: compiling a pattern
/// succeeds or fails on the pattern text alone, and matching is a pure
/// function of the compiled pattern and the candidate string.
#[verifier::external_body]
fn glob_match(pattern: &str, text: &str) -> (r: Option<bool>)
    ensures
        r is Some <==> is_glob_pattern(pattern@),
        r matches Some(m) ==> m == glob_matches(pattern@, text@),
{
    match glob::Pattern::new(pattern) {
        Ok(p) => Some(p.matches(text)),
        Err(_) => None,
    }
}

/// Returns whether the character sequences of `a` and `b` are equal.
pub fn str_eq(a: &str, b: &str) -> (r: bool)
    ensures
        r == (a@ == b@),
{
    let n: usize = a.unicode_len();
    if n != b.unicode_len() {
        return false;
    }
    let mut i: usize = 0;
    while i < n
        invariant
            0 <= i <= n,
            n == a@.len() == b@.len(),
            forall|j: int| 0 <= j < i ==> a@[j] == b@[j],
        decreases n - i,
    {
        if a.get_char(i) != b.get_char(i) {
            return false;
        }
        i = i + 1;
    }
    proof {
        assert(a@ =~= b@);
    }
    true
}

/// The glob pattern `pat` is well formed and matches `path`.
pub open spec fn pattern_hits(pat: Seq<char>, path: Seq<char>) -> bool {
    is_glob_pattern(pat) && glob_matches(pat, path)
}

/// Some pattern in `pats` is well formed and matches `path`.
pub open spec fn any_pattern_hits(pats: Seq<Seq<char>>, path: Seq<char>) -> bool {
    exists|i: int| 0 <= i < pats.len() && pattern_hits(pats[i], path)
}

/// Some entry in `pats` matches `path` as a glob, or equals it literally.
pub open spec fn any_include_hits(pats: Seq<Seq<char>>, path: Seq<char>) -> bool {
    exists|i: int| 0 <= i < pats.len() && (pattern_hits(pats[i], path) || pats[i] == path)
}

/// Returns whether any pattern in `pats` is a well-formed glob matching `path`.
fn any_glob_hit(pats: &Vec<String>, path: &str) -> (r: bool)
    ensures
        r == any_pattern_hits(pats.deep_view(), path@),
{
    let n: usize = pats.len();
    let mut i: usize = 0;
    while i < n
        invariant
            0 <= i <= n,
            n == pats@.len(),
            pats.deep_view().len() == pats@.len(),
            forall|j: int| 0 <= j < pats@.len() ==> pats.deep_view()[j] == pats@[j]@,
            forall|j: int| 0 <= j < i ==> !pattern_hits(pats.deep_view()[j], path@),
        decreases n - i,
    {
        if let Some(true) = glob_match(pats[i].as_str(), path) {
            assert(pattern_hits(pats.deep_view()[i as int], path@));
            return true;
        }
        i = i + 1;
    }
    false
}

/// A category: a name, an optional description, and the ordered include,
/// encrypt and exclude pattern lists that classify system paths.
pub struct Category {
    /// The unique name; it is also the root of the category's repository
    /// subtree.
    pub name: String,
    /// A free-form description.
    pub description: Option<String>,
    /// Include patterns: globs or literal paths whose matches belong to the
    /// category.
    pub paths: Vec<String>,
    /// Encrypt patterns: globs whose matches are stored encrypted.
    pub encrypt: Vec<String>,
    /// Exclude patterns: globs whose matches never belong to the category,
    /// whatever the include patterns say.
    pub exclude: Vec<String>,
}

impl Category {
    /// A path belongs to the category when no exclude pattern matches it and
    /// some include entry matches it as a glob or equals it literally.
    /// An exclude match wins unconditionally.
    pub open spec fn spec_matches(self, path: Seq<char>) -> bool {
        &&& !any_pattern_hits(self.exclude.deep_view(), path)
        &&& any_include_hits(self.paths.deep_view(), path)
    }

    /// A path is stored encrypted when some encrypt pattern matches it.
    pub open spec fn spec_should_encrypt(self, path: Seq<char>) -> bool {
        any_pattern_hits(self.encrypt.deep_view(), path)
    }

    /// The repository path for an absolute system path: the category name,
    /// a separator, and the system path with its leading separators removed.
    pub open spec fn spec_repo_path_for(self, system_path: Seq<char>) -> Seq<char> {
        crate::paths::repo_path_of(self.name@, system_path)
    }

    /// The system path for a repository path: the part after the first
    /// separator, with any further leading separators removed and one
    /// separator re-prepended. A repository path without a separator, or one
    /// whose remainder is empty, names the bare category root and maps to no
    /// system path.
    pub open spec fn spec_system_path_for(self, repo_path: Seq<char>) -> Option<Seq<char>> {
        match first_separator(repo_path) {
            Some(i) => {
                let rest = strip_leading_separators(repo_path.subrange(i, repo_path.len() as int));
                if rest.len() == 0 {
                    None
                } else {
                    Some(seq!['/'] + rest)
                }
            },
            None => None,
        }
    }

    /// Creates an empty category of the given name.
    pub fn new(name: &str) -> (r: Self)
        ensures
            r.name@ == name@,
            r.description is None,
            r.paths@.len() == 0,
            r.encrypt@.len() == 0,
            r.exclude@.len() == 0,
    {
        Self {
            name: String::from_str(name),
            description: None,
            paths: Vec::new(),
            encrypt: Vec::new(),
            exclude: Vec::new(),
        }
    }

    /// Returns whether `path` belongs to this category. Exclude patterns are
    /// checked first: any exclude match makes the result false regardless of
    /// the include patterns.
    pub fn matches(&self, path: &str) -> (r: bool)
        ensures
            r == self.spec_matches(path@),
    {
        if any_glob_hit(&self.exclude, path) {
            return false;
        }
        let n: usize = self.paths.len();
        let mut i: usize = 0;
        while i < n
            invariant
                0 <= i <= n,
                n == self.paths@.len(),
                !any_pattern_hits(self.exclude.deep_view(), path@),
                self.paths.deep_view().len() == self.paths@.len(),
                forall|j: int| 0 <= j < self.paths@.len()
                    ==> self.paths.deep_view()[j] == self.paths@[j]@,
                forall|j: int| 0 <= j < i
                    ==> !(pattern_hits(self.paths.deep_view()[j], path@)
                        || self.paths.deep_view()[j] == path@),
            decreases n - i,
        {
            if let Some(true) = glob_match(self.paths[i].as_str(), path) {
                assert(pattern_hits(self.paths.deep_view()[i as int], path@));
                assert(any_include_hits(self.paths.deep_view(), path@));
                return true;
            }
            if str_eq(self.paths[i].as_str(), path) {
                assert(self.paths.deep_view()[i as int] == path@);
                assert(any_include_hits(self.paths.deep_view(), path@));
                return true;
            }
            i = i + 1;
        }
        false
    }

    /// Returns whether a file at `path` should be stored encrypted.
    pub fn should_encrypt(&self, path: &str) -> (r: bool)
        ensures
            r == self.spec_should_encrypt(path@),
    {
        any_glob_hit(&self.encrypt, path)
    }

    /// Returns the repository path for an absolute system path.
    pub fn repo_path_for(&self, system_path: &str) -> (r: String)
        ensures
            r@ == self.spec_repo_path_for(system_path@),
    {
        crate::paths::join_repo_path(self.name.as_str(), system_path)
    }

    /// Returns the system path for a repository path, or `None` where the
    /// repository path holds nothing beyond the category-root component.
    pub fn system_path_for(&self, repo_path: &str) -> (r: Option<String>)
        ensures
            match r {
                Some(p) => self.spec_system_path_for(repo_path@) == Some(p@),
                None => self.spec_system_path_for(repo_path@) is None,
            },
    {
        let n: usize = repo_path.unicode_len();
        proof {
            repo_path@.index_of_first_ensures('/');
        }
        match find_separator(repo_path) {
            Some(i) => {
                let tail = repo_path.substring_char(i, n);
                let rest = strip_separators(tail);
                if rest.as_str().unicode_len() == 0 {
                    None
                } else {
                    let mut out = String::from_str("/");
                    out.append(rest.as_str());
                    proof {
                        reveal_strlit("/");
                        assert(out@ =~= seq!['/'] + strip_leading_separators(
                            repo_path@.subrange(i as int, repo_path@.len() as int)));
                    }
                    Some(out)
                }
            },
            None => None,
        }
    }
}


/// The first category of the given name in `cats`, if any.
pub open spec fn spec_get(cats: Seq<Category>, name: Seq<char>) -> Option<Category>
    decreases cats.len(),
{
    if cats.len() == 0 {
        None
    } else if cats[0].name@ == name {
        Some(cats[0])
    } else {
        spec_get(cats.drop_first(), name)
    }
}

/// Some category of the given name is in `cats`.
pub open spec fn has_category(cats: Seq<Category>, name: Seq<char>) -> bool {
    spec_get(cats, name) is Some
}

/// Some string in `v` has the character sequence `s`.
pub open spec fn contains_str(v: Seq<String>, s: Seq<char>) -> bool {
    exists|i: int| 0 <= i < v.len() && v[i]@ == s
}

/// `spec_get` finds exactly the first entry of the given name.
pub proof fn lemma_spec_get_at(cats: Seq<Category>, name: Seq<char>, i: int)
    requires
        0 <= i < cats.len(),
        cats[i].name@ == name,
        forall|j: int| 0 <= j < i ==> cats[j].name@ != name,
    ensures
        spec_get(cats, name) == Some(cats[i]),
    decreases i,
{
    if i > 0 {
        lemma_spec_get_at(cats.drop_first(), name, i - 1);
    }
}

/// Where no entry bears the name, `spec_get` finds none.
pub proof fn lemma_spec_get_none(cats: Seq<Category>, name: Seq<char>)
    requires
        forall|j: int| 0 <= j < cats.len() ==> cats[j].name@ != name,
    ensures
        spec_get(cats, name) is None,
    decreases cats.len(),
{
    if cats.len() > 0 {
        lemma_spec_get_none(cats.drop_first(), name);
    }
}

/// The registry of categories. Category names are unique within a registry;
/// `wf` states that invariant and every operation preserves it.
pub struct CategoryManager {
    categories: Vec<Category>,
}

impl View for CategoryManager {
    type V = Seq<Category>;

    closed spec fn view(&self) -> Seq<Category> {
        self.categories@
    }
}

impl CategoryManager {
    /// Category names are unique within the registry.
    pub open spec fn wf(self) -> bool {
        forall|i: int, j: int|
            0 <= i < j < self@.len() ==> self@[i].name@ != self@[j].name@
    }

    /// Creates an empty registry.
    pub fn new() -> (r: Self)
        ensures
            r@.len() == 0,
            r.wf(),
    {
        Self { categories: Vec::new() }
    }

    /// All categories, in registry order.
    pub fn list(&self) -> (r: &Vec<Category>)
        ensures
            r@ == self@,
    {
        &self.categories
    }

    /// Returns whether a category of the given name is in the registry.
    pub fn contains_category(&self, name: &str) -> (r: bool)
        ensures
            r == has_category(self@, name@),
    {
        let n: usize = self.categories.len();
        let mut i: usize = 0;
        while i < n
            invariant
                0 <= i <= n,
                n == self@.len(),
                forall|j: int| 0 <= j < i ==> self@[j].name@ != name@,
            decreases n - i,
        {
            if str_eq(self.categories[i].name.as_str(), name) {
                proof {
                    lemma_spec_get_at(self@, name@, i as int);
                }
                return true;
            }
            i = i + 1;
        }
        proof {
            lemma_spec_get_none(self@, name@);
        }
        false
    }


    /// Returns the category of the given name, and `CategoryNotFound` exactly
    /// where the registry holds none.
    pub fn get(&self, name: &str) -> (r: Result<&Category, ConfectError>)
        ensures
            match r {
                Ok(c) => spec_get(self@, name@) == Some(*c),
                Err(e) => {
                    &&& !has_category(self@, name@)
                    &&& e matches ConfectError::CategoryNotFound(n) && n@ == name@
                },
            },
    {
        let n: usize = self.categories.len();
        let mut i: usize = 0;
        while i < n
            invariant
                0 <= i <= n,
                n == self@.len(),
                forall|j: int| 0 <= j < i ==> self@[j].name@ != name@,
            decreases n - i,
        {
            if str_eq(self.categories[i].name.as_str(), name) {
                proof {
                    lemma_spec_get_at(self@, name@, i as int);
                }
                return Ok(&self.categories[i]);
            }
            i = i + 1;
        }
        proof {
            lemma_spec_get_none(self@, name@);
        }
        Err(ConfectError::CategoryNotFound(String::from_str(name)))
    }
}


/// Returns whether some string in `v` has the character sequence of `s`.
pub fn vec_contains_str(v: &Vec<String>, s: &str) -> (r: bool)
    ensures
        r == contains_str(v@, s@),
{
    let n: usize = v.len();
    let mut i: usize = 0;
    while i < n
        invariant
            0 <= i <= n,
            n == v@.len(),
            forall|j: int| 0 <= j < i ==> v@[j]@ != s@,
        decreases n - i,
    {
        if str_eq(v[i].as_str(), s) {
            return true;
        }
        i = i + 1;
    }
    false
}

impl CategoryManager {
    /// Adds a category, and fails with `CategoryAlreadyExists` exactly where
    /// the registry already holds one of the same name. Uniqueness of names
    /// is preserved.
    pub fn add(&mut self, category: Category) -> (r: Result<(), ConfectError>)
        ensures
            match r {
                Ok(()) => {
                    &&& !has_category(old(self)@, category.name@)
                    &&& final(self)@ == old(self)@.push(category)
                },
                Err(e) => {
                    &&& has_category(old(self)@, category.name@)
                    &&& final(self)@ == old(self)@
                    &&& e matches ConfectError::CategoryAlreadyExists(n) && n@ == category.name@
                },
            },
            old(self).wf() ==> final(self).wf(),
    {
        proof {
            lemma_has_category_iff(self@, category.name@);
        }
        if self.contains_category(category.name.as_str()) {
            return Err(ConfectError::CategoryAlreadyExists(category.name.clone()));
        }
        self.categories.push(category);
        Ok(())
    }

    /// Creates a category of the given name, description and include
    /// patterns, and fails with `CategoryAlreadyExists` exactly where the
    /// registry already holds one of the same name.
    pub fn create(&mut self, name: &str, description: Option<String>, paths: Vec<String>) -> (r:
        Result<(), ConfectError>)
        ensures
            match r {
                Ok(()) => {
                    &&& !has_category(old(self)@, name@)
                    &&& final(self)@.len() == old(self)@.len() + 1
                    &&& final(self)@.drop_last() == old(self)@
                    &&& final(self)@.last().name@ == name@
                    &&& final(self)@.last().description == description
                    &&& final(self)@.last().paths == paths
                    &&& final(self)@.last().encrypt@.len() == 0
                    &&& final(self)@.last().exclude@.len() == 0
                },
                Err(e) => {
                    &&& has_category(old(self)@, name@)
                    &&& final(self)@ == old(self)@
                    &&& e matches ConfectError::CategoryAlreadyExists(n) && n@ == name@
                },
            },
            old(self).wf() ==> final(self).wf(),
    {
        let cat = Category {
            name: String::from_str(name),
            description,
            paths,
            encrypt: Vec::new(),
            exclude: Vec::new(),
        };
        let r = self.add(cat);
        proof {
            if r is Ok {
                assert(final(self)@.drop_last() =~= old(self)@);
            }
        }
        match r {
            Ok(()) => Ok(()),
            Err(e) => Err(e),
        }
    }

    /// Removes the category of the given name, and fails with
    /// `CategoryNotFound` exactly where the registry holds none.
    pub fn remove(&mut self, name: &str) -> (r: Result<(), ConfectError>)
        ensures
            match r {
                Ok(()) => exists|i: int|
                    {
                        &&& 0 <= i < old(self)@.len()
                        &&& old(self)@[i].name@ == name@
                        &&& (forall|j: int| 0 <= j < i ==> old(self)@[j].name@ != name@)
                        &&& final(self)@ == old(self)@.remove(i)
                    },
                Err(e) => {
                    &&& !has_category(old(self)@, name@)
                    &&& final(self)@ == old(self)@
                    &&& e matches ConfectError::CategoryNotFound(n) && n@ == name@
                },
            },
            old(self).wf() ==> final(self).wf(),
    {
        let n: usize = self.categories.len();
        let mut i: usize = 0;
        while i < n
            invariant
                0 <= i <= n,
                n == self@.len(),
                self@ == old(self)@,
                forall|j: int| 0 <= j < i ==> self@[j].name@ != name@,
            decreases n - i,
        {
            if str_eq(self.categories[i].name.as_str(), name) {
                let ghost pre = self@;
                let ghost idx = i as int;
                self.categories.remove(i);
                proof {
                    assert(final(self)@ == pre.remove(idx));
                    if old(self).wf() {
                        assert(forall|x: int, y: int|
                            0 <= x < y < pre.remove(idx).len() ==> pre.remove(idx)[x].name@
                                != pre.remove(idx)[y].name@);
                    }
                }
                return Ok(());
            }
            i = i + 1;
        }
        proof {
            lemma_spec_get_none(self@, name@);
        }
        Err(ConfectError::CategoryNotFound(String::from_str(name)))
    }

    /// Returns a category whose patterns claim `path`, if any does. Which one
    /// is returned when several claim the path is not part of the contract.
    pub fn find_for_path(&self, path: &str) -> (r: Option<&Category>)
        ensures
            match r {
                Some(c) => self@.contains(*c) && c.spec_matches(path@),
                None => forall|i: int| 0 <= i < self@.len() ==> !self@[i].spec_matches(path@),
            },
    {
        let n: usize = self.categories.len();
        let mut i: usize = 0;
        while i < n
            invariant
                0 <= i <= n,
                n == self@.len(),
                forall|j: int| 0 <= j < i ==> !self@[j].spec_matches(path@),
            decreases n - i,
        {
            if self.categories[i].matches(path) {
                return Some(&self.categories[i]);
            }
            i = i + 1;
        }
        None
    }

    /// Returns whether the category of the given name claims `path`; false
    /// where the registry holds no such category.
    pub fn contains_path(&self, category_name: &str, path: &str) -> (r: bool)
        ensures
            r == match spec_get(self@, category_name@) {
                Some(c) => c.spec_matches(path@),
                None => false,
            },
    {
        match self.get(category_name) {
            Ok(cat) => cat.matches(path),
            Err(_) => false,
        }
    }

    /// Appends `path` to the include patterns of the named category unless
    /// already present, and, when `encrypt` is set, to its encrypt patterns
    /// unless already present. Fails with `CategoryNotFound` exactly where
    /// the registry holds no category of the name.
    pub fn add_path(&mut self, name: &str, path: String, encrypt: bool) -> (r: Result<
        (),
        ConfectError,
    >)
        ensures
            match r {
                Ok(()) => exists|i: int|
                    {
                        &&& 0 <= i < old(self)@.len()
                        &&& old(self)@[i].name@ == name@
                        &&& final(self)@.len() == old(self)@.len()
                        &&& (forall|j: int| 0 <= j < old(self)@.len() && j != i
                            ==> final(self)@[j] == old(self)@[j])
                        &&& final(self)@[i].name == old(self)@[i].name
                        &&& final(self)@[i].description == old(self)@[i].description
                        &&& final(self)@[i].exclude == old(self)@[i].exclude
                        &&& final(self)@[i].paths@ == (if contains_str(old(self)@[i].paths@, path@) {
                            old(self)@[i].paths@
                        } else {
                            old(self)@[i].paths@.push(path)
                        })
                        &&& final(self)@[i].encrypt@ == (if encrypt && !contains_str(
                            old(self)@[i].encrypt@,
                            path@,
                        ) {
                            old(self)@[i].encrypt@.push(path)
                        } else {
                            old(self)@[i].encrypt@
                        })
                    },
                Err(e) => {
                    &&& !has_category(old(self)@, name@)
                    &&& final(self)@ == old(self)@
                    &&& e matches ConfectError::CategoryNotFound(n) && n@ == name@
                },
            },
            old(self).wf() ==> final(self).wf(),
    {
        let n: usize = self.categories.len();
        let mut i: usize = 0;
        while i < n
            invariant
                0 <= i <= n,
                n == self@.len(),
                self@ == old(self)@,
                forall|j: int| 0 <= j < i ==> self@[j].name@ != name@,
            decreases n - i,
        {
            if str_eq(self.categories[i].name.as_str(), name) {
                let ghost pre = self@;
                let ghost idx = i as int;
                let mut cat = self.categories.remove(i);
                if !vec_contains_str(&cat.paths, path.as_str()) {
                    cat.paths.push(path.clone());
                }
                if encrypt && !vec_contains_str(&cat.encrypt, path.as_str()) {
                    cat.encrypt.push(path);
                }
                self.categories.insert(i, cat);
                proof {
                    assert(final(self)@ =~= pre.update(idx, final(self)@[idx]));
                    assert(final(self)@[idx].name@ == name@);
                    if old(self).wf() {
                        assert(final(self).wf());
                    }
                }
                return Ok(());
            }
            i = i + 1;
        }
        proof {
            lemma_spec_get_none(self@, name@);
        }
        Err(ConfectError::CategoryNotFound(String::from_str(name)))
    }

    /// Removes every occurrence of `path` from both the include and the
    /// encrypt patterns of the named category. Fails with `CategoryNotFound`
    /// exactly where the registry holds no category of the name.
    pub fn remove_path(&mut self, name: &str, path: &str) -> (r: Result<(), ConfectError>)
        ensures
            match r {
                Ok(()) => exists|i: int|
                    {
                        &&& 0 <= i < old(self)@.len()
                        &&& old(self)@[i].name@ == name@
                        &&& final(self)@.len() == old(self)@.len()
                        &&& (forall|j: int| 0 <= j < old(self)@.len() && j != i
                            ==> final(self)@[j] == old(self)@[j])
                        &&& final(self)@[i].name == old(self)@[i].name
                        &&& final(self)@[i].description == old(self)@[i].description
                        &&& final(self)@[i].exclude == old(self)@[i].exclude
                        &&& final(self)@[i].paths@ == old(self)@[i].paths@.filter(
                            (|s: String| s@ != path@),
                        )
                        &&& final(self)@[i].encrypt@ == old(self)@[i].encrypt@.filter(
                            (|s: String| s@ != path@),
                        )
                    },
                Err(e) => {
                    &&& !has_category(old(self)@, name@)
                    &&& final(self)@ == old(self)@
                    &&& e matches ConfectError::CategoryNotFound(n) && n@ == name@
                },
            },
            old(self).wf() ==> final(self).wf(),
    {
        let n: usize = self.categories.len();
        let mut i: usize = 0;
        while i < n
            invariant
                0 <= i <= n,
                n == self@.len(),
                self@ == old(self)@,
                forall|j: int| 0 <= j < i ==> self@[j].name@ != name@,
            decreases n - i,
        {
            if str_eq(self.categories[i].name.as_str(), name) {
                let ghost pre = self@;
                let ghost idx = i as int;
                let mut cat = self.categories.remove(i);
                let kept_paths = retain_unequal(&cat.paths, path);
                let kept_encrypt = retain_unequal(&cat.encrypt, path);
                cat.paths = kept_paths;
                cat.encrypt = kept_encrypt;
                self.categories.insert(i, cat);
                proof {
                    assert(final(self)@ =~= pre.update(idx, final(self)@[idx]));
                    assert(final(self)@[idx].name@ == name@);
                    if old(self).wf() {
                        assert(final(self).wf());
                    }
                }
                return Ok(());
            }
            i = i + 1;
        }
        proof {
            lemma_spec_get_none(self@, name@);
        }
        Err(ConfectError::CategoryNotFound(String::from_str(name)))
    }
}

/// Returns the strings of `v` whose character sequences differ from `s`, in
/// order.
pub fn retain_unequal(v: &Vec<String>, s: &str) -> (r: Vec<String>)
    ensures
        r@ == v@.filter((|x: String| x@ != s@)),
{
    let ghost pred = |x: String| x@ != s@;
    let n: usize = v.len();
    let mut out: Vec<String> = Vec::new();
    let mut i: usize = 0;
    while i < n
        invariant
            0 <= i <= n,
            n == v@.len(),
            out@ == v@.subrange(0, i as int).filter(|x: String| x@ != s@),
        decreases n - i,
    {
        proof {
            reveal(Seq::filter);
            let cur = v@.subrange(0, i + 1 as int);
            assert(cur.drop_last() =~= v@.subrange(0, i as int));
            assert(cur.last() == v@[i as int]);
        }
        if !str_eq(v[i].as_str(), s) {
            out.push(v[i].clone());
        }
        i = i + 1;
    }
    proof {
        reveal(Seq::filter);
        assert(v@.subrange(0, n as int) =~= v@);
    }
    out
}

/// `has_category` holds exactly where some entry bears the name.
pub proof fn lemma_has_category_iff(cats: Seq<Category>, name: Seq<char>)
    ensures
        has_category(cats, name) <==> exists|i: int|
            0 <= i < cats.len() && cats[i].name@ == name,
    decreases cats.len(),
{
    if cats.len() > 0 {
        lemma_has_category_iff(cats.drop_first(), name);
        if cats[0].name@ == name {
        } else if has_category(cats, name) {
            let i = choose|i: int|
                0 <= i < cats.drop_first().len() && cats.drop_first()[i].name@ == name;
            assert(cats[i + 1].name@ == name);
        } else if exists|i: int| 0 <= i < cats.len() && cats[i].name@ == name {
            let i = choose|i: int| 0 <= i < cats.len() && cats[i].name@ == name;
            assert(cats.drop_first()[i - 1].name@ == name);
        }
    }
}

/// Law (exclusion precedence): where any exclude pattern of a category
/// matches a path, the category does not match the path, whatever its
/// include patterns say.
pub proof fn lemma_exclusion_precedence(cat: Category, path: Seq<char>)
    requires
        any_pattern_hits(cat.exclude.deep_view(), path),
    ensures
        !cat.spec_matches(path),
{
}

/// Law (path-mapping round trip): translating a well-formed absolute system
/// path into a category's repository subtree and back returns the original
/// path exactly.
pub proof fn lemma_path_round_trip(cat: Category, p: Seq<char>)
    requires
        valid_category_name(cat.name@),
        valid_abs_path(p),
    ensures
        cat.spec_system_path_for(cat.spec_repo_path_for(p)) == Some(p),
{
    let name = cat.name@;
    let r = cat.spec_repo_path_for(p);
    let tail = p.drop_first();
    assert(strip_leading_separators(p) == strip_leading_separators(tail));
    assert(tail.len() > 0 && tail[0] != '/');
    assert(strip_leading_separators(tail) == tail);
    assert(r =~= name + seq!['/'] + tail);
    r.index_of_first_ensures('/');
    assert(r[name.len() as int] == '/');
    assert(r.contains('/'));
    let k = first_separator(r)->0;
    assert(forall|j: int| 0 <= j < name.len() ==> r[j] == name[j]);
    assert(k == name.len());
    let rest0 = r.subrange(k, r.len() as int);
    assert(rest0 =~= seq!['/'] + tail);
    assert(rest0.drop_first() =~= tail);
    assert(strip_leading_separators(rest0) == strip_leading_separators(tail));
    assert(seq!['/'] + tail =~= p);
}

} // verus!
