//! Textual deltas between a system file and its repository copy.
//!
//! The delta zips the two files' lines positionally: line `i` of the system
//! file against line `i` of the repository copy, one hunk for every index
//! where they differ, then a tail block for any length difference. This is a
//! deliberately naive, non-minimal diff, kept for compatibility: one line
//! inserted mid-file makes every later line appear as a hunk.

use vstd::prelude::*;

use crate::category::{str_eq, Category, CategoryManager};
use crate::error::ConfectError;

verus! {

/// The index of the first occurrence of `c` in `s`, if any.
pub open spec fn find_char(s: Seq<char>, c: char) -> Option<int>
    decreases s.len(),
{
    if s.len() == 0 {
        None
    } else if s[0] == c {
        Some(0)
    } else {
        match find_char(s.drop_first(), c) {
            Some(i) => Some(i + 1),
            None => None,
        }
    }
}

/// Where the first occurrence of `c` stands at index `i`, `find_char` finds
/// exactly it.
pub proof fn lemma_find_char_at(s: Seq<char>, c: char, i: int)
    requires
        0 <= i < s.len(),
        s[i] == c,
        forall|j: int| 0 <= j < i ==> s[j] != c,
    ensures
        find_char(s, c) == Some(i),
    decreases i,
{
    if i > 0 {
        lemma_find_char_at(s.drop_first(), c, i - 1);
    }
}

/// Where `c` does not occur in `s`, `find_char` finds nothing.
pub proof fn lemma_find_char_none(s: Seq<char>, c: char)
    requires
        forall|j: int| 0 <= j < s.len() ==> s[j] != c,
    ensures
        find_char(s, c) is None,
    decreases s.len(),
{
    if s.len() > 0 {
        lemma_find_char_none(s.drop_first(), c);
    }
}

/// `l` without one trailing carriage return, where one ends it.
pub open spec fn strip_cr(l: Seq<char>) -> Seq<char> {
    if l.len() > 0 && l.last() == '\r' {
        l.drop_last()
    } else {
        l
    }
}

/// The lines of `s`: split at every line feed, one trailing carriage return
/// removed from each split-off piece, and no final empty line for a text
/// that ends with a line feed.
pub open spec fn spec_lines(s: Seq<char>) -> Seq<Seq<char>>
    decreases s.len(),
{
    if s.len() == 0 {
        Seq::empty()
    } else {
        match find_char(s, '\n') {
            Some(i) => if 0 <= i < s.len() {
                seq![strip_cr(s.subrange(0, i))] + spec_lines(s.subrange(i + 1, s.len() as int))
            } else {
                // Unreachable: `find_char` yields in-bounds indices.
                Seq::empty()
            },
            None => seq![s],
        }
    }
}

/// Splits a text into its lines.
pub fn split_lines(s: &str) -> (r: Vec<String>)
    ensures
        r.deep_view() == spec_lines(s@),
{
    let n: usize = s.unicode_len();
    let mut out: Vec<String> = Vec::new();
    let mut start: usize = 0;
    let mut i: usize = 0;
    proof {
        assert(out.deep_view() =~= Seq::<Seq<char>>::empty());
        assert(s@.subrange(0, n as int) =~= s@);
    }
    while i < n
        invariant
            0 <= start <= i <= n,
            n == s@.len(),
            forall|j: int| start <= j < i ==> s@[j] != '\n',
            out.deep_view() + spec_lines(s@.subrange(start as int, n as int)) =~= spec_lines(s@),
        decreases n - i,
    {
        if s.get_char(i) == '\n' {
            let ghost seg = s@.subrange(start as int, n as int);
            let piece = if i > start && s.get_char(i - 1) == '\r' {
                s.substring_char(start, i - 1)
            } else {
                s.substring_char(start, i)
            };
            proof {
                assert(seg.len() > 0);
                assert forall|j: int| 0 <= j < i - start implies seg[j] != '\n' by {
                    assert(seg[j] == s@[start + j]);
                }
                assert(seg[i - start] == '\n');
                lemma_find_char_at(seg, '\n', i - start);
                assert(seg.subrange(0, i - start) =~= s@.subrange(start as int, i as int));
                assert(piece@ =~= strip_cr(s@.subrange(start as int, i as int)));
                assert(seg.subrange(i - start + 1, seg.len() as int) =~= s@.subrange(
                    i + 1 as int,
                    n as int,
                ));
            }
            out.push(String::from_str(piece));
            i = i + 1;
            start = i;
        } else {
            i = i + 1;
        }
    }
    if start < n {
        let ghost seg = s@.subrange(start as int, n as int);
        proof {
            assert forall|j: int| 0 <= j < seg.len() implies seg[j] != '\n' by {
                assert(seg[j] == s@[start + j]);
            }
            lemma_find_char_none(seg, '\n');
        }
        let piece = s.substring_char(start, n);
        out.push(String::from_str(piece));
        proof {
            assert(piece@ =~= seg);
        }
    } else {
        proof {
            assert(s@.subrange(start as int, n as int).len() == 0);
        }
    }
    out
}

/// The decimal digit character for `d`.
pub open spec fn dec_digit(d: int) -> char {
    if d == 0 {
        '0'
    } else if d == 1 {
        '1'
    } else if d == 2 {
        '2'
    } else if d == 3 {
        '3'
    } else if d == 4 {
        '4'
    } else if d == 5 {
        '5'
    } else if d == 6 {
        '6'
    } else if d == 7 {
        '7'
    } else if d == 8 {
        '8'
    } else {
        '9'
    }
}

/// The decimal rendering of `n`, most significant digit first, without
/// leading zeros (a single zero for zero).
pub open spec fn spec_dec(n: nat) -> Seq<char>
    decreases n,
{
    if n < 10 {
        seq![dec_digit(n as int)]
    } else {
        spec_dec(n / 10) + seq![dec_digit((n % 10) as int)]
    }
}

/// Returns the decimal digit string for a digit value below ten.
pub(crate) fn digit_str(d: usize) -> (r: &'static str)
    requires
        d < 10,
    ensures
        r@ == seq![dec_digit(d as int)],
{
    proof {
        reveal_strlit("0");
        reveal_strlit("1");
        reveal_strlit("2");
        reveal_strlit("3");
        reveal_strlit("4");
        reveal_strlit("5");
        reveal_strlit("6");
        reveal_strlit("7");
        reveal_strlit("8");
        reveal_strlit("9");
    }
    let r = if d == 0 {
        "0"
    } else if d == 1 {
        "1"
    } else if d == 2 {
        "2"
    } else if d == 3 {
        "3"
    } else if d == 4 {
        "4"
    } else if d == 5 {
        "5"
    } else if d == 6 {
        "6"
    } else if d == 7 {
        "7"
    } else if d == 8 {
        "8"
    } else {
        "9"
    };
    proof {
        assert(r@ =~= seq![dec_digit(d as int)]);
    }
    r
}

/// Renders `n` in decimal.
pub fn dec_string(n: usize) -> (r: String)
    ensures
        r@ == spec_dec(n as nat),
    decreases n,
{
    if n < 10 {
        String::from_str(digit_str(n))
    } else {
        let mut s = dec_string(n / 10);
        s.append(digit_str(n % 10));
        s
    }
}

/// The text of one hunk at zero-based line index `i`: a positional header
/// naming line `i + 1` on both sides, the repository line marked removed,
/// the system line marked added.
pub open spec fn hunk_text(i: nat, sys_line: Seq<char>, repo_line: Seq<char>) -> Seq<char> {
    "@@ -"@ + spec_dec(i + 1) + ",1 +"@ + spec_dec(i + 1) + ",1 @@\n"@ + "-"@ + repo_line + "\n"@
        + "+"@ + sys_line + "\n"@
}

/// The hunks of the first `k` line pairs: one for every index whose lines
/// differ, in order.
pub open spec fn hunks_upto(sys: Seq<Seq<char>>, repo: Seq<Seq<char>>, k: int) -> Seq<char>
    decreases k,
{
    if k <= 0 {
        Seq::empty()
    } else {
        hunks_upto(sys, repo, k - 1) + (if sys[k - 1] != repo[k - 1] {
            hunk_text((k - 1) as nat, sys[k - 1], repo[k - 1])
        } else {
            Seq::empty()
        })
    }
}

/// The tail block: every line of `lines` from index `from` on, each marked
/// with `sign` and ended with a line feed.
pub open spec fn sign_lines(lines: Seq<Seq<char>>, from: int, sign: Seq<char>) -> Seq<char>
    decreases lines.len() - from,
{
    if from < 0 || from >= lines.len() {
        Seq::empty()
    } else {
        sign + lines[from] + "\n"@ + sign_lines(lines, from + 1, sign)
    }
}

/// The body of a delta between two differing texts: the two file headers,
/// one hunk per differing line pair, and the tail block for the longer
/// side's extra lines.
pub open spec fn spec_diff_body(
    a_path: Seq<char>,
    b_path: Seq<char>,
    sys_text: Seq<char>,
    repo_text: Seq<char>,
) -> Seq<char> {
    let sl = spec_lines(sys_text);
    let rl = spec_lines(repo_text);
    let m = if sl.len() <= rl.len() {
        sl.len() as int
    } else {
        rl.len() as int
    };
    "--- a/"@ + a_path + "\n"@ + "+++ b/"@ + b_path + "\n"@ + hunks_upto(sl, rl, m) + (if sl.len()
        > rl.len() {
        sign_lines(sl, rl.len() as int, "+"@)
    } else if rl.len() > sl.len() {
        sign_lines(rl, sl.len() as int, "-"@)
    } else {
        Seq::empty()
    })
}

/// Builds the delta body between two differing texts.
pub fn diff_body(a_path: &str, b_path: &str, sys_text: &str, repo_text: &str) -> (r: String)
    ensures
        r@ == spec_diff_body(a_path@, b_path@, sys_text@, repo_text@),
{
    let sl = split_lines(sys_text);
    let rl = split_lines(repo_text);
    let mut out = String::from_str("--- a/");
    out.append(a_path);
    out.append("\n");
    out.append("+++ b/");
    out.append(b_path);
    out.append("\n");
    let ghost header = "--- a/"@ + a_path@ + "\n"@ + "+++ b/"@ + b_path@ + "\n"@;
    proof {
        assert(out@ =~= header);
    }
    let m: usize = if sl.len() <= rl.len() {
        sl.len()
    } else {
        rl.len()
    };
    let mut i: usize = 0;
    while i < m
        invariant
            0 <= i <= m,
            m <= sl@.len(),
            m <= rl@.len(),
            sl.deep_view() == spec_lines(sys_text@),
            rl.deep_view() == spec_lines(repo_text@),
            out@ =~= header + hunks_upto(sl.deep_view(), rl.deep_view(), i as int),
        decreases m - i,
    {
        let ghost pre = out@;
        if !str_eq(sl[i].as_str(), rl[i].as_str()) {
            out.append("@@ -");
            let num = dec_string(i + 1);
            out.append(num.as_str());
            out.append(",1 +");
            out.append(num.as_str());
            out.append(",1 @@\n");
            out.append("-");
            out.append(rl[i].as_str());
            out.append("\n");
            out.append("+");
            out.append(sl[i].as_str());
            out.append("\n");
            proof {
                assert(out@ =~= pre + hunk_text(
                    i as nat,
                    sl.deep_view()[i as int],
                    rl.deep_view()[i as int],
                ));
            }
        }
        proof {
            assert(sl.deep_view()[i as int] == sl@[i as int]@);
            assert(rl.deep_view()[i as int] == rl@[i as int]@);
            assert(out@ =~= header + hunks_upto(sl.deep_view(), rl.deep_view(), i + 1 as int));
        }
        i = i + 1;
    }
    let ghost mid = out@;
    if sl.len() > rl.len() {
        let mut k: usize = rl.len();
        while k < sl.len()
            invariant
                rl@.len() <= k <= sl@.len(),
                sl.deep_view() == spec_lines(sys_text@),
                rl.deep_view() == spec_lines(repo_text@),
                mid + sign_lines(sl.deep_view(), rl@.len() as int, "+"@) =~= out@ + sign_lines(
                    sl.deep_view(),
                    k as int,
                    "+"@,
                ),
            decreases sl@.len() - k,
        {
            out.append("+");
            out.append(sl[k].as_str());
            out.append("\n");
            k = k + 1;
        }
        proof {
            assert(sign_lines(sl.deep_view(), k as int, "+"@) =~= Seq::<char>::empty());
            assert(out@ =~= mid + sign_lines(sl.deep_view(), rl@.len() as int, "+"@));
        }
    } else if rl.len() > sl.len() {
        let mut k: usize = sl.len();
        while k < rl.len()
            invariant
                sl@.len() <= k <= rl@.len(),
                sl.deep_view() == spec_lines(sys_text@),
                rl.deep_view() == spec_lines(repo_text@),
                mid + sign_lines(rl.deep_view(), sl@.len() as int, "-"@) =~= out@ + sign_lines(
                    rl.deep_view(),
                    k as int,
                    "-"@,
                ),
            decreases rl@.len() - k,
        {
            out.append("-");
            out.append(rl[k].as_str());
            out.append("\n");
            k = k + 1;
        }
        proof {
            assert(sign_lines(rl.deep_view(), k as int, "-"@) =~= Seq::<char>::empty());
            assert(out@ =~= mid + sign_lines(rl.deep_view(), sl@.len() as int, "-"@));
        }
    }
    proof {
        assert(out@ =~= spec_diff_body(a_path@, b_path@, sys_text@, repo_text@));
    }
    out
}

/// The full delta text for a tracked pair: a note where only one side
/// exists, the empty text where the contents are identical, and the delta
/// body otherwise. `b_path` is the repository copy's displayed path.
pub open spec fn spec_diff_result(
    b_path: Seq<char>,
    system_path: Seq<char>,
    sys_text: Option<Seq<char>>,
    repo_text: Option<Seq<char>>,
) -> Seq<char> {
    match (sys_text, repo_text) {
        (_, None) => "File only exists in system: "@ + system_path,
        (None, Some(_)) => "File only exists in repo: "@ + b_path,
        (Some(s), Some(r)) => if s == r {
            Seq::empty()
        } else {
            spec_diff_body(system_path, b_path, s, r)
        },
    }
}

/// The abstract value of an optional borrowed text.
pub open spec fn text_view(o: Option<&String>) -> Option<Seq<char>> {
    match o {
        Some(s) => Some(s@),
        None => None,
    }
}

/// Produces the textual delta for `system_path`: resolves the owning
/// category, names the repository copy as `repo_root` joined with the mapped
/// repository path, and zips the two contents line by line. Fails with
/// `PathNotTracked` exactly where no category claims the path. `system` and
/// `repo` hold each side's content where the file exists.
pub fn diff_file(
    cats: &CategoryManager,
    repo_root: &str,
    system_path: &str,
    system: Option<&String>,
    repo: Option<&String>,
) -> (r: Result<String, ConfectError>)
    ensures
        match r {
            Ok(text) => exists|c: Category|
                #![auto]
                cats@.contains(c) && c.spec_matches(system_path@) && text@ == spec_diff_result(
                    repo_root@ + "/"@ + c.spec_repo_path_for(system_path@),
                    system_path@,
                    text_view(system),
                    text_view(repo),
                ),
            Err(e) => {
                &&& forall|i: int| 0 <= i < cats@.len() ==> !cats@[i].spec_matches(system_path@)
                &&& e matches ConfectError::PathNotTracked(p) && p@ == system_path@
            },
        },
{
    match cats.find_for_path(system_path) {
        Some(c) => {
            let rel = c.repo_path_for(system_path);
            let mut b_path = String::from_str(repo_root);
            b_path.append("/");
            b_path.append(rel.as_str());
            proof {
                assert(b_path@ =~= repo_root@ + "/"@ + c.spec_repo_path_for(system_path@));
            }
            match (system, repo) {
                (_, None) => {
                    let mut out = String::from_str("File only exists in system: ");
                    out.append(system_path);
                    proof {
                        assert(out@ =~= "File only exists in system: "@ + system_path@);
                    }
                    Ok(out)
                },
                (None, Some(_)) => {
                    let mut out = String::from_str("File only exists in repo: ");
                    out.append(b_path.as_str());
                    proof {
                        assert(out@ =~= "File only exists in repo: "@ + b_path@);
                    }
                    Ok(out)
                },
                (Some(s), Some(rc)) => {
                    if str_eq(s.as_str(), rc.as_str()) {
                        let out = String::new();
                        proof {
                            assert(out@ =~= Seq::<char>::empty());
                        }
                        Ok(out)
                    } else {
                        Ok(diff_body(system_path, b_path.as_str(), s.as_str(), rc.as_str()))
                    }
                },
            }
        },
        None => Err(ConfectError::PathNotTracked(String::from_str(system_path))),
    }
}

} // verus!
