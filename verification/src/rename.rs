//! The rename grammar of a change record's path field.
//!
//! Two textual shapes announce a rename. The brace form embeds a single
//! `{old => new}` segment in a shared prefix and suffix, as in
//! `dir/{a => b}/file.rs`; the old and new suffixes are spliced back into the
//! surroundings and any doubled separator left by an empty side is collapsed.
//! The simple form is a whole-field `old => new` split. The brace form is
//! tried first; within each form the segment boundaries are chosen the way a
//! leftmost-then-greedy pattern match would choose them: the opening brace is
//! the first that works, the arrow and the closing brace are the last that
//! work.

use vstd::prelude::*;

verus! {

/// The four characters of the rename arrow ` => ` stand at `j`.
pub open spec fn arrow_at(s: Seq<char>, j: int) -> bool {
    &&& 0 <= j
    &&& j + 4 <= s.len()
    &&& s[j] == ' '
    &&& s[j + 1] == '='
    &&& s[j + 2] == '>'
    &&& s[j + 3] == ' '
}

/// `k` is the last index of `s` holding a closing brace.
pub open spec fn last_rbrace_at(s: Seq<char>, k: int) -> bool {
    &&& 0 <= k < s.len()
    &&& s[k] == '}'
    &&& forall|t: int| k < t < s.len() ==> s[t] != '}'
}

/// `j` is the last arrow that leaves room for the closing brace at `k`.
pub open spec fn brace_arrow_at(s: Seq<char>, k: int, j: int) -> bool {
    &&& arrow_at(s, j)
    &&& j + 4 <= k
    &&& forall|t: int| j < t && #[trigger] arrow_at(s, t) ==> t + 4 > k
}

/// `i` is the first index of `s` holding an opening brace, and lies before `j`.
pub open spec fn first_lbrace_at(s: Seq<char>, j: int, i: int) -> bool {
    &&& 0 <= i < j
    &&& s[i] == '{'
    &&& forall|t: int| 0 <= t < i ==> s[t] != '{'
}

/// The brace form matches with opening brace `i`, arrow `j`, closing brace `k`.
pub open spec fn brace_match_at(s: Seq<char>, i: int, j: int, k: int) -> bool {
    &&& last_rbrace_at(s, k)
    &&& brace_arrow_at(s, k, j)
    &&& first_lbrace_at(s, j, i)
}

pub open spec fn has_brace_rename(s: Seq<char>) -> bool {
    exists|i: int, j: int, k: int| brace_match_at(s, i, j, k)
}

/// `j` is the last arrow of `s` (the split point of the simple form).
pub open spec fn last_arrow_at(s: Seq<char>, j: int) -> bool {
    &&& arrow_at(s, j)
    &&& forall|t: int| j < t ==> !#[trigger] arrow_at(s, t)
}

pub open spec fn has_simple_rename(s: Seq<char>) -> bool {
    exists|j: int| last_arrow_at(s, j)
}

/// Collapse doubled separators to single ones, left to right and without
/// overlap, the way replacing every `//` by `/` in one sweep does.
pub open spec fn collapse_slashes(s: Seq<char>) -> Seq<char>
    decreases s.len(),
{
    if s.len() == 0 {
        Seq::empty()
    } else if s.len() >= 2 && s[0] == '/' && s[1] == '/' {
        seq!['/'] + collapse_slashes(s.skip(2))
    } else {
        seq![s[0]] + collapse_slashes(s.skip(1))
    }
}

/// The two full paths that the brace form at `(i, j, k)` reconstructs.
pub open spec fn brace_old_new(s: Seq<char>, i: int, j: int, k: int) -> (Seq<char>, Seq<char>) {
    let prefix = s.subrange(0, i);
    let suffix = s.subrange(k + 1, s.len() as int);
    (
        collapse_slashes(prefix + s.subrange(i + 1, j) + suffix),
        collapse_slashes(prefix + s.subrange(j + 4, k) + suffix),
    )
}

/// The rename that a path field announces: the old and new full paths, or
/// `None` for a plain path.
pub open spec fn spec_rename(s: Seq<char>) -> Option<(Seq<char>, Seq<char>)> {
    if has_brace_rename(s) {
        let (i, j, k) = choose|i: int, j: int, k: int| brace_match_at(s, i, j, k);
        Some(brace_old_new(s, i, j, k))
    } else if has_simple_rename(s) {
        let j = choose|j: int| last_arrow_at(s, j);
        Some((s.subrange(0, j), s.subrange(j + 4, s.len() as int)))
    } else {
        None
    }
}

/// The name a record is charged to before consulting the resolution table:
/// the rename's new name if the field announces a rename, else the field.
pub open spec fn rename_new_name(field: Seq<char>) -> Seq<char> {
    match spec_rename(field) {
        Some(p) => p.1,
        None => field,
    }
}

pub proof fn lemma_last_rbrace_unique(s: Seq<char>, k1: int, k2: int)
    requires
        last_rbrace_at(s, k1),
        last_rbrace_at(s, k2),
    ensures
        k1 == k2,
{
    if k1 < k2 {
        assert(s[k2] != '}');
    }
    if k2 < k1 {
        assert(s[k1] != '}');
    }
}

pub proof fn lemma_brace_arrow_unique(s: Seq<char>, k: int, j1: int, j2: int)
    requires
        brace_arrow_at(s, k, j1),
        brace_arrow_at(s, k, j2),
    ensures
        j1 == j2,
{
    if j1 < j2 {
        assert(arrow_at(s, j2));
    }
    if j2 < j1 {
        assert(arrow_at(s, j1));
    }
}

pub proof fn lemma_first_lbrace_unique(s: Seq<char>, j: int, i1: int, i2: int)
    requires
        first_lbrace_at(s, j, i1),
        first_lbrace_at(s, j, i2),
    ensures
        i1 == i2,
{
    if i1 < i2 {
        assert(s[i1] != '{');
    }
    if i2 < i1 {
        assert(s[i2] != '{');
    }
}

pub proof fn lemma_brace_match_unique(s: Seq<char>, i1: int, j1: int, k1: int, i2: int, j2: int, k2: int)
    requires
        brace_match_at(s, i1, j1, k1),
        brace_match_at(s, i2, j2, k2),
    ensures
        i1 == i2 && j1 == j2 && k1 == k2,
{
    lemma_last_rbrace_unique(s, k1, k2);
    lemma_brace_arrow_unique(s, k1, j1, j2);
    lemma_first_lbrace_unique(s, j1, i1, i2);
}

pub proof fn lemma_last_arrow_unique(s: Seq<char>, j1: int, j2: int)
    requires
        last_arrow_at(s, j1),
        last_arrow_at(s, j2),
    ensures
        j1 == j2,
{
    if j1 < j2 {
        assert(!arrow_at(s, j2));
    }
    if j2 < j1 {
        assert(!arrow_at(s, j1));
    }
}

/// Whether the arrow ` => ` stands at character position `j` of `s`.
fn arrow_at_exec(s: &str, j: usize, n: usize) -> (r: bool)
    requires
        n == s@.len(),
        j + 4 <= n,
    ensures
        r == arrow_at(s@, j as int),
{
    s.get_char(j) == ' ' && s.get_char(j + 1) == '=' && s.get_char(j + 2) == '>' && s.get_char(
        j + 3,
    ) == ' '
}

/// Replace every doubled separator by a single one, left to right.
fn collapse_slashes_exec(s: &str) -> (r: String)
    ensures
        r@ == collapse_slashes(s@),
{
    let n = s.unicode_len();
    let mut out = String::new();
    let mut i: usize = 0;
    proof {
        assert(s@.skip(0) =~= s@);
        assert(out@ + collapse_slashes(s@) =~= collapse_slashes(s@));
    }
    while i < n
        invariant
            i <= n,
            n == s@.len(),
            collapse_slashes(s@) == out@ + collapse_slashes(s@.skip(i as int)),
        decreases n - i,
    {
        let ghost prior = out@;
        if s.get_char(i) == '/' && i + 1 < n && s.get_char(i + 1) == '/' {
            out.append("/");
            proof {
                reveal_strlit("/");
                assert("/"@ =~= seq!['/']);
                assert(s@.skip(i as int).skip(2) =~= s@.skip(i as int + 2));
                assert(collapse_slashes(s@.skip(i as int)) == seq!['/'] + collapse_slashes(
                    s@.skip(i as int + 2),
                ));
                assert(prior + (seq!['/'] + collapse_slashes(s@.skip(i as int + 2))) =~= out@
                    + collapse_slashes(s@.skip(i as int + 2)));
            }
            i += 2;
        } else {
            let piece = s.substring_char(i, i + 1);
            out.append(piece);
            proof {
                assert(piece@ =~= seq![s@[i as int]]);
                assert(s@.skip(i as int).skip(1) =~= s@.skip(i as int + 1));
                assert(collapse_slashes(s@.skip(i as int)) == seq![s@[i as int]]
                    + collapse_slashes(s@.skip(i as int + 1)));
                assert(prior + (seq![s@[i as int]] + collapse_slashes(s@.skip(i as int + 1)))
                    =~= out@ + collapse_slashes(s@.skip(i as int + 1)));
            }
            i += 1;
        }
    }
    proof {
        assert(s@.skip(n as int) =~= Seq::empty());
        assert(out@ + collapse_slashes(Seq::empty()) =~= out@);
    }
    out
}

/// Parse a path field as a rename, returning the old and new full paths, or
/// `None` when the field is a plain path. The brace form is tried first and a
/// brace-like field that does not complete the pattern falls through to the
/// simple whole-field split, then to `None`.
pub fn is_rename(s: &str) -> (r: Option<(String, String)>)
    ensures
        match r {
            Some(p) => spec_rename(s@) == Some((p.0@, p.1@)),
            None => spec_rename(s@) is None,
        },
{
    let n = s.unicode_len();

    // Last closing brace, if any.
    let mut found_k = false;
    let mut kk: usize = 0;
    let mut idx: usize = 0;
    while idx < n
        invariant
            idx <= n,
            n == s@.len(),
            found_k ==> kk < idx <= n && s@[kk as int] == '}' && forall|t: int|
                kk < t < idx ==> s@[t] != '}',
            !found_k ==> forall|t: int| 0 <= t < idx ==> s@[t] != '}',
        decreases n - idx,
    {
        if s.get_char(idx) == '}' {
            found_k = true;
            kk = idx;
        }
        idx += 1;
    }

    // Last arrow leaving room for the closing brace, if any.
    let mut found_j = false;
    let mut jj: usize = 0;
    if found_k && kk >= 4 {
        let mut j: usize = 0;
        while j < kk - 3
            invariant
                n == s@.len(),
                4 <= kk < n,
                j <= kk - 3,
                found_j ==> arrow_at(s@, jj as int) && jj as int + 4 <= kk as int && forall|t: int|
                    jj < t < j ==> !#[trigger] arrow_at(s@, t),
                !found_j ==> forall|t: int| 0 <= t < j ==> !#[trigger] arrow_at(s@, t),
            decreases kk - j,
        {
            if arrow_at_exec(s, j, n) {
                found_j = true;
                jj = j;
            }
            j += 1;
        }
        proof {
            if found_j {
                assert forall|t: int| jj < t && #[trigger] arrow_at(s@, t) implies t + 4 > kk by {
                    if t + 4 <= kk {
                        assert(t < kk - 3);
                        assert(!arrow_at(s@, t));
                    }
                }
                assert(brace_arrow_at(s@, kk as int, jj as int));
            }
        }
    }

    // First opening brace before the arrow, if any.
    let mut found_i = false;
    let mut ii: usize = 0;
    if found_j {
        let mut i: usize = 0;
        while i < jj && !found_i
            invariant
                n == s@.len(),
                jj as int + 4 <= n,
                i <= jj,
                found_i ==> first_lbrace_at(s@, jj as int, ii as int) && ii < jj,
                !found_i ==> forall|t: int| 0 <= t < i ==> s@[t] != '{',
            decreases jj - i,
        {
            if s.get_char(i) == '{' {
                found_i = true;
                ii = i;
            }
            i += 1;
        }
    }

    if found_k && found_j && found_i {
        proof {
            assert(brace_match_at(s@, ii as int, jj as int, kk as int));
        }
        let prefix = s.substring_char(0, ii);
        let g1 = s.substring_char(ii + 1, jj);
        let g2 = s.substring_char(jj + 4, kk);
        let suffix = s.substring_char(kk + 1, n);
        let mut old_full = String::from_str(prefix);
        old_full.append(g1);
        old_full.append(suffix);
        let mut new_full = String::from_str(prefix);
        new_full.append(g2);
        new_full.append(suffix);
        let old_path = collapse_slashes_exec(old_full.as_str());
        let new_path = collapse_slashes_exec(new_full.as_str());
        proof {
            let (ci, cj, ck) = choose|i: int, j: int, k: int| brace_match_at(s@, i, j, k);
            lemma_brace_match_unique(s@, ci, cj, ck, ii as int, jj as int, kk as int);
            assert(old_path@ == brace_old_new(s@, ii as int, jj as int, kk as int).0);
            assert(new_path@ == brace_old_new(s@, ii as int, jj as int, kk as int).1);
        }
        return Some((old_path, new_path));
    }
    proof {
        if has_brace_rename(s@) {
            let (ci, cj, ck) = choose|i: int, j: int, k: int| brace_match_at(s@, i, j, k);
            if !found_k {
                assert(s@[ck] != '}');
            } else {
                lemma_last_rbrace_unique(s@, ck, kk as int);
                if !found_j {
                    assert(cj + 4 <= kk as int);
                    assert(!arrow_at(s@, cj));
                } else {
                    lemma_brace_arrow_unique(s@, kk as int, cj, jj as int);
                    assert(s@[ci] == '{' && ci < jj as int);
                    assert(!found_i);
                    assert(s@[ci] != '{');
                }
            }
        }
    }

    // Simple whole-field form: split at the last arrow.
    let mut found_a = false;
    let mut aj: usize = 0;
    if n >= 4 {
        let mut j: usize = 0;
        while j < n - 3
            invariant
                n == s@.len(),
                4 <= n,
                j <= n - 3,
                found_a ==> arrow_at(s@, aj as int) && forall|t: int|
                    aj < t < j ==> !#[trigger] arrow_at(s@, t),
                !found_a ==> forall|t: int| 0 <= t < j ==> !#[trigger] arrow_at(s@, t),
            decreases n - j,
        {
            if arrow_at_exec(s, j, n) {
                found_a = true;
                aj = j;
            }
            j += 1;
        }
    }
    if found_a {
        proof {
            assert forall|t: int| aj < t implies !#[trigger] arrow_at(s@, t) by {
                if arrow_at(s@, t) {
                    assert(t + 4 <= n);
                    assert(!arrow_at(s@, t));
                }
            }
            assert(last_arrow_at(s@, aj as int));
            let cj = choose|j: int| last_arrow_at(s@, j);
            lemma_last_arrow_unique(s@, cj, aj as int);
        }
        let old_path = String::from_str(s.substring_char(0, aj));
        let new_path = String::from_str(s.substring_char(aj + 4, n));
        return Some((old_path, new_path));
    }
    proof {
        if has_simple_rename(s@) {
            let cj = choose|j: int| last_arrow_at(s@, j);
            assert(cj + 4 <= n);
            assert(!arrow_at(s@, cj));
        }
    }
    None
}

} // verus!
