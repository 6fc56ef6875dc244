//! One line of the raw change stream: `<added>\t<deleted>\t<path-field>`,
//! where the two counts are unsigned decimal numbers, or both are the `-`
//! sentinel that marks a binary file's record.

use crate::text::str_eq;
use vstd::prelude::*;

verus! {

/// A change record, one per file and commit.
pub enum ChangeRecord {
    /// Both count fields held the `-` sentinel: stats are unavailable.
    Binary,
    /// Added and deleted line counts, and the raw path field, which may
    /// itself encode a rename.
    Numeric { added: usize, deleted: usize, path_field: String },
}

/// Ghost counterpart of a change record, over a sequence of characters.
pub ghost enum RecordView {
    Binary,
    Numeric { added: usize, deleted: usize, path_field: Seq<char> },
}

impl View for ChangeRecord {
    type V = RecordView;

    open spec fn view(&self) -> RecordView {
        match self {
            ChangeRecord::Binary => RecordView::Binary,
            ChangeRecord::Numeric { added, deleted, path_field } => RecordView::Numeric {
                added: *added,
                deleted: *deleted,
                path_field: path_field@,
            },
        }
    }
}

/// A fatal defect in a stream line.
#[derive(Debug)]
pub enum ParseError {
    /// The line does not split into exactly three tab-separated fields.
    FieldCount,
    /// A count field is neither a plain decimal number that fits a machine
    /// word nor part of a `-`/`-` sentinel pair.
    BadCount,
}

/// A decimal digit (code points 48 through 57).
pub open spec fn is_digit(c: char) -> bool {
    48 <= c as u32 <= 57
}

pub open spec fn digit_val(c: char) -> nat {
    (c as u32 - 48) as nat
}

/// A non-empty, all-digit field.
pub open spec fn all_digits(s: Seq<char>) -> bool {
    s.len() > 0 && forall|i: int| 0 <= i < s.len() ==> is_digit(#[trigger] s[i])
}

/// The number that a digit field denotes.
pub open spec fn dec_value(s: Seq<char>) -> nat
    decreases s.len(),
{
    if s.len() == 0 {
        0
    } else {
        dec_value(s.drop_last()) * 10 + digit_val(s.last())
    }
}

/// A longer digit prefix never denotes less.
pub proof fn lemma_dec_value_prefix(s: Seq<char>, j: int)
    requires
        0 <= j <= s.len(),
    ensures
        dec_value(s.take(j)) <= dec_value(s),
    decreases s.len() - j,
{
    if j == s.len() {
        assert(s.take(j) =~= s);
    } else {
        assert(s.take(j + 1).drop_last() =~= s.take(j));
        assert(dec_value(s.take(j + 1)) == dec_value(s.take(j)) * 10 + digit_val(
            s.take(j + 1).last(),
        ));
        lemma_dec_value_prefix(s, j + 1);
    }
}

/// The two positions that split the line into exactly three fields: both hold
/// tabs, and no other position does.
pub open spec fn tabs_at(s: Seq<char>, t1: int, t2: int) -> bool {
    &&& 0 <= t1 < t2 < s.len()
    &&& s[t1] == '\t'
    &&& s[t2] == '\t'
    &&& forall|t: int| 0 <= t < s.len() && #[trigger] s[t] == '\t' ==> t == t1 || t == t2
}

/// What a stream line means: a record, or the defect that makes it fatal.
pub open spec fn spec_parse_record(s: Seq<char>) -> Result<RecordView, ParseError> {
    if exists|t1: int, t2: int| tabs_at(s, t1, t2) {
        let (t1, t2) = choose|t1: int, t2: int| tabs_at(s, t1, t2);
        let a = s.subrange(0, t1);
        let d = s.subrange(t1 + 1, t2);
        let p = s.subrange(t2 + 1, s.len() as int);
        if a == "-"@ && d == "-"@ {
            Ok(RecordView::Binary)
        } else if all_digits(a) && dec_value(a) <= usize::MAX && all_digits(d) && dec_value(d)
            <= usize::MAX {
            Ok(
                RecordView::Numeric {
                    added: dec_value(a) as usize,
                    deleted: dec_value(d) as usize,
                    path_field: p,
                },
            )
        } else {
            Err(ParseError::BadCount)
        }
    } else {
        Err(ParseError::FieldCount)
    }
}

pub proof fn lemma_tabs_unique(s: Seq<char>, a1: int, a2: int, b1: int, b2: int)
    requires
        tabs_at(s, a1, a2),
        tabs_at(s, b1, b2),
    ensures
        a1 == b1 && a2 == b2,
{
    assert(s[a1] == '\t' && s[a2] == '\t');
    assert(s[b1] == '\t' && s[b2] == '\t');
}

/// Parse a count field: a non-empty run of decimal digits whose value fits a
/// machine word. Returns `None` for anything else, the `-` sentinel included.
fn parse_count(s: &str) -> (r: Option<usize>)
    ensures
        match r {
            Some(v) => all_digits(s@) && dec_value(s@) == v,
            None => !all_digits(s@) || dec_value(s@) > usize::MAX,
        },
{
    let n = s.unicode_len();
    if n == 0 {
        return None;
    }
    let mut acc: usize = 0;
    let mut i: usize = 0;
    proof {
        assert(s@.take(0) =~= Seq::<char>::empty());
    }
    while i < n
        invariant
            n == s@.len(),
            i <= n,
            forall|t: int| 0 <= t < i ==> is_digit(#[trigger] s@[t]),
            acc == dec_value(s@.take(i as int)),
        decreases n - i,
    {
        let c = s.get_char(i);
        let cu = c as u32;
        if cu < 48 || cu > 57 {
            assert(!is_digit(s@[i as int]));
            return None;
        }
        let d = (cu - 48) as usize;
        proof {
            assert(s@.take(i as int + 1).drop_last() =~= s@.take(i as int));
            assert(s@.take(i as int + 1).last() == s@[i as int]);
            assert(d == digit_val(s@[i as int]));
        }
        if acc > usize::MAX / 10 || (acc == usize::MAX / 10 && d > usize::MAX % 10) {
            proof {
                assert(dec_value(s@.take(i as int + 1)) == acc * 10 + d);
                assert(acc * 10 + d > usize::MAX);
                lemma_dec_value_prefix(s@, i as int + 1);
            }
            return None;
        }
        proof {
            assert(acc * 10 + d <= usize::MAX);
        }
        acc = acc * 10 + d;
        i += 1;
    }
    proof {
        assert(s@.take(n as int) =~= s@);
    }
    Some(acc)
}

/// Parse one line of the change stream into a record.
///
/// The line must split at exactly two tabs; the first two fields must both be
/// the `-` sentinel (a binary file's record) or both plain decimal numbers
/// that fit a machine word. Anything else is the named fatal error.
pub fn parse_record(line: &str) -> (r: Result<ChangeRecord, ParseError>)
    ensures
        match r {
            Ok(rec) => spec_parse_record(line@) == Ok::<RecordView, ParseError>(rec@),
            Err(e) => spec_parse_record(line@) == Err::<RecordView, ParseError>(e),
        },
{
    let n = line.unicode_len();
    let mut count: usize = 0;
    let mut p1: usize = 0;
    let mut p2: usize = 0;
    let mut p3: usize = 0;
    let mut idx: usize = 0;
    while idx < n
        invariant
            n == line@.len(),
            idx <= n,
            count <= idx,
            count == 0 ==> forall|t: int| 0 <= t < idx ==> line@[t] != '\t',
            count == 1 ==> p1 < idx && line@[p1 as int] == '\t' && forall|t: int|
                0 <= t < idx && #[trigger] line@[t] == '\t' ==> t == p1,
            count == 2 ==> p1 < p2 < idx && line@[p1 as int] == '\t' && line@[p2 as int] == '\t'
                && forall|t: int|
                0 <= t < idx && #[trigger] line@[t] == '\t' ==> t == p1 || t == p2,
            count >= 3 ==> p1 < p2 < p3 < idx && line@[p1 as int] == '\t' && line@[p2 as int]
                == '\t' && line@[p3 as int] == '\t',
        decreases n - idx,
    {
        if line.get_char(idx) == '\t' {
            if count == 0 {
                p1 = idx;
            } else if count == 1 {
                p2 = idx;
            } else if count == 2 {
                p3 = idx;
            }
            count += 1;
        }
        idx += 1;
    }
    if count != 2 {
        proof {
            if exists|t1: int, t2: int| tabs_at(line@, t1, t2) {
                let (t1, t2) = choose|t1: int, t2: int| tabs_at(line@, t1, t2);
                if count == 0 {
                    assert(line@[t1] != '\t');
                } else if count == 1 {
                    assert(t1 == p1 && t2 == p1);
                } else {
                    assert(p1 == t1 || p1 == t2);
                    assert(p2 == t1 || p2 == t2);
                    assert(p3 == t1 || p3 == t2);
                }
                assert(false);
            }
        }
        return Err(ParseError::FieldCount);
    }
    proof {
        assert(tabs_at(line@, p1 as int, p2 as int));
        let (t1, t2) = choose|t1: int, t2: int| tabs_at(line@, t1, t2);
        lemma_tabs_unique(line@, t1, t2, p1 as int, p2 as int);
    }
    let added_s = line.substring_char(0, p1);
    let deleted_s = line.substring_char(p1 + 1, p2);
    let path_s = line.substring_char(p2 + 1, n);
    let added_sentinel = str_eq(added_s, "-");
    let deleted_sentinel = str_eq(deleted_s, "-");
    if added_sentinel && deleted_sentinel {
        return Ok(ChangeRecord::Binary);
    }
    let added = match parse_count(added_s) {
        Some(v) => v,
        None => {
            return Err(ParseError::BadCount);
        },
    };
    let deleted = match parse_count(deleted_s) {
        Some(v) => v,
        None => {
            return Err(ParseError::BadCount);
        },
    };
    Ok(ChangeRecord::Numeric { added, deleted, path_field: String::from_str(path_s) })
}

} // verus!
