//! Ranking and rendering of the aggregated totals.
//!
//! Every path with a deleted total gets one row holding that total and the
//! score `added_total - current_line_count`; rows are ordered by deleted
//! total, ascending, with ties in path order. Rendering right-aligns the
//! deleted total, then the optional parenthesized score annotation in a
//! column wide enough for the longest annotation, then the path.

use crate::aggregate::{added_of, AggView, Aggregator};
use crate::options::Options;
use crate::strmap::lemma_assoc_contains;
use crate::text::{
    dec_seq, int_seq, isize_to_string, lemma_lex_total, lemma_lex_trans, lex_leq, lex_leq_exec,
    pad_left, pad_left_exec, usize_to_string,
};
use vstd::pervasive::unreached;
use vstd::prelude::*;

verus! {

/// One line of the final report: a deleted total, the signed score
/// `added_total - current_line_count`, and the path both belong to.
pub struct ResultRow {
    pub deleted: usize,
    pub diff: isize,
    pub path: String,
}

/// Report order: by deleted total, ties by path, lexicographically.
pub open spec fn row_le(x: ResultRow, y: ResultRow) -> bool {
    x.deleted < y.deleted || (x.deleted == y.deleted && lex_leq(x.path@, y.path@))
}

pub proof fn lemma_row_le_total(x: ResultRow, y: ResultRow)
    ensures
        row_le(x, y) || row_le(y, x),
{
    lemma_lex_total(x.path@, y.path@);
}

pub proof fn lemma_row_le_trans(x: ResultRow, y: ResultRow, z: ResultRow)
    requires
        row_le(x, y),
        row_le(y, z),
    ensures
        row_le(x, z),
{
    if x.deleted == y.deleted && y.deleted == z.deleted {
        lemma_lex_trans(x.path@, y.path@, z.path@);
    }
}

fn row_le_exec(x: &ResultRow, y: &ResultRow) -> (r: bool)
    ensures
        r == row_le(*x, *y),
{
    if x.deleted < y.deleted {
        true
    } else if x.deleted == y.deleted {
        lex_leq_exec(x.path.as_str(), y.path.as_str())
    } else {
        false
    }
}

/// The row faithfully reports the state's totals for its path.
pub open spec fn row_ok(v: AggView, row: ResultRow) -> bool {
    &&& v.deleted.contains_key(row.path@)
    &&& row.deleted == v.deleted[row.path@]
    &&& v.lines.contains_key(row.path@)
    &&& match v.lines[row.path@] {
        Some(c) => row.diff as int == added_of(v, row.path@) - c,
        None => false,
    }
}

/// Every reported total and line count fits a signed machine word, so the
/// score can be computed exactly.
pub open spec fn report_fits(v: AggView) -> bool {
    forall|k: Seq<char>| #[trigger] v.deleted.contains_key(k) ==> {
        &&& added_of(v, k) <= isize::MAX as usize
        &&& (v.lines.contains_key(k) ==> match v.lines[k] {
            Some(c) => c <= isize::MAX as usize,
            None => true,
        })
    }
}

/// Whether the state's totals are small enough for an exact report.
pub fn report_ready(agg: &Aggregator) -> (r: bool)
    requires
        agg.wf(),
    ensures
        r == report_fits(agg@),
{
    let n = agg.deleted_map.len();
    let mut i: usize = 0;
    while i < n
        invariant
            agg.wf(),
            i <= n,
            n == agg.deleted_map.kseq().len(),
            forall|t: int| 0 <= t < i ==> {
                let k = #[trigger] agg.deleted_map.kseq()[t];
                added_of(agg@, k) <= isize::MAX as usize && (match agg@.lines[k] {
                    Some(c) => c <= isize::MAX as usize,
                    None => true,
                })
            },
        decreases n - i,
    {
        let path = agg.deleted_map.key_at(i);
        let add = match agg.added_map.get(path.as_str()) {
            Some(v) => *v,
            None => unreached(),
        };
        let fits_count = match agg.lines_map.get(path.as_str()) {
            Some(entry) => match entry {
                Some(c) => *c <= isize::MAX as usize,
                None => unreached(),
            },
            None => unreached(),
        };
        if add > isize::MAX as usize || !fits_count {
            return false;
        }
        i += 1;
    }
    proof {
        assert forall|k: Seq<char>| #[trigger] agg@.deleted.contains_key(k) implies {
            added_of(agg@, k) <= isize::MAX as usize && (agg@.lines.contains_key(k)
                ==> match agg@.lines[k] {
                Some(c) => c <= isize::MAX as usize,
                None => true,
            })
        } by {
            lemma_assoc_contains(
                agg.deleted_map.keys.deep_view(),
                agg.deleted_map.vals.deep_view(),
                k,
            );
            let t = choose|t: int|
                0 <= t < agg.deleted_map.kseq().len() && agg.deleted_map.kseq()[t] == k;
            assert(added_of(agg@, k) <= isize::MAX as usize);
        }
    }
    true
}

/// Build the report rows: one per path with a deleted total, ordered by
/// deleted total with ties in path order, each row carrying the exact totals
/// of its path, every tracked path present, and no path twice.
pub fn compute_results(agg: &Aggregator) -> (rows: Vec<ResultRow>)
    requires
        agg.wf(),
        report_fits(agg@),
    ensures
        forall|i: int| 0 <= i < rows@.len() ==> row_ok(agg@, #[trigger] rows@[i]),
        forall|k: Seq<char>| #[trigger] agg@.deleted.contains_key(k) ==> exists|i: int|
            0 <= i < rows@.len() && #[trigger] rows@[i].path@ == k,
        forall|i: int, j: int| 0 <= i < j < rows@.len() ==> row_le(
            #[trigger] rows@[i],
            #[trigger] rows@[j],
        ),
        forall|i: int, j: int|
            0 <= i < rows@.len() && 0 <= j < rows@.len() && i != j ==> rows@[i].path@
                != rows@[j].path@,
{
    let n = agg.deleted_map.len();
    let mut built: Vec<ResultRow> = Vec::new();
    let mut i: usize = 0;
    while i < n
        invariant
            agg.wf(),
            report_fits(agg@),
            i <= n,
            n == agg.deleted_map.kseq().len(),
            built@.len() == i,
            forall|t: int| 0 <= t < i ==> row_ok(agg@, #[trigger] built@[t]) && built@[t].path@
                == agg.deleted_map.kseq()[t],
        decreases n - i,
    {
        let path = agg.deleted_map.key_at(i);
        let del: usize = *agg.deleted_map.val_at(i);
        let add: usize = match agg.added_map.get(path.as_str()) {
            Some(v) => *v,
            None => unreached(),
        };
        let cnt: usize = match agg.lines_map.get(path.as_str()) {
            Some(entry) => match entry {
                Some(c) => *c,
                None => unreached(),
            },
            None => unreached(),
        };
        let diff: isize = add as isize - cnt as isize;
        built.push(ResultRow { deleted: del, diff, path: path.clone() });
        i += 1;
    }
    proof {
        assert forall|k: Seq<char>| #[trigger] agg@.deleted.contains_key(k) implies exists|t: int|
            0 <= t < built@.len() && #[trigger] built@[t].path@ == k by {
            lemma_assoc_contains(
                agg.deleted_map.keys.deep_view(),
                agg.deleted_map.vals.deep_view(),
                k,
            );
            let t = choose|t: int|
                0 <= t < agg.deleted_map.kseq().len() && agg.deleted_map.kseq()[t] == k;
            assert(built@[t].path@ == k);
        }
    }

    // Order the rows by repeatedly moving the least remaining row over.
    let mut work = built;
    let mut out: Vec<ResultRow> = Vec::new();
    let ghost dom = agg@.deleted;
    while work.len() > 0
        invariant
            forall|t: int| 0 <= t < out@.len() ==> row_ok(agg@, #[trigger] out@[t]),
            forall|t: int| 0 <= t < work@.len() ==> row_ok(agg@, #[trigger] work@[t]),
            forall|k: Seq<char>| #[trigger]
                agg@.deleted.contains_key(k) ==> (exists|t: int|
                    0 <= t < out@.len() && #[trigger] out@[t].path@ == k) || (exists|t: int|
                    0 <= t < work@.len() && #[trigger] work@[t].path@ == k),
            forall|a: int, b: int| 0 <= a < b < out@.len() ==> row_le(
                #[trigger] out@[a],
                #[trigger] out@[b],
            ),
            forall|a: int, t: int|
                0 <= a < out@.len() && 0 <= t < work@.len() ==> row_le(
                    #[trigger] out@[a],
                    #[trigger] work@[t],
                ),
            forall|a: int, b: int|
                0 <= a < out@.len() && 0 <= b < out@.len() && a != b ==> out@[a].path@
                    != out@[b].path@,
            forall|a: int, b: int|
                0 <= a < work@.len() && 0 <= b < work@.len() && a != b ==> work@[a].path@
                    != work@[b].path@,
            forall|a: int, t: int|
                0 <= a < out@.len() && 0 <= t < work@.len() ==> out@[a].path@ != work@[t].path@,
        decreases work.len(),
    {
        let mut m: usize = 0;
        let mut idx: usize = 1;
        proof {
            lemma_row_le_total(work@[0], work@[0]);
        }
        while idx < work.len()
            invariant
                work@.len() > 0,
                m < idx <= work@.len(),
                forall|t: int| 0 <= t < idx ==> row_le(work@[m as int], #[trigger] work@[t]),
            decreases work@.len() - idx,
        {
            if row_le_exec(&work[idx], &work[m]) {
                proof {
                    assert forall|t: int| 0 <= t < idx + 1 implies row_le(
                        work@[idx as int],
                        #[trigger] work@[t],
                    ) by {
                        if t < idx {
                            lemma_row_le_trans(work@[idx as int], work@[m as int], work@[t]);
                        } else {
                            lemma_row_le_total(work@[idx as int], work@[idx as int]);
                        }
                    }
                }
                m = idx;
            } else {
                proof {
                    lemma_row_le_total(work@[m as int], work@[idx as int]);
                }
            }
            idx += 1;
        }
        let ghost ww = work@;
        let ghost ow = out@;
        let x = work.remove(m);
        out.push(x);
        proof {
            assert(forall|t: int|
                0 <= t < work@.len() ==> #[trigger] work@[t] == if t < m {
                    ww[t]
                } else {
                    ww[t + 1]
                });
            assert(out@ =~= ow.push(ww[m as int]));
            assert forall|k: Seq<char>| #[trigger] agg@.deleted.contains_key(k) implies (exists|
                t: int,
            |
                0 <= t < out@.len() && #[trigger] out@[t].path@ == k) || (exists|t: int|
                0 <= t < work@.len() && #[trigger] work@[t].path@ == k) by {
                if exists|t: int| 0 <= t < ow.len() && #[trigger] ow[t].path@ == k {
                    let t = choose|t: int| 0 <= t < ow.len() && #[trigger] ow[t].path@ == k;
                    assert(out@[t].path@ == k);
                } else {
                    let t = choose|t: int| 0 <= t < ww.len() && #[trigger] ww[t].path@ == k;
                    if t == m {
                        assert(out@[out@.len() - 1].path@ == k);
                    } else if t < m {
                        assert(work@[t].path@ == k);
                    } else {
                        assert(work@[t - 1].path@ == k);
                    }
                }
            }
        }
    }
    out
}

/// The parenthesized score annotation of a row: present only when verbose
/// output asked for it, the path is displayed, and the score differs from the
/// deleted total.
pub open spec fn spec_diff_msg(o: Options, deleted: usize, diff: isize, path: Seq<char>) -> Seq<
    char,
> {
    if o.verbose && o.spec_included_path(path) && deleted as int != diff as int {
        seq![' ', '('] + int_seq(diff as int) + seq![')']
    } else {
        Seq::empty()
    }
}

/// Render the annotation of one row (empty unless verbose output asked for it
/// and the score differs from the deleted total).
pub fn diff_msg(options: &Options, deleted: usize, diff: isize, path: &String) -> (r: String)
    requires
        diff != isize::MIN,
    ensures
        r@ == spec_diff_msg(*options, deleted, diff, path@),
{
    let equal = diff >= 0 && deleted == diff as usize;
    if !options.verbose || !options.included_path(path) || equal {
        String::new()
    } else {
        let mut s = String::from_str(" (");
        s.append(isize_to_string(diff).as_str());
        s.append(")");
        proof {
            reveal_strlit(" (");
            reveal_strlit(")");
            assert(" ("@ =~= seq![' ', '(']);
            assert(")"@ =~= seq![')']);
        }
        s
    }
}

pub open spec fn max2(a: int, b: int) -> int {
    if a >= b {
        a
    } else {
        b
    }
}

/// The width of the widest annotation over all rows.
pub open spec fn spec_width(o: Options, rows: Seq<ResultRow>) -> int
    decreases rows.len(),
{
    if rows.len() == 0 {
        0
    } else {
        max2(
            spec_diff_msg(o, rows[0].deleted, rows[0].diff, rows[0].path@).len() as int,
            spec_width(o, rows.skip(1)),
        )
    }
}

/// One rendered report line: the deleted total right-aligned to eight
/// characters, the annotation right-aligned to the annotation column, two
/// spaces, and the path.
pub open spec fn spec_row_line(o: Options, row: ResultRow, width: int) -> Seq<char> {
    pad_left(dec_seq(row.deleted as nat), 8) + pad_left(
        spec_diff_msg(o, row.deleted, row.diff, row.path@),
        width,
    ) + seq![' ', ' '] + row.path@
}

/// The rendered lines of the displayed rows, in row order.
pub open spec fn spec_report_lines(o: Options, rows: Seq<ResultRow>, width: int) -> Seq<Seq<char>>
    decreases rows.len(),
{
    if rows.len() == 0 {
        Seq::empty()
    } else {
        let rest = spec_report_lines(o, rows.skip(1), width);
        if o.spec_included_path(rows[0].path@) {
            seq![spec_row_line(o, rows[0], width)] + rest
        } else {
            rest
        }
    }
}

/// Render the report: one line per displayed row, with the annotation column
/// sized by the widest annotation over all rows.
pub fn render_results(options: &Options, results: &Vec<ResultRow>) -> (lines: Vec<String>)
    requires
        forall|i: int| 0 <= i < results@.len() ==> (#[trigger] results@[i]).diff != isize::MIN,
    ensures
        lines.deep_view() == spec_report_lines(
            *options,
            results@,
            spec_width(*options, results@),
        ),
{
    let n = results.len();
    let mut width: usize = 0;
    let mut i: usize = 0;
    proof {
        assert(results@.skip(0) =~= results@);
    }
    while i < n
        invariant
            n == results@.len(),
            i <= n,
            forall|t: int| 0 <= t < n ==> (#[trigger] results@[t]).diff != isize::MIN,
            spec_width(*options, results@) == max2(
                width as int,
                spec_width(*options, results@.skip(i as int)),
            ),
        decreases n - i,
    {
        let row = &results[i];
        let msg = diff_msg(options, row.deleted, row.diff, &row.path);
        let len = msg.as_str().unicode_len();
        proof {
            assert(results@.skip(i as int)[0] == results@[i as int]);
            assert(results@.skip(i as int).skip(1) =~= results@.skip(i as int + 1));
        }
        if len > width {
            width = len;
        }
        i += 1;
    }
    proof {
        assert(results@.skip(n as int) =~= Seq::<ResultRow>::empty());
    }
    let ghost gw = spec_width(*options, results@);
    let mut lines: Vec<String> = Vec::new();
    let mut j: usize = 0;
    proof {
        assert(lines.deep_view() =~= Seq::<Seq<char>>::empty());
        assert(Seq::<Seq<char>>::empty() + spec_report_lines(*options, results@, gw)
            =~= spec_report_lines(*options, results@, gw));
        assert(results@.skip(0) =~= results@);
    }
    while j < n
        invariant
            n == results@.len(),
            j <= n,
            width as int == gw,
            gw == spec_width(*options, results@),
            forall|t: int| 0 <= t < n ==> (#[trigger] results@[t]).diff != isize::MIN,
            spec_report_lines(*options, results@, gw) == lines.deep_view() + spec_report_lines(
                *options,
                results@.skip(j as int),
                gw,
            ),
        decreases n - j,
    {
        let row = &results[j];
        proof {
            assert(results@.skip(j as int)[0] == results@[j as int]);
            assert(results@.skip(j as int).skip(1) =~= results@.skip(j as int + 1));
        }
        let ghost prior = lines.deep_view();
        if options.included_path(&row.path) {
            let msg = diff_msg(options, row.deleted, row.diff, &row.path);
            let mut line = pad_left_exec(usize_to_string(row.deleted), 8);
            line.append(pad_left_exec(msg, width).as_str());
            line.append("  ");
            line.append(row.path.as_str());
            proof {
                reveal_strlit("  ");
                assert("  "@ =~= seq![' ', ' ']);
                assert(line@ == spec_row_line(*options, results@[j as int], gw));
            }
            lines.push(line);
            proof {
                assert(lines.deep_view() =~= prior.push(
                    spec_row_line(*options, results@[j as int], gw),
                ));
                assert(prior.push(spec_row_line(*options, results@[j as int], gw))
                    + spec_report_lines(*options, results@.skip(j as int + 1), gw) =~= prior + (
                seq![spec_row_line(*options, results@[j as int], gw)] + spec_report_lines(
                    *options,
                    results@.skip(j as int + 1),
                    gw,
                )));
            }
        }
        j += 1;
    }
    proof {
        assert(results@.skip(n as int) =~= Seq::<ResultRow>::empty());
        assert(lines.deep_view() + Seq::<Seq<char>>::empty() =~= lines.deep_view());
    }
    lines
}

/// The totals-consistency warning fires exactly when verbose output was not
/// requested and some displayed row's deleted total differs from its score.
pub open spec fn spec_should_warn(o: Options, rows: Seq<ResultRow>) -> bool {
    !o.verbose && exists|i: int|
        0 <= i < rows.len() && o.spec_included_path(#[trigger] rows[i].path@) && rows[i].deleted
            as int != rows[i].diff as int
}

/// Decide whether the non-fatal totals-consistency warning should be printed.
pub fn should_warn(options: &Options, results: &Vec<ResultRow>) -> (r: bool)
    ensures
        r == spec_should_warn(*options, results@),
{
    if options.verbose {
        return false;
    }
    let n = results.len();
    let mut i: usize = 0;
    while i < n
        invariant
            !options.verbose,
            n == results@.len(),
            i <= n,
            forall|t: int|
                0 <= t < i ==> !(options.spec_included_path(#[trigger] results@[t].path@)
                    && results@[t].deleted as int != results@[t].diff as int),
        decreases n - i,
    {
        let row = &results[i];
        let equal = row.diff >= 0 && row.deleted == row.diff as usize;
        if options.included_path(&row.path) && !equal {
            proof {
                assert(options.spec_included_path(results@[i as int].path@) && results@[i as int].deleted
                    as int != results@[i as int].diff as int);
            }
            return true;
        }
        i += 1;
    }
    false
}

} // verus!
