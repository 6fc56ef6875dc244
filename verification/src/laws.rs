//! Laws of the aggregation fold, stated over whole runs.
//!
//! A run is modelled as the fold of `spec_step` over a stream of records,
//! with the line-count cache filled from a fixed oracle snapshot the first
//! time each resolved name is met — exactly the shape of the driving loop.

use crate::aggregate::{
    added_of, deleted_of, empty_view, spec_step, spec_target, AggView,
};
use crate::record::RecordView;
use crate::rename::{rename_new_name, spec_rename};
use vstd::prelude::*;

verus! {

/// What the line-count oracle answers for a path: its entry in the snapshot,
/// or unreadable when it has none.
pub open spec fn oracle_at(oracle: Map<Seq<char>, Option<usize>>, k: Seq<char>) -> Option<usize> {
    if oracle.contains_key(k) {
        oracle[k]
    } else {
        None
    }
}

/// The cache fill that precedes a record: the resolved name is looked up in
/// the oracle the first time it is met, and the answer sticks.
pub open spec fn spec_fill(
    v: AggView,
    r: RecordView,
    oracle: Map<Seq<char>, Option<usize>>,
) -> AggView {
    match r {
        RecordView::Binary => v,
        RecordView::Numeric { added, deleted, path_field } => {
            let t = spec_target(v.renames, path_field);
            if v.lines.contains_key(t) {
                v
            } else {
                AggView {
                    renames: v.renames,
                    lines: v.lines.insert(t, oracle_at(oracle, t)),
                    added: v.added,
                    deleted: v.deleted,
                }
            }
        },
    }
}

/// A whole run: each record's cache fill followed by its fold step.
pub open spec fn spec_run(
    v: AggView,
    recs: Seq<RecordView>,
    oracle: Map<Seq<char>, Option<usize>>,
) -> AggView
    decreases recs.len(),
{
    if recs.len() == 0 {
        v
    } else {
        spec_run(spec_step(spec_fill(v, recs[0], oracle), recs[0]), recs.skip(1), oracle)
    }
}

/// Aggregation is a function of the stream and the oracle alone: two runs
/// over the same stream, each from a fresh state, yield the same tables.
pub proof fn lemma_run_deterministic(
    v1: AggView,
    v2: AggView,
    recs: Seq<RecordView>,
    oracle: Map<Seq<char>, Option<usize>>,
)
    requires
        v1 == v2,
    ensures
        spec_run(v1, recs, oracle) == spec_run(v2, recs, oracle),
{
}

/// A record whose resolved name is cached as unreadable changes nothing: no
/// total grows and no rename is recorded, so the name never reaches a report.
pub proof fn lemma_unreadable_contributes_nothing(v: AggView, r: RecordView)
    requires
        r matches RecordView::Numeric { added, deleted, path_field } && v.lines.contains_key(
            spec_target(v.renames, path_field),
        ) && v.lines[spec_target(v.renames, path_field)] is None,
    ensures
        spec_step(v, r) == v,
{
}

/// A record that announces no rename.
pub open spec fn is_plain(r: RecordView) -> bool {
    match r {
        RecordView::Binary => true,
        RecordView::Numeric { added, deleted, path_field } => spec_rename(path_field) is None,
    }
}

pub open spec fn all_plain(recs: Seq<RecordView>) -> bool {
    forall|i: int| 0 <= i < recs.len() ==> is_plain(#[trigger] recs[i])
}

/// With no rename in a field and no entry in the table, a record is charged
/// to its own path field.
pub proof fn lemma_plain_target(field: Seq<char>)
    requires
        spec_rename(field) is None,
    ensures
        spec_target(Map::<Seq<char>, Seq<char>>::empty(), field) == field,
{
}

/// The added lines of the records charged to path `p`, binary records aside.
pub open spec fn sum_added(recs: Seq<RecordView>, p: Seq<char>) -> int
    decreases recs.len(),
{
    if recs.len() == 0 {
        0
    } else {
        (match recs[0] {
            RecordView::Binary => 0,
            RecordView::Numeric { added, deleted, path_field } => if path_field == p {
                added as int
            } else {
                0
            },
        }) + sum_added(recs.skip(1), p)
    }
}

/// The deleted lines of the records charged to path `p`, binary records aside.
pub open spec fn sum_deleted(recs: Seq<RecordView>, p: Seq<char>) -> int
    decreases recs.len(),
{
    if recs.len() == 0 {
        0
    } else {
        (match recs[0] {
            RecordView::Binary => 0,
            RecordView::Numeric { added, deleted, path_field } => if path_field == p {
                deleted as int
            } else {
                0
            },
        }) + sum_deleted(recs.skip(1), p)
    }
}

pub proof fn lemma_sums_nonneg(recs: Seq<RecordView>, p: Seq<char>)
    ensures
        sum_added(recs, p) >= 0,
        sum_deleted(recs, p) >= 0,
    decreases recs.len(),
{
    if recs.len() > 0 {
        lemma_sums_nonneg(recs.skip(1), p);
    }
}

/// The inductive heart of the no-renames law, generalized to any starting
/// state with an empty resolution table whose cache agrees with the oracle
/// at `p`.
proof fn lemma_plain_run(
    v: AggView,
    recs: Seq<RecordView>,
    oracle: Map<Seq<char>, Option<usize>>,
    p: Seq<char>,
)
    requires
        all_plain(recs),
        v.renames == Map::<Seq<char>, Seq<char>>::empty(),
        v.lines.contains_key(p) ==> v.lines[p] == oracle_at(oracle, p),
        added_of(v, p) + sum_added(recs, p) <= usize::MAX,
        deleted_of(v, p) + sum_deleted(recs, p) <= usize::MAX,
    ensures
        spec_run(v, recs, oracle).renames == Map::<Seq<char>, Seq<char>>::empty(),
        added_of(spec_run(v, recs, oracle), p) == if oracle_at(oracle, p) is Some {
            added_of(v, p) + sum_added(recs, p)
        } else {
            added_of(v, p) as int
        },
        deleted_of(spec_run(v, recs, oracle), p) == if oracle_at(oracle, p) is Some {
            deleted_of(v, p) + sum_deleted(recs, p)
        } else {
            deleted_of(v, p) as int
        },
    decreases recs.len(),
{
    lemma_sums_nonneg(recs, p);
    if recs.len() > 0 {
        let r = recs[0];
        let rest = recs.skip(1);
        lemma_sums_nonneg(rest, p);
        assert(all_plain(rest)) by {
            assert(forall|i: int| 0 <= i < rest.len() ==> rest[i] == recs[i + 1]);
            assert(forall|i: int| 0 <= i < rest.len() ==> is_plain(#[trigger] rest[i]));
        }
        let v1 = spec_fill(v, r, oracle);
        let v2 = spec_step(v1, r);
        match r {
            RecordView::Binary => {
                lemma_plain_run(v, rest, oracle, p);
            },
            RecordView::Numeric { added, deleted, path_field } => {
                let q = path_field;
                assert(is_plain(r));
                lemma_plain_target(q);
                assert(spec_target(v.renames, q) == q);
                if q == p {
                    assert(v1.lines.contains_key(p) && v1.lines[p] == oracle_at(oracle, p));
                    if oracle_at(oracle, p) is Some {
                        assert(added_of(v2, p) == added_of(v, p) + added);
                        assert(deleted_of(v2, p) == deleted_of(v, p) + deleted);
                    } else {
                        assert(v2 == v1);
                    }
                } else {
                    assert(added_of(v2, p) == added_of(v, p));
                    assert(deleted_of(v2, p) == deleted_of(v, p));
                    assert(v2.lines.contains_key(p) ==> v2.lines[p] == oracle_at(oracle, p));
                }
                assert(v2.renames == Map::<Seq<char>, Seq<char>>::empty());
                lemma_plain_run(v2, rest, oracle, p);
            },
        }
    }
}

/// With no renames anywhere in the stream, the resolution table stays empty —
/// every record is charged to its own path field — and each path's totals are
/// the plain per-path sums when the path is readable, and zero otherwise.
pub proof fn lemma_no_renames_plain_sums(
    recs: Seq<RecordView>,
    oracle: Map<Seq<char>, Option<usize>>,
    p: Seq<char>,
)
    requires
        all_plain(recs),
        sum_added(recs, p) <= usize::MAX,
        sum_deleted(recs, p) <= usize::MAX,
    ensures
        spec_run(empty_view(), recs, oracle).renames == Map::<Seq<char>, Seq<char>>::empty(),
        added_of(spec_run(empty_view(), recs, oracle), p) == if oracle_at(oracle, p) is Some {
            sum_added(recs, p)
        } else {
            0
        },
        deleted_of(spec_run(empty_view(), recs, oracle), p) == if oracle_at(oracle, p) is Some {
            sum_deleted(recs, p)
        } else {
            0
        },
{
    lemma_plain_run(empty_view(), recs, oracle, p);
}

/// Rename resolution closes chains. History runs newest first: the stream
/// holds a rename of `b` to `c`, then a rename of `a` to `b`, then a record
/// under the old name `a`. All three records land in the totals of `c`, and
/// both old names resolve to `c` in one hop.
pub proof fn lemma_rename_chain_closes(
    recs: Seq<RecordView>,
    oracle: Map<Seq<char>, Option<usize>>,
    f1: Seq<char>,
    f2: Seq<char>,
    f3: Seq<char>,
    a: Seq<char>,
    b: Seq<char>,
    c: Seq<char>,
    a1: usize,
    d1: usize,
    a2: usize,
    d2: usize,
    a3: usize,
    d3: usize,
)
    requires
        recs == seq![
            RecordView::Numeric { added: a1, deleted: d1, path_field: f1 },
            RecordView::Numeric { added: a2, deleted: d2, path_field: f2 },
            RecordView::Numeric { added: a3, deleted: d3, path_field: f3 },
        ],
        spec_rename(f1) == Some((b, c)),
        spec_rename(f2) == Some((a, b)),
        spec_rename(f3) is None,
        f3 == a,
        a != c,
        b != c,
        oracle.contains_key(c),
        oracle[c] is Some,
        a1 + a2 + a3 <= usize::MAX,
        d1 + d2 + d3 <= usize::MAX,
    ensures
        added_of(spec_run(empty_view(), recs, oracle), c) == a1 + a2 + a3,
        deleted_of(spec_run(empty_view(), recs, oracle), c) == d1 + d2 + d3,
        spec_run(empty_view(), recs, oracle).renames[a] == c,
        spec_run(empty_view(), recs, oracle).renames[b] == c,
{
    let v0 = empty_view();
    let r1 = recs[0];
    let r2 = recs[1];
    let r3 = recs[2];
    assert(rename_new_name(f1) == c);
    let w1 = spec_fill(v0, r1, oracle);
    assert(spec_target(v0.renames, f1) == c);
    assert(w1.lines[c] == oracle[c]);
    let v1 = spec_step(w1, r1);
    assert(v1.renames == Map::<Seq<char>, Seq<char>>::empty().insert(b, c));
    assert(added_of(v1, c) == a1 && deleted_of(v1, c) == d1);

    assert(rename_new_name(f2) == b);
    assert(spec_target(v1.renames, f2) == c);
    let w2 = spec_fill(v1, r2, oracle);
    assert(w2 == v1);
    let v2 = spec_step(w2, r2);
    assert(v2.renames == v1.renames.insert(a, c));
    assert(added_of(v2, c) == a1 + a2 && deleted_of(v2, c) == d1 + d2);

    assert(rename_new_name(f3) == a);
    assert(spec_target(v2.renames, f3) == c);
    let w3 = spec_fill(v2, r3, oracle);
    assert(w3 == v2);
    let v3 = spec_step(w3, r3);
    assert(added_of(v3, c) == a1 + a2 + a3 && deleted_of(v3, c) == d1 + d2 + d3);

    let s1 = recs.skip(1);
    let s2 = s1.skip(1);
    let s3 = s2.skip(1);
    assert(s1 =~= seq![r2, r3]);
    assert(s2 =~= seq![r3]);
    assert(s3 =~= Seq::<RecordView>::empty());
    assert(s1[0] == r2 && s2[0] == r3);
    assert(spec_run(v0, recs, oracle) == spec_run(v1, s1, oracle));
    assert(spec_run(v1, s1, oracle) == spec_run(v2, s2, oracle));
    assert(spec_run(v2, s2, oracle) == spec_run(v3, s3, oracle));
    assert(spec_run(v3, s3, oracle) == v3);
}

} // verus!
