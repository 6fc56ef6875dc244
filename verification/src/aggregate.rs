//! The streaming fold over change records.
//!
//! The stream arrives newest commit first. The aggregator keeps four tables:
//! a rename-resolution table from historical names to the current name, a
//! sticky line-count cache, and the added and deleted totals keyed by current
//! name. Each record is charged to the name its path field resolves to; a
//! record whose resolved name has no readable line count is skipped; a rename
//! records its old name against the fully resolved new name, which keeps every
//! lookup a single hop even across chains of renames.

use crate::options::Options;
use crate::record::{ChangeRecord, RecordView};
use crate::rename::{is_rename, rename_new_name, spec_rename};
use crate::strmap::StrMap;
use vstd::prelude::*;

verus! {

/// Ghost snapshot of the aggregation state.
#[verifier::ext_equal]
pub ghost struct AggView {
    pub renames: Map<Seq<char>, Seq<char>>,
    pub lines: Map<Seq<char>, Option<usize>>,
    pub added: Map<Seq<char>, usize>,
    pub deleted: Map<Seq<char>, usize>,
}

/// The aggregation state: resolution table, line-count cache, and totals.
pub struct Aggregator {
    pub rename_map: StrMap<String>,
    pub lines_map: StrMap<Option<usize>>,
    pub added_map: StrMap<usize>,
    pub deleted_map: StrMap<usize>,
}

impl View for Aggregator {
    type V = AggView;

    open spec fn view(&self) -> AggView {
        AggView {
            renames: self.rename_map@,
            lines: self.lines_map@,
            added: self.added_map@,
            deleted: self.deleted_map@,
        }
    }
}

/// The empty aggregation state.
pub open spec fn empty_view() -> AggView {
    AggView {
        renames: Map::empty(),
        lines: Map::empty(),
        added: Map::empty(),
        deleted: Map::empty(),
    }
}

/// The name a record's stats are charged to: the new name announced by a
/// rename (else the raw field), resolved one hop through the table.
pub open spec fn spec_target(renames: Map<Seq<char>, Seq<char>>, field: Seq<char>) -> Seq<char> {
    let cur = rename_new_name(field);
    if renames.contains_key(cur) {
        renames[cur]
    } else {
        cur
    }
}

pub open spec fn added_of(v: AggView, k: Seq<char>) -> usize {
    if v.added.contains_key(k) {
        v.added[k]
    } else {
        0
    }
}

pub open spec fn deleted_of(v: AggView, k: Seq<char>) -> usize {
    if v.deleted.contains_key(k) {
        v.deleted[k]
    } else {
        0
    }
}

/// Whether the cache already answers for the record's resolved name (a binary
/// record consults nothing).
pub open spec fn step_ready(v: AggView, r: RecordView) -> bool {
    match r {
        RecordView::Binary => true,
        RecordView::Numeric { added, deleted, path_field } => v.lines.contains_key(
            spec_target(v.renames, path_field),
        ),
    }
}

/// Whether charging the record keeps both totals within a machine word.
pub open spec fn step_fits(v: AggView, r: RecordView) -> bool {
    match r {
        RecordView::Binary => true,
        RecordView::Numeric { added, deleted, path_field } => {
            let t = spec_target(v.renames, path_field);
            (v.lines.contains_key(t) && v.lines[t] is Some) ==> {
                &&& added_of(v, t) + added <= usize::MAX
                &&& deleted_of(v, t) + deleted <= usize::MAX
            }
        },
    }
}

/// One step of the fold: how a record transforms the state. A binary record
/// changes nothing; a record whose resolved name is cached as unreadable is
/// skipped whole (its rename, if any, is not recorded either); otherwise both
/// totals grow and a rename maps its old name to the resolved new name.
pub open spec fn spec_step(v: AggView, r: RecordView) -> AggView {
    match r {
        RecordView::Binary => v,
        RecordView::Numeric { added, deleted, path_field } => {
            let t = spec_target(v.renames, path_field);
            if v.lines.contains_key(t) && v.lines[t] is Some {
                AggView {
                    renames: match spec_rename(path_field) {
                        Some(p) => v.renames.insert(p.0, t),
                        None => v.renames,
                    },
                    lines: v.lines,
                    added: v.added.insert(t, (added_of(v, t) + added) as usize),
                    deleted: v.deleted.insert(t, (deleted_of(v, t) + deleted) as usize),
                }
            } else {
                v
            }
        },
    }
}

/// Totals are tracked for exactly the names whose line count is known.
pub open spec fn view_wf(v: AggView) -> bool {
    &&& v.added.dom() == v.deleted.dom()
    &&& forall|k: Seq<char>| #[trigger]
        v.added.contains_key(k) ==> v.lines.contains_key(k) && v.lines[k] is Some
}

impl Aggregator {
    pub open spec fn wf(&self) -> bool {
        &&& self.rename_map.wf()
        &&& self.lines_map.wf()
        &&& self.added_map.wf()
        &&& self.deleted_map.wf()
        &&& view_wf(self@)
    }

    pub fn new() -> (r: Self)
        ensures
            r.wf(),
            r@ == empty_view(),
    {
        let r = Aggregator {
            rename_map: StrMap::new(),
            lines_map: StrMap::new(),
            added_map: StrMap::new(),
            deleted_map: StrMap::new(),
        };
        proof {
            assert(r@.added.dom() =~= r@.deleted.dom());
            assert(r@ =~= empty_view());
        }
        r
    }

    /// The name the record would be charged to, in the current state.
    pub fn target_name(&self, path_field: &str) -> (t: String)
        requires
            self.wf(),
        ensures
            t@ == spec_target(self@.renames, path_field@),
    {
        let current = match is_rename(path_field) {
            Some(p) => p.1,
            None => String::from_str(path_field),
        };
        match self.rename_map.get(current.as_str()) {
            Some(resolved) => resolved.clone(),
            None => current,
        }
    }

    /// Whether the line-count cache already has an entry for `path`.
    pub fn has_count(&self, path: &str) -> (r: bool)
        requires
            self.wf(),
        ensures
            r == self@.lines.contains_key(path@),
    {
        self.lines_map.contains_key(path)
    }

    /// Record the oracle's answer for a path not yet cached; `None` marks the
    /// path as unreadable, and the entry is never asked for again.
    pub fn set_count(&mut self, path: String, count: Option<usize>)
        requires
            old(self).wf(),
            !old(self)@.lines.contains_key(path@),
        ensures
            final(self).wf(),
            final(self)@.lines == old(self)@.lines.insert(path@, count),
            final(self)@.renames == old(self)@.renames,
            final(self)@.added == old(self)@.added,
            final(self)@.deleted == old(self)@.deleted,
    {
        proof {
            assert(count.deep_view() == count);
        }
        self.lines_map.insert(path, count);
    }

    /// The added total charged so far to `path` (zero when none is).
    pub fn added_total(&self, path: &str) -> (r: usize)
        requires
            self.wf(),
        ensures
            r == added_of(self@, path@),
    {
        match self.added_map.get(path) {
            Some(v) => *v,
            None => 0,
        }
    }

    /// The deleted total charged so far to `path` (zero when none is).
    pub fn deleted_total(&self, path: &str) -> (r: usize)
        requires
            self.wf(),
        ensures
            r == deleted_of(self@, path@),
    {
        match self.deleted_map.get(path) {
            Some(v) => *v,
            None => 0,
        }
    }

    /// Fold one record into the state.
    pub fn process_record(&mut self, rec: &ChangeRecord)
        requires
            old(self).wf(),
            step_ready(old(self)@, rec@),
            step_fits(old(self)@, rec@),
        ensures
            final(self).wf(),
            final(self)@ == spec_step(old(self)@, rec@),
    {
        match rec {
            ChangeRecord::Binary => {},
            ChangeRecord::Numeric { added, deleted, path_field } => {
                let maybe = is_rename(path_field.as_str());
                let current = match &maybe {
                    Some(p) => p.1.clone(),
                    None => path_field.clone(),
                };
                let target = match self.rename_map.get(current.as_str()) {
                    Some(resolved) => resolved.clone(),
                    None => current,
                };
                proof {
                    assert(target@ == spec_target(self@.renames, path_field@));
                }
                let readable = match self.lines_map.get(target.as_str()) {
                    Some(entry) => entry.is_some(),
                    None => false,
                };
                if !readable {
                    return ;
                }
                let prev_added = self.added_total(target.as_str());
                let prev_deleted = self.deleted_total(target.as_str());
                let ghost pre = self@;
                let ghost t = target@;
                self.added_map.insert(target.clone(), prev_added + *added);
                self.deleted_map.insert(target.clone(), prev_deleted + *deleted);
                if let Some(p) = maybe {
                    self.rename_map.insert(p.0, target);
                }
                proof {
                    assert(self@ =~= spec_step(pre, rec@));
                    assert(self@.added.dom() =~= self@.deleted.dom());
                    assert forall|k: Seq<char>| #[trigger] self@.added.contains_key(k)
                        implies self@.lines.contains_key(k) && self@.lines[k] is Some by {
                        if k != t {
                            assert(pre.added.contains_key(k));
                        }
                    }
                }
            },
        }
    }
}

/// The line-count cache that a list of explicitly named paths pre-seeds: the
/// paths are taken in order with their counts, and a path already cached
/// keeps its first entry.
pub open spec fn spec_prepopulate(
    lines: Map<Seq<char>, Option<usize>>,
    paths: Seq<Seq<char>>,
    counts: Seq<usize>,
) -> Map<Seq<char>, Option<usize>>
    decreases paths.len(),
{
    if paths.len() == 0 || counts.len() == 0 {
        lines
    } else if lines.contains_key(paths[0]) {
        spec_prepopulate(lines, paths.skip(1), counts.skip(1))
    } else {
        spec_prepopulate(lines.insert(paths[0], Some(counts[0])), paths.skip(1), counts.skip(1))
    }
}

/// Seed the cache with the line counts of the explicitly requested paths
/// before the stream is consumed, so that each such path has an entry even if
/// no record ever touches it.
pub fn prepopulate_lines_map(options: &Options, agg: &mut Aggregator, counts: &Vec<usize>)
    requires
        old(agg).wf(),
        counts@.len() == options.paths@.len(),
    ensures
        final(agg).wf(),
        final(agg)@.lines == spec_prepopulate(
            old(agg)@.lines,
            options.paths.deep_view(),
            counts@,
        ),
        final(agg)@.renames == old(agg)@.renames,
        final(agg)@.added == old(agg)@.added,
        final(agg)@.deleted == old(agg)@.deleted,
{
    let n = options.paths.len();
    let mut i: usize = 0;
    proof {
        assert(options.paths.deep_view().skip(0) =~= options.paths.deep_view());
        assert(counts@.skip(0) =~= counts@);
    }
    while i < n
        invariant
            agg.wf(),
            i <= n,
            n == options.paths@.len(),
            counts@.len() == n,
            spec_prepopulate(old(agg)@.lines, options.paths.deep_view(), counts@)
                == spec_prepopulate(
                agg@.lines,
                options.paths.deep_view().skip(i as int),
                counts@.skip(i as int),
            ),
            agg@.renames == old(agg)@.renames,
            agg@.added == old(agg)@.added,
            agg@.deleted == old(agg)@.deleted,
        decreases n - i,
    {
        let ghost ps = options.paths.deep_view().skip(i as int);
        let ghost cs = counts@.skip(i as int);
        proof {
            assert(ps[0] == options.paths.deep_view()[i as int]);
            assert(cs[0] == counts@[i as int]);
            assert(ps.skip(1) =~= options.paths.deep_view().skip(i as int + 1));
            assert(cs.skip(1) =~= counts@.skip(i as int + 1));
        }
        let path = &options.paths[i];
        if !agg.has_count(path) {
            agg.set_count(path.clone(), Some(counts[i]));
        }
        i += 1;
    }
    proof {
        assert(options.paths.deep_view().skip(n as int) =~= Seq::<Seq<char>>::empty());
        assert(counts@.skip(n as int) =~= Seq::<usize>::empty());
    }
}

} // verus!
