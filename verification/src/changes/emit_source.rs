//! The change emitter of one interval: the pruned one where the interval allows
//! it, else the exact merge. Both give the same changes in id order; before
//! images come from the parent's rows and after images from the child's.

use vstd::prelude::*;

use crate::changes::candidate_scan::{self, InsertAbsence, Transaction, interval_changed_fragments};
use crate::changes::enumerate::{self, FullMerge, MergeStep};
use crate::changes::filter;
use crate::changes::merge_laws;
use crate::changes::model::{ChangeFeedScope, ChangeOpKind};
use crate::changes::row_compare::RowView;
use crate::changes::scan::{self, OrderedRows, ScanPlan};
use crate::changes::table::{self, TableSnapshot};
use crate::changes::upserts::{self, CandidateUpserts, UpsertStep};
use crate::error::OmniError;
use crate::manifest::state::SubTableEntry;
use crate::text;

verus! {

/// The scans that an emitter starts with.
#[derive(Debug)]
pub enum EmitPlan {
    FullMerge { from: ScanPlan, to: ScanPlan },
    Pruned { candidates: ScanPlan },
}

/// The emitter of one interval, with the two table versions that it reads.
pub enum EmitSource<D> {
    FullMerge { merge: FullMerge, from: D, to: D },
    Pruned { candidates: CandidateUpserts, parent: D, child: D },
}

/// A step of an emitter.
#[derive(Debug)]
pub enum SourceStep {
    FullMerge(MergeStep),
    Pruned(UpsertStep),
}

/// Whether a scan reads the rows of a whole table version after `after_id`.
pub open spec fn scans_table(plan: ScanPlan, after_id: Option<&str>, batch_bytes: u64) -> bool {
    &&& scan::is_change_scan(plan, batch_bytes)
    &&& plan.fragments is None
    &&& forall|id: Seq<char>, updated: u64| #[trigger]
        scan::plan_keeps(plan, id, updated) <==> scan::resumes_at(
            after_id,
            id,
        )
}

/// Whether a scan reads, after `after_id`, the rows that an interval touched.
pub open spec fn scans_touched(
    plan: ScanPlan,
    from_entry: SubTableEntry,
    to_entry: SubTableEntry,
    from: TableSnapshot,
    to: TableSnapshot,
    after_id: Option<&str>,
    batch_bytes: u64,
) -> bool {
    &&& scan::is_change_scan(plan, batch_bytes)
    &&& plan.fragments matches Some(fragments)
    &&& table::fragment_views(fragments@) == candidate_scan::fresh_fragments(
        table::fragment_views(from.fragments@),
        table::fragment_views(to.fragments@),
    )
    &&& forall|id: Seq<char>, updated: u64| #[trigger]
        scan::plan_keeps(plan, id, updated) <==> from_entry.table_version < updated
            <= to_entry.table_version && scan::resumes_at(after_id, id)
}

/// Whether an emitter and its scans are those of an interval: the pruned emitter
/// exactly where the interval allows it, else the merge.
pub open spec fn is_planned<D>(
    source: EmitSource<D>,
    plan: EmitPlan,
    from_entry: SubTableEntry,
    to_entry: SubTableEntry,
    from: TableSnapshot,
    to: TableSnapshot,
    transactions: Option<Seq<Transaction>>,
    certificate: InsertAbsence,
    after_id: Option<&str>,
    scope: ChangeFeedScope,
    batch_bytes: u64,
) -> bool {
    if candidate_scan::prunable(from_entry, to_entry, from, to, transactions, certificate) {
        &&& source matches EmitSource::Pruned { candidates: emitter, parent: _, child: _ }
        &&& emitter.starts(scope)
        &&& plan matches EmitPlan::Pruned { candidates }
        &&& scans_touched(candidates, from_entry, to_entry, from, to, after_id, batch_bytes)
    } else {
        &&& source matches EmitSource::FullMerge { merge, from: _, to: _ }
        &&& merge.starts(scope)
        &&& plan matches EmitPlan::FullMerge { from: from_plan, to: to_plan }
        &&& scans_table(from_plan, after_id, batch_bytes)
        &&& scans_table(to_plan, after_id, batch_bytes)
    }
}

/// Whether `result` is what a step of an emitter gives. The table versions stay.
pub open spec fn source_stepped<D>(
    before: EmitSource<D>,
    after: EmitSource<D>,
    result: Result<SourceStep, OmniError>,
) -> bool {
    &&& after.parent() == before.parent()
    &&& after.child() == before.child()
    &&& match (before, after) {
        (
            EmitSource::FullMerge { merge: a, from: _, to: _ },
            EmitSource::FullMerge { merge: b, from: _, to: _ },
        ) => match result {
            Ok(SourceStep::FullMerge(step)) => enumerate::merge_stepped(a, b, Ok(step)),
            Ok(SourceStep::Pruned(_)) => false,
            Err(error) => enumerate::merge_stepped(a, b, Err(error)),
        },
        (
            EmitSource::Pruned { candidates: a, parent: _, child: _ },
            EmitSource::Pruned { candidates: b, parent: _, child: _ },
        ) => match result {
            Ok(SourceStep::Pruned(step)) => upserts::upserts_stepped(a, b, Ok(step)),
            Ok(SourceStep::FullMerge(_)) => false,
            Err(error) => upserts::upserts_stepped(a, b, Err(error)),
        },
        _ => false,
    }
}

impl<D> EmitSource<D> {
    /// The version that before images come from.
    pub open spec fn parent(self) -> D {
        match self {
            EmitSource::FullMerge { merge: _, from, to: _ } => from,
            EmitSource::Pruned { candidates: _, parent, child: _ } => parent,
        }
    }

    /// The version that after images come from.
    pub open spec fn child(self) -> D {
        match self {
            EmitSource::FullMerge { merge: _, from: _, to } => to,
            EmitSource::Pruned { candidates: _, parent: _, child } => child,
        }
    }

    /// Plans the emitter of an interval: pruned exactly where the interval
    /// allows it.
    pub fn plan(
        from_entry: &SubTableEntry,
        to_entry: &SubTableEntry,
        from_snapshot: &TableSnapshot,
        to_snapshot: &TableSnapshot,
        from_dataset: D,
        to_dataset: D,
        transactions: Option<&Vec<Transaction>>,
        certificate: &InsertAbsence,
        after_id: Option<&str>,
        scope: &ChangeFeedScope,
        batch_bytes: u64,
    ) -> (r: (EmitSource<D>, EmitPlan))
        ensures
            r.0.parent() == from_dataset,
            r.0.child() == to_dataset,
            is_planned(
                r.0,
                r.1,
                *from_entry,
                *to_entry,
                *from_snapshot,
                *to_snapshot,
                (match transactions {
                    Some(list) => Some(list@),
                    None => None,
                }),
                *certificate,
                after_id,
                *scope,
                batch_bytes,
            ),
    {
        match interval_changed_fragments(
            from_entry,
            to_entry,
            from_snapshot,
            to_snapshot,
            transactions,
            certificate,
        ) {
            Some(changed_fragments) => {
                let candidates = CandidateUpserts::open(
                    from_entry.table_version,
                    to_entry.table_version,
                    changed_fragments,
                    after_id,
                    batch_bytes,
                );
                (
                    EmitSource::Pruned {
                        candidates: CandidateUpserts::new(scope.clone()),
                        parent: from_dataset,
                        child: to_dataset,
                    },
                    EmitPlan::Pruned { candidates },
                )
            },
            None => {
                let from = OrderedRows::open(after_id, batch_bytes);
                let to = OrderedRows::open(after_id, batch_bytes);
                (
                    EmitSource::FullMerge {
                        merge: FullMerge::new(scope.clone()),
                        from: from_dataset,
                        to: to_dataset,
                    },
                    EmitPlan::FullMerge { from, to },
                )
            },
        }
    }

    /// Moves to the next change of the interval.
    pub fn next(&mut self) -> (r: Result<SourceStep, OmniError>)
        ensures
            source_stepped(*old(self), *final(self), r),
    {
        match self {
            EmitSource::FullMerge { merge, .. } => match merge.next() {
                Ok(step) => Ok(SourceStep::FullMerge(step)),
                Err(error) => Err(error),
            },
            EmitSource::Pruned { candidates, .. } => match candidates.next() {
                Ok(step) => Ok(SourceStep::Pruned(step)),
                Err(error) => Err(error),
            },
        }
    }

    pub fn parent_dataset(&self) -> (r: &D)
        ensures
            *r == self.parent(),
    {
        match self {
            EmitSource::FullMerge { from, .. } => from,
            EmitSource::Pruned { parent, .. } => parent,
        }
    }

    pub fn child_dataset(&self) -> (r: &D)
        ensures
            *r == self.child(),
    {
        match self {
            EmitSource::FullMerge { to, .. } => to,
            EmitSource::Pruned { child, .. } => child,
        }
    }
}

impl FullMerge {
    /// Whether the merge is at its start, for a given scope.
    pub open spec fn starts(self, scope: ChangeFeedScope) -> bool {
        &&& self.from.rows().len() == 0 && self.from.is_open()
        &&& self.to.rows().len() == 0 && self.to.is_open()
        &&& forall|op: ChangeOpKind| #[trigger]
            self.scope.selects(op) == scope.selects(op)
    }
}

impl CandidateUpserts {
    /// Whether the emitter is at its start, for a given scope.
    pub open spec fn starts(self, scope: ChangeFeedScope) -> bool {
        &&& self.phase == upserts::Phase::Collecting
        &&& self.candidates.rows().len() == 0 && self.candidates.is_open()
        &&& self.chunk_rows().len() == 0
        &&& self.ready_changes().len() == 0
        &&& forall|op: ChangeOpKind| #[trigger]
            self.scope.selects(op) == scope.selects(op)
    }
}

pub(crate) proof fn lemma_reported_alike(
    a: ChangeFeedScope,
    b: ChangeFeedScope,
    all: Seq<enumerate::ChangeView>,
)
    requires
        forall|op: ChangeOpKind| #[trigger] a.selects(op) == b.selects(op),
    ensures
        enumerate::reported(a, all) == enumerate::reported(b, all),
    decreases all.len(),
{
    if all.len() > 0 {
        lemma_reported_alike(a, b, all.drop_first());
    }
}

/// Both emitters report the same changes in the same order: where an interval
/// kept every row of `from`, and every row of `to` that it did not touch is
/// unchanged, the pruned emitter, given the touched rows, reports what the merge
/// reports, given all rows.
pub proof fn both_emitters_report_alike(
    merge: FullMerge,
    pruned: CandidateUpserts,
    scope: ChangeFeedScope,
    from: Seq<RowView>,
    to: Seq<RowView>,
    touched: spec_fn(RowView) -> bool,
    same: spec_fn(RowView, RowView) -> bool,
)
    requires
        merge.starts(scope),
        pruned.starts(scope),
        merge_laws::in_id_order(from),
        merge_laws::in_id_order(to),
        forall|i: int|
            0 <= i < from.len() ==> merge_laws::has_id(to, (#[trigger] from[i]).id),
        forall|j: int|
            0 <= j < to.len() && !touched(#[trigger] to[j]) ==> exists|i: int|
                0 <= i < from.len() && (#[trigger] from[i]).id == to[j].id && same(from[i], to[j]),
    ensures
        merge.remaining(from, to, same) == pruned.remaining(
            to.filter(touched),
            upserts::parent_rows(from),
            same,
        ),
{
    let kept = to.filter(touched);
    assert(merge.from.rows() + from =~= from);
    assert(merge.to.rows() + to =~= to);
    assert(pruned.chunk_rows() + (pruned.candidates.rows() + kept) =~= kept);
    upserts::pruned_changes_are_the_changes(from, to, touched, same);
    let all = enumerate::changes(from, to, same);
    lemma_reported_alike(merge.scope, pruned.scope, all);
    let reported = enumerate::reported(pruned.scope, all);
    assert(pruned.ready_changes() + reported =~= reported);
}

/// Once the merge is done it owes no change.
pub proof fn a_done_merge_owes_nothing(
    before: FullMerge,
    after: FullMerge,
    from_rest: Seq<RowView>,
    to_rest: Seq<RowView>,
    same: spec_fn(RowView, RowView) -> bool,
)
    requires
        enumerate::merge_stepped(before, after, Ok(MergeStep::Done)),
        enumerate::faithful(same),
        before.may_deliver(from_rest, to_rest),
    ensures
        before.remaining(from_rest, to_rest, same).len() == 0,
{
    assert(before.remaining(from_rest, to_rest, same) == after.remaining(from_rest, to_rest, same));
    assert(after.from.rows() + from_rest =~= Seq::empty());
    assert(after.to.rows() + to_rest =~= Seq::empty());
}

/// Once the pruned emitter is done it owes no change.
pub proof fn a_done_emitter_owes_nothing(
    before: CandidateUpserts,
    after: CandidateUpserts,
    rest: Seq<RowView>,
    probe_rest: Seq<RowView>,
    parent: spec_fn(Seq<char>) -> Option<RowView>,
    same: spec_fn(RowView, RowView) -> bool,
)
    requires
        upserts::upserts_stepped(before, after, Ok(UpsertStep::Done)),
        enumerate::faithful(same),
        before.may_deliver(rest, probe_rest),
        before.answered(probe_rest, parent),
    ensures
        before.remaining(rest, parent, same).len() == 0,
{
    assert(upserts::carries(
        before,
        after,
        Seq::empty(),
        rest,
        probe_rest,
        parent,
        same,
    ));
    assert(after.chunk_rows() + (after.candidates.rows() + rest) =~= Seq::empty());
}

/// An interval is read as planned: pruned, it reads of the child the fragments
/// that the parent lacks, and of these the rows last updated in the interval;
/// otherwise it reads both versions whole. Either way it starts after the id that
/// it resumes at, and for what the feed selects.
pub proof fn an_interval_is_read_as_planned<D>(
    source: EmitSource<D>,
    plan: EmitPlan,
    from_entry: SubTableEntry,
    to_entry: SubTableEntry,
    from: TableSnapshot,
    to: TableSnapshot,
    transactions: Option<Seq<Transaction>>,
    certificate: InsertAbsence,
    after_id: Option<&str>,
    scope: ChangeFeedScope,
    batch_bytes: u64,
    id: Seq<char>,
    updated: u64,
)
    requires
        is_planned(
            source,
            plan,
            from_entry,
            to_entry,
            from,
            to,
            transactions,
            certificate,
            after_id,
            scope,
            batch_bytes,
        ),
    ensures
        source is Pruned <==> candidate_scan::prunable(
            from_entry,
            to_entry,
            from,
            to,
            transactions,
            certificate,
        ),
        plan is Pruned <==> source is Pruned,
        plan matches EmitPlan::Pruned { candidates } ==> {
            &&& scan::is_change_scan(candidates, batch_bytes)
            &&& candidates.fragments matches Some(fragments)
            &&& table::fragment_views(fragments@) == candidate_scan::fresh_fragments(
                table::fragment_views(from.fragments@),
                table::fragment_views(to.fragments@),
            )
            &&& filter::kept_by(candidates.filter, id, updated) <==> from_entry.table_version
                < updated && updated <= to_entry.table_version && (after_id is None
                || text::text_less(after_id->0@, id))
        },
        plan matches EmitPlan::FullMerge { from: left, to: right } ==> {
            &&& scan::is_change_scan(left, batch_bytes)
            &&& scan::is_change_scan(right, batch_bytes)
            &&& left.fragments is None
            &&& right.fragments is None
            &&& filter::kept_by(left.filter, id, updated) <==> after_id is None || text::text_less(
                after_id->0@,
                id,
            )
            &&& filter::kept_by(right.filter, id, updated) <==> after_id is None || text::text_less(
                after_id->0@,
                id,
            )
        },
        source matches EmitSource::Pruned { candidates, .. } ==> candidates.phase
            == upserts::Phase::Collecting && candidates.candidates.rows().len() == 0
            && candidates.candidates.is_open() && candidates.chunk_rows().len() == 0
            && candidates.ready_changes().len() == 0 && (forall|op: ChangeOpKind| #[trigger]
            candidates.scope.selects(op) == scope.selects(op)),
        source matches EmitSource::FullMerge { merge, .. } ==> merge.from.rows().len() == 0
            && merge.from.is_open() && merge.to.rows().len() == 0 && merge.to.is_open() && (forall|
            op: ChangeOpKind,
        | #[trigger] merge.scope.selects(op) == scope.selects(op)),
{
    match plan {
        EmitPlan::Pruned { candidates } => {
            assert(scan::plan_keeps(candidates, id, updated) == filter::kept_by(
                candidates.filter,
                id,
                updated,
            ));
        },
        EmitPlan::FullMerge { from: left, to: right } => {
            assert(scan::plan_keeps(left, id, updated) == filter::kept_by(left.filter, id, updated));
            assert(scan::plan_keeps(right, id, updated) == filter::kept_by(
                right.filter,
                id,
                updated,
            ));
        },
    }
}

/// The two versions of an interval are the parent and the child, whichever
/// emitter reads them, and no step changes them or the emitter.
pub proof fn a_step_stays_with_its_versions<D>(
    before: EmitSource<D>,
    after: EmitSource<D>,
    result: Result<SourceStep, OmniError>,
)
    requires
        source_stepped(before, after, result),
    ensures
        before matches EmitSource::FullMerge { merge, from, to } ==> (
        after matches EmitSource::FullMerge { merge: next, from: f, to: t } && f == from && t == to
            && before.parent() == from && before.child() == to && (match result {
            Ok(SourceStep::FullMerge(step)) => enumerate::merge_stepped(merge, next, Ok(step)),
            Ok(SourceStep::Pruned(_)) => false,
            Err(error) => enumerate::merge_stepped(merge, next, Err(error)),
        })),
        before matches EmitSource::Pruned { candidates, parent, child } ==> (
        after matches EmitSource::Pruned { candidates: next, parent: p, child: c } && p == parent
            && c == child && before.parent() == parent && before.child() == child && (
        match result {
            Ok(SourceStep::Pruned(step)) => upserts::upserts_stepped(candidates, next, Ok(step)),
            Ok(SourceStep::FullMerge(_)) => false,
            Err(error) => upserts::upserts_stepped(candidates, next, Err(error)),
        })),
{
}

} // verus!
