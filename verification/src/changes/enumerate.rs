//! The exact change enumerator: an ordered merge of the complete rows of two
//! pinned table versions.

use vstd::prelude::*;

use crate::changes::model::{ChangeFeedScope, ChangeOpKind};
use crate::changes::row_compare::{
    self, BlobValues, Comparison, RawRow, RowComparison, RowView, compare_rows, same_payloads,
};
use crate::changes::scan::OrderedRows;
use crate::error::{self, OmniError};
use crate::text::{self, is_text_less};

verus! {

/// One logical change of a row.
#[derive(Debug)]
pub enum Emit {
    Insert(RawRow),
    Update { before: RawRow, after: RawRow },
    Delete(RawRow),
}

/// A change over plain values.
pub enum ChangeView {
    Insert(RowView),
    Update { before: RowView, after: RowView },
    Delete(RowView),
}

impl View for Emit {
    type V = ChangeView;

    open spec fn view(&self) -> ChangeView {
        match *self {
            Emit::Insert(row) => ChangeView::Insert(row@),
            Emit::Update { before, after } => ChangeView::Update { before: before@, after: after@ },
            Emit::Delete(row) => ChangeView::Delete(row@),
        }
    }
}

impl ChangeView {
    pub open spec fn kind(self) -> ChangeOpKind {
        match self {
            ChangeView::Insert(_) => ChangeOpKind::Insert,
            ChangeView::Update { before: _, after: _ } => ChangeOpKind::Update,
            ChangeView::Delete(_) => ChangeOpKind::Delete,
        }
    }

    /// The logical id of the row that changed.
    pub open spec fn id(self) -> Seq<char> {
        match self {
            ChangeView::Insert(row) => row.id,
            ChangeView::Update { before: _, after } => after.id,
            ChangeView::Delete(row) => row.id,
        }
    }
}

impl Emit {
    pub fn op(&self) -> (r: ChangeOpKind)
        ensures
            r == self@.kind(),
    {
        match self {
            Emit::Insert(_) => ChangeOpKind::Insert,
            Emit::Update { before: _, after: _ } => ChangeOpKind::Update,
            Emit::Delete(_) => ChangeOpKind::Delete,
        }
    }
}

/// The changes from the rows `from` to the rows `to`, both in id order, where
/// `same` tells whether two rows of one id have the same logical image.
pub open spec fn changes(
    from: Seq<RowView>,
    to: Seq<RowView>,
    same: spec_fn(RowView, RowView) -> bool,
) -> Seq<ChangeView>
    decreases from.len() + to.len(),
{
    if from.len() == 0 && to.len() == 0 {
        Seq::empty()
    } else if to.len() == 0 || (from.len() > 0 && text::text_less(from[0].id, to[0].id)) {
        seq![ChangeView::Delete(from[0])] + changes(from.drop_first(), to, same)
    } else if from.len() == 0 || text::text_less(to[0].id, from[0].id) {
        seq![ChangeView::Insert(to[0])] + changes(from, to.drop_first(), same)
    } else if same(from[0], to[0]) {
        changes(from.drop_first(), to.drop_first(), same)
    } else {
        seq![ChangeView::Update { before: from[0], after: to[0] }] + changes(
            from.drop_first(),
            to.drop_first(),
            same,
        )
    }
}

/// The changes that a feed reports.
pub open spec fn reported(scope: ChangeFeedScope, all: Seq<ChangeView>) -> Seq<ChangeView>
    decreases all.len(),
{
    if all.len() == 0 {
        all
    } else if scope.selects(all[0].kind()) {
        seq![all[0]] + reported(scope, all.drop_first())
    } else {
        reported(scope, all.drop_first())
    }
}

/// Whether `same` says of two rows what their comparison says, wherever that
/// needs no payload.
pub open spec fn faithful(same: spec_fn(RowView, RowView) -> bool) -> bool {
    forall|left: RowView, right: RowView|
        #![trigger same(left, right)]
        (row_compare::comparison(left, right) is Equal ==> same(left, right)) && (
        row_compare::comparison(left, right) is Different ==> !same(left, right))
}

/// What the merge asks for, or gives, next.
#[derive(Debug)]
pub enum MergeStep {
    /// The next batch of the parent's rows.
    FillFrom,
    /// The next batch of the child's rows.
    FillTo,
    /// The payloads of these columns, of the next row on both sides.
    Payloads(Vec<String>),
    Emit(Emit),
    Done,
}

/// The merge of two ordered scans.
#[derive(Debug)]
pub struct FullMerge {
    pub from: OrderedRows,
    pub to: OrderedRows,
    pub scope: ChangeFeedScope,
}

impl FullMerge {
    /// What the merge still reports, where the scans deliver `from_rest` and
    /// `to_rest` from here on.
    pub open spec fn remaining(
        self,
        from_rest: Seq<RowView>,
        to_rest: Seq<RowView>,
        same: spec_fn(RowView, RowView) -> bool,
    ) -> Seq<ChangeView> {
        reported(self.scope, changes(self.from.rows() + from_rest, self.to.rows() + to_rest, same))
    }

    /// Whether the scans can still deliver those rows: a scan that has ended
    /// delivers none.
    pub open spec fn may_deliver(self, from_rest: Seq<RowView>, to_rest: Seq<RowView>) -> bool {
        &&& self.from.is_open() || from_rest.len() == 0
        &&& self.to.is_open() || to_rest.len() == 0
    }

    /// Whether both scans are at a row of one id.
    pub open spec fn at_pair(self) -> bool {
        &&& self.from.rows().len() > 0
        &&& self.to.rows().len() > 0
        &&& self.from.rows()[0].id == self.to.rows()[0].id
    }

    pub fn new(scope: ChangeFeedScope) -> (r: Self)
        ensures
            r.from.rows().len() == 0,
            r.to.rows().len() == 0,
            r.from.is_open(),
            r.to.is_open(),
            r.scope == scope,
    {
        FullMerge { from: OrderedRows::new(), to: OrderedRows::new(), scope }
    }

    /// Moves to the next change that the feed reports, as far as the rows at
    /// hand allow. Nothing that is still to be reported gets lost: what is left
    /// after the step is what was left before it, less the change given.
    pub fn next(&mut self) -> (r: Result<MergeStep, OmniError>)
        ensures
            merge_stepped(*old(self), *final(self), r),
    {
        let ghost start = *self;
        proof {
            assert(start.from.rows() =~= start.from.rows().skip(0));
            assert(start.to.rows() =~= start.to.rows().skip(0));
        }
        loop
            invariant
                start == *old(self),
                self.scope == start.scope,
                is_rest_of(self.from.rows(), start.from.rows()),
                is_rest_of(self.to.rows(), start.to.rows()),
                self.from.is_open() == start.from.is_open(),
                self.to.is_open() == start.to.is_open(),
                forall|
                    from_rest: Seq<RowView>,
                    to_rest: Seq<RowView>,
                    same: spec_fn(RowView, RowView) -> bool,
                |
                    #![trigger start.remaining(from_rest, to_rest, same)]
                    #![trigger self.remaining(from_rest, to_rest, same)]
                    faithful(same) && start.may_deliver(from_rest, to_rest) ==> start.remaining(
                        from_rest,
                        to_rest,
                        same,
                    ) == self.remaining(from_rest, to_rest, same),
            decreases self.from.rows().len() + self.to.rows().len(),
        {
            if self.from.needs_batch() {
                return Ok(MergeStep::FillFrom);
            }
            if self.to.needs_batch() {
                return Ok(MergeStep::FillTo);
            }
            let ghost here = *self;
            let which: Side = match (self.from.peek(), self.to.peek()) {
                (None, None) => {
                    return Ok(MergeStep::Done);
                },
                (Some(_), None) => Side::From,
                (None, Some(_)) => Side::To,
                (Some(before), Some(after)) => if is_text_less(before.id(), after.id()) {
                    Side::From
                } else if is_text_less(after.id(), before.id()) {
                    Side::To
                } else {
                    proof {
                        text::text_order_is_total(before@.id, after@.id);
                    }
                    match compare_rows(before, after) {
                        Ok(RowComparison::Equal) => Side::Neither,
                        Ok(RowComparison::Different) => Side::Both,
                        Ok(RowComparison::Payloads(columns)) => {
                            return Ok(MergeStep::Payloads(columns));
                        },
                        Err(error) => {
                            return Err(error);
                        },
                    }
                },
            };
            proof {
                assert forall|
                    from_rest: Seq<RowView>,
                    to_rest: Seq<RowView>,
                    same: spec_fn(RowView, RowView) -> bool,
                |
                    faithful(same) && start.may_deliver(from_rest, to_rest) implies (
                #[trigger] here.remaining(from_rest, to_rest, same)) == after_side(
                    here,
                    which,
                    from_rest,
                    to_rest,
                    same,
                ) by {
                    lemma_side(here, which, from_rest, to_rest, same);
                }
            }
            let emit: Option<Emit> = match which {
                Side::From => match self.from.pop() {
                    Some(row) => Some(Emit::Delete(row)),
                    None => None,
                },
                Side::To => match self.to.pop() {
                    Some(row) => Some(Emit::Insert(row)),
                    None => None,
                },
                Side::Both => match (self.from.pop(), self.to.pop()) {
                    (Some(before), Some(after)) => Some(Emit::Update { before, after }),
                    _ => None,
                },
                Side::Neither => {
                    let _ = self.from.pop();
                    let _ = self.to.pop();
                    None
                },
            };
            proof {
                lemma_taken(here, *self, which, emit);
                lemma_rest_of(self.from.rows(), here.from.rows(), start.from.rows());
                lemma_rest_of(self.to.rows(), here.to.rows(), start.to.rows());
            }
            match emit {
                Some(emit) => {
                    if self.scope.wants_op(emit.op()) {
                        return Ok(MergeStep::Emit(emit));
                    }
                },
                None => {},
            }
        }
    }

    /// Takes the payloads read for the pair that [`FullMerge::next`] stopped at,
    /// and gives the update that the feed reports, if the pair is one.
    pub fn on_payloads(&mut self, before_values: &BlobValues, after_values: &BlobValues) -> (r:
        Option<Emit>)
        requires
            old(self).at_pair(),
        ensures
            merge_answered(
                *old(self),
                *final(self),
                row_compare::value_views(before_values@) == row_compare::value_views(after_values@),
                r,
            ),
    {
        let ghost here = *self;
        let same = same_payloads(before_values, after_values);
        let which = if same {
            Side::Neither
        } else {
            Side::Both
        };
        proof {
            text::text_order_is_total(here.from.rows()[0].id, here.to.rows()[0].id);
            assert forall|
                from_rest: Seq<RowView>,
                to_rest: Seq<RowView>,
                equal: spec_fn(RowView, RowView) -> bool,
            |
                equal(here.from.rows()[0], here.to.rows()[0]) == same implies (
            #[trigger] here.remaining(from_rest, to_rest, equal)) == after_side(
                here,
                which,
                from_rest,
                to_rest,
                equal,
            ) by {
                lemma_side(here, which, from_rest, to_rest, equal);
            }
        }
        let before = self.from.pop();
        let after = self.to.pop();
        proof {
            lemma_reported_first(
                here.scope,
                ChangeView::Update { before: here.from.rows()[0], after: here.to.rows()[0] },
                Seq::empty(),
            );
            assert forall|
                from_rest: Seq<RowView>,
                to_rest: Seq<RowView>,
                equal: spec_fn(RowView, RowView) -> bool,
            | #[trigger] self.remaining(from_rest, to_rest, equal) == Seq::<ChangeView>::empty()
                + self.remaining(from_rest, to_rest, equal) by {}
        }
        match (before, after) {
            (Some(before), Some(after)) => if !same && self.scope.wants_op(ChangeOpKind::Update) {
                Some(Emit::Update { before, after })
            } else {
                None
            },
            _ => None,
        }
    }
}

/// Whether `result` is what the payloads of a pair give: the pair is taken, as an
/// update where they differ and the feed reports it, with everything else that is
/// still to be reported kept.
pub open spec fn merge_answered(
    before: FullMerge,
    after: FullMerge,
    payloads_agree: bool,
    result: Option<Emit>,
) -> bool {
    &&& after.scope == before.scope
    &&& after.from.is_open() == before.from.is_open()
    &&& after.to.is_open() == before.to.is_open()
    &&& after.from.rows() == before.from.rows().drop_first()
    &&& after.to.rows() == before.to.rows().drop_first()
    &&& result is Some <==> !payloads_agree && before.scope.selects(ChangeOpKind::Update)
    &&& result matches Some(emit) ==> emit@ == (ChangeView::Update {
        before: before.from.rows()[0],
        after: before.to.rows()[0],
    })
    &&& forall|
        from_rest: Seq<RowView>,
        to_rest: Seq<RowView>,
        same: spec_fn(RowView, RowView) -> bool,
    |
        #![trigger before.remaining(from_rest, to_rest, same)]
        #![trigger after.remaining(from_rest, to_rest, same)]
        same(before.from.rows()[0], before.to.rows()[0]) == payloads_agree ==> before.remaining(
            from_rest,
            to_rest,
            same,
        ) == (match result {
            Some(emit) => seq![emit@] + after.remaining(from_rest, to_rest, same),
            None => after.remaining(from_rest, to_rest, same),
        })
}

/// Whether rows are those of a queue from some place on.
pub open spec fn is_rest_of(rest: Seq<RowView>, rows: Seq<RowView>) -> bool {
    rest.len() <= rows.len() && rest == rows.skip(rows.len() - rest.len())
}

/// Whether `result` is what a step of the merge gives: a request that the state
/// justifies, or a change, with everything else that is still to be reported
/// kept. Rows are only ever taken, and a change takes at least one.
pub open spec fn merge_stepped(
    before: FullMerge,
    after: FullMerge,
    result: Result<MergeStep, OmniError>,
) -> bool {
    &&& after.scope == before.scope
    &&& after.from.is_open() == before.from.is_open()
    &&& after.to.is_open() == before.to.is_open()
    &&& is_rest_of(after.from.rows(), before.from.rows())
    &&& is_rest_of(after.to.rows(), before.to.rows())
    &&& result matches Ok(MergeStep::Emit(_)) ==> after.from.rows().len() + after.to.rows().len()
        < before.from.rows().len() + before.to.rows().len()
    &&& match result {
        Ok(MergeStep::FillFrom) => after.from.wants_batch(),
        Ok(MergeStep::FillTo) => after.to.wants_batch() && !after.from.wants_batch(),
        Ok(MergeStep::Payloads(columns)) => after.at_pair() && (
        row_compare::comparison(
            after.from.rows()[0],
            after.to.rows()[0],
        ) matches Comparison::Payloads { columns: expected }
            && row_compare::text_views(columns@) == expected),
        Ok(MergeStep::Emit(emit)) => after.scope.selects(emit@.kind()),
        Ok(MergeStep::Done) => after.from.rows().len() == 0 && after.to.rows().len() == 0
            && !after.from.is_open() && !after.to.is_open(),
        Err(error) => after.at_pair() && (row_compare::comparison(
            after.from.rows()[0],
            after.to.rows()[0],
        ) matches Comparison::Missing { column } && error::is_plain_manifest(
            error,
            error::ManifestErrorKind::Internal,
            row_compare::missing_column_text(column),
        )),
    }
    &&& forall|
        from_rest: Seq<RowView>,
        to_rest: Seq<RowView>,
        same: spec_fn(RowView, RowView) -> bool,
    |
        #![trigger before.remaining(from_rest, to_rest, same)]
        #![trigger after.remaining(from_rest, to_rest, same)]
        faithful(same) && before.may_deliver(from_rest, to_rest) ==> before.remaining(
            from_rest,
            to_rest,
            same,
        ) == (match result {
            Ok(MergeStep::Emit(emit)) => seq![emit@] + after.remaining(from_rest, to_rest, same),
            _ => after.remaining(from_rest, to_rest, same),
        })
}

proof fn lemma_rest_of(after: Seq<RowView>, here: Seq<RowView>, start: Seq<RowView>)
    requires
        is_rest_of(here, start),
        after == here || (here.len() > 0 && after == here.drop_first()),
    ensures
        is_rest_of(after, start),
{
    assert(after =~= start.skip(start.len() - after.len()));
}

/// Which side the next row is taken from, and whether a pair differs.
enum Side {
    From,
    To,
    Both,
    Neither,
}

/// What is still reported once the next row or pair has been taken, with the
/// change that it is in front.
spec fn after_side(
    merge: FullMerge,
    which: Side,
    from_rest: Seq<RowView>,
    to_rest: Seq<RowView>,
    same: spec_fn(RowView, RowView) -> bool,
) -> Seq<ChangeView> {
    let from = merge.from.rows();
    let to = merge.to.rows();
    match which {
        Side::From => reported(merge.scope, seq![ChangeView::Delete(from[0])]) + reported(
            merge.scope,
            changes(from.drop_first() + from_rest, to + to_rest, same),
        ),
        Side::To => reported(merge.scope, seq![ChangeView::Insert(to[0])]) + reported(
            merge.scope,
            changes(from + from_rest, to.drop_first() + to_rest, same),
        ),
        Side::Both => reported(
            merge.scope,
            seq![ChangeView::Update { before: from[0], after: to[0] }],
        ) + reported(
            merge.scope,
            changes(from.drop_first() + from_rest, to.drop_first() + to_rest, same),
        ),
        Side::Neither => reported(
            merge.scope,
            changes(from.drop_first() + from_rest, to.drop_first() + to_rest, same),
        ),
    }
}

/// The change that taking the next row or pair gives.
spec fn taken(merge: FullMerge, which: Side) -> Option<ChangeView> {
    match which {
        Side::From => Some(ChangeView::Delete(merge.from.rows()[0])),
        Side::To => Some(ChangeView::Insert(merge.to.rows()[0])),
        Side::Both => Some(
            ChangeView::Update { before: merge.from.rows()[0], after: merge.to.rows()[0] },
        ),
        Side::Neither => None,
    }
}

proof fn lemma_taken(before: FullMerge, after: FullMerge, which: Side, emit: Option<Emit>)
    requires
        after.scope == before.scope,
        match emit {
            Some(emit) => taken(before, which) == Some(emit@),
            None => taken(before, which) is None,
        },
        after.from.rows() == (if which is From || which is Both || which is Neither {
            before.from.rows().drop_first()
        } else {
            before.from.rows()
        }),
        after.to.rows() == (if which is To || which is Both || which is Neither {
            before.to.rows().drop_first()
        } else {
            before.to.rows()
        }),
    ensures
        forall|
            from_rest: Seq<RowView>,
            to_rest: Seq<RowView>,
            same: spec_fn(RowView, RowView) -> bool,
        | #[trigger]
            after_side(before, which, from_rest, to_rest, same) == (match emit {
                Some(emit) => if before.scope.selects(emit@.kind()) {
                    seq![emit@] + after.remaining(from_rest, to_rest, same)
                } else {
                    after.remaining(from_rest, to_rest, same)
                },
                None => after.remaining(from_rest, to_rest, same),
            }),
{
    match emit {
        Some(emit) => {
            lemma_reported_first(before.scope, emit@, Seq::empty());
            assert forall|
                from_rest: Seq<RowView>,
                to_rest: Seq<RowView>,
                same: spec_fn(RowView, RowView) -> bool,
            | #[trigger]
                after_side(before, which, from_rest, to_rest, same) == (if before.scope.selects(
                    emit@.kind(),
                ) {
                    seq![emit@] + after.remaining(from_rest, to_rest, same)
                } else {
                    after.remaining(from_rest, to_rest, same)
                }) by {
                let rest = after.remaining(from_rest, to_rest, same);
                assert(Seq::<ChangeView>::empty() + rest =~= rest);
            }
        },
        None => {},
    }
}

proof fn lemma_reported_first(scope: ChangeFeedScope, first: ChangeView, rest: Seq<ChangeView>)
    ensures
        reported(scope, seq![first] + rest) == reported(scope, seq![first]) + reported(scope, rest),
        reported(scope, seq![first]) == (if scope.selects(first.kind()) {
            seq![first]
        } else {
            Seq::empty()
        }),
{
    assert((seq![first] + rest).drop_first() =~= rest);
    assert(seq![first].drop_first() =~= Seq::empty());
    reveal_with_fuel(reported, 2);
    if scope.selects(first.kind()) {
        assert(reported(scope, seq![first]) =~= seq![first]);
    } else {
        assert(reported(scope, seq![first]) =~= Seq::empty());
        assert(Seq::<ChangeView>::empty() + reported(scope, rest) =~= reported(scope, rest));
    }
}

/// A feed reports of two stretches of changes what it reports of each.
pub proof fn reported_splits(scope: ChangeFeedScope, a: Seq<ChangeView>, b: Seq<ChangeView>)
    ensures
        reported(scope, a + b) == reported(scope, a) + reported(scope, b),
    decreases a.len(),
{
    if a.len() == 0 {
        assert(a + b =~= b);
        assert(reported(scope, a) + reported(scope, b) =~= reported(scope, b));
    } else {
        reported_splits(scope, a.drop_first(), b);
        assert((a + b).drop_first() =~= a.drop_first() + b);
        assert(seq![a[0]] + (reported(scope, a.drop_first()) + reported(scope, b)) =~= (seq![a[0]]
            + reported(scope, a.drop_first())) + reported(scope, b));
    }
}

/// A feed reports a single change where it selects its kind.
pub proof fn one_change_is_reported_if_selected(scope: ChangeFeedScope, change: ChangeView)
    ensures
        reported(scope, seq![change]) == (if scope.selects(change.kind()) {
            seq![change]
        } else {
            Seq::empty()
        }),
{
    lemma_reported_first(scope, change, Seq::empty());
}

proof fn lemma_side(
    merge: FullMerge,
    which: Side,
    from_rest: Seq<RowView>,
    to_rest: Seq<RowView>,
    same: spec_fn(RowView, RowView) -> bool,
)
    requires
        merge.from.rows().len() > 0 || from_rest.len() == 0,
        merge.to.rows().len() > 0 || to_rest.len() == 0,
        match which {
            Side::From => merge.from.rows().len() > 0 && (merge.to.rows().len() == 0
                || text::text_less(merge.from.rows()[0].id, merge.to.rows()[0].id)),
            Side::To => merge.to.rows().len() > 0 && (merge.from.rows().len() == 0
                || text::text_less(merge.to.rows()[0].id, merge.from.rows()[0].id)),
            Side::Both => merge.at_pair() && !same(merge.from.rows()[0], merge.to.rows()[0]),
            Side::Neither => merge.at_pair() && same(merge.from.rows()[0], merge.to.rows()[0]),
        },
    ensures
        merge.remaining(from_rest, to_rest, same) == after_side(
            merge,
            which,
            from_rest,
            to_rest,
            same,
        ),
{
    let from = merge.from.rows();
    let to = merge.to.rows();
    let all_from = from + from_rest;
    let all_to = to + to_rest;
    if from.len() > 0 {
        assert(all_from.drop_first() =~= from.drop_first() + from_rest);
    }
    if to.len() > 0 {
        assert(all_to.drop_first() =~= to.drop_first() + to_rest);
    }
    if from.len() > 0 && to.len() > 0 {
        text::text_order_is_total(from[0].id, to[0].id);
    }
    match which {
        Side::From => {
            lemma_reported_first(
                merge.scope,
                ChangeView::Delete(from[0]),
                changes(all_from.drop_first(), all_to, same),
            );
        },
        Side::To => {
            lemma_reported_first(
                merge.scope,
                ChangeView::Insert(to[0]),
                changes(all_from, all_to.drop_first(), same),
            );
        },
        Side::Both => {
            lemma_reported_first(
                merge.scope,
                ChangeView::Update { before: from[0], after: to[0] },
                changes(all_from.drop_first(), all_to.drop_first(), same),
            );
        },
        Side::Neither => {},
    }
}

} // verus!
