//! What an emitter gives from its start to its end.
//!
//! A run is a sequence of states, each reached from the one before by a step of
//! the emitter, by what a scan delivers, or by the payloads that were asked for.

use vstd::prelude::*;

use crate::changes::candidate_scan::PARENT_PROBE_CHUNK;
use crate::changes::emit_source;
use crate::changes::enumerate::{self, ChangeView, Emit, FullMerge, MergeStep};
use crate::changes::merge_laws;
use crate::changes::model::ChangeFeedScope;
use crate::changes::row_compare::{self, RowView};
use crate::changes::scan::OrderedRows;
use crate::changes::upserts::{self, CandidateUpserts, Phase, UpsertStep};
use crate::text;

verus! {

/// Whether a scan that is out of rows delivers the next of the rows that are
/// left, or, where none are left, may end.
pub open spec fn scan_moves(
    before: OrderedRows,
    rest: Seq<RowView>,
    after: OrderedRows,
    rest_after: Seq<RowView>,
) -> bool {
    &&& before.wants_batch()
    &&& after.rows() + rest_after == rest
    &&& after.is_open() || rest.len() == 0
}

/// The changes of some stretches of a run, one after the other.
pub open spec fn all_given(given: Seq<Seq<ChangeView>>) -> Seq<ChangeView>
    decreases given.len(),
{
    if given.len() == 0 {
        Seq::empty()
    } else {
        all_given(given.drop_last()) + given.last()
    }
}

// ---------------------------------------------------------------------------
// The merge
// ---------------------------------------------------------------------------

/// The merge, and the rows that its scans are still to deliver.
pub struct MergeState {
    pub merge: FullMerge,
    pub from_rest: Seq<RowView>,
    pub to_rest: Seq<RowView>,
}

/// The change that a step of the merge gives, if it gives one.
pub open spec fn merge_gives(step: MergeStep) -> Seq<ChangeView> {
    match step {
        MergeStep::Emit(emit) => seq![emit@],
        _ => Seq::empty(),
    }
}

/// Whether a step of the merge leads from one state to another.
pub open spec fn merge_steps(
    before: MergeState,
    after: MergeState,
    step: MergeStep,
    given: Seq<ChangeView>,
) -> bool {
    &&& enumerate::merge_stepped(before.merge, after.merge, Ok(step))
    &&& after.from_rest == before.from_rest
    &&& after.to_rest == before.to_rest
    &&& given == merge_gives(step)
}

/// Whether the payloads of a pair lead from one state to another.
pub open spec fn merge_takes_payloads(
    before: MergeState,
    after: MergeState,
    result: Option<Emit>,
    given: Seq<ChangeView>,
    same: spec_fn(RowView, RowView) -> bool,
) -> bool {
    &&& before.merge.at_pair()
    &&& enumerate::merge_answered(
        before.merge,
        after.merge,
        same(before.merge.from.rows()[0], before.merge.to.rows()[0]),
        result,
    )
    &&& after.from_rest == before.from_rest
    &&& after.to_rest == before.to_rest
    &&& given == (match result {
        Some(emit) => seq![emit@],
        None => Seq::empty(),
    })
}

/// Whether what a scan of the merge delivers leads from one state to another.
pub open spec fn merge_is_fed(before: MergeState, after: MergeState) -> bool {
    &&& after.merge.scope == before.merge.scope
    &&& {
        ||| scan_moves(before.merge.from, before.from_rest, after.merge.from, after.from_rest)
            && after.merge.to == before.merge.to && after.to_rest == before.to_rest
        ||| scan_moves(before.merge.to, before.to_rest, after.merge.to, after.to_rest)
            && after.merge.from == before.merge.from && after.from_rest == before.from_rest
    }
}

/// Whether the merge gets from one state to the next, giving some changes.
pub open spec fn merge_moves(
    before: MergeState,
    after: MergeState,
    given: Seq<ChangeView>,
    same: spec_fn(RowView, RowView) -> bool,
) -> bool {
    ||| exists|step: MergeStep| #[trigger] merge_steps(before, after, step, given)
    ||| exists|result: Option<Emit>| #[trigger]
        merge_takes_payloads(before, after, result, given, same)
    ||| merge_is_fed(before, after) && given.len() == 0
}

/// Whether the states are those of a run of the merge without a failed read, to
/// where it is done.
pub open spec fn merge_run(
    states: Seq<MergeState>,
    given: Seq<Seq<ChangeView>>,
    same: spec_fn(RowView, RowView) -> bool,
) -> bool {
    &&& states.len() == given.len() + 1
    &&& given.len() > 0
    &&& forall|i: int|
        #![trigger given[i]]
        0 <= i < given.len() ==> merge_moves(states[i], states[i + 1], given[i], same)
    &&& merge_steps(states[given.len() - 1], states.last(), MergeStep::Done, given.last())
}

proof fn lemma_merge_moves(
    before: MergeState,
    after: MergeState,
    given: Seq<ChangeView>,
    same: spec_fn(RowView, RowView) -> bool,
)
    requires
        merge_moves(before, after, given, same),
        enumerate::faithful(same),
        before.merge.may_deliver(before.from_rest, before.to_rest),
    ensures
        after.merge.may_deliver(after.from_rest, after.to_rest),
        before.merge.remaining(before.from_rest, before.to_rest, same) == given
            + after.merge.remaining(after.from_rest, after.to_rest, same),
{
    let owed = before.merge.remaining(before.from_rest, before.to_rest, same);
    let left = after.merge.remaining(after.from_rest, after.to_rest, same);
    assert(Seq::<ChangeView>::empty() + left =~= left);
    if exists|step: MergeStep| #[trigger] merge_steps(before, after, step, given) {
    } else if exists|result: Option<Emit>| #[trigger]
        merge_takes_payloads(before, after, result, given, same) {
    } else {
        assert(before.merge.from.rows() + before.from_rest =~= after.merge.from.rows()
            + after.from_rest);
        assert(before.merge.to.rows() + before.to_rest =~= after.merge.to.rows() + after.to_rest);
        assert(given =~= Seq::empty());
    }
}

proof fn lemma_merge_run(
    states: Seq<MergeState>,
    given: Seq<Seq<ChangeView>>,
    same: spec_fn(RowView, RowView) -> bool,
    count: nat,
)
    requires
        merge_run(states, given, same),
        enumerate::faithful(same),
        states[0].merge.may_deliver(states[0].from_rest, states[0].to_rest),
        count <= given.len(),
    ensures
        states[count as int].merge.may_deliver(
            states[count as int].from_rest,
            states[count as int].to_rest,
        ),
        states[0].merge.remaining(states[0].from_rest, states[0].to_rest, same) == all_given(
            given.take(count as int),
        ) + states[count as int].merge.remaining(
            states[count as int].from_rest,
            states[count as int].to_rest,
            same,
        ),
    decreases count,
{
    let here = states[count as int];
    let left = here.merge.remaining(here.from_rest, here.to_rest, same);
    if count == 0 {
        assert(given.take(0) =~= Seq::empty());
        assert(Seq::<ChangeView>::empty() + left =~= left);
    } else {
        let before = (count - 1) as nat;
        lemma_merge_run(states, given, same, before);
        let one = given[before as int];
        lemma_merge_moves(states[before as int], here, one, same);
        assert(given.take(count as int).drop_last() =~= given.take(before as int));
        assert(given.take(count as int).last() == one);
        let earlier = all_given(given.take(before as int));
        assert(earlier + (one + left) =~= (earlier + one) + left);
    }
}

/// A merge that runs to its end gives everything that it owed at its start, each
/// change once and in order.
pub proof fn a_drained_merge_gave_all_it_owed(
    states: Seq<MergeState>,
    given: Seq<Seq<ChangeView>>,
    same: spec_fn(RowView, RowView) -> bool,
)
    requires
        merge_run(states, given, same),
        enumerate::faithful(same),
        states[0].merge.may_deliver(states[0].from_rest, states[0].to_rest),
    ensures
        all_given(given) == states[0].merge.remaining(
            states[0].from_rest,
            states[0].to_rest,
            same,
        ),
{
    let last = (given.len() - 1) as nat;
    lemma_merge_run(states, given, same, given.len());
    lemma_merge_run(states, given, same, last);
    let here = states[last as int];
    emit_source::a_done_merge_owes_nothing(
        here.merge,
        states.last().merge,
        here.from_rest,
        here.to_rest,
        same,
    );
    assert(given.take(last as int) =~= given.drop_last());
    assert(given.last() =~= Seq::empty());
    assert(all_given(given) =~= all_given(given.drop_last()));
    let owed = here.merge.remaining(here.from_rest, here.to_rest, same);
    assert(owed =~= Seq::empty());
    assert(all_given(given.drop_last()) + owed =~= all_given(given.drop_last()));
}

// ---------------------------------------------------------------------------
// The pruned emitter
// ---------------------------------------------------------------------------

/// The pruned emitter, and the rows that its scans are still to deliver.
pub struct UpsertState {
    pub emitter: CandidateUpserts,
    pub rest: Seq<RowView>,
    pub probe_rest: Seq<RowView>,
}

/// The change that a step of the pruned emitter gives, if it gives one.
pub open spec fn upserts_give(step: UpsertStep) -> Seq<ChangeView> {
    match step {
        UpsertStep::Emit(emit) => seq![emit@],
        _ => Seq::empty(),
    }
}

/// Whether a step of the pruned emitter leads from one state to another. A probe
/// is answered from the rows of the parent: with those of the ids that it asks
/// for.
pub open spec fn upserts_step(
    before: UpsertState,
    after: UpsertState,
    step: UpsertStep,
    given: Seq<ChangeView>,
    parent: Seq<RowView>,
) -> bool {
    &&& upserts::upserts_stepped(before.emitter, after.emitter, Ok(step))
    &&& after.rest == before.rest
    &&& after.probe_rest == (match step {
        UpsertStep::Probe(ids) => parent.filter(
            |row: RowView| row_compare::text_views(ids@).contains(row.id),
        ),
        _ => before.probe_rest,
    })
    &&& given == upserts_give(step)
}

/// Whether the payloads of a candidate and its before image lead from one state
/// to another.
pub open spec fn upserts_take_payloads(
    before: UpsertState,
    after: UpsertState,
    same: spec_fn(RowView, RowView) -> bool,
) -> bool {
    let candidate = before.emitter.chunk_rows()[0];
    &&& before.emitter.at_pair()
    &&& upserts::upserts_answered(
        before.emitter,
        after.emitter,
        same(before.emitter.image_map()[candidate.id], candidate),
    )
    &&& after.rest == before.rest
    &&& after.probe_rest == before.probe_rest
}

/// Whether what a scan of the pruned emitter delivers leads from one state to
/// another.
pub open spec fn upserts_are_fed(before: UpsertState, after: UpsertState) -> bool {
    ||| {
        &&& scan_moves(
            before.emitter.candidates,
            before.rest,
            after.emitter.candidates,
            after.rest,
        )
        &&& after.emitter == (CandidateUpserts {
            candidates: after.emitter.candidates,
            ..before.emitter
        })
        &&& after.probe_rest == before.probe_rest
    }
    ||| {
        &&& scan_moves(
            before.emitter.probe,
            before.probe_rest,
            after.emitter.probe,
            after.probe_rest,
        )
        &&& after.emitter == (CandidateUpserts { probe: after.emitter.probe, ..before.emitter })
        &&& after.rest == before.rest
    }
}

/// Whether the pruned emitter gets from one state to the next, giving some
/// changes.
pub open spec fn upserts_move(
    before: UpsertState,
    after: UpsertState,
    given: Seq<ChangeView>,
    parent: Seq<RowView>,
    same: spec_fn(RowView, RowView) -> bool,
) -> bool {
    ||| exists|step: UpsertStep| #[trigger] upserts_step(before, after, step, given, parent)
    ||| upserts_take_payloads(before, after, same) && given.len() == 0
    ||| upserts_are_fed(before, after) && given.len() == 0
}

/// Whether the states are those that the pruned emitter goes through without a
/// failed read, however far it has got.
pub open spec fn upserts_path(
    states: Seq<UpsertState>,
    given: Seq<Seq<ChangeView>>,
    parent: Seq<RowView>,
    same: spec_fn(RowView, RowView) -> bool,
) -> bool {
    &&& states.len() == given.len() + 1
    &&& forall|i: int|
        #![trigger given[i]]
        0 <= i < given.len() ==> upserts_move(states[i], states[i + 1], given[i], parent, same)
}

/// Whether the states are those of a run of the pruned emitter without a failed
/// read, to where it is done.
pub open spec fn upserts_run(
    states: Seq<UpsertState>,
    given: Seq<Seq<ChangeView>>,
    parent: Seq<RowView>,
    same: spec_fn(RowView, RowView) -> bool,
) -> bool {
    &&& upserts_path(states, given, parent, same)
    &&& given.len() > 0
    &&& upserts_step(
        states[given.len() - 1],
        states.last(),
        UpsertStep::Done,
        given.last(),
        parent,
    )
}

/// Whether the scans of a state can deliver its rows, and the probe at hand is
/// answered from the parent's.
pub open spec fn is_sound(state: UpsertState, parent: Seq<RowView>) -> bool {
    &&& state.emitter.may_deliver(state.rest, state.probe_rest)
    &&& state.emitter.answered(state.probe_rest, upserts::parent_rows(parent))
    &&& state.emitter.chunk_fits()
}

proof fn lemma_probe_answers(
    before: UpsertState,
    after: UpsertState,
    ids: Vec<String>,
    parent: Seq<RowView>,
)
    requires
        merge_laws::in_id_order(parent),
        upserts::upserts_stepped(
            before.emitter,
            after.emitter,
            Ok(UpsertStep::Probe(ids)),
        ),
        after.probe_rest == parent.filter(
            |row: RowView| row_compare::text_views(ids@).contains(row.id),
        ),
    ensures
        after.emitter.answered(after.probe_rest, upserts::parent_rows(parent)),
{
    let asked = row_compare::text_views(ids@);
    let chunk = after.emitter.chunk_rows();
    assert(after.emitter.probe.rows() + after.probe_rest =~= after.probe_rest);
    assert forall|i: int| 0 <= i < chunk.len() implies upserts::parent_rows(parent)(
        (#[trigger] chunk[i]).id,
    ) == upserts::image_of(
        upserts::with_images(
            after.emitter.image_map(),
            after.emitter.probe.rows() + after.probe_rest,
        ),
        chunk[i].id,
    ) by {
        assert(chunk.map_values(|row: RowView| row.id)[i] == chunk[i].id);
        assert(asked.contains(chunk[i].id));
        upserts::a_probe_gives_the_parents_rows(parent, asked, chunk[i].id);
    }
}

proof fn lemma_upserts_move(
    before: UpsertState,
    after: UpsertState,
    given: Seq<ChangeView>,
    parent: Seq<RowView>,
    same: spec_fn(RowView, RowView) -> bool,
)
    requires
        upserts_move(before, after, given, parent, same),
        enumerate::faithful(same),
        merge_laws::in_id_order(parent),
        is_sound(before, parent),
    ensures
        is_sound(after, parent),
        before.emitter.remaining(before.rest, upserts::parent_rows(parent), same) == given
            + after.emitter.remaining(after.rest, upserts::parent_rows(parent), same),
{
    let rows = upserts::parent_rows(parent);
    let a = before.emitter;
    let b = after.emitter;
    let left = b.remaining(after.rest, rows, same);
    assert(Seq::<ChangeView>::empty() + left =~= left);
    if exists|step: UpsertStep| #[trigger] upserts_step(before, after, step, given, parent) {
        let step = choose|step: UpsertStep| #[trigger]
            upserts_step(before, after, step, given, parent);
        let _ = a.remaining(before.rest, rows, same);
        let _ = a.answered(before.probe_rest, rows);
        assert(upserts::carries(a, b, given, before.rest, before.probe_rest, rows, same)
            || step is Probe);
        match step {
            UpsertStep::Probe(ids) => {
                lemma_probe_answers(before, after, ids, parent);
                assert(a.remaining(before.rest, rows, same) == b.remaining(before.rest, rows, same));
            },
            _ => {},
        }
    } else if upserts_take_payloads(before, after, same) && given.len() == 0 {
        assert(given =~= Seq::empty());
        let _ = a.remaining(before.rest, rows, same);
        let _ = a.answered(before.probe_rest, rows);
    } else {
        assert(given =~= Seq::empty());
        assert(a.candidates.rows() + before.rest =~= b.candidates.rows() + after.rest);
        assert(a.probe.rows() + before.probe_rest =~= b.probe.rows() + after.probe_rest);
    }
}

proof fn lemma_upserts_run(
    states: Seq<UpsertState>,
    given: Seq<Seq<ChangeView>>,
    parent: Seq<RowView>,
    same: spec_fn(RowView, RowView) -> bool,
    count: nat,
)
    requires
        upserts_path(states, given, parent, same),
        enumerate::faithful(same),
        merge_laws::in_id_order(parent),
        is_sound(states[0], parent),
        count <= given.len(),
    ensures
        is_sound(states[count as int], parent),
        states[0].emitter.remaining(states[0].rest, upserts::parent_rows(parent), same)
            == all_given(given.take(count as int)) + states[count as int].emitter.remaining(
            states[count as int].rest,
            upserts::parent_rows(parent),
            same,
        ),
    decreases count,
{
    let here = states[count as int];
    let left = here.emitter.remaining(here.rest, upserts::parent_rows(parent), same);
    if count == 0 {
        assert(given.take(0) =~= Seq::empty());
        assert(Seq::<ChangeView>::empty() + left =~= left);
    } else {
        let before = (count - 1) as nat;
        lemma_upserts_run(states, given, parent, same, before);
        let one = given[before as int];
        lemma_upserts_move(states[before as int], here, one, parent, same);
        assert(given.take(count as int).drop_last() =~= given.take(before as int));
        assert(given.take(count as int).last() == one);
        let earlier = all_given(given.take(before as int));
        assert(earlier + (one + left) =~= (earlier + one) + left);
    }
}

/// A pruned emitter that runs to its end gives everything that it owed at its
/// start, each change once and in order.
pub proof fn drained_upserts_gave_all_they_owed(
    states: Seq<UpsertState>,
    given: Seq<Seq<ChangeView>>,
    parent: Seq<RowView>,
    same: spec_fn(RowView, RowView) -> bool,
)
    requires
        upserts_run(states, given, parent, same),
        enumerate::faithful(same),
        merge_laws::in_id_order(parent),
        is_sound(states[0], parent),
    ensures
        all_given(given) == states[0].emitter.remaining(
            states[0].rest,
            upserts::parent_rows(parent),
            same,
        ),
{
    let rows = upserts::parent_rows(parent);
    let last = (given.len() - 1) as nat;
    lemma_upserts_run(states, given, parent, same, last);
    let here = states[last as int];
    emit_source::a_done_emitter_owes_nothing(
        here.emitter,
        states.last().emitter,
        here.rest,
        here.probe_rest,
        rows,
        same,
    );
    assert(given.take(last as int) =~= given.drop_last());
    assert(given.last() =~= Seq::empty());
    assert(all_given(given) =~= all_given(given.drop_last()));
    let owed = here.emitter.remaining(here.rest, rows, same);
    assert(owed =~= Seq::empty());
    assert(all_given(given.drop_last()) + owed =~= all_given(given.drop_last()));
}

/// Every probe covers a whole chunk: the candidates are never looked up one by
/// one.
pub proof fn every_probe_covers_a_whole_chunk(
    states: Seq<UpsertState>,
    given: Seq<Seq<ChangeView>>,
    parent: Seq<RowView>,
    same: spec_fn(RowView, RowView) -> bool,
    at: int,
    ids: Vec<String>,
)
    requires
        upserts_path(states, given, parent, same),
        enumerate::faithful(same),
        merge_laws::in_id_order(parent),
        is_sound(states[0], parent),
        0 <= at < given.len(),
        upserts_step(states[at], states[at + 1], UpsertStep::Probe(ids), given[at], parent),
    ensures
        ids@.len() == PARENT_PROBE_CHUNK || (0 < ids@.len() < PARENT_PROBE_CHUNK
            && states[at + 1].emitter.candidates.rows().len() == 0
            && !states[at + 1].emitter.candidates.is_open()),
{
    lemma_upserts_run(states, given, parent, same, at as nat);
    assert(row_compare::text_views(ids@).len() == ids@.len());
}

/// Whether the parent is probed from one state to the next.
pub open spec fn is_probe(
    before: UpsertState,
    after: UpsertState,
    given: Seq<ChangeView>,
    parent: Seq<RowView>,
) -> bool {
    exists|ids: Vec<String>| #[trigger]
        upserts_step(before, after, UpsertStep::Probe(ids), given, parent)
}

/// The candidates that the probes among the first `count` moves asked for, in
/// the order of the probes.
pub open spec fn asked(
    states: Seq<UpsertState>,
    given: Seq<Seq<ChangeView>>,
    parent: Seq<RowView>,
    count: nat,
) -> Seq<RowView>
    decreases count,
{
    if count == 0 {
        Seq::empty()
    } else {
        let before = asked(states, given, parent, (count - 1) as nat);
        if is_probe(states[count - 1], states[count as int], given[count - 1], parent) {
            before + states[count as int].emitter.chunk_rows()
        } else {
            before
        }
    }
}

/// How many of the first `count` moves are probes.
pub open spec fn probes(
    states: Seq<UpsertState>,
    given: Seq<Seq<ChangeView>>,
    parent: Seq<RowView>,
    count: nat,
) -> nat
    decreases count,
{
    if count == 0 {
        0
    } else {
        let before = probes(states, given, parent, (count - 1) as nat);
        if is_probe(states[count - 1], states[count as int], given[count - 1], parent) {
            before + 1
        } else {
            before
        }
    }
}

/// How many of the first `count` moves take the payloads of a candidate and its
/// before image.
pub open spec fn payload_reads(
    states: Seq<UpsertState>,
    same: spec_fn(RowView, RowView) -> bool,
    count: nat,
) -> nat
    decreases count,
{
    if count == 0 {
        0
    } else {
        let before = payload_reads(states, same, (count - 1) as nat);
        if upserts_take_payloads(states[count - 1], states[count as int], same) {
            before + 1
        } else {
            before
        }
    }
}

/// The candidates that no probe has asked for yet.
pub open spec fn left_to_ask(state: UpsertState) -> Seq<RowView> {
    upserts::unasked(state.emitter) + state.rest
}

/// The candidates that a probe has asked for and that are not compared yet.
pub open spec fn left_to_compare(state: UpsertState) -> nat {
    if state.emitter.phase == Phase::Collecting {
        0
    } else {
        state.emitter.chunk_rows().len()
    }
}

proof fn lemma_move_asks(
    before: UpsertState,
    after: UpsertState,
    given: Seq<ChangeView>,
    parent: Seq<RowView>,
    same: spec_fn(RowView, RowView) -> bool,
)
    requires
        upserts_move(before, after, given, parent, same),
    ensures
        is_probe(before, after, given, parent) ==> left_to_ask(before)
            == after.emitter.chunk_rows() + left_to_ask(after) && left_to_compare(after)
            == after.emitter.chunk_rows().len() > 0 && !upserts_take_payloads(before, after, same),
        !is_probe(before, after, given, parent) ==> left_to_ask(before) == left_to_ask(after)
            && left_to_compare(after) <= left_to_compare(before) && (upserts_take_payloads(
            before,
            after,
            same,
        ) ==> left_to_compare(after) + 1 == left_to_compare(before)),
        before.emitter.chunk_fits() && upserts::held(before.emitter) <= PARENT_PROBE_CHUNK
            ==> upserts::held(after.emitter) <= PARENT_PROBE_CHUNK,
{
    let a = before.emitter;
    let b = after.emitter;
    if is_probe(before, after, given, parent) {
        let ids = choose|ids: Vec<String>| #[trigger]
            upserts_step(before, after, UpsertStep::Probe(ids), given, parent);
        assert(row_compare::text_views(ids@).len() == ids@.len());
        assert((b.chunk_rows() + b.candidates.rows()) + before.rest =~= b.chunk_rows() + (
        b.candidates.rows() + before.rest));
    } else if exists|step: UpsertStep| #[trigger] upserts_step(before, after, step, given, parent) {
        let step = choose|step: UpsertStep| #[trigger]
            upserts_step(before, after, step, given, parent);
        assert(!(step is Probe));
        assert(b.chunk_rows().len() == 0 ==> b.chunk_rows() + b.candidates.rows()
            =~= b.candidates.rows());
    } else if upserts_take_payloads(before, after, same) && given.len() == 0 {
        let candidate = a.chunk_rows()[0];
        let change = ChangeView::Update { before: a.image_map()[candidate.id], after: candidate };
        enumerate::one_change_is_reported_if_selected(a.scope, change);
    } else {
        assert((a.chunk_rows() + a.candidates.rows()) + before.rest =~= a.chunk_rows() + (
        a.candidates.rows() + before.rest));
        assert((b.chunk_rows() + b.candidates.rows()) + after.rest =~= b.chunk_rows() + (
        b.candidates.rows() + after.rest));
        assert(a.candidates.rows() + before.rest =~= b.candidates.rows() + after.rest);
    }
}

/// No candidate is asked for twice: however far the emitter has got, what its
/// probes asked for, in order, followed by what is still to be asked for, is what
/// it had to ask for at its start.
pub proof fn every_candidate_is_asked_for_once(
    states: Seq<UpsertState>,
    given: Seq<Seq<ChangeView>>,
    parent: Seq<RowView>,
    same: spec_fn(RowView, RowView) -> bool,
    count: nat,
)
    requires
        upserts_path(states, given, parent, same),
        count <= given.len(),
    ensures
        asked(states, given, parent, count) + left_to_ask(states[count as int]) == left_to_ask(
            states[0],
        ),
    decreases count,
{
    let here = left_to_ask(states[count as int]);
    if count == 0 {
        assert(Seq::<RowView>::empty() + here =~= here);
    } else {
        let last = (count - 1) as nat;
        every_candidate_is_asked_for_once(states, given, parent, same, last);
        lemma_move_asks(states[count - 1], states[count as int], given[count - 1], parent, same);
        let before = asked(states, given, parent, last);
        let chunk = states[count as int].emitter.chunk_rows();
        assert(before + (chunk + here) =~= (before + chunk) + here);
    }
}

/// Where the candidates come in id order, no id is asked for in two probes, nor
/// twice in one.
pub proof fn no_id_is_asked_for_twice(
    states: Seq<UpsertState>,
    given: Seq<Seq<ChangeView>>,
    parent: Seq<RowView>,
    same: spec_fn(RowView, RowView) -> bool,
    count: nat,
)
    requires
        upserts_path(states, given, parent, same),
        merge_laws::in_id_order(left_to_ask(states[0])),
        count <= given.len(),
    ensures
        merge_laws::in_id_order(asked(states, given, parent, count)),
{
    let all = left_to_ask(states[0]);
    let some = asked(states, given, parent, count);
    every_candidate_is_asked_for_once(states, given, parent, same, count);
    assert(forall|i: int| 0 <= i < some.len() ==> #[trigger] some[i] == all[i]);
}

/// The parent is probed at most once for each whole chunk of candidates, and once
/// more: the cost of an interval is bounded by what it touched. It holds of every
/// stretch of a run, so that no emitter can probe without end.
pub proof fn probes_are_bounded_by_the_candidates(
    states: Seq<UpsertState>,
    given: Seq<Seq<ChangeView>>,
    parent: Seq<RowView>,
    same: spec_fn(RowView, RowView) -> bool,
    count: nat,
)
    requires
        upserts_path(states, given, parent, same),
        enumerate::faithful(same),
        merge_laws::in_id_order(parent),
        is_sound(states[0], parent),
        count <= given.len(),
    ensures
        probes(states, given, parent, count) <= left_to_ask(states[0]).len()
            / PARENT_PROBE_CHUNK as nat + 1,
{
    lemma_probes(states, given, parent, same, count);
    every_candidate_is_asked_for_once(states, given, parent, same, count);
    assert(asked(states, given, parent, count).len() <= left_to_ask(states[0]).len());
}

proof fn lemma_probes(
    states: Seq<UpsertState>,
    given: Seq<Seq<ChangeView>>,
    parent: Seq<RowView>,
    same: spec_fn(RowView, RowView) -> bool,
    count: nat,
)
    requires
        upserts_path(states, given, parent, same),
        enumerate::faithful(same),
        merge_laws::in_id_order(parent),
        is_sound(states[0], parent),
        count <= given.len(),
    ensures
        probes(states, given, parent, count) * PARENT_PROBE_CHUNK <= asked(
            states,
            given,
            parent,
            count,
        ).len() || (left_to_ask(states[count as int]).len() == 0 && (probes(
            states,
            given,
            parent,
            count,
        ) - 1) * PARENT_PROBE_CHUNK <= asked(states, given, parent, count).len()),
    decreases count,
{
    if count > 0 {
        let last = (count - 1) as nat;
        let before = states[count - 1];
        let after = states[count as int];
        let one = given[count - 1];
        lemma_probes(states, given, parent, same, last);
        lemma_move_asks(before, after, one, parent, same);
        lemma_upserts_run(states, given, parent, same, last);
        lemma_upserts_run(states, given, parent, same, count);
        if is_probe(before, after, one, parent) {
            let ids = choose|ids: Vec<String>| #[trigger]
                upserts_step(before, after, UpsertStep::Probe(ids), one, parent);
            assert(upserts::is_whole_chunk(before.emitter, after.emitter));
            if after.emitter.chunk_rows().len() < PARENT_PROBE_CHUNK {
                assert(left_to_ask(after) =~= Seq::empty());
            }
        }
    }
}

/// The payloads of a candidate are read at most once: there are no more such
/// reads than candidates that were asked for.
pub proof fn payload_reads_are_bounded_by_the_candidates(
    states: Seq<UpsertState>,
    given: Seq<Seq<ChangeView>>,
    parent: Seq<RowView>,
    same: spec_fn(RowView, RowView) -> bool,
    count: nat,
)
    requires
        upserts_path(states, given, parent, same),
        count <= given.len(),
    ensures
        payload_reads(states, same, count) + left_to_compare(states[count as int])
            <= left_to_compare(states[0]) + asked(states, given, parent, count).len(),
    decreases count,
{
    if count > 0 {
        let last = (count - 1) as nat;
        payload_reads_are_bounded_by_the_candidates(states, given, parent, same, last);
        lemma_move_asks(states[count - 1], states[count as int], given[count - 1], parent, same);
    }
}

/// The pruned emitter streams: however far it has got, it holds no more
/// candidates and changes than one probe covers.
pub proof fn no_more_than_a_chunk_is_held(
    states: Seq<UpsertState>,
    given: Seq<Seq<ChangeView>>,
    parent: Seq<RowView>,
    same: spec_fn(RowView, RowView) -> bool,
    count: nat,
)
    requires
        upserts_path(states, given, parent, same),
        upserts::held(states[0].emitter) <= PARENT_PROBE_CHUNK,
        count <= given.len(),
    ensures
        upserts::held(states[count as int].emitter) <= PARENT_PROBE_CHUNK,
    decreases count,
{
    if count > 0 {
        no_more_than_a_chunk_is_held(states, given, parent, same, (count - 1) as nat);
        lemma_move_asks(states[count - 1], states[count as int], given[count - 1], parent, same);
    }
}

// ---------------------------------------------------------------------------
// The emitter of an interval
// ---------------------------------------------------------------------------

/// The rows after an id, all of them without one.
pub open spec fn rows_after(rows: Seq<RowView>, after: Option<Seq<char>>) -> Seq<RowView> {
    match after {
        Some(after) => rows.filter(|row: RowView| text::text_less(after, row.id)),
        None => rows,
    }
}

/// A run of the emitter of an interval, whichever of the two it is.
pub enum SourceRun {
    FullMerge { states: Seq<MergeState>, given: Seq<Seq<ChangeView>> },
    Pruned { states: Seq<UpsertState>, given: Seq<Seq<ChangeView>> },
}

impl SourceRun {
    /// The changes that the run gave, in order.
    pub open spec fn changes(self) -> Seq<ChangeView> {
        match self {
            SourceRun::FullMerge { states: _, given } => all_given(given),
            SourceRun::Pruned { states: _, given } => all_given(given),
        }
    }

    /// Whether this is a whole run for a given scope over a parent's rows `from`
    /// and a child's rows `to`, resumed after an id: the merge reads both, the
    /// pruned emitter the touched rows of the child, and the parent for its
    /// probes.
    pub open spec fn drains(
        self,
        scope: ChangeFeedScope,
        from: Seq<RowView>,
        to: Seq<RowView>,
        touched: spec_fn(RowView) -> bool,
        after: Option<Seq<char>>,
        same: spec_fn(RowView, RowView) -> bool,
    ) -> bool {
        match self {
            SourceRun::FullMerge { states, given } => {
                &&& merge_run(states, given, same)
                &&& states[0].merge.starts(scope)
                &&& states[0].from_rest == rows_after(from, after)
                &&& states[0].to_rest == rows_after(to, after)
            },
            SourceRun::Pruned { states, given } => {
                &&& upserts_run(states, given, from, same)
                &&& states[0].emitter.starts(scope)
                &&& states[0].rest == rows_after(to.filter(touched), after)
            },
        }
    }
}

/// Whether an interval kept every row of the parent, and left every row of the
/// child that it did not touch unchanged.
pub open spec fn keeps_every_row(
    from: Seq<RowView>,
    to: Seq<RowView>,
    touched: spec_fn(RowView) -> bool,
    same: spec_fn(RowView, RowView) -> bool,
) -> bool {
    &&& forall|i: int| 0 <= i < from.len() ==> merge_laws::has_id(to, (#[trigger] from[i]).id)
    &&& forall|j: int|
        0 <= j < to.len() && !touched(#[trigger] to[j]) ==> exists|i: int|
            0 <= i < from.len() && (#[trigger] from[i]).id == to[j].id && same(from[i], to[j])
}

/// A pruned emitter that runs to its end gives, for its candidates in order, an
/// insert where the parent lacks the id, an update where it has a row of the id
/// that differs, and nothing where that row is the same; of these, what the feed
/// selects. None is a delete.
pub proof fn a_drained_pruned_run_classifies_every_candidate(
    states: Seq<UpsertState>,
    given: Seq<Seq<ChangeView>>,
    scope: ChangeFeedScope,
    candidates: Seq<RowView>,
    parent: Seq<RowView>,
    same: spec_fn(RowView, RowView) -> bool,
)
    requires
        upserts_run(states, given, parent, same),
        enumerate::faithful(same),
        merge_laws::in_id_order(parent),
        states[0].emitter.starts(scope),
        states[0].rest == candidates,
    ensures
        all_given(given) == enumerate::reported(
            scope,
            upserts::upserts(candidates, upserts::parent_rows(parent), same),
        ),
        forall|i: int|
            0 <= i < all_given(given).len() ==> !((#[trigger] all_given(given)[i]) is Delete),
{
    let start = states[0].emitter;
    let rows = upserts::parent_rows(parent);
    let all = upserts::upserts(candidates, rows, same);
    drained_upserts_gave_all_they_owed(states, given, parent, same);
    assert(start.chunk_rows() + (start.candidates.rows() + candidates) =~= candidates);
    emit_source::lemma_reported_alike(start.scope, scope, all);
    assert(start.ready_changes() + enumerate::reported(scope, all) =~= enumerate::reported(
        scope,
        all,
    ));
    upserts::no_candidate_is_a_delete(candidates, rows, same);
    assert forall|i: int| 0 <= i < all_given(given).len() implies !((#[trigger] all_given(
        given,
    )[i]) is Delete) by {
        let change = all_given(given)[i];
        assert(enumerate::reported(scope, all).contains(change));
        lemma_reported_contains(scope, all, change);
        let k = choose|k: int| 0 <= k < all.len() && all[k] == change;
        assert(!(all[k] is Delete));
    }
}

/// An emitter that runs to its end gives exactly what the feed reports of the
/// changes between the two versions, from the id on where it resumed; pruned or
/// not.
pub proof fn a_drained_run_gives_the_reported_changes(
    run: SourceRun,
    scope: ChangeFeedScope,
    from: Seq<RowView>,
    to: Seq<RowView>,
    touched: spec_fn(RowView) -> bool,
    after: Option<Seq<char>>,
    same: spec_fn(RowView, RowView) -> bool,
)
    requires
        run.drains(scope, from, to, touched, after, same),
        merge_laws::in_id_order(from),
        merge_laws::in_id_order(to),
        enumerate::faithful(same),
        run is Pruned ==> keeps_every_row(from, to, touched, same),
    ensures
        run.changes() == enumerate::reported(
            scope,
            enumerate::changes(rows_after(from, after), rows_after(to, after), same),
        ),
{
    match run {
        SourceRun::FullMerge { states, given } => {
            let start = states[0].merge;
            a_drained_merge_gave_all_it_owed(states, given, same);
            let left = rows_after(from, after);
            let right = rows_after(to, after);
            assert(start.from.rows() + left =~= left);
            assert(start.to.rows() + right =~= right);
            emit_source::lemma_reported_alike(
                start.scope,
                scope,
                enumerate::changes(left, right, same),
            );
        },
        SourceRun::Pruned { states, given } => {
            let rows = upserts::parent_rows(from);
            let candidates = to.filter(touched);
            a_drained_pruned_run_classifies_every_candidate(
                states,
                given,
                scope,
                rows_after(candidates, after),
                from,
                same,
            );
            upserts::pruned_changes_are_the_changes(from, to, touched, same);
            match after {
                Some(id) => {
                    upserts::resuming_gives_the_later_upserts(candidates, rows, same, id);
                    merge_laws::resuming_gives_the_rest(from, to, same, id);
                },
                None => {},
            }
        },
    }
}

proof fn lemma_reported_contains(
    scope: ChangeFeedScope,
    all: Seq<ChangeView>,
    change: ChangeView,
)
    ensures
        enumerate::reported(scope, all).contains(change) <==> all.contains(change)
            && scope.selects(change.kind()),
    decreases all.len(),
{
    if all.len() > 0 {
        let rest = all.drop_first();
        let shown = enumerate::reported(scope, rest);
        lemma_reported_contains(scope, rest, change);
        if all.contains(change) && change != all[0] {
            let k = choose|k: int| 0 <= k < all.len() && all[k] == change;
            assert(rest[k - 1] == change);
        }
        if rest.contains(change) {
            let k = choose|k: int| 0 <= k < rest.len() && rest[k] == change;
            assert(all[k + 1] == change);
        }
        if scope.selects(all[0].kind()) {
            let whole = seq![all[0]] + shown;
            if shown.contains(change) {
                let k = choose|k: int| 0 <= k < shown.len() && shown[k] == change;
                assert(whole[k + 1] == change);
            }
            if whole.contains(change) && change != all[0] {
                let k = choose|k: int| 0 <= k < whole.len() && whole[k] == change;
                assert(shown[k - 1] == change);
            }
            assert(whole[0] == all[0]);
        }
        assert(all[0] == all[0]);
    }
}

/// Whether changes come in id order, at most one for each id.
pub open spec fn ascend(all: Seq<ChangeView>) -> bool {
    forall|i: int, j: int|
        0 <= i < j < all.len() ==> text::text_less(
            (#[trigger] all[i]).id(),
            (#[trigger] all[j]).id(),
        )
}

proof fn lemma_reported_ascend(scope: ChangeFeedScope, all: Seq<ChangeView>)
    requires
        ascend(all),
    ensures
        ascend(enumerate::reported(scope, all)),
    decreases all.len(),
{
    if all.len() > 0 {
        let rest = all.drop_first();
        assert forall|i: int, j: int| 0 <= i < j < rest.len() implies text::text_less(
            (#[trigger] rest[i]).id(),
            (#[trigger] rest[j]).id(),
        ) by {
            assert(rest[i] == all[i + 1] && rest[j] == all[j + 1]);
        }
        lemma_reported_ascend(scope, rest);
        let shown = enumerate::reported(scope, rest);
        let whole = enumerate::reported(scope, all);
        if scope.selects(all[0].kind()) {
            assert forall|i: int, j: int| 0 <= i < j < whole.len() implies text::text_less(
                (#[trigger] whole[i]).id(),
                (#[trigger] whole[j]).id(),
            ) by {
                let later = whole[j];
                assert(later == shown[j - 1]);
                if i == 0 {
                    assert(shown.contains(later));
                    lemma_reported_contains(scope, rest, later);
                    let k = choose|k: int| 0 <= k < rest.len() && rest[k] == later;
                    assert(all[k + 1] == later);
                } else {
                    assert(whole[i] == shown[i - 1]);
                }
            }
        }
    }
}

/// What a drained emitter gave comes in id order, at most one change for each id,
/// and is exactly the logical changes between the two versions that the feed
/// selects.
pub proof fn a_drained_run_gives_exactly_the_changes(
    run: SourceRun,
    scope: ChangeFeedScope,
    from: Seq<RowView>,
    to: Seq<RowView>,
    touched: spec_fn(RowView) -> bool,
    after: Option<Seq<char>>,
    same: spec_fn(RowView, RowView) -> bool,
    change: ChangeView,
)
    requires
        run.drains(scope, from, to, touched, after, same),
        merge_laws::in_id_order(from),
        merge_laws::in_id_order(to),
        enumerate::faithful(same),
        run is Pruned ==> keeps_every_row(from, to, touched, same),
    ensures
        ascend(run.changes()),
        run.changes().contains(change) <==> scope.selects(change.kind()) && merge_laws::is_change(
            change,
            rows_after(from, after),
            rows_after(to, after),
            same,
        ),
{
    let left = rows_after(from, after);
    let right = rows_after(to, after);
    match after {
        Some(id) => {
            let kept = |row: RowView| text::text_less(id, row.id);
            upserts::lemma_filtered_order(from, kept);
            upserts::lemma_filtered_order(to, kept);
        },
        None => {},
    }
    let all = enumerate::changes(left, right, same);
    a_drained_run_gives_the_reported_changes(run, scope, from, to, touched, after, same);
    merge_laws::changes_come_in_id_order(left, right, same);
    lemma_reported_ascend(scope, all);
    merge_laws::merge_finds_exactly_the_changes(left, right, same, change);
    lemma_reported_contains(scope, all, change);
}

/// Two drained emitters of one interval gave the same changes in the same order,
/// pruned or not. Where only one of them is pruned, the interval must have kept
/// every row.
pub proof fn drained_runs_agree(
    a: SourceRun,
    b: SourceRun,
    scope: ChangeFeedScope,
    from: Seq<RowView>,
    to: Seq<RowView>,
    touched: spec_fn(RowView) -> bool,
    after: Option<Seq<char>>,
    same: spec_fn(RowView, RowView) -> bool,
)
    requires
        a.drains(scope, from, to, touched, after, same),
        b.drains(scope, from, to, touched, after, same),
        merge_laws::in_id_order(from),
        merge_laws::in_id_order(to),
        enumerate::faithful(same),
        (a is Pruned) != (b is Pruned) ==> keeps_every_row(from, to, touched, same),
    ensures
        a.changes() == b.changes(),
{
    match (a, b) {
        (
            SourceRun::Pruned { states: a_states, given: a_given },
            SourceRun::Pruned { states: b_states, given: b_given },
        ) => {
            let candidates = rows_after(to.filter(touched), after);
            a_drained_pruned_run_classifies_every_candidate(
                a_states,
                a_given,
                scope,
                candidates,
                from,
                same,
            );
            a_drained_pruned_run_classifies_every_candidate(
                b_states,
                b_given,
                scope,
                candidates,
                from,
                same,
            );
        },
        _ => {
            a_drained_run_gives_the_reported_changes(a, scope, from, to, touched, after, same);
            a_drained_run_gives_the_reported_changes(b, scope, from, to, touched, after, same);
        },
    }
}

/// Resuming after an id neither repeats nor loses a change: the resumed emitter
/// gives exactly those of the whole run's changes whose id comes after it, in the
/// same order. Where only one of the two is pruned, the interval must have kept
/// every row.
pub proof fn a_resumed_run_gives_the_rest(
    whole: SourceRun,
    resumed: SourceRun,
    scope: ChangeFeedScope,
    from: Seq<RowView>,
    to: Seq<RowView>,
    touched: spec_fn(RowView) -> bool,
    after: Seq<char>,
    same: spec_fn(RowView, RowView) -> bool,
)
    requires
        whole.drains(scope, from, to, touched, None, same),
        resumed.drains(scope, from, to, touched, Some(after), same),
        merge_laws::in_id_order(from),
        merge_laws::in_id_order(to),
        enumerate::faithful(same),
        (whole is Pruned) != (resumed is Pruned) ==> keeps_every_row(from, to, touched, same),
    ensures
        resumed.changes() == whole.changes().filter(
            |change: ChangeView| text::text_less(after, change.id()),
        ),
{
    match (whole, resumed) {
        (
            SourceRun::Pruned { states, given },
            SourceRun::Pruned { states: later_states, given: later_given },
        ) => {
            let candidates = to.filter(touched);
            let rows = upserts::parent_rows(from);
            a_drained_pruned_run_classifies_every_candidate(
                states,
                given,
                scope,
                candidates,
                from,
                same,
            );
            a_drained_pruned_run_classifies_every_candidate(
                later_states,
                later_given,
                scope,
                rows_after(candidates, Some(after)),
                from,
                same,
            );
            upserts::resuming_gives_the_later_upserts(candidates, rows, same, after);
            merge_laws::reporting_goes_change_by_change(
                scope,
                upserts::upserts(candidates, rows, same),
                |change: ChangeView| text::text_less(after, change.id()),
            );
        },
        _ => {
            a_drained_run_gives_the_reported_changes(whole, scope, from, to, touched, None, same);
            a_drained_run_gives_the_reported_changes(
                resumed,
                scope,
                from,
                to,
                touched,
                Some(after),
                same,
            );
            merge_laws::resuming_reports_the_rest(scope, from, to, same, after);
        },
    }
}

/// Resuming after an id leaves the rows whose id comes after it, in their order;
/// without one, all of them.
pub proof fn resuming_leaves_the_later_rows(rows: Seq<RowView>, after: Seq<char>, row: RowView)
    ensures
        rows_after(rows, None) == rows,
        rows_after(rows, Some(after)) == rows.filter(|row: RowView| text::text_less(after, row.id)),
        rows_after(rows, Some(after)).contains(row) <==> rows.contains(row) && text::text_less(
            after,
            row.id,
        ),
{
    broadcast use vstd::seq_lib::group_filter_ensures;

    let later = |row: RowView| text::text_less(after, row.id);
    let kept = rows.filter(later);
    if kept.contains(row) {
        let i = choose|i: int| 0 <= i < kept.len() && kept[i] == row;
        assert(later(kept[i]));
        rows.lemma_filter_contains_rev(later, kept[i]);
    }
    if rows.contains(row) && later(row) {
        let i = choose|i: int| 0 <= i < rows.len() && rows[i] == row;
        assert(kept.contains(rows[i]));
    }
}

/// A drained run tells every difference and nothing else, whichever emitter it
/// is: a row of the child is inserted where the parent has none of its id, a row
/// of the parent is deleted where the child has none, and two rows of one id are
/// an update where they are not the same, each as far as the feed selects it and
/// its id comes after the one resumed at. The changes come in id order.
pub proof fn a_drained_run_tells_every_difference(
    run: SourceRun,
    scope: ChangeFeedScope,
    from: Seq<RowView>,
    to: Seq<RowView>,
    touched: spec_fn(RowView) -> bool,
    after: Option<Seq<char>>,
    same: spec_fn(RowView, RowView) -> bool,
    change: ChangeView,
)
    requires
        run.drains(scope, from, to, touched, after, same),
        forall|i: int, j: int|
            0 <= i < j < from.len() ==> text::text_less(
                (#[trigger] from[i]).id,
                (#[trigger] from[j]).id,
            ),
        forall|i: int, j: int|
            0 <= i < j < to.len() ==> text::text_less(
                (#[trigger] to[i]).id,
                (#[trigger] to[j]).id,
            ),
        enumerate::faithful(same),
        run is Pruned ==> forall|i: int|
            0 <= i < from.len() ==> exists|j: int|
                0 <= j < to.len() && (#[trigger] to[j]).id == (#[trigger] from[i]).id,
        run is Pruned ==> forall|j: int|
            0 <= j < to.len() && !touched(#[trigger] to[j]) ==> exists|i: int|
                0 <= i < from.len() && (#[trigger] from[i]).id == to[j].id && same(from[i], to[j]),
    ensures
        run.changes().contains(change) <==> scope.selects(change.kind()) && match change {
            ChangeView::Insert(row) => to.contains(row) && (after is None || text::text_less(
                after->0,
                row.id,
            )) && forall|i: int| 0 <= i < from.len() ==> (#[trigger] from[i]).id != row.id,
            ChangeView::Update { before, after: now } => from.contains(before) && to.contains(now)
                && before.id == now.id && (after is None || text::text_less(after->0, now.id))
                && !same(before, now),
            ChangeView::Delete(row) => from.contains(row) && (after is None || text::text_less(
                after->0,
                row.id,
            )) && forall|j: int| 0 <= j < to.len() ==> (#[trigger] to[j]).id != row.id,
        },
        forall|i: int, j: int|
            0 <= i < j < run.changes().len() ==> text::text_less(
                (#[trigger] run.changes()[i]).id(),
                (#[trigger] run.changes()[j]).id(),
            ),
{
    let left = rows_after(from, after);
    let right = rows_after(to, after);
    if run is Pruned {
        assert forall|i: int| 0 <= i < from.len() implies merge_laws::has_id(
            to,
            (#[trigger] from[i]).id,
        ) by {
            let j = choose|j: int| 0 <= j < to.len() && (#[trigger] to[j]).id == from[i].id;
            assert(to[j].id == from[i].id);
        }
    }
    a_drained_run_gives_exactly_the_changes(run, scope, from, to, touched, after, same, change);
    assert forall|row: RowView| #[trigger] left.contains(row) <==> from.contains(row) && (
    after is None || text::text_less(after->0, row.id)) by {
        if let Some(id) = after {
            resuming_leaves_the_later_rows(from, id, row);
        }
    }
    assert forall|row: RowView| #[trigger] right.contains(row) <==> to.contains(row) && (
    after is None || text::text_less(after->0, row.id)) by {
        if let Some(id) = after {
            resuming_leaves_the_later_rows(to, id, row);
        }
    }
    match change {
        ChangeView::Insert(row) => {
            if after is None || text::text_less(after->0, row.id) {
                lemma_has_id_after(from, left, after, row.id);
            }
        },
        ChangeView::Delete(row) => {
            if after is None || text::text_less(after->0, row.id) {
                lemma_has_id_after(to, right, after, row.id);
            }
        },
        _ => {},
    }
}

proof fn lemma_has_id_after(
    rows: Seq<RowView>,
    later: Seq<RowView>,
    after: Option<Seq<char>>,
    id: Seq<char>,
)
    requires
        forall|row: RowView| #[trigger]
            later.contains(row) <==> rows.contains(row) && (after is None || text::text_less(
                after->0,
                row.id,
            )),
        after is None || text::text_less(after->0, id),
    ensures
        merge_laws::has_id(later, id) <==> exists|i: int|
            0 <= i < rows.len() && (#[trigger] rows[i]).id == id,
{
    if merge_laws::has_id(later, id) {
        let k = choose|k: int| 0 <= k < later.len() && (#[trigger] later[k]).id == id;
        assert(later.contains(later[k]));
        let i = choose|i: int| 0 <= i < rows.len() && rows[i] == later[k];
        assert(rows[i].id == id);
    }
    if exists|i: int| 0 <= i < rows.len() && (#[trigger] rows[i]).id == id {
        let i = choose|i: int| 0 <= i < rows.len() && (#[trigger] rows[i]).id == id;
        assert(rows.contains(rows[i]));
        assert(later.contains(rows[i]));
        let k = choose|k: int| 0 <= k < later.len() && later[k] == rows[i];
        assert(later[k].id == id);
    }
}

} // verus!
