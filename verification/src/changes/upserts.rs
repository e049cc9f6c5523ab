//! The pruned change emitter: the rows that a commit touched, in id order, each
//! classified against the parent's row of its id.

use std::collections::VecDeque;

use vstd::hash_map::StringHashMap;
use vstd::prelude::*;

use crate::changes::candidate_scan::PARENT_PROBE_CHUNK;
use crate::changes::enumerate::{self, ChangeView, Emit};
use crate::changes::filter::{self, ID_COLUMN, id_among, updated_within};
use crate::changes::merge_laws;
use crate::changes::model::{ChangeFeedScope, ChangeOpKind};
use crate::changes::row_compare::{
    self, BlobValues, Comparison, RawRow, RowComparison, RowView, compare_rows, same_payloads,
};
use crate::changes::scan::{self, OrderedRows, ScanPlan};
use crate::changes::table::Fragment;
use crate::error::{self, OmniError};
use crate::text;

verus! {

/// The change that a candidate is, given the parent's row of its id.
pub open spec fn upsert_of(
    candidate: RowView,
    before: Option<RowView>,
    same: spec_fn(RowView, RowView) -> bool,
) -> Seq<ChangeView> {
    match before {
        None => seq![ChangeView::Insert(candidate)],
        Some(before) => if same(before, candidate) {
            Seq::empty()
        } else {
            seq![ChangeView::Update { before, after: candidate }]
        },
    }
}

/// The changes that a list of candidates is.
pub open spec fn upserts(
    candidates: Seq<RowView>,
    parent: spec_fn(Seq<char>) -> Option<RowView>,
    same: spec_fn(RowView, RowView) -> bool,
) -> Seq<ChangeView>
    decreases candidates.len(),
{
    if candidates.len() == 0 {
        Seq::empty()
    } else {
        upsert_of(candidates[0], parent(candidates[0].id), same) + upserts(
            candidates.drop_first(),
            parent,
            same,
        )
    }
}

/// `images` with rows put in one after the other; the last row of an id stays.
pub open spec fn with_images(images: Map<Seq<char>, RowView>, rows: Seq<RowView>) -> Map<
    Seq<char>,
    RowView,
>
    decreases rows.len(),
{
    if rows.len() == 0 {
        images
    } else {
        with_images(images.insert(rows[0].id, rows[0]), rows.drop_first())
    }
}

/// The image of an id, if there is one.
pub open spec fn image_of(images: Map<Seq<char>, RowView>, id: Seq<char>) -> Option<RowView> {
    if images.contains_key(id) {
        Some(images[id])
    } else {
        None
    }
}

/// Where a chunk of candidates stands.
#[derive(Debug, Clone, Copy, PartialEq, Eq, Structural)]
pub enum Phase {
    /// Candidates are being collected.
    Collecting,
    /// The parent's rows of their ids are being read.
    Probing,
    /// They are being compared with those rows.
    Comparing,
}

/// What the emitter asks for, or gives, next.
#[derive(Debug)]
pub enum UpsertStep {
    /// The next batch of the candidate scan.
    FillCandidates,
    /// A scan of the parent for these ids.
    Probe(Vec<String>),
    /// The next batch of that scan.
    FillProbe,
    /// The payloads of these columns, of the candidate and its before image.
    Payloads(Vec<String>),
    Emit(Emit),
    Done,
}

/// The pruned emitter.
pub struct CandidateUpserts {
    pub candidates: OrderedRows,
    pub probe: OrderedRows,
    pub scope: ChangeFeedScope,
    pub phase: Phase,
    /// The candidates of the chunk at hand that are not classified yet.
    pub chunk: VecDeque<RawRow>,
    /// The before images read for that chunk, by id.
    pub images: StringHashMap<RawRow>,
    /// The changes that are found and not given yet.
    pub ready: VecDeque<Emit>,
}

/// Plans the parent scan for the before images of some ids; without ids there is
/// nothing to scan.
pub fn probe_parent_images(ids: &Vec<String>, batch_bytes: u64) -> (r: Option<ScanPlan>)
    ensures
        r is Some <==> ids@.len() > 0,
        r matches Some(plan) ==> scan::is_change_scan(plan, batch_bytes)
            && plan.fragments is None && forall|id: Seq<char>, updated: u64| #[trigger]
            scan::plan_keeps(plan, id, updated)
                <==> row_compare::text_views(ids@).contains(id),
{
    if ids.len() == 0 {
        return None;
    }
    let filter = id_among(ID_COLUMN, ids);
    proof {
        let tests = filter::tests_of(filter);
        assert(ids@.map_values(|id: String| id@) =~= row_compare::text_views(ids@));
        assert forall|id: Seq<char>, updated: u64| #[trigger]
            filter::kept_by(Some(filter), id, updated)
                <==> row_compare::text_views(ids@).contains(id) by {
            if filter::kept_by(Some(filter), id, updated) {
                assert(tests[0].passes(id, updated));
            }
        }
    }
    let plan = OrderedRows::open_filtered(None, Some(filter), batch_bytes);
    proof {
        assert forall|id: Seq<char>, updated: u64| #[trigger]
            scan::plan_keeps(plan, id, updated)
                <==> row_compare::text_views(ids@).contains(id) by {
            assert(filter::kept_by(Some(filter), id, updated)
                <==> row_compare::text_views(ids@).contains(id));
        }
    }
    Some(plan)
}

/// Changes over plain values.
pub open spec fn emit_views(emits: Seq<Emit>) -> Seq<ChangeView> {
    emits.map_values(|emit: Emit| emit@)
}

impl CandidateUpserts {
    /// The chunk over plain values.
    pub open spec fn chunk_rows(self) -> Seq<RowView> {
        row_compare::row_views(self.chunk@)
    }

    /// Whether the chunk is no larger than one probe covers.
    pub open spec fn chunk_fits(self) -> bool {
        self.chunk_rows().len() <= PARENT_PROBE_CHUNK
    }

    /// The before images over plain values.
    pub open spec fn image_map(self) -> Map<Seq<char>, RowView> {
        self.images@.map_values(|row: RawRow| row@)
    }

    /// The changes found, over plain values.
    pub open spec fn ready_changes(self) -> Seq<ChangeView> {
        emit_views(self.ready@)
    }

    /// What the emitter still reports, where the candidate scan delivers `rest`
    /// from here on and `parent` is the parent's row of each id.
    pub open spec fn remaining(
        self,
        rest: Seq<RowView>,
        parent: spec_fn(Seq<char>) -> Option<RowView>,
        same: spec_fn(RowView, RowView) -> bool,
    ) -> Seq<ChangeView> {
        self.ready_changes() + enumerate::reported(
            self.scope,
            upserts(self.chunk_rows() + (self.candidates.rows() + rest), parent, same),
        )
    }

    /// Whether the scans can still deliver those rows: a scan that has ended
    /// delivers none.
    pub open spec fn may_deliver(self, rest: Seq<RowView>, probe_rest: Seq<RowView>) -> bool {
        &&& self.candidates.is_open() || rest.len() == 0
        &&& self.phase == Phase::Probing ==> self.probe.is_open() || probe_rest.len() == 0
    }

    /// Whether `parent` gives, for the candidates at hand, the rows that the
    /// probe has read or is about to deliver.
    pub open spec fn answered(
        self,
        probe_rest: Seq<RowView>,
        parent: spec_fn(Seq<char>) -> Option<RowView>,
    ) -> bool {
        match self.phase {
            Phase::Collecting => true,
            Phase::Probing => forall|i: int|
                0 <= i < self.chunk_rows().len() ==> parent((#[trigger] self.chunk_rows()[i]).id)
                    == image_of(
                    with_images(self.image_map(), self.probe.rows() + probe_rest),
                    self.chunk_rows()[i].id,
                ),
            Phase::Comparing => forall|i: int|
                0 <= i < self.chunk_rows().len() ==> parent((#[trigger] self.chunk_rows()[i]).id)
                    == image_of(self.image_map(), self.chunk_rows()[i].id),
        }
    }

    /// Whether the emitter is at a candidate that has a before image.
    pub open spec fn at_pair(self) -> bool {
        &&& self.phase == Phase::Comparing
        &&& self.chunk_rows().len() > 0
        &&& self.image_map().contains_key(self.chunk_rows()[0].id)
    }

    /// Plans the scan of the rows that an interval touched: in the fragments that it
    /// wrote, the rows whose last update lies in `(begin, end]`, which leaves out
    /// those that a rewrite merely carried along.
    pub fn open(
        begin: u64,
        end: u64,
        changed_fragments: Vec<Fragment>,
        after_id: Option<&str>,
        batch_bytes: u64,
    ) -> (r: ScanPlan)
        ensures
            scan::is_change_scan(r, batch_bytes),
            r.fragments == Some(changed_fragments),
            forall|id: Seq<char>, updated: u64| #[trigger]
                scan::plan_keeps(r, id, updated) <==> begin < updated <= end
                    && scan::resumes_at(after_id, id),
    {
        let window = updated_within(begin, end);
        proof {
            let tests = filter::tests_of(window);
            assert forall|id: Seq<char>, updated: u64| #[trigger]
                filter::kept_by(Some(window), id, updated) <==> begin < updated <= end by {
                if filter::kept_by(Some(window), id, updated) {
                    assert(tests[0].passes(id, updated));
                    assert(tests[1].passes(id, updated));
                }
            }
        }
        OrderedRows::open_scan(after_id, Some(window), Some(changed_fragments), batch_bytes)
    }

    /// An emitter that has read nothing yet.
    pub fn new(scope: ChangeFeedScope) -> (r: Self)
        ensures
            r.scope == scope,
            r.phase == Phase::Collecting,
            r.candidates.is_open(),
            r.candidates.rows().len() == 0,
            r.chunk_rows().len() == 0,
            r.ready_changes().len() == 0,
    {
        CandidateUpserts {
            candidates: OrderedRows::new(),
            probe: OrderedRows::new(),
            scope,
            phase: Phase::Collecting,
            chunk: VecDeque::new(),
            images: StringHashMap::new(),
            ready: VecDeque::new(),
        }
    }

    /// Moves candidates into the chunk as far as the rows at hand allow. Gives
    /// whether a batch is needed to go on.
    fn gather(&mut self) -> (r: bool)
        ensures
            final(self).scope == old(self).scope,
            final(self).phase == old(self).phase,
            final(self).probe == old(self).probe,
            final(self).images == old(self).images,
            final(self).ready == old(self).ready,
            final(self).candidates.is_open() == old(self).candidates.is_open(),
            final(self).chunk_rows() + final(self).candidates.rows() == old(self).chunk_rows()
                + old(self).candidates.rows(),
            r ==> final(self).candidates.wants_batch() && final(self).chunk@.len()
                < PARENT_PROBE_CHUNK,
            !r ==> final(self).chunk@.len() >= PARENT_PROBE_CHUNK || (
            final(self).candidates.rows().len() == 0 && !final(self).candidates.is_open()),
            old(self).chunk@.len() <= PARENT_PROBE_CHUNK ==> final(self).chunk@.len()
                <= PARENT_PROBE_CHUNK,
    {
        while self.chunk.len() < PARENT_PROBE_CHUNK
            invariant
                self.scope == old(self).scope,
                self.phase == old(self).phase,
                self.probe == old(self).probe,
                self.images == old(self).images,
                self.ready == old(self).ready,
                self.candidates.is_open() == old(self).candidates.is_open(),
                self.chunk_rows() + self.candidates.rows() == old(self).chunk_rows() + old(
                    self).candidates.rows(),
                old(self).chunk@.len() <= PARENT_PROBE_CHUNK ==> self.chunk@.len()
                    <= PARENT_PROBE_CHUNK,
            ensures
                self.chunk@.len() >= PARENT_PROBE_CHUNK || (self.candidates.rows().len() == 0
                    && !self.candidates.is_open()),
            decreases self.candidates.rows().len(),
        {
            if self.candidates.needs_batch() {
                return true;
            }
            let ghost chunk_before = self.chunk_rows();
            let ghost chunk_raw = self.chunk@;
            let ghost rows_before = self.candidates.rows();
            match self.candidates.pop() {
                Some(row) => {
                    self.chunk.push_back(row);
                    proof {
                        assert(self.chunk_rows() =~= chunk_before.push(row@));
                        assert(chunk_before.push(row@) + rows_before.drop_first() =~= chunk_before
                            + rows_before);
                    }
                },
                None => {
                    break ;
                },
            }
        }
        false
    }

    /// Takes the rows that the probe has delivered. Gives whether a batch is
    /// needed to go on.
    fn absorb(&mut self) -> (r: bool)
        ensures
            final(self).scope == old(self).scope,
            final(self).phase == old(self).phase,
            final(self).candidates == old(self).candidates,
            final(self).chunk == old(self).chunk,
            final(self).ready == old(self).ready,
            final(self).probe.is_open() == old(self).probe.is_open(),
            forall|probe_rest: Seq<RowView>|
                with_images(final(self).image_map(), final(self).probe.rows() + probe_rest)
                    == #[trigger] with_images(
                    old(self).image_map(),
                    old(self).probe.rows() + probe_rest,
                ),
            r ==> final(self).probe.wants_batch(),
            !r ==> final(self).probe.rows().len() == 0 && !final(self).probe.is_open(),
    {
        loop
            invariant
                self.scope == old(self).scope,
                self.phase == old(self).phase,
                self.candidates == old(self).candidates,
                self.chunk == old(self).chunk,
                self.ready == old(self).ready,
                self.probe.is_open() == old(self).probe.is_open(),
                forall|probe_rest: Seq<RowView>|
                    with_images(self.image_map(), self.probe.rows() + probe_rest)
                        == #[trigger] with_images(
                        old(self).image_map(),
                        old(self).probe.rows() + probe_rest,
                    ),
            decreases self.probe.rows().len(),
        {
            if self.probe.needs_batch() {
                return true;
            }
            let ghost images_before = self.image_map();
            let ghost rows_before = self.probe.rows();
            match self.probe.pop() {
                Some(row) => {
                    let id = String::from_str(row.id());
                    self.images.insert(id, row);
                    proof {
                        assert(self.image_map() =~= images_before.insert(row@.id, row@));
                        assert forall|probe_rest: Seq<RowView>|
                            with_images(self.image_map(), self.probe.rows() + probe_rest)
                                == #[trigger] with_images(
                                old(self).image_map(),
                                old(self).probe.rows() + probe_rest,
                            ) by {
                            assert((rows_before + probe_rest).drop_first() =~= self.probe.rows()
                                + probe_rest);
                        }
                    }
                },
                None => {
                    return false;
                },
            }
        }
    }

    /// Records a change where the feed reports it.
    fn offer(&mut self, emit: Emit)
        ensures
            final(self).scope == old(self).scope,
            final(self).phase == old(self).phase,
            final(self).candidates == old(self).candidates,
            final(self).probe == old(self).probe,
            final(self).chunk == old(self).chunk,
            final(self).images == old(self).images,
            final(self).ready_changes() == old(self).ready_changes()
                + enumerate::reported(old(self).scope, seq![emit@]),
    {
        let ghost before = self.ready@;
        proof {
            enumerate::one_change_is_reported_if_selected(self.scope, emit@);
        }
        if self.scope.wants_op(emit.op()) {
            self.ready.push_back(emit);
            assert(emit_views(self.ready@) =~= emit_views(before) + seq![emit@]);
        } else {
            assert(emit_views(self.ready@) =~= emit_views(before) + Seq::empty());
        }
    }

    /// Compares the next candidate of the chunk with its before image.
    fn judge(&self) -> (r: Result<Verdict, OmniError>)
        requires
            self.chunk_rows().len() > 0,
        ensures
            match image_of(self.image_map(), self.chunk_rows()[0].id) {
                None => r == Ok::<Verdict, OmniError>(Verdict::New),
                Some(before) => match (
                    r,
                    row_compare::comparison(before, self.chunk_rows()[0]),
                ) {
                    (Ok(Verdict::Unchanged), Comparison::Equal) => true,
                    (Ok(Verdict::Changed(row)), Comparison::Different) => row@ == before,
                    (Ok(Verdict::Unclear(columns)), Comparison::Payloads { columns: expected }) =>
                        row_compare::text_views(columns@) == expected,
                    (Err(error), Comparison::Missing { column }) => error::is_plain_manifest(
                        error,
                        error::ManifestErrorKind::Internal,
                        row_compare::missing_column_text(column),
                    ),
                    _ => false,
                },
            },
    {
        let candidate: &RawRow = &self.chunk[0];
        assert(candidate@ == self.chunk_rows()[0]);
        match self.images.get(candidate.id()) {
            None => Ok(Verdict::New),
            Some(before) => {
                assert(image_of(self.image_map(), candidate@.id) == Some(before@));
                match compare_rows(before, candidate) {
                    Ok(RowComparison::Equal) => Ok(Verdict::Unchanged),
                    Ok(RowComparison::Different) => Ok(Verdict::Changed(before.clone())),
                    Ok(RowComparison::Payloads(columns)) => Ok(Verdict::Unclear(columns)),
                    Err(error) => Err(error),
                }
            },
        }
    }

    /// Takes the next candidate out of the chunk as the change that it is.
    fn take_candidate(&mut self, found: Found) -> (r: ())
        requires
            old(self).chunk_rows().len() > 0,
        ensures
            final(self).scope == old(self).scope,
            final(self).phase == old(self).phase,
            final(self).candidates == old(self).candidates,
            final(self).probe == old(self).probe,
            final(self).images == old(self).images,
            final(self).chunk_rows() == old(self).chunk_rows().drop_first(),
            final(self).ready_changes() == old(self).ready_changes()
                + enumerate::reported(
                old(self).scope,
                found.change(old(self).chunk_rows()[0]),
            ),
    {
        let ghost before_chunk = self.chunk@;
        let candidate = self.chunk.pop_front();
        assert(self.chunk_rows() =~= row_compare::row_views(before_chunk).drop_first());
        match candidate {
            Some(candidate) => match found {
                Found::Insert => {
                    self.offer(Emit::Insert(candidate));
                },
                Found::Update(before) => {
                    self.offer(Emit::Update { before, after: candidate });
                },
                Found::Nothing => {
                    assert(self.ready_changes() =~= self.ready_changes() + Seq::empty());
                },
            },
            None => {},
        }
    }

    /// Moves to the next change that the feed reports, as far as the rows at
    /// hand allow. Nothing that is still to be reported gets lost, but for the
    /// rest of a chunk in which a row cannot be compared.
    pub fn next(&mut self) -> (r: Result<UpsertStep, OmniError>)
        ensures
            upserts_stepped(*old(self), *final(self), r),
    {
        let ghost start = *self;
        proof {
            lemma_continues_itself(start);
            assert(start.chunk_rows() =~= start.chunk_rows().skip(0));
        }
        loop
            invariant
                start == *old(self),
                start.chunk_fits() ==> self.chunk_fits(),
                continues(start, *self, Seq::empty()),
                start.phase == Phase::Collecting || self.phase == Phase::Probing ==> *self
                    == start,
                self.phase != start.phase ==> is_probed(start),
                start.phase != Phase::Collecting && self.phase == Phase::Collecting
                    ==> self.chunk_rows().len() == 0,
                self.candidates == start.candidates,
                has_rest_of_chunk(start, *self),
            decreases
                    (if self.phase == Phase::Probing {
                        2int
                    } else if self.phase == Phase::Comparing {
                        1int
                    } else {
                        0int
                    }),
                    self.chunk@.len(),
        {
            let ghost here = *self;
            match self.phase {
                Phase::Collecting => {
                    match self.ready.pop_front() {
                        Some(emit) => {
                            proof {
                                lemma_given(here, *self, emit@);
                                lemma_continues_on(start, here, *self, seq![emit@]);
                            }
                            return Ok(UpsertStep::Emit(emit));
                        },
                        None => {},
                    }
                    let more = self.gather();
                    proof {
                        lemma_gathered(here, *self);
                        lemma_continues_on(start, here, *self, Seq::empty());
                    }
                    assert(self.chunk_rows().len() == self.chunk@.len());
                    if more {
                        return Ok(UpsertStep::FillCandidates);
                    }
                    if self.chunk.len() == 0 {
                        return Ok(UpsertStep::Done);
                    }
                    let ids = self.chunk_ids();
                    let ghost collected = *self;
                    self.images = StringHashMap::new();
                    self.probe = OrderedRows::new();
                    self.phase = Phase::Probing;
                    proof {
                        assert(self.image_map() =~= Map::<Seq<char>, RowView>::empty());
                        assert(row_compare::text_views(ids@).len() == ids@.len());
                        lemma_probing(start, collected, *self);
                    }
                    return Ok(UpsertStep::Probe(ids));
                },
                Phase::Probing => {
                    let more = self.absorb();
                    proof {
                        lemma_absorbed(here, *self);
                        lemma_continues_on(start, here, *self, Seq::empty());
                    }
                    if more {
                        return Ok(UpsertStep::FillProbe);
                    }
                    let ghost absorbed = *self;
                    self.phase = Phase::Comparing;
                    proof {
                        lemma_comparing(absorbed, *self);
                        lemma_continues_on(start, absorbed, *self, Seq::empty());
                    }
                },
                Phase::Comparing => {
                    if self.chunk.len() == 0 {
                        self.phase = Phase::Collecting;
                        proof {
                            lemma_collecting(here, *self);
                            lemma_continues_on(start, here, *self, Seq::empty());
                        }
                    } else {
                        let found = match self.judge() {
                            Ok(Verdict::New) => Found::Insert,
                            Ok(Verdict::Unchanged) => Found::Nothing,
                            Ok(Verdict::Changed(before)) => Found::Update(before),
                            Ok(Verdict::Unclear(columns)) => {
                                return Ok(UpsertStep::Payloads(columns));
                            },
                            Err(error) => {
                                self.abandon();
                                proof {
                                    assert(continues(start, here, Seq::empty()));
                                    assert(stuck(here, error));
                                }
                                return Err(error);
                            },
                        };
                        self.take_candidate(found);
                        proof {
                            assert(here.chunk_rows().len() == here.chunk@.len());
                            assert(self.chunk_rows().len() == self.chunk@.len());
                            lemma_taking_continues(here, *self, found);
                            lemma_taking_shortens(start, here, *self, found);
                            lemma_continues_on(start, here, *self, Seq::empty());
                        }
                    }
                },
            }
        }
    }

    /// Drops the chunk at hand, as after a read that failed. The changes found
    /// in it stay.
    pub fn abandon(&mut self)
        ensures
            without_chunk(*old(self), *final(self)),
    {
        self.chunk.clear();
        self.phase = Phase::Collecting;
    }

    /// Takes the payloads read for the candidate that
    /// [`CandidateUpserts::next`] stopped at and for its before image.
    pub fn on_payloads(&mut self, before_values: &BlobValues, after_values: &BlobValues)
        requires
            old(self).at_pair(),
        ensures
            upserts_answered(
                *old(self),
                *final(self),
                row_compare::value_views(before_values@) == row_compare::value_views(after_values@),
            ),
    {
        let ghost here = *self;
        let unchanged = same_payloads(before_values, after_values);
        let found = if unchanged {
            Found::Nothing
        } else {
            match self.images.get(self.chunk[0].id()) {
                Some(before) => Found::Update(before.clone()),
                None => Found::Insert,
            }
        };
        self.take_candidate(found);
        proof {
            let image = Some(here.image_map()[here.chunk_rows()[0].id]);
            assert(here.chunk_rows()[0] == here.chunk@[0]@);
            assert forall|
                rest: Seq<RowView>,
                probe_rest: Seq<RowView>,
                parent: spec_fn(Seq<char>) -> Option<RowView>,
                same: spec_fn(RowView, RowView) -> bool,
            |
                #![trigger here.remaining(rest, parent, same), here.answered(probe_rest, parent)]
                here.answered(probe_rest, parent) && same(image->0, here.chunk_rows()[0])
                    == unchanged implies here.remaining(rest, parent, same) == self.remaining(
                rest,
                parent,
                same,
            ) && self.answered(probe_rest, parent) by {
                assert(parent(here.chunk_rows()[0].id) == image);
                lemma_taking(here, *self, found, image, same, rest, parent);
                assert forall|i: int| 0 <= i < self.chunk_rows().len() implies parent(
                    (#[trigger] self.chunk_rows()[i]).id,
                ) == image_of(self.image_map(), self.chunk_rows()[i].id) by {
                    assert(self.chunk_rows()[i] == here.chunk_rows()[i + 1]);
                }
            }
        }
    }

    fn chunk_ids(&self) -> (r: Vec<String>)
        ensures
            row_compare::text_views(r@) == self.chunk_rows().map_values(|row: RowView| row.id),
    {
        let ghost all = self.chunk_rows().map_values(|row: RowView| row.id);
        let mut ids: Vec<String> = Vec::new();
        let mut i: usize = 0;
        proof {
            assert(row_compare::text_views(ids@) =~= all.take(0));
        }
        while i < self.chunk.len()
            invariant
                i <= self.chunk@.len(),
                all == self.chunk_rows().map_values(|row: RowView| row.id),
                row_compare::text_views(ids@) == all.take(i as int),
            decreases self.chunk@.len() - i,
        {
            let ghost before = ids@;
            let id = String::from_str(self.chunk[i].id());
            ids.push(id);
            proof {
                assert(row_compare::text_views(ids@)
                    =~= row_compare::text_views(before).push(id@));
                assert(all.take(i + 1) =~= all.take(i as int).push(all[i as int]));
            }
            i = i + 1;
        }
        assert(all.take(i as int) =~= all);
        ids
    }
}

/// Whether `after` is what the payloads of a candidate and its before image make
/// of `before`: the candidate is taken, as an update where they differ, with
/// everything else that is still to be reported kept.
pub open spec fn upserts_answered(
    before: CandidateUpserts,
    after: CandidateUpserts,
    payloads_agree: bool,
) -> bool {
    let candidate = before.chunk_rows()[0];
    let image = before.image_map()[candidate.id];
    &&& after.scope == before.scope
    &&& after.phase == before.phase
    &&& after.candidates == before.candidates
    &&& after.images == before.images
    &&& after.chunk_rows() == before.chunk_rows().drop_first()
    &&& after.ready_changes() == before.ready_changes() + enumerate::reported(
        before.scope,
        (if payloads_agree {
            Seq::empty()
        } else {
            seq![ChangeView::Update { before: image, after: candidate }]
        }),
    )
    &&& forall|
        rest: Seq<RowView>,
        probe_rest: Seq<RowView>,
        parent: spec_fn(Seq<char>) -> Option<RowView>,
        same: spec_fn(RowView, RowView) -> bool,
    |
        #![trigger before.remaining(rest, parent, same), before.answered(probe_rest, parent)]
        before.answered(probe_rest, parent) && same(image, candidate) == payloads_agree
            ==> before.remaining(rest, parent, same) == after.remaining(rest, parent, same)
            && after.answered(probe_rest, parent)
}

/// Whether nothing is lost from one state to another but the changes given,
/// where the scans deliver these rows from here on: what is left before is what
/// was given followed by what is left after.
pub open spec fn carries(
    before: CandidateUpserts,
    after: CandidateUpserts,
    given: Seq<ChangeView>,
    rest: Seq<RowView>,
    probe_rest: Seq<RowView>,
    parent: spec_fn(Seq<char>) -> Option<RowView>,
    same: spec_fn(RowView, RowView) -> bool,
) -> bool {
    enumerate::faithful(same) && before.may_deliver(rest, probe_rest)
        && before.answered(probe_rest, parent) ==> after.may_deliver(rest, probe_rest)
        && after.answered(probe_rest, parent) && before.remaining(rest, parent, same) == given
        + after.remaining(rest, parent, same)
}

/// Whether nothing is lost from one state to another but the changes given,
/// whatever the scans still deliver.
pub open spec fn continues(
    before: CandidateUpserts,
    after: CandidateUpserts,
    given: Seq<ChangeView>,
) -> bool {
    forall|
        rest: Seq<RowView>,
        probe_rest: Seq<RowView>,
        parent: spec_fn(Seq<char>) -> Option<RowView>,
        same: spec_fn(RowView, RowView) -> bool,
    | #[trigger] carries(before, after, given, rest, probe_rest, parent, same)
}

/// Whether nothing is lost from one state to another in which the parent is
/// about to be probed anew.
pub open spec fn continues_probing(before: CandidateUpserts, after: CandidateUpserts) -> bool {
    forall|
        rest: Seq<RowView>,
        probe_rest: Seq<RowView>,
        parent: spec_fn(Seq<char>) -> Option<RowView>,
        same: spec_fn(RowView, RowView) -> bool,
    |
        #![trigger before.remaining(rest, parent, same), before.answered(probe_rest, parent)]
        enumerate::faithful(same) && before.may_deliver(rest, probe_rest)
            && before.answered(probe_rest, parent) ==> before.remaining(rest, parent, same)
            == after.remaining(rest, parent, same) && (after.candidates.is_open() || rest.len() == 0)
}

/// Whether the next candidate cannot be compared with its before image, and
/// `error` says so.
pub open spec fn stuck(state: CandidateUpserts, error: OmniError) -> bool {
    state.at_pair() && (row_compare::comparison(
        state.image_map()[state.chunk_rows()[0].id],
        state.chunk_rows()[0],
    ) matches Comparison::Missing { column } && error::is_plain_manifest(
        error,
        error::ManifestErrorKind::Internal,
        row_compare::missing_column_text(column),
    ))
}

/// Whether `after` is `before` without the chunk at hand. The changes found in
/// it stay.
pub open spec fn without_chunk(before: CandidateUpserts, after: CandidateUpserts) -> bool {
    &&& after.phase == Phase::Collecting
    &&& after.chunk_rows().len() == 0
    &&& after.ready_changes() == before.ready_changes()
    &&& after.candidates == before.candidates
    &&& after.scope == before.scope
}

/// Whether the candidates are probed as one whole chunk: as many as one probe
/// covers, or all that were left.
pub open spec fn is_whole_chunk(before: CandidateUpserts, after: CandidateUpserts) -> bool {
    before.chunk_fits() ==> after.chunk_rows().len() == PARENT_PROBE_CHUNK || (
    after.chunk_rows().len() < PARENT_PROBE_CHUNK && after.candidates.rows().len() == 0
        && !after.candidates.is_open())
}

/// The candidates that no probe has asked for yet, among those at hand: while a
/// chunk is collected its rows are among them, afterwards they are not.
pub open spec fn unasked(state: CandidateUpserts) -> Seq<RowView> {
    if state.phase == Phase::Collecting {
        state.chunk_rows() + state.candidates.rows()
    } else {
        state.candidates.rows()
    }
}

/// How many candidates and changes the emitter holds.
pub open spec fn held(state: CandidateUpserts) -> nat {
    state.ready_changes().len() + state.chunk_rows().len()
}

/// Whether the chunk is past its probe, and the probe has delivered everything.
pub open spec fn is_probed(state: CandidateUpserts) -> bool {
    state.phase == Phase::Comparing || (state.phase == Phase::Probing && !state.probe.is_open())
}

/// Whether `after` has the candidates of the chunk of `before` from some place
/// on, each of the others having given at most one change.
pub open spec fn has_rest_of_chunk(before: CandidateUpserts, after: CandidateUpserts) -> bool {
    &&& enumerate::is_rest_of(after.chunk_rows(), before.chunk_rows())
    &&& held(after) <= held(before)
}

/// Whether a step gets on: the changes at hand are given before more candidates
/// are read, and a chunk that a probe was made for is compared once the probe
/// has ended, so that no candidate is asked for again.
pub open spec fn gets_on(
    before: CandidateUpserts,
    after: CandidateUpserts,
    step: UpsertStep,
) -> bool {
    match step {
        UpsertStep::FillCandidates | UpsertStep::Probe(_) | UpsertStep::Done => {
            &&& before.phase == Phase::Collecting || is_probed(before)
            &&& after.ready_changes().len() == 0
            &&& after.chunk_rows() + after.candidates.rows() == unasked(before)
            &&& after.candidates.is_open() == before.candidates.is_open()
            &&& step is FillCandidates ==> after.chunk_rows().len() < PARENT_PROBE_CHUNK
            &&& step is Done ==> after.phase == Phase::Collecting
        },
        UpsertStep::FillProbe => {
            &&& before.phase == Phase::Probing
            &&& before.probe.is_open()
            &&& after.chunk_rows() == before.chunk_rows()
            &&& after.candidates == before.candidates
            &&& after.ready_changes() == before.ready_changes()
        },
        UpsertStep::Payloads(_) => {
            &&& is_probed(before)
            &&& after.candidates == before.candidates
            &&& has_rest_of_chunk(before, after)
        },
        UpsertStep::Emit(_) => {
            &&& after.phase == Phase::Collecting
            &&& after.candidates == before.candidates
            &&& held(after) < held(before)
            &&& if before.phase == Phase::Collecting {
                after.chunk_rows() == before.chunk_rows()
            } else {
                is_probed(before) && after.chunk_rows().len() == 0
            }
        },
    }
}

/// Whether `result` is what a step of the emitter gives: a request that the
/// state justifies, or a change, with everything else that is still to be
/// reported kept. Every step gets on, and none makes the chunk larger than one
/// probe covers.
pub open spec fn upserts_stepped(
    before: CandidateUpserts,
    after: CandidateUpserts,
    result: Result<UpsertStep, OmniError>,
) -> bool {
    &&& before.chunk_fits() ==> after.chunk_fits()
    &&& match result {
        Ok(step) => gets_on(before, after, step),
        Err(_) => is_probed(before) && after.candidates == before.candidates && held(after)
            <= held(before),
    }
    &&& match result {
        Ok(UpsertStep::FillCandidates) => after.phase == Phase::Collecting
            && after.candidates.wants_batch() && continues(before, after, Seq::empty()),
        Ok(UpsertStep::Probe(ids)) => after.phase == Phase::Probing && after.probe.is_open()
            && after.probe.rows().len() == 0 && after.image_map() == Map::<
            Seq<char>,
            RowView,
        >::empty() && row_compare::text_views(ids@)
            == after.chunk_rows().map_values(|row: RowView| row.id) && ids@.len() > 0
            && is_whole_chunk(before, after) && continues_probing(before, after),
        Ok(UpsertStep::FillProbe) => after.phase == Phase::Probing && after.probe.wants_batch()
            && continues(before, after, Seq::empty()),
        Ok(UpsertStep::Payloads(columns)) => after.at_pair() && (
        row_compare::comparison(
            after.image_map()[after.chunk_rows()[0].id],
            after.chunk_rows()[0],
        ) matches Comparison::Payloads { columns: expected }
            && row_compare::text_views(columns@) == expected) && continues(
            before,
            after,
            Seq::empty(),
        ),
        Ok(UpsertStep::Emit(emit)) => continues(before, after, seq![emit@]),
        Ok(UpsertStep::Done) => after.ready_changes().len() == 0 && after.chunk_rows().len() == 0
            && after.candidates.rows().len() == 0 && !after.candidates.is_open() && continues(
            before,
            after,
            Seq::empty(),
        ),
        Err(error) => exists|middle: CandidateUpserts| #[trigger]
            continues(before, middle, Seq::empty()) && stuck(middle, error) && without_chunk(
                middle,
                after,
            ),
    }
}

proof fn lemma_taking_shortens(
    start: CandidateUpserts,
    before: CandidateUpserts,
    after: CandidateUpserts,
    found: Found,
)
    requires
        has_rest_of_chunk(start, before),
        before.chunk_rows().len() > 0,
        after.chunk_rows() == before.chunk_rows().drop_first(),
        after.ready_changes() == before.ready_changes() + enumerate::reported(
            before.scope,
            found.change(before.chunk_rows()[0]),
        ),
    ensures
        has_rest_of_chunk(start, after),
{
    let change = found.change(before.chunk_rows()[0]);
    if change.len() > 0 {
        assert(change =~= seq![change[0]]);
        enumerate::one_change_is_reported_if_selected(before.scope, change[0]);
    }
    assert(after.chunk_rows() =~= start.chunk_rows().skip(
        start.chunk_rows().len() - after.chunk_rows().len(),
    ));
}

proof fn lemma_continues_itself(state: CandidateUpserts)
    ensures
        continues(state, state, Seq::empty()),
{
    assert forall|
        rest: Seq<RowView>,
        parent: spec_fn(Seq<char>) -> Option<RowView>,
        same: spec_fn(RowView, RowView) -> bool,
    | #[trigger]
        state.remaining(rest, parent, same) == Seq::<ChangeView>::empty() + state.remaining(
            rest,
            parent,
            same,
        ) by {
        assert(Seq::<ChangeView>::empty() + state.remaining(rest, parent, same)
            =~= state.remaining(rest, parent, same));
    }
}

proof fn lemma_continues_on(
    a: CandidateUpserts,
    b: CandidateUpserts,
    c: CandidateUpserts,
    given: Seq<ChangeView>,
)
    requires
        continues(a, b, Seq::empty()),
        continues(b, c, given),
    ensures
        continues(a, c, given),
{
    assert forall|
        rest: Seq<RowView>,
        probe_rest: Seq<RowView>,
        parent: spec_fn(Seq<char>) -> Option<RowView>,
        same: spec_fn(RowView, RowView) -> bool,
    | #[trigger] carries(a, c, given, rest, probe_rest, parent, same) by {
        assert(carries(a, b, Seq::empty(), rest, probe_rest, parent, same));
        assert(carries(b, c, given, rest, probe_rest, parent, same));
        let middle = b.remaining(rest, parent, same);
        assert(Seq::<ChangeView>::empty() + middle =~= middle);
    }
}

/// Taking the next candidate as what it is loses nothing.
proof fn lemma_taking(
    before: CandidateUpserts,
    after: CandidateUpserts,
    found: Found,
    image: Option<RowView>,
    same: spec_fn(RowView, RowView) -> bool,
    rest: Seq<RowView>,
    parent: spec_fn(Seq<char>) -> Option<RowView>,
)
    requires
        before.chunk_rows().len() > 0,
        parent(before.chunk_rows()[0].id) == image,
        upsert_of(before.chunk_rows()[0], image, same) == found.change(before.chunk_rows()[0]),
        after.scope == before.scope,
        after.candidates == before.candidates,
        after.chunk_rows() == before.chunk_rows().drop_first(),
        after.ready_changes() == before.ready_changes() + enumerate::reported(
            before.scope,
            found.change(before.chunk_rows()[0]),
        ),
    ensures
        before.remaining(rest, parent, same) == after.remaining(rest, parent, same),
{
    let tail = before.candidates.rows() + rest;
    let all = before.chunk_rows() + tail;
    let one = found.change(before.chunk_rows()[0]);
    let others = upserts(after.chunk_rows() + tail, parent, same);
    assert(all.drop_first() =~= after.chunk_rows() + tail);
    assert(all[0] == before.chunk_rows()[0]);
    enumerate::reported_splits(before.scope, one, others);
    let a = before.ready_changes();
    let b = enumerate::reported(before.scope, one);
    let c = enumerate::reported(before.scope, others);
    assert(a + (b + c) =~= (a + b) + c);
}

proof fn lemma_taking_continues(
    before: CandidateUpserts,
    after: CandidateUpserts,
    found: Found,
)
    requires
        before.phase == Phase::Comparing,
        after.phase == Phase::Comparing,
        before.chunk_rows().len() > 0,
        after.scope == before.scope,
        after.candidates == before.candidates,
        after.images == before.images,
        after.chunk_rows() == before.chunk_rows().drop_first(),
        after.ready_changes() == before.ready_changes() + enumerate::reported(
            before.scope,
            found.change(before.chunk_rows()[0]),
        ),
        match image_of(before.image_map(), before.chunk_rows()[0].id) {
            None => found is Insert,
            Some(image) => match row_compare::comparison(
                image,
                before.chunk_rows()[0],
            ) {
                Comparison::Equal => found is Nothing,
                Comparison::Different => found matches Found::Update(row) && row@ == image,
                _ => false,
            },
        },
    ensures
        continues(before, after, Seq::empty()),
{
    let image = image_of(before.image_map(), before.chunk_rows()[0].id);
    assert forall|
        rest: Seq<RowView>,
        probe_rest: Seq<RowView>,
        parent: spec_fn(Seq<char>) -> Option<RowView>,
        same: spec_fn(RowView, RowView) -> bool,
    |
        enumerate::faithful(same) && before.may_deliver(rest, probe_rest)
            && before.answered(probe_rest, parent) implies #[trigger] carries(
        before,
        after,
        Seq::empty(),
        rest,
        probe_rest,
        parent,
        same,
    ) by {
        assert(parent(before.chunk_rows()[0].id) == image);
        match image {
            Some(row) => {
                let _ = same(row, before.chunk_rows()[0]);
            },
            None => {},
        }
        lemma_taking(before, after, found, image, same, rest, parent);
        assert(Seq::<ChangeView>::empty() + after.remaining(rest, parent, same)
            =~= after.remaining(rest, parent, same));
        assert forall|i: int| 0 <= i < after.chunk_rows().len() implies parent(
            (#[trigger] after.chunk_rows()[i]).id,
        ) == image_of(after.image_map(), after.chunk_rows()[i].id) by {
            assert(after.chunk_rows()[i] == before.chunk_rows()[i + 1]);
        }
    }
}

proof fn lemma_given(before: CandidateUpserts, after: CandidateUpserts, given: ChangeView)
    requires
        before.phase == Phase::Collecting,
        after.phase == before.phase,
        after.scope == before.scope,
        after.candidates == before.candidates,
        after.chunk == before.chunk,
        before.ready@.len() > 0,
        given == before.ready@[0]@,
        after.ready@ == before.ready@.drop_first(),
    ensures
        continues(before, after, seq![given]),
{
    assert(before.ready_changes() =~= seq![given] + after.ready_changes());
    assert forall|
        rest: Seq<RowView>,
        parent: spec_fn(Seq<char>) -> Option<RowView>,
        same: spec_fn(RowView, RowView) -> bool,
    |
        #![trigger before.remaining(rest, parent, same)]
        #![trigger after.remaining(rest, parent, same)]
        before.remaining(rest, parent, same) == seq![given] + after.remaining(
            rest,
            parent,
            same,
        ) by {
        assert(before.remaining(rest, parent, same) =~= seq![given] + after.remaining(
            rest,
            parent,
            same,
        ));
    }
}

proof fn lemma_same_remaining(before: CandidateUpserts, after: CandidateUpserts)
    requires
        after.scope == before.scope,
        after.ready_changes() == before.ready_changes(),
        after.chunk_rows() + after.candidates.rows() == before.chunk_rows()
            + before.candidates.rows(),
    ensures
        forall|
            rest: Seq<RowView>,
            parent: spec_fn(Seq<char>) -> Option<RowView>,
            same: spec_fn(RowView, RowView) -> bool,
        |
            #![trigger before.remaining(rest, parent, same)]
            #![trigger after.remaining(rest, parent, same)]
            before.remaining(rest, parent, same) == after.remaining(rest, parent, same)
                && before.remaining(rest, parent, same) == Seq::<ChangeView>::empty()
                + after.remaining(rest, parent, same),
{
    assert forall|
        rest: Seq<RowView>,
        parent: spec_fn(Seq<char>) -> Option<RowView>,
        same: spec_fn(RowView, RowView) -> bool,
    |
        #![trigger before.remaining(rest, parent, same)]
        #![trigger after.remaining(rest, parent, same)]
        before.remaining(rest, parent, same) == after.remaining(rest, parent, same)
            && before.remaining(rest, parent, same) == Seq::<ChangeView>::empty() + after.remaining(
            rest,
            parent,
            same,
        ) by {
        assert(before.chunk_rows() + (before.candidates.rows() + rest) =~= (before.chunk_rows()
            + before.candidates.rows()) + rest);
        assert(after.chunk_rows() + (after.candidates.rows() + rest) =~= (after.chunk_rows()
            + after.candidates.rows()) + rest);
        assert(Seq::<ChangeView>::empty() + after.remaining(rest, parent, same)
            =~= after.remaining(rest, parent, same));
    }
}

proof fn lemma_gathered(before: CandidateUpserts, after: CandidateUpserts)
    requires
        before.phase == Phase::Collecting,
        after.phase == before.phase,
        after.scope == before.scope,
        after.ready_changes() == before.ready_changes(),
        after.candidates.is_open() == before.candidates.is_open(),
        after.chunk_rows() + after.candidates.rows() == before.chunk_rows()
            + before.candidates.rows(),
    ensures
        continues(before, after, Seq::empty()),
{
    lemma_same_remaining(before, after);
}

proof fn lemma_probing(
    start: CandidateUpserts,
    collected: CandidateUpserts,
    after: CandidateUpserts,
)
    requires
        continues(start, collected, Seq::empty()),
        after.scope == collected.scope,
        after.ready == collected.ready,
        after.candidates == collected.candidates,
        after.chunk == collected.chunk,
    ensures
        continues_probing(start, after),
{
    lemma_same_remaining(collected, after);
    assert forall|
        rest: Seq<RowView>,
        probe_rest: Seq<RowView>,
        parent: spec_fn(Seq<char>) -> Option<RowView>,
        same: spec_fn(RowView, RowView) -> bool,
    |
        #![trigger start.remaining(rest, parent, same), start.answered(probe_rest, parent)]
        enumerate::faithful(same) && start.may_deliver(rest, probe_rest)
            && start.answered(probe_rest, parent) implies start.remaining(rest, parent, same)
        == after.remaining(rest, parent, same) && (after.candidates.is_open() || rest.len() == 0) by {
        assert(carries(start, collected, Seq::empty(), rest, probe_rest, parent, same));
        let middle = collected.remaining(rest, parent, same);
        assert(Seq::<ChangeView>::empty() + middle =~= middle);
    }
}

proof fn lemma_absorbed(before: CandidateUpserts, after: CandidateUpserts)
    requires
        before.phase == Phase::Probing,
        after.phase == before.phase,
        after.scope == before.scope,
        after.ready == before.ready,
        after.candidates == before.candidates,
        after.chunk == before.chunk,
        after.probe.is_open() == before.probe.is_open(),
        forall|probe_rest: Seq<RowView>|
            with_images(after.image_map(), after.probe.rows() + probe_rest)
                == #[trigger] with_images(before.image_map(), before.probe.rows() + probe_rest),
    ensures
        continues(before, after, Seq::empty()),
{
    lemma_same_remaining(before, after);
    assert forall|
        probe_rest: Seq<RowView>,
        parent: spec_fn(Seq<char>) -> Option<RowView>,
    |
        #![trigger before.answered(probe_rest, parent)]
        #![trigger after.answered(probe_rest, parent)]
        before.answered(probe_rest, parent) == after.answered(probe_rest, parent) by {
        assert(with_images(after.image_map(), after.probe.rows() + probe_rest) == with_images(
            before.image_map(),
            before.probe.rows() + probe_rest,
        ));
    }
}

proof fn lemma_comparing(before: CandidateUpserts, after: CandidateUpserts)
    requires
        before.phase == Phase::Probing,
        after.phase == Phase::Comparing,
        after.scope == before.scope,
        after.ready == before.ready,
        after.candidates == before.candidates,
        after.chunk == before.chunk,
        after.images == before.images,
        before.probe.rows().len() == 0,
        !before.probe.is_open(),
    ensures
        continues(before, after, Seq::empty()),
{
    lemma_same_remaining(before, after);
    assert forall|
        rest: Seq<RowView>,
        probe_rest: Seq<RowView>,
        parent: spec_fn(Seq<char>) -> Option<RowView>,
    | #[trigger]
        before.may_deliver(rest, probe_rest) && #[trigger] before.answered(
            probe_rest,
            parent,
        ) implies after.answered(probe_rest, parent) by {
        assert(before.probe.rows() + probe_rest =~= Seq::empty());
    }
}

proof fn lemma_collecting(before: CandidateUpserts, after: CandidateUpserts)
    requires
        before.phase == Phase::Comparing,
        after.phase == Phase::Collecting,
        after.scope == before.scope,
        after.ready == before.ready,
        after.candidates == before.candidates,
        after.chunk == before.chunk,
    ensures
        continues(before, after, Seq::empty()),
{
    lemma_same_remaining(before, after);
}

/// How a candidate compares with its before image.
enum Verdict {
    New,
    Unchanged,
    Changed(RawRow),
    Unclear(Vec<String>),
}

/// What a candidate turned out to be.
enum Found {
    Insert,
    Update(RawRow),
    Nothing,
}

impl Found {
    spec fn change(self, candidate: RowView) -> Seq<ChangeView> {
        match self {
            Found::Insert => seq![ChangeView::Insert(candidate)],
            Found::Update(before) => seq![
                ChangeView::Update { before: before@, after: candidate },
            ],
            Found::Nothing => Seq::empty(),
        }
    }
}

// ---------------------------------------------------------------------------
// Laws
// ---------------------------------------------------------------------------

/// The first row of a given id.
pub open spec fn row_with_id(rows: Seq<RowView>, id: Seq<char>) -> Option<RowView>
    decreases rows.len(),
{
    if rows.len() == 0 {
        None
    } else if rows[0].id == id {
        Some(rows[0])
    } else {
        row_with_id(rows.drop_first(), id)
    }
}

/// The parent's row of each id.
pub open spec fn parent_rows(rows: Seq<RowView>) -> spec_fn(Seq<char>) -> Option<RowView> {
    |id: Seq<char>| row_with_id(rows, id)
}

proof fn lemma_row_with_id(rows: Seq<RowView>, id: Seq<char>)
    ensures
        row_with_id(rows, id) is None <==> !merge_laws::has_id(rows, id),
        row_with_id(rows, id) matches Some(row) ==> rows.contains(row) && row.id == id,
    decreases rows.len(),
{
    if rows.len() > 0 {
        let rest = rows.drop_first();
        lemma_row_with_id(rest, id);
        if rows[0].id == id {
            assert(rows[0] == rows[0]);
        } else {
            if merge_laws::has_id(rows, id) {
                let k = choose|k: int| 0 <= k < rows.len() && (#[trigger] rows[k]).id == id;
                assert(rest[k - 1].id == id);
            }
            if merge_laws::has_id(rest, id) {
                let k = choose|k: int| 0 <= k < rest.len() && (#[trigger] rest[k]).id == id;
                assert(rows[k + 1].id == id);
            }
            match row_with_id(rest, id) {
                Some(row) => {
                    let k = choose|k: int| 0 <= k < rest.len() && rest[k] == row;
                    assert(rows[k + 1] == row);
                },
                None => {},
            }
        }
    }
}

proof fn lemma_upserts_alike(
    candidates: Seq<RowView>,
    a: spec_fn(Seq<char>) -> Option<RowView>,
    b: spec_fn(Seq<char>) -> Option<RowView>,
    same: spec_fn(RowView, RowView) -> bool,
)
    requires
        forall|i: int|
            0 <= i < candidates.len() ==> a((#[trigger] candidates[i]).id) == b(candidates[i].id),
    ensures
        upserts(candidates, a, same) == upserts(candidates, b, same),
    decreases candidates.len(),
{
    if candidates.len() > 0 {
        let rest = candidates.drop_first();
        assert forall|i: int| 0 <= i < rest.len() implies a((#[trigger] rest[i]).id) == b(
            rest[i].id,
        ) by {
            assert(rest[i] == candidates[i + 1]);
        }
        lemma_upserts_alike(rest, a, b, same);
        assert(a(candidates[0].id) == b(candidates[0].id));
    }
}

proof fn lemma_touched_come_from(rows: Seq<RowView>, touched: spec_fn(RowView) -> bool)
    ensures
        forall|i: int|
            0 <= i < rows.filter(touched).len() ==> rows.contains(
                #[trigger] rows.filter(touched)[i],
            ),
{
    assert forall|i: int| 0 <= i < rows.filter(touched).len() implies rows.contains(
        #[trigger] rows.filter(touched)[i],
    ) by {
        rows.lemma_filter_contains_rev(touched, rows.filter(touched)[i]);
    }
}

/// Where an interval kept every row, and every row that it did not touch is
/// unchanged, the touched rows alone give exactly the changes that the merge of
/// both versions finds.
pub proof fn pruned_changes_are_the_changes(
    from: Seq<RowView>,
    to: Seq<RowView>,
    touched: spec_fn(RowView) -> bool,
    same: spec_fn(RowView, RowView) -> bool,
)
    requires
        merge_laws::in_id_order(from),
        merge_laws::in_id_order(to),
        forall|i: int|
            0 <= i < from.len() ==> merge_laws::has_id(to, (#[trigger] from[i]).id),
        forall|j: int|
            0 <= j < to.len() && !touched(#[trigger] to[j]) ==> exists|i: int|
                0 <= i < from.len() && (#[trigger] from[i]).id == to[j].id && same(from[i], to[j]),
    ensures
        upserts(to.filter(touched), parent_rows(from), same) == enumerate::changes(
            from,
            to,
            same,
        ),
    decreases to.len(),
{
    if to.len() == 0 {
        if from.len() > 0 {
            assert(merge_laws::has_id(to, from[0].id));
        }
        reveal(Seq::filter);
    } else {
        let row = to[0];
        let to_rest = to.drop_first();
        let kept_rest = to_rest.filter(touched);
        merge_laws::lemma_filter_first(to, touched);
        lemma_touched_come_from(to_rest, touched);
        merge_laws::lemma_tail_in_order(to);
        lemma_row_with_id(from, row.id);
        if from.len() > 0 {
            assert(merge_laws::has_id(to, from[0].id));
            if text::text_less(from[0].id, row.id) {
                merge_laws::lemma_none_before(to, from[0].id);
            }
            text::text_order_is_total(from[0].id, row.id);
        }
        if from.len() == 0 || text::text_less(row.id, from[0].id) {
            merge_laws::lemma_none_before(from, row.id);
            if !touched(row) {
                let i = choose|i: int|
                    0 <= i < from.len() && (#[trigger] from[i]).id == to[0].id && same(
                        from[i],
                        to[0],
                    );
                assert(merge_laws::has_id(from, row.id));
            }
            assert forall|i: int| 0 <= i < from.len() implies merge_laws::has_id(
                to_rest,
                (#[trigger] from[i]).id,
            ) by {
                assert(merge_laws::has_id(to, from[i].id));
                if from[i].id == row.id {
                    assert(merge_laws::has_id(from, row.id));
                }
            }
            lemma_untouched_rest(from, from, to, touched, same);
            pruned_changes_are_the_changes(from, to_rest, touched, same);
            assert(to.filter(touched) =~= seq![row] + kept_rest);
            assert(to.filter(touched).drop_first() =~= kept_rest);
        } else {
            let from_rest = from.drop_first();
            merge_laws::lemma_tail_in_order(from);
            assert forall|i: int|
                0 <= i < from_rest.len() implies merge_laws::has_id(
                to_rest,
                (#[trigger] from_rest[i]).id,
            ) by {
                assert(from_rest[i] == from[i + 1]);
                assert(merge_laws::has_id(to, from[i + 1].id));
                if from_rest[i].id == row.id {
                    assert(merge_laws::has_id(from_rest, from[0].id));
                }
            }
            lemma_untouched_rest(from, from_rest, to, touched, same);
            pruned_changes_are_the_changes(from_rest, to_rest, touched, same);
            assert forall|i: int| 0 <= i < kept_rest.len() implies parent_rows(from)(
                (#[trigger] kept_rest[i]).id,
            ) == parent_rows(from_rest)(kept_rest[i].id) by {
                let other = kept_rest[i];
                assert(to_rest.contains(other));
                let k = choose|k: int| 0 <= k < to_rest.len() && to_rest[k] == other;
                if other.id == row.id {
                    assert(to_rest[k].id == row.id);
                    assert(merge_laws::has_id(to_rest, row.id));
                }
            }
            lemma_upserts_alike(kept_rest, parent_rows(from), parent_rows(from_rest), same);
            if touched(row) {
                assert(to.filter(touched) =~= seq![row] + kept_rest);
                assert(to.filter(touched).drop_first() =~= kept_rest);
                assert(parent_rows(from)(row.id) == Some(from[0]));
                if same(from[0], row) {
                    assert(Seq::<ChangeView>::empty() + upserts(kept_rest, parent_rows(from), same)
                        =~= upserts(kept_rest, parent_rows(from), same));
                }
            } else {
                assert(to.filter(touched) =~= kept_rest);
                let i = choose|i: int|
                    0 <= i < from.len() && (#[trigger] from[i]).id == to[0].id && same(
                        from[i],
                        to[0],
                    );
                if i > 0 {
                    assert(from_rest[i - 1].id == from[0].id);
                    assert(merge_laws::has_id(from_rest, from[0].id));
                }
            }
        }
    }
}

proof fn lemma_untouched_rest(
    from: Seq<RowView>,
    from_rest: Seq<RowView>,
    to: Seq<RowView>,
    touched: spec_fn(RowView) -> bool,
    same: spec_fn(RowView, RowView) -> bool,
)
    requires
        to.len() > 0,
        merge_laws::in_id_order(to),
        from_rest == from || (from.len() > 0 && from_rest == from.drop_first() && from[0].id
            == to[0].id),
        forall|j: int|
            0 <= j < to.len() && !touched(#[trigger] to[j]) ==> exists|i: int|
                0 <= i < from.len() && (#[trigger] from[i]).id == to[j].id && same(from[i], to[j]),
    ensures
        forall|j: int|
            0 <= j < to.drop_first().len() && !touched(#[trigger] to.drop_first()[j])
                ==> exists|i: int|
                0 <= i < from_rest.len() && (#[trigger] from_rest[i]).id == to.drop_first()[j].id
                    && same(from_rest[i], to.drop_first()[j]),
{
    let to_rest = to.drop_first();
    assert forall|j: int|
        0 <= j < to_rest.len() && !touched(#[trigger] to_rest[j]) implies exists|i: int|
        0 <= i < from_rest.len() && (#[trigger] from_rest[i]).id == to_rest[j].id && same(
            from_rest[i],
            to_rest[j],
        ) by {
        assert(to_rest[j] == to[j + 1]);
        let i = choose|i: int|
            0 <= i < from.len() && (#[trigger] from[i]).id == to[j + 1].id && same(
                from[i],
                to[j + 1],
            );
        if from_rest == from {
            assert(from_rest[i].id == to_rest[j].id);
        } else {
            if i == 0 {
                text::text_order_is_total(to[0].id, to[j + 1].id);
            }
            assert(from_rest[i - 1] == from[i]);
        }
    }
}

/// Candidates are inserts and updates only: none is a delete.
pub proof fn no_candidate_is_a_delete(
    candidates: Seq<RowView>,
    parent: spec_fn(Seq<char>) -> Option<RowView>,
    same: spec_fn(RowView, RowView) -> bool,
)
    ensures
        forall|i: int|
            0 <= i < upserts(candidates, parent, same).len() ==> !((#[trigger] upserts(
                candidates,
                parent,
                same,
            )[i]) is Delete),
    decreases candidates.len(),
{
    if candidates.len() > 0 {
        no_candidate_is_a_delete(candidates.drop_first(), parent, same);
        let one = upsert_of(candidates[0], parent(candidates[0].id), same);
        let others = upserts(candidates.drop_first(), parent, same);
        assert forall|i: int| 0 <= i < (one + others).len() implies !((#[trigger] (one
            + others)[i]) is Delete) by {
            if i >= one.len() {
                assert((one + others)[i] == others[i - one.len()]);
            }
        }
    }
}

/// Resuming after an id gives exactly the changes that are left: the candidates
/// of the later ids are the changes of the later ids, in their order.
pub proof fn resuming_gives_the_later_upserts(
    candidates: Seq<RowView>,
    parent: spec_fn(Seq<char>) -> Option<RowView>,
    same: spec_fn(RowView, RowView) -> bool,
    after: Seq<char>,
)
    ensures
        upserts(
            candidates.filter(|row: RowView| text::text_less(after, row.id)),
            parent,
            same,
        ) == upserts(candidates, parent, same).filter(
            |change: ChangeView| text::text_less(after, change.id()),
        ),
    decreases candidates.len(),
{
    let kept = |row: RowView| text::text_less(after, row.id);
    let later = |change: ChangeView| text::text_less(after, change.id());
    let all = upserts(candidates, parent, same);
    if candidates.len() == 0 {
        reveal(Seq::filter);
        assert(candidates.filter(kept) =~= candidates);
        assert(all.filter(later) =~= all);
    } else {
        let first = candidates[0];
        let rest = candidates.drop_first();
        let one = upsert_of(first, parent(first.id), same);
        let others = upserts(rest, parent, same);
        resuming_gives_the_later_upserts(rest, parent, same, after);
        merge_laws::lemma_filter_first(candidates, kept);
        Seq::filter_distributes_over_add(one, others, later);
        if one.len() > 0 {
            merge_laws::lemma_filter_first(one, later);
            assert(one.drop_first() =~= Seq::empty());
        }
        assert(Seq::<ChangeView>::empty().filter(later) =~= Seq::empty()) by {
            reveal(Seq::filter);
        }
        if kept(first) {
            assert(candidates.filter(kept)[0] == first);
            assert(candidates.filter(kept).drop_first() =~= rest.filter(kept));
            assert(one.filter(later) =~= one);
        } else {
            assert(candidates.filter(kept) =~= rest.filter(kept));
            assert(one.filter(later) =~= Seq::empty());
            assert(all.filter(later) =~= others.filter(later));
        }
    }
}

proof fn lemma_images_last(images: Map<Seq<char>, RowView>, rows: Seq<RowView>, id: Seq<char>)
    requires
        merge_laws::in_id_order(rows),
    ensures
        image_of(with_images(images, rows), id) == (match row_with_id(rows, id) {
            Some(row) => Some(row),
            None => image_of(images, id),
        }),
    decreases rows.len(),
{
    if rows.len() > 0 {
        merge_laws::lemma_tail_in_order(rows);
        lemma_images_last(images.insert(rows[0].id, rows[0]), rows.drop_first(), id);
        if rows[0].id == id {
            lemma_row_with_id(rows.drop_first(), id);
        }
    }
}

pub(crate) proof fn lemma_filtered_order(rows: Seq<RowView>, kept: spec_fn(RowView) -> bool)
    requires
        merge_laws::in_id_order(rows),
    ensures
        merge_laws::in_id_order(rows.filter(kept)),
    decreases rows.len(),
{
    if rows.len() == 0 {
        reveal(Seq::filter);
    } else {
        let rest = rows.drop_first();
        merge_laws::lemma_tail_in_order(rows);
        lemma_filtered_order(rest, kept);
        merge_laws::lemma_filter_first(rows, kept);
        lemma_touched_come_from(rest, kept);
        let all = rows.filter(kept);
        let others = rest.filter(kept);
        if kept(rows[0]) {
            assert forall|i: int, j: int| 0 <= i < j < all.len() implies text::text_less(
                (#[trigger] all[i]).id,
                (#[trigger] all[j]).id,
            ) by {
                assert(all[j] == others[j - 1]);
                assert(rest.contains(others[j - 1]));
                let k = choose|k: int| 0 <= k < rest.len() && rest[k] == others[j - 1];
                assert(text::text_less(rows[0].id, rest[k].id));
                if i > 0 {
                    assert(all[i] == others[i - 1]);
                }
            }
        } else {
            assert(all =~= others);
        }
    }
}

proof fn lemma_filtered_row(rows: Seq<RowView>, kept: spec_fn(RowView) -> bool, id: Seq<char>)
    requires
        forall|row: RowView| row.id == id ==> #[trigger] kept(row),
    ensures
        row_with_id(rows.filter(kept), id) == row_with_id(rows, id),
    decreases rows.len(),
{
    if rows.len() == 0 {
        reveal(Seq::filter);
    } else {
        let rest = rows.drop_first();
        merge_laws::lemma_filter_first(rows, kept);
        lemma_filtered_row(rest, kept, id);
        if kept(rows[0]) {
            assert(rows.filter(kept).drop_first() =~= rest.filter(kept));
        } else {
            assert(rows.filter(kept) =~= rest.filter(kept));
        }
    }
}

/// A probe for some ids gives the parent's row of each of them: reading the
/// parent's rows of those ids answers for every candidate what reading the
/// whole parent would.
pub proof fn a_probe_gives_the_parents_rows(
    parent: Seq<RowView>,
    ids: Seq<Seq<char>>,
    id: Seq<char>,
)
    requires
        merge_laws::in_id_order(parent),
        ids.contains(id),
    ensures
        image_of(
            with_images(Map::empty(), parent.filter(|row: RowView| ids.contains(row.id))),
            id,
        ) == row_with_id(parent, id),
{
    let kept = |row: RowView| ids.contains(row.id);
    lemma_filtered_order(parent, kept);
    lemma_images_last(Map::empty(), parent.filter(kept), id);
    lemma_filtered_row(parent, kept, id);
}

/// Candidates are classified one by one, each against the parent's row of its own
/// id: without one it is an insert, with one that is the same it is no change,
/// and with one that differs it is an update from that row to the candidate.
pub proof fn candidates_are_classified_one_by_one(
    first: Seq<RowView>,
    second: Seq<RowView>,
    candidate: RowView,
    parent: spec_fn(Seq<char>) -> Option<RowView>,
    same: spec_fn(RowView, RowView) -> bool,
)
    ensures
        upserts(Seq::<RowView>::empty(), parent, same) == Seq::<ChangeView>::empty(),
        upserts(seq![candidate], parent, same) == (match parent(candidate.id) {
            None => seq![ChangeView::Insert(candidate)],
            Some(before) => if same(before, candidate) {
                Seq::<ChangeView>::empty()
            } else {
                seq![ChangeView::Update { before, after: candidate }]
            },
        }),
        upserts(first + second, parent, same) == upserts(first, parent, same) + upserts(
            second,
            parent,
            same,
        ),
    decreases first.len(),
{
    let one = seq![candidate];
    assert(one.drop_first() =~= Seq::empty());
    assert(upserts(one.drop_first(), parent, same) =~= Seq::empty());
    assert(upserts(one, parent, same) =~= upsert_of(candidate, parent(candidate.id), same));
    if first.len() == 0 {
        assert(first + second =~= second);
        assert(upserts(first, parent, same) + upserts(second, parent, same) =~= upserts(
            second,
            parent,
            same,
        ));
    } else {
        candidates_are_classified_one_by_one(first.drop_first(), second, candidate, parent, same);
        assert((first + second).drop_first() =~= first.drop_first() + second);
        let head = upsert_of(first[0], parent(first[0].id), same);
        let middle = upserts(first.drop_first(), parent, same);
        let last = upserts(second, parent, same);
        assert(head + (middle + last) =~= (head + middle) + last);
    }
}

/// The parent's row of an id is the first that has it; there is none where no row
/// does.
pub proof fn the_parents_row_is_the_one_with_the_id(rows: Seq<RowView>, id: Seq<char>)
    ensures
        parent_rows(rows)(id) is None <==> forall|i: int|
            0 <= i < rows.len() ==> (#[trigger] rows[i]).id != id,
        parent_rows(rows)(id) matches Some(row) ==> exists|i: int|
            0 <= i < rows.len() && #[trigger] rows[i] == row && row.id == id && (forall|j: int|
                0 <= j < i ==> (#[trigger] rows[j]).id != id),
    decreases rows.len(),
{
    if rows.len() > 0 {
        let rest = rows.drop_first();
        the_parents_row_is_the_one_with_the_id(rest, id);
        assert(parent_rows(rest)(id) == row_with_id(rest, id));
        assert(parent_rows(rows)(id) == row_with_id(rows, id));
        assert(forall|i: int| 0 <= i < rest.len() ==> rest[i] == #[trigger] rows[i + 1]);
        if rows[0].id == id {
            assert(rows[0] == rows[0]);
        } else {
            match row_with_id(rest, id) {
                Some(row) => {
                    let i = choose|i: int|
                        0 <= i < rest.len() && #[trigger] rest[i] == row && row.id == id && (forall|
                            j: int,
                        |
                            0 <= j < i ==> (#[trigger] rest[j]).id != id);
                    assert(rows[i + 1] == row);
                    assert forall|j: int| 0 <= j < i + 1 implies (#[trigger] rows[j]).id != id by {
                        if j > 0 {
                            assert(rest[j - 1] == rows[j]);
                        }
                    }
                },
                None => {
                    assert forall|i: int| 0 <= i < rows.len() implies (#[trigger] rows[i]).id
                        != id by {
                        if i > 0 {
                            assert(rest[i - 1] == rows[i]);
                        }
                    }
                },
            }
        }
    }
}

/// The image of an id is the last row read for it, or what was there before
/// where none was read.
pub proof fn the_image_is_the_last_row_read(
    images: Map<Seq<char>, RowView>,
    rows: Seq<RowView>,
    row: RowView,
    id: Seq<char>,
)
    ensures
        image_of(images, id) is Some <==> images.contains_key(id),
        images.contains_key(id) ==> image_of(images, id) == Some(images[id]),
        image_of(with_images(images, Seq::empty()), id) == image_of(images, id),
        image_of(with_images(images, rows.push(row)), id) == (if row.id == id {
            Some(row)
        } else {
            image_of(with_images(images, rows), id)
        }),
    decreases rows.len(),
{
    let all = rows.push(row);
    if rows.len() == 0 {
        assert(all.drop_first() =~= Seq::empty());
        assert(with_images(images.insert(row.id, row), all.drop_first()) == images.insert(
            row.id,
            row,
        ));
        assert(with_images(images, rows) == images);
    } else {
        the_image_is_the_last_row_read(
            images.insert(rows[0].id, rows[0]),
            rows.drop_first(),
            row,
            id,
        );
        assert(all.drop_first() =~= rows.drop_first().push(row));
    }
}

/// The emitter is seen whole: the candidates of its chunk, the images by id and
/// the changes found, each as it is and in its order.
pub proof fn an_emitter_is_seen_whole(emitter: CandidateUpserts)
    ensures
        emitter.chunk_rows().len() == emitter.chunk@.len(),
        forall|i: int|
            0 <= i < emitter.chunk@.len() ==> (#[trigger] emitter.chunk_rows()[i])
                == emitter.chunk@[i]@,
        emitter.image_map().dom() == emitter.images@.dom(),
        forall|id: Seq<char>| #[trigger]
            emitter.images@.contains_key(id) ==> emitter.image_map()[id] == emitter.images@[id]@,
        emitter.ready_changes().len() == emitter.ready@.len(),
        forall|i: int|
            0 <= i < emitter.ready@.len() ==> (#[trigger] emitter.ready_changes()[i])
                == emitter.ready@[i]@,
        PARENT_PROBE_CHUNK == 8192,
{
    assert(emitter.image_map().dom() =~= emitter.images@.dom());
}

/// A step of the pruned emitter is justified by the state at hand, and loses
/// nothing: what is left to report before it is what it gives, followed by what
/// is left after it, where the scans deliver these rows from here on and the
/// probe at hand is answered with the parent's rows.
pub proof fn an_upsert_step_loses_nothing(
    before: CandidateUpserts,
    after: CandidateUpserts,
    step: UpsertStep,
    rest: Seq<RowView>,
    probe_rest: Seq<RowView>,
    parent: spec_fn(Seq<char>) -> Option<RowView>,
    same: spec_fn(RowView, RowView) -> bool,
)
    requires
        upserts_stepped(before, after, Ok(step)),
        enumerate::faithful(same),
        before.candidates.is_open() || rest.len() == 0,
        before.phase == Phase::Probing ==> before.probe.is_open() || probe_rest.len() == 0,
        before.phase == Phase::Probing ==> forall|i: int|
            0 <= i < before.chunk_rows().len() ==> parent((#[trigger] before.chunk_rows()[i]).id)
                == image_of(
                with_images(before.image_map(), before.probe.rows() + probe_rest),
                before.chunk_rows()[i].id,
            ),
        before.phase == Phase::Comparing ==> forall|i: int|
            0 <= i < before.chunk_rows().len() ==> parent((#[trigger] before.chunk_rows()[i]).id)
                == image_of(before.image_map(), before.chunk_rows()[i].id),
    ensures
        before.ready_changes() + enumerate::reported(
            before.scope,
            upserts(before.chunk_rows() + (before.candidates.rows() + rest), parent, same),
        ) == (match step {
            UpsertStep::Emit(emit) => seq![emit@],
            _ => Seq::empty(),
        }) + (after.ready_changes() + enumerate::reported(
            after.scope,
            upserts(after.chunk_rows() + (after.candidates.rows() + rest), parent, same),
        )),
        step is FillCandidates ==> after.candidates.rows().len() == 0 && after.candidates.is_open(),
        step is FillProbe ==> after.probe.rows().len() == 0 && after.probe.is_open(),
        step is Done ==> after.ready_changes().len() == 0 && after.chunk_rows().len() == 0
            && after.candidates.rows().len() == 0 && !after.candidates.is_open(),
        step matches UpsertStep::Probe(ids) ==> ids@.len() == after.chunk_rows().len() && (forall|
            i: int,
        |
            0 <= i < ids@.len() ==> (#[trigger] ids@[i])@ == after.chunk_rows()[i].id),
        step matches UpsertStep::Payloads(columns) ==> after.chunk_rows().len() > 0
            && after.image_map().contains_key(after.chunk_rows()[0].id) && (row_compare::comparison(
            after.image_map()[after.chunk_rows()[0].id],
            after.chunk_rows()[0],
        ) matches Comparison::Payloads { columns: wanted } && columns@.len() == wanted.len() && (
        forall|i: int| 0 <= i < wanted.len() ==> (#[trigger] columns@[i])@ == wanted[i])),
{
    assert(before.may_deliver(rest, probe_rest));
    assert(before.answered(probe_rest, parent));
    let owed = before.remaining(rest, parent, same);
    let left = after.remaining(rest, parent, same);
    assert(Seq::<ChangeView>::empty() + left =~= left);
    match step {
        UpsertStep::Probe(ids) => {
            assert(owed == left);
            let texts = row_compare::text_views(ids@);
            assert(texts.len() == ids@.len());
            assert(forall|i: int| 0 <= i < texts.len() ==> (#[trigger] ids@[i])@ == texts[i]);
        },
        UpsertStep::Emit(emit) => {
            assert(carries(before, after, seq![emit@], rest, probe_rest, parent, same));
        },
        UpsertStep::Payloads(columns) => {
            assert(carries(before, after, Seq::empty(), rest, probe_rest, parent, same));
            let texts = row_compare::text_views(columns@);
            assert(texts.len() == columns@.len());
            assert(forall|i: int| 0 <= i < texts.len() ==> (#[trigger] columns@[i])@ == texts[i]);
        },
        _ => {
            assert(carries(before, after, Seq::empty(), rest, probe_rest, parent, same));
        },
    }
}

/// An emitter fails only at a candidate whose row the parent's cannot be compared
/// with, and names the column that is missing; it then drops that chunk and keeps
/// everything else.
pub proof fn an_emitter_fails_only_for_a_missing_column(
    before: CandidateUpserts,
    after: CandidateUpserts,
    error: OmniError,
)
    requires
        upserts_stepped(before, after, Err(error)),
    ensures
        error matches OmniError::Manifest(manifest) && manifest.kind
            == error::ManifestErrorKind::Internal && exists|column: Seq<char>|
            manifest.message@ == #[trigger] row_compare::missing_column_text(column),
        after.phase == Phase::Collecting,
        after.chunk_rows().len() == 0,
        after.candidates == before.candidates,
{
    let middle = choose|middle: CandidateUpserts| #[trigger]
        continues(before, middle, Seq::empty()) && stuck(middle, error) && without_chunk(
            middle,
            after,
        );
    assert(stuck(middle, error));
}

/// The payloads of a candidate decide it: the candidate leaves the chunk, and an
/// update is found exactly where the payloads differ.
pub proof fn payloads_decide_a_candidate(
    before: CandidateUpserts,
    after: CandidateUpserts,
    payloads_agree: bool,
)
    requires
        upserts_answered(before, after, payloads_agree),
        before.chunk_rows().len() > 0,
    ensures
        after.chunk_rows() == before.chunk_rows().skip(1),
        after.candidates == before.candidates,
        after.phase == before.phase,
        payloads_agree || !before.scope.selects(ChangeOpKind::Update) ==> after.ready_changes()
            == before.ready_changes(),
        !payloads_agree && before.scope.selects(ChangeOpKind::Update) ==> after.ready_changes()
            == before.ready_changes().push(
            ChangeView::Update {
                before: before.image_map()[before.chunk_rows()[0].id],
                after: before.chunk_rows()[0],
            },
        ),
{
    let candidate = before.chunk_rows()[0];
    let change = ChangeView::Update {
        before: before.image_map()[candidate.id],
        after: candidate,
    };
    assert(before.chunk_rows().drop_first() =~= before.chunk_rows().skip(1));
    enumerate::one_change_is_reported_if_selected(before.scope, change);
    assert(before.ready_changes() + Seq::empty() =~= before.ready_changes());
    assert(before.ready_changes() + seq![change] =~= before.ready_changes().push(change));
}

/// A step of the pruned emitter gets on. More candidates are read, or looked up,
/// only once every change found has been given and the chunk of an earlier probe
/// has been compared, so that a probe never asks for a candidate again; a probe
/// is read on only while it is open, and payloads are asked for, and changes
/// given, only once it has ended.
pub proof fn an_upsert_step_gets_on(
    before: CandidateUpserts,
    after: CandidateUpserts,
    step: UpsertStep,
)
    requires
        upserts_stepped(before, after, Ok(step)),
    ensures
        step is FillCandidates || step is Probe || step is Done ==> after.ready_changes().len() == 0
            && after.chunk_rows() + after.candidates.rows() == (if before.phase
            == Phase::Collecting {
            before.chunk_rows() + before.candidates.rows()
        } else {
            before.candidates.rows()
        }),
        step is FillCandidates ==> after.phase == Phase::Collecting && after.chunk_rows().len()
            < 8192,
        step is Probe ==> after.phase == Phase::Probing && after.chunk_rows().len() > 0
            && after.probe.is_open() && after.probe.rows().len() == 0 && after.image_map().dom()
            == Set::<Seq<char>>::empty(),
        step is Probe && before.chunk_rows().len() <= 8192 ==> after.chunk_rows().len() == 8192 || (
        after.chunk_rows().len() < 8192 && after.candidates.rows().len() == 0
            && !after.candidates.is_open()),
        step is FillProbe ==> before.phase == Phase::Probing && before.probe.is_open()
            && after.phase == Phase::Probing && after.chunk_rows() == before.chunk_rows()
            && after.candidates == before.candidates && after.ready_changes()
            == before.ready_changes(),
        step is Payloads ==> after.phase == Phase::Comparing && after.candidates
            == before.candidates,
        step is Emit ==> after.phase == Phase::Collecting && after.candidates == before.candidates,
        !(step is FillProbe) ==> before.phase != Phase::Probing || !before.probe.is_open(),
        before.chunk_rows().len() <= 8192 ==> after.chunk_rows().len() <= 8192,
{
    match step {
        UpsertStep::Probe(ids) => {
            assert(row_compare::text_views(ids@).len() == ids@.len());
            assert(after.image_map().dom() =~= Set::<Seq<char>>::empty());
        },
        _ => {},
    }
}

/// Dropping the chunk at hand loses its candidates and nothing else: the changes
/// already found stay to be given, and the candidates behind it to be read.
pub proof fn dropping_a_chunk_keeps_all_else(before: CandidateUpserts, after: CandidateUpserts)
    requires
        without_chunk(before, after),
    ensures
        after.phase == Phase::Collecting,
        after.chunk_rows().len() == 0,
        after.ready_changes() == before.ready_changes(),
        after.candidates == before.candidates,
        after.scope == before.scope,
{
}

} // verus!
