//! Ordered scans: what is asked of the storage layer, and the rows that come
//! back.

use std::collections::VecDeque;

use datafusion::logical_expr::Expr;
use lance_core::datatypes::Schema;
use vstd::prelude::*;

use crate::changes::batch::Batch;
use crate::changes::filter::{self, ID_COLUMN, both_of, id_after};
use crate::changes::prepare::{self, BlobDecoding, prepare_batch};
use crate::changes::row_compare::{self, RawRow, RowView};
use crate::changes::table::{Fragment, TableSnapshot};
use crate::error::{self, LanceError, OmniError};
use crate::text;

verus! {

/// The row estimate of a scan batch. The storage layer treats it as a target.
pub const CHANGE_SCAN_TARGET_ROWS: usize = 8_192;

/// An ordered scan of one table version.
#[derive(Debug)]
pub struct ScanPlan {
    /// The column that orders the rows, ascending, nulls last.
    pub order_by: &'static str,
    /// The fragments to read; all of them without a selection.
    pub fragments: Option<Vec<Fragment>>,
    /// The rows to keep; all of them without a filter.
    pub filter: Option<Expr>,
    pub batch_rows: usize,
    pub batch_bytes: u64,
    /// Whether Blob columns come as descriptors, without payloads.
    pub blob_descriptions: bool,
    pub with_row_id: bool,
    pub with_row_address: bool,
}

/// Whether a scan keeps a row with a given id and version of its last update.
pub open spec fn plan_keeps(plan: ScanPlan, id: Seq<char>, updated: u64) -> bool {
    filter::kept_by(plan.filter, id, updated)
}

/// Whether a row comes after the one where an earlier scan stopped.
pub open spec fn resumes_at(after_id: Option<&str>, id: Seq<char>) -> bool {
    match after_id {
        Some(after) => text::text_less(after@, id),
        None => true,
    }
}

/// What every ordered scan has in common.
pub open spec fn is_change_scan(plan: ScanPlan, batch_bytes: u64) -> bool {
    &&& plan.order_by@ == ID_COLUMN@
    &&& plan.batch_rows == CHANGE_SCAN_TARGET_ROWS
    &&& plan.batch_bytes == batch_bytes
    &&& plan.blob_descriptions
    &&& plan.with_row_id
    &&& plan.with_row_address
}

/// The rows of one table version in `id` order, filled one batch at a time.
#[derive(Debug)]
pub struct OrderedRows {
    pending: VecDeque<RawRow>,
    open: bool,
}

impl OrderedRows {
    /// The rows that are there to be taken.
    pub closed spec fn rows(self) -> Seq<RowView> {
        row_compare::row_views(self.pending@)
    }

    /// Whether the scan may still deliver batches.
    pub closed spec fn is_open(self) -> bool {
        self.open
    }

    /// Whether a batch must be fetched before the next row is known.
    pub open spec fn wants_batch(self) -> bool {
        self.rows().len() == 0 && self.is_open()
    }

    /// A scan that has delivered nothing yet.
    pub fn new() -> (r: Self)
        ensures
            r.rows().len() == 0,
            r.is_open(),
    {
        OrderedRows { pending: VecDeque::new(), open: true }
    }

    /// Plans a scan of the rows after `after_id`.
    pub fn open(after_id: Option<&str>, batch_bytes: u64) -> (r: ScanPlan)
        ensures
            is_change_scan(r, batch_bytes),
            r.fragments is None,
            r.filter is None <==> after_id is None,
            forall|id: Seq<char>, updated: u64| #[trigger]
                plan_keeps(r, id, updated) <==> resumes_at(after_id, id),
    {
        let plan = OrderedRows::open_filtered(after_id, None, batch_bytes);
        proof {
            assert forall|id: Seq<char>, updated: u64| #[trigger]
                plan_keeps(plan, id, updated) <==> resumes_at(after_id, id) by {
                assert(filter::kept_by(None, id, updated));
            }
        }
        plan
    }

    /// Plans a scan of the rows after `after_id` that also pass a filter.
    pub fn open_filtered(after_id: Option<&str>, extra_filter: Option<Expr>, batch_bytes: u64) -> (r:
        ScanPlan)
        ensures
            is_change_scan(r, batch_bytes),
            r.fragments is None,
            r.filter is None <==> after_id is None && extra_filter is None,
            forall|id: Seq<char>, updated: u64| #[trigger]
                plan_keeps(r, id, updated) <==> resumes_at(after_id, id)
                    && filter::kept_by(extra_filter, id, updated),
    {
        OrderedRows::open_scan(after_id, extra_filter, None, batch_bytes)
    }

    /// Plans a scan. `fragments` scopes it to exactly those fragments.
    pub fn open_scan(
        after_id: Option<&str>,
        extra_filter: Option<Expr>,
        fragments: Option<Vec<Fragment>>,
        batch_bytes: u64,
    ) -> (r: ScanPlan)
        ensures
            is_change_scan(r, batch_bytes),
            r.fragments == fragments,
            r.filter is None <==> after_id is None && extra_filter is None,
            forall|id: Seq<char>, updated: u64| #[trigger]
                plan_keeps(r, id, updated) <==> resumes_at(after_id, id)
                    && filter::kept_by(extra_filter, id, updated),
    {
        let resume: Option<Expr> = match after_id {
            Some(after) => Some(id_after(ID_COLUMN, after)),
            None => None,
        };
        proof {
            assert forall|id: Seq<char>, updated: u64| #[trigger]
                filter::kept_by(resume, id, updated) <==> resumes_at(after_id, id) by {
                match resume {
                    Some(filter) => {
                        assert(filter::tests_of(filter)[0].passes(id, updated)
                            <==> resumes_at(after_id, id));
                    },
                    None => {},
                }
            }
        }
        ScanPlan {
            order_by: ID_COLUMN,
            fragments,
            filter: both_of(resume, extra_filter),
            batch_rows: CHANGE_SCAN_TARGET_ROWS,
            batch_bytes,
            blob_descriptions: true,
            with_row_id: true,
            with_row_address: true,
        }
    }

    pub fn needs_batch(&self) -> (r: bool)
        ensures
            r == self.wants_batch(),
    {
        self.pending.len() == 0 && self.open
    }

    /// Takes the next batch of the scan. A batch that cannot be prepared leaves
    /// everything as it was.
    pub fn on_batch(
        &mut self,
        snapshot: &TableSnapshot,
        schema: &Schema,
        batch: &Batch,
        decodings: &Vec<BlobDecoding>,
    ) -> (r: Result<(), OmniError>)
        requires
            old(self).wants_batch(),
            prepare::decodings_fit(
                *batch,
                prepare::decoding_views(decodings@),
            ),
        ensures
            final(self).is_open(),
            match (
                r,
                prepare::prepared(
                    snapshot.fragments@,
                    *schema,
                    *batch,
                    prepare::decoding_views(decodings@),
                ),
            ) {
                (Ok(_), Ok(rows)) => final(self).rows() == rows,
                (Err(error), Err(fault)) => prepare::reports(fault, error)
                    && final(self).rows() == old(self).rows(),
                _ => false,
            },
    {
        match prepare_batch(snapshot, schema, batch, decodings) {
            Ok(rows) => {
                self.pending = rows;
                Ok(())
            },
            Err(error) => Err(error),
        }
    }

    /// Takes the end of the scan.
    pub fn on_end(&mut self)
        requires
            old(self).wants_batch(),
        ensures
            final(self).rows() == old(self).rows(),
            !final(self).is_open(),
    {
        self.open = false;
    }

    /// Reports a failure of the scan. The scan stays as it is.
    pub fn on_error(&self, error: LanceError) -> (r: OmniError)
        ensures
            error::is_storage(
                r,
                error::lance_failure_kind(error),
                "storage: "@ + error.message@,
            ),
    {
        OmniError::storage(error)
    }

    /// The next row, if there is one.
    pub fn peek(&self) -> (r: Option<&RawRow>)
        requires
            !self.wants_batch(),
        ensures
            match r {
                Some(row) => self.rows().len() > 0 && row@ == self.rows()[0],
                None => self.rows().len() == 0,
            },
    {
        if self.pending.len() == 0 {
            None
        } else {
            Some(&self.pending[0])
        }
    }

    /// Takes the next row, if there is one.
    pub fn pop(&mut self) -> (r: Option<RawRow>)
        requires
            !old(self).wants_batch(),
        ensures
            final(self).is_open() == old(self).is_open(),
            match r {
                Some(row) => old(self).rows().len() > 0 && row@ == old(self).rows()[0]
                    && final(self).rows() == old(self).rows().drop_first(),
                None => old(self).rows().len() == 0 && final(self).rows() == old(self).rows(),
            },
    {
        let ghost before = self.pending@;
        let row = self.pending.pop_front();
        proof {
            if before.len() > 0 {
                assert(row_compare::row_views(self.pending@)
                    =~= row_compare::row_views(before).drop_first());
            }
        }
        row
    }
}

/// A scan for changes is ordered by the id, in batches of about 8192 rows and of
/// the bytes asked for, with descriptors in place of Blobs, and with the row's id
/// and address.
pub proof fn a_change_scan_reads_rows_in_id_order(plan: ScanPlan, batch_bytes: u64)
    ensures
        is_change_scan(plan, batch_bytes) <==> plan.order_by@ == "id"@ && plan.batch_rows == 8192
            && plan.batch_bytes == batch_bytes && plan.blob_descriptions && plan.with_row_id
            && plan.with_row_address,
{
    filter::filters_read_these_columns();
}

/// A scan that resumes after an id reads the rows whose id comes after it; one
/// from the start reads them all. What a scan reads is what its filter keeps.
pub proof fn a_scan_resumes_after_the_id(
    plan: ScanPlan,
    after_id: Option<&str>,
    id: Seq<char>,
    updated: u64,
)
    ensures
        after_id is None ==> resumes_at(after_id, id),
        after_id matches Some(after) ==> (resumes_at(after_id, id) <==> text::text_less(after@, id)),
        plan_keeps(plan, id, updated) <==> filter::kept_by(plan.filter, id, updated),
{
}

/// A batch is needed exactly where no row is at hand and more may come.
pub proof fn a_batch_is_needed_where_no_row_is_left(scan: OrderedRows)
    ensures
        scan.wants_batch() <==> scan.rows().len() == 0 && scan.is_open(),
{
}

} // verus!
