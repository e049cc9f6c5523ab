//! Typed logical row equality, shared by every change surface.
//!
//! Columns that are no Blob compare by Arrow's logical equality on one-row
//! slices: typed and validity-aware, so that null, the empty text and the empty
//! list stay distinct. Blob columns compare by physical identity, and by their
//! payload only where two managed identities differ, so that moving bytes to
//! another file is no change. Only the five reserved storage columns are
//! skipped.

use vstd::prelude::*;

use crate::changes::batch::{
    self, Batch, BatchView, column_count, column_name, column_position, number_at, same_cell,
};
use crate::changes::blob::{BlobIdentity, IdentityView};
use crate::changes::model::{self, is_reserved_storage_system_column};
use crate::changes::table::unclassified_storage;
use crate::error::{self, OmniError};
use crate::storage::StorageFailureKind;
use crate::text::{self, joined, same_text, same_text_option};

verus! {

/// One Blob column's signature in a row.
#[derive(Debug)]
pub struct BlobColumnSig {
    pub name: String,
    pub identity: BlobIdentity,
}

impl View for BlobColumnSig {
    type V = (Seq<char>, IdentityView);

    open spec fn view(&self) -> (Seq<char>, IdentityView) {
        (self.name@, self.identity@)
    }
}

/// One scanned row prepared for comparison: a one-row slice and the physical
/// identities of its Blob columns. No payload is read to make one.
#[derive(Debug)]
pub struct RawRow {
    id: String,
    slice: Batch,
    blob_signatures: Vec<BlobColumnSig>,
}

/// A row over plain values: its id, every column's cell in schema order, the
/// Blob identities in name order, the storage row id where the scan carries it,
/// and the row as a batch of its own.
pub struct RowView {
    pub id: Seq<char>,
    pub cells: Seq<(Seq<char>, int)>,
    pub blobs: Seq<(Seq<char>, IdentityView)>,
    pub row_id: Option<u64>,
    pub slice: BatchView,
}

/// The row at `row` of a batch, with its Blob identities.
pub open spec fn row_at(batch: Batch, row: int, blobs: Seq<(Seq<char>, IdentityView)>) -> RowView {
    RowView {
        id: batch::batch_texts(batch)["id"@][row],
        cells: batch::batch_columns(batch).map_values(
            |column: (Seq<char>, Seq<int>)| (column.0, column.1[row]),
        ),
        blobs,
        row_id: if batch::batch_numbers(batch).contains_key("_rowid"@) {
            Some(batch::batch_numbers(batch)["_rowid"@][row])
        } else {
            None
        },
        slice: batch::one_row(batch::batch_view(batch), row),
    }
}

/// Signatures over plain values.
pub open spec fn signature_views(signatures: Seq<BlobColumnSig>) -> Seq<(Seq<char>, IdentityView)> {
    signatures.map_values(|signature: BlobColumnSig| signature@)
}

impl View for RawRow {
    type V = RowView;

    closed spec fn view(&self) -> RowView {
        RowView { id: self.id@, ..row_at(self.slice, 0, signature_views(self.blob_signatures@)) }
    }
}

impl RawRow {
    #[verifier::type_invariant]
    spec fn inv(self) -> bool {
        batch::batch_rows(self.slice) == 1
    }

    /// The batch that holds the row alone.
    pub closed spec fn batch(self) -> Batch {
        self.slice
    }
}

/// Rows over plain values.
pub open spec fn row_views(rows: Seq<RawRow>) -> Seq<RowView> {
    rows.map_values(|row: RawRow| row@)
}

impl RawRow {
    /// A row of its own: an id, a one-row slice, and the signatures of the Blob
    /// columns.
    pub(crate) fn new(id: String, slice: Batch, blob_signatures: Vec<BlobColumnSig>) -> (r: Self)
        requires
            batch::batch_rows(slice) == 1,
        ensures
            r@ == (RowView { id: id@, ..row_at(slice, 0, signature_views(blob_signatures@)) }),
            r.batch() == slice,
    {
        RawRow { id, slice, blob_signatures }
    }

    pub fn id(&self) -> (r: &str)
        ensures
            r@ == self@.id,
    {
        self.id.as_str()
    }

    /// The row as a batch of its own, reserved columns included.
    pub fn slice(&self) -> (r: &Batch)
        ensures
            *r == self.batch(),
            batch::batch_rows(*r) == 1,
            batch::one_row(batch::batch_view(*r), 0) == self@.slice,
            batch::batch_columns(*r).map_values(
                |column: (Seq<char>, Seq<int>)| (column.0, column.1[0]),
            ) == self@.cells,
    {
        proof {
            use_type_invariant(self);
        }
        &self.slice
    }

    /// The storage row id, by which a payload is fetched.
    pub fn row_id(&self) -> (r: Result<u64, OmniError>)
        ensures
            match r {
                Ok(id) => self@.row_id == Some(id),
                Err(error) => self@.row_id is None && error::is_storage(
                    error,
                    StorageFailureKind::Unknown,
                    "storage: "@ + "change row is missing _rowid"@,
                ),
            },
    {
        proof {
            use_type_invariant(self);
        }
        match number_at(&self.slice, "_rowid", 0) {
            Some(id) => Ok(id),
            None => Err(unclassified_storage(String::from_str("change row is missing _rowid"))),
        }
    }
}

impl Clone for RawRow {
    fn clone(&self) -> (r: Self)
        ensures
            r@ == self@,
            r.batch() == self.batch(),
    {
        proof {
            use_type_invariant(self);
        }
        let mut signatures: Vec<BlobColumnSig> = Vec::new();
        let mut i: usize = 0;
        proof {
            assert(signature_views(signatures@) =~= signature_views(self.blob_signatures@).take(0));
        }
        while i < self.blob_signatures.len()
            invariant
                i <= self.blob_signatures.len(),
                signature_views(signatures@) == signature_views(self.blob_signatures@).take(
                    i as int,
                ),
            decreases self.blob_signatures.len() - i,
        {
            let signature = &self.blob_signatures[i];
            let ghost before = signatures@;
            signatures.push(
                BlobColumnSig {
                    name: signature.name.clone(),
                    identity: signature.identity.duplicate(),
                },
            );
            proof {
                let all = signature_views(self.blob_signatures@);
                assert(signature_views(signatures@) =~= signature_views(before).push(
                    signatures@.last()@,
                ));
                assert(all.take(i + 1) =~= all.take(i as int).push(all[i as int]));
            }
            i = i + 1;
        }
        proof {
            let all = signature_views(self.blob_signatures@);
            assert(all.take(i as int) =~= all);
        }
        RawRow { id: self.id.clone(), slice: self.slice.clone(), blob_signatures: signatures }
    }
}

// ---------------------------------------------------------------------------
// Comparing two rows
// ---------------------------------------------------------------------------

/// What two rows tell about each other before any payload is read.
pub enum Comparison {
    Equal,
    Different,
    /// The right row lacks a column that the schema promises.
    Missing { column: Seq<char> },
    /// Only the payloads of these managed Blob columns can tell.
    Payloads { columns: Seq<Seq<char>> },
}

/// Whether `name` is the name of a Blob column of the row.
pub open spec fn is_blob_name(row: RowView, name: Seq<char>) -> bool {
    exists|i: int| 0 <= i < row.blobs.len() && (#[trigger] row.blobs[i]).0 == name
}

/// The first cell of a given name.
pub open spec fn cell_named(cells: Seq<(Seq<char>, int)>, name: Seq<char>) -> Option<int>
    decreases cells.len(),
{
    if cells.len() == 0 {
        None
    } else if cells[0].0 == name {
        Some(cells[0].1)
    } else {
        cell_named(cells.drop_first(), name)
    }
}

/// Whether a column is compared by its cell.
pub open spec fn compared_by_cell(row: RowView, name: Seq<char>) -> bool {
    !model::reserved_column(name) && !is_blob_name(row, name)
}

/// What the first `count` cells of the left row settle, if anything.
pub open spec fn settled_by_cells(left: RowView, right: RowView, count: nat) -> Option<Comparison>
    decreases count,
{
    if count == 0 {
        None
    } else {
        match settled_by_cells(left, right, (count - 1) as nat) {
            Some(outcome) => Some(outcome),
            None => {
                let cell = left.cells[count - 1];
                if !compared_by_cell(left, cell.0) {
                    None
                } else {
                    match cell_named(right.cells, cell.0) {
                        None => Some(Comparison::Missing { column: cell.0 }),
                        Some(other) => if other == cell.1 {
                            None
                        } else {
                            Some(Comparison::Different)
                        },
                    }
                }
            },
        }
    }
}

/// Whether two rows have the same Blob columns.
pub open spec fn same_blob_columns(left: RowView, right: RowView) -> bool {
    &&& left.blobs.len() == right.blobs.len()
    &&& forall|i: int|
        0 <= i < left.blobs.len() ==> (#[trigger] left.blobs[i]).0 == right.blobs[i].0
}

/// Whether a difference between two identities is decisive: at least one of
/// them says its whole logical value.
pub open spec fn decisive(left: IdentityView, right: IdentityView) -> bool {
    left != right && !(left is Managed && right is Managed)
}

/// The managed columns among the first `count` whose identities differ.
pub open spec fn payload_columns(left: RowView, right: RowView, count: nat) -> Seq<Seq<char>>
    decreases count,
{
    if count == 0 {
        Seq::empty()
    } else {
        let before = payload_columns(left, right, (count - 1) as nat);
        let (name, identity) = left.blobs[count - 1];
        if identity is Managed && right.blobs[count - 1].1 is Managed && identity
            != right.blobs[count - 1].1 && !before.contains(name) {
            before.push(name)
        } else {
            before
        }
    }
}

/// How two rows compare.
pub open spec fn comparison(left: RowView, right: RowView) -> Comparison {
    match settled_by_cells(left, right, left.cells.len()) {
        Some(outcome) => outcome,
        None => if !same_blob_columns(left, right) {
            Comparison::Different
        } else if exists|i: int|
            0 <= i < left.blobs.len() && decisive((#[trigger] left.blobs[i]).1, right.blobs[i].1) {
            Comparison::Different
        } else if payload_columns(left, right, left.blobs.len()).len() == 0 {
            Comparison::Equal
        } else {
            Comparison::Payloads { columns: payload_columns(left, right, left.blobs.len()) }
        },
    }
}

/// The outcome of [`compare_rows`].
#[derive(Debug)]
pub enum RowComparison {
    Equal,
    Different,
    /// The payloads of these columns must be read on both sides.
    Payloads(Vec<String>),
}

/// Texts over plain values.
pub open spec fn text_views(texts: Seq<String>) -> Seq<Seq<char>> {
    texts.map_values(|text: String| text@)
}

/// The text for a column that the schema promises and the row lacks.
pub open spec fn missing_column_text(column: Seq<char>) -> Seq<char> {
    "schema-gated change row is missing column '"@ + column + "'"@
}

/// Whether `result` is what a comparison gives.
pub open spec fn compares_to(
    result: Result<RowComparison, OmniError>,
    expected: Comparison,
) -> bool {
    match (result, expected) {
        (Ok(RowComparison::Equal), Comparison::Equal) => true,
        (Ok(RowComparison::Different), Comparison::Different) => true,
        (Ok(RowComparison::Payloads(names)), Comparison::Payloads { columns }) => text_views(names@)
            == columns,
        (Err(error), Comparison::Missing { column }) => error::is_plain_manifest(
            error,
            error::ManifestErrorKind::Internal,
            missing_column_text(column),
        ),
        _ => false,
    }
}

fn contains_text(texts: &Vec<String>, text: &str) -> (r: bool)
    ensures
        r == text_views(texts@).contains(text@),
{
    let ghost views = text_views(texts@);
    let mut i: usize = 0;
    while i < texts.len()
        invariant
            i <= texts.len(),
            views == text_views(texts@),
            forall|k: int| 0 <= k < i ==> views[k] != text@,
        decreases texts.len() - i,
    {
        if same_text(texts[i].as_str(), text) {
            assert(views[i as int] == text@);
            return true;
        }
        i = i + 1;
    }
    false
}

fn has_signature(signatures: &Vec<BlobColumnSig>, name: &str) -> (r: bool)
    ensures
        r == (exists|i: int|
            0 <= i < signature_views(signatures@).len() && (#[trigger] signature_views(
                signatures@,
            )[i]).0 == name@),
{
    let ghost views = signature_views(signatures@);
    let mut i: usize = 0;
    while i < signatures.len()
        invariant
            i <= signatures.len(),
            views == signature_views(signatures@),
            forall|k: int| 0 <= k < i ==> (#[trigger] views[k]).0 != name@,
        decreases signatures.len() - i,
    {
        if same_text(signatures[i].name.as_str(), name) {
            assert(views[i as int].0 == name@);
            return true;
        }
        i = i + 1;
    }
    false
}

proof fn lemma_cell_named(cells: Seq<(Seq<char>, int)>, name: Seq<char>, at: int)
    requires
        0 <= at <= cells.len(),
        forall|k: int| 0 <= k < at ==> (#[trigger] cells[k]).0 != name,
    ensures
        at == cells.len() ==> cell_named(cells, name) is None,
        at < cells.len() && cells[at].0 == name ==> cell_named(cells, name) == Some(cells[at].1),
    decreases cells.len(),
{
    if cells.len() > 0 && at > 0 {
        assert(cells[0].0 != name);
        assert forall|k: int| 0 <= k < at - 1 implies (#[trigger] cells.drop_first()[k]).0
            != name by {
            assert(cells.drop_first()[k] == cells[k + 1]);
        }
        lemma_cell_named(cells.drop_first(), name, at - 1);
    }
}

fn compare_cells(left: &RawRow, right: &RawRow) -> (r: Result<bool, OmniError>)
    ensures
        match settled_by_cells(left@, right@, left@.cells.len()) {
            None => r == Ok::<bool, OmniError>(true),
            Some(outcome) => match outcome {
                Comparison::Different => r == Ok::<bool, OmniError>(false),
                Comparison::Missing { column } => r matches Err(error)
                    && error::is_plain_manifest(
                    error,
                    error::ManifestErrorKind::Internal,
                    missing_column_text(column),
                ),
                _ => false,
            },
        },
{
    proof {
        use_type_invariant(left);
        use_type_invariant(right);
    }
    let total: usize = column_count(&left.slice);
    let mut i: usize = 0;
    while i < total
        invariant
            i <= total,
            total == batch::batch_columns(left.slice).len(),
            batch::batch_rows(left.slice) == 1,
            batch::batch_rows(right.slice) == 1,
            settled_by_cells(left@, right@, i as nat) is None,
        decreases total - i,
    {
        proof {
            lemma_settled_stays(left@, right@, (i + 1) as nat, total as nat);
            assert(left@.cells.len() == total);
            assert(left@.blobs == signature_views(left.blob_signatures@));
            assert(left@.cells[i as int] == (
                batch::batch_columns(left.slice)[i as int].0,
                batch::batch_columns(left.slice)[i as int].1[0],
            ));
        }
        let name: &str = column_name(&left.slice, i);
        if !is_reserved_storage_system_column(name) && !has_signature(&left.blob_signatures, name) {
            match column_position(&right.slice, name) {
                None => {
                    proof {
                        assert forall|k: int| 0 <= k < right@.cells.len() implies (
                        #[trigger] right@.cells[k]).0 != name@ by {
                            assert(right@.cells[k].0 == batch::batch_columns(right.slice)[k].0);
                        }
                        lemma_cell_named(right@.cells, name@, right@.cells.len() as int);
                    }
                    let mut message = joined("schema-gated change row is missing column '", name);
                    message.append("'");
                    return Err(OmniError::manifest_internal(message));
                },
                Some(position) => {
                    proof {
                        assert forall|k: int| 0 <= k < position implies (
                        #[trigger] right@.cells[k]).0 != name@ by {
                            assert(right@.cells[k].0 == batch::batch_columns(right.slice)[k].0);
                        }
                        assert(right@.cells[position as int] == (
                            batch::batch_columns(right.slice)[position as int].0,
                            batch::batch_columns(right.slice)[position as int].1[0],
                        ));
                        lemma_cell_named(right@.cells, name@, position as int);
                    }
                    if !same_cell(&left.slice, i, &right.slice, position) {
                        return Ok(false);
                    }
                },
            }
        }
        i = i + 1;
    }
    Ok(true)
}

proof fn lemma_settled_stays(left: RowView, right: RowView, some: nat, all: nat)
    requires
        some <= all,
    ensures
        settled_by_cells(left, right, some) is Some ==> settled_by_cells(left, right, all)
            == settled_by_cells(left, right, some),
    decreases all - some,
{
    if some < all {
        lemma_settled_stays(left, right, some, (all - 1) as nat);
    }
}

/// Compares two rows of one user schema as far as that goes without reading a
/// payload.
pub fn compare_rows(left: &RawRow, right: &RawRow) -> (r: Result<RowComparison, OmniError>)
    ensures
        compares_to(r, comparison(left@, right@)),
{
    match compare_cells(left, right) {
        Ok(true) => {},
        Ok(false) => {
            return Ok(RowComparison::Different);
        },
        Err(error) => {
            return Err(error);
        },
    }
    let total: usize = left.blob_signatures.len();
    if total != right.blob_signatures.len() {
        return Ok(RowComparison::Different);
    }
    let mut i: usize = 0;
    while i < total
        invariant
            i <= total,
            total == left.blob_signatures@.len(),
            total == right.blob_signatures@.len(),
            settled_by_cells(left@, right@, left@.cells.len()) is None,
            forall|k: int| 0 <= k < i ==> (#[trigger] left@.blobs[k]).0 == right@.blobs[k].0,
        decreases total - i,
    {
        assert(left@.blobs[i as int] == left.blob_signatures@[i as int]@);
        assert(right@.blobs[i as int] == right.blob_signatures@[i as int]@);
        if !same_text(left.blob_signatures[i].name.as_str(), right.blob_signatures[i].name.as_str()) {
            return Ok(RowComparison::Different);
        }
        i = i + 1;
    }
    let mut columns: Vec<String> = Vec::new();
    let mut i: usize = 0;
    proof {
        assert(text_views(columns@) =~= Seq::empty());
    }
    while i < total
        invariant
            i <= total,
            total == left.blob_signatures@.len(),
            total == right.blob_signatures@.len(),
            settled_by_cells(left@, right@, left@.cells.len()) is None,
            same_blob_columns(left@, right@),
            forall|k: int|
                0 <= k < i ==> !decisive((#[trigger] left@.blobs[k]).1, right@.blobs[k].1),
            text_views(columns@) == payload_columns(left@, right@, i as nat),
        decreases total - i,
    {
        let l = &left.blob_signatures[i];
        let r = &right.blob_signatures[i];
        assert(left@.blobs[i as int] == l@);
        assert(right@.blobs[i as int] == r@);
        if !l.identity.same_as(&r.identity) {
            if l.identity.is_managed() && r.identity.is_managed() {
                if !contains_text(&columns, l.name.as_str()) {
                    let ghost before = columns@;
                    columns.push(l.name.clone());
                    assert(text_views(columns@) =~= text_views(before).push(l.name@));
                }
            } else {
                assert(decisive(left@.blobs[i as int].1, right@.blobs[i as int].1));
                return Ok(RowComparison::Different);
            }
        }
        i = i + 1;
    }
    if columns.len() == 0 {
        Ok(RowComparison::Equal)
    } else {
        Ok(RowComparison::Payloads(columns))
    }
}

/// The logical Blob values read for the columns of a row, in the order in which
/// the columns were asked for.
pub type BlobValues = Vec<Vec<Option<String>>>;

/// The values over plain values.
pub open spec fn value_views(values: Seq<Vec<Option<String>>>) -> Seq<Seq<Option<Seq<char>>>> {
    values.map_values(
        |column: Vec<Option<String>>|
            column@.map_values(|value: Option<String>| text::text_option(value)),
    )
}

/// Whether the payloads read on both sides are the same.
pub fn same_payloads(left: &BlobValues, right: &BlobValues) -> (r: bool)
    ensures
        r == (value_views(left@) == value_views(right@)),
{
    let ghost a = value_views(left@);
    let ghost b = value_views(right@);
    if left.len() != right.len() {
        assert(a.len() != b.len());
        return false;
    }
    let mut i: usize = 0;
    while i < left.len()
        invariant
            i <= left.len(),
            left.len() == right.len(),
            a == value_views(left@),
            b == value_views(right@),
            forall|k: int| 0 <= k < i ==> a[k] == b[k],
        decreases left.len() - i,
    {
        if !same_values(&left[i], &right[i]) {
            assert(a[i as int] != b[i as int]);
            return false;
        }
        assert(a[i as int] == b[i as int]);
        i = i + 1;
    }
    assert(a =~= b);
    true
}

fn same_values(left: &Vec<Option<String>>, right: &Vec<Option<String>>) -> (r: bool)
    ensures
        r == (left@.map_values(|value: Option<String>| text::text_option(value))
            == right@.map_values(|value: Option<String>| text::text_option(value))),
{
    let ghost a = left@.map_values(|value: Option<String>| text::text_option(value));
    let ghost b = right@.map_values(|value: Option<String>| text::text_option(value));
    if left.len() != right.len() {
        assert(a.len() != b.len());
        return false;
    }
    let mut i: usize = 0;
    while i < left.len()
        invariant
            i <= left.len(),
            left.len() == right.len(),
            a == left@.map_values(|value: Option<String>| text::text_option(value)),
            b == right@.map_values(|value: Option<String>| text::text_option(value)),
            forall|k: int| 0 <= k < i ==> a[k] == b[k],
        decreases left.len() - i,
    {
        if !same_text_option(&left[i], &right[i]) {
            assert(a[i as int] != b[i as int]);
            return false;
        }
        assert(a[i as int] == b[i as int]);
        i = i + 1;
    }
    assert(a =~= b);
    true
}

/// Typed structural row equality. The values are those read on both sides for
/// the columns that [`compare_rows`] asks for; where it asks for none they are
/// not looked at.
pub fn rows_equal(
    left: &RawRow,
    right: &RawRow,
    left_values: &BlobValues,
    right_values: &BlobValues,
) -> (r: Result<bool, OmniError>)
    ensures
        match comparison(left@, right@) {
            Comparison::Equal => r == Ok::<bool, OmniError>(true),
            Comparison::Different => r == Ok::<bool, OmniError>(false),
            Comparison::Payloads { columns: _ } => r == Ok::<bool, OmniError>(
                value_views(left_values@) == value_views(right_values@),
            ),
            Comparison::Missing { column } => r matches Err(error)
                && error::is_plain_manifest(
                error,
                error::ManifestErrorKind::Internal,
                missing_column_text(column),
            ),
        },
{
    match compare_rows(left, right) {
        Ok(RowComparison::Equal) => Ok(true),
        Ok(RowComparison::Different) => Ok(false),
        Ok(RowComparison::Payloads(_)) => Ok(same_payloads(left_values, right_values)),
        Err(error) => Err(error),
    }
}

} // verus!
