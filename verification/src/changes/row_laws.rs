//! What holds of row comparison.

use vstd::prelude::*;

use crate::changes::batch::{self, Batch, BatchView};
use crate::changes::blob::IdentityView;
use crate::changes::model;
use crate::changes::row_compare::{
    self, BlobColumnSig, Comparison, RawRow, RowComparison, RowView,
};
use crate::error::{ManifestErrorKind, OmniError};
use crate::text;

verus! {

/// Whether every column name of a row that is not reserved is used once.
pub open spec fn distinct_columns(row: RowView) -> bool {
    forall|i: int, j: int|
        0 <= i < row.cells.len() && 0 <= j < row.cells.len() && !model::reserved_column(
            (#[trigger] row.cells[i]).0,
        ) && row.cells[i].0 == (#[trigger] row.cells[j]).0 ==> i == j
}

/// Whether two rows have columns of the same names, reserved ones aside.
pub open spec fn same_column_names(a: RowView, b: RowView) -> bool {
    forall|name: Seq<char>|
        !model::reserved_column(name) ==> (#[trigger] row_compare::cell_named(a.cells, name) is Some
            <==> row_compare::cell_named(b.cells, name) is Some)
}

/// Whether every compared cell of `left` has an equal in `right`.
pub open spec fn cells_agree(left: RowView, right: RowView) -> bool {
    forall|i: int|
        0 <= i < left.cells.len() && row_compare::compared_by_cell(left, (#[trigger] left.cells[i]).0)
            ==> row_compare::cell_named(right.cells, left.cells[i].0) == Some(left.cells[i].1)
}

proof fn lemma_settled(left: RowView, right: RowView, count: nat)
    requires
        count <= left.cells.len(),
    ensures
        row_compare::settled_by_cells(left, right, count) is None <==> forall|i: int|
            0 <= i < count && row_compare::compared_by_cell(left, (#[trigger] left.cells[i]).0) ==> row_compare::cell_named(
                right.cells,
                left.cells[i].0,
            ) == Some(left.cells[i].1),
        row_compare::settled_by_cells(left, right, count) matches Some(outcome) ==> outcome
            == Comparison::Different || (outcome matches Comparison::Missing { column }
            && !model::reserved_column(column) && row_compare::cell_named(
            right.cells,
            column,
        ) is None && exists|i: int|
            0 <= i < count && (#[trigger] left.cells[i]).0 == column),
    decreases count,
{
    if count > 0 {
        lemma_settled(left, right, (count - 1) as nat);
        let cell = left.cells[count - 1];
        match row_compare::settled_by_cells(left, right, (count - 1) as nat) {
            Some(_) => {},
            None => {
                assert(left.cells[count - 1].0 == cell.0);
            },
        }
    }
}

proof fn lemma_named_found(cells: Seq<(Seq<char>, int)>, name: Seq<char>)
    ensures
        row_compare::cell_named(cells, name) is None <==> forall|i: int|
            0 <= i < cells.len() ==> (#[trigger] cells[i]).0 != name,
        row_compare::cell_named(cells, name) matches Some(value) ==> exists|i: int|
            0 <= i < cells.len() && #[trigger] cells[i] == (name, value),
    decreases cells.len(),
{
    if cells.len() > 0 {
        let rest = cells.drop_first();
        lemma_named_found(rest, name);
        assert(forall|i: int| 0 <= i < rest.len() ==> rest[i] == #[trigger] cells[i + 1]);
        if cells[0].0 == name {
            assert(cells[0] == (name, cells[0].1));
        } else {
            match row_compare::cell_named(rest, name) {
                Some(value) => {
                    let k = choose|k: int| 0 <= k < rest.len() && #[trigger] rest[k] == (name, value);
                    assert(cells[k + 1] == (name, value));
                },
                None => {
                    assert forall|i: int| 0 <= i < cells.len() implies (#[trigger] cells[i]).0
                        != name by {
                        if i > 0 {
                            assert(rest[i - 1] == cells[i]);
                        }
                    }
                },
            }
        }
    }
}

proof fn lemma_own_cell(row: RowView, i: int)
    requires
        distinct_columns(row),
        0 <= i < row.cells.len(),
        !model::reserved_column(row.cells[i].0),
    ensures
        row_compare::cell_named(row.cells, row.cells[i].0) == Some(row.cells[i].1),
{
    lemma_named_found(row.cells, row.cells[i].0);
    match row_compare::cell_named(row.cells, row.cells[i].0) {
        Some(value) => {
            let k = choose|k: int|
                0 <= k < row.cells.len() && #[trigger] row.cells[k] == (row.cells[i].0, value);
            assert(k == i);
        },
        None => {},
    }
}

proof fn lemma_no_payload_columns(left: RowView, right: RowView, count: nat)
    requires
        count <= left.blobs.len(),
        forall|i: int| 0 <= i < count ==> (#[trigger] left.blobs[i]).1 == right.blobs[i].1,
    ensures
        row_compare::payload_columns(left, right, count).len() == 0,
    decreases count,
{
    if count > 0 {
        assert(left.blobs[count - 1].1 == right.blobs[count - 1].1);
        lemma_no_payload_columns(left, right, (count - 1) as nat);
    }
}

/// A row equals itself, and no payload is read to find out.
pub proof fn a_row_equals_itself(row: RowView)
    requires
        distinct_columns(row),
    ensures
        row_compare::comparison(row, row) == Comparison::Equal,
{
    lemma_settled(row, row, row.cells.len());
    assert forall|i: int|
        0 <= i < row.cells.len() && row_compare::compared_by_cell(
            row,
            (#[trigger] row.cells[i]).0,
        ) implies row_compare::cell_named(row.cells, row.cells[i].0) == Some(row.cells[i].1) by {
        lemma_own_cell(row, i);
    }
    lemma_no_payload_columns(row, row, row.blobs.len());
}

/// Rows that compare as equal, or as equal up to payloads, agree on every
/// column that is neither reserved nor a Blob.
pub proof fn equal_rows_agree_on_every_cell(left: RowView, right: RowView)
    requires
        row_compare::comparison(left, right) is Equal || row_compare::comparison(left, right) is Payloads,
    ensures
        cells_agree(left, right),
        row_compare::same_blob_columns(left, right),
{
    lemma_settled(left, right, left.cells.len());
}

/// A row that differs in a column that is neither reserved nor a Blob never
/// passes as unchanged, whatever the column is called.
pub proof fn a_changed_cell_is_a_change(left: RowView, right: RowView, at: int)
    requires
        0 <= at < left.cells.len(),
        row_compare::compared_by_cell(left, left.cells[at].0),
        row_compare::cell_named(right.cells, left.cells[at].0) is Some,
        row_compare::cell_named(right.cells, left.cells[at].0) != Some(left.cells[at].1),
    ensures
        row_compare::comparison(left, right) is Different || row_compare::comparison(left, right) is Missing,
{
    lemma_settled(left, right, left.cells.len());
}

/// Moving managed bytes to another place is no change by itself: as long as
/// every cell agrees and every differing Blob is managed on both sides, the
/// payloads decide.
pub proof fn moved_bytes_are_no_change(left: RowView, right: RowView)
    requires
        cells_agree(left, right),
        row_compare::same_blob_columns(left, right),
        forall|i: int|
            0 <= i < left.blobs.len() ==> (#[trigger] left.blobs[i]).1 == right.blobs[i].1 || (
            left.blobs[i].1 is Managed && right.blobs[i].1 is Managed),
    ensures
        row_compare::comparison(left, right) is Equal || row_compare::comparison(left, right) is Payloads,
{
    lemma_settled(left, right, left.cells.len());
}

/// A payload is asked for only where two managed identities differ.
pub proof fn payloads_are_read_only_on_a_difference(left: RowView, right: RowView, name: Seq<char>)
    requires
        row_compare::comparison(left, right) matches Comparison::Payloads { columns } && columns.contains(name),
    ensures
        exists|i: int|
            0 <= i < left.blobs.len() && (#[trigger] left.blobs[i]).0 == name
                && left.blobs[i].1 is Managed && right.blobs[i].1 is Managed && left.blobs[i].1
                != right.blobs[i].1,
{
    lemma_settled(left, right, left.cells.len());
    lemma_payload_column(left, right, left.blobs.len(), name);
}

proof fn lemma_payload_column(left: RowView, right: RowView, count: nat, name: Seq<char>)
    requires
        count <= left.blobs.len(),
    ensures
        row_compare::payload_columns(left, right, count).contains(name) <==> exists|i: int|
            0 <= i < count && (#[trigger] left.blobs[i]).0 == name && left.blobs[i].1 is Managed
                && right.blobs[i].1 is Managed && left.blobs[i].1 != right.blobs[i].1,
    decreases count,
{
    let all = row_compare::payload_columns(left, right, count);
    if count > 0 {
        let before = row_compare::payload_columns(left, right, (count - 1) as nat);
        lemma_payload_column(left, right, (count - 1) as nat, name);
        let last = left.blobs[count - 1];
        if all.contains(name) && !before.contains(name) {
            assert(all =~= before.push(last.0));
            assert(left.blobs[count - 1].0 == name);
        }
        if before.contains(name) {
            let k = choose|k: int| 0 <= k < before.len() && before[k] == name;
            assert(all[k] == name);
        }
        if all == before.push(last.0) {
            assert(all[before.len() as int] == last.0);
        }
    }
}

proof fn lemma_payload_columns_agree(a: RowView, b: RowView, count: nat)
    requires
        row_compare::same_blob_columns(a, b),
        count <= a.blobs.len(),
    ensures
        row_compare::payload_columns(a, b, count) == row_compare::payload_columns(b, a, count),
    decreases count,
{
    if count > 0 {
        lemma_payload_columns_agree(a, b, (count - 1) as nat);
        assert(a.blobs[count - 1].0 == b.blobs[count - 1].0);
    }
}

proof fn lemma_cells_agree_both_ways(a: RowView, b: RowView)
    requires
        distinct_columns(a),
        distinct_columns(b),
        same_column_names(a, b),
        row_compare::same_blob_columns(a, b),
        cells_agree(a, b),
    ensures
        cells_agree(b, a),
{
    assert forall|i: int|
        0 <= i < b.cells.len() && row_compare::compared_by_cell(b, (#[trigger] b.cells[i]).0) implies row_compare::cell_named(
        a.cells,
        b.cells[i].0,
    ) == Some(b.cells[i].1) by {
        let name = b.cells[i].0;
        lemma_own_cell(b, i);
        assert(row_compare::cell_named(a.cells, name) is Some);
        lemma_named_found(a.cells, name);
        let value = row_compare::cell_named(a.cells, name)->0;
        let k = choose|k: int| 0 <= k < a.cells.len() && #[trigger] a.cells[k] == (name, value);
        assert(a.cells[k].0 == name);
        assert(!row_compare::is_blob_name(a, name)) by {
            if row_compare::is_blob_name(a, name) {
                let j = choose|j: int| 0 <= j < a.blobs.len() && (#[trigger] a.blobs[j]).0 == name;
                assert(b.blobs[j].0 == name);
            }
        }
    }
}

/// Comparing is symmetric: between two rows of the same user-visible columns it
/// does not matter which one is the parent's.
pub proof fn comparison_is_symmetric(a: RowView, b: RowView)
    requires
        distinct_columns(a),
        distinct_columns(b),
        same_column_names(a, b),
    ensures
        row_compare::comparison(a, b) == row_compare::comparison(b, a),
{
    lemma_settled(a, b, a.cells.len());
    lemma_settled(b, a, b.cells.len());
    lemma_nothing_missing(a, b);
    lemma_nothing_missing(b, a);
    if row_compare::same_blob_columns(a, b) {
        assert(row_compare::same_blob_columns(b, a));
        if cells_agree(a, b) {
            lemma_cells_agree_both_ways(a, b);
        }
        if cells_agree(b, a) {
            assert(same_column_names(b, a)) by {
                assert forall|name: Seq<char>| !model::reserved_column(name) implies (
                #[trigger] row_compare::cell_named(b.cells, name) is Some
                    <==> row_compare::cell_named(a.cells, name) is Some) by {
                    assert(row_compare::cell_named(a.cells, name) is Some
                        <==> row_compare::cell_named(b.cells, name) is Some);
                }
            }
            lemma_cells_agree_both_ways(b, a);
        }
        lemma_payload_columns_agree(a, b, a.blobs.len());
        if exists|i: int|
            0 <= i < a.blobs.len() && row_compare::decisive((#[trigger] a.blobs[i]).1, b.blobs[i].1) {
            let i = choose|i: int|
                0 <= i < a.blobs.len() && row_compare::decisive((#[trigger] a.blobs[i]).1, b.blobs[i].1);
            assert(row_compare::decisive(b.blobs[i].1, a.blobs[i].1));
        }
        if exists|i: int|
            0 <= i < b.blobs.len() && row_compare::decisive((#[trigger] b.blobs[i]).1, a.blobs[i].1) {
            let i = choose|i: int|
                0 <= i < b.blobs.len() && row_compare::decisive((#[trigger] b.blobs[i]).1, a.blobs[i].1);
            assert(row_compare::decisive(a.blobs[i].1, b.blobs[i].1));
        }
    } else {
        assert(!row_compare::same_blob_columns(b, a)) by {
            if row_compare::same_blob_columns(b, a) {
                assert forall|i: int| 0 <= i < a.blobs.len() implies (#[trigger] a.blobs[i]).0
                    == b.blobs[i].0 by {
                    assert(b.blobs[i].0 == a.blobs[i].0);
                }
            }
        }
    }
}

proof fn lemma_nothing_missing(left: RowView, right: RowView)
    requires
        same_column_names(left, right),
    ensures
        row_compare::settled_by_cells(left, right, left.cells.len()) matches Some(outcome) ==> outcome
            == Comparison::Different,
{
    lemma_settled(left, right, left.cells.len());
    match row_compare::settled_by_cells(left, right, left.cells.len()) {
        Some(Comparison::Missing { column }) => {
            lemma_named_found(left.cells, column);
            assert(row_compare::cell_named(left.cells, column) is Some);
        },
        _ => {},
    }
}

/// Reserved columns never matter: rows that agree on everything else compare
/// alike with every row.
pub proof fn reserved_cells_never_matter(a: RowView, b: RowView, other: RowView)
    requires
        a.blobs == b.blobs,
        a.cells.len() == b.cells.len(),
        forall|i: int|
            0 <= i < a.cells.len() ==> (#[trigger] a.cells[i]).0 == b.cells[i].0 && (
            model::reserved_column(a.cells[i].0) || a.cells[i] == b.cells[i]),
    ensures
        row_compare::comparison(a, other) == row_compare::comparison(b, other),
        row_compare::comparison(other, a) == row_compare::comparison(other, b),
{
    lemma_settled_alike(a, b, other, a.cells.len());
    lemma_settled_against(a, b, other, other.cells.len());
    lemma_payload_alike(a, b, other, a.blobs.len());
    lemma_payload_against(a, b, other, other.blobs.len());
    assert(row_compare::same_blob_columns(a, other) == row_compare::same_blob_columns(b, other));
    assert(row_compare::same_blob_columns(other, a) == row_compare::same_blob_columns(other, b));
}

proof fn lemma_settled_alike(a: RowView, b: RowView, other: RowView, count: nat)
    requires
        a.blobs == b.blobs,
        a.cells.len() == b.cells.len(),
        count <= a.cells.len(),
        forall|i: int|
            0 <= i < a.cells.len() ==> (#[trigger] a.cells[i]).0 == b.cells[i].0 && (
            model::reserved_column(a.cells[i].0) || a.cells[i] == b.cells[i]),
    ensures
        row_compare::settled_by_cells(a, other, count) == row_compare::settled_by_cells(b, other, count),
    decreases count,
{
    if count > 0 {
        lemma_settled_alike(a, b, other, (count - 1) as nat);
        assert(a.cells[count - 1].0 == b.cells[count - 1].0);
        assert(row_compare::is_blob_name(a, a.cells[count - 1].0) == row_compare::is_blob_name(b, a.cells[count - 1].0));
    }
}

proof fn lemma_named_alike(a: Seq<(Seq<char>, int)>, b: Seq<(Seq<char>, int)>, name: Seq<char>)
    requires
        a.len() == b.len(),
        forall|i: int|
            0 <= i < a.len() ==> (#[trigger] a[i]).0 == b[i].0 && (
            model::reserved_column(a[i].0) || a[i] == b[i]),
        !model::reserved_column(name),
    ensures
        row_compare::cell_named(a, name) == row_compare::cell_named(b, name),
    decreases a.len(),
{
    if a.len() > 0 {
        assert(a[0].0 == b[0].0);
        assert forall|i: int| 0 <= i < a.drop_first().len() implies (#[trigger] a.drop_first()[i]).0
            == b.drop_first()[i].0 && (model::reserved_column(a.drop_first()[i].0)
            || a.drop_first()[i] == b.drop_first()[i]) by {
            assert(a.drop_first()[i] == a[i + 1]);
            assert(b.drop_first()[i] == b[i + 1]);
        }
        lemma_named_alike(a.drop_first(), b.drop_first(), name);
    }
}

proof fn lemma_settled_against(a: RowView, b: RowView, other: RowView, count: nat)
    requires
        a.cells.len() == b.cells.len(),
        count <= other.cells.len(),
        forall|i: int|
            0 <= i < a.cells.len() ==> (#[trigger] a.cells[i]).0 == b.cells[i].0 && (
            model::reserved_column(a.cells[i].0) || a.cells[i] == b.cells[i]),
    ensures
        row_compare::settled_by_cells(other, a, count) == row_compare::settled_by_cells(other, b, count),
    decreases count,
{
    if count > 0 {
        lemma_settled_against(a, b, other, (count - 1) as nat);
        let name = other.cells[count - 1].0;
        if !model::reserved_column(name) {
            lemma_named_alike(a.cells, b.cells, name);
        }
    }
}

proof fn lemma_payload_alike(a: RowView, b: RowView, other: RowView, count: nat)
    requires
        a.blobs == b.blobs,
    ensures
        row_compare::payload_columns(a, other, count) == row_compare::payload_columns(b, other, count),
    decreases count,
{
    if count > 0 {
        lemma_payload_alike(a, b, other, (count - 1) as nat);
    }
}

proof fn lemma_payload_against(a: RowView, b: RowView, other: RowView, count: nat)
    requires
        a.blobs == b.blobs,
    ensures
        row_compare::payload_columns(other, a, count) == row_compare::payload_columns(other, b, count),
    decreases count,
{
    if count > 0 {
        lemma_payload_against(a, b, other, (count - 1) as nat);
    }
}

proof fn lemma_first_cell(cells: Seq<(Seq<char>, int)>, name: Seq<char>, value: int)
    ensures
        row_compare::cell_named(cells, name) == Some(value) <==> exists|j: int|
            0 <= j < cells.len() && #[trigger] cells[j] == (name, value) && (forall|h: int|
                0 <= h < j ==> (#[trigger] cells[h]).0 != name),
    decreases cells.len(),
{
    if cells.len() > 0 {
        let rest = cells.drop_first();
        lemma_first_cell(rest, name, value);
        assert(forall|j: int| 0 <= j < rest.len() ==> rest[j] == #[trigger] cells[j + 1]);
        if cells[0].0 == name {
            if cells[0].1 == value {
                assert(cells[0] == (name, value));
            }
        } else {
            if row_compare::cell_named(rest, name) == Some(value) {
                let j = choose|j: int|
                    0 <= j < rest.len() && #[trigger] rest[j] == (name, value) && (forall|h: int|
                        0 <= h < j ==> (#[trigger] rest[h]).0 != name);
                assert(cells[j + 1] == (name, value));
                assert forall|h: int| 0 <= h < j + 1 implies (#[trigger] cells[h]).0 != name by {
                    if h > 0 {
                        assert(rest[h - 1] == cells[h]);
                    }
                }
            }
            if exists|j: int|
                0 <= j < cells.len() && #[trigger] cells[j] == (name, value) && (forall|h: int|
                    0 <= h < j ==> (#[trigger] cells[h]).0 != name) {
                let j = choose|j: int|
                    0 <= j < cells.len() && #[trigger] cells[j] == (name, value) && (forall|h: int|
                        0 <= h < j ==> (#[trigger] cells[h]).0 != name);
                assert(rest[j - 1] == (name, value));
                assert forall|h: int| 0 <= h < j - 1 implies (#[trigger] rest[h]).0 != name by {
                    assert(cells[h + 1] == rest[h]);
                }
            }
        }
    }
}

proof fn lemma_no_payloads(left: RowView, right: RowView, count: nat)
    requires
        count <= left.blobs.len(),
        row_compare::payload_columns(left, right, count).len() == 0,
        forall|k: int|
            0 <= k < count ==> !row_compare::decisive((#[trigger] left.blobs[k]).1, right.blobs[k].1),
    ensures
        forall|k: int| 0 <= k < count ==> (#[trigger] left.blobs[k]).1 == right.blobs[k].1,
    decreases count,
{
    if count > 0 {
        lemma_no_payloads(left, right, (count - 1) as nat);
        let last = left.blobs[count - 1];
        assert(!row_compare::decisive(last.1, right.blobs[count - 1].1));
    }
}

proof fn lemma_agreeing_cells(left: RowView, right: RowView)
    ensures
        row_compare::settled_by_cells(left, right, left.cells.len()) is None <==> (forall|i: int|
            #![trigger left.cells[i]]
            0 <= i < left.cells.len() && left.cells[i].0 != "_rowid"@
            && left.cells[i].0 != "_rowaddr"@
            && left.cells[i].0 != "_rowoffset"@
            && left.cells[i].0 != "_row_created_at_version"@
            && left.cells[i].0 != "_row_last_updated_at_version"@ && (forall|k: int|
            0 <= k < left.blobs.len() ==> (#[trigger] left.blobs[k]).0 != left.cells[i].0)
            ==> (exists|j: int|
            0 <= j < right.cells.len() && #[trigger] right.cells[j] == left.cells[i] && (forall|h: int|
                0 <= h < j ==> (#[trigger] right.cells[h]).0 != left.cells[i].0))),
{
    lemma_settled(left, right, left.cells.len());
    assert forall|i: int|
        #![trigger left.cells[i]]
        0 <= i < left.cells.len() implies (row_compare::compared_by_cell(left, left.cells[i].0)
        <==> left.cells[i].0 != "_rowid"@
            && left.cells[i].0 != "_rowaddr"@
            && left.cells[i].0 != "_rowoffset"@
            && left.cells[i].0 != "_row_created_at_version"@
            && left.cells[i].0 != "_row_last_updated_at_version"@ && (forall|k: int|
            0 <= k < left.blobs.len() ==> (#[trigger] left.blobs[k]).0 != left.cells[i].0)) && (
        row_compare::cell_named(right.cells, left.cells[i].0) == Some(left.cells[i].1)
            <==> (exists|j: int|
            0 <= j < right.cells.len() && #[trigger] right.cells[j] == left.cells[i] && (forall|h: int|
                0 <= h < j ==> (#[trigger] right.cells[h]).0 != left.cells[i].0))) by {
        model::five_names_are_reserved(left.cells[i].0);
        lemma_first_cell(right.cells, left.cells[i].0, left.cells[i].1);
        assert(left.cells[i] == (left.cells[i].0, left.cells[i].1));
    }
}

/// Two rows are the same exactly where nothing of their logical image differs:
/// every column of the left row that has none of the five reserved names and is
/// no Blob column has the same cell in the right row, under the first column of
/// that name, and the Blob columns have the same names and the same identities.
pub proof fn equal_rows_differ_in_nothing(left: RowView, right: RowView)
    ensures
        row_compare::comparison(left, right) is Equal <==> (forall|i: int|
            #![trigger left.cells[i]]
            0 <= i < left.cells.len() && left.cells[i].0 != "_rowid"@
            && left.cells[i].0 != "_rowaddr"@
            && left.cells[i].0 != "_rowoffset"@
            && left.cells[i].0 != "_row_created_at_version"@
            && left.cells[i].0 != "_row_last_updated_at_version"@ && (forall|k: int|
            0 <= k < left.blobs.len() ==> (#[trigger] left.blobs[k]).0 != left.cells[i].0)
            ==> (exists|j: int|
            0 <= j < right.cells.len() && #[trigger] right.cells[j] == left.cells[i] && (forall|h: int|
                0 <= h < j ==> (#[trigger] right.cells[h]).0 != left.cells[i].0))) && left.blobs.len()
            == right.blobs.len() && (forall|k: int|
            0 <= k < left.blobs.len() ==> #[trigger] left.blobs[k] == right.blobs[k]),
{
    lemma_agreeing_cells(left, right);
    lemma_settled(left, right, left.cells.len());
    if row_compare::comparison(left, right) is Equal {
        lemma_no_payloads(left, right, left.blobs.len());
        assert forall|k: int| 0 <= k < left.blobs.len() implies #[trigger] left.blobs[k]
            == right.blobs[k] by {
            assert(left.blobs[k].0 == right.blobs[k].0);
        }
    } else if left.blobs.len() == right.blobs.len() && (forall|k: int|
        0 <= k < left.blobs.len() ==> #[trigger] left.blobs[k] == right.blobs[k]) {
        lemma_no_payload_columns(left, right, left.blobs.len());
        assert(row_compare::same_blob_columns(left, right));
    }
}

/// Payloads decide exactly where all the rest agrees: the cells do, the Blob
/// columns have the same names, and of their identities those that differ, at
/// least one, are managed on both sides. The columns asked for are those that
/// differ, each once.
pub proof fn payloads_decide_where_all_else_agrees(left: RowView, right: RowView)
    ensures
        row_compare::comparison(left, right) is Payloads <==> (forall|i: int|
            #![trigger left.cells[i]]
            0 <= i < left.cells.len() && left.cells[i].0 != "_rowid"@
            && left.cells[i].0 != "_rowaddr"@
            && left.cells[i].0 != "_rowoffset"@
            && left.cells[i].0 != "_row_created_at_version"@
            && left.cells[i].0 != "_row_last_updated_at_version"@ && (forall|k: int|
            0 <= k < left.blobs.len() ==> (#[trigger] left.blobs[k]).0 != left.cells[i].0)
            ==> (exists|j: int|
            0 <= j < right.cells.len() && #[trigger] right.cells[j] == left.cells[i] && (forall|h: int|
                0 <= h < j ==> (#[trigger] right.cells[h]).0 != left.cells[i].0))) && left.blobs.len()
            == right.blobs.len() && (forall|k: int|
            0 <= k < left.blobs.len() ==> (#[trigger] left.blobs[k]).0 == right.blobs[k].0 && (
            left.blobs[k].1 == right.blobs[k].1 || (left.blobs[k].1 is Managed
                && right.blobs[k].1 is Managed))) && (exists|k: int|
            0 <= k < left.blobs.len() && #[trigger] left.blobs[k] != right.blobs[k]),
        row_compare::comparison(left, right) matches Comparison::Payloads { columns } ==> (
        forall|name: Seq<char>| #[trigger]
            columns.contains(name) <==> exists|k: int|
                0 <= k < left.blobs.len() && (#[trigger] left.blobs[k]).0 == name && left.blobs[k]
                    != right.blobs[k]),
        row_compare::comparison(left, right) matches Comparison::Payloads { columns } ==> (
        forall|i: int, j: int|
            0 <= i < j < columns.len() ==> #[trigger] columns[i] != #[trigger] columns[j]),
{
    lemma_agreeing_cells(left, right);
    lemma_settled(left, right, left.cells.len());
    let all = left.blobs.len();
    if row_compare::same_blob_columns(left, right) {
        let columns = row_compare::payload_columns(left, right, all);
        lemma_payloads_once(left, right, all);
        assert forall|name: Seq<char>| #[trigger] columns.contains(name) <==> exists|k: int|
            0 <= k < all && (#[trigger] left.blobs[k]).0 == name && left.blobs[k].1 is Managed
                && right.blobs[k].1 is Managed && left.blobs[k].1 != right.blobs[k].1 by {
            lemma_payload_column(left, right, all, name);
        }
        if !(exists|k: int|
            0 <= k < all && row_compare::decisive((#[trigger] left.blobs[k]).1, right.blobs[k].1)) {
            assert forall|k: int| 0 <= k < all implies (#[trigger] left.blobs[k]).0
                == right.blobs[k].0 && (left.blobs[k].1 == right.blobs[k].1 || (
            left.blobs[k].1 is Managed && right.blobs[k].1 is Managed)) by {
                assert(!row_compare::decisive(left.blobs[k].1, right.blobs[k].1));
            }
            if columns.len() > 0 {
                assert(columns.contains(columns[0]));
                let k = choose|k: int|
                    0 <= k < all && (#[trigger] left.blobs[k]).0 == columns[0]
                        && left.blobs[k].1 is Managed && right.blobs[k].1 is Managed
                        && left.blobs[k].1 != right.blobs[k].1;
                assert(left.blobs[k] != right.blobs[k]);
            } else {
                lemma_no_payloads(left, right, all);
                assert forall|k: int| 0 <= k < all implies #[trigger] left.blobs[k]
                    == right.blobs[k] by {}
            }
            if row_compare::comparison(left, right) is Payloads {
                assert forall|name: Seq<char>| #[trigger] columns.contains(name) <==> exists|k: int|
                    0 <= k < all && (#[trigger] left.blobs[k]).0 == name && left.blobs[k]
                        != right.blobs[k] by {
                    if exists|k: int|
                        0 <= k < all && (#[trigger] left.blobs[k]).0 == name && left.blobs[k]
                            != right.blobs[k] {
                        let k = choose|k: int|
                            0 <= k < all && (#[trigger] left.blobs[k]).0 == name && left.blobs[k]
                                != right.blobs[k];
                        assert(left.blobs[k].1 != right.blobs[k].1);
                    }
                }
            }
        } else {
            let k = choose|k: int|
                0 <= k < all && row_compare::decisive((#[trigger] left.blobs[k]).1, right.blobs[k].1);
            assert(left.blobs[k].1 != right.blobs[k].1);
        }
    }
}

proof fn lemma_payloads_once(left: RowView, right: RowView, count: nat)
    ensures
        forall|i: int, j: int|
            0 <= i < j < row_compare::payload_columns(left, right, count).len()
                ==> #[trigger] row_compare::payload_columns(left, right, count)[i]
                != #[trigger] row_compare::payload_columns(left, right, count)[j],
    decreases count,
{
    if count > 0 {
        lemma_payloads_once(left, right, (count - 1) as nat);
        let before = row_compare::payload_columns(left, right, (count - 1) as nat);
        let all = row_compare::payload_columns(left, right, count);
        assert forall|i: int, j: int| 0 <= i < j < all.len() implies #[trigger] all[i]
            != #[trigger] all[j] by {
            if all.len() > before.len() && j == before.len() {
                assert(before[i] == all[i]);
                assert(before.contains(before[i]));
            } else {
                assert(before[i] == all[i]);
                assert(before[j] == all[j]);
            }
        }
    }
}

proof fn lemma_settled_missing(left: RowView, right: RowView, count: nat, at: int)
    requires
        0 <= at < count <= left.cells.len(),
        row_compare::compared_by_cell(left, left.cells[at].0),
        row_compare::cell_named(right.cells, left.cells[at].0) is None,
        row_compare::settled_by_cells(left, right, at as nat) is None,
    ensures
        row_compare::settled_by_cells(left, right, count) == Some(
            Comparison::Missing { column: left.cells[at].0 },
        ),
    decreases count,
{
    if count - 1 > at {
        lemma_settled_missing(left, right, (count - 1) as nat, at);
    }
}

proof fn lemma_missing_at(left: RowView, right: RowView, count: nat)
    requires
        count <= left.cells.len(),
    ensures
        row_compare::settled_by_cells(left, right, count) matches Some(
            Comparison::Missing { column },
        ) ==> exists|i: int|
            0 <= i < count && (#[trigger] left.cells[i]).0 == column
                && row_compare::compared_by_cell(left, column) && row_compare::cell_named(
                right.cells,
                column,
            ) is None && row_compare::settled_by_cells(left, right, i as nat) is None,
    decreases count,
{
    if count > 0 {
        lemma_missing_at(left, right, (count - 1) as nat);
        if row_compare::settled_by_cells(left, right, (count - 1) as nat) is None {
            assert(left.cells[count - 1].0 == left.cells[count - 1].0);
        }
    }
}

/// A column is reported as missing exactly where the right row has none of its
/// name, and every compared column in front of it agrees.
pub proof fn a_missing_column_is_one_that_is_not_there(
    left: RowView,
    right: RowView,
    column: Seq<char>,
)
    ensures
        row_compare::comparison(left, right) == (Comparison::Missing { column }) <==> exists|at: int|
            0 <= at < left.cells.len() && (#[trigger] left.cells[at]).0 == column && column != "_rowid"@
            && column != "_rowaddr"@
            && column != "_rowoffset"@
            && column != "_row_created_at_version"@
            && column != "_row_last_updated_at_version"@
                && (forall|k: int|
                0 <= k < left.blobs.len() ==> (#[trigger] left.blobs[k]).0 != column) && (forall|
                j: int,
            |
                0 <= j < right.cells.len() ==> (#[trigger] right.cells[j]).0 != column) && (forall|
                i: int,
            |
                #![trigger left.cells[i]]
                0 <= i < at && left.cells[i].0 != "_rowid"@
            && left.cells[i].0 != "_rowaddr"@
            && left.cells[i].0 != "_rowoffset"@
            && left.cells[i].0 != "_row_created_at_version"@
            && left.cells[i].0 != "_row_last_updated_at_version"@ && (forall|k: int|
            0 <= k < left.blobs.len() ==> (#[trigger] left.blobs[k]).0 != left.cells[i].0)
            ==> (exists|j: int|
            0 <= j < right.cells.len() && #[trigger] right.cells[j] == left.cells[i] && (forall|h: int|
                0 <= h < j ==> (#[trigger] right.cells[h]).0 != left.cells[i].0))),
{
    let all = left.cells.len();
    lemma_missing_at(left, right, all);
    model::five_names_are_reserved(column);
    lemma_named_found(right.cells, column);
    assert forall|i: int|
        #![trigger left.cells[i]]
        0 <= i < left.cells.len() implies (row_compare::compared_by_cell(left, left.cells[i].0)
        <==> left.cells[i].0 != "_rowid"@
            && left.cells[i].0 != "_rowaddr"@
            && left.cells[i].0 != "_rowoffset"@
            && left.cells[i].0 != "_row_created_at_version"@
            && left.cells[i].0 != "_row_last_updated_at_version"@ && (forall|k: int|
            0 <= k < left.blobs.len() ==> (#[trigger] left.blobs[k]).0 != left.cells[i].0)) && (
        row_compare::cell_named(right.cells, left.cells[i].0) == Some(left.cells[i].1)
            <==> (exists|j: int|
            0 <= j < right.cells.len() && #[trigger] right.cells[j] == left.cells[i] && (forall|h: int|
                0 <= h < j ==> (#[trigger] right.cells[h]).0 != left.cells[i].0))) by {
        model::five_names_are_reserved(left.cells[i].0);
        lemma_first_cell(right.cells, left.cells[i].0, left.cells[i].1);
        assert(left.cells[i] == (left.cells[i].0, left.cells[i].1));
    }
    if row_compare::comparison(left, right) == (Comparison::Missing { column }) {
        let at = choose|i: int|
            0 <= i < all && (#[trigger] left.cells[i]).0 == column
                && row_compare::compared_by_cell(left, column) && row_compare::cell_named(
                right.cells,
                column,
            ) is None && row_compare::settled_by_cells(left, right, i as nat) is None;
        lemma_settled(left, right, at as nat);
    }
    if exists|at: int|
        0 <= at < left.cells.len() && (#[trigger] left.cells[at]).0 == column && column != "_rowid"@
            && column != "_rowaddr"@
            && column != "_rowoffset"@
            && column != "_row_created_at_version"@
            && column != "_row_last_updated_at_version"@
            && (forall|k: int|
            0 <= k < left.blobs.len() ==> (#[trigger] left.blobs[k]).0 != column) && (forall|j: int|
            0 <= j < right.cells.len() ==> (#[trigger] right.cells[j]).0 != column) && (forall|i: int|
            #![trigger left.cells[i]]
            0 <= i < at && left.cells[i].0 != "_rowid"@
            && left.cells[i].0 != "_rowaddr"@
            && left.cells[i].0 != "_rowoffset"@
            && left.cells[i].0 != "_row_created_at_version"@
            && left.cells[i].0 != "_row_last_updated_at_version"@ && (forall|k: int|
            0 <= k < left.blobs.len() ==> (#[trigger] left.blobs[k]).0 != left.cells[i].0)
            ==> (exists|j: int|
            0 <= j < right.cells.len() && #[trigger] right.cells[j] == left.cells[i] && (forall|h: int|
                0 <= h < j ==> (#[trigger] right.cells[h]).0 != left.cells[i].0))) {
        let at = choose|at: int|
            0 <= at < left.cells.len() && (#[trigger] left.cells[at]).0 == column && column != "_rowid"@
            && column != "_rowaddr"@
            && column != "_rowoffset"@
            && column != "_row_created_at_version"@
            && column != "_row_last_updated_at_version"@
                && (forall|k: int|
                0 <= k < left.blobs.len() ==> (#[trigger] left.blobs[k]).0 != column) && (forall|
                j: int,
            |
                0 <= j < right.cells.len() ==> (#[trigger] right.cells[j]).0 != column) && (forall|
                i: int,
            |
                #![trigger left.cells[i]]
                0 <= i < at && left.cells[i].0 != "_rowid"@
            && left.cells[i].0 != "_rowaddr"@
            && left.cells[i].0 != "_rowoffset"@
            && left.cells[i].0 != "_row_created_at_version"@
            && left.cells[i].0 != "_row_last_updated_at_version"@ && (forall|k: int|
            0 <= k < left.blobs.len() ==> (#[trigger] left.blobs[k]).0 != left.cells[i].0)
            ==> (exists|j: int|
            0 <= j < right.cells.len() && #[trigger] right.cells[j] == left.cells[i] && (forall|h: int|
                0 <= h < j ==> (#[trigger] right.cells[h]).0 != left.cells[i].0)));
        lemma_settled(left, right, at as nat);
        lemma_settled_missing(left, right, all, at);
    }
}

/// What a comparison tells the caller is what it found: no outcome stands for
/// another, the columns to be read are those found, and a missing column is
/// named.
pub proof fn an_outcome_is_told_as_it_is(
    result: Result<RowComparison, OmniError>,
    found: Comparison,
)
    requires
        row_compare::compares_to(result, found),
    ensures
        result matches Ok(RowComparison::Equal) <==> found is Equal,
        result matches Ok(RowComparison::Different) <==> found is Different,
        result matches Ok(RowComparison::Payloads(_)) <==> found is Payloads,
        result is Err <==> found is Missing,
        result matches Ok(RowComparison::Payloads(names)) ==> names@.len()
            == found->columns.len() && (forall|i: int|
            0 <= i < names@.len() ==> (#[trigger] names@[i])@ == found->columns[i]),
        result matches Err(error) ==> (error matches OmniError::Manifest(manifest) && manifest.kind
            == ManifestErrorKind::Internal && manifest.details is None && manifest.message@
            == "schema-gated change row is missing column '"@ + found->column + "'"@),
{
    if let (Ok(RowComparison::Payloads(names)), Comparison::Payloads { columns }) = (result, found) {
        assert forall|i: int| 0 <= i < names@.len() implies (#[trigger] names@[i])@ == columns[i] by {
            assert(row_compare::text_views(names@)[i] == names@[i]@);
        }
        assert(row_compare::text_views(names@).len() == names@.len());
    }
}

/// A row of a batch is that row: its id is the row's own, every column is there
/// in the batch's order with that row's value, the row id is the row's where the
/// batch carries one, and the Blob identities are those given.
pub proof fn a_row_of_a_batch_is_that_row(
    batch: Batch,
    row: int,
    blobs: Seq<(Seq<char>, IdentityView)>,
)
    ensures
        row_compare::row_at(batch, row, blobs).id == batch::batch_texts(batch)["id"@][row],
        row_compare::row_at(batch, row, blobs).cells.len() == batch::batch_columns(batch).len(),
        forall|i: int|
            0 <= i < batch::batch_columns(batch).len() ==> (#[trigger] row_compare::row_at(
                batch,
                row,
                blobs,
            ).cells[i]) == (
                batch::batch_columns(batch)[i].0,
                batch::batch_columns(batch)[i].1[row],
            ),
        row_compare::row_at(batch, row, blobs).blobs == blobs,
        row_compare::row_at(batch, row, blobs).row_id is Some <==> batch::batch_numbers(
            batch,
        ).contains_key("_rowid"@),
        row_compare::row_at(batch, row, blobs).row_id matches Some(id) ==> id
            == batch::batch_numbers(batch)["_rowid"@][row],
        row_compare::row_at(batch, row, blobs).slice == batch::one_row(
            batch::batch_view(batch),
            row,
        ),
{
}

/// A batch of one row of another has the same columns, in the same order and with
/// the same metadata, and of each column that row's value alone.
pub proof fn one_row_has_every_column(batch: BatchView, row: int)
    ensures
        batch::one_row(batch, row).rows == 1,
        batch::one_row(batch, row).columns.len() == batch.columns.len(),
        forall|i: int|
            0 <= i < batch.columns.len() ==> (#[trigger] batch::one_row(batch, row).columns[i]).0
                == batch.columns[i].0 && batch::one_row(batch, row).columns[i].1
                == seq![batch.columns[i].1[row]],
        batch::one_row(batch, row).metadata == batch.metadata,
        batch::one_row(batch, row).schema_metadata == batch.schema_metadata,
        batch::one_row(batch, row).structs == batch.structs,
        batch::one_row(batch, row).refusals == batch.refusals,
        batch::one_row(batch, row).texts.dom() == batch.texts.dom(),
        forall|name: Seq<char>| #[trigger]
            batch.texts.contains_key(name) ==> batch::one_row(batch, row).texts[name]
                == seq![batch.texts[name][row]],
        batch::one_row(batch, row).numbers.dom() == batch.numbers.dom(),
        forall|name: Seq<char>| #[trigger]
            batch.numbers.contains_key(name) ==> batch::one_row(batch, row).numbers[name]
                == seq![batch.numbers[name][row]],
{
    let one = batch::one_row(batch, row);
    assert forall|i: int| 0 <= i < batch.columns.len() implies (#[trigger] one.columns[i]).0
        == batch.columns[i].0 && one.columns[i].1 == seq![batch.columns[i].1[row]] by {}
    assert(one.texts.dom() =~= batch.texts.dom());
    assert(one.numbers.dom() =~= batch.numbers.dom());
}

/// A batch is seen whole.
pub proof fn batches_are_seen_whole(batch: Batch)
    ensures
        batch::batch_view(batch).columns == batch::batch_columns(batch),
        batch::batch_view(batch).rows == batch::batch_rows(batch),
        batch::batch_view(batch).metadata == batch::batch_metadata(batch),
        batch::batch_view(batch).schema_metadata == batch::batch_schema_metadata(batch),
        batch::batch_view(batch).structs == batch::batch_structs(batch),
        batch::batch_view(batch).refusals == batch::batch_refusals(batch),
        batch::batch_view(batch).texts == batch::batch_texts(batch),
        batch::batch_view(batch).numbers == batch::batch_numbers(batch),
{
}

/// Every Blob column of a row is compared under its own name and by its own
/// identity, in the order in which the row has them.
pub proof fn signatures_are_read_one_by_one(signatures: Seq<BlobColumnSig>, i: int)
    requires
        0 <= i < signatures.len(),
    ensures
        row_compare::signature_views(signatures).len() == signatures.len(),
        row_compare::signature_views(signatures)[i].0 == signatures[i].name@,
        row_compare::signature_views(signatures)[i].1 == signatures[i].identity@,
{
}

/// Two lists of payloads are the same exactly where they have the same columns,
/// each with the same values in the same order, a null being no text.
pub proof fn payloads_agree_value_by_value(
    left: Seq<Vec<Option<String>>>,
    right: Seq<Vec<Option<String>>>,
)
    ensures
        row_compare::value_views(left) == row_compare::value_views(right) <==> left.len()
            == right.len() && (forall|i: int|
            #![trigger left[i]]
            0 <= i < left.len() ==> left[i]@.len() == right[i]@.len() && (forall|k: int|
                #![trigger left[i]@[k]]
                0 <= k < left[i]@.len() ==> (left[i]@[k] is None && right[i]@[k] is None) || (
                left[i]@[k] is Some && right[i]@[k] is Some && left[i]@[k]->0@
                    == right[i]@[k]->0@))),
{
    let a = row_compare::value_views(left);
    let b = row_compare::value_views(right);
    assert(a.len() == left.len() && b.len() == right.len());
    if a == b {
        assert forall|i: int|
            #![trigger left[i]]
            0 <= i < left.len() implies left[i]@.len() == right[i]@.len() && (forall|k: int|
            #![trigger left[i]@[k]]
            0 <= k < left[i]@.len() ==> (left[i]@[k] is None && right[i]@[k] is None) || (
            left[i]@[k] is Some && right[i]@[k] is Some && left[i]@[k]->0@ == right[i]@[k]->0@)) by {
            assert(a[i] == b[i]);
            assert(a[i].len() == left[i]@.len() && b[i].len() == right[i]@.len());
            assert forall|k: int|
                #![trigger left[i]@[k]]
                0 <= k < left[i]@.len() implies (left[i]@[k] is None && right[i]@[k] is None) || (
            left[i]@[k] is Some && right[i]@[k] is Some && left[i]@[k]->0@ == right[i]@[k]->0@) by {
                assert(a[i][k] == b[i][k]);
                text::an_absent_text_is_no_text(left[i]@[k], right[i]@[k]);
            }
        }
    } else if left.len() == right.len() && (forall|i: int|
        #![trigger left[i]]
        0 <= i < left.len() ==> left[i]@.len() == right[i]@.len() && (forall|k: int|
            #![trigger left[i]@[k]]
            0 <= k < left[i]@.len() ==> (left[i]@[k] is None && right[i]@[k] is None) || (
            left[i]@[k] is Some && right[i]@[k] is Some && left[i]@[k]->0@
                == right[i]@[k]->0@))) {
        assert forall|i: int| 0 <= i < a.len() implies a[i] == b[i] by {
            assert(left[i]@.len() == right[i]@.len());
            assert forall|k: int| 0 <= k < a[i].len() implies a[i][k] == b[i][k] by {
                let x = left[i]@[k];
                text::an_absent_text_is_no_text(left[i]@[k], right[i]@[k]);
            }
            assert(a[i] =~= b[i]);
        }
        assert(a =~= b);
    }
}

/// Texts and rows are read one by one, in their order.
pub proof fn lists_are_read_one_by_one(texts: Seq<String>, rows: Seq<RawRow>)
    ensures
        row_compare::text_views(texts).len() == texts.len(),
        forall|i: int|
            0 <= i < texts.len() ==> (#[trigger] row_compare::text_views(texts)[i]) == texts[i]@,
        forall|text: Seq<char>| #[trigger]
            row_compare::text_views(texts).contains(text) <==> exists|i: int|
                0 <= i < texts.len() && (#[trigger] texts[i])@ == text,
        row_compare::row_views(rows).len() == rows.len(),
        forall|i: int|
            0 <= i < rows.len() ==> (#[trigger] row_compare::row_views(rows)[i]) == rows[i]@,
{
    let views = row_compare::text_views(texts);
    assert forall|text: Seq<char>| #[trigger] views.contains(text) <==> exists|i: int|
        0 <= i < texts.len() && (#[trigger] texts[i])@ == text by {
        if views.contains(text) {
            let i = choose|i: int| 0 <= i < views.len() && views[i] == text;
            assert(texts[i]@ == text);
        }
        if exists|i: int| 0 <= i < texts.len() && (#[trigger] texts[i])@ == text {
            let i = choose|i: int| 0 <= i < texts.len() && (#[trigger] texts[i])@ == text;
            assert(views[i] == text);
        }
    }
}

} // verus!
