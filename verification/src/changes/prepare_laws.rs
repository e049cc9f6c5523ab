//! What holds of a batch that was prepared for comparison.

use lance_core::datatypes::Schema;
use vstd::prelude::*;

use crate::changes::batch::{self, Batch};
use crate::changes::blob::IdentityView;
use crate::changes::model;
use crate::changes::prepare::{self, BatchFault, BlobColumnView, BlobDecoding, DecodingView};
use crate::changes::row_compare::{self, RawRow, RowView};
use crate::changes::schema;
use crate::changes::table::{self, Fragment};
use crate::error::{self, OmniError};
use crate::storage::StorageFailureKind;
use crate::text;

verus! {

/// Lance marks a Blob field in one of two ways: by its own marker, whatever the
/// value, or by the name of its extension type.
pub proof fn two_marks_make_a_blob(metadata: Map<Seq<char>, Seq<char>>)
    ensures
        batch::marks_blob(metadata) <==> metadata.contains_key("lance-encoding:blob"@) || (
        metadata.contains_key("ARROW:extension:name"@) && metadata["ARROW:extension:name"@]
            == "lance.blob.v2"@),
{
}

/// A decoding is read row by row: what could not be decoded carries its reason,
/// and every row its own descriptor or contradiction.
pub proof fn decodings_are_read_row_by_row(decodings: Seq<BlobDecoding>, slot: int)
    requires
        0 <= slot < decodings.len(),
    ensures
        prepare::decoding_views(decodings).len() == decodings.len(),
        decodings[slot] matches BlobDecoding::Unreadable(reason) ==> prepare::decoding_views(
            decodings,
        )[slot] == DecodingView::Unreadable(reason@),
        decodings[slot] matches BlobDecoding::Rows(rows) ==> (prepare::decoding_views(
            decodings,
        )[slot] matches DecodingView::Rows(read) && read.len() == rows@.len() && (forall|i: int|
            0 <= i < rows@.len() ==> match (rows@[i], #[trigger] read[i]) {
                (Ok(descriptor), Ok(seen)) => seen == descriptor@,
                (Err(reason), Err(seen)) => seen == reason@,
                _ => false,
            })),
{
}

proof fn lemma_descriptor_columns(batch: Batch, count: nat)
    ensures
        forall|s: int|
            0 <= s < prepare::descriptor_columns(batch, count).len() ==> 0 <= (
            #[trigger] prepare::descriptor_columns(batch, count)[s]) < count
                && prepare::holds_descriptors(batch, prepare::descriptor_columns(batch, count)[s]),
        forall|s: int, t: int|
            0 <= s < t < prepare::descriptor_columns(batch, count).len() ==> (
            #[trigger] prepare::descriptor_columns(batch, count)[s]) < (
            #[trigger] prepare::descriptor_columns(batch, count)[t]),
        forall|c: int|
            0 <= c < count && prepare::holds_descriptors(batch, c) ==> #[trigger]
                prepare::descriptor_columns(batch, count).contains(c),
    decreases count,
{
    if count > 0 {
        let before = prepare::descriptor_columns(batch, (count - 1) as nat);
        let all = prepare::descriptor_columns(batch, count);
        lemma_descriptor_columns(batch, (count - 1) as nat);
        assert forall|c: int| 0 <= c < count && prepare::holds_descriptors(batch, c) implies #[trigger]
            all.contains(c) by {
            if c < count - 1 {
                assert(before.contains(c));
                let s = choose|s: int| 0 <= s < before.len() && before[s] == c;
                assert(all[s] == c);
            } else {
                assert(all[before.len() as int] == c);
            }
        }
    }
}

/// The columns to decode are exactly the Blob columns with descriptors, in the
/// order of the batch, each once: a column is among them where it has none of the
/// five reserved names, Lance accepts its field and takes it for a Blob, and it
/// is a struct.
pub proof fn every_descriptor_column_is_decoded(batch: Batch, c: int)
    ensures
        prepare::all_descriptor_columns(batch).contains(c) <==> 0 <= c < batch::batch_columns(
            batch,
        ).len() && batch::batch_columns(batch)[c].0 != "_rowid"@
            && batch::batch_columns(batch)[c].0 != "_rowaddr"@
            && batch::batch_columns(batch)[c].0 != "_rowoffset"@
            && batch::batch_columns(batch)[c].0 != "_row_created_at_version"@
            && batch::batch_columns(batch)[c].0 != "_row_last_updated_at_version"@
            && batch::batch_refusals(batch)[c] is None && batch::marks_blob(
            batch::batch_metadata(batch)[c],
        ) && batch::batch_structs(batch)[c],
        forall|s: int, t: int|
            0 <= s < t < prepare::all_descriptor_columns(batch).len() ==> (
            #[trigger] prepare::all_descriptor_columns(batch)[s]) < (
            #[trigger] prepare::all_descriptor_columns(batch)[t]),
{
    lemma_descriptor_columns(batch, batch::batch_columns(batch).len());
    model::five_names_are_reserved(batch::batch_columns(batch)[c].0);
}

proof fn lemma_prefix_columns(batch: Batch, some: nat, all: nat)
    requires
        some <= all,
    ensures
        prepare::descriptor_columns(batch, some).len() <= prepare::descriptor_columns(
            batch,
            all,
        ).len(),
        forall|s: int|
            0 <= s < prepare::descriptor_columns(batch, some).len() ==> (
            #[trigger] prepare::descriptor_columns(batch, some)[s]) == prepare::descriptor_columns(
                batch,
                all,
            )[s],
        some < all && prepare::holds_descriptors(batch, some as int) ==> prepare::descriptor_columns(
            batch,
            some,
        ).len() < prepare::descriptor_columns(batch, all).len() && prepare::descriptor_columns(
            batch,
            all,
        )[prepare::descriptor_columns(batch, some).len() as int] == some,
    decreases all - some,
{
    if some < all {
        lemma_prefix_columns(batch, some + 1, all);
        let short = prepare::descriptor_columns(batch, some);
        let next = prepare::descriptor_columns(batch, some + 1);
        assert forall|s: int| 0 <= s < short.len() implies (#[trigger] short[s])
            == prepare::descriptor_columns(batch, all)[s] by {
            assert(next[s] == short[s]);
        }
        if prepare::holds_descriptors(batch, some as int) {
            assert(next[short.len() as int] == some);
        }
    }
}

/// What keeps the columns of a batch from being prepared.
spec fn column_fault(
    schema: Schema,
    batch: Batch,
    decodings: Seq<DecodingView>,
    fault: BatchFault,
) -> bool {
    match fault {
        BatchFault::FieldRefused { kind } => exists|c: int|
            0 <= c < batch::batch_columns(batch).len() && !model::reserved_column(
                #[trigger] batch::batch_columns(batch)[c].0,
            ) && batch::batch_refusals(batch)[c] == Some(kind),
        BatchFault::NoDescriptions { column } => exists|c: int|
            0 <= c < batch::batch_columns(batch).len() && #[trigger] batch::batch_columns(batch)[c].0
                == column && !model::reserved_column(column) && batch::marks_blob(
                batch::batch_metadata(batch)[c],
            ) && !batch::batch_structs(batch)[c],
        BatchFault::NoFieldId { column } => !schema::schema_field_ids(schema).contains_key(column)
            && exists|s: int|
            0 <= s < prepare::all_descriptor_columns(batch).len() && batch::batch_columns(
                batch,
            )[#[trigger] prepare::all_descriptor_columns(batch)[s]].0 == column,
        BatchFault::Unreadable { reason } => exists|s: int|
            0 <= s < prepare::all_descriptor_columns(batch).len() && #[trigger] decodings[s]
                == DecodingView::Unreadable(reason),
        _ => false,
    }
}

proof fn lemma_columns(schema: Schema, batch: Batch, decodings: Seq<DecodingView>, count: nat)
    requires
        count <= batch::batch_columns(batch).len(),
    ensures
        match prepare::blob_columns_among(schema, batch, decodings, count) {
            Ok(columns) => {
                &&& columns.len() == prepare::descriptor_columns(batch, count).len()
                &&& forall|s: int|
                    0 <= s < columns.len() ==> {
                        let name = batch::batch_columns(batch)[prepare::all_descriptor_columns(
                            batch,
                        )[s]].0;
                        &&& (#[trigger] columns[s]) == (BlobColumnView {
                            name,
                            field_id: schema::schema_field_ids(schema)[name],
                            slot: s,
                        })
                        &&& schema::schema_field_ids(schema).contains_key(name)
                        &&& decodings[s] is Rows
                    }
                &&& forall|c: int|
                    0 <= c < count && !model::reserved_column(#[trigger] batch::batch_columns(batch)[c].0)
                        ==> batch::batch_refusals(batch)[c] is None && (batch::marks_blob(
                        batch::batch_metadata(batch)[c],
                    ) ==> batch::batch_structs(batch)[c])
            },
            Err(fault) => column_fault(schema, batch, decodings, fault),
        },
    decreases count,
{
    if count > 0 {
        let index = count - 1;
        let total = batch::batch_columns(batch).len();
        let name = batch::batch_columns(batch)[index].0;
        let slot = prepare::descriptor_columns(batch, index as nat).len() as int;
        lemma_columns(schema, batch, decodings, index as nat);
        lemma_prefix_columns(batch, index as nat, total);
        lemma_prefix_columns(batch, count, total);
        match prepare::blob_columns_among(schema, batch, decodings, index as nat) {
            Ok(before) => {
                let listed = prepare::all_descriptor_columns(batch);
                if prepare::holds_descriptors(batch, index) {
                    assert(listed[slot] == index);
                    assert(slot < listed.len());
                }
                match prepare::blob_columns_among(schema, batch, decodings, count) {
                    Ok(columns) => {
                        assert forall|s: int| 0 <= s < columns.len() implies {
                            let name = batch::batch_columns(batch)[listed[s]].0;
                            &&& (#[trigger] columns[s]) == (BlobColumnView {
                                name,
                                field_id: schema::schema_field_ids(schema)[name],
                                slot: s,
                            })
                            &&& schema::schema_field_ids(schema).contains_key(name)
                            &&& decodings[s] is Rows
                        } by {
                            if s < before.len() {
                                assert(columns[s] == before[s]);
                            } else {
                                assert(s == slot);
                            }
                        }
                        assert forall|c: int|
                            0 <= c < count && !model::reserved_column(
                                #[trigger] batch::batch_columns(batch)[c].0,
                            ) implies batch::batch_refusals(batch)[c] is None && (batch::marks_blob(
                            batch::batch_metadata(batch)[c],
                        ) ==> batch::batch_structs(batch)[c]) by {
                            if c < index {
                                assert(!model::reserved_column(batch::batch_columns(batch)[c].0));
                            }
                        }
                    },
                    Err(fault) => {
                        assert(!model::reserved_column(batch::batch_columns(batch)[index].0));
                        match fault {
                            BatchFault::Unreadable { reason } => {
                                assert(decodings[slot] == DecodingView::Unreadable(reason));
                            },
                            BatchFault::NoFieldId { column } => {
                                assert(batch::batch_columns(batch)[listed[slot]].0 == column);
                            },
                            _ => {},
                        }
                    },
                }
            },
            Err(_) => {},
        }
    }
}

/// The identity of a column in a row, where everything that it rests on is there.
spec fn is_identity(
    fragments: Seq<Fragment>,
    column: BlobColumnView,
    decodings: Seq<DecodingView>,
    fragment_id: u64,
    row: int,
    found: (Seq<char>, IdentityView),
) -> bool {
    &&& table::fragment_map(fragments).contains_key(fragment_id)
    &&& table::first_file_with(
        table::fragment_map(fragments)[fragment_id].files@,
        column.field_id,
    ) matches Some(path)
    &&& decodings[column.slot]->Rows_0[row] matches Ok(descriptor)
    &&& found == (column.name, descriptor.in_file(path))
}

/// What keeps the identity of a column in a row from being known.
spec fn identity_fault(
    fragments: Seq<Fragment>,
    column: BlobColumnView,
    decodings: Seq<DecodingView>,
    fragment_id: u64,
    row: int,
    fault: BatchFault,
) -> bool {
    let by_id = table::fragment_map(fragments);
    match fault {
        BatchFault::NoFragment { fragment_id: f } => f == fragment_id && !by_id.contains_key(f),
        BatchFault::NoDataFile { fragment_id: f, field_id } => f == fragment_id && field_id
            == column.field_id && by_id.contains_key(f) && table::first_file_with(
            by_id[f].files@,
            field_id,
        ) is None,
        BatchFault::Contradiction { reason } => decodings[column.slot]->Rows_0[row] matches Err(said)
            && said == reason,
        _ => false,
    }
}

proof fn lemma_identities(
    fragments: Seq<Fragment>,
    columns: Seq<BlobColumnView>,
    decodings: Seq<DecodingView>,
    fragment_id: u64,
    row: int,
)
    ensures
        match prepare::identities_in(fragments, columns, decodings, fragment_id, row) {
            Ok(found) => found.len() == columns.len() && forall|k: int|
                0 <= k < columns.len() ==> #[trigger] is_identity(
                    fragments,
                    columns[k],
                    decodings,
                    fragment_id,
                    row,
                    found[k],
                ),
            Err(fault) => exists|k: int|
                0 <= k < columns.len() && #[trigger] identity_fault(
                    fragments,
                    columns[k],
                    decodings,
                    fragment_id,
                    row,
                    fault,
                ),
        },
    decreases columns.len(),
{
    if columns.len() > 0 {
        let rest = columns.drop_last();
        lemma_identities(fragments, rest, decodings, fragment_id, row);
        match prepare::identities_in(fragments, rest, decodings, fragment_id, row) {
            Ok(before) => {
                match prepare::identities_in(fragments, columns, decodings, fragment_id, row) {
                    Ok(found) => {
                        assert forall|k: int| 0 <= k < columns.len() implies #[trigger] is_identity(
                            fragments,
                            columns[k],
                            decodings,
                            fragment_id,
                            row,
                            found[k],
                        ) by {
                            if k < rest.len() {
                                assert(is_identity(
                                    fragments,
                                    rest[k],
                                    decodings,
                                    fragment_id,
                                    row,
                                    before[k],
                                ));
                            }
                        }
                    },
                    Err(fault) => {
                        assert(identity_fault(
                            fragments,
                            columns[columns.len() - 1],
                            decodings,
                            fragment_id,
                            row,
                            fault,
                        ));
                    },
                }
            },
            Err(fault) => {
                let k = choose|k: int|
                    0 <= k < rest.len() && #[trigger] identity_fault(
                        fragments,
                        rest[k],
                        decodings,
                        fragment_id,
                        row,
                        fault,
                    );
                assert(identity_fault(fragments, columns[k], decodings, fragment_id, row, fault));
            },
        }
    }
}

proof fn lemma_rows(
    fragments: Seq<Fragment>,
    batch: Batch,
    columns: Seq<BlobColumnView>,
    decodings: Seq<DecodingView>,
    count: nat,
)
    ensures
        match prepare::rows_among(fragments, batch, columns, decodings, count) {
            Ok(rows) => rows.len() == count && forall|i: int|
                0 <= i < count ==> (#[trigger] rows[i]) == row_compare::row_at(
                    batch,
                    i,
                    rows[i].blobs,
                ) && prepare::identities_of_row(fragments, batch, columns, decodings, i) == Ok::<
                    Seq<(Seq<char>, IdentityView)>,
                    BatchFault,
                >(rows[i].blobs),
            Err(fault) => exists|i: int|
                0 <= i < count && #[trigger] prepare::identities_of_row(
                    fragments,
                    batch,
                    columns,
                    decodings,
                    i,
                ) == Err::<Seq<(Seq<char>, IdentityView)>, BatchFault>(fault),
        },
    decreases count,
{
    if count > 0 {
        lemma_rows(fragments, batch, columns, decodings, (count - 1) as nat);
        match prepare::rows_among(fragments, batch, columns, decodings, (count - 1) as nat) {
            Ok(before) => {
                match prepare::identities_of_row(fragments, batch, columns, decodings, count - 1) {
                    Ok(_) => {},
                    Err(_) => {},
                }
            },
            Err(_) => {},
        }
    }
}

proof fn lemma_sorted(columns: Seq<BlobColumnView>)
    ensures
        prepare::in_name_order(columns).len() == columns.len(),
        forall|column: BlobColumnView| #[trigger]
            prepare::in_name_order(columns).contains(column) <==> columns.contains(column),
        forall|i: int, j: int|
            0 <= i <= j < columns.len() ==> !text::text_less(
                (#[trigger] prepare::in_name_order(columns)[j]).name,
                (#[trigger] prepare::in_name_order(columns)[i]).name,
            ),
{
    broadcast use vstd::seq_lib::group_to_multiset_ensures;

    prepare::name_order_sorts_the_columns(columns);
    let sorted = prepare::in_name_order(columns);
    assert(sorted.len() == sorted.to_multiset().len());
    assert(columns.len() == columns.to_multiset().len());
    assert forall|column: BlobColumnView| #[trigger] sorted.contains(column) <==> columns.contains(
        column,
    ) by {
        assert(sorted.contains(column) <==> sorted.to_multiset().count(column) > 0);
        assert(columns.contains(column) <==> columns.to_multiset().count(column) > 0);
    }
}

/// A prepared batch has one row for each of its own, in its order, and each is
/// that row of the batch.
pub proof fn every_row_is_prepared(
    fragments: Seq<Fragment>,
    schema: Schema,
    batch: Batch,
    decodings: Seq<DecodingView>,
    rows: Seq<RowView>,
)
    requires
        prepare::prepared(fragments, schema, batch, decodings) == Ok::<Seq<RowView>, BatchFault>(
            rows,
        ),
    ensures
        rows.len() == batch::batch_rows(batch),
        forall|i: int|
            0 <= i < rows.len() ==> (#[trigger] rows[i]).id == batch::batch_texts(batch)["id"@][i]
                && rows[i] == row_compare::row_at(batch, i, rows[i].blobs),
        forall|i: int, c: int|
            0 <= i < rows.len() && 0 <= c < batch::batch_columns(batch).len()
                ==> #[trigger] rows[i].cells[c] == (
                batch::batch_columns(batch)[c].0,
                batch::batch_columns(batch)[c].1[i],
            ),
{
    let total = batch::batch_columns(batch).len();
    match prepare::blob_columns_among(schema, batch, decodings, total) {
        Ok(columns) => {
            lemma_rows(
                fragments,
                batch,
                prepare::in_name_order(columns),
                decodings,
                batch::batch_rows(batch),
            );
        },
        Err(_) => {},
    }
}

/// Every row carries its own Blobs. For every row `i` and every Blob column, the
/// one that the decoding in `slot` belongs to, the row has an identity under that
/// column's name: the one that the `i`-th descriptor of that decoding names in
/// the data file that holds the column's field in the fragment of the row's own
/// address.
pub proof fn every_row_carries_its_own_blobs(
    fragments: Seq<Fragment>,
    schema: Schema,
    batch: Batch,
    decodings: Seq<DecodingView>,
    rows: Seq<RowView>,
    i: int,
    slot: int,
)
    requires
        prepare::prepared(fragments, schema, batch, decodings) == Ok::<Seq<RowView>, BatchFault>(
            rows,
        ),
        0 <= i < rows.len(),
        0 <= slot < prepare::all_descriptor_columns(batch).len(),
    ensures
        ({
            let name = batch::batch_columns(batch)[prepare::all_descriptor_columns(
                batch,
            )[slot]].0;
            let fragment_id = batch::batch_numbers(batch)["_rowaddr"@][i] >> 32u64;
            &&& batch::batch_numbers(batch).contains_key("_rowaddr"@)
            &&& schema::schema_field_ids(schema).contains_key(name)
            &&& table::fragment_map(fragments).contains_key(fragment_id)
            &&& table::first_file_with(
                table::fragment_map(fragments)[fragment_id].files@,
                schema::schema_field_ids(schema)[name],
            ) matches Some(path)
            &&& decodings[slot] matches DecodingView::Rows(descriptors)
            &&& descriptors[i] matches Ok(descriptor)
            &&& rows[i].blobs.contains((name, descriptor.in_file(path)))
        }),
{
    let total = batch::batch_columns(batch).len();
    lemma_columns(schema, batch, decodings, total);
    match prepare::blob_columns_among(schema, batch, decodings, total) {
        Ok(columns) => {
            let sorted = prepare::in_name_order(columns);
            let fragment_id = batch::batch_numbers(batch)["_rowaddr"@][i] >> 32u64;
            lemma_sorted(columns);
            lemma_rows(fragments, batch, sorted, decodings, batch::batch_rows(batch));
            assert(prepare::identities_of_row(fragments, batch, sorted, decodings, i) == Ok::<
                Seq<(Seq<char>, IdentityView)>,
                BatchFault,
            >(rows[i].blobs));
            lemma_identities(fragments, sorted, decodings, fragment_id, i);
            assert(columns.contains(columns[slot]));
            assert(sorted.contains(columns[slot]));
            let k = choose|k: int| 0 <= k < sorted.len() && sorted[k] == columns[slot];
            assert(is_identity(fragments, sorted[k], decodings, fragment_id, i, rows[i].blobs[k]));
            assert(rows[i].blobs[k] == rows[i].blobs[k]);
        },
        Err(_) => {},
    }
}

/// A row carries no other Blobs: there are as many as there are Blob columns,
/// each stands for one of these, and they come in the order of their names.
pub proof fn no_row_carries_other_blobs(
    fragments: Seq<Fragment>,
    schema: Schema,
    batch: Batch,
    decodings: Seq<DecodingView>,
    rows: Seq<RowView>,
    i: int,
    k: int,
)
    requires
        prepare::prepared(fragments, schema, batch, decodings) == Ok::<Seq<RowView>, BatchFault>(
            rows,
        ),
        0 <= i < rows.len(),
        0 <= k < rows[i].blobs.len(),
    ensures
        rows[i].blobs.len() == prepare::all_descriptor_columns(batch).len(),
        forall|a: int, b: int|
            0 <= a <= b < rows[i].blobs.len() ==> !text::text_less(
                (#[trigger] rows[i].blobs[b]).0,
                (#[trigger] rows[i].blobs[a]).0,
            ),
        exists|slot: int|
            0 <= slot < prepare::all_descriptor_columns(batch).len() && rows[i].blobs[k].0
                == batch::batch_columns(
                batch,
            )[#[trigger] prepare::all_descriptor_columns(batch)[slot]].0 && (
            decodings[slot]->Rows_0[i] matches Ok(descriptor) && table::first_file_with(
                table::fragment_map(fragments)[batch::batch_numbers(batch)["_rowaddr"@][i]
                    >> 32u64].files@,
                schema::schema_field_ids(schema)[rows[i].blobs[k].0],
            ) matches Some(path) && rows[i].blobs[k].1 == descriptor.in_file(path)),
{
    let total = batch::batch_columns(batch).len();
    lemma_columns(schema, batch, decodings, total);
    match prepare::blob_columns_among(schema, batch, decodings, total) {
        Ok(columns) => {
            let sorted = prepare::in_name_order(columns);
            let fragment_id = batch::batch_numbers(batch)["_rowaddr"@][i] >> 32u64;
            let blobs = rows[i].blobs;
            lemma_sorted(columns);
            lemma_rows(fragments, batch, sorted, decodings, batch::batch_rows(batch));
            assert(prepare::identities_of_row(fragments, batch, sorted, decodings, i) == Ok::<
                Seq<(Seq<char>, IdentityView)>,
                BatchFault,
            >(blobs));
            lemma_identities(fragments, sorted, decodings, fragment_id, i);
            assert forall|a: int, b: int| 0 <= a <= b < blobs.len() implies !text::text_less(
                (#[trigger] blobs[b]).0,
                (#[trigger] blobs[a]).0,
            ) by {
                assert(is_identity(fragments, sorted[a], decodings, fragment_id, i, blobs[a]));
                assert(is_identity(fragments, sorted[b], decodings, fragment_id, i, blobs[b]));
            }
            assert(is_identity(fragments, sorted[k], decodings, fragment_id, i, blobs[k]));
            assert(sorted.contains(sorted[k]));
            let slot = choose|s: int| 0 <= s < columns.len() && columns[s] == sorted[k];
            assert(columns[slot].slot == slot);
            assert(prepare::all_descriptor_columns(batch)[slot]
                == prepare::all_descriptor_columns(batch)[slot]);
        },
        Err(_) => {},
    }
}

/// A batch that is refused has the fault that it is refused for.
pub proof fn a_refused_batch_has_the_fault(
    fragments: Seq<Fragment>,
    schema: Schema,
    batch: Batch,
    decodings: Seq<DecodingView>,
    fault: BatchFault,
)
    requires
        prepare::prepared(fragments, schema, batch, decodings) == Err::<Seq<RowView>, BatchFault>(
            fault,
        ),
    ensures
        match fault {
            BatchFault::NoId => !batch::batch_texts(batch).contains_key("id"@),
            BatchFault::FieldRefused { kind } => exists|c: int|
                0 <= c < batch::batch_columns(batch).len() && !model::reserved_column(
                    #[trigger] batch::batch_columns(batch)[c].0,
                ) && batch::batch_refusals(batch)[c] == Some(kind),
            BatchFault::NoDescriptions { column } => exists|c: int|
                0 <= c < batch::batch_columns(batch).len() && #[trigger] batch::batch_columns(batch)[c].0
                    == column && !model::reserved_column(column) && batch::marks_blob(
                    batch::batch_metadata(batch)[c],
                ) && !batch::batch_structs(batch)[c],
            BatchFault::NoFieldId { column } => !schema::schema_field_ids(schema).contains_key(
                column,
            ) && exists|s: int|
                0 <= s < prepare::all_descriptor_columns(batch).len() && batch::batch_columns(
                    batch,
                )[#[trigger] prepare::all_descriptor_columns(batch)[s]].0 == column,
            BatchFault::Unreadable { reason } => exists|s: int|
                0 <= s < prepare::all_descriptor_columns(batch).len() && #[trigger] decodings[s]
                    == DecodingView::Unreadable(reason),
            BatchFault::NoRowAddress => !batch::batch_numbers(batch).contains_key("_rowaddr"@)
                && prepare::all_descriptor_columns(batch).len() > 0,
            BatchFault::NoFragment { fragment_id } => !table::fragment_map(
                fragments,
            ).contains_key(fragment_id) && exists|i: int|
                0 <= i < batch::batch_rows(batch) && (#[trigger] batch::batch_numbers(
                    batch,
                )["_rowaddr"@][i]) >> 32u64 == fragment_id,
            BatchFault::NoDataFile { fragment_id, field_id } => table::fragment_map(
                fragments,
            ).contains_key(fragment_id) && table::first_file_with(
                table::fragment_map(fragments)[fragment_id].files@,
                field_id,
            ) is None && (exists|i: int|
                0 <= i < batch::batch_rows(batch) && (#[trigger] batch::batch_numbers(
                    batch,
                )["_rowaddr"@][i]) >> 32u64 == fragment_id) && (exists|s: int|
                0 <= s < prepare::all_descriptor_columns(batch).len()
                    && schema::schema_field_ids(schema)[batch::batch_columns(
                    batch,
                )[#[trigger] prepare::all_descriptor_columns(batch)[s]].0] == field_id),
            BatchFault::Contradiction { reason } => exists|i: int, s: int|
                0 <= i < batch::batch_rows(batch) && 0 <= s < prepare::all_descriptor_columns(
                    batch,
                ).len() && (#[trigger] decodings[s]->Rows_0[i] matches Err(said) && said == reason),
        },
{
    let total = batch::batch_columns(batch).len();
    lemma_columns(schema, batch, decodings, total);
    if batch::batch_texts(batch).contains_key("id"@) {
        match prepare::blob_columns_among(schema, batch, decodings, total) {
            Ok(columns) => {
                let sorted = prepare::in_name_order(columns);
                lemma_sorted(columns);
                if !(columns.len() > 0 && !batch::batch_numbers(batch).contains_key("_rowaddr"@)) {
                    lemma_rows(fragments, batch, sorted, decodings, batch::batch_rows(batch));
                    let i = choose|i: int|
                        0 <= i < batch::batch_rows(batch) && #[trigger] prepare::identities_of_row(
                            fragments,
                            batch,
                            sorted,
                            decodings,
                            i,
                        ) == Err::<Seq<(Seq<char>, IdentityView)>, BatchFault>(fault);
                    let fragment_id = batch::batch_numbers(batch)["_rowaddr"@][i] >> 32u64;
                    lemma_identities(fragments, sorted, decodings, fragment_id, i);
                    let k = choose|k: int|
                        0 <= k < sorted.len() && #[trigger] identity_fault(
                            fragments,
                            sorted[k],
                            decodings,
                            fragment_id,
                            i,
                            fault,
                        );
                    assert(sorted.contains(sorted[k]));
                    let s = choose|s: int| 0 <= s < columns.len() && columns[s] == sorted[k];
                    assert(columns[s].slot == s);
                    let c = prepare::all_descriptor_columns(batch)[s];
                    match fault {
                        BatchFault::Contradiction { reason } => {
                            assert(decodings[s]->Rows_0[i] matches Err(said) && said == reason);
                        },
                        _ => {},
                    }
                }
            },
            Err(_) => {},
        }
    }
}

/// A batch is prepared where nothing stands against it: it has a string id, every
/// user column is accepted by Lance and, where it is a Blob, has descriptors, a
/// field id and a decoding, and every row of a batch with Blobs has an address in
/// a known fragment with a data file for each of them, and a sound descriptor.
pub proof fn a_sound_batch_is_prepared(
    fragments: Seq<Fragment>,
    schema: Schema,
    batch: Batch,
    decodings: Seq<DecodingView>,
)
    requires
        batch::batch_texts(batch).contains_key("id"@),
        forall|c: int|
            0 <= c < batch::batch_columns(batch).len() && !model::reserved_column(
                #[trigger] batch::batch_columns(batch)[c].0,
            ) ==> batch::batch_refusals(batch)[c] is None && (batch::marks_blob(
                batch::batch_metadata(batch)[c],
            ) ==> batch::batch_structs(batch)[c]),
        forall|s: int|
            0 <= s < prepare::all_descriptor_columns(batch).len() ==> (#[trigger] decodings[s]) is Rows
                && schema::schema_field_ids(schema).contains_key(
                batch::batch_columns(batch)[prepare::all_descriptor_columns(batch)[s]].0,
            ),
        prepare::all_descriptor_columns(batch).len() > 0 ==> batch::batch_numbers(
            batch,
        ).contains_key("_rowaddr"@),
        forall|i: int, s: int|
            0 <= i < batch::batch_rows(batch) && 0 <= s < prepare::all_descriptor_columns(
                batch,
            ).len() ==> (#[trigger] decodings[s]->Rows_0[i]) is Ok && table::fragment_map(
                fragments,
            ).contains_key(batch::batch_numbers(batch)["_rowaddr"@][i] >> 32u64)
                && table::first_file_with(
                table::fragment_map(fragments)[batch::batch_numbers(batch)["_rowaddr"@][i]
                    >> 32u64].files@,
                schema::schema_field_ids(schema)[batch::batch_columns(
                    batch,
                )[prepare::all_descriptor_columns(batch)[s]].0],
            ) is Some,
    ensures
        prepare::prepared(fragments, schema, batch, decodings) is Ok,
{
    let total = batch::batch_columns(batch).len();
    lemma_columns(schema, batch, decodings, total);
    match prepare::blob_columns_among(schema, batch, decodings, total) {
        Ok(columns) => {
            let sorted = prepare::in_name_order(columns);
            lemma_sorted(columns);
            lemma_rows(fragments, batch, sorted, decodings, batch::batch_rows(batch));
            match prepare::rows_among(
                fragments,
                batch,
                sorted,
                decodings,
                batch::batch_rows(batch),
            ) {
                Ok(_) => {},
                Err(fault) => {
                    let i = choose|i: int|
                        0 <= i < batch::batch_rows(batch) && #[trigger] prepare::identities_of_row(
                            fragments,
                            batch,
                            sorted,
                            decodings,
                            i,
                        ) == Err::<Seq<(Seq<char>, IdentityView)>, BatchFault>(fault);
                    let fragment_id = batch::batch_numbers(batch)["_rowaddr"@][i] >> 32u64;
                    lemma_identities(fragments, sorted, decodings, fragment_id, i);
                    let k = choose|k: int|
                        0 <= k < sorted.len() && #[trigger] identity_fault(
                            fragments,
                            sorted[k],
                            decodings,
                            fragment_id,
                            i,
                            fault,
                        );
                    assert(sorted.contains(sorted[k]));
                    let s = choose|s: int| 0 <= s < columns.len() && columns[s] == sorted[k];
                    assert(columns[s].slot == s);
                    assert(decodings[s]->Rows_0[i] is Ok);
                },
            }
        },
        Err(fault) => {
            match fault {
                BatchFault::Unreadable { reason } => {
                    let s = choose|s: int|
                        0 <= s < prepare::all_descriptor_columns(batch).len()
                            && #[trigger] decodings[s] == DecodingView::Unreadable(reason);
                    assert(decodings[s] is Rows);
                },
                BatchFault::NoFieldId { column } => {
                    let s = choose|s: int|
                        0 <= s < prepare::all_descriptor_columns(batch).len()
                            && batch::batch_columns(
                            batch,
                        )[#[trigger] prepare::all_descriptor_columns(batch)[s]].0 == column;
                    assert(decodings[s] is Rows);
                },
                _ => {},
            }
        },
    }
}

/// Every fault is reported in its own words, and by its own kind of error.
pub proof fn a_fault_is_told_in_its_own_words(fault: BatchFault, error: OmniError)
    requires
        prepare::reports(fault, error),
    ensures
        match fault {
            BatchFault::Unreadable { reason } => error matches OmniError::BlobIntegrity {
                reason: said,
            } && said@ == reason,
            BatchFault::Contradiction { reason } => error matches OmniError::BlobIntegrity {
                reason: said,
            } && said@ == reason,
            BatchFault::FieldRefused { kind } => error matches OmniError::Storage(failure) && Some(
                failure.kind,
            ) == error::lance_condition(kind) && "storage: "@.is_prefix_of(failure.message@),
            BatchFault::NoFieldId { column } => error matches OmniError::Storage(failure)
                && failure.kind == StorageFailureKind::Permanent && ("storage: "@
                + ("blob column '"@ + column + "' has no field id"@) + ": "@).is_prefix_of(
                failure.message@,
            ),
            _ => error matches OmniError::Storage(failure) && failure.kind
                == StorageFailureKind::Unknown && failure.message@ == (match fault {
                BatchFault::NoId => "storage: "@ + "change row is missing string id"@,
                BatchFault::NoDescriptions { column } => "storage: "@
                    + ("expected blob descriptions for change column '"@ + column + "'"@),
                BatchFault::NoRowAddress => "storage: "@
                    + "change scan is missing _rowaddr; managed Blob comparison needs the owning data file"@,
                BatchFault::NoFragment { fragment_id } => "storage: "@
                    + ("change scan referenced fragment "@ + text::decimal(fragment_id as nat)
                    + " absent from the manifest"@),
                BatchFault::NoDataFile { fragment_id, field_id } => "storage: "@ + ("fragment "@
                    + text::decimal(fragment_id as nat) + " has no data file for blob field "@
                    + table::signed_decimal(field_id)),
                _ => failure.message@,
            }),
        },
{
}

/// The decodings fit a batch exactly where there is one for each of its Blob
/// columns with descriptors, and each that could be read has one entry per row.
pub proof fn decodings_fit_column_by_column(batch: Batch, decodings: Seq<DecodingView>)
    ensures
        prepare::decodings_fit(batch, decodings) <==> decodings.len()
            == prepare::all_descriptor_columns(batch).len() && (forall|i: int|
            0 <= i < decodings.len() ==> (#[trigger] decodings[i] matches DecodingView::Rows(rows)
                ==> rows.len() == batch::batch_rows(batch))),
{
}

/// A prepared row holds its own row of the batch and nothing else of it.
pub proof fn prepared_rows_hold_their_slices(batch: Batch, rows: Seq<RawRow>, i: int, slice: Batch)
    ensures
        prepare::are_slices(batch, rows) && 0 <= i < rows.len() ==> rows.len()
            == batch::batch_rows(batch) && batch::batch_view(rows[i].batch()) == batch::one_row(
            batch::batch_view(batch),
            i,
        ),
        batch::is_row_slice(batch, i, slice) <==> batch::batch_view(slice) == batch::one_row(
            batch::batch_view(batch),
            i,
        ),
{
}

/// Whether nothing stands against a column: it is reserved, or Lance accepts its
/// field and it is no Blob, or it is one with descriptors, a field id and a
/// decoding that could be read.
pub open spec fn is_sound_column(
    schema: Schema,
    batch: Batch,
    decodings: Seq<DecodingView>,
    c: int,
) -> bool {
    let name = batch::batch_columns(batch)[c].0;
    model::reserved_column(name) || (batch::batch_refusals(batch)[c] is None && (batch::marks_blob(
        batch::batch_metadata(batch)[c],
    ) ==> batch::batch_structs(batch)[c] && schema::schema_field_ids(schema).contains_key(name) && (
    forall|s: int|
        0 <= s < prepare::all_descriptor_columns(batch).len()
            && #[trigger] prepare::all_descriptor_columns(batch)[s] == c ==> decodings[s] is Rows)))
}

/// Whether the Blob of a row under the decoding in `slot` can be known: the row
/// lies in a known fragment with a data file for the column, and its descriptor
/// is sound.
pub open spec fn is_sound_blob(
    fragments: Seq<Fragment>,
    schema: Schema,
    batch: Batch,
    decodings: Seq<DecodingView>,
    row: int,
    slot: int,
) -> bool {
    let name = batch::batch_columns(batch)[prepare::all_descriptor_columns(batch)[slot]].0;
    let fragment_id = batch::batch_numbers(batch)["_rowaddr"@][row] >> 32u64;
    &&& table::fragment_map(fragments).contains_key(fragment_id)
    &&& table::first_file_with(
        table::fragment_map(fragments)[fragment_id].files@,
        schema::schema_field_ids(schema)[name],
    ) is Some
    &&& decodings[slot]->Rows_0[row] is Ok
}

/// Whether a fault is the first that stands against a column.
pub open spec fn is_fault_of_column(
    schema: Schema,
    batch: Batch,
    decodings: Seq<DecodingView>,
    c: int,
    fault: BatchFault,
) -> bool {
    let name = batch::batch_columns(batch)[c].0;
    let refused = batch::batch_refusals(batch)[c];
    &&& !model::reserved_column(name)
    &&& if refused is Some {
        fault == (BatchFault::FieldRefused { kind: refused->0 })
    } else {
        &&& batch::marks_blob(batch::batch_metadata(batch)[c])
        &&& if !batch::batch_structs(batch)[c] {
            fault == (BatchFault::NoDescriptions { column: name })
        } else if !schema::schema_field_ids(schema).contains_key(name) {
            fault == (BatchFault::NoFieldId { column: name })
        } else {
            exists|s: int|
                0 <= s < prepare::all_descriptor_columns(batch).len()
                    && #[trigger] prepare::all_descriptor_columns(batch)[s] == c && (
                decodings[s] matches DecodingView::Unreadable(reason) && fault == (
                BatchFault::Unreadable { reason }))
        }
    }
}

/// Whether a fault is the first that stands against the Blob of a row.
pub open spec fn is_fault_of_blob(
    fragments: Seq<Fragment>,
    schema: Schema,
    batch: Batch,
    decodings: Seq<DecodingView>,
    row: int,
    slot: int,
    fault: BatchFault,
) -> bool {
    let name = batch::batch_columns(batch)[prepare::all_descriptor_columns(batch)[slot]].0;
    let field_id = schema::schema_field_ids(schema)[name];
    let fragment_id = batch::batch_numbers(batch)["_rowaddr"@][row] >> 32u64;
    if !table::fragment_map(fragments).contains_key(fragment_id) {
        fault == (BatchFault::NoFragment { fragment_id })
    } else if table::first_file_with(
        table::fragment_map(fragments)[fragment_id].files@,
        field_id,
    ) is None {
        fault == (BatchFault::NoDataFile { fragment_id, field_id })
    } else {
        decodings[slot]->Rows_0[row] matches Err(reason) && fault == (BatchFault::Contradiction {
            reason,
        })
    }
}

proof fn lemma_first_column_fault(
    schema: Schema,
    batch: Batch,
    decodings: Seq<DecodingView>,
    count: nat,
)
    requires
        count <= batch::batch_columns(batch).len(),
    ensures
        match prepare::blob_columns_among(schema, batch, decodings, count) {
            Ok(_) => forall|c: int|
                0 <= c < count ==> #[trigger] is_sound_column(schema, batch, decodings, c),
            Err(fault) => exists|c: int|
                0 <= c < count && #[trigger] is_fault_of_column(schema, batch, decodings, c, fault)
                    && (forall|d: int|
                    0 <= d < c ==> #[trigger] is_sound_column(schema, batch, decodings, d)),
        },
    decreases count,
{
    if count > 0 {
        let index = count - 1;
        let total = batch::batch_columns(batch).len();
        let slot = prepare::descriptor_columns(batch, index as nat).len() as int;
        lemma_first_column_fault(schema, batch, decodings, index as nat);
        lemma_descriptor_columns(batch, total);
        lemma_prefix_columns(batch, index as nat, total);
        match prepare::blob_columns_among(schema, batch, decodings, index as nat) {
            Ok(_) => {
                if prepare::holds_descriptors(batch, index) {
                    let listed = prepare::all_descriptor_columns(batch);
                    assert(listed[slot] == index);
                    assert forall|s: int|
                        0 <= s < listed.len() && #[trigger] listed[s] == index implies s == slot by {
                        if s < slot {
                            assert(listed[s] < listed[slot]);
                        } else if s > slot {
                            assert(listed[slot] < listed[s]);
                        }
                    }
                    match decodings[slot] {
                        DecodingView::Unreadable(_) => {},
                        DecodingView::Rows(_) => {},
                    }
                }
                match prepare::blob_columns_among(schema, batch, decodings, count) {
                    Ok(_) => {
                        assert(is_sound_column(schema, batch, decodings, index));
                    },
                    Err(fault) => {
                        assert(is_fault_of_column(schema, batch, decodings, index, fault));
                    },
                }
            },
            Err(_) => {},
        }
    }
}

proof fn lemma_first_identity_fault(
    fragments: Seq<Fragment>,
    columns: Seq<BlobColumnView>,
    decodings: Seq<DecodingView>,
    fragment_id: u64,
    row: int,
)
    ensures
        prepare::identities_in(fragments, columns, decodings, fragment_id, row) matches Err(fault)
            ==> exists|k: int|
            0 <= k < columns.len() && #[trigger] fault_at(
                fragments,
                columns,
                decodings,
                fragment_id,
                row,
                k,
            ) == Some(fault) && (forall|l: int|
                0 <= l < k ==> #[trigger] fault_at(
                    fragments,
                    columns,
                    decodings,
                    fragment_id,
                    row,
                    l,
                ) is None),
        prepare::identities_in(fragments, columns, decodings, fragment_id, row) is Ok ==> forall|
            l: int,
        |
            0 <= l < columns.len() ==> #[trigger] fault_at(
                fragments,
                columns,
                decodings,
                fragment_id,
                row,
                l,
            ) is None,
    decreases columns.len(),
{
    if columns.len() > 0 {
        let rest = columns.drop_last();
        let last = columns.len() - 1;
        lemma_first_identity_fault(fragments, rest, decodings, fragment_id, row);
        assert forall|l: int| 0 <= l < last implies #[trigger] fault_at(
            fragments,
            columns,
            decodings,
            fragment_id,
            row,
            l,
        ) == fault_at(fragments, rest, decodings, fragment_id, row, l) by {
            assert(columns[l] == rest[l]);
        }
        match prepare::identities_in(fragments, rest, decodings, fragment_id, row) {
            Ok(_) => {
                match prepare::identities_in(fragments, columns, decodings, fragment_id, row) {
                    Ok(_) => {
                        assert(fault_at(fragments, columns, decodings, fragment_id, row, last) is None);
                    },
                    Err(fault) => {
                        assert(fault_at(fragments, columns, decodings, fragment_id, row, last)
                            == Some(fault));
                    },
                }
            },
            Err(fault) => {
                let k = choose|k: int|
                    0 <= k < rest.len() && #[trigger] fault_at(
                        fragments,
                        rest,
                        decodings,
                        fragment_id,
                        row,
                        k,
                    ) == Some(fault) && (forall|l: int|
                        0 <= l < k ==> #[trigger] fault_at(
                            fragments,
                            rest,
                            decodings,
                            fragment_id,
                            row,
                            l,
                        ) is None);
                assert(fault_at(fragments, columns, decodings, fragment_id, row, k) == Some(fault));
            },
        }
    }
}

spec fn fault_at(
    fragments: Seq<Fragment>,
    columns: Seq<BlobColumnView>,
    decodings: Seq<DecodingView>,
    fragment_id: u64,
    row: int,
    k: int,
) -> Option<BatchFault> {
    let by_id = table::fragment_map(fragments);
    let field_id = columns[k].field_id;
    if !by_id.contains_key(fragment_id) {
        Some(BatchFault::NoFragment { fragment_id })
    } else if table::first_file_with(by_id[fragment_id].files@, field_id) is None {
        Some(BatchFault::NoDataFile { fragment_id, field_id })
    } else {
        match decodings[columns[k].slot]->Rows_0[row] {
            Err(reason) => Some(BatchFault::Contradiction { reason }),
            Ok(_) => None,
        }
    }
}

proof fn lemma_first_row_fault(
    fragments: Seq<Fragment>,
    batch: Batch,
    columns: Seq<BlobColumnView>,
    decodings: Seq<DecodingView>,
    count: nat,
)
    ensures
        prepare::rows_among(fragments, batch, columns, decodings, count) matches Err(fault)
            ==> exists|i: int|
            0 <= i < count && #[trigger] prepare::identities_of_row(
                fragments,
                batch,
                columns,
                decodings,
                i,
            ) == Err::<Seq<(Seq<char>, IdentityView)>, BatchFault>(fault) && (forall|h: int|
                0 <= h < i ==> #[trigger] prepare::identities_of_row(
                    fragments,
                    batch,
                    columns,
                    decodings,
                    h,
                ) is Ok),
        prepare::rows_among(fragments, batch, columns, decodings, count) is Ok ==> forall|h: int|
            0 <= h < count ==> #[trigger] prepare::identities_of_row(
                fragments,
                batch,
                columns,
                decodings,
                h,
            ) is Ok,
    decreases count,
{
    if count > 0 {
        lemma_first_row_fault(fragments, batch, columns, decodings, (count - 1) as nat);
        match prepare::identities_of_row(fragments, batch, columns, decodings, count - 1) {
            Ok(_) => {},
            Err(_) => {},
        }
    }
}

/// The first fault is the one reported: a missing id before all else, then the
/// first faulty column in schema order, then a missing address, then the first
/// faulty row, and in it the first faulty Blob in name order.
pub proof fn the_first_fault_is_reported(
    fragments: Seq<Fragment>,
    schema: Schema,
    batch: Batch,
    decodings: Seq<DecodingView>,
    fault: BatchFault,
)
    requires
        prepare::prepared(fragments, schema, batch, decodings) == Err::<Seq<RowView>, BatchFault>(
            fault,
        ),
    ensures
        fault is NoId <==> !batch::batch_texts(batch).contains_key("id"@),
        fault is FieldRefused || fault is NoDescriptions || fault is NoFieldId
            || fault is Unreadable ==> exists|c: int|
            0 <= c < batch::batch_columns(batch).len() && #[trigger] is_fault_of_column(
                schema,
                batch,
                decodings,
                c,
                fault,
            ) && (forall|d: int|
                0 <= d < c ==> #[trigger] is_sound_column(schema, batch, decodings, d)),
        fault is NoRowAddress || fault is NoFragment || fault is NoDataFile
            || fault is Contradiction ==> forall|d: int|
            0 <= d < batch::batch_columns(batch).len() ==> #[trigger] is_sound_column(
                schema,
                batch,
                decodings,
                d,
            ),
        fault is NoRowAddress <==> batch::batch_texts(batch).contains_key("id"@) && (forall|d: int|
            0 <= d < batch::batch_columns(batch).len() ==> #[trigger] is_sound_column(
                schema,
                batch,
                decodings,
                d,
            )) && prepare::all_descriptor_columns(batch).len() > 0 && !batch::batch_numbers(
            batch,
        ).contains_key("_rowaddr"@),
        fault is NoFragment || fault is NoDataFile || fault is Contradiction ==> exists|
            i: int,
            s: int,
        |
            0 <= i < batch::batch_rows(batch) && 0 <= s < prepare::all_descriptor_columns(
                batch,
            ).len() && #[trigger] is_fault_of_blob(
                fragments,
                schema,
                batch,
                decodings,
                i,
                s,
                fault,
            ) && (forall|h: int, t: int|
                0 <= h < i && 0 <= t < prepare::all_descriptor_columns(batch).len()
                    ==> #[trigger] is_sound_blob(fragments, schema, batch, decodings, h, t)) && (
            forall|t: int|
                0 <= t < prepare::all_descriptor_columns(batch).len() && text::text_less(
                    batch::batch_columns(batch)[prepare::all_descriptor_columns(batch)[t]].0,
                    batch::batch_columns(batch)[prepare::all_descriptor_columns(batch)[s]].0,
                ) ==> #[trigger] is_sound_blob(fragments, schema, batch, decodings, i, t)),
{
    let total = batch::batch_columns(batch).len();
    let listed = prepare::all_descriptor_columns(batch);
    lemma_columns(schema, batch, decodings, total);
    lemma_first_column_fault(schema, batch, decodings, total);
    if batch::batch_texts(batch).contains_key("id"@) {
        match prepare::blob_columns_among(schema, batch, decodings, total) {
            Ok(columns) => {
                let sorted = prepare::in_name_order(columns);
                lemma_sorted(columns);
                if columns.len() == 0 || batch::batch_numbers(batch).contains_key("_rowaddr"@) {
                    let all = batch::batch_rows(batch);
                    lemma_first_row_fault(fragments, batch, sorted, decodings, all);
                    let i = choose|i: int|
                        0 <= i < all && #[trigger] prepare::identities_of_row(
                            fragments,
                            batch,
                            sorted,
                            decodings,
                            i,
                        ) == Err::<Seq<(Seq<char>, IdentityView)>, BatchFault>(fault) && (forall|
                            h: int,
                        |
                            0 <= h < i ==> #[trigger] prepare::identities_of_row(
                                fragments,
                                batch,
                                sorted,
                                decodings,
                                h,
                            ) is Ok);
                    let here = batch::batch_numbers(batch)["_rowaddr"@][i] >> 32u64;
                    lemma_first_identity_fault(fragments, sorted, decodings, here, i);
                    let k = choose|k: int|
                        0 <= k < sorted.len() && #[trigger] fault_at(
                            fragments,
                            sorted,
                            decodings,
                            here,
                            i,
                            k,
                        ) == Some(fault) && (forall|l: int|
                            0 <= l < k ==> #[trigger] fault_at(
                                fragments,
                                sorted,
                                decodings,
                                here,
                                i,
                                l,
                            ) is None);
                    assert(sorted.contains(sorted[k]));
                    let s = choose|s: int| 0 <= s < columns.len() && columns[s] == sorted[k];
                    assert(columns[s].slot == s);
                    assert(is_fault_of_blob(fragments, schema, batch, decodings, i, s, fault));
                    assert forall|h: int, t: int|
                        0 <= h < i && 0 <= t < listed.len() implies #[trigger] is_sound_blob(
                        fragments,
                        schema,
                        batch,
                        decodings,
                        h,
                        t,
                    ) by {
                        let there = batch::batch_numbers(batch)["_rowaddr"@][h] >> 32u64;
                        assert(prepare::identities_of_row(fragments, batch, sorted, decodings, h)
                            is Ok);
                        lemma_first_identity_fault(fragments, sorted, decodings, there, h);
                        assert(columns.contains(columns[t]));
                        assert(sorted.contains(columns[t]));
                        let l = choose|l: int| 0 <= l < sorted.len() && sorted[l] == columns[t];
                        assert(fault_at(fragments, sorted, decodings, there, h, l) is None);
                        assert(columns[t].slot == t);
                    }
                    assert forall|t: int|
                        0 <= t < listed.len() && text::text_less(
                            batch::batch_columns(batch)[listed[t]].0,
                            batch::batch_columns(batch)[listed[s]].0,
                        ) implies #[trigger] is_sound_blob(
                        fragments,
                        schema,
                        batch,
                        decodings,
                        i,
                        t,
                    ) by {
                        assert(columns.contains(columns[t]));
                        assert(sorted.contains(columns[t]));
                        let l = choose|l: int| 0 <= l < sorted.len() && sorted[l] == columns[t];
                        assert(columns[t].slot == t);
                        assert(sorted[l].name == batch::batch_columns(batch)[listed[t]].0);
                        assert(sorted[k].name == batch::batch_columns(batch)[listed[s]].0);
                        if l >= k {
                            assert(!text::text_less(sorted[l].name, sorted[k].name));
                        }
                        assert(fault_at(fragments, sorted, decodings, here, i, l) is None);
                    }
                }
            },
            Err(_) => {
                let c = choose|c: int|
                    0 <= c < total && #[trigger] is_fault_of_column(
                        schema,
                        batch,
                        decodings,
                        c,
                        fault,
                    ) && (forall|d: int|
                        0 <= d < c ==> #[trigger] is_sound_column(schema, batch, decodings, d));
                assert(!is_sound_column(schema, batch, decodings, c));
            },
        }
    }
}

} // verus!
