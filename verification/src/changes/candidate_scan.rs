//! Candidate pruning for the change enumerator.
//!
//! The exact merge reads both versions of a table whole. Where a commit's effect
//! on a table provably kept the set of its rows, the same changes follow from
//! the rows that the commit touched and a probe of the parent for their before
//! images. This module decides whether that is so, and does it; on any doubt the
//! exact merge is used.
//!
//! No delete pass is needed on the pruned path: an append adds rows, and an
//! update that carries a durable proof that it removed none keeps every id, so
//! no id can disappear. Every other operation falls back. The shape of an update
//! alone is no proof, since an update adopted from outside may have removed
//! rows.

use std::collections::HashSet;

use vstd::prelude::*;

use crate::changes::table::{self, Fragment, FragmentView, TableSnapshot};
use crate::manifest::state::SubTableEntry;
use crate::text::{self, same_text};

verus! {

/// How many candidates one probe of the parent covers.
pub const PARENT_PROBE_CHUNK: usize = 8_192;

/// How many table versions an interval may span to be walked.
pub const CANDIDATE_SCAN_MAX_VERSIONS: u64 = 1_024;

/// The transaction property by which a keyed write says that it deletes no row
/// for its absence from the source.
pub const NO_BY_SOURCE_DELETE_PROPERTY: &'static str = "omnigraph.no_by_source_delete";

pub const NO_BY_SOURCE_DELETE_V1: &'static str = "v1";

/// The transaction property, and its value, by which a strict insert certifies
/// that it only inserts.
#[derive(Debug)]
pub struct InsertAbsence {
    pub property: String,
    pub value: String,
}

/// How an update rewrote its rows.
#[derive(Debug, Clone, Copy, PartialEq, Eq, Structural)]
pub enum UpdateMode {
    RewriteRows,
    RewriteColumns,
}

/// The operation of a table transaction.
#[derive(Debug)]
pub enum Operation {
    Append { fragments: Vec<Fragment> },
    Delete {
        updated_fragments: Vec<Fragment>,
        deleted_fragment_ids: Vec<u64>,
        predicate: String,
    },
    Overwrite,
    CreateIndex,
    Rewrite,
    DataReplacement,
    DataOverlay,
    Merge,
    Restore { version: u64 },
    ReserveFragments { num_fragments: u32 },
    Update {
        removed_fragment_ids: Vec<u64>,
        updated_fragments: Vec<Fragment>,
        new_fragments: Vec<Fragment>,
        update_mode: Option<UpdateMode>,
    },
    Project,
    UpdateConfig,
    UpdateMemWalState,
    Clone,
    UpdateBases,
}

/// A table transaction: its operation and its durable properties.
#[derive(Debug)]
pub struct Transaction {
    pub operation: Operation,
    pub properties: Vec<(String, String)>,
}

/// Whether an operation by its shape only adds rows or modifies them in place.
pub open spec fn keeps_rows_by_shape(operation: Operation) -> bool {
    operation is Append || (operation matches Operation::Update { update_mode, .. } && update_mode
        == Some(UpdateMode::RewriteRows))
}

/// Whether a property has a given value.
pub open spec fn has_property(transaction: Transaction, key: Seq<char>, value: Seq<char>) -> bool {
    exists|i: int|
        0 <= i < transaction.properties@.len() && (#[trigger] transaction.properties@[i]).0@ == key
            && transaction.properties@[i].1@ == value
}

/// Whether a transaction carries a durable proof that it removed no row.
pub open spec fn proves_no_delete(transaction: Transaction, certificate: InsertAbsence) -> bool {
    has_property(transaction, NO_BY_SOURCE_DELETE_PROPERTY@, NO_BY_SOURCE_DELETE_V1@)
        || has_property(transaction, certificate.property@, certificate.value@)
}

/// Whether a transaction provably keeps every row.
pub open spec fn keeps_rows(transaction: Transaction, certificate: InsertAbsence) -> bool {
    keeps_rows_by_shape(transaction.operation) && (transaction.operation is Append
        || proves_no_delete(transaction, certificate))
}

/// Whether an operation by its shape only adds rows or modifies them in place.
/// Every variant is listed, so that a new one must be classified here.
pub fn operation_is_row_set_preserving(operation: &Operation) -> (r: bool)
    ensures
        r == keeps_rows_by_shape(*operation),
{
    match operation {
        Operation::Append { .. } => true,
        Operation::Update { update_mode, .. } => match update_mode {
            Some(mode) => *mode == UpdateMode::RewriteRows,
            None => false,
        },
        Operation::Delete { .. }
        | Operation::Overwrite
        | Operation::CreateIndex
        | Operation::Rewrite
        | Operation::DataReplacement
        | Operation::DataOverlay
        | Operation::Merge
        | Operation::Restore { .. }
        | Operation::ReserveFragments { .. }
        | Operation::Project
        | Operation::UpdateConfig
        | Operation::UpdateMemWalState
        | Operation::Clone
        | Operation::UpdateBases => false,
    }
}

fn property_is(transaction: &Transaction, key: &str, value: &str) -> (r: bool)
    ensures
        r == has_property(*transaction, key@, value@),
{
    let mut i: usize = 0;
    while i < transaction.properties.len()
        invariant
            i <= transaction.properties.len(),
            forall|k: int|
                0 <= k < i ==> !((#[trigger] transaction.properties@[k]).0@ == key@
                    && transaction.properties@[k].1@ == value@),
        decreases transaction.properties.len() - i,
    {
        let property = &transaction.properties[i];
        if same_text(property.0.as_str(), key) && same_text(property.1.as_str(), value) {
            assert(transaction.properties@[i as int].0@ == key@);
            return true;
        }
        i = i + 1;
    }
    false
}

pub fn has_no_by_source_delete_marker(transaction: &Transaction) -> (r: bool)
    ensures
        r == has_property(*transaction, NO_BY_SOURCE_DELETE_PROPERTY@, NO_BY_SOURCE_DELETE_V1@),
{
    property_is(transaction, NO_BY_SOURCE_DELETE_PROPERTY, NO_BY_SOURCE_DELETE_V1)
}

pub fn has_insert_absence_certificate(
    transaction: &Transaction,
    certificate: &InsertAbsence,
) -> (r: bool)
    ensures
        r == has_property(*transaction, certificate.property@, certificate.value@),
{
    property_is(transaction, certificate.property.as_str(), certificate.value.as_str())
}

/// Whether a transaction provably keeps every row: an append does, and an update
/// of the right shape does where it carries a durable proof.
pub fn transaction_is_row_set_preserving(
    transaction: &Transaction,
    certificate: &InsertAbsence,
) -> (r: bool)
    ensures
        r == keeps_rows(*transaction, *certificate),
{
    if !operation_is_row_set_preserving(&transaction.operation) {
        return false;
    }
    match &transaction.operation {
        Operation::Append { .. } => true,
        Operation::Update { .. } => has_no_by_source_delete_marker(transaction)
            || has_insert_absence_certificate(transaction, certificate),
        _ => false,
    }
}

/// How many versions an interval spans that may be pruned, as far as that shows
/// without its transactions: one lifetime on one branch, advancing by no more
/// than the scan bound, both handles at their exact versions and with stable
/// row ids.
pub open spec fn eligible_versions(
    from_entry: SubTableEntry,
    to_entry: SubTableEntry,
    from: TableSnapshot,
    to: TableSnapshot,
) -> Option<int> {
    let count = to_entry.table_version - from_entry.table_version;
    if text::text_option(from_entry.table_branch)
        == text::text_option(to_entry.table_branch) && from_entry.identity
        == to_entry.identity && 0 < count <= CANDIDATE_SCAN_MAX_VERSIONS && to.version
        == to_entry.table_version && from.version == from_entry.table_version
        && to.uses_stable_row_ids && from.uses_stable_row_ids {
        Some(count)
    } else {
        None
    }
}

/// Decides whether an interval's transactions are worth walking, and how many
/// there must be.
pub fn interval_version_count(
    from_entry: &SubTableEntry,
    to_entry: &SubTableEntry,
    from_snapshot: &TableSnapshot,
    to_snapshot: &TableSnapshot,
) -> (r: Option<u64>)
    ensures
        match eligible_versions(*from_entry, *to_entry, *from_snapshot, *to_snapshot) {
            Some(count) => r matches Some(found) && found == count,
            None => r is None,
        },
{
    if !text::same_text_option(&from_entry.table_branch, &to_entry.table_branch)
        || from_entry.identity != to_entry.identity {
        return None;
    }
    if to_entry.table_version <= from_entry.table_version {
        return None;
    }
    let count: u64 = to_entry.table_version - from_entry.table_version;
    if count > CANDIDATE_SCAN_MAX_VERSIONS {
        return None;
    }
    if to_snapshot.version != to_entry.table_version || from_snapshot.version
        != from_entry.table_version || !to_snapshot.uses_stable_row_ids
        || !from_snapshot.uses_stable_row_ids {
        return None;
    }
    Some(count)
}

/// Whether one of the fragments has a given id.
pub open spec fn has_fragment(fragments: Seq<FragmentView>, id: u64) -> bool {
    exists|i: int| 0 <= i < fragments.len() && (#[trigger] fragments[i]).id == id
}

/// The child's fragments that the parent does not have, in their order.
pub open spec fn fresh_fragments(from: Seq<FragmentView>, to: Seq<FragmentView>) -> Seq<
    FragmentView,
> {
    to.filter(|fragment: FragmentView| !has_fragment(from, fragment.id))
}

/// Whether the update versions of all fragments can be read.
pub open spec fn all_loadable(fragments: Seq<FragmentView>) -> bool {
    forall|i: int| 0 <= i < fragments.len() ==> (#[trigger] fragments[i]).update_versions_loadable
}

/// Whether an interval can be derived from its touched rows alone: it is
/// eligible, its transactions are all there and all keep every row, and the
/// update versions of every fragment that it wrote can be read.
pub open spec fn prunable(
    from_entry: SubTableEntry,
    to_entry: SubTableEntry,
    from: TableSnapshot,
    to: TableSnapshot,
    transactions: Option<Seq<Transaction>>,
    certificate: InsertAbsence,
) -> bool {
    match (eligible_versions(from_entry, to_entry, from, to), transactions) {
        (Some(count), Some(transactions)) => transactions.len() == count && (forall|i: int|
            0 <= i < transactions.len() ==> keeps_rows(#[trigger] transactions[i], certificate))
            && all_loadable(
            fresh_fragments(
                table::fragment_views(from.fragments@),
                table::fragment_views(to.fragments@),
            ),
        ),
        _ => false,
    }
}

fn fragment_ids(fragments: &Vec<Fragment>) -> (r: HashSet<u64>)
    ensures
        forall|id: u64| #[trigger]
            r@.contains(id) <==> has_fragment(table::fragment_views(fragments@), id),
{
    broadcast use vstd::std_specs::hash::group_hash_axioms;

    let ghost views = table::fragment_views(fragments@);
    let mut ids: HashSet<u64> = HashSet::new();
    let mut i: usize = 0;
    while i < fragments.len()
        invariant
            i <= fragments.len(),
            views == table::fragment_views(fragments@),
            forall|id: u64| #[trigger]
                ids@.contains(id) <==> exists|k: int| 0 <= k < i && (#[trigger] views[k]).id == id,
        decreases fragments.len() - i,
    {
        let ghost before = ids@;
        ids.insert(fragments[i].id);
        proof {
            assert(views[i as int].id == fragments@[i as int].id);
            assert forall|id: u64| #[trigger] ids@.contains(id) <==> exists|k: int|
                0 <= k < i + 1 && (#[trigger] views[k]).id == id by {
                if before.contains(id) {
                    let k = choose|k: int| 0 <= k < i && (#[trigger] views[k]).id == id;
                    assert(views[k].id == id);
                }
            }
        }
        i = i + 1;
    }
    ids
}

/// The child's fragments that hold an interval's changes, where the interval can
/// be derived from its touched rows alone; `None` where the exact merge must be
/// used. `transactions` are those of the interval, or nothing where they cannot
/// be listed.
pub fn interval_changed_fragments(
    from_entry: &SubTableEntry,
    to_entry: &SubTableEntry,
    from_snapshot: &TableSnapshot,
    to_snapshot: &TableSnapshot,
    transactions: Option<&Vec<Transaction>>,
    certificate: &InsertAbsence,
) -> (r: Option<Vec<Fragment>>)
    ensures
        r is Some <==> prunable(
            *from_entry,
            *to_entry,
            *from_snapshot,
            *to_snapshot,
            (match transactions {
                Some(list) => Some(list@),
                None => None,
            }),
            *certificate,
        ),
        r matches Some(fragments) ==> table::fragment_views(fragments@)
            == fresh_fragments(
            table::fragment_views(from_snapshot.fragments@),
            table::fragment_views(to_snapshot.fragments@),
        ),
{
    let count: u64 = match interval_version_count(from_entry, to_entry, from_snapshot, to_snapshot) {
        Some(count) => count,
        None => {
            return None;
        },
    };
    let transactions: &Vec<Transaction> = match transactions {
        Some(transactions) => transactions,
        None => {
            return None;
        },
    };
    if transactions.len() as u64 != count {
        return None;
    }
    if !all_keep_rows(transactions, certificate) {
        return None;
    }
    let changed = fragments_absent_from(&from_snapshot.fragments, &to_snapshot.fragments);
    if !all_versions_loadable(&changed) {
        return None;
    }
    Some(changed)
}

fn all_keep_rows(transactions: &Vec<Transaction>, certificate: &InsertAbsence) -> (r: bool)
    ensures
        r == (forall|i: int|
            0 <= i < transactions@.len() ==> keeps_rows(#[trigger] transactions@[i], *certificate)),
{
    let mut i: usize = 0;
    while i < transactions.len()
        invariant
            i <= transactions.len(),
            forall|k: int| 0 <= k < i ==> keeps_rows(#[trigger] transactions@[k], *certificate),
        decreases transactions.len() - i,
    {
        if !transaction_is_row_set_preserving(&transactions[i], certificate) {
            assert(!keeps_rows(transactions@[i as int], *certificate));
            return false;
        }
        i = i + 1;
    }
    true
}

fn all_versions_loadable(fragments: &Vec<Fragment>) -> (r: bool)
    ensures
        r == all_loadable(table::fragment_views(fragments@)),
{
    let ghost views = table::fragment_views(fragments@);
    let mut i: usize = 0;
    while i < fragments.len()
        invariant
            i <= fragments.len(),
            views == table::fragment_views(fragments@),
            forall|k: int| 0 <= k < i ==> (#[trigger] views[k]).update_versions_loadable,
        decreases fragments.len() - i,
    {
        assert(views[i as int] == fragments@[i as int]@);
        if !fragments[i].update_versions_loadable {
            return false;
        }
        i = i + 1;
    }
    true
}

fn fragments_absent_from(from: &Vec<Fragment>, to: &Vec<Fragment>) -> (r: Vec<Fragment>)
    ensures
        table::fragment_views(r@) == fresh_fragments(
            table::fragment_views(from@),
            table::fragment_views(to@),
        ),
{
    broadcast use vstd::std_specs::hash::group_hash_axioms;

    let ghost old_views = table::fragment_views(from@);
    let ghost views = table::fragment_views(to@);
    let ghost fresh = |fragment: FragmentView| !has_fragment(old_views, fragment.id);
    let parent_ids = fragment_ids(from);
    let mut changed: Vec<Fragment> = Vec::new();
    let mut i: usize = 0;
    proof {
        reveal(Seq::filter);
        assert(table::fragment_views(changed@) =~= views.take(0).filter(fresh));
    }
    while i < to.len()
        invariant
            i <= to.len(),
            old_views == table::fragment_views(from@),
            views == table::fragment_views(to@),
            fresh == (|fragment: FragmentView| !has_fragment(old_views, fragment.id)),
            forall|id: u64| #[trigger] parent_ids@.contains(id) <==> has_fragment(old_views, id),
            table::fragment_views(changed@) == views.take(i as int).filter(fresh),
        decreases to.len() - i,
    {
        proof {
            reveal(Seq::filter);
            assert(views.take(i + 1).drop_last() =~= views.take(i as int));
            assert(views.take(i + 1).last() == to@[i as int]@);
        }
        if !parent_ids.contains(&to[i].id) {
            let ghost before = changed@;
            changed.push(to[i].clone());
            assert(table::fragment_views(changed@)
                =~= table::fragment_views(before).push(to@[i as int]@));
        }
        i = i + 1;
    }
    assert(views.take(i as int) =~= views);
    changed
}

// ---------------------------------------------------------------------------
// Laws of the classification
// ---------------------------------------------------------------------------

/// No marker makes an operation prune that can remove, reuse or restamp rows.
pub proof fn markers_never_excuse_an_operation(
    transaction: Transaction,
    certificate: InsertAbsence,
)
    requires
        !(transaction.operation is Append),
        !(transaction.operation matches Operation::Update { update_mode, .. } && update_mode
            == Some(UpdateMode::RewriteRows)),
    ensures
        !keeps_rows(transaction, certificate),
{
}

/// An append keeps every row, whatever its properties say.
pub proof fn an_append_needs_no_marker(transaction: Transaction, certificate: InsertAbsence)
    requires
        transaction.operation is Append,
    ensures
        keeps_rows(transaction, certificate),
{
}

/// An update never prunes without a durable proof.
pub proof fn an_update_needs_a_proof(transaction: Transaction, certificate: InsertAbsence)
    requires
        transaction.operation is Update,
        keeps_rows(transaction, certificate),
    ensures
        proves_no_delete(transaction, certificate),
{
}

/// A transaction keeps every row exactly where it appends, or where it rewrites
/// rows and carries one of two durable proofs: the marker of a keyed write, or
/// the certificate of a strict insert, each by its exact name and value.
pub proof fn only_proven_transactions_keep_rows(
    transaction: Transaction,
    certificate: InsertAbsence,
)
    ensures
        keeps_rows(transaction, certificate) <==> transaction.operation is Append || (
        transaction.operation matches Operation::Update { update_mode, .. } && update_mode == Some(
            UpdateMode::RewriteRows,
        ) && exists|i: int|
            0 <= i < transaction.properties@.len() && (((
            #[trigger] transaction.properties@[i]).0@ == "omnigraph.no_by_source_delete"@
                && transaction.properties@[i].1@ == "v1"@) || (transaction.properties@[i].0@
                == certificate.property@ && transaction.properties@[i].1@
                == certificate.value@))),
        keeps_rows_by_shape(transaction.operation) <==> transaction.operation is Append || (
        transaction.operation matches Operation::Update { update_mode, .. } && update_mode == Some(
            UpdateMode::RewriteRows,
        )),
{
    if proves_no_delete(transaction, certificate) {
        if has_property(transaction, NO_BY_SOURCE_DELETE_PROPERTY@, NO_BY_SOURCE_DELETE_V1@) {
            let i = choose|i: int|
                0 <= i < transaction.properties@.len() && (#[trigger] transaction.properties@[i]).0@
                    == NO_BY_SOURCE_DELETE_PROPERTY@ && transaction.properties@[i].1@
                    == NO_BY_SOURCE_DELETE_V1@;
            assert(transaction.properties@[i].0@ == "omnigraph.no_by_source_delete"@);
        } else {
            let i = choose|i: int|
                0 <= i < transaction.properties@.len() && (#[trigger] transaction.properties@[i]).0@
                    == certificate.property@ && transaction.properties@[i].1@ == certificate.value@;
            assert(transaction.properties@[i].0@ == certificate.property@);
        }
    }
}

/// A property counts only by its exact name and value.
pub proof fn a_property_counts_by_name_and_value(
    transaction: Transaction,
    key: Seq<char>,
    value: Seq<char>,
)
    ensures
        has_property(transaction, key, value) <==> exists|i: int|
            0 <= i < transaction.properties@.len() && (#[trigger] transaction.properties@[i]).0@
                == key && transaction.properties@[i].1@ == value,
{
}

/// An interval is worth walking exactly where it stays within one lifetime of a
/// table on one branch, moves forward, by no more than 1024 versions, is read at
/// the versions that the entries name, and has stable row ids on both sides; it
/// then spans as many versions as lie between the two.
pub proof fn eligible_intervals_move_forward_in_one_lifetime(
    from_entry: SubTableEntry,
    to_entry: SubTableEntry,
    from: TableSnapshot,
    to: TableSnapshot,
)
    ensures
        eligible_versions(from_entry, to_entry, from, to) is Some <==> ((
        from_entry.table_branch is None && to_entry.table_branch is None) || (
        from_entry.table_branch is Some && to_entry.table_branch is Some
            && from_entry.table_branch->0@ == to_entry.table_branch->0@))
            && from_entry.identity.type_id == to_entry.identity.type_id
            && from_entry.identity.incarnation_id == to_entry.identity.incarnation_id
            && from_entry.table_version < to_entry.table_version && to_entry.table_version
            - from_entry.table_version <= 1024 && from.version == from_entry.table_version
            && to.version == to_entry.table_version && from.uses_stable_row_ids
            && to.uses_stable_row_ids,
        eligible_versions(from_entry, to_entry, from, to) matches Some(count) ==> count
            == to_entry.table_version - from_entry.table_version,
{
    text::an_absent_text_is_no_text(from_entry.table_branch, to_entry.table_branch);
}

/// Whether `kept` stands at given places of `to`, ascending, and these are the
/// places of the fragments whose id no fragment of `from` has.
pub open spec fn are_places(
    places: Seq<int>,
    from: Seq<FragmentView>,
    to: Seq<FragmentView>,
    kept: Seq<FragmentView>,
) -> bool {
    &&& places.len() == kept.len()
    &&& forall|k: int| 0 <= k < places.len() ==> 0 <= #[trigger] places[k] < to.len()
    &&& forall|k: int| 0 <= k < places.len() ==> to[#[trigger] places[k]] == kept[k]
    &&& forall|k: int, l: int|
        0 <= k < l < places.len() ==> #[trigger] places[k] < #[trigger] places[l]
    &&& forall|j: int|
        0 <= j < to.len() ==> (#[trigger] places.contains(j) <==> forall|i: int|
            0 <= i < from.len() ==> (#[trigger] from[i]).id != to[j].id)
}

proof fn lemma_places(from: Seq<FragmentView>, to: Seq<FragmentView>) -> (places: Seq<int>)
    ensures
        are_places(places, from, to, fresh_fragments(from, to)),
    decreases to.len(),
{
    reveal(Seq::filter);
    let fresh = |fragment: FragmentView| !has_fragment(from, fragment.id);
    if to.len() == 0 {
        let places = Seq::<int>::empty();
        assert(fresh_fragments(from, to) =~= Seq::empty());
        places
    } else {
        let rest = to.drop_last();
        let last = to.len() - 1;
        let before = lemma_places(from, rest);
        let kept = fresh_fragments(from, rest);
        assert(to.filter(fresh) == (if fresh(to.last()) {
            rest.filter(fresh).push(to.last())
        } else {
            rest.filter(fresh)
        }));
        let places = if fresh(to.last()) {
            before.push(last)
        } else {
            before
        };
        assert forall|j: int| 0 <= j < to.len() implies (#[trigger] places.contains(j)
            <==> forall|i: int| 0 <= i < from.len() ==> (#[trigger] from[i]).id != to[j].id) by {
            if j < last {
                assert(rest[j] == to[j]);
                if before.contains(j) {
                    let k = choose|k: int| 0 <= k < before.len() && before[k] == j;
                    assert(places[k] == j);
                }
                if places.contains(j) {
                    let k = choose|k: int| 0 <= k < places.len() && places[k] == j;
                    assert(before[k] == j);
                }
                assert(before.contains(j) <==> forall|i: int|
                    0 <= i < from.len() ==> (#[trigger] from[i]).id != rest[j].id);
            } else {
                if fresh(to.last()) {
                    assert(places[before.len() as int] == last);
                } else {
                    assert(!places.contains(last)) by {
                        if places.contains(last) {
                            let k = choose|k: int| 0 <= k < places.len() && places[k] == last;
                            assert(before[k] == last);
                        }
                    }
                }
            }
        }
        assert forall|k: int| 0 <= k < places.len() implies to[#[trigger] places[k]]
            == fresh_fragments(from, to)[k] by {
            if k < before.len() {
                assert(rest[before[k]] == kept[k]);
            }
        }
        places
    }
}

/// The changed fragments are the child's that the parent does not have, all of
/// them, in the child's order: there are places in the child, ascending, at which
/// they stand, and a place is among these exactly where no fragment of the parent
/// has the id of the fragment there. Nothing else about a fragment counts.
pub proof fn changed_fragments_are_those_the_parent_lacks(
    from: Seq<FragmentView>,
    to: Seq<FragmentView>,
)
    ensures
        forall|fragment: FragmentView| #[trigger]
            fresh_fragments(from, to).contains(fragment) <==> to.contains(fragment) && forall|i: int|
                0 <= i < from.len() ==> (#[trigger] from[i]).id != fragment.id,
        exists|places: Seq<int>| #[trigger]
            are_places(places, from, to, fresh_fragments(from, to)),
{
    let places = lemma_places(from, to);
    let kept = fresh_fragments(from, to);
    assert forall|fragment: FragmentView| #[trigger] kept.contains(fragment) <==> to.contains(fragment)
        && forall|i: int| 0 <= i < from.len() ==> (#[trigger] from[i]).id != fragment.id by {
        if kept.contains(fragment) {
            let k = choose|k: int| 0 <= k < kept.len() && kept[k] == fragment;
            assert(to[places[k]] == fragment);
            assert(places.contains(places[k]));
        }
        if to.contains(fragment) && (forall|i: int|
            0 <= i < from.len() ==> (#[trigger] from[i]).id != fragment.id) {
            let j = choose|j: int| 0 <= j < to.len() && to[j] == fragment;
            assert(places.contains(j));
            let k = choose|k: int| 0 <= k < places.len() && places[k] == j;
            assert(kept[k] == fragment);
        }
    }
}

/// An interval is pruned exactly where it is eligible, its transactions are all
/// there, one for each version, and all keep every row, and the update versions
/// of every fragment of the child that the parent lacks can be read.
pub proof fn intervals_are_pruned_only_without_a_doubt(
    from_entry: SubTableEntry,
    to_entry: SubTableEntry,
    from: TableSnapshot,
    to: TableSnapshot,
    transactions: Option<Seq<Transaction>>,
    certificate: InsertAbsence,
)
    ensures
        prunable(from_entry, to_entry, from, to, transactions, certificate) <==> eligible_versions(
            from_entry,
            to_entry,
            from,
            to,
        ) is Some && transactions is Some && transactions->0.len() == to_entry.table_version
            - from_entry.table_version && (forall|i: int|
            0 <= i < transactions->0.len() ==> keeps_rows(#[trigger] transactions->0[i], certificate))
            && (forall|j: int|
            0 <= j < to.fragments@.len() && (forall|i: int|
                0 <= i < from.fragments@.len() ==> (#[trigger] from.fragments@[i]).id
                    != to.fragments@[j].id) ==> (
            #[trigger] to.fragments@[j]).update_versions_loadable),
{
    eligible_intervals_move_forward_in_one_lifetime(from_entry, to_entry, from, to);
    let a = table::fragment_views(from.fragments@);
    let b = table::fragment_views(to.fragments@);
    let kept = fresh_fragments(a, b);
    changed_fragments_are_those_the_parent_lacks(a, b);
    assert(forall|i: int| 0 <= i < a.len() ==> (#[trigger] a[i]).id == from.fragments@[i].id);
    if all_loadable(kept) {
        assert forall|j: int|
            0 <= j < to.fragments@.len() && (forall|i: int|
                0 <= i < from.fragments@.len() ==> (#[trigger] from.fragments@[i]).id
                    != to.fragments@[j].id) implies (
        #[trigger] to.fragments@[j]).update_versions_loadable by {
            assert(b[j] == to.fragments@[j]@);
            assert(b.contains(b[j]));
            assert forall|i: int| 0 <= i < a.len() implies (#[trigger] a[i]).id != b[j].id by {
                assert(from.fragments@[i].id != to.fragments@[j].id);
            }
            assert(kept.contains(b[j]));
            let k = choose|k: int| 0 <= k < kept.len() && kept[k] == b[j];
            assert(kept[k].update_versions_loadable);
        }
    } else {
        let k = choose|k: int| 0 <= k < kept.len() && !(#[trigger] kept[k]).update_versions_loadable;
        assert(kept.contains(kept[k]));
        let j = choose|j: int| 0 <= j < b.len() && b[j] == kept[k];
        assert(b[j] == to.fragments@[j]@);
        assert forall|i: int| 0 <= i < from.fragments@.len() implies (
        #[trigger] from.fragments@[i]).id != to.fragments@[j].id by {
            assert(a[i].id != kept[k].id);
        }
    }
}

} // verus!
