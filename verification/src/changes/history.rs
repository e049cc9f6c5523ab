//! What the commits of an interval do to the rows of a table.

use vstd::prelude::*;

use crate::changes::candidate_scan::{self, InsertAbsence, Transaction};
use crate::changes::enumerate;
use crate::changes::merge_laws;
use crate::changes::model::ChangeFeedScope;
use crate::changes::row_compare::RowView;
use crate::changes::row_laws;
use crate::changes::runs::{self, SourceRun};
use crate::changes::table::{FragmentView, TableSnapshot};
use crate::manifest::state::SubTableEntry;

verus! {

/// A row of a table version, with the table version of its last update.
pub struct StampedRow {
    pub row: RowView,
    pub updated: u64,
}

/// The rows without their update versions.
pub open spec fn rows_of(rows: Seq<StampedRow>) -> Seq<RowView> {
    rows.map_values(|stamped: StampedRow| stamped.row)
}

/// Whether a commit kept every row of a table: no id is gone, and a row that
/// does not carry the commit's version was there before as it is.
pub open spec fn commit_keeps(
    before: Seq<StampedRow>,
    after: Seq<StampedRow>,
    version: int,
) -> bool {
    &&& forall|i: int|
        0 <= i < before.len() ==> merge_laws::has_id(rows_of(after), (#[trigger] before[i]).row.id)
    &&& forall|j: int|
        0 <= j < after.len() && (#[trigger] after[j]).updated != version ==> before.contains(after[j])
}

/// Whether `states` are the rows of a table at a version and after each of the
/// commits that follow it, every commit that provably keeps the rows having kept
/// them.
pub open spec fn is_history(
    states: Seq<Seq<StampedRow>>,
    commits: Seq<Transaction>,
    begin: u64,
    certificate: InsertAbsence,
) -> bool {
    &&& states.len() == commits.len() + 1
    &&& forall|k: int|
        0 <= k < commits.len() && candidate_scan::keeps_rows(#[trigger] commits[k], certificate)
            ==> commit_keeps(states[k], states[k + 1], begin + k + 1)
}

/// Whether the touched rows are those that were last updated in the interval
/// `(begin, end]`.
pub open spec fn touches_updated(
    touched: spec_fn(RowView) -> bool,
    rows: Seq<StampedRow>,
    begin: u64,
    end: u64,
) -> bool {
    forall|j: int|
        0 <= j < rows.len() ==> (touched((#[trigger] rows[j]).row) <==> begin < rows[j].updated
            <= end)
}

proof fn lemma_id_kept(
    states: Seq<Seq<StampedRow>>,
    commits: Seq<Transaction>,
    begin: u64,
    certificate: InsertAbsence,
    count: nat,
    i: int,
)
    requires
        is_history(states, commits, begin, certificate),
        forall|k: int|
            0 <= k < commits.len() ==> candidate_scan::keeps_rows(#[trigger] commits[k], certificate),
        count <= commits.len(),
        0 <= i < states[0].len(),
    ensures
        merge_laws::has_id(rows_of(states[count as int]), states[0][i].row.id),
    decreases count,
{
    let id = states[0][i].row.id;
    if count == 0 {
        assert(rows_of(states[0])[i].id == id);
    } else {
        lemma_id_kept(states, commits, begin, certificate, (count - 1) as nat, i);
        let before = states[count - 1];
        let k = choose|k: int| 0 <= k < rows_of(before).len() && (#[trigger] rows_of(before)[k]).id
            == id;
        assert(candidate_scan::keeps_rows(commits[count - 1], certificate));
        assert(before[k].row.id == id);
    }
}

proof fn lemma_untouched_row(
    states: Seq<Seq<StampedRow>>,
    commits: Seq<Transaction>,
    begin: u64,
    certificate: InsertAbsence,
    count: nat,
    stamped: StampedRow,
)
    requires
        is_history(states, commits, begin, certificate),
        forall|k: int|
            0 <= k < commits.len() ==> candidate_scan::keeps_rows(#[trigger] commits[k], certificate),
        count <= commits.len(),
        states[count as int].contains(stamped),
        !(begin < stamped.updated <= begin + count),
    ensures
        states[0].contains(stamped),
    decreases count,
{
    if count > 0 {
        let after = states[count as int];
        let j = choose|j: int| 0 <= j < after.len() && after[j] == stamped;
        assert(candidate_scan::keeps_rows(commits[count - 1], certificate));
        assert(states[count - 1 + 1] == after);
        assert(after[j].updated != begin + (count - 1) + 1);
        lemma_untouched_row(states, commits, begin, certificate, (count - 1) as nat, stamped);
    }
}

/// A prunable interval kept every row: no id of the parent is gone, and a row of
/// the child that was not updated in the interval is the parent's, unchanged.
/// What a single commit does is the storage engine's; that the transactions, the
/// span of versions and the window on update versions together suffice is proved.
pub proof fn a_prunable_interval_keeps_every_row(
    from_entry: SubTableEntry,
    to_entry: SubTableEntry,
    from: TableSnapshot,
    to: TableSnapshot,
    transactions: Seq<Transaction>,
    certificate: InsertAbsence,
    states: Seq<Seq<StampedRow>>,
    commits: Seq<Transaction>,
    touched: spec_fn(RowView) -> bool,
    same: spec_fn(RowView, RowView) -> bool,
)
    requires
        candidate_scan::prunable(from_entry, to_entry, from, to, Some(transactions), certificate),
        is_history(states, commits, from_entry.table_version, certificate),
        commits.len() == to_entry.table_version - from_entry.table_version,
        forall|k: int| 0 <= k < commits.len() ==> transactions.contains(#[trigger] commits[k]),
        touches_updated(
            touched,
            states.last(),
            from_entry.table_version,
            to_entry.table_version,
        ),
        forall|j: int|
            0 <= j < states.last().len() ==> row_laws::distinct_columns(
                (#[trigger] states.last()[j]).row,
            ),
        enumerate::faithful(same),
    ensures
        runs::keeps_every_row(rows_of(states[0]), rows_of(states.last()), touched, same),
{
    let begin = from_entry.table_version;
    let count = commits.len();
    let first = states[0];
    let last = states.last();
    let left = rows_of(first);
    let right = rows_of(last);
    assert forall|k: int| 0 <= k < commits.len() implies candidate_scan::keeps_rows(
        #[trigger] commits[k],
        certificate,
    ) by {
        let i = choose|i: int| 0 <= i < transactions.len() && transactions[i] == commits[k];
        assert(candidate_scan::keeps_rows(transactions[i], certificate));
    }
    assert(last == states[count as int]);
    assert forall|i: int| 0 <= i < left.len() implies merge_laws::has_id(
        right,
        (#[trigger] left[i]).id,
    ) by {
        lemma_id_kept(states, commits, begin, certificate, count, i);
        assert(left[i] == first[i].row);
    }
    assert forall|j: int| 0 <= j < right.len() && !touched(#[trigger] right[j]) implies exists|
        i: int,
    |
        0 <= i < left.len() && (#[trigger] left[i]).id == right[j].id && same(left[i], right[j]) by {
        let stamped = last[j];
        assert(right[j] == stamped.row);
        assert(!touched(last[j].row));
        assert(states[count as int].contains(stamped));
        lemma_untouched_row(states, commits, begin, certificate, count, stamped);
        let i = choose|i: int| 0 <= i < first.len() && first[i] == stamped;
        assert(left[i] == stamped.row);
        row_laws::a_row_equals_itself(stamped.row);
        assert(same(stamped.row, stamped.row));
    }
}

/// On a prunable interval it does not matter which emitter is used: a drained
/// pruned run and a drained merge give the same changes in the same order, from
/// the same id on.
pub proof fn emitters_agree_on_a_prunable_interval(
    a: SourceRun,
    b: SourceRun,
    scope: ChangeFeedScope,
    after: Option<Seq<char>>,
    from_entry: SubTableEntry,
    to_entry: SubTableEntry,
    from: TableSnapshot,
    to: TableSnapshot,
    transactions: Seq<Transaction>,
    certificate: InsertAbsence,
    states: Seq<Seq<StampedRow>>,
    commits: Seq<Transaction>,
    touched: spec_fn(RowView) -> bool,
    same: spec_fn(RowView, RowView) -> bool,
)
    requires
        a.drains(scope, rows_of(states[0]), rows_of(states.last()), touched, after, same),
        b.drains(scope, rows_of(states[0]), rows_of(states.last()), touched, after, same),
        merge_laws::in_id_order(rows_of(states[0])),
        merge_laws::in_id_order(rows_of(states.last())),
        candidate_scan::prunable(from_entry, to_entry, from, to, Some(transactions), certificate),
        is_history(states, commits, from_entry.table_version, certificate),
        commits.len() == to_entry.table_version - from_entry.table_version,
        forall|k: int| 0 <= k < commits.len() ==> transactions.contains(#[trigger] commits[k]),
        touches_updated(
            touched,
            states.last(),
            from_entry.table_version,
            to_entry.table_version,
        ),
        forall|j: int|
            0 <= j < states.last().len() ==> row_laws::distinct_columns(
                (#[trigger] states.last()[j]).row,
            ),
        enumerate::faithful(same),
    ensures
        a.changes() == b.changes(),
{
    a_prunable_interval_keeps_every_row(
        from_entry,
        to_entry,
        from,
        to,
        transactions,
        certificate,
        states,
        commits,
        touched,
        same,
    );
    runs::drained_runs_agree(
        a,
        b,
        scope,
        rows_of(states[0]),
        rows_of(states.last()),
        touched,
        after,
        same,
    );
}

/// A row of a table version with the fragment that it lies in.
pub struct PlacedRow {
    pub stamped: StampedRow,
    pub fragment: u64,
}

/// A table version as it is laid out: its rows, the ids of its fragments, and the
/// least id that no fragment has had so far.
pub struct Layout {
    pub rows: Seq<PlacedRow>,
    pub fragments: Set<u64>,
    pub next_fragment: nat,
}

/// Whether a commit lays its rows out as the storage engine does: fragment ids
/// are handed out in ascending order and never again, the rows that it updated
/// lie in fragments that it wrote, and every other row was there before with the
/// same update version, and lies where it lay or was carried into a fragment that
/// the commit wrote.
pub open spec fn commit_places(before: Layout, after: Layout, version: int) -> bool {
    &&& forall|id: u64| #[trigger] before.fragments.contains(id) ==> id < before.next_fragment
    &&& before.next_fragment <= after.next_fragment
    &&& forall|j: int|
        0 <= j < after.rows.len() && (#[trigger] after.rows[j]).stamped.updated == version
            ==> after.rows[j].fragment >= before.next_fragment
    &&& forall|j: int|
        0 <= j < after.rows.len() && (#[trigger] after.rows[j]).stamped.updated != version
            ==> exists|i: int|
            0 <= i < before.rows.len() && (#[trigger] before.rows[i]).stamped
                == after.rows[j].stamped && (before.rows[i].fragment == after.rows[j].fragment
                || after.rows[j].fragment >= before.next_fragment)
}

proof fn lemma_touched_row(layouts: Seq<Layout>, begin: u64, count: nat, j: int)
    requires
        count < layouts.len(),
        forall|k: int|
            #![trigger layouts[k]]
            0 <= k < layouts.len() - 1 ==> commit_places(
                layouts[k],
                layouts[k + 1],
                begin + k + 1,
            ),
        0 <= j < layouts[count as int].rows.len(),
        begin < layouts[count as int].rows[j].stamped.updated <= begin + count,
    ensures
        layouts[count as int].rows[j].fragment >= layouts[0].next_fragment,
        layouts[count as int].next_fragment >= layouts[0].next_fragment,
    decreases count,
{
    let before = layouts[count - 1];
    let after = layouts[count as int];
    assert(commit_places(before, layouts[count - 1 + 1], begin + (count - 1) + 1));
    lemma_fragments_grow(layouts, begin, (count - 1) as nat);
    lemma_fragments_grow(layouts, begin, count);
    if after.rows[j].stamped.updated != begin + count {
        let i = choose|i: int|
            0 <= i < before.rows.len() && (#[trigger] before.rows[i]).stamped
                == after.rows[j].stamped && (before.rows[i].fragment == after.rows[j].fragment
                || after.rows[j].fragment >= before.next_fragment);
        lemma_touched_row(layouts, begin, (count - 1) as nat, i);
    }
}

proof fn lemma_fragments_grow(layouts: Seq<Layout>, begin: u64, count: nat)
    requires
        count < layouts.len(),
        forall|k: int|
            #![trigger layouts[k]]
            0 <= k < layouts.len() - 1 ==> commit_places(
                layouts[k],
                layouts[k + 1],
                begin + k + 1,
            ),
    ensures
        layouts[count as int].next_fragment >= layouts[0].next_fragment,
    decreases count,
{
    if count > 0 {
        lemma_fragments_grow(layouts, begin, (count - 1) as nat);
        let before = layouts[count - 1];
        assert(commit_places(before, layouts[count - 1 + 1], begin + (count - 1) + 1));
    }
}

/// The candidate scan reads every touched row: a row of the child whose last
/// update lies in the interval lies in one of the changed fragments, where the
/// commits of the interval laid their rows out as the storage engine does.
pub proof fn every_touched_row_lies_in_a_changed_fragment(
    layouts: Seq<Layout>,
    begin: u64,
    end: u64,
    from: Seq<FragmentView>,
    to: Seq<FragmentView>,
    j: int,
)
    requires
        begin <= end,
        layouts.len() == end - begin + 1,
        forall|k: int|
            #![trigger layouts[k]]
            0 <= k < layouts.len() - 1 ==> commit_places(
                layouts[k],
                layouts[k + 1],
                begin + k + 1,
            ),
        forall|i: int|
            0 <= i < from.len() ==> layouts[0].fragments.contains((#[trigger] from[i]).id),
        0 <= j < layouts.last().rows.len(),
        begin < layouts.last().rows[j].stamped.updated <= end,
        exists|k: int| 0 <= k < to.len() && (#[trigger] to[k]).id == layouts.last().rows[j].fragment,
    ensures
        exists|k: int|
            0 <= k < candidate_scan::fresh_fragments(from, to).len() && (
            #[trigger] candidate_scan::fresh_fragments(from, to)[k]).id
                == layouts.last().rows[j].fragment,
{
    let count = (layouts.len() - 1) as nat;
    let id = layouts.last().rows[j].fragment;
    let kept = candidate_scan::fresh_fragments(from, to);
    assert(layouts.last() == layouts[count as int]);
    lemma_touched_row(layouts, begin, count, j);
    candidate_scan::changed_fragments_are_those_the_parent_lacks(from, to);
    let k = choose|k: int| 0 <= k < to.len() && (#[trigger] to[k]).id == id;
    let first = layouts[0];
    assert(commit_places(first, layouts[1], begin + 0 + 1));
    assert forall|i: int| 0 <= i < from.len() implies (#[trigger] from[i]).id != to[k].id by {
        assert(first.fragments.contains(from[i].id));
    }
    assert(to.contains(to[k]));
    assert(kept.contains(to[k]));
    let l = choose|l: int| 0 <= l < kept.len() && kept[l] == to[k];
    assert(kept[l].id == id);
}

} // verus!
