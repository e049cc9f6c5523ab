//! What holds of the changes that the merge finds.

use vstd::prelude::*;

use crate::changes::enumerate::{self, ChangeView, Emit, FullMerge, MergeStep};
use crate::changes::model::{ChangeFeedScope, ChangeOpKind};
use crate::changes::row_compare::{self, Comparison, RowView};
use crate::error::{ManifestErrorKind, OmniError};
use crate::text;

verus! {

/// Whether rows come in id order, each id once.
pub open spec fn in_id_order(rows: Seq<RowView>) -> bool {
    forall|i: int, j: int|
        0 <= i < j < rows.len() ==> text::text_less(
            (#[trigger] rows[i]).id,
            (#[trigger] rows[j]).id,
        )
}

/// Whether one of the rows has a given id.
pub open spec fn has_id(rows: Seq<RowView>, id: Seq<char>) -> bool {
    exists|i: int| 0 <= i < rows.len() && (#[trigger] rows[i]).id == id
}

/// Whether something is a logical change between two states: a row of the child
/// whose id the parent lacks is inserted, a row of the parent whose id the child
/// lacks is deleted, and two rows of one id that differ are an update.
pub open spec fn is_change(
    change: ChangeView,
    from: Seq<RowView>,
    to: Seq<RowView>,
    same: spec_fn(RowView, RowView) -> bool,
) -> bool {
    match change {
        ChangeView::Insert(row) => to.contains(row) && !has_id(from, row.id),
        ChangeView::Update { before, after } => from.contains(before) && to.contains(after)
            && before.id == after.id && !same(before, after),
        ChangeView::Delete(row) => from.contains(row) && !has_id(to, row.id),
    }
}

pub(crate) proof fn lemma_tail_in_order(rows: Seq<RowView>)
    requires
        in_id_order(rows),
        rows.len() > 0,
    ensures
        in_id_order(rows.drop_first()),
        forall|i: int|
            0 <= i < rows.drop_first().len() ==> text::text_less(
                rows[0].id,
                (#[trigger] rows.drop_first()[i]).id,
            ),
        !has_id(rows.drop_first(), rows[0].id),
        forall|id: Seq<char>| #[trigger]
            has_id(rows, id) <==> id == rows[0].id || has_id(rows.drop_first(), id),
        forall|row: RowView| #[trigger]
            rows.contains(row) <==> row == rows[0] || rows.drop_first().contains(row),
{
    let rest = rows.drop_first();
    assert forall|i: int, j: int| 0 <= i < j < rest.len() implies text::text_less(
        (#[trigger] rest[i]).id,
        (#[trigger] rest[j]).id,
    ) by {
        assert(rest[i] == rows[i + 1]);
        assert(rest[j] == rows[j + 1]);
    }
    assert forall|i: int| 0 <= i < rest.len() implies text::text_less(
        rows[0].id,
        (#[trigger] rest[i]).id,
    ) by {
        assert(rest[i] == rows[i + 1]);
    }
    if has_id(rest, rows[0].id) {
        let k = choose|k: int| 0 <= k < rest.len() && (#[trigger] rest[k]).id == rows[0].id;
        text::text_order_is_total(rows[0].id, rest[k].id);
    }
    assert forall|id: Seq<char>| #[trigger] has_id(rows, id) <==> id == rows[0].id || has_id(
        rest,
        id,
    ) by {
        if has_id(rows, id) {
            let k = choose|k: int| 0 <= k < rows.len() && (#[trigger] rows[k]).id == id;
            if k > 0 {
                assert(rest[k - 1].id == id);
            }
        }
        if has_id(rest, id) {
            let k = choose|k: int| 0 <= k < rest.len() && (#[trigger] rest[k]).id == id;
            assert(rows[k + 1].id == id);
        }
        if id == rows[0].id {
            assert(rows[0].id == id);
        }
    }
    assert forall|row: RowView| #[trigger] rows.contains(row) <==> row == rows[0] || rest.contains(
        row,
    ) by {
        if rows.contains(row) {
            let k = choose|k: int| 0 <= k < rows.len() && rows[k] == row;
            if k > 0 {
                assert(rest[k - 1] == row);
            }
        }
        if rest.contains(row) {
            let k = choose|k: int| 0 <= k < rest.len() && rest[k] == row;
            assert(rows[k + 1] == row);
        }
        if row == rows[0] {
            assert(rows[0] == row);
        }
    }
}

/// Whether every id among the rows lies after `id`.
pub open spec fn all_after(rows: Seq<RowView>, id: Seq<char>) -> bool {
    forall|i: int| 0 <= i < rows.len() ==> text::text_less(id, (#[trigger] rows[i]).id)
}

pub(crate) proof fn lemma_none_before(rows: Seq<RowView>, id: Seq<char>)
    requires
        in_id_order(rows),
        rows.len() == 0 || text::text_less(id, rows[0].id),
    ensures
        all_after(rows, id),
        !has_id(rows, id),
{
    assert forall|i: int| 0 <= i < rows.len() implies text::text_less(
        id,
        (#[trigger] rows[i]).id,
    ) by {
        if i > 0 {
            text::text_order_is_transitive(id, rows[0].id, rows[i].id);
        }
    }
    if has_id(rows, id) {
        let k = choose|k: int| 0 <= k < rows.len() && (#[trigger] rows[k]).id == id;
        text::text_order_is_total(id, rows[k].id);
    }
}

proof fn lemma_first_or_rest(first: ChangeView, rest: Seq<ChangeView>, change: ChangeView)
    ensures
        (seq![first] + rest).contains(change) <==> change == first || rest.contains(change),
{
    let all = seq![first] + rest;
    if all.contains(change) {
        let k = choose|k: int| 0 <= k < all.len() && all[k] == change;
        if k > 0 {
            assert(rest[k - 1] == change);
        }
    }
    if rest.contains(change) {
        let k = choose|k: int| 0 <= k < rest.len() && rest[k] == change;
        assert(all[k + 1] == change);
    }
    assert(all[0] == first);
}

/// The merge finds exactly the logical changes between two states.
pub proof fn merge_finds_exactly_the_changes(
    from: Seq<RowView>,
    to: Seq<RowView>,
    same: spec_fn(RowView, RowView) -> bool,
    change: ChangeView,
)
    requires
        in_id_order(from),
        in_id_order(to),
    ensures
        enumerate::changes(from, to, same).contains(change) <==> is_change(change, from, to, same),
    decreases from.len() + to.len(),
{
    if from.len() == 0 && to.len() == 0 {
    } else if to.len() == 0 || (from.len() > 0 && text::text_less(from[0].id, to[0].id)) {
        let rest = from.drop_first();
        lemma_tail_in_order(from);
        lemma_none_before(to, from[0].id);
        merge_finds_exactly_the_changes(rest, to, same, change);
        lemma_first_or_rest(ChangeView::Delete(from[0]), enumerate::changes(rest, to, same), change);
        lemma_only_in(to, from[0], rest, from);
    } else if from.len() == 0 || text::text_less(to[0].id, from[0].id) {
        let rest = to.drop_first();
        lemma_tail_in_order(to);
        lemma_none_before(from, to[0].id);
        merge_finds_exactly_the_changes(from, rest, same, change);
        lemma_first_or_rest(ChangeView::Insert(to[0]), enumerate::changes(from, rest, same), change);
        lemma_only_in(from, to[0], rest, to);
    } else {
        text::text_order_is_total(from[0].id, to[0].id);
        lemma_tail_in_order(from);
        lemma_tail_in_order(to);
        let from_rest = from.drop_first();
        let to_rest = to.drop_first();
        merge_finds_exactly_the_changes(from_rest, to_rest, same, change);
        let rest = enumerate::changes(from_rest, to_rest, same);
        let pair = ChangeView::Update { before: from[0], after: to[0] };
        lemma_first_or_rest(pair, rest, change);
        lemma_pairs(from, to);
    }
}

/// A row of `rows` has an id other than one that `rows` lacks.
proof fn lemma_only_in(rows: Seq<RowView>, head: RowView, rest: Seq<RowView>, all: Seq<RowView>)
    requires
        !has_id(rows, head.id),
        forall|id: Seq<char>| #[trigger] has_id(all, id) <==> id == head.id || has_id(rest, id),
    ensures
        forall|row: RowView| #[trigger]
            rows.contains(row) ==> row.id != head.id && (has_id(all, row.id) <==> has_id(
                rest,
                row.id,
            )),
{
    assert forall|row: RowView| #[trigger] rows.contains(row) implies row.id != head.id by {
        let k = choose|k: int| 0 <= k < rows.len() && rows[k] == row;
        assert(rows[k].id == row.id);
    }
}

proof fn lemma_pairs(from: Seq<RowView>, to: Seq<RowView>)
    requires
        from.len() > 0,
        to.len() > 0,
        from[0].id == to[0].id,
        in_id_order(from),
        in_id_order(to),
    ensures
        forall|row: RowView| #[trigger]
            from.drop_first().contains(row) ==> row.id != from[0].id,
        forall|row: RowView| #[trigger] to.drop_first().contains(row) ==> row.id != from[0].id,
{
    lemma_tail_in_order(from);
    lemma_tail_in_order(to);
    assert forall|row: RowView| #[trigger] from.drop_first().contains(row) implies row.id
        != from[0].id by {
        let k = choose|k: int| 0 <= k < from.drop_first().len() && from.drop_first()[k] == row;
        assert(from.drop_first()[k].id == row.id);
    }
    assert forall|row: RowView| #[trigger] to.drop_first().contains(row) implies row.id
        != from[0].id by {
        let k = choose|k: int| 0 <= k < to.drop_first().len() && to.drop_first()[k] == row;
        assert(to.drop_first()[k].id == row.id);
    }
}

proof fn lemma_change_ids(
    from: Seq<RowView>,
    to: Seq<RowView>,
    same: spec_fn(RowView, RowView) -> bool,
    id: Seq<char>,
)
    requires
        in_id_order(from),
        in_id_order(to),
        all_after(from, id),
        all_after(to, id),
    ensures
        forall|i: int|
            0 <= i < enumerate::changes(from, to, same).len() ==> text::text_less(
                id,
                (#[trigger] enumerate::changes(from, to, same)[i]).id(),
            ),
{
    assert forall|i: int| 0 <= i < enumerate::changes(from, to, same).len() implies text::text_less(
        id,
        (#[trigger] enumerate::changes(from, to, same)[i]).id(),
    ) by {
        let change = enumerate::changes(from, to, same)[i];
        assert(enumerate::changes(from, to, same).contains(change));
        merge_finds_exactly_the_changes(from, to, same, change);
        match change {
            ChangeView::Insert(row) => {
                let k = choose|k: int| 0 <= k < to.len() && to[k] == row;
                assert(text::text_less(id, to[k].id));
            },
            ChangeView::Update { before: _, after } => {
                let k = choose|k: int| 0 <= k < to.len() && to[k] == after;
                assert(text::text_less(id, to[k].id));
            },
            ChangeView::Delete(row) => {
                let k = choose|k: int| 0 <= k < from.len() && from[k] == row;
                assert(text::text_less(id, from[k].id));
            },
        }
    }
}

/// Changes come in id order, at most one for each id.
pub proof fn changes_come_in_id_order(
    from: Seq<RowView>,
    to: Seq<RowView>,
    same: spec_fn(RowView, RowView) -> bool,
)
    requires
        in_id_order(from),
        in_id_order(to),
    ensures
        forall|i: int, j: int|
            0 <= i < j < enumerate::changes(from, to, same).len() ==> text::text_less(
                (#[trigger] enumerate::changes(from, to, same)[i]).id(),
                (#[trigger] enumerate::changes(from, to, same)[j]).id(),
            ),
    decreases from.len() + to.len(),
{
    let all = enumerate::changes(from, to, same);
    if from.len() == 0 && to.len() == 0 {
    } else if to.len() == 0 || (from.len() > 0 && text::text_less(from[0].id, to[0].id)) {
        lemma_tail_in_order(from);
        lemma_none_before(to, from[0].id);
        changes_come_in_id_order(from.drop_first(), to, same);
        lemma_change_ids(from.drop_first(), to, same, from[0].id);
        lemma_in_front(ChangeView::Delete(from[0]), enumerate::changes(from.drop_first(), to, same));
    } else if from.len() == 0 || text::text_less(to[0].id, from[0].id) {
        lemma_tail_in_order(to);
        lemma_none_before(from, to[0].id);
        changes_come_in_id_order(from, to.drop_first(), same);
        lemma_change_ids(from, to.drop_first(), same, to[0].id);
        lemma_in_front(ChangeView::Insert(to[0]), enumerate::changes(from, to.drop_first(), same));
    } else {
        text::text_order_is_total(from[0].id, to[0].id);
        lemma_tail_in_order(from);
        lemma_tail_in_order(to);
        changes_come_in_id_order(from.drop_first(), to.drop_first(), same);
        lemma_change_ids(from.drop_first(), to.drop_first(), same, to[0].id);
        lemma_in_front(
            ChangeView::Update { before: from[0], after: to[0] },
            enumerate::changes(from.drop_first(), to.drop_first(), same),
        );
    }
}

proof fn lemma_in_front(first: ChangeView, rest: Seq<ChangeView>)
    requires
        forall|i: int|
            0 <= i < rest.len() ==> text::text_less(first.id(), (#[trigger] rest[i]).id()),
        forall|i: int, j: int|
            0 <= i < j < rest.len() ==> text::text_less(
                (#[trigger] rest[i]).id(),
                (#[trigger] rest[j]).id(),
            ),
    ensures
        forall|i: int, j: int|
            0 <= i < j < (seq![first] + rest).len() ==> text::text_less(
                (#[trigger] (seq![first] + rest)[i]).id(),
                (#[trigger] (seq![first] + rest)[j]).id(),
            ),
{
    let all = seq![first] + rest;
    assert forall|i: int, j: int| 0 <= i < j < all.len() implies text::text_less(
        (#[trigger] all[i]).id(),
        (#[trigger] all[j]).id(),
    ) by {
        assert(all[j] == rest[j - 1]);
        if i > 0 {
            assert(all[i] == rest[i - 1]);
        }
    }
}

/// `items` without the first, filtered, and the first where it is kept.
pub(crate) proof fn lemma_filter_first<T>(items: Seq<T>, kept: spec_fn(T) -> bool)
    requires
        items.len() > 0,
    ensures
        items.filter(kept) == (if kept(items[0]) {
            seq![items[0]]
        } else {
            Seq::empty()
        }) + items.drop_first().filter(kept),
{
    let first = seq![items[0]];
    assert(items =~= first + items.drop_first());
    Seq::filter_distributes_over_add(first, items.drop_first(), kept);
    reveal(Seq::filter);
    assert(first.drop_last() =~= Seq::empty());
    assert(first.last() == items[0]);
    assert(Seq::<T>::empty().filter(kept) =~= Seq::empty());
    assert(first.filter(kept) =~= (if kept(items[0]) {
        seq![items[0]]
    } else {
        Seq::empty()
    }));
}

proof fn lemma_all_kept(rows: Seq<RowView>, after: Seq<char>)
    requires
        all_after(rows, after),
    ensures
        rows.filter(|row: RowView| text::text_less(after, row.id)) == rows,
    decreases rows.len(),
{
    let kept = |row: RowView| text::text_less(after, row.id);
    reveal(Seq::filter);
    if rows.len() > 0 {
        let shorter = rows.drop_last();
        assert forall|i: int| 0 <= i < shorter.len() implies text::text_less(
            after,
            (#[trigger] shorter[i]).id,
        ) by {
            assert(shorter[i] == rows[i]);
        }
        lemma_all_kept(shorter, after);
        assert(kept(rows[rows.len() - 1]));
        assert(shorter.push(rows.last()) =~= rows);
    } else {
        assert(rows.filter(kept) =~= rows);
    }
}

proof fn lemma_all_after_too(rows: Seq<RowView>, after: Seq<char>, id: Seq<char>)
    requires
        text::text_less(after, id),
        all_after(rows, id),
    ensures
        all_after(rows, after),
{
    assert forall|i: int| 0 <= i < rows.len() implies text::text_less(
        after,
        (#[trigger] rows[i]).id,
    ) by {
        text::text_order_is_transitive(after, id, rows[i].id);
    }
}

/// Resuming after an id gives exactly the changes that are left: scanning both
/// versions from there on finds the changes of the later ids, in their order.
pub proof fn resuming_gives_the_rest(
    from: Seq<RowView>,
    to: Seq<RowView>,
    same: spec_fn(RowView, RowView) -> bool,
    after: Seq<char>,
)
    requires
        in_id_order(from),
        in_id_order(to),
    ensures
        enumerate::changes(
            from.filter(|row: RowView| text::text_less(after, row.id)),
            to.filter(|row: RowView| text::text_less(after, row.id)),
            same,
        ) == enumerate::changes(from, to, same).filter(
            |change: ChangeView| text::text_less(after, change.id()),
        ),
    decreases from.len() + to.len(),
{
    let kept = |row: RowView| text::text_less(after, row.id);
    let later = |change: ChangeView| text::text_less(after, change.id());
    let kept_from = from.filter(kept);
    let kept_to = to.filter(kept);
    let all = enumerate::changes(from, to, same);
    if from.len() == 0 && to.len() == 0 {
        reveal(Seq::filter);
        assert(kept_from =~= from);
        assert(kept_to =~= to);
        assert(all.filter(later) =~= all);
    } else if to.len() == 0 || (from.len() > 0 && text::text_less(from[0].id, to[0].id)) {
        let rest = from.drop_first();
        lemma_tail_in_order(from);
        lemma_none_before(to, from[0].id);
        resuming_gives_the_rest(rest, to, same, after);
        lemma_filter_first(from, kept);
        lemma_filter_first(all, later);
        assert(all.drop_first() =~= enumerate::changes(rest, to, same));
        if kept(from[0]) {
            lemma_all_after_too(to, after, from[0].id);
            lemma_all_kept(to, after);
            assert(kept_from.drop_first() =~= rest.filter(kept));
            assert(kept_from[0] == from[0]);
        } else {
            assert(kept_from =~= rest.filter(kept));
            assert(all.filter(later) =~= enumerate::changes(rest, to, same).filter(later));
        }
    } else if from.len() == 0 || text::text_less(to[0].id, from[0].id) {
        let rest = to.drop_first();
        lemma_tail_in_order(to);
        lemma_none_before(from, to[0].id);
        resuming_gives_the_rest(from, rest, same, after);
        lemma_filter_first(to, kept);
        lemma_filter_first(all, later);
        assert(all.drop_first() =~= enumerate::changes(from, rest, same));
        if from.len() > 0 {
            text::text_order_is_total(from[0].id, to[0].id);
        }
        if kept(to[0]) {
            lemma_all_after_too(from, after, to[0].id);
            lemma_all_kept(from, after);
            assert(kept_to.drop_first() =~= rest.filter(kept));
            assert(kept_to[0] == to[0]);
        } else {
            assert(kept_to =~= rest.filter(kept));
            assert(all.filter(later) =~= enumerate::changes(from, rest, same).filter(later));
        }
    } else {
        text::text_order_is_total(from[0].id, to[0].id);
        let from_rest = from.drop_first();
        let to_rest = to.drop_first();
        lemma_tail_in_order(from);
        lemma_tail_in_order(to);
        resuming_gives_the_rest(from_rest, to_rest, same, after);
        lemma_filter_first(from, kept);
        lemma_filter_first(to, kept);
        let others = enumerate::changes(from_rest, to_rest, same);
        if kept(from[0]) {
            assert(kept_from.drop_first() =~= from_rest.filter(kept));
            assert(kept_to.drop_first() =~= to_rest.filter(kept));
            assert(kept_from[0] == from[0]);
            assert(kept_to[0] == to[0]);
        } else {
            assert(kept_from =~= from_rest.filter(kept));
            assert(kept_to =~= to_rest.filter(kept));
        }
        if !same(from[0], to[0]) {
            lemma_filter_first(all, later);
            assert(all.drop_first() =~= others);
            if !kept(from[0]) {
                assert(all.filter(later) =~= others.filter(later));
            }
        }
    }
}

/// What a feed reports of some of the changes is that part of what it reports of
/// all of them.
pub proof fn reporting_goes_change_by_change(
    scope: ChangeFeedScope,
    all: Seq<ChangeView>,
    kept: spec_fn(ChangeView) -> bool,
)
    ensures
        enumerate::reported(scope, all.filter(kept)) == enumerate::reported(scope, all).filter(
            kept,
        ),
    decreases all.len(),
{
    if all.len() == 0 {
        reveal(Seq::filter);
        assert(all.filter(kept) =~= all);
    } else {
        let rest = all.drop_first();
        reporting_goes_change_by_change(scope, rest, kept);
        lemma_filter_first(all, kept);
        let one = enumerate::reported(scope, seq![all[0]]);
        enumerate::one_change_is_reported_if_selected(scope, all[0]);
        if kept(all[0]) {
            enumerate::reported_splits(scope, seq![all[0]], rest.filter(kept));
        } else {
            assert(all.filter(kept) =~= rest.filter(kept));
        }
        assert(all =~= seq![all[0]] + rest);
        enumerate::reported_splits(scope, seq![all[0]], rest);
        let whole = enumerate::reported(scope, all);
        if scope.selects(all[0].kind()) {
            lemma_filter_first(whole, kept);
            assert(whole.drop_first() =~= enumerate::reported(scope, rest));
            if !kept(all[0]) {
                assert(whole.filter(kept) =~= enumerate::reported(scope, rest).filter(kept));
            }
        } else {
            assert(whole =~= enumerate::reported(scope, rest));
            if kept(all[0]) {
                assert(one + enumerate::reported(scope, rest.filter(kept))
                    =~= enumerate::reported(scope, rest.filter(kept)));
            }
        }
    }
}

/// Resuming after an id reports exactly what is left to be reported, whatever
/// the feed selects.
pub proof fn resuming_reports_the_rest(
    scope: ChangeFeedScope,
    from: Seq<RowView>,
    to: Seq<RowView>,
    same: spec_fn(RowView, RowView) -> bool,
    after: Seq<char>,
)
    requires
        in_id_order(from),
        in_id_order(to),
    ensures
        enumerate::reported(
            scope,
            enumerate::changes(
                from.filter(|row: RowView| text::text_less(after, row.id)),
                to.filter(|row: RowView| text::text_less(after, row.id)),
                same,
            ),
        ) == enumerate::reported(scope, enumerate::changes(from, to, same)).filter(
            |change: ChangeView| text::text_less(after, change.id()),
        ),
{
    resuming_gives_the_rest(from, to, same, after);
    reporting_goes_change_by_change(
        scope,
        enumerate::changes(from, to, same),
        |change: ChangeView| text::text_less(after, change.id()),
    );
}

/// The changes are exactly the differences: a row of the child is inserted where
/// no row of the parent has its id, a row of the parent is deleted where no row
/// of the child has its id, and two rows of one id are an update where they are
/// not the same. Nothing else is a change, and none of these is left out.
pub proof fn the_changes_are_exactly_the_differences(
    from: Seq<RowView>,
    to: Seq<RowView>,
    same: spec_fn(RowView, RowView) -> bool,
    change: ChangeView,
)
    requires
        forall|i: int, j: int|
            0 <= i < j < from.len() ==> text::text_less(
                (#[trigger] from[i]).id,
                (#[trigger] from[j]).id,
            ),
        forall|i: int, j: int|
            0 <= i < j < to.len() ==> text::text_less(
                (#[trigger] to[i]).id,
                (#[trigger] to[j]).id,
            ),
    ensures
        enumerate::changes(from, to, same).contains(change) <==> match change {
            ChangeView::Insert(row) => to.contains(row) && forall|i: int|
                0 <= i < from.len() ==> (#[trigger] from[i]).id != row.id,
            ChangeView::Update { before, after } => from.contains(before) && to.contains(after)
                && before.id == after.id && !same(before, after),
            ChangeView::Delete(row) => from.contains(row) && forall|j: int|
                0 <= j < to.len() ==> (#[trigger] to[j]).id != row.id,
        },
        forall|i: int, j: int|
            0 <= i < j < enumerate::changes(from, to, same).len() ==> text::text_less(
                (#[trigger] enumerate::changes(from, to, same)[i]).id(),
                (#[trigger] enumerate::changes(from, to, same)[j]).id(),
            ),
{
    merge_finds_exactly_the_changes(from, to, same, change);
    changes_come_in_id_order(from, to, same);
}

/// A change is of the kind that it is, and is known by the id of its row; an
/// emitted change is seen with its own rows.
pub proof fn a_change_is_known_by_its_kind_and_id(change: ChangeView, emit: Emit)
    ensures
        change.kind() == ChangeOpKind::Insert <==> change is Insert,
        change.kind() == ChangeOpKind::Update <==> change is Update,
        change.kind() == ChangeOpKind::Delete <==> change is Delete,
        change matches ChangeView::Insert(row) ==> change.id() == row.id,
        change matches ChangeView::Update { before: _, after } ==> change.id() == after.id,
        change matches ChangeView::Delete(row) ==> change.id() == row.id,
        emit matches Emit::Insert(row) ==> emit@ == ChangeView::Insert(row@),
        emit matches Emit::Update { before, after } ==> emit@ == (ChangeView::Update {
            before: before@,
            after: after@,
        }),
        emit matches Emit::Delete(row) ==> emit@ == ChangeView::Delete(row@),
{
}

/// What a feed reports is what it selects, in the order in which it was found.
pub proof fn a_feed_reports_the_selected_changes_in_order(
    scope: ChangeFeedScope,
    all: Seq<ChangeView>,
)
    ensures
        enumerate::reported(scope, all) == all.filter(
            |change: ChangeView| scope.selects(change.kind()),
        ),
    decreases all.len(),
{
    let selected = |change: ChangeView| scope.selects(change.kind());
    if all.len() == 0 {
        reveal(Seq::filter);
        assert(all.filter(selected) =~= all);
    } else {
        a_feed_reports_the_selected_changes_in_order(scope, all.drop_first());
        lemma_filter_first(all, selected);
        assert(enumerate::reported(scope, all) =~= all.filter(selected));
    }
}

/// Two rows may be taken as the same, or not, only as their comparison says,
/// unless payloads decide or a column is missing.
pub proof fn only_payloads_leave_sameness_open(same: spec_fn(RowView, RowView) -> bool)
    ensures
        enumerate::faithful(same) <==> forall|left: RowView, right: RowView|
            #![trigger same(left, right)]
            (row_compare::comparison(left, right) is Equal ==> same(left, right)) && (
            row_compare::comparison(left, right) is Different ==> !same(left, right)),
{
}

/// A step of the merge is justified by the rows at hand, and loses nothing. It
/// asks for a batch only of a scan that is open and out of rows, for payloads
/// only where the next rows have one id and nothing else tells them apart, and is
/// done only where both scans have ended; what is left to report before the step
/// is what it gives, followed by what is left after it.
pub proof fn a_merge_step_loses_nothing(
    before: FullMerge,
    after: FullMerge,
    result: Result<MergeStep, OmniError>,
    from_rest: Seq<RowView>,
    to_rest: Seq<RowView>,
    same: spec_fn(RowView, RowView) -> bool,
)
    requires
        enumerate::merge_stepped(before, after, result),
        enumerate::faithful(same),
        before.from.is_open() || from_rest.len() == 0,
        before.to.is_open() || to_rest.len() == 0,
    ensures
        after.scope == before.scope,
        after.from.is_open() == before.from.is_open(),
        after.to.is_open() == before.to.is_open(),
        result matches Ok(MergeStep::FillFrom) ==> after.from.rows().len() == 0
            && after.from.is_open(),
        result matches Ok(MergeStep::FillTo) ==> after.to.rows().len() == 0 && after.to.is_open(),
        result matches Ok(MergeStep::Done) ==> after.from.rows().len() == 0
            && after.to.rows().len() == 0 && !after.from.is_open() && !after.to.is_open(),
        result matches Ok(MergeStep::Emit(emit)) ==> before.scope.selects(emit@.kind()),
        result matches Ok(MergeStep::Payloads(columns)) ==> after.from.rows().len() > 0
            && after.to.rows().len() > 0 && after.from.rows()[0].id == after.to.rows()[0].id && (
        row_compare::comparison(
            after.from.rows()[0],
            after.to.rows()[0],
        ) matches Comparison::Payloads { columns: wanted } && columns@.len() == wanted.len() && (
        forall|i: int| 0 <= i < wanted.len() ==> (#[trigger] columns@[i])@ == wanted[i])),
        result matches Err(error) ==> after.from.rows().len() > 0 && after.to.rows().len() > 0
            && after.from.rows()[0].id == after.to.rows()[0].id && (row_compare::comparison(
            after.from.rows()[0],
            after.to.rows()[0],
        ) matches Comparison::Missing { column } && (error matches OmniError::Manifest(manifest)
            && manifest.kind == ManifestErrorKind::Internal && manifest.message@
            == "schema-gated change row is missing column '"@ + column + "'"@)),
        enumerate::reported(
            before.scope,
            enumerate::changes(before.from.rows() + from_rest, before.to.rows() + to_rest, same),
        ) == (match result {
            Ok(MergeStep::Emit(emit)) => seq![emit@],
            _ => Seq::empty(),
        }) + enumerate::reported(
            after.scope,
            enumerate::changes(after.from.rows() + from_rest, after.to.rows() + to_rest, same),
        ),
{
    let left = after.remaining(from_rest, to_rest, same);
    assert(before.remaining(from_rest, to_rest, same) == (match result {
        Ok(MergeStep::Emit(emit)) => seq![emit@] + left,
        _ => left,
    }));
    assert(Seq::<ChangeView>::empty() + left =~= left);
    if let Ok(MergeStep::Payloads(columns)) = result {
        let texts = row_compare::text_views(columns@);
        assert(texts.len() == columns@.len());
        assert(forall|i: int| 0 <= i < texts.len() ==> (#[trigger] columns@[i])@ == texts[i]);
    }
}

/// The payloads of a pair decide it: both rows are taken, and an update of the
/// one to the other is given exactly where the payloads differ and the feed
/// reports updates.
pub proof fn payloads_decide_a_pair(
    before: FullMerge,
    after: FullMerge,
    payloads_agree: bool,
    result: Option<Emit>,
)
    requires
        enumerate::merge_answered(before, after, payloads_agree, result),
        before.from.rows().len() > 0,
        before.to.rows().len() > 0,
    ensures
        after.from.rows() == before.from.rows().skip(1),
        after.to.rows() == before.to.rows().skip(1),
        after.scope == before.scope,
        result is Some <==> !payloads_agree && before.scope.selects(ChangeOpKind::Update),
        result matches Some(emit) ==> emit@ == (ChangeView::Update {
            before: before.from.rows()[0],
            after: before.to.rows()[0],
        }),
{
    assert(before.from.rows().drop_first() =~= before.from.rows().skip(1));
    assert(before.to.rows().drop_first() =~= before.to.rows().skip(1));
}

} // verus!
