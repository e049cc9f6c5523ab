//! Row filters of an ordered scan, built as DataFusion expressions.

use datafusion::logical_expr::Expr;
use datafusion::prelude::{col, lit};
use vstd::prelude::*;

use crate::text;

verus! {

/// The column by which rows are ordered and found again.
pub const ID_COLUMN: &'static str = "id";

/// The column in which Lance keeps the table version of a row's last update.
pub const LAST_UPDATED_COLUMN: &'static str = "_row_last_updated_at_version";

/// A DataFusion expression. What it says is spoken of through the name below.
#[verifier::external_type_specification]
#[verifier::external_body]
pub struct ExExpr(datafusion::logical_expr::Expr);

/// One comparison on a row.
pub enum RowTest {
    /// The `id` is greater than a text.
    IdAfter(Seq<char>),
    /// The `id` is one of a list of texts.
    IdAmong(Seq<Seq<char>>),
    /// The row's last update lies after a table version.
    UpdatedAfter(u64),
    /// The row's last update lies at a table version or before it.
    UpdatedThrough(u64),
}

impl RowTest {
    /// Whether a row with a given id and version of its last update passes.
    pub open spec fn passes(self, id: Seq<char>, updated: u64) -> bool {
        match self {
            RowTest::IdAfter(after) => text::text_less(after, id),
            RowTest::IdAmong(ids) => ids.contains(id),
            RowTest::UpdatedAfter(version) => updated > version,
            RowTest::UpdatedThrough(version) => updated <= version,
        }
    }
}

/// The comparisons that an expression is the conjunction of, in order.
pub uninterp spec fn tests_of(filter: Expr) -> Seq<RowTest>;

/// The expression `column > after` on the id column (`col`, `lit`, `Expr::gt`).
#[verifier::external_body]
pub(crate) fn id_after(column: &str, after: &str) -> (r: Expr)
    requires
        column@ == ID_COLUMN@,
    ensures
        tests_of(r) == seq![RowTest::IdAfter(after@)],
{
    col(column).gt(lit(after))
}

/// The expression `column IN (ids)` on the id column (`col`, `lit`,
/// `Expr::in_list`).
#[verifier::external_body]
pub(crate) fn id_among(column: &str, ids: &Vec<String>) -> (r: Expr)
    requires
        column@ == ID_COLUMN@,
    ensures
        tests_of(r) == seq![RowTest::IdAmong(ids@.map_values(|id: String| id@))],
{
    col(column).in_list(ids.iter().map(|id| lit(id.as_str())).collect(), false)
}

/// The expression `column > version` on the column of the last update (`col`,
/// `lit`, `Expr::gt`).
#[verifier::external_body]
pub(crate) fn updated_after(column: &str, version: u64) -> (r: Expr)
    requires
        column@ == LAST_UPDATED_COLUMN@,
    ensures
        tests_of(r) == seq![RowTest::UpdatedAfter(version)],
{
    col(column).gt(lit(version))
}

/// The expression `column <= version` on the column of the last update (`col`,
/// `lit`, `Expr::lt_eq`).
#[verifier::external_body]
pub(crate) fn updated_through(column: &str, version: u64) -> (r: Expr)
    requires
        column@ == LAST_UPDATED_COLUMN@,
    ensures
        tests_of(r) == seq![RowTest::UpdatedThrough(version)],
{
    col(column).lt_eq(lit(version))
}

/// `Expr::and`: the comparisons of both sides.
#[verifier::external_body]
pub(crate) fn both(left: Expr, right: Expr) -> (r: Expr)
    ensures
        tests_of(r) == tests_of(left) + tests_of(right),
{
    left.and(right)
}

/// The window `(after, through]` on the version of a row's last update.
pub fn updated_within(after: u64, through: u64) -> (r: Expr)
    ensures
        tests_of(r) == seq![RowTest::UpdatedAfter(after), RowTest::UpdatedThrough(through)],
{
    let window = both(
        updated_after(LAST_UPDATED_COLUMN, after),
        updated_through(LAST_UPDATED_COLUMN, through),
    );
    assert(tests_of(window) =~= seq![RowTest::UpdatedAfter(after), RowTest::UpdatedThrough(through)]);
    window
}

/// Whether a row passes every one of some comparisons.
pub open spec fn passes_all(tests: Seq<RowTest>, id: Seq<char>, updated: u64) -> bool {
    forall|i: int| 0 <= i < tests.len() ==> (#[trigger] tests[i]).passes(id, updated)
}

/// Whether a row passes every comparison of an optional filter.
pub open spec fn kept_by(filter: Option<Expr>, id: Seq<char>, updated: u64) -> bool {
    match filter {
        Some(filter) => passes_all(tests_of(filter), id, updated),
        None => true,
    }
}

proof fn lemma_passes_all(a: Seq<RowTest>, b: Seq<RowTest>, id: Seq<char>, updated: u64)
    ensures
        passes_all(a + b, id, updated) <==> passes_all(a, id, updated) && passes_all(b, id, updated),
{
    let c = a + b;
    if passes_all(c, id, updated) {
        assert forall|i: int| 0 <= i < a.len() implies (#[trigger] a[i]).passes(id, updated) by {
            assert(c[i].passes(id, updated));
        }
        assert forall|i: int| 0 <= i < b.len() implies (#[trigger] b[i]).passes(id, updated) by {
            assert(c[a.len() + i].passes(id, updated));
        }
    }
    if passes_all(a, id, updated) && passes_all(b, id, updated) {
        assert forall|i: int| 0 <= i < c.len() implies (#[trigger] c[i]).passes(id, updated) by {
            if i < a.len() {
                assert(a[i].passes(id, updated));
            } else {
                assert(b[i - a.len()].passes(id, updated));
            }
        }
    }
}

/// The conjunction of two optional filters.
pub(crate) fn both_of(left: Option<Expr>, right: Option<Expr>) -> (r: Option<Expr>)
    ensures
        r is None <==> left is None && right is None,
        forall|id: Seq<char>, updated: u64| #[trigger]
            kept_by(r, id, updated) <==> kept_by(left, id, updated) && kept_by(right, id, updated),
{
    match (left, right) {
        (Some(left), Some(right)) => {
            let whole = both(left, right);
            proof {
                assert forall|id: Seq<char>, updated: u64| #[trigger]
                    kept_by(Some(whole), id, updated) <==> kept_by(Some(left), id, updated) && kept_by(
                    Some(right),
                    id,
                    updated,
                ) by {
                    lemma_passes_all(tests_of(left), tests_of(right), id, updated);
                }
            }
            Some(whole)
        },
        (Some(left), None) => Some(left),
        (None, Some(right)) => Some(right),
        (None, None) => None,
    }
}

/// A filter keeps a row exactly where the row passes every one of its
/// comparisons: its id comes after a text, or is one of a list, and its last
/// update lies after a version, or not after one. Without a filter every row is
/// kept.
pub proof fn a_filter_keeps_what_passes_every_test(filter: Expr, id: Seq<char>, updated: u64)
    ensures
        kept_by(None, id, updated),
        kept_by(Some(filter), id, updated) <==> forall|i: int|
            0 <= i < tests_of(filter).len() ==> match #[trigger] tests_of(filter)[i] {
                RowTest::IdAfter(after) => text::text_less(after, id),
                RowTest::IdAmong(ids) => ids.contains(id),
                RowTest::UpdatedAfter(version) => version < updated,
                RowTest::UpdatedThrough(version) => updated <= version,
            },
{
    if kept_by(Some(filter), id, updated) {
        assert forall|i: int| 0 <= i < tests_of(filter).len() implies match #[trigger] tests_of(
            filter,
        )[i] {
            RowTest::IdAfter(after) => text::text_less(after, id),
            RowTest::IdAmong(ids) => ids.contains(id),
            RowTest::UpdatedAfter(version) => version < updated,
            RowTest::UpdatedThrough(version) => updated <= version,
        } by {
            assert(tests_of(filter)[i].passes(id, updated));
        }
    }
}

/// Rows are filtered by these columns.
pub proof fn filters_read_these_columns()
    ensures
        ID_COLUMN@ == "id"@,
        LAST_UPDATED_COLUMN@ == "_row_last_updated_at_version"@,
{
}

} // verus!
