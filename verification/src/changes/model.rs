//! The vocabulary of a change feed.

use vstd::prelude::*;

use crate::text;

verus! {

/// What a commit did to one logical row.
#[derive(Debug, Clone, Copy, PartialEq, Eq, Structural)]
pub enum ChangeOpKind {
    Insert,
    Update,
    Delete,
}

/// The operations that a feed reports; all of them without a selection.
#[derive(Debug)]
pub struct ChangeFeedScope {
    pub ops: Option<Vec<ChangeOpKind>>,
}

impl ChangeFeedScope {
    /// Whether a change of kind `op` is reported.
    pub open spec fn selects(self, op: ChangeOpKind) -> bool {
        match self.ops {
            Some(ops) => ops@.contains(op),
            None => true,
        }
    }

    pub fn wants_op(&self, op: ChangeOpKind) -> (r: bool)
        ensures
            r == self.selects(op),
    {
        match &self.ops {
            None => true,
            Some(ops) => {
                let mut i: usize = 0;
                while i < ops.len()
                    invariant
                        i <= ops.len(),
                        self.ops == Some(*ops),
                        forall|k: int| 0 <= k < i ==> ops@[k] != op,
                    decreases ops.len() - i,
                {
                    if ops[i] == op {
                        assert(ops@[i as int] == op);
                        return true;
                    }
                    i = i + 1;
                }
                false
            },
        }
    }
}

impl Clone for ChangeFeedScope {
    fn clone(&self) -> (r: Self)
        ensures
            forall|op: ChangeOpKind| #[trigger] r.selects(op) == self.selects(op),
    {
        match &self.ops {
            Some(ops) => {
                let copied: Vec<ChangeOpKind> = ops.clone();
                assert(copied@ =~= ops@);
                ChangeFeedScope { ops: Some(copied) }
            },
            None => ChangeFeedScope { ops: None },
        }
    }
}

impl Default for ChangeFeedScope {
    fn default() -> (r: Self)
        ensures
            r.ops is None,
    {
        ChangeFeedScope { ops: None }
    }
}

/// The columns that the storage layer adds to a scan. They are no part of a
/// row's logical image.
pub open spec fn reserved_column(name: Seq<char>) -> bool {
    ||| name == "_rowid"@
    ||| name == "_rowaddr"@
    ||| name == "_rowoffset"@
    ||| name == "_row_created_at_version"@
    ||| name == "_row_last_updated_at_version"@
}

/// Whether `name` is one of the five reserved storage columns.
pub fn is_reserved_storage_system_column(name: &str) -> (r: bool)
    ensures
        r == reserved_column(name@),
{
    text::same_text(name, "_rowid") || text::same_text(name, "_rowaddr")
        || text::same_text(name, "_rowoffset") || text::same_text(
        name,
        "_row_created_at_version",
    ) || text::same_text(name, "_row_last_updated_at_version")
}

/// A feed without a selection reports every operation; one with a selection
/// those that it lists, and no others.
pub proof fn a_feed_reports_what_it_lists(scope: ChangeFeedScope, op: ChangeOpKind)
    ensures
        scope.ops is None ==> scope.selects(op),
        scope.ops matches Some(ops) ==> (scope.selects(op) <==> exists|i: int|
            0 <= i < ops@.len() && #[trigger] ops@[i] == op),
{
}

/// A column is reserved where it has one of five names; any other name, however
/// close, is a user's.
pub proof fn five_names_are_reserved(name: Seq<char>)
    ensures
        reserved_column(name) <==> name == "_rowid"@ || name == "_rowaddr"@ || name
            == "_rowoffset"@ || name == "_row_created_at_version"@ || name
            == "_row_last_updated_at_version"@,
{
}

} // verus!
