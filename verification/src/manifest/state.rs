//! The rows of a manifest.

use vstd::prelude::*;

use crate::text::{self, same_text, same_text_option};

verus! {

/// The immutable identity of a table: its type, and which incarnation of it.
#[derive(Debug, Clone, Copy, PartialEq, Eq, Structural)]
pub struct TableIdentity {
    pub type_id: u64,
    pub incarnation_id: u64,
}

/// One table of a graph at one manifest version.
#[derive(Debug)]
pub struct SubTableEntry {
    pub identity: TableIdentity,
    pub table_key: String,
    pub table_path: String,
    pub table_version: u64,
    pub table_branch: Option<String>,
    pub row_count: u64,
    /// The table version's metadata as JSON text.
    pub version_metadata: String,
}

/// One commit of the graph's lineage.
#[derive(Debug)]
pub struct GraphLineageRow {
    pub graph_commit_id: String,
    pub manifest_branch: Option<String>,
    pub manifest_version: u64,
    pub parent_commit_id: Option<String>,
    pub merged_parent_commit_id: Option<String>,
    pub actor_id: Option<String>,
    /// Microseconds since the epoch.
    pub created_at: i64,
}

/// A lineage row over plain values.
pub struct LineageView {
    pub graph_commit_id: Seq<char>,
    pub manifest_branch: Option<Seq<char>>,
    pub manifest_version: u64,
    pub parent_commit_id: Option<Seq<char>>,
    pub merged_parent_commit_id: Option<Seq<char>>,
    pub actor_id: Option<Seq<char>>,
    pub created_at: i64,
}

impl View for GraphLineageRow {
    type V = LineageView;

    open spec fn view(&self) -> LineageView {
        LineageView {
            graph_commit_id: self.graph_commit_id@,
            manifest_branch: text::text_option(self.manifest_branch),
            manifest_version: self.manifest_version,
            parent_commit_id: text::text_option(self.parent_commit_id),
            merged_parent_commit_id: text::text_option(self.merged_parent_commit_id),
            actor_id: text::text_option(self.actor_id),
            created_at: self.created_at,
        }
    }
}

impl GraphLineageRow {
    pub fn same_as(&self, other: &Self) -> (r: bool)
        ensures
            r == (self@ == other@),
    {
        same_text(self.graph_commit_id.as_str(), other.graph_commit_id.as_str())
            && same_text_option(&self.manifest_branch, &other.manifest_branch)
            && self.manifest_version == other.manifest_version && same_text_option(
            &self.parent_commit_id,
            &other.parent_commit_id,
        ) && same_text_option(&self.merged_parent_commit_id, &other.merged_parent_commit_id)
            && same_text_option(&self.actor_id, &other.actor_id) && self.created_at
            == other.created_at
    }
}

/// Two lineage rows agree exactly where every one of their fields does, an absent
/// text being no text.
pub proof fn lineage_rows_agree_in_every_field(a: GraphLineageRow, b: GraphLineageRow)
    ensures
        a@ == b@ <==> a.graph_commit_id@ == b.graph_commit_id@ && a.manifest_version
            == b.manifest_version && a.created_at == b.created_at && ((a.manifest_branch is None
            && b.manifest_branch is None) || (a.manifest_branch is Some && b.manifest_branch is Some
            && a.manifest_branch->0@ == b.manifest_branch->0@)) && ((a.parent_commit_id is None
            && b.parent_commit_id is None) || (a.parent_commit_id is Some
            && b.parent_commit_id is Some && a.parent_commit_id->0@ == b.parent_commit_id->0@)) && ((
        a.merged_parent_commit_id is None && b.merged_parent_commit_id is None) || (
        a.merged_parent_commit_id is Some && b.merged_parent_commit_id is Some
            && a.merged_parent_commit_id->0@ == b.merged_parent_commit_id->0@)) && ((
        a.actor_id is None && b.actor_id is None) || (a.actor_id is Some && b.actor_id is Some
            && a.actor_id->0@ == b.actor_id->0@)),
        a@.graph_commit_id == a.graph_commit_id@,
        a@.manifest_version == a.manifest_version,
        a@.created_at == a.created_at,
        a@.manifest_branch is None <==> a.manifest_branch is None,
        a@.parent_commit_id is None <==> a.parent_commit_id is None,
        a@.merged_parent_commit_id is None <==> a.merged_parent_commit_id is None,
        a@.actor_id is None <==> a.actor_id is None,
{
    text::an_absent_text_is_no_text(a.manifest_branch, b.manifest_branch);
    text::an_absent_text_is_no_text(a.parent_commit_id, b.parent_commit_id);
    text::an_absent_text_is_no_text(a.merged_parent_commit_id, b.merged_parent_commit_id);
    text::an_absent_text_is_no_text(a.actor_id, b.actor_id);
}

} // verus!
