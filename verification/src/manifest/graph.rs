//! Creating the tables of a fresh graph and its manifest.

use arrow_schema::Schema;
use vstd::prelude::*;

use crate::changes::batch::{self, Batch, with_schema_entry};
use crate::error::{self, LanceError, OmniError, arrow_text};
use crate::manifest::genesis::ManifestInitError;
use crate::manifest::keyed_schema::{self, keyed_graph_table_schema};
use crate::manifest::state::{SubTableEntry, TableIdentity};
use crate::text::{self, joined, same_text, trimmed_root};

verus! {

/// The storage format that a dataset is written in.
#[derive(Debug, Clone, Copy, PartialEq, Eq, Structural)]
pub enum FileVersion {
    V2_2,
}

/// How a dataset is created.
#[derive(Debug, Clone, Copy, PartialEq, Eq, Structural)]
pub struct CreateParams {
    /// Whether an existing dataset makes the write fail.
    pub must_not_exist: bool,
    pub enable_stable_row_ids: bool,
    pub data_storage_version: FileVersion,
    pub allow_external_blob_outside_bases: bool,
    pub auto_cleanup: bool,
    pub skip_auto_cleanup: bool,
}

/// The parameters shared by every dataset of a graph.
pub open spec fn graph_create_params(allow_external_blob_outside_bases: bool) -> CreateParams {
    CreateParams {
        must_not_exist: true,
        enable_stable_row_ids: true,
        data_storage_version: FileVersion::V2_2,
        allow_external_blob_outside_bases,
        auto_cleanup: false,
        skip_auto_cleanup: true,
    }
}

/// Whether an error says that a batch could not be stamped, in Arrow's words
/// where these are fixed.
pub open spec fn is_unstamped(error: OmniError, words: Option<Seq<char>>) -> bool {
    error matches OmniError::Manifest(manifest) && manifest.kind
        == error::ManifestErrorKind::Internal && manifest.details is None
        && "attach stamp metadata to init batch: "@.is_prefix_of(manifest.message@) && (
    words matches Some(text) ==> manifest.message@ == "attach stamp metadata to init batch: "@
        + text)
}

/// What stamping a batch gives: the batch with the stamp as the metadata of its
/// schema, or why Arrow refuses it.
pub open spec fn is_stamping(
    batch: Batch,
    stamp_key: Seq<char>,
    stamp_value: Seq<char>,
    result: Result<Batch, OmniError>,
) -> bool {
    &&& match (result, batch::batch_rebuilt(batch)) {
        (Ok(stamped), Ok(_)) => batch::same_content(stamped, batch)
            && batch::batch_schema_metadata(stamped) == batch::one_entry(stamp_key, stamp_value),
        (Err(error), Err(words)) => is_unstamped(error, words),
        _ => false,
    }
    &&& batch::batch_columns(batch).len() == 0 ==> (result matches Err(error) && is_unstamped(
        error,
        Some(batch::no_columns_text()),
    ))
}

/// Puts the internal-schema stamp on the batch that the Create commit writes, so
/// that no manifest is ever durable without it.
fn stamp_manifest_batch(batch: &Batch, stamp_key: &str, stamp_value: &str) -> (r: Result<
    Batch,
    OmniError,
>)
    ensures
        is_stamping(*batch, stamp_key@, stamp_value@, r),
{
    match with_schema_entry(batch, stamp_key, stamp_value) {
        Ok(stamped) => Ok(stamped),
        Err(error) => {
            let reason = arrow_text(&error);
            let message = joined("attach stamp metadata to init batch: ", reason.as_str());
            proof {
                let front = "attach stamp metadata to init batch: "@;
                assert(message@.subrange(0, front.len() as int) =~= front);
            }
            Err(OmniError::manifest_internal(message))
        },
    }
}

/// The creation of an empty table.
#[derive(Debug)]
pub struct TableCreate {
    pub schema: Schema,
    pub params: CreateParams,
}

/// Plans the creation of an empty table. The primary key rides the creation: it
/// cannot be changed afterwards.
pub fn create_empty_dataset(schema: &Schema) -> (r: Result<TableCreate, OmniError>)
    ensures
        match r {
            Ok(create) => keyed_schema::is_keyable(keyed_schema::schema_parts(*schema))
                && keyed_schema::is_keyed_form(create.schema, *schema) && create.params
                == graph_create_params(true),
            Err(error) => keyed_schema::is_unkeyable(keyed_schema::schema_parts(*schema), error),
        },
{
    match keyed_graph_table_schema(schema) {
        Ok(schema) => Ok(
            TableCreate {
                schema,
                params: CreateParams {
                    must_not_exist: true,
                    enable_stable_row_ids: true,
                    data_storage_version: FileVersion::V2_2,
                    allow_external_blob_outside_bases: true,
                    auto_cleanup: false,
                    skip_auto_cleanup: true,
                },
            },
        ),
        Err(error) => Err(error),
    }
}

// ---------------------------------------------------------------------------
// The initial tables
// ---------------------------------------------------------------------------

/// A type of the accepted schema, with the identity of its table.
#[derive(Debug)]
pub struct TypeIr {
    pub name: String,
    pub type_id: u64,
    pub table_incarnation_id: u64,
}

/// The accepted schema.
#[derive(Debug)]
pub struct SchemaIr {
    pub nodes: Vec<TypeIr>,
    pub edges: Vec<TypeIr>,
}

/// The types of a graph in catalog order, and the accepted schema that the
/// catalog is bound to.
#[derive(Debug)]
pub struct Catalog {
    pub bound_schema_ir: Option<SchemaIr>,
    pub node_types: Vec<String>,
    pub edge_types: Vec<String>,
}

#[derive(Debug, Clone, Copy, PartialEq, Eq, Structural)]
pub enum EntityKind {
    Node,
    Edge,
}

/// The types of a catalog in the order in which their tables are created: the
/// nodes, then the edges.
pub open spec fn catalog_types(catalog: Catalog) -> Seq<(EntityKind, Seq<char>)> {
    catalog.node_types@.map_values(|name: String| (EntityKind::Node, name@))
        + catalog.edge_types@.map_values(|name: String| (EntityKind::Edge, name@))
}

/// The first type of a given name.
pub open spec fn type_named(types: Seq<TypeIr>, name: Seq<char>) -> Option<TypeIr>
    decreases types.len(),
{
    if types.len() == 0 {
        None
    } else if types[0].name@ == name {
        Some(types[0])
    } else {
        type_named(types.drop_first(), name)
    }
}

/// The key of a type's table.
pub open spec fn table_key(kind: EntityKind, name: Seq<char>) -> Seq<char> {
    match kind {
        EntityKind::Node => "node:"@ + name,
        EntityKind::Edge => "edge:"@ + name,
    }
}

/// The text for a type that the accepted schema lacks.
pub open spec fn missing_ir_text(kind: EntityKind, name: Seq<char>) -> Seq<char> {
    match kind {
        EntityKind::Node => "identity-bound catalog is missing node IR for '"@ + name + "'"@,
        EntityKind::Edge => "identity-bound catalog is missing edge IR for '"@ + name + "'"@,
    }
}

/// A table that is to be created.
#[derive(Debug)]
pub struct TableRequest {
    pub kind: EntityKind,
    /// The position of the type among those of its kind.
    pub position: usize,
    pub table_key: String,
    pub type_id: u64,
    pub table_incarnation_id: u64,
}

/// The identity of a table that is to be created.
pub open spec fn request_identity(request: TableRequest) -> TableIdentity {
    TableIdentity { type_id: request.type_id, incarnation_id: request.table_incarnation_id }
}

/// A table that was created.
#[derive(Debug)]
pub struct CreatedTable {
    pub table_path: String,
    pub table_version: u64,
    /// The table version's metadata as JSON text.
    pub metadata: String,
}

/// The entries of a fresh manifest, filled one table at a time.
#[derive(Debug)]
pub struct InitialEntries {
    pub entries: Vec<SubTableEntry>,
    /// The metadata of each table in the order of creation.
    pub version_metadata: Vec<(TableIdentity, String)>,
}

/// The metadata by table identity; of several for one identity the last counts.
pub open spec fn metadata_map(metadata: Seq<(TableIdentity, String)>) -> Map<
    TableIdentity,
    Seq<char>,
>
    decreases metadata.len(),
{
    if metadata.len() == 0 {
        Map::empty()
    } else {
        metadata_map(metadata.drop_last()).insert(metadata.last().0, metadata.last().1@)
    }
}

/// What is asked for next, once `count` tables have been created.
pub open spec fn next_request(
    catalog: Catalog,
    count: nat,
    result: Result<Option<TableRequest>, OmniError>,
) -> bool {
    match catalog.bound_schema_ir {
        None => is_unbound(result),
        Some(ir) => if count >= catalog_types(catalog).len() {
            result matches Ok(None)
        } else {
            let (kind, name) = catalog_types(catalog)[count as int];
            let types = if kind == EntityKind::Node {
                ir.nodes@
            } else {
                ir.edges@
            };
            match type_named(types, name) {
                None => result matches Err(error) && error::is_plain_manifest(
                    error,
                    error::ManifestErrorKind::Internal,
                    missing_ir_text(kind, name),
                ),
                Some(found) => result matches Ok(Some(request)) && request.kind == kind
                    && request.position == (if kind == EntityKind::Node {
                    count as int
                } else {
                    count - catalog.node_types@.len()
                }) && request.table_key@ == table_key(kind, name) && request.type_id
                    == found.type_id && request.table_incarnation_id
                    == found.table_incarnation_id,
            }
        },
    }
}

/// Whether a result refuses a catalog that is bound to no accepted schema.
pub open spec fn is_unbound<T>(result: Result<T, OmniError>) -> bool {
    result matches Err(error) && error::is_plain_manifest(
        error,
        error::ManifestErrorKind::Internal,
        "manifest initialization requires an identity-bound accepted catalog"@,
    )
}

/// Whether `after` is `before` with one more table recorded: under the identity
/// asked for, at its version, on no branch, without rows.
pub open spec fn records(
    before: InitialEntries,
    after: InitialEntries,
    request: TableRequest,
    created: CreatedTable,
) -> bool {
    &&& after.entries@.len() == before.entries@.len() + 1
    &&& after.entries@.drop_last() == before.entries@
    &&& after.entries@.last() == (SubTableEntry {
        identity: request_identity(request),
        table_key: request.table_key,
        table_path: created.table_path,
        table_version: created.table_version,
        table_branch: None,
        row_count: 0,
        version_metadata: created.metadata,
    })
    &&& metadata_map(after.version_metadata@) == metadata_map(before.version_metadata@).insert(
        request_identity(request),
        created.metadata@,
    )
}

fn find_type<'a>(types: &'a Vec<TypeIr>, name: &str) -> (r: Option<&'a TypeIr>)
    ensures
        match r {
            Some(found) => type_named(types@, name@) == Some(*found),
            None => type_named(types@, name@) is None,
        },
{
    let mut i: usize = 0;
    assert(types@.skip(0) =~= types@);
    while i < types.len()
        invariant
            i <= types.len(),
            type_named(types@, name@) == type_named(types@.skip(i as int), name@),
        decreases types.len() - i,
    {
        if same_text(types[i].name.as_str(), name) {
            return Some(&types[i]);
        }
        assert(types@.skip(i as int).drop_first() =~= types@.skip(i + 1));
        i = i + 1;
    }
    None
}

fn unbound() -> (r: OmniError)
    ensures
        error::is_plain_manifest(
            r,
            error::ManifestErrorKind::Internal,
            "manifest initialization requires an identity-bound accepted catalog"@,
        ),
{
    OmniError::manifest_internal(
        String::from_str("manifest initialization requires an identity-bound accepted catalog"),
    )
}

/// The full path of a table below a root.
pub fn full_table_path(root_uri: &str, table_path: &str) -> (r: String)
    ensures
        r@ == root_uri@ + "/"@ + table_path@,
{
    let mut path = joined(root_uri, "/");
    path.append(table_path);
    path
}

impl InitialEntries {
    /// Starts with no table created. The catalog must be bound to an accepted
    /// schema.
    pub fn build_initial_entries(catalog: &Catalog) -> (r: Result<InitialEntries, OmniError>)
        ensures
            match r {
                Ok(entries) => catalog.bound_schema_ir is Some && entries.entries@.len() == 0
                    && entries.version_metadata@.len() == 0,
                Err(_) => catalog.bound_schema_ir is None && is_unbound(r),
            },
    {
        match &catalog.bound_schema_ir {
            Some(_) => Ok(InitialEntries { entries: Vec::new(), version_metadata: Vec::new() }),
            None => Err(unbound()),
        }
    }

    /// The next table to create, if one is left.
    pub fn next_table(&self, catalog: &Catalog) -> (r: Result<Option<TableRequest>, OmniError>)
        ensures
            next_request(*catalog, self.entries@.len(), r),
    {
        let ir = match &catalog.bound_schema_ir {
            Some(ir) => ir,
            None => {
                return Err(unbound());
            },
        };
        let count: usize = self.entries.len();
        let nodes: usize = catalog.node_types.len();
        if count < nodes {
            let name = catalog.node_types[count].as_str();
            assert(catalog_types(*catalog)[count as int] == (EntityKind::Node, name@));
            match find_type(&ir.nodes, name) {
                Some(found) => Ok(
                    Some(
                        TableRequest {
                            kind: EntityKind::Node,
                            position: count,
                            table_key: joined("node:", name),
                            type_id: found.type_id,
                            table_incarnation_id: found.table_incarnation_id,
                        },
                    ),
                ),
                None => {
                    let mut message = joined("identity-bound catalog is missing node IR for '", name);
                    message.append("'");
                    Err(OmniError::manifest_internal(message))
                },
            }
        } else if count - nodes < catalog.edge_types.len() {
            let position: usize = count - nodes;
            let name = catalog.edge_types[position].as_str();
            assert(catalog_types(*catalog)[count as int] == (EntityKind::Edge, name@));
            match find_type(&ir.edges, name) {
                Some(found) => Ok(
                    Some(
                        TableRequest {
                            kind: EntityKind::Edge,
                            position,
                            table_key: joined("edge:", name),
                            type_id: found.type_id,
                            table_incarnation_id: found.table_incarnation_id,
                        },
                    ),
                ),
                None => {
                    let mut message = joined("identity-bound catalog is missing edge IR for '", name);
                    message.append("'");
                    Err(OmniError::manifest_internal(message))
                },
            }
        } else {
            Ok(None)
        }
    }

    /// Records a table that was created: under the identity asked for, at its
    /// version, on no branch, without rows.
    pub fn on_created(&mut self, request: TableRequest, created: CreatedTable)
        ensures
            records(*old(self), *final(self), request, created),
    {
        let ghost entries_before = self.entries@;
        let ghost metadata_before = self.version_metadata@;
        let identity = TableIdentity {
            type_id: request.type_id,
            incarnation_id: request.table_incarnation_id,
        };
        self.version_metadata.push((identity, created.metadata.clone()));
        self.entries.push(
            SubTableEntry {
                identity,
                table_key: request.table_key,
                table_path: created.table_path,
                table_version: created.table_version,
                table_branch: None,
                row_count: 0,
                version_metadata: created.metadata,
            },
        );
        assert(self.entries@.drop_last() =~= entries_before);
        assert(self.version_metadata@.drop_last() =~= metadata_before);
    }
}

/// The write that creates a manifest: all entries, the genesis lineage and the
/// stamp in one commit.
#[derive(Debug)]
pub struct ManifestCreate {
    pub batch: Batch,
    pub params: CreateParams,
}

/// A manifest in the making.
#[derive(Debug)]
pub struct ManifestInit {
    /// The graph's root without trailing slashes.
    root: String,
    /// The tables created so far.
    initial: InitialEntries,
    /// The number of node and of edge types whose tables are to be created.
    nodes: usize,
    edges: usize,
    /// Whether the write that creates the manifest has been handed out.
    create_called: bool,
}

/// Starts the creation of a manifest.
pub fn init_manifest_graph(root_uri: &str, catalog: &Catalog) -> (r: Result<
    ManifestInit,
    ManifestInitError,
>)
    ensures
        match r {
            Ok(init) => catalog.bound_schema_ir is Some && init.root_text() == text::trim_slashes(
                root_uri@,
            ) && init.tables().entries@.len() == 0 && init.tables().version_metadata@.len() == 0
                && init.owed() == catalog_types(*catalog).len() && !init.is_handed_out(),
            Err(error) => catalog.bound_schema_ir is None && (
            error matches ManifestInitError::BeforeManifestCreate(source) && is_unbound(
                Err::<ManifestInit, OmniError>(source),
            )),
        },
{
    match InitialEntries::build_initial_entries(catalog) {
        Ok(initial) => Ok(
            ManifestInit {
                root: trimmed_root(root_uri),
                initial,
                nodes: catalog.node_types.len(),
                edges: catalog.edge_types.len(),
                create_called: false,
            },
        ),
        Err(error) => Err(ManifestInitError::BeforeManifestCreate(error)),
    }
}

impl ManifestInit {
    /// The graph's root without trailing slashes.
    pub closed spec fn root_text(self) -> Seq<char> {
        self.root@
    }

    /// The tables created so far.
    pub closed spec fn tables(self) -> InitialEntries {
        self.initial
    }

    /// The number of tables that are still to be created.
    pub closed spec fn owed(self) -> int {
        self.nodes + self.edges - self.initial.entries@.len()
    }

    /// Whether the write that creates the manifest has been handed out.
    pub closed spec fn is_handed_out(self) -> bool {
        self.create_called
    }

    pub fn root(&self) -> (r: &str)
        ensures
            r@ == self.root_text(),
    {
        self.root.as_str()
    }

    pub fn initial(&self) -> (r: &InitialEntries)
        ensures
            *r == self.tables(),
    {
        &self.initial
    }

    /// Whether every table has been created.
    pub fn is_complete(&self) -> (r: bool)
        ensures
            r == (self.owed() <= 0),
    {
        let done: usize = self.initial.entries.len();
        done >= self.nodes && done - self.nodes >= self.edges
    }

    /// The next table to create, if one is left.
    pub fn next_table(&self, catalog: &Catalog) -> (r: Result<Option<TableRequest>, OmniError>)
        ensures
            next_request(*catalog, self.tables().entries@.len(), r),
    {
        self.initial.next_table(catalog)
    }

    /// Records a table that was created.
    pub fn on_created(&mut self, request: TableRequest, created: CreatedTable)
        requires
            old(self).owed() > 0,
        ensures
            final(self).root_text() == old(self).root_text(),
            final(self).owed() == old(self).owed() - 1,
            final(self).is_handed_out() == old(self).is_handed_out(),
            records(old(self).tables(), final(self).tables(), request, created),
    {
        self.initial.on_created(request, created);
    }

    /// Hands out the write that creates the manifest, once every table has been
    /// created. From here on no failure shows that nothing was created.
    pub fn create(&mut self, manifest_batch: &Batch, stamp_key: &str, stamp_value: &str) -> (r:
        Result<ManifestCreate, ManifestInitError>)
        requires
            !old(self).is_handed_out(),
            old(self).owed() == 0,
        ensures
            final(self).root_text() == old(self).root_text(),
            final(self).tables() == old(self).tables(),
            final(self).owed() == old(self).owed(),
            final(self).is_handed_out() == (r is Ok),
            match r {
                Ok(create) => is_stamping(
                    *manifest_batch,
                    stamp_key@,
                    stamp_value@,
                    Ok(create.batch),
                ) && create.params == graph_create_params(false),
                Err(error) => error matches ManifestInitError::BeforeManifestCreate(source)
                    && is_stamping(*manifest_batch, stamp_key@, stamp_value@, Err(source)),
            },
    {
        match stamp_manifest_batch(manifest_batch, stamp_key, stamp_value) {
            Ok(batch) => {
                self.create_called = true;
                Ok(
                    ManifestCreate {
                        batch,
                        params: CreateParams {
                            must_not_exist: true,
                            enable_stable_row_ids: true,
                            data_storage_version: FileVersion::V2_2,
                            allow_external_blob_outside_bases: false,
                            auto_cleanup: false,
                            skip_auto_cleanup: true,
                        },
                    },
                )
            },
            Err(error) => Err(ManifestInitError::BeforeManifestCreate(error)),
        }
    }

    /// The failure that an error is at this point: before the write was handed
    /// out nothing can have been created, afterwards the outcome is unknown.
    pub fn failed(&self, error: OmniError) -> (r: ManifestInitError)
        ensures
            r == (if self.is_handed_out() {
                ManifestInitError::ManifestCreateOutcomeUnknown(error)
            } else {
                ManifestInitError::BeforeManifestCreate(error)
            }),
    {
        if self.create_called {
            ManifestInitError::ManifestCreateOutcomeUnknown(error)
        } else {
            ManifestInitError::BeforeManifestCreate(error)
        }
    }

    /// The failure that an error of the storage layer is at this point.
    pub fn storage_failed(&self, error: LanceError) -> (r: ManifestInitError)
        ensures
            (r is ManifestCreateOutcomeUnknown) == self.is_handed_out(),
            error::is_storage(
                r.source(),
                error::lance_failure_kind(error),
                "storage: "@ + error.message@,
            ),
    {
        self.failed(OmniError::storage(error))
    }
}

/// The identity that the accepted schema gives the table of a type.
pub open spec fn identity_of(ir: SchemaIr, kind: EntityKind, name: Seq<char>) -> Option<
    TableIdentity,
> {
    let types = if kind == EntityKind::Node {
        ir.nodes@
    } else {
        ir.edges@
    };
    match type_named(types, name) {
        Some(found) => Some(
            TableIdentity {
                type_id: found.type_id,
                incarnation_id: found.table_incarnation_id,
            },
        ),
        None => None,
    }
}

/// Whether an entry is that of a type in a fresh graph: under the type's key and
/// identity, empty and on no branch.
pub open spec fn is_fresh_entry(
    entry: SubTableEntry,
    ir: SchemaIr,
    kind: EntityKind,
    name: Seq<char>,
) -> bool {
    &&& entry.table_key@ == table_key(kind, name)
    &&& identity_of(ir, kind, name) == Some(entry.identity)
    &&& entry.table_branch is None
    &&& entry.row_count == 0
}

/// Whether the entries are those of the first types of a catalog, in its order.
pub open spec fn follow_catalog(entries: Seq<SubTableEntry>, catalog: Catalog) -> bool {
    entries.len() <= catalog_types(catalog).len() && forall|i: int|
        0 <= i < entries.len() ==> is_fresh_entry(
            #[trigger] entries[i],
            catalog.bound_schema_ir->0,
            catalog_types(catalog)[i].0,
            catalog_types(catalog)[i].1,
        )
}

/// Recording the table that was asked for keeps the entries in catalog order.
pub proof fn entries_follow_the_catalog(
    before: InitialEntries,
    after: InitialEntries,
    catalog: Catalog,
    request: TableRequest,
    created: CreatedTable,
)
    requires
        catalog.bound_schema_ir is Some,
        follow_catalog(before.entries@, catalog),
        next_request(catalog, before.entries@.len(), Ok(Some(request))),
        records(before, after, request, created),
    ensures
        follow_catalog(after.entries@, catalog),
{
    assert forall|i: int| 0 <= i < after.entries@.len() implies is_fresh_entry(
        #[trigger] after.entries@[i],
        catalog.bound_schema_ir->0,
        catalog_types(catalog)[i].0,
        catalog_types(catalog)[i].1,
    ) by {
        if i < before.entries@.len() {
            assert(after.entries@.drop_last()[i] == after.entries@[i]);
            assert(before.entries@[i] == after.entries@[i]);
        }
    }
}

/// A manifest is only written once there is one entry for every type: where no
/// table is owed, none is asked for, and the entries are those of the whole
/// catalog.
pub proof fn no_type_is_left_out(init: ManifestInit, catalog: Catalog)
    requires
        catalog.bound_schema_ir is Some,
        follow_catalog(init.tables().entries@, catalog),
        init.owed() == catalog_types(catalog).len() - init.tables().entries@.len(),
        init.owed() == 0,
    ensures
        init.tables().entries@.len() == catalog_types(catalog).len(),
        next_request(catalog, init.tables().entries@.len(), Ok(None)),
{
}

/// Every dataset of a graph is created anew, in the format 2.2, with stable row
/// ids and without cleanup; only tables may refer to external Blobs.
pub proof fn datasets_are_created_alike(allow_external: bool)
    ensures
        graph_create_params(allow_external).must_not_exist,
        graph_create_params(allow_external).enable_stable_row_ids,
        graph_create_params(allow_external).data_storage_version == FileVersion::V2_2,
        graph_create_params(allow_external).allow_external_blob_outside_bases == allow_external,
        !graph_create_params(allow_external).auto_cleanup,
        graph_create_params(allow_external).skip_auto_cleanup,
{
}

/// The tables are those of the node types and then of the edge types, each in the
/// catalog's order.
pub proof fn nodes_come_before_edges(catalog: Catalog)
    ensures
        catalog_types(catalog).len() == catalog.node_types@.len() + catalog.edge_types@.len(),
        forall|i: int|
            0 <= i < catalog.node_types@.len() ==> (#[trigger] catalog_types(catalog)[i]) == (
                EntityKind::Node,
                catalog.node_types@[i]@,
            ),
        forall|i: int|
            catalog.node_types@.len() <= i < catalog_types(catalog).len() ==> (
            #[trigger] catalog_types(catalog)[i]) == (
                EntityKind::Edge,
                catalog.edge_types@[i - catalog.node_types@.len()]@,
            ),
{
}

/// A type is found by its name, the first where there are several, and is missing
/// where none has it.
pub proof fn a_type_is_found_by_its_name(types: Seq<TypeIr>, name: Seq<char>)
    ensures
        type_named(types, name) is None <==> forall|i: int|
            0 <= i < types.len() ==> (#[trigger] types[i]).name@ != name,
        type_named(types, name) matches Some(found) ==> exists|i: int|
            0 <= i < types.len() && #[trigger] types[i] == found && found.name@ == name && (forall|
                j: int,
            |
                0 <= j < i ==> (#[trigger] types[j]).name@ != name),
    decreases types.len(),
{
    if types.len() > 0 {
        let rest = types.drop_first();
        a_type_is_found_by_its_name(rest, name);
        assert(forall|i: int| 0 <= i < rest.len() ==> rest[i] == #[trigger] types[i + 1]);
        if types[0].name@ == name {
            assert(types[0] == types[0]);
        } else {
            match type_named(rest, name) {
                Some(found) => {
                    let i = choose|i: int|
                        0 <= i < rest.len() && #[trigger] rest[i] == found && found.name@ == name && (
                        forall|j: int| 0 <= j < i ==> (#[trigger] rest[j]).name@ != name);
                    assert(types[i + 1] == found);
                    assert forall|j: int| 0 <= j < i + 1 implies (#[trigger] types[j]).name@
                        != name by {
                        if j > 0 {
                            assert(rest[j - 1] == types[j]);
                        }
                    }
                },
                None => {
                    assert forall|i: int| 0 <= i < types.len() implies (#[trigger] types[i]).name@
                        != name by {
                        if i > 0 {
                            assert(rest[i - 1] == types[i]);
                        }
                    }
                },
            }
        }
    }
}

/// The next table asked for is that of the next type in the catalog's order,
/// under that type's key and with the identity that the accepted schema gives it;
/// a type that the schema lacks is named, a catalog without a schema refused, and
/// nothing is asked for once every type has its table.
pub proof fn the_next_table_is_that_of_the_next_type(
    catalog: Catalog,
    count: nat,
    result: Result<Option<TableRequest>, OmniError>,
)
    requires
        next_request(catalog, count, result),
    ensures
        catalog.bound_schema_ir is None ==> (result matches Err(OmniError::Manifest(manifest))
            && manifest.kind == error::ManifestErrorKind::Internal && manifest.message@
            == "manifest initialization requires an identity-bound accepted catalog"@),
        catalog.bound_schema_ir is Some && count >= catalog.node_types@.len()
            + catalog.edge_types@.len() ==> (result matches Ok(None)),
        catalog.bound_schema_ir matches Some(ir) ==> count < catalog.node_types@.len() ==> (
        match type_named(ir.nodes@, catalog.node_types@[count as int]@) {
            Some(found) => result matches Ok(Some(request)) && request.kind == EntityKind::Node
                && request.position == count && request.table_key@ == "node:"@
                + catalog.node_types@[count as int]@ && request.type_id == found.type_id
                && request.table_incarnation_id == found.table_incarnation_id,
            None => result matches Err(OmniError::Manifest(manifest)) && manifest.kind
                == error::ManifestErrorKind::Internal && manifest.message@
                == "identity-bound catalog is missing node IR for '"@
                + catalog.node_types@[count as int]@ + "'"@,
        }),
        catalog.bound_schema_ir matches Some(ir) ==> catalog.node_types@.len() <= count
            < catalog.node_types@.len() + catalog.edge_types@.len() ==> ({
            let at = count - catalog.node_types@.len();
            match type_named(ir.edges@, catalog.edge_types@[at]@) {
                Some(found) => result matches Ok(Some(request)) && request.kind == EntityKind::Edge
                    && request.position == at && request.table_key@ == "edge:"@
                    + catalog.edge_types@[at]@ && request.type_id == found.type_id
                    && request.table_incarnation_id == found.table_incarnation_id,
                None => result matches Err(OmniError::Manifest(manifest)) && manifest.kind
                    == error::ManifestErrorKind::Internal && manifest.message@
                    == "identity-bound catalog is missing edge IR for '"@ + catalog.edge_types@[at]@
                    + "'"@,
            }
        }),
{
    nodes_come_before_edges(catalog);
    if catalog.bound_schema_ir is Some && count < catalog_types(catalog).len() {
        let here = catalog_types(catalog)[count as int];
    }
}

/// Recording a table adds one entry behind the others, and its metadata under its
/// identity, and changes nothing else: the entry has the key and the identity that
/// were asked for, and the path, version and metadata that were reported, is on no
/// branch and has no rows.
pub proof fn a_created_table_is_recorded_as_it_is(
    before: InitialEntries,
    after: InitialEntries,
    request: TableRequest,
    created: CreatedTable,
)
    requires
        records(before, after, request, created),
    ensures
        after.entries@.len() == before.entries@.len() + 1,
        forall|i: int|
            0 <= i < before.entries@.len() ==> #[trigger] after.entries@[i] == before.entries@[i],
        after.entries@.last().identity.type_id == request.type_id,
        after.entries@.last().identity.incarnation_id == request.table_incarnation_id,
        after.entries@.last().table_key == request.table_key,
        after.entries@.last().table_path == created.table_path,
        after.entries@.last().table_version == created.table_version,
        after.entries@.last().table_branch is None,
        after.entries@.last().row_count == 0,
        after.entries@.last().version_metadata == created.metadata,
        forall|identity: TableIdentity| #[trigger]
            metadata_map(after.version_metadata@).contains_key(identity) <==> metadata_map(
                before.version_metadata@,
            ).contains_key(identity) || (identity.type_id == request.type_id
                && identity.incarnation_id == request.table_incarnation_id),
        forall|identity: TableIdentity| #[trigger]
            metadata_map(after.version_metadata@).contains_key(identity) ==> metadata_map(
                after.version_metadata@,
            )[identity] == (if identity.type_id == request.type_id && identity.incarnation_id
                == request.table_incarnation_id {
                created.metadata@
            } else {
                metadata_map(before.version_metadata@)[identity]
            }),
{
    assert forall|i: int| 0 <= i < before.entries@.len() implies #[trigger] after.entries@[i]
        == before.entries@[i] by {
        assert(after.entries@.drop_last()[i] == after.entries@[i]);
    }
    let identity = request_identity(request);
    assert forall|other: TableIdentity|
        other.type_id == request.type_id && other.incarnation_id
            == request.table_incarnation_id implies other == identity by {}
}

/// The metadata of an identity is that of the last table recorded under it.
pub proof fn the_last_metadata_of_an_identity_counts(
    metadata: Seq<(TableIdentity, String)>,
    entry: (TableIdentity, String),
    identity: TableIdentity,
)
    ensures
        !metadata_map(Seq::empty()).contains_key(identity),
        metadata_map(metadata.push(entry)).contains_key(identity) <==> entry.0 == identity
            || metadata_map(metadata).contains_key(identity),
        entry.0 == identity ==> metadata_map(metadata.push(entry))[identity] == entry.1@,
        entry.0 != identity && metadata_map(metadata).contains_key(identity) ==> metadata_map(
            metadata.push(entry),
        )[identity] == metadata_map(metadata)[identity],
{
    assert(metadata.push(entry).drop_last() =~= metadata);
}

/// A stamped batch is the batch with the stamp as the only metadata of its
/// schema; where Arrow refuses it, its words follow those of the step.
pub proof fn a_stamped_batch_is_the_batch_with_the_stamp(
    batch: Batch,
    stamp_key: Seq<char>,
    stamp_value: Seq<char>,
    result: Result<Batch, OmniError>,
    key: Seq<char>,
)
    requires
        is_stamping(batch, stamp_key, stamp_value, result),
    ensures
        result is Ok <==> batch::batch_rebuilt(batch) is Ok,
        result matches Ok(stamped) ==> {
            &&& batch::batch_columns(stamped) == batch::batch_columns(batch)
            &&& batch::batch_rows(stamped) == batch::batch_rows(batch)
            &&& batch::batch_metadata(stamped) == batch::batch_metadata(batch)
            &&& batch::batch_structs(stamped) == batch::batch_structs(batch)
            &&& batch::batch_refusals(stamped) == batch::batch_refusals(batch)
            &&& batch::batch_texts(stamped) == batch::batch_texts(batch)
            &&& batch::batch_numbers(stamped) == batch::batch_numbers(batch)
            &&& batch::batch_schema_metadata(stamped).contains_key(key) <==> key == stamp_key
            &&& batch::batch_schema_metadata(stamped)[stamp_key] == stamp_value
        },
        result matches Err(error) ==> (error matches OmniError::Manifest(manifest) && manifest.kind
            == error::ManifestErrorKind::Internal && manifest.details is None
            && "attach stamp metadata to init batch: "@.is_prefix_of(manifest.message@) && (
        batch::batch_rebuilt(batch) matches Err(Some(words)) ==> manifest.message@
            == "attach stamp metadata to init batch: "@ + words)),
{
}

/// A catalog that is bound to no accepted schema is refused in these words.
pub proof fn an_unbound_catalog_is_refused(result: Result<InitialEntries, OmniError>)
    ensures
        is_unbound(result) <==> (result matches Err(OmniError::Manifest(manifest)) && manifest.kind
            == error::ManifestErrorKind::Internal && manifest.details is None && manifest.message@
            == "manifest initialization requires an identity-bound accepted catalog"@),
{
}

} // verus!
