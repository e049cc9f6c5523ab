//! The store's error type and the classification of substrate errors.

use arrow_schema::ArrowError;
use vstd::prelude::*;

use crate::storage::{
    self, ErrorSource, IoError, MAX_STORAGE_SOURCE_DEPTH, StorageError, StorageFailure,
    StorageFailureKind, classify_io_error_at_depth, classify_object_store_error_at_depth,
    source_below,
};
use crate::text::{self, decimal_text, has_prefix, joined};

verus! {

/// The result of an operation on the store.
pub type Result<T> = std::result::Result<T, OmniError>;

#[derive(Debug, Clone, Copy, PartialEq, Eq, Structural)]
pub enum ManifestErrorKind {
    BadRequest,
    NotFound,
    Conflict,
    Internal,
}

/// Structured details for a manifest-level conflict. Set on the `details`
/// field of `ManifestError` when callers need to match on the specific
/// concurrency-control failure rather than parse a string.
#[derive(Debug, Clone, PartialEq, Eq)]
pub enum ManifestConflictDetails {
    /// A caller-supplied per-table expected version did not match the
    /// manifest's current latest non-tombstoned version for that table.
    ExpectedVersionMismatch { table_key: String, expected: u64, actual: u64 },
    /// A logical authority value captured during write preparation changed
    /// before the manifest visibility decision.
    ReadSetChanged { member: String, expected: Option<String>, actual: Option<String> },
    /// The row-level compare-and-swap rejected the publish because a concurrent
    /// writer landed a row with the same object id.
    RowLevelCasContention,
}

#[derive(Debug, Clone)]
pub struct ManifestError {
    pub kind: ManifestErrorKind,
    pub message: String,
    pub details: Option<ManifestConflictDetails>,
}

impl ManifestError {
    pub fn new(kind: ManifestErrorKind, message: String) -> (r: Self)
        ensures
            r == (ManifestError { kind, message, details: None }),
    {
        ManifestError { kind, message, details: None }
    }

    pub fn with_details(self, details: ManifestConflictDetails) -> (r: Self)
        ensures
            r == (ManifestError { kind: self.kind, message: self.message, details: Some(details) }),
    {
        ManifestError { kind: self.kind, message: self.message, details: Some(details) }
    }

    /// The error's text: its message.
    pub fn to_string(&self) -> (r: String)
        ensures
            r@ == self.message@,
    {
        self.message.clone()
    }
}

#[derive(Debug, Clone)]
pub struct MergeConflict {
    pub table_key: String,
    pub row_id: Option<String>,
    pub kind: MergeConflictKind,
    pub message: String,
}

#[derive(Debug, Clone, Copy, PartialEq, Eq, Structural)]
pub enum MergeConflictKind {
    DivergentInsert,
    DivergentUpdate,
    DeleteVsUpdate,
    OrphanEdge,
    UniqueViolation,
    CardinalityViolation,
    ValueConstraintViolation,
}

/// The variants of a Lance error.
#[derive(Debug, Clone, Copy, PartialEq, Eq, Structural)]
pub enum LanceErrorKind {
    InvalidInput,
    DatasetAlreadyExists,
    SchemaMismatch,
    DatasetNotFound,
    CorruptFile,
    NotSupported,
    CommitConflict,
    IncompatibleTransaction,
    RetryableCommitConflict,
    TooMuchWriteContention,
    Timeout,
    Internal,
    PrerequisiteFailed,
    Unprocessable,
    Arrow,
    Schema,
    NotFound,
    IO,
    Index,
    IndexNotFound,
    InvalidTableLocation,
    Stop,
    Wrapped,
    Cloned,
    Execution,
    InvalidRef,
    RefConflict,
    RefNotFound,
    Cleanup,
    VersionNotFound,
    VersionConflict,
    Namespace,
    External,
    FieldNotFound,
    DiskCapExceeded,
    Fenced,
}

/// A Lance error: its variant, its text and the boxed error it holds, if any.
#[derive(Debug)]
pub struct LanceError {
    pub kind: LanceErrorKind,
    pub message: String,
    pub source: Option<Box<ErrorSource>>,
}

/// The Lance Namespace error codes, in the order of their numbers.
#[derive(Debug, Clone, Copy, PartialEq, Eq, Structural)]
pub enum NamespaceErrorCode {
    Unsupported,
    NamespaceNotFound,
    NamespaceAlreadyExists,
    NamespaceNotEmpty,
    TableNotFound,
    TableAlreadyExists,
    TableIndexNotFound,
    TableIndexAlreadyExists,
    TableTagNotFound,
    TableTagAlreadyExists,
    TransactionNotFound,
    TableVersionNotFound,
    TableColumnNotFound,
    InvalidInput,
    ConcurrentModification,
    PermissionDenied,
    Unauthenticated,
    ServiceUnavailable,
    Internal,
    InvalidTableState,
    TableSchemaValidationError,
    Throttling,
    TableBranchNotFound,
    TableBranchAlreadyExists,
}

/// A Lance Namespace error: its code and the message without the code's prefix.
#[derive(Debug)]
pub struct NamespaceError {
    pub code: NamespaceErrorCode,
    pub message: String,
}

/// A query-engine error: its text and the error below it, if any.
#[derive(Debug)]
pub struct QueryError {
    pub message: String,
    pub source: Option<Box<ErrorSource>>,
}

/// A schema-compiler error with its text.
#[derive(Debug)]
pub struct CompilerError {
    pub message: String,
}

#[derive(Debug)]
pub enum OmniError {
    Compiler(CompilerError),
    Storage(StorageFailure),
    /// A stale transaction was rejected as semantically retryable. Kept typed
    /// at the storage boundary so that an effect-free key fence is told apart
    /// from an arbitrary failure without reading its text.
    RetryableCommitConflict(String),
    DataFusion(String),
    Io(IoError),
    Manifest(ManifestError),
    MergeConflicts(Vec<MergeConflict>),
    /// A strict keyed insert found that the logical row id already exists in
    /// the pinned table image, or lost a concurrent exact-id insertion race
    /// before any effect from this attempt became visible.
    KeyConflict {
        table_key: String,
        /// The exact id observed; absent only from older producers.
        key: Option<String>,
    },
    /// A write was rejected before recovery was armed because its bounded
    /// physical plan would exceed an explicit safety ceiling.
    ResourceLimitExceeded { resource: String, limit: u64, actual: u64 },
    /// An external Blob URI is malformed or outside the graph handle's base
    /// allowlist. The URI is a normalized, credential-free spelling.
    ExternalBlobPolicy { uri: String, reason: String },
    /// An allowed external Blob source could not be probed or read before the
    /// write's first durable effect.
    ExternalBlobSource { uri: String, reason: String },
    /// Persisted table or Blob state contradicted the logical Blob contract.
    BlobIntegrity { reason: String },
    /// A managed Blob range used reversed or out-of-bounds coordinates.
    BlobRangeNotSatisfiable { start: u64, end: u64, length: u64 },
    /// A durable recovery intent overlaps this write and must be resolved
    /// before the caller retries.
    RecoveryRequired { operation_id: String, reason: String },
    /// A caller-supplied write precondition named a branch head that is not
    /// the branch's current head. The write had no effect. `actual` is `None`
    /// on a branch with no commits.
    PreconditionFailed { branch: String, expected: String, actual: Option<String> },
    /// A policy denial, or a failure of policy evaluation itself.
    Policy(String),
    /// Initialization was asked for at a URI that already holds a manifest or
    /// schema artifacts.
    AlreadyInitialized { uri: String },
    /// The manifest Create commit completed, but a later read-back or
    /// validation step failed. The schema artifacts are retained.
    InitializationCommitted { uri: String, source: Box<OmniError> },
    /// Initialization failed and the follow-up exact genesis probe failed too,
    /// so what was committed cannot be proved.
    InitializationIndeterminate { uri: String, source: Box<OmniError>, probe: Box<OmniError> },
    /// A durable initialization-ownership claim already exists.
    InitializationClaimed { uri: String },
}

// ---------------------------------------------------------------------------
// Classification
// ---------------------------------------------------------------------------

/// What a Lance variant proves by itself; `None` for the wrappers that are
/// looked through.
pub open spec fn lance_condition(kind: LanceErrorKind) -> Option<StorageFailureKind> {
    match kind {
        LanceErrorKind::Timeout => Some(StorageFailureKind::Transient),
        LanceErrorKind::DiskCapExceeded
        | LanceErrorKind::InvalidInput
        | LanceErrorKind::InvalidTableLocation
        | LanceErrorKind::InvalidRef
        | LanceErrorKind::NotSupported
        | LanceErrorKind::FieldNotFound
        | LanceErrorKind::Unprocessable => Some(StorageFailureKind::Configuration),
        LanceErrorKind::DatasetNotFound
        | LanceErrorKind::NotFound
        | LanceErrorKind::RefNotFound
        | LanceErrorKind::VersionNotFound
        | LanceErrorKind::IndexNotFound => Some(StorageFailureKind::NotFound),
        LanceErrorKind::DatasetAlreadyExists
        | LanceErrorKind::CommitConflict
        | LanceErrorKind::IncompatibleTransaction
        | LanceErrorKind::RetryableCommitConflict
        | LanceErrorKind::TooMuchWriteContention
        | LanceErrorKind::RefConflict
        | LanceErrorKind::VersionConflict
        | LanceErrorKind::Fenced => Some(StorageFailureKind::Precondition),
        LanceErrorKind::CorruptFile
        | LanceErrorKind::SchemaMismatch
        | LanceErrorKind::Internal
        | LanceErrorKind::Arrow
        | LanceErrorKind::Schema => Some(StorageFailureKind::Permanent),
        LanceErrorKind::Execution
        | LanceErrorKind::Index
        | LanceErrorKind::Cleanup
        | LanceErrorKind::Cloned
        | LanceErrorKind::PrerequisiteFailed
        | LanceErrorKind::Stop => Some(StorageFailureKind::Unknown),
        LanceErrorKind::IO
        | LanceErrorKind::External
        | LanceErrorKind::Wrapped
        | LanceErrorKind::Namespace => None,
    }
}

/// What a namespace code proves.
pub open spec fn namespace_condition(code: NamespaceErrorCode) -> StorageFailureKind {
    match code {
        NamespaceErrorCode::ServiceUnavailable
        | NamespaceErrorCode::Throttling => StorageFailureKind::Transient,
        NamespaceErrorCode::NamespaceNotFound
        | NamespaceErrorCode::TableNotFound
        | NamespaceErrorCode::TableIndexNotFound
        | NamespaceErrorCode::TableTagNotFound
        | NamespaceErrorCode::TransactionNotFound
        | NamespaceErrorCode::TableVersionNotFound
        | NamespaceErrorCode::TableColumnNotFound
        | NamespaceErrorCode::TableBranchNotFound => StorageFailureKind::NotFound,
        NamespaceErrorCode::Unsupported
        | NamespaceErrorCode::InvalidInput
        | NamespaceErrorCode::PermissionDenied
        | NamespaceErrorCode::Unauthenticated
        | NamespaceErrorCode::TableSchemaValidationError => StorageFailureKind::Configuration,
        NamespaceErrorCode::NamespaceAlreadyExists
        | NamespaceErrorCode::TableAlreadyExists
        | NamespaceErrorCode::TableIndexAlreadyExists
        | NamespaceErrorCode::TableTagAlreadyExists
        | NamespaceErrorCode::TableBranchAlreadyExists
        | NamespaceErrorCode::ConcurrentModification
        | NamespaceErrorCode::NamespaceNotEmpty
        | NamespaceErrorCode::InvalidTableState => StorageFailureKind::Precondition,
        NamespaceErrorCode::Internal => StorageFailureKind::Permanent,
    }
}

/// The evidence of a Lance error when `budget` links may still be inspected:
/// an explicit condition wins over anything below it, a wrapper passes the
/// question on.
pub open spec fn lance_evidence(error: LanceError, budget: nat) -> StorageFailureKind
    decreases budget, 0nat,
{
    if budget == 0 {
        StorageFailureKind::Unknown
    } else {
        match lance_condition(error.kind) {
            Some(kind) => kind,
            None => match error.source {
                None => StorageFailureKind::Unknown,
                Some(source) => match *source {
                    ErrorSource::Namespace(namespace) if error.kind == LanceErrorKind::Namespace =>
                        namespace_condition(namespace.code),
                    _ => source_evidence(*source, (budget - 1) as nat),
                },
            },
        }
    }
}

/// The first typed evidence on a source chain, or `Unknown` without any.
pub open spec fn source_evidence(source: ErrorSource, budget: nat) -> StorageFailureKind
    decreases budget, 1nat,
{
    if budget == 0 {
        StorageFailureKind::Unknown
    } else {
        match source {
            ErrorSource::Lance(error) => lance_evidence(error, budget),
            ErrorSource::ObjectStore(error) => storage::object_store_evidence(error, budget),
            ErrorSource::Io(error) => storage::io_evidence(error, budget),
            _ => match storage::link_below(source) {
                Some(below) => source_evidence(*below, (budget - 1) as nat),
                None => StorageFailureKind::Unknown,
            },
        }
    }
}

/// The first typed evidence on a source chain, if the chain has any within the
/// budget.
pub open spec fn typed_evidence(source: ErrorSource, budget: nat) -> Option<StorageFailureKind>
    decreases budget,
{
    if budget == 0 {
        None
    } else {
        match source {
            ErrorSource::Lance(error) => Some(lance_evidence(error, budget)),
            ErrorSource::ObjectStore(error) => Some(storage::object_store_evidence(error, budget)),
            ErrorSource::Io(error) => Some(storage::io_evidence(error, budget)),
            _ => match storage::link_below(source) {
                Some(below) => typed_evidence(*below, (budget - 1) as nat),
                None => None,
            },
        }
    }
}

/// The classification of a Lance error taken by itself.
pub open spec fn lance_failure_kind(error: LanceError) -> StorageFailureKind {
    lance_evidence(error, MAX_STORAGE_SOURCE_DEPTH as nat)
}

/// The storage evidence carried through query execution, if any.
pub open spec fn query_evidence(error: QueryError) -> Option<StorageFailureKind> {
    match error.source {
        Some(below) => typed_evidence(*below, (MAX_STORAGE_SOURCE_DEPTH - 1) as nat),
        None => None,
    }
}

/// Classifies a Lance error.
pub fn classify_lance_error(error: &LanceError) -> (r: StorageFailureKind)
    ensures
        r == lance_failure_kind(*error),
{
    classify_lance_error_at_depth(error, 0)
}

/// Classifies a Lance error met at `depth` of a source chain.
pub fn classify_lance_error_at_depth(error: &LanceError, depth: usize) -> (r: StorageFailureKind)
    ensures
        r == lance_evidence(*error, storage::budget_at(depth)),
    decreases storage::budget_at(depth), 0nat,
{
    if depth >= MAX_STORAGE_SOURCE_DEPTH {
        return StorageFailureKind::Unknown;
    }
    match error.kind {
        LanceErrorKind::Timeout => StorageFailureKind::Transient,
        LanceErrorKind::DiskCapExceeded
        | LanceErrorKind::InvalidInput
        | LanceErrorKind::InvalidTableLocation
        | LanceErrorKind::InvalidRef
        | LanceErrorKind::NotSupported
        | LanceErrorKind::FieldNotFound
        | LanceErrorKind::Unprocessable => StorageFailureKind::Configuration,
        LanceErrorKind::DatasetNotFound
        | LanceErrorKind::NotFound
        | LanceErrorKind::RefNotFound
        | LanceErrorKind::VersionNotFound
        | LanceErrorKind::IndexNotFound => StorageFailureKind::NotFound,
        LanceErrorKind::DatasetAlreadyExists
        | LanceErrorKind::CommitConflict
        | LanceErrorKind::IncompatibleTransaction
        | LanceErrorKind::RetryableCommitConflict
        | LanceErrorKind::TooMuchWriteContention
        | LanceErrorKind::RefConflict
        | LanceErrorKind::VersionConflict
        | LanceErrorKind::Fenced => StorageFailureKind::Precondition,
        LanceErrorKind::CorruptFile
        | LanceErrorKind::SchemaMismatch
        | LanceErrorKind::Internal
        | LanceErrorKind::Arrow
        | LanceErrorKind::Schema => StorageFailureKind::Permanent,
        LanceErrorKind::Execution
        | LanceErrorKind::Index
        | LanceErrorKind::Cleanup
        | LanceErrorKind::Cloned
        | LanceErrorKind::PrerequisiteFailed
        | LanceErrorKind::Stop => StorageFailureKind::Unknown,
        LanceErrorKind::IO | LanceErrorKind::External | LanceErrorKind::Wrapped => {
            match &error.source {
                Some(source) => classify_lance_source_at_depth(source, depth + 1),
                None => StorageFailureKind::Unknown,
            }
        },
        LanceErrorKind::Namespace => {
            match &error.source {
                Some(source) => match &**source {
                    ErrorSource::Namespace(namespace) => classify_namespace_code(namespace.code),
                    _ => classify_lance_source_at_depth(source, depth + 1),
                },
                None => StorageFailureKind::Unknown,
            }
        },
    }
}

/// Follows a source chain from `depth` on to the first typed error.
pub fn classify_lance_source_at_depth(source: &ErrorSource, depth: usize) -> (r: StorageFailureKind)
    ensures
        r == source_evidence(*source, storage::budget_at(depth)),
    decreases storage::budget_at(depth), 1nat,
{
    if depth >= MAX_STORAGE_SOURCE_DEPTH {
        return StorageFailureKind::Unknown;
    }
    match source {
        ErrorSource::Lance(error) => classify_lance_error_at_depth(error, depth),
        ErrorSource::ObjectStore(error) => classify_object_store_error_at_depth(error, depth),
        ErrorSource::Io(error) => classify_io_error_at_depth(error, depth),
        _ => match source_below(source) {
            Some(below) => classify_lance_source_at_depth(below, depth + 1),
            None => StorageFailureKind::Unknown,
        },
    }
}

/// Looks from `depth` on for typed storage evidence on a source chain.
pub fn find_lance_source_kind(source: &ErrorSource, depth: usize) -> (r: Option<StorageFailureKind>)
    ensures
        r == typed_evidence(*source, storage::budget_at(depth)),
    decreases storage::budget_at(depth),
{
    if depth >= MAX_STORAGE_SOURCE_DEPTH {
        return None;
    }
    match source {
        ErrorSource::Lance(error) => Some(classify_lance_error_at_depth(error, depth)),
        ErrorSource::ObjectStore(error) => Some(classify_object_store_error_at_depth(error, depth)),
        ErrorSource::Io(error) => Some(classify_io_error_at_depth(error, depth)),
        _ => match source_below(source) {
            Some(below) => find_lance_source_kind(below, depth + 1),
            None => None,
        },
    }
}

/// Classifies a namespace code.
pub fn classify_namespace_code(code: NamespaceErrorCode) -> (r: StorageFailureKind)
    ensures
        r == namespace_condition(code),
{
    match code {
        NamespaceErrorCode::ServiceUnavailable
        | NamespaceErrorCode::Throttling => StorageFailureKind::Transient,
        NamespaceErrorCode::NamespaceNotFound
        | NamespaceErrorCode::TableNotFound
        | NamespaceErrorCode::TableIndexNotFound
        | NamespaceErrorCode::TableTagNotFound
        | NamespaceErrorCode::TransactionNotFound
        | NamespaceErrorCode::TableVersionNotFound
        | NamespaceErrorCode::TableColumnNotFound
        | NamespaceErrorCode::TableBranchNotFound => StorageFailureKind::NotFound,
        NamespaceErrorCode::Unsupported
        | NamespaceErrorCode::InvalidInput
        | NamespaceErrorCode::PermissionDenied
        | NamespaceErrorCode::Unauthenticated
        | NamespaceErrorCode::TableSchemaValidationError => StorageFailureKind::Configuration,
        NamespaceErrorCode::NamespaceAlreadyExists
        | NamespaceErrorCode::TableAlreadyExists
        | NamespaceErrorCode::TableIndexAlreadyExists
        | NamespaceErrorCode::TableTagAlreadyExists
        | NamespaceErrorCode::TableBranchAlreadyExists
        | NamespaceErrorCode::ConcurrentModification
        | NamespaceErrorCode::NamespaceNotEmpty
        | NamespaceErrorCode::InvalidTableState => StorageFailureKind::Precondition,
        NamespaceErrorCode::Internal => StorageFailureKind::Permanent,
    }
}

impl NamespaceErrorCode {
    /// The code's number on the wire.
    pub open spec fn as_number(self) -> u32 {
        match self {
            NamespaceErrorCode::Unsupported => 0,
            NamespaceErrorCode::NamespaceNotFound => 1,
            NamespaceErrorCode::NamespaceAlreadyExists => 2,
            NamespaceErrorCode::NamespaceNotEmpty => 3,
            NamespaceErrorCode::TableNotFound => 4,
            NamespaceErrorCode::TableAlreadyExists => 5,
            NamespaceErrorCode::TableIndexNotFound => 6,
            NamespaceErrorCode::TableIndexAlreadyExists => 7,
            NamespaceErrorCode::TableTagNotFound => 8,
            NamespaceErrorCode::TableTagAlreadyExists => 9,
            NamespaceErrorCode::TransactionNotFound => 10,
            NamespaceErrorCode::TableVersionNotFound => 11,
            NamespaceErrorCode::TableColumnNotFound => 12,
            NamespaceErrorCode::InvalidInput => 13,
            NamespaceErrorCode::ConcurrentModification => 14,
            NamespaceErrorCode::PermissionDenied => 15,
            NamespaceErrorCode::Unauthenticated => 16,
            NamespaceErrorCode::ServiceUnavailable => 17,
            NamespaceErrorCode::Internal => 18,
            NamespaceErrorCode::InvalidTableState => 19,
            NamespaceErrorCode::TableSchemaValidationError => 20,
            NamespaceErrorCode::Throttling => 21,
            NamespaceErrorCode::TableBranchNotFound => 22,
            NamespaceErrorCode::TableBranchAlreadyExists => 23,
        }
    }

    pub fn as_u32(self) -> (r: u32)
        ensures
            r == self.as_number(),
    {
        match self {
            NamespaceErrorCode::Unsupported => 0,
            NamespaceErrorCode::NamespaceNotFound => 1,
            NamespaceErrorCode::NamespaceAlreadyExists => 2,
            NamespaceErrorCode::NamespaceNotEmpty => 3,
            NamespaceErrorCode::TableNotFound => 4,
            NamespaceErrorCode::TableAlreadyExists => 5,
            NamespaceErrorCode::TableIndexNotFound => 6,
            NamespaceErrorCode::TableIndexAlreadyExists => 7,
            NamespaceErrorCode::TableTagNotFound => 8,
            NamespaceErrorCode::TableTagAlreadyExists => 9,
            NamespaceErrorCode::TransactionNotFound => 10,
            NamespaceErrorCode::TableVersionNotFound => 11,
            NamespaceErrorCode::TableColumnNotFound => 12,
            NamespaceErrorCode::InvalidInput => 13,
            NamespaceErrorCode::ConcurrentModification => 14,
            NamespaceErrorCode::PermissionDenied => 15,
            NamespaceErrorCode::Unauthenticated => 16,
            NamespaceErrorCode::ServiceUnavailable => 17,
            NamespaceErrorCode::Internal => 18,
            NamespaceErrorCode::InvalidTableState => 19,
            NamespaceErrorCode::TableSchemaValidationError => 20,
            NamespaceErrorCode::Throttling => 21,
            NamespaceErrorCode::TableBranchNotFound => 22,
            NamespaceErrorCode::TableBranchAlreadyExists => 23,
        }
    }

    /// The code with a given number.
    pub fn from_u32(code: u32) -> (r: Option<Self>)
        ensures
            r is Some <==> code < 24,
            r matches Some(c) ==> c.as_number() == code,
    {
        match code {
            0 => Some(NamespaceErrorCode::Unsupported),
            1 => Some(NamespaceErrorCode::NamespaceNotFound),
            2 => Some(NamespaceErrorCode::NamespaceAlreadyExists),
            3 => Some(NamespaceErrorCode::NamespaceNotEmpty),
            4 => Some(NamespaceErrorCode::TableNotFound),
            5 => Some(NamespaceErrorCode::TableAlreadyExists),
            6 => Some(NamespaceErrorCode::TableIndexNotFound),
            7 => Some(NamespaceErrorCode::TableIndexAlreadyExists),
            8 => Some(NamespaceErrorCode::TableTagNotFound),
            9 => Some(NamespaceErrorCode::TableTagAlreadyExists),
            10 => Some(NamespaceErrorCode::TransactionNotFound),
            11 => Some(NamespaceErrorCode::TableVersionNotFound),
            12 => Some(NamespaceErrorCode::TableColumnNotFound),
            13 => Some(NamespaceErrorCode::InvalidInput),
            14 => Some(NamespaceErrorCode::ConcurrentModification),
            15 => Some(NamespaceErrorCode::PermissionDenied),
            16 => Some(NamespaceErrorCode::Unauthenticated),
            17 => Some(NamespaceErrorCode::ServiceUnavailable),
            18 => Some(NamespaceErrorCode::Internal),
            19 => Some(NamespaceErrorCode::InvalidTableState),
            20 => Some(NamespaceErrorCode::TableSchemaValidationError),
            21 => Some(NamespaceErrorCode::Throttling),
            22 => Some(NamespaceErrorCode::TableBranchNotFound),
            23 => Some(NamespaceErrorCode::TableBranchAlreadyExists),
            _ => None,
        }
    }
}

// ---------------------------------------------------------------------------
// Texts
// ---------------------------------------------------------------------------

/// The words a namespace error's text starts with, by code number. A number
/// without a code reads as an internal error.
pub open spec fn namespace_label(code: u32) -> Seq<char> {
    match code {
        0 => "Unsupported: "@,
        1 => "Namespace not found: "@,
        2 => "Namespace already exists: "@,
        3 => "Namespace not empty: "@,
        4 => "Table not found: "@,
        5 => "Table already exists: "@,
        6 => "Table index not found: "@,
        7 => "Table index already exists: "@,
        8 => "Table tag not found: "@,
        9 => "Table tag already exists: "@,
        10 => "Transaction not found: "@,
        11 => "Table version not found: "@,
        12 => "Table column not found: "@,
        13 => "Invalid input: "@,
        14 => "Concurrent modification: "@,
        15 => "Permission denied: "@,
        16 => "Unauthenticated: "@,
        17 => "Service unavailable: "@,
        19 => "Invalid table state: "@,
        20 => "Table schema validation error: "@,
        21 => "Throttling: "@,
        22 => "Table branch not found: "@,
        23 => "Table branch already exists: "@,
        _ => "Internal error: "@,
    }
}

/// The text of `lance_namespace::NamespaceError::from_code(code, message)`: the
/// words of the code, then the message.
#[verifier::external_body]
fn namespace_error_text(code: u32, message: &str) -> (r: String)
    ensures
        r@ == namespace_label(code) + message@,
{
    lance_namespace::NamespaceError::from_code(code, message).to_string()
}

/// The quoted and escaped spelling that std's `Debug` gives a text.
pub uninterp spec fn quoted_text(s: Seq<char>) -> Seq<char>;

/// Quotes a text with std's `Debug` for `str`. What is escaped, and how, is left
/// to std: the result is a function of the text alone.
#[verifier::external_body]
fn quoted(s: &str) -> (r: String)
    ensures
        r@ == quoted_text(s@),
{
    format!("{:?}", s)
}

/// An Arrow error. It is only carried to where its text is taken.
#[verifier::external_type_specification]
#[verifier::external_body]
pub struct ExArrowError(arrow_schema::ArrowError);

/// The text of an Arrow error, where the error's own fields fix it. They do not
/// where it carries an error of another library, whose text is that library's own
/// and may differ from machine to machine.
pub uninterp spec fn arrow_error_text(error: ArrowError) -> Option<Seq<char>>;

/// The text of an Arrow error (`Display` for `ArrowError`).
#[verifier::external_body]
pub(crate) fn arrow_text(error: &ArrowError) -> (r: String)
    ensures
        arrow_error_text(*error) matches Some(text) ==> r@ == text,
{
    error.to_string()
}

impl NamespaceError {
    /// The error's text.
    pub open spec fn text(self) -> Seq<char> {
        namespace_label(self.code.as_number()) + self.message@
    }

    pub fn to_string(&self) -> (r: String)
        ensures
            r@ == self.text(),
    {
        namespace_error_text(self.code.as_u32(), self.message.as_str())
    }
}

impl MergeConflictKind {
    pub open spec fn debug_text(self) -> Seq<char> {
        match self {
            MergeConflictKind::DivergentInsert => "DivergentInsert"@,
            MergeConflictKind::DivergentUpdate => "DivergentUpdate"@,
            MergeConflictKind::DeleteVsUpdate => "DeleteVsUpdate"@,
            MergeConflictKind::OrphanEdge => "OrphanEdge"@,
            MergeConflictKind::UniqueViolation => "UniqueViolation"@,
            MergeConflictKind::CardinalityViolation => "CardinalityViolation"@,
            MergeConflictKind::ValueConstraintViolation => "ValueConstraintViolation"@,
        }
    }

    fn name(self) -> (r: &'static str)
        ensures
            r@ == self.debug_text(),
    {
        match self {
            MergeConflictKind::DivergentInsert => "DivergentInsert",
            MergeConflictKind::DivergentUpdate => "DivergentUpdate",
            MergeConflictKind::DeleteVsUpdate => "DeleteVsUpdate",
            MergeConflictKind::OrphanEdge => "OrphanEdge",
            MergeConflictKind::UniqueViolation => "UniqueViolation",
            MergeConflictKind::CardinalityViolation => "CardinalityViolation",
            MergeConflictKind::ValueConstraintViolation => "ValueConstraintViolation",
        }
    }
}

impl MergeConflict {
    /// The conflict in the layout of a derived `Debug`.
    pub open spec fn debug_text(self) -> Seq<char> {
        "MergeConflict { table_key: "@ + quoted_text(self.table_key@) + ", row_id: "@ + (
        match self.row_id {
            Some(id) => "Some("@ + quoted_text(id@) + ")"@,
            None => "None"@,
        }) + ", kind: "@ + self.kind.debug_text() + ", message: "@ + quoted_text(self.message@)
            + " }"@
    }

    fn debug_string(&self) -> (r: String)
        ensures
            r@ == self.debug_text(),
    {
        let mut text = String::from_str("MergeConflict { table_key: ");
        text.append(quoted(self.table_key.as_str()).as_str());
        text.append(", row_id: ");
        let row_id = match &self.row_id {
            Some(id) => {
                let mut some = String::from_str("Some(");
                some.append(quoted(id.as_str()).as_str());
                some.append(")");
                some
            },
            None => String::from_str("None"),
        };
        text.append(row_id.as_str());
        text.append(", kind: ");
        text.append(self.kind.name());
        text.append(", message: ");
        text.append(quoted(self.message.as_str()).as_str());
        text.append(" }");
        text
    }
}

/// The elements of a list, separated by commas.
pub open spec fn listed(conflicts: Seq<MergeConflict>) -> Seq<char>
    decreases conflicts.len(),
{
    if conflicts.len() == 0 {
        Seq::empty()
    } else if conflicts.len() == 1 {
        conflicts[0].debug_text()
    } else {
        listed(conflicts.drop_last()) + ", "@ + conflicts.last().debug_text()
    }
}

fn listed_text(conflicts: &Vec<MergeConflict>) -> (r: String)
    ensures
        r@ == listed(conflicts@),
{
    let mut text = String::new();
    let mut i: usize = 0;
    while i < conflicts.len()
        invariant
            i <= conflicts.len(),
            text@ == listed(conflicts@.take(i as int)),
        decreases conflicts.len() - i,
    {
        proof {
            assert(conflicts@.take(i + 1).drop_last() == conflicts@.take(i as int));
        }
        if i > 0 {
            text.append(", ");
        }
        text.append(conflicts[i].debug_string().as_str());
        proof {
            if i == 0 {
                assert(text@ == conflicts@[0].debug_text());
            }
        }
        i = i + 1;
    }
    assert(conflicts@.take(i as int) == conflicts@);
    text
}

/// A value, or the word that stands for none.
pub open spec fn or_absent(value: Option<String>) -> Seq<char> {
    match value {
        Some(text) => text@,
        None => "<absent>"@,
    }
}

fn or_absent_text(value: &Option<String>) -> (r: &str)
    ensures
        r@ == or_absent(*value),
{
    match value {
        Some(text) => text.as_str(),
        None => "<absent>",
    }
}

impl OmniError {
    /// The operator-facing text.
    pub open spec fn text(self) -> Seq<char>
        decreases self,
    {
        match self {
            OmniError::Compiler(error) => error.message@,
            OmniError::Storage(failure) => failure.message@,
            OmniError::RetryableCommitConflict(message) => "retryable storage commit conflict: "@
                + message@,
            OmniError::DataFusion(message) => "query: "@ + message@,
            OmniError::Io(error) => "io: "@ + error.message@,
            OmniError::Manifest(error) => error.message@,
            OmniError::MergeConflicts(conflicts) => "merge conflicts: ["@ + listed(conflicts@) + "]"@,
            OmniError::KeyConflict { table_key, key: _ } => "key conflict in table '"@ + table_key@
                + "'"@,
            OmniError::ResourceLimitExceeded { resource, limit, actual } =>
                "resource limit exceeded for "@ + resource@ + ": actual "@ + text::decimal(actual as nat)
                + ", limit "@ + text::decimal(limit as nat),
            OmniError::ExternalBlobPolicy { uri, reason } => "external blob URI '"@ + uri@
                + "' is not allowed: "@ + reason@,
            OmniError::ExternalBlobSource { uri, reason } => "external blob source '"@ + uri@
                + "' is unavailable: "@ + reason@,
            OmniError::BlobIntegrity { reason } => "blob integrity violation: "@ + reason@,
            OmniError::BlobRangeNotSatisfiable { start, end, length } => "blob range ["@ + text::decimal(
                start as nat,
            ) + ", "@ + text::decimal(end as nat) + ") is not satisfiable for a value of length "@
                + text::decimal(length as nat),
            OmniError::RecoveryRequired { operation_id, reason } =>
                "recovery required for operation "@ + operation_id@ + ": "@ + reason@,
            OmniError::PreconditionFailed { branch, expected, actual } =>
                "precondition failed on branch '"@ + branch@ + "': expected head '"@ + expected@
                + "' but current is "@ + or_absent(actual),
            OmniError::Policy(message) => "policy: "@ + message@,
            OmniError::AlreadyInitialized { uri } =>
                "graph already initialized or initialization metadata exists at '"@ + uri@
                + "'; --force may replace only orphan schema files after proving that no __manifest exists"@,
            OmniError::InitializationCommitted { uri, source } => "graph initialization at '"@ + uri@
                + "' committed its manifest, but finalization failed; schema artifacts were preserved; inspect or open the graph before taking further action: "@
                + source.text(),
            OmniError::InitializationIndeterminate { uri, source, probe } =>
                "graph initialization at '"@ + uri@
                + "' has an indeterminate physical outcome; schema artifacts and '__init_claim.json' were preserved; do not retry initialization or delete the root until it is inspected (create error: "@
                + source.text() + "; exact-genesis probe error: "@ + probe.text() + ")"@,
            OmniError::InitializationClaimed { uri } => "graph initialization at '"@ + uri@
                + "' is claimed by '__init_claim.json'; another initializer may still be running or a prior initializer may have stopped; quiesce all initializers before manually removing the claim, then retry init (use --force only when orphan schema files remain)"@,
        }
    }

    pub fn to_string(&self) -> (r: String)
        ensures
            r@ == self.text(),
        decreases self,
    {
        match self {
            OmniError::Compiler(error) => error.message.clone(),
            OmniError::Storage(failure) => failure.message.clone(),
            OmniError::RetryableCommitConflict(message) => joined(
                "retryable storage commit conflict: ",
                message.as_str(),
            ),
            OmniError::DataFusion(message) => joined("query: ", message.as_str()),
            OmniError::Io(error) => joined("io: ", error.message.as_str()),
            OmniError::Manifest(error) => error.to_string(),
            OmniError::MergeConflicts(conflicts) => {
                let mut text = joined("merge conflicts: [", listed_text(conflicts).as_str());
                text.append("]");
                text
            },
            OmniError::KeyConflict { table_key, key: _ } => {
                let mut text = joined("key conflict in table '", table_key.as_str());
                text.append("'");
                text
            },
            OmniError::ResourceLimitExceeded { resource, limit, actual } => {
                let mut text = joined("resource limit exceeded for ", resource.as_str());
                text.append(": actual ");
                text.append(decimal_text(*actual).as_str());
                text.append(", limit ");
                text.append(decimal_text(*limit).as_str());
                text
            },
            OmniError::ExternalBlobPolicy { uri, reason } => {
                let mut text = joined("external blob URI '", uri.as_str());
                text.append("' is not allowed: ");
                text.append(reason.as_str());
                text
            },
            OmniError::ExternalBlobSource { uri, reason } => {
                let mut text = joined("external blob source '", uri.as_str());
                text.append("' is unavailable: ");
                text.append(reason.as_str());
                text
            },
            OmniError::BlobIntegrity { reason } => joined(
                "blob integrity violation: ",
                reason.as_str(),
            ),
            OmniError::BlobRangeNotSatisfiable { start, end, length } => {
                let mut text = joined("blob range [", decimal_text(*start).as_str());
                text.append(", ");
                text.append(decimal_text(*end).as_str());
                text.append(") is not satisfiable for a value of length ");
                text.append(decimal_text(*length).as_str());
                text
            },
            OmniError::RecoveryRequired { operation_id, reason } => {
                let mut text = joined("recovery required for operation ", operation_id.as_str());
                text.append(": ");
                text.append(reason.as_str());
                text
            },
            OmniError::PreconditionFailed { branch, expected, actual } => {
                let mut text = joined("precondition failed on branch '", branch.as_str());
                text.append("': expected head '");
                text.append(expected.as_str());
                text.append("' but current is ");
                text.append(or_absent_text(actual));
                text
            },
            OmniError::Policy(message) => joined("policy: ", message.as_str()),
            OmniError::AlreadyInitialized { uri } => {
                let mut text = joined(
                    "graph already initialized or initialization metadata exists at '",
                    uri.as_str(),
                );
                text.append(
                    "'; --force may replace only orphan schema files after proving that no __manifest exists",
                );
                text
            },
            OmniError::InitializationCommitted { uri, source } => {
                let mut text = joined("graph initialization at '", uri.as_str());
                text.append(
                    "' committed its manifest, but finalization failed; schema artifacts were preserved; inspect or open the graph before taking further action: ",
                );
                let cause = source.to_string();
                text.append(cause.as_str());
                text
            },
            OmniError::InitializationIndeterminate { uri, source, probe } => {
                let mut text = joined("graph initialization at '", uri.as_str());
                text.append(
                    "' has an indeterminate physical outcome; schema artifacts and '__init_claim.json' were preserved; do not retry initialization or delete the root until it is inspected (create error: ",
                );
                let cause = source.to_string();
                text.append(cause.as_str());
                text.append("; exact-genesis probe error: ");
                let probed = probe.to_string();
                text.append(probed.as_str());
                text.append(")");
                text
            },
            OmniError::InitializationClaimed { uri } => {
                let mut text = joined("graph initialization at '", uri.as_str());
                text.append(
                    "' is claimed by '__init_claim.json'; another initializer may still be running or a prior initializer may have stopped; quiesce all initializers before manually removing the claim, then retry init (use --force only when orphan schema files remain)",
                );
                text
            },
        }
    }
}

// ---------------------------------------------------------------------------
// Construction
// ---------------------------------------------------------------------------

/// A storage failure of a given kind and text.
pub open spec fn is_storage(error: OmniError, kind: StorageFailureKind, message: Seq<char>) -> bool {
    error matches OmniError::Storage(failure) && failure.kind == kind && failure.message@ == message
}

/// A manifest error of a given kind and text, without details.
pub open spec fn is_plain_manifest(
    error: OmniError,
    kind: ManifestErrorKind,
    message: Seq<char>,
) -> bool {
    error matches OmniError::Manifest(manifest) && manifest.kind == kind && manifest.message@
        == message && manifest.details is None
}

/// `message` with the operation's context in front. The leading category word
/// of a storage message stays in front of the context.
pub open spec fn contextual_storage_message(context: Seq<char>, message: Seq<char>) -> Seq<char> {
    if "storage: "@.is_prefix_of(message) {
        "storage: "@ + context + ": "@ + message.skip("storage: "@.len() as int)
    } else {
        context + ": "@ + message
    }
}

impl OmniError {
    /// Converts a Lance failure at a graph-storage boundary.
    pub fn storage(error: LanceError) -> (r: Self)
        ensures
            is_storage(r, lance_failure_kind(error), "storage: "@ + error.message@),
    {
        let kind = classify_lance_error(&error);
        OmniError::Storage(StorageFailure::new(kind, joined("storage: ", error.message.as_str())))
    }

    /// Converts a Lance failure while retaining the operation's context. The
    /// resulting message is complete.
    pub fn storage_context(context: &str, error: LanceError) -> (r: Self)
        ensures
            is_storage(
                r,
                lance_failure_kind(error),
                "storage: "@ + context@ + ": "@ + error.message@,
            ),
    {
        let kind = classify_lance_error(&error);
        let mut message = joined("storage: ", context);
        message.append(": ");
        message.append(error.message.as_str());
        OmniError::Storage(StorageFailure::new(kind, message))
    }

    /// Classifies a namespace condition of the store's own without wrapping it
    /// in a Lance error first.
    pub fn storage_namespace(error: NamespaceError) -> (r: Self)
        ensures
            is_storage(r, namespace_condition(error.code), "storage: "@ + error.text()),
    {
        let kind = classify_namespace_code(error.code);
        OmniError::Storage(StorageFailure::new(kind, joined("storage: ", error.to_string().as_str())))
    }

    pub fn storage_failure(&self) -> (r: Option<&StorageFailure>)
        ensures
            r is Some <==> self is Storage,
            r matches Some(failure) ==> *self == OmniError::Storage(*failure),
    {
        match self {
            OmniError::Storage(failure) => Some(failure),
            _ => None,
        }
    }

    /// A columnar-format failure in the manifest or batch machinery is an
    /// engine shape or computation failure, not a storage condition. The text is
    /// Arrow's own.
    pub fn arrow_internal(error: ArrowError) -> (r: Self)
        ensures
            r matches OmniError::Manifest(manifest) && manifest.kind == ManifestErrorKind::Internal
                && manifest.details is None && (arrow_error_text(error) matches Some(text)
                ==> manifest.message@ == text),
    {
        OmniError::manifest_internal(arrow_text(&error))
    }

    /// Keeps typed storage evidence carried through query execution; without
    /// any, the user query category is retained.
    pub fn datafusion(error: QueryError) -> (r: Self)
        ensures
            match query_evidence(error) {
                Some(kind) => is_storage(r, kind, "storage: "@ + error.message@),
                None => r == OmniError::DataFusion(error.message),
            },
    {
        let found = match &error.source {
            Some(below) => find_lance_source_kind(below, 1),
            None => None,
        };
        match found {
            Some(kind) => OmniError::Storage(
                StorageFailure::new(kind, joined("storage: ", error.message.as_str())),
            ),
            None => OmniError::DataFusion(error.message),
        }
    }

    /// Adds operation context without discarding an existing typed category.
    pub fn with_context(self, context: &str) -> (r: Self)
        ensures
            match self {
                OmniError::Storage(failure) => is_storage(
                    r,
                    failure.kind,
                    contextual_storage_message(context@, failure.message@),
                ),
                OmniError::Manifest(error) => r matches OmniError::Manifest(after) && after.kind
                    == error.kind && after.details == error.details && after.message@ == context@
                    + ": "@ + error.message@,
                other => r == other,
            },
    {
        match self {
            OmniError::Storage(failure) => {
                let message = failure.message.as_str();
                let text = if has_prefix(message, "storage: ") {
                    let start: usize = "storage: ".unicode_len();
                    let rest = message.substring_char(start, message.unicode_len());
                    proof {
                        assert(rest@ == message@.skip(start as int));
                    }
                    let mut text = joined("storage: ", context);
                    text.append(": ");
                    text.append(rest);
                    text
                } else {
                    let mut text = joined(context, ": ");
                    text.append(message);
                    text
                };
                OmniError::Storage(StorageFailure { kind: failure.kind, message: text })
            },
            OmniError::Manifest(error) => {
                let mut message = joined(context, ": ");
                message.append(error.message.as_str());
                OmniError::Manifest(
                    ManifestError { kind: error.kind, message, details: error.details },
                )
            },
            other => other,
        }
    }

    pub fn key_conflict(table_key: String, key: String) -> (r: Self)
        ensures
            r == (OmniError::KeyConflict { table_key, key: Some(key) }),
    {
        OmniError::KeyConflict { table_key, key: Some(key) }
    }

    pub fn resource_limit(resource: String, limit: u64, actual: u64) -> (r: Self)
        ensures
            r == (OmniError::ResourceLimitExceeded { resource, limit, actual }),
    {
        OmniError::ResourceLimitExceeded { resource, limit, actual }
    }

    pub fn external_blob_policy(uri: String, reason: String) -> (r: Self)
        ensures
            r == (OmniError::ExternalBlobPolicy { uri, reason }),
    {
        OmniError::ExternalBlobPolicy { uri, reason }
    }

    pub fn external_blob_source(uri: String, reason: String) -> (r: Self)
        ensures
            r == (OmniError::ExternalBlobSource { uri, reason }),
    {
        OmniError::ExternalBlobSource { uri, reason }
    }

    pub fn blob_integrity(reason: String) -> (r: Self)
        ensures
            r == (OmniError::BlobIntegrity { reason }),
    {
        OmniError::BlobIntegrity { reason }
    }

    pub fn is_retryable_commit_conflict(&self) -> (r: bool)
        ensures
            r == (self is RetryableCommitConflict),
    {
        matches!(self, OmniError::RetryableCommitConflict(_))
    }

    pub fn is_read_set_changed(&self) -> (r: bool)
        ensures
            r == (self matches OmniError::Manifest(error) && error.details matches Some(details)
                && details is ReadSetChanged),
    {
        match self {
            OmniError::Manifest(error) => match &error.details {
                Some(details) => matches!(details, ManifestConflictDetails::ReadSetChanged { .. }),
                None => false,
            },
            _ => false,
        }
    }

    pub fn manifest(message: String) -> (r: Self)
        ensures
            is_plain_manifest(r, ManifestErrorKind::BadRequest, message@),
    {
        OmniError::Manifest(ManifestError::new(ManifestErrorKind::BadRequest, message))
    }

    pub fn manifest_not_found(message: String) -> (r: Self)
        ensures
            is_plain_manifest(r, ManifestErrorKind::NotFound, message@),
    {
        OmniError::Manifest(ManifestError::new(ManifestErrorKind::NotFound, message))
    }

    pub fn manifest_conflict(message: String) -> (r: Self)
        ensures
            is_plain_manifest(r, ManifestErrorKind::Conflict, message@),
    {
        OmniError::Manifest(ManifestError::new(ManifestErrorKind::Conflict, message))
    }

    pub fn manifest_internal(message: String) -> (r: Self)
        ensures
            is_plain_manifest(r, ManifestErrorKind::Internal, message@),
    {
        OmniError::Manifest(ManifestError::new(ManifestErrorKind::Internal, message))
    }

    pub fn manifest_expected_version_mismatch(table_key: String, expected: u64, actual: u64) -> (r:
        Self)
        ensures
            r matches OmniError::Manifest(error) && error.kind == ManifestErrorKind::Conflict
                && error.message@ == "stale view of '"@ + table_key@
                + "': expected manifest table version "@ + text::decimal(expected as nat)
                + " but current is "@ + text::decimal(actual as nat) + " — refresh and retry"@
                && error.details == Some(
                ManifestConflictDetails::ExpectedVersionMismatch { table_key, expected, actual },
            ),
    {
        let mut message = joined("stale view of '", table_key.as_str());
        message.append("': expected manifest table version ");
        message.append(decimal_text(expected).as_str());
        message.append(" but current is ");
        message.append(decimal_text(actual).as_str());
        message.append(" — refresh and retry");
        OmniError::Manifest(
            ManifestError::new(ManifestErrorKind::Conflict, message).with_details(
                ManifestConflictDetails::ExpectedVersionMismatch { table_key, expected, actual },
            ),
        )
    }

    pub fn manifest_row_level_cas_contention(message: String) -> (r: Self)
        ensures
            r == OmniError::Manifest(
                ManifestError {
                    kind: ManifestErrorKind::Conflict,
                    message,
                    details: Some(ManifestConflictDetails::RowLevelCasContention),
                },
            ),
    {
        OmniError::Manifest(
            ManifestError::new(ManifestErrorKind::Conflict, message).with_details(
                ManifestConflictDetails::RowLevelCasContention,
            ),
        )
    }

    pub fn manifest_read_set_changed(
        member: String,
        expected: Option<String>,
        actual: Option<String>,
    ) -> (r: Self)
        ensures
            r matches OmniError::Manifest(error) && error.kind == ManifestErrorKind::Conflict
                && error.message@ == "write authority '"@ + member@
                + "' changed during preparation (expected "@ + or_absent(expected) + ", current "@
                + or_absent(actual) + ") — reprepare from the current branch state"@
                && error.details == Some(
                ManifestConflictDetails::ReadSetChanged { member, expected, actual },
            ),
    {
        let mut message = joined("write authority '", member.as_str());
        message.append("' changed during preparation (expected ");
        message.append(or_absent_text(&expected));
        message.append(", current ");
        message.append(or_absent_text(&actual));
        message.append(") — reprepare from the current branch state");
        OmniError::Manifest(
            ManifestError::new(ManifestErrorKind::Conflict, message).with_details(
                ManifestConflictDetails::ReadSetChanged { member, expected, actual },
            ),
        )
    }

    pub fn precondition_failed(branch: String, expected: String, actual: Option<String>) -> (r: Self)
        ensures
            r == (OmniError::PreconditionFailed { branch, expected, actual }),
    {
        OmniError::PreconditionFailed { branch, expected, actual }
    }

    pub fn recovery_required(operation_id: String, reason: String) -> (r: Self)
        ensures
            r == (OmniError::RecoveryRequired { operation_id, reason }),
    {
        OmniError::RecoveryRequired { operation_id, reason }
    }
}

impl From<StorageError> for OmniError {
    fn from(error: StorageError) -> (r: Self) {
        match error {
            StorageError::Internal(message) => OmniError::Manifest(
                ManifestError { kind: ManifestErrorKind::Internal, message, details: None },
            ),
            StorageError::Backend(failure) => OmniError::Storage(failure),
            StorageError::ResourceLimit { resource, limit, actual } =>
                OmniError::ResourceLimitExceeded { resource, limit, actual },
        }
    }
}

impl vstd::std_specs::convert::FromSpecImpl<StorageError> for OmniError {
    open spec fn obeys_from_spec() -> bool {
        true
    }

    open spec fn from_spec(error: StorageError) -> Self {
        match error {
            StorageError::Internal(message) => OmniError::Manifest(
                ManifestError { kind: ManifestErrorKind::Internal, message, details: None },
            ),
            StorageError::Backend(failure) => OmniError::Storage(failure),
            StorageError::ResourceLimit { resource, limit, actual } =>
                OmniError::ResourceLimitExceeded { resource, limit, actual },
        }
    }
}

impl From<IoError> for OmniError {
    fn from(error: IoError) -> (r: Self) {
        OmniError::Io(error)
    }
}

impl vstd::std_specs::convert::FromSpecImpl<IoError> for OmniError {
    open spec fn obeys_from_spec() -> bool {
        true
    }

    open spec fn from_spec(error: IoError) -> Self {
        OmniError::Io(error)
    }
}

impl From<CompilerError> for OmniError {
    fn from(error: CompilerError) -> (r: Self) {
        OmniError::Compiler(error)
    }
}

impl vstd::std_specs::convert::FromSpecImpl<CompilerError> for OmniError {
    open spec fn obeys_from_spec() -> bool {
        true
    }

    open spec fn from_spec(error: CompilerError) -> Self {
        OmniError::Compiler(error)
    }
}

// ---------------------------------------------------------------------------
// Laws
// ---------------------------------------------------------------------------

/// An explicit condition of the outer Lance error wins over anything below it.
pub proof fn explicit_condition_wins(error: LanceError)
    requires
        lance_condition(error.kind) is Some,
    ensures
        Some(lance_failure_kind(error)) == lance_condition(error.kind),
{
}

/// A Lance error that wraps a namespace condition is classified as that
/// condition is when it is reported by itself.
pub proof fn wrapped_namespace_condition_is_kept(error: LanceError, namespace: NamespaceError)
    requires
        error.kind == LanceErrorKind::Namespace,
        error.source == Some(Box::new(ErrorSource::Namespace(namespace))),
    ensures
        lance_failure_kind(error) == namespace_condition(namespace.code),
{
}

/// Every namespace code has a typed meaning.
pub proof fn no_namespace_code_is_unknown(code: NamespaceErrorCode)
    ensures
        namespace_condition(code) != StorageFailureKind::Unknown,
{
}

/// The code numbers are the numbers below twenty-four, each used once.
pub proof fn namespace_code_numbers_are_distinct(a: NamespaceErrorCode, b: NamespaceErrorCode)
    ensures
        a.as_number() < 24,
        a.as_number() == b.as_number() ==> a == b,
{
}

/// A chain is classified by the first typed error that the search for evidence
/// finds, and as `Unknown` where the search finds none.
pub proof fn classification_is_the_evidence_found(source: ErrorSource, budget: nat)
    ensures
        source_evidence(source, budget) == (match typed_evidence(source, budget) {
            Some(kind) => kind,
            None => StorageFailureKind::Unknown,
        }),
    decreases budget,
{
    if budget > 0 {
        match storage::link_below(source) {
            Some(below) => classification_is_the_evidence_found(*below, (budget - 1) as nat),
            None => {},
        }
    }
}

/// `source` below `links` links without evidence.
pub open spec fn wrapped(source: ErrorSource, links: nat) -> ErrorSource
    decreases links,
{
    if links == 0 {
        source
    } else {
        ErrorSource::Untyped { source: Some(Box::new(wrapped(source, (links - 1) as nat))) }
    }
}

/// Links without evidence only use up the budget; once it is used up, nothing
/// further down is seen.
pub proof fn untyped_links_use_up_the_budget(source: ErrorSource, links: nat, budget: nat)
    ensures
        links >= budget ==> source_evidence(wrapped(source, links), budget)
            == StorageFailureKind::Unknown,
        links >= budget ==> typed_evidence(wrapped(source, links), budget) is None,
        links < budget ==> source_evidence(wrapped(source, links), budget) == source_evidence(
            source,
            (budget - links) as nat,
        ),
        links < budget ==> typed_evidence(wrapped(source, links), budget) == typed_evidence(
            source,
            (budget - links) as nat,
        ),
    decreases links,
{
    if links > 0 && budget > 0 {
        untyped_links_use_up_the_budget(source, (links - 1) as nat, (budget - 1) as nat);
    }
}

/// The same conditions and the same links, whatever the texts say.
pub open spec fn same_conditions(a: Option<Box<ErrorSource>>, b: Option<Box<ErrorSource>>) -> bool
    decreases a,
{
    match (a, b) {
        (None, None) => true,
        (Some(x), Some(y)) => match (*x, *y) {
            (ErrorSource::Lance(e), ErrorSource::Lance(f)) => e.kind == f.kind && same_conditions(
                e.source,
                f.source,
            ),
            (ErrorSource::ObjectStore(e), ErrorSource::ObjectStore(f)) => e.kind == f.kind
                && same_conditions(e.source, f.source),
            (ErrorSource::Io(e), ErrorSource::Io(f)) => e.kind == f.kind && same_conditions(
                e.source,
                f.source,
            ),
            (ErrorSource::Namespace(e), ErrorSource::Namespace(f)) => e.code == f.code,
            (ErrorSource::Untyped { source: e }, ErrorSource::Untyped { source: f }) =>
                same_conditions(e, f),
            _ => false,
        },
        _ => false,
    }
}

proof fn links_below_agree(a: ErrorSource, b: ErrorSource)
    requires
        same_conditions(Some(Box::new(a)), Some(Box::new(b))),
    ensures
        same_conditions(storage::link_below(a), storage::link_below(b)),
    decreases a,
{
    reveal_with_fuel(same_conditions, 2);
    match (a, b) {
        (ErrorSource::Lance(e), ErrorSource::Lance(f)) => {
            match (e.source, f.source) {
                (Some(x), Some(y)) => {
                    links_below_agree(*x, *y);
                },
                _ => {},
            }
        },
        _ => {},
    }
}

proof fn adapter_evidence_agrees(a: ErrorSource, b: ErrorSource, budget: nat)
    requires
        same_conditions(Some(Box::new(a)), Some(Box::new(b))),
    ensures
        storage::adapter_evidence(a, budget) == storage::adapter_evidence(b, budget),
    decreases budget,
{
    reveal_with_fuel(same_conditions, 2);
    reveal_with_fuel(storage::adapter_evidence, 2);
    reveal_with_fuel(storage::io_evidence, 2);
    reveal_with_fuel(storage::object_store_evidence, 2);
    if budget > 0 {
        let rest = (budget - 1) as nat;
        links_below_agree(a, b);
        match (storage::link_below(a), storage::link_below(b)) {
            (Some(x), Some(y)) => adapter_evidence_agrees(*x, *y, rest),
            _ => {},
        }
    }
}

/// Classification reads no text: two chains with the same conditions and the
/// same links are classified alike.
pub proof fn classification_reads_no_text(a: ErrorSource, b: ErrorSource, budget: nat)
    requires
        same_conditions(Some(Box::new(a)), Some(Box::new(b))),
    ensures
        source_evidence(a, budget) == source_evidence(b, budget),
        typed_evidence(a, budget) == typed_evidence(b, budget),
        a matches ErrorSource::Lance(e) ==> b matches ErrorSource::Lance(f) ==> lance_evidence(
            e,
            budget,
        ) == lance_evidence(f, budget),
    decreases budget,
{
    reveal_with_fuel(same_conditions, 2);
    reveal_with_fuel(storage::adapter_evidence, 2);
    reveal_with_fuel(lance_evidence, 2);
    reveal_with_fuel(source_evidence, 2);
    if budget > 0 {
        let rest = (budget - 1) as nat;
        adapter_evidence_agrees(a, b, budget);
        match (a, b) {
            (ErrorSource::Lance(e), ErrorSource::Lance(f)) => {
                match (e.source, f.source) {
                    (Some(x), Some(y)) => classification_reads_no_text(*x, *y, rest),
                    _ => {},
                }
            },
            _ => {
                links_below_agree(a, b);
                match (storage::link_below(a), storage::link_below(b)) {
                    (Some(x), Some(y)) => classification_reads_no_text(*x, *y, rest),
                    _ => {},
                }
            },
        }
    }
}

/// Reporting a failure with its context, and adding the context afterwards,
/// give the same text.
pub proof fn context_may_be_added_later(context: Seq<char>, message: Seq<char>)
    ensures
        contextual_storage_message(context, "storage: "@ + message) == "storage: "@ + context
            + ": "@ + message,
{
    let whole = "storage: "@ + message;
    assert(whole.subrange(0, "storage: "@.len() as int) == "storage: "@);
    assert(whole.skip("storage: "@.len() as int) == message);
}

/// What a Lance error proves by itself, each for just these variants. Four
/// variants leave it to the error that they hold.
pub proof fn lance_kinds_prove_what_they_say(kind: LanceErrorKind)
    ensures
        lance_condition(kind) == Some(StorageFailureKind::Transient)
            <==> kind == LanceErrorKind::Timeout,
        lance_condition(kind) == Some(StorageFailureKind::Configuration)
            <==> kind == LanceErrorKind::DiskCapExceeded
            || kind == LanceErrorKind::InvalidInput
            || kind == LanceErrorKind::InvalidTableLocation
            || kind == LanceErrorKind::InvalidRef
            || kind == LanceErrorKind::NotSupported
            || kind == LanceErrorKind::FieldNotFound
            || kind == LanceErrorKind::Unprocessable,
        lance_condition(kind) == Some(StorageFailureKind::NotFound)
            <==> kind == LanceErrorKind::DatasetNotFound
            || kind == LanceErrorKind::NotFound
            || kind == LanceErrorKind::RefNotFound
            || kind == LanceErrorKind::VersionNotFound
            || kind == LanceErrorKind::IndexNotFound,
        lance_condition(kind) == Some(StorageFailureKind::Precondition)
            <==> kind == LanceErrorKind::DatasetAlreadyExists
            || kind == LanceErrorKind::CommitConflict
            || kind == LanceErrorKind::IncompatibleTransaction
            || kind == LanceErrorKind::RetryableCommitConflict
            || kind == LanceErrorKind::TooMuchWriteContention
            || kind == LanceErrorKind::RefConflict
            || kind == LanceErrorKind::VersionConflict
            || kind == LanceErrorKind::Fenced,
        lance_condition(kind) == Some(StorageFailureKind::Permanent)
            <==> kind == LanceErrorKind::CorruptFile
            || kind == LanceErrorKind::SchemaMismatch
            || kind == LanceErrorKind::Internal
            || kind == LanceErrorKind::Arrow
            || kind == LanceErrorKind::Schema,
        lance_condition(kind) == Some(StorageFailureKind::Unknown)
            <==> kind == LanceErrorKind::Execution
            || kind == LanceErrorKind::Index
            || kind == LanceErrorKind::Cleanup
            || kind == LanceErrorKind::Cloned
            || kind == LanceErrorKind::PrerequisiteFailed
            || kind == LanceErrorKind::Stop,
        lance_condition(kind) == None::<StorageFailureKind>
            <==> kind == LanceErrorKind::IO
            || kind == LanceErrorKind::External
            || kind == LanceErrorKind::Wrapped
            || kind == LanceErrorKind::Namespace,
{
}

/// What a namespace code proves, each for just these codes.
pub proof fn namespace_codes_prove_what_they_say(code: NamespaceErrorCode)
    ensures
        namespace_condition(code) == StorageFailureKind::Transient
            <==> code == NamespaceErrorCode::ServiceUnavailable
            || code == NamespaceErrorCode::Throttling,
        namespace_condition(code) == StorageFailureKind::NotFound
            <==> code == NamespaceErrorCode::NamespaceNotFound
            || code == NamespaceErrorCode::TableNotFound
            || code == NamespaceErrorCode::TableIndexNotFound
            || code == NamespaceErrorCode::TableTagNotFound
            || code == NamespaceErrorCode::TransactionNotFound
            || code == NamespaceErrorCode::TableVersionNotFound
            || code == NamespaceErrorCode::TableColumnNotFound
            || code == NamespaceErrorCode::TableBranchNotFound,
        namespace_condition(code) == StorageFailureKind::Configuration
            <==> code == NamespaceErrorCode::Unsupported
            || code == NamespaceErrorCode::InvalidInput
            || code == NamespaceErrorCode::PermissionDenied
            || code == NamespaceErrorCode::Unauthenticated
            || code == NamespaceErrorCode::TableSchemaValidationError,
        namespace_condition(code) == StorageFailureKind::Precondition
            <==> code == NamespaceErrorCode::NamespaceAlreadyExists
            || code == NamespaceErrorCode::TableAlreadyExists
            || code == NamespaceErrorCode::TableIndexAlreadyExists
            || code == NamespaceErrorCode::TableTagAlreadyExists
            || code == NamespaceErrorCode::TableBranchAlreadyExists
            || code == NamespaceErrorCode::ConcurrentModification
            || code == NamespaceErrorCode::NamespaceNotEmpty
            || code == NamespaceErrorCode::InvalidTableState,
        namespace_condition(code) == StorageFailureKind::Permanent
            <==> code == NamespaceErrorCode::Internal,
{
}

/// The numbers of the codes on the wire.
pub proof fn namespace_codes_have_these_numbers()
    ensures
        NamespaceErrorCode::Unsupported.as_number() == 0,
        NamespaceErrorCode::NamespaceNotFound.as_number() == 1,
        NamespaceErrorCode::NamespaceAlreadyExists.as_number() == 2,
        NamespaceErrorCode::NamespaceNotEmpty.as_number() == 3,
        NamespaceErrorCode::TableNotFound.as_number() == 4,
        NamespaceErrorCode::TableAlreadyExists.as_number() == 5,
        NamespaceErrorCode::TableIndexNotFound.as_number() == 6,
        NamespaceErrorCode::TableIndexAlreadyExists.as_number() == 7,
        NamespaceErrorCode::TableTagNotFound.as_number() == 8,
        NamespaceErrorCode::TableTagAlreadyExists.as_number() == 9,
        NamespaceErrorCode::TransactionNotFound.as_number() == 10,
        NamespaceErrorCode::TableVersionNotFound.as_number() == 11,
        NamespaceErrorCode::TableColumnNotFound.as_number() == 12,
        NamespaceErrorCode::InvalidInput.as_number() == 13,
        NamespaceErrorCode::ConcurrentModification.as_number() == 14,
        NamespaceErrorCode::PermissionDenied.as_number() == 15,
        NamespaceErrorCode::Unauthenticated.as_number() == 16,
        NamespaceErrorCode::ServiceUnavailable.as_number() == 17,
        NamespaceErrorCode::Internal.as_number() == 18,
        NamespaceErrorCode::InvalidTableState.as_number() == 19,
        NamespaceErrorCode::TableSchemaValidationError.as_number() == 20,
        NamespaceErrorCode::Throttling.as_number() == 21,
        NamespaceErrorCode::TableBranchNotFound.as_number() == 22,
        NamespaceErrorCode::TableBranchAlreadyExists.as_number() == 23,
{
}

/// A Lance error with a meaning of its own decides; one of the four that have
/// none passes the question on to the error that it holds, except that a
/// namespace error held by a namespace variant decides by its code. Without an
/// error below, or without links that may be inspected, nothing is known.
pub proof fn a_lance_error_decides_or_passes_on(error: LanceError, budget: nat)
    ensures
        lance_evidence(error, 0) == StorageFailureKind::Unknown,
        lance_condition(error.kind) matches Some(kind) ==> lance_evidence(error, budget + 1) == kind,
        lance_condition(error.kind) is None && error.source is None ==> lance_evidence(
            error,
            budget + 1,
        ) == StorageFailureKind::Unknown,
        lance_condition(error.kind) is None ==> (error.source matches Some(source) ==> (if (
        error.kind == LanceErrorKind::Namespace && *source is Namespace) {
            *source matches ErrorSource::Namespace(namespace) && lance_evidence(error, budget + 1)
                == namespace_condition(namespace.code)
        } else {
            lance_evidence(error, budget + 1) == source_evidence(*source, budget)
        })),
        lance_failure_kind(error) == lance_evidence(error, 8),
{
    reveal_with_fuel(lance_evidence, 2);
}

/// A chain is classified by its first Lance, object-store or I/O error; any other
/// link is passed over.
pub proof fn the_first_typed_error_of_a_chain_decides(source: ErrorSource, budget: nat)
    ensures
        source_evidence(source, 0) == StorageFailureKind::Unknown,
        typed_evidence(source, 0) is None,
        source matches ErrorSource::Lance(error) ==> source_evidence(source, budget + 1)
            == lance_evidence(error, budget + 1),
        source matches ErrorSource::ObjectStore(error) ==> source_evidence(source, budget + 1)
            == storage::object_store_evidence(error, budget + 1),
        source matches ErrorSource::Io(error) ==> source_evidence(source, budget + 1)
            == storage::io_evidence(error, budget + 1),
        source is Lance || source is ObjectStore || source is Io ==> typed_evidence(
            source,
            budget + 1,
        ) == Some(source_evidence(source, budget + 1)),
        source is Namespace || source is Untyped ==> source_evidence(source, budget + 1) == (
        match storage::link_below(source) {
            Some(below) => source_evidence(*below, budget),
            None => StorageFailureKind::Unknown,
        }) && typed_evidence(source, budget + 1) == (match storage::link_below(source) {
            Some(below) => typed_evidence(*below, budget),
            None => None::<StorageFailureKind>,
        }),
{
    reveal_with_fuel(source_evidence, 2);
    reveal_with_fuel(typed_evidence, 2);
}

/// A query failure is a storage failure exactly where typed evidence lies below
/// it, within seven links.
pub proof fn query_failures_keep_evidence_from_below(error: QueryError)
    ensures
        error.source is None ==> query_evidence(error) is None,
        error.source matches Some(below) ==> query_evidence(error) == typed_evidence(*below, 7),
{
}

/// The operator-facing text of every error: its own words, with what it carries
/// in their places, and all of it.
pub proof fn every_error_says_what_it_carries(error: OmniError)
    ensures
        error.text() == (match error {
            OmniError::Compiler(cause) => cause.message@,
            OmniError::Storage(failure) => failure.message@,
            OmniError::RetryableCommitConflict(message) => "retryable storage commit conflict: "@
                + message@,
            OmniError::DataFusion(message) => "query: "@ + message@,
            OmniError::Io(cause) => "io: "@ + cause.message@,
            OmniError::Manifest(cause) => cause.message@,
            OmniError::MergeConflicts(conflicts) => "merge conflicts: ["@ + listed(conflicts@) + "]"@,
            OmniError::KeyConflict { table_key, key: _ } => "key conflict in table '"@ + table_key@
                + "'"@,
            OmniError::ResourceLimitExceeded { resource, limit, actual } =>
                "resource limit exceeded for "@ + resource@ + ": actual "@ + text::decimal(actual as nat)
                + ", limit "@ + text::decimal(limit as nat),
            OmniError::ExternalBlobPolicy { uri, reason } => "external blob URI '"@ + uri@
                + "' is not allowed: "@ + reason@,
            OmniError::ExternalBlobSource { uri, reason } => "external blob source '"@ + uri@
                + "' is unavailable: "@ + reason@,
            OmniError::BlobIntegrity { reason } => "blob integrity violation: "@ + reason@,
            OmniError::BlobRangeNotSatisfiable { start, end, length } => "blob range ["@ + text::decimal(
                start as nat,
            ) + ", "@ + text::decimal(end as nat) + ") is not satisfiable for a value of length "@
                + text::decimal(length as nat),
            OmniError::RecoveryRequired { operation_id, reason } =>
                "recovery required for operation "@ + operation_id@ + ": "@ + reason@,
            OmniError::PreconditionFailed { branch, expected, actual } =>
                "precondition failed on branch '"@ + branch@ + "': expected head '"@ + expected@
                + "' but current is "@ + or_absent(actual),
            OmniError::Policy(message) => "policy: "@ + message@,
            OmniError::AlreadyInitialized { uri } =>
                "graph already initialized or initialization metadata exists at '"@ + uri@
                + "'; --force may replace only orphan schema files after proving that no __manifest exists"@,
            OmniError::InitializationCommitted { uri, source } => "graph initialization at '"@ + uri@
                + "' committed its manifest, but finalization failed; schema artifacts were preserved; inspect or open the graph before taking further action: "@
                + source.text(),
            OmniError::InitializationIndeterminate { uri, source, probe } =>
                "graph initialization at '"@ + uri@
                + "' has an indeterminate physical outcome; schema artifacts and '__init_claim.json' were preserved; do not retry initialization or delete the root until it is inspected (create error: "@
                + source.text() + "; exact-genesis probe error: "@ + probe.text() + ")"@,
            OmniError::InitializationClaimed { uri } => "graph initialization at '"@ + uri@
                + "' is claimed by '__init_claim.json'; another initializer may still be running or a prior initializer may have stopped; quiesce all initializers before manually removing the claim, then retry init (use --force only when orphan schema files remain)"@,
        }),
{
    reveal_with_fuel(OmniError::text, 2);
}

/// Conflicts are listed one after the other, separated by commas, each with its
/// table, its row where there is one, its kind and its message.
pub proof fn conflicts_are_listed_in_order(
    conflicts: Seq<MergeConflict>,
    conflict: MergeConflict,
)
    ensures
        listed(Seq::<MergeConflict>::empty()) == Seq::<char>::empty(),
        listed(seq![conflict]) == conflict.debug_text(),
        conflicts.len() > 0 ==> listed(conflicts.push(conflict)) == listed(conflicts) + ", "@
            + conflict.debug_text(),
        conflict.debug_text() == "MergeConflict { table_key: "@ + quoted_text(conflict.table_key@)
            + ", row_id: "@ + (match conflict.row_id {
            Some(id) => "Some("@ + quoted_text(id@) + ")"@,
            None => "None"@,
        }) + ", kind: "@ + conflict.kind.debug_text() + ", message: "@ + quoted_text(
            conflict.message@,
        ) + " }"@,
        MergeConflictKind::DivergentInsert.debug_text() == "DivergentInsert"@,
        MergeConflictKind::DivergentUpdate.debug_text() == "DivergentUpdate"@,
        MergeConflictKind::DeleteVsUpdate.debug_text() == "DeleteVsUpdate"@,
        MergeConflictKind::OrphanEdge.debug_text() == "OrphanEdge"@,
        MergeConflictKind::UniqueViolation.debug_text() == "UniqueViolation"@,
        MergeConflictKind::CardinalityViolation.debug_text() == "CardinalityViolation"@,
        MergeConflictKind::ValueConstraintViolation.debug_text() == "ValueConstraintViolation"@,
{
    assert(conflicts.push(conflict).drop_last() =~= conflicts);
}

/// A value that is there is shown as it is, an absent one as such.
pub proof fn absent_values_are_shown_as_absent(value: Option<String>)
    ensures
        value is None ==> or_absent(value) == "<absent>"@,
        value matches Some(text) ==> or_absent(value) == text@,
{
}

/// Context goes in front of a message, behind the category word of a storage
/// message where it has one; nothing of the message is lost.
pub proof fn context_goes_in_front(context: Seq<char>, message: Seq<char>)
    ensures
        "storage: "@.is_prefix_of(message) ==> contextual_storage_message(context, message)
            == "storage: "@ + context + ": "@ + message.skip(9),
        !"storage: "@.is_prefix_of(message) ==> contextual_storage_message(context, message)
            == context + ": "@ + message,
{
    reveal_strlit("storage: ");
    assert("storage: "@.len() == 9);
}

/// An error is a storage failure, or a plain manifest error, of a kind and text
/// exactly where it is that variant with that kind and that text.
pub proof fn errors_are_known_by_variant_kind_and_text(
    error: OmniError,
    kind: StorageFailureKind,
    manifest_kind: ManifestErrorKind,
    message: Seq<char>,
)
    ensures
        is_storage(error, kind, message) <==> (error matches OmniError::Storage(failure)
            && failure.kind == kind && failure.message@ == message),
        is_plain_manifest(error, manifest_kind, message) <==> (error matches OmniError::Manifest(
            manifest,
        ) && manifest.kind == manifest_kind && manifest.message@ == message
            && manifest.details is None),
{
}

/// A failure of the storage adapter keeps what it is: an internal one its
/// message, a classified one its kind and text, a limit its numbers.
pub proof fn adapter_failures_stay_what_they_are(error: StorageError)
    ensures
        match error {
            StorageError::Internal(message) => <OmniError as vstd::std_specs::convert::FromSpec<
                StorageError,
            >>::from_spec(error) == OmniError::Manifest(
                ManifestError { kind: ManifestErrorKind::Internal, message, details: None },
            ),
            StorageError::Backend(failure) => <OmniError as vstd::std_specs::convert::FromSpec<
                StorageError,
            >>::from_spec(error) == OmniError::Storage(failure),
            StorageError::ResourceLimit { resource, limit, actual } =>
                <OmniError as vstd::std_specs::convert::FromSpec<StorageError>>::from_spec(error)
                == (OmniError::ResourceLimitExceeded { resource, limit, actual }),
        },
{
}

/// The text of a namespace error is the words of its code, then its message.
pub proof fn namespace_errors_say_code_and_message(error: NamespaceError)
    ensures
        error.text() == namespace_label(error.code.as_number()) + error.message@,
{
}

} // verus!
