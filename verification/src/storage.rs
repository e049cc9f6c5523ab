//! Typed storage failures.
//!
//! A failure is classified from typed evidence alone: the kind of an error, or
//! the first typed condition found by following at most
//! [`MAX_STORAGE_SOURCE_DEPTH`] source links. Diagnostic text is carried along
//! and never read.

use vstd::prelude::*;

use crate::error::{self, LanceError, NamespaceError};

verus! {

/// How many links of a source chain are inspected before the evidence counts
/// as insufficient.
pub const MAX_STORAGE_SOURCE_DEPTH: usize = 8;

/// What a storage failure positively proves about its cause.
#[derive(Debug, Clone, Copy, PartialEq, Eq, Structural)]
pub enum StorageFailureKind {
    /// A timeout, throttling response, cancellation or transport interruption.
    Transient,
    /// The request cannot be served as configured.
    Configuration,
    /// The requested entity is absent.
    NotFound,
    /// State must be re-evaluated: a conflict, an existing entity, a fence.
    Precondition,
    /// Corruption, an invariant failure, a panic or a substrate-internal error.
    Permanent,
    /// The typed evidence is insufficient.
    Unknown,
}

/// A classified storage failure with its complete operator-facing text.
#[derive(Debug, Clone)]
pub struct StorageFailure {
    pub kind: StorageFailureKind,
    pub message: String,
}

impl StorageFailure {
    pub fn new(kind: StorageFailureKind, message: String) -> (r: Self)
        ensures
            r == (StorageFailure { kind, message }),
    {
        StorageFailure { kind, message }
    }

    /// Whether the observed condition was transient. This says nothing about
    /// whether the operation may be repeated.
    pub fn is_transient(&self) -> (r: bool)
        ensures
            r == (self.kind == StorageFailureKind::Transient),
    {
        self.kind == StorageFailureKind::Transient
    }
}

/// A failure reported by the storage adapter.
#[derive(Debug)]
pub enum StorageError {
    Internal(String),
    Backend(StorageFailure),
    ResourceLimit { resource: String, limit: u64, actual: u64 },
}

/// The I/O conditions that carry typed evidence, and everything else as
/// `Other`.
#[derive(Debug, Clone, Copy, PartialEq, Eq, Structural)]
pub enum IoErrorKind {
    NotFound,
    AlreadyExists,
    PermissionDenied,
    InvalidInput,
    Unsupported,
    TimedOut,
    Interrupted,
    ConnectionAborted,
    ConnectionRefused,
    ConnectionReset,
    BrokenPipe,
    NotConnected,
    HostUnreachable,
    NetworkUnreachable,
    WouldBlock,
    InvalidData,
    Other,
}

/// An I/O error: its kind, its text and the error it wraps, if any.
#[derive(Debug)]
pub struct IoError {
    pub kind: IoErrorKind,
    pub message: String,
    pub source: Option<Box<ErrorSource>>,
}

/// The conditions an object store reports. `Generic` is the opaque wrapper;
/// `Unrecognized` stands for a condition that has no typed meaning here.
#[derive(Debug, Clone, Copy, PartialEq, Eq, Structural)]
pub enum ObjectStoreErrorKind {
    NotFound,
    NotModified,
    Precondition,
    AlreadyExists,
    InvalidPath,
    NotSupported,
    NotImplemented,
    PermissionDenied,
    Unauthenticated,
    UnknownConfigurationKey,
    JoinCancelled,
    JoinPanicked,
    Generic,
    Unrecognized,
}

/// An object-store error and the error it wraps, if any.
#[derive(Debug)]
pub struct ObjectStoreError {
    pub kind: ObjectStoreErrorKind,
    pub source: Option<Box<ErrorSource>>,
}

/// One link of an error's source chain, told apart by its type.
#[derive(Debug)]
pub enum ErrorSource {
    Lance(LanceError),
    ObjectStore(ObjectStoreError),
    Io(IoError),
    Namespace(NamespaceError),
    /// An error of a type that carries no storage evidence.
    Untyped { source: Option<Box<ErrorSource>> },
}

/// What an I/O condition proves by itself; `None` leaves the decision to the
/// wrapped error.
pub open spec fn io_condition(kind: IoErrorKind) -> Option<StorageFailureKind> {
    match kind {
        IoErrorKind::NotFound => Some(StorageFailureKind::NotFound),
        IoErrorKind::AlreadyExists => Some(StorageFailureKind::Precondition),
        IoErrorKind::PermissionDenied | IoErrorKind::InvalidInput | IoErrorKind::Unsupported => Some(
            StorageFailureKind::Configuration,
        ),
        IoErrorKind::InvalidData => Some(StorageFailureKind::Permanent),
        IoErrorKind::Other => None,
        _ => Some(StorageFailureKind::Transient),
    }
}

/// What an object-store condition proves by itself; `None` is the opaque
/// wrapper.
pub open spec fn object_store_condition(kind: ObjectStoreErrorKind) -> Option<StorageFailureKind> {
    match kind {
        ObjectStoreErrorKind::NotFound => Some(StorageFailureKind::NotFound),
        ObjectStoreErrorKind::NotModified
        | ObjectStoreErrorKind::Precondition
        | ObjectStoreErrorKind::AlreadyExists => Some(StorageFailureKind::Precondition),
        ObjectStoreErrorKind::InvalidPath
        | ObjectStoreErrorKind::NotSupported
        | ObjectStoreErrorKind::NotImplemented
        | ObjectStoreErrorKind::PermissionDenied
        | ObjectStoreErrorKind::Unauthenticated
        | ObjectStoreErrorKind::UnknownConfigurationKey => Some(StorageFailureKind::Configuration),
        ObjectStoreErrorKind::JoinCancelled => Some(StorageFailureKind::Transient),
        ObjectStoreErrorKind::JoinPanicked => Some(StorageFailureKind::Permanent),
        ObjectStoreErrorKind::Generic => None,
        ObjectStoreErrorKind::Unrecognized => Some(StorageFailureKind::Unknown),
    }
}

/// The error below a link that carries no evidence for the adapter. A
/// pass-through Lance error stands for the error it holds, so the link below
/// it is the one below that error.
pub open spec fn link_below(source: ErrorSource) -> Option<Box<ErrorSource>>
    decreases source,
{
    match source {
        ErrorSource::Lance(error) => if error.kind == error::LanceErrorKind::External {
            match error.source {
                Some(inner) => link_below(*inner),
                None => None,
            }
        } else {
            error.source
        },
        ErrorSource::ObjectStore(error) => error.source,
        ErrorSource::Io(error) => error.source,
        ErrorSource::Namespace(_) => None,
        ErrorSource::Untyped { source } => source,
    }
}

/// The evidence of an I/O error when `budget` links may still be inspected.
pub open spec fn io_evidence(error: IoError, budget: nat) -> StorageFailureKind
    decreases budget, 0nat,
{
    if budget == 0 {
        StorageFailureKind::Unknown
    } else {
        match io_condition(error.kind) {
            Some(kind) => kind,
            None => match error.source {
                Some(source) => adapter_evidence(*source, (budget - 1) as nat),
                None => StorageFailureKind::Unknown,
            },
        }
    }
}

/// The evidence of an object-store error when `budget` links may still be
/// inspected.
pub open spec fn object_store_evidence(error: ObjectStoreError, budget: nat) -> StorageFailureKind
    decreases budget, 0nat,
{
    if budget == 0 {
        StorageFailureKind::Unknown
    } else {
        match object_store_condition(error.kind) {
            Some(kind) => kind,
            None => match error.source {
                Some(source) => adapter_evidence(*source, (budget - 1) as nat),
                None => StorageFailureKind::Unknown,
            },
        }
    }
}

/// The first typed evidence on a source chain as the storage adapter reads it:
/// object-store and I/O errors speak, every other link is passed over.
pub open spec fn adapter_evidence(source: ErrorSource, budget: nat) -> StorageFailureKind
    decreases budget, 1nat,
{
    if budget == 0 {
        StorageFailureKind::Unknown
    } else {
        match source {
            ErrorSource::ObjectStore(error) => object_store_evidence(error, budget),
            ErrorSource::Io(error) => io_evidence(error, budget),
            _ => match link_below(source) {
                Some(below) => adapter_evidence(*below, (budget - 1) as nat),
                None => StorageFailureKind::Unknown,
            },
        }
    }
}

/// The links that may still be inspected at `depth`.
pub open spec fn budget_at(depth: usize) -> nat {
    if depth >= MAX_STORAGE_SOURCE_DEPTH {
        0
    } else {
        (MAX_STORAGE_SOURCE_DEPTH - depth) as nat
    }
}

fn condition_of_io(kind: IoErrorKind) -> (r: Option<StorageFailureKind>)
    ensures
        r == io_condition(kind),
{
    match kind {
        IoErrorKind::NotFound => Some(StorageFailureKind::NotFound),
        IoErrorKind::AlreadyExists => Some(StorageFailureKind::Precondition),
        IoErrorKind::PermissionDenied | IoErrorKind::InvalidInput | IoErrorKind::Unsupported => Some(
            StorageFailureKind::Configuration,
        ),
        IoErrorKind::TimedOut
        | IoErrorKind::Interrupted
        | IoErrorKind::ConnectionAborted
        | IoErrorKind::ConnectionRefused
        | IoErrorKind::ConnectionReset
        | IoErrorKind::BrokenPipe
        | IoErrorKind::NotConnected
        | IoErrorKind::HostUnreachable
        | IoErrorKind::NetworkUnreachable
        | IoErrorKind::WouldBlock => Some(StorageFailureKind::Transient),
        IoErrorKind::InvalidData => Some(StorageFailureKind::Permanent),
        IoErrorKind::Other => None,
    }
}

fn condition_of_object_store(kind: ObjectStoreErrorKind) -> (r: Option<StorageFailureKind>)
    ensures
        r == object_store_condition(kind),
{
    match kind {
        ObjectStoreErrorKind::NotFound => Some(StorageFailureKind::NotFound),
        ObjectStoreErrorKind::NotModified
        | ObjectStoreErrorKind::Precondition
        | ObjectStoreErrorKind::AlreadyExists => Some(StorageFailureKind::Precondition),
        ObjectStoreErrorKind::InvalidPath
        | ObjectStoreErrorKind::NotSupported
        | ObjectStoreErrorKind::NotImplemented
        | ObjectStoreErrorKind::PermissionDenied
        | ObjectStoreErrorKind::Unauthenticated
        | ObjectStoreErrorKind::UnknownConfigurationKey => Some(StorageFailureKind::Configuration),
        ObjectStoreErrorKind::JoinCancelled => Some(StorageFailureKind::Transient),
        ObjectStoreErrorKind::JoinPanicked => Some(StorageFailureKind::Permanent),
        ObjectStoreErrorKind::Generic => None,
        ObjectStoreErrorKind::Unrecognized => Some(StorageFailureKind::Unknown),
    }
}

/// The link below one without evidence for the adapter.
pub fn source_below(source: &ErrorSource) -> (r: Option<&Box<ErrorSource>>)
    ensures
        match r {
            Some(below) => link_below(*source) == Some(*below),
            None => link_below(*source) is None,
        },
    decreases source,
{
    match source {
        ErrorSource::Lance(error) => if error.kind == error::LanceErrorKind::External {
            match &error.source {
                Some(inner) => source_below(inner),
                None => None,
            }
        } else {
            error.source.as_ref()
        },
        ErrorSource::ObjectStore(error) => error.source.as_ref(),
        ErrorSource::Io(error) => error.source.as_ref(),
        ErrorSource::Namespace(_) => None,
        ErrorSource::Untyped { source } => source.as_ref(),
    }
}

/// Classifies an I/O error met at `depth` of a source chain.
pub fn classify_io_error_at_depth(error: &IoError, depth: usize) -> (r: StorageFailureKind)
    ensures
        r == io_evidence(*error, budget_at(depth)),
    decreases budget_at(depth), 0nat,
{
    if depth >= MAX_STORAGE_SOURCE_DEPTH {
        return StorageFailureKind::Unknown;
    }
    match condition_of_io(error.kind) {
        Some(kind) => kind,
        None => match &error.source {
            Some(source) => classify_adapter_source_at_depth(source, depth + 1),
            None => StorageFailureKind::Unknown,
        },
    }
}

/// Classifies an object-store error met at `depth` of a source chain.
pub fn classify_object_store_error_at_depth(error: &ObjectStoreError, depth: usize) -> (r:
    StorageFailureKind)
    ensures
        r == object_store_evidence(*error, budget_at(depth)),
    decreases budget_at(depth), 0nat,
{
    if depth >= MAX_STORAGE_SOURCE_DEPTH {
        return StorageFailureKind::Unknown;
    }
    match condition_of_object_store(error.kind) {
        Some(kind) => kind,
        None => match &error.source {
            Some(source) => classify_adapter_source_at_depth(source, depth + 1),
            None => StorageFailureKind::Unknown,
        },
    }
}

/// Follows a source chain from `depth` on to the first object-store or I/O
/// error.
pub fn classify_adapter_source_at_depth(source: &ErrorSource, depth: usize) -> (r:
    StorageFailureKind)
    ensures
        r == adapter_evidence(*source, budget_at(depth)),
    decreases budget_at(depth), 1nat,
{
    if depth >= MAX_STORAGE_SOURCE_DEPTH {
        return StorageFailureKind::Unknown;
    }
    match source {
        ErrorSource::ObjectStore(error) => classify_object_store_error_at_depth(error, depth),
        ErrorSource::Io(error) => classify_io_error_at_depth(error, depth),
        _ => match source_below(source) {
            Some(below) => classify_adapter_source_at_depth(below, depth + 1),
            None => StorageFailureKind::Unknown,
        },
    }
}

/// What an I/O error proves by itself: absence, an existing entity, a refusal to
/// serve, an interruption, or corruption, each for just these kinds. Only the
/// kind without a meaning of its own leaves it to the error that it wraps.
pub proof fn io_kinds_prove_what_they_say(kind: IoErrorKind)
    ensures
        io_condition(kind) == Some(StorageFailureKind::NotFound)
            <==> kind == IoErrorKind::NotFound,
        io_condition(kind) == Some(StorageFailureKind::Precondition)
            <==> kind == IoErrorKind::AlreadyExists,
        io_condition(kind) == Some(StorageFailureKind::Configuration)
            <==> kind == IoErrorKind::PermissionDenied
            || kind == IoErrorKind::InvalidInput
            || kind == IoErrorKind::Unsupported,
        io_condition(kind) == Some(StorageFailureKind::Transient)
            <==> kind == IoErrorKind::TimedOut
            || kind == IoErrorKind::Interrupted
            || kind == IoErrorKind::ConnectionAborted
            || kind == IoErrorKind::ConnectionRefused
            || kind == IoErrorKind::ConnectionReset
            || kind == IoErrorKind::BrokenPipe
            || kind == IoErrorKind::NotConnected
            || kind == IoErrorKind::HostUnreachable
            || kind == IoErrorKind::NetworkUnreachable
            || kind == IoErrorKind::WouldBlock,
        io_condition(kind) == Some(StorageFailureKind::Permanent)
            <==> kind == IoErrorKind::InvalidData,
        io_condition(kind) == None::<StorageFailureKind>
            <==> kind == IoErrorKind::Other,
{
}

/// What an object-store error proves by itself, each for just these kinds. Only
/// the opaque wrapper leaves it to the error that it wraps.
pub proof fn object_store_kinds_prove_what_they_say(kind: ObjectStoreErrorKind)
    ensures
        object_store_condition(kind) == Some(StorageFailureKind::NotFound)
            <==> kind == ObjectStoreErrorKind::NotFound,
        object_store_condition(kind) == Some(StorageFailureKind::Precondition)
            <==> kind == ObjectStoreErrorKind::NotModified
            || kind == ObjectStoreErrorKind::Precondition
            || kind == ObjectStoreErrorKind::AlreadyExists,
        object_store_condition(kind) == Some(StorageFailureKind::Configuration)
            <==> kind == ObjectStoreErrorKind::InvalidPath
            || kind == ObjectStoreErrorKind::NotSupported
            || kind == ObjectStoreErrorKind::NotImplemented
            || kind == ObjectStoreErrorKind::PermissionDenied
            || kind == ObjectStoreErrorKind::Unauthenticated
            || kind == ObjectStoreErrorKind::UnknownConfigurationKey,
        object_store_condition(kind) == Some(StorageFailureKind::Transient)
            <==> kind == ObjectStoreErrorKind::JoinCancelled,
        object_store_condition(kind) == Some(StorageFailureKind::Permanent)
            <==> kind == ObjectStoreErrorKind::JoinPanicked,
        object_store_condition(kind) == Some(StorageFailureKind::Unknown)
            <==> kind == ObjectStoreErrorKind::Unrecognized,
        object_store_condition(kind) == None::<StorageFailureKind>
            <==> kind == ObjectStoreErrorKind::Generic,
{
}

/// Eight links of a chain are inspected, fewer the deeper the search starts.
pub proof fn eight_links_are_inspected(depth: usize)
    ensures
        depth < 8 ==> budget_at(depth) == 8 - depth,
        depth >= 8 ==> budget_at(depth) == 0,
        MAX_STORAGE_SOURCE_DEPTH == 8,
{
}

/// The link below an error is the error that it wraps. A pass-through Lance error
/// stands for the one that it holds, so what is below it is what is below that
/// one; a namespace error wraps nothing.
pub proof fn the_link_below_is_the_wrapped_error(source: ErrorSource)
    ensures
        source matches ErrorSource::Lance(error) ==> (if error.kind
            != error::LanceErrorKind::External {
            link_below(source) == error.source
        } else {
            match error.source {
                None => link_below(source) is None,
                Some(inner) => link_below(source) == link_below(*inner),
            }
        }),
        source matches ErrorSource::ObjectStore(error) ==> link_below(source) == error.source,
        source matches ErrorSource::Io(error) ==> link_below(source) == error.source,
        source is Namespace ==> link_below(source) is None,
        source matches ErrorSource::Untyped { source: below } ==> link_below(source) == below,
{
    reveal_with_fuel(link_below, 2);
}

/// The adapter takes the first object-store or I/O error that it meets: one with
/// a meaning of its own decides, one without passes the question on to what it
/// wraps, every other link is passed over, and where the links run out, or the
/// ones that may be inspected do, nothing is known.
pub proof fn the_adapter_takes_the_first_evidence(
    io: IoError,
    object: ObjectStoreError,
    source: ErrorSource,
    budget: nat,
)
    ensures
        io_evidence(io, 0) == StorageFailureKind::Unknown,
        object_store_evidence(object, 0) == StorageFailureKind::Unknown,
        adapter_evidence(source, 0) == StorageFailureKind::Unknown,
        io_condition(io.kind) matches Some(kind) ==> io_evidence(io, budget + 1) == kind,
        io_condition(io.kind) is None ==> io_evidence(io, budget + 1) == (match io.source {
            Some(below) => adapter_evidence(*below, budget),
            None => StorageFailureKind::Unknown,
        }),
        object_store_condition(object.kind) matches Some(kind) ==> object_store_evidence(
            object,
            budget + 1,
        ) == kind,
        object_store_condition(object.kind) is None ==> object_store_evidence(object, budget + 1)
            == (match object.source {
            Some(below) => adapter_evidence(*below, budget),
            None => StorageFailureKind::Unknown,
        }),
        source matches ErrorSource::ObjectStore(error) ==> adapter_evidence(source, budget + 1)
            == object_store_evidence(error, budget + 1),
        source matches ErrorSource::Io(error) ==> adapter_evidence(source, budget + 1)
            == io_evidence(error, budget + 1),
        !(source is ObjectStore) && !(source is Io) ==> adapter_evidence(source, budget + 1) == (
        match link_below(source) {
            Some(below) => adapter_evidence(*below, budget),
            None => StorageFailureKind::Unknown,
        }),
{
    reveal_with_fuel(io_evidence, 2);
    reveal_with_fuel(object_store_evidence, 2);
    reveal_with_fuel(adapter_evidence, 2);
}

} // verus!
