use lance_core::Error;
use lance_namespace::ErrorCode;
use omnigraph::error::{
    CompilerError, LanceError, LanceErrorKind, ManifestConflictDetails, ManifestError,
    ManifestErrorKind, MergeConflict, MergeConflictKind, NamespaceError, NamespaceErrorCode,
    OmniError, QueryError, classify_lance_error, classify_lance_source_at_depth,
    classify_namespace_code, find_lance_source_kind,
};
use omnigraph::storage::{
    ErrorSource, IoError, IoErrorKind, ObjectStoreError, ObjectStoreErrorKind, StorageError,
    StorageFailure, StorageFailureKind, classify_io_error_at_depth,
    classify_object_store_error_at_depth,
};

fn lance_kind(error: &lance_core::Error) -> LanceErrorKind {
    match error {
        Error::InvalidInput { .. } => LanceErrorKind::InvalidInput,
        Error::DatasetAlreadyExists { .. } => LanceErrorKind::DatasetAlreadyExists,
        Error::SchemaMismatch { .. } => LanceErrorKind::SchemaMismatch,
        Error::DatasetNotFound { .. } => LanceErrorKind::DatasetNotFound,
        Error::CorruptFile { .. } => LanceErrorKind::CorruptFile,
        Error::NotSupported { .. } => LanceErrorKind::NotSupported,
        Error::CommitConflict { .. } => LanceErrorKind::CommitConflict,
        Error::IncompatibleTransaction { .. } => LanceErrorKind::IncompatibleTransaction,
        Error::RetryableCommitConflict { .. } => LanceErrorKind::RetryableCommitConflict,
        Error::TooMuchWriteContention { .. } => LanceErrorKind::TooMuchWriteContention,
        Error::Timeout { .. } => LanceErrorKind::Timeout,
        Error::Internal { .. } => LanceErrorKind::Internal,
        Error::PrerequisiteFailed { .. } => LanceErrorKind::PrerequisiteFailed,
        Error::Unprocessable { .. } => LanceErrorKind::Unprocessable,
        Error::Arrow { .. } => LanceErrorKind::Arrow,
        Error::Schema { .. } => LanceErrorKind::Schema,
        Error::NotFound { .. } => LanceErrorKind::NotFound,
        Error::IO { .. } => LanceErrorKind::IO,
        Error::Index { .. } => LanceErrorKind::Index,
        Error::IndexNotFound { .. } => LanceErrorKind::IndexNotFound,
        Error::InvalidTableLocation { .. } => LanceErrorKind::InvalidTableLocation,
        Error::Stop => LanceErrorKind::Stop,
        Error::Wrapped { .. } => LanceErrorKind::Wrapped,
        Error::Cloned { .. } => LanceErrorKind::Cloned,
        Error::Execution { .. } => LanceErrorKind::Execution,
        Error::InvalidRef { .. } => LanceErrorKind::InvalidRef,
        Error::RefConflict { .. } => LanceErrorKind::RefConflict,
        Error::RefNotFound { .. } => LanceErrorKind::RefNotFound,
        Error::Cleanup { .. } => LanceErrorKind::Cleanup,
        Error::VersionNotFound { .. } => LanceErrorKind::VersionNotFound,
        Error::VersionConflict { .. } => LanceErrorKind::VersionConflict,
        Error::Namespace { .. } => LanceErrorKind::Namespace,
        Error::External { .. } => LanceErrorKind::External,
        Error::FieldNotFound { .. } => LanceErrorKind::FieldNotFound,
        Error::DiskCapExceeded { .. } => LanceErrorKind::DiskCapExceeded,
        Error::Fenced { .. } => LanceErrorKind::Fenced,
    }
}

fn lance(error: &lance_core::Error) -> LanceError {
    let source = match error {
        lance_core::Error::External { source } => Some(chain(source.as_ref())),
        other => std::error::Error::source(other).map(chain),
    };
    LanceError {
        kind: lance_kind(error),
        message: error.to_string(),
        source: source.map(Box::new),
    }
}

fn io(error: &std::io::Error) -> IoError {
    let kind = match error.kind() {
        std::io::ErrorKind::NotFound => IoErrorKind::NotFound,
        std::io::ErrorKind::TimedOut => IoErrorKind::TimedOut,
        std::io::ErrorKind::PermissionDenied => IoErrorKind::PermissionDenied,
        _ => IoErrorKind::Other,
    };
    IoError {
        kind,
        message: error.to_string(),
        source: error.get_ref().map(|inner| Box::new(chain(inner))),
    }
}

fn chain(error: &(dyn std::error::Error + 'static)) -> ErrorSource {
    if let Some(error) = error.downcast_ref::<lance_core::Error>() {
        return ErrorSource::Lance(lance(error));
    }
    if let Some(error) = error.downcast_ref::<std::io::Error>() {
        return ErrorSource::Io(io(error));
    }
    if let Some(error) = error.downcast_ref::<lance_namespace::NamespaceError>() {
        return ErrorSource::Namespace(namespace(error));
    }
    ErrorSource::Untyped { source: error.source().map(|inner| Box::new(chain(inner))) }
}

fn namespace(error: &lance_namespace::NamespaceError) -> NamespaceError {
    NamespaceError {
        code: NamespaceErrorCode::from_u32(error.code().as_u32()).unwrap(),
        message: error.message().to_string(),
    }
}

fn query(error: &datafusion::error::DataFusionError) -> QueryError {
    QueryError {
        message: error.to_string(),
        source: std::error::Error::source(error).map(|inner| Box::new(chain(inner))),
    }
}

fn assert_lance_kind(error: lance_core::Error, expected: StorageFailureKind) {
    assert_eq!(classify_lance_error(&lance(&error)), expected, "{error}");
}

#[test]
fn lance_variant_families_are_exhaustively_classified() {
    assert_lance_kind(Error::timeout("timeout"), StorageFailureKind::Transient);

    for error in [
        Error::disk_cap_exceeded(1, 2),
        Error::invalid_input("invalid"),
        Error::InvalidTableLocation { message: "invalid location".to_string() },
        Error::InvalidRef { message: "invalid ref".to_string() },
        Error::not_supported("unsupported"),
        Error::field_not_found("field", vec!["other".to_string()]),
        Error::unprocessable("unprocessable"),
    ] {
        assert_lance_kind(error, StorageFailureKind::Configuration);
    }

    for error in [
        Error::dataset_not_found("dataset", Box::new(std::io::Error::other("missing"))),
        Error::not_found("object"),
        Error::RefNotFound { message: "missing ref".to_string() },
        Error::VersionNotFound { message: "missing version".to_string() },
        Error::index_not_found("index"),
    ] {
        assert_lance_kind(error, StorageFailureKind::NotFound);
    }

    for error in [
        Error::dataset_already_exists("dataset"),
        Error::commit_conflict_source(1, Box::new(std::io::Error::other("conflict"))),
        Error::incompatible_transaction_source(Box::new(std::io::Error::other("incompatible"))),
        Error::retryable_commit_conflict_source(1, Box::new(std::io::Error::other("conflict"))),
        Error::too_much_write_contention("contention"),
        Error::RefConflict { message: "ref conflict".to_string() },
        Error::version_conflict("version conflict", 1, 0),
        Error::fenced_by_peer("fenced"),
    ] {
        assert_lance_kind(error, StorageFailureKind::Precondition);
    }

    for error in [
        Error::corrupt_file_named("file", "corrupt"),
        Error::schema_mismatch("mismatch"),
        Error::internal("internal"),
        Error::arrow("arrow"),
        Error::schema("schema"),
    ] {
        assert_lance_kind(error, StorageFailureKind::Permanent);
    }

    for error in [
        Error::execution("execution"),
        Error::index("index"),
        Error::Cleanup { message: "cleanup".to_string() },
        Error::cloned("cloned"),
        Error::prerequisite_failed("prerequisite"),
        Error::Stop,
    ] {
        assert_lance_kind(error, StorageFailureKind::Unknown);
    }
}

#[test]
fn lance_opaque_wrappers_recover_only_typed_source_evidence() {
    let timeout = || {
        Box::new(std::io::Error::new(std::io::ErrorKind::TimedOut, "timeout"))
            as Box<dyn std::error::Error + Send + Sync>
    };
    assert_lance_kind(lance_core::Error::io_source(timeout()), StorageFailureKind::Transient);
    assert_lance_kind(lance_core::Error::wrapped(timeout()), StorageFailureKind::Transient);
    assert_lance_kind(lance_core::Error::external(timeout()), StorageFailureKind::Transient);
    assert_lance_kind(
        lance_core::Error::io_source(Box::new(std::fmt::Error)),
        StorageFailureKind::Unknown,
    );
}

#[test]
fn all_lance_namespace_codes_have_the_rfc_mapping() {
    let expected = [
        StorageFailureKind::Configuration,
        StorageFailureKind::NotFound,
        StorageFailureKind::Precondition,
        StorageFailureKind::Precondition,
        StorageFailureKind::NotFound,
        StorageFailureKind::Precondition,
        StorageFailureKind::NotFound,
        StorageFailureKind::Precondition,
        StorageFailureKind::NotFound,
        StorageFailureKind::Precondition,
        StorageFailureKind::NotFound,
        StorageFailureKind::NotFound,
        StorageFailureKind::NotFound,
        StorageFailureKind::Configuration,
        StorageFailureKind::Precondition,
        StorageFailureKind::Configuration,
        StorageFailureKind::Configuration,
        StorageFailureKind::Transient,
        StorageFailureKind::Permanent,
        StorageFailureKind::Precondition,
        StorageFailureKind::Configuration,
        StorageFailureKind::Transient,
        StorageFailureKind::NotFound,
        StorageFailureKind::Precondition,
    ];

    for (raw, expected) in (0_u32..=23).zip(expected) {
        let code = ErrorCode::from_u32(raw).expect("all Lance 10 codes must exist");
        let own = NamespaceErrorCode::from_u32(code.as_u32()).unwrap();
        assert_eq!(own.as_u32(), raw);
        assert_eq!(classify_namespace_code(own), expected, "{code}");
        let error = lance_namespace::NamespaceError::from_code(raw, "typed namespace");
        let historical_message = format!("storage: {error}");
        let classified = OmniError::storage_namespace(namespace(&error));
        assert_eq!(classified.to_string(), historical_message);
        assert_eq!(classified.storage_failure().map(|failure| failure.kind), Some(expected));
        let error = lance_namespace::NamespaceError::from_code(raw, "typed namespace");
        let error: lance_core::Error = error.into();
        assert_lance_kind(error, expected);
    }
}

#[test]
fn direct_and_contextual_lance_messages_are_complete_and_exact() {
    let direct = lance_core::Error::timeout("direct timeout");
    let direct_text = direct.to_string();
    let direct = OmniError::storage(lance(&direct));
    assert_eq!(direct.to_string(), format!("storage: {direct_text}"));
    assert_eq!(direct.storage_failure().unwrap().message, direct.to_string());

    let contextual = lance_core::Error::timeout("context timeout");
    let contextual_text = contextual.to_string();
    let contextual = OmniError::storage_context("nearest", lance(&contextual));
    assert_eq!(contextual.to_string(), format!("storage: nearest: {contextual_text}"));
    assert_eq!(contextual.storage_failure().unwrap().kind, StorageFailureKind::Transient);
}

#[test]
fn datafusion_user_errors_and_nested_storage_errors_remain_distinct() {
    let user = OmniError::datafusion(query(&datafusion::error::DataFusionError::Plan(
        "bad user query".to_string(),
    )));
    assert!(matches!(user, OmniError::DataFusion(_)));

    let nested = lance_core::Error::io_source(Box::new(std::io::Error::new(
        std::io::ErrorKind::TimedOut,
        "transport timeout",
    )));
    let nested = OmniError::datafusion(query(&datafusion::error::DataFusionError::External(
        Box::new(nested),
    )));
    assert_eq!(
        nested.storage_failure().map(|failure| failure.kind),
        Some(StorageFailureKind::Transient)
    );
}

#[test]
fn arrow_and_blob_contradictions_are_not_storage_failures() {
    let arrow = OmniError::arrow_internal(
        arrow_schema::ArrowError::ComputeError("invalid batch computation".to_string()),
    );
    assert!(matches!(
        arrow,
        OmniError::Manifest(ManifestError { kind: ManifestErrorKind::Internal, .. })
    ));
    assert_eq!(arrow.to_string(), "Compute error: invalid batch computation");

    let blob = OmniError::blob_integrity("persisted descriptor contradiction".to_string());
    assert!(matches!(blob, OmniError::BlobIntegrity { .. }));
    assert_eq!(
        blob.to_string(),
        "blob integrity violation: persisted descriptor contradiction"
    );
}

fn timed_out() -> ErrorSource {
    ErrorSource::Io(IoError {
        kind: IoErrorKind::TimedOut,
        message: "timeout".to_string(),
        source: None,
    })
}

fn wrapped_times(source: ErrorSource, links: usize) -> ErrorSource {
    let mut chain = source;
    for _ in 0..links {
        chain = ErrorSource::Untyped { source: Some(Box::new(chain)) };
    }
    chain
}

#[test]
fn eight_links_are_inspected_and_no_more() {
    let near = wrapped_times(timed_out(), 7);
    assert_eq!(find_lance_source_kind(&near, 0), Some(StorageFailureKind::Transient));
    assert_eq!(classify_lance_source_at_depth(&near, 0), StorageFailureKind::Transient);
    let far = wrapped_times(timed_out(), 8);
    assert_eq!(find_lance_source_kind(&far, 0), None);
    assert_eq!(classify_lance_source_at_depth(&far, 0), StorageFailureKind::Unknown);
    assert_eq!(classify_lance_source_at_depth(&timed_out(), 8), StorageFailureKind::Unknown);
}

#[test]
fn texts_play_no_part_in_the_classification() {
    let speaking = LanceError {
        kind: LanceErrorKind::Execution,
        message: "timed out while throttled".to_string(),
        source: Some(Box::new(timed_out())),
    };
    assert_eq!(classify_lance_error(&speaking), StorageFailureKind::Unknown);
    let outer = LanceError {
        kind: LanceErrorKind::CorruptFile,
        message: String::new(),
        source: Some(Box::new(timed_out())),
    };
    assert_eq!(classify_lance_error(&outer), StorageFailureKind::Permanent);
}

#[test]
fn the_adapter_reads_object_store_and_io_errors() {
    let plain = |kind| ObjectStoreError { kind, source: None };
    for (kind, expected) in [
        (ObjectStoreErrorKind::NotFound, StorageFailureKind::NotFound),
        (ObjectStoreErrorKind::NotModified, StorageFailureKind::Precondition),
        (ObjectStoreErrorKind::Precondition, StorageFailureKind::Precondition),
        (ObjectStoreErrorKind::AlreadyExists, StorageFailureKind::Precondition),
        (ObjectStoreErrorKind::InvalidPath, StorageFailureKind::Configuration),
        (ObjectStoreErrorKind::NotSupported, StorageFailureKind::Configuration),
        (ObjectStoreErrorKind::NotImplemented, StorageFailureKind::Configuration),
        (ObjectStoreErrorKind::PermissionDenied, StorageFailureKind::Configuration),
        (ObjectStoreErrorKind::Unauthenticated, StorageFailureKind::Configuration),
        (ObjectStoreErrorKind::UnknownConfigurationKey, StorageFailureKind::Configuration),
        (ObjectStoreErrorKind::JoinCancelled, StorageFailureKind::Transient),
        (ObjectStoreErrorKind::JoinPanicked, StorageFailureKind::Permanent),
        (ObjectStoreErrorKind::Generic, StorageFailureKind::Unknown),
        (ObjectStoreErrorKind::Unrecognized, StorageFailureKind::Unknown),
    ] {
        assert_eq!(classify_object_store_error_at_depth(&plain(kind), 0), expected);
    }
    let generic = ObjectStoreError {
        kind: ObjectStoreErrorKind::Generic,
        source: Some(Box::new(wrapped_times(timed_out(), 2))),
    };
    assert_eq!(classify_object_store_error_at_depth(&generic, 0), StorageFailureKind::Transient);
    for (kind, expected) in [
        (IoErrorKind::NotFound, StorageFailureKind::NotFound),
        (IoErrorKind::AlreadyExists, StorageFailureKind::Precondition),
        (IoErrorKind::PermissionDenied, StorageFailureKind::Configuration),
        (IoErrorKind::ConnectionReset, StorageFailureKind::Transient),
        (IoErrorKind::InvalidData, StorageFailureKind::Permanent),
        (IoErrorKind::Other, StorageFailureKind::Unknown),
    ] {
        let error = IoError { kind, message: String::new(), source: None };
        assert_eq!(classify_io_error_at_depth(&error, 0), expected);
    }
}

#[test]
fn only_a_transient_failure_is_transient() {
    assert!(StorageFailure::new(StorageFailureKind::Transient, String::new()).is_transient());
    assert!(!StorageFailure::new(StorageFailureKind::Unknown, String::new()).is_transient());
}

#[test]
fn context_is_added_behind_the_category() {
    let failure = |message: &str| {
        OmniError::Storage(StorageFailure::new(StorageFailureKind::NotFound, message.to_string()))
    };
    let marked = failure("storage: gone").with_context("open");
    assert_eq!(marked.to_string(), "storage: open: gone");
    assert_eq!(marked.storage_failure().unwrap().kind, StorageFailureKind::NotFound);
    assert_eq!(failure("gone").with_context("open").to_string(), "open: gone");
    assert_eq!(failure("storage:").with_context("open").to_string(), "open: storage:");

    let direct = lance(&lance_core::Error::RefNotFound { message: "x".to_string() });
    let text = direct.message.clone();
    assert_eq!(
        OmniError::storage(direct).with_context("open").to_string(),
        format!("storage: open: {text}")
    );

    let manifest = OmniError::manifest_read_set_changed(
        "graph head".to_string(),
        Some("a".to_string()),
        None,
    );
    assert!(manifest.is_read_set_changed());
    let manifest = manifest.with_context("commit");
    assert!(manifest.is_read_set_changed());
    assert_eq!(
        manifest.to_string(),
        "commit: write authority 'graph head' changed during preparation (expected a, current <absent>) — reprepare from the current branch state"
    );
    assert_eq!(
        OmniError::Policy("no".to_string()).with_context("x").to_string(),
        "policy: no"
    );
}

#[test]
fn manifest_errors_carry_their_kind_and_details() {
    let kind = |error: &OmniError| match error {
        OmniError::Manifest(manifest) => manifest.kind,
        _ => panic!("a manifest error"),
    };
    assert_eq!(kind(&OmniError::manifest("m".to_string())), ManifestErrorKind::BadRequest);
    assert_eq!(kind(&OmniError::manifest_not_found("m".to_string())), ManifestErrorKind::NotFound);
    assert_eq!(kind(&OmniError::manifest_conflict("m".to_string())), ManifestErrorKind::Conflict);
    assert_eq!(kind(&OmniError::manifest_internal("m".to_string())), ManifestErrorKind::Internal);

    let stale = OmniError::manifest_expected_version_mismatch("node:Person".to_string(), 3, 12);
    assert_eq!(
        stale.to_string(),
        "stale view of 'node:Person': expected manifest table version 3 but current is 12 — refresh and retry"
    );
    let OmniError::Manifest(manifest) = stale else { panic!("a manifest error") };
    assert_eq!(
        manifest.details,
        Some(ManifestConflictDetails::ExpectedVersionMismatch {
            table_key: "node:Person".to_string(),
            expected: 3,
            actual: 12,
        })
    );

    let OmniError::Manifest(manifest) =
        OmniError::manifest_row_level_cas_contention("lost".to_string())
    else {
        panic!("a manifest error")
    };
    assert_eq!(manifest.details, Some(ManifestConflictDetails::RowLevelCasContention));

    let plain = ManifestError::new(ManifestErrorKind::Conflict, "m".to_string());
    assert!(plain.details.is_none());
    let detailed = plain.with_details(ManifestConflictDetails::RowLevelCasContention);
    assert_eq!(detailed.details, Some(ManifestConflictDetails::RowLevelCasContention));
    assert_eq!(detailed.message, "m");
}

#[test]
fn every_variant_has_its_text() {
    let conflicts = || {
        vec![
            MergeConflict {
                table_key: "node:\"Person\"\n".to_string(),
                row_id: Some("é".to_string()),
                kind: MergeConflictKind::DivergentInsert,
                message: "both \\ inserted".to_string(),
            },
            MergeConflict {
                table_key: "edge:Knows".to_string(),
                row_id: None,
                kind: MergeConflictKind::OrphanEdge,
                message: String::new(),
            },
        ]
    };
    assert_eq!(
        OmniError::MergeConflicts(conflicts()).to_string(),
        format!("merge conflicts: {:?}", conflicts())
    );
    assert_eq!(OmniError::MergeConflicts(vec![]).to_string(), "merge conflicts: []");

    let inner = || Box::new(OmniError::DataFusion("inner".to_string()));
    for (error, text) in [
        (OmniError::from(CompilerError { message: "c".to_string() }), "c"),
        (
            OmniError::RetryableCommitConflict("r".to_string()),
            "retryable storage commit conflict: r",
        ),
        (OmniError::DataFusion("q".to_string()), "query: q"),
        (
            OmniError::from(IoError {
                kind: IoErrorKind::Other,
                message: "broken".to_string(),
                source: None,
            }),
            "io: broken",
        ),
        (
            OmniError::key_conflict("node:A".to_string(), "k".to_string()),
            "key conflict in table 'node:A'",
        ),
        (
            OmniError::resource_limit("rows".to_string(), 10, 1_000_000),
            "resource limit exceeded for rows: actual 1000000, limit 10",
        ),
        (
            OmniError::external_blob_policy("u".to_string(), "r".to_string()),
            "external blob URI 'u' is not allowed: r",
        ),
        (
            OmniError::external_blob_source("u".to_string(), "r".to_string()),
            "external blob source 'u' is unavailable: r",
        ),
        (
            OmniError::BlobRangeNotSatisfiable { start: 7, end: 0, length: 18446744073709551615 },
            "blob range [7, 0) is not satisfiable for a value of length 18446744073709551615",
        ),
        (
            OmniError::recovery_required("op".to_string(), "r".to_string()),
            "recovery required for operation op: r",
        ),
        (
            OmniError::precondition_failed("main".to_string(), "a".to_string(), None),
            "precondition failed on branch 'main': expected head 'a' but current is <absent>",
        ),
        (
            OmniError::precondition_failed(
                "main".to_string(),
                "a".to_string(),
                Some("b".to_string()),
            ),
            "precondition failed on branch 'main': expected head 'a' but current is b",
        ),
        (OmniError::Policy("p".to_string()), "policy: p"),
        (
            OmniError::AlreadyInitialized { uri: "u".to_string() },
            "graph already initialized or initialization metadata exists at 'u'; --force may replace only orphan schema files after proving that no __manifest exists",
        ),
        (
            OmniError::InitializationCommitted { uri: "u".to_string(), source: inner() },
            "graph initialization at 'u' committed its manifest, but finalization failed; schema artifacts were preserved; inspect or open the graph before taking further action: query: inner",
        ),
        (
            OmniError::InitializationIndeterminate {
                uri: "u".to_string(),
                source: inner(),
                probe: inner(),
            },
            "graph initialization at 'u' has an indeterminate physical outcome; schema artifacts and '__init_claim.json' were preserved; do not retry initialization or delete the root until it is inspected (create error: query: inner; exact-genesis probe error: query: inner)",
        ),
        (
            OmniError::InitializationClaimed { uri: "u".to_string() },
            "graph initialization at 'u' is claimed by '__init_claim.json'; another initializer may still be running or a prior initializer may have stopped; quiesce all initializers before manually removing the claim, then retry init (use --force only when orphan schema files remain)",
        ),
    ] {
        assert_eq!(error.to_string(), text);
    }
    assert!(OmniError::RetryableCommitConflict(String::new()).is_retryable_commit_conflict());
    assert!(!OmniError::Policy(String::new()).is_retryable_commit_conflict());
    assert!(!OmniError::Policy(String::new()).is_read_set_changed());
    assert!(OmniError::Policy(String::new()).storage_failure().is_none());
}

#[test]
fn adapter_errors_convert_by_their_variant() {
    let internal = OmniError::from(StorageError::Internal("bad".to_string()));
    assert!(matches!(
        internal,
        OmniError::Manifest(ManifestError { kind: ManifestErrorKind::Internal, .. })
    ));
    let failure = StorageFailure::new(StorageFailureKind::Transient, "storage: slow".to_string());
    let backend = OmniError::from(StorageError::Backend(failure));
    assert_eq!(backend.to_string(), "storage: slow");
    assert!(backend.storage_failure().unwrap().is_transient());
    let limited = OmniError::from(StorageError::ResourceLimit {
        resource: "bytes".to_string(),
        limit: 1,
        actual: 2,
    });
    assert!(matches!(
        limited,
        OmniError::ResourceLimitExceeded { limit: 1, actual: 2, .. }
    ));
}

#[test]
fn a_manifest_error_reads_as_its_message() {
    let error = ManifestError::new(ManifestErrorKind::NotFound, "gone".to_string());
    assert_eq!(error.to_string(), "gone");
    let detailed = error.with_details(ManifestConflictDetails::RowLevelCasContention);
    assert_eq!(detailed.to_string(), "gone");
    assert_eq!(OmniError::Manifest(detailed).to_string(), "gone");
}

#[test]
fn an_arrow_failure_keeps_arrows_text() {
    for error in [
        arrow_schema::ArrowError::DivideByZero,
        arrow_schema::ArrowError::SchemaError("shape".to_string()),
        arrow_schema::ArrowError::ExternalError(Box::new(std::fmt::Error)),
    ] {
        let text = error.to_string();
        assert_eq!(OmniError::arrow_internal(error).to_string(), text);
    }
}
