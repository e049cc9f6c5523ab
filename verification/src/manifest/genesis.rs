//! The birth of a graph's manifest: the receipt of an initialization attempt,
//! and its authentication.

use vstd::prelude::*;

use crate::error::{self, OmniError};
use crate::manifest::state::{GraphLineageRow, LineageView};
use crate::text::{self, decimal_text, joined, same_text, trimmed_root};

verus! {

/// The manifest version that the Create commit produces. The whole birth of a
/// manifest is that one commit.
pub const GENESIS_MANIFEST_VERSION: u64 = 1;

/// The key of the main branch among the graph heads.
pub const MAIN_BRANCH_HEAD_KEY: &'static str = "main";

/// Whether a character is a digit of the ULID alphabet: the decimal digits and
/// the capital letters without I, L, O and U.
pub open spec fn is_ulid_digit(c: char) -> bool {
    ('0' <= c <= '9') || ('A' <= c <= 'Z' && c != 'I' && c != 'L' && c != 'O' && c != 'U')
}

/// Whether a text is spelled as a ULID.
pub open spec fn is_ulid(text: Seq<char>) -> bool {
    text.len() == 26 && forall|i: int| 0 <= i < text.len() ==> is_ulid_digit(#[trigger] text[i])
}

/// The text of a fresh `ulid::Ulid::new()`. It depends on the clock and on
/// chance: only its spelling is stated.
#[verifier::external_body]
fn fresh_ulid() -> (r: String)
    ensures
        is_ulid(r@),
{
    ulid::Ulid::new().to_string()
}

/// The exact receipt of one initialization attempt, embedded in the manifest
/// that it creates. The random commit id tells the attempt from another one
/// whose tables happen to be numbered alike.
#[derive(Debug)]
pub struct GenesisManifestAttempt {
    lineage: GraphLineageRow,
}

/// The lineage row of a genesis: on the main branch, without parents and
/// without an actor.
pub open spec fn genesis_lineage(graph_commit_id: Seq<char>, created_at: i64) -> LineageView {
    LineageView {
        graph_commit_id,
        manifest_branch: None,
        manifest_version: GENESIS_MANIFEST_VERSION,
        parent_commit_id: None,
        merged_parent_commit_id: None,
        actor_id: None,
        created_at,
    }
}

impl View for GenesisManifestAttempt {
    type V = LineageView;

    closed spec fn view(&self) -> LineageView {
        self.lineage@
    }
}

impl GenesisManifestAttempt {
    /// Mints the receipt. It is made before the manifest is created, so that a
    /// lost acknowledgement can be told from a failed creation. `created_at` is
    /// the current time in microseconds.
    pub fn mint(created_at: i64) -> (r: Self)
        ensures
            is_ulid(r@.graph_commit_id),
            r@ == genesis_lineage(r@.graph_commit_id, created_at),
    {
        GenesisManifestAttempt::with_commit_id(fresh_ulid(), created_at)
    }

    /// The receipt with a given commit id.
    pub fn with_commit_id(graph_commit_id: String, created_at: i64) -> (r: Self)
        ensures
            r@ == genesis_lineage(graph_commit_id@, created_at),
    {
        GenesisManifestAttempt {
            lineage: GraphLineageRow {
                graph_commit_id,
                manifest_branch: None,
                manifest_version: GENESIS_MANIFEST_VERSION,
                parent_commit_id: None,
                merged_parent_commit_id: None,
                actor_id: None,
                created_at,
            },
        }
    }

    pub fn lineage(&self) -> (r: &GraphLineageRow)
        ensures
            r@ == self@,
    {
        &self.lineage
    }
}

/// Where an initialization failed. Once the Create call has been made, any error
/// leaves its outcome unknown: the manifest may be durable already, and must be
/// probed before anything is cleaned up.
#[derive(Debug)]
pub enum ManifestInitError {
    BeforeManifestCreate(OmniError),
    ManifestCreateOutcomeUnknown(OmniError),
}

impl ManifestInitError {
    /// The cause of the failure.
    pub open spec fn source(self) -> OmniError {
        match self {
            ManifestInitError::BeforeManifestCreate(source) => source,
            ManifestInitError::ManifestCreateOutcomeUnknown(source) => source,
        }
    }

    pub fn into_source(self) -> (r: OmniError)
        ensures
            r == self.source(),
    {
        match self {
            ManifestInitError::BeforeManifestCreate(source) => source,
            ManifestInitError::ManifestCreateOutcomeUnknown(source) => source,
        }
    }
}

impl From<OmniError> for ManifestInitError {
    fn from(source: OmniError) -> (r: Self) {
        ManifestInitError::BeforeManifestCreate(source)
    }
}

impl vstd::std_specs::convert::FromSpecImpl<OmniError> for ManifestInitError {
    open spec fn obeys_from_spec() -> bool {
        true
    }

    open spec fn from_spec(source: OmniError) -> Self {
        ManifestInitError::BeforeManifestCreate(source)
    }
}

impl From<ManifestInitError> for OmniError {
    fn from(error: ManifestInitError) -> (r: Self) {
        error.into_source()
    }
}

impl vstd::std_specs::convert::FromSpecImpl<ManifestInitError> for OmniError {
    open spec fn obeys_from_spec() -> bool {
        true
    }

    open spec fn from_spec(error: ManifestInitError) -> Self {
        error.source()
    }
}

/// What reading a manifest back shows of its birth.
#[derive(Debug)]
pub struct GenesisObservation {
    /// The internal-schema stamp.
    pub stamp: u32,
    pub dataset_version: u64,
    pub state_version: u64,
    pub lineage_rows: Vec<GraphLineageRow>,
    /// The number of head rows as they are stored, duplicates included.
    pub graph_head_row_count: u64,
    /// The head commit of each branch.
    pub graph_heads: Vec<(String, String)>,
}

/// Why a manifest is not the genesis of an attempt.
pub enum GenesisMismatch {
    Stamp,
    Version,
    Lineage,
    Head,
}

/// Whether the heads are the main branch alone, at a given commit.
pub open spec fn only_main_head(heads: Seq<(String, String)>, graph_commit_id: Seq<char>) -> bool {
    heads.len() == 1 && heads[0].0@ == MAIN_BRANCH_HEAD_KEY@ && heads[0].1@ == graph_commit_id
}

/// The first way in which an observation differs from the genesis of an attempt,
/// if it does.
pub open spec fn genesis_mismatch(
    attempt: LineageView,
    observed: GenesisObservation,
    internal_schema_version: u32,
) -> Option<GenesisMismatch> {
    if observed.stamp != internal_schema_version {
        Some(GenesisMismatch::Stamp)
    } else if observed.dataset_version != GENESIS_MANIFEST_VERSION || observed.state_version
        != GENESIS_MANIFEST_VERSION {
        Some(GenesisMismatch::Version)
    } else if !(observed.lineage_rows@.len() == 1 && observed.lineage_rows@[0]@ == attempt) {
        Some(GenesisMismatch::Lineage)
    } else if !(observed.graph_head_row_count == 1 && only_main_head(
        observed.graph_heads@,
        attempt.graph_commit_id,
    )) {
        Some(GenesisMismatch::Head)
    } else {
        None
    }
}

/// The words for a mismatch.
pub open spec fn mismatch_detail(
    mismatch: GenesisMismatch,
    observed: GenesisObservation,
    internal_schema_version: u32,
) -> Seq<char> {
    match mismatch {
        GenesisMismatch::Stamp => "internal-schema stamp is v"@ + text::decimal(
            observed.stamp as nat,
        ) + ", expected v"@ + text::decimal(internal_schema_version as nat),
        GenesisMismatch::Version => "manifest version is "@ + text::decimal(
            observed.dataset_version as nat,
        ) + ", expected "@ + text::decimal(GENESIS_MANIFEST_VERSION as nat),
        GenesisMismatch::Lineage => "genesis lineage does not match this initialization attempt"@,
        GenesisMismatch::Head => "main graph head does not match this initialization attempt"@,
    }
}

/// The whole text of a mismatch.
pub open spec fn mismatch_text(root_uri: Seq<char>, detail: Seq<char>) -> Seq<char> {
    "__manifest at '"@ + text::trim_slashes(root_uri)
        + "' is not the exact genesis created by this initialization attempt: "@ + detail
}

/// The conflict that a manifest other than the attempt's own genesis is.
pub fn genesis_probe_mismatch(root_uri: &str, detail: &str) -> (r: OmniError)
    ensures
        error::is_plain_manifest(
            r,
            error::ManifestErrorKind::Conflict,
            mismatch_text(root_uri@, detail@),
        ),
{
    let mut message = joined("__manifest at '", trimmed_root(root_uri).as_str());
    message.append("' is not the exact genesis created by this initialization attempt: ");
    message.append(detail);
    OmniError::manifest_conflict(message)
}

/// Authenticates a manifest as the one that an attempt created. Nothing else
/// classifies an unacknowledged Create call as landed: a valid manifest of
/// another attempt is not enough.
pub fn authenticate_exact_genesis(
    root_uri: &str,
    attempt: &GenesisManifestAttempt,
    observed: &GenesisObservation,
    internal_schema_version: u32,
) -> (r: Result<(), OmniError>)
    ensures
        match genesis_mismatch(attempt@, *observed, internal_schema_version) {
            None => r is Ok,
            Some(mismatch) => r matches Err(error) && error::is_plain_manifest(
                error,
                error::ManifestErrorKind::Conflict,
                mismatch_text(
                    root_uri@,
                    mismatch_detail(mismatch, *observed, internal_schema_version),
                ),
            ),
        },
{
    if observed.stamp != internal_schema_version {
        let mut detail = joined(
            "internal-schema stamp is v",
            decimal_text(observed.stamp as u64).as_str(),
        );
        detail.append(", expected v");
        detail.append(decimal_text(internal_schema_version as u64).as_str());
        return Err(genesis_probe_mismatch(root_uri, detail.as_str()));
    }
    if observed.dataset_version != GENESIS_MANIFEST_VERSION || observed.state_version
        != GENESIS_MANIFEST_VERSION {
        let mut detail = joined(
            "manifest version is ",
            decimal_text(observed.dataset_version).as_str(),
        );
        detail.append(", expected ");
        detail.append(decimal_text(GENESIS_MANIFEST_VERSION).as_str());
        return Err(genesis_probe_mismatch(root_uri, detail.as_str()));
    }
    if observed.lineage_rows.len() != 1 || !observed.lineage_rows[0].same_as(attempt.lineage()) {
        return Err(
            genesis_probe_mismatch(
                root_uri,
                "genesis lineage does not match this initialization attempt",
            ),
        );
    }
    if observed.graph_head_row_count != 1 || observed.graph_heads.len() != 1 || !same_text(
        observed.graph_heads[0].0.as_str(),
        MAIN_BRANCH_HEAD_KEY,
    ) || !same_text(
        observed.graph_heads[0].1.as_str(),
        attempt.lineage().graph_commit_id.as_str(),
    ) {
        return Err(
            genesis_probe_mismatch(
                root_uri,
                "main graph head does not match this initialization attempt",
            ),
        );
    }
    Ok(())
}

/// One manifest is the genesis of one attempt: two attempts that it
/// authenticates for are the same, down to the random commit id.
pub proof fn a_genesis_belongs_to_one_attempt(
    a: LineageView,
    b: LineageView,
    observed: GenesisObservation,
    internal_schema_version: u32,
)
    requires
        genesis_mismatch(a, observed, internal_schema_version) is None,
        genesis_mismatch(b, observed, internal_schema_version) is None,
    ensures
        a == b,
{
}

/// The manifest that an attempt creates authenticates for it.
pub proof fn an_attempt_knows_its_own_genesis(
    attempt: LineageView,
    observed: GenesisObservation,
    internal_schema_version: u32,
)
    requires
        observed.stamp == internal_schema_version,
        observed.dataset_version == GENESIS_MANIFEST_VERSION,
        observed.state_version == GENESIS_MANIFEST_VERSION,
        observed.lineage_rows@.len() == 1,
        observed.lineage_rows@[0]@ == attempt,
        observed.graph_head_row_count == 1,
        only_main_head(observed.graph_heads@, attempt.graph_commit_id),
    ensures
        genesis_mismatch(attempt, observed, internal_schema_version) is None,
{
}

/// A manifest is the genesis of an attempt exactly where everything fits: its
/// stamp is the expected one, both versions are the first, its lineage is the one
/// row of the attempt, and its only head, stored once, is that of `main` at the
/// attempt's commit. The first of these that does not fit is the one reported.
pub proof fn only_the_exact_genesis_is_accepted(
    attempt: LineageView,
    observed: GenesisObservation,
    internal_schema_version: u32,
)
    ensures
        genesis_mismatch(attempt, observed, internal_schema_version) is None <==> observed.stamp
            == internal_schema_version && observed.dataset_version == 1 && observed.state_version
            == 1 && observed.lineage_rows@.len() == 1 && observed.lineage_rows@[0]@ == attempt
            && observed.graph_head_row_count == 1 && observed.graph_heads@.len() == 1
            && observed.graph_heads@[0].0@ == "main"@ && observed.graph_heads@[0].1@
            == attempt.graph_commit_id,
        genesis_mismatch(attempt, observed, internal_schema_version) == Some(GenesisMismatch::Stamp)
            <==> observed.stamp != internal_schema_version,
        genesis_mismatch(attempt, observed, internal_schema_version) == Some(
            GenesisMismatch::Version,
        ) <==> observed.stamp == internal_schema_version && (observed.dataset_version != 1
            || observed.state_version != 1),
        genesis_mismatch(attempt, observed, internal_schema_version) == Some(
            GenesisMismatch::Lineage,
        ) <==> observed.stamp == internal_schema_version && observed.dataset_version == 1
            && observed.state_version == 1 && (observed.lineage_rows@.len() != 1
            || observed.lineage_rows@[0]@ != attempt),
{
}

/// The receipt of an attempt is a first commit: at version one, on the main
/// branch, without parents and without an actor, with the commit id and the time
/// that it was made with.
pub proof fn a_genesis_is_a_first_commit(graph_commit_id: Seq<char>, created_at: i64)
    ensures
        genesis_lineage(graph_commit_id, created_at).graph_commit_id == graph_commit_id,
        genesis_lineage(graph_commit_id, created_at).created_at == created_at,
        genesis_lineage(graph_commit_id, created_at).manifest_version == 1,
        genesis_lineage(graph_commit_id, created_at).manifest_branch is None,
        genesis_lineage(graph_commit_id, created_at).parent_commit_id is None,
        genesis_lineage(graph_commit_id, created_at).merged_parent_commit_id is None,
        genesis_lineage(graph_commit_id, created_at).actor_id is None,
        GENESIS_MANIFEST_VERSION == 1,
        MAIN_BRANCH_HEAD_KEY@ == "main"@,
{
}

/// A mismatch names the manifest by its root, and says what was found and what
/// was expected.
pub proof fn a_mismatch_says_what_was_found(
    root_uri: Seq<char>,
    detail: Seq<char>,
    observed: GenesisObservation,
    internal_schema_version: u32,
)
    ensures
        mismatch_text(root_uri, detail) == "__manifest at '"@ + text::trim_slashes(root_uri)
            + "' is not the exact genesis created by this initialization attempt: "@ + detail,
        mismatch_detail(GenesisMismatch::Stamp, observed, internal_schema_version)
            == "internal-schema stamp is v"@ + text::decimal(observed.stamp as nat)
            + ", expected v"@ + text::decimal(internal_schema_version as nat),
        mismatch_detail(GenesisMismatch::Version, observed, internal_schema_version)
            == "manifest version is "@ + text::decimal(observed.dataset_version as nat)
            + ", expected "@ + text::decimal(1),
        mismatch_detail(GenesisMismatch::Lineage, observed, internal_schema_version)
            == "genesis lineage does not match this initialization attempt"@,
        mismatch_detail(GenesisMismatch::Head, observed, internal_schema_version)
            == "main graph head does not match this initialization attempt"@,
{
}

/// Whether a failure came before or after the Create call, its cause is the
/// error itself; an error by itself counts as one from before.
pub proof fn a_failure_keeps_its_cause(error: OmniError, failure: ManifestInitError)
    ensures
        ManifestInitError::BeforeManifestCreate(error).source() == error,
        ManifestInitError::ManifestCreateOutcomeUnknown(error).source() == error,
        <ManifestInitError as vstd::std_specs::convert::FromSpec<OmniError>>::from_spec(error)
            == ManifestInitError::BeforeManifestCreate(error),
        <OmniError as vstd::std_specs::convert::FromSpec<ManifestInitError>>::from_spec(failure)
            == failure.source(),
{
}

} // verus!
