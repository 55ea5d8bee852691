//! The model catalog as the models view reads it: artifacts found in the
//! local tools' libraries, and the offers a download can choose from.

use vstd::prelude::*;

verus! {

/// A tool that references an artifact.
#[derive(Clone, Debug, Default, PartialEq, Eq)]
pub struct ArtifactReference {
    pub tool: String,
}

/// Whether an artifact is protected from cleanup, and why.
#[derive(Clone, Debug, Default, PartialEq, Eq)]
pub struct Protection {
    pub protected: bool,
    pub reasons: Vec<String>,
}

/// How far an artifact's identity was established.
#[derive(Clone, Debug, Default, PartialEq, Eq)]
pub struct ArtifactIdentity {
    pub state: String,
}

/// One model file of the catalog.
#[derive(Clone, Debug, Default, PartialEq, Eq)]
pub struct Artifact {
    pub artifact_id: String,
    pub family: String,
    pub format: String,
    pub quantization: Option<String>,
    pub category: Option<String>,
    pub references: Vec<ArtifactReference>,
    pub logical_size: Option<u64>,
    pub allocated_size: Option<u64>,
    pub duplicate_group: Option<String>,
    pub protection: Protection,
    pub identity: ArtifactIdentity,
}

/// A source that could not be read while building the catalog.
#[derive(Clone, Debug, Default, PartialEq, Eq)]
pub struct SourceError {
    pub source: String,
    pub code: String,
    pub message: String,
    pub confidence: String,
}

/// The catalog of one inventory run.
#[derive(Clone, Debug, Default, PartialEq, Eq)]
pub struct CatalogSnapshot {
    pub schema_version: u32,
    pub generated_at: String,
    pub platform: String,
    pub artifacts: Vec<Artifact>,
    pub source_errors: Vec<SourceError>,
    pub warnings: Vec<String>,
}

/// One way of acquiring a model.
#[derive(Clone, Debug, Default, PartialEq, Eq)]
pub struct AcquisitionOffer {
    /// What the offer was resolved from (a model reference or URL).
    pub locator: String,
    pub family: String,
    pub provider: String,
    pub filename: String,
    pub format: String,
    pub quantization: Option<String>,
    pub category: Option<String>,
    pub trusted_digest: Option<String>,
    pub immutable_revision: Option<String>,
    pub review_digest: Option<String>,
    pub executable: bool,
    pub conversion_required: bool,
    pub cache_verified: bool,
}

} // verus!
