//! The living archive: the vault layout the services work in, and the TOL
//! session bundles built from it.
pub mod archive_tol_bundles;

use vstd::prelude::*;

verus! {

/// Where a kind of source lives in the vault.
#[derive(Debug, Clone)]
pub struct ArchiveMapping {
    /// The role of the sources (`raw_sources`, `derived_sources`, ...).
    pub role: String,
    /// A finer kind within the role, if any.
    pub subtype: Option<String>,
    /// The folder, relative to the vault root.
    pub path: String,
}

/// The vault the archive works in.
#[derive(Debug, Clone)]
pub struct ArchiveRuntime {
    pub vault_root: String,
    pub mappings: Vec<ArchiveMapping>,
}

/// A TOL session found in the vault.
#[derive(Debug, Clone)]
pub struct ArchiveTolBundleCandidate {
    pub session_id: String,
    pub raw_audio_path: Option<String>,
    pub transcript_path: Option<String>,
    pub analysis_path: Option<String>,
    pub date: Option<String>,
    pub time: Option<String>,
    pub summary: Option<String>,
    pub status: String,
    pub strategic_actions_count: usize,
    pub explicit_directives_count: usize,
}

} // verus!
