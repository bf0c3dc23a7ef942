//! The report that the library assembles for one line of a file.
use vstd::prelude::*;

verus! {

/// Everything that is known of one line: where it is, why it was written and
/// the commits that show it.
#[derive(Debug, Clone)]
pub struct Report {
    pub schema_version: u8,
    pub target: Target,
    pub reason: Reason,
    pub evidence: Vec<Evidence>,
    pub history_complete: bool,
    pub warnings: Vec<String>,
}

/// The line that is explained, as it stands at `revision`.
#[derive(Debug, Clone)]
pub struct Target {
    pub path: String,
    pub revision: String,
    pub line: usize,
    pub text: String,
    pub dirty: bool,
}

/// The reason that a commit message records for the line, if any.
#[derive(Debug, Clone)]
pub struct Reason {
    pub status: ReasonStatus,
    pub text: Option<String>,
    pub source_commit: Option<String>,
}

#[derive(Debug, Clone, Copy, PartialEq, Eq, Structural)]
pub enum ReasonStatus {
    Recorded,
    Unknown,
}

/// One commit that touched the line or its file.
#[derive(Debug, Clone)]
pub struct Evidence {
    pub relation: EvidenceRelation,
    pub commit: String,
    pub authored_at: String,
    pub author_name: String,
    pub subject: String,
    pub body: String,
    pub references: Vec<Reference>,
}

#[derive(Debug, Clone, Copy, PartialEq, Eq, Structural)]
pub enum EvidenceRelation {
    LastChanged,
    LineHistory,
    FileHistory,
}

/// An issue or pull request number mentioned as `#N` in a commit message.
#[derive(Debug, Clone)]
pub struct Reference {
    pub number: u64,
    pub url: Option<String>,
}

} // verus!
