//! Names of curation statuses and pipelines, as requests give them.
use vstd::prelude::*;

use crate::text::{lowered, same_text, to_lowercase};
use crate::types::{CurationStatus, Pipeline};

verus! {

/// The curation status a name stands for, in any case: "unreviewed",
/// "useful", "noise" or "critical", or one of the audit actions that map to
/// them: "confirmed" (useful), "false-positive" (noise) and "escalate"
/// (critical).
pub open spec fn status_named(name: Seq<char>) -> Option<CurationStatus> {
    let n = lowered(name);
    if n == "unreviewed"@ {
        Some(CurationStatus::Unreviewed)
    } else if n == "useful"@ || n == "confirmed"@ {
        Some(CurationStatus::Useful)
    } else if n == "noise"@ || n == "false-positive"@ {
        Some(CurationStatus::Noise)
    } else if n == "critical"@ || n == "escalate"@ {
        Some(CurationStatus::Critical)
    } else {
        None
    }
}

/// The pipeline a name stands for, in any case: "design_review" or
/// "audit_sandbox".
pub open spec fn pipeline_named(name: Seq<char>) -> Option<Pipeline> {
    let n = lowered(name);
    if n == "design_review"@ {
        Some(Pipeline::DesignReview)
    } else if n == "audit_sandbox"@ {
        Some(Pipeline::AuditSandbox)
    } else {
        None
    }
}

/// Parses a curation status name or audit action (case-insensitive).
pub fn parse_curation_status(s: &str) -> (r: Option<CurationStatus>)
    ensures
        r == status_named(s@),
{
    let n = to_lowercase(s);
    if same_text(n.as_str(), "unreviewed") {
        Some(CurationStatus::Unreviewed)
    } else if same_text(n.as_str(), "useful") || same_text(n.as_str(), "confirmed") {
        Some(CurationStatus::Useful)
    } else if same_text(n.as_str(), "noise") || same_text(n.as_str(), "false-positive") {
        Some(CurationStatus::Noise)
    } else if same_text(n.as_str(), "critical") || same_text(n.as_str(), "escalate") {
        Some(CurationStatus::Critical)
    } else {
        None
    }
}

/// Parses a pipeline name (case-insensitive).
pub fn parse_pipeline(s: &str) -> (r: Option<Pipeline>)
    ensures
        r == pipeline_named(s@),
{
    let n = to_lowercase(s);
    if same_text(n.as_str(), "design_review") {
        Some(Pipeline::DesignReview)
    } else if same_text(n.as_str(), "audit_sandbox") {
        Some(Pipeline::AuditSandbox)
    } else {
        None
    }
}

} // verus!
