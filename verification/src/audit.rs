//! The audit events that scan requests and a scan task's end are reported
//! with.

use vstd::prelude::*;
use crate::text::{str_equal, string_of};

verus! {

broadcast use vstd::string::group_string_axioms;

/// The outcome an audit event reports.
#[derive(Debug, Clone, Copy, PartialEq, Eq)]
pub enum AuditOutcome {
    Success,
    Canceled,
    Failure,
}

/// The impact an audit event reports.
#[derive(Debug, Clone, Copy, PartialEq, Eq)]
pub enum AuditImpact {
    Info,
    Warning,
    Error,
}

/// The kind of an audit event: its code, its Chinese and English titles,
/// its outcome and its impact.
pub struct AuditKind {
    pub code: String,
    pub zh_cn: String,
    pub en_us: String,
    pub outcome: AuditOutcome,
    pub impact: AuditImpact,
}

/// The audit event of a task that ended with `status`: completed and
/// canceled tasks have their own events; any other status is a failure.
pub fn terminal_audit(status: &str) -> (r: AuditKind)
    ensures
        status@ == "completed"@ ==> r.code@ == "scan_succeeded"@ && r.zh_cn@ == "扫描完成"@
            && r.en_us@ == "Scan completed"@ && r.outcome == AuditOutcome::Success && r.impact
            == AuditImpact::Info,
        status@ == "canceled"@ ==> r.code@ == "scan_canceled"@ && r.zh_cn@ == "取消扫描"@
            && r.en_us@ == "Cancel scan"@ && r.outcome == AuditOutcome::Canceled && r.impact
            == AuditImpact::Info,
        status@ != "completed"@ && status@ != "canceled"@ ==> r.code@ == "scan_failed"@
            && r.zh_cn@ == "扫描失败"@ && r.en_us@ == "Scan failed"@ && r.outcome
            == AuditOutcome::Failure && r.impact == AuditImpact::Error,
{
    proof {
        reveal_strlit("completed");
        reveal_strlit("canceled");
        assert("completed"@.len() != "canceled"@.len());
    }
    if str_equal(status, "completed") {
        AuditKind {
            code: string_of("scan_succeeded"),
            zh_cn: string_of("扫描完成"),
            en_us: string_of("Scan completed"),
            outcome: AuditOutcome::Success,
            impact: AuditImpact::Info,
        }
    } else if str_equal(status, "canceled") {
        AuditKind {
            code: string_of("scan_canceled"),
            zh_cn: string_of("取消扫描"),
            en_us: string_of("Cancel scan"),
            outcome: AuditOutcome::Canceled,
            impact: AuditImpact::Info,
        }
    } else {
        AuditKind {
            code: string_of("scan_failed"),
            zh_cn: string_of("扫描失败"),
            en_us: string_of("Scan failed"),
            outcome: AuditOutcome::Failure,
            impact: AuditImpact::Error,
        }
    }
}

/// A request on a scan task that is reported to the audit log.
#[derive(Debug, Clone, Copy, PartialEq, Eq)]
pub enum AuditedRequest {
    Submit,
    Cancel,
    Delete,
}

/// The audit event of a request that succeeded or failed: each request has
/// its code and titles; a failed request is a failure of error impact, a
/// successful one reports its own outcome (a canceled task for a cancel)
/// and impact (a warning for a delete).
pub fn request_audit(request: AuditedRequest, succeeded: bool) -> (r: AuditKind)
    ensures
        request is Submit ==> r.code@ == "scan_submitted"@ && r.zh_cn@ == "提交扫描"@ && r.en_us@
            == "Submit scan"@,
        request is Cancel ==> r.code@ == "scan_canceled"@ && r.zh_cn@ == "取消扫描"@ && r.en_us@
            == "Cancel scan"@,
        request is Delete ==> r.code@ == "scan_deleted"@ && r.zh_cn@ == "删除扫描"@ && r.en_us@
            == "Delete scan"@,
        !succeeded ==> r.outcome == AuditOutcome::Failure && r.impact == AuditImpact::Error,
        succeeded && request is Submit ==> r.outcome == AuditOutcome::Success && r.impact
            == AuditImpact::Info,
        succeeded && request is Cancel ==> r.outcome == AuditOutcome::Canceled && r.impact
            == AuditImpact::Info,
        succeeded && request is Delete ==> r.outcome == AuditOutcome::Success && r.impact
            == AuditImpact::Warning,
{
    let (code, zh_cn, en_us) = match request {
        AuditedRequest::Submit => ("scan_submitted", "提交扫描", "Submit scan"),
        AuditedRequest::Cancel => ("scan_canceled", "取消扫描", "Cancel scan"),
        AuditedRequest::Delete => ("scan_deleted", "删除扫描", "Delete scan"),
    };
    let (outcome, impact) = if !succeeded {
        (AuditOutcome::Failure, AuditImpact::Error)
    } else {
        match request {
            AuditedRequest::Submit => (AuditOutcome::Success, AuditImpact::Info),
            AuditedRequest::Cancel => (AuditOutcome::Canceled, AuditImpact::Info),
            AuditedRequest::Delete => (AuditOutcome::Success, AuditImpact::Warning),
        }
    };
    AuditKind {
        code: string_of(code),
        zh_cn: string_of(zh_cn),
        en_us: string_of(en_us),
        outcome,
        impact,
    }
}

/// The error code that the audit event of a failed request carries.
pub fn request_failure_code(request: AuditedRequest) -> (r: String)
    ensures
        request is Submit ==> r@ == "SCAN_CREATE_FAILED"@,
        request is Cancel ==> r@ == "SCAN_CANCEL_FAILED"@,
        request is Delete ==> r@ == "SCAN_DELETE_FAILED"@,
{
    match request {
        AuditedRequest::Submit => string_of("SCAN_CREATE_FAILED"),
        AuditedRequest::Cancel => string_of("SCAN_CANCEL_FAILED"),
        AuditedRequest::Delete => string_of("SCAN_DELETE_FAILED"),
    }
}

} // verus!
