//! What the service keeps of the reports that clients send about
//! themselves.

use vstd::prelude::*;
use crate::models::device::{AuditRequest, HeartbeatRequest, SysinfoRequest};

verus! {

/// The client that an audit report is about: the one named in
/// `rustdesk_id`, or else the one named in `id`.
pub open spec fn spec_audit_subject(req: &AuditRequest) -> Seq<char> {
    if req.rustdesk_id@.len() == 0 {
        req.id@
    } else {
        req.rustdesk_id@
    }
}

/// The client that an audit report is about.
pub fn audit_subject(req: &AuditRequest) -> (id: String)
    ensures
        id@ == spec_audit_subject(req),
{
    if req.rustdesk_id.as_str().is_empty() {
        req.id.clone()
    } else {
        req.rustdesk_id.clone()
    }
}

/// Whether a sign of life is kept: only one that names its client is.
pub fn heartbeat_is_kept(req: &HeartbeatRequest) -> (kept: bool)
    ensures
        kept == (req.id@.len() > 0),
{
    !req.id.as_str().is_empty()
}

/// Whether a description of a machine is kept: only one that names its
/// client is.
pub fn sysinfo_is_kept(req: &SysinfoRequest) -> (kept: bool)
    ensures
        kept == (req.id@.len() > 0),
{
    !req.id.as_str().is_empty()
}

} // verus!
