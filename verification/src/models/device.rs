//! What clients report about themselves.

use vstd::prelude::*;

verus! {

/// A client's sign of life.
#[derive(Debug, PartialEq, Eq)]
pub struct HeartbeatRequest {
    pub id: String,
    pub uuid: String,
    pub modified_at: i64,
    pub ver: i64,
}

/// A client's description of its machine.
#[derive(Debug, PartialEq, Eq)]
pub struct SysinfoRequest {
    pub id: String,
    pub uuid: String,
    pub hostname: String,
    pub platform: String,
    pub os: String,
    pub cpu: String,
    pub memory: String,
    pub version: String,
}

/// A client's report of something it did. Clients name themselves in `id`
/// or in `rustdesk_id`.
#[derive(Debug, PartialEq, Eq)]
pub struct AuditRequest {
    pub action: String,
    pub id: String,
    pub rustdesk_id: String,
    pub peer_id: String,
    pub ip: String,
    pub note: String,
}

} // verus!
