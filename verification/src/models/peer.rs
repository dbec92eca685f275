//! Peers: the remembered contacts of one address book.

use vstd::prelude::*;
use crate::text::texts;

verus! {

/// A peer row. `(ab_guid, rustdesk_id)` is unique in the store.
#[derive(Debug, PartialEq, Eq)]
pub struct Peer {
    pub id: i64,
    pub ab_guid: String,
    pub rustdesk_id: String,
    pub hash: String,
    pub username: String,
    pub hostname: String,
    pub platform: String,
    pub alias: String,
    pub note: String,
    pub created_at: String,
    pub updated_at: String,
}

/// What a peer row holds.
pub struct PeerView {
    pub id: i64,
    pub ab_guid: Seq<char>,
    pub rustdesk_id: Seq<char>,
    pub hash: Seq<char>,
    pub username: Seq<char>,
    pub hostname: Seq<char>,
    pub platform: Seq<char>,
    pub alias: Seq<char>,
    pub note: Seq<char>,
    pub created_at: Seq<char>,
    pub updated_at: Seq<char>,
}

impl View for Peer {
    type V = PeerView;

    open spec fn view(&self) -> PeerView {
        PeerView {
            id: self.id,
            ab_guid: self.ab_guid@,
            rustdesk_id: self.rustdesk_id@,
            hash: self.hash@,
            username: self.username@,
            hostname: self.hostname@,
            platform: self.platform@,
            alias: self.alias@,
            note: self.note@,
            created_at: self.created_at@,
            updated_at: self.updated_at@,
        }
    }
}

impl Clone for Peer {
    fn clone(&self) -> (r: Self)
        ensures
            r@ == self@,
    {
        Peer {
            id: self.id,
            ab_guid: self.ab_guid.clone(),
            rustdesk_id: self.rustdesk_id.clone(),
            hash: self.hash.clone(),
            username: self.username.clone(),
            hostname: self.hostname.clone(),
            platform: self.platform.clone(),
            alias: self.alias.clone(),
            note: self.note.clone(),
            created_at: self.created_at.clone(),
            updated_at: self.updated_at.clone(),
        }
    }
}

/// A link between a peer and a tag, by their row ids.
#[derive(Debug, Clone, Copy, PartialEq, Eq, Structural)]
pub struct PeerTag {
    pub peer_id: i64,
    pub tag_id: i64,
}

/// A peer as a client sees it, with the names of its tags.
#[derive(Debug, PartialEq, Eq)]
pub struct PeerPayload {
    pub id: String,
    pub hash: String,
    pub username: String,
    pub hostname: String,
    pub platform: String,
    pub alias: String,
    pub tags: Vec<String>,
    pub note: String,
}

/// What a peer payload holds.
pub struct PeerPayloadView {
    pub id: Seq<char>,
    pub hash: Seq<char>,
    pub username: Seq<char>,
    pub hostname: Seq<char>,
    pub platform: Seq<char>,
    pub alias: Seq<char>,
    pub tags: Seq<Seq<char>>,
    pub note: Seq<char>,
}

impl View for PeerPayload {
    type V = PeerPayloadView;

    open spec fn view(&self) -> PeerPayloadView {
        PeerPayloadView {
            id: self.id@,
            hash: self.hash@,
            username: self.username@,
            hostname: self.hostname@,
            platform: self.platform@,
            alias: self.alias@,
            tags: texts(self.tags@),
            note: self.note@,
        }
    }
}

/// A request to add a peer, or to overwrite the one with the same id.
#[derive(Debug, PartialEq, Eq)]
pub struct AddPeerRequest {
    pub id: String,
    pub hash: String,
    pub username: String,
    pub hostname: String,
    pub platform: String,
    pub alias: String,
    pub tags: Vec<String>,
    pub note: String,
}

/// A request to change some fields of a peer.
#[derive(Debug, PartialEq, Eq)]
pub struct UpdatePeerRequest {
    pub hash: Option<String>,
    pub username: Option<String>,
    pub hostname: Option<String>,
    pub platform: Option<String>,
    pub alias: Option<String>,
    pub tags: Option<Vec<String>>,
    pub note: Option<String>,
}

/// One page of the peers of an address book, and how many it has in all.
#[derive(Debug, PartialEq, Eq)]
pub struct PeersResponse {
    pub data: Vec<PeerPayload>,
    pub total: i64,
}

/// A request to delete peers: a batch of ids, and the single id that some
/// clients send.
#[derive(Debug, PartialEq, Eq)]
pub struct DeletePeersRequest {
    pub ids: Vec<String>,
    pub id: Option<String>,
}

/// Which page of peers is asked for, and of which address book.
#[derive(Debug, PartialEq, Eq)]
#[allow(non_snake_case)]
pub struct PeersQuery {
    pub current: i64,
    pub pageSize: i64,
    pub ab: String,
}

/// The page size of a query that names none.
pub fn default_page_size() -> (n: i64)
    ensures
        n == 100,
{
    100
}

} // verus!
