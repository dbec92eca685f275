//! Address books, the grants that share them, and the whole-book document
//! that older clients exchange.

use vstd::prelude::*;
use crate::rows::views;
use crate::text::texts;

verus! {

/// An address-book row. `guid` is unique in the store, and a user owns at
/// most one personal book.
#[derive(Debug, PartialEq, Eq)]
pub struct AddressBook {
    pub guid: String,
    pub name: String,
    pub owner_id: i64,
    pub is_personal: bool,
    pub created_at: String,
}

/// What an address-book row holds.
pub struct AddressBookView {
    pub guid: Seq<char>,
    pub name: Seq<char>,
    pub owner_id: i64,
    pub is_personal: bool,
    pub created_at: Seq<char>,
}

impl View for AddressBook {
    type V = AddressBookView;

    open spec fn view(&self) -> AddressBookView {
        AddressBookView {
            guid: self.guid@,
            name: self.name@,
            owner_id: self.owner_id,
            is_personal: self.is_personal,
            created_at: self.created_at@,
        }
    }
}

impl Clone for AddressBook {
    fn clone(&self) -> (r: Self)
        ensures
            r@ == self@,
    {
        AddressBook {
            guid: self.guid.clone(),
            name: self.name.clone(),
            owner_id: self.owner_id,
            is_personal: self.is_personal,
            created_at: self.created_at.clone(),
        }
    }
}

/// Whom a share is granted to: one user, or every member of one group.
#[derive(Debug, Clone, Copy, PartialEq, Eq, Structural)]
pub enum ShareTarget {
    User(i64),
    Group(i64),
}

/// A grant of an access rule on an address book.
#[derive(Debug, PartialEq, Eq)]
pub struct Share {
    pub ab_guid: String,
    pub target: ShareTarget,
    pub rule: i32,
}

/// What a share row holds.
pub struct ShareView {
    pub ab_guid: Seq<char>,
    pub target: ShareTarget,
    pub rule: i32,
}

impl View for Share {
    type V = ShareView;

    open spec fn view(&self) -> ShareView {
        ShareView { ab_guid: self.ab_guid@, target: self.target, rule: self.rule }
    }
}

impl Clone for Share {
    fn clone(&self) -> (r: Self)
        ensures
            r@ == self@,
    {
        Share { ab_guid: self.ab_guid.clone(), target: self.target, rule: self.rule }
    }
}

/// The answer to a request for the caller's personal address book.
#[derive(Debug, PartialEq, Eq)]
pub struct AbPersonalResponse {
    pub data: AbProfile,
}

/// An address book as a client sees it.
#[derive(Debug, PartialEq, Eq)]
pub struct AbProfile {
    pub guid: String,
    pub name: String,
    pub owner: String,
    pub rule: i32,
    pub note: String,
}

/// What an address-book profile holds.
pub struct AbProfileView {
    pub guid: Seq<char>,
    pub name: Seq<char>,
    pub owner: Seq<char>,
    pub rule: i32,
    pub note: Seq<char>,
}

impl View for AbProfile {
    type V = AbProfileView;

    open spec fn view(&self) -> AbProfileView {
        AbProfileView {
            guid: self.guid@,
            name: self.name@,
            owner: self.owner@,
            rule: self.rule,
            note: self.note@,
        }
    }
}

/// The address books that others share with the caller.
#[derive(Debug, PartialEq, Eq)]
pub struct AbSharedProfilesResponse {
    pub data: Vec<AbProfile>,
    pub total: i64,
}

/// The envelope of a whole-book export: `data` is the document as one
/// string, not a nested object.
#[derive(Debug, PartialEq, Eq)]
pub struct LegacyAbResponse {
    pub data: String,
}

/// The whole-book document: the tag names, the peers with the names of
/// their tags, and the map from tag name to colour, itself written out as a
/// string.
#[derive(Debug, PartialEq, Eq)]
pub struct LegacyAbData {
    pub tags: Vec<String>,
    pub peers: Vec<LegacyPeer>,
    pub tag_colors: String,
}

/// A peer as the whole-book document holds it.
#[derive(Debug, PartialEq, Eq)]
pub struct LegacyPeer {
    pub id: String,
    pub hash: String,
    pub username: String,
    pub hostname: String,
    pub platform: String,
    pub alias: String,
    pub tags: Vec<String>,
}

/// What a peer of the whole-book document holds.
pub struct LegacyPeerView {
    pub id: Seq<char>,
    pub hash: Seq<char>,
    pub username: Seq<char>,
    pub hostname: Seq<char>,
    pub platform: Seq<char>,
    pub alias: Seq<char>,
    pub tags: Seq<Seq<char>>,
}

impl View for LegacyPeer {
    type V = LegacyPeerView;

    open spec fn view(&self) -> LegacyPeerView {
        LegacyPeerView {
            id: self.id@,
            hash: self.hash@,
            username: self.username@,
            hostname: self.hostname@,
            platform: self.platform@,
            alias: self.alias@,
            tags: texts(self.tags@),
        }
    }
}

/// What a whole-book document holds.
pub struct LegacyAbDataView {
    pub tags: Seq<Seq<char>>,
    pub peers: Seq<LegacyPeerView>,
    pub tag_colors: Seq<char>,
}

impl View for LegacyAbData {
    type V = LegacyAbDataView;

    open spec fn view(&self) -> LegacyAbDataView {
        LegacyAbDataView {
            tags: texts(self.tags@),
            peers: views(self.peers@),
            tag_colors: self.tag_colors@,
        }
    }
}

/// A request to replace a whole address book by the document in `data`.
#[derive(Debug, PartialEq, Eq)]
pub struct LegacyAbUpdateRequest {
    pub data: String,
}

} // verus!
