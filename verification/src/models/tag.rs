//! Tags: named, coloured labels of one address book.

use vstd::prelude::*;

verus! {

/// A tag row. `(ab_guid, name)` is unique in the store.
#[derive(Debug, PartialEq, Eq)]
pub struct Tag {
    pub id: i64,
    pub ab_guid: String,
    pub name: String,
    pub color: i64,
}

/// What a tag row holds.
pub struct TagView {
    pub id: i64,
    pub ab_guid: Seq<char>,
    pub name: Seq<char>,
    pub color: i64,
}

impl View for Tag {
    type V = TagView;

    open spec fn view(&self) -> TagView {
        TagView { id: self.id, ab_guid: self.ab_guid@, name: self.name@, color: self.color }
    }
}

impl Clone for Tag {
    fn clone(&self) -> (r: Self)
        ensures
            r@ == self@,
    {
        Tag {
            id: self.id,
            ab_guid: self.ab_guid.clone(),
            name: self.name.clone(),
            color: self.color,
        }
    }
}

/// A tag as a client sees it.
#[derive(Debug, PartialEq, Eq)]
pub struct TagPayload {
    pub name: String,
    pub color: i64,
}

/// What a tag payload holds.
pub struct TagPayloadView {
    pub name: Seq<char>,
    pub color: i64,
}

impl View for TagPayload {
    type V = TagPayloadView;

    open spec fn view(&self) -> TagPayloadView {
        TagPayloadView { name: self.name@, color: self.color }
    }
}

impl Clone for TagPayload {
    fn clone(&self) -> (r: Self)
        ensures
            r@ == self@,
    {
        TagPayload { name: self.name.clone(), color: self.color }
    }
}

/// The answer to a request for the tags of an address book.
#[derive(Debug, PartialEq, Eq)]
pub struct TagsResponse {
    pub data: Vec<TagPayload>,
    pub total: i64,
}

/// A request to add a tag.
#[derive(Debug, PartialEq, Eq)]
pub struct AddTagRequest {
    pub name: String,
    pub color: i64,
}

/// The colour of a tag that was given none: opaque black.
pub open spec fn spec_default_color() -> i64 {
    4278190080
}

/// The colour of a tag that was given none: opaque black.
#[verifier::when_used_as_spec(spec_default_color)]
pub fn default_color() -> (c: i64)
    ensures
        c == spec_default_color(),
        c == 0xFF00_0000,
{
    4278190080
}

/// A request to give a tag another name.
#[derive(Debug, PartialEq, Eq)]
pub struct RenameTagRequest {
    pub old: String,
    pub new: String,
}

/// A request to give a tag another colour.
#[derive(Debug, PartialEq, Eq)]
pub struct UpdateTagColorRequest {
    pub name: String,
    pub color: i64,
}

/// A request to delete tags: a batch of names, and the single name that
/// older clients send.
#[derive(Debug, PartialEq, Eq)]
pub struct DeleteTagRequest {
    pub names: Vec<String>,
    pub name: Option<String>,
}

} // verus!
