//! Groups of users, and who belongs to them.

use vstd::prelude::*;

verus! {

/// A group row. Both `id` and `name` are unique in the store.
#[derive(Debug, PartialEq, Eq)]
pub struct Group {
    pub id: i64,
    pub name: String,
    pub note: String,
    pub created_at: String,
}

/// What a group row holds.
pub struct GroupView {
    pub id: i64,
    pub name: Seq<char>,
    pub note: Seq<char>,
    pub created_at: Seq<char>,
}

impl View for Group {
    type V = GroupView;

    open spec fn view(&self) -> GroupView {
        GroupView { id: self.id, name: self.name@, note: self.note@, created_at: self.created_at@ }
    }
}

impl Clone for Group {
    fn clone(&self) -> (r: Self)
        ensures
            r@ == self@,
    {
        Group {
            id: self.id,
            name: self.name.clone(),
            note: self.note.clone(),
            created_at: self.created_at.clone(),
        }
    }
}

/// That a user belongs to a group.
#[derive(Debug, Clone, Copy, PartialEq, Eq, Structural)]
pub struct UserGroup {
    pub user_id: i64,
    pub group_id: i64,
}

/// A group as the list of groups shows it.
#[derive(Debug, PartialEq, Eq)]
pub struct GroupListItem {
    pub id: i64,
    pub name: String,
    pub note: String,
    pub created_at: String,
}

impl View for GroupListItem {
    type V = GroupView;

    open spec fn view(&self) -> GroupView {
        GroupView { id: self.id, name: self.name@, note: self.note@, created_at: self.created_at@ }
    }
}

/// A request to create a group.
#[derive(Debug, PartialEq, Eq)]
pub struct CreateGroupRequest {
    pub name: String,
    pub note: String,
}

/// The fields of a group to change; an absent one is left as it is.
#[derive(Debug, PartialEq, Eq)]
pub struct GroupPatch {
    pub name: Option<String>,
    pub note: Option<String>,
}

} // verus!
