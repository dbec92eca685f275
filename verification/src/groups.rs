//! The groups of users as an administrator manages them.

use vstd::prelude::*;
use crate::access::kind_of;
use crate::auth::{require_admin, Claims};
use crate::error::{ApiError, ErrorKind};
use crate::models::group::{CreateGroupRequest, Group, GroupListItem, GroupPatch, GroupView};
use crate::rows::{
    distinct_by, has_key, increasing_by, lemma_distinct_filter, lemma_distinct_push, lemma_filter_step,
    lemma_increasing_filter, lemma_increasing_push, next_id, views,
};
use crate::store::{group_id_key, group_name_key, lemma_links_ok_same_rows, Store, StoreView};
use crate::users::not_admin;

verus! {

/// The group `id` with the fields that the patch holds; any other group as
/// it is.
pub open spec fn regrouped(id: i64, patch: GroupPatch) -> spec_fn(GroupView) -> GroupView {
    |g: GroupView|
        if g.id == id {
            GroupView {
                name: if patch.name is Some {
                    patch.name->0@
                } else {
                    g.name
                },
                note: if patch.note is Some {
                    patch.note->0@
                } else {
                    g.note
                },
                ..g
            }
        } else {
            g
        }
}

/// The words that refuse a group name which a group has already.
pub open spec fn group_taken(name: Seq<char>) -> Seq<char> {
    "Group '"@ + name + "' already exists"@
}

/// Every group but `id`.
pub open spec fn not_group(id: i64) -> spec_fn(GroupView) -> bool {
    |g: GroupView| g.id != id
}

impl StoreView {
    /// What creating a group does: a conflict where the name is taken, a
    /// failure of the store where no row id is left, else a new group.
    pub open spec fn create_group(self, req: CreateGroupRequest, now: Seq<char>) -> (
        StoreView,
        Result<(), ErrorKind>,
    ) {
        if has_key(self.groups, group_name_key(), req.name@) {
            (self, Err(ErrorKind::Conflict))
        } else if next_id(self.group_ids()) > i64::MAX {
            (self, Err(ErrorKind::Internal))
        } else {
            (
                StoreView {
                    groups: self.groups.push(
                        GroupView {
                            id: next_id(self.group_ids()) as i64,
                            name: req.name@,
                            note: req.note@,
                            created_at: now,
                        },
                    ),
                    ..self
                },
                Ok(()),
            )
        }
    }

    /// Another group than `id` goes by the name `name`.
    pub open spec fn name_taken_by_other(self, id: i64, name: Seq<char>) -> bool {
        exists|i: int|
            0 <= i < self.groups.len() && (#[trigger] self.groups[i]).name == name && self.groups[i].id != id
    }

    /// What patching a group does: nothing where there is no such group; a
    /// conflict where the new name belongs to another group; else the group
    /// gets the fields that the patch holds.
    pub open spec fn update_group(self, id: i64, patch: GroupPatch) -> (StoreView, Result<(), ErrorKind>) {
        if !has_key(self.groups, group_id_key(), id) {
            (self, Ok(()))
        } else if patch.name is Some && self.name_taken_by_other(id, patch.name->0@) {
            (self, Err(ErrorKind::Conflict))
        } else {
            (StoreView { groups: self.groups.map_values(regrouped(id, patch)), ..self }, Ok(()))
        }
    }

    /// The state without the group `id`.
    pub open spec fn delete_group(self, id: i64) -> StoreView {
        StoreView { groups: self.groups.filter(not_group(id)), ..self }
    }
}

/// A state stays valid when only its groups change and the new groups obey
/// the rules.
pub proof fn lemma_groups_changed(s: StoreView, t: StoreView)
    requires
        s.wf(),
        t == (StoreView { groups: t.groups, ..s }),
        increasing_by(t.groups, group_id_key()),
        distinct_by(t.groups, group_name_key()),
    ensures
        t.wf(),
{
    lemma_links_ok_same_rows(s, t);
}

impl Store {
    /// Adds a group.
    pub fn insert_group(&mut self, req: &CreateGroupRequest, now: &str) -> (r: Result<(), ApiError>)
        requires
            old(self).wf(),
        ensures
            final(self).wf(),
            final(self)@ == old(self)@.create_group(*req, now@).0,
            kind_of(r) == old(self)@.create_group(*req, now@).1,
            r is Err && r->Err_0.spec_kind() == ErrorKind::Conflict ==> r->Err_0.detail() == group_taken(
                req.name@,
            ),
    {
        if self.find_group_by_name(req.name.as_str()).is_some() {
            return Err(
                ApiError::Conflict(
                    String::from_str("Group '").concat(req.name.as_str()).concat("' already exists"),
                ),
            );
        }
        let id = match self.next_group_id() {
            Some(id) => id,
            None => {
                return Err(ApiError::Internal("no group id is left".to_string()));
            },
        };
        let row = Group { id, name: req.name.clone(), note: req.note.clone(), created_at: now.to_string() };
        self.groups.push(row);
        proof {
            let s = old(self)@;
            assert(self@.groups =~= s.groups.push(row@));
            assert(s.group_ids() == s.groups.map_values(group_id_key()));
            lemma_increasing_push(s.groups, group_id_key(), row@);
            lemma_distinct_push(s.groups, group_name_key(), row@);
            lemma_groups_changed(s, self@);
        }
        Ok(())
    }

    /// Changes the fields of the group `id` that the patch holds.
    pub fn patch_group(&mut self, id: i64, patch: &GroupPatch) -> (r: Result<(), ApiError>)
        requires
            old(self).wf(),
        ensures
            final(self).wf(),
            final(self)@ == old(self)@.update_group(id, *patch).0,
            kind_of(r) == old(self)@.update_group(id, *patch).1,
            r is Err ==> patch.name is Some && r->Err_0.detail() == group_taken(patch.name->0@),
    {
        let ghost s = self@;
        let ghost f = regrouped(id, *patch);
        let at = match self.find_group_by_id(id) {
            Some(at) => at,
            None => {
                return Ok(());
            },
        };
        proof {
            assert forall|j: int| 0 <= j < s.groups.len() && j != at implies (#[trigger] s.groups[j]).id
                != id by {
                if j < at {
                    assert(group_id_key()(s.groups[j]) < group_id_key()(s.groups[at as int]));
                } else {
                    assert(group_id_key()(s.groups[at as int]) < group_id_key()(s.groups[j]));
                }
            }
        }
        match &patch.name {
            Some(name) => {
                match self.find_group_by_name(name.as_str()) {
                    Some(other) => {
                        if other != at {
                            assert(s.groups[other as int].name == name@);
                            return Err(
                                ApiError::Conflict(
                                    String::from_str("Group '").concat(name.as_str()).concat(
                                        "' already exists",
                                    ),
                                ),
                            );
                        }
                        proof {
                            assert forall|j: int|
                                0 <= j < s.groups.len() && (#[trigger] s.groups[j]).name
                                    == name@ implies j == at by {
                                if j < at {
                                    assert(group_name_key()(s.groups[j]) != group_name_key()(
                                        s.groups[at as int],
                                    ));
                                } else if at < j {
                                    assert(group_name_key()(s.groups[at as int]) != group_name_key()(
                                        s.groups[j],
                                    ));
                                }
                            }
                        }
                    },
                    None => {
                        proof {
                            assert forall|j: int| 0 <= j < s.groups.len() implies (#[trigger] s.groups[j]).name
                                != name@ by {
                                assert(group_name_key()(s.groups[j]) != name@);
                            }
                        }
                    },
                }
            },
            None => {},
        }
        let row = Group {
            id: self.groups[at].id,
            name: match &patch.name {
                Some(n) => n.clone(),
                None => self.groups[at].name.clone(),
            },
            note: match &patch.note {
                Some(n) => n.clone(),
                None => self.groups[at].note.clone(),
            },
            created_at: self.groups[at].created_at.clone(),
        };
        self.groups.set(at, row);
        proof {
            assert forall|j: int| 0 <= j < s.groups.len() implies #[trigger] self@.groups[j] == f(
                s.groups[j],
            ) by {}
            assert(self@.groups =~= s.groups.map_values(f));
            let t = self@;
            assert forall|i: int, j: int|
                #![trigger t.groups[i], t.groups[j]]
                0 <= i < j < t.groups.len() implies group_id_key()(t.groups[i]) < group_id_key()(t.groups[j])
                && group_name_key()(t.groups[i]) != group_name_key()(t.groups[j]) by {
                assert(group_id_key()(s.groups[i]) < group_id_key()(s.groups[j]));
                assert(group_name_key()(s.groups[i]) != group_name_key()(s.groups[j]));
            }
            lemma_groups_changed(s, t);
        }
        Ok(())
    }

    /// Takes the group `id` out; without such a group nothing changes.
    pub fn remove_group(&mut self, id: i64)
        requires
            old(self).wf(),
        ensures
            final(self).wf(),
            final(self)@ == old(self)@.delete_group(id),
    {
        let ghost s = self@;
        let mut kept: Vec<Group> = Vec::new();
        let mut i: usize = 0;
        assert(s.groups.take(0).filter(not_group(id)) =~= Seq::empty()) by {
            reveal(Seq::filter);
        }
        assert(views(kept@) =~= Seq::empty());
        while i < self.groups.len()
            invariant
                i <= self.groups.len(),
                self@ == s,
                views(kept@) == s.groups.take(i as int).filter(not_group(id)),
            decreases self.groups.len() - i,
        {
            proof {
                lemma_filter_step(s.groups, i as int, not_group(id));
            }
            if self.groups[i].id != id {
                let ghost before = kept@;
                let row = self.groups[i].clone();
                kept.push(row);
                assert(views(kept@) =~= views(before).push(row@));
            }
            i += 1;
        }
        proof {
            assert(s.groups.take(i as int) =~= s.groups);
            lemma_increasing_filter(s.groups, group_id_key(), not_group(id));
            lemma_distinct_filter(s.groups, group_name_key(), not_group(id));
        }
        self.groups = kept;
        proof {
            lemma_groups_changed(s, self@);
        }
    }

    /// The groups in ascending order of their ids.
    pub fn group_items(&self) -> (r: Vec<GroupListItem>)
        ensures
            views(r@) == self@.groups,
    {
        let mut out: Vec<GroupListItem> = Vec::new();
        let mut i: usize = 0;
        while i < self.groups.len()
            invariant
                i <= self.groups.len(),
                out@.len() == i,
                forall|j: int| 0 <= j < i ==> (#[trigger] out@[j])@ == self@.groups[j],
            decreases self.groups.len() - i,
        {
            let g = &self.groups[i];
            out.push(
                GroupListItem {
                    id: g.id,
                    name: g.name.clone(),
                    note: g.note.clone(),
                    created_at: g.created_at.clone(),
                },
            );
            i += 1;
        }
        assert(views(out@) =~= self@.groups);
        out
    }
}

/// Lists the groups in ascending order of their ids, for an administrator.
pub fn list_groups(store: &Store, claims: &Claims) -> (r: Result<Vec<GroupListItem>, ApiError>)
    ensures
        !claims.is_admin ==> not_admin(r),
        claims.is_admin ==> r is Ok && views(r->Ok_0@) == store@.groups,
{
    match require_admin(claims) {
        Ok(()) => Ok(store.group_items()),
        Err(e) => Err(e),
    }
}

/// Creates a group, for an administrator. A name that a group has is a
/// conflict.
pub fn create_group(store: &mut Store, claims: &Claims, req: &CreateGroupRequest, now: &str) -> (r: Result<
    (),
    ApiError,
>)
    requires
        old(store).wf(),
    ensures
        final(store).wf(),
        !claims.is_admin ==> not_admin(r) && final(store)@ == old(store)@,
        claims.is_admin ==> (final(store)@, kind_of(r)) == old(store)@.create_group(*req, now@),
        claims.is_admin && r is Err && r->Err_0.spec_kind() == ErrorKind::Conflict ==> r->Err_0.detail()
            == group_taken(req.name@),
{
    match require_admin(claims) {
        Ok(()) => store.insert_group(req, now),
        Err(e) => Err(e),
    }
}

/// Changes the name or the note of a group, for an administrator. A name
/// that another group has is a conflict.
pub fn update_group(store: &mut Store, claims: &Claims, id: i64, patch: &GroupPatch) -> (r: Result<
    (),
    ApiError,
>)
    requires
        old(store).wf(),
    ensures
        final(store).wf(),
        !claims.is_admin ==> not_admin(r) && final(store)@ == old(store)@,
        claims.is_admin ==> (final(store)@, kind_of(r)) == old(store)@.update_group(id, *patch),
        claims.is_admin && r is Err ==> patch.name is Some && r->Err_0.detail() == group_taken(
            patch.name->0@,
        ),
{
    match require_admin(claims) {
        Ok(()) => store.patch_group(id, patch),
        Err(e) => Err(e),
    }
}

/// Deletes a group, for an administrator.
pub fn delete_group(store: &mut Store, claims: &Claims, id: i64) -> (r: Result<(), ApiError>)
    requires
        old(store).wf(),
    ensures
        final(store).wf(),
        !claims.is_admin ==> not_admin(r) && final(store)@ == old(store)@,
        claims.is_admin ==> r is Ok && final(store)@ == old(store)@.delete_group(id),
{
    match require_admin(claims) {
        Ok(()) => {
            store.remove_group(id);
            Ok(())
        },
        Err(e) => Err(e),
    }
}

} // verus!
