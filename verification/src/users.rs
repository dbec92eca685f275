//! The users of the service as an administrator manages them, and the
//! parts of a login that the store decides.

use vstd::prelude::*;
use crate::access::kind_of;
use crate::auth::{require_admin, Claims};
use crate::error::{ApiError, ErrorKind};
use crate::models::user::{
    CreateUserRequest, LoginResponse, User, UserListItem, UserListItemView, UserPatch, UserPayload,
    UserView,
};
use crate::rows::{
    distinct_by, has_key, increasing_by, lemma_distinct_filter, lemma_distinct_push, lemma_filter_step,
    lemma_increasing_filter, lemma_increasing_push, next_id, views,
};
use crate::store::{lemma_links_ok_same_rows, user_id_key, user_name_key, Store, StoreView};

verus! {

/// A user row as the list of users shows it.
pub open spec fn user_item() -> spec_fn(UserView) -> UserListItemView {
    |u: UserView|
        UserListItemView {
            id: u.id,
            username: u.username,
            name: u.name,
            email: u.email,
            is_admin: u.is_admin,
            status: u.status,
            created_at: u.created_at,
        }
}

/// The patch changes something.
pub open spec fn touches(patch: UserPatch) -> bool {
    patch.name is Some || patch.email is Some || patch.is_admin is Some || patch.status is Some
        || patch.password_hash is Some
}

/// The user `id` with the fields that the patch holds, refreshed at `now`;
/// any other user, and any user under an empty patch, as it is.
pub open spec fn patched(id: i64, patch: UserPatch, now: Seq<char>) -> spec_fn(UserView) -> UserView {
    |u: UserView|
        if u.id == id && touches(patch) {
            UserView {
                name: if patch.name is Some {
                    patch.name->0@
                } else {
                    u.name
                },
                email: if patch.email is Some {
                    patch.email->0@
                } else {
                    u.email
                },
                is_admin: if patch.is_admin is Some {
                    patch.is_admin->0
                } else {
                    u.is_admin
                },
                status: if patch.status is Some {
                    patch.status->0
                } else {
                    u.status
                },
                password_hash: if patch.password_hash is Some {
                    patch.password_hash->0@
                } else {
                    u.password_hash
                },
                updated_at: now,
                ..u
            }
        } else {
            u
        }
}

/// The words that refuse a login name which a user has already.
pub open spec fn username_taken(name: Seq<char>) -> Seq<char> {
    "Username '"@ + name + "' already exists"@
}

/// Every user but `id`.
pub open spec fn not_user(id: i64) -> spec_fn(UserView) -> bool {
    |u: UserView| u.id != id
}

/// The name to show for a user: the display name, or the login name where
/// there is none.
pub open spec fn shown_name(u: UserView) -> Seq<char> {
    if u.name.len() == 0 {
        u.username
    } else {
        u.name
    }
}

impl StoreView {
    /// What creating a user does: a conflict where the login name is
    /// taken, a failure of the store where no row id is left, else a new
    /// active user.
    pub open spec fn create_user(
        self,
        req: CreateUserRequest,
        password_hash: Seq<char>,
        now: Seq<char>,
    ) -> (StoreView, Result<(), ErrorKind>) {
        if has_key(self.users, user_name_key(), req.username@) {
            (self, Err(ErrorKind::Conflict))
        } else if next_id(self.user_ids()) > i64::MAX {
            (self, Err(ErrorKind::Internal))
        } else {
            (
                StoreView {
                    users: self.users.push(
                        UserView {
                            id: next_id(self.user_ids()) as i64,
                            username: req.username@,
                            password_hash,
                            name: req.name@,
                            email: req.email@,
                            is_admin: req.is_admin,
                            status: 1,
                            created_at: now,
                            updated_at: now,
                        },
                    ),
                    ..self
                },
                Ok(()),
            )
        }
    }

    /// The state with the user `id` patched.
    pub open spec fn update_user(self, id: i64, patch: UserPatch, now: Seq<char>) -> StoreView {
        StoreView { users: self.users.map_values(patched(id, patch, now)), ..self }
    }

    /// The state without the user `id`.
    pub open spec fn delete_user(self, id: i64) -> StoreView {
        StoreView { users: self.users.filter(not_user(id)), ..self }
    }

    /// The user with the login name `name` is there and active.
    pub open spec fn can_log_in(self, name: Seq<char>) -> bool {
        exists|i: int|
            0 <= i < self.users.len() && (#[trigger] self.users[i]).username == name && self.users[i].status
                == 1
    }
}

/// A state stays valid when only its users change and the new users obey
/// the rules.
pub proof fn lemma_users_changed(s: StoreView, t: StoreView)
    requires
        s.wf(),
        t == (StoreView { users: t.users, ..s }),
        increasing_by(t.users, user_id_key()),
        distinct_by(t.users, user_name_key()),
    ensures
        t.wf(),
{
    lemma_links_ok_same_rows(s, t);
}

impl Store {
    /// Adds a user with the password hash `password_hash`.
    pub fn insert_user(&mut self, req: &CreateUserRequest, password_hash: String, now: &str) -> (r: Result<
        (),
        ApiError,
    >)
        requires
            old(self).wf(),
        ensures
            final(self).wf(),
            final(self)@ == old(self)@.create_user(*req, password_hash@, now@).0,
            kind_of(r) == old(self)@.create_user(*req, password_hash@, now@).1,
            r is Err && r->Err_0.spec_kind() == ErrorKind::Conflict ==> r->Err_0.detail()
                == username_taken(req.username@),
    {
        if self.find_user_by_name(req.username.as_str()).is_some() {
            return Err(
                ApiError::Conflict(
                    String::from_str("Username '").concat(req.username.as_str()).concat("' already exists"),
                ),
            );
        }
        let id = match self.next_user_id() {
            Some(id) => id,
            None => {
                return Err(ApiError::Internal("no user id is left".to_string()));
            },
        };
        let row = User {
            id,
            username: req.username.clone(),
            password_hash,
            name: req.name.clone(),
            email: req.email.clone(),
            is_admin: req.is_admin,
            status: 1,
            created_at: now.to_string(),
            updated_at: now.to_string(),
        };
        self.users.push(row);
        proof {
            let s = old(self)@;
            assert(self@.users =~= s.users.push(row@));
            assert(s.user_ids() == s.users.map_values(user_id_key()));
            lemma_increasing_push(s.users, user_id_key(), row@);
            lemma_distinct_push(s.users, user_name_key(), row@);
            lemma_users_changed(s, self@);
        }
        Ok(())
    }

    /// Changes the fields of the user `id` that the patch holds; without
    /// such a user nothing changes.
    pub fn patch_user(&mut self, id: i64, patch: &UserPatch, now: &str)
        requires
            old(self).wf(),
        ensures
            final(self).wf(),
            final(self)@ == old(self)@.update_user(id, *patch, now@),
    {
        let ghost s = self@;
        let ghost f = patched(id, *patch, now@);
        let touched = patch.name.is_some() || patch.email.is_some() || patch.is_admin.is_some()
            || patch.status.is_some() || patch.password_hash.is_some();
        let found = self.find_user_by_id(id);
        if touched && found.is_some() {
            let at = found.unwrap();
            let row = User {
                id: self.users[at].id,
                username: self.users[at].username.clone(),
                password_hash: match &patch.password_hash {
                    Some(h) => h.clone(),
                    None => self.users[at].password_hash.clone(),
                },
                name: match &patch.name {
                    Some(n) => n.clone(),
                    None => self.users[at].name.clone(),
                },
                email: match &patch.email {
                    Some(e) => e.clone(),
                    None => self.users[at].email.clone(),
                },
                is_admin: match patch.is_admin {
                    Some(a) => a,
                    None => self.users[at].is_admin,
                },
                status: match patch.status {
                    Some(v) => v,
                    None => self.users[at].status,
                },
                created_at: self.users[at].created_at.clone(),
                updated_at: now.to_string(),
            };
            self.users.set(at, row);
            proof {
                assert forall|j: int| 0 <= j < s.users.len() implies #[trigger] self@.users[j] == f(
                    s.users[j],
                ) by {
                    if j < at {
                        assert(user_id_key()(s.users[j]) < user_id_key()(s.users[at as int]));
                    } else if at < j {
                        assert(user_id_key()(s.users[at as int]) < user_id_key()(s.users[j]));
                    }
                }
            }
        } else {
            proof {
                assert forall|j: int| 0 <= j < s.users.len() implies #[trigger] self@.users[j] == f(
                    s.users[j],
                ) by {
                    if touched {
                        assert(user_id_key()(s.users[j]) != id);
                    }
                }
            }
        }
        proof {
            assert(self@.users =~= s.users.map_values(f));
            let t = self@;
            assert forall|i: int, j: int|
                #![trigger t.users[i], t.users[j]]
                0 <= i < j < t.users.len() implies user_id_key()(t.users[i]) < user_id_key()(t.users[j])
                && user_name_key()(t.users[i]) != user_name_key()(t.users[j]) by {
                assert(user_id_key()(s.users[i]) < user_id_key()(s.users[j]));
                assert(user_name_key()(s.users[i]) != user_name_key()(s.users[j]));
            }
            lemma_users_changed(s, t);
        }
    }

    /// Takes the user `id` out; without such a user nothing changes.
    pub fn remove_user(&mut self, id: i64)
        requires
            old(self).wf(),
        ensures
            final(self).wf(),
            final(self)@ == old(self)@.delete_user(id),
    {
        let ghost s = self@;
        let mut kept: Vec<User> = Vec::new();
        let mut i: usize = 0;
        assert(s.users.take(0).filter(not_user(id)) =~= Seq::empty()) by {
            reveal(Seq::filter);
        }
        assert(views(kept@) =~= Seq::empty());
        while i < self.users.len()
            invariant
                i <= self.users.len(),
                self@ == s,
                views(kept@) == s.users.take(i as int).filter(not_user(id)),
            decreases self.users.len() - i,
        {
            proof {
                lemma_filter_step(s.users, i as int, not_user(id));
            }
            if self.users[i].id != id {
                let ghost before = kept@;
                let row = self.users[i].clone();
                kept.push(row);
                assert(views(kept@) =~= views(before).push(row@));
            }
            i += 1;
        }
        proof {
            assert(s.users.take(i as int) =~= s.users);
            lemma_increasing_filter(s.users, user_id_key(), not_user(id));
            lemma_distinct_filter(s.users, user_name_key(), not_user(id));
        }
        self.users = kept;
        proof {
            lemma_users_changed(s, self@);
        }
    }

    /// The users in ascending order of their ids.
    pub fn user_items(&self) -> (r: Vec<UserListItem>)
        ensures
            views(r@) == self@.users.map_values(user_item()),
    {
        let mut out: Vec<UserListItem> = Vec::new();
        let mut i: usize = 0;
        while i < self.users.len()
            invariant
                i <= self.users.len(),
                out@.len() == i,
                forall|j: int| 0 <= j < i ==> (#[trigger] out@[j])@ == user_item()(self@.users[j]),
            decreases self.users.len() - i,
        {
            let u = &self.users[i];
            out.push(
                UserListItem {
                    id: u.id,
                    username: u.username.clone(),
                    name: u.name.clone(),
                    email: u.email.clone(),
                    is_admin: u.is_admin,
                    status: u.status,
                    created_at: u.created_at.clone(),
                },
            );
            i += 1;
        }
        assert(views(out@) =~= self@.users.map_values(user_item()));
        out
    }
}

/// The user that a store without users is given at its first start: an
/// administrator.
pub open spec fn first_admin(username: Seq<char>, password_hash: Seq<char>, now: Seq<char>) -> UserView {
    UserView {
        id: 1,
        username,
        password_hash,
        name: "Administrator"@,
        email: Seq::empty(),
        is_admin: true,
        status: 1,
        created_at: now,
        updated_at: now,
    }
}

/// Whether the store has any user.
pub fn has_users(store: &Store) -> (r: bool)
    ensures
        r == (store@.users.len() > 0),
{
    store.users.len() > 0
}

/// Gives a store without users its first administrator, and tells whether
/// it did; a store with users stays as it is.
pub fn seed_admin(store: &mut Store, username: &str, password_hash: String, now: &str) -> (seeded: bool)
    requires
        old(store).wf(),
    ensures
        final(store).wf(),
        seeded == (old(store)@.users.len() == 0),
        !seeded ==> final(store)@ == old(store)@,
        seeded ==> final(store)@ == (StoreView {
            users: seq![first_admin(username@, password_hash@, now@)],
            ..old(store)@
        }),
{
    if store.users.len() > 0 {
        return false;
    }
    let row = User {
        id: 1,
        username: username.to_string(),
        password_hash,
        name: "Administrator".to_string(),
        email: String::new(),
        is_admin: true,
        status: 1,
        created_at: now.to_string(),
        updated_at: now.to_string(),
    };
    store.users.push(row);
    proof {
        let s = old(store)@;
        assert(store@.users =~= seq![row@]);
        lemma_users_changed(s, store@);
    }
    true
}

/// The password that a request to change a user sets: the one it gives,
/// unless that is empty, which changes nothing.
pub fn password_to_set(given: Option<String>) -> (r: Option<String>)
    ensures
        r == (if given is Some && given->0@.len() > 0 {
            given
        } else {
            None
        }),
{
    match given {
        Some(password) => {
            if password.as_str().is_empty() {
                None
            } else {
                Some(password)
            }
        },
        None => None,
    }
}

/// The request comes from no administrator and is refused.
pub open spec fn not_admin<T>(r: Result<T, ApiError>) -> bool {
    r is Err && r->Err_0.spec_kind() == ErrorKind::Forbidden && r->Err_0.detail()
        == "Admin access required"@
}

/// Lists the users in ascending order of their ids, for an administrator.
pub fn list_users(store: &Store, claims: &Claims) -> (r: Result<Vec<UserListItem>, ApiError>)
    ensures
        !claims.is_admin ==> not_admin(r),
        claims.is_admin ==> r is Ok && views(r->Ok_0@) == store@.users.map_values(user_item()),
{
    match require_admin(claims) {
        Ok(()) => Ok(store.user_items()),
        Err(e) => Err(e),
    }
}

/// Creates a user, for an administrator. `password_hash` is the hash of
/// the password in the request.
pub fn create_user(
    store: &mut Store,
    claims: &Claims,
    req: &CreateUserRequest,
    password_hash: String,
    now: &str,
) -> (r: Result<(), ApiError>)
    requires
        old(store).wf(),
    ensures
        final(store).wf(),
        !claims.is_admin ==> not_admin(r) && final(store)@ == old(store)@,
        claims.is_admin ==> (final(store)@, kind_of(r)) == old(store)@.create_user(
            *req,
            password_hash@,
            now@,
        ),
        claims.is_admin && r is Err && r->Err_0.spec_kind() == ErrorKind::Conflict ==> r->Err_0.detail()
            == username_taken(req.username@),
{
    match require_admin(claims) {
        Ok(()) => store.insert_user(req, password_hash, now),
        Err(e) => Err(e),
    }
}

/// Changes the fields of a user that the patch holds, for an
/// administrator. Each field that is absent stays as it is.
pub fn update_user(store: &mut Store, claims: &Claims, id: i64, patch: &UserPatch, now: &str) -> (r: Result<
    (),
    ApiError,
>)
    requires
        old(store).wf(),
    ensures
        final(store).wf(),
        !claims.is_admin ==> not_admin(r) && final(store)@ == old(store)@,
        claims.is_admin ==> r is Ok && final(store)@ == old(store)@.update_user(id, *patch, now@),
{
    match require_admin(claims) {
        Ok(()) => {
            store.patch_user(id, patch, now);
            Ok(())
        },
        Err(e) => Err(e),
    }
}

/// Deletes a user, for an administrator, who cannot delete themself.
pub fn delete_user(store: &mut Store, claims: &Claims, id: i64) -> (r: Result<(), ApiError>)
    requires
        old(store).wf(),
    ensures
        final(store).wf(),
        !claims.is_admin ==> not_admin(r) && final(store)@ == old(store)@,
        claims.is_admin && id == claims.user_id ==> r is Err && r->Err_0.spec_kind() == ErrorKind::BadRequest
            && r->Err_0.detail() == "Cannot delete yourself"@ && final(store)@ == old(store)@,
        claims.is_admin && id != claims.user_id ==> r is Ok && final(store)@ == old(store)@.delete_user(id),
{
    match require_admin(claims) {
        Ok(()) => {},
        Err(e) => {
            return Err(e);
        },
    }
    if id == claims.user_id {
        return Err(ApiError::BadRequest("Cannot delete yourself".to_string()));
    }
    store.remove_user(id);
    Ok(())
}

/// The words that refuse a login. They are the same for an unknown name, a
/// disabled user and a wrong password.
pub open spec fn login_refused<T>(r: Result<T, ApiError>) -> bool {
    r is Err && r->Err_0.spec_kind() == ErrorKind::Unauthorized && r->Err_0.detail()
        == "Invalid username or password"@
}

/// The user who tries to log in under `username`, if there is an active
/// one.
pub fn login_candidate(store: &Store, username: &str) -> (r: Result<User, ApiError>)
    requires
        store.wf(),
    ensures
        store@.can_log_in(username@) ==> r is Ok,
        !store@.can_log_in(username@) ==> login_refused(r),
        r is Ok ==> store@.users.contains(r->Ok_0@) && r->Ok_0@.username == username@ && r->Ok_0@.status
            == 1,
{
    match store.find_user_by_name(username) {
        Some(i) => {
            proof {
                assert forall|k: int|
                    0 <= k < store@.users.len() && (#[trigger] store@.users[k]).username
                        == username@ implies k == i by {
                    if k < i {
                        assert(user_name_key()(store@.users[k]) != user_name_key()(store@.users[i as int]));
                    } else if i < k {
                        assert(user_name_key()(store@.users[i as int]) != user_name_key()(store@.users[k]));
                    }
                }
            }
            if store.users[i].status == 1 {
                let u = store.users[i].clone();
                assert(store@.users[i as int] == u@);
                Ok(u)
            } else {
                Err(ApiError::Unauthorized("Invalid username or password".to_string()))
            }
        },
        None => Err(ApiError::Unauthorized("Invalid username or password".to_string())),
    }
}

/// The answer to a login once the password has been compared and, if it
/// matched, a token issued.
pub fn finish_login(user: &User, token: Option<String>) -> (r: Result<LoginResponse, ApiError>)
    ensures
        token is None ==> login_refused(r),
        token is Some ==> r is Ok && r->Ok_0.access_token == token->0 && r->Ok_0.token_type@
            == "access_token"@ && r->Ok_0.user.name@ == shown_name(user@) && r->Ok_0.user.email@
            == user@.email && r->Ok_0.user.is_admin == user.is_admin && r->Ok_0.user.note@ == Seq::<
            char,
        >::empty(),
{
    match token {
        None => Err(ApiError::Unauthorized("Invalid username or password".to_string())),
        Some(access_token) => Ok(
            LoginResponse {
                access_token,
                token_type: "access_token".to_string(),
                user: user_payload(user),
            },
        ),
    }
}

/// A user as a client sees it.
pub fn user_payload(user: &User) -> (r: UserPayload)
    ensures
        r.name@ == shown_name(user@),
        r.email@ == user@.email,
        r.is_admin == user.is_admin,
        r.note@ == Seq::<char>::empty(),
{
    UserPayload {
        name: if user.name.as_str().is_empty() {
            user.username.clone()
        } else {
            user.name.clone()
        },
        email: user.email.clone(),
        is_admin: user.is_admin,
        note: String::new(),
    }
}

/// The caller as a client sees it, or that there is no such user.
pub fn current_user(store: &Store, claims: &Claims) -> (r: Result<UserPayload, ApiError>)
    ensures
        has_key(store@.users, user_id_key(), claims.user_id) ==> r is Ok,
        !has_key(store@.users, user_id_key(), claims.user_id) ==> r is Err && r->Err_0.spec_kind()
            == ErrorKind::NotFound && r->Err_0.detail() == "User not found"@,
        r is Ok ==> exists|i: int|
            0 <= i < store@.users.len() && (#[trigger] store@.users[i]).id == claims.user_id && r->Ok_0.name@
                == shown_name(store@.users[i]) && r->Ok_0.email@ == store@.users[i].email
                && r->Ok_0.is_admin == store@.users[i].is_admin,
{
    match store.find_user_by_id(claims.user_id) {
        Some(i) => {
            let p = user_payload(&store.users[i]);
            assert(store@.users[i as int].id == claims.user_id);
            Ok(p)
        },
        None => Err(ApiError::NotFound("User not found".to_string())),
    }
}

} // verus!
