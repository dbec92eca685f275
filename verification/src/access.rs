//! Which address book a request acts on, and whether its caller may.

use vstd::prelude::*;
use crate::auth::Claims;
use crate::error::{ApiError, ErrorKind};
use crate::models::address_book::{AbPersonalResponse, AbProfile, AddressBook, AddressBookView};
use crate::rows::lemma_distinct_push;
use crate::store::{book_key, lemma_links_ok_same_rows, Store, StoreView};

verus! {

/// The state `s` with a new personal address book `guid` for `user`.
pub open spec fn with_personal(s: StoreView, user: i64, guid: Seq<char>, now: Seq<char>) -> StoreView {
    StoreView {
        address_books: s.address_books.push(
            AddressBookView { guid, name: "Personal"@, owner_id: user, is_personal: true, created_at: now },
        ),
        ..s
    }
}

/// What making sure of a personal address book does, where `fresh` is the
/// identifier at hand for a new one: the state it leaves, and the personal
/// address book of `user` or the kind of failure.
pub open spec fn spec_ensure_personal(s: StoreView, user: i64, fresh: Seq<char>, now: Seq<char>) -> (
    StoreView,
    Result<Seq<char>, ErrorKind>,
) {
    if s.has_personal(user) {
        (s, Ok(s.personal_guid(user)))
    } else if s.has_book(fresh) {
        (s, Err(ErrorKind::Conflict))
    } else {
        (with_personal(s, user, fresh, now), Ok(fresh))
    }
}

/// The number of characters of a newly drawn identifier.
pub open spec fn fresh_len() -> nat {
    36
}

/// Some address book goes by an identifier of the shape of a newly drawn
/// one. Only then can drawing an identifier for a new address book fail.
pub open spec fn may_collide(s: StoreView) -> bool {
    exists|f: Seq<char>| f.len() == fresh_len() && #[trigger] s.has_book(f)
}

/// A request of `user` that names `guid` (or nothing) acts on the address
/// book `g`: the one named, or the caller's personal one, or else a new
/// one under a newly drawn identifier that no address book had.
pub open spec fn resolves(s: StoreView, user: i64, guid: Seq<char>, g: Seq<char>) -> bool {
    if guid.len() > 0 {
        s.can_access(user, guid) && g == guid
    } else if s.has_personal(user) {
        g == s.personal_guid(user)
    } else {
        !s.has_book(g) && g.len() == fresh_len()
    }
}

/// The state after a request of `user` that names `guid` (or nothing) was
/// resolved to `g`: a personal address book `g` is new in it if the request
/// named nothing and the user had none.
pub open spec fn after_resolve(
    s: StoreView,
    user: i64,
    guid: Seq<char>,
    now: Seq<char>,
    g: Seq<char>,
) -> StoreView {
    if guid.len() == 0 && !s.has_personal(user) {
        with_personal(s, user, g, now)
    } else {
        s
    }
}

/// The answer to a request that may not act on the address book it names.
/// It is the same whether that address book exists or not.
pub open spec fn denied(r: Result<String, ApiError>) -> bool {
    r is Err && r->Err_0.spec_kind() == ErrorKind::Forbidden && r->Err_0.detail()
        == "Access denied to this address book"@
}

/// The address book that a request acted on, read off the state it left:
/// the one it named, or else the caller's personal one.
pub open spec fn acted_on(after: StoreView, user: i64, guid: Seq<char>) -> Seq<char> {
    if guid.len() > 0 {
        guid
    } else {
        after.personal_guid(user)
    }
}

/// The state in which a request that was let through is carried out: the
/// state before it, with the caller's personal address book if that had to
/// be made.
pub open spec fn entered(
    s: StoreView,
    user: i64,
    guid: Seq<char>,
    now: Seq<char>,
    after: StoreView,
) -> StoreView {
    after_resolve(s, user, guid, now, acted_on(after, user, guid))
}

/// The request was let through to the address book that `after` shows.
pub open spec fn let_through(s: StoreView, user: i64, guid: Seq<char>, after: StoreView) -> bool {
    resolves(s, user, guid, acted_on(after, user, guid))
}

/// The request was turned away and nothing changed: it named an address
/// book that the caller may not act on, or it named none and no personal
/// address book could be found or made for the caller, which happens only
/// where the identifier drawn for a new one is taken.
pub open spec fn turned_away<T>(
    s: StoreView,
    user: i64,
    guid: Seq<char>,
    after: StoreView,
    r: Result<T, ApiError>,
) -> bool {
    &&& r is Err
    &&& after == s
    &&& if guid.len() > 0 {
        &&& !s.can_access(user, guid)
        &&& r->Err_0.spec_kind() == ErrorKind::Forbidden
        &&& r->Err_0.detail() == "Access denied to this address book"@
    } else {
        &&& !s.has_personal(user)
        &&& may_collide(s)
        &&& r->Err_0.spec_kind() == ErrorKind::NotFound
        &&& r->Err_0.detail() == "No personal address book found"@
    }
}

/// A request that is sure to be let through: it names an address book
/// that the caller may act on, or it names none and the caller has a
/// personal address book or is sure to get one.
pub open spec fn welcome(s: StoreView, user: i64, guid: Seq<char>) -> bool {
    if guid.len() > 0 {
        s.can_access(user, guid)
    } else {
        s.has_personal(user) || !may_collide(s)
    }
}

/// The kind of failure of a result, or that it is none.
pub open spec fn kind_of<T>(r: Result<T, ApiError>) -> Result<(), ErrorKind> {
    match r {
        Ok(_) => Ok(()),
        Err(e) => Err(e.spec_kind()),
    }
}

/// A personal address book that is new keeps a valid state valid.
pub proof fn lemma_with_personal_wf(s: StoreView, user: i64, guid: Seq<char>, now: Seq<char>)
    requires
        s.wf(),
        !s.has_personal(user),
        !s.has_book(guid),
    ensures
        with_personal(s, user, guid, now).wf(),
        with_personal(s, user, guid, now).is_personal_of(user, guid),
        with_personal(s, user, guid, now).has_personal(user),
        with_personal(s, user, guid, now).personal_guid(user) == guid,
        with_personal(s, user, guid, now).owns(user, guid),
{
    let row = AddressBookView { guid, name: "Personal"@, owner_id: user, is_personal: true, created_at: now };
    let t = with_personal(s, user, guid, now);
    lemma_distinct_push(s.address_books, book_key(), row);
    let n = s.address_books.len() as int;
    assert(t.address_books[n] == row);
    assert forall|i: int, j: int|
        #![trigger t.address_books[i], t.address_books[j]]
        0 <= i < j < t.address_books.len() && t.address_books[i].is_personal
            && t.address_books[j].is_personal implies t.address_books[i].owner_id
        != t.address_books[j].owner_id by {
        if j < n {
            assert(s.address_books[i].owner_id != s.address_books[j].owner_id);
        } else {
            assert(s.address_books[i].is_personal);
        }
    }
    lemma_links_ok_same_rows(s, t);
    lemma_personal_is_unique(t, user, guid);
}

/// In a valid state a user has no second personal address book.
pub proof fn lemma_personal_is_unique(s: StoreView, user: i64, guid: Seq<char>)
    requires
        s.wf(),
        s.is_personal_of(user, guid),
    ensures
        s.has_personal(user),
        s.personal_guid(user) == guid,
{
    let i = choose|i: int|
        0 <= i < s.address_books.len() && (#[trigger] s.address_books[i]).owner_id == user
            && s.address_books[i].is_personal && s.address_books[i].guid == guid;
    assert(s.address_books[i].owner_id == user);
    let k = choose|k: int|
        0 <= k < s.address_books.len() && (#[trigger] s.address_books[k]).owner_id == user
            && s.address_books[k].is_personal;
    if k < i {
        assert(s.address_books[k].owner_id != s.address_books[i].owner_id);
    } else if i < k {
        assert(s.address_books[i].owner_id != s.address_books[k].owner_id);
    }
}

/// The words that refuse an identifier which an address book has already.
pub open spec fn taken(guid: Seq<char>) -> Seq<char> {
    "Address book '"@ + guid + "' already exists"@
}

/// A new identifier for an address book: what `uuid::Uuid::new_v4` draws,
/// written as `to_string` writes it, in 36 characters. Nothing else is
/// claimed of it: it is random.
#[verifier::external_body]
fn fresh_guid() -> (guid: String)
    ensures
        guid@.len() == fresh_len(),
{
    uuid::Uuid::new_v4().to_string()
}

/// Makes sure that `user` has a personal address book, with `fresh` as the
/// identifier of a new one, and returns its identifier.
///
/// A user who has one keeps it and the state stays as it is. Otherwise a
/// book named "Personal" is created under `fresh`, unless that identifier
/// is taken, which is a conflict.
pub fn ensure_personal_with(store: &mut Store, user_id: i64, fresh: String, now: &str) -> (r: Result<
    String,
    ApiError,
>)
    requires
        old(store).wf(),
    ensures
        final(store).wf(),
        final(store)@ == spec_ensure_personal(old(store)@, user_id, fresh@, now@).0,
        match r {
            Ok(g) => spec_ensure_personal(old(store)@, user_id, fresh@, now@).1 == Ok::<Seq<char>, ErrorKind>(g@),
            Err(e) => spec_ensure_personal(old(store)@, user_id, fresh@, now@).1 == Err::<
                Seq<char>,
                ErrorKind,
            >(e.spec_kind()),
        },
        r is Ok ==> final(store)@.is_personal_of(user_id, r->Ok_0@),
        r is Err ==> r->Err_0.detail() == taken(fresh@),
{
    match store.find_personal(user_id) {
        Some(i) => {
            let guid = store.address_books[i].guid.clone();
            proof {
                assert(store@.address_books[i as int].owner_id == user_id);
                lemma_personal_is_unique(store@, user_id, guid@);
            }
            Ok(guid)
        },
        None => {
            if store.find_book(fresh.as_str()).is_some() {
                return Err(
                    ApiError::Conflict(
                        String::from_str("Address book '").concat(fresh.as_str()).concat("' already exists"),
                    ),
                );
            }
            let book = AddressBook {
                guid: fresh.clone(),
                name: "Personal".to_string(),
                owner_id: user_id,
                is_personal: true,
                created_at: now.to_string(),
            };
            store.address_books.push(book);
            proof {
                assert(store@.address_books =~= old(store)@.address_books.push(book@));
                assert(store@ == with_personal(old(store)@, user_id, fresh@, now@));
                lemma_with_personal_wf(old(store)@, user_id, fresh@, now@);
            }
            Ok(fresh)
        },
    }
}

/// Makes sure that `user` has a personal address book and returns its
/// identifier.
///
/// A user who has one keeps it and the state stays as it is. Otherwise a
/// book named "Personal" is created under a newly drawn identifier; should
/// that identifier be taken already, the call fails with a conflict and
/// changes nothing.
pub fn ensure_personal_ab(store: &mut Store, user_id: i64, now: &str) -> (r: Result<String, ApiError>)
    requires
        old(store).wf(),
    ensures
        final(store).wf(),
        old(store)@.has_personal(user_id) || !may_collide(old(store)@) ==> r is Ok,
        !old(store)@.has_personal(user_id) && r is Ok ==> r->Ok_0@.len() == fresh_len(),
        match r {
            Ok(g) => {
                &&& resolves(old(store)@, user_id, Seq::empty(), g@)
                &&& final(store)@ == after_resolve(old(store)@, user_id, Seq::empty(), now@, g@)
                &&& final(store)@.is_personal_of(user_id, g@)
            },
            Err(e) => {
                &&& final(store)@ == old(store)@
                &&& !old(store)@.has_personal(user_id)
                &&& may_collide(old(store)@)
                &&& e.spec_kind() == ErrorKind::Conflict
                &&& exists|f: Seq<char>|
                    f.len() == fresh_len() && #[trigger] old(store)@.has_book(f) && e.detail() == taken(f)
            },
        },
{
    if store.find_personal(user_id).is_some() {
        ensure_personal_with(store, user_id, String::new(), now)
    } else {
        let fresh = fresh_guid();
        ensure_personal_with(store, user_id, fresh, now)
    }
}

/// Whether `user` may act on the address book `guid`.
pub fn may_access(store: &Store, user_id: i64, guid: &str) -> (r: bool)
    requires
        store.wf(),
    ensures
        r == store@.can_access(user_id, guid@),
{
    let at = match store.find_book(guid) {
        Some(i) => i,
        None => {
            return false;
        },
    };
    if store.address_books[at].owner_id == user_id {
        assert(store@.address_books[at as int].guid == guid@);
        return true;
    }
    proof {
        assert forall|k: int|
            0 <= k < store@.address_books.len() && (#[trigger] store@.address_books[k]).guid
                == guid@ implies store@.address_books[k].owner_id != user_id by {
            if k < at {
                assert(book_key()(store@.address_books[k]) != book_key()(store@.address_books[at as int]));
            } else if at < k {
                assert(book_key()(store@.address_books[at as int]) != book_key()(store@.address_books[k]));
            }
        }
    }
    assert(!store@.owns(user_id, guid@));
    let mut i: usize = 0;
    while i < store.shares.len()
        invariant
            i <= store.shares.len(),
            store@.has_book(guid@),
            !store@.owns(user_id, guid@),
            forall|j: int|
                0 <= j < i ==> !((#[trigger] store@.shares[j]).ab_guid == guid@ && store@.reaches(
                    store@.shares[j],
                    user_id,
                )),
        decreases store.shares.len() - i,
    {
        if crate::text::text_eq(store.shares[i].ab_guid.as_str(), guid) {
            let hit = match store.shares[i].target {
                crate::models::address_book::ShareTarget::User(u) => u == user_id,
                crate::models::address_book::ShareTarget::Group(g) => store.is_member(user_id, g),
            };
            if hit {
                assert(store@.shares[i as int].ab_guid == guid@);
                assert(store@.reaches(store@.shares[i as int], user_id));
                return true;
            }
        }
        i += 1;
    }
    false
}

/// Resolves the address book that a request of `user` acts on.
///
/// A request that names none acts on the caller's personal address book,
/// which is created if there is none yet; should that fail, none is found.
/// One that names `ab_guid` acts on it if the caller owns it or a share of
/// it reaches the caller, directly or through a group; otherwise it is
/// refused, in the same words whether the address book exists or not.
pub fn resolve_ab_guid(store: &mut Store, user_id: i64, ab_guid: &str, now: &str) -> (r: Result<
    String,
    ApiError,
>)
    requires
        old(store).wf(),
    ensures
        final(store).wf(),
        ab_guid@.len() > 0 && old(store)@.can_access(user_id, ab_guid@) ==> r is Ok,
        ab_guid@.len() > 0 && !old(store)@.can_access(user_id, ab_guid@) ==> denied(r),
        ab_guid@.len() == 0 && (old(store)@.has_personal(user_id) || !may_collide(old(store)@)) ==> r is Ok,
        ab_guid@.len() == 0 && !old(store)@.has_personal(user_id) && r is Ok ==> r->Ok_0@.len()
            == fresh_len(),
        match r {
            Ok(g) => {
                &&& resolves(old(store)@, user_id, ab_guid@, g@)
                &&& final(store)@ == after_resolve(old(store)@, user_id, ab_guid@, now@, g@)
                &&& final(store)@.can_access(user_id, g@)
                &&& g@ == acted_on(final(store)@, user_id, ab_guid@)
            },
            Err(e) => turned_away(old(store)@, user_id, ab_guid@, final(store)@, r),
        },
{
    if ab_guid.is_empty() {
        let found = match ensure_personal_ab(store, user_id, now) {
            Ok(g) => g,
            Err(_) => {
                return Err(ApiError::NotFound("No personal address book found".to_string()));
            },
        };
        proof {
            let g = found@;
            let i = choose|i: int|
                0 <= i < store@.address_books.len() && (#[trigger] store@.address_books[i]).owner_id
                    == user_id && store@.address_books[i].is_personal && store@.address_books[i].guid == g;
            assert(store@.address_books[i].guid == g);
            assert(store@.owns(user_id, g));
            lemma_personal_is_unique(store@, user_id, g);
        }
        return Ok(found);
    }
    if !may_access(store, user_id, ab_guid) {
        return Err(ApiError::Forbidden("Access denied to this address book".to_string()));
    }
    Ok(ab_guid.to_string())
}

/// The caller's personal address book as a profile: the caller owns it and
/// has full control (rule 3). It is created if there is none yet.
pub fn get_personal(store: &mut Store, claims: &Claims, now: &str) -> (r: Result<
    AbPersonalResponse,
    ApiError,
>)
    requires
        old(store).wf(),
    ensures
        final(store).wf(),
        welcome(old(store)@, claims.user_id, Seq::empty()) ==> r is Ok,
        turned_away(old(store)@, claims.user_id, Seq::empty(), final(store)@, r) || {
            &&& let_through(old(store)@, claims.user_id, Seq::empty(), final(store)@)
            &&& final(store)@ == entered(old(store)@, claims.user_id, Seq::empty(), now@, final(store)@)
            &&& r is Ok
            &&& r->Ok_0.data.guid@ == final(store)@.personal_guid(claims.user_id)
            &&& r->Ok_0.data.name@ == "Personal"@
            &&& r->Ok_0.data.owner@ == claims.sub@
            &&& r->Ok_0.data.rule == 3
            &&& r->Ok_0.data.note@ == Seq::<char>::empty()
        },
{
    proof {
        reveal_strlit("");
    }
    let guid = match resolve_ab_guid(store, claims.user_id, "", now) {
        Ok(g) => g,
        Err(e) => {
            return Err(e);
        },
    };
    Ok(
        AbPersonalResponse {
            data: AbProfile {
                guid,
                name: "Personal".to_string(),
                owner: claims.sub.clone(),
                rule: 3,
                note: String::new(),
            },
        },
    )
}

} // verus!
