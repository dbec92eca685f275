//! The address books that others share with a user.

use vstd::prelude::*;
use crate::models::address_book::{
    AbProfile, AbProfileView, AbSharedProfilesResponse, AddressBookView, ShareTarget,
};
use crate::rows::{
    distinct_by, has_key, lemma_distinct_filter, lemma_filter_keeps, lemma_filter_origin,
    lemma_filter_step, views,
};
use crate::store::{book_key, user_id_key, Store, StoreView};
use crate::tags::{reported_total, total_of};
use crate::text::text_eq;

verus! {

/// The identifier of an address book that a profile shows.
pub open spec fn profile_guid() -> spec_fn(AbProfileView) -> Seq<char> {
    |p: AbProfileView| p.guid
}

impl StoreView {
    /// The login name of the user `id`, or the empty text where no such
    /// user is left.
    pub open spec fn username_of(self, id: i64) -> Seq<char> {
        if has_key(self.users, user_id_key(), id) {
            let i = choose|i: int| 0 <= i < self.users.len() && user_id_key()(#[trigger] self.users[i]) == id;
            self.users[i].username
        } else {
            Seq::empty()
        }
    }

    /// The share at `i` is one of the address book `guid` and reaches
    /// `user`, directly or through a group.
    pub open spec fn grants(self, user: i64, guid: Seq<char>, i: int) -> bool {
        0 <= i < self.shares.len() && self.shares[i].ab_guid == guid && self.reaches(self.shares[i], user)
    }

    /// The greatest rule among those of the first `n` shares that grant
    /// `user` the address book `guid`, if any of them does.
    pub open spec fn best_rule(self, user: i64, guid: Seq<char>, n: int) -> Option<i32>
        decreases n,
    {
        if n <= 0 {
            None
        } else {
            let before = self.best_rule(user, guid, n - 1);
            if self.grants(user, guid, n - 1) && (before is None || before->0 < self.shares[n - 1].rule) {
                Some(self.shares[n - 1].rule)
            } else {
                before
            }
        }
    }

    /// `rule` is what `user` is granted on the address book `guid`: some
    /// share that reaches the user grants it, and none grants more.
    pub open spec fn is_granted_rule(self, user: i64, guid: Seq<char>, rule: i32) -> bool {
        &&& exists|i: int| #[trigger] self.grants(user, guid, i) && self.shares[i].rule == rule
        &&& forall|i: int| #[trigger] self.grants(user, guid, i) ==> self.shares[i].rule <= rule
    }

    /// The rule that `user` is granted on the address book `guid`: the
    /// greatest of the rules of the shares of it that reach the user.
    pub open spec fn granted_rule(self, user: i64, guid: Seq<char>) -> i32 {
        match self.best_rule(user, guid, self.shares.len() as int) {
            Some(rule) => rule,
            None => 0,
        }
    }

    /// The address books that show up in the list of `user`: those that
    /// are not personal and of which some share reaches the user.
    pub open spec fn book_listed(self, user: i64) -> spec_fn(AddressBookView) -> bool {
        |b: AddressBookView| !b.is_personal && self.shared_with(user, b.guid)
    }

    /// The address book `guid` shows up in the list of `user`.
    pub open spec fn lists_book(self, user: i64, guid: Seq<char>) -> bool {
        exists|i: int|
            0 <= i < self.address_books.len() && (#[trigger] self.address_books[i]).guid == guid
                && !self.address_books[i].is_personal && self.shared_with(user, guid)
    }

    /// An address book as the list of `user` shows it: with the name of its
    /// owner and the rule that the user is granted on it.
    pub open spec fn shared_profile(self, user: i64) -> spec_fn(AddressBookView) -> AbProfileView {
        |b: AddressBookView|
            AbProfileView {
                guid: b.guid,
                name: b.name,
                owner: self.username_of(b.owner_id),
                rule: self.granted_rule(user, b.guid),
                note: Seq::empty(),
            }
    }

    /// The address books shared with `user`, each once, in the order of
    /// the address books.
    pub open spec fn shared_profiles(self, user: i64) -> Seq<AbProfileView> {
        self.address_books.filter(self.book_listed(user)).map_values(self.shared_profile(user))
    }
}

/// What the greatest rule among the first `n` shares is like: there is
/// none exactly if none of them grants the address book to the user, and
/// otherwise one of them grants it and none grants more.
pub proof fn lemma_best_rule(s: StoreView, user: i64, guid: Seq<char>, n: int)
    requires
        0 <= n <= s.shares.len(),
    ensures
        match s.best_rule(user, guid, n) {
            Some(rule) => {
                &&& exists|i: int| 0 <= i < n && #[trigger] s.grants(user, guid, i) && s.shares[i].rule == rule
                &&& forall|i: int| 0 <= i < n && #[trigger] s.grants(user, guid, i) ==> s.shares[i].rule <= rule
            },
            None => forall|i: int| 0 <= i < n ==> !#[trigger] s.grants(user, guid, i),
        },
    decreases n,
{
    if n > 0 {
        lemma_best_rule(s, user, guid, n - 1);
        let before = s.best_rule(user, guid, n - 1);
        if s.grants(user, guid, n - 1) && (before is None || before->0 < s.shares[n - 1].rule) {
            assert(s.grants(user, guid, n - 1) && s.shares[n - 1].rule == s.shares[n - 1].rule);
        } else if before is Some {
            let i = choose|i: int|
                0 <= i < n - 1 && #[trigger] s.grants(user, guid, i) && s.shares[i].rule == before->0;
            assert(0 <= i < n && s.grants(user, guid, i));
        }
    }
}

/// Where a share of an address book reaches a user, the rule that the user
/// is granted on it is the greatest that such a share grants.
pub proof fn lemma_granted_rule(s: StoreView, user: i64, guid: Seq<char>)
    ensures
        s.shared_with(user, guid) <==> s.best_rule(user, guid, s.shares.len() as int) is Some,
        s.shared_with(user, guid) ==> s.is_granted_rule(user, guid, s.granted_rule(user, guid)),
{
    let n = s.shares.len() as int;
    lemma_best_rule(s, user, guid, n);
    if s.shared_with(user, guid) {
        let i = choose|i: int|
            0 <= i < s.shares.len() && (#[trigger] s.shares[i]).ab_guid == guid && s.reaches(
                s.shares[i],
                user,
            );
        assert(s.grants(user, guid, i));
    }
    if s.best_rule(user, guid, n) is Some {
        let i = choose|i: int|
            0 <= i < n && #[trigger] s.grants(user, guid, i) && s.shares[i].rule == s.best_rule(
                user,
                guid,
                n,
            )->0;
        assert(s.shares[i].ab_guid == guid);
    }
}

/// What the list of the address books shared with a user is like: no
/// address book shows twice; one shows exactly if it is not personal and
/// some share of it reaches the user; and each shows with the greatest
/// rule that such a share grants.
pub proof fn lemma_shared_profiles(s: StoreView, user: i64)
    requires
        s.wf(),
    ensures
        distinct_by(s.shared_profiles(user), profile_guid()),
        forall|guid: Seq<char>|
            #[trigger] has_key(s.shared_profiles(user), profile_guid(), guid) <==> s.lists_book(user, guid),
        forall|k: int|
            0 <= k < s.shared_profiles(user).len() ==> s.is_granted_rule(
                user,
                (#[trigger] s.shared_profiles(user)[k]).guid,
                s.shared_profiles(user)[k].rule,
            ),
{
    let listed = s.address_books.filter(s.book_listed(user));
    let shown = s.shared_profiles(user);
    lemma_distinct_filter(s.address_books, book_key(), s.book_listed(user));
    assert forall|a: int, b: int|
        #![trigger shown[a], shown[b]]
        0 <= a < b < shown.len() implies profile_guid()(shown[a]) != profile_guid()(shown[b]) by {
        assert(book_key()(listed[a]) != book_key()(listed[b]));
    }
    assert forall|guid: Seq<char>| #[trigger] has_key(shown, profile_guid(), guid) implies s.lists_book(
        user,
        guid,
    ) by {
        let k = choose|k: int| 0 <= k < shown.len() && profile_guid()(#[trigger] shown[k]) == guid;
        let i = lemma_filter_origin(s.address_books, s.book_listed(user), k);
        assert(s.address_books[i].guid == guid);
    }
    assert forall|guid: Seq<char>| s.lists_book(user, guid) implies #[trigger] has_key(
        shown,
        profile_guid(),
        guid,
    ) by {
        let i = choose|i: int|
            0 <= i < s.address_books.len() && (#[trigger] s.address_books[i]).guid == guid
                && !s.address_books[i].is_personal && s.shared_with(user, guid);
        let k = lemma_filter_keeps(s.address_books, s.book_listed(user), i);
        assert(profile_guid()(shown[k]) == guid);
    }
    assert forall|k: int| 0 <= k < shown.len() implies s.is_granted_rule(
        user,
        (#[trigger] shown[k]).guid,
        shown[k].rule,
    ) by {
        let i = lemma_filter_origin(s.address_books, s.book_listed(user), k);
        lemma_granted_rule(s, user, listed[k].guid);
    }
}

impl Store {
    /// The login name of the user `id`, or the empty text.
    pub fn owner_name(&self, id: i64) -> (name: String)
        requires
            self.wf(),
        ensures
            name@ == self@.username_of(id),
    {
        match self.find_user_by_id(id) {
            Some(i) => {
                proof {
                    let k = choose|k: int|
                        0 <= k < self@.users.len() && user_id_key()(#[trigger] self@.users[k]) == id;
                    if k < i {
                        assert(user_id_key()(self@.users[k]) < user_id_key()(self@.users[i as int]));
                    } else if i < k {
                        assert(user_id_key()(self@.users[i as int]) < user_id_key()(self@.users[k]));
                    }
                }
                self.users[i].username.clone()
            },
            None => String::new(),
        }
    }

    /// The rule that `user` is granted on the address book `guid`: the
    /// greatest of the rules of the shares of it that reach the user, if
    /// any does.
    pub fn rule_granted(&self, user: i64, guid: &str) -> (r: Option<i32>)
        ensures
            r is Some <==> self@.shared_with(user, guid@),
            r is Some ==> r->0 == self@.granted_rule(user, guid@) && self@.is_granted_rule(
                user,
                guid@,
                r->0,
            ),
    {
        let ghost s = self@;
        let mut best: Option<i32> = None;
        let mut i: usize = 0;
        while i < self.shares.len()
            invariant
                i <= self.shares.len(),
                s == self@,
                best == s.best_rule(user, guid@, i as int),
            decreases self.shares.len() - i,
        {
            let share = &self.shares[i];
            if text_eq(share.ab_guid.as_str(), guid) {
                let reached = match share.target {
                    ShareTarget::User(u) => u == user,
                    ShareTarget::Group(g) => self.is_member(user, g),
                };
                assert(reached == s.grants(user, guid@, i as int));
                if reached {
                    let more = match best {
                        None => true,
                        Some(b) => b < share.rule,
                    };
                    if more {
                        best = Some(share.rule);
                    }
                }
            }
            i += 1;
        }
        proof {
            lemma_granted_rule(s, user, guid@);
        }
        best
    }
}

/// Lists the address books that others share with `user`, directly or
/// through a group of the user, each once and personal address books left
/// out. Where several shares of an address book reach the user, the
/// greatest of their rules shows. An owner who is no longer among the
/// users shows as the empty name.
pub fn get_shared_profiles(store: &Store, user_id: i64) -> (r: AbSharedProfilesResponse)
    requires
        store.wf(),
    ensures
        views(r.data@) == store@.shared_profiles(user_id),
        distinct_by(views(r.data@), profile_guid()),
        forall|guid: Seq<char>|
            #[trigger] has_key(views(r.data@), profile_guid(), guid) <==> store@.lists_book(user_id, guid),
        forall|k: int|
            0 <= k < r.data@.len() ==> store@.is_granted_rule(
                user_id,
                (#[trigger] r.data@[k]).guid@,
                r.data@[k].rule,
            ),
        r.total == reported_total(r.data@.len()),
{
    let ghost s = store@;
    let ghost listed = s.book_listed(user_id);
    let ghost show = s.shared_profile(user_id);
    let mut data: Vec<AbProfile> = Vec::new();
    let mut i: usize = 0;
    assert(s.address_books.take(0).filter(listed) =~= Seq::empty()) by {
        reveal(Seq::filter);
    }
    assert(views(data@) =~= s.address_books.take(0).filter(listed).map_values(show));
    while i < store.address_books.len()
        invariant
            i <= store.address_books.len(),
            store.wf(),
            s == store@,
            listed == s.book_listed(user_id),
            show == s.shared_profile(user_id),
            views(data@) == s.address_books.take(i as int).filter(listed).map_values(show),
        decreases store.address_books.len() - i,
    {
        proof {
            lemma_filter_step(s.address_books, i as int, listed);
        }
        let book = &store.address_books[i];
        if !book.is_personal {
            match store.rule_granted(user_id, book.guid.as_str()) {
                Some(rule) => {
                    let ghost before = data@;
                    let profile = AbProfile {
                        guid: book.guid.clone(),
                        name: book.name.clone(),
                        owner: store.owner_name(book.owner_id),
                        rule,
                        note: String::new(),
                    };
                    assert(profile@ == show(s.address_books[i as int]));
                    data.push(profile);
                    proof {
                        let kept = s.address_books.take(i as int).filter(listed);
                        assert(views(data@) =~= views(before).push(profile@));
                        assert(kept.push(s.address_books[i as int]).map_values(show) =~= kept.map_values(
                            show,
                        ).push(profile@));
                    }
                },
                None => {},
            }
        }
        i += 1;
    }
    proof {
        assert(s.address_books.take(i as int) =~= s.address_books);
        lemma_shared_profiles(s, user_id);
        assert forall|k: int| 0 <= k < data@.len() implies s.is_granted_rule(
            user_id,
            (#[trigger] data@[k]).guid@,
            data@[k].rule,
        ) by {
            assert(views(data@)[k] == s.shared_profiles(user_id)[k]);
        }
    }
    let total = total_of(data.len());
    AbSharedProfilesResponse { data, total }
}

} // verus!
