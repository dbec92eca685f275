//! Plain rows in and out of the store: loading a store from the rows of
//! every table, checked against the rules, and copying the rows out.

use vstd::prelude::*;
use crate::models::address_book::{AddressBook, Share};
use crate::models::group::{Group, UserGroup};
use crate::models::peer::{Peer, PeerTag};
use crate::models::tag::Tag;
use crate::models::user::User;
use crate::rows::{distinct_by, increasing_by, views};
use crate::store::{
    book_key, group_id_key, group_name_key, one_personal_each, peer_id_key, peer_key, tag_id_key,
    tag_key, user_id_key, user_name_key, Store, StoreView,
};
use crate::text::text_eq;

verus! {

/// The rows of every table.
#[derive(Debug, PartialEq, Eq)]
pub struct Tables {
    pub users: Vec<User>,
    pub groups: Vec<Group>,
    pub user_groups: Vec<UserGroup>,
    pub address_books: Vec<AddressBook>,
    pub peers: Vec<Peer>,
    pub tags: Vec<Tag>,
    pub peer_tags: Vec<PeerTag>,
    pub shares: Vec<Share>,
}

impl View for Tables {
    type V = StoreView;

    open spec fn view(&self) -> StoreView {
        StoreView {
            users: views(self.users@),
            groups: views(self.groups@),
            user_groups: self.user_groups@,
            address_books: views(self.address_books@),
            peers: views(self.peers@),
            tags: views(self.tags@),
            peer_tags: self.peer_tags@.to_set(),
            shares: views(self.shares@),
        }
    }
}

impl Tables {
    /// The rows obey the rules of the store, and no link stands twice.
    pub open spec fn valid(&self) -> bool {
        self@.wf() && self.peer_tags@.no_duplicates()
    }
}

/// Whether the users stand in ascending order of their ids and no login
/// name is taken twice.
fn users_valid(rows: &Vec<User>) -> (r: bool)
    ensures
        r == (increasing_by(views(rows@), user_id_key()) && distinct_by(views(rows@), user_name_key())),
{
    let ghost all = views(rows@);
    let mut j: usize = 0;
    while j < rows.len()
        invariant
            j <= rows.len(),
            all == views(rows@),
            forall|a: int, b: int|
                #![trigger all[a], all[b]]
                0 <= a < b < j ==> all[a].id < all[b].id && all[a].username != all[b].username,
        decreases rows.len() - j,
    {
        let mut i: usize = 0;
        while i < j
            invariant
                i <= j < rows.len(),
                all == views(rows@),
                forall|a: int|
                    0 <= a < i ==> (#[trigger] all[a]).id < all[j as int].id && all[a].username
                        != all[j as int].username,
            decreases j - i,
        {
            if rows[i].id >= rows[j].id || text_eq(rows[i].username.as_str(), rows[j].username.as_str()) {
                proof {
                    if increasing_by(all, user_id_key()) && distinct_by(all, user_name_key()) {
                        assert(user_id_key()(all[i as int]) < user_id_key()(all[j as int]));
                        assert(user_name_key()(all[i as int]) != user_name_key()(all[j as int]));
                    }
                }
                return false;
            }
            i += 1;
        }
        j += 1;
    }
    proof {
        assert forall|a: int, b: int| #![trigger all[a], all[b]] 0 <= a < b < all.len() implies user_id_key()(
            all[a],
        ) < user_id_key()(all[b]) && user_name_key()(all[a]) != user_name_key()(all[b]) by {
            assert(all[a].id < all[b].id);
        }
    }
    true
}

/// Whether the groups stand in ascending order of their ids and no name is
/// taken twice.
fn groups_valid(rows: &Vec<Group>) -> (r: bool)
    ensures
        r == (increasing_by(views(rows@), group_id_key()) && distinct_by(views(rows@), group_name_key())),
{
    let ghost all = views(rows@);
    let mut j: usize = 0;
    while j < rows.len()
        invariant
            j <= rows.len(),
            all == views(rows@),
            forall|a: int, b: int|
                #![trigger all[a], all[b]]
                0 <= a < b < j ==> all[a].id < all[b].id && all[a].name != all[b].name,
        decreases rows.len() - j,
    {
        let mut i: usize = 0;
        while i < j
            invariant
                i <= j < rows.len(),
                all == views(rows@),
                forall|a: int|
                    0 <= a < i ==> (#[trigger] all[a]).id < all[j as int].id && all[a].name
                        != all[j as int].name,
            decreases j - i,
        {
            if rows[i].id >= rows[j].id || text_eq(rows[i].name.as_str(), rows[j].name.as_str()) {
                proof {
                    if increasing_by(all, group_id_key()) && distinct_by(all, group_name_key()) {
                        assert(group_id_key()(all[i as int]) < group_id_key()(all[j as int]));
                        assert(group_name_key()(all[i as int]) != group_name_key()(all[j as int]));
                    }
                }
                return false;
            }
            i += 1;
        }
        j += 1;
    }
    proof {
        assert forall|a: int, b: int|
            #![trigger all[a], all[b]]
            0 <= a < b < all.len() implies group_id_key()(all[a]) < group_id_key()(all[b])
            && group_name_key()(all[a]) != group_name_key()(all[b]) by {
            assert(all[a].id < all[b].id);
        }
    }
    true
}

/// Whether no identifier of an address book is taken twice and no user
/// owns two personal address books.
fn books_valid(rows: &Vec<AddressBook>) -> (r: bool)
    ensures
        r == (distinct_by(views(rows@), book_key()) && one_personal_each(views(rows@))),
{
    let ghost all = views(rows@);
    let mut j: usize = 0;
    while j < rows.len()
        invariant
            j <= rows.len(),
            all == views(rows@),
            forall|a: int, b: int|
                #![trigger all[a], all[b]]
                0 <= a < b < j ==> all[a].guid != all[b].guid && !(all[a].is_personal && all[b].is_personal
                    && all[a].owner_id == all[b].owner_id),
        decreases rows.len() - j,
    {
        let mut i: usize = 0;
        while i < j
            invariant
                i <= j < rows.len(),
                all == views(rows@),
                forall|a: int|
                    0 <= a < i ==> (#[trigger] all[a]).guid != all[j as int].guid && !(all[a].is_personal
                        && all[j as int].is_personal && all[a].owner_id == all[j as int].owner_id),
            decreases j - i,
        {
            if text_eq(rows[i].guid.as_str(), rows[j].guid.as_str()) || (rows[i].is_personal
                && rows[j].is_personal && rows[i].owner_id == rows[j].owner_id) {
                proof {
                    if distinct_by(all, book_key()) && one_personal_each(all) {
                        assert(book_key()(all[i as int]) != book_key()(all[j as int]));
                        assert(all[i as int].owner_id != all[j as int].owner_id);
                    }
                }
                return false;
            }
            i += 1;
        }
        j += 1;
    }
    proof {
        assert forall|a: int, b: int| #![trigger all[a], all[b]] 0 <= a < b < all.len() implies book_key()(
            all[a],
        ) != book_key()(all[b]) by {
            assert(all[a].guid != all[b].guid);
        }
    }
    true
}

/// Whether no row id and no key of a peer is taken twice.
fn peers_valid(rows: &Vec<Peer>) -> (r: bool)
    ensures
        r == (distinct_by(views(rows@), peer_id_key()) && distinct_by(views(rows@), peer_key())),
{
    let ghost all = views(rows@);
    let mut j: usize = 0;
    while j < rows.len()
        invariant
            j <= rows.len(),
            all == views(rows@),
            forall|a: int, b: int|
                #![trigger all[a], all[b]]
                0 <= a < b < j ==> all[a].id != all[b].id && peer_key()(all[a]) != peer_key()(all[b]),
        decreases rows.len() - j,
    {
        let mut i: usize = 0;
        while i < j
            invariant
                i <= j < rows.len(),
                all == views(rows@),
                forall|a: int|
                    0 <= a < i ==> (#[trigger] all[a]).id != all[j as int].id && peer_key()(all[a])
                        != peer_key()(all[j as int]),
            decreases j - i,
        {
            if rows[i].id == rows[j].id || (text_eq(rows[i].ab_guid.as_str(), rows[j].ab_guid.as_str())
                && text_eq(rows[i].rustdesk_id.as_str(), rows[j].rustdesk_id.as_str())) {
                proof {
                    if distinct_by(all, peer_id_key()) && distinct_by(all, peer_key()) {
                        assert(peer_id_key()(all[i as int]) != peer_id_key()(all[j as int]));
                        assert(peer_key()(all[i as int]) != peer_key()(all[j as int]));
                    }
                }
                return false;
            }
            i += 1;
        }
        j += 1;
    }
    proof {
        assert forall|a: int, b: int| #![trigger all[a], all[b]] 0 <= a < b < all.len() implies peer_id_key()(
            all[a],
        ) != peer_id_key()(all[b]) by {
            assert(all[a].id != all[b].id);
        }
    }
    true
}

/// Whether no row id and no key of a tag is taken twice.
fn tags_valid(rows: &Vec<Tag>) -> (r: bool)
    ensures
        r == (distinct_by(views(rows@), tag_id_key()) && distinct_by(views(rows@), tag_key())),
{
    let ghost all = views(rows@);
    let mut j: usize = 0;
    while j < rows.len()
        invariant
            j <= rows.len(),
            all == views(rows@),
            forall|a: int, b: int|
                #![trigger all[a], all[b]]
                0 <= a < b < j ==> all[a].id != all[b].id && tag_key()(all[a]) != tag_key()(all[b]),
        decreases rows.len() - j,
    {
        let mut i: usize = 0;
        while i < j
            invariant
                i <= j < rows.len(),
                all == views(rows@),
                forall|a: int|
                    0 <= a < i ==> (#[trigger] all[a]).id != all[j as int].id && tag_key()(all[a]) != tag_key()(
                        all[j as int],
                    ),
            decreases j - i,
        {
            if rows[i].id == rows[j].id || (text_eq(rows[i].ab_guid.as_str(), rows[j].ab_guid.as_str())
                && text_eq(rows[i].name.as_str(), rows[j].name.as_str())) {
                proof {
                    if distinct_by(all, tag_id_key()) && distinct_by(all, tag_key()) {
                        assert(tag_id_key()(all[i as int]) != tag_id_key()(all[j as int]));
                        assert(tag_key()(all[i as int]) != tag_key()(all[j as int]));
                    }
                }
                return false;
            }
            i += 1;
        }
        j += 1;
    }
    proof {
        assert forall|a: int, b: int| #![trigger all[a], all[b]] 0 <= a < b < all.len() implies tag_id_key()(
            all[a],
        ) != tag_id_key()(all[b]) by {
            assert(all[a].id != all[b].id);
        }
    }
    true
}

/// Whether no link stands twice.
fn links_distinct(rows: &Vec<PeerTag>) -> (r: bool)
    ensures
        r == rows@.no_duplicates(),
{
    let mut j: usize = 0;
    while j < rows.len()
        invariant
            j <= rows.len(),
            forall|a: int, b: int| 0 <= a < b < j ==> rows@[a] != rows@[b],
        decreases rows.len() - j,
    {
        let mut i: usize = 0;
        while i < j
            invariant
                i <= j < rows.len(),
                forall|a: int| 0 <= a < i ==> rows@[a] != rows@[j as int],
            decreases j - i,
        {
            if rows[i].peer_id == rows[j].peer_id && rows[i].tag_id == rows[j].tag_id {
                assert(rows@[i as int] == rows@[j as int]);
                return false;
            }
            i += 1;
        }
        j += 1;
    }
    true
}

impl Store {
    /// Whether every link joins a peer and a tag of one address book.
    fn links_sound(&self) -> (r: bool)
        requires
            distinct_by(self@.peers, peer_id_key()),
            distinct_by(self@.tags, tag_id_key()),
        ensures
            r == self@.links_ok(),
    {
        let mut k: usize = 0;
        while k < self.peer_tags.len()
            invariant
                k <= self.peer_tags.len(),
                distinct_by(self@.peers, peer_id_key()),
                distinct_by(self@.tags, tag_id_key()),
                forall|a: int| 0 <= a < k ==> self@.link_ok(#[trigger] self.peer_tags@[a]),
            decreases self.peer_tags.len() - k,
        {
            let l = self.peer_tags[k];
            let sound = match self.find_peer_by_id(l.peer_id) {
                None => false,
                Some(i) => match self.find_tag_by_id(l.tag_id) {
                    None => false,
                    Some(j) => {
                        let same = text_eq(self.peers[i].ab_guid.as_str(), self.tags[j].ab_guid.as_str());
                        proof {
                            if self@.link_ok(l) {
                                let (a, b) = choose|a: int, b: int|
                                    #![trigger self@.peers[a], self@.tags[b]]
                                    0 <= a < self@.peers.len() && 0 <= b < self@.tags.len()
                                        && self@.peers[a].id == l.peer_id && self@.tags[b].id == l.tag_id
                                        && self@.peers[a].ab_guid == self@.tags[b].ab_guid;
                                if a < i {
                                    assert(peer_id_key()(self@.peers[a]) != peer_id_key()(
                                        self@.peers[i as int],
                                    ));
                                } else if i < a {
                                    assert(peer_id_key()(self@.peers[i as int]) != peer_id_key()(
                                        self@.peers[a],
                                    ));
                                }
                                if b < j {
                                    assert(tag_id_key()(self@.tags[b]) != tag_id_key()(self@.tags[j as int]));
                                } else if j < b {
                                    assert(tag_id_key()(self@.tags[j as int]) != tag_id_key()(self@.tags[b]));
                                }
                            }
                            if same {
                                assert(self@.peers[i as int].id == l.peer_id && self@.tags[j as int].id
                                    == l.tag_id);
                            }
                        }
                        same
                    },
                },
            };
            if !sound {
                assert(self@.peer_tags.contains(self.peer_tags@[k as int]));
                return false;
            }
            k += 1;
        }
        proof {
            assert forall|l: PeerTag| #[trigger] self@.peer_tags.contains(l) implies self@.link_ok(l) by {
                let a = choose|a: int| 0 <= a < self.peer_tags@.len() && self.peer_tags@[a] == l;
                assert(self@.link_ok(self.peer_tags@[a]));
            }
        }
        true
    }

    /// A store that holds the given rows, or nothing where the rows break
    /// a rule of the store.
    pub fn load(tables: Tables) -> (r: Option<Store>)
        ensures
            r is Some <==> tables.valid(),
            r is Some ==> r->0.wf() && r->0@ == tables@,
    {
        if !users_valid(&tables.users) || !groups_valid(&tables.groups) || !books_valid(
            &tables.address_books,
        ) || !peers_valid(&tables.peers) || !tags_valid(&tables.tags) || !links_distinct(&tables.peer_tags) {
            return None;
        }
        let store = Store {
            users: tables.users,
            groups: tables.groups,
            user_groups: tables.user_groups,
            address_books: tables.address_books,
            peers: tables.peers,
            tags: tables.tags,
            peer_tags: tables.peer_tags,
            shares: tables.shares,
        };
        assert(store@ == tables@);
        if !store.links_sound() {
            return None;
        }
        Some(store)
    }

    /// A copy of the rows of every table.
    pub fn snapshot(&self) -> (r: Tables)
        ensures
            r@ == self@,
            self.wf() ==> r.valid(),
    {
        let mut users: Vec<User> = Vec::new();
        let mut i: usize = 0;
        while i < self.users.len()
            invariant
                i <= self.users.len(),
                users@.len() == i,
                forall|j: int| 0 <= j < i ==> (#[trigger] users@[j])@ == self.users@[j]@,
            decreases self.users.len() - i,
        {
            users.push(self.users[i].clone());
            i += 1;
        }
        let mut groups: Vec<Group> = Vec::new();
        let mut i: usize = 0;
        while i < self.groups.len()
            invariant
                i <= self.groups.len(),
                groups@.len() == i,
                forall|j: int| 0 <= j < i ==> (#[trigger] groups@[j])@ == self.groups@[j]@,
            decreases self.groups.len() - i,
        {
            groups.push(self.groups[i].clone());
            i += 1;
        }
        let mut user_groups: Vec<UserGroup> = Vec::new();
        let mut i: usize = 0;
        while i < self.user_groups.len()
            invariant
                i <= self.user_groups.len(),
                user_groups@.len() == i,
                forall|j: int| 0 <= j < i ==> user_groups@[j] == self.user_groups@[j],
            decreases self.user_groups.len() - i,
        {
            user_groups.push(self.user_groups[i]);
            i += 1;
        }
        let mut address_books: Vec<AddressBook> = Vec::new();
        let mut i: usize = 0;
        while i < self.address_books.len()
            invariant
                i <= self.address_books.len(),
                address_books@.len() == i,
                forall|j: int| 0 <= j < i ==> (#[trigger] address_books@[j])@ == self.address_books@[j]@,
            decreases self.address_books.len() - i,
        {
            address_books.push(self.address_books[i].clone());
            i += 1;
        }
        let mut peers: Vec<Peer> = Vec::new();
        let mut i: usize = 0;
        while i < self.peers.len()
            invariant
                i <= self.peers.len(),
                peers@.len() == i,
                forall|j: int| 0 <= j < i ==> (#[trigger] peers@[j])@ == self.peers@[j]@,
            decreases self.peers.len() - i,
        {
            peers.push(self.peers[i].clone());
            i += 1;
        }
        let mut tags: Vec<Tag> = Vec::new();
        let mut i: usize = 0;
        while i < self.tags.len()
            invariant
                i <= self.tags.len(),
                tags@.len() == i,
                forall|j: int| 0 <= j < i ==> (#[trigger] tags@[j])@ == self.tags@[j]@,
            decreases self.tags.len() - i,
        {
            tags.push(self.tags[i].clone());
            i += 1;
        }
        let mut peer_tags: Vec<PeerTag> = Vec::new();
        let mut i: usize = 0;
        while i < self.peer_tags.len()
            invariant
                i <= self.peer_tags.len(),
                peer_tags@.len() == i,
                forall|j: int| 0 <= j < i ==> peer_tags@[j] == self.peer_tags@[j],
            decreases self.peer_tags.len() - i,
        {
            peer_tags.push(self.peer_tags[i]);
            i += 1;
        }
        let mut shares: Vec<Share> = Vec::new();
        let mut i: usize = 0;
        while i < self.shares.len()
            invariant
                i <= self.shares.len(),
                shares@.len() == i,
                forall|j: int| 0 <= j < i ==> (#[trigger] shares@[j])@ == self.shares@[j]@,
            decreases self.shares.len() - i,
        {
            shares.push(self.shares[i].clone());
            i += 1;
        }
        let r = Tables { users, groups, user_groups, address_books, peers, tags, peer_tags, shares };
        proof {
            assert(r@.users =~= self@.users);
            assert(r@.groups =~= self@.groups);
            assert(r@.user_groups =~= self@.user_groups);
            assert(r@.address_books =~= self@.address_books);
            assert(r@.peers =~= self@.peers);
            assert(r@.tags =~= self@.tags);
            assert(r.peer_tags@ =~= self.peer_tags@);
            assert(r@.shares =~= self@.shares);
        }
        r
    }
}

} // verus!
