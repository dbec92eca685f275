//! The relational state: users, groups, address books, peers, tags, the
//! links between peers and tags, and the shares, with the rules that every
//! reachable state obeys.

use vstd::prelude::*;
use crate::models::address_book::{AddressBook, AddressBookView, Share, ShareTarget, ShareView};
use crate::models::group::{Group, GroupView, UserGroup};
use crate::models::peer::{Peer, PeerTag, PeerView};
use crate::models::tag::{Tag, TagView};
use crate::models::user::{User, UserView};
use crate::rows::{distinct_by, has_key, increasing_by, lemma_max_id_push, max_id, next_id, views};
use crate::text::text_eq;

verus! {

/// What the store holds, as mathematics: each table a sequence of rows in
/// the order in which they were inserted, the links a set.
pub struct StoreView {
    pub users: Seq<UserView>,
    pub groups: Seq<GroupView>,
    pub user_groups: Seq<UserGroup>,
    pub address_books: Seq<AddressBookView>,
    pub peers: Seq<PeerView>,
    pub tags: Seq<TagView>,
    pub peer_tags: Set<PeerTag>,
    pub shares: Seq<ShareView>,
}

/// The id of a user row.
pub open spec fn user_id_key() -> spec_fn(UserView) -> i64 {
    |u: UserView| u.id
}

/// The login name of a user row.
pub open spec fn user_name_key() -> spec_fn(UserView) -> Seq<char> {
    |u: UserView| u.username
}

/// The id of a group row.
pub open spec fn group_id_key() -> spec_fn(GroupView) -> i64 {
    |g: GroupView| g.id
}

/// The name of a group row.
pub open spec fn group_name_key() -> spec_fn(GroupView) -> Seq<char> {
    |g: GroupView| g.name
}

/// The identifier of an address-book row.
pub open spec fn book_key() -> spec_fn(AddressBookView) -> Seq<char> {
    |b: AddressBookView| b.guid
}

/// The id of a peer row.
pub open spec fn peer_id_key() -> spec_fn(PeerView) -> i64 {
    |p: PeerView| p.id
}

/// The key of a peer row: its address book and its external id.
pub open spec fn peer_key() -> spec_fn(PeerView) -> (Seq<char>, Seq<char>) {
    |p: PeerView| (p.ab_guid, p.rustdesk_id)
}

/// The id of a tag row.
pub open spec fn tag_id_key() -> spec_fn(TagView) -> i64 {
    |t: TagView| t.id
}

/// The key of a tag row: its address book and its name.
pub open spec fn tag_key() -> spec_fn(TagView) -> (Seq<char>, Seq<char>) {
    |t: TagView| (t.ab_guid, t.name)
}

/// No user owns two personal address books.
pub open spec fn one_personal_each(books: Seq<AddressBookView>) -> bool {
    forall|i: int, j: int|
        #![trigger books[i], books[j]]
        0 <= i < j < books.len() && books[i].is_personal && books[j].is_personal
            ==> books[i].owner_id != books[j].owner_id
}

impl StoreView {
    /// The state with no rows at all.
    pub open spec fn empty() -> StoreView {
        StoreView {
            users: Seq::empty(),
            groups: Seq::empty(),
            user_groups: Seq::empty(),
            address_books: Seq::empty(),
            peers: Seq::empty(),
            tags: Seq::empty(),
            peer_tags: Set::empty(),
            shares: Seq::empty(),
        }
    }

    /// The link `l` joins a peer and a tag that exist and belong to the
    /// same address book.
    pub open spec fn link_ok(self, l: PeerTag) -> bool {
        exists|i: int, j: int|
            #![trigger self.peers[i], self.tags[j]]
            0 <= i < self.peers.len() && 0 <= j < self.tags.len() && self.peers[i].id == l.peer_id
                && self.tags[j].id == l.tag_id && self.peers[i].ab_guid == self.tags[j].ab_guid
    }

    /// Every link joins a peer and a tag of one address book.
    pub open spec fn links_ok(self) -> bool {
        forall|l: PeerTag| #[trigger] self.peer_tags.contains(l) ==> self.link_ok(l)
    }

    /// The rules of a valid state: users and groups stand in ascending
    /// order of their ids, ids and keys are unique in each table, a user
    /// has at most one personal address book, and every link joins a peer
    /// and a tag of the same address book.
    pub open spec fn wf(self) -> bool {
        &&& increasing_by(self.users, user_id_key())
        &&& distinct_by(self.users, user_name_key())
        &&& increasing_by(self.groups, group_id_key())
        &&& distinct_by(self.groups, group_name_key())
        &&& distinct_by(self.address_books, book_key())
        &&& one_personal_each(self.address_books)
        &&& distinct_by(self.peers, peer_id_key())
        &&& distinct_by(self.peers, peer_key())
        &&& distinct_by(self.tags, tag_id_key())
        &&& distinct_by(self.tags, tag_key())
        &&& self.links_ok()
    }

    /// An address book with this identifier exists.
    pub open spec fn has_book(self, guid: Seq<char>) -> bool {
        has_key(self.address_books, book_key(), guid)
    }

    /// `user` owns the address book `guid`.
    pub open spec fn owns(self, user: i64, guid: Seq<char>) -> bool {
        exists|i: int|
            0 <= i < self.address_books.len() && (#[trigger] self.address_books[i]).guid == guid
                && self.address_books[i].owner_id == user
    }

    /// `user` belongs to `group`.
    pub open spec fn is_member(self, user: i64, group: i64) -> bool {
        self.user_groups.contains(UserGroup { user_id: user, group_id: group })
    }

    /// The share reaches `user`: it names the user, or a group of the user.
    pub open spec fn reaches(self, share: ShareView, user: i64) -> bool {
        match share.target {
            ShareTarget::User(u) => u == user,
            ShareTarget::Group(g) => self.is_member(user, g),
        }
    }

    /// Some share of the address book `guid` reaches `user`.
    pub open spec fn shared_with(self, user: i64, guid: Seq<char>) -> bool {
        exists|i: int|
            0 <= i < self.shares.len() && (#[trigger] self.shares[i]).ab_guid == guid
                && self.reaches(self.shares[i], user)
    }

    /// `user` may act on the address book `guid`: it exists, and the user
    /// owns it or a share of it reaches the user.
    pub open spec fn can_access(self, user: i64, guid: Seq<char>) -> bool {
        self.owns(user, guid) || (self.has_book(guid) && self.shared_with(user, guid))
    }

    /// `guid` is the personal address book of `user`.
    pub open spec fn is_personal_of(self, user: i64, guid: Seq<char>) -> bool {
        exists|i: int|
            0 <= i < self.address_books.len() && (#[trigger] self.address_books[i]).owner_id == user
                && self.address_books[i].is_personal && self.address_books[i].guid == guid
    }

    /// `user` has a personal address book.
    pub open spec fn has_personal(self, user: i64) -> bool {
        exists|i: int|
            0 <= i < self.address_books.len() && (#[trigger] self.address_books[i]).owner_id == user
                && self.address_books[i].is_personal
    }

    /// The identifier of the personal address book of `user`, where there
    /// is one.
    pub open spec fn personal_guid(self, user: i64) -> Seq<char> {
        let i = choose|i: int|
            0 <= i < self.address_books.len() && (#[trigger] self.address_books[i]).owner_id == user
                && self.address_books[i].is_personal;
        self.address_books[i].guid
    }

    /// The address book `guid` has a peer with the external id `rid`.
    pub open spec fn has_peer(self, guid: Seq<char>, rid: Seq<char>) -> bool {
        has_key(self.peers, peer_key(), (guid, rid))
    }

    /// The address book `guid` has a tag named `name`.
    pub open spec fn has_tag(self, guid: Seq<char>, name: Seq<char>) -> bool {
        has_key(self.tags, tag_key(), (guid, name))
    }

    /// The ids of the peer rows, in table order.
    pub open spec fn peer_ids(self) -> Seq<i64> {
        self.peers.map_values(peer_id_key())
    }

    /// The ids of the tag rows, in table order.
    pub open spec fn tag_ids(self) -> Seq<i64> {
        self.tags.map_values(tag_id_key())
    }

    /// The ids of the user rows, in table order.
    pub open spec fn user_ids(self) -> Seq<i64> {
        self.users.map_values(user_id_key())
    }

    /// The ids of the group rows, in table order.
    pub open spec fn group_ids(self) -> Seq<i64> {
        self.groups.map_values(group_id_key())
    }
}

/// Links that are sound stay so while the peers, the tags and the links
/// themselves stay as they are.
pub proof fn lemma_links_ok_same_rows(s: StoreView, t: StoreView)
    requires
        s.links_ok(),
        t.peers == s.peers,
        t.tags == s.tags,
        t.peer_tags == s.peer_tags,
    ensures
        t.links_ok(),
{
    assert forall|l: PeerTag| #[trigger] t.peer_tags.contains(l) implies t.link_ok(l) by {
        assert(s.link_ok(l));
        let (i, j) = choose|i: int, j: int|
            #![trigger s.peers[i], s.tags[j]]
            0 <= i < s.peers.len() && 0 <= j < s.tags.len() && s.peers[i].id == l.peer_id && s.tags[j].id
                == l.tag_id && s.peers[i].ab_guid == s.tags[j].ab_guid;
        assert(t.peers[i].id == l.peer_id && t.tags[j].id == l.tag_id);
    }
}

/// Links that are sound stay so while none is added and every peer and
/// tag row keeps its place, its id and its address book; rows may be
/// appended.
pub proof fn lemma_links_ok_carry(s: StoreView, t: StoreView)
    requires
        s.links_ok(),
        forall|l: PeerTag| t.peer_tags.contains(l) ==> s.peer_tags.contains(l),
        t.peers.len() >= s.peers.len(),
        t.tags.len() >= s.tags.len(),
        forall|i: int|
            0 <= i < s.peers.len() ==> (#[trigger] t.peers[i]).id == s.peers[i].id && t.peers[i].ab_guid
                == s.peers[i].ab_guid,
        forall|i: int|
            0 <= i < s.tags.len() ==> (#[trigger] t.tags[i]).id == s.tags[i].id && t.tags[i].ab_guid
                == s.tags[i].ab_guid,
    ensures
        t.links_ok(),
{
    assert forall|l: PeerTag| #[trigger] t.peer_tags.contains(l) implies t.link_ok(l) by {
        assert(s.peer_tags.contains(l));
        assert(s.link_ok(l));
        let (i, j) = choose|i: int, j: int|
            #![trigger s.peers[i], s.tags[j]]
            0 <= i < s.peers.len() && 0 <= j < s.tags.len() && s.peers[i].id == l.peer_id && s.tags[j].id
                == l.tag_id && s.peers[i].ab_guid == s.tags[j].ab_guid;
        assert(t.peers[i].id == l.peer_id && t.tags[j].id == l.tag_id);
    }
}

/// The relational state of the service.
pub struct Store {
    pub(crate) users: Vec<User>,
    pub(crate) groups: Vec<Group>,
    pub(crate) user_groups: Vec<UserGroup>,
    pub(crate) address_books: Vec<AddressBook>,
    pub(crate) peers: Vec<Peer>,
    pub(crate) tags: Vec<Tag>,
    pub(crate) peer_tags: Vec<PeerTag>,
    pub(crate) shares: Vec<Share>,
}

impl View for Store {
    type V = StoreView;

    open(crate) spec fn view(&self) -> StoreView {
        StoreView {
            users: views(self.users@),
            groups: views(self.groups@),
            user_groups: self.user_groups@,
            address_books: views(self.address_books@),
            peers: views(self.peers@),
            tags: views(self.tags@),
            peer_tags: self.peer_tags@.to_set(),
            shares: views(self.shares@),
        }
    }
}

impl Store {
    /// The store is valid: its state obeys the rules, and no link is held
    /// twice.
    pub open(crate) spec fn wf(&self) -> bool {
        &&& self@.wf()
        &&& self.peer_tags@.no_duplicates()
    }

    /// A store with no rows.
    pub fn new() -> (s: Store)
        ensures
            s.wf(),
            s@ == StoreView::empty(),
    {
        let s = Store {
            users: Vec::new(),
            groups: Vec::new(),
            user_groups: Vec::new(),
            address_books: Vec::new(),
            peers: Vec::new(),
            tags: Vec::new(),
            peer_tags: Vec::new(),
            shares: Vec::new(),
        };
        assert(s@.users =~= Seq::empty());
        assert(s@.groups =~= Seq::empty());
        assert(s@.address_books =~= Seq::empty());
        assert(s@.peers =~= Seq::empty());
        assert(s@.tags =~= Seq::empty());
        assert(s@.shares =~= Seq::empty());
        assert(s@.peer_tags =~= Set::empty());
        s
    }

    /// The row of the address book `guid`.
    pub(crate) fn find_book(&self, guid: &str) -> (r: Option<usize>)
        ensures
            r is Some <==> self@.has_book(guid@),
            r is Some ==> r->0 < self.address_books.len() && self@.address_books[r->0 as int].guid == guid@,
    {
        let mut i: usize = 0;
        while i < self.address_books.len()
            invariant
                i <= self.address_books.len(),
                forall|j: int| 0 <= j < i ==> (#[trigger] self@.address_books[j]).guid != guid@,
            decreases self.address_books.len() - i,
        {
            if text_eq(self.address_books[i].guid.as_str(), guid) {
                assert(book_key()(self@.address_books[i as int]) == guid@);
                return Some(i);
            }
            i += 1;
        }
        None
    }

    /// The row of the personal address book of `user`.
    pub(crate) fn find_personal(&self, user: i64) -> (r: Option<usize>)
        ensures
            r is Some <==> self@.has_personal(user),
            r is Some ==> r->0 < self.address_books.len() && self@.address_books[r->0 as int].owner_id
                == user && self@.address_books[r->0 as int].is_personal,
    {
        let mut i: usize = 0;
        while i < self.address_books.len()
            invariant
                i <= self.address_books.len(),
                forall|j: int|
                    0 <= j < i ==> !((#[trigger] self@.address_books[j]).owner_id == user
                        && self@.address_books[j].is_personal),
            decreases self.address_books.len() - i,
        {
            if self.address_books[i].owner_id == user && self.address_books[i].is_personal {
                assert(self@.address_books[i as int].owner_id == user);
                return Some(i);
            }
            i += 1;
        }
        None
    }

    /// The row of the peer `rid` of the address book `guid`.
    pub(crate) fn find_peer(&self, guid: &str, rid: &str) -> (r: Option<usize>)
        ensures
            r is Some <==> self@.has_peer(guid@, rid@),
            r is Some ==> r->0 < self.peers.len() && self@.peers[r->0 as int].ab_guid == guid@
                && self@.peers[r->0 as int].rustdesk_id == rid@,
    {
        let mut i: usize = 0;
        while i < self.peers.len()
            invariant
                i <= self.peers.len(),
                forall|j: int| 0 <= j < i ==> peer_key()(#[trigger] self@.peers[j]) != (guid@, rid@),
            decreases self.peers.len() - i,
        {
            if text_eq(self.peers[i].ab_guid.as_str(), guid) && text_eq(
                self.peers[i].rustdesk_id.as_str(),
                rid,
            ) {
                assert(peer_key()(self@.peers[i as int]) == (guid@, rid@));
                return Some(i);
            }
            i += 1;
        }
        None
    }

    /// The row of the tag `name` of the address book `guid`.
    pub(crate) fn find_tag(&self, guid: &str, name: &str) -> (r: Option<usize>)
        ensures
            r is Some <==> self@.has_tag(guid@, name@),
            r is Some ==> r->0 < self.tags.len() && self@.tags[r->0 as int].ab_guid == guid@
                && self@.tags[r->0 as int].name == name@,
    {
        let mut i: usize = 0;
        while i < self.tags.len()
            invariant
                i <= self.tags.len(),
                forall|j: int| 0 <= j < i ==> tag_key()(#[trigger] self@.tags[j]) != (guid@, name@),
            decreases self.tags.len() - i,
        {
            if text_eq(self.tags[i].ab_guid.as_str(), guid) && text_eq(self.tags[i].name.as_str(), name) {
                assert(tag_key()(self@.tags[i as int]) == (guid@, name@));
                return Some(i);
            }
            i += 1;
        }
        None
    }

    /// Whether the link `l` is held.
    pub(crate) fn has_link(&self, l: PeerTag) -> (r: bool)
        ensures
            r == self@.peer_tags.contains(l),
    {
        let mut i: usize = 0;
        while i < self.peer_tags.len()
            invariant
                i <= self.peer_tags.len(),
                forall|j: int| 0 <= j < i ==> self.peer_tags@[j] != l,
            decreases self.peer_tags.len() - i,
        {
            if self.peer_tags[i].peer_id == l.peer_id && self.peer_tags[i].tag_id == l.tag_id {
                assert(self.peer_tags@[i as int] == l);
                return true;
            }
            i += 1;
        }
        false
    }

    /// Whether `user` belongs to `group`.
    pub(crate) fn is_member(&self, user: i64, group: i64) -> (r: bool)
        ensures
            r == self@.is_member(user, group),
    {
        let mut i: usize = 0;
        while i < self.user_groups.len()
            invariant
                i <= self.user_groups.len(),
                forall|j: int|
                    0 <= j < i ==> self.user_groups@[j] != (UserGroup { user_id: user, group_id: group }),
            decreases self.user_groups.len() - i,
        {
            if self.user_groups[i].user_id == user && self.user_groups[i].group_id == group {
                assert(self.user_groups@[i as int] == (UserGroup { user_id: user, group_id: group }));
                return true;
            }
            i += 1;
        }
        false
    }

    /// The row of the user with the id `id`.
    pub(crate) fn find_user_by_id(&self, id: i64) -> (r: Option<usize>)
        ensures
            r is Some <==> has_key(self@.users, user_id_key(), id),
            r is Some ==> r->0 < self.users.len() && self@.users[r->0 as int].id == id,
    {
        let mut i: usize = 0;
        while i < self.users.len()
            invariant
                i <= self.users.len(),
                forall|j: int| 0 <= j < i ==> (#[trigger] self@.users[j]).id != id,
            decreases self.users.len() - i,
        {
            if self.users[i].id == id {
                assert(user_id_key()(self@.users[i as int]) == id);
                return Some(i);
            }
            i += 1;
        }
        None
    }

    /// The row of the user with the login name `name`.
    pub(crate) fn find_user_by_name(&self, name: &str) -> (r: Option<usize>)
        ensures
            r is Some <==> has_key(self@.users, user_name_key(), name@),
            r is Some ==> r->0 < self.users.len() && self@.users[r->0 as int].username == name@,
    {
        let mut i: usize = 0;
        while i < self.users.len()
            invariant
                i <= self.users.len(),
                forall|j: int| 0 <= j < i ==> (#[trigger] self@.users[j]).username != name@,
            decreases self.users.len() - i,
        {
            if text_eq(self.users[i].username.as_str(), name) {
                assert(user_name_key()(self@.users[i as int]) == name@);
                return Some(i);
            }
            i += 1;
        }
        None
    }

    /// The row of the group with the id `id`.
    pub(crate) fn find_group_by_id(&self, id: i64) -> (r: Option<usize>)
        ensures
            r is Some <==> has_key(self@.groups, group_id_key(), id),
            r is Some ==> r->0 < self.groups.len() && self@.groups[r->0 as int].id == id,
    {
        let mut i: usize = 0;
        while i < self.groups.len()
            invariant
                i <= self.groups.len(),
                forall|j: int| 0 <= j < i ==> (#[trigger] self@.groups[j]).id != id,
            decreases self.groups.len() - i,
        {
            if self.groups[i].id == id {
                assert(group_id_key()(self@.groups[i as int]) == id);
                return Some(i);
            }
            i += 1;
        }
        None
    }

    /// The row of the group named `name`.
    pub(crate) fn find_group_by_name(&self, name: &str) -> (r: Option<usize>)
        ensures
            r is Some <==> has_key(self@.groups, group_name_key(), name@),
            r is Some ==> r->0 < self.groups.len() && self@.groups[r->0 as int].name == name@,
    {
        let mut i: usize = 0;
        while i < self.groups.len()
            invariant
                i <= self.groups.len(),
                forall|j: int| 0 <= j < i ==> (#[trigger] self@.groups[j]).name != name@,
            decreases self.groups.len() - i,
        {
            if text_eq(self.groups[i].name.as_str(), name) {
                assert(group_name_key()(self@.groups[i as int]) == name@);
                return Some(i);
            }
            i += 1;
        }
        None
    }

    /// The id for the next user row, unless the ids are used up.
    pub(crate) fn next_user_id(&self) -> (r: Option<i64>)
        ensures
            match r {
                Some(id) => id == next_id(self@.user_ids()),
                None => next_id(self@.user_ids()) > i64::MAX,
            },
    {
        let ghost ids = self@.user_ids();
        let mut m: i64 = 0;
        let mut i: usize = 0;
        while i < self.users.len()
            invariant
                i <= self.users.len(),
                ids == self@.user_ids(),
                m == max_id(ids.take(i as int)),
            decreases self.users.len() - i,
        {
            proof {
                lemma_max_id_push(ids.take(i as int), self.users@[i as int].id);
                assert(ids.take(i + 1) =~= ids.take(i as int).push(self.users@[i as int].id));
            }
            if self.users[i].id > m {
                m = self.users[i].id;
            }
            i += 1;
        }
        assert(ids.take(i as int) =~= ids);
        m.checked_add(1)
    }

    /// The id for the next group row, unless the ids are used up.
    pub(crate) fn next_group_id(&self) -> (r: Option<i64>)
        ensures
            match r {
                Some(id) => id == next_id(self@.group_ids()),
                None => next_id(self@.group_ids()) > i64::MAX,
            },
    {
        let ghost ids = self@.group_ids();
        let mut m: i64 = 0;
        let mut i: usize = 0;
        while i < self.groups.len()
            invariant
                i <= self.groups.len(),
                ids == self@.group_ids(),
                m == max_id(ids.take(i as int)),
            decreases self.groups.len() - i,
        {
            proof {
                lemma_max_id_push(ids.take(i as int), self.groups@[i as int].id);
                assert(ids.take(i + 1) =~= ids.take(i as int).push(self.groups@[i as int].id));
            }
            if self.groups[i].id > m {
                m = self.groups[i].id;
            }
            i += 1;
        }
        assert(ids.take(i as int) =~= ids);
        m.checked_add(1)
    }

    /// The id for the next peer row, unless the ids are used up.
    pub(crate) fn next_peer_id(&self) -> (r: Option<i64>)
        ensures
            match r {
                Some(id) => id == next_id(self@.peer_ids()),
                None => next_id(self@.peer_ids()) > i64::MAX,
            },
    {
        next_peer_id_in(&self.peers)
    }

    /// The id for the next tag row, unless the ids are used up.
    pub(crate) fn next_tag_id(&self) -> (r: Option<i64>)
        ensures
            match r {
                Some(id) => id == next_id(self@.tag_ids()),
                None => next_id(self@.tag_ids()) > i64::MAX,
            },
    {
        next_tag_id_in(&self.tags)
    }
}

/// The id for the next row of a table of peers, unless the ids are used up.
pub(crate) fn next_peer_id_in(rows: &Vec<Peer>) -> (r: Option<i64>)
    ensures
        match r {
            Some(id) => id == next_id(views(rows@).map_values(peer_id_key())),
            None => next_id(views(rows@).map_values(peer_id_key())) > i64::MAX,
        },
{
    let ghost ids = views(rows@).map_values(peer_id_key());
    let mut m: i64 = 0;
    let mut i: usize = 0;
    while i < rows.len()
        invariant
            i <= rows.len(),
            ids == views(rows@).map_values(peer_id_key()),
            m == max_id(ids.take(i as int)),
        decreases rows.len() - i,
    {
        proof {
            lemma_max_id_push(ids.take(i as int), rows@[i as int].id);
            assert(ids.take(i + 1) =~= ids.take(i as int).push(rows@[i as int].id));
        }
        if rows[i].id > m {
            m = rows[i].id;
        }
        i += 1;
    }
    assert(ids.take(i as int) =~= ids);
    m.checked_add(1)
}

/// The id for the next row of a table of tags, unless the ids are used up.
pub(crate) fn next_tag_id_in(rows: &Vec<Tag>) -> (r: Option<i64>)
    ensures
        match r {
            Some(id) => id == next_id(views(rows@).map_values(tag_id_key())),
            None => next_id(views(rows@).map_values(tag_id_key())) > i64::MAX,
        },
{
    let ghost ids = views(rows@).map_values(tag_id_key());
    let mut m: i64 = 0;
    let mut i: usize = 0;
    while i < rows.len()
        invariant
            i <= rows.len(),
            ids == views(rows@).map_values(tag_id_key()),
            m == max_id(ids.take(i as int)),
        decreases rows.len() - i,
    {
        proof {
            lemma_max_id_push(ids.take(i as int), rows@[i as int].id);
            assert(ids.take(i + 1) =~= ids.take(i as int).push(rows@[i as int].id));
        }
        if rows[i].id > m {
            m = rows[i].id;
        }
        i += 1;
    }
    assert(ids.take(i as int) =~= ids);
    m.checked_add(1)
}

} // verus!
