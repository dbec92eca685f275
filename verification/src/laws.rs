//! What holds of the engine as a whole, proved from the meaning of its
//! operations.

use vstd::prelude::*;
use crate::access::{lemma_personal_is_unique, lemma_with_personal_wf, spec_ensure_personal, turned_away};
use crate::error::{ApiError, ErrorKind};
use crate::listing::lemma_listing_of_ascending;
use crate::models::address_book::LegacyAbDataView;
use crate::models::peer::{AddPeerRequest, PeerTag, PeerView};
use crate::models::tag::TagView;
use crate::peers::{
    lemma_book_peers_props, lemma_relinked_wf, lemma_with_peer_wf, linked_to, peer_in_book, peer_rid_key,
};
use crate::removal::{lemma_without_peers_wf, peer_selected, peers_kept, tags_kept};
use crate::rows::{
    lemma_filter_all, lemma_filter_map_parallel, lemma_filter_members, lemma_filter_none,
    lemma_filter_origin, lemma_next_id_is_fresh, next_id,
};
use crate::store::{peer_key, tag_id_key, tag_key, StoreView};
use crate::sync::{
    colors_in, colors_of, ids_left, legacy_id_key, lemma_cleared_wf, lemma_replaced_wf, row_pair,
};
use crate::tags::{lemma_book_tags_props, tag_in_book, tag_name_key};
use crate::text::{lemma_ascending_distinct, texts};

verus! {

/// Making sure of a personal address book a second time returns the same
/// address book as the first time and changes nothing more, whatever
/// identifiers are at hand for a new one; and the state that is left holds
/// no two personal address books of the user.
pub proof fn law_personal_book_is_made_once(
    s: StoreView,
    user: i64,
    fresh1: Seq<char>,
    now1: Seq<char>,
    fresh2: Seq<char>,
    now2: Seq<char>,
)
    requires
        s.wf(),
    ensures
        ({
            let first = spec_ensure_personal(s, user, fresh1, now1);
            let second = spec_ensure_personal(first.0, user, fresh2, now2);
            &&& first.0.wf()
            &&& second.0.wf()
            &&& first.1 is Ok ==> second.1 == first.1 && second.0 == first.0
            &&& forall|a: Seq<char>, b: Seq<char>|
                second.0.is_personal_of(user, a) && second.0.is_personal_of(user, b) ==> a == b
        }),
{
    let first = spec_ensure_personal(s, user, fresh1, now1);
    let second = spec_ensure_personal(first.0, user, fresh2, now2);
    if !s.has_personal(user) && !s.has_book(fresh1) {
        lemma_with_personal_wf(s, user, fresh1, now1);
    }
    if !first.0.has_personal(user) && !first.0.has_book(fresh2) {
        lemma_with_personal_wf(first.0, user, fresh2, now2);
    }
    assert forall|a: Seq<char>, b: Seq<char>|
        second.0.is_personal_of(user, a) && second.0.is_personal_of(user, b) implies a == b by {
        lemma_personal_is_unique(second.0, user, a);
        lemma_personal_is_unique(second.0, user, b);
    }
}

/// Whoever neither owns an address book nor is reached by a share of it
/// may not act on it, and neither may anyone act on an address book that
/// does not exist: both are refused alike.
pub proof fn law_denial_hides_existence(s: StoreView, user: i64, guid: Seq<char>)
    ensures
        !s.has_book(guid) ==> !s.can_access(user, guid),
        !s.owns(user, guid) && !s.shared_with(user, guid) ==> !s.can_access(user, guid),
{
    if !s.has_book(guid) && s.owns(user, guid) {
        let i = choose|i: int|
            0 <= i < s.address_books.len() && (#[trigger] s.address_books[i]).guid == guid
                && s.address_books[i].owner_id == user;
        assert(crate::store::book_key()(s.address_books[i]) == guid);
    }
}

/// Any two requests that are turned away from an address book they named
/// are told the same, whoever asked, whatever they named and whatever the
/// state was.
pub proof fn law_denial_is_uniform<T, U>(
    s1: StoreView,
    user1: i64,
    guid1: Seq<char>,
    after1: StoreView,
    r1: Result<T, ApiError>,
    s2: StoreView,
    user2: i64,
    guid2: Seq<char>,
    after2: StoreView,
    r2: Result<U, ApiError>,
)
    requires
        guid1.len() > 0,
        guid2.len() > 0,
        turned_away(s1, user1, guid1, after1, r1),
        turned_away(s2, user2, guid2, after2, r2),
    ensures
        r1->Err_0.spec_kind() == r2->Err_0.spec_kind(),
        r1->Err_0.detail() == r2->Err_0.detail(),
        after1 == s1,
        after2 == s2,
{
}

/// Deleting peers that the address book does not have changes nothing.
pub proof fn law_deleting_absent_peers_changes_nothing(s: StoreView, g: Seq<char>, rids: Seq<Seq<char>>)
    requires
        s.wf(),
        forall|i: int| 0 <= i < rids.len() ==> !s.has_peer(g, #[trigger] rids[i]),
    ensures
        s.without_peers(g, Some(rids)) == s,
{
    assert forall|i: int| 0 <= i < s.peers.len() implies !peer_selected(g, Some(rids), #[trigger] s.peers[i]) by {
        if peer_selected(g, Some(rids), s.peers[i]) {
            let k = choose|k: int| 0 <= k < rids.len() && rids[k] == s.peers[i].rustdesk_id;
            assert(peer_key()(s.peers[i]) == (g, rids[k]));
        }
    }
    lemma_filter_all(s.peers, peers_kept(g, Some(rids)));
    assert(s.peer_tags.filter(s.links_clear_of_peers(g, Some(rids))) =~= s.peer_tags);
}

/// Deleting the same peers a second time changes nothing more.
pub proof fn law_deleting_peers_twice_is_deleting_once(s: StoreView, g: Seq<char>, rids: Seq<Seq<char>>)
    requires
        s.wf(),
    ensures
        s.without_peers(g, Some(rids)).without_peers(g, Some(rids)) == s.without_peers(g, Some(rids)),
{
    let t = s.without_peers(g, Some(rids));
    lemma_without_peers_wf(s, g, Some(rids));
    assert forall|i: int| 0 <= i < rids.len() implies !t.has_peer(g, #[trigger] rids[i]) by {
        if t.has_peer(g, rids[i]) {
            let k = choose|k: int| 0 <= k < t.peers.len() && peer_key()(#[trigger] t.peers[k]) == (g, rids[i]);
            let o = lemma_filter_origin(s.peers, peers_kept(g, Some(rids)), k);
            assert(peer_selected(g, Some(rids), s.peers[o]));
        }
    }
    law_deleting_absent_peers_changes_nothing(t, g, rids);
}

impl StoreView {
    /// The peer `rid` of the address book `g` is linked to its tag `name`.
    pub open spec fn linked(self, g: Seq<char>, rid: Seq<char>, name: Seq<char>) -> bool {
        exists|i: int, j: int|
            #![trigger self.peers[i], self.tags[j]]
            0 <= i < self.peers.len() && 0 <= j < self.tags.len() && peer_key()(self.peers[i]) == (g, rid)
                && tag_key()(self.tags[j]) == (g, name) && self.peer_tags.contains(
                PeerTag { peer_id: self.peers[i].id, tag_id: self.tags[j].id },
            )
    }
}

/// Adding a peer with a list of tag names succeeds whether or not the
/// names exist, and links the peer to exactly those of the names that are
/// tags of the address book.
pub proof fn law_upsert_links_existing_tags_only(
    s: StoreView,
    g: Seq<char>,
    req: AddPeerRequest,
    now: Seq<char>,
)
    requires
        s.wf(),
        req.tags@.len() > 0,
        s.has_peer(g, req.id@) || next_id(s.peer_ids()) <= i64::MAX,
    ensures
        s.upsert_peer(g, req, now).1 is Ok,
        s.upsert_peer(g, req, now).0.wf(),
        s.upsert_peer(g, req, now).0.tags == s.tags,
        forall|name: Seq<char>|
            s.upsert_peer(g, req, now).0.linked(g, req.id@, name) <==> texts(req.tags@).contains(name)
                && s.has_tag(g, name),
{
    let m = s.with_peer(g, req, now);
    let t = s.upsert_peer(g, req, now).0;
    let names = texts(req.tags@);
    lemma_with_peer_wf(s, g, req, now);
    lemma_relinked_wf(m, g, req.id@, names);
    assert(t == m.relinked(g, req.id@, names));
    let at = choose|at: int| 0 <= at < m.peers.len() && peer_key()(#[trigger] m.peers[at]) == (g, req.id@);
    assert(m.is_row_of(g, req.id@, m.peers[at].id));
    assert forall|name: Seq<char>| t.linked(g, req.id@, name) implies names.contains(name) && s.has_tag(
        g,
        name,
    ) by {
        let (i, j) = choose|i: int, j: int|
            #![trigger t.peers[i], t.tags[j]]
            0 <= i < t.peers.len() && 0 <= j < t.tags.len() && peer_key()(t.peers[i]) == (g, req.id@)
                && tag_key()(t.tags[j]) == (g, name) && t.peer_tags.contains(
                PeerTag { peer_id: t.peers[i].id, tag_id: t.tags[j].id },
            );
        assert(m.is_row_of(g, req.id@, m.peers[i].id));
        assert(m.named_tag(g, names, m.tags[j].id));
        let x = choose|x: int|
            0 <= x < m.tags.len() && (#[trigger] m.tags[x]).id == m.tags[j].id && m.tags[x].ab_guid == g
                && names.contains(m.tags[x].name);
        if x < j {
            assert(tag_id_key()(m.tags[x]) != tag_id_key()(m.tags[j]));
        } else if j < x {
            assert(tag_id_key()(m.tags[j]) != tag_id_key()(m.tags[x]));
        }
        assert(tag_key()(s.tags[j]) == (g, name));
    }
    assert forall|name: Seq<char>| names.contains(name) && s.has_tag(g, name) implies t.linked(
        g,
        req.id@,
        name,
    ) by {
        let j = choose|j: int| 0 <= j < s.tags.len() && tag_key()(#[trigger] s.tags[j]) == (g, name);
        assert(m.tags[j].id == s.tags[j].id);
        assert(m.named_tag(g, names, m.tags[j].id));
        assert(t.peer_tags.contains(PeerTag { peer_id: m.peers[at].id, tag_id: m.tags[j].id }));
        assert(peer_key()(t.peers[at]) == (g, req.id@) && tag_key()(t.tags[j]) == (g, name));
    }
}

/// A list of names and colours without a name twice gives each name its
/// colour.
pub proof fn lemma_colors_of_lookup(pairs: Seq<(Seq<char>, i64)>, i: int)
    requires
        0 <= i < pairs.len(),
        forall|a: int, b: int| 0 <= a < b < pairs.len() ==> pairs[a].0 != pairs[b].0,
    ensures
        colors_of(pairs).contains_key(pairs[i].0),
        colors_of(pairs)[pairs[i].0] == pairs[i].1,
    decreases pairs.len(),
{
    let init = pairs.drop_last();
    if i < pairs.len() - 1 {
        assert forall|a: int, b: int| 0 <= a < b < init.len() implies init[a].0 != init[b].0 by {
            assert(pairs[a].0 != pairs[b].0);
        }
        lemma_colors_of_lookup(init, i);
        assert(init[i] == pairs[i]);
        assert(pairs[i].0 != pairs[pairs.len() - 1].0);
    }
}

/// Importing the export of an address book succeeds where ids are left,
/// and leaves a valid state.
proof fn lemma_round_trip_succeeds(s: StoreView, g: Seq<char>, cm: Map<Seq<char>, i64>, now: Seq<char>)
    requires
        s.wf(),
        cm == colors_of(s.book_tags(g).map_values(row_pair())),
        ids_left(s.cleared(g).tag_ids(), s.book_tags(g).len()),
        ids_left(s.cleared(g).peer_ids(), s.book_peers(g).len()),
    ensures
        ({
            let doc = s.exported(g);
            let n = s.replaced(g, doc, cm, now);
            &&& StoreView::importable(doc)
            &&& s.import(g, doc, cm, now) == (n, Ok::<(), ErrorKind>(()))
            &&& n.wf()
        }),
{
    let doc = s.exported(g);
    lemma_exports_are_importable(s, g);
    lemma_replaced_wf(s, g, doc, cm, now);
}

/// The tags that importing the export of an address book leaves in it:
/// those that it has brought, which stand for the tags that were there.
proof fn lemma_round_trip_tags(s: StoreView, g: Seq<char>, cm: Map<Seq<char>, i64>, now: Seq<char>)
    requires
        s.wf(),
        cm == colors_of(s.book_tags(g).map_values(row_pair())),
        ids_left(s.cleared(g).tag_ids(), s.book_tags(g).len()),
    ensures
        ({
            let doc = s.exported(g);
            let c = s.cleared(g);
            let n = s.replaced(g, doc, cm, now);
            let nt = StoreView::imported_tags(g, doc.tags, cm, next_id(c.tag_ids()));
            &&& n.book_tags(g) == nt
            &&& nt.len() == s.book_tags(g).len()
            &&& forall|j: int|
                0 <= j < nt.len() ==> (#[trigger] nt[j]).id == next_id(c.tag_ids()) + j && nt[j].name
                    == s.book_tags(g)[j].name && nt[j].color == s.book_tags(g)[j].color && nt[j].ab_guid
                    == g
        }),
{
    let doc = s.exported(g);
    let c = s.cleared(g);
    let tb = next_id(c.tag_ids());
    let nt = StoreView::imported_tags(g, doc.tags, cm, tb);
    let t = s.book_tags(g);
    lemma_book_tags_props(s, g);
    lemma_ascending_distinct(t.map_values(tag_name_key()));
    lemma_cleared_wf(s, g);
    lemma_next_id_is_fresh(c.tag_ids());
    let pairs = t.map_values(row_pair());
    assert forall|j: int| 0 <= j < nt.len() implies (#[trigger] nt[j]).id == tb + j && nt[j].name
        == t[j].name && nt[j].color == t[j].color && nt[j].ab_guid == g by {
        assert forall|a: int, b: int| 0 <= a < b < pairs.len() implies pairs[a].0 != pairs[b].0 by {
            assert(t.map_values(tag_name_key())[a] != t.map_values(tag_name_key())[b]);
        }
        lemma_colors_of_lookup(pairs, j);
        assert(pairs[j] == (t[j].name, t[j].color));
        assert(doc.tags[j] == t[j].name);
    }
    assert forall|j: int| 0 <= j < c.tags.len() implies !tag_in_book(g)(#[trigger] c.tags[j]) by {}
    lemma_filter_none(c.tags, tag_in_book(g));
    assert forall|j: int| 0 <= j < nt.len() implies tag_in_book(g)(#[trigger] nt[j]) by {}
    lemma_filter_all(nt, tag_in_book(g));
    Seq::filter_distributes_over_add(c.tags, nt, tag_in_book(g));
    assert(Seq::<TagView>::empty() + nt =~= nt);
    assert(nt.map_values(tag_name_key()) =~= t.map_values(tag_name_key()));
    lemma_listing_of_ascending(nt, tag_name_key());
}

/// The peers that importing the export of an address book leaves in it:
/// those that it has brought, which stand for the peers that were there.
proof fn lemma_round_trip_peers(s: StoreView, g: Seq<char>, cm: Map<Seq<char>, i64>, now: Seq<char>)
    requires
        s.wf(),
        ids_left(s.cleared(g).peer_ids(), s.book_peers(g).len()),
    ensures
        ({
            let doc = s.exported(g);
            let c = s.cleared(g);
            let n = s.replaced(g, doc, cm, now);
            let np = StoreView::imported_peers(g, doc.peers, now, next_id(c.peer_ids()));
            &&& n.book_peers(g) == np
            &&& np.len() == s.book_peers(g).len()
            &&& forall|i: int|
                0 <= i < np.len() ==> (#[trigger] np[i]).id == next_id(c.peer_ids()) + i
                    && np[i].rustdesk_id == s.book_peers(g)[i].rustdesk_id && np[i].ab_guid == g
        }),
{
    let doc = s.exported(g);
    let c = s.cleared(g);
    let pb = next_id(c.peer_ids());
    let np = StoreView::imported_peers(g, doc.peers, now, pb);
    let p = s.book_peers(g);
    lemma_book_peers_props(s, g);
    lemma_cleared_wf(s, g);
    lemma_next_id_is_fresh(c.peer_ids());
    assert forall|i: int| 0 <= i < np.len() implies (#[trigger] np[i]).id == pb + i && np[i].rustdesk_id
        == p[i].rustdesk_id && np[i].ab_guid == g by {
        assert(doc.peers[i] == s.legacy_peer()(p[i]));
    }
    assert forall|j: int| 0 <= j < c.peers.len() implies !peer_in_book(g)(#[trigger] c.peers[j]) by {}
    lemma_filter_none(c.peers, peer_in_book(g));
    assert forall|j: int| 0 <= j < np.len() implies peer_in_book(g)(#[trigger] np[j]) by {}
    lemma_filter_all(np, peer_in_book(g));
    Seq::filter_distributes_over_add(c.peers, np, peer_in_book(g));
    assert(Seq::<PeerView>::empty() + np =~= np);
    assert(np.map_values(peer_rid_key()) =~= p.map_values(peer_rid_key()));
    lemma_listing_of_ascending(np, peer_rid_key());
}

/// After the import of an export, a new peer is linked to a new tag
/// exactly if the peer that it stands for was linked to the tag that the
/// new tag stands for.
proof fn lemma_round_trip_link(
    s: StoreView,
    g: Seq<char>,
    cm: Map<Seq<char>, i64>,
    now: Seq<char>,
    i: int,
    j: int,
)
    requires
        s.wf(),
        cm == colors_of(s.book_tags(g).map_values(row_pair())),
        ids_left(s.cleared(g).tag_ids(), s.book_tags(g).len()),
        ids_left(s.cleared(g).peer_ids(), s.book_peers(g).len()),
        0 <= i < s.book_peers(g).len(),
        0 <= j < s.book_tags(g).len(),
    ensures
        ({
            let doc = s.exported(g);
            let c = s.cleared(g);
            let n = s.replaced(g, doc, cm, now);
            n.peer_tags.contains(
                PeerTag {
                    peer_id: (next_id(c.peer_ids()) + i) as i64,
                    tag_id: (next_id(c.tag_ids()) + j) as i64,
                },
            ) <==> s.peer_tags.contains(
                PeerTag { peer_id: s.book_peers(g)[i].id, tag_id: s.book_tags(g)[j].id },
            )
        }),
{
    let doc = s.exported(g);
    let c = s.cleared(g);
    let n = s.replaced(g, doc, cm, now);
    let tb = next_id(c.tag_ids());
    let pb = next_id(c.peer_ids());
    let t = s.book_tags(g);
    let p = s.book_peers(g);
    let l = PeerTag { peer_id: (pb + i) as i64, tag_id: (tb + j) as i64 };
    let was = linked_to(s.peer_tags, p[i].id);
    lemma_book_tags_props(s, g);
    lemma_book_peers_props(s, g);
    lemma_ascending_distinct(t.map_values(tag_name_key()));
    lemma_cleared_wf(s, g);
    lemma_next_id_is_fresh(c.tag_ids());
    lemma_next_id_is_fresh(c.peer_ids());
    assert(doc.peers[i] == s.legacy_peer()(p[i]));
    assert(doc.tags[j] == t[j].name);
    let shown = t.filter(was).map_values(tag_name_key());
    assert(doc.peers[i].tags == shown);
    lemma_filter_members(t, was);
    // a link that was kept points at a peer that was kept, whose id is below the new ones
    if c.peer_tags.contains(l) {
        assert(c.link_ok(l));
        let (a, b) = choose|a: int, b: int|
            #![trigger c.peers[a], c.tags[b]]
            0 <= a < c.peers.len() && 0 <= b < c.tags.len() && c.peers[a].id == l.peer_id && c.tags[b].id
                == l.tag_id && c.peers[a].ab_guid == c.tags[b].ab_guid;
        assert(c.peer_ids()[a] == c.peers[a].id);
    }
    if shown.contains(t[j].name) {
        let k = choose|k: int| 0 <= k < shown.len() && shown[k] == t[j].name;
        let e = t.filter(was)[k];
        assert(t.filter(was).contains(e));
        let x = choose|x: int| 0 <= x < t.len() && t[x] == e;
        assert(t.map_values(tag_name_key())[x] == t.map_values(tag_name_key())[j]);
        assert(x == j);
        assert(was(t[j]));
    }
    if was(t[j]) {
        assert(t.contains(t[j]));
        assert(t.filter(was).contains(t[j]));
        let k = choose|k: int| 0 <= k < t.filter(was).len() && t.filter(was)[k] == t[j];
        assert(shown[k] == t[j].name);
    }
    if StoreView::imported_links(doc, pb, tb).contains(l) {
        let (a, b) = choose|a: int, b: int|
            #![trigger doc.peers[a], doc.tags[b]]
            0 <= a < doc.peers.len() && 0 <= b < doc.tags.len() && StoreView::joins(l, pb, tb, a, b)
                && doc.peers[a].tags.contains(doc.tags[b]);
        assert(a == i && b == j);
    }
    if shown.contains(t[j].name) {
        assert(StoreView::joins(l, pb, tb, i, j) && doc.peers[i].tags.contains(doc.tags[j]));
        assert(StoreView::imported_links(doc, pb, tb).contains(l));
    }
}

/// Importing the export of an address book, with the colours of its tags,
/// reproduces the address book: the same tags with the same colours, the
/// same peers, and each peer linked to the same tags, whatever order the
/// rows had. What the document does not hold is not kept: the note of a
/// peer, the times of the rows and their ids. Only where the row ids left
/// do not do for the rows of the address book does the import fail, and
/// then it changes nothing.
pub proof fn law_import_of_export_keeps_the_book(s: StoreView, g: Seq<char>, now: Seq<char>)
    requires
        s.wf(),
    ensures
        ({
            let doc = s.exported(g);
            let colors = colors_of(s.book_tags(g).map_values(row_pair()));
            let out = s.import(g, doc, colors, now);
            let room = ids_left(s.cleared(g).tag_ids(), s.book_tags(g).len()) && ids_left(
                s.cleared(g).peer_ids(),
                s.book_peers(g).len(),
            );
            &&& out.0.wf()
            &&& out.1 is Ok <==> room
            &&& !room ==> out.0 == s && out.1 == Err::<(), ErrorKind>(ErrorKind::Internal)
            &&& room ==> {
                &&& out.0.book_tags(g).map_values(row_pair()) == s.book_tags(g).map_values(row_pair())
                &&& out.0.book_peers(g).map_values(out.0.legacy_peer()) == s.book_peers(g).map_values(
                    s.legacy_peer(),
                )
                &&& out.0.exported(g) == doc
            }
        }),
{
    let doc = s.exported(g);
    let cm = colors_of(s.book_tags(g).map_values(row_pair()));
    let c = s.cleared(g);
    let n = s.replaced(g, doc, cm, now);
    let tb = next_id(c.tag_ids());
    let pb = next_id(c.peer_ids());
    let nt = StoreView::imported_tags(g, doc.tags, cm, tb);
    let np = StoreView::imported_peers(g, doc.peers, now, pb);
    let t = s.book_tags(g);
    let p = s.book_peers(g);
    lemma_exports_are_importable(s, g);
    assert(doc.tags.len() == t.len() && doc.peers.len() == p.len());
    if ids_left(c.tag_ids(), t.len()) && ids_left(c.peer_ids(), p.len()) {
        lemma_round_trip_succeeds(s, g, cm, now);
        lemma_round_trip_tags(s, g, cm, now);
        lemma_round_trip_peers(s, g, cm, now);
        lemma_book_peers_props(s, g);
        lemma_next_id_is_fresh(c.tag_ids());
        lemma_next_id_is_fresh(c.peer_ids());
        assert(nt.map_values(row_pair()) =~= t.map_values(row_pair()));
        assert(nt.map_values(tag_name_key()) =~= t.map_values(tag_name_key()));
        assert forall|i: int| 0 <= i < np.len() implies n.legacy_peer()(#[trigger] np[i])
            == s.legacy_peer()(p[i]) by {
            assert(doc.peers[i] == s.legacy_peer()(p[i]));
            let now_linked = linked_to(n.peer_tags, np[i].id);
            let was_linked = linked_to(s.peer_tags, p[i].id);
            assert forall|j: int| 0 <= j < nt.len() implies now_linked(#[trigger] nt[j]) == was_linked(
                t[j],
            ) by {
                lemma_round_trip_link(s, g, cm, now, i, j);
            }
            assert forall|j: int| 0 <= j < nt.len() implies tag_name_key()(#[trigger] nt[j])
                == tag_name_key()(t[j]) by {}
            lemma_filter_map_parallel(nt, t, now_linked, was_linked, tag_name_key(), tag_name_key());
            assert(n.tag_names_of(g, np[i].id) == s.tag_names_of(g, p[i].id));
        }
        assert(np.map_values(n.legacy_peer()) =~= p.map_values(s.legacy_peer()));
    }
}

/// The same of a document as an export returns it, whose colours are read
/// from its colour text: importing it reproduces the address book, and
/// exporting again gives a document of the same kind.
pub proof fn law_import_of_exported_document_keeps_the_book(
    s: StoreView,
    g: Seq<char>,
    doc: LegacyAbDataView,
    now: Seq<char>,
)
    requires
        s.wf(),
        s.exports(g, doc),
    ensures
        ({
            let out = s.import(g, doc, colors_in(doc), now);
            let room = ids_left(s.cleared(g).tag_ids(), s.book_tags(g).len()) && ids_left(
                s.cleared(g).peer_ids(),
                s.book_peers(g).len(),
            );
            &&& out.0.wf()
            &&& out.1 is Ok <==> room
            &&& !room ==> out.0 == s && out.1 == Err::<(), ErrorKind>(ErrorKind::Internal)
            &&& room ==> {
                &&& out.0.book_tags(g).map_values(row_pair()) == s.book_tags(g).map_values(row_pair())
                &&& out.0.book_peers(g).map_values(out.0.legacy_peer()) == s.book_peers(g).map_values(
                    s.legacy_peer(),
                )
                &&& out.0.exports(g, doc)
            }
        }),
{
    law_import_of_export_keeps_the_book(s, g, now);
}

/// Whether an import succeeds does not depend on the colours, and where
/// the colour text of the document cannot be read, every tag that the
/// import brings gets the default colour.
pub proof fn law_unreadable_colors_mean_default(
    s: StoreView,
    g: Seq<char>,
    doc: LegacyAbDataView,
    colors: Map<Seq<char>, i64>,
    now: Seq<char>,
)
    ensures
        s.import(g, doc, colors_in(doc), now).1 == s.import(g, doc, colors, now).1,
        colors_in(doc) == Map::<Seq<char>, i64>::empty() ==> forall|i: int, base: int|
            0 <= i < doc.tags.len() ==> (#[trigger] StoreView::imported_tags(
                g,
                doc.tags,
                colors_in(doc),
                base,
            )[i]).color == 4278190080,
{
}

/// An import that fails leaves the state exactly as it was.
pub proof fn law_failed_import_changes_nothing(
    s: StoreView,
    g: Seq<char>,
    doc: LegacyAbDataView,
    colors: Map<Seq<char>, i64>,
    now: Seq<char>,
)
    ensures
        s.import(g, doc, colors, now).1 is Err ==> s.import(g, doc, colors, now).0 == s,
        s.import(g, doc, colors, now).1 is Ok <==> StoreView::importable(doc) && ids_left(
            s.cleared(g).tag_ids(),
            doc.tags.len(),
        ) && ids_left(s.cleared(g).peer_ids(), doc.peers.len()),
{
}

/// An import touches the address book that it replaces and no other: the
/// peers and tags of every other address book stay as they were, row for
/// row, and so do the users, the groups, the address books themselves and
/// the shares.
pub proof fn law_import_leaves_other_books(
    s: StoreView,
    g: Seq<char>,
    doc: LegacyAbDataView,
    colors: Map<Seq<char>, i64>,
    now: Seq<char>,
)
    requires
        s.wf(),
    ensures
        ({
            let out = s.import(g, doc, colors, now).0;
            &&& out.peers.filter(peers_kept(g, None)) == s.peers.filter(peers_kept(g, None))
            &&& out.tags.filter(tags_kept(g, None)) == s.tags.filter(tags_kept(g, None))
            &&& out.users == s.users
            &&& out.groups == s.groups
            &&& out.user_groups == s.user_groups
            &&& out.address_books == s.address_books
            &&& out.shares == s.shares
        }),
{
    let out = s.import(g, doc, colors, now).0;
    if out != s {
        let c = s.cleared(g);
        let np = StoreView::imported_peers(g, doc.peers, now, next_id(c.peer_ids()));
        let nt = StoreView::imported_tags(g, doc.tags, colors, next_id(c.tag_ids()));
        lemma_cleared_wf(s, g);
        assert forall|i: int| 0 <= i < c.peers.len() implies peers_kept(g, None)(#[trigger] c.peers[i]) by {}
        assert forall|i: int| 0 <= i < np.len() implies !peers_kept(g, None)(#[trigger] np[i]) by {}
        lemma_filter_all(c.peers, peers_kept(g, None));
        lemma_filter_none(np, peers_kept(g, None));
        Seq::filter_distributes_over_add(c.peers, np, peers_kept(g, None));
        assert(c.peers + Seq::<PeerView>::empty() =~= c.peers);
        assert forall|i: int| 0 <= i < c.tags.len() implies tags_kept(g, None)(#[trigger] c.tags[i]) by {}
        assert forall|i: int| 0 <= i < nt.len() implies !tags_kept(g, None)(#[trigger] nt[i]) by {}
        lemma_filter_all(c.tags, tags_kept(g, None));
        lemma_filter_none(nt, tags_kept(g, None));
        Seq::filter_distributes_over_add(c.tags, nt, tags_kept(g, None));
        assert(c.tags + Seq::<TagView>::empty() =~= c.tags);
    }
}

/// The export of an address book names no tag twice and no peer twice.
pub proof fn lemma_exports_are_importable(s: StoreView, g: Seq<char>)
    requires
        s.wf(),
    ensures
        StoreView::importable(s.exported(g)),
{
    let doc = s.exported(g);
    let t = s.book_tags(g);
    let p = s.book_peers(g);
    lemma_book_tags_props(s, g);
    lemma_book_peers_props(s, g);
    lemma_ascending_distinct(t.map_values(tag_name_key()));
    lemma_ascending_distinct(p.map_values(peer_rid_key()));
    assert forall|a: int, b: int|
        #![trigger doc.peers[a], doc.peers[b]]
        0 <= a < b < doc.peers.len() implies legacy_id_key()(doc.peers[a]) != legacy_id_key()(
        doc.peers[b],
    ) by {
        assert(p.map_values(peer_rid_key())[a] != p.map_values(peer_rid_key())[b]);
    }
}

} // verus!
