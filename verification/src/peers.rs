//! The peers of an address book: listing them page by page, adding or
//! overwriting one together with its tags, and deleting them.

use vstd::prelude::*;
use crate::access::{acted_on, entered, kind_of, let_through, resolve_ab_guid, turned_away, welcome};
use crate::error::{ApiError, ErrorKind};
use crate::listing::{lemma_listing_props, lemma_listing_push, lemma_slot_is, listing, slot};
use crate::models::peer::{
    AddPeerRequest, DeletePeersRequest, Peer, PeerPayload, PeerPayloadView, PeerTag, PeerView,
    PeersQuery, PeersResponse, UpdatePeerRequest,
};
use crate::models::tag::{Tag, TagView};
use crate::rows::{
    has_key, lemma_distinct_push, lemma_filter_members, lemma_filter_order, lemma_filter_step,
    lemma_next_id_is_fresh, lemma_push_members, lemma_push_no_duplicates, lemma_take_members, next_id,
    views,
};
use crate::store::{peer_id_key, peer_key, tag_key, Store, StoreView};
use crate::tags::{reported_total, tag_name_key, total_of};
use crate::text::{ascending, copy_texts, text_before, text_eq, text_lt, texts};

verus! {

/// The external id of a peer row.
pub open spec fn peer_rid_key() -> spec_fn(PeerView) -> Seq<char> {
    |p: PeerView| p.rustdesk_id
}

/// The peers of the address book `g`.
pub open spec fn peer_in_book(g: Seq<char>) -> spec_fn(PeerView) -> bool {
    |p: PeerView| p.ab_guid == g
}

/// The tags that the peer with the row id `pid` is linked to.
pub open spec fn linked_to(links: Set<PeerTag>, pid: i64) -> spec_fn(TagView) -> bool {
    |t: TagView| links.contains(PeerTag { peer_id: pid, tag_id: t.id })
}

/// The peer `req.id` of the address book `g` with every field that a
/// client can set taken from `req`, refreshed at `now`; any other peer as
/// it is.
pub open spec fn overwritten(g: Seq<char>, req: AddPeerRequest, now: Seq<char>) -> spec_fn(
    PeerView,
) -> PeerView {
    |p: PeerView|
        if p.ab_guid == g && p.rustdesk_id == req.id@ {
            PeerView {
                hash: req.hash@,
                username: req.username@,
                hostname: req.hostname@,
                platform: req.platform@,
                alias: req.alias@,
                note: req.note@,
                updated_at: now,
                ..p
            }
        } else {
            p
        }
}

/// The offset at which the page `current` starts; the pages are numbered
/// from 1, and page 0 stands for the start.
pub open spec fn page_offset(current: i64, page_size: i64) -> int {
    if current > 0 {
        (current - 1) * page_size
    } else {
        0
    }
}

/// Where a page starts among `n` rows: at its offset, but not before the
/// first row nor behind the last.
pub open spec fn page_start(n: nat, current: i64, page_size: i64) -> int {
    let at = page_offset(current, page_size);
    if at < 0 {
        0
    } else if at > n {
        n as int
    } else {
        at
    }
}

/// Where a page ends among `n` rows: `page_size` rows behind its start or
/// at the last row; a negative page size sets no limit.
pub open spec fn page_end(n: nat, current: i64, page_size: i64) -> int {
    let start = page_start(n, current, page_size);
    if page_size < 0 || start + page_size > n {
        n as int
    } else {
        start + page_size
    }
}

/// The rows of a page.
pub open spec fn page_of<V>(rows: Seq<V>, current: i64, page_size: i64) -> Seq<V> {
    rows.subrange(page_start(rows.len(), current, page_size), page_end(rows.len(), current, page_size))
}

/// The ids that a request to delete peers means: its batch, and then its
/// single id if it has one.
pub open spec fn ids_to_delete(req: &DeletePeersRequest) -> Seq<Seq<char>> {
    match req.id {
        Some(id) => texts(req.ids@).push(id@),
        None => texts(req.ids@),
    }
}

impl StoreView {
    /// The peers of the address book `g` in ascending order of their
    /// external ids.
    pub open spec fn book_peers(self, g: Seq<char>) -> Seq<PeerView> {
        listing(self.peers.filter(peer_in_book(g)), peer_rid_key())
    }

    /// The names of the tags that a peer of the address book `g` is linked
    /// to, in ascending order.
    pub open spec fn tag_names_of(self, g: Seq<char>, pid: i64) -> Seq<Seq<char>> {
        self.book_tags(g).filter(linked_to(self.peer_tags, pid)).map_values(tag_name_key())
    }

    /// A peer row as a client sees it, with the names of its tags.
    pub open spec fn peer_payload(self) -> spec_fn(PeerView) -> PeerPayloadView {
        |p: PeerView|
            PeerPayloadView {
                id: p.rustdesk_id,
                hash: p.hash,
                username: p.username,
                hostname: p.hostname,
                platform: p.platform,
                alias: p.alias,
                tags: self.tag_names_of(p.ab_guid, p.id),
                note: p.note,
            }
    }

    /// `pid` is the row id of the peer `rid` of the address book `g`.
    pub open spec fn is_row_of(self, g: Seq<char>, rid: Seq<char>, pid: i64) -> bool {
        exists|i: int|
            0 <= i < self.peers.len() && (#[trigger] self.peers[i]).ab_guid == g && self.peers[i].rustdesk_id
                == rid && self.peers[i].id == pid
    }

    /// `tid` is the row id of a tag of the address book `g` whose name is
    /// among `names`.
    pub open spec fn named_tag(self, g: Seq<char>, names: Seq<Seq<char>>, tid: i64) -> bool {
        exists|j: int|
            0 <= j < self.tags.len() && (#[trigger] self.tags[j]).id == tid && self.tags[j].ab_guid == g
                && names.contains(self.tags[j].name)
    }

    /// The state in which the peer `rid` of the address book `g` is linked
    /// to exactly those tags of the address book whose names are among
    /// `names`. Names that no tag has count for nothing.
    pub open spec fn relinked(self, g: Seq<char>, rid: Seq<char>, names: Seq<Seq<char>>) -> StoreView {
        StoreView {
            peer_tags: Set::new(
                |l: PeerTag|
                    if self.is_row_of(g, rid, l.peer_id) {
                        self.named_tag(g, names, l.tag_id)
                    } else {
                        self.peer_tags.contains(l)
                    },
            ),
            ..self
        }
    }

    /// The state with the row of the peer `req.id` of the address book `g`
    /// written: overwritten where there is one, else new.
    pub open spec fn with_peer(self, g: Seq<char>, req: AddPeerRequest, now: Seq<char>) -> StoreView {
        if self.has_peer(g, req.id@) {
            StoreView { peers: self.peers.map_values(overwritten(g, req, now)), ..self }
        } else {
            StoreView {
                peers: self.peers.push(
                    PeerView {
                        id: next_id(self.peer_ids()) as i64,
                        ab_guid: g,
                        rustdesk_id: req.id@,
                        hash: req.hash@,
                        username: req.username@,
                        hostname: req.hostname@,
                        platform: req.platform@,
                        alias: req.alias@,
                        note: req.note@,
                        created_at: now,
                        updated_at: now,
                    },
                ),
                ..self
            }
        }
    }

    /// What adding a peer does. An existing peer of that id is overwritten
    /// and a missing one is made, which fails where no row id is left.
    /// Then, if the request names tags, the peer's links are replaced by
    /// links to those of the named tags that exist.
    pub open spec fn upsert_peer(self, g: Seq<char>, req: AddPeerRequest, now: Seq<char>) -> (
        StoreView,
        Result<(), ErrorKind>,
    ) {
        if !self.has_peer(g, req.id@) && next_id(self.peer_ids()) > i64::MAX {
            (self, Err(ErrorKind::Internal))
        } else if req.tags@.len() == 0 {
            (self.with_peer(g, req, now), Ok(()))
        } else {
            (self.with_peer(g, req, now).relinked(g, req.id@, texts(req.tags@)), Ok(()))
        }
    }
}

/// Writing a peer row keeps a valid state valid, and the peer is there
/// afterwards.
pub proof fn lemma_with_peer_wf(s: StoreView, g: Seq<char>, req: AddPeerRequest, now: Seq<char>)
    requires
        s.wf(),
        s.has_peer(g, req.id@) || next_id(s.peer_ids()) <= i64::MAX,
    ensures
        s.with_peer(g, req, now).wf(),
        s.with_peer(g, req, now).has_peer(g, req.id@),
{
    let t = s.with_peer(g, req, now);
    if s.has_peer(g, req.id@) {
        assert forall|i: int, j: int|
            #![trigger t.peers[i], t.peers[j]]
            0 <= i < j < t.peers.len() implies peer_id_key()(t.peers[i]) != peer_id_key()(t.peers[j])
            && peer_key()(t.peers[i]) != peer_key()(t.peers[j]) by {
            assert(peer_id_key()(s.peers[i]) != peer_id_key()(s.peers[j]));
            assert(peer_key()(s.peers[i]) != peer_key()(s.peers[j]));
        }
        let i = choose|i: int| 0 <= i < s.peers.len() && peer_key()(#[trigger] s.peers[i]) == (g, req.id@);
        assert(peer_key()(t.peers[i]) == (g, req.id@));
    } else {
        let row = t.peers[s.peers.len() as int];
        lemma_next_id_is_fresh(s.peer_ids());
        assert(!has_key(s.peers, peer_id_key(), row.id)) by {
            if has_key(s.peers, peer_id_key(), row.id) {
                let i = choose|i: int|
                    0 <= i < s.peers.len() && peer_id_key()(#[trigger] s.peers[i]) == row.id;
                assert(s.peer_ids()[i] == s.peers[i].id);
            }
        }
        assert(t.peers =~= s.peers.push(row));
        lemma_distinct_push(s.peers, peer_id_key(), row);
        lemma_distinct_push(s.peers, peer_key(), row);
        assert(peer_key()(t.peers[s.peers.len() as int]) == (g, req.id@));
    }
    crate::store::lemma_links_ok_carry(s, t);
}

/// Replacing the links of a peer keeps a valid state valid.
pub proof fn lemma_relinked_wf(s: StoreView, g: Seq<char>, rid: Seq<char>, names: Seq<Seq<char>>)
    requires
        s.wf(),
    ensures
        s.relinked(g, rid, names).wf(),
{
    let t = s.relinked(g, rid, names);
    assert forall|l: PeerTag| #[trigger] t.peer_tags.contains(l) implies t.link_ok(l) by {
        if s.is_row_of(g, rid, l.peer_id) {
            let i = choose|i: int|
                0 <= i < s.peers.len() && (#[trigger] s.peers[i]).ab_guid == g && s.peers[i].rustdesk_id
                    == rid && s.peers[i].id == l.peer_id;
            let j = choose|j: int|
                0 <= j < s.tags.len() && (#[trigger] s.tags[j]).id == l.tag_id && s.tags[j].ab_guid == g
                    && names.contains(s.tags[j].name);
            assert(t.peers[i].id == l.peer_id && t.tags[j].id == l.tag_id);
        } else {
            assert(s.link_ok(l));
            let (i, j) = choose|i: int, j: int|
                #![trigger s.peers[i], s.tags[j]]
                0 <= i < s.peers.len() && 0 <= j < s.tags.len() && s.peers[i].id == l.peer_id
                    && s.tags[j].id == l.tag_id && s.peers[i].ab_guid == s.tags[j].ab_guid;
            assert(t.peers[i].id == l.peer_id && t.tags[j].id == l.tag_id);
        }
    }
}

/// The place of a peer with the external id `rid` among the listed peers.
fn peer_slot(listed: &Vec<Peer>, rid: &str) -> (p: usize)
    ensures
        p <= listed.len(),
        p == slot(views(listed@).map_values(peer_rid_key()), rid@),
{
    let ghost keys = views(listed@).map_values(peer_rid_key());
    let mut p: usize = 0;
    while p < listed.len() && text_before(listed[p].rustdesk_id.as_str(), rid)
        invariant
            p <= listed.len(),
            keys == views(listed@).map_values(peer_rid_key()),
            forall|j: int| 0 <= j < p ==> text_lt(#[trigger] keys[j], rid@),
        decreases listed.len() - p,
    {
        p += 1;
    }
    proof {
        lemma_slot_is(keys, rid@, p as int);
    }
    p
}

/// Where the page `current` of `n` rows starts and ends.
pub fn page_bounds(n: usize, current: i64, page_size: i64) -> (r: (usize, usize))
    ensures
        r.0 == page_start(n as nat, current, page_size),
        r.1 == page_end(n as nat, current, page_size),
        r.0 <= r.1 <= n,
{
    if page_size < 0 {
        assert(page_offset(current, page_size) <= 0) by (nonlinear_arith)
            requires
                page_size < 0,
        {
        }
        return (0, n);
    }
    let size = page_size as u64 as u128;
    let steps: u128 = if current > 0 {
        (current - 1) as u64 as u128
    } else {
        0
    };
    assert(steps * size <= 0x7fff_ffff_ffff_ffff * 0x7fff_ffff_ffff_ffff) by (nonlinear_arith)
        requires
            0 <= steps <= 0x7fff_ffff_ffff_ffff,
            0 <= size <= 0x7fff_ffff_ffff_ffff,
    {
    }
    let at: u128 = steps * size;
    assert(at == page_offset(current, page_size)) by (nonlinear_arith)
        requires
            at == steps * size,
            size == page_size,
            steps == (if current > 0 {
                current - 1
            } else {
                0
            }),
    {
    }
    let len = n as u64 as u128;
    let start: u128 = if at > len {
        len
    } else {
        at
    };
    let end: u128 = if start + size > len {
        len
    } else {
        start + size
    };
    (start as usize, end as usize)
}

/// Whether `links` holds `l`.
pub(crate) fn links_hold(links: &Vec<PeerTag>, l: PeerTag) -> (r: bool)
    ensures
        r == links@.contains(l),
{
    let mut i: usize = 0;
    while i < links.len()
        invariant
            i <= links.len(),
            forall|j: int| 0 <= j < i ==> links@[j] != l,
        decreases links.len() - i,
    {
        if links[i].peer_id == l.peer_id && links[i].tag_id == l.tag_id {
            assert(links@[i as int] == l);
            return true;
        }
        i += 1;
    }
    false
}

impl Store {
    /// The peers of the address book `g` in ascending order of their
    /// external ids.
    pub fn peers_of(&self, g: &str) -> (r: Vec<Peer>)
        ensures
            views(r@) == self@.book_peers(g@),
    {
        let ghost all = self@.peers;
        let mut out: Vec<Peer> = Vec::new();
        let mut i: usize = 0;
        assert(all.take(0).filter(peer_in_book(g@)) =~= Seq::empty()) by {
            reveal(Seq::filter);
        }
        assert(views(out@) =~= Seq::empty());
        while i < self.peers.len()
            invariant
                i <= self.peers.len(),
                all == self@.peers,
                views(out@) == listing(all.take(i as int).filter(peer_in_book(g@)), peer_rid_key()),
            decreases self.peers.len() - i,
        {
            proof {
                lemma_filter_step(all, i as int, peer_in_book(g@));
            }
            if text_eq(self.peers[i].ab_guid.as_str(), g) {
                let p = peer_slot(&out, self.peers[i].rustdesk_id.as_str());
                let row = self.peers[i].clone();
                let ghost before = out@;
                out.insert(p, row);
                proof {
                    lemma_listing_push(
                        all.take(i as int).filter(peer_in_book(g@)),
                        peer_rid_key(),
                        all[i as int],
                    );
                    assert(views(out@) =~= views(before).insert(p as int, row@));
                }
            }
            i += 1;
        }
        assert(all.take(i as int) =~= all);
        out
    }

    /// The names of those of `tags` that the peer with the row id `pid` is
    /// linked to, in the order of `tags`.
    pub fn linked_names(&self, tags: &Vec<Tag>, pid: i64) -> (r: Vec<String>)
        ensures
            texts(r@) == views(tags@).filter(linked_to(self@.peer_tags, pid)).map_values(tag_name_key()),
    {
        let ghost all = views(tags@);
        let ghost pred = linked_to(self@.peer_tags, pid);
        let mut out: Vec<String> = Vec::new();
        let mut i: usize = 0;
        assert(all.take(0).filter(pred) =~= Seq::empty()) by {
            reveal(Seq::filter);
        }
        assert(texts(out@) =~= all.take(0).filter(pred).map_values(tag_name_key()));
        while i < tags.len()
            invariant
                i <= tags.len(),
                all == views(tags@),
                pred == linked_to(self@.peer_tags, pid),
                texts(out@) == all.take(i as int).filter(pred).map_values(tag_name_key()),
            decreases tags.len() - i,
        {
            proof {
                lemma_filter_step(all, i as int, pred);
            }
            if self.has_link(PeerTag { peer_id: pid, tag_id: tags[i].id }) {
                let ghost before = out@;
                let name = tags[i].name.clone();
                out.push(name);
                assert(texts(out@) =~= texts(before).push(name@));
                assert(all.take(i as int).filter(pred).push(all[i as int]).map_values(tag_name_key())
                    =~= all.take(i as int).filter(pred).map_values(tag_name_key()).push(name@));
            }
            i += 1;
        }
        assert(all.take(i as int) =~= all);
        out
    }

    /// Writes the row of the peer `req.id` of the address book `g`, and
    /// returns its place in the table.
    fn write_peer(&mut self, g: &str, req: &AddPeerRequest, now: &str) -> (r: Option<usize>)
        requires
            old(self).wf(),
        ensures
            final(self).wf(),
            match r {
                Some(at) => {
                    &&& old(self)@.has_peer(g@, req.id@) || next_id(old(self)@.peer_ids()) <= i64::MAX
                    &&& final(self)@ == old(self)@.with_peer(g@, *req, now@)
                    &&& at < final(self).peers.len()
                    &&& final(self)@.peers[at as int].ab_guid == g@
                    &&& final(self)@.peers[at as int].rustdesk_id == req.id@
                },
                None => {
                    &&& !old(self)@.has_peer(g@, req.id@)
                    &&& next_id(old(self)@.peer_ids()) > i64::MAX
                    &&& final(self)@ == old(self)@
                },
            },
    {
        let ghost s = self@;
        match self.find_peer(g, req.id.as_str()) {
            Some(at) => {
                let row = Peer {
                    id: self.peers[at].id,
                    ab_guid: self.peers[at].ab_guid.clone(),
                    rustdesk_id: self.peers[at].rustdesk_id.clone(),
                    hash: req.hash.clone(),
                    username: req.username.clone(),
                    hostname: req.hostname.clone(),
                    platform: req.platform.clone(),
                    alias: req.alias.clone(),
                    note: req.note.clone(),
                    created_at: self.peers[at].created_at.clone(),
                    updated_at: now.to_string(),
                };
                self.peers.set(at, row);
                proof {
                    let f = overwritten(g@, *req, now@);
                    assert forall|j: int| 0 <= j < s.peers.len() implies #[trigger] self@.peers[j] == f(
                        s.peers[j],
                    ) by {
                        if j < at {
                            assert(peer_key()(s.peers[j]) != peer_key()(s.peers[at as int]));
                        } else if at < j {
                            assert(peer_key()(s.peers[at as int]) != peer_key()(s.peers[j]));
                        }
                    }
                    assert(self@.peers =~= s.peers.map_values(f));
                    lemma_with_peer_wf(s, g@, *req, now@);
                }
                Some(at)
            },
            None => {
                let id = match self.next_peer_id() {
                    Some(id) => id,
                    None => {
                        return None;
                    },
                };
                let row = Peer {
                    id,
                    ab_guid: g.to_string(),
                    rustdesk_id: req.id.clone(),
                    hash: req.hash.clone(),
                    username: req.username.clone(),
                    hostname: req.hostname.clone(),
                    platform: req.platform.clone(),
                    alias: req.alias.clone(),
                    note: req.note.clone(),
                    created_at: now.to_string(),
                    updated_at: now.to_string(),
                };
                self.peers.push(row);
                proof {
                    assert(self@.peers =~= s.peers.push(row@));
                    lemma_with_peer_wf(s, g@, *req, now@);
                }
                Some(self.peers.len() - 1)
            },
        }
    }

    /// Replaces the links of the peer at row `at` by links to those tags
    /// of its address book whose names are among `names`.
    fn relink(&mut self, at: usize, names: &Vec<String>)
        requires
            old(self).wf(),
            at < old(self).peers.len(),
        ensures
            final(self).wf(),
            final(self)@ == old(self)@.relinked(
                old(self)@.peers[at as int].ab_guid,
                old(self)@.peers[at as int].rustdesk_id,
                texts(names@),
            ),
    {
        let ghost s = self@;
        let ghost g = s.peers[at as int].ab_guid;
        let ghost rid = s.peers[at as int].rustdesk_id;
        let ghost all = texts(names@);
        let pid = self.peers[at].id;
        proof {
            assert forall|x: i64| s.is_row_of(g, rid, x) <==> x == pid by {
                if s.is_row_of(g, rid, x) {
                    let i = choose|i: int|
                        0 <= i < s.peers.len() && (#[trigger] s.peers[i]).ab_guid == g
                            && s.peers[i].rustdesk_id == rid && s.peers[i].id == x;
                    if i < at {
                        assert(peer_key()(s.peers[i]) != peer_key()(s.peers[at as int]));
                    } else if at < i {
                        assert(peer_key()(s.peers[at as int]) != peer_key()(s.peers[i]));
                    }
                }
                if x == pid {
                    assert(s.peers[at as int].ab_guid == g);
                }
            }
        }
        let mut links: Vec<PeerTag> = Vec::new();
        let mut i: usize = 0;
        while i < self.peer_tags.len()
            invariant
                i <= self.peer_tags.len(),
                self@ == s,
                self.peer_tags@.no_duplicates(),
                links@.no_duplicates(),
                forall|l: PeerTag|
                    #[trigger] links@.contains(l) <==> self.peer_tags@.take(i as int).contains(l) && l.peer_id
                        != pid,
            decreases self.peer_tags.len() - i,
        {
            let l = self.peer_tags[i];
            proof {
                lemma_take_members(self.peer_tags@, i as int);
                lemma_push_members(links@, l);
                if self.peer_tags@.take(i as int).contains(l) {
                    let k = choose|k: int|
                        0 <= k < self.peer_tags@.take(i as int).len() && self.peer_tags@.take(i as int)[k]
                            == l;
                    assert(self.peer_tags@[k] == self.peer_tags@[i as int]);
                }
            }
            if l.peer_id != pid {
                proof {
                    assert(!self.peer_tags@.take(i as int).contains(l));
                    lemma_push_no_duplicates(links@, l);
                }
                links.push(l);
            }
            i += 1;
        }
        assert(self.peer_tags@.take(i as int) =~= self.peer_tags@);
        let mut k: usize = 0;
        assert(all.take(0) =~= Seq::empty());
        while k < names.len()
            invariant
                k <= names.len(),
                self@ == s,
                self.wf(),
                all == texts(names@),
                g == s.peers[at as int].ab_guid,
                at < self.peers.len(),
                links@.no_duplicates(),
                forall|l: PeerTag|
                    #[trigger] links@.contains(l) <==> (s.peer_tags.contains(l) && l.peer_id != pid) || (
                    l.peer_id == pid && s.named_tag(g, all.take(k as int), l.tag_id)),
            decreases names.len() - k,
        {
            proof {
                lemma_take_members(all, k as int);
            }
            match self.find_tag(self.peers[at].ab_guid.as_str(), names[k].as_str()) {
                None => {
                    proof {
                        assert forall|tid: i64| s.named_tag(g, all.take(k + 1), tid) implies s.named_tag(
                            g,
                            all.take(k as int),
                            tid,
                        ) by {
                            let j = choose|j: int|
                                0 <= j < s.tags.len() && (#[trigger] s.tags[j]).id == tid
                                    && s.tags[j].ab_guid == g && all.take(k + 1).contains(s.tags[j].name);
                            assert(tag_key()(s.tags[j]) != (g, all[k as int]));
                        }
                        assert forall|tid: i64| s.named_tag(g, all.take(k as int), tid) implies s.named_tag(
                            g,
                            all.take(k + 1),
                            tid,
                        ) by {
                            let j = choose|j: int|
                                0 <= j < s.tags.len() && (#[trigger] s.tags[j]).id == tid
                                    && s.tags[j].ab_guid == g && all.take(k as int).contains(
                                    s.tags[j].name,
                                );
                            assert(all.take(k + 1).contains(s.tags[j].name));
                        }
                    }
                },
                Some(j) => {
                    let link = PeerTag { peer_id: pid, tag_id: self.tags[j].id };
                    proof {
                        assert forall|tid: i64| s.named_tag(g, all.take(k + 1), tid) implies s.named_tag(
                            g,
                            all.take(k as int),
                            tid,
                        ) || tid == link.tag_id by {
                            let x = choose|x: int|
                                0 <= x < s.tags.len() && (#[trigger] s.tags[x]).id == tid
                                    && s.tags[x].ab_guid == g && all.take(k + 1).contains(s.tags[x].name);
                            if s.tags[x].name == all[k as int] {
                                if x < j {
                                    assert(tag_key()(s.tags[x]) != tag_key()(s.tags[j as int]));
                                } else if j < x {
                                    assert(tag_key()(s.tags[j as int]) != tag_key()(s.tags[x]));
                                }
                            }
                        }
                        assert forall|tid: i64|
                            s.named_tag(g, all.take(k as int), tid) || tid == link.tag_id implies s.named_tag(
                            g,
                            all.take(k + 1),
                            tid,
                        ) by {
                            if s.named_tag(g, all.take(k as int), tid) {
                                let x = choose|x: int|
                                    0 <= x < s.tags.len() && (#[trigger] s.tags[x]).id == tid
                                        && s.tags[x].ab_guid == g && all.take(k as int).contains(
                                        s.tags[x].name,
                                    );
                                assert(all.take(k + 1).contains(s.tags[x].name));
                            } else {
                                assert(s.tags[j as int].id == tid);
                                assert(all.take(k + 1).contains(all[k as int]));
                            }
                        }
                        lemma_push_members(links@, link);
                    }
                    if !links_hold(&links, link) {
                        proof {
                            lemma_push_no_duplicates(links@, link);
                        }
                        links.push(link);
                    }
                },
            }
            k += 1;
        }
        proof {
            assert(all.take(k as int) =~= all);
            assert(links@.to_set() =~= s.relinked(g, rid, all).peer_tags);
            lemma_relinked_wf(s, g, rid, all);
        }
        self.peer_tags = links;
    }

    /// Adds the peer `req.id` to the address book `g`, or overwrites it, and
    /// links it to the tags that the request names.
    pub fn put_peer(&mut self, g: &str, req: &AddPeerRequest, now: &str) -> (r: Result<(), ApiError>)
        requires
            old(self).wf(),
        ensures
            final(self).wf(),
            final(self)@ == old(self)@.upsert_peer(g@, *req, now@).0,
            kind_of(r) == old(self)@.upsert_peer(g@, *req, now@).1,
    {
        let at = match self.write_peer(g, req, now) {
            Some(at) => at,
            None => {
                return Err(ApiError::Internal("no peer id is left".to_string()));
            },
        };
        if req.tags.len() > 0 {
            self.relink(at, &req.tags);
        }
        Ok(())
    }
}

/// Lists one page of the peers of an address book in ascending order of
/// their external ids, each with the names of its tags, and reports how
/// many peers the address book has in all.
pub fn get_peers(store: &mut Store, user_id: i64, query: &PeersQuery, now: &str) -> (r: Result<
    PeersResponse,
    ApiError,
>)
    requires
        old(store).wf(),
    ensures
        final(store).wf(),
        welcome(old(store)@, user_id, query.ab@) ==> r is Ok,
        turned_away(old(store)@, user_id, query.ab@, final(store)@, r) || {
            &&& let_through(old(store)@, user_id, query.ab@, final(store)@)
            &&& final(store)@ == entered(old(store)@, user_id, query.ab@, now@, final(store)@)
            &&& r is Ok
            &&& views(r->Ok_0.data@) == page_of(
                final(store)@.book_peers(acted_on(final(store)@, user_id, query.ab@)),
                query.current,
                query.pageSize,
            ).map_values(final(store)@.peer_payload())
            &&& r->Ok_0.total == reported_total(
                final(store)@.book_peers(acted_on(final(store)@, user_id, query.ab@)).len(),
            )
        },
{
    let g = match resolve_ab_guid(store, user_id, query.ab.as_str(), now) {
        Ok(g) => g,
        Err(e) => {
            return Err(e);
        },
    };
    let peers = store.peers_of(g.as_str());
    let tags = store.tags_of(g.as_str());
    let total = total_of(peers.len());
    let (start, end) = page_bounds(peers.len(), query.current, query.pageSize);
    let ghost listed = store@.book_peers(g@);
    let ghost show = store@.peer_payload();
    proof {
        lemma_filter_members(store@.peers, peer_in_book(g@));
        assert forall|v: PeerView| #[trigger] listed.contains(v) implies v.ab_guid == g@ by {
            lemma_listing_members(store@.peers.filter(peer_in_book(g@)), peer_rid_key(), v);
        }
    }
    let mut data: Vec<PeerPayload> = Vec::new();
    let mut i: usize = start;
    while i < end
        invariant
            start <= i <= end <= peers.len(),
            views(peers@) == listed,
            views(tags@) == store@.book_tags(g@),
            show == store@.peer_payload(),
            forall|v: PeerView| #[trigger] listed.contains(v) ==> v.ab_guid == g@,
            data@.len() == i - start,
            forall|j: int| 0 <= j < i - start ==> (#[trigger] data@[j])@ == show(listed[start + j]),
        decreases end - i,
    {
        let p = &peers[i];
        let names = store.linked_names(&tags, p.id);
        proof {
            assert(listed.contains(listed[i as int]));
            assert(p@ == listed[i as int]);
        }
        data.push(
            PeerPayload {
                id: p.rustdesk_id.clone(),
                hash: p.hash.clone(),
                username: p.username.clone(),
                hostname: p.hostname.clone(),
                platform: p.platform.clone(),
                alias: p.alias.clone(),
                tags: names,
                note: p.note.clone(),
            },
        );
        i += 1;
    }
    assert(views(data@) =~= page_of(listed, query.current, query.pageSize).map_values(show));
    Ok(PeersResponse { data, total })
}

/// What the listing of the peers of an address book is like: ascending
/// ids, every peer of the address book and no other row.
pub proof fn lemma_book_peers_props(s: StoreView, g: Seq<char>)
    requires
        s.wf(),
    ensures
        ascending(s.book_peers(g).map_values(peer_rid_key())),
        forall|j: int|
            0 <= j < s.book_peers(g).len() ==> (#[trigger] s.book_peers(g)[j]).ab_guid == g
                && s.peers.contains(s.book_peers(g)[j]),
        forall|p: PeerView| s.peers.contains(p) && p.ab_guid == g ==> #[trigger] s.book_peers(g).contains(p),
{
    let f = s.peers.filter(peer_in_book(g));
    lemma_filter_members(s.peers, peer_in_book(g));
    assert forall|a: int, b: int|
        #![trigger f[a], f[b]]
        0 <= a < b < f.len() implies peer_rid_key()(f[a]) != peer_rid_key()(f[b]) by {
        let r = lemma_filter_order(s.peers, peer_in_book(g), a, b);
        assert(peer_key()(s.peers[r.0]) != peer_key()(s.peers[r.1]));
        assert(f.contains(f[a]) && f.contains(f[b]));
    }
    lemma_listing_props(f, peer_rid_key());
    let l = s.book_peers(g);
    assert forall|j: int| 0 <= j < l.len() implies (#[trigger] l[j]).ab_guid == g && s.peers.contains(l[j]) by {
        assert(l.contains(l[j]));
        assert(f.contains(l[j]));
    }
    assert forall|p: PeerView| s.peers.contains(p) && p.ab_guid == g implies #[trigger] l.contains(p) by {
        assert(f.contains(p));
    }
}

/// Every peer that the listing of an address book shows belongs to it.
pub proof fn lemma_book_peers_in_book(s: StoreView, g: Seq<char>)
    ensures
        forall|i: int| 0 <= i < s.book_peers(g).len() ==> (#[trigger] s.book_peers(g)[i]).ab_guid == g,
{
    let listed = s.book_peers(g);
    lemma_filter_members(s.peers, peer_in_book(g));
    assert forall|i: int| 0 <= i < listed.len() implies (#[trigger] listed[i]).ab_guid == g by {
        assert(listed.contains(listed[i]));
        lemma_listing_members(s.peers.filter(peer_in_book(g)), peer_rid_key(), listed[i]);
    }
}

/// A member of a listing is one of the rows listed.
pub proof fn lemma_listing_members<V>(rows: Seq<V>, key: spec_fn(V) -> Seq<char>, v: V)
    requires
        listing(rows, key).contains(v),
    ensures
        rows.contains(v),
    decreases rows.len(),
{
    if rows.len() > 0 {
        let init = rows.drop_last();
        let rest = listing(init, key);
        let p = slot(rest.map_values(key), key(rows.last()));
        crate::listing::lemma_slot_props(rest.map_values(key), key(rows.last()));
        let out = listing(rows, key);
        let a = choose|a: int| 0 <= a < out.len() && out[a] == v;
        if a == p {
            assert(rows[rows.len() - 1] == v);
        } else {
            let b = if a < p { a } else { a - 1 };
            assert(rest[b] == v);
            lemma_listing_members(init, key, v);
            let c = choose|c: int| 0 <= c < init.len() && init[c] == v;
            assert(rows[c] == v);
        }
    }
}

/// Adds a peer to an address book, or overwrites the one with the same
/// id. Where the request names tags, the peer is then linked to exactly
/// those of them that exist in the address book; a name that no tag has is
/// passed over.
pub fn add_peer(store: &mut Store, user_id: i64, guid: &str, req: &AddPeerRequest, now: &str) -> (r: Result<
    (),
    ApiError,
>)
    requires
        old(store).wf(),
    ensures
        final(store).wf(),
        welcome(old(store)@, user_id, guid@) ==> !turned_away(old(store)@, user_id, guid@, final(store)@, r),
        turned_away(old(store)@, user_id, guid@, final(store)@, r) || {
            &&& let_through(old(store)@, user_id, guid@, final(store)@)
            &&& (final(store)@, kind_of(r)) == entered(
                old(store)@,
                user_id,
                guid@,
                now@,
                final(store)@,
            ).upsert_peer(acted_on(final(store)@, user_id, guid@), *req, now@)
        },
{
    let g = match resolve_ab_guid(store, user_id, guid, now) {
        Ok(g) => g,
        Err(e) => {
            return Err(e);
        },
    };
    store.put_peer(g.as_str(), req, now)
}

/// Checks that the caller may act on the address book and changes no
/// peer: clients change a peer by adding it again.
pub fn update_peer(store: &mut Store, user_id: i64, guid: &str, req: &UpdatePeerRequest, now: &str) -> (r: Result<(), ApiError>)
    requires
        old(store).wf(),
    ensures
        final(store).wf(),
        welcome(old(store)@, user_id, guid@) ==> r is Ok,
        turned_away(old(store)@, user_id, guid@, final(store)@, r) || {
            &&& let_through(old(store)@, user_id, guid@, final(store)@)
            &&& r is Ok
            &&& final(store)@ == entered(old(store)@, user_id, guid@, now@, final(store)@)
        },
{
    match resolve_ab_guid(store, user_id, guid, now) {
        Ok(_) => Ok(()),
        Err(e) => Err(e),
    }
}

/// Deletes peers of an address book, and with each its links. An id that
/// no peer has is passed over.
pub fn delete_peers(store: &mut Store, user_id: i64, guid: &str, req: &DeletePeersRequest, now: &str) -> (r: Result<(), ApiError>)
    requires
        old(store).wf(),
    ensures
        final(store).wf(),
        welcome(old(store)@, user_id, guid@) ==> r is Ok,
        turned_away(old(store)@, user_id, guid@, final(store)@, r) || {
            &&& let_through(old(store)@, user_id, guid@, final(store)@)
            &&& r is Ok
            &&& final(store)@ == entered(old(store)@, user_id, guid@, now@, final(store)@).without_peers(
                acted_on(final(store)@, user_id, guid@),
                Some(ids_to_delete(req)),
            )
        },
{
    let g = match resolve_ab_guid(store, user_id, guid, now) {
        Ok(g) => g,
        Err(e) => {
            return Err(e);
        },
    };
    let mut ids = copy_texts(&req.ids);
    match &req.id {
        Some(id) => {
            let ghost before = ids@;
            ids.push(id.clone());
            assert(texts(ids@) =~= texts(before).push(id@));
        },
        None => {},
    }
    store.remove_peers(g.as_str(), Some(&ids));
    Ok(())
}

} // verus!
