//! The whole-book exchange of older clients: one document that holds every
//! tag, every peer with the names of its tags, and the tag colours, and
//! that replaces an address book when it comes back.

use vstd::prelude::*;
use crate::access::{entered, kind_of, let_through, resolve_ab_guid, turned_away, welcome};
use crate::error::{ApiError, ErrorKind};
use crate::models::address_book::{LegacyAbData, LegacyAbDataView, LegacyPeer, LegacyPeerView};
use crate::models::peer::{Peer, PeerTag, PeerView};
use crate::models::tag::{Tag, TagPayload, TagPayloadView, TagView};
use crate::peers::{lemma_book_peers_in_book, links_hold};
use crate::removal::{peers_kept, tags_kept};
use crate::rows::{
    distinct_by, lemma_distinct_filter, lemma_filter_keeps, lemma_filter_origin, lemma_next_id_is_fresh,
    lemma_push_no_duplicates, lemma_push_to_set, lemma_take_members, next_id, views,
};
use crate::store::{
    next_peer_id_in, next_tag_id_in, peer_id_key, peer_key, tag_id_key, tag_key, Store, StoreView,
};
use crate::tags::{lemma_book_tags_props, tag_name_key};
use crate::text::{lemma_ascending_distinct, text_eq, texts};

verus! {

/// The text that `serde_json::to_string` writes for a JSON object that was
/// filled with these names and colours in this order.
pub uninterp spec fn tag_colors_text(pairs: Seq<(Seq<char>, i64)>) -> Seq<char>;

/// The map from tag name to colour that `serde_json::from_str` reads from
/// a text, or `None` where it reads none: the text is not JSON, is not an
/// object, or holds a value that is not a 64-bit integer.
pub uninterp spec fn tag_colors_parsed(text: Seq<char>) -> Option<Map<Seq<char>, i64>>;

/// The map that a list of names and colours stands for; of two entries with
/// one name the later counts.
pub open spec fn colors_of(pairs: Seq<(Seq<char>, i64)>) -> Map<Seq<char>, i64>
    decreases pairs.len(),
{
    if pairs.len() == 0 {
        Map::empty()
    } else {
        colors_of(pairs.drop_last()).insert(pairs.last().0, pairs.last().1)
    }
}

/// The name of a tag payload.
pub open spec fn payload_name() -> spec_fn(TagPayloadView) -> Seq<char> {
    |t: TagPayloadView| t.name
}

/// A tag payload as a pair of name and colour.
pub open spec fn as_pair() -> spec_fn(TagPayloadView) -> (Seq<char>, i64) {
    |t: TagPayloadView| (t.name, t.color)
}

/// A tag row as a pair of name and colour.
pub open spec fn row_pair() -> spec_fn(TagView) -> (Seq<char>, i64) {
    |t: TagView| (t.name, t.color)
}

/// The colour that an imported tag gets: the one that the colour map
/// gives its name, or opaque black.
pub open spec fn import_color(colors: Map<Seq<char>, i64>, name: Seq<char>) -> i64 {
    if colors.contains_key(name) {
        colors[name]
    } else {
        4278190080
    }
}

/// The colour map that an import goes by: what the document's colour text
/// reads as, or the empty map where it cannot be read.
pub open spec fn colors_in(doc: LegacyAbDataView) -> Map<Seq<char>, i64> {
    match tag_colors_parsed(doc.tag_colors) {
        Some(m) => m,
        None => Map::empty(),
    }
}

/// The external id of a peer of a document.
pub open spec fn legacy_id_key() -> spec_fn(LegacyPeerView) -> Seq<char> {
    |p: LegacyPeerView| p.id
}

/// `n` more rows can be given ids after those in `ids`.
pub open spec fn ids_left(ids: Seq<i64>, n: nat) -> bool {
    n == 0 || next_id(ids) + n - 1 <= i64::MAX
}

impl StoreView {
    /// A peer row as the document holds it, with the names of its tags.
    pub open spec fn legacy_peer(self) -> spec_fn(PeerView) -> LegacyPeerView {
        |p: PeerView|
            LegacyPeerView {
                id: p.rustdesk_id,
                hash: p.hash,
                username: p.username,
                hostname: p.hostname,
                platform: p.platform,
                alias: p.alias,
                tags: self.tag_names_of(p.ab_guid, p.id),
            }
    }

    /// The document of the address book `g`: its tag names in ascending
    /// order, its peers in ascending order of their ids, and the colours of
    /// its tags as one text.
    pub open spec fn exported(self, g: Seq<char>) -> LegacyAbDataView {
        LegacyAbDataView {
            tags: self.book_tags(g).map_values(tag_name_key()),
            peers: self.book_peers(g).map_values(self.legacy_peer()),
            tag_colors: tag_colors_text(self.book_tags(g).map_values(row_pair())),
        }
    }

    /// `doc` is a document of the address book `g` as an export returns
    /// it: the document of the address book, with a colour text that reads
    /// back as the colours of its tags.
    pub open spec fn exports(self, g: Seq<char>, doc: LegacyAbDataView) -> bool {
        &&& doc == self.exported(g)
        &&& tag_colors_parsed(doc.tag_colors) == Some(colors_of(self.book_tags(g).map_values(row_pair())))
    }

    /// The state without the peers, tags and links of the address book
    /// `g`.
    pub open spec fn cleared(self, g: Seq<char>) -> StoreView {
        StoreView {
            peers: self.peers.filter(peers_kept(g, None)),
            tags: self.tags.filter(tags_kept(g, None)),
            peer_tags: self.peer_tags.filter(self.links_clear_of_peers(g, None)),
            ..self
        }
    }

    /// The tag rows that a document brings, with ids from `base` on.
    pub open spec fn imported_tags(
        g: Seq<char>,
        names: Seq<Seq<char>>,
        colors: Map<Seq<char>, i64>,
        base: int,
    ) -> Seq<TagView> {
        Seq::new(
            names.len(),
            |i: int|
                TagView {
                    id: (base + i) as i64,
                    ab_guid: g,
                    name: names[i],
                    color: import_color(colors, names[i]),
                },
        )
    }

    /// The peer rows that a document brings, with ids from `base` on. They
    /// carry no note, and their times are `now`.
    pub open spec fn imported_peers(
        g: Seq<char>,
        peers: Seq<LegacyPeerView>,
        now: Seq<char>,
        base: int,
    ) -> Seq<PeerView> {
        Seq::new(
            peers.len(),
            |i: int|
                PeerView {
                    id: (base + i) as i64,
                    ab_guid: g,
                    rustdesk_id: peers[i].id,
                    hash: peers[i].hash,
                    username: peers[i].username,
                    hostname: peers[i].hostname,
                    platform: peers[i].platform,
                    alias: peers[i].alias,
                    note: Seq::empty(),
                    created_at: now,
                    updated_at: now,
                },
        )
    }

    /// The link `l` joins the peer `i` of the document and its tag `j`.
    pub open spec fn joins(l: PeerTag, peer_base: int, tag_base: int, i: int, j: int) -> bool {
        l.peer_id == peer_base + i && l.tag_id == tag_base + j
    }

    /// The links that a document brings: one from each of its peers to
    /// each of its tags that the peer names.
    pub open spec fn imported_links(doc: LegacyAbDataView, peer_base: int, tag_base: int) -> Set<PeerTag> {
        Set::new(
            |l: PeerTag|
                exists|i: int, j: int|
                    #![trigger doc.peers[i], doc.tags[j]]
                    0 <= i < doc.peers.len() && 0 <= j < doc.tags.len() && Self::joins(
                        l,
                        peer_base,
                        tag_base,
                        i,
                        j,
                    ) && doc.peers[i].tags.contains(doc.tags[j]),
        )
    }

    /// The state in which the document has taken the place of the address
    /// book `g`.
    pub open spec fn replaced(
        self,
        g: Seq<char>,
        doc: LegacyAbDataView,
        colors: Map<Seq<char>, i64>,
        now: Seq<char>,
    ) -> StoreView {
        let c = self.cleared(g);
        let peer_base = next_id(c.peer_ids());
        let tag_base = next_id(c.tag_ids());
        StoreView {
            peers: c.peers + Self::imported_peers(g, doc.peers, now, peer_base),
            tags: c.tags + Self::imported_tags(g, doc.tags, colors, tag_base),
            peer_tags: c.peer_tags.union(Self::imported_links(doc, peer_base, tag_base)),
            ..c
        }
    }

    /// A document can replace an address book if it names no tag twice and
    /// no peer twice.
    pub open spec fn importable(doc: LegacyAbDataView) -> bool {
        doc.tags.no_duplicates() && distinct_by(doc.peers, legacy_id_key())
    }

    /// What an import does. A document that names a tag or a peer twice is
    /// a conflict, and a lack of row ids a failure of the store; either
    /// leaves the state as it was. Otherwise the document takes the place
    /// of the address book.
    pub open spec fn import(
        self,
        g: Seq<char>,
        doc: LegacyAbDataView,
        colors: Map<Seq<char>, i64>,
        now: Seq<char>,
    ) -> (StoreView, Result<(), ErrorKind>) {
        let c = self.cleared(g);
        if !Self::importable(doc) {
            (self, Err(ErrorKind::Conflict))
        } else if !ids_left(c.tag_ids(), doc.tags.len()) || !ids_left(c.peer_ids(), doc.peers.len()) {
            (self, Err(ErrorKind::Internal))
        } else {
            (self.replaced(g, doc, colors, now), Ok(()))
        }
    }
}

/// Clearing an address book keeps a valid state valid, and leaves no peer
/// and no tag of the address book.
pub proof fn lemma_cleared_wf(s: StoreView, g: Seq<char>)
    requires
        s.wf(),
    ensures
        s.cleared(g).wf(),
        forall|i: int| 0 <= i < s.cleared(g).peers.len() ==> (#[trigger] s.cleared(g).peers[i]).ab_guid != g,
        forall|i: int| 0 <= i < s.cleared(g).tags.len() ==> (#[trigger] s.cleared(g).tags[i]).ab_guid != g,
{
    let c = s.cleared(g);
    lemma_distinct_filter(s.peers, peer_id_key(), peers_kept(g, None));
    lemma_distinct_filter(s.peers, peer_key(), peers_kept(g, None));
    lemma_distinct_filter(s.tags, tag_id_key(), tags_kept(g, None));
    lemma_distinct_filter(s.tags, tag_key(), tags_kept(g, None));
    assert forall|i: int| 0 <= i < c.peers.len() implies (#[trigger] c.peers[i]).ab_guid != g by {
        let k = lemma_filter_origin(s.peers, peers_kept(g, None), i);
    }
    assert forall|i: int| 0 <= i < c.tags.len() implies (#[trigger] c.tags[i]).ab_guid != g by {
        let k = lemma_filter_origin(s.tags, tags_kept(g, None), i);
    }
    assert forall|l: PeerTag| #[trigger] c.peer_tags.contains(l) implies c.link_ok(l) by {
        assert(s.peer_tags.contains(l));
        assert(s.link_ok(l));
        let (i, j) = choose|i: int, j: int|
            #![trigger s.peers[i], s.tags[j]]
            0 <= i < s.peers.len() && 0 <= j < s.tags.len() && s.peers[i].id == l.peer_id && s.tags[j].id
                == l.tag_id && s.peers[i].ab_guid == s.tags[j].ab_guid;
        assert(!s.link_to_selected_peer(g, None, l));
        assert(!crate::removal::peer_selected(g, None, s.peers[i]));
        let a = lemma_filter_keeps(s.peers, peers_kept(g, None), i);
        let b = lemma_filter_keeps(s.tags, tags_kept(g, None), j);
        assert(c.peers[a].id == l.peer_id && c.tags[b].id == l.tag_id);
    }
}

/// A document that is importable and finds ids enough leaves a valid state
/// when it replaces an address book.
pub proof fn lemma_replaced_wf(
    s: StoreView,
    g: Seq<char>,
    doc: LegacyAbDataView,
    colors: Map<Seq<char>, i64>,
    now: Seq<char>,
)
    requires
        s.wf(),
        StoreView::importable(doc),
        ids_left(s.cleared(g).tag_ids(), doc.tags.len()),
        ids_left(s.cleared(g).peer_ids(), doc.peers.len()),
    ensures
        s.replaced(g, doc, colors, now).wf(),
{
    let c = s.cleared(g);
    let t = s.replaced(g, doc, colors, now);
    let pb = next_id(c.peer_ids());
    let tb = next_id(c.tag_ids());
    let np = c.peers.len() as int;
    let nt = c.tags.len() as int;
    lemma_cleared_wf(s, g);
    lemma_next_id_is_fresh(c.peer_ids());
    lemma_next_id_is_fresh(c.tag_ids());
    assert forall|i: int, j: int|
        #![trigger t.peers[i], t.peers[j]]
        0 <= i < j < t.peers.len() implies peer_id_key()(t.peers[i]) != peer_id_key()(t.peers[j])
        && peer_key()(t.peers[i]) != peer_key()(t.peers[j]) by {
        if j < np {
            assert(peer_id_key()(c.peers[i]) != peer_id_key()(c.peers[j]));
            assert(peer_key()(c.peers[i]) != peer_key()(c.peers[j]));
        } else if i < np {
            assert(c.peer_ids()[i] == c.peers[i].id);
            assert(c.peers[i].ab_guid != g);
        } else {
            assert(legacy_id_key()(doc.peers[i - np]) != legacy_id_key()(doc.peers[j - np]));
        }
    }
    assert forall|i: int, j: int|
        #![trigger t.tags[i], t.tags[j]]
        0 <= i < j < t.tags.len() implies tag_id_key()(t.tags[i]) != tag_id_key()(t.tags[j]) && tag_key()(
        t.tags[i],
    ) != tag_key()(t.tags[j]) by {
        if j < nt {
            assert(tag_id_key()(c.tags[i]) != tag_id_key()(c.tags[j]));
            assert(tag_key()(c.tags[i]) != tag_key()(c.tags[j]));
        } else if i < nt {
            assert(c.tag_ids()[i] == c.tags[i].id);
            assert(c.tags[i].ab_guid != g);
        } else {
            assert(doc.tags[i - nt] != doc.tags[j - nt]);
        }
    }
    assert forall|l: PeerTag| #[trigger] t.peer_tags.contains(l) implies t.link_ok(l) by {
        if c.peer_tags.contains(l) {
            assert(c.link_ok(l));
            let (i, j) = choose|i: int, j: int|
                #![trigger c.peers[i], c.tags[j]]
                0 <= i < c.peers.len() && 0 <= j < c.tags.len() && c.peers[i].id == l.peer_id
                    && c.tags[j].id == l.tag_id && c.peers[i].ab_guid == c.tags[j].ab_guid;
            assert(t.peers[i].id == l.peer_id && t.tags[j].id == l.tag_id);
        } else {
            let (i, j) = choose|i: int, j: int|
                #![trigger doc.peers[i], doc.tags[j]]
                0 <= i < doc.peers.len() && 0 <= j < doc.tags.len() && StoreView::joins(l, pb, tb, i, j)
                    && doc.peers[i].tags.contains(doc.tags[j]);
            assert(t.peers[np + i].id == l.peer_id && t.tags[nt + j].id == l.tag_id);
        }
    }
}

impl StoreView {
    /// The links that an import has made when it has dealt with the first
    /// `i` peers of the document and with the first `k` tag names of the
    /// next peer.
    pub open spec fn partial_links(
        doc: LegacyAbDataView,
        peer_base: int,
        tag_base: int,
        i: int,
        k: int,
    ) -> Set<PeerTag> {
        Set::new(
            |l: PeerTag|
                exists|a: int, j: int|
                    #![trigger doc.peers[a], doc.tags[j]]
                    0 <= a < doc.peers.len() && 0 <= j < doc.tags.len() && Self::joins(
                        l,
                        peer_base,
                        tag_base,
                        a,
                        j,
                    ) && if a < i {
                        doc.peers[a].tags.contains(doc.tags[j])
                    } else {
                        a == i && doc.peers[a].tags.take(k).contains(doc.tags[j])
                    },
        )
    }
}

/// A tag name that the document does not list adds no link.
proof fn lemma_partial_skip(doc: LegacyAbDataView, pb: int, tb: int, i: int, k: int)
    requires
        0 <= i < doc.peers.len(),
        0 <= k < doc.peers[i].tags.len(),
        !doc.tags.contains(doc.peers[i].tags[k]),
    ensures
        StoreView::partial_links(doc, pb, tb, i, k + 1) == StoreView::partial_links(doc, pb, tb, i, k),
{
    let names = doc.peers[i].tags;
    lemma_take_members(names, k);
    let x = StoreView::partial_links(doc, pb, tb, i, k + 1);
    let y = StoreView::partial_links(doc, pb, tb, i, k);
    assert forall|l: PeerTag| x.contains(l) implies y.contains(l) by {
        let (a, j) = choose|a: int, j: int|
            #![trigger doc.peers[a], doc.tags[j]]
            0 <= a < doc.peers.len() && 0 <= j < doc.tags.len() && StoreView::joins(l, pb, tb, a, j) && if a
                < i {
                doc.peers[a].tags.contains(doc.tags[j])
            } else {
                a == i && doc.peers[a].tags.take(k + 1).contains(doc.tags[j])
            };
        if a == i {
            assert(doc.tags.contains(doc.tags[j]));
            assert(doc.peers[a].tags.take(k).contains(doc.tags[j]));
        }
    }
    assert forall|l: PeerTag| y.contains(l) implies x.contains(l) by {
        let (a, j) = choose|a: int, j: int|
            #![trigger doc.peers[a], doc.tags[j]]
            0 <= a < doc.peers.len() && 0 <= j < doc.tags.len() && StoreView::joins(l, pb, tb, a, j) && if a
                < i {
                doc.peers[a].tags.contains(doc.tags[j])
            } else {
                a == i && doc.peers[a].tags.take(k).contains(doc.tags[j])
            };
        if a == i {
            assert(doc.peers[a].tags.take(k + 1).contains(doc.tags[j]));
        }
    }
    assert(x =~= y);
}

/// A tag name that the document lists at `j` adds the link to that tag.
proof fn lemma_partial_add(doc: LegacyAbDataView, pb: int, tb: int, i: int, k: int, j: int, link: PeerTag)
    requires
        0 <= i < doc.peers.len(),
        0 <= k < doc.peers[i].tags.len(),
        0 <= j < doc.tags.len(),
        doc.tags[j] == doc.peers[i].tags[k],
        doc.tags.no_duplicates(),
        StoreView::joins(link, pb, tb, i, j),
    ensures
        StoreView::partial_links(doc, pb, tb, i, k + 1) == StoreView::partial_links(doc, pb, tb, i, k).insert(
            link,
        ),
{
    let names = doc.peers[i].tags;
    lemma_take_members(names, k);
    let x = StoreView::partial_links(doc, pb, tb, i, k + 1);
    let y = StoreView::partial_links(doc, pb, tb, i, k).insert(link);
    assert forall|l: PeerTag| x.contains(l) implies y.contains(l) by {
        let (a, b) = choose|a: int, b: int|
            #![trigger doc.peers[a], doc.tags[b]]
            0 <= a < doc.peers.len() && 0 <= b < doc.tags.len() && StoreView::joins(l, pb, tb, a, b) && if a
                < i {
                doc.peers[a].tags.contains(doc.tags[b])
            } else {
                a == i && doc.peers[a].tags.take(k + 1).contains(doc.tags[b])
            };
        if a == i && !doc.peers[a].tags.take(k).contains(doc.tags[b]) {
            assert(doc.tags[b] == doc.tags[j]);
            assert(b == j);
            assert(l == link);
        } else {
            assert(StoreView::partial_links(doc, pb, tb, i, k).contains(l));
        }
    }
    assert forall|l: PeerTag| y.contains(l) implies x.contains(l) by {
        if l == link {
            assert(names.take(k + 1).contains(doc.tags[j]));
            assert(StoreView::joins(l, pb, tb, i, j) && doc.peers[i].tags.take(k + 1).contains(doc.tags[j]));
        } else {
            let (a, b) = choose|a: int, b: int|
                #![trigger doc.peers[a], doc.tags[b]]
                0 <= a < doc.peers.len() && 0 <= b < doc.tags.len() && StoreView::joins(l, pb, tb, a, b)
                    && if a < i {
                    doc.peers[a].tags.contains(doc.tags[b])
                } else {
                    a == i && doc.peers[a].tags.take(k).contains(doc.tags[b])
                };
            if a == i {
                assert(doc.peers[a].tags.take(k + 1).contains(doc.tags[b]));
            }
        }
    }
    assert(x =~= y);
}

/// When every tag name of a peer has been dealt with, the next peer's turn
/// begins with the same links.
proof fn lemma_partial_next(doc: LegacyAbDataView, pb: int, tb: int, i: int)
    requires
        0 <= i < doc.peers.len(),
    ensures
        StoreView::partial_links(doc, pb, tb, i, doc.peers[i].tags.len() as int) == StoreView::partial_links(
            doc,
            pb,
            tb,
            i + 1,
            0,
        ),
{
    let n = doc.peers[i].tags.len() as int;
    let x = StoreView::partial_links(doc, pb, tb, i, n);
    let y = StoreView::partial_links(doc, pb, tb, i + 1, 0);
    assert(doc.peers[i].tags.take(n) =~= doc.peers[i].tags);
    assert forall|l: PeerTag| x.contains(l) implies y.contains(l) by {
        let (a, b) = choose|a: int, b: int|
            #![trigger doc.peers[a], doc.tags[b]]
            0 <= a < doc.peers.len() && 0 <= b < doc.tags.len() && StoreView::joins(l, pb, tb, a, b) && if a
                < i {
                doc.peers[a].tags.contains(doc.tags[b])
            } else {
                a == i && doc.peers[a].tags.take(n).contains(doc.tags[b])
            };
        assert(a < i + 1 && doc.peers[a].tags.contains(doc.tags[b]));
    }
    assert forall|l: PeerTag| y.contains(l) implies x.contains(l) by {
        let (a, b) = choose|a: int, b: int|
            #![trigger doc.peers[a], doc.tags[b]]
            0 <= a < doc.peers.len() && 0 <= b < doc.tags.len() && StoreView::joins(l, pb, tb, a, b) && if a
                < i + 1 {
                doc.peers[a].tags.contains(doc.tags[b])
            } else {
                a == i + 1 && doc.peers[a].tags.take(0).contains(doc.tags[b])
            };
        if a == i + 1 {
            assert(doc.peers[a].tags.take(0) =~= Seq::empty());
        } else if a == i {
            assert(doc.peers[a].tags.take(n).contains(doc.tags[b]));
        }
    }
    assert(x =~= y);
}

/// Before the first peer there is no link, and behind the last there are
/// all that the document brings.
proof fn lemma_partial_ends(doc: LegacyAbDataView, pb: int, tb: int)
    ensures
        StoreView::partial_links(doc, pb, tb, 0, 0) == Set::<PeerTag>::empty(),
        StoreView::partial_links(doc, pb, tb, doc.peers.len() as int, 0) == StoreView::imported_links(
            doc,
            pb,
            tb,
        ),
{
    let x = StoreView::partial_links(doc, pb, tb, 0, 0);
    assert forall|l: PeerTag| !x.contains(l) by {
        if x.contains(l) {
            let (a, b) = choose|a: int, b: int|
                #![trigger doc.peers[a], doc.tags[b]]
                0 <= a < doc.peers.len() && 0 <= b < doc.tags.len() && StoreView::joins(l, pb, tb, a, b)
                    && if a < 0 {
                    doc.peers[a].tags.contains(doc.tags[b])
                } else {
                    a == 0 && doc.peers[a].tags.take(0).contains(doc.tags[b])
                };
            assert(doc.peers[a].tags.take(0) =~= Seq::empty());
        }
    }
    assert(x =~= Set::<PeerTag>::empty());
    let n = doc.peers.len() as int;
    let y = StoreView::partial_links(doc, pb, tb, n, 0);
    let z = StoreView::imported_links(doc, pb, tb);
    assert forall|l: PeerTag| y.contains(l) implies z.contains(l) by {
        let (a, b) = choose|a: int, b: int|
            #![trigger doc.peers[a], doc.tags[b]]
            0 <= a < doc.peers.len() && 0 <= b < doc.tags.len() && StoreView::joins(l, pb, tb, a, b) && if a
                < n {
                doc.peers[a].tags.contains(doc.tags[b])
            } else {
                a == n && doc.peers[a].tags.take(0).contains(doc.tags[b])
            };
        assert(StoreView::joins(l, pb, tb, a, b) && doc.peers[a].tags.contains(doc.tags[b]));
    }
    assert forall|l: PeerTag| z.contains(l) implies y.contains(l) by {
        let (a, b) = choose|a: int, b: int|
            #![trigger doc.peers[a], doc.tags[b]]
            0 <= a < doc.peers.len() && 0 <= b < doc.tags.len() && StoreView::joins(l, pb, tb, a, b)
                && doc.peers[a].tags.contains(doc.tags[b]);
        assert(a < n);
    }
    assert(y =~= z);
}

/// Writes a map from tag name to colour as JSON text. The names and
/// colours, of which no two may carry one name, go into a
/// `serde_json::Map`, which `serde_json::to_string` writes out. The text is
/// the one named above; it reads back, through `serde_json::from_str`, as
/// the map that the list stands for.
#[verifier::external_body]
fn encode_tag_colors(tags: &Vec<TagPayload>) -> (text: String)
    requires
        views(tags@).map_values(payload_name()).no_duplicates(),
    ensures
        text@ == tag_colors_text(views(tags@).map_values(as_pair())),
        tag_colors_parsed(text@) == Some(colors_of(views(tags@).map_values(as_pair()))),
{
    let map: serde_json::Map<String, serde_json::Value> = tags.iter().map(
        |t| (t.name.clone(), serde_json::Value::from(t.color)),
    ).collect();
    serde_json::to_string(&map).unwrap_or_default()
}

/// Reads a map from tag name to colour from JSON text, with
/// `serde_json::from_str` at the type `HashMap<String, i64>`, and hands its
/// entries out in no particular order. `None` means that the text does not
/// read as such a map.
#[verifier::external_body]
fn decode_tag_colors(text: &str) -> (r: Option<Vec<TagPayload>>)
    ensures
        match r {
            Some(v) => tag_colors_parsed(text@) == Some(colors_of(views(v@).map_values(as_pair()))),
            None => tag_colors_parsed(text@) is None,
        },
{
    match serde_json::from_str::<std::collections::HashMap<String, i64>>(text) {
        Ok(map) => Some(map.into_iter().map(|(name, color)| TagPayload { name, color }).collect()),
        Err(_) => None,
    }
}

/// The colour that an imported tag `name` gets from the colours read.
fn lookup_color(colors: &Vec<TagPayload>, name: &str) -> (c: i64)
    ensures
        c == import_color(colors_of(views(colors@).map_values(as_pair())), name@),
{
    let ghost pairs = views(colors@).map_values(as_pair());
    let mut found: i64 = 4278190080;
    let mut i: usize = 0;
    assert(pairs.take(0) =~= Seq::empty());
    while i < colors.len()
        invariant
            i <= colors.len(),
            pairs == views(colors@).map_values(as_pair()),
            found == import_color(colors_of(pairs.take(i as int)), name@),
        decreases colors.len() - i,
    {
        proof {
            assert(pairs.take(i + 1).drop_last() =~= pairs.take(i as int));
            assert(pairs.take(i + 1).last() == pairs[i as int]);
        }
        if text_eq(colors[i].name.as_str(), name) {
            found = colors[i].color;
        }
        i += 1;
    }
    assert(pairs.take(i as int) =~= pairs);
    found
}

/// The place of `name` in `names`.
fn find_text(names: &Vec<String>, name: &str) -> (r: Option<usize>)
    ensures
        match r {
            Some(j) => j < names.len() && texts(names@)[j as int] == name@,
            None => !texts(names@).contains(name@),
        },
{
    let mut i: usize = 0;
    while i < names.len()
        invariant
            i <= names.len(),
            forall|j: int| 0 <= j < i ==> texts(names@)[j] != name@,
        decreases names.len() - i,
    {
        if text_eq(names[i].as_str(), name) {
            return Some(i);
        }
        i += 1;
    }
    None
}

/// The text at `j` is the first of `names` that repeats an earlier one.
pub open spec fn repeats_at(names: Seq<Seq<char>>, j: int) -> bool {
    0 <= j < names.len() && names.take(j).no_duplicates() && names.take(j).contains(names[j])
}

/// The words that refuse a document which names something twice.
pub open spec fn named_twice(what: Seq<char>, key: Seq<char>) -> Seq<char> {
    what + " '"@ + key + "' is named twice"@
}

/// `words` refuse a document that names a tag or a peer twice, and name
/// the first tag that is repeated or, where no tag is, the first peer.
pub open spec fn names_the_repeat(doc: LegacyAbDataView, words: Seq<char>) -> bool {
    if !doc.tags.no_duplicates() {
        exists|j: int| repeats_at(doc.tags, j) && words == named_twice("Tag"@, #[trigger] doc.tags[j])
    } else {
        exists|j: int|
            repeats_at(doc.peers.map_values(legacy_id_key()), j) && words == named_twice(
                "Peer"@,
                (#[trigger] doc.peers[j]).id,
            )
    }
}

/// The place of the first text that repeats an earlier one, where there is
/// one.
pub fn first_repeat(names: &Vec<String>) -> (r: Option<usize>)
    ensures
        match r {
            Some(j) => repeats_at(texts(names@), j as int),
            None => texts(names@).no_duplicates(),
        },
{
    let ghost all = texts(names@);
    let mut j: usize = 0;
    while j < names.len()
        invariant
            j <= names.len(),
            all == texts(names@),
            forall|a: int, b: int| 0 <= a < b < j ==> all[a] != all[b],
        decreases names.len() - j,
    {
        let mut i: usize = 0;
        while i < j
            invariant
                i <= j < names.len(),
                all == texts(names@),
                forall|a: int, b: int| 0 <= a < b < j ==> all[a] != all[b],
                forall|a: int| 0 <= a < i ==> all[a] != all[j as int],
            decreases j - i,
        {
            if text_eq(names[i].as_str(), names[j].as_str()) {
                assert(all.take(j as int)[i as int] == all[j as int]);
                return Some(j);
            }
            i += 1;
        }
        j += 1;
    }
    None
}

/// The external ids of the peers of a document, in order.
fn legacy_ids(peers: &Vec<LegacyPeer>) -> (r: Vec<String>)
    ensures
        texts(r@) == views(peers@).map_values(legacy_id_key()),
{
    let mut out: Vec<String> = Vec::new();
    let mut i: usize = 0;
    while i < peers.len()
        invariant
            i <= peers.len(),
            out@.len() == i,
            forall|j: int| 0 <= j < i ==> (#[trigger] out@[j])@ == peers@[j]@.id,
        decreases peers.len() - i,
    {
        out.push(peers[i].id.clone());
        i += 1;
    }
    assert(texts(out@) =~= views(peers@).map_values(legacy_id_key()));
    out
}

/// No peer stands twice exactly if no id stands twice among the ids.
pub proof fn lemma_distinct_ids(peers: Seq<LegacyPeerView>)
    ensures
        distinct_by(peers, legacy_id_key()) <==> peers.map_values(legacy_id_key()).no_duplicates(),
{
    let ids = peers.map_values(legacy_id_key());
    if distinct_by(peers, legacy_id_key()) {
        assert forall|i: int, j: int| 0 <= i < ids.len() && 0 <= j < ids.len() && i != j implies ids[i]
            != ids[j] by {
            if i < j {
                assert(legacy_id_key()(peers[i]) != legacy_id_key()(peers[j]));
            } else {
                assert(legacy_id_key()(peers[j]) != legacy_id_key()(peers[i]));
            }
        }
    }
    if ids.no_duplicates() {
        assert forall|i: int, j: int|
            #![trigger peers[i], peers[j]]
            0 <= i < j < peers.len() implies legacy_id_key()(peers[i]) != legacy_id_key()(peers[j]) by {
            assert(ids[i] != ids[j]);
        }
    }
}

/// Whether `n` rows can be given ids from `base` on, where `base` is the
/// next id or `None` if there is none.
fn has_room(base: Option<i64>, n: usize) -> (r: bool)
    requires
        base is Some ==> base->0 >= 1,
    ensures
        r == (n == 0 || (base is Some && base->0 + n - 1 <= i64::MAX)),
{
    if n == 0 {
        return true;
    }
    match base {
        None => false,
        Some(b) => ((n - 1) as u64) <= (i64::MAX - b) as u64,
    }
}

impl Store {
    /// Puts the document in the place of the address book `g`: its tags
    /// with the colours that `colors` gives them, its peers, and a link
    /// from each peer to each tag of the document that it names. Nothing
    /// is written unless all of it can be.
    pub fn replace_book(&mut self, g: &str, doc: &LegacyAbData, colors: &Vec<TagPayload>, now: &str) -> (r: Result<(), ApiError>)
        requires
            old(self).wf(),
        ensures
            final(self).wf(),
            final(self)@ == old(self)@.import(
                g@,
                doc@,
                colors_of(views(colors@).map_values(as_pair())),
                now@,
            ).0,
            kind_of(r) == old(self)@.import(
                g@,
                doc@,
                colors_of(views(colors@).map_values(as_pair())),
                now@,
            ).1,
            !StoreView::importable(doc@) ==> names_the_repeat(doc@, r->Err_0.detail()),
    {
        let ghost s = self@;
        let ghost d = doc@;
        let ghost cm = colors_of(views(colors@).map_values(as_pair()));
        let ghost c = s.cleared(g@);
        match first_repeat(&doc.tags) {
            Some(j) => {
                let why = String::from_str("Tag").concat(" '").concat(doc.tags[j].as_str()).concat(
                    "' is named twice",
                );
                assert(d.tags[j as int] == doc.tags@[j as int]@);
                return Err(ApiError::Conflict(why));
            },
            None => {},
        }
        let ids = legacy_ids(&doc.peers);
        proof {
            lemma_distinct_ids(d.peers);
        }
        match first_repeat(&ids) {
            Some(j) => {
                let why = String::from_str("Peer").concat(" '").concat(ids[j].as_str()).concat(
                    "' is named twice",
                );
                assert(ids@[j as int]@ == d.peers[j as int].id);
                return Err(ApiError::Conflict(why));
            },
            None => {},
        }
        let mut peers = self.peers_without(g, None);
        let mut tags = self.tags_without(g, None);
        let mut links = self.links_without_peers(g, None);
        let tag_next = next_tag_id_in(&tags);
        let peer_next = next_peer_id_in(&peers);
        let ghost tbase = next_id(c.tag_ids());
        let ghost pbase = next_id(c.peer_ids());
        proof {
            lemma_next_id_is_fresh(c.tag_ids());
            lemma_next_id_is_fresh(c.peer_ids());
        }
        if !has_room(tag_next, doc.tags.len()) || !has_room(peer_next, doc.peers.len()) {
            return Err(ApiError::Internal("no row id is left".to_string()));
        }
        let tb: i64 = match tag_next {
            Some(b) => b,
            None => 0,
        };
        let pb: i64 = match peer_next {
            Some(b) => b,
            None => 0,
        };
        let ghost new_tags = StoreView::imported_tags(g@, d.tags, cm, tbase);
        let ghost new_peers = StoreView::imported_peers(g@, d.peers, now@, pbase);
        let mut i: usize = 0;
        while i < doc.tags.len()
            invariant
                i <= doc.tags.len(),
                d == doc@,
                cm == colors_of(views(colors@).map_values(as_pair())),
                new_tags == StoreView::imported_tags(g@, d.tags, cm, tbase),
                doc.tags.len() > 0 ==> tb == tbase && tbase + doc.tags.len() - 1 <= i64::MAX,
                tbase >= 1,
                tags@.len() == c.tags.len() + i,
                forall|j: int| 0 <= j < c.tags.len() ==> (#[trigger] tags@[j])@ == c.tags[j],
                forall|x: int|
                    c.tags.len() <= x < c.tags.len() + i ==> (#[trigger] tags@[x])@ == new_tags[x
                        - c.tags.len()],
            decreases doc.tags.len() - i,
        {
            let color = lookup_color(colors, doc.tags[i].as_str());
            let row = Tag { id: tb + i as i64, ab_guid: g.to_string(), name: doc.tags[i].clone(), color };
            assert(row@ == new_tags[i as int]);
            tags.push(row);
            i += 1;
        }
        let mut i: usize = 0;
        while i < doc.peers.len()
            invariant
                i <= doc.peers.len(),
                d == doc@,
                new_peers == StoreView::imported_peers(g@, d.peers, now@, pbase),
                doc.peers.len() > 0 ==> pb == pbase && pbase + doc.peers.len() - 1 <= i64::MAX,
                pbase >= 1,
                peers@.len() == c.peers.len() + i,
                forall|j: int| 0 <= j < c.peers.len() ==> (#[trigger] peers@[j])@ == c.peers[j],
                forall|x: int|
                    c.peers.len() <= x < c.peers.len() + i ==> (#[trigger] peers@[x])@ == new_peers[x
                        - c.peers.len()],
            decreases doc.peers.len() - i,
        {
            let p = &doc.peers[i];
            let row = Peer {
                id: pb + i as i64,
                ab_guid: g.to_string(),
                rustdesk_id: p.id.clone(),
                hash: p.hash.clone(),
                username: p.username.clone(),
                hostname: p.hostname.clone(),
                platform: p.platform.clone(),
                alias: p.alias.clone(),
                note: String::new(),
                created_at: now.to_string(),
                updated_at: now.to_string(),
            };
            assert(d.peers[i as int] == p@);
            assert(row@ == new_peers[i as int]);
            peers.push(row);
            i += 1;
        }
        proof {
            lemma_partial_ends(d, pbase, tbase);
            assert(c.peer_tags.union(Set::<PeerTag>::empty()) =~= c.peer_tags);
        }
        let mut a: usize = 0;
        while a < doc.peers.len()
            invariant
                a <= doc.peers.len(),
                d == doc@,
                d.tags.no_duplicates(),
                doc.peers.len() > 0 ==> pb == pbase && pbase + doc.peers.len() - 1 <= i64::MAX,
                doc.tags.len() > 0 ==> tb == tbase && tbase + doc.tags.len() - 1 <= i64::MAX,
                pbase >= 1,
                tbase >= 1,
                links@.no_duplicates(),
                links@.to_set() == c.peer_tags.union(StoreView::partial_links(d, pbase, tbase, a as int, 0)),
            decreases doc.peers.len() - a,
        {
            let names = &doc.peers[a].tags;
            assert(d.peers[a as int].tags == texts(names@));
            let mut k: usize = 0;
            while k < names.len()
                invariant
                    k <= names.len(),
                    a < doc.peers.len(),
                    d == doc@,
                    d.tags.no_duplicates(),
                    d.peers[a as int].tags == texts(names@),
                    doc.peers.len() > 0 ==> pb == pbase && pbase + doc.peers.len() - 1 <= i64::MAX,
                    doc.tags.len() > 0 ==> tb == tbase && tbase + doc.tags.len() - 1 <= i64::MAX,
                    pbase >= 1,
                    tbase >= 1,
                    links@.no_duplicates(),
                    links@.to_set() == c.peer_tags.union(
                        StoreView::partial_links(d, pbase, tbase, a as int, k as int),
                    ),
                decreases names.len() - k,
            {
                match find_text(&doc.tags, names[k].as_str()) {
                    None => {
                        proof {
                            lemma_partial_skip(d, pbase, tbase, a as int, k as int);
                        }
                    },
                    Some(j) => {
                        let link = PeerTag { peer_id: pb + a as i64, tag_id: tb + j as i64 };
                        proof {
                            lemma_partial_add(d, pbase, tbase, a as int, k as int, j as int, link);
                            lemma_push_to_set(links@, link);
                            let before = StoreView::partial_links(d, pbase, tbase, a as int, k as int);
                            assert(c.peer_tags.union(before.insert(link)) =~= c.peer_tags.union(before).insert(
                                link,
                            ));
                        }
                        if !links_hold(&links, link) {
                            proof {
                                lemma_push_no_duplicates(links@, link);
                            }
                            links.push(link);
                        } else {
                            assert(links@.to_set().insert(link) =~= links@.to_set());
                        }
                    },
                }
                k += 1;
            }
            proof {
                lemma_partial_next(d, pbase, tbase, a as int);
            }
            a += 1;
        }
        proof {
            assert(views(tags@) =~= c.tags + new_tags);
            assert(views(peers@) =~= c.peers + new_peers);
            lemma_replaced_wf(s, g@, d, cm, now@);
        }
        self.peers = peers;
        self.tags = tags;
        self.peer_tags = links;
        Ok(())
    }

    /// The document of the address book `g`.
    pub fn export_book(&self, g: &str) -> (doc: LegacyAbData)
        requires
            self.wf(),
        ensures
            self@.exports(g@, doc@),
    {
        let tags = self.tags_of(g);
        let listed = self.peers_of(g);
        let mut names: Vec<String> = Vec::new();
        let mut colored: Vec<TagPayload> = Vec::new();
        let mut i: usize = 0;
        while i < tags.len()
            invariant
                i <= tags.len(),
                names@.len() == i,
                colored@.len() == i,
                forall|j: int| 0 <= j < i ==> (#[trigger] names@[j])@ == tags@[j]@.name,
                forall|j: int| 0 <= j < i ==> as_pair()((#[trigger] colored@[j])@) == row_pair()(tags@[j]@),
            decreases tags.len() - i,
        {
            names.push(tags[i].name.clone());
            colored.push(TagPayload { name: tags[i].name.clone(), color: tags[i].color });
            i += 1;
        }
        assert(texts(names@) =~= views(tags@).map_values(tag_name_key()));
        assert(views(colored@).map_values(as_pair()) =~= views(tags@).map_values(row_pair()));
        proof {
            lemma_book_tags_props(self@, g@);
            lemma_ascending_distinct(views(tags@).map_values(tag_name_key()));
            assert(views(colored@).map_values(payload_name()) =~= views(tags@).map_values(tag_name_key()));
        }
        let tag_colors = encode_tag_colors(&colored);
        let ghost show = self@.legacy_peer();
        let ghost rows = self@.book_peers(g@);
        proof {
            lemma_book_peers_in_book(self@, g@);
        }
        let mut peers: Vec<LegacyPeer> = Vec::new();
        let mut k: usize = 0;
        while k < listed.len()
            invariant
                k <= listed.len(),
                views(listed@) == rows,
                rows == self@.book_peers(g@),
                views(tags@) == self@.book_tags(g@),
                show == self@.legacy_peer(),
                forall|j: int| 0 <= j < rows.len() ==> (#[trigger] rows[j]).ab_guid == g@,
                peers@.len() == k,
                forall|j: int| 0 <= j < k ==> (#[trigger] peers@[j])@ == show(rows[j]),
            decreases listed.len() - k,
        {
            let p = &listed[k];
            assert(p@ == rows[k as int]);
            let linked = self.linked_names(&tags, p.id);
            peers.push(
                LegacyPeer {
                    id: p.rustdesk_id.clone(),
                    hash: p.hash.clone(),
                    username: p.username.clone(),
                    hostname: p.hostname.clone(),
                    platform: p.platform.clone(),
                    alias: p.alias.clone(),
                    tags: linked,
                },
            );
            k += 1;
        }
        assert(views(peers@) =~= rows.map_values(show));
        LegacyAbData { tags: names, peers, tag_colors }
    }
}

/// The words in front of what the reader of a document found wrong.
pub open spec fn invalid_document() -> Seq<char> {
    "Invalid address book data: "@
}

/// What replacing the caller's personal address book does, given what
/// reading the request's document gave: the document, or the words of the
/// reader that refused it.
pub open spec fn spec_update(
    s: StoreView,
    g: Seq<char>,
    parsed: Result<LegacyAbData, String>,
    now: Seq<char>,
) -> (StoreView, Result<(), ErrorKind>) {
    match parsed {
        Err(_) => (s, Err(ErrorKind::BadRequest)),
        Ok(doc) => s.import(g, doc@, colors_in(doc@), now),
    }
}

/// Exports the caller's personal address book as one document.
pub fn get_ab_legacy(store: &mut Store, user_id: i64, now: &str) -> (r: Result<LegacyAbData, ApiError>)
    requires
        old(store).wf(),
    ensures
        final(store).wf(),
        welcome(old(store)@, user_id, Seq::empty()) ==> r is Ok,
        turned_away(old(store)@, user_id, Seq::empty(), final(store)@, r) || {
            &&& let_through(old(store)@, user_id, Seq::empty(), final(store)@)
            &&& final(store)@ == entered(old(store)@, user_id, Seq::empty(), now@, final(store)@)
            &&& r is Ok
            &&& final(store)@.exports(final(store)@.personal_guid(user_id), r->Ok_0@)
        },
{
    proof {
        reveal_strlit("");
    }
    let g = match resolve_ab_guid(store, user_id, "", now) {
        Ok(g) => g,
        Err(e) => {
            return Err(e);
        },
    };
    Ok(store.export_book(g.as_str()))
}

/// Replaces the caller's personal address book by a document.
///
/// `parsed` is what reading the request gave. A document that could not be
/// read is a bad request. One whose colour text cannot be read is taken
/// with no colours, so that every tag gets the default. The replacement is
/// all or nothing.
pub fn update_ab_legacy(
    store: &mut Store,
    user_id: i64,
    parsed: &Result<LegacyAbData, String>,
    now: &str,
) -> (r: Result<(), ApiError>)
    requires
        old(store).wf(),
    ensures
        final(store).wf(),
        welcome(old(store)@, user_id, Seq::empty()) ==> !turned_away(old(store)@, user_id, Seq::empty(), final(store)@, r),
        turned_away(old(store)@, user_id, Seq::empty(), final(store)@, r) || {
            &&& let_through(old(store)@, user_id, Seq::empty(), final(store)@)
            &&& (final(store)@, kind_of(r)) == spec_update(
                entered(old(store)@, user_id, Seq::empty(), now@, final(store)@),
                final(store)@.personal_guid(user_id),
                *parsed,
                now@,
            )
            &&& parsed is Err ==> r->Err_0.detail() == invalid_document() + parsed->Err_0@
            &&& parsed is Ok && !StoreView::importable(parsed->Ok_0@) ==> names_the_repeat(
                parsed->Ok_0@,
                r->Err_0.detail(),
            )
        },
{
    proof {
        reveal_strlit("");
    }
    let g = match resolve_ab_guid(store, user_id, "", now) {
        Ok(g) => g,
        Err(e) => {
            return Err(e);
        },
    };
    let doc = match parsed {
        Ok(doc) => doc,
        Err(why) => {
            return Err(
                ApiError::BadRequest(String::from_str("Invalid address book data: ").concat(why.as_str())),
            );
        },
    };
    let colors = match decode_tag_colors(doc.tag_colors.as_str()) {
        Some(v) => v,
        None => Vec::new(),
    };
    proof {
        if tag_colors_parsed(doc.tag_colors@) is None {
            assert(views(colors@).map_values(as_pair()) =~= Seq::empty());
        }
    }
    store.replace_book(g.as_str(), doc, &colors, now)
}

} // verus!
