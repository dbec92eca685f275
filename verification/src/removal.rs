//! Taking peers and tags out of an address book, together with the links
//! that would otherwise point at nothing.

use vstd::prelude::*;
use crate::models::peer::{Peer, PeerTag, PeerView};
use crate::models::tag::{Tag, TagView};
use crate::rows::{
    has_key, lemma_distinct_filter, lemma_filter_keeps, lemma_filter_no_duplicates, lemma_filter_step,
    lemma_filter_to_set, views,
};
use crate::store::{peer_id_key, peer_key, tag_id_key, tag_key, Store, StoreView};
use crate::text::{text_eq, texts, texts_contain};

verus! {

/// The texts of a list of strings that may be absent.
pub open spec fn opt_texts(names: Option<&Vec<String>>) -> Option<Seq<Seq<char>>> {
    match names {
        Some(v) => Some(texts(v@)),
        None => None,
    }
}

/// The peer `p` belongs to the address book `g` and is one of `rids`;
/// without `rids` every peer of the address book is meant.
pub open spec fn peer_selected(g: Seq<char>, rids: Option<Seq<Seq<char>>>, p: PeerView) -> bool {
    p.ab_guid == g && (rids is None || rids->0.contains(p.rustdesk_id))
}

/// The tag `t` belongs to the address book `g` and is one of `names`;
/// without `names` every tag of the address book is meant.
pub open spec fn tag_selected(g: Seq<char>, names: Option<Seq<Seq<char>>>, t: TagView) -> bool {
    t.ab_guid == g && (names is None || names->0.contains(t.name))
}

/// The peers that are not selected.
pub open spec fn peers_kept(g: Seq<char>, rids: Option<Seq<Seq<char>>>) -> spec_fn(PeerView) -> bool {
    |p: PeerView| !peer_selected(g, rids, p)
}

/// The tags that are not selected.
pub open spec fn tags_kept(g: Seq<char>, names: Option<Seq<Seq<char>>>) -> spec_fn(TagView) -> bool {
    |t: TagView| !tag_selected(g, names, t)
}

impl StoreView {
    /// The link `l` points at a selected peer.
    pub open spec fn link_to_selected_peer(
        self,
        g: Seq<char>,
        rids: Option<Seq<Seq<char>>>,
        l: PeerTag,
    ) -> bool {
        exists|i: int|
            0 <= i < self.peers.len() && (#[trigger] self.peers[i]).id == l.peer_id && peer_selected(
                g,
                rids,
                self.peers[i],
            )
    }

    /// The link `l` points at a selected tag.
    pub open spec fn link_to_selected_tag(
        self,
        g: Seq<char>,
        names: Option<Seq<Seq<char>>>,
        l: PeerTag,
    ) -> bool {
        exists|i: int|
            0 <= i < self.tags.len() && (#[trigger] self.tags[i]).id == l.tag_id && tag_selected(
                g,
                names,
                self.tags[i],
            )
    }

    /// The links that point at no selected peer.
    pub open spec fn links_clear_of_peers(self, g: Seq<char>, rids: Option<Seq<Seq<char>>>) -> spec_fn(
        PeerTag,
    ) -> bool {
        |l: PeerTag| !self.link_to_selected_peer(g, rids, l)
    }

    /// The links that point at no selected tag.
    pub open spec fn links_clear_of_tags(self, g: Seq<char>, names: Option<Seq<Seq<char>>>) -> spec_fn(
        PeerTag,
    ) -> bool {
        |l: PeerTag| !self.link_to_selected_tag(g, names, l)
    }

    /// The state without the selected peers of the address book `g` and
    /// without the links of those peers.
    pub open spec fn without_peers(self, g: Seq<char>, rids: Option<Seq<Seq<char>>>) -> StoreView {
        StoreView {
            peers: self.peers.filter(peers_kept(g, rids)),
            peer_tags: self.peer_tags.filter(self.links_clear_of_peers(g, rids)),
            ..self
        }
    }

    /// The state without the selected tags of the address book `g` and
    /// without the links of those tags.
    pub open spec fn without_tags(self, g: Seq<char>, names: Option<Seq<Seq<char>>>) -> StoreView {
        StoreView {
            tags: self.tags.filter(tags_kept(g, names)),
            peer_tags: self.peer_tags.filter(self.links_clear_of_tags(g, names)),
            ..self
        }
    }
}

/// Taking peers out keeps a valid state valid.
pub proof fn lemma_without_peers_wf(s: StoreView, g: Seq<char>, rids: Option<Seq<Seq<char>>>)
    requires
        s.wf(),
    ensures
        s.without_peers(g, rids).wf(),
{
    let t = s.without_peers(g, rids);
    lemma_distinct_filter(s.peers, peer_id_key(), peers_kept(g, rids));
    lemma_distinct_filter(s.peers, peer_key(), peers_kept(g, rids));
    assert forall|l: PeerTag| #[trigger] t.peer_tags.contains(l) implies t.link_ok(l) by {
        assert(s.peer_tags.contains(l));
        assert(s.link_ok(l));
        let (i, j) = choose|i: int, j: int|
            #![trigger s.peers[i], s.tags[j]]
            0 <= i < s.peers.len() && 0 <= j < s.tags.len() && s.peers[i].id == l.peer_id && s.tags[j].id
                == l.tag_id && s.peers[i].ab_guid == s.tags[j].ab_guid;
        assert(!s.link_to_selected_peer(g, rids, l));
        assert(!peer_selected(g, rids, s.peers[i]));
        let k = lemma_filter_keeps(s.peers, peers_kept(g, rids), i);
        assert(t.peers[k].id == l.peer_id && t.tags[j].id == l.tag_id);
    }
}

/// Taking tags out keeps a valid state valid.
pub proof fn lemma_without_tags_wf(s: StoreView, g: Seq<char>, names: Option<Seq<Seq<char>>>)
    requires
        s.wf(),
    ensures
        s.without_tags(g, names).wf(),
{
    let t = s.without_tags(g, names);
    lemma_distinct_filter(s.tags, tag_id_key(), tags_kept(g, names));
    lemma_distinct_filter(s.tags, tag_key(), tags_kept(g, names));
    assert forall|l: PeerTag| #[trigger] t.peer_tags.contains(l) implies t.link_ok(l) by {
        assert(s.peer_tags.contains(l));
        assert(s.link_ok(l));
        let (i, j) = choose|i: int, j: int|
            #![trigger s.peers[i], s.tags[j]]
            0 <= i < s.peers.len() && 0 <= j < s.tags.len() && s.peers[i].id == l.peer_id && s.tags[j].id
                == l.tag_id && s.peers[i].ab_guid == s.tags[j].ab_guid;
        assert(!s.link_to_selected_tag(g, names, l));
        assert(!tag_selected(g, names, s.tags[j]));
        let k = lemma_filter_keeps(s.tags, tags_kept(g, names), j);
        assert(t.peers[i].id == l.peer_id && t.tags[k].id == l.tag_id);
    }
}

impl Store {
    /// The row of the peer with the row id `id`.
    pub(crate) fn find_peer_by_id(&self, id: i64) -> (r: Option<usize>)
        ensures
            r is Some <==> has_key(self@.peers, peer_id_key(), id),
            r is Some ==> r->0 < self.peers.len() && self@.peers[r->0 as int].id == id,
    {
        let mut i: usize = 0;
        while i < self.peers.len()
            invariant
                i <= self.peers.len(),
                forall|j: int| 0 <= j < i ==> (#[trigger] self@.peers[j]).id != id,
            decreases self.peers.len() - i,
        {
            if self.peers[i].id == id {
                assert(peer_id_key()(self@.peers[i as int]) == id);
                return Some(i);
            }
            i += 1;
        }
        None
    }

    /// The row of the tag with the row id `id`.
    pub(crate) fn find_tag_by_id(&self, id: i64) -> (r: Option<usize>)
        ensures
            r is Some <==> has_key(self@.tags, tag_id_key(), id),
            r is Some ==> r->0 < self.tags.len() && self@.tags[r->0 as int].id == id,
    {
        let mut i: usize = 0;
        while i < self.tags.len()
            invariant
                i <= self.tags.len(),
                forall|j: int| 0 <= j < i ==> (#[trigger] self@.tags[j]).id != id,
            decreases self.tags.len() - i,
        {
            if self.tags[i].id == id {
                assert(tag_id_key()(self@.tags[i as int]) == id);
                return Some(i);
            }
            i += 1;
        }
        None
    }

    /// Whether the peer row is selected.
    fn peer_is_selected(p: &Peer, g: &str, rids: Option<&Vec<String>>) -> (r: bool)
        ensures
            r == peer_selected(g@, opt_texts(rids), p@),
    {
        if !text_eq(p.ab_guid.as_str(), g) {
            return false;
        }
        match rids {
            None => true,
            Some(v) => texts_contain(v, p.rustdesk_id.as_str()),
        }
    }

    /// Whether the tag row is selected.
    fn tag_is_selected(t: &Tag, g: &str, names: Option<&Vec<String>>) -> (r: bool)
        ensures
            r == tag_selected(g@, opt_texts(names), t@),
    {
        if !text_eq(t.ab_guid.as_str(), g) {
            return false;
        }
        match names {
            None => true,
            Some(v) => texts_contain(v, t.name.as_str()),
        }
    }

    /// Whether the link points at a selected peer.
    fn link_hits_peer(&self, l: PeerTag, g: &str, rids: Option<&Vec<String>>) -> (r: bool)
        requires
            self.wf(),
        ensures
            r == self@.link_to_selected_peer(g@, opt_texts(rids), l),
    {
        match self.find_peer_by_id(l.peer_id) {
            None => false,
            Some(k) => {
                let r = Self::peer_is_selected(&self.peers[k], g, rids);
                proof {
                    assert forall|i: int|
                        0 <= i < self@.peers.len() && (#[trigger] self@.peers[i]).id
                            == l.peer_id implies i == k by {
                        if i < k {
                            assert(peer_id_key()(self@.peers[i]) != peer_id_key()(self@.peers[k as int]));
                        } else if k < i {
                            assert(peer_id_key()(self@.peers[k as int]) != peer_id_key()(self@.peers[i]));
                        }
                    }
                    assert(self@.peers[k as int].id == l.peer_id);
                }
                r
            },
        }
    }

    /// Whether the link points at a selected tag.
    fn link_hits_tag(&self, l: PeerTag, g: &str, names: Option<&Vec<String>>) -> (r: bool)
        requires
            self.wf(),
        ensures
            r == self@.link_to_selected_tag(g@, opt_texts(names), l),
    {
        match self.find_tag_by_id(l.tag_id) {
            None => false,
            Some(k) => {
                let r = Self::tag_is_selected(&self.tags[k], g, names);
                proof {
                    assert forall|i: int|
                        0 <= i < self@.tags.len() && (#[trigger] self@.tags[i]).id
                            == l.tag_id implies i == k by {
                        if i < k {
                            assert(tag_id_key()(self@.tags[i]) != tag_id_key()(self@.tags[k as int]));
                        } else if k < i {
                            assert(tag_id_key()(self@.tags[k as int]) != tag_id_key()(self@.tags[i]));
                        }
                    }
                    assert(self@.tags[k as int].id == l.tag_id);
                }
                r
            },
        }
    }

    /// The peers that are not selected, in table order.
    pub(crate) fn peers_without(&self, g: &str, rids: Option<&Vec<String>>) -> (r: Vec<Peer>)
        ensures
            views(r@) == self@.peers.filter(peers_kept(g@, opt_texts(rids))),
    {
        let ghost s = self@;
        let ghost sel = opt_texts(rids);
        let mut peers: Vec<Peer> = Vec::new();
        let mut k: usize = 0;
        assert(s.peers.take(0).filter(peers_kept(g@, sel)) =~= Seq::empty()) by {
            reveal(Seq::filter);
        }
        assert(views(peers@) =~= Seq::empty());
        while k < self.peers.len()
            invariant
                k <= self.peers.len(),
                self@ == s,
                sel == opt_texts(rids),
                views(peers@) == s.peers.take(k as int).filter(peers_kept(g@, sel)),
            decreases self.peers.len() - k,
        {
            proof {
                lemma_filter_step(s.peers, k as int, peers_kept(g@, sel));
            }
            if !Self::peer_is_selected(&self.peers[k], g, rids) {
                let ghost before = peers@;
                let row = self.peers[k].clone();
                peers.push(row);
                assert(views(peers@) =~= views(before).push(row@));
            }
            k += 1;
        }
        assert(s.peers.take(k as int) =~= s.peers);
        peers
    }

    /// The tags that are not selected, in table order.
    pub(crate) fn tags_without(&self, g: &str, names: Option<&Vec<String>>) -> (r: Vec<Tag>)
        ensures
            views(r@) == self@.tags.filter(tags_kept(g@, opt_texts(names))),
    {
        let ghost s = self@;
        let ghost sel = opt_texts(names);
        let mut tags: Vec<Tag> = Vec::new();
        let mut k: usize = 0;
        assert(s.tags.take(0).filter(tags_kept(g@, sel)) =~= Seq::empty()) by {
            reveal(Seq::filter);
        }
        assert(views(tags@) =~= Seq::empty());
        while k < self.tags.len()
            invariant
                k <= self.tags.len(),
                self@ == s,
                sel == opt_texts(names),
                views(tags@) == s.tags.take(k as int).filter(tags_kept(g@, sel)),
            decreases self.tags.len() - k,
        {
            proof {
                lemma_filter_step(s.tags, k as int, tags_kept(g@, sel));
            }
            if !Self::tag_is_selected(&self.tags[k], g, names) {
                let ghost before = tags@;
                let row = self.tags[k].clone();
                tags.push(row);
                assert(views(tags@) =~= views(before).push(row@));
            }
            k += 1;
        }
        assert(s.tags.take(k as int) =~= s.tags);
        tags
    }

    /// The links that point at no selected peer.
    pub(crate) fn links_without_peers(&self, g: &str, rids: Option<&Vec<String>>) -> (r: Vec<PeerTag>)
        requires
            self.wf(),
        ensures
            r@ == self.peer_tags@.filter(self@.links_clear_of_peers(g@, opt_texts(rids))),
            r@.no_duplicates(),
            r@.to_set() == self@.peer_tags.filter(self@.links_clear_of_peers(g@, opt_texts(rids))),
    {
        let ghost s = self@;
        let ghost sel = opt_texts(rids);
        let mut links: Vec<PeerTag> = Vec::new();
        let mut i: usize = 0;
        assert(self.peer_tags@.take(0).filter(s.links_clear_of_peers(g@, sel)) =~= Seq::empty()) by {
            reveal(Seq::filter);
        }
        while i < self.peer_tags.len()
            invariant
                i <= self.peer_tags.len(),
                self.wf(),
                self@ == s,
                sel == opt_texts(rids),
                links@ == self.peer_tags@.take(i as int).filter(s.links_clear_of_peers(g@, sel)),
            decreases self.peer_tags.len() - i,
        {
            let l = self.peer_tags[i];
            proof {
                lemma_filter_step(self.peer_tags@, i as int, s.links_clear_of_peers(g@, sel));
            }
            if !self.link_hits_peer(l, g, rids) {
                links.push(l);
            }
            i += 1;
        }
        proof {
            assert(self.peer_tags@.take(i as int) =~= self.peer_tags@);
            lemma_filter_to_set(self.peer_tags@, s.links_clear_of_peers(g@, sel));
            lemma_filter_no_duplicates(self.peer_tags@, s.links_clear_of_peers(g@, sel));
        }
        links
    }

    /// The links that point at no selected tag.
    pub(crate) fn links_without_tags(&self, g: &str, names: Option<&Vec<String>>) -> (r: Vec<PeerTag>)
        requires
            self.wf(),
        ensures
            r@ == self.peer_tags@.filter(self@.links_clear_of_tags(g@, opt_texts(names))),
            r@.no_duplicates(),
            r@.to_set() == self@.peer_tags.filter(self@.links_clear_of_tags(g@, opt_texts(names))),
    {
        let ghost s = self@;
        let ghost sel = opt_texts(names);
        let mut links: Vec<PeerTag> = Vec::new();
        let mut i: usize = 0;
        assert(self.peer_tags@.take(0).filter(s.links_clear_of_tags(g@, sel)) =~= Seq::empty()) by {
            reveal(Seq::filter);
        }
        while i < self.peer_tags.len()
            invariant
                i <= self.peer_tags.len(),
                self.wf(),
                self@ == s,
                sel == opt_texts(names),
                links@ == self.peer_tags@.take(i as int).filter(s.links_clear_of_tags(g@, sel)),
            decreases self.peer_tags.len() - i,
        {
            let l = self.peer_tags[i];
            proof {
                lemma_filter_step(self.peer_tags@, i as int, s.links_clear_of_tags(g@, sel));
            }
            if !self.link_hits_tag(l, g, names) {
                links.push(l);
            }
            i += 1;
        }
        proof {
            assert(self.peer_tags@.take(i as int) =~= self.peer_tags@);
            lemma_filter_to_set(self.peer_tags@, s.links_clear_of_tags(g@, sel));
            lemma_filter_no_duplicates(self.peer_tags@, s.links_clear_of_tags(g@, sel));
        }
        links
    }

    /// Takes the selected peers of the address book `g` out, their links
    /// first.
    pub(crate) fn remove_peers(&mut self, g: &str, rids: Option<&Vec<String>>)
        requires
            old(self).wf(),
        ensures
            final(self).wf(),
            final(self)@ == old(self)@.without_peers(g@, opt_texts(rids)),
    {
        let links = self.links_without_peers(g, rids);
        let peers = self.peers_without(g, rids);
        proof {
            lemma_without_peers_wf(self@, g@, opt_texts(rids));
        }
        self.peer_tags = links;
        self.peers = peers;
    }

    /// Takes the selected tags of the address book `g` out, their links
    /// first.
    pub(crate) fn remove_tags(&mut self, g: &str, names: Option<&Vec<String>>)
        requires
            old(self).wf(),
        ensures
            final(self).wf(),
            final(self)@ == old(self)@.without_tags(g@, opt_texts(names)),
    {
        let links = self.links_without_tags(g, names);
        let tags = self.tags_without(g, names);
        proof {
            lemma_without_tags_wf(self@, g@, opt_texts(names));
        }
        self.peer_tags = links;
        self.tags = tags;
    }
}

} // verus!
