//! The tags of an address book: listing, adding, renaming, recolouring and
//! deleting them.

use vstd::prelude::*;
use crate::access::{acted_on, entered, kind_of, let_through, resolve_ab_guid, turned_away, welcome};
use crate::error::{ApiError, ErrorKind};
use crate::listing::{lemma_listing_props, lemma_listing_push, lemma_slot_is, listing, slot};
use crate::models::tag::{
    AddTagRequest, DeleteTagRequest, RenameTagRequest, Tag, TagPayload, TagPayloadView, TagView,
    TagsResponse, UpdateTagColorRequest,
};
use crate::rows::{
    has_key, lemma_distinct_push, lemma_filter_members, lemma_filter_order, lemma_filter_step,
    lemma_next_id_is_fresh, next_id, views,
};
use crate::store::{lemma_links_ok_carry, tag_id_key, tag_key, Store, StoreView};
use crate::text::{ascending, copy_texts, text_before, text_eq, texts};

verus! {

/// The name of a tag row.
pub open spec fn tag_name_key() -> spec_fn(TagView) -> Seq<char> {
    |t: TagView| t.name
}

/// The tags of the address book `g`.
pub open spec fn tag_in_book(g: Seq<char>) -> spec_fn(TagView) -> bool {
    |t: TagView| t.ab_guid == g
}

/// A tag row as a client sees it.
pub open spec fn tag_payload() -> spec_fn(TagView) -> TagPayloadView {
    |t: TagView| TagPayloadView { name: t.name, color: t.color }
}

/// The tag `old` of the address book `g` under the name `new`; any other
/// tag as it is.
pub open spec fn renamed(g: Seq<char>, old: Seq<char>, new: Seq<char>) -> spec_fn(TagView) -> TagView {
    |t: TagView|
        if t.ab_guid == g && t.name == old {
            TagView { name: new, ..t }
        } else {
            t
        }
}

/// The tag `name` of the address book `g` in the colour `color`; any other
/// tag as it is.
pub open spec fn recolored(g: Seq<char>, name: Seq<char>, color: i64) -> spec_fn(TagView) -> TagView {
    |t: TagView|
        if t.ab_guid == g && t.name == name {
            TagView { color, ..t }
        } else {
            t
        }
}

/// The words that refuse a tag name which a tag of the address book has
/// already.
pub open spec fn tag_taken(name: Seq<char>) -> Seq<char> {
    "Tag '"@ + name + "' already exists"@
}

/// The number of rows of a listing as an answer reports it.
pub open spec fn reported_total(n: nat) -> i64 {
    if n > i64::MAX {
        i64::MAX
    } else {
        n as i64
    }
}

/// The names that a request to delete tags means: its batch, and then its
/// single name if it has one.
pub open spec fn names_to_delete(req: &DeleteTagRequest) -> Seq<Seq<char>> {
    match req.name {
        Some(n) => texts(req.names@).push(n@),
        None => texts(req.names@),
    }
}

impl StoreView {
    /// The tags of the address book `g` in ascending order of their names.
    pub open spec fn book_tags(self, g: Seq<char>) -> Seq<TagView> {
        listing(self.tags.filter(tag_in_book(g)), tag_name_key())
    }

    /// The state with a new tag in the address book `g`.
    pub open spec fn with_tag(self, g: Seq<char>, name: Seq<char>, color: i64) -> StoreView {
        StoreView {
            tags: self.tags.push(
                TagView { id: next_id(self.tag_ids()) as i64, ab_guid: g, name, color },
            ),
            ..self
        }
    }

    /// What adding a tag does: nothing where the address book has a tag of
    /// that name; a failure of the store where no row id is left; else the
    /// tag is new.
    pub open spec fn add_tag(self, g: Seq<char>, name: Seq<char>, color: i64) -> (
        StoreView,
        Result<(), ErrorKind>,
    ) {
        if self.has_tag(g, name) {
            (self, Ok(()))
        } else if next_id(self.tag_ids()) > i64::MAX {
            (self, Err(ErrorKind::Internal))
        } else {
            (self.with_tag(g, name, color), Ok(()))
        }
    }

    /// What renaming a tag does: nothing where there is no tag `old` or the
    /// two names are the same; a conflict where a tag `new` exists; else the
    /// tag goes by `new`, and keeps its colour, its row and its links.
    pub open spec fn rename_tag(self, g: Seq<char>, old: Seq<char>, new: Seq<char>) -> (
        StoreView,
        Result<(), ErrorKind>,
    ) {
        if !self.has_tag(g, old) || old == new {
            (self, Ok(()))
        } else if self.has_tag(g, new) {
            (self, Err(ErrorKind::Conflict))
        } else {
            (StoreView { tags: self.tags.map_values(renamed(g, old, new)), ..self }, Ok(()))
        }
    }

    /// What recolouring a tag does: the tag `name` of the address book `g`,
    /// if there is one, gets the colour.
    pub open spec fn recolor_tag(self, g: Seq<char>, name: Seq<char>, color: i64) -> StoreView {
        StoreView { tags: self.tags.map_values(recolored(g, name, color)), ..self }
    }
}

/// A new tag keeps a valid state valid.
pub proof fn lemma_with_tag_wf(s: StoreView, g: Seq<char>, name: Seq<char>, color: i64)
    requires
        s.wf(),
        !s.has_tag(g, name),
        next_id(s.tag_ids()) <= i64::MAX,
    ensures
        s.with_tag(g, name, color).wf(),
{
    let row = TagView { id: next_id(s.tag_ids()) as i64, ab_guid: g, name, color };
    lemma_next_id_is_fresh(s.tag_ids());
    assert(!has_key(s.tags, tag_id_key(), row.id)) by {
        if has_key(s.tags, tag_id_key(), row.id) {
            let i = choose|i: int| 0 <= i < s.tags.len() && tag_id_key()(#[trigger] s.tags[i]) == row.id;
            assert(s.tag_ids()[i] == s.tags[i].id);
        }
    }
    lemma_distinct_push(s.tags, tag_id_key(), row);
    lemma_distinct_push(s.tags, tag_key(), row);
    lemma_links_ok_carry(s, s.with_tag(g, name, color));
}

/// Renaming a tag to a free name keeps a valid state valid.
pub proof fn lemma_rename_tag_wf(s: StoreView, g: Seq<char>, old: Seq<char>, new: Seq<char>)
    requires
        s.wf(),
    ensures
        s.rename_tag(g, old, new).0.wf(),
{
    let t = s.rename_tag(g, old, new).0;
    if t != s {
        let f = renamed(g, old, new);
        assert forall|i: int, j: int|
            #![trigger t.tags[i], t.tags[j]]
            0 <= i < j < t.tags.len() implies tag_id_key()(t.tags[i]) != tag_id_key()(t.tags[j])
            && tag_key()(t.tags[i]) != tag_key()(t.tags[j]) by {
            assert(tag_id_key()(s.tags[i]) != tag_id_key()(s.tags[j]));
            assert(tag_key()(s.tags[i]) != tag_key()(s.tags[j]));
            assert(tag_key()(s.tags[i]) != (g, new));
            assert(tag_key()(s.tags[j]) != (g, new));
        }
        lemma_links_ok_carry(s, t);
    }
}

/// Recolouring a tag keeps a valid state valid.
pub proof fn lemma_recolor_tag_wf(s: StoreView, g: Seq<char>, name: Seq<char>, color: i64)
    requires
        s.wf(),
    ensures
        s.recolor_tag(g, name, color).wf(),
{
    let t = s.recolor_tag(g, name, color);
    assert forall|i: int, j: int|
        #![trigger t.tags[i], t.tags[j]]
        0 <= i < j < t.tags.len() implies tag_id_key()(t.tags[i]) != tag_id_key()(t.tags[j]) && tag_key()(
        t.tags[i],
    ) != tag_key()(t.tags[j]) by {
        assert(tag_id_key()(s.tags[i]) != tag_id_key()(s.tags[j]));
        assert(tag_key()(s.tags[i]) != tag_key()(s.tags[j]));
    }
    lemma_links_ok_carry(s, t);
}

/// What the listing of the tags of an address book is like: ascending
/// names, every tag of the address book and no other row.
pub proof fn lemma_book_tags_props(s: StoreView, g: Seq<char>)
    requires
        s.wf(),
    ensures
        ascending(s.book_tags(g).map_values(tag_name_key())),
        forall|j: int|
            0 <= j < s.book_tags(g).len() ==> (#[trigger] s.book_tags(g)[j]).ab_guid == g && s.tags.contains(
                s.book_tags(g)[j],
            ),
        forall|t: TagView| s.tags.contains(t) && t.ab_guid == g ==> #[trigger] s.book_tags(g).contains(t),
{
    let f = s.tags.filter(tag_in_book(g));
    lemma_filter_members(s.tags, tag_in_book(g));
    assert forall|a: int, b: int|
        #![trigger f[a], f[b]]
        0 <= a < b < f.len() implies tag_name_key()(f[a]) != tag_name_key()(f[b]) by {
        let r = lemma_filter_order(s.tags, tag_in_book(g), a, b);
        assert(tag_key()(s.tags[r.0]) != tag_key()(s.tags[r.1]));
        assert(f.contains(f[a]) && f.contains(f[b]));
    }
    lemma_listing_props(f, tag_name_key());
    let l = s.book_tags(g);
    assert forall|j: int| 0 <= j < l.len() implies (#[trigger] l[j]).ab_guid == g && s.tags.contains(l[j]) by {
        assert(l.contains(l[j]));
        assert(f.contains(l[j]));
    }
    assert forall|t: TagView| s.tags.contains(t) && t.ab_guid == g implies #[trigger] l.contains(t) by {
        assert(f.contains(t));
    }
}

/// The count of rows that an answer reports.
pub fn total_of(n: usize) -> (total: i64)
    ensures
        total == reported_total(n as nat),
{
    let wide = n as u64;
    if wide > 0x7fff_ffff_ffff_ffff {
        i64::MAX
    } else {
        wide as i64
    }
}

/// The place of a tag named `name` among the listed tags.
fn tag_slot(listed: &Vec<Tag>, name: &str) -> (p: usize)
    ensures
        p <= listed.len(),
        p == slot(views(listed@).map_values(tag_name_key()), name@),
{
    let ghost keys = views(listed@).map_values(tag_name_key());
    let mut p: usize = 0;
    while p < listed.len() && text_before(listed[p].name.as_str(), name)
        invariant
            p <= listed.len(),
            keys == views(listed@).map_values(tag_name_key()),
            forall|j: int| 0 <= j < p ==> crate::text::text_lt(#[trigger] keys[j], name@),
        decreases listed.len() - p,
    {
        p += 1;
    }
    proof {
        lemma_slot_is(keys, name@, p as int);
    }
    p
}

impl Store {
    /// The tags of the address book `g` in ascending order of their names.
    pub fn tags_of(&self, g: &str) -> (r: Vec<Tag>)
        ensures
            views(r@) == self@.book_tags(g@),
    {
        let ghost all = self@.tags;
        let mut out: Vec<Tag> = Vec::new();
        let mut i: usize = 0;
        assert(all.take(0).filter(tag_in_book(g@)) =~= Seq::empty()) by {
            reveal(Seq::filter);
        }
        assert(views(out@) =~= Seq::empty());
        while i < self.tags.len()
            invariant
                i <= self.tags.len(),
                all == self@.tags,
                views(out@) == listing(all.take(i as int).filter(tag_in_book(g@)), tag_name_key()),
            decreases self.tags.len() - i,
        {
            proof {
                lemma_filter_step(all, i as int, tag_in_book(g@));
            }
            if text_eq(self.tags[i].ab_guid.as_str(), g) {
                let p = tag_slot(&out, self.tags[i].name.as_str());
                let row = self.tags[i].clone();
                let ghost before = out@;
                out.insert(p, row);
                proof {
                    lemma_listing_push(all.take(i as int).filter(tag_in_book(g@)), tag_name_key(), all[i as int]);
                    assert(views(out@) =~= views(before).insert(p as int, row@));
                }
            }
            i += 1;
        }
        assert(all.take(i as int) =~= all);
        out
    }

    /// Adds the tag `name` to the address book `g`, unless it has one of
    /// that name.
    pub fn insert_tag(&mut self, g: &str, name: &str, color: i64) -> (r: Result<(), ApiError>)
        requires
            old(self).wf(),
        ensures
            final(self).wf(),
            final(self)@ == old(self)@.add_tag(g@, name@, color).0,
            kind_of(r) == old(self)@.add_tag(g@, name@, color).1,
    {
        if self.find_tag(g, name).is_some() {
            return Ok(());
        }
        let id = match self.next_tag_id() {
            Some(id) => id,
            None => {
                return Err(ApiError::Internal("no tag id is left".to_string()));
            },
        };
        let row = Tag { id, ab_guid: g.to_string(), name: name.to_string(), color };
        self.tags.push(row);
        proof {
            assert(self@.tags =~= old(self)@.tags.push(row@));
            lemma_with_tag_wf(old(self)@, g@, name@, color);
        }
        Ok(())
    }

    /// Gives the tag `old` of the address book `g` the name `new`.
    pub fn retitle_tag(&mut self, g: &str, old_name: &str, new_name: &str) -> (r: Result<(), ApiError>)
        requires
            old(self).wf(),
        ensures
            final(self).wf(),
            final(self)@ == old(self)@.rename_tag(g@, old_name@, new_name@).0,
            kind_of(r) == old(self)@.rename_tag(g@, old_name@, new_name@).1,
            r is Err ==> r->Err_0.detail() == tag_taken(new_name@),
    {
        let at = match self.find_tag(g, old_name) {
            Some(i) => i,
            None => {
                return Ok(());
            },
        };
        if text_eq(old_name, new_name) {
            return Ok(());
        }
        if self.find_tag(g, new_name).is_some() {
            return Err(
                ApiError::Conflict(String::from_str("Tag '").concat(new_name).concat("' already exists")),
            );
        }
        let row = Tag {
            id: self.tags[at].id,
            ab_guid: self.tags[at].ab_guid.clone(),
            name: new_name.to_string(),
            color: self.tags[at].color,
        };
        self.tags.set(at, row);
        proof {
            let s = old(self)@;
            let f = renamed(g@, old_name@, new_name@);
            assert forall|j: int| 0 <= j < s.tags.len() implies #[trigger] self@.tags[j] == f(s.tags[j]) by {
                if j < at {
                    assert(tag_key()(s.tags[j]) != tag_key()(s.tags[at as int]));
                } else if at < j {
                    assert(tag_key()(s.tags[at as int]) != tag_key()(s.tags[j]));
                }
            }
            assert(self@.tags =~= s.tags.map_values(f));
            lemma_rename_tag_wf(s, g@, old_name@, new_name@);
        }
        Ok(())
    }

    /// Gives the tag `name` of the address book `g` the colour `color`;
    /// without such a tag nothing changes.
    pub fn recolor_tag(&mut self, g: &str, name: &str, color: i64)
        requires
            old(self).wf(),
        ensures
            final(self).wf(),
            final(self)@ == old(self)@.recolor_tag(g@, name@, color),
    {
        let ghost s = self@;
        let ghost f = recolored(g@, name@, color);
        match self.find_tag(g, name) {
            Some(at) => {
                let row = Tag {
                    id: self.tags[at].id,
                    ab_guid: self.tags[at].ab_guid.clone(),
                    name: self.tags[at].name.clone(),
                    color,
                };
                self.tags.set(at, row);
                proof {
                    assert forall|j: int| 0 <= j < s.tags.len() implies #[trigger] self@.tags[j] == f(
                        s.tags[j],
                    ) by {
                        if j < at {
                            assert(tag_key()(s.tags[j]) != tag_key()(s.tags[at as int]));
                        } else if at < j {
                            assert(tag_key()(s.tags[at as int]) != tag_key()(s.tags[j]));
                        }
                    }
                }
            },
            None => {
                proof {
                    assert forall|j: int| 0 <= j < s.tags.len() implies #[trigger] self@.tags[j] == f(
                        s.tags[j],
                    ) by {
                        assert(tag_key()(s.tags[j]) != (g@, name@));
                    }
                }
            },
        }
        proof {
            assert(self@.tags =~= s.tags.map_values(f));
            lemma_recolor_tag_wf(s, g@, name@, color);
        }
    }
}

/// Lists the tags of an address book in ascending order of their names,
/// with their number.
pub fn get_tags(store: &mut Store, user_id: i64, guid: &str, now: &str) -> (r: Result<
    TagsResponse,
    ApiError,
>)
    requires
        old(store).wf(),
    ensures
        final(store).wf(),
        welcome(old(store)@, user_id, guid@) ==> r is Ok,
        turned_away(old(store)@, user_id, guid@, final(store)@, r) || {
            &&& let_through(old(store)@, user_id, guid@, final(store)@)
            &&& final(store)@ == entered(old(store)@, user_id, guid@, now@, final(store)@)
            &&& r is Ok
            &&& views(r->Ok_0.data@) == final(store)@.book_tags(
                acted_on(final(store)@, user_id, guid@),
            ).map_values(tag_payload())
            &&& r->Ok_0.total == reported_total(r->Ok_0.data@.len())
        },
{
    let g = match resolve_ab_guid(store, user_id, guid, now) {
        Ok(g) => g,
        Err(e) => {
            return Err(e);
        },
    };
    let tags = store.tags_of(g.as_str());
    let total = total_of(tags.len());
    let mut data: Vec<TagPayload> = Vec::new();
    let mut i: usize = 0;
    while i < tags.len()
        invariant
            i <= tags.len(),
            data@.len() == i,
            forall|j: int| 0 <= j < i ==> (#[trigger] data@[j])@ == tag_payload()(tags@[j]@),
        decreases tags.len() - i,
    {
        data.push(TagPayload { name: tags[i].name.clone(), color: tags[i].color });
        i += 1;
    }
    assert(views(data@) =~= views(tags@).map_values(tag_payload()));
    Ok(TagsResponse { data, total })
}

/// Adds a tag to an address book; adding a name again changes nothing.
pub fn add_tag(store: &mut Store, user_id: i64, guid: &str, req: &AddTagRequest, now: &str) -> (r: Result<
    (),
    ApiError,
>)
    requires
        old(store).wf(),
    ensures
        final(store).wf(),
        welcome(old(store)@, user_id, guid@) ==> !turned_away(old(store)@, user_id, guid@, final(store)@, r),
        turned_away(old(store)@, user_id, guid@, final(store)@, r) || {
            &&& let_through(old(store)@, user_id, guid@, final(store)@)
            &&& (final(store)@, kind_of(r)) == entered(
                old(store)@,
                user_id,
                guid@,
                now@,
                final(store)@,
            ).add_tag(acted_on(final(store)@, user_id, guid@), req.name@, req.color)
        },
{
    let g = match resolve_ab_guid(store, user_id, guid, now) {
        Ok(g) => g,
        Err(e) => {
            return Err(e);
        },
    };
    store.insert_tag(g.as_str(), req.name.as_str(), req.color)
}

/// Renames a tag of an address book. A name that another tag of the
/// address book has is a conflict.
pub fn rename_tag(store: &mut Store, user_id: i64, guid: &str, req: &RenameTagRequest, now: &str) -> (r: Result<(), ApiError>)
    requires
        old(store).wf(),
    ensures
        final(store).wf(),
        welcome(old(store)@, user_id, guid@) ==> !turned_away(old(store)@, user_id, guid@, final(store)@, r),
        turned_away(old(store)@, user_id, guid@, final(store)@, r) || {
            &&& let_through(old(store)@, user_id, guid@, final(store)@)
            &&& (final(store)@, kind_of(r)) == entered(
                old(store)@,
                user_id,
                guid@,
                now@,
                final(store)@,
            ).rename_tag(acted_on(final(store)@, user_id, guid@), req.old@, req.new@)
            &&& r is Err ==> r->Err_0.detail() == tag_taken(req.new@)
        },
{
    let g = match resolve_ab_guid(store, user_id, guid, now) {
        Ok(g) => g,
        Err(e) => {
            return Err(e);
        },
    };
    store.retitle_tag(g.as_str(), req.old.as_str(), req.new.as_str())
}

/// Recolours a tag of an address book.
pub fn update_tag_color(
    store: &mut Store,
    user_id: i64,
    guid: &str,
    req: &UpdateTagColorRequest,
    now: &str,
) -> (r: Result<(), ApiError>)
    requires
        old(store).wf(),
    ensures
        final(store).wf(),
        welcome(old(store)@, user_id, guid@) ==> r is Ok,
        turned_away(old(store)@, user_id, guid@, final(store)@, r) || {
            &&& let_through(old(store)@, user_id, guid@, final(store)@)
            &&& r is Ok
            &&& final(store)@ == entered(old(store)@, user_id, guid@, now@, final(store)@).recolor_tag(
                acted_on(final(store)@, user_id, guid@),
                req.name@,
                req.color,
            )
        },
{
    let g = match resolve_ab_guid(store, user_id, guid, now) {
        Ok(g) => g,
        Err(e) => {
            return Err(e);
        },
    };
    store.recolor_tag(g.as_str(), req.name.as_str(), req.color);
    Ok(())
}

/// Deletes tags of an address book, and with each the links to it. A name
/// that no tag has is passed over.
pub fn delete_tags(store: &mut Store, user_id: i64, guid: &str, req: &DeleteTagRequest, now: &str) -> (r: Result<(), ApiError>)
    requires
        old(store).wf(),
    ensures
        final(store).wf(),
        welcome(old(store)@, user_id, guid@) ==> r is Ok,
        turned_away(old(store)@, user_id, guid@, final(store)@, r) || {
            &&& let_through(old(store)@, user_id, guid@, final(store)@)
            &&& r is Ok
            &&& final(store)@ == entered(old(store)@, user_id, guid@, now@, final(store)@).without_tags(
                acted_on(final(store)@, user_id, guid@),
                Some(names_to_delete(req)),
            )
        },
{
    let g = match resolve_ab_guid(store, user_id, guid, now) {
        Ok(g) => g,
        Err(e) => {
            return Err(e);
        },
    };
    let mut names = copy_texts(&req.names);
    match &req.name {
        Some(n) => {
            let ghost before = names@;
            names.push(n.clone());
            assert(texts(names@) =~= texts(before).push(n@));
        },
        None => {},
    }
    store.remove_tags(g.as_str(), Some(&names));
    Ok(())
}

} // verus!
