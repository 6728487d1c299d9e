//! Likes: a mark that someone, or no one in particular, left on an entry.

use crate::clock::now_micros;
use crate::ident::{hyphenated, new_v4, parse_str, parsed_uuid, to_hyphenated};
use crate::order::{connected, lemma_ranking, rank, ranking, views, Ranked};
use crate::response::{ApiError, ErrorKind, ListResp, Message};
use crate::schema::{lemma_filter_indices, like_of, LikeRow, Tables};
use crate::store::Store;
use vstd::prelude::*;

verus! {

/// A like as clients see it.
#[derive(Debug, PartialEq, Eq)]
pub struct Like {
    pub id: String,
    pub created_at: i64,
    pub who: Option<String>,
}

/// What a [`Like`] holds.
pub struct LikeView {
    pub id: Seq<char>,
    pub created_at: i64,
    pub who: Option<Seq<char>>,
}

impl View for Like {
    type V = LikeView;

    open spec fn view(&self) -> LikeView {
        LikeView { id: self.id@, created_at: self.created_at, who: self.who.deep_view() }
    }
}

impl Clone for Like {
    fn clone(&self) -> (r: Self)
        ensures
            r == *self,
    {
        Like { id: self.id.clone(), created_at: self.created_at, who: self.who.clone() }
    }
}

/// A like as the likes table holds it.
#[derive(Debug, PartialEq, Eq)]
pub struct LikeDB {
    pub id: u128,
    pub created_at: i64,
    pub glossary_id: u128,
    pub who: Option<String>,
}

impl View for LikeDB {
    type V = LikeRow;

    open spec fn view(&self) -> LikeRow {
        LikeRow {
            id: self.id,
            created_at: self.created_at,
            glossary_id: self.glossary_id,
            who: self.who.deep_view(),
        }
    }
}

impl Clone for LikeDB {
    fn clone(&self) -> (r: Self)
        ensures
            r == *self,
    {
        LikeDB {
            id: self.id,
            created_at: self.created_at,
            glossary_id: self.glossary_id,
            who: self.who.clone(),
        }
    }
}

impl LikeRow {
    /// The like as clients see it: its identifier in hyphenated form, the
    /// instant and the author.
    pub open spec fn shown(self) -> LikeView {
        LikeView { id: hyphenated(self.id), created_at: self.created_at, who: self.who }
    }

    /// Whether `self` is newer than `other`: created later, or at the same
    /// instant with the smaller identifier.
    pub open spec fn newer_than(self, other: LikeRow) -> bool {
        self.created_at > other.created_at || (self.created_at == other.created_at && self.id
            < other.id)
    }
}

/// Likes are ordered from the newest to the oldest.
impl Ranked for LikeDB {
    open spec fn precedes(a: LikeRow, b: LikeRow) -> bool {
        a.newer_than(b)
    }

    fn comes_before(&self, other: &Self) -> (r: bool) {
        self.created_at > other.created_at || (self.created_at == other.created_at && self.id
            < other.id)
    }

    proof fn lemma_irreflexive(a: LikeRow) {
    }

    proof fn lemma_transitive(a: LikeRow, b: LikeRow, c: LikeRow) {
    }
}

impl Like {
    /// A like by `who` with the identifier `id`, made at the instant `now`.
    pub fn with_id(id: u128, now: i64, who: Option<String>) -> (r: Self)
        ensures
            r.id@ == hyphenated(id),
            parsed_uuid(r.id@) == Some(id),
            r.created_at == now,
            r.who == who,
    {
        Like { id: to_hyphenated(id), created_at: now, who }
    }

    /// A like by `who` with a fresh identifier, made now.
    pub fn new(who: Option<String>) -> (r: Self)
        ensures
            parsed_uuid(r.id@) is Some,
            r.id@ == hyphenated(parsed_uuid(r.id@).unwrap()),
            r.created_at >= 0,
            r.who == who,
    {
        let id = new_v4();
        let now = now_micros();
        Like::with_id(id, now, who)
    }

    /// The row that stores the like for the entry `glossary_id`.
    pub fn to_like_db(&self, glossary_id: u128) -> (row: LikeDB)
        requires
            parsed_uuid(self.id@) is Some,
        ensures
            row@ == (LikeRow {
                id: parsed_uuid(self.id@).unwrap(),
                created_at: self.created_at,
                glossary_id,
                who: self@.who,
            }),
    {
        match parse_str(self.id.as_str()) {
            Some(id) => LikeDB {
                id,
                created_at: self.created_at,
                glossary_id,
                who: self.who.clone(),
            },
            None => vstd::pervasive::unreached(),
        }
    }

    /// The row that stores the like for the entry `glossary_id`, or `None`
    /// where the like's identifier is not the text of a UUID.
    pub fn try_to_like_db(&self, glossary_id: u128) -> (row: Option<LikeDB>)
        ensures
            parsed_uuid(self.id@) is Some <==> row is Some,
            row matches Some(r) ==> r@ == (LikeRow {
                id: parsed_uuid(self.id@).unwrap(),
                created_at: self.created_at,
                glossary_id,
                who: self@.who,
            }),
    {
        if parse_str(self.id.as_str()).is_some() {
            Some(self.to_like_db(glossary_id))
        } else {
            None
        }
    }
}

/// A page of likes.
pub type Likes = ListResp<Like>;

/// Each of `rows` as clients see it.
pub open spec fn shown_likes(rows: Seq<LikeRow>) -> Seq<LikeView> {
    Seq::new(rows.len(), |i: int| rows[i].shown())
}

impl Tables {
    /// The likes of the entry `id`, from the newest to the oldest.
    pub open spec fn newest_likes(self, id: u128) -> Seq<LikeRow> {
        ranking::<LikeDB>(self.likes_of(id))
    }

    /// The tables after the newest like of the entry `id` was removed,
    /// where it has one.
    pub open spec fn without_newest_like(self, id: u128) -> Tables {
        if self.likes_of(id).len() == 0 {
            self
        } else {
            self.without_like(self.newest_likes(id).first().id)
        }
    }
}

/// Of two likes of one entry, one is newer than the other.
pub proof fn lemma_likes_connected(tables: Tables, id: u128)
    requires
        tables.consistent(),
    ensures
        connected::<LikeDB>(tables.likes_of(id)),
{
    let rows = tables.likes_of(id);
    let idx = lemma_filter_indices(tables.likes, like_of(id));
    assert forall|i: int, j: int|
        0 <= i < rows.len() && 0 <= j < rows.len() && i != j implies LikeDB::precedes(
        #[trigger] rows[i],
        #[trigger] rows[j],
    ) || LikeDB::precedes(rows[j], rows[i]) by {
        if i < j {
            assert(idx[i] < idx[j]);
            assert(tables.likes[idx[i]].id != tables.likes[idx[j]].id);
        } else {
            assert(idx[j] < idx[i]);
            assert(tables.likes[idx[j]].id != tables.likes[idx[i]].id);
        }
    }
}

/// The likes of the entry `glossary_id`, from the newest to the oldest. An
/// entry without likes, or one that does not exist, has none.
pub fn list_likes(store: &Store, glossary_id: u128) -> (r: Result<Vec<Like>, ApiError>)
    ensures
        r matches Ok(likes) && views(likes@) == shown_likes(store@.newest_likes(glossary_id))
            && likes@.len() == store@.like_count(glossary_id),
{
    let rows = store.likes_of(glossary_id);
    proof {
        lemma_likes_connected(store@, glossary_id);
        lemma_ranking::<LikeDB>(store@.likes_of(glossary_id));
    }
    let rows = rank(rows);
    let mut likes: Vec<Like> = Vec::new();
    let mut i: usize = 0;
    while i < rows.len()
        invariant
            i <= rows.len(),
            likes@.len() == i,
            forall|k: int| 0 <= k < i ==> (#[trigger] likes@[k])@ == rows@[k]@.shown(),
        decreases rows.len() - i,
    {
        likes.push(rows[i].to_like());
        i += 1;
    }
    assert(views(likes@) =~= shown_likes(views(rows@)));
    Ok(likes)
}

/// Adds a like by `who` to the entry `glossary_id`, with the identifier
/// `id` and made at the instant `now`. A like for an entry that does not
/// exist, or under an identifier that is taken, is a conflict.
pub fn create_like_with(
    store: &mut Store,
    glossary_id: u128,
    who: Option<String>,
    id: u128,
    now: i64,
) -> (r: Result<Like, ApiError>)
    ensures
        final(store)@.consistent(),
        match r {
            Ok(like) => {
                let row = LikeRow { id, created_at: now, glossary_id, who: who.deep_view() };
                &&& old(store)@.has_entry(glossary_id)
                &&& !old(store)@.has_like(id)
                &&& final(store)@ == old(store)@.with_like(row)
                &&& like@ == row.shown()
                &&& parsed_uuid(like.id@) == Some(id)
            },
            Err(e) => {
                &&& e.kind == ErrorKind::Conflict
                &&& final(store)@ == old(store)@
                &&& !old(store)@.has_entry(glossary_id) || old(store)@.has_like(id)
            },
        },
{
    let like = Like::with_id(id, now, who);
    let row = like.to_like_db(glossary_id);
    match store.insert_like(row) {
        Ok(_) => Ok(like),
        Err(e) => Err(e),
    }
}

/// Adds a like by `who` to the entry `glossary_id`, with a fresh
/// identifier and made now. A like for an entry that does not exist is a
/// conflict, and so is one whose identifier turns out to be taken.
pub fn create_like(store: &mut Store, glossary_id: u128, who: Option<String>) -> (r: Result<
    Like,
    ApiError,
>)
    ensures
        final(store)@.consistent(),
        !old(store)@.has_entry(glossary_id) ==> r is Err,
        old(store)@.has_entry(glossary_id) && old(store)@.likes.len() == 0 ==> r is Ok,
        match r {
            Ok(like) => {
                &&& parsed_uuid(like.id@) matches Some(id)
                &&& !old(store)@.has_like(id)
                &&& like@ == (LikeRow {
                    id,
                    created_at: like.created_at,
                    glossary_id,
                    who: who.deep_view(),
                }).shown()
                &&& final(store)@ == old(store)@.with_like(
                    LikeRow { id, created_at: like.created_at, glossary_id, who: who.deep_view() },
                )
            },
            Err(e) => e.kind == ErrorKind::Conflict && final(store)@ == old(store)@,
        },
{
    let id = new_v4();
    let now = now_micros();
    create_like_with(store, glossary_id, who, id, now)
}

/// Removes one like: the like `like_id` where one is named, whichever
/// entry it belongs to, and else the newest like of the entry
/// `glossary_id`. Where there is no such like nothing changes.
pub fn delete_one_like(store: &mut Store, glossary_id: u128, like_id: Option<u128>) -> (r: Result<
    (),
    ApiError,
>)
    ensures
        r is Ok,
        final(store)@.consistent(),
        final(store)@ == match like_id {
            Some(id) => old(store)@.without_like(id),
            None => old(store)@.without_newest_like(glossary_id),
        },
{
    let found: Option<u128> = match like_id {
        Some(id) => Some(id),
        None => {
            let rows = store.likes_of(glossary_id);
            proof {
                lemma_likes_connected(store@, glossary_id);
            }
            let rows = rank(rows);
            if rows.len() > 0 {
                Some(rows[0].id)
            } else {
                None
            }
        },
    };
    match found {
        Some(id) => {
            store.remove_like(id);
        },
        None => {
            store.consistency();
        },
    }
    Ok(())
}

/// The page of likes of the entry that the path names. A path that is not
/// the text of a UUID is invalid input.
pub fn list(store: &Store, id: &str) -> (r: Result<Likes, ApiError>)
    ensures
        match r {
            Ok(page) => {
                &&& parsed_uuid(id@) matches Some(glossary_id)
                &&& views(page.results@) == shown_likes(store@.newest_likes(glossary_id))
                &&& page.results@.len() == store@.like_count(glossary_id)
                &&& page.count == store@.like_count(glossary_id) as i32
            },
            Err(e) => {
                &&& parsed_uuid(id@) is None
                &&& e.kind == ErrorKind::InvalidInput
                &&& e.message@ == INVALID_ID@
            },
        },
{
    let glossary_id = match parse_str(id) {
        Some(glossary_id) => glossary_id,
        None => { return Err(ApiError::invalid_input(INVALID_ID)); },
    };
    match list_likes(store, glossary_id) {
        Ok(likes) => {
            let page = Likes::from(likes.as_slice());
            assert(views(page.results@) =~= views(likes@));
            Ok(page)
        },
        Err(e) => Err(e),
    }
}

/// Adds a like by `who` to the entry that the path names. A path that is
/// not the text of a UUID is invalid input; a like for an entry that does
/// not exist is a conflict.
pub fn plus_one(store: &mut Store, id: &str, who: Option<String>) -> (r: Result<Like, ApiError>)
    ensures
        final(store)@.consistent(),
        parsed_uuid(id@) is None ==> (r matches Err(e) && e.kind == ErrorKind::InvalidInput
            && e.message@ == INVALID_ID@),
        parsed_uuid(id@) matches Some(glossary_id) && !old(store)@.has_entry(glossary_id) ==> (
        r matches Err(e) && e.kind == ErrorKind::Conflict),
        parsed_uuid(id@) matches Some(glossary_id) && old(store)@.has_entry(glossary_id) && old(
            store,
        )@.likes.len() == 0 ==> r is Ok,
        match r {
            Ok(like) => {
                &&& parsed_uuid(id@) matches Some(glossary_id)
                &&& parsed_uuid(like.id@) matches Some(like_id)
                &&& !old(store)@.has_like(like_id)
                &&& like@.who == who.deep_view()
                &&& final(store)@ == old(store)@.with_like(
                    LikeRow {
                        id: like_id,
                        created_at: like.created_at,
                        glossary_id,
                        who: who.deep_view(),
                    },
                )
            },
            Err(e) => final(store)@ == old(store)@,
        },
{
    let glossary_id = match parse_str(id) {
        Some(glossary_id) => glossary_id,
        None => {
            store.consistency();
            return Err(ApiError::invalid_input(INVALID_ID));
        },
    };
    create_like(store, glossary_id, who)
}

/// Removes the newest like of the entry that the path names, where it has
/// one. A path that is not the text of a UUID is invalid input.
pub fn minus_one(store: &mut Store, id: &str) -> (r: Result<Message, ApiError>)
    ensures
        final(store)@.consistent(),
        match r {
            Ok(m) => {
                &&& parsed_uuid(id@) matches Some(glossary_id)
                &&& final(store)@ == old(store)@.without_newest_like(glossary_id)
                &&& m.message@ == "ok"@
            },
            Err(e) => {
                &&& parsed_uuid(id@) is None
                &&& e.kind == ErrorKind::InvalidInput
                &&& e.message@ == INVALID_ID@
                &&& final(store)@ == old(store)@
            },
        },
{
    let glossary_id = match parse_str(id) {
        Some(glossary_id) => glossary_id,
        None => {
            store.consistency();
            return Err(ApiError::invalid_input(INVALID_ID));
        },
    };
    match delete_one_like(store, glossary_id, None) {
        Ok(_) => Ok(Message::new("ok")),
        Err(e) => Err(e),
    }
}

/// What a path that is not the text of a UUID is answered with.
pub const INVALID_ID: &'static str = "Invalid glossary ID format";

impl Default for Like {
    /// An anonymous like with a fresh identifier, made now.
    fn default() -> (r: Self)
        ensures
            parsed_uuid(r.id@) is Some,
            r.id@ == hyphenated(parsed_uuid(r.id@).unwrap()),
            r.created_at >= 0,
            r.who is None,
    {
        Like::new(None)
    }
}

impl LikeDB {
    /// The like as clients see it.
    pub fn to_like(&self) -> (r: Like)
        ensures
            r@ == self@.shown(),
    {
        Like { id: to_hyphenated(self.id), created_at: self.created_at, who: self.who.clone() }
    }
}

} // verus!
