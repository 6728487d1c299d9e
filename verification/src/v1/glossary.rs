//! Glossary entries: the rows, what clients see of them, and the requests
//! that write them.

use crate::clock::now_micros;
use crate::ident::{hyphenated, new_v4, parse_str, parsed_uuid, to_hyphenated};
use crate::order::{connected, is_ranking, lemma_ranking, rank, ranking, views, Ranked};
use crate::response::{ApiError, ErrorKind, ListResp, Message};
use crate::schema::{
    lemma_filter_indices, valid_definition, valid_term, EntryRow, HistoryRow, Tables,
    MAX_TERM_LEN,
};
use crate::store::Store;
use crate::text::{
    chars_of, clean, contains, is_blank, is_infix, length_between, lemma_lex_connected,
    lemma_lex_irreflexive, lemma_lex_transitive, lex_lt, lowercased, sanitized, text_lt,
    to_lowercase, to_uppercase, trim, trimmed, uppercased,
};
use crate::v1::glossary_history::{create_glossary_history_with, latest_author};
use crate::v1::grouped::GroupedGlossary;
use crate::v1::like::{
    lemma_likes_connected, list_likes, shown_likes, Like, LikeDB, LikeView, INVALID_ID,
};
use vstd::prelude::*;

verus! {

/// A page of entries.
pub type Glossaries = ListResp<Glossary>;

/// An entry as clients see it.
#[derive(Debug, PartialEq, Eq)]
pub struct Glossary {
    pub id: String,
    pub term: String,
    pub definition: String,
    pub revision: i32,
    pub likes: Vec<Like>,
    pub likes_count: i32,
    pub who: Option<String>,
    pub created_at: i64,
    pub updated_at: i64,
}

/// What a [`Glossary`] holds.
pub struct GlossaryView {
    pub id: Seq<char>,
    pub term: Seq<char>,
    pub definition: Seq<char>,
    pub revision: i32,
    pub likes: Seq<LikeView>,
    pub likes_count: i32,
    pub who: Option<Seq<char>>,
    pub created_at: i64,
    pub updated_at: i64,
}

impl View for Glossary {
    type V = GlossaryView;

    open spec fn view(&self) -> GlossaryView {
        GlossaryView {
            id: self.id@,
            term: self.term@,
            definition: self.definition@,
            revision: self.revision,
            likes: views(self.likes@),
            likes_count: self.likes_count,
            who: self.who.deep_view(),
            created_at: self.created_at,
            updated_at: self.updated_at,
        }
    }
}

impl Clone for Glossary {
    fn clone(&self) -> (r: Self)
        ensures
            r@ == self@,
    {
        let likes = self.likes.clone();
        assert(views(likes@) =~= views(self.likes@));
        Glossary {
            id: self.id.clone(),
            term: self.term.clone(),
            definition: self.definition.clone(),
            revision: self.revision,
            likes,
            likes_count: self.likes_count,
            who: self.who.clone(),
            created_at: self.created_at,
            updated_at: self.updated_at,
        }
    }
}

/// An entry as the glossary table holds it.
#[derive(Debug, PartialEq, Eq)]
pub struct GlossaryDB {
    pub id: u128,
    pub term: String,
    pub definition: String,
    pub revision: i32,
    pub created_at: i64,
    pub updated_at: i64,
}

impl View for GlossaryDB {
    type V = EntryRow;

    open spec fn view(&self) -> EntryRow {
        EntryRow {
            id: self.id,
            term: self.term@,
            definition: self.definition@,
            revision: self.revision,
            created_at: self.created_at,
            updated_at: self.updated_at,
        }
    }
}

impl Clone for GlossaryDB {
    fn clone(&self) -> (r: Self)
        ensures
            r == *self,
    {
        GlossaryDB {
            id: self.id,
            term: self.term.clone(),
            definition: self.definition.clone(),
            revision: self.revision,
            created_at: self.created_at,
            updated_at: self.updated_at,
        }
    }
}

impl EntryRow {
    /// The entry as clients see it when nothing was joined in: its
    /// identifier in hyphenated form, no likes and no author.
    pub open spec fn shown(self) -> GlossaryView {
        GlossaryView {
            id: hyphenated(self.id),
            term: self.term,
            definition: self.definition,
            revision: self.revision,
            likes: Seq::empty(),
            likes_count: 0,
            who: None,
            created_at: self.created_at,
            updated_at: self.updated_at,
        }
    }

    /// The entry as clients see it with `who` as its author and no likes
    /// joined in.
    pub open spec fn shown_by(self, who: Option<Seq<char>>) -> GlossaryView {
        GlossaryView { who, ..self.shown() }
    }

    /// Whether `self` is listed before `other`: by term in the order of
    /// `str`, and among equal terms by identifier.
    pub open spec fn listed_before(self, other: EntryRow) -> bool {
        lex_lt(self.term, other.term) || (self.term == other.term && self.id < other.id)
    }
}

/// Entries are ordered by term, ascending.
impl Ranked for GlossaryDB {
    open spec fn precedes(a: EntryRow, b: EntryRow) -> bool {
        a.listed_before(b)
    }

    fn comes_before(&self, other: &Self) -> (r: bool) {
        let a = chars_of(self.term.as_str());
        let b = chars_of(other.term.as_str());
        proof {
            lemma_lex_connected(a@, b@);
            lemma_lex_irreflexive(a@);
        }
        if text_lt(&a, &b) {
            true
        } else if text_lt(&b, &a) {
            proof {
                if lex_lt(a@, b@) {
                    lemma_lex_transitive(a@, b@, a@);
                }
            }
            false
        } else {
            self.id < other.id
        }
    }

    proof fn lemma_irreflexive(a: EntryRow) {
        lemma_lex_irreflexive(a.term);
    }

    proof fn lemma_transitive(a: EntryRow, b: EntryRow, c: EntryRow) {
        if lex_lt(a.term, b.term) && lex_lt(b.term, c.term) {
            lemma_lex_transitive(a.term, b.term, c.term);
        }
    }
}

impl GlossaryDB {
    /// Whether the row may stand in the glossary table.
    pub fn is_valid(&self) -> (ok: bool)
        ensures
            ok == self@.valid(),
    {
        length_between(self.term.as_str(), 1, MAX_TERM_LEN as u64) && !self.definition.as_str().is_empty()
            && self.revision >= 0
    }

    /// The entry as clients see it, with no likes and no author joined in.
    pub fn to_glossary(&self) -> (g: Glossary)
        ensures
            g@ == self@.shown(),
            parsed_uuid(g.id@) == Some(self.id),
    {
        let likes: Vec<Like> = Vec::new();
        assert(views(likes@) =~= Seq::<LikeView>::empty());
        Glossary {
            id: to_hyphenated(self.id),
            term: self.term.clone(),
            definition: self.definition.clone(),
            revision: self.revision,
            likes,
            likes_count: 0,
            who: None,
            created_at: self.created_at,
            updated_at: self.updated_at,
        }
    }

    /// The entry as clients see it, with `who` as its author.
    pub fn to_glossary_with_who(&self, who: Option<String>) -> (g: Glossary)
        ensures
            g@ == self@.shown_by(who.deep_view()),
            parsed_uuid(g.id@) == Some(self.id),
    {
        let mut glossary = self.to_glossary();
        glossary.who = who;
        glossary
    }

    /// The entry as clients see it, with the author of its newest history
    /// record in `store` as its author.
    pub fn to_glossary_with_who_from_db(&self, store: &Store) -> (g: Glossary)
        ensures
            g@ == self@.shown_by(store@.latest_author(self.id)),
            parsed_uuid(g.id@) == Some(self.id),
    {
        let who = latest_author(store, self.id);
        self.to_glossary_with_who(who)
    }
}

impl Glossary {
    /// A first revision of an entry with the identifier `id`, written at
    /// the instant `now`.
    pub fn with_id(id: u128, now: i64, term: String, definition: String) -> (g: Self)
        ensures
            g@ == (EntryRow {
                id,
                term: term@,
                definition: definition@,
                revision: 0,
                created_at: now,
                updated_at: now,
            }).shown(),
            parsed_uuid(g.id@) == Some(id),
    {
        let likes: Vec<Like> = Vec::new();
        assert(views(likes@) =~= Seq::<LikeView>::empty());
        Glossary {
            id: to_hyphenated(id),
            term,
            definition,
            revision: 0,
            likes,
            likes_count: 0,
            who: None,
            created_at: now,
            updated_at: now,
        }
    }

    /// A first revision of an entry with a fresh identifier, written now.
    pub fn new(term: String, definition: String) -> (g: Self)
        ensures
            parsed_uuid(g.id@) is Some,
            g@ == (EntryRow {
                id: parsed_uuid(g.id@).unwrap(),
                term: term@,
                definition: definition@,
                revision: 0,
                created_at: g.created_at,
                updated_at: g.created_at,
            }).shown(),
            g.created_at >= 0,
    {
        let id = new_v4();
        let now = now_micros();
        Glossary::with_id(id, now, term, definition)
    }

    /// The row that stores the entry under the identifier `id`.
    pub fn to_glossary_db_with_id(&self, id: u128) -> (row: GlossaryDB)
        ensures
            row@ == (EntryRow {
                id,
                term: self@.term,
                definition: self@.definition,
                revision: self@.revision,
                created_at: self@.created_at,
                updated_at: self@.updated_at,
            }),
    {
        GlossaryDB {
            id,
            term: self.term.clone(),
            definition: self.definition.clone(),
            revision: self.revision,
            created_at: self.created_at,
            updated_at: self.updated_at,
        }
    }

    /// The row that stores the entry under a fresh identifier.
    pub fn to_glossary_db(&self) -> (row: GlossaryDB)
        ensures
            row@ == (EntryRow { id: row.id, ..row@ }),
            row@.term == self@.term,
            row@.definition == self@.definition,
            row@.revision == self@.revision,
            row@.created_at == self@.created_at,
            row@.updated_at == self@.updated_at,
    {
        self.to_glossary_db_with_id(new_v4())
    }

    /// The entry with `likes` as its likes, and its count of likes raised
    /// by their number. A count beyond `i32` wraps around.
    pub fn add_likes(&self, likes: Vec<Like>) -> (g: Self)
        ensures
            g@ == (GlossaryView {
                likes: views(likes@),
                likes_count: self.likes_count.wrapping_add(likes@.len() as i32),
                ..self@
            }),
            i32::MIN <= self.likes_count + likes@.len() <= i32::MAX && likes@.len() <= i32::MAX
                ==> g.likes_count == self.likes_count + likes@.len(),
    {
        let n: i32 = #[verifier::truncate] (likes.len() as i32);
        let likes_count = self.likes_count.wrapping_add(n);
        Glossary {
            id: self.id.clone(),
            term: self.term.clone(),
            definition: self.definition.clone(),
            revision: self.revision,
            likes,
            likes_count,
            who: self.who.clone(),
            created_at: self.created_at,
            updated_at: self.updated_at,
        }
    }

    /// The entry with `who` as its author.
    pub fn add_who(&self, who: String) -> (g: Self)
        ensures
            g@ == (GlossaryView { who: Some(who@), ..self@ }),
    {
        let likes = self.likes.clone();
        assert(views(likes@) =~= views(self.likes@));
        Glossary {
            id: self.id.clone(),
            term: self.term.clone(),
            definition: self.definition.clone(),
            revision: self.revision,
            likes,
            likes_count: self.likes_count,
            who: Some(who),
            created_at: self.created_at,
            updated_at: self.updated_at,
        }
    }
}

/// What `s` becomes before it is stored: trimmed, then sanitised.
pub open spec fn cleaned(s: Seq<char>) -> Seq<char> {
    sanitized(trimmed(s))
}

/// A text as it is stored: without the white space around it, and with
/// only the markup that the sanitiser allows.
pub fn cleanup_string(s: &str) -> (r: Option<String>)
    ensures
        r matches Some(t) && t@ == cleaned(s@),
{
    let t = trim(s);
    Some(clean(t.as_str()))
}

/// The body of a request that creates or updates an entry. Both fields are
/// held as [`cleanup_string`] leaves them.
#[derive(Debug, PartialEq, Eq)]
pub struct GlossaryRequest {
    pub term: Option<String>,
    pub definition: Option<String>,
}

/// How many entries the most-liked list holds, where the request names no
/// number.
pub const DEFAULT_POPULAR_LIMIT: u8 = 10;

/// The query of a request for the most-liked entries.
#[derive(Debug, PartialEq, Eq)]
pub struct PopularQuery {
    pub limit: Option<u8>,
}

/// The query of a search.
#[derive(Debug, PartialEq, Eq)]
pub struct SearchQuery {
    pub q: String,
}

impl GlossaryRequest {
    /// Whether the request can be written: it has a valid term and a valid
    /// definition.
    pub open spec fn valid(&self) -> bool {
        &&& self.term matches Some(t) && valid_term(t@)
        &&& self.definition matches Some(d) && valid_definition(d@)
    }

    /// A request with the fields as a client sent them, cleaned.
    pub fn from_raw(term: Option<&str>, definition: Option<&str>) -> (r: Self)
        ensures
            r.term.deep_view() == match term {
                Some(t) => Some(cleaned(t@)),
                None => None,
            },
            r.definition.deep_view() == match definition {
                Some(d) => Some(cleaned(d@)),
                None => None,
            },
    {
        let term = match term {
            Some(t) => cleanup_string(t),
            None => None,
        };
        let definition = match definition {
            Some(d) => cleanup_string(d),
            None => None,
        };
        GlossaryRequest { term, definition }
    }

    /// Accepts a request that can be written, and refuses any other as
    /// invalid input.
    pub fn validate(&self) -> (r: Result<(), ApiError>)
        ensures
            r is Ok <==> self.valid(),
            r matches Err(e) ==> e.kind == ErrorKind::InvalidInput,
    {
        match &self.term {
            None => { return Err(ApiError::invalid_input("term: is required")); },
            Some(t) => {
                if !length_between(t.as_str(), 1, MAX_TERM_LEN as u64) {
                    return Err(
                        ApiError::invalid_input("term: length must be between 1 and 255"),
                    );
                }
            },
        }
        match &self.definition {
            None => Err(ApiError::invalid_input("definition: is required")),
            Some(d) => {
                if d.as_str().is_empty() {
                    Err(ApiError::invalid_input("definition: must not be empty"))
                } else {
                    Ok(())
                }
            },
        }
    }

    /// A first revision of the entry that the request describes, with a
    /// fresh identifier and written now; `None` for a request without a
    /// term. A request without a definition gives an empty one.
    pub fn to_glossary(&self) -> (g: Option<Glossary>)
        ensures
            g is Some <==> self.term is Some,
            g matches Some(e) ==> {
                &&& parsed_uuid(e.id@) is Some
                &&& e@ == (EntryRow {
                    id: parsed_uuid(e.id@).unwrap(),
                    term: self.term.unwrap()@,
                    definition: match self.definition {
                        Some(d) => d@,
                        None => Seq::empty(),
                    },
                    revision: 0,
                    created_at: e.created_at,
                    updated_at: e.created_at,
                }).shown()
            },
    {
        match (&self.term, &self.definition) {
            (Some(term), Some(definition)) => Some(Glossary::new(term.clone(), definition.clone())),
            (Some(term), _) => Some(Glossary::new(term.clone(), String::new())),
            _ => None,
        }
    }
}

impl EntryRow {
    /// The first revision of an entry `id`, written at the instant `now`.
    pub open spec fn first(id: u128, now: i64, term: Seq<char>, definition: Seq<char>) -> EntryRow {
        EntryRow { id, term, definition, revision: 0, created_at: now, updated_at: now }
    }

    /// The next revision of the entry, written at the instant `now`.
    pub open spec fn rewritten(self, term: Seq<char>, definition: Seq<char>, now: i64) -> EntryRow {
        EntryRow {
            term,
            definition,
            revision: (self.revision + 1) as i32,
            updated_at: now,
            ..self
        }
    }

    /// The history record `id`, written at the instant `now`, of what the
    /// entry holds and of who wrote it.
    pub open spec fn snapshot(self, id: u128, now: i64, who: Option<Seq<char>>) -> HistoryRow {
        HistoryRow::written(id, now, self.term, self.definition, who, self.revision, self.id)
    }
}

/// Holds of the entries whose term or definition contains `query`,
/// whatever the case of either.
pub open spec fn entry_matches(query: Seq<char>) -> spec_fn(EntryRow) -> bool {
    |e: EntryRow|
        is_infix(lowercased(query), lowercased(e.term)) || is_infix(
            lowercased(query),
            lowercased(e.definition),
        )
}

/// Each of `rows` as clients see it, with nothing joined in.
pub open spec fn shown_entries(rows: Seq<EntryRow>) -> Seq<GlossaryView> {
    Seq::new(rows.len(), |i: int| rows[i].shown())
}

impl Tables {
    /// All entries, by term.
    pub open spec fn listing(self) -> Seq<EntryRow> {
        ranking::<GlossaryDB>(self.glossary)
    }

    /// The entries that match `query`, by term.
    pub open spec fn found(self, query: Seq<char>) -> Seq<EntryRow> {
        ranking::<GlossaryDB>(self.glossary.filter(entry_matches(query)))
    }

    /// The tables after the entry `row` was created and `record` written
    /// to the history.
    pub open spec fn created(self, row: EntryRow, record: HistoryRow) -> Tables {
        self.with_entry(row).with_record(record)
    }

    /// The tables after `row` took the place of the entry with its
    /// identifier and `record` was written to the history.
    pub open spec fn rewritten(self, row: EntryRow, record: HistoryRow) -> Tables {
        self.with_entry_replaced(row).with_record(record)
    }

    /// Whether `next` is what the tables become when the entry `row` is
    /// created and recorded in the history with `who` as its author, under
    /// some identifier and at some instant.
    pub open spec fn created_by(self, next: Tables, row: EntryRow, who: Option<Seq<char>>) -> bool {
        exists|history_id: u128, history_now: i64|
            history_now >= 0 && next == self.created(
                row,
                #[trigger] row.snapshot(history_id, history_now, who),
            )
    }

    /// Whether `next` is what the tables become when `row` takes the place
    /// of the entry with its identifier and is recorded in the history with
    /// `who` as its author, under some identifier and at some instant.
    pub open spec fn rewritten_by(self, next: Tables, row: EntryRow, who: Option<Seq<char>>) -> bool {
        exists|history_id: u128, history_now: i64|
            history_now >= 0 && next == self.rewritten(
                row,
                #[trigger] row.snapshot(history_id, history_now, who),
            )
    }

    /// Why the entry `id` cannot be rewritten with `term` and
    /// `definition`, if it cannot: because there is no such entry, because
    /// a text is not valid, or because its revisions are used up.
    pub open spec fn rewrite_fault(self, id: u128, term: Seq<char>, definition: Seq<char>) -> Option<
        ErrorKind,
    > {
        if !self.has_entry(id) {
            Some(ErrorKind::NotFound)
        } else if !valid_term(term) || !valid_definition(definition) {
            Some(ErrorKind::InvalidInput)
        } else if self.entry(id).revision == i32::MAX {
            Some(ErrorKind::DatabaseError)
        } else {
            None
        }
    }
}

/// Of two entries with different identifiers, one is listed before the
/// other.
pub proof fn lemma_entries_connected(rows: Seq<EntryRow>)
    requires
        forall|i: int, j: int|
            0 <= i < j < rows.len() ==> (#[trigger] rows[i]).id != (#[trigger] rows[j]).id,
    ensures
        connected::<GlossaryDB>(rows),
{
    assert forall|i: int, j: int|
        0 <= i < rows.len() && 0 <= j < rows.len() && i != j implies GlossaryDB::precedes(
        #[trigger] rows[i],
        #[trigger] rows[j],
    ) || GlossaryDB::precedes(rows[j], rows[i]) by {
        lemma_lex_connected(rows[i].term, rows[j].term);
        if i < j {
            assert(rows[i].id != rows[j].id);
        } else {
            assert(rows[j].id != rows[i].id);
        }
    }
}

/// What a filter keeps of the glossary table has different identifiers.
pub proof fn lemma_kept_entries_connected(tables: Tables, pred: spec_fn(EntryRow) -> bool)
    requires
        tables.consistent(),
    ensures
        connected::<GlossaryDB>(tables.glossary.filter(pred)),
{
    let rows = tables.glossary.filter(pred);
    let idx = lemma_filter_indices(tables.glossary, pred);
    assert forall|i: int, j: int| 0 <= i < j < rows.len() implies (#[trigger] rows[i]).id != (
    #[trigger] rows[j]).id by {
        assert(idx[i] < idx[j]);
        assert(tables.glossary[idx[i]].id != tables.glossary[idx[j]].id);
    }
    lemma_entries_connected(rows);
}

/// All entries, by term.
pub fn list_glossary(store: &Store) -> (r: Result<Vec<GlossaryDB>, ApiError>)
    ensures
        r matches Ok(rows) && views(rows@) == store@.listing(),
{
    let rows = store.entries();
    proof {
        lemma_entries_connected(store@.glossary);
    }
    Ok(rank(rows))
}

/// Whether the term or the definition of `row` contains the lower-case
/// text `query`.
fn row_matches(row: &GlossaryDB, lowered: &Vec<char>, Ghost(query): Ghost<Seq<char>>) -> (b: bool)
    requires
        lowered@ == lowercased(query),
    ensures
        b == entry_matches(query)(row@),
{
    let term = to_lowercase(row.term.as_str());
    if contains(&chars_of(term.as_str()), lowered) {
        return true;
    }
    let definition = to_lowercase(row.definition.as_str());
    contains(&chars_of(definition.as_str()), lowered)
}

/// The entries whose term or definition contains `query`, whatever the
/// case of either, by term.
pub fn search_glossary(store: &Store, query: &str) -> (r: Result<Vec<GlossaryDB>, ApiError>)
    ensures
        r matches Ok(rows) && views(rows@) == store@.found(query@),
{
    let rows = store.entries();
    let lowered = to_lowercase(query);
    let lowered = chars_of(lowered.as_str());
    let ghost pred = entry_matches(query@);
    let mut kept: Vec<GlossaryDB> = Vec::new();
    let mut i: usize = 0;
    proof {
        reveal(Seq::filter);
        assert(views(rows@).take(0) =~= Seq::<EntryRow>::empty());
        assert(views(kept@) =~= Seq::<EntryRow>::empty());
    }
    while i < rows.len()
        invariant
            i <= rows.len(),
            lowered@ == lowercased(query@),
            pred == entry_matches(query@),
            views(kept@) == views(rows@).take(i as int).filter(pred),
        decreases rows.len() - i,
    {
        let ghost before = views(kept@);
        let row = &rows[i];
        proof {
            let all = views(rows@);
            assert(all.take(i + 1) =~= all.take(i as int).push(row@));
            all.take(i as int).lemma_filter_push(row@, pred);
        }
        if row_matches(row, &lowered, Ghost(query@)) {
            kept.push(row.clone());
            assert(views(kept@) =~= before.push(row@));
        }
        i += 1;
    }
    proof {
        assert(views(rows@).take(rows@.len() as int) =~= views(rows@));
        lemma_kept_entries_connected(store@, pred);
    }
    Ok(rank(kept))
}

/// Creates the entry that `value` describes, under the identifier `id`
/// and at the instant `now`, and records it in the history under
/// `history_id` at `history_now` with `who` as its author. A request that
/// is not valid is invalid input, and an identifier that is taken a
/// conflict; the store is then left as it was.
pub fn create_glossary_with(
    store: &mut Store,
    value: GlossaryRequest,
    who: Option<String>,
    id: u128,
    now: i64,
    history_id: u128,
    history_now: i64,
) -> (r: Result<GlossaryDB, ApiError>)
    ensures
        final(store)@.consistent(),
        match r {
            Ok(row) => {
                &&& value.valid()
                &&& !old(store)@.has_entry(id)
                &&& row@ == EntryRow::first(id, now, value.term.unwrap()@, value.definition.unwrap()@)
                &&& final(store)@ == old(store)@.created(
                    row@,
                    row@.snapshot(history_id, history_now, who.deep_view()),
                )
            },
            Err(e) => {
                &&& final(store)@ == old(store)@
                &&& e.kind == if !value.valid() {
                    ErrorKind::InvalidInput
                } else {
                    ErrorKind::Conflict
                }
                &&& !value.valid() || old(store)@.has_entry(id)
            },
        },
{
    store.consistency();
    match value.validate() {
        Err(e) => { return Err(e); },
        Ok(_) => {},
    }
    let term = value.term.unwrap();
    let definition = value.definition.unwrap();
    let row = GlossaryDB { id, term, definition, revision: 0, created_at: now, updated_at: now };
    let created = row.clone();
    match store.insert_entry(row) {
        Err(e) => Err(e),
        Ok(_) => {
            create_glossary_history_with(
                store,
                history_id,
                history_now,
                created.term.clone(),
                created.definition.clone(),
                who,
                created.revision,
                created.id,
            );
            Ok(created)
        },
    }
}

/// Creates the entry that `value` describes, under a fresh identifier and
/// now, and records it in the history with `who` as its author. A request
/// that is not valid is invalid input, and so the only other failure is a
/// fresh identifier that turns out to be taken: a conflict.
pub fn create_glossary(store: &mut Store, value: GlossaryRequest, who: Option<String>) -> (r: Result<
    GlossaryDB,
    ApiError,
>)
    ensures
        final(store)@.consistent(),
        !value.valid() <==> (r matches Err(e) && e.kind == ErrorKind::InvalidInput),
        value.valid() && old(store)@.glossary.len() == 0 ==> r is Ok,
        match r {
            Ok(row) => {
                &&& !old(store)@.has_entry(row.id)
                &&& row.created_at >= 0
                &&& row@ == EntryRow::first(
                    row.id,
                    row.created_at,
                    value.term.unwrap()@,
                    value.definition.unwrap()@,
                )
                &&& old(store)@.created_by(final(store)@, row@, who.deep_view())
            },
            Err(e) => {
                &&& final(store)@ == old(store)@
                &&& e.kind == ErrorKind::InvalidInput || e.kind == ErrorKind::Conflict
            },
        },
{
    let id = new_v4();
    let now = now_micros();
    let history_id = new_v4();
    let history_now = now_micros();
    create_glossary_with(store, value, who, id, now, history_id, history_now)
}

/// The entry `id`; where there is none, nothing is found.
pub fn get_glossary(store: &Store, id: u128) -> (r: Result<GlossaryDB, ApiError>)
    ensures
        match r {
            Ok(row) => store@.has_entry(id) && row@ == store@.entry(id),
            Err(e) => !store@.has_entry(id) && e.kind == ErrorKind::NotFound,
        },
{
    match store.get(id) {
        Some(row) => Ok(row),
        None => Err(ApiError::not_found("Record not found")),
    }
}

/// Rewrites the entry `id` with the term and the definition of `value` at
/// the instant `now`, which raises its revision by one, and records the
/// new revision in the history under `history_id` at `history_now` with
/// `who` as its author. Where the entry cannot be rewritten the store is
/// left as it was.
pub fn update_glossary_with(
    store: &mut Store,
    id: u128,
    value: Glossary,
    who: Option<String>,
    now: i64,
    history_id: u128,
    history_now: i64,
) -> (r: Result<GlossaryDB, ApiError>)
    ensures
        final(store)@.consistent(),
        match r {
            Ok(row) => {
                &&& old(store)@.rewrite_fault(id, value@.term, value@.definition) is None
                &&& row@ == old(store)@.entry(id).rewritten(value@.term, value@.definition, now)
                &&& final(store)@ == old(store)@.rewritten(
                    row@,
                    row@.snapshot(history_id, history_now, who.deep_view()),
                )
            },
            Err(e) => {
                &&& final(store)@ == old(store)@
                &&& old(store)@.rewrite_fault(id, value@.term, value@.definition) == Some(e.kind)
            },
        },
{
    let current = match store.get(id) {
        Some(row) => row,
        None => { return Err(ApiError::not_found("Record not found")); },
    };
    if !length_between(value.term.as_str(), 1, MAX_TERM_LEN as u64) {
        return Err(ApiError::invalid_input("term: length must be between 1 and 255"));
    }
    if value.definition.as_str().is_empty() {
        return Err(ApiError::invalid_input("definition: must not be empty"));
    }
    if current.revision == i32::MAX {
        return Err(ApiError::database_error("integer out of range"));
    }
    let row = GlossaryDB {
        id,
        term: value.term,
        definition: value.definition,
        revision: current.revision + 1,
        created_at: current.created_at,
        updated_at: now,
    };
    let updated = row.clone();
    match store.replace_entry(row) {
        Err(e) => Err(e),
        Ok(_) => {
            create_glossary_history_with(
                store,
                history_id,
                history_now,
                updated.term.clone(),
                updated.definition.clone(),
                who,
                updated.revision,
                updated.id,
            );
            Ok(updated)
        },
    }
}

/// Rewrites the entry `id` with the term and the definition of `value`
/// now, which raises its revision by one, and records the new revision in
/// the history with `who` as its author. Where the entry cannot be
/// rewritten the store is left as it was.
pub fn update_glossary(store: &mut Store, id: u128, value: Glossary, who: Option<String>) -> (r:
    Result<GlossaryDB, ApiError>)
    ensures
        final(store)@.consistent(),
        match r {
            Ok(row) => {
                &&& old(store)@.rewrite_fault(id, value@.term, value@.definition) is None
                &&& row.updated_at >= 0
                &&& row@ == old(store)@.entry(id).rewritten(
                    value@.term,
                    value@.definition,
                    row.updated_at,
                )
                &&& old(store)@.rewritten_by(final(store)@, row@, who.deep_view())
            },
            Err(e) => {
                &&& final(store)@ == old(store)@
                &&& old(store)@.rewrite_fault(id, value@.term, value@.definition) == Some(e.kind)
            },
        },
{
    let now = now_micros();
    let history_id = new_v4();
    let history_now = now_micros();
    update_glossary_with(store, id, value, who, now, history_id, history_now)
}

/// Removes the entry `id` with its history and its likes, and says how
/// many entries were removed: one, or none where there was no such entry.
pub fn delete_glossary(store: &mut Store, id: u128) -> (r: Result<usize, ApiError>)
    ensures
        final(store)@.consistent(),
        final(store)@ == old(store)@.without_entry(id),
        r matches Ok(n) && n == if old(store)@.has_entry(id) { 1usize } else { 0usize },
{
    Ok(store.remove_entry(id))
}

/// An entry with the number of its likes.
#[derive(Debug, PartialEq, Eq)]
pub struct Popular {
    pub likes: usize,
    pub entry: GlossaryDB,
}

/// What a [`Popular`] holds.
pub struct PopularRow {
    pub likes: usize,
    pub entry: EntryRow,
}

impl View for Popular {
    type V = PopularRow;

    open spec fn view(&self) -> PopularRow {
        PopularRow { likes: self.likes, entry: self.entry@ }
    }
}

impl PopularRow {
    /// Whether `self` is more popular than `other`: it has more likes, or
    /// as many and the smaller identifier.
    pub open spec fn more_popular_than(self, other: PopularRow) -> bool {
        self.likes > other.likes || (self.likes == other.likes && self.entry.id < other.entry.id)
    }
}

/// Entries with their likes are ordered from the most liked to the least
/// liked. Among entries with as many likes the one with the smaller
/// identifier comes first.
impl Ranked for Popular {
    open spec fn precedes(a: PopularRow, b: PopularRow) -> bool {
        a.more_popular_than(b)
    }

    fn comes_before(&self, other: &Self) -> (r: bool) {
        self.likes > other.likes || (self.likes == other.likes && self.entry.id < other.entry.id)
    }

    proof fn lemma_irreflexive(a: PopularRow) {
    }

    proof fn lemma_transitive(a: PopularRow, b: PopularRow, c: PopularRow) {
    }
}

impl Tables {
    /// Holds of the entries that have a like.
    pub open spec fn is_liked(self) -> spec_fn(EntryRow) -> bool {
        |e: EntryRow| self.like_count(e.id) >= 1
    }

    /// The entry `e` with the number of its likes.
    pub open spec fn popularity(self, e: EntryRow) -> PopularRow {
        PopularRow { likes: self.like_count(e.id) as usize, entry: e }
    }

    /// Each of `rows` with the number of its likes.
    pub open spec fn with_likes(self, rows: Seq<EntryRow>) -> Seq<PopularRow> {
        Seq::new(rows.len(), |i: int| self.popularity(rows[i]))
    }

    /// The entries that have a like, each with the number of its likes, in
    /// table order.
    pub open spec fn liked(self) -> Seq<PopularRow> {
        self.with_likes(self.glossary.filter(self.is_liked()))
    }

    /// The entries that have a like, from the most liked to the least
    /// liked.
    pub open spec fn by_popularity(self) -> Seq<PopularRow> {
        ranking::<Popular>(self.liked())
    }

    /// The `limit` most liked entries, or all that have a like where they
    /// are fewer.
    pub open spec fn popular(self, limit: nat) -> Seq<EntryRow> {
        let ranked = self.by_popularity();
        Seq::new(if limit <= ranked.len() { limit } else { ranked.len() }, |i: int| ranked[i].entry)
    }
}

/// Of two entries that have a like, one is more popular than the other.
pub proof fn lemma_liked_connected(tables: Tables)
    requires
        tables.consistent(),
    ensures
        connected::<Popular>(tables.liked()),
{
    let kept = tables.glossary.filter(tables.is_liked());
    let rows = tables.liked();
    let idx = lemma_filter_indices(tables.glossary, tables.is_liked());
    assert forall|i: int, j: int|
        0 <= i < rows.len() && 0 <= j < rows.len() && i != j implies Popular::precedes(
        #[trigger] rows[i],
        #[trigger] rows[j],
    ) || Popular::precedes(rows[j], rows[i]) by {
        if i < j {
            assert(idx[i] < idx[j]);
            assert(tables.glossary[idx[i]].id != tables.glossary[idx[j]].id);
        } else {
            assert(idx[j] < idx[i]);
            assert(tables.glossary[idx[j]].id != tables.glossary[idx[i]].id);
        }
    }
}

/// The most liked entries, from the most liked to the least liked: at
/// most `limit` of them, or ten where no limit is given. An entry without
/// likes is never among them. The entries come as clients see them, with
/// nothing joined in.
pub fn list_popular_glossary(store: &Store, limit: Option<u8>) -> (r: Result<
    Vec<Glossary>,
    ApiError,
>)
    ensures
        r matches Ok(list) && views(list@) == shown_entries(
            store@.popular(
                match limit {
                    Some(n) => n as nat,
                    None => DEFAULT_POPULAR_LIMIT as nat,
                },
            ),
        ),
{
    let limit: usize = match limit {
        Some(n) => n as usize,
        None => DEFAULT_POPULAR_LIMIT as usize,
    };
    let rows = store.entries();
    let ghost pred = store@.is_liked();
    let mut liked: Vec<Popular> = Vec::new();
    let mut i: usize = 0;
    proof {
        reveal(Seq::filter);
        assert(views(rows@).take(0) =~= Seq::<EntryRow>::empty());
        assert(views(liked@) =~= store@.with_likes(Seq::<EntryRow>::empty()));
    }
    while i < rows.len()
        invariant
            i <= rows.len(),
            pred == store@.is_liked(),
            views(rows@) == store@.glossary,
            views(liked@) == store@.with_likes(views(rows@).take(i as int).filter(pred)),
        decreases rows.len() - i,
    {
        let ghost before = views(liked@);
        let ghost kept = views(rows@).take(i as int).filter(pred);
        let row = &rows[i];
        proof {
            let all = views(rows@);
            assert(all.take(i + 1) =~= all.take(i as int).push(row@));
            all.take(i as int).lemma_filter_push(row@, pred);
        }
        let likes = store.likes_of(row.id);
        assert(views(likes@).len() == likes@.len());
        if likes.len() >= 1 {
            liked.push(Popular { likes: likes.len(), entry: row.clone() });
            proof {
                let next = store@.with_likes(kept.push(row@));
                assert(store@.like_count(row.id) == likes@.len());
                assert(views(liked@) =~= before.push(PopularRow { likes: likes@.len() as usize, entry: row@ }));
                assert(next.len() == before.len() + 1);
                assert forall|m: int| 0 <= m < next.len() implies next[m] == views(liked@)[m] by {
                    if m < before.len() {
                        assert(kept.push(row@)[m] == kept[m]);
                        assert(before[m] == store@.with_likes(kept)[m]);
                    }
                }
                assert(views(liked@) =~= next);
            }
        }
        i += 1;
    }
    proof {
        assert(views(rows@).take(rows@.len() as int) =~= views(rows@));
        lemma_liked_connected(store@);
    }
    let ranked = rank(liked);
    let mut list: Vec<Glossary> = Vec::new();
    let mut k: usize = 0;
    while k < ranked.len() && k < limit
        invariant
            k <= ranked.len(),
            k <= limit,
            list@.len() == k,
            forall|m: int| 0 <= m < k ==> (#[trigger] list@[m])@ == ranked@[m]@.entry.shown(),
        decreases ranked.len() - k,
    {
        list.push(ranked[k].entry.to_glossary());
        k += 1;
    }
    assert(views(list@) =~= shown_entries(store@.popular(limit as nat)));
    Ok(list)
}

/// The most liked entries, as the query asks for them.
pub fn list_popular(store: &Store, query: &PopularQuery) -> (r: Result<Vec<Glossary>, ApiError>)
    ensures
        r matches Ok(list) && views(list@) == shown_entries(
            store@.popular(
                match query.limit {
                    Some(n) => n as nat,
                    None => DEFAULT_POPULAR_LIMIT as nat,
                },
            ),
        ),
{
    list_popular_glossary(store, query.limit)
}

/// The key of the group that an entry with the term `term` is listed
/// under: the upper-case form of the term's first character.
pub open spec fn group_key(term: Seq<char>) -> Seq<char> {
    uppercased(term.first())
}

/// Holds of the entries that are listed under `key`.
pub open spec fn in_group(key: Seq<char>) -> spec_fn(GlossaryView) -> bool {
    |g: GlossaryView| group_key(g.term) == key
}

/// Whether entry `i` of `all` is listed under `key`.
pub open spec fn keyed_at(all: Seq<GlossaryView>, i: int, key: Seq<char>) -> bool {
    0 <= i < all.len() && group_key(all[i].term) == key
}

/// The entries of `all` in groups: under each key that one of them has,
/// those that have it, in the order of `all`.
pub open spec fn grouping(all: Seq<GlossaryView>) -> Map<Seq<char>, Seq<GlossaryView>> {
    Map::new(
        |key: Seq<char>| exists|i: int| keyed_at(all, i, key),
        |key: Seq<char>| all.filter(in_group(key)),
    )
}

/// One more entry joins the group of its key, or opens one.
pub proof fn lemma_grouping_push(all: Seq<GlossaryView>, g: GlossaryView)
    ensures
        grouping(all.push(g)) == grouping(all).insert(
            group_key(g.term),
            if grouping(all).dom().contains(group_key(g.term)) {
                grouping(all)[group_key(g.term)].push(g)
            } else {
                seq![g]
            },
        ),
{
    let key = group_key(g.term);
    let next = grouping(all.push(g));
    let want = grouping(all).insert(
        key,
        if grouping(all).dom().contains(key) {
            grouping(all)[key].push(g)
        } else {
            seq![g]
        },
    );
    assert forall|k: Seq<char>| next.dom().contains(k) <==> want.dom().contains(k) by {
        if next.dom().contains(k) {
            let i = choose|i: int| keyed_at(all.push(g), i, k);
            if i < all.len() {
                assert(keyed_at(all, i, k));
            }
        }
        if grouping(all).dom().contains(k) {
            let i = choose|i: int| keyed_at(all, i, k);
            assert(keyed_at(all.push(g), i, k));
        }
        if k == key {
            assert(keyed_at(all.push(g), all.len() as int, k));
        }
    }
    assert forall|k: Seq<char>| next.dom().contains(k) implies next[k] == want[k] by {
        all.lemma_filter_push(g, in_group(k));
        if k == key && !grouping(all).dom().contains(key) {
            assert(all.all(|x: GlossaryView| !in_group(key)(x))) by {
                assert forall|i: int| 0 <= i < all.len() implies !in_group(key)(
                    #[trigger] all[i],
                ) by {
                    if in_group(key)(all[i]) {
                        assert(keyed_at(all, i, key));
                    }
                }
            }
            all.lemma_all_neg_filter_empty(in_group(key));
            assert(all.filter(in_group(key)) =~= Seq::<GlossaryView>::empty());
            assert(Seq::<GlossaryView>::empty().push(g) =~= seq![g]);
        }
    }
    assert(next =~= want);
}

impl Tables {
    /// The entry `e` as the full list shows it: with its likes from the
    /// newest to the oldest, their number, and its latest author, or the
    /// empty text where it has none.
    pub open spec fn enriched(self, e: EntryRow) -> GlossaryView {
        GlossaryView {
            likes: shown_likes(self.newest_likes(e.id)),
            likes_count: 0i32.wrapping_add(self.like_count(e.id) as i32),
            who: Some(
                match self.latest_author(e.id) {
                    Some(who) => who,
                    None => Seq::empty(),
                },
            ),
            ..e.shown()
        }
    }

    /// All entries by term, each as the full list shows it.
    pub open spec fn full_listing(self) -> Seq<GlossaryView> {
        Seq::new(self.listing().len(), |i: int| self.enriched(self.listing()[i]))
    }

    /// All entries in groups by the first character of their term, and by
    /// term within each group.
    pub open spec fn grouped(self) -> Map<Seq<char>, Seq<GlossaryView>> {
        grouping(self.full_listing())
    }
}

/// All entries in groups by the upper-case form of the first character of
/// their term, and by term within each group; each entry comes with its
/// likes and its latest author.
pub fn list(store: &Store) -> (r: Result<GroupedGlossary, ApiError>)
    ensures
        r matches Ok(groups) && groups@ == store@.grouped(),
{
    store.consistency();
    let rows = match list_glossary(store) {
        Ok(rows) => rows,
        Err(e) => { return Err(e); },
    };
    let ghost all = store@.full_listing();
    let mut groups = GroupedGlossary::new();
    let mut i: usize = 0;
    proof {
        lemma_entries_connected(store@.glossary);
        lemma_ranking::<GlossaryDB>(store@.glossary);
        assert(all.take(0) =~= Seq::<GlossaryView>::empty());
        assert(grouping(Seq::<GlossaryView>::empty()) =~= Map::<
            Seq<char>,
            Seq<GlossaryView>,
        >::empty()) by {
            assert forall|k: Seq<char>| !grouping(Seq::<GlossaryView>::empty()).dom().contains(
                k,
            ) by {
                if grouping(Seq::<GlossaryView>::empty()).dom().contains(k) {
                    let m = choose|m: int| keyed_at(Seq::<GlossaryView>::empty(), m, k);
                    assert(keyed_at(Seq::<GlossaryView>::empty(), m, k));
                }
            }
        }
    }
    while i < rows.len()
        invariant
            i <= rows.len(),
            store@.consistent(),
            views(rows@) == store@.listing(),
            is_ranking::<GlossaryDB>(store@.listing(), store@.glossary),
            all == store@.full_listing(),
            groups@ == grouping(all.take(i as int)),
        decreases rows.len() - i,
    {
        let row = &rows[i];
        proof {
            assert(views(rows@)[i as int] == row@);
            assert(store@.listing().contains(row@));
            assert(store@.glossary.contains(row@));
            let m = choose|m: int| 0 <= m < store@.glossary.len() && store@.glossary[m] == row@;
            assert(store@.glossary[m].valid());
            lemma_likes_connected(store@, row.id);
            lemma_ranking::<LikeDB>(store@.likes_of(row.id));
        }
        let likes = match list_likes(store, row.id) {
            Ok(likes) => likes,
            Err(_) => Vec::new(),
        };
        let who = match latest_author(store, row.id) {
            Some(who) => who,
            None => String::new(),
        };
        let key = to_uppercase(row.term.as_str().get_char(0));
        let entry = row.to_glossary().add_likes(likes).add_who(who);
        proof {
            assert(entry@.likes.len() == store@.like_count(row.id));
            assert(entry@ == store@.enriched(row@));
            assert(all[i as int] == store@.enriched(row@));
            assert(all.take(i + 1) =~= all.take(i as int).push(entry@));
            lemma_grouping_push(all.take(i as int), entry@);
        }
        groups.add(key, entry);
        i += 1;
    }
    assert(all.take(rows@.len() as int) =~= all);
    Ok(groups)
}

/// What an empty search query is answered with.
pub const EMPTY_QUERY: &'static str = "Search query cannot be empty";

/// What a removed entry is answered with.
pub const DELETED: &'static str = "deleted";

impl Tables {
    /// Each of `rows` as clients see it, with the author of its newest
    /// history record joined in.
    pub open spec fn shown_with_authors(self, rows: Seq<EntryRow>) -> Seq<GlossaryView> {
        Seq::new(rows.len(), |i: int| rows[i].shown_by(self.latest_author(rows[i].id)))
    }
}

/// Creates the entry that the request describes, with `who` as its
/// author, and answers with it. A request that is not valid is invalid
/// input.
pub fn create(store: &mut Store, json: GlossaryRequest, who: Option<String>) -> (r: Result<
    Glossary,
    ApiError,
>)
    ensures
        final(store)@.consistent(),
        !json.valid() <==> (r matches Err(e) && e.kind == ErrorKind::InvalidInput),
        json.valid() && old(store)@.glossary.len() == 0 ==> r is Ok,
        match r {
            Ok(g) => {
                &&& parsed_uuid(g.id@) matches Some(id)
                &&& ({
                    let row = EntryRow::first(
                        id,
                        g.created_at,
                        json.term.unwrap()@,
                        json.definition.unwrap()@,
                    );
                    &&& !old(store)@.has_entry(id)
                    &&& g.created_at >= 0
                    &&& g@ == row.shown_by(who.deep_view())
                    &&& old(store)@.created_by(final(store)@, row, who.deep_view())
                })
            },
            Err(e) => {
                &&& final(store)@ == old(store)@
                &&& e.kind == ErrorKind::InvalidInput || e.kind == ErrorKind::Conflict
            },
        },
{
    let author = who.clone();
    match create_glossary(store, json, who) {
        Ok(row) => Ok(row.to_glossary_with_who(author)),
        Err(e) => Err(e),
    }
}

/// The entry that the path names, with its latest author. A path that is
/// not the text of a UUID is invalid input; where there is no such entry,
/// nothing is found.
pub fn get(store: &Store, id: &str) -> (r: Result<Glossary, ApiError>)
    ensures
        match parsed_uuid(id@) {
            None => r matches Err(e) && e.kind == ErrorKind::InvalidInput && e.message@
                == INVALID_ID@,
            Some(glossary_id) => if store@.has_entry(glossary_id) {
                r matches Ok(g) && g@ == store@.entry(glossary_id).shown_by(
                    store@.latest_author(glossary_id),
                )
            } else {
                r matches Err(e) && e.kind == ErrorKind::NotFound
            },
        },
{
    let glossary_id = match parse_str(id) {
        Some(glossary_id) => glossary_id,
        None => { return Err(ApiError::invalid_input(INVALID_ID)); },
    };
    match get_glossary(store, glossary_id) {
        Ok(row) => Ok(row.to_glossary_with_who_from_db(store)),
        Err(e) => Err(e),
    }
}

/// Rewrites the entry that the path names with what the request
/// describes, with `who` as the author, and answers with the new
/// revision. A request that is not valid is invalid input, and so is a
/// path that is not the text of a UUID; where there is no such entry,
/// nothing is found.
pub fn update(store: &mut Store, id: &str, value: GlossaryRequest, who: Option<String>) -> (r:
    Result<Glossary, ApiError>)
    ensures
        final(store)@.consistent(),
        match r {
            Ok(g) => {
                &&& value.valid()
                &&& parsed_uuid(id@) matches Some(glossary_id)
                &&& ({
                    let term = value.term.unwrap()@;
                    let definition = value.definition.unwrap()@;
                    let row = old(store)@.entry(glossary_id).rewritten(
                        term,
                        definition,
                        g.updated_at,
                    );
                    &&& old(store)@.rewrite_fault(glossary_id, term, definition) is None
                    &&& g.updated_at >= 0
                    &&& g@ == row.shown_by(who.deep_view())
                    &&& old(store)@.rewritten_by(final(store)@, row, who.deep_view())
                })
            },
            Err(e) => {
                &&& final(store)@ == old(store)@
                &&& e.kind == if !value.valid() || parsed_uuid(id@) is None {
                    ErrorKind::InvalidInput
                } else if !old(store)@.has_entry(parsed_uuid(id@).unwrap()) {
                    ErrorKind::NotFound
                } else {
                    ErrorKind::DatabaseError
                }
                &&& value.valid() && parsed_uuid(id@) is Some && old(store)@.has_entry(
                    parsed_uuid(id@).unwrap(),
                ) ==> old(store)@.entry(parsed_uuid(id@).unwrap()).revision == i32::MAX
            },
        },
{
    store.consistency();
    match value.validate() {
        Err(e) => { return Err(e); },
        Ok(_) => {},
    }
    let glossary_id = match parse_str(id) {
        Some(glossary_id) => glossary_id,
        None => { return Err(ApiError::invalid_input(INVALID_ID)); },
    };
    let glossary = match value.to_glossary() {
        Some(glossary) => glossary,
        None => { return Err(ApiError::invalid_input("term: is required")); },
    };
    let author = who.clone();
    match update_glossary(store, glossary_id, glossary, who) {
        Ok(row) => Ok(row.to_glossary_with_who(author)),
        Err(e) => Err(e),
    }
}

/// Removes the entry that the path names, with its history and its likes,
/// and confirms it; removing an entry that does not exist is confirmed
/// too. A path that is not the text of a UUID is invalid input.
pub fn delete(store: &mut Store, id: &str) -> (r: Result<Message, ApiError>)
    ensures
        final(store)@.consistent(),
        match parsed_uuid(id@) {
            None => {
                &&& r matches Err(e) && e.kind == ErrorKind::InvalidInput && e.message@
                    == INVALID_ID@
                &&& final(store)@ == old(store)@
            },
            Some(glossary_id) => {
                &&& r matches Ok(m) && m.message@ == DELETED@
                &&& final(store)@ == old(store)@.without_entry(glossary_id)
            },
        },
{
    let glossary_id = match parse_str(id) {
        Some(glossary_id) => glossary_id,
        None => {
            store.consistency();
            return Err(ApiError::invalid_input(INVALID_ID));
        },
    };
    match delete_glossary(store, glossary_id) {
        Ok(_) => Ok(Message::new(DELETED)),
        Err(e) => Err(e),
    }
}

/// The page of entries whose term or definition contains the query,
/// whatever the case of either, by term and each with its latest author. A
/// query that holds nothing but white space is invalid input.
pub fn search(store: &Store, query: &SearchQuery) -> (r: Result<Glossaries, ApiError>)
    ensures
        match r {
            Ok(page) => {
                &&& !is_blank(query.q@)
                &&& views(page.results@) == store@.shown_with_authors(store@.found(query.q@))
                &&& page.count == page.results@.len() as i32
            },
            Err(e) => {
                &&& is_blank(query.q@)
                &&& e.kind == ErrorKind::InvalidInput
                &&& e.message@ == EMPTY_QUERY@
            },
        },
{
    if trim(query.q.as_str()).as_str().is_empty() {
        return Err(ApiError::invalid_input(EMPTY_QUERY));
    }
    match search_glossary(store, query.q.as_str()) {
        Err(e) => Err(e),
        Ok(rows) => {
            let mut glossaries: Vec<Glossary> = Vec::new();
            let mut i: usize = 0;
            while i < rows.len()
                invariant
                    i <= rows.len(),
                    glossaries@.len() == i,
                    forall|k: int|
                        0 <= k < i ==> (#[trigger] glossaries@[k])@ == rows@[k]@.shown_by(
                            store@.latest_author(rows@[k].id),
                        ),
                decreases rows.len() - i,
            {
                glossaries.push(rows[i].to_glossary_with_who_from_db(store));
                i += 1;
            }
            let page = Glossaries::from(glossaries.as_slice());
            assert(views(page.results@) =~= store@.shown_with_authors(views(rows@)));
            Ok(page)
        },
    }
}

} // verus!
