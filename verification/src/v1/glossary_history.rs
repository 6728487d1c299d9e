//! The revision history: one record for each write of an entry.

use crate::clock::now_micros;
use crate::ident::new_v4;
use crate::order::{connected, lemma_ranking, rank, ranking, views, Ranked};
use crate::response::ApiError;
use crate::schema::{lemma_filter_indices, record_of, HistoryRow, Tables};
use crate::store::Store;
use vstd::prelude::*;

verus! {

/// A history record as the history table holds it.
#[derive(Debug, PartialEq, Eq)]
pub struct GlossaryHistoryDB {
    pub id: u128,
    pub term: String,
    pub definition: String,
    pub revision: i32,
    pub who: Option<String>,
    pub created_at: i64,
    pub glossary_id: u128,
}

impl View for GlossaryHistoryDB {
    type V = HistoryRow;

    open spec fn view(&self) -> HistoryRow {
        HistoryRow {
            id: self.id,
            term: self.term@,
            definition: self.definition@,
            revision: self.revision,
            who: self.who.deep_view(),
            created_at: self.created_at,
            glossary_id: self.glossary_id,
        }
    }
}

impl Clone for GlossaryHistoryDB {
    fn clone(&self) -> (r: Self)
        ensures
            r == *self,
    {
        GlossaryHistoryDB {
            id: self.id,
            term: self.term.clone(),
            definition: self.definition.clone(),
            revision: self.revision,
            who: self.who.clone(),
            created_at: self.created_at,
            glossary_id: self.glossary_id,
        }
    }
}

impl HistoryRow {
    /// The record `id`, written at the instant `now`, of what the entry
    /// `glossary_id` holds at `revision` and of who wrote it.
    pub open spec fn written(
        id: u128,
        now: i64,
        term: Seq<char>,
        definition: Seq<char>,
        who: Option<Seq<char>>,
        revision: i32,
        glossary_id: u128,
    ) -> HistoryRow {
        HistoryRow { id, term, definition, revision, who, created_at: now, glossary_id }
    }

    /// Whether `self` is newer than `other`: created later, or at the same
    /// instant with the smaller identifier.
    pub open spec fn newer_than(self, other: HistoryRow) -> bool {
        self.created_at > other.created_at || (self.created_at == other.created_at && self.id
            < other.id)
    }
}

/// History records are ordered from the newest to the oldest.
impl Ranked for GlossaryHistoryDB {
    open spec fn precedes(a: HistoryRow, b: HistoryRow) -> bool {
        a.newer_than(b)
    }

    fn comes_before(&self, other: &Self) -> (r: bool) {
        self.created_at > other.created_at || (self.created_at == other.created_at && self.id
            < other.id)
    }

    proof fn lemma_irreflexive(a: HistoryRow) {
    }

    proof fn lemma_transitive(a: HistoryRow, b: HistoryRow, c: HistoryRow) {
    }
}

impl Tables {
    /// The history of the entry `id`, from the newest record to the oldest.
    pub open spec fn newest_records(self, id: u128) -> Seq<HistoryRow> {
        ranking::<GlossaryHistoryDB>(self.history_of(id))
    }

    /// Who wrote the entry `id` last: the author of its newest history
    /// record, or no one where it has no history.
    pub open spec fn latest_author(self, id: u128) -> Option<Seq<char>> {
        if self.history_of(id).len() == 0 {
            None
        } else {
            self.newest_records(id).first().who
        }
    }
}

/// Of two history records of one entry, one is newer than the other.
pub proof fn lemma_records_connected(tables: Tables, id: u128)
    requires
        tables.consistent(),
    ensures
        connected::<GlossaryHistoryDB>(tables.history_of(id)),
{
    let rows = tables.history_of(id);
    let idx = lemma_filter_indices(tables.history, record_of(id));
    assert forall|i: int, j: int|
        0 <= i < rows.len() && 0 <= j < rows.len() && i != j implies GlossaryHistoryDB::precedes(
        #[trigger] rows[i],
        #[trigger] rows[j],
    ) || GlossaryHistoryDB::precedes(rows[j], rows[i]) by {
        if i < j {
            assert(idx[i] < idx[j]);
            assert(tables.history[idx[i]].id != tables.history[idx[j]].id);
        } else {
            assert(idx[j] < idx[i]);
            assert(tables.history[idx[j]].id != tables.history[idx[i]].id);
        }
    }
}

/// Records what the entry `glossary_id` holds at `revision` and who wrote
/// it, under the identifier `id` and at the instant `now`. Where the
/// history does not take the record, because its identifier is taken or the
/// entry does not exist, nothing changes and nothing is reported.
pub fn create_glossary_history_with(
    store: &mut Store,
    id: u128,
    now: i64,
    term: String,
    definition: String,
    who: Option<String>,
    revision: i32,
    glossary_id: u128,
)
    ensures
        final(store)@.consistent(),
        final(store)@ == old(store)@.with_record(
            HistoryRow::written(id, now, term@, definition@, who.deep_view(), revision, glossary_id),
        ),
{
    let row = GlossaryHistoryDB { id, term, definition, revision, glossary_id, who, created_at: now };
    let _ = store.insert_record(row);
}

/// Records what the entry `glossary_id` holds at `revision` and who wrote
/// it, under a fresh identifier and now. Where the history does not take
/// the record nothing changes and nothing is reported.
pub fn create_glossary_history(
    store: &mut Store,
    term: String,
    definition: String,
    who: Option<String>,
    revision: i32,
    glossary_id: u128,
)
    ensures
        final(store)@.consistent(),
        exists|id: u128, now: i64|
            now >= 0 && final(store)@ == old(store)@.with_record(
                #[trigger] HistoryRow::written(
                    id,
                    now,
                    term@,
                    definition@,
                    who.deep_view(),
                    revision,
                    glossary_id,
                ),
            ),
{
    let id = new_v4();
    let now = now_micros();
    create_glossary_history_with(store, id, now, term, definition, who, revision, glossary_id)
}

/// The history of the entry `glossary_id`, from the newest record to the
/// oldest.
pub fn list_glossary_history(store: &Store, glossary_id: u128) -> (r: Result<
    Vec<GlossaryHistoryDB>,
    ApiError,
>)
    ensures
        r matches Ok(rows) && views(rows@) == store@.newest_records(glossary_id),
{
    let rows = store.history_of(glossary_id);
    proof {
        lemma_records_connected(store@, glossary_id);
    }
    Ok(rank(rows))
}

/// Who wrote the entry `glossary_id` last.
pub fn latest_author(store: &Store, glossary_id: u128) -> (who: Option<String>)
    ensures
        who.deep_view() == store@.latest_author(glossary_id),
{
    store.consistency();
    proof {
        lemma_records_connected(store@, glossary_id);
        lemma_ranking::<GlossaryHistoryDB>(store@.history_of(glossary_id));
    }
    match list_glossary_history(store, glossary_id) {
        Ok(rows) => {
            if rows.len() > 0 {
                assert(views(rows@)[0] == rows@[0]@);
                rows[0].who.clone()
            } else {
                None
            }
        },
        Err(_) => None,
    }
}

} // verus!
