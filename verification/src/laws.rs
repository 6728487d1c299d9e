//! What holds across operations: of an entry that was just created, of
//! revisions, of removed entries, of searches, of likes and of the
//! most-liked list.

use crate::order::{connected, is_ranking, lemma_ranking, ranking, Ranked};
use crate::schema::{
    lemma_filter_indices, like_of, record_of, record_of_other, EntryRow, HistoryRow, LikeRow,
    Tables,
};
use crate::v1::glossary::{
    entry_matches, lemma_kept_entries_connected, lemma_liked_connected, GlossaryDB, Popular,
};
use crate::v1::glossary_history::GlossaryHistoryDB;
use crate::v1::like::{lemma_likes_connected, LikeDB};
use vstd::prelude::*;

verus! {

/// A sequence with one element is its own ranking.
pub proof fn lemma_ranking_of_one<T: Ranked>(x: T::V)
    ensures
        ranking::<T>(seq![x]) == seq![x],
{
    let s = seq![x];
    assert(is_ranking::<T>(s, s));
    assert(connected::<T>(s));
    lemma_ranking::<T>(s);
}

/// The empty sequence is its own ranking.
pub proof fn lemma_ranking_of_none<T: Ranked>()
    ensures
        ranking::<T>(Seq::<T::V>::empty()) == Seq::<T::V>::empty(),
{
    let s = Seq::<T::V>::empty();
    assert(is_ranking::<T>(s, s));
    assert(connected::<T>(s));
    lemma_ranking::<T>(s);
}

/// An entry that does not exist has no history and no likes.
pub proof fn lemma_nothing_without_entry(tables: Tables, id: u128)
    requires
        tables.consistent(),
        !tables.has_entry(id),
    ensures
        tables.history_of(id) == Seq::<HistoryRow>::empty(),
        tables.likes_of(id) == Seq::<LikeRow>::empty(),
        tables.like_count(id) == 0,
        tables.latest_author(id) is None,
{
    assert(tables.history.all(|h: HistoryRow| !record_of(id)(h))) by {
        assert forall|i: int| 0 <= i < tables.history.len() implies !record_of(id)(
            #[trigger] tables.history[i],
        ) by {
            assert(tables.has_entry(tables.history[i].glossary_id));
        }
    }
    tables.history.lemma_all_neg_filter_empty(record_of(id));
    assert(tables.history_of(id) =~= Seq::<HistoryRow>::empty());
    assert(tables.likes.all(|l: LikeRow| !like_of(id)(l))) by {
        assert forall|i: int| 0 <= i < tables.likes.len() implies !like_of(id)(
            #[trigger] tables.likes[i],
        ) by {
            assert(tables.has_entry(tables.likes[i].glossary_id));
        }
    }
    tables.likes.lemma_all_neg_filter_empty(like_of(id));
    assert(tables.likes_of(id) =~= Seq::<LikeRow>::empty());
}

/// An entry that was just created is found under its identifier, with the
/// values that it was created with, no likes, and the author of its first
/// history record where the history took that record.
pub proof fn lemma_created_entry_is_found(
    tables: Tables,
    row: EntryRow,
    history_id: u128,
    history_now: i64,
    who: Option<Seq<char>>,
)
    requires
        tables.consistent(),
        row.valid(),
        !tables.has_entry(row.id),
    ensures
        ({
            let next = tables.created(row, row.snapshot(history_id, history_now, who));
            &&& next.consistent()
            &&& next.has_entry(row.id)
            &&& next.entry(row.id) == row
            &&& next.like_count(row.id) == 0
            &&& next.newest_likes(row.id) == Seq::<LikeRow>::empty()
            &&& !tables.has_record(history_id) ==> next.latest_author(row.id) == who
            &&& !tables.has_record(history_id) ==> next.entry(row.id).shown_by(
                next.latest_author(row.id),
            ) == row.shown_by(who)
        }),
{
    let record = row.snapshot(history_id, history_now, who);
    let middle = tables.with_entry(row);
    let next = middle.with_record(record);
    tables.lemma_with_entry(row);
    middle.lemma_with_record(record);
    lemma_nothing_without_entry(tables, row.id);
    assert(next.glossary == middle.glossary);
    assert(next.has_entry(row.id)) by {
        let i = middle.entry_index(row.id);
        assert(middle.entry_at(i, row.id));
        assert(next.entry_at(i, row.id));
    }
    assert(next.entry(row.id) == middle.entry(row.id));
    assert(next.likes_of(row.id) == tables.likes_of(row.id));
    lemma_ranking_of_none::<LikeDB>();
    if !tables.has_record(history_id) {
        assert(!middle.has_record(history_id)) by {
            if middle.has_record(history_id) {
                let i = choose|i: int| middle.record_at(i, history_id);
                assert(tables.record_at(i, history_id));
            }
        }
        assert(middle.takes_record(record));
        tables.history.lemma_filter_push(record, record_of(row.id));
        assert(next.history_of(row.id) =~= seq![record]);
        lemma_ranking_of_one::<GlossaryHistoryDB>(record);
    }
}

/// A first revision has the number 0.
pub proof fn lemma_first_revision(id: u128, now: i64, term: Seq<char>, definition: Seq<char>)
    ensures
        EntryRow::first(id, now, term, definition).revision == 0,
{
}

/// Rewriting an entry raises its revision by exactly one, keeps its
/// identifier and the instant of its creation, and leaves every other entry
/// as it was.
pub proof fn lemma_rewrite_raises_revision(
    tables: Tables,
    id: u128,
    term: Seq<char>,
    definition: Seq<char>,
    now: i64,
    record: HistoryRow,
)
    requires
        tables.consistent(),
        tables.rewrite_fault(id, term, definition) is None,
    ensures
        ({
            let next = tables.rewritten(tables.entry(id).rewritten(term, definition, now), record);
            &&& next.consistent()
            &&& next.has_entry(id)
            &&& next.entry(id).revision == tables.entry(id).revision + 1
            &&& next.entry(id).term == term
            &&& next.entry(id).definition == definition
            &&& next.entry(id).created_at == tables.entry(id).created_at
            &&& next.entry(id).updated_at == now
            &&& forall|other: u128|
                other != id && #[trigger] tables.has_entry(other) ==> next.has_entry(other)
                    && next.entry(other) == tables.entry(other)
        }),
{
    let i = tables.entry_index(id);
    assert(tables.entry_at(i, id));
    tables.lemma_entry_at(i, id);
    assert(tables.glossary[i].valid());
    let row = tables.entry(id).rewritten(term, definition, now);
    let middle = tables.with_entry_replaced(row);
    tables.lemma_with_entry_replaced(row);
    middle.lemma_with_record(record);
    let next = middle.with_record(record);
    assert(next.glossary == middle.glossary);
    assert forall|other: u128| other != id && #[trigger] tables.has_entry(other) implies
        next.has_entry(other) && next.entry(other) == tables.entry(other) by {
        assert(middle.has_entry(other) == tables.has_entry(other));
    }
}

/// Whether `next` is what one operation makes of `prev`: creating an
/// entry, rewriting one, removing one, adding a like, removing a like,
/// writing a history record, or leaving the tables alone.
pub open spec fn follows(prev: Tables, next: Tables) -> bool {
    ||| next == prev
    ||| exists|row: EntryRow, record: HistoryRow|
        row.valid() && !prev.has_entry(row.id) && next == #[trigger] prev.created(row, record)
    ||| exists|id: u128, term: Seq<char>, definition: Seq<char>, now: i64, record: HistoryRow|
        prev.rewrite_fault(id, term, definition) is None && next == #[trigger] prev.rewritten(
            prev.entry(id).rewritten(term, definition, now),
            record,
        )
    ||| exists|id: u128| next == #[trigger] prev.without_entry(id)
    ||| exists|row: LikeRow|
        prev.has_entry(row.glossary_id) && !prev.has_like(row.id) && next
            == #[trigger] prev.with_like(row)
    ||| exists|id: u128| next == #[trigger] prev.without_like(id)
    ||| exists|record: HistoryRow| next == #[trigger] prev.with_record(record)
}

/// No operation lowers the revision of an entry, and every operation
/// keeps the tables consistent.
pub proof fn lemma_revision_never_decreases(prev: Tables, next: Tables, id: u128)
    requires
        prev.consistent(),
        follows(prev, next),
        prev.has_entry(id),
        next.has_entry(id),
    ensures
        next.consistent(),
        next.entry(id).revision >= prev.entry(id).revision,
{
    if next == prev {
    } else if exists|row: EntryRow, record: HistoryRow|
        row.valid() && !prev.has_entry(row.id) && next == #[trigger] prev.created(row, record) {
        let (row, record) = choose|row: EntryRow, record: HistoryRow|
            row.valid() && !prev.has_entry(row.id) && next == #[trigger] prev.created(row, record);
        prev.lemma_with_entry(row);
        prev.with_entry(row).lemma_with_record(record);
        lemma_same_glossary(prev.with_entry(row), next, id);
    } else if exists|id: u128, term: Seq<char>, definition: Seq<char>, now: i64, record: HistoryRow|
        prev.rewrite_fault(id, term, definition) is None && next == #[trigger] prev.rewritten(
            prev.entry(id).rewritten(term, definition, now),
            record,
        ) {
        let (other, term, definition, now, record) = choose|
            id: u128,
            term: Seq<char>,
            definition: Seq<char>,
            now: i64,
            record: HistoryRow,
        |
            prev.rewrite_fault(id, term, definition) is None && next == #[trigger] prev.rewritten(
                prev.entry(id).rewritten(term, definition, now),
                record,
            );
        lemma_rewrite_raises_revision(prev, other, term, definition, now, record);
    } else if exists|id: u128| next == #[trigger] prev.without_entry(id) {
        let other = choose|other: u128| next == #[trigger] prev.without_entry(other);
        prev.lemma_without_entry(other);
    } else if exists|row: LikeRow|
        prev.has_entry(row.glossary_id) && !prev.has_like(row.id) && next
            == #[trigger] prev.with_like(row) {
        let row = choose|row: LikeRow|
            prev.has_entry(row.glossary_id) && !prev.has_like(row.id) && next
                == #[trigger] prev.with_like(row);
        prev.lemma_with_like(row);
        lemma_same_glossary(prev, next, id);
    } else if exists|id: u128| next == #[trigger] prev.without_like(id) {
        let other = choose|other: u128| next == #[trigger] prev.without_like(other);
        prev.lemma_without_like(other);
        lemma_same_glossary(prev, next, id);
    } else {
        let record = choose|record: HistoryRow| next == #[trigger] prev.with_record(record);
        prev.lemma_with_record(record);
        lemma_same_glossary(prev, next, id);
    }
}

/// Tables with the same glossary table hold the same entries.
pub proof fn lemma_same_glossary(a: Tables, b: Tables, id: u128)
    requires
        a.glossary == b.glossary,
    ensures
        a.has_entry(id) == b.has_entry(id),
        a.entry(id) == b.entry(id),
{
}

/// A history record is never changed and never removed by itself: writing
/// an entry adds at most one record behind those that there are, likes
/// leave the history alone, and removing an entry removes the records of
/// that entry and no others.
pub proof fn lemma_history_is_kept(
    tables: Tables,
    row: EntryRow,
    record: HistoryRow,
    like: LikeRow,
    id: u128,
)
    ensures
        tables.history.is_prefix_of(tables.created(row, record).history),
        tables.history.is_prefix_of(tables.rewritten(row, record).history),
        tables.created(row, record).history.len() <= tables.history.len() + 1,
        tables.rewritten(row, record).history.len() <= tables.history.len() + 1,
        tables.with_like(like).history == tables.history,
        tables.without_like(id).history == tables.history,
        tables.without_entry(id).history == tables.history.filter(record_of_other(id)),
{
}

/// An entry that was removed is not found, and neither are its history
/// and its likes; every other entry is left as it was.
pub proof fn lemma_removed_entry_is_not_found(tables: Tables, id: u128)
    requires
        tables.consistent(),
    ensures
        ({
            let next = tables.without_entry(id);
            &&& next.consistent()
            &&& !next.has_entry(id)
            &&& next.history_of(id) == Seq::<HistoryRow>::empty()
            &&& next.likes_of(id) == Seq::<LikeRow>::empty()
            &&& forall|other: u128|
                other != id && #[trigger] tables.has_entry(other) ==> next.has_entry(other)
                    && next.entry(other) == tables.entry(other)
        }),
{
    let next = tables.without_entry(id);
    tables.lemma_without_entry(id);
    lemma_nothing_without_entry(next, id);
    assert forall|other: u128| other != id && #[trigger] tables.has_entry(other) implies
        next.has_entry(other) && next.entry(other) == tables.entry(other) by {
        assert(next.has_entry(other) == tables.has_entry(other));
    }
}

/// Removing an entry that does not exist changes nothing, and so removing
/// an entry twice is the same as removing it once.
pub proof fn lemma_remove_is_idempotent(tables: Tables, id: u128)
    requires
        tables.consistent(),
    ensures
        !tables.has_entry(id) ==> tables.without_entry(id) == tables,
        tables.without_entry(id).without_entry(id) == tables.without_entry(id),
{
    tables.lemma_without_entry(id);
    tables.without_entry(id).lemma_without_entry(id);
}

/// A search finds exactly the entries whose term or definition contains
/// the query, whatever the case of either, each once and in the order of
/// their terms.
pub proof fn lemma_search_is_exact(tables: Tables, query: Seq<char>)
    requires
        tables.consistent(),
    ensures
        forall|e: EntryRow| #[trigger]
            tables.found(query).contains(e) <==> tables.glossary.contains(e) && entry_matches(
                query,
            )(e),
        forall|i: int, j: int|
            0 <= i < j < tables.found(query).len() ==> (#[trigger] tables.found(
                query,
            )[i]).listed_before(#[trigger] tables.found(query)[j]),
{
    let pred = entry_matches(query);
    let kept = tables.glossary.filter(pred);
    let found = tables.found(query);
    lemma_kept_entries_connected(tables, pred);
    lemma_ranking::<GlossaryDB>(kept);
    assert forall|e: EntryRow| #[trigger] found.contains(e) <==> tables.glossary.contains(e)
        && pred(e) by {
        lemma_filter_members(tables.glossary, pred, e);
    }
    assert forall|i: int, j: int| 0 <= i < j < found.len() implies (#[trigger] found[i]).listed_before(
        #[trigger] found[j],
    ) by {
        assert(GlossaryDB::precedes(found[i], found[j]));
    }
}

/// A filter keeps the elements that pass it, and no others.
pub proof fn lemma_filter_members<A>(s: Seq<A>, pred: spec_fn(A) -> bool, x: A)
    ensures
        s.filter(pred).contains(x) <==> s.contains(x) && pred(x),
{
    if s.filter(pred).contains(x) {
        let i = choose|i: int| 0 <= i < s.filter(pred).len() && s.filter(pred)[i] == x;
        s.lemma_filter_pred(pred, i);
        s.lemma_filter_contains_rev(pred, x);
    }
    if s.contains(x) && pred(x) {
        let i = choose|i: int| 0 <= i < s.len() && s[i] == x;
        s.lemma_filter_contains(pred, i);
    }
}

/// A like that was added is counted: the entry has one like more, the new
/// like is among its likes, and the likes of every other entry are as they
/// were. An entry without likes then has one, and after another like two.
pub proof fn lemma_like_is_counted(tables: Tables, row: LikeRow)
    requires
        tables.consistent(),
        tables.has_entry(row.glossary_id),
        !tables.has_like(row.id),
    ensures
        ({
            let next = tables.with_like(row);
            &&& next.consistent()
            &&& next.like_count(row.glossary_id) == tables.like_count(row.glossary_id) + 1
            &&& next.newest_likes(row.glossary_id).len() == tables.newest_likes(
                row.glossary_id,
            ).len() + 1
            &&& next.newest_likes(row.glossary_id).contains(row)
            &&& forall|other: u128|
                other != row.glossary_id ==> #[trigger] next.likes_of(other) == tables.likes_of(
                    other,
                )
        }),
{
    let next = tables.with_like(row);
    let id = row.glossary_id;
    tables.lemma_with_like(row);
    tables.likes.lemma_filter_push(row, like_of(id));
    assert(next.likes_of(id) == tables.likes_of(id).push(row));
    lemma_likes_connected(tables, id);
    lemma_likes_connected(next, id);
    lemma_ranking::<LikeDB>(tables.likes_of(id));
    lemma_ranking::<LikeDB>(next.likes_of(id));
    assert(next.likes_of(id)[tables.likes_of(id).len() as int] == row);
    assert(next.likes_of(id).contains(row));
    assert forall|other: u128| other != id implies #[trigger] next.likes_of(other)
        == tables.likes_of(other) by {
        tables.likes.lemma_filter_push(row, like_of(other));
    }
}

/// The likes that a list shows have different identifiers.
pub proof fn lemma_likes_are_distinct(tables: Tables, id: u128)
    requires
        tables.consistent(),
    ensures
        forall|i: int, j: int|
            0 <= i < j < tables.newest_likes(id).len() ==> (#[trigger] tables.newest_likes(
                id,
            )[i]).id != (#[trigger] tables.newest_likes(id)[j]).id,
        tables.newest_likes(id).len() == tables.like_count(id),
{
    let rows = tables.likes_of(id);
    let ranked = tables.newest_likes(id);
    lemma_likes_connected(tables, id);
    lemma_ranking::<LikeDB>(rows);
    let idx = lemma_filter_indices(tables.likes, like_of(id));
    assert forall|i: int, j: int| 0 <= i < j < ranked.len() implies (#[trigger] ranked[i]).id != (
    #[trigger] ranked[j]).id by {
        assert(ranked.contains(ranked[i]));
        assert(ranked.contains(ranked[j]));
        assert(rows.contains(ranked[i]));
        assert(rows.contains(ranked[j]));
        let p = choose|p: int| 0 <= p < rows.len() && rows[p] == ranked[i];
        let q = choose|q: int| 0 <= q < rows.len() && rows[q] == ranked[j];
        assert(LikeDB::precedes(ranked[i], ranked[j]));
        if p == q {
            LikeDB::lemma_irreflexive(ranked[i]);
        } else if p < q {
            assert(idx[p] < idx[q]);
            assert(tables.likes[idx[p]].id != tables.likes[idx[q]].id);
        } else {
            assert(idx[q] < idx[p]);
            assert(tables.likes[idx[q]].id != tables.likes[idx[p]].id);
        }
    }
}

/// Removing the newest like of an entry that has none changes nothing;
/// where it has one, the likes table loses that like and no other.
pub proof fn lemma_unlike_removes_one(tables: Tables, id: u128)
    requires
        tables.consistent(),
    ensures
        tables.without_newest_like(id).consistent(),
        tables.like_count(id) == 0 ==> tables.without_newest_like(id) == tables,
        tables.like_count(id) > 0 ==> {
            let newest = tables.newest_likes(id).first();
            &&& newest.glossary_id == id
            &&& tables.has_like(newest.id)
            &&& !tables.without_newest_like(id).has_like(newest.id)
            &&& tables.without_newest_like(id).likes.len() == tables.likes.len() - 1
            &&& forall|i: int|
                0 <= i < tables.newest_likes(id).len() ==> newest == tables.newest_likes(id)[i]
                    || newest.newer_than(#[trigger] tables.newest_likes(id)[i])
        },
{
    if tables.like_count(id) > 0 {
        let rows = tables.likes_of(id);
        let ranked = tables.newest_likes(id);
        lemma_likes_connected(tables, id);
        lemma_ranking::<LikeDB>(rows);
        let newest = ranked.first();
        assert(ranked.contains(ranked[0]));
        assert(rows.contains(newest));
        lemma_filter_members(tables.likes, like_of(id), newest);
        let p = choose|p: int| 0 <= p < tables.likes.len() && tables.likes[p] == newest;
        assert(tables.like_at(p, newest.id));
        tables.lemma_without_like(newest.id);
        assert forall|i: int| 0 <= i < ranked.len() implies newest == ranked[i]
            || newest.newer_than(#[trigger] ranked[i]) by {
            if i > 0 {
                assert(LikeDB::precedes(ranked[0], ranked[i]));
            }
        }
    }
}

/// The most-liked list holds the entries that have a like, from the most
/// liked on, as far as the limit allows: it is empty where no entry has a
/// like, and an entry that has a like is left out only where the list is
/// full and each of its entries is more popular.
pub proof fn lemma_popular_is_top(tables: Tables, limit: nat)
    requires
        tables.consistent(),
    ensures
        tables.popular(limit).len() <= limit,
        tables.likes.len() == 0 ==> tables.popular(limit).len() == 0,
        forall|i: int|
            0 <= i < tables.popular(limit).len() ==> tables.glossary.contains(
                #[trigger] tables.popular(limit)[i],
            ) && tables.like_count(tables.popular(limit)[i].id) >= 1,
        forall|i: int, j: int|
            0 <= i < j < tables.popular(limit).len() ==> tables.popularity(
                #[trigger] tables.popular(limit)[i],
            ).more_popular_than(tables.popularity(#[trigger] tables.popular(limit)[j])),
        forall|e: EntryRow|
            tables.glossary.contains(e) && tables.like_count(e.id) >= 1 && !(
            #[trigger] tables.popular(limit).contains(e)) ==> tables.popular(limit).len() == limit
                && forall|i: int|
                0 <= i < limit ==> tables.popularity(
                    #[trigger] tables.popular(limit)[i],
                ).more_popular_than(tables.popularity(e)),
{
    let kept = tables.glossary.filter(tables.is_liked());
    let liked = tables.liked();
    let ranked = tables.by_popularity();
    let top = tables.popular(limit);
    lemma_liked_connected(tables);
    lemma_ranking::<Popular>(liked);
    assert forall|k: int| 0 <= k < ranked.len() implies tables.glossary.contains(
        (#[trigger] ranked[k]).entry,
    ) && tables.like_count(ranked[k].entry.id) >= 1 && ranked[k] == tables.popularity(
        ranked[k].entry,
    ) by {
        assert(ranked.contains(ranked[k]));
        assert(liked.contains(ranked[k]));
        let p = choose|p: int| 0 <= p < liked.len() && liked[p] == ranked[k];
        assert(liked[p].entry == kept[p]);
        assert(kept.contains(kept[p]));
        lemma_filter_members(tables.glossary, tables.is_liked(), kept[p]);
    }
    if tables.likes.len() == 0 {
        if ranked.len() > 0 {
            let e = ranked[0].entry;
            assert(tables.like_count(e.id) >= 1);
            tables.likes.lemma_filter_len(like_of(e.id));
        }
    }
    assert forall|i: int| 0 <= i < top.len() implies tables.glossary.contains(#[trigger] top[i])
        && tables.like_count(top[i].id) >= 1 by {
        assert(top[i] == ranked[i].entry);
    }
    assert forall|i: int, j: int| 0 <= i < j < top.len() implies tables.popularity(
        #[trigger] top[i],
    ).more_popular_than(tables.popularity(#[trigger] top[j])) by {
        assert(top[i] == ranked[i].entry && top[j] == ranked[j].entry);
        assert(Popular::precedes(ranked[i], ranked[j]));
    }
    assert forall|e: EntryRow|
        tables.glossary.contains(e) && tables.like_count(e.id) >= 1 && !(#[trigger] top.contains(
            e,
        )) implies top.len() == limit && forall|i: int|
        0 <= i < limit ==> tables.popularity(#[trigger] top[i]).more_popular_than(
            tables.popularity(e),
        ) by {
        lemma_filter_members(tables.glossary, tables.is_liked(), e);
        let p = choose|p: int| 0 <= p < kept.len() && kept[p] == e;
        assert(liked[p] == tables.popularity(e));
        assert(liked.contains(liked[p]));
        assert(ranked.contains(tables.popularity(e)));
        let k = choose|k: int| 0 <= k < ranked.len() && ranked[k] == tables.popularity(e);
        if k < top.len() {
            assert(top[k] == e);
        }
        assert forall|i: int| 0 <= i < limit implies tables.popularity(
            #[trigger] top[i],
        ).more_popular_than(tables.popularity(e)) by {
            assert(top[i] == ranked[i].entry);
            assert(Popular::precedes(ranked[i], ranked[k]));
        }
    }
}

} // verus!
