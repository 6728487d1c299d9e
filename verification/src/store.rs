//! The store: the three tables, kept consistent with one another.

use crate::order::views;
use crate::response::{ApiError, ErrorKind};
use crate::schema::{
    entry_other_than, like_of, like_of_other, like_other_than, record_of, record_of_other,
    EntryRow, HistoryRow, LikeRow, Tables,
};
use crate::v1::glossary::GlossaryDB;
use crate::v1::glossary_history::GlossaryHistoryDB;
use crate::v1::like::LikeDB;
use vstd::prelude::*;

verus! {

/// The glossary table, the history table and the likes table.
///
/// Every store satisfies [`Tables::consistent`]: the operations that write
/// it refuse a row that would break a constraint, and removing an entry
/// removes its history and its likes with it.
pub struct Store {
    glossary: Vec<GlossaryDB>,
    history: Vec<GlossaryHistoryDB>,
    likes: Vec<LikeDB>,
}

impl View for Store {
    type V = Tables;

    closed spec fn view(&self) -> Tables {
        tables_of(self.glossary@, self.history@, self.likes@)
    }
}

/// The tables that hold the rows of three vectors.
pub open spec fn tables_of(
    glossary: Seq<GlossaryDB>,
    history: Seq<GlossaryHistoryDB>,
    likes: Seq<LikeDB>,
) -> Tables {
    Tables { glossary: views(glossary), history: views(history), likes: views(likes) }
}

/// Which rows of a table an operation is about.
#[derive(Clone, Copy)]
enum Pick {
    /// The rows that belong to an entry.
    Of(u128),
    /// The rows that belong to any other entry.
    OfOther(u128),
    /// The rows with another identifier.
    OtherThan(u128),
}

/// A row of one of the tables.
trait Row: View + Sized {
    /// Holds of the rows that `pick` is about.
    spec fn picked(pick: Pick) -> spec_fn(Self::V) -> bool;

    /// Whether `pick` is about the row.
    fn is_picked(&self, pick: Pick) -> (b: bool)
        ensures
            b == Self::picked(pick)(self@),
    ;

    /// A copy of the row.
    fn copy(&self) -> (r: Self)
        ensures
            r@ == self@,
    ;

    /// The identifier of a row.
    spec fn id_of(row: Self::V) -> u128;

    /// The row's identifier.
    fn row_id(&self) -> (id: u128)
        ensures
            id == Self::id_of(self@),
    ;
}

impl Row for GlossaryDB {
    closed spec fn picked(pick: Pick) -> spec_fn(EntryRow) -> bool {
        match pick {
            Pick::Of(id) => |e: EntryRow| e.id == id,
            Pick::OfOther(id) => entry_other_than(id),
            Pick::OtherThan(id) => entry_other_than(id),
        }
    }

    fn is_picked(&self, pick: Pick) -> (b: bool) {
        match pick {
            Pick::Of(id) => self.id == id,
            Pick::OfOther(id) => self.id != id,
            Pick::OtherThan(id) => self.id != id,
        }
    }

    fn copy(&self) -> (r: Self) {
        self.clone()
    }

    closed spec fn id_of(row: Self::V) -> u128 {
        row.id
    }

    fn row_id(&self) -> (id: u128) {
        self.id
    }
}

impl Row for GlossaryHistoryDB {
    closed spec fn picked(pick: Pick) -> spec_fn(HistoryRow) -> bool {
        match pick {
            Pick::Of(id) => record_of(id),
            Pick::OfOther(id) => record_of_other(id),
            Pick::OtherThan(id) => |h: HistoryRow| h.id != id,
        }
    }

    fn is_picked(&self, pick: Pick) -> (b: bool) {
        match pick {
            Pick::Of(id) => self.glossary_id == id,
            Pick::OfOther(id) => self.glossary_id != id,
            Pick::OtherThan(id) => self.id != id,
        }
    }

    fn copy(&self) -> (r: Self) {
        self.clone()
    }

    closed spec fn id_of(row: Self::V) -> u128 {
        row.id
    }

    fn row_id(&self) -> (id: u128) {
        self.id
    }
}

impl Row for LikeDB {
    closed spec fn picked(pick: Pick) -> spec_fn(LikeRow) -> bool {
        match pick {
            Pick::Of(id) => like_of(id),
            Pick::OfOther(id) => like_of_other(id),
            Pick::OtherThan(id) => like_other_than(id),
        }
    }

    fn is_picked(&self, pick: Pick) -> (b: bool) {
        match pick {
            Pick::Of(id) => self.glossary_id == id,
            Pick::OfOther(id) => self.glossary_id != id,
            Pick::OtherThan(id) => self.id != id,
        }
    }

    fn copy(&self) -> (r: Self) {
        self.clone()
    }

    closed spec fn id_of(row: Self::V) -> u128 {
        row.id
    }

    fn row_id(&self) -> (id: u128) {
        self.id
    }
}

/// The rows of `rows` that `pick` is about, in order.
fn select<T: Row>(rows: &Vec<T>, pick: Pick) -> (out: Vec<T>)
    ensures
        views(out@) == views(rows@).filter(T::picked(pick)),
{
    let ghost pred = T::picked(pick);
    let mut out: Vec<T> = Vec::new();
    let mut i: usize = 0;
    proof {
        reveal(Seq::filter);
        assert(views(rows@).take(0) =~= Seq::<T::V>::empty());
        assert(views(out@) =~= Seq::<T::V>::empty());
    }
    while i < rows.len()
        invariant
            i <= rows.len(),
            pred == T::picked(pick),
            views(out@) == views(rows@).take(i as int).filter(pred),
        decreases rows.len() - i,
    {
        let ghost before = views(out@);
        let row = &rows[i];
        proof {
            let all = views(rows@);
            assert(all.take(i + 1) =~= all.take(i as int).push(row@));
            all.take(i as int).lemma_filter_push(row@, pred);
        }
        if row.is_picked(pick) {
            out.push(row.copy());
            assert(views(out@) =~= before.push(row@));
        }
        i += 1;
    }
    assert(views(rows@).take(rows@.len() as int) =~= views(rows@));
    out
}

/// The index of the first row of `rows` with the identifier `id`.
fn position<T: Row>(rows: &Vec<T>, id: u128) -> (r: Option<usize>)
    ensures
        match r {
            Some(i) => i < rows@.len() && T::id_of(rows@[i as int]@) == id,
            None => forall|i: int| 0 <= i < rows@.len() ==> T::id_of(#[trigger] rows@[i]@) != id,
        },
{
    let mut i: usize = 0;
    while i < rows.len()
        invariant
            i <= rows.len(),
            forall|k: int| 0 <= k < i ==> T::id_of(#[trigger] rows@[k]@) != id,
        decreases rows.len() - i,
    {
        if rows[i].row_id() == id {
            return Some(i);
        }
        i += 1;
    }
    None
}

impl Store {
    #[verifier::type_invariant]
    spec fn well_formed(&self) -> bool {
        self@.consistent()
    }

    /// Every store is consistent: a call brings that fact into a proof.
    pub fn consistency(&self)
        ensures
            self@.consistent(),
    {
        proof {
            use_type_invariant(self);
        }
    }

    /// A store with no row.
    pub fn new() -> (s: Self)
        ensures
            s@ == Tables::empty(),
            s@.consistent(),
    {
        let s = Store { glossary: Vec::new(), history: Vec::new(), likes: Vec::new() };
        assert(s@.glossary =~= Seq::empty());
        assert(s@.history =~= Seq::empty());
        assert(s@.likes =~= Seq::empty());
        s
    }

    /// A store that holds the given rows, where they are consistent with
    /// one another; rows that are not are refused as a failure of the
    /// database.
    pub fn load(glossary: Vec<GlossaryDB>, history: Vec<GlossaryHistoryDB>, likes: Vec<LikeDB>) -> (r:
        Result<Store, ApiError>)
        ensures
            match r {
                Ok(store) => store@ == tables_of(glossary@, history@, likes@)
                    && store@.consistent(),
                Err(e) => !tables_of(glossary@, history@, likes@).consistent() && e.kind
                    == ErrorKind::DatabaseError,
            },
    {
        let ghost all = tables_of(glossary@, history@, likes@);
        let mut store = Store::new();
        let mut i: usize = 0;
        assert(all.glossary.take(0) =~= Seq::<EntryRow>::empty());
        while i < glossary.len()
            invariant
                i <= glossary.len(),
                all == tables_of(glossary@, history@, likes@),
                store@ == (Tables {
                    glossary: all.glossary.take(i as int),
                    history: Seq::empty(),
                    likes: Seq::empty(),
                }),
            decreases glossary.len() - i,
        {
            let ghost before = store@;
            let row = glossary[i].clone();
            match store.insert_entry(row) {
                Ok(_) => {
                    assert(all.glossary.take(i + 1) =~= all.glossary.take(i as int).push(
                        glossary@[i as int]@,
                    ));
                },
                Err(_) => {
                    proof {
                        if all.consistent() {
                            assert(all.glossary[i as int].valid());
                            let k = before.entry_index(row.id);
                            assert(before.entry_at(k, row.id));
                            assert(all.glossary[k].id != all.glossary[i as int].id);
                        }
                    }
                    return Err(ApiError::database_error("the glossary rows are not consistent"));
                },
            }
            i += 1;
        }
        assert(all.glossary.take(glossary@.len() as int) =~= all.glossary);
        assert(all.history.take(0) =~= Seq::<HistoryRow>::empty());
        let mut i: usize = 0;
        while i < history.len()
            invariant
                i <= history.len(),
                all == tables_of(glossary@, history@, likes@),
                store@ == (Tables {
                    glossary: all.glossary,
                    history: all.history.take(i as int),
                    likes: Seq::empty(),
                }),
            decreases history.len() - i,
        {
            let ghost before = store@;
            let row = history[i].clone();
            if store.insert_record(row) {
                assert(all.history.take(i + 1) =~= all.history.take(i as int).push(
                    history@[i as int]@,
                ));
            } else {
                proof {
                    if all.consistent() {
                        assert(all.has_entry(all.history[i as int].glossary_id));
                        let k = choose|k: int| before.record_at(k, row.id);
                        assert(before.record_at(k, row.id));
                        assert(all.history[k].id != all.history[i as int].id);
                    }
                }
                return Err(ApiError::database_error("the history rows are not consistent"));
            }
            i += 1;
        }
        assert(all.history.take(history@.len() as int) =~= all.history);
        assert(all.likes.take(0) =~= Seq::<LikeRow>::empty());
        let mut i: usize = 0;
        while i < likes.len()
            invariant
                i <= likes.len(),
                all == tables_of(glossary@, history@, likes@),
                store@ == (Tables {
                    glossary: all.glossary,
                    history: all.history,
                    likes: all.likes.take(i as int),
                }),
            decreases likes.len() - i,
        {
            let ghost before = store@;
            let row = likes[i].clone();
            match store.insert_like(row) {
                Ok(_) => {
                    assert(all.likes.take(i + 1) =~= all.likes.take(i as int).push(
                        likes@[i as int]@,
                    ));
                },
                Err(_) => {
                    proof {
                        if all.consistent() {
                            assert(all.has_entry(all.likes[i as int].glossary_id));
                            let k = before.like_index(row.id);
                            assert(before.like_at(k, row.id));
                            assert(all.likes[k].id != all.likes[i as int].id);
                        }
                    }
                    return Err(ApiError::database_error("the likes rows are not consistent"));
                },
            }
            i += 1;
        }
        assert(all.likes.take(likes@.len() as int) =~= all.likes);
        store.consistency();
        Ok(store)
    }

    /// Whether the glossary table holds an entry `id`.
    pub fn has_entry(&self, id: u128) -> (b: bool)
        ensures
            b == self@.has_entry(id),
    {
        let found = position(&self.glossary, id);
        proof {
            match found {
                Some(i) => { assert(self@.entry_at(i as int, id)); },
                None => {
                    if self@.has_entry(id) {
                        let i = self@.entry_index(id);
                        assert(self@.entry_at(i, id));
                        assert(GlossaryDB::id_of(self.glossary@[i]@) != id);
                    }
                },
            }
        }
        found.is_some()
    }

    /// Whether the history table holds a record `id`.
    pub fn has_record(&self, id: u128) -> (b: bool)
        ensures
            b == self@.has_record(id),
    {
        let found = position(&self.history, id);
        proof {
            match found {
                Some(i) => { assert(self@.record_at(i as int, id)); },
                None => {
                    if self@.has_record(id) {
                        let i = choose|i: int| self@.record_at(i, id);
                        assert(self@.record_at(i, id));
                        assert(GlossaryHistoryDB::id_of(self.history@[i]@) != id);
                    }
                },
            }
        }
        found.is_some()
    }

    /// Whether the likes table holds a like `id`.
    pub fn has_like(&self, id: u128) -> (b: bool)
        ensures
            b == self@.has_like(id),
    {
        let found = position(&self.likes, id);
        proof {
            match found {
                Some(i) => { assert(self@.like_at(i as int, id)); },
                None => {
                    if self@.has_like(id) {
                        let i = self@.like_index(id);
                        assert(self@.like_at(i, id));
                        assert(LikeDB::id_of(self.likes@[i]@) != id);
                    }
                },
            }
        }
        found.is_some()
    }

    /// The entry `id`, where the glossary table holds one.
    pub fn get(&self, id: u128) -> (r: Option<GlossaryDB>)
        ensures
            self@.consistent(),
            r is Some <==> self@.has_entry(id),
            r matches Some(row) ==> row@ == self@.entry(id),
    {
        proof {
            use_type_invariant(self);
        }
        match position(&self.glossary, id) {
            Some(i) => {
                proof {
                    assert(self@.entry_at(i as int, id));
                    self@.lemma_entry_at(i as int, id);
                }
                Some(self.glossary[i].clone())
            },
            None => {
                proof {
                    if self@.has_entry(id) {
                        let i = self@.entry_index(id);
                        assert(self@.entry_at(i, id));
                        assert(GlossaryDB::id_of(self.glossary@[i]@) != id);
                    }
                }
                None
            },
        }
    }

    /// Takes the three tables out of the store, which is left empty.
    fn take(&mut self) -> (t: (Vec<GlossaryDB>, Vec<GlossaryHistoryDB>, Vec<LikeDB>))
        ensures
            old(self)@.consistent(),
            old(self)@ == tables_of(t.0@, t.1@, t.2@),
            final(self).glossary@.len() == 0,
            final(self).history@.len() == 0,
            final(self).likes@.len() == 0,
    {
        proof {
            use_type_invariant(&*self);
            self@.lemma_fewer_tables();
        }
        let mut glossary: Vec<GlossaryDB> = Vec::new();
        let mut history: Vec<GlossaryHistoryDB> = Vec::new();
        let mut likes: Vec<LikeDB> = Vec::new();
        assert(views(likes@) =~= Seq::<LikeRow>::empty());
        assert(views(history@) =~= Seq::<HistoryRow>::empty());
        assert(views(glossary@) =~= Seq::<EntryRow>::empty());
        core::mem::swap(&mut self.likes, &mut likes);
        core::mem::swap(&mut self.history, &mut history);
        core::mem::swap(&mut self.glossary, &mut glossary);
        (glossary, history, likes)
    }

    /// Puts three tables into the store, which holds none.
    fn put(&mut self, glossary: Vec<GlossaryDB>, history: Vec<GlossaryHistoryDB>, likes: Vec<LikeDB>)
        requires
            old(self).glossary@.len() == 0,
            old(self).history@.len() == 0,
            old(self).likes@.len() == 0,
            tables_of(glossary@, history@, likes@).consistent(),
        ensures
            final(self)@ == tables_of(glossary@, history@, likes@),
    {
        proof {
            tables_of(glossary@, history@, likes@).lemma_fewer_tables();
            assert(views(self.likes@) =~= Seq::<LikeRow>::empty());
            assert(views(self.history@) =~= Seq::<HistoryRow>::empty());
        }
        self.glossary = glossary;
        self.history = history;
        self.likes = likes;
    }

    /// Inserts `row` into the glossary table. A row that is not valid is
    /// refused as invalid input, and one whose identifier is taken as a
    /// conflict; the store is then left as it was.
    pub fn insert_entry(&mut self, row: GlossaryDB) -> (r: Result<(), ApiError>)
        ensures
            old(self)@.consistent(),
            final(self)@.consistent(),
            match r {
                Ok(_) => {
                    &&& row@.valid()
                    &&& !old(self)@.has_entry(row.id)
                    &&& final(self)@ == old(self)@.with_entry(row@)
                },
                Err(e) => {
                    &&& final(self)@ == old(self)@
                    &&& e.kind == if !row@.valid() {
                        ErrorKind::InvalidInput
                    } else {
                        ErrorKind::Conflict
                    }
                    &&& !row@.valid() || old(self)@.has_entry(row.id)
                },
            },
    {
        proof {
            use_type_invariant(&*self);
        }
        if !row.is_valid() {
            return Err(ApiError::invalid_input("the entry is not valid"));
        }
        if self.has_entry(row.id) {
            return Err(ApiError::conflict("an entry with this identifier exists"));
        }
        let (mut glossary, history, likes) = self.take();
        proof {
            old(self)@.lemma_with_entry(row@);
            assert(views(glossary@.push(row)) =~= views(glossary@).push(row@));
        }
        glossary.push(row);
        self.put(glossary, history, likes);
        Ok(())
    }

    /// Puts `row` in the place of the entry with its identifier. Where there
    /// is no such entry nothing is found, and a row that is not valid is
    /// refused as invalid input; the store is then left as it was.
    pub fn replace_entry(&mut self, row: GlossaryDB) -> (r: Result<(), ApiError>)
        ensures
            old(self)@.consistent(),
            final(self)@.consistent(),
            match r {
                Ok(_) => {
                    &&& row@.valid()
                    &&& old(self)@.has_entry(row.id)
                    &&& final(self)@ == old(self)@.with_entry_replaced(row@)
                },
                Err(e) => {
                    &&& final(self)@ == old(self)@
                    &&& e.kind == if !old(self)@.has_entry(row.id) {
                        ErrorKind::NotFound
                    } else {
                        ErrorKind::InvalidInput
                    }
                    &&& !old(self)@.has_entry(row.id) || !row@.valid()
                },
            },
    {
        proof {
            use_type_invariant(&*self);
        }
        let found = position(&self.glossary, row.id);
        match found {
            None => {
                proof {
                    if self@.has_entry(row.id) {
                        let i = self@.entry_index(row.id);
                        assert(self@.entry_at(i, row.id));
                        assert(GlossaryDB::id_of(self.glossary@[i]@) != row.id);
                    }
                }
                Err(ApiError::not_found("no entry with this identifier"))
            },
            Some(i) => {
                proof {
                    assert(self@.entry_at(i as int, row.id));
                    self@.lemma_entry_at(i as int, row.id);
                }
                if !row.is_valid() {
                    return Err(ApiError::invalid_input("the entry is not valid"));
                }
                let (mut glossary, history, likes) = self.take();
                proof {
                    old(self)@.lemma_with_entry_replaced(row@);
                    assert(views(glossary@.update(i as int, row)) =~= views(glossary@).update(
                        i as int,
                        row@,
                    ));
                }
                glossary.set(i, row);
                self.put(glossary, history, likes);
                Ok(())
            },
        }
    }

    /// Removes the entry `id` with its history and its likes, and says how
    /// many entries were removed: one or none.
    pub fn remove_entry(&mut self, id: u128) -> (n: usize)
        ensures
            old(self)@.consistent(),
            final(self)@.consistent(),
            final(self)@ == old(self)@.without_entry(id),
            n == if old(self)@.has_entry(id) { 1usize } else { 0usize },
    {
        let (glossary, history, likes) = self.take();
        proof {
            old(self)@.lemma_without_entry(id);
            views(glossary@).lemma_filter_len(entry_other_than(id));
        }
        let kept = select(&glossary, Pick::OtherThan(id));
        let kept_history = select(&history, Pick::OfOther(id));
        let kept_likes = select(&likes, Pick::OfOther(id));
        assert(views(kept@).len() == kept@.len());
        let n = glossary.len() - kept.len();
        self.put(kept, kept_history, kept_likes);
        n
    }

    /// Appends `row` to the history table, and says whether the table took
    /// it: a row whose identifier is taken, or whose entry does not exist,
    /// is dropped.
    pub fn insert_record(&mut self, row: GlossaryHistoryDB) -> (taken: bool)
        ensures
            old(self)@.consistent(),
            final(self)@.consistent(),
            final(self)@ == old(self)@.with_record(row@),
            taken == old(self)@.takes_record(row@),
    {
        proof {
            use_type_invariant(&*self);
        }
        if self.has_record(row.id) || !self.has_entry(row.glossary_id) {
            return false;
        }
        let (glossary, mut history, likes) = self.take();
        proof {
            old(self)@.lemma_with_record(row@);
            assert(views(history@.push(row)) =~= views(history@).push(row@));
        }
        history.push(row);
        self.put(glossary, history, likes);
        true
    }

    /// Inserts `row` into the likes table. A like for an entry that does not
    /// exist, or under an identifier that is taken, is refused as a
    /// conflict; the store is then left as it was.
    pub fn insert_like(&mut self, row: LikeDB) -> (r: Result<(), ApiError>)
        ensures
            old(self)@.consistent(),
            final(self)@.consistent(),
            match r {
                Ok(_) => {
                    &&& old(self)@.has_entry(row.glossary_id)
                    &&& !old(self)@.has_like(row.id)
                    &&& final(self)@ == old(self)@.with_like(row@)
                },
                Err(e) => {
                    &&& final(self)@ == old(self)@
                    &&& e.kind == ErrorKind::Conflict
                    &&& !old(self)@.has_entry(row.glossary_id) || old(self)@.has_like(row.id)
                },
            },
    {
        proof {
            use_type_invariant(&*self);
        }
        if !self.has_entry(row.glossary_id) {
            return Err(ApiError::conflict("the like refers to an entry that does not exist"));
        }
        if self.has_like(row.id) {
            return Err(ApiError::conflict("a like with this identifier exists"));
        }
        let (glossary, history, mut likes) = self.take();
        proof {
            old(self)@.lemma_with_like(row@);
            assert(views(likes@.push(row)) =~= views(likes@).push(row@));
        }
        likes.push(row);
        self.put(glossary, history, likes);
        Ok(())
    }

    /// Removes the like `id`, and says how many likes were removed: one or
    /// none.
    pub fn remove_like(&mut self, id: u128) -> (n: usize)
        ensures
            old(self)@.consistent(),
            final(self)@.consistent(),
            final(self)@ == old(self)@.without_like(id),
            n == if old(self)@.has_like(id) { 1usize } else { 0usize },
    {
        let (glossary, history, likes) = self.take();
        proof {
            old(self)@.lemma_without_like(id);
            views(likes@).lemma_filter_len(like_other_than(id));
        }
        let kept = select(&likes, Pick::OtherThan(id));
        assert(views(kept@).len() == kept@.len());
        let n = likes.len() - kept.len();
        self.put(glossary, history, kept);
        n
    }

    /// The rows of the glossary table, in table order.
    pub fn entries(&self) -> (rows: Vec<GlossaryDB>)
        ensures
            views(rows@) == self@.glossary,
            self@.consistent(),
    {
        proof {
            use_type_invariant(self);
        }
        let rows = self.glossary.clone();
        assert(views(rows@) =~= views(self.glossary@));
        rows
    }

    /// The rows of the history table, in table order.
    pub fn records(&self) -> (rows: Vec<GlossaryHistoryDB>)
        ensures
            views(rows@) == self@.history,
            self@.consistent(),
    {
        proof {
            use_type_invariant(self);
        }
        let rows = self.history.clone();
        assert(views(rows@) =~= views(self.history@));
        rows
    }

    /// The rows of the likes table, in table order.
    pub fn likes(&self) -> (rows: Vec<LikeDB>)
        ensures
            views(rows@) == self@.likes,
            self@.consistent(),
    {
        proof {
            use_type_invariant(self);
        }
        let rows = self.likes.clone();
        assert(views(rows@) =~= views(self.likes@));
        rows
    }

    /// The likes of the entry `id`, in table order.
    pub fn likes_of(&self, id: u128) -> (rows: Vec<LikeDB>)
        ensures
            views(rows@) == self@.likes_of(id),
            self@.consistent(),
    {
        proof {
            use_type_invariant(self);
        }
        select(&self.likes, Pick::Of(id))
    }

    /// The history of the entry `id`, in table order.
    pub fn history_of(&self, id: u128) -> (rows: Vec<GlossaryHistoryDB>)
        ensures
            views(rows@) == self@.history_of(id),
            self@.consistent(),
    {
        proof {
            use_type_invariant(self);
        }
        select(&self.history, Pick::Of(id))
    }
}

} // verus!
