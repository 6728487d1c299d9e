//! The three tables as mathematical values: glossary entries, their
//! revision history and their likes, with the constraints between them.

use vstd::prelude::*;

verus! {

/// A row of the glossary table.
pub struct EntryRow {
    pub id: u128,
    pub term: Seq<char>,
    pub definition: Seq<char>,
    pub revision: i32,
    pub created_at: i64,
    pub updated_at: i64,
}

/// A row of the history table: what an entry held after one write.
pub struct HistoryRow {
    pub id: u128,
    pub term: Seq<char>,
    pub definition: Seq<char>,
    pub revision: i32,
    pub who: Option<Seq<char>>,
    pub created_at: i64,
    pub glossary_id: u128,
}

/// A row of the likes table.
pub struct LikeRow {
    pub id: u128,
    pub created_at: i64,
    pub glossary_id: u128,
    pub who: Option<Seq<char>>,
}

/// The longest term, in characters.
pub const MAX_TERM_LEN: usize = 255;

/// Whether `term` is a term that an entry may hold: not empty and at most
/// [`MAX_TERM_LEN`] characters.
pub open spec fn valid_term(term: Seq<char>) -> bool {
    1 <= term.len() <= MAX_TERM_LEN
}

/// Whether `definition` is a definition that an entry may hold: not empty.
pub open spec fn valid_definition(definition: Seq<char>) -> bool {
    definition.len() >= 1
}

impl EntryRow {
    /// Whether the row may stand in the glossary table.
    pub open spec fn valid(self) -> bool {
        &&& valid_term(self.term)
        &&& valid_definition(self.definition)
        &&& self.revision >= 0
    }
}

/// Holds of the entries other than `id`.
pub open spec fn entry_other_than(id: u128) -> spec_fn(EntryRow) -> bool {
    |e: EntryRow| e.id != id
}

/// Holds of the history records of the entry `id`.
pub open spec fn record_of(id: u128) -> spec_fn(HistoryRow) -> bool {
    |h: HistoryRow| h.glossary_id == id
}

/// Holds of the history records of entries other than `id`.
pub open spec fn record_of_other(id: u128) -> spec_fn(HistoryRow) -> bool {
    |h: HistoryRow| h.glossary_id != id
}

/// Holds of the likes of the entry `id`.
pub open spec fn like_of(id: u128) -> spec_fn(LikeRow) -> bool {
    |l: LikeRow| l.glossary_id == id
}

/// Holds of the likes of entries other than `id`.
pub open spec fn like_of_other(id: u128) -> spec_fn(LikeRow) -> bool {
    |l: LikeRow| l.glossary_id != id
}

/// Holds of the likes other than `id`.
pub open spec fn like_other_than(id: u128) -> spec_fn(LikeRow) -> bool {
    |l: LikeRow| l.id != id
}

/// Whether row `i` of `glossary` has the identifier `id`.
pub open spec fn holds_entry(glossary: Seq<EntryRow>, i: int, id: u128) -> bool {
    0 <= i < glossary.len() && glossary[i].id == id
}

/// Whether row `i` of `history` has the identifier `id`.
pub open spec fn holds_record(history: Seq<HistoryRow>, i: int, id: u128) -> bool {
    0 <= i < history.len() && history[i].id == id
}

/// Whether row `i` of `likes` has the identifier `id`.
pub open spec fn holds_like(likes: Seq<LikeRow>, i: int, id: u128) -> bool {
    0 <= i < likes.len() && likes[i].id == id
}

/// The contents of the three tables, each in the order in which its rows
/// were inserted.
pub struct Tables {
    pub glossary: Seq<EntryRow>,
    pub history: Seq<HistoryRow>,
    pub likes: Seq<LikeRow>,
}

impl Tables {
    /// The tables with no row.
    pub open spec fn empty() -> Tables {
        Tables { glossary: Seq::empty(), history: Seq::empty(), likes: Seq::empty() }
    }

    /// Whether row `i` of the glossary table has the identifier `id`.
    pub open spec fn entry_at(self, i: int, id: u128) -> bool {
        holds_entry(self.glossary, i, id)
    }

    /// Whether row `i` of the history table has the identifier `id`.
    pub open spec fn record_at(self, i: int, id: u128) -> bool {
        holds_record(self.history, i, id)
    }

    /// Whether row `i` of the likes table has the identifier `id`.
    pub open spec fn like_at(self, i: int, id: u128) -> bool {
        holds_like(self.likes, i, id)
    }

    /// Whether the glossary table holds an entry `id`.
    pub open spec fn has_entry(self, id: u128) -> bool {
        exists|i: int| holds_entry(self.glossary, i, id)
    }

    /// Whether the history table holds a record `id`.
    pub open spec fn has_record(self, id: u128) -> bool {
        exists|i: int| holds_record(self.history, i, id)
    }

    /// Whether the likes table holds a like `id`.
    pub open spec fn has_like(self, id: u128) -> bool {
        exists|i: int| holds_like(self.likes, i, id)
    }

    /// Where the entry `id` stands in the glossary table.
    pub open spec fn entry_index(self, id: u128) -> int {
        choose|i: int| holds_entry(self.glossary, i, id)
    }

    /// The entry `id`.
    pub open spec fn entry(self, id: u128) -> EntryRow {
        self.glossary[self.entry_index(id)]
    }

    /// Where the like `id` stands in the likes table.
    pub open spec fn like_index(self, id: u128) -> int {
        choose|i: int| holds_like(self.likes, i, id)
    }

    /// What every state of the tables satisfies: an identifier names one row
    /// of its table at most, every entry is valid, and every history record
    /// and every like refers to an entry that exists.
    pub open spec fn consistent(self) -> bool {
        &&& forall|i: int, j: int|
            0 <= i < j < self.glossary.len() ==> (#[trigger] self.glossary[i]).id
                != (#[trigger] self.glossary[j]).id
        &&& forall|i: int, j: int|
            0 <= i < j < self.history.len() ==> (#[trigger] self.history[i]).id
                != (#[trigger] self.history[j]).id
        &&& forall|i: int, j: int|
            0 <= i < j < self.likes.len() ==> (#[trigger] self.likes[i]).id
                != (#[trigger] self.likes[j]).id
        &&& forall|i: int| 0 <= i < self.glossary.len() ==> (#[trigger] self.glossary[i]).valid()
        &&& forall|i: int|
            0 <= i < self.history.len() ==> self.has_entry((#[trigger] self.history[i]).glossary_id)
        &&& forall|i: int|
            0 <= i < self.likes.len() ==> self.has_entry((#[trigger] self.likes[i]).glossary_id)
    }

    /// The tables after `row` was inserted into the glossary table.
    pub open spec fn with_entry(self, row: EntryRow) -> Tables {
        Tables { glossary: self.glossary.push(row), ..self }
    }

    /// The tables after `row` took the place of the entry with its
    /// identifier.
    pub open spec fn with_entry_replaced(self, row: EntryRow) -> Tables {
        Tables { glossary: self.glossary.update(self.entry_index(row.id), row), ..self }
    }

    /// Whether the history table takes `row`: its identifier is new and its
    /// entry exists.
    pub open spec fn takes_record(self, row: HistoryRow) -> bool {
        !self.has_record(row.id) && self.has_entry(row.glossary_id)
    }

    /// The tables after an attempt to append `row` to the history: a row
    /// that the table does not take is dropped.
    pub open spec fn with_record(self, row: HistoryRow) -> Tables {
        if self.takes_record(row) {
            Tables { history: self.history.push(row), ..self }
        } else {
            self
        }
    }

    /// The tables after `row` was inserted into the likes table.
    pub open spec fn with_like(self, row: LikeRow) -> Tables {
        Tables { likes: self.likes.push(row), ..self }
    }

    /// The tables after the like `id` was removed.
    pub open spec fn without_like(self, id: u128) -> Tables {
        Tables { likes: self.likes.filter(like_other_than(id)), ..self }
    }

    /// The tables after the entry `id` was removed, and with it its history
    /// and its likes.
    pub open spec fn without_entry(self, id: u128) -> Tables {
        Tables {
            glossary: self.glossary.filter(entry_other_than(id)),
            history: self.history.filter(record_of_other(id)),
            likes: self.likes.filter(like_of_other(id)),
        }
    }

    /// The likes of the entry `id`, in table order.
    pub open spec fn likes_of(self, id: u128) -> Seq<LikeRow> {
        self.likes.filter(like_of(id))
    }

    /// The history of the entry `id`, in table order.
    pub open spec fn history_of(self, id: u128) -> Seq<HistoryRow> {
        self.history.filter(record_of(id))
    }

    /// How many likes the entry `id` has.
    pub open spec fn like_count(self, id: u128) -> nat {
        self.likes_of(id).len()
    }
}

impl Tables {
    /// In consistent tables an identifier names one entry at most: the entry
    /// `id` is the row at any index that holds it.
    pub proof fn lemma_entry_at(self, i: int, id: u128)
        requires
            self.consistent(),
            self.entry_at(i, id),
        ensures
            self.has_entry(id),
            self.entry_index(id) == i,
            self.entry(id) == self.glossary[i],
    {
        let j = self.entry_index(id);
        assert(self.entry_at(j, id));
        if i < j {
            assert(self.glossary[i].id != self.glossary[j].id);
        } else if j < i {
            assert(self.glossary[j].id != self.glossary[i].id);
        }
    }

    /// Consistent tables stay consistent without their likes, and without
    /// their history and likes.
    pub proof fn lemma_fewer_tables(self)
        requires
            self.consistent(),
        ensures
            (Tables { likes: Seq::empty(), ..self }).consistent(),
            (Tables { history: Seq::empty(), likes: Seq::empty(), ..self }).consistent(),
    {
        let a = Tables { likes: Seq::empty(), ..self };
        let b = Tables { history: Seq::empty(), likes: Seq::empty(), ..self };
        assert forall|id: u128| self.has_entry(id) implies #[trigger] a.has_entry(id) by {
            let i = self.entry_index(id);
            assert(self.entry_at(i, id));
            assert(a.entry_at(i, id));
        }
        assert forall|i: int| 0 <= i < a.history.len() implies a.has_entry(
            (#[trigger] a.history[i]).glossary_id,
        ) by {
            assert(self.has_entry(self.history[i].glossary_id));
        }
    }

    /// Inserting a valid entry under a new identifier keeps the tables
    /// consistent, adds that entry and leaves the others as they were.
    pub proof fn lemma_with_entry(self, row: EntryRow)
        requires
            self.consistent(),
            row.valid(),
            !self.has_entry(row.id),
        ensures
            self.with_entry(row).consistent(),
            self.with_entry(row).has_entry(row.id),
            self.with_entry(row).entry(row.id) == row,
            forall|id: u128|
                id != row.id ==> (#[trigger] self.with_entry(row).has_entry(id)
                    == self.has_entry(id)),
            forall|id: u128| #[trigger]
                self.has_entry(id) ==> self.with_entry(row).entry(id) == self.entry(id),
    {
        let next = self.with_entry(row);
        let n = self.glossary.len() as int;
        assert(next.entry_at(n, row.id));
        assert forall|i: int, j: int| 0 <= i < j < next.glossary.len() implies (
        #[trigger] next.glossary[i]).id != (#[trigger] next.glossary[j]).id by {
            if j == n {
                if next.glossary[i].id == row.id {
                    assert(self.entry_at(i, row.id));
                }
            } else {
                assert(self.glossary[i].id != self.glossary[j].id);
            }
        }
        assert forall|id: u128| self.has_entry(id) implies #[trigger] next.has_entry(id) by {
            let i = self.entry_index(id);
            assert(self.entry_at(i, id));
            assert(next.entry_at(i, id));
        }
        assert forall|i: int| 0 <= i < next.history.len() implies next.has_entry(
            (#[trigger] next.history[i]).glossary_id,
        ) by {
            assert(self.has_entry(self.history[i].glossary_id));
        }
        assert forall|i: int| 0 <= i < next.likes.len() implies next.has_entry(
            (#[trigger] next.likes[i]).glossary_id,
        ) by {
            assert(self.has_entry(self.likes[i].glossary_id));
        }
        assert forall|i: int| 0 <= i < next.glossary.len() implies (
        #[trigger] next.glossary[i]).valid() by {
            if i < n {
                assert(self.glossary[i].valid());
            }
        }
        assert(next.consistent());
        next.lemma_entry_at(n, row.id);
        assert forall|id: u128| id != row.id implies (#[trigger] next.has_entry(id)
            == self.has_entry(id)) by {
            if next.has_entry(id) {
                let i = next.entry_index(id);
                assert(next.entry_at(i, id));
                assert(self.entry_at(i, id));
            }
        }
        assert forall|id: u128| #[trigger] self.has_entry(id) implies next.entry(id)
            == self.entry(id) by {
            let i = self.entry_index(id);
            assert(self.entry_at(i, id));
            assert(next.entry_at(i, id));
            next.lemma_entry_at(i, id);
        }
    }

    /// Putting a valid row in the place of the entry with its identifier
    /// keeps the tables consistent, changes that entry and no other.
    pub proof fn lemma_with_entry_replaced(self, row: EntryRow)
        requires
            self.consistent(),
            row.valid(),
            self.has_entry(row.id),
        ensures
            self.with_entry_replaced(row).consistent(),
            self.with_entry_replaced(row).has_entry(row.id),
            self.with_entry_replaced(row).entry(row.id) == row,
            forall|id: u128| #[trigger]
                self.with_entry_replaced(row).has_entry(id) == self.has_entry(id),
            forall|id: u128|
                id != row.id && #[trigger] self.has_entry(id) ==> self.with_entry_replaced(
                    row,
                ).entry(id) == self.entry(id),
    {
        let next = self.with_entry_replaced(row);
        let k = self.entry_index(row.id);
        assert(self.entry_at(k, row.id));
        assert(next.entry_at(k, row.id));
        assert forall|i: int| 0 <= i < next.glossary.len() implies (#[trigger] next.glossary[i]).id
            == self.glossary[i].id by {}
        assert forall|i: int, j: int| 0 <= i < j < next.glossary.len() implies (
        #[trigger] next.glossary[i]).id != (#[trigger] next.glossary[j]).id by {
            assert(self.glossary[i].id != self.glossary[j].id);
        }
        assert forall|id: u128| #[trigger] next.has_entry(id) == self.has_entry(id) by {
            if self.has_entry(id) {
                let i = self.entry_index(id);
                assert(self.entry_at(i, id));
                assert(next.entry_at(i, id));
            }
            if next.has_entry(id) {
                let i = next.entry_index(id);
                assert(next.entry_at(i, id));
                assert(self.entry_at(i, id));
            }
        }
        assert forall|i: int| 0 <= i < next.history.len() implies next.has_entry(
            (#[trigger] next.history[i]).glossary_id,
        ) by {
            assert(self.has_entry(self.history[i].glossary_id));
        }
        assert forall|i: int| 0 <= i < next.likes.len() implies next.has_entry(
            (#[trigger] next.likes[i]).glossary_id,
        ) by {
            assert(self.has_entry(self.likes[i].glossary_id));
        }
        assert forall|i: int| 0 <= i < next.glossary.len() implies (
        #[trigger] next.glossary[i]).valid() by {
            if i != k {
                assert(self.glossary[i].valid());
            }
        }
        assert(next.consistent());
        next.lemma_entry_at(k, row.id);
        assert forall|id: u128| id != row.id && #[trigger] self.has_entry(id) implies next.entry(
            id,
        ) == self.entry(id) by {
            let i = self.entry_index(id);
            assert(self.entry_at(i, id));
            assert(next.entry_at(i, id));
            next.lemma_entry_at(i, id);
        }
    }

    /// An attempt to append a history record keeps the tables consistent
    /// and leaves the glossary and the likes as they were.
    pub proof fn lemma_with_record(self, row: HistoryRow)
        requires
            self.consistent(),
        ensures
            self.with_record(row).consistent(),
            self.with_record(row).glossary == self.glossary,
            self.with_record(row).likes == self.likes,
    {
        let next = self.with_record(row);
        if self.takes_record(row) {
            let n = self.history.len() as int;
            assert forall|i: int, j: int| 0 <= i < j < next.history.len() implies (
            #[trigger] next.history[i]).id != (#[trigger] next.history[j]).id by {
                if j == n {
                    if next.history[i].id == row.id {
                        assert(self.record_at(i, row.id));
                    }
                } else {
                    assert(self.history[i].id != self.history[j].id);
                }
            }
            assert forall|id: u128| self.has_entry(id) implies #[trigger] next.has_entry(id) by {
                let i = self.entry_index(id);
                assert(self.entry_at(i, id));
                assert(next.entry_at(i, id));
            }
            assert forall|i: int| 0 <= i < next.history.len() implies next.has_entry(
                (#[trigger] next.history[i]).glossary_id,
            ) by {
                if i < n {
                    assert(self.has_entry(self.history[i].glossary_id));
                }
            }
            assert forall|i: int| 0 <= i < next.likes.len() implies next.has_entry(
                (#[trigger] next.likes[i]).glossary_id,
            ) by {
                assert(self.has_entry(self.likes[i].glossary_id));
            }
        }
    }

    /// Inserting a like with a new identifier for an entry that exists
    /// keeps the tables consistent and leaves the glossary and the history
    /// as they were.
    pub proof fn lemma_with_like(self, row: LikeRow)
        requires
            self.consistent(),
            self.has_entry(row.glossary_id),
            !self.has_like(row.id),
        ensures
            self.with_like(row).consistent(),
            self.with_like(row).has_like(row.id),
    {
        let next = self.with_like(row);
        let n = self.likes.len() as int;
        assert(next.like_at(n, row.id));
        assert forall|i: int, j: int| 0 <= i < j < next.likes.len() implies (
        #[trigger] next.likes[i]).id != (#[trigger] next.likes[j]).id by {
            if j == n {
                if next.likes[i].id == row.id {
                    assert(self.like_at(i, row.id));
                }
            } else {
                assert(self.likes[i].id != self.likes[j].id);
            }
        }
        assert forall|id: u128| self.has_entry(id) implies #[trigger] next.has_entry(id) by {
            let i = self.entry_index(id);
            assert(self.entry_at(i, id));
            assert(next.entry_at(i, id));
        }
        assert forall|i: int| 0 <= i < next.history.len() implies next.has_entry(
            (#[trigger] next.history[i]).glossary_id,
        ) by {
            assert(self.has_entry(self.history[i].glossary_id));
        }
        assert forall|i: int| 0 <= i < next.likes.len() implies next.has_entry(
            (#[trigger] next.likes[i]).glossary_id,
        ) by {
            if i < n {
                assert(self.has_entry(self.likes[i].glossary_id));
            }
        }
    }

    /// Removing a like keeps the tables consistent; afterwards no like has
    /// its identifier.
    pub proof fn lemma_without_like(self, id: u128)
        requires
            self.consistent(),
        ensures
            self.without_like(id).consistent(),
            !self.without_like(id).has_like(id),
            !self.has_like(id) ==> self.without_like(id) == self,
            self.has_like(id) ==> self.without_like(id).likes.len() == self.likes.len() - 1,
    {
        let next = self.without_like(id);
        let idx = lemma_filter_indices(self.likes, like_other_than(id));
        assert forall|i: int, j: int| 0 <= i < j < next.likes.len() implies (
        #[trigger] next.likes[i]).id != (#[trigger] next.likes[j]).id by {
            assert(idx[i] < idx[j]);
            assert(self.likes[idx[i]].id != self.likes[idx[j]].id);
        }
        assert forall|g: u128| self.has_entry(g) implies #[trigger] next.has_entry(g) by {
            let i = self.entry_index(g);
            assert(self.entry_at(i, g));
            assert(next.entry_at(i, g));
        }
        assert forall|i: int| 0 <= i < next.likes.len() implies next.has_entry(
            (#[trigger] next.likes[i]).glossary_id,
        ) by {
            assert(next.likes[i] == self.likes[idx[i]]);
            assert(self.has_entry(self.likes[idx[i]].glossary_id));
        }
        assert forall|i: int| 0 <= i < next.history.len() implies next.has_entry(
            (#[trigger] next.history[i]).glossary_id,
        ) by {
            assert(self.has_entry(self.history[i].glossary_id));
        }
        if next.has_like(id) {
            let i = next.like_index(id);
            assert(next.like_at(i, id));
            self.likes.lemma_filter_pred(like_other_than(id), i);
        }
        if !self.has_like(id) {
            assert forall|i: int| 0 <= i < self.likes.len() implies like_other_than(id)(
                #[trigger] self.likes[i],
            ) by {
                if self.likes[i].id == id {
                    assert(self.like_at(i, id));
                }
            }
            lemma_filter_all(self.likes, like_other_than(id));
        } else {
            let k = self.like_index(id);
            assert(self.like_at(k, id));
            lemma_filter_one_out(self.likes, like_other_than(id), k);
        }
    }

    /// Removing an entry with its history and its likes keeps the tables
    /// consistent; afterwards no entry has its identifier.
    pub proof fn lemma_without_entry(self, id: u128)
        requires
            self.consistent(),
        ensures
            self.without_entry(id).consistent(),
            !self.without_entry(id).has_entry(id),
            !self.has_entry(id) ==> self.without_entry(id) == self,
            self.has_entry(id) ==> self.without_entry(id).glossary.len() == self.glossary.len()
                - 1,
            forall|other: u128|
                other != id ==> (#[trigger] self.without_entry(id).has_entry(other)
                    == self.has_entry(other)),
            forall|other: u128|
                other != id && #[trigger] self.has_entry(other) ==> self.without_entry(id).entry(
                    other,
                ) == self.entry(other),
    {
        let next = self.without_entry(id);
        let gi = lemma_filter_indices(self.glossary, entry_other_than(id));
        let hi = lemma_filter_indices(self.history, record_of_other(id));
        let li = lemma_filter_indices(self.likes, like_of_other(id));
        assert forall|i: int, j: int| 0 <= i < j < next.glossary.len() implies (
        #[trigger] next.glossary[i]).id != (#[trigger] next.glossary[j]).id by {
            assert(gi[i] < gi[j]);
            assert(self.glossary[gi[i]].id != self.glossary[gi[j]].id);
        }
        assert forall|i: int, j: int| 0 <= i < j < next.history.len() implies (
        #[trigger] next.history[i]).id != (#[trigger] next.history[j]).id by {
            assert(hi[i] < hi[j]);
            assert(self.history[hi[i]].id != self.history[hi[j]].id);
        }
        assert forall|i: int, j: int| 0 <= i < j < next.likes.len() implies (
        #[trigger] next.likes[i]).id != (#[trigger] next.likes[j]).id by {
            assert(li[i] < li[j]);
            assert(self.likes[li[i]].id != self.likes[li[j]].id);
        }
        assert forall|i: int| 0 <= i < next.glossary.len() implies (
        #[trigger] next.glossary[i]).valid() by {
            assert(next.glossary[i] == self.glossary[gi[i]]);
            assert(self.glossary[gi[i]].valid());
        }
        assert forall|other: u128| other != id && self.has_entry(other) implies (
        #[trigger] next.has_entry(other)) by {
            let i = self.entry_index(other);
            assert(self.entry_at(i, other));
            self.glossary.lemma_filter_contains(entry_other_than(id), i);
            let j = choose|j: int|
                0 <= j < next.glossary.len() && next.glossary[j] == self.glossary[i];
            assert(next.entry_at(j, other));
        }
        assert forall|i: int| 0 <= i < next.history.len() implies next.has_entry(
            (#[trigger] next.history[i]).glossary_id,
        ) by {
            assert(next.history[i] == self.history[hi[i]]);
            self.history.lemma_filter_pred(record_of_other(id), i);
            assert(self.has_entry(self.history[hi[i]].glossary_id));
        }
        assert forall|i: int| 0 <= i < next.likes.len() implies next.has_entry(
            (#[trigger] next.likes[i]).glossary_id,
        ) by {
            assert(next.likes[i] == self.likes[li[i]]);
            self.likes.lemma_filter_pred(like_of_other(id), i);
            assert(self.has_entry(self.likes[li[i]].glossary_id));
        }
        assert(next.consistent());
        if next.has_entry(id) {
            let i = next.entry_index(id);
            assert(next.entry_at(i, id));
            self.glossary.lemma_filter_pred(entry_other_than(id), i);
        }
        assert forall|other: u128| other != id implies (#[trigger] next.has_entry(other)
            == self.has_entry(other)) by {
            if next.has_entry(other) {
                let j = next.entry_index(other);
                assert(next.entry_at(j, other));
                assert(self.entry_at(gi[j], other));
            }
        }
        assert forall|other: u128| other != id && #[trigger] self.has_entry(other) implies next.entry(
            other,
        ) == self.entry(other) by {
            assert(next.has_entry(other));
            let j = next.entry_index(other);
            assert(next.entry_at(j, other));
            assert(self.entry_at(gi[j], other));
            self.lemma_entry_at(gi[j], other);
        }
        if !self.has_entry(id) {
            assert forall|i: int| 0 <= i < self.glossary.len() implies entry_other_than(id)(
                #[trigger] self.glossary[i],
            ) by {
                if self.glossary[i].id == id {
                    assert(self.entry_at(i, id));
                }
            }
            lemma_filter_all(self.glossary, entry_other_than(id));
            assert forall|i: int| 0 <= i < self.history.len() implies record_of_other(id)(
                #[trigger] self.history[i],
            ) by {
                assert(self.has_entry(self.history[i].glossary_id));
            }
            lemma_filter_all(self.history, record_of_other(id));
            assert forall|i: int| 0 <= i < self.likes.len() implies like_of_other(id)(
                #[trigger] self.likes[i],
            ) by {
                assert(self.has_entry(self.likes[i].glossary_id));
            }
            lemma_filter_all(self.likes, like_of_other(id));
        } else {
            let k = self.entry_index(id);
            assert(self.entry_at(k, id));
            lemma_filter_one_out(self.glossary, entry_other_than(id), k);
        }
    }
}

/// A filter that every element but the one at `k` passes keeps one element
/// fewer.
pub proof fn lemma_filter_one_out<A>(s: Seq<A>, pred: spec_fn(A) -> bool, k: int)
    requires
        0 <= k < s.len(),
        !pred(s[k]),
        forall|i: int| 0 <= i < s.len() && i != k ==> pred(#[trigger] s[i]),
    ensures
        s.filter(pred) == s.remove(k),
    decreases s.len(),
{
    reveal(Seq::filter);
    if k == s.len() - 1 {
        lemma_filter_all(s.drop_last(), pred);
        assert(s.remove(k) =~= s.drop_last());
    } else {
        lemma_filter_one_out(s.drop_last(), pred, k);
        assert(s.drop_last().remove(k).push(s.last()) =~= s.remove(k));
    }
}

/// What a filter keeps stands in the sequence it was taken from, in the
/// same order: the result gives, for each index of the filtered sequence,
/// the index that its element had.
pub proof fn lemma_filter_indices<A>(s: Seq<A>, pred: spec_fn(A) -> bool) -> (idx: Seq<int>)
    ensures
        idx.len() == s.filter(pred).len(),
        forall|k: int|
            0 <= k < idx.len() ==> 0 <= #[trigger] idx[k] < s.len() && s.filter(pred)[k]
                == s[idx[k]],
        forall|k: int, m: int| 0 <= k < m < idx.len() ==> #[trigger] idx[k] < #[trigger] idx[m],
    decreases s.len(),
{
    reveal(Seq::filter);
    if s.len() == 0 {
        Seq::empty()
    } else {
        let rest = lemma_filter_indices(s.drop_last(), pred);
        if pred(s.last()) {
            rest.push(s.len() - 1)
        } else {
            rest
        }
    }
}

/// A filter that every element passes keeps the sequence as it is.
pub proof fn lemma_filter_all<A>(s: Seq<A>, pred: spec_fn(A) -> bool)
    requires
        forall|i: int| 0 <= i < s.len() ==> pred(#[trigger] s[i]),
    ensures
        s.filter(pred) == s,
    decreases s.len(),
{
    reveal(Seq::filter);
    if s.len() > 0 {
        lemma_filter_all(s.drop_last(), pred);
        assert(s.drop_last().push(s.last()) =~= s);
    }
}

} // verus!
