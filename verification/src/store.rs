//! The note store: an ordered collection of persisted notes with
//! insert, list, positional read, positional archive, and positional
//! text-update operations.
//!
//! Rows are kept sorted by the key (creation timestamp, id); the id breaks
//! ties between equal timestamps, so the order is strict. Listing filters
//! out archived rows and keeps that order, and every positional operation
//! (`read_nth`, `archive`, `update_nth_text`) indexes into the very same
//! listing, so all of them always agree on which note an index names.
//! Indices are snapshot-relative: an insert or archive shifts them.

use vstd::prelude::*;

use crate::errors::RecallError;
use crate::note::ContentView;
use crate::note::Note;
use crate::note::NoteContent;
use crate::note::NoteView;
use crate::rows::decode_content;
use crate::rows::decoded_content_of;
use crate::rows::spec_decode_content;
use crate::rows::RawRow;
use crate::rows::RawRowView;

verus! {

/// One row of the store: a stable id, the archived flag, and the note.
pub struct StoredNote {
    pub id: i64,
    pub archived: bool,
    pub note: Note,
}

/// The mathematical value of a `StoredNote`.
pub ghost struct StoredNoteView {
    pub id: int,
    pub archived: bool,
    pub note: NoteView,
}

impl View for StoredNote {
    type V = StoredNoteView;

    open spec fn view(&self) -> StoredNoteView {
        StoredNoteView { id: self.id as int, archived: self.archived, note: self.note@ }
    }
}

/// The views of a vector of stored rows.
pub open spec fn rows_view(rows: Seq<StoredNote>) -> Seq<StoredNoteView> {
    rows.map_values(|x: StoredNote| x@)
}

/// The strict order the store keeps its rows in: ascending creation
/// timestamp, with the id breaking ties.
pub open spec fn row_lt(a: StoredNoteView, b: StoredNoteView) -> bool {
    ||| a.note.datetime_millis < b.note.datetime_millis
    ||| (a.note.datetime_millis == b.note.datetime_millis && a.id < b.id)
}

/// Whether a row sequence is sorted strictly by `row_lt`.
pub open spec fn rows_sorted(rows: Seq<StoredNoteView>) -> bool {
    forall|i: int, j: int| 0 <= i < j < rows.len() ==> row_lt(rows[i], rows[j])
}

/// The unarchived rows, in store order.
pub open spec fn unarchived(rows: Seq<StoredNoteView>) -> Seq<StoredNoteView> {
    rows.filter(|r: StoredNoteView| !r.archived)
}

/// The same row with its archived flag set.
pub open spec fn archived_of(r: StoredNoteView) -> StoredNoteView {
    StoredNoteView { id: r.id, archived: true, note: r.note }
}

/// The note collection. The fields are public so that contracts can speak
/// about them; they are maintained by the operations and should not be
/// assigned directly.
pub struct Store {
    pub rows: Vec<StoredNote>,
    pub next_id: i64,
}

impl View for Store {
    type V = Seq<StoredNoteView>;

    open spec fn view(&self) -> Seq<StoredNoteView> {
        rows_view(self.rows@)
    }
}

impl Store {
    /// The store's invariant: rows sorted strictly by (timestamp, id),
    /// every note well formed, and every id non-negative and below the
    /// next id to be assigned.
    pub open spec fn wf(self) -> bool {
        &&& rows_sorted(self@)
        &&& forall|i: int| 0 <= i < self@.len() ==> (#[trigger] self@[i]).note.valid()
        &&& forall|i: int| 0 <= i < self@.len() ==> 0 <= (#[trigger] self@[i]).id < self.next_id
        &&& 0 <= self.next_id
    }

    /// The unarchived rows of this store, in order.
    pub open spec fn unarchived_rows(self) -> Seq<StoredNoteView> {
        unarchived(self@)
    }

    /// The listing every positional operation indexes into: the notes of
    /// the unarchived rows, in ascending (timestamp, id) order.
    pub open spec fn listing(self) -> Seq<NoteView> {
        self.unarchived_rows().map_values(|r: StoredNoteView| r.note)
    }

    /// An empty store.
    pub fn new() -> (r: Store)
        ensures
            r.wf(),
            r@ == Seq::<StoredNoteView>::empty(),
            r.listing() == Seq::<NoteView>::empty(),
            r.next_id == 0,
    {
        let s = Store { rows: Vec::new(), next_id: 0 };
        proof {
            assert(s@ =~= Seq::<StoredNoteView>::empty());
            lemma_unarchived_empty();
            assert(s.listing() =~= Seq::<NoteView>::empty());
        }
        s
    }

    /// Finds the row index of the `index`-th unarchived row, if there is
    /// one. Every positional operation goes through this, so they all
    /// agree on the meaning of an index.
    fn locate_unarchived(&self, index: usize) -> (r: Option<usize>)
        ensures
            match r {
                Option::Some(j) => {
                    &&& j < self@.len()
                    &&& !self@[j as int].archived
                    &&& unarchived(self@.take(j as int)).len() == index
                    &&& index < self.unarchived_rows().len()
                    &&& self@[j as int] == self.unarchived_rows()[index as int]
                },
                Option::None => index >= self.unarchived_rows().len(),
            },
    {
        let n = self.rows.len();
        let mut i: usize = 0;
        let mut count: usize = 0;
        while i < n
            invariant
                n == self@.len(),
                0 <= i <= n,
                count == unarchived(self@.take(i as int)).len(),
                count <= index,
            decreases n - i,
        {
            proof {
                lemma_unarchived_take_step(self@, i as int);
            }
            if !self.rows[i].archived {
                if count == index {
                    proof {
                        lemma_unarchived_split(self@, i as int);
                        assert(self@.skip(i as int)[0] == self@[i as int]);
                        lemma_unarchived_cons_unarchived(self@[i as int], self@.skip(i as int));
                        assert(self.unarchived_rows()[index as int] == self@[i as int]);
                    }
                    return Option::Some(i);
                }
                count = count + 1;
            }
            i = i + 1;
        }
        proof {
            assert(self@.take(n as int) =~= self@);
            self@.lemma_filter_len(|r: StoredNoteView| !r.archived);
        }
        Option::None
    }

    /// Returns a copy of the note at position `index` of the unarchived
    /// listing, and `NotFound` exactly when `index` is out of range.
    pub fn read_nth(&self, index: usize) -> (r: Result<Note, RecallError>)
        ensures
            match r {
                Result::Ok(n) => index < self.listing().len() && n@ == self.listing()[index as int],
                Result::Err(e) => e == RecallError::NotFound && index >= self.listing().len(),
            },
    {
        match self.locate_unarchived(index) {
            Option::Some(j) => {
                let n = self.rows[j].note.clone();
                proof {
                    assert(self.listing()[index as int] == self.unarchived_rows()[index as int].note);
                }
                Result::Ok(n)
            },
            Option::None => Result::Err(RecallError::NotFound),
        }
    }

    /// Returns copies of all unarchived notes, in listing order.
    pub fn list(&self) -> (r: Vec<Note>)
        ensures
            r@.map_values(|n: Note| n@) == self.listing(),
    {
        let n = self.rows.len();
        let mut out: Vec<Note> = Vec::new();
        let mut i: usize = 0;
        while i < n
            invariant
                n == self@.len(),
                0 <= i <= n,
                out@.map_values(|x: Note| x@) == unarchived(self@.take(i as int)).map_values(
                    |r: StoredNoteView| r.note,
                ),
            decreases n - i,
        {
            proof {
                lemma_unarchived_take_step(self@, i as int);
            }
            let ghost prev = out@;
            if !self.rows[i].archived {
                out.push(self.rows[i].note.clone());
                proof {
                    assert(out@.map_values(|x: Note| x@) =~= prev.map_values(|x: Note| x@).push(
                        self@[i as int].note,
                    ));
                    assert(unarchived(self@.take(i as int + 1)).map_values(
                        |r: StoredNoteView| r.note,
                    ) =~= unarchived(self@.take(i as int)).map_values(
                        |r: StoredNoteView| r.note,
                    ).push(self@[i as int].note));
                }
            } else {
                proof {
                    assert(unarchived(self@.take(i as int + 1)).map_values(
                        |r: StoredNoteView| r.note,
                    ) =~= unarchived(self@.take(i as int)).map_values(|r: StoredNoteView| r.note));
                }
            }
            i = i + 1;
        }
        proof {
            assert(self@.take(n as int) =~= self@);
        }
        out
    }
}

/// Where a fresh row lands in a row sequence: after every leading row
/// whose key is below the new row's key.
pub open spec fn place_index(rows: Seq<StoredNoteView>, r: StoredNoteView) -> int
    decreases rows.len(),
{
    if rows.len() == 0 {
        0
    } else if row_lt(rows[0], r) {
        1 + place_index(rows.skip(1), r)
    } else {
        0
    }
}

/// The row a store inserts for a note: the next id, unarchived.
pub open spec fn inserted_row(s: Store, note: NoteView) -> StoredNoteView {
    StoredNoteView { id: s.next_id as int, archived: false, note: note }
}

impl Store {
    /// Appends a note as a fresh unarchived row, keeping the rows sorted:
    /// the row lands after every row whose timestamp is at most the note's,
    /// and before the rest. Returns the id the store assigned; ids are
    /// assigned in increasing order and never reused. The unarchived
    /// listing gains exactly this note, at its ordered position.
    pub fn insert(&mut self, note: Note) -> (id: i64)
        requires
            old(self).wf(),
            note@.valid(),
            old(self).next_id < i64::MAX,
        ensures
            final(self).wf(),
            id == old(self).next_id,
            final(self).next_id == old(self).next_id + 1,
            final(self)@ == old(self)@.insert(
                place_index(old(self)@, inserted_row(*old(self), note@)),
                inserted_row(*old(self), note@),
            ),
            final(self).unarchived_rows() == old(self).unarchived_rows().insert(
                place_index(old(self).unarchived_rows(), inserted_row(*old(self), note@)),
                inserted_row(*old(self), note@),
            ),
            final(self).listing() == old(self).listing().insert(
                place_index(old(self).unarchived_rows(), inserted_row(*old(self), note@)),
                note@,
            ),
            final(self).listing().len() == old(self).listing().len() + 1,
    {
        let ghost row = inserted_row(*self, note@);
        let dt = note.datetime_millis;
        let id = self.next_id;
        let n = self.rows.len();
        let mut p: usize = 0;
        while p < n && self.rows[p].note.datetime_millis <= dt
            invariant
                n == self@.len(),
                0 <= p <= n,
                dt == note.datetime_millis,
                old(self).wf(),
                *self == *old(self),
                forall|i: int| 0 <= i < p ==> row_lt(#[trigger] self@[i], row),
                row == (StoredNoteView { id: self.next_id as int, archived: false, note: note@ }),
            decreases n - p,
        {
            proof {
                assert(self@[p as int].id < self.next_id);
            }
            p = p + 1;
        }
        let ghost pre = *self;
        self.rows.insert(p, StoredNote { id, archived: false, note });
        self.next_id = id + 1;
        proof {
            assert(self@ =~= pre@.insert(p as int, row));
            lemma_place_index_at(pre@, row, p as int);
            lemma_insert_keeps_sorted_wf(pre, *self, row, p as int);
            lemma_insert_unarchived(pre@, row, p as int);
            let q = unarchived(pre@.take(p as int)).len() as int;
            lemma_unarchived_subset(pre@.take(p as int));
            lemma_unarchived_subset(pre@.skip(p as int));
            assert forall|k: int| 0 <= k < q implies row_lt(
                #[trigger] unarchived(pre@)[k],
                row,
            ) by {
                assert(unarchived(pre@)[k] == unarchived(pre@.take(p as int))[k]);
                let e = unarchived(pre@.take(p as int))[k];
                assert(pre@.take(p as int).contains(e));
                let i = choose|i: int|
                    0 <= i < pre@.take(p as int).len() && pre@.take(p as int)[i] == e;
                assert(pre@[i] == e);
                assert(row_lt(pre@[i], row));
            }
            if q < unarchived(pre@).len() {
                assert(unarchived(pre@)[q] == unarchived(pre@.skip(p as int))[0]);
                let e = unarchived(pre@.skip(p as int))[0];
                assert(pre@.skip(p as int).contains(e));
                let i = choose|i: int|
                    0 <= i < pre@.skip(p as int).len() && pre@.skip(p as int)[i] == e;
                assert(pre@[p as int + i] == e);
                assert(!(pre@[p as int].note.datetime_millis <= dt));
                if i > 0 {
                    assert(row_lt(pre@[p as int], pre@[p as int + i]));
                }
                assert(!row_lt(e, row));
            }
            lemma_place_index_at(unarchived(pre@), row, q);
            assert(final(self).listing() =~= old(self).listing().insert(
                place_index(old(self).unarchived_rows(), row),
                note@,
            ));
        }
        id
    }
}

/// If every row before `p` is below `r` and the row at `p` (if any) is
/// not, then `p` is where `r` lands.
proof fn lemma_place_index_at(rows: Seq<StoredNoteView>, r: StoredNoteView, p: int)
    requires
        0 <= p <= rows.len(),
        forall|i: int| 0 <= i < p ==> row_lt(#[trigger] rows[i], r),
        p < rows.len() ==> !row_lt(rows[p], r),
    ensures
        place_index(rows, r) == p,
    decreases p,
{
    if p == 0 {
    } else {
        assert(row_lt(rows[0], r));
        assert forall|i: int| 0 <= i < p - 1 implies row_lt(#[trigger] rows.skip(1)[i], r) by {
            assert(rows.skip(1)[i] == rows[i + 1]);
        }
        assert(p - 1 < rows.skip(1).len() ==> !row_lt(rows.skip(1)[p - 1], r));
        lemma_place_index_at(rows.skip(1), r, p - 1);
    }
}

/// Inserting a fresh row at its scan point keeps the store well formed.
proof fn lemma_insert_keeps_sorted_wf(pre: Store, post: Store, r: StoredNoteView, p: int)
    requires
        pre.wf(),
        0 <= p <= pre@.len(),
        forall|i: int| 0 <= i < p ==> row_lt(#[trigger] pre@[i], r),
        p < pre@.len() ==> !(pre@[p].note.datetime_millis <= r.note.datetime_millis),
        r.note.valid(),
        r.archived == false,
        r.id == pre.next_id,
        pre.next_id < i64::MAX,
        post@ == pre@.insert(p, r),
        post.next_id == pre.next_id + 1,
    ensures
        post.wf(),
{
    assert forall|i: int, j: int| 0 <= i < j < post@.len() implies row_lt(
        #[trigger] post@[i],
        #[trigger] post@[j],
    ) by {
        assert(post@ =~= pre@.take(p) + seq![r] + pre@.skip(p));
        if i < p && j == p {
            assert(post@[i] == pre@[i]);
        } else if i == p && j > p {
            assert(post@[j] == pre@[j - 1]);
            assert(!(pre@[p].note.datetime_millis <= r.note.datetime_millis));
            if j - 1 > p {
                assert(row_lt(pre@[p], pre@[j - 1]));
            }
        } else if i < p && j > p {
            assert(post@[i] == pre@[i]);
            assert(post@[j] == pre@[j - 1]);
            if j - 1 > i {
                assert(row_lt(pre@[i], pre@[j - 1]));
            }
        } else {
            assert(post@[i] == if i < p {
                pre@[i]
            } else {
                pre@[i - 1]
            });
            assert(post@[j] == if j < p {
                pre@[j]
            } else {
                pre@[j - 1]
            });
        }
    }
    assert forall|i: int| 0 <= i < post@.len() implies (#[trigger] post@[i]).note.valid() && 0 <= (
    post@[i]).id < post.next_id by {
        if i < p {
            assert(post@[i] == pre@[i]);
        } else if i == p {
        } else {
            assert(post@[i] == pre@[i - 1]);
        }
    }
}

/// Inserting an unarchived fresh row at its scan point inserts it into the
/// unarchived part at that part's own scan point.
proof fn lemma_insert_unarchived(rows: Seq<StoredNoteView>, r: StoredNoteView, p: int)
    requires
        0 <= p <= rows.len(),
        !r.archived,
    ensures
        unarchived(rows.insert(p, r)) == unarchived(rows.take(p)) + seq![r] + unarchived(
            rows.skip(p),
        ),
        unarchived(rows) == unarchived(rows.take(p)) + unarchived(rows.skip(p)),
        unarchived(rows.insert(p, r)) == unarchived(rows).insert(
            unarchived(rows.take(p)).len() as int,
            r,
        ),
{
    let pred = |x: StoredNoteView| !x.archived;
    assert(rows =~= rows.take(p) + rows.skip(p));
    Seq::<StoredNoteView>::filter_distributes_over_add(rows.take(p), rows.skip(p), pred);
    assert(rows.insert(p, r) =~= rows.take(p) + (seq![r] + rows.skip(p)));
    Seq::<StoredNoteView>::filter_distributes_over_add(rows.take(p), seq![r] + rows.skip(p), pred);
    Seq::<StoredNoteView>::filter_distributes_over_add(seq![r], rows.skip(p), pred);
    reveal_with_fuel(Seq::filter, 2);
    assert(seq![r].drop_last() =~= Seq::<StoredNoteView>::empty());
    assert(unarchived(seq![r]) =~= seq![r]);
    assert(unarchived(rows.insert(p, r)) =~= unarchived(rows.take(p)) + seq![r] + unarchived(
        rows.skip(p),
    ));
    assert(unarchived(rows.insert(p, r)) =~= unarchived(rows).insert(
        unarchived(rows.take(p)).len() as int,
        r,
    ));
}

/// The rows after inserting each of `notes` in turn into an empty store,
/// with ids assigned in insertion order starting at `first_id`: step for
/// step what a run of `insert` calls builds, by `insert`'s own contract.
pub open spec fn rows_after_inserts(notes: Seq<NoteView>, first_id: int) -> Seq<StoredNoteView>
    decreases notes.len(),
{
    if notes.len() == 0 {
        Seq::empty()
    } else {
        let prev = rows_after_inserts(notes.drop_last(), first_id);
        let r = StoredNoteView {
            id: first_id + notes.len() - 1,
            archived: false,
            note: notes.last(),
        };
        prev.insert(place_index(prev, r), r)
    }
}

/// A sequence with no archived row is its own unarchived part.
proof fn lemma_unarchived_identity(rows: Seq<StoredNoteView>)
    requires
        forall|k: int| 0 <= k < rows.len() ==> !(#[trigger] rows[k]).archived,
    ensures
        unarchived(rows) == rows,
    decreases rows.len(),
{
    reveal_with_fuel(Seq::filter, 2);
    if rows.len() > 0 {
        let d = rows.drop_last();
        assert forall|k: int| 0 <= k < d.len() implies !(#[trigger] d[k]).archived by {
            assert(d[k] == rows[k]);
        }
        lemma_unarchived_identity(d);
        assert(unarchived(rows) =~= rows);
    }
}

/// In a sorted sequence whose ids all lie below a fresh row's id, the
/// fresh row's landing point splits the rows into those strictly below it
/// and those strictly above it.
proof fn lemma_place_index_props(rows: Seq<StoredNoteView>, r: StoredNoteView)
    requires
        rows_sorted(rows),
        forall|k: int| 0 <= k < rows.len() ==> (#[trigger] rows[k]).id < r.id,
    ensures
        0 <= place_index(rows, r) <= rows.len(),
        forall|i: int| 0 <= i < place_index(rows, r) ==> row_lt(#[trigger] rows[i], r),
        forall|i: int| place_index(rows, r) <= i < rows.len() ==> row_lt(r, #[trigger] rows[i]),
    decreases rows.len(),
{
    if rows.len() == 0 {
    } else if row_lt(rows[0], r) {
        let d = rows.skip(1);
        assert forall|i: int, j: int| 0 <= i < j < d.len() implies row_lt(
            #[trigger] d[i],
            #[trigger] d[j],
        ) by {
            assert(d[i] == rows[i + 1] && d[j] == rows[j + 1]);
        }
        assert forall|k: int| 0 <= k < d.len() implies (#[trigger] d[k]).id < r.id by {
            assert(d[k] == rows[k + 1]);
        }
        lemma_place_index_props(d, r);
        let p = 1 + place_index(d, r);
        assert forall|i: int| 0 <= i < p implies row_lt(#[trigger] rows[i], r) by {
            if i > 0 {
                assert(rows[i] == d[i - 1]);
            }
        }
        assert forall|i: int| p <= i < rows.len() implies row_lt(r, #[trigger] rows[i]) by {
            assert(rows[i] == d[i - 1]);
        }
    } else {
        assert(row_lt(r, rows[0]));
        assert forall|i: int| 0 <= i < rows.len() implies row_lt(r, #[trigger] rows[i]) by {
            if i > 0 {
                assert(row_lt(rows[0], rows[i]));
            }
        }
    }
}

/// Placing a fresh row into a sorted sequence keeps it sorted.
proof fn lemma_placed_sorted(rows: Seq<StoredNoteView>, r: StoredNoteView)
    requires
        rows_sorted(rows),
        forall|k: int| 0 <= k < rows.len() ==> (#[trigger] rows[k]).id < r.id,
    ensures
        rows_sorted(rows.insert(place_index(rows, r), r)),
{
    lemma_place_index_props(rows, r);
    let p = place_index(rows, r);
    let post = rows.insert(p, r);
    assert forall|i: int, j: int| 0 <= i < j < post.len() implies row_lt(
        #[trigger] post[i],
        #[trigger] post[j],
    ) by {
        assert(post[i] == if i < p {
            rows[i]
        } else if i == p {
            r
        } else {
            rows[i - 1]
        });
        assert(post[j] == if j < p {
            rows[j]
        } else if j == p {
            r
        } else {
            rows[j - 1]
        });
    }
}

/// The rows built by a run of inserts are exactly as many as the inserted
/// notes, all unarchived with ids assigned from `first_id` on, and sorted.
proof fn lemma_inserts_shape(notes: Seq<NoteView>, first_id: int, rows: Seq<StoredNoteView>)
    requires
        rows == rows_after_inserts(notes, first_id),
    ensures
        rows.len() == notes.len(),
        rows_sorted(rows),
        forall|k: int|
            0 <= k < rows.len() ==> !(#[trigger] rows[k]).archived && first_id <= rows[k].id
                < first_id + notes.len(),
    decreases notes.len(),
{
    if notes.len() > 0 {
        let d = notes.drop_last();
        let prev = rows_after_inserts(d, first_id);
        lemma_inserts_shape(d, first_id, prev);
        let r = StoredNoteView {
            id: first_id + notes.len() - 1,
            archived: false,
            note: notes.last(),
        };
        lemma_place_index_props(prev, r);
        lemma_placed_sorted(prev, r);
        let p = place_index(prev, r);
        assert(rows == prev.insert(p, r));
        assert forall|k: int| 0 <= k < rows.len() implies !(#[trigger] rows[k]).archived
            && first_id <= rows[k].id < first_id + notes.len() by {
            assert(rows[k] == if k < p {
                prev[k]
            } else if k == p {
                r
            } else {
                prev[k - 1]
            });
        }
    }
}

/// Every inserted note stands in the rows a run of inserts builds.
proof fn lemma_inserts_complete(notes: Seq<NoteView>, first_id: int, rows: Seq<StoredNoteView>)
    requires
        rows == rows_after_inserts(notes, first_id),
    ensures
        forall|i: int|
            0 <= i < notes.len() ==> exists|k: int|
                0 <= k < rows.len() && rows[k].note == #[trigger] notes[i],
    decreases notes.len(),
{
    if notes.len() > 0 {
        let d = notes.drop_last();
        let prev = rows_after_inserts(d, first_id);
        lemma_inserts_complete(d, first_id, prev);
        lemma_inserts_shape(d, first_id, prev);
        let r = StoredNoteView {
            id: first_id + notes.len() - 1,
            archived: false,
            note: notes.last(),
        };
        lemma_place_index_props(prev, r);
        let p = place_index(prev, r);
        assert(rows == prev.insert(p, r));
        assert forall|i: int| 0 <= i < notes.len() implies exists|k: int|
            0 <= k < rows.len() && rows[k].note == #[trigger] notes[i] by {
            if i == notes.len() - 1 {
                assert(rows[p].note == notes[i]);
            } else {
                assert(d[i] == notes[i]);
                let k = choose|k: int| 0 <= k < prev.len() && prev[k].note == d[i];
                if k < p {
                    assert(rows[k].note == notes[i]);
                } else {
                    assert(rows[k + 1] == prev[k]);
                    assert(rows[k + 1].note == notes[i]);
                }
            }
        }
    }
}

/// Inserting any number of notes into an empty store and then listing
/// returns exactly as many notes as were inserted, in ascending
/// (timestamp, id) order: every inserted row is unarchived, none is
/// filtered out of the listing, every inserted note is present, and the
/// rows stay sorted — whatever order the notes were inserted in.
pub proof fn lemma_inserts_then_list(notes: Seq<NoteView>, first_id: int, rows: Seq<StoredNoteView>)
    requires
        rows == rows_after_inserts(notes, first_id),
    ensures
        rows.len() == notes.len(),
        unarchived(rows) == rows,
        unarchived(rows).len() == notes.len(),
        rows_sorted(rows),
        forall|k: int|
            0 <= k < rows.len() ==> !(#[trigger] rows[k]).archived && first_id <= rows[k].id
                < first_id + notes.len(),
        forall|i: int|
            0 <= i < notes.len() ==> exists|k: int|
                0 <= k < rows.len() && rows[k].note == #[trigger] notes[i],
{
    lemma_inserts_shape(notes, first_id, rows);
    lemma_inserts_complete(notes, first_id, rows);
    lemma_unarchived_identity(rows);
}

/// The key order the store expects handed-over rows to arrive in:
/// ascending timestamp, with the id breaking ties.
pub open spec fn raw_key_lt(a: RawRowView, b: RawRowView) -> bool {
    ||| a.datetime_millis < b.datetime_millis
    ||| (a.datetime_millis == b.datetime_millis && a.id < b.id)
}

/// Whether one persisted row is acceptable: a non-empty title, a
/// non-negative timestamp, an id that leaves room for a fresh one above
/// it, and at most one populated content column.
pub open spec fn raw_row_ok(r: RawRowView) -> bool {
    &&& r.title.len() > 0
    &&& 0 <= r.datetime_millis
    &&& 0 <= r.id < i64::MAX
    &&& spec_decode_content(r.path, r.link, r.text) is Ok
}

/// Whether a handed-over row sequence is acceptable as a whole: every row
/// acceptable, in strictly ascending key order.
pub open spec fn raw_rows_ok(v: Seq<RawRowView>) -> bool {
    &&& forall|i: int| 0 <= i < v.len() ==> raw_row_ok(#[trigger] v[i])
    &&& forall|i: int| 1 <= i < v.len() ==> raw_key_lt(v[i - 1], #[trigger] v[i])
}

/// The store row an acceptable persisted row decodes to.
pub open spec fn decoded_row(r: RawRowView) -> StoredNoteView {
    StoredNoteView {
        id: r.id,
        archived: r.archived,
        note: NoteView {
            datetime_millis: r.datetime_millis,
            title: r.title,
            content: decoded_content_of(r),
        },
    }
}

impl Store {
    /// Rebuilds a store from persisted rows, handed over in ascending
    /// (timestamp, id) order. Rejects the handover with `InvalidRow`
    /// exactly when some row is unacceptable — an empty title, a negative
    /// timestamp, an id out of range, more than one populated content
    /// column — or when the order is broken; accepts it otherwise, with
    /// every row decoded in place and ids assigned above every present id.
    pub fn from_rows(rows: &Vec<RawRow>) -> (r: Result<Store, RecallError>)
        ensures
            match r {
                Result::Ok(s) => {
                    &&& raw_rows_ok(rows@.map_values(|x: RawRow| x@))
                    &&& s.wf()
                    &&& s@.len() == rows@.len()
                    &&& forall|i: int|
                        0 <= i < rows@.len() ==> s@[i] == decoded_row(#[trigger] rows@[i]@)
                },
                Result::Err(e) => {
                    &&& e == RecallError::InvalidRow
                    &&& !raw_rows_ok(rows@.map_values(|x: RawRow| x@))
                },
            },
    {
        let ghost v = rows@.map_values(|x: RawRow| x@);
        let n = rows.len();
        let mut out: Vec<StoredNote> = Vec::new();
        let mut next_id: i64 = 0;
        let mut i: usize = 0;
        while i < n
            invariant
                n == rows@.len(),
                v == rows@.map_values(|x: RawRow| x@),
                0 <= i <= n,
                out@.len() == i,
                forall|k: int| 0 <= k < i ==> raw_row_ok(#[trigger] v[k]),
                forall|k: int| 1 <= k < i ==> raw_key_lt(v[k - 1], #[trigger] v[k]),
                forall|k: int|
                    0 <= k < i ==> rows_view(out@)[k] == decoded_row(
                        #[trigger] v[k],
                    ),
                rows_sorted(rows_view(out@)),
                0 <= next_id,
                forall|k: int|
                    0 <= k < i ==> 0 <= (#[trigger] rows_view(out@)[k]).id
                        < next_id,
            decreases n - i,
        {
            let row = &rows[i];
            if row.title.as_str().is_empty() || row.datetime_millis < 0 || row.id < 0 || row.id
                == i64::MAX {
                return Result::Err(RecallError::InvalidRow);
            }
            if i > 0 {
                let prev = &rows[i - 1];
                let in_order = prev.datetime_millis < row.datetime_millis
                    || (prev.datetime_millis == row.datetime_millis && prev.id < row.id);
                if !in_order {
                    return Result::Err(RecallError::InvalidRow);
                }
            }
            let content = match decode_content(&row.path, &row.link, &row.text) {
                Result::Ok(c) => c,
                Result::Err(_) => {
                    return Result::Err(RecallError::InvalidRow);
                },
            };
            let ghost prev_out = rows_view(out@);
            out.push(
                StoredNote {
                    id: row.id,
                    archived: row.archived,
                    note: Note {
                        datetime_millis: row.datetime_millis,
                        title: row.title.clone(),
                        content,
                    },
                },
            );
            if row.id >= next_id {
                next_id = row.id + 1;
            }
            proof {
                let outv = rows_view(out@);
                assert(outv =~= prev_out.push(decoded_row(v[i as int])));
                assert forall|a: int, b: int| 0 <= a < b < outv.len() implies row_lt(
                    #[trigger] outv[a],
                    #[trigger] outv[b],
                ) by {
                    if b == outv.len() - 1 && i > 0 {
                        assert(raw_key_lt(v[i - 1], v[i as int]));
                        assert(prev_out[i - 1] == decoded_row(v[i - 1]));
                        if a < i - 1 {
                            assert(row_lt(prev_out[a], prev_out[i - 1]));
                        }
                    }
                }
            }
            i = i + 1;
        }
        let ghost outv = rows_view(out@);
        let s = Store { rows: out, next_id };
        proof {
            assert(s@ == outv);
            assert forall|k: int| 0 <= k < rows@.len() implies s@[k] == decoded_row(
                #[trigger] rows@[k]@,
            ) by {
                assert(v[k] == rows@[k]@);
                assert(outv[k] == decoded_row(v[k]));
            }
            assert forall|k: int| 0 <= k < s@.len() implies (#[trigger] s@[k]).note.valid() by {
                assert(outv[k] == decoded_row(v[k]));
                assert(raw_row_ok(v[k]));
            }
            assert forall|k: int| 0 <= k < s@.len() implies 0 <= (#[trigger] s@[k]).id
                < s.next_id by {
                assert(0 <= outv[k].id < next_id);
            }
        }
        Result::Ok(s)
    }
}

/// The same row with its content replaced by the given text.
pub open spec fn with_text(r: StoredNoteView, text: Seq<char>) -> StoredNoteView {
    StoredNoteView {
        id: r.id,
        archived: r.archived,
        note: NoteView {
            datetime_millis: r.note.datetime_millis,
            title: r.note.title,
            content: Option::Some(ContentView::Text(text)),
        },
    }
}

impl Store {
    /// Sets the archived flag of the note at position `index` of the
    /// unarchived listing, so that it disappears from subsequent listings
    /// and positional lookups, and the listing shrinks by exactly one.
    /// Returns the id and title of the archived note. With `index` out of
    /// range it reports `NotFound` and changes nothing.
    pub fn archive(&mut self, index: usize) -> (r: Result<(i64, String), RecallError>)
        ensures
            final(self).next_id == old(self).next_id,
            match r {
                Result::Ok(idt) => {
                    &&& index < old(self).listing().len()
                    &&& idt.0 as int == old(self).unarchived_rows()[index as int].id
                    &&& idt.1@ == old(self).unarchived_rows()[index as int].note.title
                    &&& final(self).unarchived_rows() == old(self).unarchived_rows().remove(
                        index as int,
                    )
                    &&& final(self).listing() == old(self).listing().remove(index as int)
                    &&& final(self).listing().len() == old(self).listing().len() - 1
                    &&& (exists|j: int|
                        0 <= j < old(self)@.len() && old(self)@[j] == old(
                            self,
                        ).unarchived_rows()[index as int] && final(self)@ == old(self)@.update(
                            j,
                            archived_of(old(self)@[j]),
                        ))
                    &&& old(self).wf() ==> final(self).wf()
                },
                Result::Err(e) => {
                    &&& e == RecallError::NotFound
                    &&& index >= old(self).listing().len()
                    &&& final(self)@ == old(self)@
                },
            },
    {
        match self.locate_unarchived(index) {
            Option::Some(j) => {
                let id = self.rows[j].id;
                let title = self.rows[j].note.title.clone();
                let note = self.rows[j].note.clone();
                let ghost pre = *self;
                self.rows.set(j, StoredNote { id, archived: true, note });
                proof {
                    let jj = j as int;
                    assert(self@ =~= pre@.update(jj, archived_of(pre@[jj])));
                    lemma_update_unarchived(pre@, jj, archived_of(pre@[jj]));
                    assert(final(self).listing() =~= old(self).listing().remove(index as int));
                    if pre.wf() {
                        lemma_update_same_key_wf(pre, *self, jj, archived_of(pre@[jj]));
                    }
                }
                Result::Ok((id, title))
            },
            Option::None => Result::Err(RecallError::NotFound),
        }
    }

    /// Replaces the content of the note at position `index` of the
    /// unarchived listing with the given freeform text; the note keeps its
    /// id, title, timestamp and place. With `index` out of range it
    /// reports `NotFound` and changes nothing.
    pub fn update_nth_text(&mut self, index: usize, text: String) -> (r: Result<i64, RecallError>)
        ensures
            final(self).next_id == old(self).next_id,
            match r {
                Result::Ok(id) => {
                    &&& index < old(self).listing().len()
                    &&& id as int == old(self).unarchived_rows()[index as int].id
                    &&& final(self).unarchived_rows() == old(self).unarchived_rows().update(
                        index as int,
                        with_text(old(self).unarchived_rows()[index as int], text@),
                    )
                    &&& final(self).listing() == old(self).listing().update(
                        index as int,
                        with_text(old(self).unarchived_rows()[index as int], text@).note,
                    )
                    &&& (exists|j: int|
                        0 <= j < old(self)@.len() && old(self)@[j] == old(
                            self,
                        ).unarchived_rows()[index as int] && final(self)@ == old(self)@.update(
                            j,
                            with_text(old(self)@[j], text@),
                        ))
                    &&& old(self).wf() ==> final(self).wf()
                },
                Result::Err(e) => {
                    &&& e == RecallError::NotFound
                    &&& index >= old(self).listing().len()
                    &&& final(self)@ == old(self)@
                },
            },
    {
        match self.locate_unarchived(index) {
            Option::Some(j) => {
                let id = self.rows[j].id;
                let archived = self.rows[j].archived;
                let datetime_millis = self.rows[j].note.datetime_millis;
                let title = self.rows[j].note.title.clone();
                let note = Note {
                    datetime_millis,
                    title,
                    content: Option::Some(NoteContent::Text(text)),
                };
                let ghost pre = *self;
                self.rows.set(j, StoredNote { id, archived, note });
                proof {
                    let jj = j as int;
                    let x = with_text(pre@[jj], text@);
                    assert(self@ =~= pre@.update(jj, x));
                    lemma_update_unarchived(pre@, jj, x);
                    assert(final(self).listing() =~= old(self).listing().update(
                        index as int,
                        x.note,
                    ));
                    if pre.wf() {
                        lemma_update_same_key_wf(pre, *self, jj, x);
                    }
                }
                Result::Ok(id)
            },
            Option::None => Result::Err(RecallError::NotFound),
        }
    }
}

/// Replacing a row by one with the same key, a valid note and the same id
/// keeps the store well formed.
proof fn lemma_update_same_key_wf(pre: Store, post: Store, j: int, x: StoredNoteView)
    requires
        pre.wf(),
        0 <= j < pre@.len(),
        x.id == pre@[j].id,
        x.note.datetime_millis == pre@[j].note.datetime_millis,
        x.note.title == pre@[j].note.title,
        post@ == pre@.update(j, x),
        post.next_id == pre.next_id,
    ensures
        post.wf(),
{
    assert(pre@[j].note.valid());
    assert(x.note.valid());
    assert forall|i: int, k: int| 0 <= i < k < post@.len() implies row_lt(
        #[trigger] post@[i],
        #[trigger] post@[k],
    ) by {
        assert(row_lt(pre@[i], pre@[k]));
    }
}

/// Replacing the row at `j`, which is unarchived and is entry `index` of
/// the unarchived part, removes that entry when the replacement is
/// archived and updates it in place when it is not.
proof fn lemma_update_unarchived(rows: Seq<StoredNoteView>, j: int, x: StoredNoteView)
    requires
        0 <= j < rows.len(),
        !rows[j].archived,
    ensures
        unarchived(rows.take(j)).len() < unarchived(rows).len(),
        unarchived(rows)[unarchived(rows.take(j)).len() as int] == rows[j],
        x.archived ==> unarchived(rows.update(j, x)) == unarchived(rows).remove(
            unarchived(rows.take(j)).len() as int,
        ),
        !x.archived ==> unarchived(rows.update(j, x)) == unarchived(rows).update(
            unarchived(rows.take(j)).len() as int,
            x,
        ),
{
    let pred = |r: StoredNoteView| !r.archived;
    let a = unarchived(rows.take(j));
    let c = unarchived(rows.skip(j + 1));
    reveal_with_fuel(Seq::filter, 2);
    assert(seq![rows[j]].drop_last() =~= Seq::<StoredNoteView>::empty());
    assert(unarchived(seq![rows[j]]) =~= seq![rows[j]]);
    assert(seq![x].drop_last() =~= Seq::<StoredNoteView>::empty());
    assert(rows =~= rows.take(j) + (seq![rows[j]] + rows.skip(j + 1)));
    Seq::<StoredNoteView>::filter_distributes_over_add(
        rows.take(j),
        seq![rows[j]] + rows.skip(j + 1),
        pred,
    );
    Seq::<StoredNoteView>::filter_distributes_over_add(seq![rows[j]], rows.skip(j + 1), pred);
    assert(unarchived(rows) =~= a + seq![rows[j]] + c);
    assert(rows.update(j, x) =~= rows.take(j) + (seq![x] + rows.skip(j + 1)));
    Seq::<StoredNoteView>::filter_distributes_over_add(
        rows.take(j),
        seq![x] + rows.skip(j + 1),
        pred,
    );
    Seq::<StoredNoteView>::filter_distributes_over_add(seq![x], rows.skip(j + 1), pred);
    if x.archived {
        assert(unarchived(seq![x]) =~= Seq::<StoredNoteView>::empty());
        assert(unarchived(rows.update(j, x)) =~= unarchived(rows).remove(a.len() as int));
    } else {
        assert(unarchived(seq![x]) =~= seq![x]);
        assert(unarchived(rows.update(j, x)) =~= unarchived(rows).update(a.len() as int, x));
    }
}

/// Filtering a sorted row sequence keeps it sorted.
proof fn lemma_unarchived_sorted(rows: Seq<StoredNoteView>)
    requires
        rows_sorted(rows),
    ensures
        rows_sorted(unarchived(rows)),
    decreases rows.len(),
{
    reveal_with_fuel(Seq::filter, 2);
    if rows.len() > 0 {
        let d = rows.drop_last();
        assert forall|i: int, j: int| 0 <= i < j < d.len() implies row_lt(
            #[trigger] d[i],
            #[trigger] d[j],
        ) by {
            assert(d[i] == rows[i] && d[j] == rows[j]);
        }
        lemma_unarchived_sorted(d);
        lemma_unarchived_subset(d);
        assert forall|i: int, j: int| 0 <= i < j < unarchived(rows).len() implies row_lt(
            #[trigger] unarchived(rows)[i],
            #[trigger] unarchived(rows)[j],
        ) by {
            if j < unarchived(d).len() {
                assert(unarchived(rows)[i] == unarchived(d)[i]);
                assert(unarchived(rows)[j] == unarchived(d)[j]);
            } else {
                assert(unarchived(rows)[j] == rows.last());
                assert(unarchived(rows)[i] == unarchived(d)[i]);
                let e = unarchived(d)[i];
                assert(d.contains(e));
                let k = choose|k: int| 0 <= k < d.len() && d[k] == e;
                assert(rows[k] == e);
                assert(row_lt(rows[k], rows[rows.len() - 1]));
            }
        }
    }
}

/// The listing of a well-formed store is in ascending `created_at` order:
/// listing some notes after inserting them returns them oldest first,
/// whatever order they were inserted in.
pub proof fn lemma_listing_ascending(s: Store)
    requires
        s.wf(),
    ensures
        forall|i: int, j: int|
            0 <= i < j < s.listing().len() ==> #[trigger] s.listing()[i].datetime_millis
                <= #[trigger] s.listing()[j].datetime_millis,
{
    lemma_unarchived_sorted(s@);
    assert forall|i: int, j: int| 0 <= i < j < s.listing().len() implies #[trigger] s.listing()[i].datetime_millis
        <= #[trigger] s.listing()[j].datetime_millis by {
        assert(row_lt(s.unarchived_rows()[i], s.unarchived_rows()[j]));
        assert(s.listing()[i] == s.unarchived_rows()[i].note);
        assert(s.listing()[j] == s.unarchived_rows()[j].note);
    }
}

/// Every row of the unarchived part occurs in the sequence itself.
proof fn lemma_unarchived_subset(rows: Seq<StoredNoteView>)
    ensures
        forall|k: int| 0 <= k < unarchived(rows).len() ==> rows.contains(
            #[trigger] unarchived(rows)[k],
        ),
    decreases rows.len(),
{
    reveal_with_fuel(Seq::filter, 2);
    if rows.len() > 0 {
        let d = rows.drop_last();
        lemma_unarchived_subset(d);
        assert forall|k: int| 0 <= k < unarchived(rows).len() implies rows.contains(
            #[trigger] unarchived(rows)[k],
        ) by {
            if k < unarchived(d).len() {
                let e = unarchived(d)[k];
                assert(d.contains(e));
                let i = choose|i: int| 0 <= i < d.len() && d[i] == e;
                assert(rows[i] == e);
            } else {
                assert(unarchived(rows)[k] == rows.last());
                assert(rows[rows.len() - 1] == rows.last());
            }
        }
    }
}

/// Filtering the empty sequence yields the empty sequence.
proof fn lemma_unarchived_empty()
    ensures
        unarchived(Seq::<StoredNoteView>::empty()) == Seq::<StoredNoteView>::empty(),
{
    reveal_with_fuel(Seq::filter, 2);
}

/// Extending a prefix by one row extends its unarchived part by that row
/// exactly when the row is unarchived.
proof fn lemma_unarchived_take_step(rows: Seq<StoredNoteView>, i: int)
    requires
        0 <= i < rows.len(),
    ensures
        unarchived(rows.take(i + 1)) == if !rows[i].archived {
            unarchived(rows.take(i)).push(rows[i])
        } else {
            unarchived(rows.take(i))
        },
{
    reveal_with_fuel(Seq::filter, 2);
    assert(rows.take(i + 1).drop_last() =~= rows.take(i));
    assert(rows.take(i + 1).last() == rows[i]);
}

/// A sequence's unarchived part splits at any boundary.
proof fn lemma_unarchived_split(rows: Seq<StoredNoteView>, i: int)
    requires
        0 <= i <= rows.len(),
    ensures
        unarchived(rows) == unarchived(rows.take(i)) + unarchived(rows.skip(i)),
{
    assert(rows =~= rows.take(i) + rows.skip(i));
    Seq::<StoredNoteView>::filter_distributes_over_add(
        rows.take(i),
        rows.skip(i),
        |r: StoredNoteView| !r.archived,
    );
}

/// The unarchived part of a sequence with an unarchived head starts with
/// that head.
proof fn lemma_unarchived_cons_unarchived(x: StoredNoteView, rows: Seq<StoredNoteView>)
    requires
        rows.len() > 0,
        rows[0] == x,
        !x.archived,
    ensures
        unarchived(rows) == seq![x] + unarchived(rows.skip(1)),
{
    assert(rows =~= seq![x] + rows.skip(1));
    Seq::<StoredNoteView>::filter_distributes_over_add(
        seq![x],
        rows.skip(1),
        |r: StoredNoteView| !r.archived,
    );
    reveal_with_fuel(Seq::filter, 2);
    assert(seq![x].drop_last() =~= Seq::<StoredNoteView>::empty());
    assert(unarchived(seq![x]) =~= seq![x]);
}

} // verus!
