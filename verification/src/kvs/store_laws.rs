//! What holds of a store and its table together.
//!
//! The table is taken as a map from keys to rows. An operation is taken
//! as a whole, from its command to its report, as the lock of its key
//! makes it: a write replaces the row and then caches the value, a removal
//! deletes the row and then caches the absence, a read answers from the
//! cache or else from the row, and caches what it answered.

use crate::cache::{
    cached, has_key, inserted, keys_distinct, lemma_inserted_distinct, lemma_touched_distinct, touched,
};
use crate::kvs::queries::{load_decision, CellView, KvsErrorView, LoadedView};
use crate::kvs::schema::ValueSchemaView;
use vstd::prelude::*;

verus! {

/// A table and the cache in front of it.
#[verifier::ext_equal]
pub struct World {
    /// The rows of the table by key.
    pub rows: Map<Seq<u8>, CellView>,
    /// The slots of the cache, most recently used first.
    pub slots: Seq<(Seq<u8>, Option<Seq<u8>>)>,
}

/// What does not change while a store runs: the interned names, the schema
/// of the values with the id of its name, whether the store may lose
/// values, how the value type brings an older value up to date, and the
/// capacity of the cache.
pub struct Setting {
    pub names: Seq<Seq<char>>,
    pub schema: ValueSchemaView,
    pub value_id: u32,
    pub is_transient: bool,
    pub migrate: spec_fn(Seq<char>, u32, Seq<u8>) -> Seq<u8>,
    pub capacity: nat,
}

impl Setting {
    /// The id of the values' schema name is the one that was interned for
    /// that name.
    pub open spec fn wf(self) -> bool {
        self.value_id < self.names.len() && self.names[self.value_id as int] == self.schema.id
    }
}

/// The row of a key, if it has one.
pub open spec fn row_of(rows: Map<Seq<u8>, CellView>, key: Seq<u8>) -> Option<CellView> {
    if rows.dom().contains(key) {
        Some(rows[key])
    } else {
        None
    }
}

/// The row that a write of `value` leaves.
pub open spec fn written_cell(s: Setting, value: Seq<u8>) -> CellView {
    CellView { value, value_schema_id: s.value_id, value_schema_ver: s.schema.schema_version }
}

/// What a read that goes to the table answers.
pub open spec fn answer_of_row(s: Setting, row: Option<CellView>) -> Result<Option<Seq<u8>>, KvsErrorView> {
    match load_decision(row, s.names, s.schema, !s.is_transient) {
        Ok(LoadedView::Absent) => Ok(None),
        Ok(LoadedView::Current(bytes)) => Ok(Some(bytes)),
        Ok(LoadedView::Migrate { from_name, from_version, bytes }) => Ok(
            Some((s.migrate)(from_name, from_version, bytes)),
        ),
        Err(e) => Err(e),
    }
}

/// What a read answers: what the cache holds for the key, else what the
/// row gives.
pub open spec fn read_answer(s: Setting, w: World, key: Seq<u8>) -> Result<Option<Seq<u8>>, KvsErrorView> {
    match cached(w.slots, key) {
        Some(value) => Ok(value),
        None => answer_of_row(s, row_of(w.rows, key)),
    }
}

/// The cache and the table agree: whatever the cache holds for a key is
/// what a read of the key's row would answer.
pub open spec fn coherent(s: Setting, w: World) -> bool {
    &&& keys_distinct(w.slots)
    &&& forall|key: Seq<u8>|
        (#[trigger] cached(w.slots, key)) is Some ==> answer_of_row(s, row_of(w.rows, key)) == Ok::<
            Option<Seq<u8>>,
            KvsErrorView,
        >(cached(w.slots, key)->0)
}

/// The world after a write.
pub open spec fn after_set(s: Setting, w: World, key: Seq<u8>, value: Seq<u8>) -> World {
    World {
        rows: w.rows.insert(key, written_cell(s, value)),
        slots: inserted(w.slots, key, Some(value), s.capacity),
    }
}

/// The world after a removal.
pub open spec fn after_remove(s: Setting, w: World, key: Seq<u8>) -> World {
    World { rows: w.rows.remove(key), slots: inserted(w.slots, key, None, s.capacity) }
}

/// The world after a read.
pub open spec fn after_get(s: Setting, w: World, key: Seq<u8>) -> World {
    if has_key(w.slots, key) {
        World { rows: w.rows, slots: touched(w.slots, key) }
    } else {
        match answer_of_row(s, row_of(w.rows, key)) {
            Ok(value) => World { rows: w.rows, slots: inserted(w.slots, key, value, s.capacity) },
            Err(e) => w,
        }
    }
}

/// A row that was just written reads back as the value that was written.
pub proof fn lemma_written_row_reads_back(s: Setting, value: Seq<u8>)
    requires
        s.wf(),
    ensures
        answer_of_row(s, Some(written_cell(s, value))) == Ok::<Option<Seq<u8>>, KvsErrorView>(
            Some(value),
        ),
        answer_of_row(s, None) == Ok::<Option<Seq<u8>>, KvsErrorView>(None),
{
}

/// A write leaves the cache and the table in agreement.
pub proof fn lemma_set_keeps_agreement(s: Setting, w: World, key: Seq<u8>, value: Seq<u8>)
    requires
        s.wf(),
        coherent(s, w),
    ensures
        coherent(s, after_set(s, w, key, value)),
{
    let w2 = after_set(s, w, key, value);
    lemma_inserted_distinct(w.slots, key, Some(value), s.capacity);
    lemma_written_row_reads_back(s, value);
    assert forall|other: Seq<u8>| (#[trigger] cached(w2.slots, other)) is Some implies answer_of_row(
        s,
        row_of(w2.rows, other),
    ) == Ok::<Option<Seq<u8>>, KvsErrorView>(cached(w2.slots, other)->0) by {
        if other == key {
            if s.capacity == 0 {
                assert(!has_key(w2.slots, other));
            }
        } else {
            assert(cached(w2.slots, other) == cached(w.slots, other));
            assert(row_of(w2.rows, other) == row_of(w.rows, other));
        }
    }
}

/// A removal leaves the cache and the table in agreement.
pub proof fn lemma_remove_keeps_agreement(s: Setting, w: World, key: Seq<u8>)
    requires
        s.wf(),
        coherent(s, w),
    ensures
        coherent(s, after_remove(s, w, key)),
{
    let w2 = after_remove(s, w, key);
    lemma_inserted_distinct(w.slots, key, None::<Seq<u8>>, s.capacity);
    assert forall|other: Seq<u8>| (#[trigger] cached(w2.slots, other)) is Some implies answer_of_row(
        s,
        row_of(w2.rows, other),
    ) == Ok::<Option<Seq<u8>>, KvsErrorView>(cached(w2.slots, other)->0) by {
        if other == key {
            if s.capacity == 0 {
                assert(!has_key(w2.slots, other));
            }
        } else {
            assert(cached(w2.slots, other) == cached(w.slots, other));
            assert(row_of(w2.rows, other) == row_of(w.rows, other));
        }
    }
}

/// A read leaves the cache and the table in agreement, and changes no
/// row.
pub proof fn lemma_get_keeps_agreement(s: Setting, w: World, key: Seq<u8>)
    requires
        coherent(s, w),
    ensures
        coherent(s, after_get(s, w, key)),
        after_get(s, w, key).rows == w.rows,
{
    let w2 = after_get(s, w, key);
    if has_key(w.slots, key) {
        lemma_touched_distinct(w.slots, key);
        assert forall|other: Seq<u8>| (#[trigger] cached(w2.slots, other)) is Some implies answer_of_row(
            s,
            row_of(w2.rows, other),
        ) == Ok::<Option<Seq<u8>>, KvsErrorView>(cached(w2.slots, other)->0) by {
            assert(cached(w2.slots, other) == cached(w.slots, other));
        }
    } else {
        match answer_of_row(s, row_of(w.rows, key)) {
            Ok(value) => {
                lemma_inserted_distinct(w.slots, key, value, s.capacity);
                assert forall|other: Seq<u8>| (#[trigger] cached(w2.slots, other)) is Some implies answer_of_row(
                    s,
                    row_of(w2.rows, other),
                ) == Ok::<Option<Seq<u8>>, KvsErrorView>(cached(w2.slots, other)->0) by {
                    if other == key {
                        if s.capacity == 0 {
                            assert(!has_key(w2.slots, other));
                        }
                    } else {
                        assert(cached(w2.slots, other) == cached(w.slots, other));
                    }
                }
            },
            Err(e) => {},
        }
    }
}

/// A read of a key right after a write of it answers the written value.
/// The same holds later, whatever was done to other keys in between, as
/// long as the cache and the table agree and the row of the key is still
/// the written one.
pub proof fn lemma_get_after_set(s: Setting, w: World, key: Seq<u8>, value: Seq<u8>, later: World)
    requires
        s.wf(),
        coherent(s, w),
        coherent(s, later),
        row_of(later.rows, key) == row_of(after_set(s, w, key, value).rows, key),
    ensures
        read_answer(s, after_set(s, w, key, value), key) == Ok::<Option<Seq<u8>>, KvsErrorView>(
            Some(value),
        ),
        read_answer(s, later, key) == Ok::<Option<Seq<u8>>, KvsErrorView>(Some(value)),
{
    lemma_written_row_reads_back(s, value);
    lemma_set_keeps_agreement(s, w, key, value);
    let w2 = after_set(s, w, key, value);
    assert(row_of(w2.rows, key) == Some(written_cell(s, value)));
    if cached(w2.slots, key) is Some {
    }
    if cached(later.slots, key) is Some {
    }
}

/// A read of a key right after its removal answers that the key has no
/// value. The same holds later, whatever was done to other keys in
/// between, as long as the cache and the table agree and the key still has
/// no row.
pub proof fn lemma_get_after_remove(s: Setting, w: World, key: Seq<u8>, later: World)
    requires
        s.wf(),
        coherent(s, w),
        coherent(s, later),
        row_of(later.rows, key) is None,
    ensures
        read_answer(s, after_remove(s, w, key), key) == Ok::<Option<Seq<u8>>, KvsErrorView>(None),
        read_answer(s, later, key) == Ok::<Option<Seq<u8>>, KvsErrorView>(None),
{
    lemma_remove_keeps_agreement(s, w, key);
    let w2 = after_remove(s, w, key);
    assert(row_of(w2.rows, key) is None);
    if cached(w2.slots, key) is Some {
    }
    if cached(later.slots, key) is Some {
    }
}

/// Two writes of one key, in whichever order the lock of the key lets
/// them run, leave the row with the value of the second, and the cache
/// either with that same value or without the key: never the value of one
/// in the row and the value of the other in the cache.
pub proof fn lemma_second_write_wins(s: Setting, w: World, key: Seq<u8>, first: Seq<u8>, second: Seq<u8>)
    requires
        s.wf(),
        coherent(s, w),
    ensures
        ({
            let end = after_set(s, after_set(s, w, key, first), key, second);
            &&& coherent(s, end)
            &&& row_of(end.rows, key) == Some(written_cell(s, second))
            &&& cached(end.slots, key) is None || cached(end.slots, key) == Some(Some(second))
            &&& read_answer(s, end, key) == Ok::<Option<Seq<u8>>, KvsErrorView>(Some(second))
        }),
{
    let mid = after_set(s, w, key, first);
    lemma_set_keeps_agreement(s, w, key, first);
    lemma_set_keeps_agreement(s, mid, key, second);
    lemma_inserted_distinct(mid.slots, key, Some(second), s.capacity);
    lemma_get_after_set(s, mid, key, second, after_set(s, mid, key, second));
    let end = after_set(s, mid, key, second);
    if s.capacity == 0 {
        assert(!has_key(end.slots, key));
    }
}

} // verus!
