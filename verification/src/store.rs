//! The atom store: the table of dictionary entries, keyed by the term in
//! lower case. It is the source of truth that the index and the matcher are
//! rebuilt from.

use crate::atom::{atom_views, AtomSource, AtomTranslation, AtomView};
use crate::error::AtomError;
use crate::order::{descending_order, is_descending_order};
use crate::text::{lowercase_of, str_eq};
use vstd::prelude::*;
use vstd::string::*;

verus! {

/// What a store holds: its rows in insertion order, and the last identifier
/// that it has handed out.
pub struct StoreView {
    pub rows: Seq<AtomView>,
    pub last_id: i64,
}

/// Some row has this key.
pub open spec fn has_key(rows: Seq<AtomView>, key: Seq<char>) -> bool {
    exists|i: int| 0 <= i < rows.len() && (#[trigger] rows[i]).original == key
}

/// The position of a row with this key.
pub open spec fn key_index(rows: Seq<AtomView>, key: Seq<char>) -> int {
    choose|i: int| 0 <= i < rows.len() && (#[trigger] rows[i]).original == key
}

/// Some row has this identifier.
pub open spec fn has_id(rows: Seq<AtomView>, id: i64) -> bool {
    exists|i: int| 0 <= i < rows.len() && (#[trigger] rows[i]).id == id
}

/// No two rows share a key.
pub open spec fn keys_unique(rows: Seq<AtomView>) -> bool {
    forall|i: int, j: int|
        0 <= i < rows.len() && 0 <= j < rows.len() && (#[trigger] rows[i]).original == (
        #[trigger] rows[j]).original ==> i == j
}

/// No two rows share an identifier.
pub open spec fn ids_unique(rows: Seq<AtomView>) -> bool {
    forall|i: int, j: int|
        0 <= i < rows.len() && 0 <= j < rows.len() && (#[trigger] rows[i]).id == (
        #[trigger] rows[j]).id ==> i == j
}

/// The store's invariant: keys are unique, identifiers are unique, and no
/// row has an identifier beyond the last one handed out.
pub open spec fn store_wf(s: StoreView) -> bool {
    &&& keys_unique(s.rows)
    &&& ids_unique(s.rows)
    &&& forall|i: int| 0 <= i < s.rows.len() ==> (#[trigger] s.rows[i]).id <= s.last_id
}

/// A row after its translation and source were overwritten at time `now`.
pub open spec fn rewritten(row: AtomView, translated: Seq<char>, source: AtomSource, now: i64) -> AtomView {
    AtomView { translated, source, updated_at: now, ..row }
}

/// The row that a first insert of `key` creates.
pub open spec fn fresh_row(id: i64, key: Seq<char>, translated: Seq<char>, source: AtomSource, now: i64) -> AtomView {
    AtomView { id, original: key, translated, usage_count: 0, source, created_at: now, updated_at: now }
}

/// Insert-or-update by key. An existing row keeps its identifier, its usage
/// count and its creation time; a new row gets the next identifier. There is
/// no result where a new row is needed and the identifiers are used up.
pub open spec fn put(s: StoreView, key: Seq<char>, translated: Seq<char>, source: AtomSource, now: i64) -> Option<StoreView> {
    if has_key(s.rows, key) {
        let i = key_index(s.rows, key);
        Some(StoreView { rows: s.rows.update(i, rewritten(s.rows[i], translated, source, now)), ..s })
    } else if s.last_id == i64::MAX {
        None
    } else {
        Some(
            StoreView {
                rows: s.rows.push(fresh_row((s.last_id + 1) as i64, key, translated, source, now)),
                last_id: (s.last_id + 1) as i64,
            },
        )
    }
}

/// One entry of a batch: the term, its translation and its source.
pub type BatchEntry = (Seq<char>, Seq<char>, AtomSource);

/// The entries of a batch as plain values.
pub open spec fn batch_view(entries: Seq<(&str, &str, AtomSource)>) -> Seq<BatchEntry> {
    entries.map_values(|e: (&str, &str, AtomSource)| (e.0@, e.1@, e.2))
}

/// The entries put one after the other, each under its lower-cased term;
/// there is no result as soon as one of them has none.
pub open spec fn put_all(s: StoreView, entries: Seq<BatchEntry>, now: i64) -> Option<StoreView>
    decreases entries.len(),
{
    if entries.len() == 0 {
        Some(s)
    } else {
        match put(s, lowercase_of(entries[0].0), entries[0].1, entries[0].2, now) {
            None => None,
            Some(next) => put_all(next, entries.drop_first(), now),
        }
    }
}

/// The row with this identifier rewritten, the others untouched.
pub open spec fn rewritten_by_id(rows: Seq<AtomView>, id: i64, translated: Seq<char>, source: AtomSource, now: i64) -> Seq<AtomView> {
    rows.map_values(
        |r: AtomView|
            if r.id == id {
                rewritten(r, translated, source, now)
            } else {
                r
            },
    )
}

/// The rows without the one that has this key.
pub open spec fn without_key(rows: Seq<AtomView>, key: Seq<char>) -> Seq<AtomView> {
    if has_key(rows, key) {
        rows.remove(key_index(rows, key))
    } else {
        rows
    }
}

/// The rows with the usage count of the row under `key` raised by one; a
/// count that is already at its maximum stays.
pub open spec fn bumped(rows: Seq<AtomView>, key: Seq<char>) -> Seq<AtomView> {
    if has_key(rows, key) && rows[key_index(rows, key)].usage_count < i32::MAX {
        let i = key_index(rows, key);
        rows.update(i, AtomView { usage_count: (rows[i].usage_count + 1) as i32, ..rows[i] })
    } else {
        rows
    }
}

/// A row stands in the way of another: it has the other's key or the
/// other's identifier.
pub open spec fn conflicts(a: AtomView, row: AtomView) -> bool {
    a.original == row.original || a.id == row.id
}

/// The rows that do not stand in the way of `row`, in their order.
pub open spec fn without_conflicts(rows: Seq<AtomView>, row: AtomView) -> Seq<AtomView>
    decreases rows.len(),
{
    if rows.len() == 0 {
        Seq::empty()
    } else {
        let rest = without_conflicts(rows.drop_last(), row);
        if conflicts(rows.last(), row) {
            rest
        } else {
            rest.push(rows.last())
        }
    }
}

/// A row loaded into the store: it replaces every row that has its key or
/// its identifier and stands behind the rows that stay; the last identifier
/// grows to cover it.
pub open spec fn loaded_one(s: StoreView, row: AtomView) -> StoreView {
    let last_id = if row.id > s.last_id {
        row.id
    } else {
        s.last_id
    };
    StoreView { rows: without_conflicts(s.rows, row).push(row), last_id }
}

/// The rows that stay when a row is loaded are rows of the store, none of
/// them in the way of the new one, and they keep the store's invariant.
pub proof fn lemma_without_conflicts(s: StoreView, row: AtomView)
    requires
        store_wf(s),
    ensures
        store_wf(StoreView { rows: without_conflicts(s.rows, row), last_id: s.last_id }),
        forall|k: int|
            0 <= k < without_conflicts(s.rows, row).len() ==> !conflicts(
                #[trigger] without_conflicts(s.rows, row)[k],
                row,
            ) && s.rows.contains(without_conflicts(s.rows, row)[k]),
    decreases s.rows.len(),
{
    let kept = without_conflicts(s.rows, row);
    if s.rows.len() > 0 {
        let shorter = StoreView { rows: s.rows.drop_last(), last_id: s.last_id };
        assert forall|i: int| 0 <= i < shorter.rows.len() implies #[trigger] shorter.rows[i]
            == s.rows[i] by {}
        assert(store_wf(shorter)) by {
            assert forall|i: int, j: int|
                0 <= i < shorter.rows.len() && 0 <= j < shorter.rows.len() && (
                #[trigger] shorter.rows[i]).original == (#[trigger] shorter.rows[j]).original implies i
                == j by {
                assert(s.rows[i].original == s.rows[j].original);
            }
            assert forall|i: int, j: int|
                0 <= i < shorter.rows.len() && 0 <= j < shorter.rows.len() && (
                #[trigger] shorter.rows[i]).id == (#[trigger] shorter.rows[j]).id implies i == j by {
                assert(s.rows[i].id == s.rows[j].id);
            }
            assert forall|i: int| 0 <= i < shorter.rows.len() implies (
            #[trigger] shorter.rows[i]).id <= shorter.last_id by {
                assert(s.rows[i].id <= s.last_id);
            }
        }
        lemma_without_conflicts(shorter, row);
        let rest = without_conflicts(shorter.rows, row);
        let last = s.rows.last();
        let n = s.rows.len() - 1;
        assert(last == s.rows[n]);
        assert forall|k: int| 0 <= k < rest.len() implies s.rows.contains(#[trigger] rest[k])
            && rest[k].original != last.original && rest[k].id != last.id by {
            assert(shorter.rows.contains(rest[k]));
            let j = choose|j: int| 0 <= j < shorter.rows.len() && shorter.rows[j] == rest[k];
            assert(s.rows[j] == rest[k]);
            if rest[k].original == last.original {
                assert(s.rows[j].original == s.rows[n].original);
            }
            if rest[k].id == last.id {
                assert(s.rows[j].id == s.rows[n].id);
            }
        }
        assert forall|k: int| 0 <= k < kept.len() implies !conflicts(#[trigger] kept[k], row)
            && s.rows.contains(kept[k]) by {
            if k < rest.len() {
                assert(kept[k] == rest[k]);
            } else {
                assert(kept[k] == last);
            }
        }
        assert forall|i: int, j: int|
            0 <= i < kept.len() && 0 <= j < kept.len() && (#[trigger] kept[i]).original == (
            #[trigger] kept[j]).original implies i == j by {
            if i < rest.len() {
                assert(kept[i] == rest[i]);
            }
            if j < rest.len() {
                assert(kept[j] == rest[j]);
            }
        }
        assert forall|i: int, j: int|
            0 <= i < kept.len() && 0 <= j < kept.len() && (#[trigger] kept[i]).id == (
            #[trigger] kept[j]).id implies i == j by {
            if i < rest.len() {
                assert(kept[i] == rest[i]);
            }
            if j < rest.len() {
                assert(kept[j] == rest[j]);
            }
        }
        assert forall|k: int| 0 <= k < kept.len() implies (#[trigger] kept[k]).id <= s.last_id by {
            assert(s.rows.contains(kept[k]));
            let j = choose|j: int| 0 <= j < s.rows.len() && s.rows[j] == kept[k];
            assert(s.rows[j].id <= s.last_id);
        }
    }
}

/// Loading a row keeps the store's invariant.
pub proof fn lemma_loaded_one_wf(s: StoreView, row: AtomView)
    requires
        store_wf(s),
    ensures
        store_wf(loaded_one(s, row)),
{
    lemma_without_conflicts(s, row);
    let kept = without_conflicts(s.rows, row);
    let next = loaded_one(s, row);
    let n = kept.len() as int;
    assert forall|i: int| 0 <= i < n implies #[trigger] next.rows[i] == kept[i] by {}
    assert(next.rows[n] == row);
    assert forall|i: int, j: int|
        0 <= i < next.rows.len() && 0 <= j < next.rows.len() && (#[trigger] next.rows[i]).original == (
        #[trigger] next.rows[j]).original implies i == j by {
        if i < n && j < n {
            assert(kept[i].original == kept[j].original);
        } else if i < n {
            assert(!conflicts(kept[i], row));
        } else if j < n {
            assert(!conflicts(kept[j], row));
        }
    }
    assert forall|i: int, j: int|
        0 <= i < next.rows.len() && 0 <= j < next.rows.len() && (#[trigger] next.rows[i]).id == (
        #[trigger] next.rows[j]).id implies i == j by {
        if i < n && j < n {
            assert(kept[i].id == kept[j].id);
        } else if i < n {
            assert(!conflicts(kept[i], row));
        } else if j < n {
            assert(!conflicts(kept[j], row));
        }
    }
    assert forall|i: int| 0 <= i < next.rows.len() implies (#[trigger] next.rows[i]).id
        <= next.last_id by {
        if i < n {
            assert(kept[i].id <= s.last_id);
        }
    }
}

/// The store that loading these rows in turn gives.
pub open spec fn loaded(rows: Seq<AtomView>) -> StoreView
    decreases rows.len(),
{
    if rows.len() == 0 {
        StoreView { rows: Seq::empty(), last_id: 0 }
    } else {
        loaded_one(loaded(rows.drop_last()), rows.last())
    }
}

/// The usage counts of the rows, as sort keys.
pub open spec fn usage_keys(rows: Seq<AtomView>) -> Seq<i128> {
    rows.map_values(|r: AtomView| r.usage_count as i128)
}

/// `out` lists exactly the rows, by descending usage count, rows with equal
/// counts in their stored order.
pub open spec fn is_listing(rows: Seq<AtomView>, out: Seq<AtomView>) -> bool {
    exists|perm: Seq<usize>|
        {
            &&& is_descending_order(usage_keys(rows), perm)
            &&& out.len() == rows.len()
            &&& forall|k: int| 0 <= k < out.len() ==> #[trigger] out[k] == rows[perm[k] as int]
        }
}

/// The table of atoms.
pub struct AtomStore {
    rows: Vec<AtomTranslation>,
    last_id: i64,
}

impl View for AtomStore {
    type V = StoreView;

    closed spec fn view(&self) -> StoreView {
        StoreView { rows: atom_views(self.rows@), last_id: self.last_id }
    }
}

impl AtomStore {
    /// The store's invariant holds.
    pub open spec fn wf(&self) -> bool {
        store_wf(self@)
    }

    /// An empty store.
    pub fn new() -> (r: AtomStore)
        ensures
            r.wf(),
            r@.rows.len() == 0,
            r@.last_id == 0,
    {
        AtomStore { rows: Vec::new(), last_id: 0 }
    }

    /// The position of the row with this key, if there is one.
    fn find(&self, key: &str) -> (r: Option<usize>)
        requires
            self.wf(),
        ensures
            r is Some <==> has_key(self@.rows, key@),
            r matches Some(i) ==> i < self@.rows.len() && i == key_index(self@.rows, key@)
                && self@.rows[i as int].original == key@,
    {
        let mut i: usize = 0;
        while i < self.rows.len()
            invariant
                self.wf(),
                0 <= i <= self.rows.len(),
                forall|k: int| 0 <= k < i ==> (#[trigger] self@.rows[k]).original != key@,
            decreases self.rows.len() - i,
        {
            if str_eq(self.rows[i].original.as_str(), key) {
                assert(self@.rows[i as int].original == key@);
                assert(has_key(self@.rows, key@));
                assert(self@.rows[key_index(self@.rows, key@)].original == key@);
                return Some(i);
            }
            i += 1;
        }
        None
    }

    /// The rows, in stored order.
    pub fn rows(&self) -> (r: &Vec<AtomTranslation>)
        ensures
            atom_views(r@) == self@.rows,
    {
        &self.rows
    }

    /// The number of rows.
    pub fn len(&self) -> (r: usize)
        ensures
            r == self@.rows.len(),
    {
        self.rows.len()
    }

    /// Insert-or-update by the lower-cased term, at time `now`.
    pub fn upsert(&mut self, original: &str, translated: &str, source: AtomSource, now: i64) -> (r: Result<(), AtomError>)
        requires
            old(self).wf(),
        ensures
            final(self).wf(),
            match put(old(self)@, lowercase_of(original@), translated@, source, now) {
                Some(next) => r is Ok && final(self)@ == next,
                None => r == Err::<(), AtomError>(AtomError::StoreFull) && final(self)@ == old(self)@,
            },
    {
        let key = original.to_lowercase();
        match self.find(key.as_str()) {
            Some(i) => {
                let row = AtomTranslation {
                    id: self.rows[i].id,
                    original: key,
                    translated: String::from_str(translated),
                    usage_count: self.rows[i].usage_count,
                    source,
                    created_at: self.rows[i].created_at,
                    updated_at: now,
                };
                let ghost before = self@.rows;
                self.rows[i] = row;
                assert(self@.rows =~= before.update(
                    i as int,
                    rewritten(before[i as int], translated@, source, now),
                ));
                Ok(())
            },
            None => {
                if self.last_id == i64::MAX {
                    return Err(AtomError::StoreFull);
                }
                let id = self.last_id + 1;
                let row = AtomTranslation {
                    id,
                    original: key,
                    translated: String::from_str(translated),
                    usage_count: 0,
                    source,
                    created_at: now,
                    updated_at: now,
                };
                let ghost before = self@.rows;
                self.rows.push(row);
                self.last_id = id;
                assert(self@.rows =~= before.push(
                    fresh_row(id, lowercase_of(original@), translated@, source, now),
                ));
                Ok(())
            },
        }
    }

    /// The store that holds these rows, loaded in turn: a row replaces every
    /// row loaded before it that has its key or its identifier.
    pub fn from_rows(rows: Vec<AtomTranslation>) -> (r: AtomStore)
        ensures
            r.wf(),
            r@ == loaded(atom_views(rows@)),
    {
        let mut store = AtomStore::new();
        let ghost all = atom_views(rows@);
        let mut i: usize = 0;
        assert(all.subrange(0, 0) =~= Seq::<AtomView>::empty());
        assert(store@.rows =~= Seq::<AtomView>::empty());
        while i < rows.len()
            invariant
                0 <= i <= rows.len(),
                all == atom_views(rows@),
                store.wf(),
                store@ == loaded(all.subrange(0, i as int)),
            decreases rows.len() - i,
        {
            let row = rows[i].duplicate();
            let ghost before = store@;
            proof {
                let part = all.subrange(0, i + 1);
                assert(part.drop_last() =~= all.subrange(0, i as int));
                assert(part.last() == row@);
                lemma_loaded_one_wf(before, row@);
            }
            let mut kept = store.kept_beside(&row);
            if row.id > store.last_id {
                store.last_id = row.id;
            }
            kept.push(row);
            store.rows = kept;
            assert(store@.rows =~= without_conflicts(before.rows, all[i as int]).push(all[i as int]));
            i += 1;
        }
        assert(all.subrange(0, rows.len() as int) =~= all);
        store
    }

    /// Copies of the rows that do not stand in the way of `row`.
    fn kept_beside(&self, row: &AtomTranslation) -> (r: Vec<AtomTranslation>)
        ensures
            atom_views(r@) == without_conflicts(self@.rows, row@),
    {
        let ghost all = self@.rows;
        let mut kept: Vec<AtomTranslation> = Vec::new();
        let mut i: usize = 0;
        assert(all.subrange(0, 0) =~= Seq::<AtomView>::empty());
        assert(atom_views(kept@) =~= Seq::<AtomView>::empty());
        while i < self.rows.len()
            invariant
                0 <= i <= self.rows.len(),
                all == self@.rows,
                atom_views(kept@) == without_conflicts(all.subrange(0, i as int), row@),
            decreases self.rows.len() - i,
        {
            proof {
                let part = all.subrange(0, i + 1);
                assert(part.drop_last() =~= all.subrange(0, i as int));
                assert(part.last() == self.rows[i as int]@);
            }
            let same_key = str_eq(self.rows[i].original.as_str(), row.original.as_str());
            if !same_key && self.rows[i].id != row.id {
                let ghost before = atom_views(kept@);
                kept.push(self.rows[i].duplicate());
                assert(atom_views(kept@) =~= before.push(self.rows[i as int]@));
            }
            i += 1;
        }
        assert(all.subrange(0, self.rows.len() as int) =~= all);
        kept
    }

    /// Overwrites translation and source of the entry with this identifier,
    /// at time `now`. Fails, and changes nothing, when no entry has it.
    pub fn update_by_id(&mut self, id: i64, translated: &str, source: AtomSource, now: i64) -> (r: Result<(), AtomError>)
        requires
            old(self).wf(),
        ensures
            final(self).wf(),
            final(self)@.last_id == old(self)@.last_id,
            has_id(old(self)@.rows, id) ==> r is Ok && final(self)@.rows == rewritten_by_id(
                old(self)@.rows,
                id,
                translated@,
                source,
                now,
            ),
            !has_id(old(self)@.rows, id) ==> r == Err::<(), AtomError>(AtomError::NotFound)
                && final(self)@ == old(self)@,
    {
        let ghost before = self@.rows;
        let mut affected: usize = 0;
        let mut i: usize = 0;
        while i < self.rows.len()
            invariant
                0 <= i <= self.rows.len(),
                self.rows.len() == before.len(),
                self.last_id == old(self).last_id,
                before == old(self)@.rows,
                affected <= i,
                affected == 0 ==> forall|k: int| 0 <= k < i ==> (#[trigger] before[k]).id != id,
                affected > 0 ==> has_id(before, id),
                forall|k: int|
                    0 <= k < i ==> #[trigger] self@.rows[k] == rewritten_by_id(
                        before,
                        id,
                        translated@,
                        source,
                        now,
                    )[k],
                forall|k: int| i <= k < before.len() ==> #[trigger] self@.rows[k] == before[k],
            decreases self.rows.len() - i,
        {
            assert(self@.rows[i as int] == before[i as int]);
            let ghost mid = self@.rows;
            if self.rows[i].id == id {
                let row = AtomTranslation {
                    id: self.rows[i].id,
                    original: self.rows[i].original.clone(),
                    translated: String::from_str(translated),
                    usage_count: self.rows[i].usage_count,
                    source,
                    created_at: self.rows[i].created_at,
                    updated_at: now,
                };
                assert(before[i as int].id == id);
                self.rows[i] = row;
                affected += 1;
                assert(self@.rows =~= mid.update(
                    i as int,
                    rewritten(before[i as int], translated@, source, now),
                ));
            }
            i += 1;
        }
        if affected == 0 {
            assert(self@.rows =~= before);
            Err(AtomError::NotFound)
        } else {
            assert(self@.rows =~= rewritten_by_id(before, id, translated@, source, now));
            Ok(())
        }
    }

    /// Removes the entry under the lower-cased term; nothing changes when
    /// there is none.
    pub fn delete(&mut self, original: &str)
        requires
            old(self).wf(),
        ensures
            final(self).wf(),
            final(self)@.last_id == old(self)@.last_id,
            final(self)@.rows == without_key(old(self)@.rows, lowercase_of(original@)),
            !has_key(final(self)@.rows, lowercase_of(original@)),
    {
        let key = original.to_lowercase();
        match self.find(key.as_str()) {
            Some(i) => {
                let ghost before = self@.rows;
                self.rows.remove(i);
                assert(self@.rows =~= before.remove(i as int));
                proof {
                    let after = self@.rows;
                    assert forall|k: int| 0 <= k < after.len() implies #[trigger] after[k]
                        == before[if k < i { k } else { k + 1 }] by {}
                    assert forall|a: int, b: int|
                        0 <= a < after.len() && 0 <= b < after.len() && (#[trigger] after[a]).original == (
                        #[trigger] after[b]).original implies a == b by {
                        let a0 = if a < i { a } else { a + 1 };
                        let b0 = if b < i { b } else { b + 1 };
                        assert(before[a0].original == before[b0].original);
                    }
                    assert forall|k: int| 0 <= k < after.len() implies (#[trigger] after[k]).original
                        != key@ by {
                        let k0 = if k < i { k } else { k + 1 };
                        assert(before[k0].original == after[k].original);
                    }
                    assert forall|k: int| 0 <= k < after.len() implies (#[trigger] after[k]).id
                        <= self.last_id by {
                        let k0 = if k < i { k } else { k + 1 };
                        assert(before[k0].id == after[k].id);
                    }
                }
            },
            None => {},
        }
    }

    /// Raises the usage count of the entry under exactly this key by one.
    /// Nothing changes when there is no such entry or its count cannot grow.
    pub fn increment_usage(&mut self, key: &str)
        requires
            old(self).wf(),
        ensures
            final(self).wf(),
            final(self)@.last_id == old(self)@.last_id,
            final(self)@.rows == bumped(old(self)@.rows, key@),
    {
        match self.find(key) {
            Some(i) => {
                if self.rows[i].usage_count < i32::MAX {
                    let row = AtomTranslation {
                        id: self.rows[i].id,
                        original: self.rows[i].original.clone(),
                        translated: self.rows[i].translated.clone(),
                        usage_count: self.rows[i].usage_count + 1,
                        source: self.rows[i].source,
                        created_at: self.rows[i].created_at,
                        updated_at: self.rows[i].updated_at,
                    };
                    let ghost before = self@.rows;
                    self.rows[i] = row;
                    assert(self@.rows =~= bumped(before, key@));
                }
            },
            None => {},
        }
    }

    /// The entry under exactly this key, if there is one.
    pub fn get(&self, key: &str) -> (r: Option<AtomTranslation>)
        requires
            self.wf(),
        ensures
            r is Some <==> has_key(self@.rows, key@),
            r matches Some(row) ==> row@ == self@.rows[key_index(self@.rows, key@)],
    {
        match self.find(key) {
            Some(i) => Some(self.rows[i].duplicate()),
            None => None,
        }
    }

    /// All entries, by descending usage count.
    pub fn list_all(&self) -> (r: Vec<AtomTranslation>)
        ensures
            is_listing(self@.rows, atom_views(r@)),
    {
        list_by_usage(&self.rows)
    }

    /// Puts every entry of the batch, or none: when one of them cannot be
    /// stored the store is left as it was.
    pub fn batch_upsert(&mut self, atoms: &Vec<(&str, &str, AtomSource)>, now: i64) -> (r: Result<(), AtomError>)
        requires
            old(self).wf(),
        ensures
            final(self).wf(),
            match put_all(old(self)@, batch_view(atoms@), now) {
                Some(next) => r is Ok && final(self)@ == next,
                None => r == Err::<(), AtomError>(AtomError::StoreFull) && final(self)@ == old(self)@,
            },
    {
        let mut work = AtomStore { rows: crate::atom::duplicate_atoms(&self.rows), last_id: self.last_id };
        let ghost entries = batch_view(atoms@);
        let mut i: usize = 0;
        assert(entries.subrange(0, entries.len() as int) =~= entries);
        while i < atoms.len()
            invariant
                0 <= i <= atoms.len(),
                entries == batch_view(atoms@),
                work.wf(),
                self@ == old(self)@,
                self.wf(),
                put_all(old(self)@, entries, now) == put_all(
                    work@,
                    entries.subrange(i as int, entries.len() as int),
                    now,
                ),
            decreases atoms.len() - i,
        {
            let ghost rest = entries.subrange(i as int, entries.len() as int);
            proof {
                assert(rest.drop_first() =~= entries.subrange(i + 1, entries.len() as int));
                assert(rest[0] == entries[i as int]);
            }
            let (original, translated, source) = atoms[i];
            match work.upsert(original, translated, source, now) {
                Ok(()) => {},
                Err(_) => {
                    return Err(AtomError::StoreFull);
                },
            }
            i += 1;
        }
        *self = work;
        Ok(())
    }
}

/// The entries by descending usage count, entries with equal counts in the
/// order given.
pub fn list_by_usage(rows: &Vec<AtomTranslation>) -> (r: Vec<AtomTranslation>)
    ensures
        is_listing(atom_views(rows@), atom_views(r@)),
{
    let mut keys: Vec<i128> = Vec::new();
    let mut i: usize = 0;
    while i < rows.len()
        invariant
            0 <= i <= rows.len(),
            keys.len() == i,
            forall|k: int| 0 <= k < i ==> #[trigger] keys[k] == rows[k].usage_count as i128,
        decreases rows.len() - i,
    {
        keys.push(rows[i].usage_count as i128);
        i += 1;
    }
    assert(keys@ =~= usage_keys(atom_views(rows@)));
    let perm = descending_order(&keys);
    let mut out: Vec<AtomTranslation> = Vec::new();
    let mut k: usize = 0;
    while k < perm.len()
        invariant
            0 <= k <= perm.len(),
            perm.len() == rows.len(),
            is_descending_order(usage_keys(atom_views(rows@)), perm@),
            out.len() == k,
            forall|j: int| 0 <= j < k ==> (#[trigger] out[j])@ == rows[perm[j] as int]@,
        decreases perm.len() - k,
    {
        out.push(rows[perm[k]].duplicate());
        k += 1;
    }
    proof {
        let src = atom_views(rows@);
        let got = atom_views(out@);
        assert forall|j: int| 0 <= j < got.len() implies #[trigger] got[j] == src[perm@[j] as int] by {
            assert(out[j]@ == rows[perm[j] as int]@);
        }
    }
    out
}

} // verus!
