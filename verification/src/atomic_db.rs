//! The term dictionary as one unit: the store, its in-memory index and the
//! match automaton, kept in step by every mutation, and the substitution
//! that reads the last two.

use crate::atom::{atom_views, duplicate_atoms, AtomSource, AtomTranslation, AtomView};
use crate::clock::now_timestamp;
use crate::error::AtomError;
use crate::matcher::{
    automaton_builds, automaton_ignores_ascii_case, automaton_is_leftmost_longest,
    automaton_matches, automaton_patterns, build_automaton, describe_build_error, find_matches,
    keys_of, pattern_list, pattern_strings, MatchPolicy,
};
use crate::store::{
    batch_view, bumped, has_id, is_listing, list_by_usage, loaded, put, put_all, rewritten_by_id,
    store_wf, without_key, AtomStore, StoreView,
};
use crate::substitute::{annotate, position_views, substituted};
use crate::text::{bytes_of, lowercase_of};
use vstd::prelude::*;
use vstd::string::*;

verus! {

/// Two entries that differ at most in their usage count.
pub open spec fn same_but_usage(a: AtomView, b: AtomView) -> bool {
    a == (AtomView { usage_count: a.usage_count, ..b })
}

/// The index holds the rows of the store, row by row; only usage counts may
/// lag behind.
pub open spec fn mirrors(index: Seq<AtomView>, rows: Seq<AtomView>) -> bool {
    &&& index.len() == rows.len()
    &&& forall|i: int| 0 <= i < index.len() ==> same_but_usage(#[trigger] index[i], rows[i])
}

/// The keys of the entries used by a substitution, in the order of use.
pub open spec fn used_keys(index: Seq<AtomView>, used: Seq<int>) -> Seq<Seq<char>> {
    used.map_values(|i: int| index[i].original)
}

/// The automaton for an index with these entries can be had: an empty
/// index needs none, and for any other the builder makes one of the
/// index's pattern set, set to match without regard to the case of ASCII
/// letters and to report the leftmost longest match.
pub open spec fn matcher_builds(index: Seq<AtomView>) -> bool {
    index.len() == 0 || automaton_builds(pattern_list(keys_of(index)), true, true, false)
}

/// The term dictionary.
pub struct AtomicDB {
    store: AtomStore,
    memory_index: Vec<AtomTranslation>,
    matcher: Option<aho_corasick::AhoCorasick>,
}

impl AtomicDB {
    /// What the store holds.
    pub closed spec fn store_view(&self) -> StoreView {
        self.store@
    }

    /// What the index holds.
    pub closed spec fn index(&self) -> Seq<AtomView> {
        atom_views(self.memory_index@)
    }

    /// The match automaton, where one is in place.
    pub closed spec fn automaton(&self) -> Option<aho_corasick::AhoCorasick> {
        self.matcher
    }

    /// The invariant: the store is well-formed and the index mirrors it.
    pub open spec fn wf(&self) -> bool {
        &&& store_wf(self.store_view())
        &&& mirrors(self.index(), self.store_view().rows)
    }

    /// The automaton matches the index: there is none for an empty index,
    /// and otherwise it was built from exactly the index's pattern set, to
    /// match without regard to the case of ASCII letters and to report the
    /// leftmost longest match.
    pub open spec fn in_sync(&self) -> bool {
        match self.automaton() {
            None => self.index().len() == 0,
            Some(automaton) => {
                &&& self.index().len() > 0
                &&& automaton_patterns(automaton) == pattern_list(keys_of(self.index()))
                &&& automaton_ignores_ascii_case(automaton)
                &&& automaton_is_leftmost_longest(automaton)
            },
        }
    }

    /// A mutation that changed the store to `next` has run to its end: the
    /// index was reloaded from the store, and the automaton was rebuilt from
    /// the index. The call succeeds exactly when the automaton for the new
    /// index can be had, and the automaton then matches the index. Where
    /// the rebuild failed the call reports it, the store and the index keep
    /// the change, and the automaton that was in place stays until a later
    /// mutation rebuilds it.
    pub open spec fn settled(pre: AtomicDB, post: AtomicDB, next: StoreView, r: Result<(), AtomError>) -> bool {
        &&& post.wf()
        &&& post.store_view() == next
        &&& post.index() == next.rows
        &&& r is Ok <==> matcher_builds(next.rows)
        &&& r is Ok ==> post.in_sync()
        &&& r is Err ==> r->Err_0 is AutomatonBuild && post.automaton() == pre.automaton()
    }

    /// `out` is what substitution makes of `text`: the text itself where no
    /// automaton is in place, else the text with the matches that the
    /// automaton finds in its lower-cased copy applied.
    pub open spec fn is_substitution(&self, text: Seq<char>, out: Seq<char>) -> bool {
        match self.automaton() {
            None => out == text,
            Some(automaton) => bytes_of(out) == substituted(
                bytes_of(text),
                bytes_of(lowercase_of(text)),
                self.index(),
                automaton_matches(automaton, lowercase_of(text)),
            ).out,
        }
    }

    /// Nothing changed.
    pub open spec fn untouched(pre: AtomicDB, post: AtomicDB) -> bool {
        &&& post.store_view() == pre.store_view()
        &&& post.index() == pre.index()
        &&& post.automaton() == pre.automaton()
    }

    /// An empty dictionary.
    pub fn new() -> (r: AtomicDB)
        ensures
            r.wf(),
            r.in_sync(),
            r.store_view().rows.len() == 0,
            r.store_view().last_id == 0,
            r.index().len() == 0,
            r.automaton() is None,
    {
        let db = AtomicDB { store: AtomStore::new(), memory_index: Vec::new(), matcher: None };
        assert(db.index() =~= Seq::<AtomView>::empty());
        db
    }

    /// The store.
    pub fn store(&self) -> (r: &AtomStore)
        ensures
            r@ == self.store_view(),
    {
        &self.store
    }

    /// Whether an automaton is in place.
    pub fn has_matcher(&self) -> (r: bool)
        ensures
            r == self.automaton() is Some,
    {
        self.matcher.is_some()
    }

    /// Replaces the whole index with a fresh copy of the store's rows.
    fn load_all_to_memory(&mut self)
        requires
            store_wf(old(self).store_view()),
        ensures
            final(self).wf(),
            final(self).store_view() == old(self).store_view(),
            final(self).index() == old(self).store_view().rows,
            final(self).automaton() == old(self).automaton(),
    {
        self.memory_index = duplicate_atoms(self.store.rows());
    }

    /// Puts the outcome of building an automaton in place: a built
    /// automaton replaces the one in place; a failure is reported and
    /// leaves everything as it is.
    pub fn install_matcher(&mut self, built: Result<aho_corasick::AhoCorasick, aho_corasick::BuildError>) -> (r: Result<(), AtomError>)
        ensures
            final(self).store_view() == old(self).store_view(),
            final(self).index() == old(self).index(),
            match built {
                Ok(automaton) => r is Ok && final(self).automaton() == Some(automaton),
                Err(_) => r is Err && r->Err_0 is AutomatonBuild && final(self).automaton() == old(
                    self,
                ).automaton(),
            },
    {
        match built {
            Ok(automaton) => {
                self.matcher = Some(automaton);
                Ok(())
            },
            Err(error) => Err(AtomError::AutomatonBuild(describe_build_error(&error))),
        }
    }

    /// Rebuilds the automaton from the index: none for an empty index, else
    /// one over the index's pattern set. It succeeds exactly when the
    /// automaton for the index can be had.
    fn rebuild_matcher(&mut self) -> (r: Result<(), AtomError>)
        ensures
            final(self).store_view() == old(self).store_view(),
            final(self).index() == old(self).index(),
            r is Ok <==> matcher_builds(old(self).index()),
            r is Ok ==> final(self).in_sync(),
            r is Err ==> r->Err_0 is AutomatonBuild && final(self).automaton() == old(self).automaton(),
    {
        if self.memory_index.len() == 0 {
            self.matcher = None;
            return Ok(());
        }
        let patterns = pattern_strings(&self.memory_index);
        let built = build_automaton(&patterns, true, MatchPolicy::LeftmostLongest);
        self.install_matcher(built)
    }

    /// Reloads the index and rebuilds the automaton after the store changed.
    fn settle(&mut self) -> (r: Result<(), AtomError>)
        requires
            store_wf(old(self).store_view()),
        ensures
            Self::settled(*old(self), *final(self), old(self).store_view(), r),
    {
        self.load_all_to_memory();
        self.rebuild_matcher()
    }

    /// A dictionary over these rows, loaded in turn. There is one exactly
    /// when the automaton for the loaded rows can be had.
    pub fn from_rows(rows: Vec<AtomTranslation>) -> (r: Result<AtomicDB, AtomError>)
        ensures
            r is Ok <==> matcher_builds(loaded(atom_views(rows@)).rows),
            r matches Ok(db) ==> db.wf() && db.in_sync() && db.store_view() == loaded(
                atom_views(rows@),
            ) && db.index() == db.store_view().rows,
            r matches Err(e) ==> e is AutomatonBuild,
    {
        let mut db = AtomicDB { store: AtomStore::from_rows(rows), memory_index: Vec::new(), matcher: None };
        match db.settle() {
            Ok(()) => Ok(db),
            Err(e) => Err(e),
        }
    }

    /// Adds the term or overwrites its translation and source, at time
    /// `now`.
    pub fn upsert_atom_at(&mut self, original: &str, translated: &str, source: AtomSource, now: i64) -> (r: Result<(), AtomError>)
        requires
            old(self).wf(),
        ensures
            final(self).wf(),
            match put(old(self).store_view(), lowercase_of(original@), translated@, source, now) {
                Some(next) => Self::settled(*old(self), *final(self), next, r),
                None => r == Err::<(), AtomError>(AtomError::StoreFull) && Self::untouched(
                    *old(self),
                    *final(self),
                ),
            },
    {
        match self.store.upsert(original, translated, source, now) {
            Ok(()) => self.settle(),
            Err(_) => Err(AtomError::StoreFull),
        }
    }

    /// Adds the term or overwrites its translation and source, at the
    /// current time, which is no time before the epoch.
    pub fn upsert_atom(&mut self, original: &str, translated: &str, source: AtomSource) -> (r: Result<(), AtomError>)
        requires
            old(self).wf(),
        ensures
            final(self).wf(),
            exists|now: i64|
                now >= 0 && match #[trigger] put(
                    old(self).store_view(),
                    lowercase_of(original@),
                    translated@,
                    source,
                    now,
                ) {
                    Some(next) => Self::settled(*old(self), *final(self), next, r),
                    None => r == Err::<(), AtomError>(AtomError::StoreFull) && Self::untouched(
                        *old(self),
                        *final(self),
                    ),
                },
    {
        let now = now_timestamp();
        self.upsert_atom_at(original, translated, source, now)
    }

    /// Removes the term. A term that is not in the dictionary is no error.
    pub fn delete_atom(&mut self, original: &str) -> (r: Result<(), AtomError>)
        requires
            old(self).wf(),
        ensures
            final(self).wf(),
            Self::settled(
                *old(self),
                *final(self),
                StoreView {
                    rows: without_key(old(self).store_view().rows, lowercase_of(original@)),
                    last_id: old(self).store_view().last_id,
                },
                r,
            ),
    {
        self.store.delete(original);
        self.settle()
    }

    /// Overwrites translation and source of the entry with this identifier,
    /// at time `now`. Fails, and changes nothing, when no entry has it.
    pub fn update_atom_at(&mut self, id: i64, translated: &str, source: AtomSource, now: i64) -> (r: Result<(), AtomError>)
        requires
            old(self).wf(),
        ensures
            final(self).wf(),
            has_id(old(self).store_view().rows, id) ==> Self::settled(
                *old(self),
                *final(self),
                StoreView {
                    rows: rewritten_by_id(old(self).store_view().rows, id, translated@, source, now),
                    last_id: old(self).store_view().last_id,
                },
                r,
            ),
            !has_id(old(self).store_view().rows, id) ==> r == Err::<(), AtomError>(
                AtomError::NotFound,
            ) && Self::untouched(*old(self), *final(self)),
    {
        match self.store.update_by_id(id, translated, source, now) {
            Ok(()) => self.settle(),
            Err(_) => Err(AtomError::NotFound),
        }
    }

    /// Overwrites translation and source of the entry with this identifier,
    /// at the current time, which is no time before the epoch.
    pub fn update_atom(&mut self, id: i64, translated: &str, source: AtomSource) -> (r: Result<(), AtomError>)
        requires
            old(self).wf(),
        ensures
            final(self).wf(),
            !has_id(old(self).store_view().rows, id) ==> r == Err::<(), AtomError>(
                AtomError::NotFound,
            ) && Self::untouched(*old(self), *final(self)),
            has_id(old(self).store_view().rows, id) ==> exists|now: i64|
                now >= 0 && Self::settled(
                    *old(self),
                    *final(self),
                    StoreView {
                        rows: #[trigger] rewritten_by_id(
                            old(self).store_view().rows,
                            id,
                            translated@,
                            source,
                            now,
                        ),
                        last_id: old(self).store_view().last_id,
                    },
                    r,
                ),
    {
        let now = now_timestamp();
        self.update_atom_at(id, translated, source, now)
    }

    /// Puts every entry of the batch at time `now`, or none of them.
    pub fn batch_upsert_at(&mut self, atoms: &Vec<(&str, &str, AtomSource)>, now: i64) -> (r: Result<(), AtomError>)
        requires
            old(self).wf(),
        ensures
            final(self).wf(),
            match put_all(old(self).store_view(), batch_view(atoms@), now) {
                Some(next) => Self::settled(*old(self), *final(self), next, r),
                None => r == Err::<(), AtomError>(AtomError::StoreFull) && Self::untouched(
                    *old(self),
                    *final(self),
                ),
            },
    {
        match self.store.batch_upsert(atoms, now) {
            Ok(()) => self.settle(),
            Err(_) => Err(AtomError::StoreFull),
        }
    }

    /// Puts every entry of the batch at the current time, which is no time
    /// before the epoch, or none of them.
    pub fn batch_upsert(&mut self, atoms: Vec<(&str, &str, AtomSource)>) -> (r: Result<(), AtomError>)
        requires
            old(self).wf(),
        ensures
            final(self).wf(),
            exists|now: i64|
                now >= 0 && match #[trigger] put_all(old(self).store_view(), batch_view(atoms@), now) {
                    Some(next) => Self::settled(*old(self), *final(self), next, r),
                    None => r == Err::<(), AtomError>(AtomError::StoreFull) && Self::untouched(
                        *old(self),
                        *final(self),
                    ),
                },
    {
        let now = now_timestamp();
        self.batch_upsert_at(&atoms, now)
    }

    /// Raises the stored usage count of the entry under exactly this key.
    /// The index is not reloaded: the counts that it shows lag behind until
    /// the next mutation.
    pub fn increment_usage(&mut self, key: &str)
        requires
            old(self).wf(),
        ensures
            final(self).wf(),
            final(self).store_view().rows == bumped(old(self).store_view().rows, key@),
            final(self).store_view().last_id == old(self).store_view().last_id,
            final(self).index() == old(self).index(),
            final(self).automaton() == old(self).automaton(),
    {
        self.store.increment_usage(key);
    }

    /// All entries of the index, by descending usage count.
    pub fn get_all_atoms(&self) -> (r: Vec<AtomTranslation>)
        ensures
            is_listing(self.index(), atom_views(r@)),
    {
        list_by_usage(&self.memory_index)
    }

    /// Annotates every recognised term of the text with its translation,
    /// and names the keys of the entries used, in the order of use.
    /// Without an automaton the text comes back as it is.
    pub fn replace_with_usage(&self, text: &str) -> (r: (String, Vec<String>))
        ensures
            self.is_substitution(text@, r.0@),
            match self.automaton() {
                None => r.0@ == text@ && r.1@.len() == 0,
                Some(automaton) => {
                    let sub = substituted(
                        bytes_of(text@),
                        bytes_of(lowercase_of(text@)),
                        self.index(),
                        automaton_matches(automaton, lowercase_of(text@)),
                    );
                    &&& bytes_of(r.0@) == sub.out
                    &&& crate::matcher::string_views(r.1@) == used_keys(self.index(), sub.used)
                },
            },
    {
        match &self.matcher {
            None => (String::from_str(text), Vec::new()),
            Some(automaton) => {
                let lowered = text.to_lowercase();
                let matches = find_matches(automaton, lowered.as_str());
                let (out, used) = annotate(text, lowered.as_str(), &matches, &self.memory_index);
                let mut keys: Vec<String> = Vec::new();
                let mut i: usize = 0;
                while i < used.len()
                    invariant
                        0 <= i <= used.len(),
                        forall|k: int| 0 <= k < used.len() ==> (#[trigger] used[k]) < self.memory_index.len(),
                        keys.len() == i,
                        forall|k: int|
                            0 <= k < i ==> (#[trigger] keys[k])@ == self.memory_index[used[k] as int].original@,
                    decreases used.len() - i,
                {
                    keys.push(self.memory_index[used[i]].original.clone());
                    i += 1;
                }
                assert(crate::matcher::string_views(keys@) =~= used_keys(
                    self.index(),
                    position_views(used@),
                ));
                (out, keys)
            },
        }
    }

    /// Annotates every recognised term of the text with its translation.
    /// Without an automaton the text comes back as it is.
    pub fn replace_with_atoms(&self, text: &str) -> (r: String)
        ensures
            self.is_substitution(text@, r@),
    {
        let (out, _) = self.replace_with_usage(text);
        out
    }
}

} // verus!
