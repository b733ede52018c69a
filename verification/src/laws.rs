//! What holds of the dictionary across its operations.

use crate::atom::{AtomSource, AtomView};
use crate::atomic_db::{used_keys, AtomicDB};
use crate::error::AtomError;
use crate::matcher::automaton_matches;
use crate::order::{
    arranged, descending_perm, is_descending_order, lemma_descending_order_unique,
    lemma_order_is_injective,
};
use crate::store::{
    has_key, is_listing, key_index, keys_unique, put, put_all, store_wf, usage_keys, without_key,
    StoreView,
};
use crate::substitute::{
    admissible, clashes, is_first_hit, lookup, note, resolve, rewrite_all, start_keys, step,
    substituted, Done,
};
use crate::text::spliced;
use crate::text::{bytes_of, lemma_bytes_of_injective, lowercase_of};
use vstd::prelude::*;

verus! {

/// The listing holds the entry under `key` at place `k`, and nowhere else.
pub open spec fn listed_once_at(listing: Seq<AtomView>, key: Seq<char>, k: int) -> bool {
    &&& 0 <= k < listing.len()
    &&& listing[k].original == key
    &&& forall|j: int| 0 <= j < listing.len() && j != k ==> (#[trigger] listing[j]).original != key
}

/// A put into a well-formed store gives a well-formed store, in which the
/// key is present.
pub proof fn lemma_put_keeps_store_wf(s: StoreView, key: Seq<char>, translated: Seq<char>, source: AtomSource, now: i64)
    requires
        store_wf(s),
        put(s, key, translated, source, now) is Some,
    ensures
        store_wf(put(s, key, translated, source, now)->0),
        has_key(put(s, key, translated, source, now)->0.rows, key),
{
    let next = put(s, key, translated, source, now)->0;
    if has_key(s.rows, key) {
        let i = key_index(s.rows, key);
        assert forall|a: int, b: int|
            0 <= a < next.rows.len() && 0 <= b < next.rows.len() && (#[trigger] next.rows[a]).original == (
            #[trigger] next.rows[b]).original implies a == b by {
            assert(next.rows[a].original == s.rows[a].original);
            assert(next.rows[b].original == s.rows[b].original);
        }
        assert forall|a: int| 0 <= a < next.rows.len() implies (#[trigger] next.rows[a]).id
            <= next.last_id by {
            assert(next.rows[a].id == s.rows[a].id);
        }
        assert(next.rows[i].original == key);
    } else {
        let n = s.rows.len() as int;
        assert forall|a: int, b: int|
            0 <= a < next.rows.len() && 0 <= b < next.rows.len() && (#[trigger] next.rows[a]).original == (
            #[trigger] next.rows[b]).original implies a == b by {
            if a < n {
                assert(next.rows[a] == s.rows[a]);
            }
            if b < n {
                assert(next.rows[b] == s.rows[b]);
            }
        }
        assert forall|a: int| 0 <= a < next.rows.len() implies (#[trigger] next.rows[a]).id
            <= next.last_id by {
            if a < n {
                assert(next.rows[a] == s.rows[a]);
            }
        }
        assert(next.rows[n].original == key);
    }
}

/// A listing of rows with unique keys holds the row under a key that is
/// present exactly once.
pub proof fn lemma_listing_holds_key_once(rows: Seq<AtomView>, listing: Seq<AtomView>, key: Seq<char>) -> (k: int)
    requires
        keys_unique(rows),
        has_key(rows, key),
        is_listing(rows, listing),
    ensures
        listed_once_at(listing, key, k),
        listing[k] == rows[key_index(rows, key)],
{
    let perm = choose|perm: Seq<usize>|
        {
            &&& is_descending_order(usage_keys(rows), perm)
            &&& listing.len() == rows.len()
            &&& forall|k: int| 0 <= k < listing.len() ==> #[trigger] listing[k] == rows[perm[k] as int]
        };
    let i = key_index(rows, key);
    assert(perm.contains(i as usize));
    let k = choose|k: int| 0 <= k < perm.len() && perm[k] == i as usize;
    assert(listing[k] == rows[perm[k] as int]);
    assert forall|j: int| 0 <= j < listing.len() && j != k implies (#[trigger] listing[j]).original
        != key by {
        assert(listing[j] == rows[perm[j] as int]);
        if rows[perm[j] as int].original == key {
            assert(perm[j] as int == i);
            lemma_order_is_injective(usage_keys(rows), perm, j, k);
        }
    }
    k
}

/// Upsert is idempotent. After `upsert(o, t, s)` the listing holds exactly
/// one entry under the lower-cased term, with translation `t` and source
/// `s`. A second upsert of the same term cannot fail and updates that entry
/// in place: the listing has as many entries as before, exactly one of them
/// under the term, with the new translation and source and the identifier
/// it had.
pub proof fn lemma_upsert_is_idempotent(
    s: StoreView,
    o: Seq<char>,
    t: Seq<char>,
    source: AtomSource,
    now: i64,
    t2: Seq<char>,
    source2: AtomSource,
    now2: i64,
    listing: Seq<AtomView>,
    listing2: Seq<AtomView>,
) -> (places: (int, int))
    requires
        store_wf(s),
        put(s, lowercase_of(o), t, source, now) is Some,
        is_listing(put(s, lowercase_of(o), t, source, now)->0.rows, listing),
        put(put(s, lowercase_of(o), t, source, now)->0, lowercase_of(o), t2, source2, now2) is Some
            ==> is_listing(
            put(put(s, lowercase_of(o), t, source, now)->0, lowercase_of(o), t2, source2, now2)->0.rows,
            listing2,
        ),
    ensures
        listed_once_at(listing, lowercase_of(o), places.0),
        listing[places.0].translated == t,
        listing[places.0].source == source,
        put(put(s, lowercase_of(o), t, source, now)->0, lowercase_of(o), t2, source2, now2) is Some,
        listing2.len() == listing.len(),
        listed_once_at(listing2, lowercase_of(o), places.1),
        listing2[places.1].translated == t2,
        listing2[places.1].source == source2,
        listing2[places.1].id == listing[places.0].id,
{
    let key = lowercase_of(o);
    let first = put(s, key, t, source, now)->0;
    lemma_put_keeps_store_wf(s, key, t, source, now);
    let k = lemma_listing_holds_key_once(first.rows, listing, key);
    let i = key_index(first.rows, key);
    assert(first.rows[i].original == key);
    if has_key(s.rows, key) {
        let i0 = key_index(s.rows, key);
        assert(first.rows[i0].original == key);
        assert(i0 == i);
    } else {
        assert(first.rows[s.rows.len() as int].original == key);
        assert(i == s.rows.len());
    }
    let second = put(first, key, t2, source2, now2)->0;
    lemma_put_keeps_store_wf(first, key, t2, source2, now2);
    let k2 = lemma_listing_holds_key_once(second.rows, listing2, key);
    let i2 = key_index(second.rows, key);
    assert(second.rows[i].original == key);
    assert(second.rows[i2].original == key);
    assert(i2 == i);
    (k, k2)
}

/// Without entries there is nothing to substitute: a dictionary whose
/// automaton matches its empty index returns every text as it is.
pub proof fn lemma_empty_dictionary_is_identity(db: AtomicDB, text: Seq<char>, out: Seq<char>)
    requires
        db.in_sync(),
        db.index().len() == 0,
        db.is_substitution(text, out),
    ensures
        out == text,
{
}

/// An exact lookup finds only entries of the index, under the word looked
/// up.
pub proof fn lemma_lookup_hits_the_key(index: Seq<AtomView>, word: Seq<u8>)
    ensures
        lookup(index, word) matches Some(i) ==> 0 <= i < index.len() && bytes_of(index[i].original)
            == word,
{
    if exists|i: int| is_first_hit(index, word, i) {
        let i = choose|i: int| is_first_hit(index, word, i);
        assert(is_first_hit(index, word, i));
    }
}

/// A word resolves only to an entry of the index.
pub proof fn lemma_resolve_is_in_index(index: Seq<AtomView>, word: Seq<u8>)
    ensures
        resolve(index, word) matches Some(i) ==> 0 <= i < index.len(),
{
    lemma_lookup_hits_the_key(index, word);
    lemma_lookup_hits_the_key(index, crate::substitute::stem(word, 1));
    lemma_lookup_hits_the_key(index, crate::substitute::stem(word, 2));
    lemma_lookup_hits_the_key(
        index,
        crate::substitute::stem(word, 3).push(crate::matcher::LETTER_Y),
    );
}

/// Delete removes the term from both layers. After `delete(o)` the store is
/// well-formed and holds no entry under the lower-cased term, so no listing
/// of it shows one; and in an index that mirrors it no word resolves to
/// such an entry, so no annotation comes from it.
pub proof fn lemma_delete_removes_everywhere(s: StoreView, o: Seq<char>, listing: Seq<AtomView>, word: Seq<u8>)
    requires
        store_wf(s),
        is_listing(without_key(s.rows, lowercase_of(o)), listing),
    ensures
        keys_unique(without_key(s.rows, lowercase_of(o))),
        !has_key(without_key(s.rows, lowercase_of(o)), lowercase_of(o)),
        forall|k: int| 0 <= k < listing.len() ==> (#[trigger] listing[k]).original != lowercase_of(o),
        lookup(without_key(s.rows, lowercase_of(o)), bytes_of(lowercase_of(o))) is None,
        resolve(without_key(s.rows, lowercase_of(o)), word) matches Some(i) ==> without_key(
            s.rows,
            lowercase_of(o),
        )[i].original != lowercase_of(o),
{
    let key = lowercase_of(o);
    let rows = without_key(s.rows, key);
    if has_key(s.rows, key) {
        let i = key_index(s.rows, key);
        assert forall|k: int| 0 <= k < rows.len() implies #[trigger] rows[k] == s.rows[if k < i {
            k
        } else {
            k + 1
        }] by {}
        assert forall|a: int, b: int|
            0 <= a < rows.len() && 0 <= b < rows.len() && (#[trigger] rows[a]).original == (
            #[trigger] rows[b]).original implies a == b by {
            let a0 = if a < i { a } else { a + 1 };
            let b0 = if b < i { b } else { b + 1 };
            assert(s.rows[a0].original == s.rows[b0].original);
        }
        assert forall|k: int| 0 <= k < rows.len() implies (#[trigger] rows[k]).original != key by {
            let k0 = if k < i { k } else { k + 1 };
            assert(s.rows[k0].original == rows[k].original);
        }
    }
    assert(!has_key(rows, key));
    let perm = choose|perm: Seq<usize>|
        {
            &&& is_descending_order(usage_keys(rows), perm)
            &&& listing.len() == rows.len()
            &&& forall|k: int| 0 <= k < listing.len() ==> #[trigger] listing[k] == rows[perm[k] as int]
        };
    assert forall|k: int| 0 <= k < listing.len() implies (#[trigger] listing[k]).original != key by {
        assert(listing[k] == rows[perm[k] as int]);
        assert(perm[k] < rows.len());
    }
    lemma_lookup_hits_the_key(rows, bytes_of(key));
    if lookup(rows, bytes_of(key)) is Some {
        let i = lookup(rows, bytes_of(key))->0;
        lemma_bytes_of_injective(rows[i].original, key);
    }
    lemma_resolve_is_in_index(rows, word);
}

/// No two rewrites of a state intersect.
pub open spec fn rewrites_apart(done: Seq<Done>) -> bool {
    forall|a: int, b: int|
        0 <= a < b < done.len() ==> !((#[trigger] done[b]).start < (#[trigger] done[a]).end
            && done[a].start < done[b].end)
}

/// Whatever matches are handed in, and in whatever order, the rewrites that
/// a substitution makes never intersect.
pub proof fn lemma_rewrites_never_intersect(text: Seq<u8>, lowered: Seq<u8>, index: Seq<AtomView>, ms: Seq<(usize, usize)>)
    ensures
        rewrites_apart(rewrite_all(text, lowered, index, ms).done),
    decreases ms.len(),
{
    if ms.len() > 0 {
        lemma_rewrites_never_intersect(text, lowered, index, ms.drop_last());
        let st = rewrite_all(text, lowered, index, ms.drop_last());
        let m = ms.last();
        let next = step(text, lowered, index, st, m);
        if next.done.len() > st.done.len() {
            assert(!clashes(st.done, m));
            assert forall|a: int, b: int| 0 <= a < b < next.done.len() implies !((
            #[trigger] next.done[b]).start < (#[trigger] next.done[a]).end && next.done[a].start
                < next.done[b].end) by {
                if b < st.done.len() {
                    assert(next.done[a] == st.done[a] && next.done[b] == st.done[b]);
                } else {
                    assert(next.done[a] == st.done[a]);
                }
            }
        }
    }
}

/// A text in which nothing was matched comes back as it is.
pub proof fn lemma_no_match_no_change(text: Seq<u8>, lowered: Seq<u8>, index: Seq<AtomView>)
    ensures
        substituted(text, lowered, index, Seq::empty()).out == text,
{
    let ordered = crate::order::arranged(
        Seq::<(usize, usize)>::empty(),
        crate::substitute::start_keys(Seq::empty()),
    );
    assert(ordered.len() == 0);
}

/// Every entry that a substitution uses is an entry of the index.
pub proof fn lemma_used_are_index_entries(text: Seq<u8>, lowered: Seq<u8>, index: Seq<AtomView>, ms: Seq<(usize, usize)>)
    ensures
        forall|k: int|
            0 <= k < rewrite_all(text, lowered, index, ms).used.len() ==> 0 <= (
            #[trigger] rewrite_all(text, lowered, index, ms).used[k]) < index.len(),
    decreases ms.len(),
{
    if ms.len() > 0 {
        lemma_used_are_index_entries(text, lowered, index, ms.drop_last());
        let st = rewrite_all(text, lowered, index, ms.drop_last());
        let m = ms.last();
        let next = step(text, lowered, index, st, m);
        lemma_resolve_is_in_index(index, lowered.subrange(m.0 as int, m.1 as int));
        assert forall|k: int| 0 <= k < next.used.len() implies 0 <= (#[trigger] next.used[k])
            < index.len() by {
            if k < st.used.len() {
                assert(next.used[k] == st.used[k]);
            }
        }
    }
}

/// After `delete(o)` no substitution annotates from the deleted entry:
/// whatever the text and the matches, none of the entries used has the
/// lower-cased term as its key.
pub proof fn lemma_deleted_term_annotates_nothing(
    s: StoreView,
    o: Seq<char>,
    text: Seq<u8>,
    lowered: Seq<u8>,
    matches: Seq<(usize, usize)>,
)
    requires
        store_wf(s),
    ensures
        forall|k: int|
            0 <= k < substituted(
                text,
                lowered,
                without_key(s.rows, lowercase_of(o)),
                matches,
            ).used.len() ==> without_key(s.rows, lowercase_of(o))[(#[trigger] substituted(
                text,
                lowered,
                without_key(s.rows, lowercase_of(o)),
                matches,
            ).used[k])].original != lowercase_of(o),
{
    let key = lowercase_of(o);
    let rows = without_key(s.rows, key);
    let ordered = arranged(matches, start_keys(matches));
    lemma_used_are_index_entries(text, lowered, rows, ordered);
    if has_key(s.rows, key) {
        let i = key_index(s.rows, key);
        assert forall|k: int| 0 <= k < rows.len() implies (#[trigger] rows[k]).original != key by {
            let k0 = if k < i { k } else { k + 1 };
            assert(rows[k] == s.rows[k0]);
        }
    }
    let used = rewrite_all(text, lowered, rows, ordered).used;
    assert forall|k: int| 0 <= k < used.len() implies rows[(#[trigger] used[k])].original != key by {
        assert(0 <= used[k] < rows.len());
    }
}

/// A lone match that can be rewritten and resolves to an entry leaves the
/// text as it is written and puts the entry's translation, in
/// parentheses, right behind the matched span.
pub proof fn lemma_lone_match_is_annotated(text: Seq<u8>, lowered: Seq<u8>, index: Seq<AtomView>, m: (usize, usize))
    requires
        admissible(text, lowered, m),
        resolve(index, lowered.subrange(m.0 as int, m.1 as int)) is Some,
    ensures
        substituted(text, lowered, index, seq![m]).out == spliced(
            text,
            m.1 as int,
            note(index[resolve(index, lowered.subrange(m.0 as int, m.1 as int))->0].translated),
        ),
        substituted(text, lowered, index, seq![m]).used == seq![
            resolve(index, lowered.subrange(m.0 as int, m.1 as int))->0,
        ],
{
    let ms = seq![m];
    let keys = start_keys(ms);
    let identity = seq![0usize];
    assert(keys.len() == 1);
    assert(identity.contains(0usize)) by {
        assert(identity[0] == 0usize);
    }
    assert(is_descending_order(keys, identity));
    let chosen = descending_perm(keys);
    lemma_descending_order_unique(keys, identity, chosen);
    let ordered = arranged(ms, keys);
    assert(ordered =~= ms);
    assert(ms.drop_last() =~= Seq::<(usize, usize)>::empty());
    let start = rewrite_all(text, lowered, index, ms.drop_last());
    assert(start.done.len() == 0);
    assert(!clashes(start.done, m));
    assert(crate::substitute::shift(start.done, m.1 as int) == 0);
    assert(substituted(text, lowered, index, ms).used =~= seq![
        resolve(index, lowered.subrange(m.0 as int, m.1 as int))->0,
    ]);
}

/// Upsert is idempotent, as the dictionary shows it. When an upsert of
/// `(o, t, s)` has run to its end, the listing of all atoms holds exactly
/// one entry under the lower-cased term, with translation `t` and source
/// `s`, also where the rebuild of the automaton failed. A second upsert of
/// the term then finds the entry: it cannot fail for want of an
/// identifier, and the listing after it holds as many entries, one of them
/// under the term, with the new translation and source and the identifier
/// that the entry had.
pub proof fn lemma_upsert_atom_is_idempotent(
    pre: AtomicDB,
    mid: AtomicDB,
    post: AtomicDB,
    r: Result<(), AtomError>,
    r2: Result<(), AtomError>,
    o: Seq<char>,
    t: Seq<char>,
    source: AtomSource,
    now: i64,
    t2: Seq<char>,
    source2: AtomSource,
    now2: i64,
    listing: Seq<AtomView>,
    listing2: Seq<AtomView>,
) -> (places: (int, int))
    requires
        pre.wf(),
        put(pre.store_view(), lowercase_of(o), t, source, now) is Some,
        AtomicDB::settled(pre, mid, put(pre.store_view(), lowercase_of(o), t, source, now)->0, r),
        is_listing(mid.index(), listing),
        put(mid.store_view(), lowercase_of(o), t2, source2, now2) is Some ==> AtomicDB::settled(
            mid,
            post,
            put(mid.store_view(), lowercase_of(o), t2, source2, now2)->0,
            r2,
        ) && is_listing(post.index(), listing2),
    ensures
        listed_once_at(listing, lowercase_of(o), places.0),
        listing[places.0].translated == t,
        listing[places.0].source == source,
        put(mid.store_view(), lowercase_of(o), t2, source2, now2) is Some,
        listing2.len() == listing.len(),
        listed_once_at(listing2, lowercase_of(o), places.1),
        listing2[places.1].translated == t2,
        listing2[places.1].source == source2,
        listing2[places.1].id == listing[places.0].id,
{
    lemma_upsert_is_idempotent(
        pre.store_view(),
        o,
        t,
        source,
        now,
        t2,
        source2,
        now2,
        listing,
        listing2,
    )
}

/// Delete removes the term from both layers, as the dictionary shows it.
/// When a delete of `o` has run to its end, the listing of all atoms holds
/// no entry under the lower-cased term, and whatever text is substituted,
/// none of the entries used for it is under that term, also where the
/// rebuild of the automaton failed and the one in place still knows the
/// term. A text can still be annotated where it was: by the entry of
/// another term that it contains, or that it is a plural of.
pub proof fn lemma_delete_atom_removes_everywhere(
    pre: AtomicDB,
    post: AtomicDB,
    r: Result<(), AtomError>,
    o: Seq<char>,
    listing: Seq<AtomView>,
    text: Seq<char>,
)
    requires
        pre.wf(),
        AtomicDB::settled(
            pre,
            post,
            StoreView {
                rows: without_key(pre.store_view().rows, lowercase_of(o)),
                last_id: pre.store_view().last_id,
            },
            r,
        ),
        is_listing(post.index(), listing),
    ensures
        !has_key(post.index(), lowercase_of(o)),
        forall|k: int| 0 <= k < listing.len() ==> (#[trigger] listing[k]).original != lowercase_of(o),
        post.automaton() matches Some(automaton) ==> !used_keys(
            post.index(),
            substituted(
                bytes_of(text),
                bytes_of(lowercase_of(text)),
                post.index(),
                automaton_matches(automaton, lowercase_of(text)),
            ).used,
        ).contains(lowercase_of(o)),
{
    let s = pre.store_view();
    lemma_delete_removes_everywhere(s, o, listing, Seq::empty());
    if post.automaton() is Some {
        let automaton = post.automaton()->0;
        let matches = automaton_matches(automaton, lowercase_of(text));
        lemma_deleted_term_annotates_nothing(
            s,
            o,
            bytes_of(text),
            bytes_of(lowercase_of(text)),
            matches,
        );
        let used = substituted(
            bytes_of(text),
            bytes_of(lowercase_of(text)),
            post.index(),
            matches,
        ).used;
        let keys = used_keys(post.index(), used);
        if keys.contains(lowercase_of(o)) {
            let k = choose|k: int| 0 <= k < keys.len() && keys[k] == lowercase_of(o);
            assert(post.index()[used[k]].original == lowercase_of(o));
        }
    }
}

/// A batch is stored whole or not at all. Where one entry of a batch
/// cannot be stored once those before it are, the batch has no result,
/// whatever entries follow it; and a batch without result is what
/// `batch_upsert` answers with a failure that leaves the store, the index
/// and the automaton as they were.
pub proof fn lemma_failed_batch_changes_nothing(
    s: StoreView,
    before: Seq<(Seq<char>, Seq<char>, AtomSource)>,
    entry: (Seq<char>, Seq<char>, AtomSource),
    after: Seq<(Seq<char>, Seq<char>, AtomSource)>,
    now: i64,
)
    requires
        put_all(s, before, now) is Some,
        put(put_all(s, before, now)->0, lowercase_of(entry.0), entry.1, entry.2, now) is None,
    ensures
        put_all(s, before + seq![entry] + after, now) is None,
    decreases before.len(),
{
    let all = before + seq![entry] + after;
    if before.len() == 0 {
        assert(all[0] == entry);
    } else {
        let next = put(s, lowercase_of(before[0].0), before[0].1, before[0].2, now)->0;
        assert(all[0] == before[0]);
        assert(all.drop_first() =~= before.drop_first() + seq![entry] + after);
        lemma_failed_batch_changes_nothing(next, before.drop_first(), entry, after, now);
    }
}

/// The overlap rule. Of two matches that intersect, the one that starts
/// further right is annotated, where it can be rewritten and resolves to
/// an entry, and the other is dropped whole, in whichever order the two
/// were found: the outcome is that of the right match alone.
pub proof fn lemma_right_match_wins(
    text: Seq<u8>,
    lowered: Seq<u8>,
    index: Seq<AtomView>,
    left: (usize, usize),
    right: (usize, usize),
)
    requires
        left.0 < right.0,
        left.0 < right.1 && right.0 < left.1,
        admissible(text, lowered, right),
        resolve(index, lowered.subrange(right.0 as int, right.1 as int)) is Some,
    ensures
        substituted(text, lowered, index, seq![left, right]) == substituted(
            text,
            lowered,
            index,
            seq![right],
        ),
        substituted(text, lowered, index, seq![right, left]) == substituted(
            text,
            lowered,
            index,
            seq![right],
        ),
        substituted(text, lowered, index, seq![right]).out == spliced(
            text,
            right.1 as int,
            note(index[resolve(index, lowered.subrange(right.0 as int, right.1 as int))->0].translated),
        ),
        substituted(text, lowered, index, seq![right]).used == seq![
            resolve(index, lowered.subrange(right.0 as int, right.1 as int))->0,
        ],
{
    lemma_lone_match_is_annotated(text, lowered, index, right);
    let alone = seq![right];
    let alone_ordered = arranged(alone, start_keys(alone));
    assert(alone_ordered =~= alone) by {
        let keys = start_keys(alone);
        let identity = seq![0usize];
        assert(identity.contains(0usize)) by {
            assert(identity[0] == 0usize);
        }
        assert(is_descending_order(keys, identity));
        lemma_descending_order_unique(keys, identity, descending_perm(keys));
    }
    let both = seq![right, left];
    assert(both.drop_last() =~= alone);
    assert(both.last() == left);
    let after_right = rewrite_all(text, lowered, index, alone);
    assert(alone.drop_last() =~= Seq::<(usize, usize)>::empty());
    assert(alone.last() == right);
    let start = rewrite_all(text, lowered, index, alone.drop_last());
    assert(start.done.len() == 0);
    assert(!clashes(start.done, right));
    assert(after_right == step(text, lowered, index, start, right));
    assert(after_right.done.len() == 1);
    assert(after_right.done[0].start == right.0 && after_right.done[0].end == right.1);
    assert(clashes(after_right.done, left));
    assert(rewrite_all(text, lowered, index, both) == after_right);

    let found_left_first = seq![left, right];
    assert(arranged(found_left_first, start_keys(found_left_first)) =~= both) by {
        let keys = start_keys(found_left_first);
        let swap = seq![1usize, 0usize];
        assert(swap.contains(0usize)) by {
            assert(swap[1] == 0usize);
        }
        assert(swap.contains(1usize)) by {
            assert(swap[0] == 1usize);
        }
        assert(is_descending_order(keys, swap));
        lemma_descending_order_unique(keys, swap, descending_perm(keys));
    }
    let found_right_first = seq![right, left];
    assert(arranged(found_right_first, start_keys(found_right_first)) =~= both) by {
        let keys = start_keys(found_right_first);
        let keep = seq![0usize, 1usize];
        assert(keep.contains(0usize)) by {
            assert(keep[0] == 0usize);
        }
        assert(keep.contains(1usize)) by {
            assert(keep[1] == 1usize);
        }
        assert(is_descending_order(keys, keep));
        lemma_descending_order_unique(keys, keep, descending_perm(keys));
    }
}

} // verus!
