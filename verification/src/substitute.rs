//! The substitution engine: given a text, its lower-cased copy, the matches
//! that the automaton found in the copy and the index, it annotates every
//! recognised term of the text with its translation.

use crate::atom::{atom_views, AtomTranslation, AtomView};
use crate::matcher::{
    ends_with, suffix_es, suffix_ies, suffix_s, LETTER_E, LETTER_I, LETTER_S, LETTER_Y,
};
use crate::order::{arranged, descending_order};
use crate::text::{bytes_of, insert_text, lemma_spliced_is_text, spliced};
use vstd::prelude::*;
use vstd::string::*;
use vstd::utf8::*;

verus! {

/// Entry `i` is the first of the index whose key has exactly the bytes of
/// `word`.
pub open spec fn is_first_hit(index: Seq<AtomView>, word: Seq<u8>, i: int) -> bool {
    &&& 0 <= i < index.len()
    &&& bytes_of(index[i].original) == word
    &&& forall|j: int| 0 <= j < i ==> bytes_of((#[trigger] index[j]).original) != word
}

/// Exact lookup: the position of the entry whose key is `word`.
pub open spec fn lookup(index: Seq<AtomView>, word: Seq<u8>) -> Option<int> {
    if exists|i: int| is_first_hit(index, word, i) {
        Some(choose|i: int| is_first_hit(index, word, i))
    } else {
        None
    }
}

/// `word` without its last `cut` bytes.
pub open spec fn stem(word: Seq<u8>, cut: int) -> Seq<u8> {
    word.subrange(0, word.len() - cut)
}

/// The entry that a word is traced back to when it is read as a plural.
/// The rules are tried in this order and the first hit wins: a word of
/// more than two bytes that ends in `s`, without the `s`; a word of more
/// than three bytes that ends in `es`, without the `es`; a word of more
/// than four bytes that ends in `ies`, with `y` in its place.
pub open spec fn normalized(index: Seq<AtomView>, word: Seq<u8>) -> Option<int> {
    let by_s = if ends_with(word, suffix_s()) && word.len() > 2 {
        lookup(index, stem(word, 1))
    } else {
        None
    };
    let by_es = if ends_with(word, suffix_es()) && word.len() > 3 {
        lookup(index, stem(word, 2))
    } else {
        None
    };
    let by_ies = if ends_with(word, suffix_ies()) && word.len() > 4 {
        lookup(index, stem(word, 3).push(LETTER_Y))
    } else {
        None
    };
    if by_s is Some {
        by_s
    } else if by_es is Some {
        by_es
    } else {
        by_ies
    }
}

/// The entry that a matched word resolves to: the entry under the word
/// itself, or failing that the entry that it is traced back to as a
/// plural.
pub open spec fn resolve(index: Seq<AtomView>, word: Seq<u8>) -> Option<int> {
    let exact = lookup(index, word);
    if exact is Some {
        exact
    } else {
        normalized(index, word)
    }
}

/// A rewrite that was made: the byte range of the match in the text, and
/// the length of the note that was put behind it.
pub struct Done {
    pub start: int,
    pub end: int,
    pub note_len: int,
}

/// The state of a substitution: the text as rewritten so far, the rewrites
/// made, and the index positions of the entries used, in the order of use.
pub struct Rewrite {
    pub out: Seq<u8>,
    pub done: Seq<Done>,
    pub used: Seq<int>,
}

/// A match can be rewritten at all: its range lies within the text and its
/// lower-cased copy, and falls on character boundaries of both.
pub open spec fn admissible(text: Seq<u8>, lowered: Seq<u8>, m: (usize, usize)) -> bool {
    &&& m.0 <= m.1
    &&& m.1 <= text.len()
    &&& m.1 <= lowered.len()
    &&& is_char_boundary(text, m.0 as int)
    &&& is_char_boundary(text, m.1 as int)
    &&& is_char_boundary(lowered, m.0 as int)
    &&& is_char_boundary(lowered, m.1 as int)
}

/// The match intersects a range that was already rewritten.
pub open spec fn clashes(done: Seq<Done>, m: (usize, usize)) -> bool {
    exists|k: int| 0 <= k < done.len() && m.0 < (#[trigger] done[k]).end && done[k].start < m.1
}

/// By how many bytes the text before offset `p` has grown: the lengths of
/// the notes put behind matches that end before `p`.
pub open spec fn shift(done: Seq<Done>, p: int) -> int
    decreases done.len(),
{
    if done.len() == 0 {
        0
    } else {
        shift(done.drop_last(), p) + if done.last().end < p {
            done.last().note_len
        } else {
            0
        }
    }
}

/// The note put behind a matched span: the translation in parentheses.
pub open spec fn note(translated: Seq<char>) -> Seq<u8> {
    bytes_of("("@ + translated + ")"@)
}

/// One match applied to the state. A match that is not admissible, that
/// clashes with a rewrite already made, or that resolves to no entry leaves
/// the state as it is. Otherwise the matched span of the text stays as it
/// is written and the note is put right behind it.
pub open spec fn step(text: Seq<u8>, lowered: Seq<u8>, index: Seq<AtomView>, st: Rewrite, m: (usize, usize)) -> Rewrite {
    if !admissible(text, lowered, m) || clashes(st.done, m) {
        st
    } else {
        match resolve(index, lowered.subrange(m.0 as int, m.1 as int)) {
            None => st,
            Some(i) => {
                let piece = note(index[i].translated);
                Rewrite {
                    out: spliced(st.out, m.1 + shift(st.done, m.1 as int), piece),
                    done: st.done.push(
                        Done { start: m.0 as int, end: m.1 as int, note_len: piece.len() as int },
                    ),
                    used: st.used.push(i),
                }
            },
        }
    }
}

/// The matches applied in the order given, starting from the text itself.
pub open spec fn rewrite_all(text: Seq<u8>, lowered: Seq<u8>, index: Seq<AtomView>, ms: Seq<(usize, usize)>) -> Rewrite
    decreases ms.len(),
{
    if ms.len() == 0 {
        Rewrite { out: text, done: Seq::empty(), used: Seq::empty() }
    } else {
        step(text, lowered, index, rewrite_all(text, lowered, index, ms.drop_last()), ms.last())
    }
}

/// The start offsets of the matches, as sort keys.
pub open spec fn start_keys(ms: Seq<(usize, usize)>) -> Seq<i128> {
    ms.map_values(|m: (usize, usize)| m.0 as i128)
}

/// The outcome of a substitution: the matches are taken by descending start
/// offset, matches with the same start in the order found, and applied in
/// that order.
pub open spec fn substituted(text: Seq<u8>, lowered: Seq<u8>, index: Seq<AtomView>, matches: Seq<(usize, usize)>) -> Rewrite {
    rewrite_all(text, lowered, index, arranged(matches, start_keys(matches)))
}

/// The sum of the lengths of all notes.
pub open spec fn total(done: Seq<Done>) -> int
    decreases done.len(),
{
    if done.len() == 0 {
        0
    } else {
        total(done.drop_last()) + done.last().note_len
    }
}

/// What holds of every state that a substitution passes through: the
/// rewritten text is well-formed, it is the text grown by the notes, and
/// every character boundary of the text is still one at its shifted offset.
pub open spec fn state_ok(text: Seq<u8>, st: Rewrite) -> bool {
    &&& valid_utf8(st.out)
    &&& st.out.len() == text.len() + total(st.done)
    &&& forall|k: int| 0 <= k < st.done.len() ==> (#[trigger] st.done[k]).note_len >= 0
    &&& forall|p: int|
        0 <= p <= text.len() && is_char_boundary(text, p) ==> is_char_boundary(
            st.out,
            p + #[trigger] shift(st.done, p),
        )
}

proof fn lemma_shift_bounds(done: Seq<Done>, p: int, q: int)
    requires
        forall|k: int| 0 <= k < done.len() ==> (#[trigger] done[k]).note_len >= 0,
        p <= q,
    ensures
        0 <= shift(done, p) <= shift(done, q) <= total(done),
    decreases done.len(),
{
    if done.len() > 0 {
        let rest = done.drop_last();
        assert forall|k: int| 0 <= k < rest.len() implies (#[trigger] rest[k]).note_len >= 0 by {
            assert(rest[k] == done[k]);
        }
        lemma_shift_bounds(rest, p, q);
        assert(done.last() == done[done.len() - 1]);
    }
}

proof fn lemma_step_ok(text: Seq<u8>, lowered: Seq<u8>, index: Seq<AtomView>, st: Rewrite, m: (usize, usize))
    requires
        valid_utf8(text),
        state_ok(text, st),
    ensures
        state_ok(text, step(text, lowered, index, st, m)),
{
    let next = step(text, lowered, index, st, m);
    if !admissible(text, lowered, m) || clashes(st.done, m) {
    } else {
        match resolve(index, lowered.subrange(m.0 as int, m.1 as int)) {
            None => {},
            Some(i) => {
                let e = m.1 as int;
                let piece = note(index[i].translated);
                let pos = e + shift(st.done, e);
                let d = Done { start: m.0 as int, end: e, note_len: piece.len() as int };
                encode_utf8_valid_utf8("("@ + index[i].translated + ")"@);
                lemma_shift_bounds(st.done, e, e);
                assert(is_char_boundary(st.out, e + shift(st.done, e)));
                lemma_spliced_is_text(st.out, pos, piece);
                assert(next.done.drop_last() =~= st.done);
                assert(next.done.last() == d);
                assert forall|k: int| 0 <= k < next.done.len() implies (#[trigger] next.done[k]).note_len
                    >= 0 by {
                    if k < st.done.len() {
                        assert(next.done[k] == st.done[k]);
                    }
                }
                assert forall|p: int|
                    0 <= p <= text.len() && is_char_boundary(text, p) implies is_char_boundary(
                    next.out,
                    p + #[trigger] shift(next.done, p),
                ) by {
                    let q = p + shift(st.done, p);
                    assert(is_char_boundary(st.out, q));
                    if e < p {
                        lemma_shift_bounds(st.done, e, p);
                        assert(is_char_boundary(spliced(st.out, pos, piece), q + piece.len()));
                    } else {
                        lemma_shift_bounds(st.done, p, e);
                        assert(is_char_boundary(spliced(st.out, pos, piece), q));
                    }
                }
            },
        }
    }
}

/// Every substitution ends in a state that is well-formed.
pub proof fn lemma_rewrite_ok(text: Seq<u8>, lowered: Seq<u8>, index: Seq<AtomView>, ms: Seq<(usize, usize)>)
    requires
        valid_utf8(text),
    ensures
        state_ok(text, rewrite_all(text, lowered, index, ms)),
    decreases ms.len(),
{
    if ms.len() == 0 {
        is_char_boundary_start_end_of_seq(text);
    } else {
        lemma_rewrite_ok(text, lowered, index, ms.drop_last());
        lemma_step_ok(
            text,
            lowered,
            index,
            rewrite_all(text, lowered, index, ms.drop_last()),
            ms.last(),
        );
    }
}

/// Whether `key` is the bytes of `hay` from `start` up to `end`, followed
/// by `tail`.
fn word_eq(key: &[u8], hay: &[u8], start: usize, end: usize, tail: &[u8]) -> (r: bool)
    requires
        start <= end <= hay.len(),
    ensures
        r == (key@ == hay@.subrange(start as int, end as int) + tail@),
{
    let n = end - start;
    let ghost word = hay@.subrange(start as int, end as int) + tail@;
    if key.len() < n {
        return false;
    }
    if key.len() - n != tail.len() {
        return false;
    }
    let mut i: usize = 0;
    while i < n
        invariant
            start <= end <= hay.len(),
            n == end - start,
            key.len() == n + tail.len(),
            word == hay@.subrange(start as int, end as int) + tail@,
            0 <= i <= n,
            forall|k: int| 0 <= k < i ==> key@[k] == word[k],
        decreases n - i,
    {
        if key[i] != hay[start + i] {
            assert(key@[i as int] != word[i as int]);
            return false;
        }
        i += 1;
    }
    let mut j: usize = 0;
    while j < tail.len()
        invariant
            n == end - start,
            key.len() == n + tail.len(),
            word == hay@.subrange(start as int, end as int) + tail@,
            word.len() == key.len(),
            0 <= j <= tail.len(),
            forall|k: int| 0 <= k < n + j ==> key@[k] == word[k],
        decreases tail.len() - j,
    {
        if key[n + j] != tail[j] {
            assert(key@[n + j] != word[n + j]);
            return false;
        }
        j += 1;
    }
    assert(key@ =~= word);
    true
}

/// Exact lookup of the word made of the bytes of `hay` from `start` up to
/// `end`, followed by `tail`.
fn find_key(index: &Vec<AtomTranslation>, hay: &[u8], start: usize, end: usize, tail: &[u8]) -> (r: Option<usize>)
    requires
        start <= end <= hay.len(),
    ensures
        match lookup(atom_views(index@), hay@.subrange(start as int, end as int) + tail@) {
            Some(i) => r == Some(i as usize) && 0 <= i < index.len(),
            None => r is None,
        },
{
    let ghost rows = atom_views(index@);
    let ghost word = hay@.subrange(start as int, end as int) + tail@;
    let mut i: usize = 0;
    while i < index.len()
        invariant
            start <= end <= hay.len(),
            rows == atom_views(index@),
            word == hay@.subrange(start as int, end as int) + tail@,
            0 <= i <= index.len(),
            forall|j: int| 0 <= j < i ==> bytes_of((#[trigger] rows[j]).original) != word,
        decreases index.len() - i,
    {
        let key = index[i].original.as_str().as_bytes();
        assert(key@ == bytes_of(rows[i as int].original));
        if word_eq(key, hay, start, end, tail) {
            proof {
                assert(is_first_hit(rows, word, i as int));
                let c = choose|c: int| is_first_hit(rows, word, c);
                assert(is_first_hit(rows, word, c));
                if c < i {
                    assert(bytes_of(rows[c].original) != word);
                }
                if i < c {
                    assert(bytes_of(rows[i as int].original) != word);
                }
            }
            return Some(i);
        }
        i += 1;
    }
    proof {
        if exists|c: int| is_first_hit(rows, word, c) {
            let c = choose|c: int| is_first_hit(rows, word, c);
            assert(bytes_of(rows[c].original) != word);
        }
    }
    None
}

/// The entry that the word made of the bytes of `hay` from `start` up to
/// `end` is traced back to when it is read as a plural.
pub fn find_atom_by_normalization(index: &Vec<AtomTranslation>, hay: &[u8], start: usize, end: usize) -> (r: Option<usize>)
    requires
        start <= end <= hay.len(),
    ensures
        match normalized(atom_views(index@), hay@.subrange(start as int, end as int)) {
            Some(i) => r == Some(i as usize) && 0 <= i < index.len(),
            None => r is None,
        },
{
    let ghost word = hay@.subrange(start as int, end as int);
    let none: [u8; 0] = [];
    let letter_y: [u8; 1] = [LETTER_Y];
    let n = end - start;
    let ends_s = n >= 1 && hay[end - 1] == LETTER_S;
    let ends_es = n >= 2 && hay[end - 2] == LETTER_E && hay[end - 1] == LETTER_S;
    let ends_ies = n >= 3 && hay[end - 3] == LETTER_I && hay[end - 2] == LETTER_E && hay[end - 1]
        == LETTER_S;
    proof {
        if n >= 1 {
            assert(word.subrange(word.len() - 1, word.len() as int) =~= seq![word[n - 1]]);
            assert(suffix_s() =~= seq![LETTER_S]);
            assert(seq![word[n - 1]] == seq![LETTER_S] <==> word[n - 1] == LETTER_S) by {
                if seq![word[n - 1]] == seq![LETTER_S] {
                    assert(seq![word[n - 1]][0] == seq![LETTER_S][0]);
                }
            }
        }
        if n >= 2 {
            let tail = word.subrange(word.len() - 2, word.len() as int);
            assert(tail =~= seq![word[n - 2], word[n - 1]]);
            if tail == suffix_es() {
                assert(tail[0] == suffix_es()[0] && tail[1] == suffix_es()[1]);
            }
            if word[n - 2] == LETTER_E && word[n - 1] == LETTER_S {
                assert(tail =~= suffix_es());
            }
        }
        if n >= 3 {
            let tail = word.subrange(word.len() - 3, word.len() as int);
            assert(tail =~= seq![word[n - 3], word[n - 2], word[n - 1]]);
            if tail == suffix_ies() {
                assert(tail[0] == suffix_ies()[0] && tail[1] == suffix_ies()[1] && tail[2]
                    == suffix_ies()[2]);
            }
            if word[n - 3] == LETTER_I && word[n - 2] == LETTER_E && word[n - 1] == LETTER_S {
                assert(tail =~= suffix_ies());
            }
        }
        assert(ends_s == ends_with(word, suffix_s()));
        assert(ends_es == ends_with(word, suffix_es()));
        assert(ends_ies == ends_with(word, suffix_ies()));
    }
    if ends_s && n > 2 {
        assert(hay@.subrange(start as int, end - 1) + none@ =~= stem(word, 1));
        let hit = find_key(index, hay, start, end - 1, none.as_slice());
        if hit.is_some() {
            return hit;
        }
    }
    if ends_es && n > 3 {
        assert(hay@.subrange(start as int, end - 2) + none@ =~= stem(word, 2));
        let hit = find_key(index, hay, start, end - 2, none.as_slice());
        if hit.is_some() {
            return hit;
        }
    }
    if ends_ies && n > 4 {
        assert(hay@.subrange(start as int, end - 3) + letter_y@ =~= stem(word, 3).push(LETTER_Y));
        let hit = find_key(index, hay, start, end - 3, letter_y.as_slice());
        return hit;
    }
    None
}

/// The entry that the word made of the bytes of `hay` from `start` up to
/// `end` resolves to.
pub fn resolve_word(index: &Vec<AtomTranslation>, hay: &[u8], start: usize, end: usize) -> (r: Option<usize>)
    requires
        start <= end <= hay.len(),
    ensures
        match resolve(atom_views(index@), hay@.subrange(start as int, end as int)) {
            Some(i) => r == Some(i as usize) && 0 <= i < index.len(),
            None => r is None,
        },
{
    let none: [u8; 0] = [];
    assert(hay@.subrange(start as int, end as int) + none@ =~= hay@.subrange(
        start as int,
        end as int,
    ));
    let exact = find_key(index, hay, start, end, none.as_slice());
    if exact.is_some() {
        return exact;
    }
    find_atom_by_normalization(index, hay, start, end)
}

/// The rewrites of a list, as plain values.
pub open spec fn done_views(done: Seq<(usize, usize, usize)>) -> Seq<Done> {
    done.map_values(
        |d: (usize, usize, usize)| Done { start: d.0 as int, end: d.1 as int, note_len: d.2 as int },
    )
}

/// The positions of a list, as plain values.
pub open spec fn position_views(used: Seq<usize>) -> Seq<int> {
    used.map_values(|i: usize| i as int)
}

/// Whether the match intersects a range that was already rewritten.
fn clashes_with(done: &Vec<(usize, usize, usize)>, start: usize, end: usize) -> (r: bool)
    ensures
        r == clashes(done_views(done@), (start, end)),
{
    let ghost model = done_views(done@);
    let mut k: usize = 0;
    while k < done.len()
        invariant
            0 <= k <= done.len(),
            model == done_views(done@),
            forall|j: int| 0 <= j < k ==> !(start < (#[trigger] model[j]).end && model[j].start < end),
        decreases done.len() - k,
    {
        let (ps, pe, _) = done[k];
        assert(model[k as int].start == ps && model[k as int].end == pe);
        if start < pe && ps < end {
            return true;
        }
        k += 1;
    }
    false
}

/// By how many bytes the text before offset `p` has grown.
fn shift_of(done: &Vec<(usize, usize, usize)>, p: usize, Ghost(bound): Ghost<int>) -> (r: usize)
    requires
        total(done_views(done@)) <= bound <= usize::MAX,
    ensures
        r == shift(done_views(done@), p as int),
{
    let ghost model = done_views(done@);
    let mut acc: usize = 0;
    let mut k: usize = 0;
    assert(model.subrange(0, 0) =~= Seq::<Done>::empty());
    while k < done.len()
        invariant
            0 <= k <= done.len(),
            model == done_views(done@),
            total(model) <= bound <= usize::MAX,
            acc == shift(model.subrange(0, k as int), p as int),
        decreases done.len() - k,
    {
        let (_, pe, note_len) = done[k];
        proof {
            let part = model.subrange(0, k + 1);
            assert(part.drop_last() =~= model.subrange(0, k as int));
            assert(part.last() == model[k as int]);
            assert forall|j: int| 0 <= j < model.len() implies (#[trigger] model[j]).note_len
                >= 0 by {}
            assert forall|j: int| 0 <= j < part.len() implies (#[trigger] part[j]).note_len
                >= 0 by {}
            lemma_shift_bounds(part, p as int, p as int);
            lemma_total_of_prefix(model, k + 1);
        }
        if pe < p {
            acc = acc + note_len;
        }
        k += 1;
    }
    assert(model.subrange(0, done.len() as int) =~= model);
    acc
}

proof fn lemma_total_of_prefix(done: Seq<Done>, k: int)
    requires
        forall|j: int| 0 <= j < done.len() ==> (#[trigger] done[j]).note_len >= 0,
        0 <= k <= done.len(),
    ensures
        0 <= total(done.subrange(0, k)) <= total(done),
    decreases done.len() - k,
{
    if k == done.len() {
        assert(done.subrange(0, k) =~= done);
        lemma_shift_bounds(done, 0, 0);
    } else {
        lemma_total_of_prefix(done, k + 1);
        let part = done.subrange(0, k + 1);
        assert(part.drop_last() =~= done.subrange(0, k));
        assert(part.last() == done[k]);
        assert forall|j: int| 0 <= j < done.subrange(0, k).len() implies (
        #[trigger] done.subrange(0, k)[j]).note_len >= 0 by {}
        lemma_shift_bounds(done.subrange(0, k), 0, 0);
    }
}

/// Annotates the recognised terms of `text`. `lowered` is the lower-cased
/// copy that was scanned and `matches` the byte ranges found in it. The
/// result is the rewritten text together with the index positions of the
/// entries used, in the order of use.
pub fn annotate(text: &str, lowered: &str, matches: &Vec<(usize, usize)>, index: &Vec<AtomTranslation>) -> (r: (
    String,
    Vec<usize>,
))
    ensures
        bytes_of(r.0@) == substituted(
            bytes_of(text@),
            bytes_of(lowered@),
            atom_views(index@),
            matches@,
        ).out,
        position_views(r.1@) == substituted(
            bytes_of(text@),
            bytes_of(lowered@),
            atom_views(index@),
            matches@,
        ).used,
        forall|k: int| 0 <= k < r.1.len() ==> (#[trigger] r.1[k]) < index.len(),
{
    let ghost t = bytes_of(text@);
    let ghost l = bytes_of(lowered@);
    let ghost rows = atom_views(index@);
    let low = lowered.as_bytes();
    let text_len = text.as_bytes().len();
    let mut starts: Vec<i128> = Vec::new();
    let mut i: usize = 0;
    while i < matches.len()
        invariant
            0 <= i <= matches.len(),
            starts.len() == i,
            forall|k: int| 0 <= k < i ==> #[trigger] starts[k] == matches[k].0 as i128,
        decreases matches.len() - i,
    {
        starts.push(matches[i].0 as i128);
        i += 1;
    }
    assert(starts@ =~= start_keys(matches@));
    let perm = descending_order(&starts);
    let ghost ordered = arranged(matches@, start_keys(matches@));
    let mut out = String::from_str(text);
    let mut done: Vec<(usize, usize, usize)> = Vec::new();
    let mut used: Vec<usize> = Vec::new();
    let mut n: usize = 0;
    proof {
        encode_utf8_valid_utf8(text@);
        assert(ordered.subrange(0, 0) =~= Seq::<(usize, usize)>::empty());
        assert(done_views(done@) =~= Seq::<Done>::empty());
        assert(position_views(used@) =~= Seq::<int>::empty());
    }
    while n < perm.len()
        invariant
            0 <= n <= perm.len(),
            perm.len() == matches.len(),
            perm@ == crate::order::descending_perm(start_keys(matches@)),
            forall|a: int| 0 <= a < perm.len() ==> (#[trigger] perm[a]) < matches.len(),
            ordered == arranged(matches@, start_keys(matches@)),
            t == bytes_of(text@),
            l == bytes_of(lowered@),
            low@ == l,
            text_len == t.len(),
            rows == atom_views(index@),
            valid_utf8(t),
            bytes_of(out@) == rewrite_all(t, l, rows, ordered.subrange(0, n as int)).out,
            done_views(done@) == rewrite_all(t, l, rows, ordered.subrange(0, n as int)).done,
            position_views(used@) == rewrite_all(t, l, rows, ordered.subrange(0, n as int)).used,
            forall|k: int| 0 <= k < used.len() ==> (#[trigger] used[k]) < index.len(),
        decreases perm.len() - n,
    {
        let (start, end) = matches[perm[n]];
        let ghost before = rewrite_all(t, l, rows, ordered.subrange(0, n as int));
        proof {
            let part = ordered.subrange(0, n + 1);
            assert(part.drop_last() =~= ordered.subrange(0, n as int));
            assert(part.last() == (start, end));
            lemma_rewrite_ok(t, l, rows, ordered.subrange(0, n as int));
        }
        let fits = start <= end && end <= text_len && end <= low.len() && text.is_char_boundary(start)
            && text.is_char_boundary(end) && lowered.is_char_boundary(start)
            && lowered.is_char_boundary(end);
        assert(fits == admissible(t, l, (start, end)));
        if fits && !clashes_with(&done, start, end) {
            match resolve_word(index, low, start, end) {
                Some(hit) => {
                    let mut piece = String::from_str("(");
                    piece.append(index[hit].translated.as_str());
                    piece.append(")");
                    assert(bytes_of(piece@) == note(rows[hit as int].translated));
                    let out_len = out.as_str().as_bytes().len();
                    let piece_len = piece.as_str().as_bytes().len();
                    proof {
                        lemma_shift_bounds(before.done, end as int, end as int);
                    }
                    let grown = shift_of(&done, end, Ghost(out_len - text_len));
                    let pos = end + grown;
                    let ghost old_done = done_views(done@);
                    let ghost old_used = position_views(used@);
                    out = insert_text(out.as_str(), pos, piece.as_str());
                    done.push((start, end, piece_len));
                    used.push(hit);
                    assert(done_views(done@) =~= old_done.push(
                        Done { start: start as int, end: end as int, note_len: piece_len as int },
                    ));
                    assert(position_views(used@) =~= old_used.push(hit as int));
                },
                None => {},
            }
        }
        n += 1;
    }
    assert(ordered.subrange(0, perm.len() as int) =~= ordered);
    (out, used)
}

} // verus!
