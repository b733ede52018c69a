//! The match automaton: a multi-pattern matcher built from the dictionary's
//! keys and their plural variants.

use crate::atom::{atom_views, AtomTranslation, AtomView};
use crate::order::{arranged, descending_order};
use crate::text::bytes_of;
use vstd::prelude::*;
use vstd::string::*;

verus! {

/// `AhoCorasick` of aho-corasick: a built automaton, carried as it is.
#[verifier::external_type_specification]
#[verifier::external_body]
pub struct ExAhoCorasick(aho_corasick::AhoCorasick);

/// `BuildError` of aho-corasick: why an automaton could not be built.
#[verifier::external_type_specification]
#[verifier::external_body]
pub struct ExBuildError(aho_corasick::BuildError);

/// The patterns that an automaton was built from, in the order given.
pub uninterp spec fn automaton_patterns(automaton: aho_corasick::AhoCorasick) -> Seq<Seq<char>>;

/// The byte ranges, as start and end offsets, of the matches that an
/// automaton finds in a haystack when it scans it from left to right without
/// overlap.
pub uninterp spec fn automaton_matches(automaton: aho_corasick::AhoCorasick, haystack: Seq<char>) -> Seq<(usize, usize)>;

/// The texts of a list of strings.
pub open spec fn string_views(strings: Seq<String>) -> Seq<Seq<char>> {
    strings.map_values(|s: String| s@)
}

/// Which of the matches that start at one place an automaton reports.
#[derive(Clone, Copy, Debug, PartialEq, Eq, Structural)]
pub enum MatchPolicy {
    /// The match that is found first.
    Standard,
    /// The match of the pattern that was given first.
    LeftmostFirst,
    /// The longest match.
    LeftmostLongest,
}

/// Whether an automaton was built to take an ASCII letter for the same in
/// either case.
pub uninterp spec fn automaton_ignores_ascii_case(automaton: aho_corasick::AhoCorasick) -> bool;

/// Whether an automaton was built to report, of the matches that start
/// leftmost, the longest.
pub uninterp spec fn automaton_is_leftmost_longest(automaton: aho_corasick::AhoCorasick) -> bool;

/// Whether the builder makes an automaton of these patterns under these
/// settings. It refuses a pattern set that is beyond one of its limits: the
/// number of states, the number of patterns, the length of a pattern.
pub uninterp spec fn automaton_builds(
    patterns: Seq<Seq<char>>,
    ignore_ascii_case: bool,
    leftmost_longest: bool,
    leftmost_first: bool,
) -> bool;

/// `AhoCorasickBuilder::build` of aho-corasick, on a new builder set with
/// `ascii_case_insensitive` and `match_kind` as the arguments say. The
/// contract claims that whether an automaton is built depends on the
/// patterns and the settings alone, and that an automaton that was built
/// holds what it was built with: the patterns, the handling of case and
/// the match policy. It does not say for which pattern sets the builder
/// succeeds.
#[verifier::external_body]
pub(crate) fn build_automaton(patterns: &Vec<String>, ignore_ascii_case: bool, policy: MatchPolicy) -> (r: Result<
    aho_corasick::AhoCorasick,
    aho_corasick::BuildError,
>)
    ensures
        r is Ok <==> automaton_builds(
            string_views(patterns@),
            ignore_ascii_case,
            policy is LeftmostLongest,
            policy is LeftmostFirst,
        ),
        r matches Ok(automaton) ==> automaton_patterns(automaton) == string_views(patterns@)
            && automaton_ignores_ascii_case(automaton) == ignore_ascii_case
            && automaton_is_leftmost_longest(automaton) == (policy is LeftmostLongest),
{
    let kind = match policy {
        MatchPolicy::Standard => aho_corasick::MatchKind::Standard,
        MatchPolicy::LeftmostFirst => aho_corasick::MatchKind::LeftmostFirst,
        MatchPolicy::LeftmostLongest => aho_corasick::MatchKind::LeftmostLongest,
    };
    aho_corasick::AhoCorasickBuilder::new()
        .ascii_case_insensitive(ignore_ascii_case)
        .match_kind(kind)
        .build(patterns)
}

/// `AhoCorasick::try_find_iter` of aho-corasick, each match handed out as
/// its start and end offset. The contract names the list of matches and
/// claims nothing else of it; an automaton that cannot run the search
/// reports no match.
#[verifier::external_body]
pub(crate) fn find_matches(automaton: &aho_corasick::AhoCorasick, haystack: &str) -> (r: Vec<
    (usize, usize),
>)
    ensures
        r@ == automaton_matches(*automaton, haystack@),
{
    match automaton.try_find_iter(haystack) {
        Ok(found) => found.map(|m| (m.start(), m.end())).collect(),
        Err(_) => Vec::new(),
    }
}

/// The text of a `BuildError` of aho-corasick, as its `Display` gives it.
/// Nothing is claimed of the text.
#[verifier::external_body]
pub(crate) fn describe_build_error(error: &aho_corasick::BuildError) -> (r: String) {
    format!("{}", error)
}

/// The byte of the letter `s`.
pub const LETTER_S: u8 = 115;

/// The byte of the letter `e`.
pub const LETTER_E: u8 = 101;

/// The byte of the letter `i`.
pub const LETTER_I: u8 = 105;

/// The byte of the letter `y`.
pub const LETTER_Y: u8 = 121;

/// The bytes of the suffix `s`.
pub open spec fn suffix_s() -> Seq<u8> {
    seq![LETTER_S]
}

/// The bytes of the suffix `es`.
pub open spec fn suffix_es() -> Seq<u8> {
    seq![LETTER_E, LETTER_S]
}

/// The bytes of the suffix `ies`.
pub open spec fn suffix_ies() -> Seq<u8> {
    seq![LETTER_I, LETTER_E, LETTER_S]
}

/// `word` ends with the bytes of `suffix`.
pub open spec fn ends_with(word: Seq<u8>, suffix: Seq<u8>) -> bool {
    word.len() >= suffix.len() && word.subrange(word.len() - suffix.len(), word.len() as int)
        == suffix
}

/// The plural forms generated for a key: the key with `s` appended unless
/// it ends in `s`, then the key with `es` appended unless it ends in `es`.
pub open spec fn plural_variants(key: Seq<char>) -> Seq<Seq<char>> {
    let with_s = if ends_with(bytes_of(key), suffix_s()) {
        Seq::<Seq<char>>::empty()
    } else {
        seq![key + "s"@]
    };
    let with_es = if ends_with(bytes_of(key), suffix_es()) {
        Seq::<Seq<char>>::empty()
    } else {
        seq![key + "es"@]
    };
    with_s + with_es
}

/// The plural forms of all keys, key by key.
pub open spec fn all_variants(keys: Seq<Seq<char>>) -> Seq<Seq<char>>
    decreases keys.len(),
{
    if keys.len() == 0 {
        Seq::empty()
    } else {
        all_variants(keys.drop_last()) + plural_variants(keys.last())
    }
}

/// The keys of a list of entries.
pub open spec fn keys_of(rows: Seq<AtomView>) -> Seq<Seq<char>> {
    rows.map_values(|r: AtomView| r.original)
}

/// The byte lengths of the patterns, as sort keys.
pub open spec fn length_keys(patterns: Seq<Seq<char>>) -> Seq<i128> {
    patterns.map_values(|p: Seq<char>| bytes_of(p).len() as i128)
}

/// The pattern set of a dictionary: every key, then every generated plural
/// form, the whole arranged with longer patterns first.
pub open spec fn pattern_list(keys: Seq<Seq<char>>) -> Seq<Seq<char>> {
    let plain = keys + all_variants(keys);
    arranged(plain, length_keys(plain))
}

/// Whether `word` ends with the bytes of `suffix`.
pub fn has_suffix(word: &[u8], suffix: &[u8]) -> (r: bool)
    ensures
        r == ends_with(word@, suffix@),
{
    if word.len() < suffix.len() {
        return false;
    }
    crate::text::range_eq(word, word.len() - suffix.len(), word.len(), suffix)
}

/// The patterns that the matcher is built from for these entries.
pub fn pattern_strings(index: &Vec<AtomTranslation>) -> (r: Vec<String>)
    ensures
        string_views(r@) == pattern_list(keys_of(atom_views(index@))),
{
    let ghost keys = keys_of(atom_views(index@));
    let mut plain: Vec<String> = Vec::new();
    let mut i: usize = 0;
    while i < index.len()
        invariant
            0 <= i <= index.len(),
            keys == keys_of(atom_views(index@)),
            string_views(plain@) == keys.subrange(0, i as int),
        decreases index.len() - i,
    {
        let ghost before = string_views(plain@);
        plain.push(index[i].original.clone());
        assert(string_views(plain@) =~= before.push(keys[i as int]));
        assert(keys.subrange(0, i + 1) =~= keys.subrange(0, i as int).push(keys[i as int]));
        i += 1;
    }
    assert(keys.subrange(0, index.len() as int) =~= keys);
    let suffix_s: [u8; 1] = [LETTER_S];
    let suffix_es: [u8; 2] = [LETTER_E, LETTER_S];
    assert(suffix_s@ =~= self::suffix_s());
    assert(suffix_es@ =~= self::suffix_es());
    let mut k: usize = 0;
    assert(keys.subrange(0, 0) =~= Seq::<Seq<char>>::empty());
    assert(keys + Seq::<Seq<char>>::empty() =~= keys);
    while k < index.len()
        invariant
            0 <= k <= index.len(),
            keys == keys_of(atom_views(index@)),
            suffix_s@ == self::suffix_s(),
            suffix_es@ == self::suffix_es(),
            string_views(plain@) == keys + all_variants(keys.subrange(0, k as int)),
        decreases index.len() - k,
    {
        let key = &index[k].original;
        let ghost before = string_views(plain@);
        let ghost done = all_variants(keys.subrange(0, k as int));
        proof {
            let part = keys.subrange(0, k + 1);
            assert(part.drop_last() =~= keys.subrange(0, k as int));
            assert(part.last() == key@);
        }
        let bytes = key.as_str().as_bytes();
        if !has_suffix(bytes, suffix_s.as_slice()) {
            let mut plural = key.clone();
            plural.append("s");
            plain.push(plural);
        }
        let ghost middle = string_views(plain@);
        assert(middle =~= before + if ends_with(bytes_of(key@), self::suffix_s()) {
            Seq::<Seq<char>>::empty()
        } else {
            seq![key@ + "s"@]
        });
        if !has_suffix(bytes, suffix_es.as_slice()) {
            let mut plural = key.clone();
            plural.append("es");
            plain.push(plural);
        }
        assert(string_views(plain@) =~= middle + if ends_with(bytes_of(key@), self::suffix_es()) {
            Seq::<Seq<char>>::empty()
        } else {
            seq![key@ + "es"@]
        });
        assert(string_views(plain@) =~= keys + (done + plural_variants(key@)));
        k += 1;
    }
    assert(keys.subrange(0, index.len() as int) =~= keys);
    let mut lengths: Vec<i128> = Vec::new();
    let mut j: usize = 0;
    while j < plain.len()
        invariant
            0 <= j <= plain.len(),
            lengths.len() == j,
            forall|n: int| 0 <= n < j ==> #[trigger] lengths[n] == bytes_of(plain[n]@).len() as i128,
        decreases plain.len() - j,
    {
        lengths.push(plain[j].as_str().as_bytes().len() as i128);
        j += 1;
    }
    assert(lengths@ =~= length_keys(string_views(plain@)));
    let perm = descending_order(&lengths);
    let mut out: Vec<String> = Vec::new();
    let mut n: usize = 0;
    while n < perm.len()
        invariant
            0 <= n <= perm.len(),
            perm.len() == plain.len(),
            forall|a: int| 0 <= a < perm.len() ==> (#[trigger] perm[a]) < plain.len(),
            out.len() == n,
            forall|a: int| 0 <= a < n ==> (#[trigger] out[a])@ == plain[perm[a] as int]@,
        decreases perm.len() - n,
    {
        out.push(plain[perm[n]].clone());
        n += 1;
    }
    assert(string_views(out@) =~= arranged(
        string_views(plain@),
        length_keys(string_views(plain@)),
    ));
    out
}

} // verus!
