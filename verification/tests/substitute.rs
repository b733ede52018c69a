use sse_plugin_translator::atom::{AtomSource, AtomTranslation};
use sse_plugin_translator::atomic_db::AtomicDB;
use sse_plugin_translator::matcher::{has_suffix, pattern_strings};
use sse_plugin_translator::order::descending_order;
use sse_plugin_translator::substitute::{annotate, find_atom_by_normalization, resolve_word};
use sse_plugin_translator::text::{insert_text, range_eq, str_eq};

fn atom(original: &str, translated: &str) -> AtomTranslation {
    AtomTranslation {
        id: 1,
        original: original.to_string(),
        translated: translated.to_string(),
        usage_count: 0,
        source: AtomSource::Base,
        created_at: 0,
        updated_at: 0,
    }
}

#[test]
fn of_two_overlapping_matches_the_one_further_right_wins() {
    let index = vec![atom("redwood", "红木"), atom("wood", "木")];
    let (out, used) = annotate("Redwood", "redwood", &vec![(0, 7), (3, 7)], &index);
    assert_eq!(out, "Redwood(木)");
    assert_eq!(used, vec![1]);
    let (out, used) = annotate("Redwood", "redwood", &vec![(3, 7), (0, 7)], &index);
    assert_eq!(out, "Redwood(木)");
    assert_eq!(used, vec![1]);
}

#[test]
fn a_lone_match_of_the_longer_term_is_annotated() {
    let index = vec![atom("redwood", "红木"), atom("wood", "木")];
    let (out, used) = annotate("Redwood", "redwood", &vec![(0, 7)], &index);
    assert_eq!(out, "Redwood(红木)");
    assert_eq!(used, vec![0]);
}

#[test]
fn matches_are_applied_from_the_right() {
    let index = vec![atom("argonian", "亚龙人"), atom("savangard", "松加德")];
    let text = "The Argonian waits in Savangard.";
    let lowered = "the argonian waits in savangard.";
    let (out, used) = annotate(text, lowered, &vec![(4, 12), (22, 31)], &index);
    assert_eq!(out, "The Argonian(亚龙人) waits in Savangard(松加德).");
    assert_eq!(used, vec![1, 0]);
}

#[test]
fn a_match_that_resolves_to_nothing_is_dropped_and_blocks_nothing() {
    let index = vec![atom("dog", "狗")];
    let (out, used) = annotate("doges dog", "doges dog", &vec![(0, 5), (6, 9)], &index);
    assert_eq!(out, "doges(狗) dog(狗)");
    assert_eq!(used, vec![0, 0]);
    let index = vec![atom("wood", "木")];
    let (out, used) = annotate("redwood", "redwood", &vec![(0, 7), (3, 7)], &index);
    assert_eq!(out, "redwood(木)");
    assert_eq!(used, vec![0]);
    let (out, used) = annotate("redwood", "redwood", &vec![(0, 6), (0, 3)], &index);
    assert_eq!(out, "redwood");
    assert!(used.is_empty());
}

#[test]
fn a_match_outside_the_text_or_inside_a_character_is_skipped() {
    let index = vec![atom("a", "甲"), atom("天", "sky")];
    assert_eq!(annotate("a", "a", &vec![(0, 100)], &index).0, "a");
    assert_eq!(annotate("a", "a", &vec![(1, 0)], &index).0, "a");
    assert_eq!(annotate("天际", "天际", &vec![(1, 3)], &index).0, "天际");
    assert_eq!(annotate("天际", "天际", &vec![(0, 2)], &index).0, "天际");
    assert_eq!(annotate("天际", "天际", &vec![(0, 3)], &index).0, "天(sky)际");
    assert_eq!(annotate("a", "a", &vec![], &index).0, "a");
    assert_eq!(annotate("", "", &vec![(0, 1)], &index).0, "");
}

#[test]
fn a_match_beyond_the_shorter_of_text_and_copy_is_skipped() {
    let index = vec![atom("wood", "木")];
    assert_eq!(annotate("wood", "woo", &vec![(0, 4)], &index).0, "wood");
    assert_eq!(annotate("woo", "wood", &vec![(0, 4)], &index).0, "woo");
}

#[test]
fn the_span_keeps_its_case() {
    let index = vec![atom("skyrim", "天际")];
    let text = "Welcome to SKYRIM and Skyrim!";
    let lowered = text.to_lowercase();
    let (out, _) = annotate(text, &lowered, &vec![(11, 17), (22, 28)], &index);
    assert_eq!(out, "Welcome to SKYRIM(天际) and Skyrim(天际)!");
}

#[test]
fn empty_matches_insert_the_note_in_place() {
    let index = vec![atom("", "x"), atom("b", "B")];
    let (out, _) = annotate("ab", "ab", &vec![(0, 0), (1, 1), (2, 2)], &index);
    assert_eq!(out, "(x)a(x)b(x)");
    let (out, used) = annotate("ab", "ab", &vec![(1, 1), (1, 2)], &index);
    assert_eq!(out, "a(x)b(B)");
    assert_eq!(used, vec![0, 1]);
    let (out, _) = annotate("ab", "ab", &vec![(2, 2), (1, 2)], &index);
    assert_eq!(out, "ab(B)(x)");
}

#[test]
fn equal_starts_keep_the_order_found() {
    let index = vec![atom("ab", "first"), atom("a", "second")];
    assert_eq!(annotate("ab", "ab", &vec![(0, 2), (0, 1)], &index).0, "ab(first)");
    assert_eq!(annotate("ab", "ab", &vec![(0, 1), (0, 2)], &index).0, "a(second)b");
}

#[test]
fn text_whose_lower_case_has_another_length_is_left_where_offsets_do_not_fit() {
    let mut db = AtomicDB::new();
    db.upsert_atom_at("wood", "木", AtomSource::Base, 1).unwrap();
    assert_eq!(db.replace_with_atoms("İstanbul wood"), "İstanbul wood");
    assert_eq!(db.replace_with_atoms("wood İ"), "wood(木) İ");
}

#[test]
fn resolution_prefers_the_exact_key_then_the_shortest_cut() {
    let index = vec![atom("cat", "猫"), atom("cats", "猫群"), atom("berry", "浆果"), atom("box", "盒")];
    assert_eq!(resolve_word(&index, b"cats", 0, 4), Some(1));
    assert_eq!(resolve_word(&index, b"cat", 0, 3), Some(0));
    assert_eq!(resolve_word(&index, b"catss", 0, 5), Some(1));
    assert_eq!(resolve_word(&index, b"cates", 0, 5), Some(0));
    assert_eq!(resolve_word(&index, b"boxes", 0, 5), Some(3));
    assert_eq!(resolve_word(&index, b"berries", 0, 7), Some(2));
    assert_eq!(resolve_word(&index, b"dogs", 0, 4), None);
    assert_eq!(resolve_word(&index, b"xx cats", 3, 7), Some(1));
    assert_eq!(resolve_word(&index, b"xx cats", 3, 6), Some(0));
}

#[test]
fn normalization_skips_the_exact_key() {
    let index = vec![atom("cat", "猫"), atom("cats", "猫群"), atom("berry", "浆果")];
    assert_eq!(find_atom_by_normalization(&index, b"cats", 0, 4), Some(0));
    assert_eq!(find_atom_by_normalization(&index, b"cat", 0, 3), None);
    assert_eq!(find_atom_by_normalization(&index, b"berries", 0, 7), Some(2));
    assert_eq!(find_atom_by_normalization(&index, b"catses", 0, 6), Some(1));
}

#[test]
fn short_words_are_not_cut() {
    let index = vec![atom("a", "A"), atom("ab", "AB"), atom("y", "Y"), atom("ay", "AY"), atom("", "E")];
    assert_eq!(resolve_word(&index, b"as", 0, 2), None);
    assert_eq!(resolve_word(&index, b"abs", 0, 3), Some(1));
    assert_eq!(resolve_word(&index, b"aes", 0, 3), None);
    assert_eq!(resolve_word(&index, b"abes", 0, 4), Some(1));
    assert_eq!(resolve_word(&index, b"ies", 0, 3), None);
    assert_eq!(resolve_word(&index, b"aies", 0, 4), None);
    assert_eq!(resolve_word(&index, b"aaies", 0, 5), None);
    assert_eq!(resolve_word(&index, b"s", 0, 1), None);
    assert_eq!(resolve_word(&index, b"", 0, 0), Some(4));
    let index = vec![atom("aay", "AAY"), atom("ai", "AI")];
    assert_eq!(resolve_word(&index, b"aaies", 0, 5), Some(0));
    assert_eq!(resolve_word(&index, b"aies", 0, 4), Some(1));
}

#[test]
fn patterns_are_keys_and_plurals_longest_first() {
    let index = vec![atom("dog", "狗"), atom("glass", "玻璃"), atom("boxes", "盒")];
    assert_eq!(
        pattern_strings(&index),
        vec!["glasses", "glass", "boxes", "doges", "dogs", "dog"]
    );
    assert!(pattern_strings(&vec![]).is_empty());
}

#[test]
fn suffixes() {
    assert!(has_suffix(b"cats", b"s"));
    assert!(has_suffix(b"boxes", b"es"));
    assert!(!has_suffix(b"s", b"es"));
    assert!(has_suffix(b"", b""));
    assert!(!has_suffix(b"cat", b"s"));
}

#[test]
fn descending_order_is_stable() {
    assert_eq!(descending_order(&vec![2, 7, 2, 9, 7]), vec![3, 1, 4, 0, 2]);
    assert_eq!(descending_order(&vec![]), Vec::<usize>::new());
    assert_eq!(descending_order(&vec![-1, -1]), vec![0, 1]);
}

#[test]
fn text_helpers() {
    assert!(str_eq("天际", "天际"));
    assert!(!str_eq("a", "b"));
    assert!(!str_eq("a", "ab"));
    assert!(range_eq(b"hello", 1, 3, b"el"));
    assert!(!range_eq(b"hello", 1, 3, b"ll"));
    assert!(!range_eq(b"hello", 1, 3, b"ell"));
    assert_eq!(insert_text("天际", 3, "(x)"), "天(x)际");
    assert_eq!(insert_text("ab", 0, "x"), "xab");
    assert_eq!(insert_text("ab", 2, "x"), "abx");
}
