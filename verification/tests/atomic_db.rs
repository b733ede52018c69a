use sse_plugin_translator::atom::{AtomSource, AtomTranslation};
use sse_plugin_translator::atomic_db::AtomicDB;
use sse_plugin_translator::clock::{now_timestamp, timestamp_of};
use sse_plugin_translator::error::AtomError;

fn row(id: i64, original: &str, translated: &str, usage_count: i32) -> AtomTranslation {
    AtomTranslation {
        id,
        original: original.to_string(),
        translated: translated.to_string(),
        usage_count,
        source: AtomSource::Base,
        created_at: 10,
        updated_at: 10,
    }
}

#[test]
fn test_atomic_db_basic() {
    let mut db = AtomicDB::new();

    db.upsert_atom("savangard", "松加德", AtomSource::Base)
        .unwrap();
    db.upsert_atom("argonian", "亚龙人", AtomSource::Base)
        .unwrap();

    let input = "The Argonian waits in Savangard.";
    let output = db.replace_with_atoms(input);
    assert!(output.contains("Argonian(亚龙人)"));
    assert!(output.contains("Savangard(松加德)"));
}

#[test]
fn test_plural_matching() {
    let mut db = AtomicDB::new();

    db.upsert_atom("argonian", "亚龙人", AtomSource::Base)
        .unwrap();

    let input = "Many argonians live here.";
    let output = db.replace_with_atoms(input);
    println!("Input:  {}", input);
    println!("Output: {}", output);
    assert!(output.contains("argonians(亚龙人)"));
}

#[test]
fn test_case_insensitive() {
    let mut db = AtomicDB::new();

    db.upsert_atom("skyrim", "天际", AtomSource::Base).unwrap();

    let input = "Welcome to SKYRIM and Skyrim!";
    let output = db.replace_with_atoms(input);
    assert!(output.contains("SKYRIM(天际)"));
    assert!(output.contains("Skyrim(天际)"));
}

#[test]
fn exact_output_of_a_substitution() {
    let mut db = AtomicDB::new();
    db.upsert_atom_at("savangard", "松加德", AtomSource::Base, 1).unwrap();
    db.upsert_atom_at("argonian", "亚龙人", AtomSource::Base, 2).unwrap();
    assert_eq!(
        db.replace_with_atoms("The Argonian waits in Savangard."),
        "The Argonian(亚龙人) waits in Savangard(松加德)."
    );
    assert_eq!(
        db.replace_with_atoms("Welcome to SAVANGARD, argonians!"),
        "Welcome to SAVANGARD(松加德), argonians(亚龙人)!"
    );
}

#[test]
fn empty_dictionary_returns_the_text() {
    let db = AtomicDB::new();
    assert!(!db.has_matcher());
    assert_eq!(db.replace_with_atoms("Hello World"), "Hello World");
    assert_eq!(db.replace_with_atoms(""), "");
    let (out, used) = db.replace_with_usage("Hello World");
    assert_eq!(out, "Hello World");
    assert!(used.is_empty());
}

#[test]
fn text_without_a_term_is_unchanged() {
    let mut db = AtomicDB::new();
    db.upsert_atom_at("skyrim", "天际", AtomSource::Base, 1).unwrap();
    assert_eq!(db.replace_with_atoms("Nothing to see here."), "Nothing to see here.");
    assert_eq!(db.replace_with_atoms(""), "");
}

#[test]
fn upsert_is_idempotent_and_keeps_the_id() {
    let mut db = AtomicDB::new();
    db.upsert_atom_at("Skyrim", "天际", AtomSource::Base, 100).unwrap();
    let all = db.get_all_atoms();
    assert_eq!(all.len(), 1);
    assert_eq!(all[0].original, "skyrim");
    assert_eq!(all[0].translated, "天际");
    assert_eq!(all[0].source, AtomSource::Base);
    assert_eq!(all[0].id, 1);
    assert_eq!(all[0].usage_count, 0);
    assert_eq!(all[0].created_at, 100);
    assert_eq!(all[0].updated_at, 100);

    db.upsert_atom_at("SKYRIM", "天际省", AtomSource::Manual, 200).unwrap();
    let all = db.get_all_atoms();
    assert_eq!(all.len(), 1);
    assert_eq!(all[0].original, "skyrim");
    assert_eq!(all[0].translated, "天际省");
    assert_eq!(all[0].source, AtomSource::Manual);
    assert_eq!(all[0].id, 1);
    assert_eq!(all[0].created_at, 100);
    assert_eq!(all[0].updated_at, 200);
}

#[test]
fn upsert_stores_the_lower_cased_term() {
    let mut db = AtomicDB::new();
    db.upsert_atom_at("DRAGONBORN", "龙裔", AtomSource::AI, 5).unwrap();
    let all = db.get_all_atoms();
    assert_eq!(all[0].original, "dragonborn");
    assert_eq!(db.replace_with_atoms("The Dragonborn comes"), "The Dragonborn(龙裔) comes");
}

#[test]
fn delete_removes_the_term_from_listing_and_substitution() {
    let mut db = AtomicDB::new();
    db.upsert_atom_at("skyrim", "天际", AtomSource::Base, 1).unwrap();
    db.upsert_atom_at("whiterun", "雪漫", AtomSource::Base, 2).unwrap();
    db.delete_atom("Skyrim").unwrap();
    let all = db.get_all_atoms();
    assert_eq!(all.len(), 1);
    assert_eq!(all[0].original, "whiterun");
    assert_eq!(db.replace_with_atoms("skyrim"), "skyrim");
    assert_eq!(db.replace_with_atoms("Skyrim and Whiterun"), "Skyrim and Whiterun(雪漫)");
}

#[test]
fn delete_of_the_last_term_leaves_no_matcher() {
    let mut db = AtomicDB::new();
    db.upsert_atom_at("skyrim", "天际", AtomSource::Base, 1).unwrap();
    assert!(db.has_matcher());
    db.delete_atom("skyrim").unwrap();
    assert!(!db.has_matcher());
    assert!(db.get_all_atoms().is_empty());
    assert_eq!(db.replace_with_atoms("skyrim"), "skyrim");
}

#[test]
fn delete_of_an_absent_term_is_no_error() {
    let mut db = AtomicDB::new();
    db.upsert_atom_at("skyrim", "天际", AtomSource::Base, 1).unwrap();
    assert_eq!(db.delete_atom("riften"), Ok(()));
    assert_eq!(db.get_all_atoms().len(), 1);
}

#[test]
fn a_deleted_plural_is_still_found_through_its_singular() {
    let mut db = AtomicDB::new();
    db.upsert_atom_at("cat", "猫", AtomSource::Base, 1).unwrap();
    db.upsert_atom_at("cats", "猫群", AtomSource::Base, 2).unwrap();
    assert_eq!(db.replace_with_atoms("cats"), "cats(猫群)");
    db.delete_atom("cats").unwrap();
    assert_eq!(db.replace_with_atoms("cats"), "cats(猫)");
}

#[test]
fn update_by_id_changes_translation_and_source() {
    let mut db = AtomicDB::new();
    db.upsert_atom_at("skyrim", "天际", AtomSource::Base, 1).unwrap();
    db.upsert_atom_at("whiterun", "雪漫", AtomSource::Base, 2).unwrap();
    db.update_atom_at(2, "雪漫城", AtomSource::Manual, 9).unwrap();
    let all = db.get_all_atoms();
    assert_eq!(all[1].id, 2);
    assert_eq!(all[1].original, "whiterun");
    assert_eq!(all[1].translated, "雪漫城");
    assert_eq!(all[1].source, AtomSource::Manual);
    assert_eq!(all[1].created_at, 2);
    assert_eq!(all[1].updated_at, 9);
    assert_eq!(all[0].translated, "天际");
    assert_eq!(db.replace_with_atoms("Whiterun"), "Whiterun(雪漫城)");
}

#[test]
fn update_of_an_unknown_id_is_not_found() {
    let mut db = AtomicDB::new();
    db.upsert_atom_at("skyrim", "天际", AtomSource::Base, 1).unwrap();
    assert_eq!(db.update_atom_at(7, "x", AtomSource::AI, 2), Err(AtomError::NotFound));
    assert_eq!(db.update_atom(7, "x", AtomSource::AI), Err(AtomError::NotFound));
    let all = db.get_all_atoms();
    assert_eq!(all.len(), 1);
    assert_eq!(all[0].translated, "天际");
    assert_eq!(all[0].updated_at, 1);
}

#[test]
fn batch_upsert_applies_every_entry() {
    let mut db = AtomicDB::new();
    db.batch_upsert(vec![
        ("Skyrim", "天际", AtomSource::Base),
        ("Whiterun", "雪漫", AtomSource::AI),
        ("skyrim", "天际省", AtomSource::Manual),
    ])
    .unwrap();
    let all = db.get_all_atoms();
    assert_eq!(all.len(), 2);
    assert_eq!(all[0].original, "skyrim");
    assert_eq!(all[0].translated, "天际省");
    assert_eq!(all[0].source, AtomSource::Manual);
    assert_eq!(all[0].id, 1);
    assert_eq!(all[1].original, "whiterun");
    assert_eq!(all[1].id, 2);
    assert_eq!(db.replace_with_atoms("Skyrim, Whiterun"), "Skyrim(天际省), Whiterun(雪漫)");
}

#[test]
fn batch_upsert_is_all_or_nothing() {
    let mut db = AtomicDB::from_rows(vec![row(i64::MAX, "skyrim", "天际", 3)]).unwrap();
    let r = db.batch_upsert_at(
        &vec![("skyrim", "天际省", AtomSource::Manual), ("whiterun", "雪漫", AtomSource::AI)],
        50,
    );
    assert_eq!(r, Err(AtomError::StoreFull));
    let all = db.get_all_atoms();
    assert_eq!(all.len(), 1);
    assert_eq!(all[0].translated, "天际");
    assert_eq!(all[0].source, AtomSource::Base);
    assert_eq!(all[0].updated_at, 10);
    assert_eq!(db.store().len(), 1);
    assert_eq!(db.replace_with_atoms("Skyrim"), "Skyrim(天际)");

    let r = db.batch_upsert_at(&vec![("skyrim", "天际省", AtomSource::Manual)], 60);
    assert_eq!(r, Ok(()));
    assert_eq!(db.get_all_atoms()[0].translated, "天际省");
}

#[test]
fn a_full_store_refuses_a_new_term() {
    let mut db = AtomicDB::from_rows(vec![row(i64::MAX, "skyrim", "天际", 0)]).unwrap();
    assert_eq!(db.upsert_atom("whiterun", "雪漫", AtomSource::Base), Err(AtomError::StoreFull));
    assert_eq!(db.get_all_atoms().len(), 1);
    assert_eq!(db.upsert_atom("skyrim", "天际省", AtomSource::Base), Ok(()));
}

#[test]
fn listing_is_by_descending_usage_and_stable() {
    let db = AtomicDB::from_rows(vec![
        row(1, "a", "A", 2),
        row(2, "b", "B", 7),
        row(3, "c", "C", 2),
        row(4, "d", "D", 9),
    ])
    .unwrap();
    let all = db.get_all_atoms();
    let keys: Vec<&str> = all.iter().map(|a| a.original.as_str()).collect();
    assert_eq!(keys, vec!["d", "b", "a", "c"]);
}

#[test]
fn loading_replaces_an_earlier_row_with_the_same_key() {
    let db = AtomicDB::from_rows(vec![row(1, "a", "first", 0), row(2, "b", "B", 0), row(5, "a", "second", 0)])
        .unwrap();
    let all = db.get_all_atoms();
    assert_eq!(all.len(), 2);
    assert_eq!(all[0].original, "b");
    assert_eq!(all[1].original, "a");
    assert_eq!(all[1].translated, "second");
    assert_eq!(all[1].id, 5);
}

#[test]
fn loading_replaces_an_earlier_row_with_the_same_id() {
    let mut db =
        AtomicDB::from_rows(vec![row(1, "a", "A", 0), row(2, "b", "B", 0), row(1, "c", "C", 0)]).unwrap();
    let all = db.get_all_atoms();
    assert_eq!(all.len(), 2);
    assert_eq!(all[0].original, "b");
    assert_eq!(all[1].original, "c");
    assert_eq!(all[1].id, 1);
    db.update_atom_at(1, "changed", AtomSource::Manual, 3).unwrap();
    let all = db.get_all_atoms();
    assert_eq!(all[0].translated, "B");
    assert_eq!(all[1].translated, "changed");
    assert_eq!(db.replace_with_atoms("a b c"), "a b(B) c(changed)");
}

#[test]
fn a_row_that_shares_key_and_id_with_two_rows_replaces_both() {
    let db =
        AtomicDB::from_rows(vec![row(1, "a", "A", 0), row(2, "b", "B", 0), row(2, "a", "new", 0)]).unwrap();
    let all = db.get_all_atoms();
    assert_eq!(all.len(), 1);
    assert_eq!(all[0].original, "a");
    assert_eq!(all[0].translated, "new");
    assert_eq!(all[0].id, 2);
}

#[test]
fn new_ids_follow_the_largest_loaded_id() {
    let mut db = AtomicDB::from_rows(vec![row(41, "a", "A", 0)]).unwrap();
    db.upsert_atom_at("b", "B", AtomSource::Base, 1).unwrap();
    let all = db.get_all_atoms();
    assert_eq!(all[1].id, 42);
}

#[test]
fn usage_counts_lag_in_the_index_until_the_next_mutation() {
    let mut db = AtomicDB::new();
    db.upsert_atom_at("skyrim", "天际", AtomSource::Base, 1).unwrap();
    let (out, used) = db.replace_with_usage("Skyrim and SKYRIM");
    assert_eq!(out, "Skyrim(天际) and SKYRIM(天际)");
    assert_eq!(used, vec!["skyrim".to_string(), "skyrim".to_string()]);
    for key in used.iter() {
        db.increment_usage(key);
    }
    assert_eq!(db.get_all_atoms()[0].usage_count, 0);
    assert_eq!(db.store().get("skyrim").unwrap().usage_count, 2);
    db.upsert_atom_at("whiterun", "雪漫", AtomSource::Base, 2).unwrap();
    assert_eq!(db.get_all_atoms()[0].usage_count, 2);
    assert_eq!(db.get_all_atoms()[0].original, "skyrim");
}

#[test]
fn usage_count_stays_at_its_maximum() {
    let mut db = AtomicDB::from_rows(vec![row(1, "a", "A", i32::MAX)]).unwrap();
    db.increment_usage("a");
    assert_eq!(db.store().get("a").unwrap().usage_count, i32::MAX);
    db.increment_usage("missing");
    assert_eq!(db.store().len(), 1);
}

#[test]
fn the_whole_term_wins_over_a_term_inside_it() {
    let mut db = AtomicDB::new();
    db.upsert_atom_at("redwood", "红木", AtomSource::Base, 1).unwrap();
    db.upsert_atom_at("wood", "木", AtomSource::Base, 2).unwrap();
    assert_eq!(db.replace_with_atoms("Redwood"), "Redwood(红木)");
    assert_eq!(db.replace_with_atoms("wood"), "wood(木)");
}

#[test]
fn plural_fallbacks() {
    let mut db = AtomicDB::new();
    db.upsert_atom_at("box", "盒子", AtomSource::Base, 1).unwrap();
    db.upsert_atom_at("argonian", "亚龙人", AtomSource::Base, 2).unwrap();
    assert_eq!(db.replace_with_atoms("boxes"), "boxes(盒子)");
    assert_eq!(db.replace_with_atoms("Argonians"), "Argonians(亚龙人)");
    assert_eq!(db.replace_with_atoms("boxs"), "boxs(盒子)");
}

#[test]
fn empty_translation_gives_empty_parentheses() {
    let mut db = AtomicDB::new();
    db.upsert_atom_at("skyrim", "", AtomSource::Base, 1).unwrap();
    assert_eq!(db.replace_with_atoms("Skyrim"), "Skyrim()");
}

#[test]
fn error_messages() {
    assert_eq!(AtomError::NotFound.message(), "atom not found");
    assert_eq!(AtomError::StoreFull.message(), "atom store is full");
    assert_eq!(
        AtomError::AutomatonBuild("too many".to_string()).message(),
        "failed to build the matcher: too many"
    );
}

#[test]
fn source_tags() {
    assert_eq!(AtomSource::Base.as_str(), "base");
    assert_eq!(AtomSource::AI.as_str(), "ai");
    assert_eq!(AtomSource::Manual.as_str(), "manual");
    assert_eq!(AtomSource::from_str("base"), AtomSource::Base);
    assert_eq!(AtomSource::from_str("ai"), AtomSource::AI);
    assert_eq!(AtomSource::from_str("manual"), AtomSource::Manual);
    assert_eq!(AtomSource::from_str("other"), AtomSource::Manual);
    assert_eq!(AtomSource::from_str(""), AtomSource::Manual);
    assert_eq!(AtomSource::from_str("Base"), AtomSource::Manual);
    assert_eq!(AtomSource::from_label("base"), AtomSource::Base);
    assert_eq!(AtomSource::from_label("Base"), AtomSource::Base);
    assert_eq!(AtomSource::from_label("ai"), AtomSource::AI);
    assert_eq!(AtomSource::from_label("AI"), AtomSource::AI);
    assert_eq!(AtomSource::from_label("Ai"), AtomSource::Manual);
    assert_eq!(AtomSource::from_label("manual"), AtomSource::Manual);
    assert_eq!(AtomSource::from_label(""), AtomSource::Manual);
}

#[test]
fn timestamps_of_clock_readings() {
    assert_eq!(timestamp_of(None), 0);
    assert_eq!(timestamp_of(Some(0)), 0);
    assert_eq!(timestamp_of(Some(1_700_000_000)), 1_700_000_000);
    assert_eq!(timestamp_of(Some(i64::MAX as u64)), i64::MAX);
    assert_eq!(timestamp_of(Some(i64::MAX as u64 + 1)), i64::MAX);
    assert_eq!(timestamp_of(Some(u64::MAX)), i64::MAX);
}

#[test]
fn the_clock_reads_no_time_before_the_epoch() {
    assert!(now_timestamp() >= 0);
}
