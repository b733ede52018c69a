use sse_plugin_translator::coverage::{
    coverage_entries_of, effective_limit, progress_update, snapshot_entries, CoverageExtractionStats,
};
use sse_plugin_translator::dsd::{collect_overrides, is_json_extension, DsdEntry};
use sse_plugin_translator::extraction::ExtractionStats;
use sse_plugin_translator::name_order::{ascending_order, bytes_lt};
use sse_plugin_translator::scanner::{order_plugins, parse_loadorder, PluginInfo};
use sse_plugin_translator::sql::{
    batch_ranges, like_pattern, placeholders, search_entries_query, SqlValue,
};
use sse_plugin_translator::translation::Translation;

fn texts(values: &Vec<SqlValue>) -> Vec<String> {
    values
        .iter()
        .map(|v| match v {
            SqlValue::Text(t) => format!("T:{}", t),
            SqlValue::Integer(n) => format!("I:{}", n),
        })
        .collect()
}

fn plugin(name: &str) -> PluginInfo {
    PluginInfo { name: name.to_string(), path: format!("Data/{}", name) }
}

fn names(plugins: &Vec<PluginInfo>) -> Vec<String> {
    plugins.iter().map(|p| p.name.clone()).collect()
}

const HEAD: &str = "SELECT form_id, record_type, subrecord_type, \"index\", text, source_mod, load_order_pos, extracted_at FROM coverage_entries";
const RANKED: &str = " ORDER BY CASE WHEN LOWER(text) = ? THEN 4 WHEN LOWER(text) LIKE ? THEN 3 WHEN LOWER(text) LIKE ? THEN 2 ELSE 1 END DESC, load_order_pos DESC, extracted_at DESC LIMIT ?";

#[test]
fn like_patterns_are_lower_cased() {
    assert_eq!(like_pattern("Iron"), "%iron%");
    assert_eq!(like_pattern(""), "%%");
}

#[test]
fn placeholders_are_joined_by_commas() {
    assert_eq!(placeholders("?", 0), "");
    assert_eq!(placeholders("?", 1), "?");
    assert_eq!(placeholders("?", 3), "?, ?, ?");
    assert_eq!(placeholders("(?, ?, ?)", 2), "(?, ?, ?), (?, ?, ?)");
}

#[test]
fn batches_cover_all_items() {
    assert_eq!(batch_ranges(0, 1000), vec![]);
    assert_eq!(batch_ranges(1, 1000), vec![(0, 1)]);
    assert_eq!(batch_ranges(1000, 1000), vec![(0, 1000)]);
    assert_eq!(batch_ranges(1001, 1000), vec![(0, 1000), (1000, 1001)]);
    assert_eq!(batch_ranges(7, 3), vec![(0, 3), (3, 6), (6, 7)]);
    assert_eq!(batch_ranges(6, 3), vec![(0, 3), (3, 6)]);
}

#[test]
fn a_search_without_queries_lists_the_latest() {
    let (sql, values) = search_entries_query(None, None, 50);
    assert_eq!(sql, format!("{} ORDER BY extracted_at DESC LIMIT ?", HEAD));
    assert_eq!(texts(&values), vec!["I:50"]);
    let (sql, values) = search_entries_query(Some("   "), Some(""), 5);
    assert_eq!(sql, format!("{} ORDER BY extracted_at DESC LIMIT ?", HEAD));
    assert_eq!(texts(&values), vec!["I:5"]);
}

#[test]
fn a_search_by_form_id() {
    let (sql, values) = search_entries_query(Some("00012BB7"), None, 10);
    assert_eq!(sql, format!("{} WHERE LOWER(form_id) LIKE ? ORDER BY extracted_at DESC LIMIT ?", HEAD));
    assert_eq!(texts(&values), vec!["T:%00012bb7%", "I:10"]);
}

#[test]
fn a_search_by_text_is_ranked() {
    let (sql, values) = search_entries_query(None, Some("Iron"), 10);
    assert_eq!(sql, format!("{} WHERE LOWER(text) LIKE ?{}", HEAD, RANKED));
    assert_eq!(texts(&values), vec!["T:%iron%", "T:iron", "T:iron%", "T:%iron%", "I:10"]);
}

#[test]
fn a_search_by_both() {
    let (sql, values) = search_entries_query(Some("AB"), Some("Iron Sword"), 200);
    assert_eq!(
        sql,
        format!("{} WHERE LOWER(form_id) LIKE ? AND LOWER(text) LIKE ?{}", HEAD, RANKED)
    );
    assert_eq!(
        texts(&values),
        vec!["T:%ab%", "T:%iron sword%", "T:iron sword", "T:iron sword%", "T:%iron sword%", "I:200"]
    );
}

#[test]
fn search_limits() {
    assert_eq!(effective_limit(None), 200);
    assert_eq!(effective_limit(Some(0)), 1);
    assert_eq!(effective_limit(Some(1)), 1);
    assert_eq!(effective_limit(Some(500)), 500);
}

#[test]
fn json_extensions() {
    assert!(is_json_extension("json"));
    assert!(is_json_extension("JSON"));
    assert!(is_json_extension("Json"));
    assert!(!is_json_extension("jso"));
    assert!(!is_json_extension("jsonx"));
    assert!(!is_json_extension("txt1"));
    assert!(!is_json_extension(""));
}

#[test]
fn overrides_are_collected_in_order() {
    let entries = vec![
        DsdEntry { form_id: "A".to_string(), entry_type: "WEAP FULL".to_string(), string: "铁剑".to_string() },
        DsdEntry { form_id: "B".to_string(), entry_type: "broken".to_string(), string: "x".to_string() },
        DsdEntry { form_id: "C".to_string(), entry_type: " NPC_  SHRT ".to_string(), string: "y".to_string() },
    ];
    let mut overrides = vec![("K".to_string(), "v".to_string())];
    assert_eq!(collect_overrides(&entries, &mut overrides), 1);
    assert_eq!(
        overrides,
        vec![
            ("K".to_string(), "v".to_string()),
            ("A|WEAP|FULL".to_string(), "铁剑".to_string()),
            ("C|NPC_|SHRT".to_string(), "y".to_string()),
        ]
    );
}

#[test]
fn load_order_lines() {
    assert_eq!(
        parse_loadorder("# comment\nSkyrim.esm\n\n  Update.esm  \r\n#x\n   \nMy Mod.esp"),
        vec!["Skyrim.esm", "Update.esm", "My Mod.esp"]
    );
    assert_eq!(parse_loadorder("A.esp\r\nB.esp\n"), vec!["A.esp", "B.esp"]);
    assert_eq!(parse_loadorder("A.esp\n\nB.esp"), vec!["A.esp", "B.esp"]);
    assert_eq!(parse_loadorder("\n"), Vec::<String>::new());
    assert!(parse_loadorder("").is_empty());
    assert!(parse_loadorder("#only\n  # indented comment").is_empty());
}

#[test]
fn names_compare_byte_by_byte() {
    assert!(bytes_lt(b"a", b"b"));
    assert!(!bytes_lt(b"b", b"a"));
    assert!(bytes_lt(b"", b"a"));
    assert!(!bytes_lt(b"a", b""));
    assert!(!bytes_lt(b"a", b"a"));
    assert!(bytes_lt(b"a", b"ab"));
    assert!(bytes_lt(b"ab", b"b"));
    assert!(bytes_lt(b"Z", b"a"));
    let keys: Vec<Vec<u8>> = vec![b"b".to_vec(), b"a".to_vec(), b"b".to_vec(), b"".to_vec(), b"ab".to_vec()];
    assert_eq!(ascending_order(&keys), vec![3, 1, 4, 0, 2]);
}

#[test]
fn plugins_follow_the_load_order_then_their_names() {
    let found = vec![plugin("zeta.esp"), plugin("Skyrim.esm"), plugin("Alpha.esp"), plugin("Update.esm"), plugin("beta.esp")];
    let order = Some(vec!["Skyrim.esm".to_string(), "Missing.esp".to_string(), "Update.esm".to_string()]);
    assert_eq!(
        names(&order_plugins(&found, &order)),
        vec!["Skyrim.esm", "Update.esm", "Alpha.esp", "beta.esp", "zeta.esp"]
    );
    assert_eq!(
        names(&order_plugins(&found, &None)),
        vec!["Alpha.esp", "beta.esp", "Skyrim.esm", "Update.esm", "zeta.esp"]
    );
    assert!(order_plugins(&vec![], &order).is_empty());
}

#[test]
fn a_name_found_twice_is_listed_once_with_its_last_path() {
    let found = vec![
        PluginInfo { name: "A.esp".to_string(), path: "one".to_string() },
        plugin("B.esp"),
        PluginInfo { name: "A.esp".to_string(), path: "two".to_string() },
    ];
    let out = order_plugins(&found, &None);
    assert_eq!(names(&out), vec!["A.esp", "B.esp"]);
    assert_eq!(out[0].path, "two");
    let out = order_plugins(&found, &Some(vec!["A.esp".to_string(), "A.esp".to_string()]));
    assert_eq!(names(&out), vec!["A.esp", "A.esp", "B.esp"]);
    assert_eq!(out[0].path, "two");
}

#[test]
fn names_that_differ_in_case_only_keep_the_order_found() {
    let found = vec![plugin("b.esp"), plugin("A.ESP"), plugin("a.esp")];
    assert_eq!(names(&order_plugins(&found, &None)), vec!["A.ESP", "a.esp", "b.esp"]);
}

#[test]
fn statistics_are_counted() {
    let mut stats = ExtractionStats::new(3);
    stats.record_success(10);
    stats.record_success(5);
    stats.record_failure("Bad.esp", "broken");
    stats.record_skipped("Gone.esp");
    assert_eq!(stats.successful_files, 2);
    assert_eq!(stats.total_strings, 15);
    assert_eq!(stats.failed_files, 1);
    assert_eq!(stats.errors, vec!["Bad.esp: broken"]);
    assert_eq!(stats.skipped_files, vec!["Gone.esp"]);
    assert_eq!(stats.total_files, 3);
    stats.record_success(usize::MAX);
    assert_eq!(stats.total_strings, usize::MAX);

    let mut stats = CoverageExtractionStats::new(2);
    stats.record_processed(4);
    stats.record_failed("Bad.esp", "broken");
    assert_eq!(stats.processed_plugins, 1);
    assert_eq!(stats.total_records, 4);
    assert_eq!(stats.failed_plugins, 1);
    assert_eq!(stats.errors, vec!["Bad.esp: broken"]);
    assert_eq!(stats.total_plugins, 2);
}

#[test]
fn progress_counts_from_one() {
    let update = progress_update("Skyrim.esm", 0, 3);
    assert_eq!(update.current_mod, "Skyrim.esm");
    assert_eq!(update.current_progress, 1);
    assert_eq!(update.total, 3);
}

#[test]
fn coverage_entries_credit_the_named_plugin() {
    let t = |plugin_name: Option<&str>| Translation {
        form_id: "A".to_string(),
        record_type: "WEAP".to_string(),
        subrecord_type: "FULL".to_string(),
        index: 4,
        editor_id: None,
        original_text: "Iron Sword".to_string(),
        translated_text: "铁剑".to_string(),
        plugin_name: plugin_name.map(|s| s.to_string()),
        created_at: 1,
        updated_at: 2,
    };
    let out = coverage_entries_of(&vec![t(Some("Skyrim.esm")), t(None)], "Fallback.esp", 6, 77);
    assert_eq!(out.len(), 2);
    assert_eq!(out[0].source_mod, "Skyrim.esm");
    assert_eq!(out[1].source_mod, "Fallback.esp");
    assert_eq!(out[0].text, "铁剑");
    assert_eq!(out[0].index, 4);
    assert_eq!(out[0].load_order_pos, 6);
    assert_eq!(out[0].extracted_at, 77);
    assert_eq!(out[0].form_id, "A");
}

#[test]
fn a_snapshot_numbers_the_plugins() {
    let out = snapshot_entries(&vec![plugin("Skyrim.esm"), plugin("Update.esm")], 5);
    assert_eq!(out.len(), 2);
    assert_eq!(out[1].position, 1);
    assert_eq!(out[1].plugin_name, "Update.esm");
    assert_eq!(out[1].plugin_path, Some("Data/Update.esm".to_string()));
    assert_eq!(out[1].checksum, None);
    assert_eq!(out[1].extracted_at, 5);
}
