use sse_plugin_translator::extraction::{
    find_text, matched_count, pair_translations, reference_records,
};
use sse_plugin_translator::dsd::PluginPath;
use sse_plugin_translator::plugin_session::{
    apply_dsd_overrides_to_records, backup_file_name, session_id_of, default_translation_status, dsd_entries_of, duplicate_records,
    extracted_text_of, extracted_texts_of, no_session, original_string_pairs, string_key,
    string_record_of, string_records_of, ExtractedText, PluginSessionManager, StringRecord,
};
use sse_plugin_translator::text::decimal_string;

fn extracted(form_id: &str, index: i32, text: &str) -> ExtractedText {
    ExtractedText {
        editor_id: Some("IronSword".to_string()),
        form_id: form_id.to_string(),
        text: text.to_string(),
        record_type: "WEAP".to_string(),
        subrecord_type: "FULL".to_string(),
        index,
    }
}

fn record(form_id: &str, index: u32, original: &str, translated: &str) -> StringRecord {
    StringRecord {
        form_id: form_id.to_string(),
        editor_id: None,
        record_type: "WEAP".to_string(),
        subrecord_type: "FULL".to_string(),
        index,
        original_text: original.to_string(),
        translated_text: translated.to_string(),
        translation_status: "untranslated".to_string(),
    }
}

#[test]
fn decimal_forms() {
    assert_eq!(decimal_string(0), "0");
    assert_eq!(decimal_string(7), "7");
    assert_eq!(decimal_string(10), "10");
    assert_eq!(decimal_string(1234567890), "1234567890");
    assert_eq!(decimal_string(-1), "-1");
    assert_eq!(decimal_string(-305), "-305");
    assert_eq!(decimal_string(i64::MAX), "9223372036854775807");
    assert_eq!(decimal_string(i64::MIN), "-9223372036854775808");
}

#[test]
fn string_key_joins_identifiers_and_index() {
    assert_eq!(string_key("00012BB7|Skyrim.esm", "WEAP", "FULL", 0), "00012BB7|Skyrim.esm|WEAP|FULL|0");
    assert_eq!(string_key("A", "B", "C", 12), "A|B|C|12");
    assert_eq!(string_key("", "", "", -3), "|||-3");
}

#[test]
fn a_fresh_record_copies_the_text() {
    let r = string_record_of(&extracted("A", 2, "Iron Sword"));
    assert_eq!(r.form_id, "A");
    assert_eq!(r.editor_id, Some("IronSword".to_string()));
    assert_eq!(r.record_type, "WEAP");
    assert_eq!(r.subrecord_type, "FULL");
    assert_eq!(r.index, 2);
    assert_eq!(r.original_text, "Iron Sword");
    assert_eq!(r.translated_text, "Iron Sword");
    assert_eq!(r.translation_status, "untranslated");
    assert_eq!(default_translation_status(), "untranslated");
    assert_eq!(string_record_of(&extracted("A", -1, "x")).index, u32::MAX);
    let all = string_records_of(&vec![extracted("A", 0, "a"), extracted("B", 1, "b")]);
    assert_eq!(all.len(), 2);
    assert_eq!(all[1].form_id, "B");
    assert_eq!(all[1].original_text, "b");
}

#[test]
fn the_translated_text_is_written_back() {
    let e = extracted_text_of(&record("A", 3, "Iron Sword", "铁剑"));
    assert_eq!(e.form_id, "A");
    assert_eq!(e.text, "铁剑");
    assert_eq!(e.index, 3);
    assert_eq!(e.record_type, "WEAP");
    assert_eq!(e.subrecord_type, "FULL");
    assert_eq!(e.editor_id, None);
    assert_eq!(extracted_text_of(&record("A", u32::MAX, "a", "b")).index, -1);
    let all = extracted_texts_of(&vec![record("A", 0, "a", "x"), record("B", 1, "b", "y")]);
    assert_eq!(all.len(), 2);
    assert_eq!(all[1].text, "y");
}

#[test]
fn override_entries_name_both_types() {
    let entries = dsd_entries_of(&vec![record("A", 0, "Iron Sword", "铁剑"), record("B", 1, "b", "y")]);
    assert_eq!(entries.len(), 2);
    assert_eq!(entries[0].form_id, "A");
    assert_eq!(entries[0].entry_type, "WEAP FULL");
    assert_eq!(entries[0].string, "铁剑");
    assert_eq!(entries[1].string, "y");
}

#[test]
fn original_texts_are_kept_under_their_keys() {
    let pairs = original_string_pairs(&vec![record("A", 0, "Iron Sword", "铁剑"), record("B", 7, "b", "y")]);
    assert_eq!(
        pairs,
        vec![
            ("A|WEAP|FULL|0".to_string(), "Iron Sword".to_string()),
            ("B|WEAP|FULL|7".to_string(), "b".to_string()),
        ]
    );
}

#[test]
fn overrides_mark_changed_records_as_manual() {
    let mut records = vec![record("A", 0, "a", "a"), record("B", 0, "b", "same"), record("C", 0, "c", "c")];
    let overrides = vec![
        ("A|WEAP|FULL".to_string(), "old".to_string()),
        ("B|WEAP|FULL".to_string(), "same".to_string()),
        ("A|WEAP|FULL".to_string(), "new".to_string()),
    ];
    assert_eq!(apply_dsd_overrides_to_records(&mut records, &overrides), 1);
    assert_eq!(records[0].translated_text, "new");
    assert_eq!(records[0].translation_status, "manual");
    assert_eq!(records[0].original_text, "a");
    assert_eq!(records[1].translated_text, "same");
    assert_eq!(records[1].translation_status, "untranslated");
    assert_eq!(records[2].translated_text, "c");
    let copy = duplicate_records(&records);
    assert_eq!(copy.len(), 3);
    assert_eq!(copy[0].translated_text, "new");
    assert_eq!(copy[0].translation_status, "manual");
}

#[test]
fn english_strings_are_paired_with_chinese_ones() {
    let english = vec![extracted("A", 0, "Iron Sword"), extracted("B", 0, "Steel Sword"), extracted("A", 1, "Sharp")];
    let chinese = vec![extracted("A", 0, "旧"), extracted("A", 1, "锋利"), extracted("A", 0, "铁剑")];
    let out = pair_translations(&english, &chinese, &Some("Skyrim.esm".to_string()), 99);
    assert_eq!(out.len(), 3);
    assert_eq!(out[0].original_text, "Iron Sword");
    assert_eq!(out[0].translated_text, "铁剑");
    assert_eq!(out[0].plugin_name, Some("Skyrim.esm".to_string()));
    assert_eq!(out[0].created_at, 99);
    assert_eq!(out[0].updated_at, 99);
    assert_eq!(out[0].index, 0);
    assert_eq!(out[0].editor_id, Some("IronSword".to_string()));
    assert_eq!(out[1].translated_text, "Steel Sword");
    assert_eq!(out[2].translated_text, "锋利");
    assert_eq!(out[2].index, 1);
    assert_eq!(matched_count(&out), 2);
    assert_eq!(matched_count(&vec![]), 0);
    assert_eq!(find_text(&chinese, "A|WEAP|FULL|0"), Some(&"铁剑".to_string()));
    assert_eq!(find_text(&chinese, "A|WEAP|FULL|9"), None);
}

#[test]
fn reference_records_keep_real_translations_only() {
    let english = vec![extracted("A", 0, "Iron Sword"), extracted("B", 0, "Steel Sword"), extracted("C", 0, "")];
    let chinese = vec![
        extracted("B", 0, "Steel Sword"),
        extracted("A", 0, "铁剑"),
        extracted("C", 0, "空"),
        extracted("D", 0, "无"),
    ];
    let out = reference_records(&english, &chinese);
    assert_eq!(out.len(), 1);
    assert_eq!(out[0].form_id, "A");
    assert_eq!(out[0].original_text, "Iron Sword");
    assert_eq!(out[0].translated_text, "铁剑");
    assert_eq!(out[0].index, 0);
    assert_eq!(out[0].record_type, "WEAP");
}

#[test]
fn backup_names_carry_the_time() {
    assert_eq!(
        backup_file_name("C:/Mods/Cool.esp", "2024_01_02_03_04_05"),
        "C:/Mods/Cool.esp.2024_01_02_03_04_05.bak"
    );
    assert_eq!(backup_file_name("", ""), "..bak");
}

#[test]
fn sessions_are_named_by_the_file_name() {
    let path = PluginPath {
        parent: Some("C:/Mods".to_string()),
        file_name: Some("Cool.esp".to_string()),
        file_stem: Some("Cool".to_string()),
    };
    assert_eq!(session_id_of(&path), Ok("Cool.esp".to_string()));
    let path = PluginPath { parent: Some("C:/Mods".to_string()), file_name: None, file_stem: None };
    assert_eq!(session_id_of(&path), Err("无效的插件路径".to_string()));
}

#[test]
fn a_manager_without_sessions() {
    let mut manager = PluginSessionManager::new();
    assert!(manager.list_sessions().is_empty());
    assert!(manager.cached("Cool.esp", "C:/Mods/Cool.esp").is_none());
    assert_eq!(manager.get_original_string_map("Cool.esp"), None);
    assert_eq!(manager.close("Cool.esp"), Err("Session Cool.esp 不存在".to_string()));
    assert_eq!(no_session("x"), "Session x 不存在");
    let r = manager.export_dsd("Cool.esp", &vec![]);
    assert_eq!(r.err(), Some("Session Cool.esp 不存在".to_string()));
    let r = manager.apply_translations("Cool.esp", &vec![]);
    assert_eq!(r.err(), Some("Session Cool.esp 不存在".to_string()));
}
