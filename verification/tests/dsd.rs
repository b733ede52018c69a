use sse_plugin_translator::dsd::{build_dsd_json_path, make_record_key, parse_entry_type, PluginPath};
use sse_plugin_translator::extraction::{get_base_plugins, ExtractionStats};
use sse_plugin_translator::paths::{
    get_api_db_path, get_atomic_db_path, get_db_path, get_search_history_db_path,
};

fn plugin(parent: Option<&str>, name: Option<&str>, stem: Option<&str>) -> PluginPath {
    PluginPath {
        parent: parent.map(|s| s.to_string()),
        file_name: name.map(|s| s.to_string()),
        file_stem: stem.map(|s| s.to_string()),
    }
}

#[test]
fn record_key_joins_with_bars() {
    assert_eq!(make_record_key("00012BB7|Skyrim.esm", "WEAP", "FULL"), "00012BB7|Skyrim.esm|WEAP|FULL");
    assert_eq!(make_record_key("", "", ""), "||");
}

#[test]
fn entry_type_is_split_at_white_space() {
    assert_eq!(parse_entry_type("WEAP FULL"), Some(("WEAP".to_string(), "FULL".to_string())));
    assert_eq!(parse_entry_type("  NPC_\t SHRT  extra"), Some(("NPC_".to_string(), "SHRT".to_string())));
    assert_eq!(parse_entry_type("WEAP"), None);
    assert_eq!(parse_entry_type("   "), None);
    assert_eq!(parse_entry_type(""), None);
}

#[test]
fn override_file_lies_beside_the_plugin() {
    let p = plugin(Some("C:/Mods/Cool"), Some("Cool.esp"), Some("Cool"));
    assert_eq!(
        build_dsd_json_path(&p, None),
        Ok(vec![
            "C:/Mods/Cool".to_string(),
            "SKSE".to_string(),
            "DynamicStringDistributor".to_string(),
            "Cool.esp".to_string(),
            "Cool.json".to_string(),
        ])
    );
}

#[test]
fn override_file_lies_below_the_given_base() {
    let p = plugin(None, Some("Cool.esp"), Some("Cool"));
    assert_eq!(
        build_dsd_json_path(&p, Some("D:/Out")),
        Ok(vec![
            "D:/Out".to_string(),
            "SKSE".to_string(),
            "DynamicStringDistributor".to_string(),
            "Cool.esp".to_string(),
            "Cool.json".to_string(),
        ])
    );
}

#[test]
fn override_path_errors_come_in_order() {
    assert_eq!(
        build_dsd_json_path(&plugin(None, None, None), None),
        Err("无法获取插件所在目录".to_string())
    );
    assert_eq!(
        build_dsd_json_path(&plugin(Some("a"), None, None), None),
        Err("无法获取插件文件名".to_string())
    );
    assert_eq!(
        build_dsd_json_path(&plugin(None, None, Some("x")), Some("base")),
        Err("无法获取插件文件名".to_string())
    );
    assert_eq!(
        build_dsd_json_path(&plugin(Some("a"), Some("x.esp"), None), None),
        Err("无法获取插件名称".to_string())
    );
}

#[test]
fn database_paths() {
    assert_eq!(get_db_path("userdata"), vec!["userdata".to_string(), "translations.db".to_string()]);
    assert_eq!(
        get_atomic_db_path("userdata"),
        vec!["userdata".to_string(), "atomic_translations.db".to_string()]
    );
    assert_eq!(get_api_db_path("u"), vec!["u".to_string(), "api.db".to_string()]);
    assert_eq!(
        get_search_history_db_path("u"),
        vec!["u".to_string(), "search_history.db".to_string()]
    );
}

#[test]
fn base_plugins_are_the_nine_of_the_game() {
    let names = get_base_plugins();
    assert_eq!(
        names,
        vec![
            "Skyrim.esm",
            "Update.esm",
            "HearthFires.esm",
            "Dragonborn.esm",
            "Dawnguard.esm",
            "ccQDRSSE001-SurvivalMode.esl",
            "ccBGSSSE037-Curios.esl",
            "ccBGSSSE025-AdvDSGS.esm",
            "ccBGSSSE001-Fish.esm",
        ]
    );
}

#[test]
fn extraction_stats_start_at_zero() {
    let stats = ExtractionStats::new(9);
    assert_eq!(stats.total_files, 9);
    assert_eq!(stats.successful_files, 0);
    assert_eq!(stats.failed_files, 0);
    assert_eq!(stats.total_strings, 0);
    assert!(stats.skipped_files.is_empty());
    assert!(stats.errors.is_empty());
}
