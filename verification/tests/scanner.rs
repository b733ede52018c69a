use sse_plugin_translator::scanner::{
    detect_skyrim_version, find_data_dir, find_file_case_insensitive, is_plugin_extension,
    validate_game_path, DirEntry, PathProbe, PluginInfo,
};

fn file(name: &str) -> DirEntry {
    DirEntry { name: name.to_string(), is_dir: false, is_file: true }
}

fn dir(name: &str) -> DirEntry {
    DirEntry { name: name.to_string(), is_dir: true, is_file: false }
}

#[test]
fn test_plugin_info_creation() {
    let plugin = PluginInfo {
        name: "TestPlugin.esp".to_string(),
        path: "C:/Games/Skyrim/Data/TestPlugin.esp".to_string(),
    };

    assert_eq!(plugin.name, "TestPlugin.esp");
    assert!(plugin.path.contains("TestPlugin.esp"));
}

#[test]
fn plugin_extensions_are_recognised_in_any_case() {
    assert!(is_plugin_extension("esp"));
    assert!(is_plugin_extension("ESM"));
    assert!(is_plugin_extension("Esl"));
    assert!(!is_plugin_extension("txt"));
    assert!(!is_plugin_extension(""));
    assert!(!is_plugin_extension("esp "));
}

#[test]
fn data_dir_is_the_first_directory_named_data() {
    let entries = vec![file("data"), dir("Mods"), dir("DATA"), dir("data")];
    assert_eq!(find_data_dir(&entries), Some(2));
    assert_eq!(find_data_dir(&vec![file("Data"), dir("Other")]), None);
    assert_eq!(find_data_dir(&vec![]), None);
}

#[test]
fn files_are_found_whatever_their_case() {
    let entries = vec![dir("skyrim.esm"), file("Update.esm"), file("SKYRIM.ESM"), file("Skyrim.esm")];
    assert_eq!(find_file_case_insensitive(&entries, "Skyrim.esm"), Some(2));
    assert_eq!(find_file_case_insensitive(&entries, "update.ESM"), Some(1));
    assert_eq!(find_file_case_insensitive(&entries, "Dawnguard.esm"), None);
}

#[test]
fn edition_is_read_from_the_program_file() {
    assert_eq!(
        detect_skyrim_version(&vec![file("skyrimse.exe"), file("SkyrimVR.exe")]),
        Some("Skyrim Special Edition")
    );
    assert_eq!(detect_skyrim_version(&vec![file("SkyrimVR.exe")]), Some("Skyrim VR"));
    assert_eq!(detect_skyrim_version(&vec![dir("SkyrimSE.exe")]), None);
    assert_eq!(detect_skyrim_version(&vec![]), None);
}

#[test]
fn game_path_validation() {
    assert!(!validate_game_path(&PathProbe::Missing));
    assert!(validate_game_path(&PathProbe::File { extension: Some("ESP".to_string()) }));
    assert!(!validate_game_path(&PathProbe::File { extension: Some("zip".to_string()) }));
    assert!(!validate_game_path(&PathProbe::File { extension: None }));
    assert!(!validate_game_path(&PathProbe::Directory { data_entries: None }));
    assert!(validate_game_path(&PathProbe::Directory {
        data_entries: Some(vec![file("Update.esm"), file("skyrim.ESM")]),
    }));
    assert!(!validate_game_path(&PathProbe::Directory {
        data_entries: Some(vec![file("Update.esm"), dir("Skyrim.esm")]),
    }));
}
