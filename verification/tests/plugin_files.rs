use esp_extractor::io::{EspReader, RawEspData};
use esp_extractor::{LoadedPlugin, Plugin};
use sse_plugin_translator::plugin_session::PluginSessionManager;
use std::path::{Path, PathBuf};
use std::time::Instant;

struct InMemory {
    bytes: Vec<u8>,
}

impl EspReader for InMemory {
    fn read(&self, _path: &Path) -> Result<RawEspData, Box<dyn std::error::Error>> {
        Ok(RawEspData { bytes: self.bytes.clone() })
    }
}

fn subrecord(kind: &[u8; 4], data: &[u8]) -> Vec<u8> {
    let mut out = kind.to_vec();
    out.extend_from_slice(&(data.len() as u16).to_le_bytes());
    out.extend_from_slice(data);
    out
}

fn record(kind: &[u8; 4], form_id: u32, data: &[u8]) -> Vec<u8> {
    let mut out = kind.to_vec();
    out.extend_from_slice(&(data.len() as u32).to_le_bytes());
    out.extend_from_slice(&0u32.to_le_bytes());
    out.extend_from_slice(&form_id.to_le_bytes());
    out.extend_from_slice(&0u16.to_le_bytes());
    out.extend_from_slice(&0u16.to_le_bytes());
    out.extend_from_slice(&44u16.to_le_bytes());
    out.extend_from_slice(&0u16.to_le_bytes());
    out.extend_from_slice(data);
    out
}

fn group(label: &[u8; 4], content: &[u8]) -> Vec<u8> {
    let mut out = b"GRUP".to_vec();
    out.extend_from_slice(&((content.len() + 24) as u32).to_le_bytes());
    out.extend_from_slice(label);
    out.extend_from_slice(&0i32.to_le_bytes());
    out.extend_from_slice(&0u16.to_le_bytes());
    out.extend_from_slice(&0u16.to_le_bytes());
    out.extend_from_slice(&0u32.to_le_bytes());
    out.extend_from_slice(content);
    out
}

fn plugin_with_one_weapon() -> LoadedPlugin {
    plugin_read_from("Test.esp")
}

fn plugin_read_from(path: &str) -> LoadedPlugin {
    let mut hedr = Vec::new();
    hedr.extend_from_slice(&0x3fd9999au32.to_le_bytes());
    hedr.extend_from_slice(&1i32.to_le_bytes());
    hedr.extend_from_slice(&0x800u32.to_le_bytes());
    let header = record(b"TES4", 0, &subrecord(b"HEDR", &hedr));
    let mut weapon = subrecord(b"EDID", b"IronSword\0");
    weapon.extend_from_slice(&subrecord(b"FULL", b"Iron Sword\0"));
    let mut bytes = header;
    bytes.extend_from_slice(&group(b"WEAP", &record(b"WEAP", 0x00012BB7, &weapon)));
    let plugin = Plugin::load_with_reader(PathBuf::from(path), &InMemory { bytes }).unwrap();
    LoadedPlugin::Standard(plugin)
}

#[test]
fn a_loaded_plugin_opens_a_session_with_its_strings() {
    let mut manager = PluginSessionManager::new();
    let response =
        manager.get_or_load("Test.esp", "C:/Mods/Test.esp", plugin_with_one_weapon(), None, Instant::now()).unwrap();
    assert_eq!(response.session_id, "Test.esp");
    assert_eq!(response.plugin_name, "Test.esp");
    assert_eq!(response.plugin_path, "C:/Mods/Test.esp");
    assert_eq!(response.total_count, 1);
    assert!(!response.has_dsd_overrides);
    assert_eq!(response.strings.len(), 1);
    assert_eq!(response.strings[0].form_id, "00012BB7|Test.esp");
    assert_eq!(response.strings[0].editor_id, Some("IronSword".to_string()));
    assert_eq!(response.strings[0].record_type, "WEAP");
    assert_eq!(response.strings[0].subrecord_type, "FULL");
    assert_eq!(response.strings[0].index, 0);
    assert_eq!(response.strings[0].original_text, "Iron Sword");
    assert_eq!(response.strings[0].translated_text, "Iron Sword");
    assert_eq!(response.strings[0].translation_status, "untranslated");

    let sessions = manager.list_sessions();
    assert_eq!(sessions.len(), 1);
    assert_eq!(sessions[0].session_id, "Test.esp");
    assert_eq!(sessions[0].plugin_name, "Test.esp");
    assert_eq!(sessions[0].string_count, 1);

    let cached = manager.cached("Test.esp", "elsewhere").unwrap();
    assert_eq!(cached.plugin_path, "elsewhere");
    assert_eq!(cached.strings.len(), 1);
    assert_eq!(
        manager.get_original_string_map("Test.esp"),
        Some(vec![("00012BB7|Test.esp|WEAP|FULL|0".to_string(), "Iron Sword".to_string())])
    );
}

#[test]
fn a_second_load_of_a_kept_plugin_changes_nothing() {
    let mut manager = PluginSessionManager::new();
    let overrides = vec![("00012BB7|Test.esp|WEAP|FULL".to_string(), "铁剑".to_string())];
    let first = manager.get_or_load("Test.esp", "a", plugin_with_one_weapon(), Some(overrides), Instant::now()).unwrap();
    assert!(first.has_dsd_overrides);
    assert_eq!(first.strings[0].translated_text, "铁剑");
    assert_eq!(first.strings[0].translation_status, "manual");
    assert_eq!(first.strings[0].original_text, "Iron Sword");
    let second = manager.get_or_load("Test.esp", "b", plugin_with_one_weapon(), None, Instant::now()).unwrap();
    assert!(second.has_dsd_overrides);
    assert_eq!(second.plugin_path, "b");
    assert_eq!(second.strings[0].translated_text, "铁剑");
    assert_eq!(manager.list_sessions().len(), 1);
}

#[test]
fn overrides_that_change_nothing_are_not_reported() {
    let mut manager = PluginSessionManager::new();
    let overrides = vec![("other|WEAP|FULL".to_string(), "x".to_string())];
    let r = manager.get_or_load("Test.esp", "a", plugin_with_one_weapon(), Some(overrides), Instant::now()).unwrap();
    assert!(!r.has_dsd_overrides);
    assert_eq!(r.strings[0].translated_text, "Iron Sword");
}

#[test]
fn the_plugin_leaves_the_session_when_translations_are_written() {
    let mut manager = PluginSessionManager::new();
    let response = manager.get_or_load("Test.esp", "C:/Mods/Test.esp", plugin_with_one_weapon(), None, Instant::now()).unwrap();
    let mut records = response.strings;
    records[0].translated_text = "铁剑".to_string();
    let (path, strings, plugin) = manager.apply_translations("Test.esp", &records).unwrap();
    assert_eq!(path, "C:/Mods/Test.esp");
    assert_eq!(strings.len(), 1);
    assert_eq!(strings[0].text, "铁剑");
    assert_eq!(strings[0].form_id, "00012BB7|Test.esp");
    assert!(plugin.is_some());
    let (_, _, again) = manager.apply_translations("Test.esp", &records).unwrap();
    assert!(again.is_none());
    assert_eq!(manager.list_sessions().len(), 1);
}

#[test]
fn export_and_close() {
    let mut manager = PluginSessionManager::new();
    let response = manager.get_or_load("Test.esp", "C:/Mods/Test.esp", plugin_with_one_weapon(), None, Instant::now()).unwrap();
    assert_eq!(manager.session_path("Test.esp"), Ok("C:/Mods/Test.esp".to_string()));
    assert_eq!(manager.session_path("Other.esp"), Err("Session Other.esp 不存在".to_string()));
    let (path, entries) = manager.export_dsd("Test.esp", &response.strings).unwrap();
    assert_eq!(path, "C:/Mods/Test.esp");
    assert_eq!(entries.len(), 1);
    assert_eq!(entries[0].form_id, "00012BB7|Test.esp");
    assert_eq!(entries[0].entry_type, "WEAP FULL");
    assert_eq!(entries[0].string, "Iron Sword");
    assert_eq!(manager.close("Test.esp"), Ok(()));
    assert!(manager.list_sessions().is_empty());
    assert_eq!(manager.close("Test.esp"), Err("Session Test.esp 不存在".to_string()));
}

#[test]
fn a_plugin_without_a_file_name_is_refused() {
    let mut manager = PluginSessionManager::new();
    let r = manager.get_or_load("x", "..", plugin_read_from(".."), None, Instant::now());
    assert_eq!(r.err(), Some("无效的插件路径".to_string()));
    assert!(manager.list_sessions().is_empty());
    let r = manager.get_or_load("x", "/", plugin_read_from("/"), None, Instant::now());
    assert_eq!(r.err(), Some("无效的插件路径".to_string()));

    manager.get_or_load("Test.esp", "a", plugin_with_one_weapon(), None, Instant::now()).unwrap();
    let r = manager.get_or_load("Test.esp", "..", plugin_read_from(".."), None, Instant::now());
    assert_eq!(r.err(), Some("无效的插件路径".to_string()));
    assert_eq!(manager.list_sessions().len(), 1);
}

#[test]
fn a_plugin_in_a_folder_keeps_its_file_name() {
    let mut manager = PluginSessionManager::new();
    let r = manager
        .get_or_load("Deep.esp", "Mods/Deep.esp", plugin_read_from("Mods/Deep.esp"), None, Instant::now())
        .unwrap();
    assert_eq!(r.strings[0].form_id, "00012BB7|Deep.esp");
}
