use sse_plugin_translator::settings::Settings;

#[test]
fn test_settings_default() {
    let settings = Settings::default();
    assert_eq!(settings.game, None);
}

#[test]
fn default_settings_have_no_output_dir() {
    let settings = Settings::default();
    assert_eq!(settings.dsd_output_dir, None);
}
