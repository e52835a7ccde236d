use subtitle_translator::settings::AppSettings;

#[test]
fn defaults_match_python() {
    let s = AppSettings::default();
    assert_eq!(s.api_base, "https://api.openai.com/v1");
    assert_eq!(s.model, "gpt-4o-mini");
    assert_eq!(s.workers, 5);
    assert_eq!(s.window, 25);
    assert_eq!(s.overlap, 10);
    assert_eq!(s.target_language, "ru");
    assert!(s.overwrite_original);
    assert!(!s.show_kodi);
}

#[test]
fn migration_forces_show_kodi_for_upgraders() {
    let json = r#"{"api_key":"x"}"#;
    let value: serde_json::Value = serde_json::from_str(json).unwrap();
    let had = value.as_object().unwrap().contains_key("show_kodi");
    assert!(!had);
    let mut s = AppSettings::default();
    s.api_key = value["api_key"].as_str().unwrap().to_string();
    let s = s.migrated(had);
    assert!(s.show_kodi);
}

#[test]
fn migration_keeps_a_stored_choice() {
    let s = AppSettings::default().migrated(true);
    assert!(!s.show_kodi);
    let mut shown = AppSettings::default();
    shown.show_kodi = true;
    assert!(shown.migrated(true).show_kodi);
}

#[test]
fn default_temperature_is_point_two() {
    let s = AppSettings::default();
    assert_eq!(f32::from_bits(s.temperature_bits), 0.2f32);
    assert_eq!(f64::from_bits(s.last_update_check_bits), 0.0);
    assert_eq!(s.kodi_port, 8080);
    assert_eq!(s.kodi_user, "kodi");
    assert_eq!(s.theme, "system");
}
