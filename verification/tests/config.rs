use inkwell::config::{choose_config_source, Config, ConfigSource};

#[test]
fn local_config_wins_over_every_other_file() {
    assert_eq!(choose_config_source(true, Some(true), Some(true)), ConfigSource::ReadLocal);
    assert_eq!(choose_config_source(true, None, None), ConfigSource::ReadLocal);
}

#[test]
fn config_beside_binary_comes_second() {
    assert_eq!(choose_config_source(false, Some(true), Some(true)), ConfigSource::ReadBesideBinary);
    assert_eq!(choose_config_source(false, Some(true), None), ConfigSource::ReadBesideBinary);
}

#[test]
fn user_config_comes_third_and_is_created_when_missing() {
    assert_eq!(choose_config_source(false, Some(false), Some(true)), ConfigSource::ReadUser);
    assert_eq!(choose_config_source(false, None, Some(true)), ConfigSource::ReadUser);
    assert_eq!(
        choose_config_source(false, Some(false), Some(false)),
        ConfigSource::WriteDefaultsToUser
    );
    assert_eq!(choose_config_source(false, None, Some(false)), ConfigSource::WriteDefaultsToUser);
}

#[test]
fn without_home_folder_the_defaults_are_used() {
    assert_eq!(choose_config_source(false, Some(false), None), ConfigSource::UseDefaults);
    assert_eq!(choose_config_source(false, None, None), ConfigSource::UseDefaults);
    assert_eq!(Config::user_config_path(None), None);
}

#[test]
fn default_config_exports_under_documents() {
    let c = Config::default_for_home(Some("/home/reader"));
    assert_eq!(c.default_export_folder, "/home/reader/Documents/Inkwell");
    assert!(!c.enable_painter_highlights);
    let c = Config::default_for_home(None);
    assert_eq!(c.default_export_folder, "./Documents/Inkwell");
}

#[test]
fn user_config_lives_under_dot_config() {
    assert_eq!(
        Config::user_config_path(Some("/home/reader")),
        Some("/home/reader/.config/inkwell/config.toml".to_string())
    );
}
