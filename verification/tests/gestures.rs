use monadeck_overlay::gestures::{config_path, parse_settings, Settings};

#[test]
fn the_config_lives_under_the_xdg_config_home() {
    assert_eq!(config_path(Some("/cfg"), Some("/home/u")), "/cfg/monado/gestures.json");
    assert_eq!(config_path(Some(""), Some("/home/u")), "/home/u/.config/monado/gestures.json");
    assert_eq!(config_path(None, None), "/.config/monado/gestures.json");
}

#[test]
fn a_saved_file_overrides_the_defaults_field_by_field() {
    let d = Settings { enabled: true, hold_ms: 2000, frame_feedback: true, debug: false };
    assert_eq!(parse_settings(None), d);
    assert_eq!(parse_settings(Some("not json")), d);
    assert_eq!(
        parse_settings(Some(r#"{"enabled": false, "hold_ms": 750, "debug": true, "frame_feedback": "yes"}"#)),
        Settings { enabled: false, hold_ms: 750, frame_feedback: true, debug: true }
    );
    assert_eq!(parse_settings(Some(r#"{"hold_ms": 4294967297}"#)).hold_ms, 1);
}
