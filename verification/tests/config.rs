use layer_hud::config::{
    export_file_name, is_valid_color, migration_plan, sanitize_color, sanitize_grab_combo,
    sanitize_hide_side, sanitize_layer_indicator, sanitize_toggle_macro,
};

#[test]
fn sanitizes_imported_colors_shortcuts_and_sequences() {
    assert_eq!(sanitize_color("#gggggg".into(), "#ffffff"), "#ffffff");
    assert_eq!(sanitize_color("x".into(), "#141418"), "#141418");
    assert_eq!(sanitize_color("#12Ab9F".into(), "#ff5c5c"), "#12Ab9F");
    assert_eq!(sanitize_hide_side("elsewhere".into()), "right");
    assert_eq!(sanitize_hide_side("top".into()), "top");
    assert_eq!(
        sanitize_grab_combo(vec!["cmd".into(), "unknown".into()]),
        vec!["cmd".to_string()]
    );
    let mut keys = vec![51u8; 80];
    keys[0] = 255;
    assert_eq!(sanitize_toggle_macro(keys), vec![51; 64]);
}

#[test]
fn valid_settings_are_kept() {
    assert_eq!(sanitize_layer_indicator("textual".into()), "textual");
    assert_eq!(sanitize_layer_indicator("big".into()), "icon");
    assert_eq!(sanitize_toggle_macro(vec![0, 51, 52, 7]), vec![0, 51, 7]);
    assert_eq!(
        sanitize_grab_combo(vec!["shift".into(), "ctrl".into(), "alt".into()]),
        vec!["shift".to_string(), "ctrl".to_string(), "alt".to_string()]
    );
    assert!(is_valid_color("#00ccff"));
    assert!(!is_valid_color("00ccff#"));
    assert!(!is_valid_color("#00ccf"));
    assert!(!is_valid_color("#00ccffe"));
    assert!(!is_valid_color("#00ccfé"));
}

#[test]
fn exports_are_numbered() {
    assert_eq!(export_file_name(0), "layer-hud-settings.json");
    assert_eq!(export_file_name(1), "layer-hud-settings (1).json");
    assert_eq!(export_file_name(42), "layer-hud-settings (42).json");
    assert_eq!(
        export_file_name(u64::MAX),
        format!("layer-hud-settings ({}).json", u64::MAX)
    );
}

#[test]
fn migration_never_overwrites_current_files() {
    let p = migration_plan(false, true, true, true);
    assert!(p.copy_config);
    assert!(!p.copy_layout);
    let p = migration_plan(true, true, false, false);
    assert!(!p.copy_config);
    assert!(!p.copy_layout);
}
