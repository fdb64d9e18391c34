use layer_hud::oryx::{
    hide_side, monitor_key, parse_alignment, parse_layout_hash, select_monitor, Alignment,
    HideSide,
};

#[test]
fn parses_full_url() {
    assert_eq!(
        parse_layout_hash("https://configure.zsa.io/voyager/layouts/Br3gO/latest/0"),
        Some("Br3gO".into())
    );
}

#[test]
fn parses_url_without_revision() {
    assert_eq!(
        parse_layout_hash("configure.zsa.io/voyager/layouts/gLwvw"),
        Some("gLwvw".into())
    );
}

#[test]
fn parses_bare_hash() {
    assert_eq!(parse_layout_hash("Br3gO"), Some("Br3gO".into()));
    assert_eq!(parse_layout_hash("  Br3gO "), Some("Br3gO".into()));
}

#[test]
fn rejects_garbage() {
    assert_eq!(parse_layout_hash(""), None);
    assert_eq!(parse_layout_hash("https://example.com/foo"), None);
    assert_eq!(parse_layout_hash("has spaces"), None);
}

#[test]
fn hash_after_first_layouts_piece_must_be_nonempty_alphanumeric() {
    assert_eq!(parse_layout_hash("x/layouts/"), None);
    assert_eq!(parse_layout_hash("x/layouts"), None);
    assert_eq!(parse_layout_hash("x/layouts/ab-c"), None);
    assert_eq!(parse_layout_hash("layouts/a/layouts/b"), Some("a".into()));
    assert_eq!(parse_layout_hash("\t\u{3000}/layouts/Q1\n"), Some("Q1".into()));
    assert_eq!(parse_layout_hash("   "), None);
    assert_eq!(parse_layout_hash("abcé"), None);
}

#[test]
fn monitor_key_prefers_the_name() {
    assert_eq!(monitor_key(Some("Built-in Retina Display"), 3024, 1964), "Built-in Retina Display");
    assert_eq!(monitor_key(Some(""), 2560, 1440), "2560x1440");
    assert_eq!(monitor_key(None, 0, 7), "0x7");
}

#[test]
fn alignments_and_hide_sides() {
    assert_eq!(parse_alignment("top"), Ok(Alignment::Top));
    assert_eq!(parse_alignment("horizontal"), Ok(Alignment::Horizontal));
    assert_eq!(parse_alignment("diagonal"), Err("unknown alignment: diagonal".to_string()));
    assert_eq!(hide_side("left"), HideSide::Left);
    assert_eq!(hide_side("bottom"), HideSide::Bottom);
    assert_eq!(hide_side("elsewhere"), HideSide::Right);
}

#[test]
fn restores_on_last_then_current_then_first_monitor() {
    let keys: Vec<String> = vec!["A".into(), "B".into(), "C".into(), "B".into()];
    assert_eq!(select_monitor(&keys, Some("C"), Some("B")), Some(2));
    assert_eq!(select_monitor(&keys, Some("gone"), Some("B")), Some(1));
    assert_eq!(select_monitor(&keys, None, Some("gone")), Some(0));
    assert_eq!(select_monitor(&Vec::new(), Some("A"), None), None);
}

#[test]
fn surrounding_space_does_not_change_the_hash() {
    for input in [
        "  https://configure.zsa.io/voyager/layouts/Br3gO/latest/0 \n",
        "\tBr3gO  ",
        "   ",
        " a b ",
    ] {
        assert_eq!(parse_layout_hash(input), parse_layout_hash(input.trim()));
    }
    assert_eq!(parse_layout_hash("\u{3000}Br3gO\u{a0}").as_deref(), Some("Br3gO"));
}
