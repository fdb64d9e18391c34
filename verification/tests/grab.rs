use layer_hud::grab::{combo_active, combo_mask, grab_poll, MASK_ALT, MASK_CMD, MASK_CTRL, MASK_SHIFT};

#[test]
fn masks_map_to_cg_flags() {
    assert_eq!(combo_mask(&["cmd".into()]), MASK_CMD);
    assert_eq!(combo_mask(&["cmd".into(), "alt".into()]), MASK_CMD | MASK_ALT);
    assert_eq!(combo_mask(&["bogus".into()]), 0);
}

#[test]
fn combo_requires_all_and_nonempty() {
    let m = MASK_CMD | MASK_ALT;
    assert!(combo_active(MASK_CMD | MASK_ALT | MASK_SHIFT, m));
    assert!(!combo_active(MASK_CMD, m));
    assert!(!combo_active(MASK_CMD, 0));
}

#[test]
fn mask_values_are_the_coregraphics_bits() {
    assert_eq!(MASK_SHIFT, 1 << 17);
    assert_eq!(MASK_CTRL, 1 << 18);
    assert_eq!(MASK_ALT, 1 << 19);
    assert_eq!(MASK_CMD, 1 << 20);
    assert_eq!(
        combo_mask(&["ctrl".into(), "shift".into(), "ctrl".into()]),
        MASK_CTRL | MASK_SHIFT
    );
}

#[test]
fn grab_changes_are_reported_once() {
    let m = MASK_CMD | MASK_ALT;
    assert_eq!(grab_poll(false, MASK_CMD | MASK_ALT, m), (true, true));
    assert_eq!(grab_poll(true, MASK_CMD | MASK_ALT, m), (true, false));
    assert_eq!(grab_poll(true, MASK_CMD, m), (false, true));
    assert_eq!(grab_poll(false, 0, m), (false, false));
}

#[test]
fn mask_of_joined_lists_is_the_union() {
    let a = vec!["cmd".to_string(), "bogus".to_string()];
    let b = vec!["shift".to_string(), "cmd".to_string()];
    let joined = [a.clone(), b.clone()].concat();
    assert_eq!(combo_mask(&joined), combo_mask(&a) | combo_mask(&b));
    assert_eq!(combo_mask(&joined), MASK_CMD | MASK_SHIFT);
}

#[test]
fn mask_ignores_order_repeats_and_case() {
    let a = vec!["alt".to_string(), "ctrl".to_string()];
    let b = vec!["ctrl".to_string(), "alt".to_string(), "ctrl".to_string()];
    assert_eq!(combo_mask(&a), combo_mask(&b));
    assert_eq!(combo_mask(&["CMD".to_string()]), 0);
    let all: Vec<String> = ["cmd", "alt", "ctrl", "shift"].iter().map(|s| s.to_string()).collect();
    assert_eq!(combo_mask(&all), 0x1E_0000);
    assert_eq!(combo_mask(&all) & !0x1E_0000u64, 0);
}
