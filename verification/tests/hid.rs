use layer_hud::hid::{
    decode_packet, is_voyager_interface, matrix_index, pairing_report, Packet, EVT_KEYDOWN,
    EVT_KEYUP, EVT_LAYER, HID_BUFFER_LEN, ORYX_USAGE, ORYX_USAGE_PAGE,
};

#[test]
fn ignores_other_raw_hid_keyboards_and_normal_typing_interfaces() {
    assert!(is_voyager_interface(
        Some("Voyager"),
        ORYX_USAGE_PAGE,
        ORYX_USAGE
    ));
    assert!(!is_voyager_interface(
        Some("Moonlander"),
        ORYX_USAGE_PAGE,
        ORYX_USAGE
    ));
    assert!(!is_voyager_interface(None, ORYX_USAGE_PAGE, ORYX_USAGE));
    assert!(!is_voyager_interface(Some("Voyager"), 1, 6));
}

#[test]
fn decodes_presses_releases_layers_and_padded_reports() {
    assert_eq!(
        decode_packet(&[EVT_KEYDOWN, 1, 0]),
        Some(Packet::Key {
            col: 1,
            row: 0,
            index: 0,
            pressed: true
        })
    );
    assert_eq!(
        decode_packet(&[EVT_KEYUP, 6, 11]),
        Some(Packet::Key {
            col: 6,
            row: 11,
            index: 51,
            pressed: false
        })
    );
    assert_eq!(decode_packet(&[EVT_LAYER, 2]), Some(Packet::Layer(2)));
    let mut report = [0; HID_BUFFER_LEN];
    report[1..4].copy_from_slice(&[EVT_KEYDOWN, 0, 5]);
    assert_eq!(
        decode_packet(&report),
        Some(Packet::Key {
            col: 0,
            row: 5,
            index: 24,
            pressed: true
        })
    );
}

#[test]
fn malformed_and_unused_matrix_positions_are_ignored() {
    for bytes in [
        vec![],
        vec![EVT_LAYER],
        vec![EVT_KEYDOWN, 17],
        vec![EVT_KEYDOWN, 0, 0],
        vec![EVT_KEYDOWN, 255, 255],
        vec![99, 1, 0],
    ] {
        assert_eq!(decode_packet(&bytes), None);
    }
}

#[test]
fn every_voyager_key_has_exactly_one_matrix_position() {
    let mut keys: Vec<_> = (0..12)
        .flat_map(|row| (0..7).filter_map(move |col| matrix_index(col, row)))
        .collect();
    keys.sort();
    assert_eq!(keys, (0..52).collect::<Vec<_>>());
}

#[test]
fn product_name_matches_in_any_ascii_case_only() {
    assert!(is_voyager_interface(Some("VOYAGER"), ORYX_USAGE_PAGE, ORYX_USAGE));
    assert!(is_voyager_interface(Some("voyager"), ORYX_USAGE_PAGE, ORYX_USAGE));
    assert!(!is_voyager_interface(Some("Voyager "), ORYX_USAGE_PAGE, ORYX_USAGE));
    assert!(!is_voyager_interface(Some("Voyagér"), ORYX_USAGE_PAGE, ORYX_USAGE));
    assert!(!is_voyager_interface(Some(""), ORYX_USAGE_PAGE, ORYX_USAGE));
    assert!(!is_voyager_interface(Some("Voyager"), ORYX_USAGE_PAGE, 6));
}

#[test]
fn a_33_byte_report_keeps_a_nonzero_first_byte() {
    let mut report = [0u8; HID_BUFFER_LEN];
    report[0] = EVT_LAYER;
    report[1] = 3;
    assert_eq!(decode_packet(&report), Some(Packet::Layer(3)));
    // A short read starting with zero is not a padded report.
    assert_eq!(decode_packet(&[0, EVT_LAYER, 1]), None);
    // Extra trailing bytes are ignored.
    assert_eq!(decode_packet(&[EVT_LAYER, 4, 9, 9]), Some(Packet::Layer(4)));
}

#[test]
fn out_of_range_matrix_positions_have_no_key() {
    assert_eq!(matrix_index(7, 0), None);
    assert_eq!(matrix_index(0, 12), None);
    assert_eq!(matrix_index(0, 0), None);
    assert_eq!(matrix_index(2, 10), Some(44));
    assert_eq!(matrix_index(4, 4), Some(23));
}

#[test]
fn pairing_report_starts_a_session() {
    let r = pairing_report();
    assert_eq!(r.len(), 33);
    assert_eq!(r[0], 0);
    assert_eq!(r[1], 0x01);
    assert!(r[2..].iter().all(|b| *b == 0xfe));
}
