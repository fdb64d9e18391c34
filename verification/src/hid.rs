//! The Oryx Raw HID protocol spoken by the ZSA Voyager: which interface to
//! open, the pairing report, and the decoding of layer and key reports.
use crate::text::{ascii_lower, to_ascii_lower};
use vstd::prelude::*;

verus! {

/// HID usage page of the Oryx Raw HID collection.
pub const ORYX_USAGE_PAGE: u16 = 0xff60;

/// HID usage of the Oryx Raw HID collection.
pub const ORYX_USAGE: u16 = 0x61;

/// Length of one Oryx report, without the report ID.
pub const REPORT_LEN: usize = 32;

/// Length of a report buffer as hidapi handles it: the report plus its ID byte.
pub const HID_BUFFER_LEN: usize = 33;

/// Command that starts a pairing session.
pub const PAIRING_INIT: u8 = 0x01;

/// Event: the active layer changed.
pub const EVT_LAYER: u8 = 0x05;

/// Event: a key went down.
pub const EVT_KEYDOWN: u8 = 0x06;

/// Event: a key went up.
pub const EVT_KEYUP: u8 = 0x07;

/// Number of keys on a Voyager.
pub const KEY_COUNT: u8 = 52;

/// The Voyager's switch matrix: entry `[row][col]` is the key index wired to
/// that position, or -1 where no switch is wired.
pub open spec fn matrix_table() -> Seq<Seq<int>> {
    seq![
        seq![-1, 0, 1, 2, 3, 4, 5],
        seq![-1, 6, 7, 8, 9, 10, 11],
        seq![-1, 12, 13, 14, 15, 16, 17],
        seq![-1, 18, 19, 20, 21, 22, -1],
        seq![-1, -1, -1, -1, 23, -1, -1],
        seq![24, 25, -1, -1, -1, -1, -1],
        seq![26, 27, 28, 29, 30, 31, -1],
        seq![32, 33, 34, 35, 36, 37, -1],
        seq![38, 39, 40, 41, 42, 43, -1],
        seq![-1, 45, 46, 47, 48, 49, -1],
        seq![-1, -1, 44, -1, -1, -1, -1],
        seq![-1, -1, -1, -1, -1, 50, 51],
    ]
}

/// The key index at matrix position (`col`, `row`), if a key is wired there.
pub open spec fn spec_matrix_index(col: int, row: int) -> Option<u8> {
    if 0 <= row < 12 && 0 <= col < 7 && matrix_table()[row][col] >= 0 {
        Some(matrix_table()[row][col] as u8)
    } else {
        None
    }
}

/// The matrix row of the key with index `key`.
pub open spec fn key_row(key: int) -> int {
    if key < 18 {
        key / 6
    } else if key < 23 {
        3
    } else if key == 23 {
        4
    } else if key < 26 {
        5
    } else if key < 44 {
        6 + (key - 26) / 6
    } else if key == 44 {
        10
    } else if key < 50 {
        9
    } else {
        11
    }
}

/// The matrix column of the key with index `key`.
pub open spec fn key_col(key: int) -> int {
    if key < 18 {
        key % 6 + 1
    } else if key < 23 {
        key - 17
    } else if key == 23 {
        4
    } else if key < 26 {
        key - 24
    } else if key < 44 {
        (key - 26) % 6
    } else if key == 44 {
        2
    } else if key < 50 {
        key - 44
    } else {
        key - 45
    }
}

/// One decoded Oryx report.
#[derive(Debug, Clone, Copy, PartialEq, Eq, Structural)]
pub enum Packet {
    /// The keyboard switched to this layer.
    Layer(u8),
    /// A key at matrix position (`col`, `row`), key index `index`, went down
    /// (`pressed`) or up.
    Key { col: u8, row: u8, index: u8, pressed: bool },
}

/// The report bytes of a read: a 33-byte buffer whose first byte is report ID
/// zero has that ID byte removed; any other read is the report itself.
pub open spec fn report_payload(packet: Seq<u8>) -> Seq<u8> {
    if packet.len() == HID_BUFFER_LEN && packet[0] == 0 {
        packet.drop_first()
    } else {
        packet
    }
}

/// What a read decodes to: a layer report needs the layer byte; a key report
/// needs column and row of a wired matrix position; anything else is ignored.
pub open spec fn spec_decode_packet(packet: Seq<u8>) -> Option<Packet> {
    let data = report_payload(packet);
    if data.len() == 0 {
        None
    } else if data[0] == EVT_LAYER {
        if data.len() >= 2 {
            Some(Packet::Layer(data[1]))
        } else {
            None
        }
    } else if data[0] == EVT_KEYDOWN || data[0] == EVT_KEYUP {
        if data.len() >= 3 {
            match spec_matrix_index(data[1] as int, data[2] as int) {
                Some(index) => Some(
                    Packet::Key { col: data[1], row: data[2], index, pressed: data[0] == EVT_KEYDOWN },
                ),
                None => None,
            }
        } else {
            None
        }
    } else {
        None
    }
}

/// The name "Voyager", compared without regard to ASCII case.
pub open spec fn voyager_name() -> Seq<char> {
    seq!['v', 'o', 'y', 'a', 'g', 'e', 'r']
}

/// `name` equals "Voyager" up to ASCII case.
pub open spec fn names_voyager(name: Seq<char>) -> bool {
    &&& name.len() == voyager_name().len()
    &&& forall|i: int| 0 <= i < name.len() ==> ascii_lower(#[trigger] name[i]) == voyager_name()[i]
}

/// Whether a HID interface is the Voyager's Oryx Raw HID collection.
pub open spec fn spec_is_voyager_interface(product: Option<Seq<char>>, usage_page: u16, usage: u16) -> bool {
    &&& usage_page == ORYX_USAGE_PAGE
    &&& usage == ORYX_USAGE
    &&& product matches Some(name) && names_voyager(name)
}

/// The characters of an optional product name.
pub open spec fn product_name(product: Option<&str>) -> Option<Seq<char>> {
    match product {
        Some(name) => Some(name@),
        None => None,
    }
}

/// The row of key indices of matrix row `row < 12`.
fn matrix_row(row: usize) -> (r: [i8; 7])
    requires
        row < 12,
    ensures
        forall|c: int| 0 <= c < 7 ==> r@[c] as int == #[trigger] matrix_table()[row as int][c],
{
    let r: [i8; 7] = if row == 0 {
        [-1, 0, 1, 2, 3, 4, 5]
    } else if row == 1 {
        [-1, 6, 7, 8, 9, 10, 11]
    } else if row == 2 {
        [-1, 12, 13, 14, 15, 16, 17]
    } else if row == 3 {
        [-1, 18, 19, 20, 21, 22, -1]
    } else if row == 4 {
        [-1, -1, -1, -1, 23, -1, -1]
    } else if row == 5 {
        [24, 25, -1, -1, -1, -1, -1]
    } else if row == 6 {
        [26, 27, 28, 29, 30, 31, -1]
    } else if row == 7 {
        [32, 33, 34, 35, 36, 37, -1]
    } else if row == 8 {
        [38, 39, 40, 41, 42, 43, -1]
    } else if row == 9 {
        [-1, 45, 46, 47, 48, 49, -1]
    } else if row == 10 {
        [-1, -1, 44, -1, -1, -1, -1]
    } else {
        [-1, -1, -1, -1, -1, 50, 51]
    };
    r
}

/// The key index wired at matrix position (`col`, `row`); `None` outside the
/// matrix and at unwired positions.
pub fn matrix_index(col: usize, row: usize) -> (r: Option<u8>)
    ensures
        r == spec_matrix_index(col as int, row as int),
{
    if row >= 12 || col >= 7 {
        return None;
    }
    let r = matrix_row(row);
    let v = r[col];
    assert(v as int == matrix_table()[row as int][col as int]);
    if v >= 0 {
        Some(v as u8)
    } else {
        None
    }
}

/// Decodes one read from the Oryx interface. hidapi reads normally omit the
/// report ID; a 33-byte read that starts with report ID zero is accepted too.
pub fn decode_packet(packet: &[u8]) -> (r: Option<Packet>)
    ensures
        r == spec_decode_packet(packet@),
{
    let padded = packet.len() == HID_BUFFER_LEN && packet[0] == 0;
    let off: usize = if padded { 1 } else { 0 };
    let len = packet.len() - off;
    proof {
        let data = report_payload(packet@);
        assert(data.len() == len);
        assert forall|k: int| 0 <= k < len implies data[k] == #[trigger] packet@[k + off] by {}
    }
    if len == 0 {
        return None;
    }
    let kind = packet[off];
    if kind == EVT_LAYER {
        if len >= 2 {
            Some(Packet::Layer(packet[off + 1]))
        } else {
            None
        }
    } else if kind == EVT_KEYDOWN || kind == EVT_KEYUP {
        if len >= 3 {
            let col = packet[off + 1];
            let row = packet[off + 2];
            match matrix_index(col as usize, row as usize) {
                Some(index) => Some(Packet::Key { col, row, index, pressed: kind == EVT_KEYDOWN }),
                None => None,
            }
        } else {
            None
        }
    } else {
        None
    }
}

/// Whether a HID interface is the Voyager's Oryx Raw HID collection: the Oryx
/// usage page and usage, on a device whose product name is "Voyager" in any
/// ASCII case. Other Raw HID keyboards and the normal typing interfaces fail.
pub fn is_voyager_interface(product: Option<&str>, usage_page: u16, usage: u16) -> (b: bool)
    ensures
        b == spec_is_voyager_interface(product_name(product), usage_page, usage),
{
    if usage_page != ORYX_USAGE_PAGE || usage != ORYX_USAGE {
        return false;
    }
    match product {
        None => false,
        Some(name) => {
            let n = name.unicode_len();
            if n != 7 {
                return false;
            }
            let expected: [char; 7] = ['v', 'o', 'y', 'a', 'g', 'e', 'r'];
            assert(expected@ =~= voyager_name());
            let mut i: usize = 0;
            while i < 7
                invariant
                    i <= 7,
                    n == name@.len(),
                    n == 7,
                    product_name(product) == Some(name@),
                    usage_page == ORYX_USAGE_PAGE && usage == ORYX_USAGE,
                    expected@ == voyager_name(),
                    forall|k: int| 0 <= k < i ==> ascii_lower(#[trigger] name@[k]) == voyager_name()[k],
                decreases 7 - i,
            {
                if to_ascii_lower(name.get_char(i)) != expected[i] {
                    assert(ascii_lower(name@[i as int]) != voyager_name()[i as int]);
                    return false;
                }
                i = i + 1;
            }
            true
        },
    }
}

/// The report that starts a pairing session, as written to hidapi: report ID
/// zero, the pairing command, and the rest of the report filled with 0xfe.
pub open spec fn spec_pairing_report() -> Seq<u8> {
    Seq::new(HID_BUFFER_LEN as nat, |i: int| if i == 0 { 0u8 } else if i == 1 { PAIRING_INIT } else { 0xfeu8 })
}

/// Builds the pairing report (see [`spec_pairing_report`]).
pub fn pairing_report() -> (r: Vec<u8>)
    ensures
        r@ == spec_pairing_report(),
{
    let mut r: Vec<u8> = Vec::new();
    r.push(0);
    r.push(PAIRING_INIT);
    while r.len() < HID_BUFFER_LEN
        invariant
            2 <= r.len() <= HID_BUFFER_LEN,
            r@[0] == 0,
            r@[1] == PAIRING_INIT,
            forall|k: int| 2 <= k < r.len() ==> r@[k] == 0xfe,
        decreases HID_BUFFER_LEN - r.len(),
    {
        r.push(0xfe);
    }
    assert(r@ =~= spec_pairing_report());
    r
}

/// Every matrix position that is wired holds a key index below 52, and it is
/// exactly the position that [`key_col`] and [`key_row`] give for that index.
pub proof fn lemma_matrix_positions_are_unique(col: int, row: int)
    ensures
        spec_matrix_index(col, row) matches Some(k) ==> {
            &&& k < KEY_COUNT
            &&& key_col(k as int) == col
            &&& key_row(k as int) == row
        },
{
    if 0 <= row < 12 && 0 <= col < 7 {
        let r = matrix_table()[row];
        assert(r[col] == matrix_table()[row][col]);
    }
}

/// Every Voyager key has exactly one matrix position: each index below 52 is
/// wired at (`key_col`, `key_row`), and at no other position.
pub proof fn lemma_every_key_has_one_position(key: int, col: int, row: int)
    requires
        0 <= key < KEY_COUNT,
    ensures
        spec_matrix_index(key_col(key), key_row(key)) == Some(key as u8),
        spec_matrix_index(col, row) == Some(key as u8) ==> col == key_col(key) && row == key_row(key),
{
    lemma_matrix_positions_are_unique(col, row);
    let c = key_col(key);
    let r = key_row(key);
    assert(0 <= r < 12 && 0 <= c < 7);
    assert(matrix_table()[r][c] == key);
}

/// A report read with a leading zero report ID decodes exactly like the same
/// report read without it.
pub proof fn lemma_padded_report_decodes_like_bare(report: Seq<u8>)
    requires
        report.len() == REPORT_LEN,
    ensures
        spec_decode_packet(seq![0u8] + report) == spec_decode_packet(report),
{
    assert((seq![0u8] + report).drop_first() =~= report);
}

/// Every decoded key report names one of the Voyager's 52 keys, at the one
/// matrix position that key is wired to.
pub proof fn lemma_decoded_keys_are_voyager_keys(packet: Seq<u8>)
    ensures
        spec_decode_packet(packet) matches Some(Packet::Key { col, row, index, pressed }) ==> {
            &&& index < KEY_COUNT
            &&& key_col(index as int) == col
            &&& key_row(index as int) == row
        },
{
    let data = report_payload(packet);
    if data.len() >= 3 {
        lemma_matrix_positions_are_unique(data[1] as int, data[2] as int);
    }
}

} // verus!
