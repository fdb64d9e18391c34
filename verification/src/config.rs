//! The non-numeric part of settings sanitisation: every value read from disk
//! or imported is brought into the set the renderer and the Settings page
//! accept, and valid values are kept as they are. Also the names that
//! settings exports are written under.
use crate::text::{decimal, push_decimal, str_eq};
use vstd::prelude::*;

verus! {

/// Longest toggle sequence kept.
pub const MAX_TOGGLE_MACRO_LEN: usize = 64;

/// The valid edges to hide the overlay at.
pub open spec fn valid_hide_side(s: Seq<char>) -> bool {
    s == "left"@ || s == "right"@ || s == "top"@ || s == "bottom"@
}

/// The valid layer indicator styles.
pub open spec fn valid_layer_indicator(s: Seq<char>) -> bool {
    s == "none"@ || s == "textual"@ || s == "icon"@
}

/// The valid modifier names of the grab combination.
pub open spec fn valid_modifier(s: Seq<char>) -> bool {
    s == "cmd"@ || s == "alt"@ || s == "ctrl"@ || s == "shift"@
}

/// `c` is an ASCII hexadecimal digit.
pub open spec fn is_hex_digit(c: char) -> bool {
    ('0' <= c && c <= '9') || ('a' <= c && c <= 'f') || ('A' <= c && c <= 'F')
}

/// A CSS colour as the colour inputs take it: '#' and six hex digits.
pub open spec fn valid_color(s: Seq<char>) -> bool {
    &&& s.len() == 7
    &&& s[0] == '#'
    &&& forall|i: int| 1 <= i < 7 ==> is_hex_digit(#[trigger] s[i])
}

/// The hex digits are exactly the characters with code points 48–57
/// ('0'–'9'), 65–70 ('A'–'F') and 97–102 ('a'–'f'), as
/// `u8::is_ascii_hexdigit` has them.
pub proof fn lemma_hex_digit_code_points(c: char)
    ensures
        is_hex_digit(c) <==> (48 <= c as u32 <= 57 || 65 <= c as u32 <= 70 || 97 <= c as u32 <= 102),
{
}

/// A colour is valid exactly when it is '#' followed by six hex digits of
/// either case; [`sanitize_color`] keeps every such colour.
pub proof fn lemma_valid_colors_are_hash_and_six_hex_digits(s: Seq<char>)
    ensures
        valid_color(s) <==> {
            &&& s.len() == 7
            &&& s[0] == '#'
            &&& forall|i: int|
                1 <= i < 7 ==> {
                    let u = (#[trigger] s[i]) as u32;
                    48 <= u <= 57 || 65 <= u <= 70 || 97 <= u <= 102
                }
        },
{
    assert forall|i: int| 1 <= i < 7 implies (is_hex_digit(#[trigger] s[i]) <==> {
        let u = s[i] as u32;
        48 <= u <= 57 || 65 <= u <= 70 || 97 <= u <= 102
    }) by {
        lemma_hex_digit_code_points(s[i]);
    }
}

/// The toggle sequence with out-of-range key indices dropped and cut to
/// [`MAX_TOGGLE_MACRO_LEN`] keys.
pub open spec fn spec_sanitize_toggle_macro(keys: Seq<u8>) -> Seq<u8> {
    let kept = keys.filter(|k: u8| k < 52);
    if kept.len() > MAX_TOGGLE_MACRO_LEN {
        kept.take(MAX_TOGGLE_MACRO_LEN as int)
    } else {
        kept
    }
}

/// The names of the grab combination with unknown names dropped.
pub open spec fn spec_sanitize_grab_combo(names: Seq<Seq<char>>) -> Seq<Seq<char>> {
    names.filter(|n: Seq<char>| valid_modifier(n))
}

/// The views of a list of strings.
pub open spec fn views(v: Seq<String>) -> Seq<Seq<char>> {
    v.map_values(|s: String| s@)
}

/// Whether `s` is a valid hide edge.
fn is_hide_side(s: &str) -> (b: bool)
    ensures
        b == valid_hide_side(s@),
{
    str_eq(s, "left") || str_eq(s, "right") || str_eq(s, "top") || str_eq(s, "bottom")
}

/// The hide edge kept if valid, else "right".
pub fn sanitize_hide_side(side: String) -> (r: String)
    ensures
        r@ == if valid_hide_side(side@) {
            side@
        } else {
            "right"@
        },
{
    if is_hide_side(side.as_str()) {
        side
    } else {
        "right".to_owned()
    }
}

/// The layer indicator kept if valid, else "icon".
pub fn sanitize_layer_indicator(indicator: String) -> (r: String)
    ensures
        r@ == if valid_layer_indicator(indicator@) {
            indicator@
        } else {
            "icon"@
        },
{
    let s = indicator.as_str();
    if str_eq(s, "none") || str_eq(s, "textual") || str_eq(s, "icon") {
        indicator
    } else {
        "icon".to_owned()
    }
}

/// Whether `c` is an ASCII hexadecimal digit.
fn hex_digit(c: char) -> (b: bool)
    ensures
        b == is_hex_digit(c),
{
    ('0' <= c && c <= '9') || ('a' <= c && c <= 'f') || ('A' <= c && c <= 'F')
}

/// Whether `s` is a colour the colour inputs accept (see [`valid_color`]).
pub fn is_valid_color(s: &str) -> (b: bool)
    ensures
        b == valid_color(s@),
{
    let n = s.unicode_len();
    if n != 7 || s.get_char(0) != '#' {
        return false;
    }
    let mut i: usize = 1;
    while i < 7
        invariant
            1 <= i <= 7,
            n == 7 == s@.len(),
            s@[0] == '#',
            forall|k: int| 1 <= k < i ==> is_hex_digit(#[trigger] s@[k]),
        decreases 7 - i,
    {
        if !hex_digit(s.get_char(i)) {
            return false;
        }
        i = i + 1;
    }
    true
}

/// The colour kept if valid, else `default`.
pub fn sanitize_color(color: String, default: &str) -> (r: String)
    ensures
        r@ == if valid_color(color@) {
            color@
        } else {
            default@
        },
{
    if is_valid_color(color.as_str()) {
        color
    } else {
        default.to_owned()
    }
}

/// Drops key indices outside the Voyager's 52 keys and keeps at most the
/// first [`MAX_TOGGLE_MACRO_LEN`] of the rest.
pub fn sanitize_toggle_macro(keys: Vec<u8>) -> (r: Vec<u8>)
    ensures
        r@ == spec_sanitize_toggle_macro(keys@),
{
    let mut kept: Vec<u8> = Vec::new();
    let mut i: usize = 0;
    assert(keys@.take(0).filter(|k: u8| k < 52) =~= Seq::<u8>::empty());
    while i < keys.len()
        invariant
            i <= keys@.len(),
            kept@ == keys@.take(i as int).filter(|k: u8| k < 52),
        decreases keys.len() - i,
    {
        proof {
            assert(keys@.take(i + 1).drop_last() =~= keys@.take(i as int));
            reveal_with_fuel(Seq::filter, 1);
        }
        if keys[i] < 52 {
            kept.push(keys[i]);
        }
        i = i + 1;
    }
    assert(keys@.take(i as int) =~= keys@);
    if kept.len() > MAX_TOGGLE_MACRO_LEN {
        kept.truncate(MAX_TOGGLE_MACRO_LEN);
    }
    kept
}

/// Drops the names of the grab combination that are not modifiers.
pub fn sanitize_grab_combo(names: Vec<String>) -> (r: Vec<String>)
    ensures
        views(r@) == spec_sanitize_grab_combo(views(names@)),
{
    let mut kept: Vec<String> = Vec::new();
    let mut i: usize = 0;
    assert(views(names@).take(0).filter(|n: Seq<char>| valid_modifier(n)) =~= Seq::<Seq<char>>::empty());
    assert(views(kept@) =~= Seq::<Seq<char>>::empty());
    while i < names.len()
        invariant
            i <= names@.len(),
            views(kept@) == views(names@).take(i as int).filter(|n: Seq<char>| valid_modifier(n)),
        decreases names.len() - i,
    {
        proof {
            assert(views(names@).take(i + 1).drop_last() =~= views(names@).take(i as int));
            assert(views(names@).take(i + 1).last() == names@[i as int]@);
            reveal_with_fuel(Seq::filter, 1);
        }
        let s = names[i].as_str();
        if str_eq(s, "cmd") || str_eq(s, "alt") || str_eq(s, "ctrl") || str_eq(s, "shift") {
            let ghost before = kept@;
            kept.push(names[i].clone());
            assert(views(kept@) =~= views(before).push(names@[i as int]@));
        }
        i = i + 1;
    }
    assert(views(names@).take(i as int) =~= views(names@));
    kept
}

/// The file name of the export with number `suffix`: the first export is
/// "layer-hud-settings.json", later ones "layer-hud-settings (n).json".
pub open spec fn spec_export_file_name(suffix: nat) -> Seq<char> {
    if suffix == 0 {
        "layer-hud-settings.json"@
    } else {
        "layer-hud-settings ("@ + decimal(suffix) + ").json"@
    }
}

/// The file name of the export with number `suffix` (see
/// [`spec_export_file_name`]).
pub fn export_file_name(suffix: u64) -> (r: String)
    ensures
        r@ == spec_export_file_name(suffix as nat),
{
    if suffix == 0 {
        return "layer-hud-settings.json".to_owned();
    }
    let mut r = "layer-hud-settings (".to_owned();
    push_decimal(&mut r, suffix);
    r.append(").json");
    r
}

/// Whether a legacy settings directory's files are brought over.
#[derive(Debug, Clone, Copy, PartialEq, Eq, Structural)]
pub struct MigrationPlan {
    /// Copy config.json (read and re-saved, so it is sanitised on the way).
    pub copy_config: bool,
    /// Copy layout.json.
    pub copy_layout: bool,
}

/// Which files of the legacy settings directory to bring over: each one only
/// when the legacy copy exists and the current directory has none, so a
/// migration never overwrites current settings or cache.
pub fn migration_plan(
    new_config_exists: bool,
    old_config_exists: bool,
    new_layout_exists: bool,
    old_layout_exists: bool,
) -> (p: MigrationPlan)
    ensures
        p.copy_config == (!new_config_exists && old_config_exists),
        p.copy_layout == (!new_layout_exists && old_layout_exists),
{
    MigrationPlan {
        copy_config: !new_config_exists && old_config_exists,
        copy_layout: !new_layout_exists && old_layout_exists,
    }
}

/// A sanitised toggle sequence holds only valid key indices, at most
/// [`MAX_TOGGLE_MACRO_LEN`] of them, and sanitising it again keeps it.
pub proof fn lemma_sanitized_toggle_macro_is_stable(keys: Seq<u8>)
    ensures
        spec_sanitize_toggle_macro(keys).len() <= MAX_TOGGLE_MACRO_LEN,
        forall|i: int|
            0 <= i < spec_sanitize_toggle_macro(keys).len() ==> #[trigger] spec_sanitize_toggle_macro(
                keys,
            )[i] < 52,
        spec_sanitize_toggle_macro(spec_sanitize_toggle_macro(keys)) == spec_sanitize_toggle_macro(keys),
{
    let kept = keys.filter(|k: u8| k < 52);
    let s = spec_sanitize_toggle_macro(keys);
    assert forall|i: int| 0 <= i < kept.len() implies kept[i] < 52 by {
        keys.lemma_filter_pred(|k: u8| k < 52, i);
    }
    assert(s.filter(|k: u8| k < 52) =~= s) by {
        lemma_filter_keeps_all(s, |k: u8| k < 52);
    }
}

/// A sanitised grab combination holds only modifier names, and sanitising it
/// again keeps it.
pub proof fn lemma_sanitized_grab_combo_is_stable(names: Seq<Seq<char>>)
    ensures
        forall|i: int|
            0 <= i < spec_sanitize_grab_combo(names).len() ==> valid_modifier(
                #[trigger] spec_sanitize_grab_combo(names)[i],
            ),
        spec_sanitize_grab_combo(spec_sanitize_grab_combo(names)) == spec_sanitize_grab_combo(names),
{
    let kept = spec_sanitize_grab_combo(names);
    assert forall|i: int| 0 <= i < kept.len() implies valid_modifier(kept[i]) by {
        names.lemma_filter_pred(|n: Seq<char>| valid_modifier(n), i);
    }
    lemma_filter_keeps_all(kept, |n: Seq<char>| valid_modifier(n));
}

/// Filtering a sequence whose elements all pass keeps it whole.
proof fn lemma_filter_keeps_all<A>(s: Seq<A>, pred: spec_fn(A) -> bool)
    requires
        forall|i: int| 0 <= i < s.len() ==> pred(#[trigger] s[i]),
    ensures
        s.filter(pred) == s,
    decreases s.len(),
{
    reveal_with_fuel(Seq::filter, 1);
    if s.len() > 0 {
        lemma_filter_keeps_all(s.drop_last(), pred);
        assert(s.drop_last().push(s.last()) =~= s);
    } else {
        assert(s.filter(pred) =~= s);
    }
}

/// The decimal representation has one digit exactly below ten.
proof fn lemma_decimal_len(n: nat)
    ensures
        decimal(n).len() >= 1,
        (decimal(n).len() == 1) == (n < 10),
    decreases n,
{
    if n >= 10 {
        lemma_decimal_len(n / 10);
    }
}

/// Different digits have different characters.
proof fn lemma_digit_char_injective(a: nat, b: nat)
    requires
        a < 10,
        b < 10,
        crate::text::digit_char(a) == crate::text::digit_char(b),
    ensures
        a == b,
{
    assert(crate::text::digit_char(a) as u32 == 48 + a);
    assert(crate::text::digit_char(b) as u32 == 48 + b);
}

/// Different numbers have different decimal representations.
proof fn lemma_decimal_injective(a: nat, b: nat)
    requires
        decimal(a) == decimal(b),
    ensures
        a == b,
    decreases a,
{
    lemma_decimal_len(a);
    lemma_decimal_len(b);
    if a >= 10 && b >= 10 {
        assert(decimal(a).drop_last() =~= decimal(a / 10));
        assert(decimal(b).drop_last() =~= decimal(b / 10));
        lemma_decimal_injective(a / 10, b / 10);
        assert(decimal(a).last() == crate::text::digit_char(a % 10));
        assert(decimal(b).last() == crate::text::digit_char(b % 10));
        lemma_digit_char_injective(a % 10, b % 10);
    } else {
        assert(a < 10 && b < 10);
        assert(decimal(a)[0] == crate::text::digit_char(a));
        assert(decimal(b)[0] == crate::text::digit_char(b));
        lemma_digit_char_injective(a, b);
    }
}

/// Different export numbers give different file names, so the numbered
/// exports never collide with each other.
pub proof fn lemma_export_names_distinct(a: nat, b: nat)
    requires
        a != b,
    ensures
        spec_export_file_name(a) != spec_export_file_name(b),
{
    reveal_strlit("layer-hud-settings.json");
    reveal_strlit("layer-hud-settings (");
    reveal_strlit(").json");
    let p = "layer-hud-settings ("@;
    let q = ").json"@;
    if a == 0 || b == 0 {
        let n = if a == 0 { b } else { a };
        let named = spec_export_file_name(n);
        assert(named[18] == p[18]);
        assert("layer-hud-settings.json"@[18] != p[18]);
    } else if spec_export_file_name(a) == spec_export_file_name(b) {
        let x = spec_export_file_name(a);
        lemma_decimal_len(a);
        lemma_decimal_len(b);
        assert(x.len() == p.len() + decimal(a).len() + q.len());
        assert(decimal(a).len() == decimal(b).len());
        assert(decimal(a) =~= x.subrange(p.len() as int, (p.len() + decimal(a).len()) as int));
        assert(decimal(b) =~= x.subrange(p.len() as int, (p.len() + decimal(b).len()) as int));
        lemma_decimal_injective(a, b);
    }
}

} // verus!
