//! Oryx layout addresses and small pieces of the overlay's window logic that
//! do not involve floating-point geometry.
use crate::config::{valid_hide_side, views};
use crate::text::{
    all_alnum_in, all_ascii_alnum, decimal, lemma_trim_is_idempotent, push_char, push_decimal,
    str_eq, substring, trim, trim_bounds,
};
use vstd::prelude::*;

verus! {

/// The pieces of `s` between '/' separators, as `str::split('/')` yields
/// them: `n` separators give `n + 1` pieces, empty pieces included.
pub open spec fn split_slash(s: Seq<char>) -> Seq<Seq<char>>
    decreases s.len(),
{
    if s.len() == 0 {
        seq![Seq::<char>::empty()]
    } else {
        let prev = split_slash(s.drop_last());
        if s.last() == '/' {
            prev.push(Seq::<char>::empty())
        } else {
            prev.update(prev.len() - 1, prev.last().push(s.last()))
        }
    }
}

/// The word that precedes the layout hash in an Oryx URL path.
pub open spec fn layouts_word() -> Seq<char> {
    seq!['l', 'a', 'y', 'o', 'u', 't', 's']
}

/// Index of the first piece equal to `word`, if any.
pub open spec fn first_index_of(parts: Seq<Seq<char>>, word: Seq<char>) -> Option<int>
    decreases parts.len(),
{
    if parts.len() == 0 {
        None
    } else if parts[0] == word {
        Some(0)
    } else {
        match first_index_of(parts.drop_first(), word) {
            Some(i) => Some(i + 1),
            None => None,
        }
    }
}

/// The layout hash an Oryx layout address names. The input is trimmed of
/// white space; an address with '/' names the piece that follows the first
/// "layouts" piece, a bare word is the hash itself; either way the hash must
/// be non-empty ASCII letters and digits.
pub open spec fn spec_parse_layout_hash(input: Seq<char>) -> Option<Seq<char>> {
    let s = trim(input);
    if s.len() == 0 {
        None
    } else if s.contains('/') {
        let parts = split_slash(s);
        match first_index_of(parts, layouts_word()) {
            Some(idx) => if idx + 1 < parts.len() && parts[idx + 1].len() > 0 && all_ascii_alnum(
                parts[idx + 1],
            ) {
                Some(parts[idx + 1])
            } else {
                None
            },
            None => None,
        }
    } else if all_ascii_alnum(s) {
        Some(s)
    } else {
        None
    }
}

/// A hash the parser returns is itself a bare hash that parses to itself, so
/// settings that record a parsed hash keep naming the same layout.
pub proof fn lemma_parsed_hash_is_stable(input: Seq<char>)
    ensures
        spec_parse_layout_hash(input) matches Some(h) ==> spec_parse_layout_hash(h) == Some(h),
{
    if let Some(h) = spec_parse_layout_hash(input) {
        assert(h.len() > 0 && all_ascii_alnum(h));
        assert(!crate::text::is_white_space(h[0]));
        assert(!crate::text::is_white_space(h.last()));
        assert(trim(h) == h);
        assert(!h.contains('/')) by {
            assert forall|i: int| 0 <= i < h.len() implies h[i] != '/' by {
                assert(crate::text::is_ascii_alnum(h[i]));
            }
        }
    }
}

/// White space around an address makes no difference: the hash parsed from
/// the trimmed input is the hash parsed from the input itself.
pub proof fn lemma_parse_ignores_surrounding_space(input: Seq<char>)
    ensures
        spec_parse_layout_hash(trim(input)) == spec_parse_layout_hash(input),
{
    lemma_trim_is_idempotent(input);
}

/// The texts of pieces of `s` given by their bounds.
pub open spec fn piece_texts(s: Seq<char>, bounds: Seq<(usize, usize)>) -> Seq<Seq<char>> {
    bounds.map_values(|p: (usize, usize)| s.subrange(p.0 as int, p.1 as int))
}

proof fn lemma_split_slash_nonempty(s: Seq<char>)
    ensures
        split_slash(s).len() >= 1,
    decreases s.len(),
{
    if s.len() > 0 {
        lemma_split_slash_nonempty(s.drop_last());
    }
}

proof fn lemma_first_index_of(parts: Seq<Seq<char>>, word: Seq<char>, j: int)
    requires
        0 <= j <= parts.len(),
        forall|k: int| 0 <= k < j ==> parts[k] != word,
    ensures
        j < parts.len() && parts[j] == word ==> first_index_of(parts, word) == Some(j),
        j == parts.len() ==> first_index_of(parts, word) is None,
    decreases j,
{
    if j > 0 {
        let rest = parts.drop_first();
        assert forall|k: int| 0 <= k < j - 1 implies rest[k] != word by {
            assert(rest[k] == parts[k + 1]);
        }
        lemma_first_index_of(rest, word, j - 1);
    }
}

/// Whether `s@.subrange(from, to)` is the word "layouts".
fn is_layouts_piece(s: &str, from: usize, to: usize) -> (b: bool)
    requires
        from <= to <= s@.len(),
    ensures
        b == (s@.subrange(from as int, to as int) == layouts_word()),
{
    let word: [char; 7] = ['l', 'a', 'y', 'o', 'u', 't', 's'];
    assert(word@ =~= layouts_word());
    if to - from != 7 {
        return false;
    }
    let mut i: usize = 0;
    while i < 7
        invariant
            i <= 7,
            to - from == 7,
            from <= to <= s@.len(),
            word@ == layouts_word(),
            forall|k: int| 0 <= k < i ==> s@[from + k] == layouts_word()[k],
        decreases 7 - i,
    {
        if s.get_char(from + i) != word[i] {
            assert(s@.subrange(from as int, to as int)[i as int] != layouts_word()[i as int]);
            return false;
        }
        i = i + 1;
    }
    assert(s@.subrange(from as int, to as int) =~= layouts_word());
    true
}

/// Extracts the layout hash from an Oryx layout URL or a bare hash
/// (see [`spec_parse_layout_hash`]).
pub fn parse_layout_hash(input: &str) -> (r: Option<String>)
    ensures
        match r {
            Some(h) => spec_parse_layout_hash(input@) == Some(h@),
            None => spec_parse_layout_hash(input@) is None,
        },
{
    let (a, b) = trim_bounds(input);
    let ghost t = input@.subrange(a as int, b as int);
    if a == b {
        return None;
    }
    // Does the trimmed text hold a '/'?

    let mut j = a;
    let mut has_slash = false;
    while j < b
        invariant
            a <= j <= b <= input@.len(),
            t == input@.subrange(a as int, b as int),
            !has_slash ==> forall|k: int| a <= k < j ==> input@[k] != '/',
            has_slash ==> t.contains('/'),
        decreases b - j,
    {
        if input.get_char(j) == '/' {
            assert(t[j - a] == '/');
            has_slash = true;
        }
        j = j + 1;
    }
    if !has_slash {
        assert(!t.contains('/')) by {
            assert forall|k: int| 0 <= k < t.len() implies t[k] != '/' by {
                assert(t[k] == input@[a + k]);
            }
        }
        if all_alnum_in(input, a, b) {
            return Some(substring(input, a, b));
        } else {
            return None;
        }
    }
    // Cut the trimmed text into its '/'-separated pieces.

    let mut pieces: Vec<(usize, usize)> = Vec::new();
    let mut cur = a;
    let mut j = a;
    assert(input@.subrange(a as int, a as int) =~= Seq::<char>::empty());
    assert(piece_texts(input@, pieces@).push(input@.subrange(cur as int, a as int)) =~= seq![
        Seq::<char>::empty(),
    ]);
    while j < b
        invariant
            a <= cur <= j <= b <= input@.len(),
            t == input@.subrange(a as int, b as int),
            forall|k: int|
                0 <= k < pieces@.len() ==> a <= (#[trigger] pieces@[k]).0 <= pieces@[k].1 <= j,
            split_slash(input@.subrange(a as int, j as int)) == piece_texts(input@, pieces@).push(
                input@.subrange(cur as int, j as int),
            ),
        decreases b - j,
    {
        let ghost before = input@.subrange(a as int, j as int);
        let ghost after = input@.subrange(a as int, j + 1);
        assert(after.drop_last() =~= before);
        assert(after.last() == input@[j as int]);
        proof { lemma_split_slash_nonempty(before); }
        let ghost prev = pieces@;
        if input.get_char(j) == '/' {
            pieces.push((cur, j));
            assert(piece_texts(input@, pieces@) =~= piece_texts(input@, prev).push(
                input@.subrange(cur as int, j as int),
            ));
            cur = j + 1;
            assert(input@.subrange(cur as int, j + 1) =~= Seq::<char>::empty());
        } else {
            assert(input@.subrange(cur as int, j + 1) =~= input@.subrange(cur as int, j as int).push(
                input@[j as int],
            ));
        }
        j = j + 1;
    }
    pieces.push((cur, b));
    let ghost parts = piece_texts(input@, pieces@);
    assert(parts == split_slash(t));
    // Find the first "layouts" piece; the hash is the piece after it.

    let n = pieces.len();
    let mut idx: usize = 0;
    while idx < n
        invariant
            idx <= n == pieces@.len(),
            parts == piece_texts(input@, pieces@),
            forall|k: int| 0 <= k < pieces@.len() ==> (#[trigger] pieces@[k]).0 <= pieces@[k].1 <= input@.len(),
            forall|k: int| 0 <= k < idx ==> parts[k] != layouts_word(),
        ensures
            idx <= n,
            forall|k: int| 0 <= k < idx ==> parts[k] != layouts_word(),
            idx < n ==> parts[idx as int] == layouts_word(),
        decreases n - idx,
    {
        let (p0, p1) = pieces[idx];
        assert(parts[idx as int] == input@.subrange(p0 as int, p1 as int));
        if is_layouts_piece(input, p0, p1) {
            break;
        }
        idx = idx + 1;
    }
    proof {
        lemma_first_index_of(parts, layouts_word(), idx as int);
    }
    if idx == n {
        return None;
    }
    if idx + 1 >= n {
        return None;
    }
    let (h0, h1) = pieces[idx + 1];
    assert(parts[idx + 1] == input@.subrange(h0 as int, h1 as int));
    if h0 < h1 && all_alnum_in(input, h0, h1) {
        Some(substring(input, h0, h1))
    } else {
        None
    }
}

/// The key a monitor's saved window position is stored under: its name when
/// it reports a non-empty one, else its size as "WIDTHxHEIGHT".
pub open spec fn spec_monitor_key(name: Option<Seq<char>>, width: u32, height: u32) -> Seq<char> {
    match name {
        Some(n) if n.len() > 0 => n,
        _ => decimal(width as nat) + seq!['x'] + decimal(height as nat),
    }
}

/// The key a monitor's saved window position is stored under (see
/// [`spec_monitor_key`]); `width` and `height` are its size in pixels.
pub fn monitor_key(name: Option<&str>, width: u32, height: u32) -> (r: String)
    ensures
        r@ == spec_monitor_key(
            match name {
                Some(n) => Some(n@),
                None => None,
            },
            width,
            height,
        ),
{
    if let Some(n) = name {
        if n.unicode_len() > 0 {
            return n.to_owned();
        }
    }
    let mut r = String::new();
    push_decimal(&mut r, width as u64);
    push_char(&mut r, 'x');
    push_decimal(&mut r, height as u64);
    r
}

/// Where the overlay can be aligned on its monitor.
#[derive(Debug, Clone, Copy, PartialEq, Eq, Structural)]
pub enum Alignment {
    /// Centred left to right.
    Horizontal,
    /// Centred top to bottom.
    Vertical,
    /// Against the top edge.
    Top,
    /// Against the bottom edge.
    Bottom,
}

/// The alignment an axis name asks for.
pub open spec fn spec_alignment(axis: Seq<char>) -> Option<Alignment> {
    if axis == "horizontal"@ {
        Some(Alignment::Horizontal)
    } else if axis == "vertical"@ {
        Some(Alignment::Vertical)
    } else if axis == "top"@ {
        Some(Alignment::Top)
    } else if axis == "bottom"@ {
        Some(Alignment::Bottom)
    } else {
        None
    }
}

/// Reads an alignment request; an unknown axis is refused with the message
/// "unknown alignment: " followed by the axis.
pub fn parse_alignment(axis: &str) -> (r: Result<Alignment, String>)
    ensures
        match spec_alignment(axis@) {
            Some(a) => r == Ok::<Alignment, String>(a),
            None => r matches Err(m) && m@ == "unknown alignment: "@ + axis@,
        },
{
    if str_eq(axis, "horizontal") {
        Ok(Alignment::Horizontal)
    } else if str_eq(axis, "vertical") {
        Ok(Alignment::Vertical)
    } else if str_eq(axis, "top") {
        Ok(Alignment::Top)
    } else if str_eq(axis, "bottom") {
        Ok(Alignment::Bottom)
    } else {
        let mut m = "unknown alignment: ".to_owned();
        m.append(axis);
        Err(m)
    }
}

/// The monitor edge the overlay hides at.
#[derive(Debug, Clone, Copy, PartialEq, Eq, Structural)]
pub enum HideSide {
    Left,
    Right,
    Top,
    Bottom,
}

/// The edge a setting names; anything but "left", "top" or "bottom" is the
/// right edge.
pub open spec fn spec_hide_side(side: Seq<char>) -> HideSide {
    if side == "left"@ {
        HideSide::Left
    } else if side == "top"@ {
        HideSide::Top
    } else if side == "bottom"@ {
        HideSide::Bottom
    } else {
        HideSide::Right
    }
}

/// The edge the overlay hides at (see [`spec_hide_side`]).
pub fn hide_side(side: &str) -> (r: HideSide)
    ensures
        r == spec_hide_side(side@),
{
    if str_eq(side, "left") {
        HideSide::Left
    } else if str_eq(side, "top") {
        HideSide::Top
    } else if str_eq(side, "bottom") {
        HideSide::Bottom
    } else {
        HideSide::Right
    }
}

/// Each valid edge name names its own edge: "left" is the left edge,
/// "right" the right, "top" the top and "bottom" the bottom, and no two
/// valid names share an edge; any other text falls back to the right edge.
pub proof fn lemma_hide_side_names_its_edge(side: Seq<char>)
    ensures
        valid_hide_side(side) ==> {
            &&& (spec_hide_side(side) == HideSide::Left <==> side == "left"@)
            &&& (spec_hide_side(side) == HideSide::Right <==> side == "right"@)
            &&& (spec_hide_side(side) == HideSide::Top <==> side == "top"@)
            &&& (spec_hide_side(side) == HideSide::Bottom <==> side == "bottom"@)
        },
        !valid_hide_side(side) ==> spec_hide_side(side) == HideSide::Right,
{
    reveal_strlit("left");
    reveal_strlit("right");
    reveal_strlit("top");
    reveal_strlit("bottom");
    assert("left"@.len() == 4 && "right"@.len() == 5 && "top"@.len() == 3 && "bottom"@.len() == 6);
}

/// Index of the first key equal to `key`.
fn find_key(keys: &Vec<String>, key: &str) -> (r: Option<usize>)
    ensures
        match r {
            Some(i) => first_index_of(views(keys@), key@) == Some(i as int),
            None => first_index_of(views(keys@), key@) is None,
        },
{
    let mut i: usize = 0;
    while i < keys.len()
        invariant
            i <= keys@.len(),
            forall|k: int| 0 <= k < i ==> views(keys@)[k] != key@,
        decreases keys.len() - i,
    {
        if str_eq(keys[i].as_str(), key) {
            proof {
                lemma_first_index_of(views(keys@), key@, i as int);
            }
            return Some(i);
        }
        i = i + 1;
    }
    proof {
        lemma_first_index_of(views(keys@), key@, i as int);
    }
    None
}

/// The first of `keys` equal to an optional key.
pub open spec fn find_opt(keys: Seq<Seq<char>>, key: Option<Seq<char>>) -> Option<int> {
    match key {
        Some(k) => first_index_of(keys, k),
        None => None,
    }
}

/// Which monitor the overlay is restored on at startup, given the monitors'
/// keys: the one it was last on, else the one the window system put it on,
/// else the first monitor.
pub open spec fn spec_select_monitor(keys: Seq<Seq<char>>, last: Option<Seq<char>>, current: Option<Seq<char>>) -> Option<int> {
    match find_opt(keys, last) {
        Some(i) => Some(i),
        None => match find_opt(keys, current) {
            Some(i) => Some(i),
            None => if keys.len() > 0 {
                Some(0)
            } else {
                None
            },
        },
    }
}

/// The views of optional strings.
pub open spec fn opt_view(s: Option<&str>) -> Option<Seq<char>> {
    match s {
        Some(x) => Some(x@),
        None => None,
    }
}

/// Index of the monitor to restore the overlay on (see
/// [`spec_select_monitor`]).
pub fn select_monitor(keys: &Vec<String>, last: Option<&str>, current: Option<&str>) -> (r: Option<usize>)
    ensures
        match r {
            Some(i) => spec_select_monitor(views(keys@), opt_view(last), opt_view(current)) == Some(
                i as int,
            ),
            None => spec_select_monitor(views(keys@), opt_view(last), opt_view(current)) is None,
        },
{
    if let Some(l) = last {
        if let Some(i) = find_key(keys, l) {
            return Some(i);
        }
    }
    if let Some(c) = current {
        if let Some(i) = find_key(keys, c) {
            return Some(i);
        }
    }
    if keys.len() > 0 {
        Some(0)
    } else {
        None
    }
}

} // verus!
