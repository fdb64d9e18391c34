//! The modifier combination that, while held, makes the overlay grabbable.
use crate::text::str_eq;
use vstd::prelude::*;

verus! {

/// CoreGraphics event flag of the Shift key (bit 17).
pub const MASK_SHIFT: u64 = 0x2_0000;

/// CoreGraphics event flag of the Control key (bit 18).
pub const MASK_CTRL: u64 = 0x4_0000;

/// CoreGraphics event flag of the Option (alt) key (bit 19).
pub const MASK_ALT: u64 = 0x8_0000;

/// CoreGraphics event flag of the Command key (bit 20).
pub const MASK_CMD: u64 = 0x10_0000;

/// The flag of a modifier name; unknown names contribute nothing.
pub open spec fn modifier_flag(name: Seq<char>) -> u64 {
    if name == "cmd"@ {
        MASK_CMD
    } else if name == "alt"@ {
        MASK_ALT
    } else if name == "ctrl"@ {
        MASK_CTRL
    } else if name == "shift"@ {
        MASK_SHIFT
    } else {
        0
    }
}

/// The union of the flags of `names`.
pub open spec fn spec_combo_mask(names: Seq<String>) -> u64
    decreases names.len(),
{
    if names.len() == 0 {
        0
    } else {
        spec_combo_mask(names.drop_last()) | modifier_flag(names.last()@)
    }
}

/// Some name in `names` is exactly `n` (names are case-sensitive).
pub open spec fn names_modifier(names: Seq<String>, n: Seq<char>) -> bool {
    exists|i: int| 0 <= i < names.len() && (#[trigger] names[i])@ == n
}

/// The flags of the modifiers that are chosen.
pub open spec fn flags_for(cmd: bool, alt: bool, ctrl: bool, shift: bool) -> u64 {
    (if cmd { MASK_CMD } else { 0u64 }) | (if alt { MASK_ALT } else { 0u64 }) | (if ctrl {
        MASK_CTRL
    } else {
        0u64
    }) | (if shift { MASK_SHIFT } else { 0u64 })
}

proof fn lemma_flags_for_or(a: bool, b: bool, c: bool, d: bool, e: bool, f: bool, g: bool, h: bool)
    ensures
        flags_for(a, b, c, d) | flags_for(e, f, g, h) == flags_for(a || e, b || f, c || g, d || h),
        flags_for(a, b, c, d) & 0x1E_0000u64 == flags_for(a, b, c, d),
{
    assert(flags_for(a, b, c, d) | flags_for(e, f, g, h) == flags_for(a || e, b || f, c || g, d || h))
        by (bit_vector);
    assert(flags_for(a, b, c, d) & 0x1E_0000u64 == flags_for(a, b, c, d)) by (bit_vector);
}

proof fn lemma_modifier_flag(n: Seq<char>)
    ensures
        modifier_flag(n) == flags_for(n == "cmd"@, n == "alt"@, n == "ctrl"@, n == "shift"@),
{
    reveal_strlit("cmd");
    reveal_strlit("alt");
    reveal_strlit("ctrl");
    reveal_strlit("shift");
    assert("cmd"@.len() == 3 && "alt"@.len() == 3 && "ctrl"@.len() == 4 && "shift"@.len() == 5);
    assert("cmd"@[0] != "alt"@[0]);
    assert(flags_for(false, false, false, false) == 0) by (bit_vector);
    assert(flags_for(true, false, false, false) == MASK_CMD) by (bit_vector);
    assert(flags_for(false, true, false, false) == MASK_ALT) by (bit_vector);
    assert(flags_for(false, false, true, false) == MASK_CTRL) by (bit_vector);
    assert(flags_for(false, false, false, true) == MASK_SHIFT) by (bit_vector);
}

proof fn lemma_names_modifier_push(names: Seq<String>, n: Seq<char>)
    requires
        names.len() > 0,
    ensures
        names_modifier(names, n) == (names_modifier(names.drop_last(), n) || names.last()@ == n),
{
    let p = names.drop_last();
    if names_modifier(names, n) {
        let i = choose|i: int| 0 <= i < names.len() && (#[trigger] names[i])@ == n;
        if i < names.len() - 1 {
            assert(p[i] == names[i]);
        }
    }
    if names_modifier(p, n) {
        let i = choose|i: int| 0 <= i < p.len() && (#[trigger] p[i])@ == n;
        assert(names[i] == p[i]);
    }
    if names.last()@ == n {
        assert(names[names.len() - 1]@ == n);
    }
}

/// The mask of a list of names is the flags of the modifiers it names: each
/// known name sets its own bit, whatever else the list holds.
pub proof fn lemma_combo_mask_is_named_flags(names: Seq<String>)
    ensures
        spec_combo_mask(names) == flags_for(
            names_modifier(names, "cmd"@),
            names_modifier(names, "alt"@),
            names_modifier(names, "ctrl"@),
            names_modifier(names, "shift"@),
        ),
    decreases names.len(),
{
    if names.len() == 0 {
        assert(flags_for(false, false, false, false) == 0) by (bit_vector);
    } else {
        let p = names.drop_last();
        let n = names.last()@;
        lemma_combo_mask_is_named_flags(p);
        lemma_modifier_flag(n);
        lemma_names_modifier_push(names, "cmd"@);
        lemma_names_modifier_push(names, "alt"@);
        lemma_names_modifier_push(names, "ctrl"@);
        lemma_names_modifier_push(names, "shift"@);
        lemma_flags_for_or(
            names_modifier(p, "cmd"@),
            names_modifier(p, "alt"@),
            names_modifier(p, "ctrl"@),
            names_modifier(p, "shift"@),
            n == "cmd"@,
            n == "alt"@,
            n == "ctrl"@,
            n == "shift"@,
        );
    }
}

/// The mask of two lists put together is the union of their masks.
pub proof fn lemma_combo_mask_concat(a: Seq<String>, b: Seq<String>)
    ensures
        spec_combo_mask(a + b) == spec_combo_mask(a) | spec_combo_mask(b),
{
    lemma_combo_mask_is_named_flags(a);
    lemma_combo_mask_is_named_flags(b);
    lemma_combo_mask_is_named_flags(a + b);
    assert forall|n: Seq<char>| #[trigger]
        names_modifier(a + b, n) == (names_modifier(a, n) || names_modifier(b, n)) by {
        if names_modifier(a + b, n) {
            let i = choose|i: int| 0 <= i < (a + b).len() && (#[trigger] (a + b)[i])@ == n;
            if i < a.len() {
                assert(a[i] == (a + b)[i]);
            } else {
                assert(b[i - a.len()] == (a + b)[i]);
            }
        }
        if names_modifier(a, n) {
            let i = choose|i: int| 0 <= i < a.len() && (#[trigger] a[i])@ == n;
            assert((a + b)[i] == a[i]);
        }
        if names_modifier(b, n) {
            let i = choose|i: int| 0 <= i < b.len() && (#[trigger] b[i])@ == n;
            assert((a + b)[i + a.len()] == b[i]);
        }
    }
    lemma_flags_for_or(
        names_modifier(a, "cmd"@),
        names_modifier(a, "alt"@),
        names_modifier(a, "ctrl"@),
        names_modifier(a, "shift"@),
        names_modifier(b, "cmd"@),
        names_modifier(b, "alt"@),
        names_modifier(b, "ctrl"@),
        names_modifier(b, "shift"@),
    );
}

/// Only the names matter: two lists that name the same strings, in any
/// order and however often, have the same mask.
pub proof fn lemma_combo_mask_ignores_order_and_repeats(a: Seq<String>, b: Seq<String>)
    requires
        forall|n: Seq<char>| names_modifier(a, n) == names_modifier(b, n),
    ensures
        spec_combo_mask(a) == spec_combo_mask(b),
{
    lemma_combo_mask_is_named_flags(a);
    lemma_combo_mask_is_named_flags(b);
    assert(names_modifier(a, "cmd"@) == names_modifier(b, "cmd"@));
    assert(names_modifier(a, "alt"@) == names_modifier(b, "alt"@));
    assert(names_modifier(a, "ctrl"@) == names_modifier(b, "ctrl"@));
    assert(names_modifier(a, "shift"@) == names_modifier(b, "shift"@));
}

/// A mask sets no bit but the four modifier flags (bits 17 to 20).
pub proof fn lemma_combo_mask_bits(names: Seq<String>)
    ensures
        spec_combo_mask(names) & 0x1E_0000u64 == spec_combo_mask(names),
{
    lemma_combo_mask_is_named_flags(names);
    lemma_flags_for_or(
        names_modifier(names, "cmd"@),
        names_modifier(names, "alt"@),
        names_modifier(names, "ctrl"@),
        names_modifier(names, "shift"@),
        false,
        false,
        false,
        false,
    );
}

/// Executable form of [`modifier_flag`].
fn flag_of(name: &str) -> (f: u64)
    ensures
        f == modifier_flag(name@),
{
    if str_eq(name, "cmd") {
        MASK_CMD
    } else if str_eq(name, "alt") {
        MASK_ALT
    } else if str_eq(name, "ctrl") {
        MASK_CTRL
    } else if str_eq(name, "shift") {
        MASK_SHIFT
    } else {
        0
    }
}

/// The CoreGraphics flag mask of the named modifiers ("cmd", "alt", "ctrl",
/// "shift"; other names are ignored).
pub fn combo_mask(names: &[String]) -> (m: u64)
    ensures
        m == spec_combo_mask(names@),
{
    let mut m: u64 = 0;
    let mut i: usize = 0;
    assert(names@.take(0) =~= Seq::<String>::empty());
    while i < names.len()
        invariant
            i <= names@.len(),
            m == spec_combo_mask(names@.take(i as int)),
        decreases names.len() - i,
    {
        assert(names@.take(i + 1).drop_last() =~= names@.take(i as int));
        m = m | flag_of(names[i].as_str());
        i = i + 1;
    }
    assert(names@.take(i as int) =~= names@);
    m
}

/// The combination is held: it names at least one modifier and every one of
/// its flags is set.
pub fn combo_active(flags: u64, mask: u64) -> (b: bool)
    ensures
        b == (mask != 0 && flags & mask == mask),
{
    mask != 0 && flags & mask == mask
}

/// One poll of the modifier state: whether the overlay is now grabbed, and
/// whether that changed since the last poll (so the window and the page must
/// be told).
pub fn grab_poll(grabbed: bool, flags: u64, mask: u64) -> (r: (bool, bool))
    ensures
        r.0 == (mask != 0 && flags & mask == mask),
        r.1 == (r.0 != grabbed),
{
    let active = combo_active(flags, mask);
    (active, active != grabbed)
}

/// A combination is held exactly when each of its modifiers is held.
pub proof fn lemma_combo_needs_every_modifier(flags: u64, a: u64, b: u64)
    requires
        a == MASK_CMD || a == MASK_ALT || a == MASK_CTRL || a == MASK_SHIFT,
        b == MASK_CMD || b == MASK_ALT || b == MASK_CTRL || b == MASK_SHIFT,
    ensures
        (flags & (a | b) == (a | b)) == (flags & a == a && flags & b == b),
{
    assert((flags & (a | b) == (a | b)) == (flags & a == a && flags & b == b)) by (bit_vector)
        requires
            a == 0x20000u64 || a == 0x40000u64 || a == 0x80000u64 || a == 0x100000u64,
            b == 0x20000u64 || b == 0x40000u64 || b == 0x80000u64 || b == 0x100000u64,
    ;
}

} // verus!
