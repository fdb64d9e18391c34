//! Which Oryx layout and revision the keyboard runs, the request that asks
//! Oryx for its labels, and the checks a layout document must pass before it
//! is shown or cached.
use crate::json::{
    as_array, as_u64, is_string_of, is_true, json_get, lemma_member_at, opt_get, with_member,
    Json, JsonNumber,
};
use crate::oryx::{parse_layout_hash, spec_parse_layout_hash};
use crate::text::{all_alnum_in, all_ascii_alnum};
use vstd::prelude::*;

verus! {

/// A layout hash and revision id may each be 1 to 64 ASCII letters or digits.
pub open spec fn valid_identity_part(s: Seq<char>) -> bool {
    1 <= s.len() <= 64 && all_ascii_alnum(s)
}

/// An identity part is valid exactly when it has 1 to 64 characters, each an
/// ASCII digit or letter of either case ('0'–'9', 'A'–'Z', 'a'–'z');
/// so [`LayoutIdentity::new`] accepts every such layout and revision.
pub proof fn lemma_identity_parts_are_ascii_alphanumeric(s: Seq<char>)
    ensures
        valid_identity_part(s) <==> {
            &&& 1 <= s.len() <= 64
            &&& forall|i: int|
                0 <= i < s.len() ==> {
                    let u = (#[trigger] s[i]) as u32;
                    48 <= u <= 57 || 65 <= u <= 90 || 97 <= u <= 122
                }
        },
{
    assert forall|i: int| 0 <= i < s.len() implies (crate::text::is_ascii_alnum(#[trigger] s[i]) <==> {
        let u = s[i] as u32;
        48 <= u <= 57 || 65 <= u <= 90 || 97 <= u <= 122
    }) by {
        crate::text::lemma_ascii_alnum_code_points(s[i]);
    }
}

/// Index of the first `c` in `s`, if any.
pub open spec fn first_char_index(s: Seq<char>, c: char) -> Option<int>
    decreases s.len(),
{
    if s.len() == 0 {
        None
    } else if s[0] == c {
        Some(0)
    } else {
        match first_char_index(s.drop_first(), c) {
            Some(i) => Some(i + 1),
            None => None,
        }
    }
}

/// The two sides of the first '/' in a serial, as `str::split_once('/')`
/// gives them.
pub open spec fn split_serial(serial: Seq<char>) -> Option<(Seq<char>, Seq<char>)> {
    match first_char_index(serial, '/') {
        Some(i) => Some((serial.take(i), serial.skip(i + 1))),
        None => None,
    }
}

/// The Oryx layout and firmware revision a keyboard reports.
#[derive(Clone, Debug, PartialEq, Eq)]
pub struct LayoutIdentity {
    pub layout: String,
    pub revision: String,
}

impl LayoutIdentity {
    /// This identity names layout `layout` at revision `revision`.
    pub open spec fn names(self, layout: Seq<char>, revision: Seq<char>) -> bool {
        self.layout@ == layout && self.revision@ == revision
    }

    /// Both identities name the same layout and revision.
    pub open spec fn same(self, other: LayoutIdentity) -> bool {
        self.names(other.layout@, other.revision@)
    }

    /// An identity for `layout` at `revision`, when both are valid
    /// (see [`valid_identity_part`]).
    pub fn new(layout: &str, revision: &str) -> (r: Option<Self>)
        ensures
            r is Some <==> valid_identity_part(layout@) && valid_identity_part(revision@),
            r matches Some(id) ==> id.names(layout@, revision@),
    {
        if valid_part(layout) && valid_part(revision) {
            Some(LayoutIdentity { layout: layout.to_owned(), revision: revision.to_owned() })
        } else {
            None
        }
    }

    /// The identity in a keyboard serial of the form `layout/revision`
    /// (split at the first '/').
    pub fn from_serial(serial: &str) -> (r: Option<Self>)
        ensures
            match split_serial(serial@) {
                Some((layout, revision)) => {
                    &&& (r is Some <==> valid_identity_part(layout) && valid_identity_part(revision))
                    &&& r matches Some(id) ==> id.names(layout, revision)
                },
                None => r is None,
            },
    {
        let n = serial.unicode_len();
        let mut i: usize = 0;
        while i < n
            invariant
                i <= n == serial@.len(),
                forall|k: int| 0 <= k < i ==> serial@[k] != '/',
            ensures
                i <= n,
                forall|k: int| 0 <= k < i ==> serial@[k] != '/',
                i < n ==> serial@[i as int] == '/',
            decreases n - i,
        {
            if serial.get_char(i) == '/' {
                break;
            }
            i = i + 1;
        }
        proof {
            lemma_first_char_index(serial@, '/', i as int);
        }
        if i == n {
            return None;
        }
        let layout = serial.substring_char(0, i);
        let revision = serial.substring_char(i + 1, n);
        assert(layout@ =~= serial@.take(i as int));
        assert(revision@ =~= serial@.skip(i + 1));
        Self::new(layout, revision)
    }

    /// Whether both identities name the same layout and revision.
    pub fn same_as(&self, other: &LayoutIdentity) -> (b: bool)
        ensures
            b == self.same(*other),
    {
        self.layout == other.layout && self.revision == other.revision
    }
}

proof fn lemma_first_char_index(s: Seq<char>, c: char, j: int)
    requires
        0 <= j <= s.len(),
        forall|k: int| 0 <= k < j ==> s[k] != c,
    ensures
        j < s.len() && s[j] == c ==> first_char_index(s, c) == Some(j),
        j == s.len() ==> first_char_index(s, c) is None,
    decreases j,
{
    if j > 0 {
        let rest = s.drop_first();
        assert forall|k: int| 0 <= k < j - 1 implies rest[k] != c by {
            assert(rest[k] == s[k + 1]);
        }
        lemma_first_char_index(rest, c, j - 1);
    }
}

/// Whether `s` is a valid layout hash or revision id.
fn valid_part(s: &str) -> (b: bool)
    ensures
        b == valid_identity_part(s@),
{
    let n = s.unicode_len();
    if n < 1 || n > 64 {
        return false;
    }
    assert(s@.subrange(0, n as int) =~= s@);
    all_alnum_in(s, 0, n)
}

/// Why a layout document was refused.
#[derive(Debug, Clone, Copy, PartialEq, Eq, Structural)]
pub enum LayoutError {
    /// `data.layout.revision.layers` is missing, not an array, or empty.
    NoLayers,
    /// A layer has no non-negative integer `position`.
    InvalidPosition,
    /// Two layers share a `position`.
    DuplicatePosition,
    /// A layer has no `keys` array.
    NoKeys,
    /// A layer's `keys` are not exactly 52 objects.
    UnsupportedGeometry,
}

/// The message shown for each [`LayoutError`].
pub open spec fn layout_error_message(e: LayoutError) -> Seq<char> {
    match e {
        LayoutError::NoLayers => "Layout has no layers"@,
        LayoutError::InvalidPosition => "Invalid layer position"@,
        LayoutError::DuplicatePosition => "Duplicate layer position"@,
        LayoutError::NoKeys => "Layer has no keys"@,
        LayoutError::UnsupportedGeometry => "Only 52-key Voyager layouts are supported"@,
    }
}

impl LayoutError {
    /// The message for this error (see [`layout_error_message`]).
    pub fn message(&self) -> (r: String)
        ensures
            r@ == layout_error_message(*self),
    {
        match self {
            LayoutError::NoLayers => "Layout has no layers".to_owned(),
            LayoutError::InvalidPosition => "Invalid layer position".to_owned(),
            LayoutError::DuplicatePosition => "Duplicate layer position".to_owned(),
            LayoutError::NoKeys => "Layer has no keys".to_owned(),
            LayoutError::UnsupportedGeometry => "Only 52-key Voyager layouts are supported".to_owned(),
        }
    }
}

/// The layers of a layout document: `data.layout.revision.layers`, if that
/// is an array.
pub open spec fn layout_layers(v: Json) -> Option<Seq<Json>> {
    as_array(
        opt_get(opt_get(opt_get(json_get(v, "data"@), "layout"@), "revision"@), "layers"@),
    )
}

/// Every element is a JSON object.
pub open spec fn all_objects(items: Seq<Json>) -> bool {
    forall|i: int| 0 <= i < items.len() ==> (#[trigger] items[i]) is Object
}

/// Checks layers in order; `seen` holds the positions of the layers before.
/// The first failing layer decides the error, and within a layer the checks
/// run position, uniqueness, keys, key count.
pub open spec fn check_layers(layers: Seq<Json>, seen: Seq<u64>) -> Result<(), LayoutError>
    decreases layers.len(),
{
    if layers.len() == 0 {
        Ok(())
    } else {
        let layer = layers[0];
        match as_u64(json_get(layer, "position"@)) {
            None => Err(LayoutError::InvalidPosition),
            Some(p) => if seen.contains(p) {
                Err(LayoutError::DuplicatePosition)
            } else {
                match as_array(json_get(layer, "keys"@)) {
                    None => Err(LayoutError::NoKeys),
                    Some(keys) => if keys.len() != 52 || !all_objects(keys) {
                        Err(LayoutError::UnsupportedGeometry)
                    } else {
                        check_layers(layers.drop_first(), seen.push(p))
                    },
                }
            },
        }
    }
}

/// Whether a document is a usable Voyager layout: it has at least one layer,
/// layer positions are distinct non-negative integers, and every layer has
/// exactly 52 key objects.
pub open spec fn spec_validate_layout(v: Json) -> Result<(), LayoutError> {
    match layout_layers(v) {
        Some(layers) => if layers.len() == 0 {
            Err(LayoutError::NoLayers)
        } else {
            check_layers(layers, Seq::empty())
        },
        None => Err(LayoutError::NoLayers),
    }
}

proof fn lemma_check_layers_ok(layers: Seq<Json>, seen: Seq<u64>)
    requires
        check_layers(layers, seen) is Ok,
    ensures
        forall|i: int|
            0 <= i < layers.len() ==> {
                &&& as_u64(json_get(#[trigger] layers[i], "position"@)) matches Some(p) && !seen.contains(p)
                &&& as_array(json_get(layers[i], "keys"@)) matches Some(keys) && keys.len() == 52
                    && forall|k: int| 0 <= k < keys.len() ==> (#[trigger] keys[k]) is Object
            },
        forall|i: int, j: int|
            0 <= i < j < layers.len() ==> as_u64(json_get(#[trigger] layers[i], "position"@)) != as_u64(
                json_get(#[trigger] layers[j], "position"@),
            ),
    decreases layers.len(),
{
    if layers.len() > 0 {
        let p = as_u64(json_get(layers[0], "position"@)).unwrap();
        let rest = layers.drop_first();
        let seen2 = seen.push(p);
        lemma_check_layers_ok(rest, seen2);
        assert forall|i: int|
            0 <= i < layers.len() implies {
            &&& as_u64(json_get(#[trigger] layers[i], "position"@)) matches Some(q) && !seen.contains(q)
            &&& as_array(json_get(layers[i], "keys"@)) matches Some(keys) && keys.len() == 52
                && forall|k: int| 0 <= k < keys.len() ==> (#[trigger] keys[k]) is Object
        } by {
            if i > 0 {
                assert(layers[i] == rest[i - 1]);
                let q = as_u64(json_get(rest[i - 1], "position"@)).unwrap();
                assert(!seen2.contains(q));
                if seen.contains(q) {
                    let w = choose|w: int| 0 <= w < seen.len() && seen[w] == q;
                    assert(seen2[w] == q);
                }
            }
        }
        assert forall|i: int, j: int|
            0 <= i < j < layers.len() implies as_u64(json_get(#[trigger] layers[i], "position"@))
            != as_u64(json_get(#[trigger] layers[j], "position"@)) by {
            assert(layers[j] == rest[j - 1]);
            if i > 0 {
                assert(layers[i] == rest[i - 1]);
            } else {
                let q = as_u64(json_get(rest[j - 1], "position"@)).unwrap();
                assert(!seen2.contains(q));
                assert(seen2[seen.len() as int] == p);
            }
        }
    }
}

proof fn lemma_check_layers_wrong_count(layers: Seq<Json>, seen: Seq<u64>, i: int)
    requires
        0 <= i < layers.len(),
        forall|j: int|
            0 <= j <= i ==> (as_u64(json_get(#[trigger] layers[j], "position"@)) matches Some(p)
                && !seen.contains(p)),
        forall|j: int, k: int|
            0 <= j < k <= i ==> as_u64(json_get(#[trigger] layers[j], "position"@)) != as_u64(
                json_get(#[trigger] layers[k], "position"@),
            ),
        forall|j: int|
            0 <= j < i ==> (as_array(json_get(#[trigger] layers[j], "keys"@)) matches Some(keys)
                && keys.len() == 52 && forall|k: int| 0 <= k < keys.len() ==> (#[trigger] keys[k]) is Object),
        as_array(json_get(layers[i], "keys"@)) matches Some(keys) && keys.len() != 52,
    ensures
        check_layers(layers, seen) == Err::<(), LayoutError>(LayoutError::UnsupportedGeometry),
    decreases i,
{
    assert(as_u64(json_get(layers[0], "position"@)) is Some);
    if i > 0 {
        let p = as_u64(json_get(layers[0], "position"@)).unwrap();
        let keys0 = as_array(json_get(layers[0], "keys"@)).unwrap();
        assert(keys0.len() == 52);
        assert(all_objects(keys0));
        let rest = layers.drop_first();
        let seen2 = seen.push(p);
        assert forall|j: int|
            0 <= j <= i - 1 implies (as_u64(json_get(#[trigger] rest[j], "position"@)) matches Some(q)
            && !seen2.contains(q)) by {
            assert(rest[j] == layers[j + 1]);
            let q = as_u64(json_get(layers[j + 1], "position"@)).unwrap();
            assert(as_u64(json_get(layers[0], "position"@)) != as_u64(json_get(layers[j + 1], "position"@)));
            if seen2.contains(q) {
                let w = choose|w: int| 0 <= w < seen2.len() && seen2[w] == q;
                if w < seen.len() {
                    assert(seen[w] == q);
                }
            }
        }
        assert forall|j: int, k: int|
            0 <= j < k <= i - 1 implies as_u64(json_get(#[trigger] rest[j], "position"@)) != as_u64(
            json_get(#[trigger] rest[k], "position"@),
        ) by {
            assert(rest[j] == layers[j + 1]);
            assert(rest[k] == layers[k + 1]);
        }
        assert forall|j: int| 0 <= j < i - 1 implies (as_array(json_get(#[trigger] rest[j], "keys"@))
            matches Some(keys) && keys.len() == 52 && forall|k: int|
            0 <= k < keys.len() ==> (#[trigger] keys[k]) is Object) by {
            assert(rest[j] == layers[j + 1]);
        }
        assert(rest[i - 1] == layers[i]);
        lemma_check_layers_wrong_count(rest, seen2, i - 1);
    }
}

/// Every accepted layout is a Voyager layout: it has at least one layer,
/// every layer has a non-negative integer position, no two layers share a
/// position, and every layer's `keys` are exactly 52 JSON objects.
pub proof fn lemma_accepted_layouts_have_52_key_layers(v: Json)
    requires
        spec_validate_layout(v) is Ok,
    ensures
        layout_layers(v) matches Some(layers) && {
            &&& layers.len() > 0
            &&& forall|i: int|
                0 <= i < layers.len() ==> {
                    &&& as_u64(json_get(#[trigger] layers[i], "position"@)) is Some
                    &&& as_array(json_get(layers[i], "keys"@)) matches Some(keys) && keys.len() == 52
                        && forall|k: int| 0 <= k < keys.len() ==> (#[trigger] keys[k]) is Object
                }
            &&& forall|i: int, j: int|
                0 <= i < j < layers.len() ==> as_u64(json_get(#[trigger] layers[i], "position"@))
                    != as_u64(json_get(#[trigger] layers[j], "position"@))
        },
{
    let layers = layout_layers(v).unwrap();
    lemma_check_layers_ok(layers, Seq::empty());
}

/// A layer with any other number of keys than 52 is refused as
/// [`LayoutError::UnsupportedGeometry`] when the layers before it, and its
/// own position, pass.
pub proof fn lemma_other_key_counts_are_refused(v: Json, layers: Seq<Json>, i: int)
    requires
        layout_layers(v) == Some(layers),
        0 <= i < layers.len(),
        forall|j: int| 0 <= j <= i ==> as_u64(json_get(#[trigger] layers[j], "position"@)) is Some,
        forall|j: int, k: int|
            0 <= j < k <= i ==> as_u64(json_get(#[trigger] layers[j], "position"@)) != as_u64(
                json_get(#[trigger] layers[k], "position"@),
            ),
        forall|j: int|
            0 <= j < i ==> (as_array(json_get(#[trigger] layers[j], "keys"@)) matches Some(keys)
                && keys.len() == 52 && forall|k: int| 0 <= k < keys.len() ==> (#[trigger] keys[k]) is Object),
        as_array(json_get(layers[i], "keys"@)) matches Some(keys) && keys.len() != 52,
    ensures
        spec_validate_layout(v) == Err::<(), LayoutError>(LayoutError::UnsupportedGeometry),
{
    lemma_check_layers_wrong_count(layers, Seq::empty(), i);
}

/// Whether `x` occurs in `v`.
fn contains_u64(v: &Vec<u64>, x: u64) -> (b: bool)
    ensures
        b == v@.contains(x),
{
    let mut i: usize = 0;
    while i < v.len()
        invariant
            i <= v@.len(),
            forall|k: int| 0 <= k < i ==> v@[k] != x,
        decreases v.len() - i,
    {
        if v[i] == x {
            return true;
        }
        i = i + 1;
    }
    false
}

/// Whether every element is a JSON object.
fn all_json_objects(items: &Vec<Json>) -> (b: bool)
    ensures
        b == all_objects(items@),
{
    let mut k: usize = 0;
    while k < items.len()
        invariant
            k <= items@.len(),
            forall|m: int| 0 <= m < k ==> (#[trigger] items@[m]) is Object,
        decreases items.len() - k,
    {
        match &items[k] {
            Json::Object(_) => {},
            _ => return false,
        }
        k = k + 1;
    }
    true
}

/// Checks a layout document (see [`spec_validate_layout`]).
pub fn validate_layout(value: &Json) -> (r: Result<(), LayoutError>)
    ensures
        r == spec_validate_layout(*value),
{
    let layers = match value.get("data") {
        Some(d) => match d.get("layout") {
            Some(l) => match l.get("revision") {
                Some(rv) => match rv.get("layers") {
                    Some(Json::Array(items)) => items,
                    _ => return Err(LayoutError::NoLayers),
                },
                None => return Err(LayoutError::NoLayers),
            },
            None => return Err(LayoutError::NoLayers),
        },
        None => return Err(LayoutError::NoLayers),
    };
    let n = layers.len();
    if n == 0 {
        return Err(LayoutError::NoLayers);
    }
    let ghost all = layers@;
    assert(layout_layers(*value) == Some(all));
    let mut seen: Vec<u64> = Vec::new();
    let mut i: usize = 0;
    assert(all.skip(0) =~= all);
    while i < n
        invariant
            i <= n == all.len(),
            all == layers@,
            spec_validate_layout(*value) == check_layers(all, Seq::empty()),
            check_layers(all, Seq::empty()) == check_layers(all.skip(i as int), seen@),
        decreases n - i,
    {
        let ghost rest = all.skip(i as int);
        assert(rest[0] == all[i as int]);
        assert(rest.drop_first() =~= all.skip(i + 1));
        let layer = &layers[i];
        let p = match layer.get("position") {
            Some(Json::Number(JsonNumber::PosInt(p))) => *p,
            _ => return Err(LayoutError::InvalidPosition),
        };
        if contains_u64(&seen, p) {
            return Err(LayoutError::DuplicatePosition);
        }
        let keys = match layer.get("keys") {
            Some(Json::Array(keys)) => keys,
            _ => return Err(LayoutError::NoKeys),
        };
        if keys.len() != 52 {
            return Err(LayoutError::UnsupportedGeometry);
        }
        if !all_json_objects(keys) {
            return Err(LayoutError::UnsupportedGeometry);
        }
        seen.push(p);
        i = i + 1;
    }
    assert(all.skip(n as int) =~= Seq::<Json>::empty());
    Ok(())
}

/// The Oryx GraphQL endpoint that serves layouts.
pub const GRAPHQL_URL: &'static str = "https://oryx.zsa.io/graphql";

/// The GraphQL query for a layout revision's title, config and layers.
pub const QUERY: &'static str = "query getLayout($hashId: String!, $revisionId: String!, $geometry: String) { layout(hashId: $hashId, revisionId: $revisionId, geometry: $geometry) { title revision { title config layers { position title keys } } } }";

/// `r` is the request body for `id`: exactly the members `query` (the layout
/// query) and `variables`, which holds exactly `hashId` (the layout),
/// `revisionId` (the flashed revision) and `geometry` ("voyager").
pub open spec fn is_request_body(r: Json, id: LayoutIdentity) -> bool {
    let vars = json_get(r, "variables"@);
    &&& r matches Json::Object(top) && top@.len() == 2
    &&& is_string_of(json_get(r, "query"@), QUERY@)
    &&& vars matches Some(Json::Object(v)) && v@.len() == 3
    &&& is_string_of(opt_get(vars, "hashId"@), id.layout@)
    &&& is_string_of(opt_get(vars, "revisionId"@), id.revision@)
    &&& is_string_of(opt_get(vars, "geometry"@), "voyager"@)
}

/// `r` is the JSON form of `id`: exactly the members `layout` and `revision`.
pub open spec fn is_identity_json(r: Option<Json>, id: LayoutIdentity) -> bool {
    &&& r matches Some(Json::Object(f)) && f@.len() == 2
    &&& is_string_of(opt_get(r, "layout"@), id.layout@)
    &&& is_string_of(opt_get(r, "revision"@), id.revision@)
}

/// The GraphQL request body that asks Oryx for the flashed revision of the
/// keyboard's layout (see [`is_request_body`]).
pub fn request_body(identity: &LayoutIdentity) -> (r: Json)
    ensures
        is_request_body(r, *identity),
{
    let vars: Vec<(String, Json)> = vec![
        ("hashId".to_owned(), Json::String(identity.layout.clone())),
        ("revisionId".to_owned(), Json::String(identity.revision.clone())),
        ("geometry".to_owned(), Json::String("voyager".to_owned())),
    ];
    let ghost v = vars@;
    let top: Vec<(String, Json)> = vec![
        ("query".to_owned(), Json::String(QUERY.to_owned())),
        ("variables".to_owned(), Json::Object(vars)),
    ];
    let ghost t = top@;
    let r = Json::Object(top);
    proof {
        reveal_strlit("hashId");
        reveal_strlit("revisionId");
        reveal_strlit("geometry");
        reveal_strlit("query");
        reveal_strlit("variables");
        lemma_member_at(t, 0, "query"@);
        assert("query"@.len() != "variables"@.len());
        lemma_member_at(t, 1, "variables"@);
        lemma_member_at(v, 0, "hashId"@);
        assert("hashId"@.len() != "revisionId"@.len());
        lemma_member_at(v, 1, "revisionId"@);
        lemma_member_at(v, 2, "geometry"@);
    }
    r
}

/// The JSON form of an identity (see [`is_identity_json`]), as the layout
/// cache records it.
pub fn identity_json(identity: &LayoutIdentity) -> (r: Json)
    ensures
        is_identity_json(Some(r), *identity),
{
    let f: Vec<(String, Json)> = vec![
        ("layout".to_owned(), Json::String(identity.layout.clone())),
        ("revision".to_owned(), Json::String(identity.revision.clone())),
    ];
    let ghost t = f@;
    let r = Json::Object(f);
    proof {
        reveal_strlit("layout");
        reveal_strlit("revision");
        lemma_member_at(t, 0, "layout"@);
        assert("layout"@.len() != "revision"@.len());
        lemma_member_at(t, 1, "revision"@);
    }
    r
}

/// A fetched layout document, checked and tagged with the identity it was
/// fetched for: a refused document gives its [`LayoutError`]; an accepted one
/// comes back with member `_layer_hud` set to the identity (replaced in
/// place, or appended when absent) and all other members unchanged.
pub fn tag_fetched_layout(value: Json, identity: &LayoutIdentity) -> (r: Result<Json, LayoutError>)
    ensures
        match spec_validate_layout(value) {
            Err(e) => r == Err::<Json, LayoutError>(e),
            Ok(()) => r matches Ok(v) && exists|tag: Json|
                is_identity_json(Some(tag), *identity) && with_member(v, value, "_layer_hud"@, tag),
        },
{
    let ghost old_value = value;
    let mut value = value;
    match validate_layout(&value) {
        Err(e) => Err(e),
        Ok(()) => {
            let tag = identity_json(identity);
            proof {
                assert(value is Object);
            }
            let ghost t = tag;
            value.set_member("_layer_hud", tag);
            proof {
                assert(is_identity_json(Some(t), *identity) && with_member(value, old_value, "_layer_hud"@, t));
            }
            Ok(value)
        },
    }
}

/// Why a cached layout was not used.
#[derive(Debug, Clone, PartialEq, Eq)]
pub enum CacheError {
    /// The cached document fails [`validate_layout`].
    Layout(LayoutError),
    /// The cached identity record could not be read; holds the reader's message.
    Identity(String),
    /// The cache belongs to another layout or firmware revision.
    Mismatch,
}

/// The message shown for a [`CacheError`].
pub open spec fn cache_error_message(e: CacheError) -> Seq<char> {
    match e {
        CacheError::Layout(l) => layout_error_message(l),
        CacheError::Identity(m) => "Invalid cache identity: "@ + m@,
        CacheError::Mismatch => "Cached layout belongs to a different layout or firmware revision"@,
    }
}

impl CacheError {
    /// The message for this error (see [`cache_error_message`]).
    pub fn message(&self) -> (r: String)
        ensures
            r@ == cache_error_message(*self),
    {
        match self {
            CacheError::Layout(l) => l.message(),
            CacheError::Identity(m) => {
                let mut r = "Invalid cache identity: ".to_owned();
                r.append(m.as_str());
                r
            },
            CacheError::Mismatch => "Cached layout belongs to a different layout or firmware revision".to_owned(),
        }
    }
}

/// The identity a cache is taken to hold: the one recorded in it, else (for
/// caches written before identities were recorded) `legacy`.
pub open spec fn cache_owner(stored: Option<LayoutIdentity>, legacy: Option<LayoutIdentity>) -> Option<LayoutIdentity> {
    match stored {
        Some(id) => Some(id),
        None => legacy,
    }
}

/// A cache may serve `expected` only when its owner names the same layout
/// and revision; with no expectation any valid cache serves.
pub open spec fn cache_serves(owner: Option<LayoutIdentity>, expected: Option<LayoutIdentity>) -> bool {
    match expected {
        None => true,
        Some(e) => owner matches Some(o) && o.same(e),
    }
}

/// Decides whether a cached layout document may be shown. `stored` is the
/// identity record read from the cache's `_layer_hud` member (`None` when the
/// member is absent, `Err` with the reader's message when it is malformed).
/// The document must pass [`validate_layout`], the record must be readable,
/// and the cache must serve `expected` (see [`cache_serves`]); the cache is
/// then returned with member `stale` set to `true` (replaced in place, or
/// appended when absent) and all else unchanged.
/// A cache never stands in for a different layout or revision.
pub fn check_cached_layout(
    value: Json,
    stored: Result<Option<LayoutIdentity>, String>,
    expected: Option<&LayoutIdentity>,
    legacy: Option<&LayoutIdentity>,
) -> (r: Result<Json, CacheError>)
    ensures
        match spec_validate_layout(value) {
            Err(e) => r == Err::<Json, CacheError>(CacheError::Layout(e)),
            Ok(()) => match stored {
                Err(m) => r == Err::<Json, CacheError>(CacheError::Identity(m)),
                Ok(s) => if cache_serves(
                    cache_owner(s, opt_ref(legacy)),
                    opt_ref(expected),
                ) {
                    r matches Ok(v) && with_member(v, value, "stale"@, Json::Bool(true))
                } else {
                    r == Err::<Json, CacheError>(CacheError::Mismatch)
                },
            },
        },
{
    let mut value = value;
    if let Err(e) = validate_layout(&value) {
        return Err(CacheError::Layout(e));
    }
    let stored = match stored {
        Err(m) => return Err(CacheError::Identity(m)),
        Ok(s) => s,
    };
    if let Some(expected) = expected {
        let serves = match &stored {
            Some(s) => s.same_as(expected),
            None => match legacy {
                Some(l) => l.same_as(expected),
                None => false,
            },
        };
        if !serves {
            return Err(CacheError::Mismatch);
        }
    }
    value.set_member("stale", Json::Bool(true));
    Ok(value)
}

/// An optional reference taken as an optional value.
pub open spec fn opt_ref(o: Option<&LayoutIdentity>) -> Option<LayoutIdentity> {
    match o {
        Some(x) => Some(*x),
        None => None,
    }
}

/// Whether a layout document was served from the cache (its `stale` member
/// is `true`); only fresh documents are written back to the cache.
pub fn is_stale(value: &Json) -> (b: bool)
    ensures
        b == is_true(json_get(*value, "stale"@)),
{
    match value.get("stale") {
        Some(Json::Bool(true)) => true,
        _ => false,
    }
}

/// Why no layout identity could be settled on.
#[derive(Debug, Clone, Copy, PartialEq, Eq, Structural)]
pub enum IdentityError {
    /// A keyboard is connected but has not reported its identity yet.
    NotReported,
    /// No keyboard is connected and the settings name no valid layout.
    NoLayout,
}

/// The message shown for each [`IdentityError`].
pub open spec fn identity_error_message(e: IdentityError) -> Seq<char> {
    match e {
        IdentityError::NotReported => "Connected keyboard has not reported an Oryx layout/revision identity"@,
        IdentityError::NoLayout => "No keyboard layout detected; connect your Voyager"@,
    }
}

impl IdentityError {
    /// The message for this error (see [`identity_error_message`]).
    pub fn message(&self) -> (r: String)
        ensures
            r@ == identity_error_message(*self),
    {
        match self {
            IdentityError::NotReported => "Connected keyboard has not reported an Oryx layout/revision identity".to_owned(),
            IdentityError::NoLayout => "No keyboard layout detected; connect your Voyager".to_owned(),
        }
    }
}

/// The layout hash the saved settings name: the hash in `oryx_url`, or
/// nothing when it holds none.
pub open spec fn saved_hash(oryx_url: Seq<char>) -> Seq<char> {
    match spec_parse_layout_hash(oryx_url) {
        Some(h) => h,
        None => Seq::empty(),
    }
}

/// Which identity to ask Oryx for: the one the keyboard reported; if none
/// was reported while the keyboard is connected, an error; otherwise the
/// layout and revision the settings last recorded, if they form a valid
/// identity.
pub fn resolve_identity(
    reported: Option<LayoutIdentity>,
    keyboard_online: bool,
    oryx_url: &str,
    oryx_revision: &str,
) -> (r: Result<LayoutIdentity, IdentityError>)
    ensures
        match reported {
            Some(id) => r == Ok::<LayoutIdentity, IdentityError>(id),
            None => if keyboard_online {
                r == Err::<LayoutIdentity, IdentityError>(IdentityError::NotReported)
            } else if valid_identity_part(saved_hash(oryx_url@)) && valid_identity_part(
                oryx_revision@,
            ) {
                r matches Ok(id) && id.names(saved_hash(oryx_url@), oryx_revision@)
            } else {
                r == Err::<LayoutIdentity, IdentityError>(IdentityError::NoLayout)
            },
        },
{
    if let Some(id) = reported {
        return Ok(id);
    }
    if keyboard_online {
        return Err(IdentityError::NotReported);
    }
    let hash = match parse_layout_hash(oryx_url) {
        Some(h) => h,
        None => String::new(),
    };
    match LayoutIdentity::new(hash.as_str(), oryx_revision) {
        Some(id) => Ok(id),
        None => Err(IdentityError::NoLayout),
    }
}

/// What a cached layout must match before it is shown at startup: the
/// resolved identity; with no resolvable identity, any valid cache while the
/// keyboard is away, but the resolution error while it is connected.
pub fn cache_expectation(
    resolved: Result<LayoutIdentity, IdentityError>,
    keyboard_online: bool,
) -> (r: Result<Option<LayoutIdentity>, IdentityError>)
    ensures
        match resolved {
            Ok(id) => r == Ok::<Option<LayoutIdentity>, IdentityError>(Some(id)),
            Err(e) => if keyboard_online {
                r == Err::<Option<LayoutIdentity>, IdentityError>(e)
            } else {
                r == Ok::<Option<LayoutIdentity>, IdentityError>(None)
            },
        },
{
    match resolved {
        Ok(id) => Ok(Some(id)),
        Err(e) => if keyboard_online {
            Err(e)
        } else {
            Ok(None)
        },
    }
}

/// The serial a keyboard reports for a valid identity, "layout/revision",
/// yields exactly that identity again.
pub proof fn lemma_serial_round_trip(layout: Seq<char>, revision: Seq<char>)
    requires
        valid_identity_part(layout),
        valid_identity_part(revision),
    ensures
        split_serial(layout + seq!['/'] + revision) == Some((layout, revision)),
{
    let s = layout + seq!['/'] + revision;
    assert forall|k: int| 0 <= k < layout.len() implies s[k] != '/' by {
        assert(s[k] == layout[k]);
        assert(crate::text::is_ascii_alnum(layout[k]));
    }
    assert(s[layout.len() as int] == '/');
    lemma_first_char_index(s, '/', layout.len() as int);
    assert(s.take(layout.len() as int) =~= layout);
    assert(s.skip((layout.len() + 1) as int) =~= revision);
}

/// A cache only ever serves an expected identity that it belongs to: when an
/// identity is expected, a cache is used only if its owner names the same
/// layout and revision.
pub proof fn lemma_cache_serves_only_its_owner(
    stored: Option<LayoutIdentity>,
    legacy: Option<LayoutIdentity>,
    expected: LayoutIdentity,
)
    ensures
        cache_serves(cache_owner(stored, legacy), Some(expected)) ==> {
            &&& cache_owner(stored, legacy) matches Some(owner)
            &&& owner.same(expected)
            &&& stored matches Some(s) ==> s.same(expected)
        },
{
}

} // verus!
