use layer_hud::json::{Json, JsonNumber};
use layer_hud::layout::{
    cache_expectation, check_cached_layout, identity_json, is_stale, request_body,
    resolve_identity, tag_fetched_layout, validate_layout, CacheError, IdentityError,
    LayoutError, LayoutIdentity,
};

fn obj(fields: Vec<(&str, Json)>) -> Json {
    Json::Object(fields.into_iter().map(|(k, v)| (k.to_string(), v)).collect())
}

fn string(s: &str) -> Json {
    Json::String(s.to_string())
}

fn layer(position: u64, keys: usize) -> Json {
    obj(vec![
        ("position", Json::Number(JsonNumber::PosInt(position))),
        ("keys", Json::Array((0..keys).map(|_| obj(vec![])).collect())),
    ])
}

fn with_layers(layers: Vec<Json>) -> Json {
    obj(vec![(
        "data",
        obj(vec![(
            "layout",
            obj(vec![("revision", obj(vec![("layers", Json::Array(layers))]))]),
        )]),
    )])
}

fn layout() -> Json {
    with_layers(vec![layer(0, 52)])
}

#[test]
fn flashed_revision_is_used_in_request() {
    let id = LayoutIdentity::from_serial("Br3gO/OadOzq").unwrap();
    let body = request_body(&id);
    assert_eq!(
        body.get("variables").unwrap().get("revisionId"),
        Some(&string("OadOzq"))
    );
    assert!(LayoutIdentity::from_serial("Br3gO/").is_none());
    assert!(LayoutIdentity::from_serial("../other").is_none());
}

#[test]
fn validates_geometry_and_rejects_error_responses() {
    assert!(validate_layout(&layout()).is_ok());
    assert!(validate_layout(&obj(vec![(
        "errors",
        Json::Array(vec![obj(vec![("message", string("unavailable"))])])
    )]))
    .is_err());
    let invalid = with_layers(vec![layer(0, 1)]);
    assert!(validate_layout(&invalid).is_err());
}

#[test]
fn cache_never_substitutes_a_different_revision() {
    let id = LayoutIdentity::new("abc", "revision1").unwrap();
    let other = LayoutIdentity::new("abc", "revision2").unwrap();
    // A cache that records its identity serves exactly that identity.
    let mut tagged = layout();
    tagged.set_member("_layer_hud", identity_json(&id));
    let served = check_cached_layout(tagged, Ok(Some(id.clone())), Some(&id), None).unwrap();
    assert_eq!(served.get("stale"), Some(&Json::Bool(true)));
    let mut tagged = layout();
    tagged.set_member("_layer_hud", identity_json(&id));
    assert!(check_cached_layout(tagged, Ok(Some(id.clone())), Some(&other), Some(&other)).is_err());
    // An untagged cache falls back to the identity the settings recorded.
    assert!(check_cached_layout(layout(), Ok(None), Some(&other), Some(&id)).is_err());
    assert!(check_cached_layout(layout(), Ok(None), Some(&id), Some(&id)).is_ok());
    // A malformed identity record is refused.
    assert!(check_cached_layout(
        layout(),
        Err("missing field `layout`".to_string()),
        Some(&id),
        Some(&id)
    )
    .is_err());
}

#[test]
fn identities_are_short_alphanumeric_words() {
    let id = LayoutIdentity::new("Br3gO", "OadOzq").unwrap();
    assert_eq!(id.layout, "Br3gO");
    assert_eq!(id.revision, "OadOzq");
    assert!(LayoutIdentity::new("", "x").is_none());
    assert!(LayoutIdentity::new("a", &"r".repeat(64)).is_some());
    assert!(LayoutIdentity::new("a", &"r".repeat(65)).is_none());
    assert!(LayoutIdentity::new("a-b", "x").is_none());
    assert!(LayoutIdentity::new("ab", "é").is_none());
    // The serial is split at its first '/'.
    assert!(LayoutIdentity::from_serial("a/b/c").is_none());
    assert_eq!(
        LayoutIdentity::from_serial("a/b"),
        Some(LayoutIdentity { layout: "a".into(), revision: "b".into() })
    );
    assert!(LayoutIdentity::from_serial("ab").is_none());
}

#[test]
fn request_body_names_the_layout_query_and_geometry() {
    let id = LayoutIdentity::new("gLwvw", "latest").unwrap();
    let body = request_body(&id);
    let vars = body.get("variables").unwrap();
    assert_eq!(vars.get("hashId"), Some(&string("gLwvw")));
    assert_eq!(vars.get("geometry"), Some(&string("voyager")));
    match body.get("query") {
        Some(Json::String(q)) => assert!(q.starts_with("query getLayout(")),
        _ => panic!("no query"),
    }
}

#[test]
fn each_layout_error_is_reported() {
    assert_eq!(validate_layout(&with_layers(vec![])), Err(LayoutError::NoLayers));
    assert_eq!(validate_layout(&Json::Null), Err(LayoutError::NoLayers));
    let bad_position = with_layers(vec![obj(vec![(
        "position",
        Json::Number(JsonNumber::NegInt(-1)),
    )])]);
    assert_eq!(validate_layout(&bad_position), Err(LayoutError::InvalidPosition));
    assert_eq!(
        validate_layout(&with_layers(vec![layer(1, 52), layer(1, 52)])),
        Err(LayoutError::DuplicatePosition)
    );
    let no_keys = with_layers(vec![obj(vec![("position", Json::Number(JsonNumber::PosInt(0)))])]);
    assert_eq!(validate_layout(&no_keys), Err(LayoutError::NoKeys));
    let mut keys: Vec<Json> = (0..52).map(|_| obj(vec![])).collect();
    keys[7] = Json::Null;
    let not_objects = with_layers(vec![obj(vec![
        ("position", Json::Number(JsonNumber::PosInt(0))),
        ("keys", Json::Array(keys)),
    ])]);
    assert_eq!(validate_layout(&not_objects), Err(LayoutError::UnsupportedGeometry));
    assert_eq!(validate_layout(&with_layers(vec![layer(0, 52), layer(3, 52)])), Ok(()));
    assert_eq!(LayoutError::NoKeys.message(), "Layer has no keys");
    assert_eq!(
        CacheError::Identity("bad".into()).message(),
        "Invalid cache identity: bad"
    );
}

#[test]
fn fetched_layouts_are_tagged_and_fresh() {
    let id = LayoutIdentity::new("abc", "rev").unwrap();
    let tagged = tag_fetched_layout(layout(), &id).unwrap();
    assert_eq!(tagged.get("_layer_hud"), Some(&identity_json(&id)));
    assert!(!is_stale(&tagged));
    assert!(tag_fetched_layout(with_layers(vec![]), &id).is_err());
    let cached = check_cached_layout(tagged, Ok(Some(id.clone())), Some(&id), None).unwrap();
    assert!(is_stale(&cached));
    // Without an expectation any valid cache is shown.
    assert!(check_cached_layout(layout(), Ok(None), None, None).is_ok());
    assert_eq!(
        check_cached_layout(layout(), Ok(None), Some(&id), None),
        Err(CacheError::Mismatch)
    );
}

#[test]
fn identity_resolution_prefers_the_keyboard() {
    let id = LayoutIdentity::new("abc", "rev").unwrap();
    assert_eq!(resolve_identity(Some(id.clone()), true, "", ""), Ok(id.clone()));
    assert_eq!(resolve_identity(None, true, "abc", "rev"), Err(IdentityError::NotReported));
    assert_eq!(
        resolve_identity(None, false, "https://configure.zsa.io/voyager/layouts/abc/latest/0", "rev"),
        Ok(id.clone())
    );
    assert_eq!(resolve_identity(None, false, "", "latest"), Err(IdentityError::NoLayout));
    assert_eq!(cache_expectation(Ok(id.clone()), true), Ok(Some(id)));
    assert_eq!(cache_expectation(Err(IdentityError::NoLayout), false), Ok(None));
    assert_eq!(
        cache_expectation(Err(IdentityError::NotReported), true),
        Err(IdentityError::NotReported)
    );
}

#[test]
fn an_old_stale_member_is_replaced_in_place() {
    let data = match layout() {
        Json::Object(mut f) => f.remove(0).1,
        _ => unreachable!(),
    };
    let doc = obj(vec![("stale", Json::Bool(false)), ("data", data)]);
    match check_cached_layout(doc, Ok(None), None, None).unwrap() {
        Json::Object(f) => {
            assert_eq!(f.len(), 2);
            assert_eq!(f[0], ("stale".to_string(), Json::Bool(true)));
            assert_eq!(f[1].0, "data");
        }
        _ => panic!("not an object"),
    }
}

#[test]
fn fetched_layout_tag_is_appended_once() {
    let id = LayoutIdentity::new("Br3gO", "OadOzq").unwrap();
    let tagged = tag_fetched_layout(layout(), &id).unwrap();
    match tag_fetched_layout(tagged, &id).unwrap() {
        Json::Object(f) => {
            assert_eq!(f.len(), 2);
            assert_eq!(f[1].0, "_layer_hud");
            assert_eq!(f[1].1, identity_json(&id));
        }
        _ => panic!("not an object"),
    }
}
