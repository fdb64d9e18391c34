use layer_hud::json::{Json, JsonNumber};
use layer_hud::watcher::{extract_layer, log_once, WatcherState};

fn obj(fields: Vec<(&str, Json)>) -> Json {
    Json::Object(fields.into_iter().map(|(k, v)| (k.to_string(), v)).collect())
}

fn status(keyboard: Json) -> Json {
    obj(vec![
        ("keymapp_version", Json::String("1.3.2".into())),
        ("kontroll_version", Json::String("1.0.3".into())),
        ("keyboard", keyboard),
    ])
}

#[test]
fn extracts_current_layer() {
    let v = status(obj(vec![
        ("friendly_name", Json::String("Voyager".into())),
        ("firmware_version", Json::String("x".into())),
        ("current_layer", Json::Number(JsonNumber::PosInt(2))),
    ]));
    assert_eq!(extract_layer(&v), Some(2));
}

#[test]
fn none_when_no_keyboard() {
    let v = status(Json::Null);
    assert_eq!(extract_layer(&v), None);
}

#[test]
fn layers_that_do_not_fit_an_i64_are_none() {
    let big = status(obj(vec![("current_layer", Json::Number(JsonNumber::PosInt(u64::MAX)))]));
    assert_eq!(extract_layer(&big), None);
    let neg = status(obj(vec![("current_layer", Json::Number(JsonNumber::NegInt(-3)))]));
    assert_eq!(extract_layer(&neg), Some(-3));
    let float = status(obj(vec![("current_layer", Json::Number(JsonNumber::FloatBits(2.5f64.to_bits())))]));
    assert_eq!(extract_layer(&float), None);
}

#[test]
fn poll_loop_backs_off_and_announces_changes_once() {
    let mut w = WatcherState::new();
    let a = w.poll(Some(1));
    assert!(!a.announce_online);
    assert_eq!(a.announce_layer, Some(1));
    assert_eq!(a.sleep_ms, 100);
    assert_eq!(w.poll(Some(1)).announce_layer, None);
    let a = w.poll(None);
    assert!(a.announce_offline);
    assert_eq!(a.sleep_ms, 250);
    let sleeps: Vec<u64> = (0..6).map(|_| w.poll(None).sleep_ms).collect();
    assert_eq!(sleeps, vec![500, 1000, 2000, 4000, 5000, 5000]);
    let a = w.poll(Some(1));
    assert!(a.announce_online);
    assert_eq!(a.announce_layer, None);
    assert_eq!(w.backoff_ms, 250);
}

#[test]
fn repeated_failures_are_logged_once() {
    let mut last = None;
    assert!(log_once(&mut last, "Keymapp request failed: x".to_string()));
    assert!(!log_once(&mut last, "Keymapp request failed: x".to_string()));
    assert!(log_once(&mut last, "Timed out waiting for keymapp".to_string()));
    assert_eq!(last.as_deref(), Some("Timed out waiting for keymapp"));
}

#[test]
fn consecutive_failures_wait_doubling_delays_up_to_the_cap() {
    let mut w = WatcherState::new();
    w.poll(Some(2));
    let waits: Vec<(bool, u64)> = (0..7)
        .map(|_| {
            let a = w.poll(None);
            (a.announce_offline, a.sleep_ms)
        })
        .collect();
    assert_eq!(
        waits,
        vec![(true, 250), (false, 500), (false, 1000), (false, 2000), (false, 4000), (false, 5000), (false, 5000)]
    );
}

#[test]
fn layers_and_connection_changes_are_announced_once() {
    let mut w = WatcherState::new();
    let reads = [Some(1), Some(1), None, None, Some(1), Some(2), None, Some(2), Some(3)];
    let mut layers = Vec::new();
    let mut connection = Vec::new();
    for r in reads {
        let a = w.poll(r);
        if let Some(l) = a.announce_layer {
            layers.push(l);
        }
        if a.announce_online {
            connection.push("online");
        }
        if a.announce_offline {
            connection.push("offline");
        }
    }
    assert_eq!(layers, vec![1, 2, 3]);
    assert_eq!(connection, vec!["offline", "online", "offline", "online"]);
    assert_eq!(w.last_layer, Some(3));
    assert!(w.online);
}
