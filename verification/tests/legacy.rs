use rift::legacy::{fill_legacy_fields, legacy_windows_discovered};
use serde_json::Value;

fn json(text: &str) -> Value {
    serde_json::from_str(text).unwrap()
}

fn token() -> Value {
    json(r#"{"request_id":0,"topology_revision":0}"#)
}

#[test]
fn what_an_old_inventory_lacks_is_filled_in() {
    assert_eq!(
        legacy_windows_discovered(r#"{"WindowsDiscovered":{"pid":7,"new":[]}}"#, token()),
        Some(json(
            r#"{"WindowsDiscovered":{"pid":7,"new":[],"successful":true,
                "token":{"request_id":0,"topology_revision":0}}}"#
        ))
    );
}

#[test]
fn what_an_inventory_says_is_kept() {
    let full = r#"{"WindowsDiscovered":{"token":{"request_id":3,"topology_revision":1},"successful":false}}"#;
    assert_eq!(legacy_windows_discovered(full, token()), Some(json(full)));
    let beside = r#"{"Other":1,"WindowsDiscovered":{"token":null,"successful":0}}"#;
    assert_eq!(legacy_windows_discovered(beside, token()), Some(json(beside)));
}

#[test]
fn other_events_are_given_up() {
    for text in [
        "",
        "MouseUp",
        "\"MouseUp\"",
        "[\"WindowsDiscovered\"]",
        "{}",
        "{\"WindowsDiscovered\":[]}",
        "{\"WindowsDiscovered\":",
        "{\"WindowCreated\":{}}",
    ] {
        assert_eq!(legacy_windows_discovered(text, token()), None, "{text}");
    }
}

#[test]
fn filling_in_twice_is_once() {
    let value = json(r#"{"WindowsDiscovered":{"pid":7}}"#);
    let once = fill_legacy_fields(value, token()).unwrap();
    assert_eq!(fill_legacy_fields(once.clone(), Value::Null), Some(once));
    assert_eq!(fill_legacy_fields(Value::Null, token()), None);
}
