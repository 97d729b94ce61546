use serial_tool::protocol::{
    encode_event, get_state_event_and_value, ui_dispatch, usb_changed_event, UiAction,
};

fn parse(msg: &str) -> (String, String) {
    get_state_event_and_value(msg)
}

#[test]
fn the_four_protocol_events_parse() {
    assert_eq!(parse("[open_port](ok)"), ("open_port".into(), "ok".into()));
    assert_eq!(parse("[open_port](failed)"), ("open_port".into(), "failed".into()));
    assert_eq!(parse("[close_port]()"), ("close_port".into(), "".into()));
    assert_eq!(parse("[usb_hotplug](changed)"), ("usb_hotplug".into(), "changed".into()));
}

#[test]
fn unparseable_strings_decode_to_the_empty_pair() {
    assert_eq!(parse(""), (String::new(), String::new()));
    assert_eq!(parse("garbage"), (String::new(), String::new()));
    assert_eq!(parse("[](value)"), (String::new(), String::new()));
    assert_eq!(parse("[name](value"), (String::new(), String::new()));
    assert_eq!(parse("name](value)"), (String::new(), String::new()));
    assert_eq!(parse("[name]value)"), (String::new(), String::new()));
    assert_eq!(parse("[name](va)lue)"), (String::new(), String::new()));
}

#[test]
fn encode_builds_the_bracketed_form() {
    assert_eq!(encode_event("open_port", "ok"), "[open_port](ok)");
    assert_eq!(encode_event("close_port", ""), "[close_port]()");
}

#[test]
fn encode_then_parse_round_trips() {
    let msg = encode_event("some_event", "some value");
    assert_eq!(parse(&msg), ("some_event".into(), "some value".into()));
}

#[test]
fn usb_changed_event_is_the_documented_string() {
    assert_eq!(usb_changed_event(), "[usb_hotplug](changed)");
}

#[test]
fn dispatch_open_ok_opens_the_session() {
    assert_eq!(ui_dispatch("open_port", "ok", false), UiAction::SessionOpened);
}

#[test]
fn dispatch_open_failed_and_close_both_tear_down() {
    assert_eq!(
        ui_dispatch("open_port", "failed", false),
        UiAction::SessionClosed { open_failed: true }
    );
    assert_eq!(ui_dispatch("close_port", "", true), UiAction::SessionClosed { open_failed: false });
}

#[test]
fn dispatch_hotplug_refreshes_only_without_a_session() {
    assert_eq!(ui_dispatch("usb_hotplug", "changed", false), UiAction::RefreshPorts);
    assert_eq!(ui_dispatch("usb_hotplug", "changed", true), UiAction::Nothing);
}

#[test]
fn dispatch_ignores_unknown_events() {
    assert_eq!(ui_dispatch("", "", false), UiAction::Nothing);
    assert_eq!(ui_dispatch("open_port", "later", false), UiAction::Nothing);
}
