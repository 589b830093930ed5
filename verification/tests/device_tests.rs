use podium::device::builder::{
    scroll_not_found_error, swipe_gesture, wait_timeout_error, DeviceBuilder, Platform,
    PodiumDevice,
};
use podium::device::error::{PodiumError, TransportError};
use podium::device::hierarchy::{
    find_element, matches_selector, parse_bounds, select_element, tap_target, Bounds,
};
use podium::device::mock::MockTransport;
use podium::device::types::{Direction, Selector};

const XML_ONE: &str = r#"<?xml version="1.0" encoding="UTF-8"?>
<hierarchy rotation="0">
  <node index="0" text="Login" resource-id="com.example:id/login_btn"
        bounds="[100,200][300,260]" class="android.widget.Button"
        clickable="true" enabled="true" />
</hierarchy>"#;

const XML_TWO: &str = r#"<?xml version="1.0" encoding="UTF-8"?>
<hierarchy rotation="0">
  <node index="0" text="Item" resource-id="com.example:id/item_0"
        bounds="[0,0][100,50]" class="android.widget.TextView"
        clickable="true" enabled="true" />
  <node index="1" text="Item" resource-id="com.example:id/item_1"
        bounds="[0,60][100,110]" class="android.widget.TextView"
        clickable="true" enabled="true" />
</hierarchy>"#;

#[test]
fn find_by_text_returns_center() {
    let b = find_element(XML_ONE, &Selector::text("Login")).unwrap();
    // bounds [100,200][300,260]: center = (200, 230)
    assert_eq!(b.center(), (200, 230));
}

#[test]
fn find_by_id_suffix() {
    let b = find_element(XML_ONE, &Selector::id("login_btn")).unwrap();
    assert_eq!(b.center(), (200, 230));
}

#[test]
fn find_by_index_selects_nth_match() {
    let b = find_element(XML_TWO, &Selector::text("Item").index(1)).unwrap();
    // bounds [0,60][100,110]: center = (50, 85)
    assert_eq!(b.center(), (50, 85));
}

#[test]
fn find_missing_returns_none() {
    assert!(find_element(XML_ONE, &Selector::text("NotHere")).is_none());
}

#[test]
fn parse_bounds_basic() {
    let b = parse_bounds("[100,200][300,260]").unwrap();
    assert_eq!((b.x, b.y, b.width, b.height), (100, 200, 200, 60));
}

// ---------------------------------------------------------------------------
// Further cases

#[test]
fn parse_bounds_rejects_malformed_text() {
    assert!(parse_bounds("").is_none());
    assert!(parse_bounds("[1,2]").is_none());
    assert!(parse_bounds("[a,2][3,4]").is_none());
    assert!(parse_bounds("[1,2][3]").is_none());
    assert!(parse_bounds("[-1,2][3,4]").is_none());
}

#[test]
fn parse_bounds_trims_numbers() {
    let b = parse_bounds("[ 1 , 2 ][ 11 , 22 ]").unwrap();
    assert_eq!(b, Bounds { x: 1, y: 2, width: 10, height: 20 });
}

#[test]
fn parse_bounds_with_inverted_corners_is_none() {
    assert!(parse_bounds("[10,10][5,20]").is_none());
}

#[test]
fn center_is_the_midpoint() {
    let b = parse_bounds("[10,20][31,41]").unwrap();
    assert_eq!(b.center(), ((10 + 31) / 2, (20 + 41) / 2));
}

#[test]
fn regex_text_selector_finds_element() {
    let b = find_element(XML_TWO, &Selector::text("/It.m/").index(1)).unwrap();
    assert_eq!(b.center(), (50, 85));
    assert!(find_element(XML_TWO, &Selector::text("/(/")).is_none());
}

#[test]
fn id_must_be_a_suffix_after_id_marker() {
    assert!(find_element(XML_ONE, &Selector::id("btn")).is_none());
    assert!(find_element(XML_ONE, &Selector::id("example:id/login_btn")).is_none());
}

#[test]
fn broken_xml_yields_nothing_after_the_error() {
    assert!(find_element("<a", &Selector::text("x")).is_none());
    assert!(find_element("", &Selector::text("x")).is_none());
}

#[test]
fn element_without_bounds_is_none() {
    let xml = r#"<hierarchy><node text="A"/></hierarchy>"#;
    assert!(find_element(xml, &Selector::text("A")).is_none());
}

#[test]
fn matching_and_selecting_elements() {
    let attrs = vec![
        ("text".to_string(), "Ok".to_string()),
        ("bounds".to_string(), "[0,0][10,10]".to_string()),
    ];
    assert!(matches_selector(&attrs, &Selector::text("Ok")));
    assert!(!matches_selector(&attrs, &Selector::text("No")));
    assert!(!matches_selector(&attrs, &Selector::id("ok")));
    let elements = vec![attrs.clone(), attrs];
    assert_eq!(
        select_element(&elements, &Selector::text("Ok").index(1)),
        Some(Bounds { x: 0, y: 0, width: 10, height: 10 })
    );
    assert_eq!(select_element(&elements, &Selector::text("Ok").index(2)), None);
}

#[test]
fn tap_target_is_center_or_not_found() {
    assert_eq!(tap_target(XML_ONE, &Selector::text("Login")).unwrap(), (200, 230));
    match tap_target(XML_ONE, &Selector::text("Nope")) {
        Err(TransportError::ElementNotFound { reason }) => {
            assert_eq!(
                reason,
                "tap: element not found: Selector { text: Some(\"Nope\"), id: None, index: 0 }"
            );
        }
        other => panic!("unexpected {:?}", other),
    }
}

#[test]
fn transport_errors_convert() {
    let e: PodiumError = TransportError::OperationFailed { reason: "x".to_string() }.into();
    assert!(matches!(e, PodiumError::Transport { ref reason } if reason == "x"));
    let e: PodiumError = TransportError::ElementNotFound { reason: "y".to_string() }.into();
    assert!(matches!(e, PodiumError::ElementNotFound { ref reason } if reason == "y"));
    let e: PodiumError = TransportError::NotSupported { reason: "z".to_string() }.into();
    assert!(matches!(e, PodiumError::NotSupported { ref reason } if reason == "z"));
    let e: PodiumError = TransportError::DeviceNotFound.into();
    assert!(matches!(e, PodiumError::DeviceNotFound));
}

#[test]
fn error_messages() {
    assert_eq!(
        PodiumError::Timeout { timeout_ms: 500, reason: "r".to_string() }.message(),
        "Assertion timed out after 500ms: r"
    );
    assert_eq!(
        PodiumError::ElementNotFound { reason: "a".to_string() }.message(),
        "Element not found: a"
    );
    assert_eq!(
        PodiumError::Transport { reason: "b".to_string() }.message(),
        "Transport error: b"
    );
    assert_eq!(
        PodiumError::NotSupported { reason: "c".to_string() }.message(),
        "Not supported on this platform: c"
    );
    assert_eq!(PodiumError::DeviceNotFound.message(), "Device not found");
}

#[test]
fn builder_needs_a_platform() {
    match PodiumDevice::builder().build() {
        Err(PodiumError::Transport { reason }) => assert_eq!(reason, "platform not set"),
        other => panic!("unexpected {:?}", other),
    }
    let d = PodiumDevice::builder()
        .platform(Platform::Android { serial: Some("emu".to_string()) })
        .build()
        .unwrap();
    assert!(matches!(d.platform(), Platform::Android { serial: Some(s) } if s == "emu"));
    assert!(DeviceBuilder::default().build().is_err());
}

#[test]
fn device_wait_and_scroll_errors() {
    match wait_timeout_error(&Selector::text("Hi"), 250, true) {
        PodiumError::Timeout { timeout_ms, reason } => {
            assert_eq!(timeout_ms, 250);
            assert_eq!(
                reason,
                "element not visible: Selector { text: Some(\"Hi\"), id: None, index: 0 }"
            );
        }
        other => panic!("unexpected {:?}", other),
    }
    match wait_timeout_error(&Selector::id("x"), 1, false) {
        PodiumError::Timeout { reason, .. } => {
            assert_eq!(
                reason,
                "element still visible: Selector { text: None, id: Some(\"x\"), index: 0 }"
            );
        }
        other => panic!("unexpected {:?}", other),
    }
    match scroll_not_found_error(&Selector::text("Z").index(2), 20) {
        PodiumError::ElementNotFound { reason } => assert_eq!(
            reason,
            "element not found after 20 swipes: Selector { text: Some(\"Z\"), id: None, index: 2 }"
        ),
        other => panic!("unexpected {:?}", other),
    }
}

#[test]
fn swipe_gestures() {
    assert_eq!(swipe_gesture(Direction::Up), (540, 1400, 540, 400, 300));
    assert_eq!(swipe_gesture(Direction::Down), (540, 400, 540, 1400, 300));
    assert_eq!(swipe_gesture(Direction::Left), (900, 800, 180, 800, 300));
    assert_eq!(swipe_gesture(Direction::Right), (180, 800, 900, 800, 300));
}

#[test]
fn mock_transport_records_and_answers() {
    let mut m = MockTransport::new();
    assert!(!m.is_visible(&Selector::text("A")).unwrap());
    m.set_visible("text:A", true);
    assert!(m.is_visible(&Selector::text("A")).unwrap());
    m.set_visible("text:A", false);
    assert!(!m.is_visible(&Selector::text("A")).unwrap());
    m.set_visible("id:b", true);
    assert!(m.is_visible(&Selector::id("b")).unwrap());
    m.launch_app("com.x", true).unwrap();
    m.tap(&Selector::text("A")).unwrap();
    m.input_text("hi").unwrap();
    m.swipe(Direction::Left).unwrap();
    m.back().unwrap();
    m.tap_at(3, 4).unwrap();
    assert_eq!(m.calls().len(), 6);
    assert_eq!(m.calls()[0], "launch_app(com.x,true)");
    assert_eq!(m.calls()[1], "tap(text:A)");
    assert_eq!(m.calls()[3], "swipe(Left)");
    assert_eq!(m.calls()[5], "tap_at(3,4)");
    assert_eq!(MockTransport::selector_key(&Selector::id("q")), "id:q");
}
