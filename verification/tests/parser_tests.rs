use podium::core_api::{core_version, parse_flow as parse_flow_api, PodiumError};
use podium::model::{Command, Direction, Selector};
use podium::parser::{parse_flow, substitute_env, ParseError};
use podium::text_map::EnvVars;

fn no_env() -> EnvVars {
    EnvVars::new()
}

#[test]
fn test_parse_minimal_flow() {
    let yaml = r#"
appId: dev.podium.sample
---
- launchApp:
- tapOn: "Log in"
"#;
    let flow = parse_flow(yaml, &no_env()).unwrap();
    assert_eq!(flow.app_id, "dev.podium.sample");
    assert_eq!(flow.commands.len(), 2);
}

#[test]
fn test_missing_app_id() {
    let yaml = r#"
name: test
---
- tapOn: "button"
"#;
    let result = parse_flow(yaml, &no_env());
    assert!(matches!(result, Err(ParseError::MissingAppId)));
}

#[test]
fn test_invalid_format_no_separator() {
    let yaml = r#"
appId: dev.podium.sample
- tapOn: "button"
"#;
    let result = parse_flow(yaml, &no_env());
    assert!(matches!(result, Err(ParseError::InvalidFormat)));
}

#[test]
fn test_unknown_command() {
    let yaml = r#"
appId: dev.podium.sample
---
- unknownCommand: "test"
"#;
    let result = parse_flow(yaml, &no_env());
    assert!(matches!(result, Err(ParseError::UnknownCommand(_, _))));
}

#[test]
fn test_tap_on_shorthand() {
    let yaml = r#"
appId: dev.podium.sample
---
- tapOn: "Log in"
"#;
    let flow = parse_flow(yaml, &no_env()).unwrap();
    match &flow.commands[0] {
        Command::TapOn { selector } => {
            assert_eq!(selector.text.as_ref().unwrap(), "Log in");
            assert!(selector.id.is_none());
        }
        _ => panic!("Expected TapOn command"),
    }
}

#[test]
fn test_tap_on_with_id() {
    let yaml = r#"
appId: dev.podium.sample
---
- tapOn:
    id: "username"
"#;
    let flow = parse_flow(yaml, &no_env()).unwrap();
    match &flow.commands[0] {
        Command::TapOn { selector } => {
            assert_eq!(selector.id.as_ref().unwrap(), "username");
            assert!(selector.text.is_none());
        }
        _ => panic!("Expected TapOn command"),
    }
}

#[test]
fn test_input_text() {
    let yaml = r#"
appId: dev.podium.sample
---
- inputText: "podium"
"#;
    let flow = parse_flow(yaml, &no_env()).unwrap();
    match &flow.commands[0] {
        Command::InputText { text } => {
            assert_eq!(text, "podium");
        }
        _ => panic!("Expected InputText command"),
    }
}

#[test]
fn test_assert_visible_shorthand() {
    let yaml = r#"
appId: dev.podium.sample
---
- assertVisible: "Welcome"
"#;
    let flow = parse_flow(yaml, &no_env()).unwrap();
    match &flow.commands[0] {
        Command::AssertVisible { selector, timeout_ms } => {
            assert_eq!(selector.text.as_ref().unwrap(), "Welcome");
            assert_eq!(*timeout_ms, 10_000);
        }
        _ => panic!("Expected AssertVisible command"),
    }
}

#[test]
fn test_scroll_until_visible_with_element() {
    let yaml = r#"
appId: dev.podium.sample
---
- scrollUntilVisible:
    element: "Item 50"
"#;
    let flow = parse_flow(yaml, &no_env()).unwrap();
    match &flow.commands[0] {
        Command::ScrollUntilVisible { selector, max_swipes } => {
            assert_eq!(selector.text.as_ref().unwrap(), "Item 50");
            assert_eq!(*max_swipes, 20);
        }
        _ => panic!("Expected ScrollUntilVisible command"),
    }
}

#[test]
fn test_regex_text_selector() {
    let selector = Selector { text: Some("/Item \\d+/".to_string()), id: None, index: 0 };
    assert!(selector.is_regex());
    assert_eq!(selector.text_pattern().unwrap(), "Item \\d+");
}

#[test]
fn test_non_regex_text_selector() {
    let selector = Selector { text: Some("Item 50".to_string()), id: None, index: 0 };
    assert!(!selector.is_regex());
    assert_eq!(selector.text_pattern().unwrap(), "Item 50");
}

#[test]
fn test_env_substitution() {
    let yaml = r#"
appId: ${APP_ID}
---
- inputText: "${USERNAME}"
"#;
    let mut env = EnvVars::new();
    env.insert("APP_ID".to_string(), "dev.podium.sample".to_string());
    env.insert("USERNAME".to_string(), "podium".to_string());

    let flow = parse_flow(yaml, &env).unwrap();
    assert_eq!(flow.app_id, "dev.podium.sample");
    match &flow.commands[0] {
        Command::InputText { text } => {
            assert_eq!(text, "podium");
        }
        _ => panic!("Expected InputText command"),
    }
}

#[test]
fn test_launch_app_with_clear_state() {
    let yaml = r#"
appId: dev.podium.sample
---
- launchApp:
    clearState: true
"#;
    let flow = parse_flow(yaml, &no_env()).unwrap();
    match &flow.commands[0] {
        Command::LaunchApp { app_id, clear_state } => {
            assert!(app_id.is_none());
            assert!(*clear_state);
        }
        _ => panic!("Expected LaunchApp command"),
    }
}

#[test]
fn test_swipe_shorthand() {
    let yaml = r#"
appId: dev.podium.sample
---
- swipe: "down"
"#;
    let flow = parse_flow(yaml, &no_env()).unwrap();
    match &flow.commands[0] {
        Command::Swipe { direction } => {
            assert!(matches!(direction, Direction::Down));
        }
        _ => panic!("Expected Swipe command"),
    }
}

#[test]
fn test_timeout_defaults() {
    let yaml = r#"
appId: dev.podium.sample
---
- assertVisible: "test"
- waitForAnimationToEnd:
"#;
    let flow = parse_flow(yaml, &no_env()).unwrap();
    match &flow.commands[0] {
        Command::AssertVisible { timeout_ms, .. } => {
            assert_eq!(*timeout_ms, 10_000);
        }
        _ => panic!("Expected AssertVisible command"),
    }
    match &flow.commands[1] {
        Command::WaitForAnimationToEnd { timeout_ms } => {
            assert_eq!(*timeout_ms, 10_000);
        }
        _ => panic!("Expected WaitForAnimationToEnd command"),
    }
}

#[test]
fn test_selector_with_index() {
    let yaml = r#"
appId: dev.podium.sample
---
- tapOn:
    text: "Button"
    index: 2
"#;
    let flow = parse_flow(yaml, &no_env()).unwrap();
    match &flow.commands[0] {
        Command::TapOn { selector } => {
            assert_eq!(selector.text.as_ref().unwrap(), "Button");
            assert_eq!(selector.index, 2);
        }
        _ => panic!("Expected TapOn command"),
    }
}

#[test]
fn test_core_version() {
    let version = core_version();
    assert!(version.starts_with("podium-core"));
}

// ---------------------------------------------------------------------------
// Further cases

#[test]
fn core_version_is_exact() {
    assert_eq!(core_version(), "podium-core 0.1.0");
}

#[test]
fn unknown_command_reports_name_and_position() {
    let yaml = "appId: a\n---\n- back:\n- fly: \"x\"\n";
    match parse_flow(yaml, &no_env()) {
        Err(ParseError::UnknownCommand(name, position)) => {
            assert_eq!(name, "fly");
            assert_eq!(position, 1);
        }
        other => panic!("unexpected {:?}", other),
    }
}

#[test]
fn unknown_command_message() {
    let e = ParseError::UnknownCommand("fly".to_string(), 3);
    assert_eq!(e.message(), "Unknown command 'fly' at position 3");
}

#[test]
fn missing_app_id_message() {
    assert_eq!(
        ParseError::MissingAppId.message(),
        "Missing required field 'appId' in flow header"
    );
    assert_eq!(
        ParseError::InvalidFormat.message(),
        "Invalid flow format: expected two YAML documents separated by '---'"
    );
}

#[test]
fn invalid_command_format_message() {
    let e = ParseError::InvalidCommandFormat("swipe".to_string(), "bad".to_string());
    assert_eq!(e.message(), "Invalid command format for 'swipe': bad");
}

#[test]
fn two_separators_are_invalid() {
    let yaml = "appId: a\n---\n- back:\n---\n- back:\n";
    assert!(matches!(parse_flow(yaml, &no_env()), Err(ParseError::InvalidFormat)));
}

#[test]
fn swipe_with_unknown_direction_is_invalid() {
    let yaml = "appId: a\n---\n- swipe: \"sideways\"\n";
    match parse_flow(yaml, &no_env()) {
        Err(ParseError::InvalidCommandFormat(name, _)) => assert_eq!(name, "swipe"),
        other => panic!("unexpected {:?}", other),
    }
}

#[test]
fn swipe_direction_is_case_insensitive() {
    let yaml = "appId: a\n---\n- swipe: \"LEFT\"\n- swipe:\n    direction: Up\n";
    let flow = parse_flow(yaml, &no_env()).unwrap();
    assert!(matches!(flow.commands[0], Command::Swipe { direction: Direction::Left }));
    assert!(matches!(flow.commands[1], Command::Swipe { direction: Direction::Up }));
}

#[test]
fn all_commands_parse() {
    let yaml = r#"
appId: com.example
---
- launchApp:
    appId: "com.other"
- tapOn: "A"
- inputText: "hello"
- assertVisible:
    text: "B"
    timeout: 500
- assertNotVisible: "C"
- scrollUntilVisible:
    element:
      id: "row"
    maxSwipes: 3
- back:
- waitForAnimationToEnd:
    timeout: 250
- swipe: "right"
- takeScreenshot: "shot"
"#;
    let flow = parse_flow(yaml, &no_env()).unwrap();
    assert_eq!(flow.app_id, "com.example");
    assert_eq!(flow.commands.len(), 10);
    match &flow.commands[0] {
        Command::LaunchApp { app_id, clear_state } => {
            assert_eq!(app_id.as_deref(), Some("com.other"));
            assert!(!*clear_state);
        }
        _ => panic!("Expected LaunchApp command"),
    }
    match &flow.commands[3] {
        Command::AssertVisible { selector, timeout_ms } => {
            assert_eq!(selector.text.as_deref(), Some("B"));
            assert_eq!(*timeout_ms, 500);
        }
        _ => panic!("Expected AssertVisible command"),
    }
    match &flow.commands[4] {
        Command::AssertNotVisible { selector, timeout_ms } => {
            assert_eq!(selector.text.as_deref(), Some("C"));
            assert_eq!(*timeout_ms, 10_000);
        }
        _ => panic!("Expected AssertNotVisible command"),
    }
    match &flow.commands[5] {
        Command::ScrollUntilVisible { selector, max_swipes } => {
            assert_eq!(selector.id.as_deref(), Some("row"));
            assert_eq!(*max_swipes, 3);
        }
        _ => panic!("Expected ScrollUntilVisible command"),
    }
    assert!(matches!(flow.commands[6], Command::Back));
    assert!(matches!(flow.commands[7], Command::WaitForAnimationToEnd { timeout_ms: 250 }));
    match &flow.commands[9] {
        Command::TakeScreenshot { name } => assert_eq!(name, "shot"),
        _ => panic!("Expected TakeScreenshot command"),
    }
}

#[test]
fn hide_keyboard_is_not_a_flow_command() {
    let yaml = "appId: a\n---\n- hideKeyboard:\n";
    match parse_flow(yaml, &no_env()) {
        Err(ParseError::UnknownCommand(name, 0)) => assert_eq!(name, "hideKeyboard"),
        other => panic!("unexpected {:?}", other),
    }
}

#[test]
fn launch_app_given_a_string_has_no_app_id() {
    let yaml = "appId: a\n---\n- launchApp: \"other\"\n";
    let flow = parse_flow(yaml, &no_env()).unwrap();
    assert!(matches!(
        &flow.commands[0],
        Command::LaunchApp { app_id: None, clear_state: false }
    ));
}

#[test]
fn bare_back_string_is_a_command() {
    let yaml = "appId: a\n---\n- back\n- forward\n";
    match parse_flow(yaml, &no_env()) {
        Err(ParseError::UnknownCommand(name, 1)) => assert_eq!(name, "forward"),
        other => panic!("unexpected {:?}", other),
    }
}

#[test]
fn bad_header_yaml_is_a_yaml_error() {
    let yaml = "appId: [unclosed\n---\n- back:\n";
    let r = parse_flow(yaml, &no_env());
    match r {
        Err(e @ ParseError::YamlError(_)) => {
            let ParseError::YamlError(reason) = &e else { unreachable!() };
            assert!(!reason.is_empty());
            assert_ne!(reason.as_str(), "appId: [unclosed");
            assert_eq!(e.message(), format!("YAML parse error: {reason}"));
        }
        other => panic!("unexpected {:?}", other),
    }
}

#[test]
fn bad_command_list_is_a_yaml_error_on_the_commands() {
    let yaml = "appId: a\n---\n- tapOn: [x\n";
    match parse_flow(yaml, &no_env()) {
        Err(ParseError::YamlError(reason)) => assert!(!reason.is_empty()),
        other => panic!("unexpected {:?}", other),
    }
}

#[test]
fn substitution_replaces_every_occurrence() {
    let mut env = EnvVars::new();
    env.insert("X".to_string(), "1".to_string());
    assert_eq!(substitute_env("${X}-${X}-${Y}", &env), "1-1-${Y}");
}

#[test]
fn env_insert_keeps_the_last_value() {
    let mut env = EnvVars::new();
    env.insert("K".to_string(), "a".to_string());
    env.insert("K".to_string(), "b".to_string());
    assert_eq!(env.len(), 1);
    assert_eq!(env.get("K").map(|s| s.as_str()), Some("b"));
    assert!(env.get("missing").is_none());
}

#[test]
fn api_parse_flow_wraps_errors() {
    let r = parse_flow_api("appId: a\n- back:\n".to_string(), EnvVars::new());
    match r {
        Err(PodiumError::ParseError { details }) => {
            assert_eq!(
                details,
                "Invalid flow format: expected two YAML documents separated by '---'"
            );
        }
        Ok(_) => panic!("expected an error"),
    }
    let ok = parse_flow_api("appId: a\n---\n- back:\n".to_string(), EnvVars::new()).unwrap();
    assert_eq!(ok.app_id, "a");
}

#[test]
fn text_pattern_of_plain_and_missing_text() {
    let s = Selector { text: None, id: Some("x".to_string()), index: 0 };
    assert!(!s.is_regex());
    assert!(s.text_pattern().is_none());
}

#[test]
fn header_command_timeout_is_the_default() {
    let yaml = "appId: a\ncommandTimeout: 3000\n---\n- assertVisible: \"x\"\n- assertNotVisible:\n    text: \"y\"\n    timeout: 50\n- waitForAnimationToEnd:\n";
    let flow = parse_flow(yaml, &no_env()).unwrap();
    assert!(matches!(flow.commands[0], Command::AssertVisible { timeout_ms: 3000, .. }));
    assert!(matches!(flow.commands[1], Command::AssertNotVisible { timeout_ms: 50, .. }));
    assert!(matches!(flow.commands[2], Command::WaitForAnimationToEnd { timeout_ms: 10_000 }));
}
