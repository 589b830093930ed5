use podium::driver::{Driver, DriverError, Recorder};
use podium::engine::{
    execute_command, format_command, poll_step, run_flow, scroll_step, scroll_until_visible,
    selector_debug_text, wait_until_not_visible, wait_until_visible, PollStep, ScrollStep,
    StepStatus,
};
use podium::model::{Command, Direction, Flow, Selector};
use std::collections::HashMap;
use std::sync::{Arc, Mutex};

struct MockDriver {
    time_ms: Mutex<u64>,
    visibility_timeline: Mutex<HashMap<String, Vec<(u64, bool)>>>,
    calls: Mutex<Vec<String>>,
}

impl MockDriver {
    fn new() -> Self {
        Self {
            time_ms: Mutex::new(0),
            visibility_timeline: Mutex::new(HashMap::new()),
            calls: Mutex::new(Vec::new()),
        }
    }

    fn set_visibility_at(&self, selector_key: &str, time_ms: u64, visible: bool) {
        let mut timeline = self.visibility_timeline.lock().unwrap();
        timeline
            .entry(selector_key.to_string())
            .or_insert_with(Vec::new)
            .push((time_ms, visible));
    }

    fn selector_key(selector: &Selector) -> String {
        if let Some(text) = &selector.text {
            format!("text:{}", text)
        } else if let Some(id) = &selector.id {
            format!("id:{}", id)
        } else {
            "unknown".to_string()
        }
    }
}

impl Driver for MockDriver {
    fn launch_app(&self, app_id: String, clear_state: bool) -> Result<(), DriverError> {
        self.calls
            .lock()
            .unwrap()
            .push(format!("launch_app({}, {})", app_id, clear_state));
        Ok(())
    }

    fn is_visible(&self, selector: Selector) -> Result<bool, DriverError> {
        let key = Self::selector_key(&selector);
        let current_time = *self.time_ms.lock().unwrap();
        let timeline = self.visibility_timeline.lock().unwrap();
        if let Some(events) = timeline.get(&key) {
            let mut visible = false;
            for (time, vis) in events {
                if *time <= current_time {
                    visible = *vis;
                }
            }
            Ok(visible)
        } else {
            Ok(false)
        }
    }

    fn tap(&self, selector: Selector) -> Result<(), DriverError> {
        self.calls.lock().unwrap().push(format!("tap({:?})", selector));
        Ok(())
    }

    fn input_text(&self, text: String) -> Result<(), DriverError> {
        self.calls.lock().unwrap().push(format!("input_text({})", text));
        Ok(())
    }

    fn hide_keyboard(&self) -> Result<(), DriverError> {
        self.calls.lock().unwrap().push("hide_keyboard".to_string());
        Ok(())
    }

    fn swipe(&self, direction: Direction) -> Result<(), DriverError> {
        self.calls.lock().unwrap().push(format!("swipe({:?})", direction));
        Ok(())
    }

    fn back(&self) -> Result<(), DriverError> {
        self.calls.lock().unwrap().push("back".to_string());
        Ok(())
    }

    fn wait_for_idle(&self, timeout_ms: u64) -> Result<(), DriverError> {
        self.calls.lock().unwrap().push(format!("wait_for_idle({})", timeout_ms));
        Ok(())
    }

    fn take_screenshot(&self, name: String) -> Result<(), DriverError> {
        self.calls.lock().unwrap().push(format!("take_screenshot({})", name));
        Ok(())
    }

    fn now_ms(&self) -> u64 {
        *self.time_ms.lock().unwrap()
    }

    fn sleep_ms(&self, ms: u64) {
        *self.time_ms.lock().unwrap() += ms;
    }
}

fn text_selector(t: &str) -> Selector {
    Selector { text: Some(t.to_string()), id: None, index: 0 }
}

#[test]
fn test_immediate_visibility() {
    let mock = Arc::new(MockDriver::new());
    let driver: Arc<dyn Driver> = mock.clone();
    let selector = Selector { text: Some("Login".to_string()), id: None, index: 0 };

    mock.set_visibility_at("text:Login", 0, true);

    let result = wait_until_visible(&mut Recorder::new(&driver), &selector, 5000);
    assert!(result.is_ok());
    assert_eq!(*mock.time_ms.lock().unwrap(), 0);
}

#[test]
fn test_delayed_visibility() {
    let mock = Arc::new(MockDriver::new());
    let driver: Arc<dyn Driver> = mock.clone();
    let selector = Selector { text: Some("Welcome".to_string()), id: None, index: 0 };

    mock.set_visibility_at("text:Welcome", 500, true);

    let result = wait_until_visible(&mut Recorder::new(&driver), &selector, 1000);
    assert!(result.is_ok());
    let time = *mock.time_ms.lock().unwrap();
    assert!(time >= 400);
    assert!(time <= 600);
}

#[test]
fn test_visibility_timeout() {
    let mock = Arc::new(MockDriver::new());
    let driver: Arc<dyn Driver> = mock.clone();
    let selector = Selector { text: Some("Never".to_string()), id: None, index: 0 };

    let result = wait_until_visible(&mut Recorder::new(&driver), &selector, 500);
    assert!(result.is_err());
    assert!(*mock.time_ms.lock().unwrap() >= 500);
}

#[test]
fn test_not_visible_immediately() {
    let mock = Arc::new(MockDriver::new());
    let driver: Arc<dyn Driver> = mock.clone();
    let selector = Selector { text: Some("Error".to_string()), id: None, index: 0 };

    let result = wait_until_not_visible(&mut Recorder::new(&driver), &selector, 1000);
    assert!(result.is_ok());
    assert_eq!(*mock.time_ms.lock().unwrap(), 0);
}

#[test]
fn test_not_visible_with_delay() {
    let mock = Arc::new(MockDriver::new());
    let driver: Arc<dyn Driver> = mock.clone();
    let selector = Selector { text: Some("Loading".to_string()), id: None, index: 0 };

    mock.set_visibility_at("text:Loading", 0, true);
    mock.set_visibility_at("text:Loading", 300, false);

    let result = wait_until_not_visible(&mut Recorder::new(&driver), &selector, 1000);
    assert!(result.is_ok());
    let time = *mock.time_ms.lock().unwrap();
    assert!(time >= 200);
    assert!(time <= 400);
}

#[test]
fn test_scroll_until_visible_immediate() {
    let mock = Arc::new(MockDriver::new());
    let driver: Arc<dyn Driver> = mock.clone();
    let selector = Selector { text: Some("Item".to_string()), id: None, index: 0 };

    mock.set_visibility_at("text:Item", 0, true);

    let result = scroll_until_visible(&mut Recorder::new(&driver), &selector, 5);
    assert!(result.is_ok());
    assert!(!mock.calls.lock().unwrap().iter().any(|c| c.contains("swipe")));
}

#[test]
fn test_scroll_until_visible_after_swipes() {
    let mock = Arc::new(MockDriver::new());
    let driver: Arc<dyn Driver> = mock.clone();
    let selector = Selector { text: Some("Item 50".to_string()), id: None, index: 0 };

    mock.set_visibility_at("text:Item 50", 600, true);

    let result = scroll_until_visible(&mut Recorder::new(&driver), &selector, 10);
    assert!(result.is_ok());
    let calls = mock.calls.lock().unwrap();
    let swipe_count = calls.iter().filter(|c| c.contains("swipe")).count();
    assert!(swipe_count >= 3);
}

#[test]
fn test_scroll_max_swipes_exceeded() {
    let mock = Arc::new(MockDriver::new());
    let driver: Arc<dyn Driver> = mock.clone();
    let selector = Selector { text: Some("Item 100".to_string()), id: None, index: 0 };

    let result = scroll_until_visible(&mut Recorder::new(&driver), &selector, 3);
    assert!(result.is_err());
    let calls = mock.calls.lock().unwrap();
    let swipe_count = calls.iter().filter(|c| c.contains("swipe")).count();
    assert_eq!(swipe_count, 2);
}

#[test]
fn test_flow_timing_capture() {
    let mock = Arc::new(MockDriver::new());
    let driver: Arc<dyn Driver> = mock.clone();
    let flow = Flow {
        app_id: "test.app".to_string(),
        commands: vec![Command::LaunchApp { app_id: None, clear_state: false }, Command::Back],
    };

    let result = run_flow(flow, driver);
    assert!(result.passed);
    assert_eq!(result.steps.len(), 2);
    for step in &result.steps {
        assert!(step.duration_ms >= 0);
    }
}

#[test]
fn test_flow_abort_on_first_failure() {
    let mock = Arc::new(MockDriver::new());
    let driver: Arc<dyn Driver> = mock.clone();
    let selector = Selector { text: Some("Missing".to_string()), id: None, index: 0 };

    let flow = Flow {
        app_id: "test.app".to_string(),
        commands: vec![
            Command::AssertVisible { selector: selector.clone(), timeout_ms: 100 },
            Command::TapOn { selector: selector.clone() },
            Command::Back,
        ],
    };

    let result = run_flow(flow, driver);
    assert!(!result.passed);
    assert_eq!(result.steps.len(), 3);
    assert_eq!(result.steps[0].status, StepStatus::Failed);
    assert_eq!(result.steps[1].status, StepStatus::Skipped);
    assert_eq!(result.steps[2].status, StepStatus::Skipped);
}

#[test]
fn test_flow_all_commands_pass() {
    let mock = Arc::new(MockDriver::new());
    let driver: Arc<dyn Driver> = mock.clone();
    let selector = Selector { text: Some("Button".to_string()), id: None, index: 0 };

    mock.set_visibility_at("text:Button", 0, true);

    let flow = Flow {
        app_id: "test.app".to_string(),
        commands: vec![
            Command::LaunchApp { app_id: None, clear_state: true },
            Command::TapOn { selector: selector.clone() },
            Command::InputText { text: "test".to_string() },
            Command::Back,
        ],
    };

    let result = run_flow(flow, driver);
    assert!(result.passed);
    assert_eq!(result.steps.len(), 4);
    for step in &result.steps {
        assert_eq!(step.status, StepStatus::Passed);
        assert!(step.failure_message.is_none());
    }
}

#[test]
fn test_command_description_formatting() {
    let commands = vec![
        Command::LaunchApp { app_id: Some("com.app".to_string()), clear_state: false },
        Command::TapOn {
            selector: Selector { text: Some("Login".to_string()), id: None, index: 0 },
        },
        Command::InputText { text: "password".to_string() },
    ];

    for cmd in commands {
        let desc = format_command(&cmd);
        assert!(!desc.is_empty());
    }
}

// ---------------------------------------------------------------------------

#[test]
fn format_command_exact_descriptions() {
    let login = text_selector("Login");
    let cases = vec![
        (Command::LaunchApp { app_id: Some("com.app".to_string()), clear_state: false }, "launchApp(com.app)".to_string()),
        (Command::LaunchApp { app_id: Some("com.app".to_string()), clear_state: true }, "launchApp(clearState: true)".to_string()),
        (Command::LaunchApp { app_id: None, clear_state: false }, "launchApp".to_string()),
        (Command::TapOn { selector: login.clone() }, format!("tapOn({:?})", login)),
        (Command::InputText { text: "password".to_string() }, "inputText(\"password\")".to_string()),
        (Command::AssertVisible { selector: login.clone(), timeout_ms: 5 }, format!("assertVisible({:?})", login)),
        (Command::AssertNotVisible { selector: login.clone(), timeout_ms: 5 }, format!("assertNotVisible({:?})", login)),
        (Command::ScrollUntilVisible { selector: login.clone(), max_swipes: 3 }, format!("scrollUntilVisible({:?})", login)),
        (Command::Back, "back".to_string()),
        (Command::WaitForAnimationToEnd { timeout_ms: 1 }, "waitForAnimationToEnd".to_string()),
        (Command::Swipe { direction: Direction::Left }, "swipe(Left)".to_string()),
        (Command::TakeScreenshot { name: "shot".to_string() }, "takeScreenshot(\"shot\")".to_string()),
        (Command::HideKeyboard, "hideKeyboard".to_string()),
    ];
    for (cmd, expected) in cases {
        assert_eq!(format_command(&cmd), expected);
    }
    assert_eq!(
        format_command(&Command::TapOn { selector: login }),
        "tapOn(Selector { text: Some(\"Login\"), id: None, index: 0 })"
    );
}

#[test]
fn selector_debug_matches_derived_debug() {
    let selectors = vec![
        text_selector("Log in"),
        Selector { text: None, id: Some("user\"name".to_string()), index: 7 },
        Selector { text: Some("tab\there\\é".to_string()), id: Some("x".to_string()), index: 4294967295 },
        Selector { text: None, id: None, index: 10 },
    ];
    for s in selectors {
        assert_eq!(selector_debug_text(&s), format!("{:?}", s));
    }
}

#[test]
fn poll_step_decisions() {
    assert_eq!(poll_step(true, true, 0, 100), PollStep::Satisfied);
    assert_eq!(poll_step(false, false, 500, 100), PollStep::Satisfied);
    assert_eq!(poll_step(false, true, 100, 100), PollStep::TimedOut);
    assert_eq!(poll_step(false, true, 150, 100), PollStep::TimedOut);
    assert_eq!(poll_step(false, true, 0, 1000), PollStep::Wait(200));
    assert_eq!(poll_step(false, true, 950, 1000), PollStep::Wait(50));
    assert_eq!(poll_step(true, false, 999, 1000), PollStep::Wait(1));
}

#[test]
fn scroll_step_decisions() {
    assert_eq!(scroll_step(true, 0, 1), ScrollStep::Found);
    assert_eq!(scroll_step(false, 0, 3), ScrollStep::Swipe);
    assert_eq!(scroll_step(false, 1, 3), ScrollStep::Swipe);
    assert_eq!(scroll_step(false, 2, 3), ScrollStep::GiveUp);
}

#[test]
fn timeout_failure_message_is_reported() {
    let mock = Arc::new(MockDriver::new());
    let flow = Flow {
        app_id: "a".to_string(),
        commands: vec![Command::AssertVisible { selector: text_selector("Missing"), timeout_ms: 100 }],
    };
    let result = run_flow(flow, mock.clone());
    assert_eq!(
        result.steps[0].failure_message.as_deref(),
        Some("Timeout: Element not visible after 100ms: Selector { text: Some(\"Missing\"), id: None, index: 0 }")
    );
    assert_eq!(*mock.time_ms.lock().unwrap(), 100);
}

#[test]
fn not_visible_timeout_message() {
    let mock = MockDriver::new();
    mock.set_visibility_at("text:Spinner", 0, true);
    match wait_until_not_visible(&mut Recorder::new(&Arc::new(mock)), &text_selector("Spinner"), 300) {
        Err(DriverError::Timeout { reason }) => assert_eq!(
            reason,
            "Element still visible after 300ms: Selector { text: Some(\"Spinner\"), id: None, index: 0 }"
        ),
        other => panic!("unexpected {:?}", other),
    }
}

#[test]
fn scroll_with_no_checks_gives_up() {
    let mock = Arc::new(MockDriver::new());
    mock.set_visibility_at("text:Item", 0, true);
    match scroll_until_visible(&mut Recorder::new(&mock), &text_selector("Item"), 0) {
        Err(DriverError::ElementNotFound { reason }) => assert_eq!(
            reason,
            "Element not found after 0 swipes: Selector { text: Some(\"Item\"), id: None, index: 0 }"
        ),
        other => panic!("unexpected {:?}", other),
    }
}

#[test]
fn launch_uses_flow_app_unless_given() {
    let mock = Arc::new(MockDriver::new());
    let flow = Flow {
        app_id: "dev.default".to_string(),
        commands: vec![
            Command::LaunchApp { app_id: None, clear_state: true },
            Command::LaunchApp { app_id: Some("dev.other".to_string()), clear_state: false },
            Command::HideKeyboard,
            Command::WaitForAnimationToEnd { timeout_ms: 42 },
            Command::Swipe { direction: Direction::Up },
            Command::TakeScreenshot { name: "s".to_string() },
        ],
    };
    let result = run_flow(flow, mock.clone());
    assert!(result.passed);
    assert_eq!(
        *mock.calls.lock().unwrap(),
        vec![
            "launch_app(dev.default, true)".to_string(),
            "launch_app(dev.other, false)".to_string(),
            "hide_keyboard".to_string(),
            "wait_for_idle(42)".to_string(),
            "swipe(Up)".to_string(),
            "take_screenshot(s)".to_string(),
        ]
    );
}

struct FailingDriver;

impl Driver for FailingDriver {
    fn launch_app(&self, _: String, _: bool) -> Result<(), DriverError> {
        Err(DriverError::OperationFailed { reason: "no device".to_string() })
    }
    fn is_visible(&self, _: Selector) -> Result<bool, DriverError> {
        Err(DriverError::ElementNotFound { reason: "gone".to_string() })
    }
    fn tap(&self, _: Selector) -> Result<(), DriverError> {
        Ok(())
    }
    fn input_text(&self, _: String) -> Result<(), DriverError> {
        Ok(())
    }
    fn hide_keyboard(&self) -> Result<(), DriverError> {
        Ok(())
    }
    fn swipe(&self, _: Direction) -> Result<(), DriverError> {
        Ok(())
    }
    fn back(&self) -> Result<(), DriverError> {
        Ok(())
    }
    fn wait_for_idle(&self, _: u64) -> Result<(), DriverError> {
        Ok(())
    }
    fn take_screenshot(&self, _: String) -> Result<(), DriverError> {
        Ok(())
    }
    fn now_ms(&self) -> u64 {
        0
    }
    fn sleep_ms(&self, _: u64) {}
}

#[test]
fn driver_errors_end_the_step_as_they_are() {
    let flow = Flow {
        app_id: "a".to_string(),
        commands: vec![Command::Back, Command::LaunchApp { app_id: None, clear_state: false }, Command::Back],
    };
    let result = run_flow(flow, FailingDriver);
    assert!(!result.passed);
    assert_eq!(result.steps[0].status, StepStatus::Passed);
    assert_eq!(result.steps[1].status, StepStatus::Failed);
    assert_eq!(result.steps[1].failure_message.as_deref(), Some("Operation failed: no device"));
    assert_eq!(result.steps[2].status, StepStatus::Skipped);
    assert!(result.steps[2].failure_message.is_none());
    assert_eq!(result.steps[2].command_desc, "back");
    let err = wait_until_visible(&mut Recorder::new(&FailingDriver), &text_selector("x"), 10).unwrap_err();
    assert_eq!(err.message(), "Element not found: gone");
}

/// A driver whose clock advances 100 ms at every reading, whatever is slept:
/// the wait goes by the clock, not by the time it slept.
struct SteppingClock {
    time: Mutex<u64>,
    sleeps: Mutex<Vec<u64>>,
}

impl Driver for SteppingClock {
    fn launch_app(&self, _: String, _: bool) -> Result<(), DriverError> {
        Ok(())
    }
    fn is_visible(&self, _: Selector) -> Result<bool, DriverError> {
        Ok(false)
    }
    fn tap(&self, _: Selector) -> Result<(), DriverError> {
        Ok(())
    }
    fn input_text(&self, _: String) -> Result<(), DriverError> {
        Ok(())
    }
    fn hide_keyboard(&self) -> Result<(), DriverError> {
        Ok(())
    }
    fn swipe(&self, _: Direction) -> Result<(), DriverError> {
        Ok(())
    }
    fn back(&self) -> Result<(), DriverError> {
        Ok(())
    }
    fn wait_for_idle(&self, _: u64) -> Result<(), DriverError> {
        Ok(())
    }
    fn take_screenshot(&self, _: String) -> Result<(), DriverError> {
        Ok(())
    }
    fn now_ms(&self) -> u64 {
        let mut t = self.time.lock().unwrap();
        let now = *t;
        *t += 100;
        now
    }
    fn sleep_ms(&self, ms: u64) {
        self.sleeps.lock().unwrap().push(ms);
    }
}

#[test]
fn wait_goes_by_the_clock() {
    let d = SteppingClock { time: Mutex::new(0), sleeps: Mutex::new(Vec::new()) };
    let r = wait_until_visible(&mut Recorder::new(&d), &text_selector("x"), 450);
    assert!(matches!(r, Err(DriverError::Timeout { .. })));
    // Start at 0, deadline 450; polls read 100, 200, 300, 400, then 500.
    assert_eq!(*d.sleeps.lock().unwrap(), vec![200, 200, 150, 50]);
}

#[test]
fn commands_hand_the_driver_what_they_say() {
    let mock = Arc::new(MockDriver::new());
    let driver: Arc<dyn Driver> = mock.clone();
    let app = "flow.app".to_string();
    let mut rec = Recorder::new(&driver);
    execute_command(&Command::LaunchApp { app_id: None, clear_state: true }, &mut rec, &app).unwrap();
    execute_command(
        &Command::LaunchApp { app_id: Some("other.app".to_string()), clear_state: false },
        &mut rec,
        &app,
    )
    .unwrap();
    execute_command(&Command::HideKeyboard, &mut rec, &app).unwrap();
    execute_command(&Command::WaitForAnimationToEnd { timeout_ms: 250 }, &mut rec, &app).unwrap();
    assert_eq!(
        *mock.calls.lock().unwrap(),
        vec![
            "launch_app(flow.app, true)".to_string(),
            "launch_app(other.app, false)".to_string(),
            "hide_keyboard".to_string(),
            "wait_for_idle(250)".to_string(),
        ]
    );
}

#[test]
fn tap_waits_for_its_element_first() {
    let mock = Arc::new(MockDriver::new());
    let driver: Arc<dyn Driver> = mock.clone();
    mock.set_visibility_at("text:Go", 400, true);
    let mut rec = Recorder::new(&driver);
    execute_command(&Command::TapOn { selector: text_selector("Go") }, &mut rec, &"a".to_string())
        .unwrap();
    assert_eq!(*mock.time_ms.lock().unwrap(), 400);
    assert_eq!(mock.calls.lock().unwrap().len(), 1);
    assert!(mock.calls.lock().unwrap()[0].starts_with("tap("));
}

#[test]
fn tap_on_a_missing_element_times_out_without_tapping() {
    let mock = Arc::new(MockDriver::new());
    let driver: Arc<dyn Driver> = mock.clone();
    let mut rec = Recorder::new(&driver);
    let r = execute_command(
        &Command::TapOn { selector: text_selector("Nope") },
        &mut rec,
        &"a".to_string(),
    );
    match r {
        Err(DriverError::Timeout { reason }) => assert_eq!(
            reason,
            "Element not visible after 10000ms: Selector { text: Some(\"Nope\"), id: None, index: 0 }"
        ),
        other => panic!("unexpected {:?}", other),
    }
    assert!(mock.calls.lock().unwrap().is_empty());
    assert_eq!(*mock.time_ms.lock().unwrap(), 10_000);
}

#[test]
fn scroll_swipes_down_between_checks() {
    let mock = Arc::new(MockDriver::new());
    mock.set_visibility_at("text:Row", 400, true);
    let r = scroll_until_visible(&mut Recorder::new(&mock), &text_selector("Row"), 5);
    assert!(r.is_ok());
    assert_eq!(*mock.calls.lock().unwrap(), vec!["swipe(Down)".to_string(), "swipe(Down)".to_string()]);
    assert_eq!(*mock.time_ms.lock().unwrap(), 400);
}
