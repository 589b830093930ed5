use podium::cli::{
    apk_cache_key, device_flow_path, instrument_args, instrument_line_failed, is_apk_placeholder,
    parse_env, render_podium_line, APK_PLACEHOLDER, DEVICE_FLOWS_DIR, RUNNER_COMPONENT,
};
use podium::cli::{flows_valid, instrument_passed};
use podium::report::{load_json, report_passed, report_verdict, summarize};
use podium::text_map::EnvVars;
use sha2::Digest;

fn value_of<'a>(env: &'a EnvVars, key: &str) -> &'a str {
    env.get(key).unwrap().as_str()
}

#[test]
fn test_parse_env_basic() {
    let pairs = vec!["FOO=bar".to_string(), "BAZ=qux".to_string()];
    let env = parse_env(&pairs);
    assert_eq!(value_of(&env, "FOO"), "bar");
    assert_eq!(value_of(&env, "BAZ"), "qux");
}

#[test]
fn test_parse_env_empty_value() {
    let pairs = vec!["KEY=".to_string()];
    let env = parse_env(&pairs);
    assert_eq!(value_of(&env, "KEY"), "");
}

#[test]
fn test_parse_env_value_with_equals() {
    let pairs = vec!["URL=http://example.com?a=1".to_string()];
    let env = parse_env(&pairs);
    assert_eq!(value_of(&env, "URL"), "http://example.com?a=1");
}

#[test]
fn test_parse_env_empty() {
    let env = parse_env(&[]);
    assert!(env.is_empty());
}

#[test]
fn test_render_podium_line_step_passed() {
    let line = "PODIUM|step|tapOn(login_button)|passed|412ms";
    let rendered = render_podium_line(line).unwrap();
    assert!(rendered.contains("tapOn(login_button)"));
    assert!(rendered.contains("412ms"));
    assert!(rendered.contains('✓'));
}

#[test]
fn test_render_podium_line_step_failed() {
    let line = "PODIUM|step|assertVisible(Welcome)|failed|10001ms";
    let rendered = render_podium_line(line).unwrap();
    assert!(rendered.contains("assertVisible(Welcome)"));
    assert!(rendered.contains('✗'));
}

#[test]
fn test_render_podium_line_flow_passed() {
    let line = "PODIUM|flow|login|passed";
    let rendered = render_podium_line(line).unwrap();
    assert!(rendered.contains("login"));
    assert!(rendered.contains('✅'));
}

#[test]
fn test_render_podium_line_flow_failed() {
    let line = "PODIUM|flow|smoke|failed";
    let rendered = render_podium_line(line).unwrap();
    assert!(rendered.contains("smoke"));
    assert!(rendered.contains('❌'));
}

#[test]
fn test_render_podium_line_unknown() {
    let line = "some random log line";
    assert!(render_podium_line(line).is_none());
}

// ---------------------------------------------------------------------------
// Further cases

#[test]
fn parse_env_reads_bare_keys_as_empty_and_keeps_last() {
    let pairs = vec!["A=1".to_string(), "junk".to_string(), "A=2".to_string()];
    let env = parse_env(&pairs);
    assert_eq!(env.len(), 2);
    assert_eq!(value_of(&env, "A"), "2");
    assert_eq!(value_of(&env, "junk"), "");
    assert!(env.get("B").is_none());
}

#[test]
fn render_exact_lines() {
    assert_eq!(
        render_podium_line("PODIUM|step|tapOn(x)|passed|5ms").unwrap(),
        "  \u{2713} tapOn(x) (5ms)"
    );
    assert_eq!(
        render_podium_line("PODIUM|flow|f|passed").unwrap(),
        "\u{2705} flow f passed"
    );
    assert_eq!(
        render_podium_line("PODIUM|flow|f|failed").unwrap(),
        "\u{274c} flow f FAILED"
    );
    assert_eq!(
        render_podium_line("PODIUM|flow|f|started").unwrap(),
        "\n\u{25b6}  flow: f"
    );
    assert_eq!(
        render_podium_line("PODIUM|flow|f|error|boom|x").unwrap(),
        "\u{274c} flow f error: boom"
    );
    assert_eq!(
        render_podium_line("PODIUM|flow|f|error|a|b|c").unwrap(),
        "\u{274c} flow f error: a"
    );
    assert_eq!(
        render_podium_line("PODIUM|step|back|skipped").unwrap(),
        "  \u{2298} back (skipped)"
    );
    assert_eq!(render_podium_line("PODIUM|info|hello").unwrap(), "\u{2139}  hello");
    assert_eq!(render_podium_line("PODIUM|warning|careful").unwrap(), "\u{26a0}  careful");
    assert!(render_podium_line("PODIUM|step|x").is_none());
    assert!(render_podium_line("PODIUM|other|x|y").is_none());
}

#[test]
fn instrument_failures_are_detected() {
    assert!(instrument_line_failed("INSTRUMENTATION_STATUS_CODE: -2"));
    assert!(instrument_line_failed("oops FAILURES!!! here"));
    assert!(!instrument_line_failed("INSTRUMENTATION_STATUS_CODE: 0"));
}

#[test]
fn flow_path_on_device() {
    assert_eq!(device_flow_path("a.yaml"), "/data/local/tmp/podium/flows/a.yaml");
    assert_eq!(DEVICE_FLOWS_DIR, "/data/local/tmp/podium/flows");
}

#[test]
fn instrument_args_carry_env() {
    let mut env = EnvVars::new();
    env.insert("USER".to_string(), "me".to_string());
    let args = instrument_args(&env);
    let expected: Vec<String> = vec![
        "shell",
        "am",
        "instrument",
        "-w",
        "-r",
        "-e",
        "flowsDir",
        DEVICE_FLOWS_DIR,
        "-e",
        "env.USER",
        "me",
        RUNNER_COMPONENT,
    ]
    .into_iter()
    .map(String::from)
    .collect();
    assert_eq!(args, expected);
}

#[test]
fn placeholder_is_recognised() {
    assert!(is_apk_placeholder(APK_PLACEHOLDER.as_bytes()));
    assert!(!is_apk_placeholder(b"PODIUM_APK_PLACEHOLDEX"));
    assert!(!is_apk_placeholder(b""));
}

fn expected_key(data: &[u8]) -> String {
    let head = &data[..data.len().min(256)];
    let digest = sha2::Sha256::digest(head);
    let mut first = [0u8; 8];
    first.copy_from_slice(&digest[..8]);
    format!("{:x}", u64::from_be_bytes(first))
}

#[test]
fn apk_key_hashes_the_first_bytes() {
    let small = b"hello apk".to_vec();
    assert_eq!(apk_cache_key(&small), expected_key(&small));
    let mut big = vec![7u8; 300];
    assert_eq!(apk_cache_key(&big), expected_key(&big));
    big[299] = 9;
    // Bytes past the first 256 do not change the key.
    assert_eq!(apk_cache_key(&big), expected_key(&vec![7u8; 256]));
    assert_ne!(apk_cache_key(&small), apk_cache_key(b"hello apl"));
}

#[test]
fn report_summary() {
    let text = r#"{
        "flow_name": "login",
        "passed": false,
        "steps": [
            {"command": "launchApp", "status": "PASSED", "duration_ms": 10},
            {"command": "tapOn(x)", "status": "FAILED", "duration_ms": 25, "failure_message": "not found"},
            {"status": "FAILED"},
            {"command": "back", "status": "SKIPPED", "duration_ms": 0}
        ]
    }"#;
    let v = load_json(text).unwrap();
    let s = summarize(&v);
    assert!(!s.passed);
    assert_eq!(s.steps, 4);
    assert_eq!(s.total_ms, 35);
    assert_eq!(
        s.failures,
        vec![
            ("tapOn(x)".to_string(), "not found".to_string()),
            ("?".to_string(), "unknown".to_string())
        ]
    );
}

#[test]
fn report_summary_of_passed_flow_lists_no_failures() {
    let v = load_json(r#"{"passed": true, "steps": [{"status": "FAILED", "duration_ms": 3}]}"#)
        .unwrap();
    let s = summarize(&v);
    assert!(s.passed);
    assert_eq!(s.steps, 1);
    assert_eq!(s.total_ms, 3);
    assert!(s.failures.is_empty());
}

#[test]
fn report_summary_of_non_object() {
    let v = load_json("[1, 2]").unwrap();
    let s = summarize(&v);
    assert!(!s.passed);
    assert_eq!(s.steps, 0);
    assert_eq!(s.total_ms, 0);
    assert!(load_json("{not json").is_err());
}

#[test]
fn bad_json_gives_serde_json_message() {
    match load_json("{not json") {
        Err(m) => {
            assert!(!m.is_empty());
            assert_ne!(m, "{not json");
        }
        Ok(v) => panic!("unexpected {:?}", v),
    }
}

#[test]
fn report_verdict_over_file_contents() {
    let ok = Some(r#"{"passed": true, "steps": []}"#.to_string());
    let failed = Some(r#"{"passed": false, "steps": []}"#.to_string());
    let no_flag = Some(r#"{"steps": []}"#.to_string());
    let bad = Some("{not json".to_string());
    assert!(!report_verdict(&vec![]));
    assert!(report_verdict(&vec![ok.clone()]));
    assert!(report_verdict(&vec![ok.clone(), None, bad.clone()]));
    assert!(report_verdict(&vec![None]));
    assert!(!report_verdict(&vec![ok.clone(), failed]));
    assert!(!report_verdict(&vec![no_flag, ok]));
}

#[test]
fn run_verdicts() {
    assert!(!flows_valid(&vec![]));
    assert!(flows_valid(&vec![true, true]));
    assert!(!flows_valid(&vec![true, false, true]));
    assert!(instrument_passed(false, true));
    assert!(!instrument_passed(true, true));
    assert!(!instrument_passed(false, false));
    assert!(report_passed(2, &vec![true, true]));
    assert!(!report_passed(2, &vec![true, false]));
    assert!(!report_passed(0, &vec![]));
}
