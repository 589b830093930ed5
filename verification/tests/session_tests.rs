use podium::cli::parse_env;
use podium::device::adb::{
    adb_args, back_key_command, clear_state_command, driver_server_command, endpoint_url,
    forward_command, idle_step, screenshot_file, server_address, shell_args, startup_step,
    startup_timeout_reason, swipe_command, IdleStep, StartupStep,
};
use podium::device::types::Direction;
use podium::report::{failure_row, load_json, report_header, report_row, report_rule, summarize};
use podium::session::{FlowFile, Note, TestAction, TestEvent, TestRun, Work};
use podium::text_map::EnvVars;

fn strs(v: &[&str]) -> Vec<String> {
    v.iter().map(|s| s.to_string()).collect()
}

fn flow(name: &str) -> FlowFile {
    FlowFile {
        shown: format!("flows/{name}"),
        local: format!("flows/{name}"),
        name: name.to_string(),
    }
}

fn adb_of(a: &TestAction) -> Vec<String> {
    match &a.work {
        Work::Adb(args) => args.clone(),
        _ => panic!("expected an adb command"),
    }
}

fn lines(a: &TestAction) -> Vec<String> {
    a.notes
        .iter()
        .map(|n| match n {
            Note::Stdout(s) => format!("out:{s}"),
            Note::Stderr(s) => format!("err:{s}"),
        })
        .collect()
}

#[test]
fn a_full_run_goes_through_every_stage() {
    let env = parse_env(&strs(&["USER=me"]));
    let (mut run, a) = TestRun::start(
        Some("emu".to_string()),
        vec![flow("a.yaml"), flow("b.yaml")],
        env,
        "out".to_string(),
    );
    assert!(matches!(a.work, Work::ResolveAppApk));
    let a = run.step(TestEvent::Apk(Some("/tmp/app.apk".to_string())));
    assert_eq!(lines(&a), vec!["out:Installing app APK: /tmp/app.apk"]);
    assert_eq!(adb_of(&a), strs(&["-s", "emu", "install", "-r", "/tmp/app.apk"]));
    let a = run.step(TestEvent::Command(true));
    assert!(matches!(a.work, Work::ResolveRunnerApk));
    let a = run.step(TestEvent::Apk(Some("/tmp/runner.apk".to_string())));
    assert_eq!(adb_of(&a), strs(&["-s", "emu", "install", "-r", "/tmp/runner.apk"]));
    let a = run.step(TestEvent::Command(true));
    assert_eq!(lines(&a), vec!["out:Pushing flows to device\u{2026}"]);
    assert_eq!(
        adb_of(&a),
        strs(&["-s", "emu", "shell", "rm", "-rf", "/data/local/tmp/podium/flows"])
    );
    // A failed removal does not stop the run.
    let a = run.step(TestEvent::Command(false));
    assert_eq!(
        adb_of(&a),
        strs(&["-s", "emu", "shell", "mkdir", "-p", "/data/local/tmp/podium/flows"])
    );
    let a = run.step(TestEvent::Command(true));
    assert_eq!(
        adb_of(&a),
        strs(&["-s", "emu", "push", "flows/a.yaml", "/data/local/tmp/podium/flows/a.yaml"])
    );
    let a = run.step(TestEvent::Command(true));
    assert_eq!(
        adb_of(&a),
        strs(&["-s", "emu", "push", "flows/b.yaml", "/data/local/tmp/podium/flows/b.yaml"])
    );
    let a = run.step(TestEvent::Command(true));
    assert_eq!(lines(&a), vec!["out:\nRunning flows\u{2026}\n"]);
    match &a.work {
        Work::Instrument(args) => assert_eq!(
            *args,
            strs(&[
                "-s",
                "emu",
                "shell",
                "am",
                "instrument",
                "-w",
                "-r",
                "-e",
                "flowsDir",
                "/data/local/tmp/podium/flows",
                "-e",
                "env.USER",
                "me",
                "dev.podium.runner.test/androidx.test.runner.AndroidJUnitRunner",
            ])
        ),
        _ => panic!("expected the instrumentation"),
    }
    let a = run.step(TestEvent::Instrumented(true));
    assert_eq!(lines(&a), vec!["out:\nPulling results\u{2026}"]);
    assert_eq!(
        adb_of(&a),
        strs(&[
            "-s",
            "emu",
            "pull",
            "/sdcard/Android/data/dev.podium.runner.test/files/podium/results",
            "out"
        ])
    );
    let a = run.step(TestEvent::Command(false));
    assert_eq!(
        adb_of(&a),
        strs(&[
            "-s",
            "emu",
            "pull",
            "/sdcard/Android/data/dev.podium.runner/files/podium/results",
            "out"
        ])
    );
    let a = run.step(TestEvent::Command(true));
    assert_eq!(lines(&a), vec!["out:\nAll flows passed. Results in out"]);
    assert!(matches!(a.work, Work::Finish(true)));
}

#[test]
fn missing_runner_apk_fails_the_run() {
    let (mut run, _) = TestRun::start(None, vec![flow("a.yaml")], EnvVars::new(), "o".to_string());
    let a = run.step(TestEvent::Apk(None));
    assert!(matches!(a.work, Work::ResolveRunnerApk));
    let a = run.step(TestEvent::Apk(None));
    assert_eq!(
        lines(&a),
        vec!["err:No runner APK available. Either pass --runner <path> or use a release build that has the APKs embedded."]
    );
    assert!(matches!(a.work, Work::Finish(false)));
}

#[test]
fn failed_push_fails_the_run() {
    let (mut run, _) = TestRun::start(None, vec![flow("a.yaml")], EnvVars::new(), "o".to_string());
    run.step(TestEvent::Apk(None));
    let a = run.step(TestEvent::Apk(Some("r.apk".to_string())));
    assert_eq!(adb_of(&a), strs(&["install", "-r", "r.apk"]));
    run.step(TestEvent::Command(true));
    run.step(TestEvent::Command(true));
    run.step(TestEvent::Command(true));
    let a = run.step(TestEvent::Command(false));
    assert_eq!(lines(&a), vec!["err:Failed to push flows/a.yaml"]);
    assert!(matches!(a.work, Work::Finish(false)));
}

#[test]
fn failed_instrumentation_without_results() {
    let (mut run, _) = TestRun::start(None, vec![], EnvVars::new(), "o".to_string());
    run.step(TestEvent::Apk(None));
    run.step(TestEvent::Apk(Some("r.apk".to_string())));
    run.step(TestEvent::Command(true));
    run.step(TestEvent::Command(true));
    // Without flows the instrumentation runs right after the directory is made.
    let a = run.step(TestEvent::Command(true));
    assert!(matches!(a.work, Work::Instrument(_)));
    run.step(TestEvent::Instrumented(false));
    run.step(TestEvent::Command(false));
    let a = run.step(TestEvent::Command(false));
    assert_eq!(
        lines(&a),
        vec![
            "err:  (no result files found on device)",
            "err:\nOne or more flows failed. Results in o"
        ]
    );
    assert!(matches!(a.work, Work::Finish(false)));
}

#[test]
fn failed_install_and_unexpected_events_end_the_run() {
    let (mut run, _) = TestRun::start(None, vec![], EnvVars::new(), "o".to_string());
    run.step(TestEvent::Apk(Some("app.apk".to_string())));
    let a = run.step(TestEvent::Command(false));
    assert_eq!(lines(&a), vec!["err:Failed to install app APK"]);
    assert!(matches!(a.work, Work::Finish(false)));

    let (mut run, _) = TestRun::start(None, vec![], EnvVars::new(), "o".to_string());
    let a = run.step(TestEvent::Command(true));
    assert!(a.notes.is_empty());
    assert!(matches!(a.work, Work::Finish(false)));
    let a = run.step(TestEvent::Apk(None));
    assert!(matches!(a.work, Work::Finish(false)));
}

#[test]
fn adb_argument_lists() {
    assert_eq!(adb_args(&None, &strs(&["devices"])), strs(&["devices"]));
    assert_eq!(
        adb_args(&Some("x".to_string()), &strs(&["devices"])),
        strs(&["-s", "x", "devices"])
    );
    assert_eq!(
        shell_args(&Some("x".to_string()), &clear_state_command("com.a")),
        strs(&["-s", "x", "shell", "pm", "clear", "com.a"])
    );
    assert_eq!(forward_command(7001), strs(&["forward", "tcp:7001", "tcp:7001"]));
    assert_eq!(
        driver_server_command(7001),
        strs(&[
            "shell",
            "am",
            "instrument",
            "-w",
            "-e",
            "class",
            "dev.mobile.maestro.MaestroDriverService#grpcServer",
            "-e",
            "port",
            "7001",
            "dev.mobile.maestro.test/androidx.test.runner.AndroidJUnitRunner"
        ])
    );
    assert_eq!(back_key_command(), strs(&["input", "keyevent", "KEYCODE_BACK"]));
    assert_eq!(
        swipe_command(Direction::Up),
        strs(&["input", "swipe", "540", "1400", "540", "400", "300"])
    );
    assert_eq!(
        swipe_command(Direction::Right),
        strs(&["input", "swipe", "180", "800", "900", "800", "300"])
    );
    assert_eq!(server_address(7001), "127.0.0.1:7001");
    assert_eq!(endpoint_url(80), "http://127.0.0.1:80");
    assert_eq!(screenshot_file("shot"), "shot.png");
    assert_eq!(
        startup_timeout_reason(7001),
        "Maestro gRPC server did not start on port 7001 within 30000ms"
    );
}

#[test]
fn startup_and_idle_decisions() {
    assert_eq!(startup_step(true, 99_999, 30_000), StartupStep::Ready);
    assert_eq!(startup_step(false, 30_000, 30_000), StartupStep::GiveUp);
    assert_eq!(startup_step(false, 10, 30_000), StartupStep::Wait(200));
    assert_eq!(idle_step(false, 0, 10), IdleStep::Idle);
    assert_eq!(idle_step(true, 10, 10), IdleStep::GiveUp);
    assert_eq!(idle_step(true, 5, 10), IdleStep::Wait(100));
}

#[test]
fn report_table_rows() {
    assert_eq!(
        report_header(),
        format!("{:<30} {:>6} {:>8} {}", "Flow", "Steps", "Total", "Status")
    );
    assert_eq!(report_rule(), "\u{2500}".repeat(60));
    let v = load_json(r#"{"passed": false, "steps": [{"duration_ms": 12, "status": "FAILED", "command": "tapOn(x)"}]}"#)
        .unwrap();
    let s = summarize(&v);
    assert_eq!(
        report_row("login", &s),
        format!("{:<30} {:>6} {:>7}ms {}", "login", 1, 12, "FAILED")
    );
    let long = "a_very_long_flow_name_that_is_longer_than_thirty";
    assert_eq!(
        report_row(long, &s),
        format!("{:<30} {:>6} {:>7}ms {}", long, 1, 12, "FAILED")
    );
    assert_eq!(failure_row("tapOn(x)", "unknown"), "    \u{2717} tapOn(x): unknown");
}
