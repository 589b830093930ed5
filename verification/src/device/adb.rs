//! What the Android transport sends over adb: the argument lists of its adb
//! commands, the address of the on-device driver server, and the decisions
//! of its two waits (for the server to start, and for the UI to settle).

use vstd::prelude::*;
use vstd::string::StringExecFns;
use crate::device::builder::swipe_gesture;
use crate::device::types::Direction;
use crate::model::opt_text;
use crate::text::{
    append_chars, decimal, decimal_chars, push_string, push_text, string_from, string_of, texts,
};

verus! {

/// The instrumentation runner of the on-device driver server.
pub const MAESTRO_RUNNER: &'static str = "dev.mobile.maestro.test/androidx.test.runner.AndroidJUnitRunner";

/// The test method that runs the driver server.
pub const DRIVER_SERVER_CLASS: &'static str = "dev.mobile.maestro.MaestroDriverService#grpcServer";

/// How long the transport waits for the driver server to accept connections.
pub const STARTUP_TIMEOUT_MS: u64 = 30_000;

/// The pause between two connection attempts.
pub const STARTUP_POLL_MS: u64 = 200;

/// The pause between two checks of whether the window is still updating.
pub const IDLE_POLL_MS: u64 = 100;

/// The arguments that pick a device: `-s <serial>`, or none for the only
/// connected one.
pub open spec fn serial_prefix(serial: Option<Seq<char>>) -> Seq<Seq<char>> {
    match serial {
        Some(s) => seq!["-s"@, s],
        None => Seq::empty(),
    }
}

/// The arguments of an adb command on the chosen device.
pub fn adb_args(serial: &Option<String>, args: &Vec<String>) -> (r: Vec<String>)
    ensures
        texts(r@) == serial_prefix(opt_text(*serial)) + texts(args@),
{
    let mut out: Vec<String> = Vec::new();
    if let Some(s) = serial {
        push_text(&mut out, "-s");
        push_string(&mut out, s.clone());
    }
    let ghost head = texts(out@);
    assert(head =~= serial_prefix(opt_text(*serial)));
    let mut i: usize = 0;
    while i < args.len()
        invariant
            i <= args.len(),
            head == serial_prefix(opt_text(*serial)),
            texts(out@) == head + texts(args@.take(i as int)),
        decreases args.len() - i,
    {
        let ghost before = texts(out@);
        push_string(&mut out, args[i].clone());
        assert(texts(args@.take(i + 1)) =~= texts(args@.take(i as int)).push(args@[i as int]@));
        assert(texts(out@) =~= head + texts(args@.take(i + 1)));
        i += 1;
    }
    assert(args@.take(args.len() as int) =~= args@);
    out
}

/// The arguments of an adb shell command on the chosen device.
pub fn shell_args(serial: &Option<String>, command: &Vec<String>) -> (r: Vec<String>)
    ensures
        texts(r@) == serial_prefix(opt_text(*serial)) + seq!["shell"@] + texts(command@),
{
    let mut with_shell: Vec<String> = Vec::new();
    push_text(&mut with_shell, "shell");
    let mut i: usize = 0;
    while i < command.len()
        invariant
            i <= command.len(),
            texts(with_shell@) == seq!["shell"@] + texts(command@.take(i as int)),
        decreases command.len() - i,
    {
        push_string(&mut with_shell, command[i].clone());
        assert(texts(command@.take(i + 1)) =~= texts(command@.take(i as int)).push(
            command@[i as int]@,
        ));
        assert(texts(with_shell@) =~= seq!["shell"@] + texts(command@.take(i + 1)));
        i += 1;
    }
    assert(command@.take(command.len() as int) =~= command@);
    let r = adb_args(serial, &with_shell);
    assert(serial_prefix(opt_text(*serial)) + (seq!["shell"@] + texts(command@)) =~= serial_prefix(
        opt_text(*serial),
    ) + seq!["shell"@] + texts(command@));
    r
}

fn port_text(port: u16) -> (r: String)
    ensures
        r@ == decimal(port as nat),
{
    string_of(&decimal_chars(port as u64))
}

fn prefixed_port(prefix: &str, port: u16) -> (r: String)
    ensures
        r@ == prefix@ + decimal(port as nat),
{
    let mut s = string_from(prefix);
    append_chars(&mut s, &decimal_chars(port as u64));
    s
}

/// `adb forward tcp:<port> tcp:<port>`, without the device arguments.
pub fn forward_command(port: u16) -> (r: Vec<String>)
    ensures
        texts(r@) == seq![
            "forward"@,
            "tcp:"@ + decimal(port as nat),
            "tcp:"@ + decimal(port as nat),
        ],
{
    let mut v: Vec<String> = Vec::new();
    push_text(&mut v, "forward");
    push_string(&mut v, prefixed_port("tcp:", port));
    push_string(&mut v, prefixed_port("tcp:", port));
    v
}

/// The instrumentation that starts the driver server on `port`, without
/// the device arguments.
pub fn driver_server_command(port: u16) -> (r: Vec<String>)
    ensures
        texts(r@) == seq![
            "shell"@,
            "am"@,
            "instrument"@,
            "-w"@,
            "-e"@,
            "class"@,
            DRIVER_SERVER_CLASS@,
            "-e"@,
            "port"@,
            decimal(port as nat),
            MAESTRO_RUNNER@,
        ],
{
    let mut v: Vec<String> = Vec::new();
    push_text(&mut v, "shell");
    push_text(&mut v, "am");
    push_text(&mut v, "instrument");
    push_text(&mut v, "-w");
    push_text(&mut v, "-e");
    push_text(&mut v, "class");
    push_text(&mut v, DRIVER_SERVER_CLASS);
    push_text(&mut v, "-e");
    push_text(&mut v, "port");
    push_string(&mut v, port_text(port));
    push_text(&mut v, MAESTRO_RUNNER);
    v
}

/// Where the driver server listens once its port is forwarded.
pub fn server_address(port: u16) -> (r: String)
    ensures
        r@ == "127.0.0.1:"@ + decimal(port as nat),
{
    prefixed_port("127.0.0.1:", port)
}

/// The URL of the driver server's gRPC endpoint.
pub fn endpoint_url(port: u16) -> (r: String)
    ensures
        r@ == "http://127.0.0.1:"@ + decimal(port as nat),
{
    prefixed_port("http://127.0.0.1:", port)
}

/// The message of a driver server that did not start in time.
pub fn startup_timeout_reason(port: u16) -> (r: String)
    ensures
        r@ == "Maestro gRPC server did not start on port "@ + decimal(port as nat) + " within "@
            + decimal(STARTUP_TIMEOUT_MS as nat) + "ms"@,
{
    let mut s = prefixed_port("Maestro gRPC server did not start on port ", port);
    s.append(" within ");
    append_chars(&mut s, &decimal_chars(STARTUP_TIMEOUT_MS));
    s.append("ms");
    s
}

/// What the startup wait does after a connection attempt.
#[derive(Debug, Clone, Copy, PartialEq, Eq, Structural)]
pub enum StartupStep {
    /// The server accepted the connection.
    Ready,
    /// The deadline has passed: the transport fails.
    GiveUp,
    /// Sleep this many milliseconds, then try again.
    Wait(u64),
}

pub open spec fn startup_decision(connected: bool, now_ms: u64, deadline_ms: u64) -> StartupStep {
    if connected {
        StartupStep::Ready
    } else if now_ms >= deadline_ms {
        StartupStep::GiveUp
    } else {
        StartupStep::Wait(STARTUP_POLL_MS)
    }
}

/// Decides what the startup wait does after a connection attempt at
/// `now_ms`.
pub fn startup_step(connected: bool, now_ms: u64, deadline_ms: u64) -> (r: StartupStep)
    ensures
        r == startup_decision(connected, now_ms, deadline_ms),
{
    if connected {
        StartupStep::Ready
    } else if now_ms >= deadline_ms {
        StartupStep::GiveUp
    } else {
        StartupStep::Wait(STARTUP_POLL_MS)
    }
}

/// What the idle wait does after asking whether the window is updating.
#[derive(Debug, Clone, Copy, PartialEq, Eq, Structural)]
pub enum IdleStep {
    /// The window is not updating: the UI has settled.
    Idle,
    /// The deadline has passed; the wait ends without an error.
    GiveUp,
    /// Sleep this many milliseconds, then ask again.
    Wait(u64),
}

pub open spec fn idle_decision(updating: bool, now_ms: u64, deadline_ms: u64) -> IdleStep {
    if !updating {
        IdleStep::Idle
    } else if now_ms >= deadline_ms {
        IdleStep::GiveUp
    } else {
        IdleStep::Wait(IDLE_POLL_MS)
    }
}

/// Decides what the idle wait does; a failed question counts as "not
/// updating".
pub fn idle_step(updating: bool, now_ms: u64, deadline_ms: u64) -> (r: IdleStep)
    ensures
        r == idle_decision(updating, now_ms, deadline_ms),
{
    if !updating {
        IdleStep::Idle
    } else if now_ms >= deadline_ms {
        IdleStep::GiveUp
    } else {
        IdleStep::Wait(IDLE_POLL_MS)
    }
}

/// `pm clear <app>`: wipes an app's data before a launch.
pub fn clear_state_command(app_id: &str) -> (r: Vec<String>)
    ensures
        texts(r@) == seq!["pm"@, "clear"@, app_id@],
{
    let mut v: Vec<String> = Vec::new();
    push_text(&mut v, "pm");
    push_text(&mut v, "clear");
    push_text(&mut v, app_id);
    v
}

/// `input keyevent KEYCODE_BACK`: the back key, also used to hide the
/// keyboard.
pub fn back_key_command() -> (r: Vec<String>)
    ensures
        texts(r@) == seq!["input"@, "keyevent"@, "KEYCODE_BACK"@],
{
    let mut v: Vec<String> = Vec::new();
    push_text(&mut v, "input");
    push_text(&mut v, "keyevent");
    push_text(&mut v, "KEYCODE_BACK");
    v
}

/// `input swipe x1 y1 x2 y2 duration` for the gesture of a direction.
pub fn swipe_command(d: Direction) -> (r: Vec<String>)
    ensures
        ({
            let g = crate::device::builder::swipe_gesture_spec(d);
            texts(r@) == seq![
                "input"@,
                "swipe"@,
                decimal(g.0 as nat),
                decimal(g.1 as nat),
                decimal(g.2 as nat),
                decimal(g.3 as nat),
                decimal(g.4 as nat),
            ]
        }),
{
    let (x1, y1, x2, y2, ms) = swipe_gesture(d);
    let mut v: Vec<String> = Vec::new();
    push_text(&mut v, "input");
    push_text(&mut v, "swipe");
    push_string(&mut v, string_of(&decimal_chars(x1 as u64)));
    push_string(&mut v, string_of(&decimal_chars(y1 as u64)));
    push_string(&mut v, string_of(&decimal_chars(x2 as u64)));
    push_string(&mut v, string_of(&decimal_chars(y2 as u64)));
    push_string(&mut v, string_of(&decimal_chars(ms as u64)));
    v
}

/// The file a screenshot is written to: `<name>.png`.
pub fn screenshot_file(name: &str) -> (r: String)
    ensures
        r@ == name@ + ".png"@,
{
    let mut s = string_from(name);
    s.append(".png");
    s
}

} // verus!
