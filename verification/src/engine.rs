//! The flow interpreter: runs a flow's commands against a driver with the
//! implicit waits, scroll loop, timing and abort-on-first-failure rules.

use vstd::prelude::*;
use vstd::string::StringExecFns;
use crate::driver::{driver_error_text, CallView, Driver, DriverError, Recorder};
use crate::model::{opt_text, Command, CommandView, Direction, Flow, Selector, SelectorView};
use crate::text::{append_chars, debug_quoted, decimal, decimal_chars, str_debug, string_from};

verus! {

/// How long a wait loop sleeps between two polls at most.
pub const POLL_INTERVAL_MS: u64 = 200;

/// The timeout of the implicit wait before a tap.
pub const TAP_TIMEOUT_MS: u64 = 10_000;

/// The outcome of one flow step.
#[derive(Debug, Clone, Copy, PartialEq, Eq, Structural)]
pub enum StepStatus {
    Passed,
    Failed,
    Skipped,
}

/// One executed (or skipped) command.
#[derive(Debug, Clone)]
pub struct StepResult {
    pub command_desc: String,
    pub status: StepStatus,
    pub duration_ms: u64,
    pub failure_message: Option<String>,
}

/// The result of running a flow.
#[derive(Debug, Clone)]
pub struct FlowResult {
    pub steps: Vec<StepResult>,
    pub passed: bool,
}

// ----------------------------------------------------------------------------
// Debug rendering of selectors and directions
/// `Debug` of an optional string.
pub open spec fn opt_debug(o: Option<Seq<char>>) -> Seq<char> {
    match o {
        Some(t) => "Some("@ + str_debug(t) + ")"@,
        None => "None"@,
    }
}

/// `Debug` of a struct `Selector` with fields `text`, `id` and `index`, as
/// `derive(Debug)` writes it.
pub open spec fn selector_fields_debug(
    text: Option<Seq<char>>,
    id: Option<Seq<char>>,
    index: u32,
) -> Seq<char> {
    "Selector { text: "@ + opt_debug(text) + ", id: "@ + opt_debug(id) + ", index: "@ + decimal(
        index as nat,
    ) + " }"@
}

/// `Debug` of a selector.
pub open spec fn selector_debug(s: SelectorView) -> Seq<char> {
    selector_fields_debug(s.text, s.id, s.index)
}

/// `Debug` of a direction.
pub open spec fn direction_debug(d: Direction) -> Seq<char> {
    match d {
        Direction::Up => "Up"@,
        Direction::Down => "Down"@,
        Direction::Left => "Left"@,
        Direction::Right => "Right"@,
    }
}

fn append_opt_debug(out: &mut String, o: &Option<String>)
    ensures
        final(out)@ == old(out)@ + opt_debug(opt_text(*o)),
{
    match o {
        Some(t) => {
            out.append("Some(");
            let q = debug_quoted(t.as_str());
            out.append(q.as_str());
            out.append(")");
        },
        None => {
            out.append("None");
        },
    }
}

/// Appends the `Debug` text of a selector with the given fields.
pub fn append_selector_fields_debug(
    out: &mut String,
    text: &Option<String>,
    id: &Option<String>,
    index: u32,
)
    ensures
        final(out)@ == old(out)@ + selector_fields_debug(opt_text(*text), opt_text(*id), index),
{
    let ghost start = out@;
    out.append("Selector { text: ");
    append_opt_debug(out, text);
    out.append(", id: ");
    append_opt_debug(out, id);
    out.append(", index: ");
    let digits = decimal_chars(index as u64);
    append_chars(out, &digits);
    out.append(" }");
    assert(out@ =~= start + selector_fields_debug(opt_text(*text), opt_text(*id), index));
}

/// Appends the `Debug` text of a selector.
pub fn append_selector_debug(out: &mut String, s: &Selector)
    ensures
        final(out)@ == old(out)@ + selector_debug(s@),
{
    append_selector_fields_debug(out, &s.text, &s.id, s.index);
}

/// The `Debug` text of a selector.
pub fn selector_debug_text(s: &Selector) -> (r: String)
    ensures
        r@ == selector_debug(s@),
{
    let mut out = String::new();
    append_selector_debug(&mut out, s);
    assert(out@ =~= selector_debug(s@));
    out
}

pub fn direction_debug_text(d: Direction) -> (r: String)
    ensures
        r@ == direction_debug(d),
{
    match d {
        Direction::Up => string_from("Up"),
        Direction::Down => string_from("Down"),
        Direction::Left => string_from("Left"),
        Direction::Right => string_from("Right"),
    }
}

// ----------------------------------------------------------------------------
// Command descriptions
/// The description of a command shown in step results.
pub open spec fn command_desc(c: CommandView) -> Seq<char> {
    match c {
        CommandView::LaunchApp { app_id, clear_state } => if clear_state {
            "launchApp(clearState: true)"@
        } else {
            match app_id {
                Some(id) => "launchApp("@ + id + ")"@,
                None => "launchApp"@,
            }
        },
        CommandView::TapOn { selector } => "tapOn("@ + selector_debug(selector) + ")"@,
        CommandView::InputText { text } => "inputText(\""@ + text + "\")"@,
        CommandView::AssertVisible { selector, .. } => "assertVisible("@ + selector_debug(selector)
            + ")"@,
        CommandView::AssertNotVisible { selector, .. } => "assertNotVisible("@ + selector_debug(
            selector,
        ) + ")"@,
        CommandView::ScrollUntilVisible { selector, .. } => "scrollUntilVisible("@
            + selector_debug(selector) + ")"@,
        CommandView::Back => "back"@,
        CommandView::WaitForAnimationToEnd { .. } => "waitForAnimationToEnd"@,
        CommandView::Swipe { direction } => "swipe("@ + direction_debug(direction) + ")"@,
        CommandView::TakeScreenshot { name } => "takeScreenshot(\""@ + name + "\")"@,
        CommandView::HideKeyboard => "hideKeyboard"@,
    }
}

fn wrapped(head: &str, middle: &String, tail: &str) -> (r: String)
    ensures
        r@ == head@ + middle@ + tail@,
{
    let mut s = string_from(head);
    s.append(middle.as_str());
    s.append(tail);
    s
}

fn wrapped_selector(head: &str, s: &Selector) -> (r: String)
    ensures
        r@ == head@ + selector_debug(s@) + ")"@,
{
    let mut out = string_from(head);
    append_selector_debug(&mut out, s);
    out.append(")");
    out
}

/// Describes a command.
pub fn format_command(command: &Command) -> (r: String)
    ensures
        r@ == command_desc(command@),
{
    match command {
        Command::LaunchApp { app_id, clear_state } => {
            if *clear_state {
                string_from("launchApp(clearState: true)")
            } else {
                match app_id {
                    Some(id) => wrapped("launchApp(", id, ")"),
                    None => string_from("launchApp"),
                }
            }
        },
        Command::TapOn { selector } => wrapped_selector("tapOn(", selector),
        Command::InputText { text } => wrapped("inputText(\"", text, "\")"),
        Command::AssertVisible { selector, .. } => wrapped_selector("assertVisible(", selector),
        Command::AssertNotVisible { selector, .. } => wrapped_selector(
            "assertNotVisible(",
            selector,
        ),
        Command::ScrollUntilVisible { selector, .. } => wrapped_selector(
            "scrollUntilVisible(",
            selector,
        ),
        Command::Back => string_from("back"),
        Command::WaitForAnimationToEnd { .. } => string_from("waitForAnimationToEnd"),
        Command::Swipe { direction } => {
            let d = direction_debug_text(*direction);
            wrapped("swipe(", &d, ")")
        },
        Command::TakeScreenshot { name } => wrapped("takeScreenshot(\"", name, "\")"),
        Command::HideKeyboard => string_from("hideKeyboard"),
    }
}

// ----------------------------------------------------------------------------
// Polling
/// What a wait loop does after one poll.
#[derive(Debug, Clone, Copy, PartialEq, Eq, Structural)]
pub enum PollStep {
    /// The element is in the wanted state: the wait is over.
    Satisfied,
    /// The deadline has passed.
    TimedOut,
    /// Sleep this many milliseconds, then poll again.
    Wait(u64),
}

/// The sleep before the next poll: the poll interval, cut short at the
/// deadline.
pub open spec fn wait_ms(now: u64, deadline: u64) -> u64 {
    if deadline - now < POLL_INTERVAL_MS {
        (deadline - now) as u64
    } else {
        POLL_INTERVAL_MS
    }
}

/// How many times a wait sleeps at most. Only a clock that never reaches
/// the deadline lets a wait get this far; it then ends as timed out.
pub const POLL_ROUNDS: u64 = 0xffff_ffff_ffff_ffff;

/// The decision after a poll that saw `observed` (visible or not) at time
/// `now`, when the wait wants `want` and ends at `deadline`.
pub open spec fn poll_decision(observed: bool, want: bool, now: u64, deadline: u64) -> PollStep {
    if observed == want {
        PollStep::Satisfied
    } else if now >= deadline {
        PollStep::TimedOut
    } else {
        PollStep::Wait(wait_ms(now, deadline))
    }
}

/// Decides what a wait loop does after one poll.
pub fn poll_step(observed: bool, want: bool, now: u64, deadline: u64) -> (r: PollStep)
    ensures
        r == poll_decision(observed, want, now, deadline),
        r matches PollStep::Wait(ms) ==> 1 <= ms <= POLL_INTERVAL_MS && now + ms <= deadline,
{
    if observed == want {
        PollStep::Satisfied
    } else if now >= deadline {
        PollStep::TimedOut
    } else if deadline - now < POLL_INTERVAL_MS {
        PollStep::Wait(deadline - now)
    } else {
        PollStep::Wait(POLL_INTERVAL_MS)
    }
}

/// The message of a wait that timed out.
pub open spec fn timeout_reason(want: bool, timeout_ms: u64, s: SelectorView) -> Seq<char> {
    if want {
        "Element not visible after "@ + decimal(timeout_ms as nat) + "ms: "@ + selector_debug(s)
    } else {
        "Element still visible after "@ + decimal(timeout_ms as nat) + "ms: "@ + selector_debug(s)
    }
}

fn timeout_reason_text(want: bool, timeout_ms: u64, s: &Selector) -> (r: String)
    ensures
        r@ == timeout_reason(want, timeout_ms, s@),
{
    let mut out = if want {
        string_from("Element not visible after ")
    } else {
        string_from("Element still visible after ")
    };
    let digits = decimal_chars(timeout_ms);
    append_chars(&mut out, &digits);
    out.append("ms: ");
    append_selector_debug(&mut out, s);
    out
}

/// What a wait, a scroll or a command came to.
pub enum Outcome {
    /// It succeeded.
    Success,
    /// A driver call failed with this error, which is passed on as it is.
    DriverFailed(DriverError),
    /// A wait timed out, with this message.
    TimedOut(Seq<char>),
    /// A scroll gave up, with this message.
    NotFound(Seq<char>),
}

/// The result returned for an outcome.
pub open spec fn outcome_holds(o: Outcome, r: Result<(), DriverError>) -> bool {
    match o {
        Outcome::Success => r is Ok,
        Outcome::DriverFailed(e) => r == Err::<(), DriverError>(e),
        Outcome::TimedOut(m) => r matches Err(DriverError::Timeout { reason }) && reason@ == m,
        Outcome::NotFound(m) => r matches Err(DriverError::ElementNotFound { reason }) && reason@
            == m,
    }
}

/// The outcome of a driver call's result.
pub open spec fn of_result(r: Result<(), DriverError>) -> Outcome {
    match r {
        Ok(_) => Outcome::Success,
        Err(e) => Outcome::DriverFailed(e),
    }
}

/// An outcome and the number of calls it took, counted `k` calls later.
pub open spec fn shifted(p: Option<(Outcome, nat)>, k: nat) -> Option<(Outcome, nat)> {
    match p {
        Some((o, n)) => Some((o, n + k)),
        None => None,
    }
}

/// The polls of a wait, from the front of `calls`: each poll asks whether
/// the element is visible; a driver error ends the wait with that error,
/// and an answer of `want` ends it with success. Otherwise the clock is
/// read and `poll_decision` decides: time out, or sleep and poll again;
/// with no rounds `left` a wait that would sleep times out instead.
/// The outcome comes with the number of calls the polls took; `None` where
/// the calls do not follow these rules.
pub open spec fn poll_prefix(
    calls: Seq<CallView>,
    s: SelectorView,
    want: bool,
    timeout_ms: u64,
    deadline: u64,
    left: nat,
) -> Option<(Outcome, nat)>
    decreases calls.len(),
{
    if calls.len() == 0 {
        None
    } else {
        match calls[0] {
            CallView::IsVisible(sel, res) => if sel != s {
                None
            } else {
                match res {
                    Err(e) => Some((Outcome::DriverFailed(e), 1)),
                    Ok(v) => if v == want {
                        Some((Outcome::Success, 1))
                    } else if calls.len() < 2 {
                        None
                    } else {
                        match calls[1] {
                            CallView::Now(now) => match poll_decision(v, want, now, deadline) {
                                PollStep::TimedOut => Some(
                                    (Outcome::TimedOut(timeout_reason(want, timeout_ms, s)), 2),
                                ),
                                PollStep::Wait(ms) => if left == 0 {
                                    Some(
                                        (Outcome::TimedOut(timeout_reason(want, timeout_ms, s)), 2),
                                    )
                                } else if calls.len() >= 3 && calls[2] == CallView::Sleep(ms) {
                                    shifted(
                                        poll_prefix(
                                            calls.subrange(3, calls.len() as int),
                                            s,
                                            want,
                                            timeout_ms,
                                            deadline,
                                            (left - 1) as nat,
                                        ),
                                        3,
                                    )
                                } else {
                                    None
                                },
                                PollStep::Satisfied => None,
                            },
                            _ => None,
                        }
                    },
                }
            },
            _ => None,
        }
    }
}

/// The deadline of a wait that starts at `start`.
pub open spec fn wait_deadline(start: u64, timeout_ms: u64) -> u64 {
    if start + timeout_ms > u64::MAX {
        u64::MAX
    } else {
        (start + timeout_ms) as u64
    }
}

/// A wait, from the front of `calls`: the clock is read for the start, the
/// deadline is `timeout_ms` later (capped at the largest `u64`), and the
/// polls follow `poll_prefix`, with at most `POLL_ROUNDS` sleeps.
pub open spec fn wait_prefix(calls: Seq<CallView>, s: SelectorView, want: bool, timeout_ms: u64) -> Option<
    (Outcome, nat),
> {
    if calls.len() == 0 {
        None
    } else {
        match calls[0] {
            CallView::Now(start) => {
                let deadline = wait_deadline(start, timeout_ms);
                shifted(
                    poll_prefix(
                        calls.subrange(1, calls.len() as int),
                        s,
                        want,
                        timeout_ms,
                        deadline,
                        POLL_ROUNDS as nat,
                    ),
                    1,
                )
            },
            _ => None,
        }
    }
}

/// `calls` are exactly the calls of a wait, whatever follows them, and the
/// wait came to what `r` says.
pub open spec fn wait_made(
    calls: Seq<CallView>,
    s: SelectorView,
    want: bool,
    timeout_ms: u64,
    r: Result<(), DriverError>,
) -> bool {
    &&& wait_prefix(calls, s, want, timeout_ms) matches Some((o, n)) && n == calls.len()
        && outcome_holds(o, r)
    &&& forall|tail: Seq<CallView>| #[trigger]
        wait_prefix(calls + tail, s, want, timeout_ms) == wait_prefix(calls, s, want, timeout_ms)
}

/// A poll that did not see the wanted state, a clock reading before the
/// deadline and the sleep `poll_decision` asked for: the polls after it go
/// on with one round fewer left.
proof fn lemma_poll_round(
    round: Seq<CallView>,
    s: SelectorView,
    want: bool,
    timeout_ms: u64,
    deadline: u64,
    left: nat,
    ms: u64,
)
    requires
        left > 0,
        round.len() == 3,
        round[0] == CallView::IsVisible(s, Ok::<bool, DriverError>(!want)),
        round[1] matches CallView::Now(now) && poll_decision(!want, want, now, deadline)
            == PollStep::Wait(ms),
        round[2] == CallView::Sleep(ms),
    ensures
        forall|tail: Seq<CallView>| #[trigger]
            poll_prefix(round + tail, s, want, timeout_ms, deadline, left) == shifted(
                poll_prefix(tail, s, want, timeout_ms, deadline, (left - 1) as nat),
                3,
            ),
{
    assert forall|tail: Seq<CallView>| #[trigger]
        poll_prefix(round + tail, s, want, timeout_ms, deadline, left) == shifted(
            poll_prefix(tail, s, want, timeout_ms, deadline, (left - 1) as nat),
            3,
        ) by {
        let c = round + tail;
        assert(c[0] == round[0]);
        assert(c[1] == round[1]);
        assert(c[2] == round[2]);
        assert(c.subrange(3, c.len() as int) =~= tail);
    }
}

/// Every sleep among `calls` lasts from 1 to `POLL_INTERVAL_MS` milliseconds.
pub open spec fn sleeps_short(calls: Seq<CallView>) -> bool {
    forall|k: int|
        0 <= k < calls.len() ==> ((#[trigger] calls[k]) matches CallView::Sleep(ms) ==> 1 <= ms
            <= POLL_INTERVAL_MS)
}

/// Every sleep among `calls` comes right after a clock reading and ends no
/// later than `deadline` by that reading.
pub open spec fn sleeps_before(calls: Seq<CallView>, deadline: u64) -> bool {
    forall|k: int|
        0 <= k < calls.len() ==> ((#[trigger] calls[k]) matches CallView::Sleep(ms) ==> (k >= 1
            && reading_allows(calls[k - 1], ms, deadline)))
}

/// A clock reading after which a sleep of `ms` ends no later than
/// `deadline`.
pub open spec fn reading_allows(c: CallView, ms: u64, deadline: u64) -> bool {
    match c {
        CallView::Now(now) => now + ms <= deadline,
        _ => false,
    }
}

proof fn lemma_poll_sleeps(
    calls: Seq<CallView>,
    s: SelectorView,
    want: bool,
    timeout_ms: u64,
    deadline: u64,
    left: nat,
)
    requires
        poll_prefix(calls, s, want, timeout_ms, deadline, left) is Some,
    ensures
        ({
            let n = poll_prefix(calls, s, want, timeout_ms, deadline, left)->Some_0.1;
            let used = calls.subrange(0, n as int);
            &&& n <= calls.len()
            &&& sleeps_short(used)
            &&& sleeps_before(used, deadline)
        }),
    decreases calls.len(),
{
    let n = poll_prefix(calls, s, want, timeout_ms, deadline, left)->Some_0.1;
    let used = calls.subrange(0, n as int);
    if n <= 2 {
        assert forall|k: int| 0 <= k < used.len() implies !((#[trigger] used[k]) is Sleep) by {
            assert(used[k] == calls[k]);
        }
    } else {
        let rest = calls.subrange(3, calls.len() as int);
        lemma_poll_sleeps(rest, s, want, timeout_ms, deadline, (left - 1) as nat);
        let m = poll_prefix(rest, s, want, timeout_ms, deadline, (left - 1) as nat)->Some_0.1;
        assert(n == m + 3);
        let rused = rest.subrange(0, m as int);
        assert(calls[0] is IsVisible);
        assert(calls[1] is Now);
        assert(calls[2] is Sleep);
        assert forall|k: int| 0 <= k < used.len() implies ((#[trigger] used[k]) matches CallView::Sleep(x)
            ==> (1 <= x <= POLL_INTERVAL_MS && k >= 1 && reading_allows(used[k - 1], x, deadline))) by {
            assert(used[k] == calls[k]);
            if k >= 3 {
                assert(used[k] == rused[k - 3]);
                if k >= 4 {
                    assert(used[k - 1] == rused[k - 4]);
                }
            } else if k == 2 {
                assert(used[1] == calls[1]);
            }
        }
    }
}

/// A wait sleeps in steps of 1 to `POLL_INTERVAL_MS` milliseconds, each
/// right after a clock reading and ending no later than the deadline by it.
pub proof fn lemma_wait_sleeps_bounded(calls: Seq<CallView>, s: SelectorView, want: bool, timeout_ms: u64)
    requires
        wait_prefix(calls, s, want, timeout_ms) matches Some((o, n)) && n == calls.len(),
    ensures
        sleeps_short(calls),
        calls[0] matches CallView::Now(start) && sleeps_before(calls, wait_deadline(start, timeout_ms)),
{
    let start = match calls[0] {
        CallView::Now(t) => t,
        _ => 0,
    };
    let deadline = wait_deadline(start, timeout_ms);
    let rest = calls.subrange(1, calls.len() as int);
    lemma_poll_sleeps(rest, s, want, timeout_ms, deadline, POLL_ROUNDS as nat);
    assert(rest.subrange(0, rest.len() as int) =~= rest);
    assert forall|k: int| 0 <= k < calls.len() implies ((#[trigger] calls[k]) matches CallView::Sleep(x)
        ==> (1 <= x <= POLL_INTERVAL_MS && k >= 1 && reading_allows(calls[k - 1], x, deadline))) by {
        if k >= 1 {
            assert(calls[k] == rest[k - 1]);
            if k >= 2 {
                assert(calls[k - 1] == rest[k - 2]);
            }
        }
    }
}

/// Every poll among the first `n` calls asks about `s`, and every one of
/// them but the `n`-th call saw the element not in the wanted state.
pub open spec fn polls_missed(calls: Seq<CallView>, n: int, s: SelectorView, want: bool) -> bool {
    forall|k: int|
        0 <= k < n ==> ((#[trigger] calls[k]) matches CallView::IsVisible(sel, res) ==> sel == s
            && (k < n - 1 ==> res == Ok::<bool, DriverError>(!want)))
}

/// The first `n` calls are polls, clock readings and sleeps only.
pub open spec fn only_polling(calls: Seq<CallView>, n: int) -> bool {
    forall|k: int|
        0 <= k < n ==> (#[trigger] calls[k]) is IsVisible || calls[k] is Now || calls[k] is Sleep
}

/// Across every sleep among `calls` the clock moves on: the reading after
/// the next poll is later than the reading before the sleep.
pub open spec fn clock_moves_on(calls: Seq<CallView>) -> bool {
    forall|k: int|
        1 <= k && k + 2 < calls.len() && (#[trigger] calls[k]) is Sleep ==> later_reading(
            calls[k - 1],
            calls[k + 2],
        )
}

/// A clock reading of at least `t`.
pub open spec fn reading_at_least(c: CallView, t: int) -> bool {
    match c {
        CallView::Now(x) => x >= t,
        _ => false,
    }
}

/// Two clock readings, the second later than the first.
pub open spec fn later_reading(a: CallView, b: CallView) -> bool {
    match (a, b) {
        (CallView::Now(x), CallView::Now(y)) => x < y,
        _ => true,
    }
}

/// What the polls of a wait came to, read off their calls.
proof fn lemma_poll_outcome(
    calls: Seq<CallView>,
    s: SelectorView,
    want: bool,
    timeout_ms: u64,
    deadline: u64,
    left: nat,
    floor: int,
)
    requires
        poll_prefix(calls, s, want, timeout_ms, deadline, left) is Some,
    ensures
        ({
            let (o, n) = poll_prefix(calls, s, want, timeout_ms, deadline, left)->Some_0;
            &&& 1 <= n <= calls.len()
            &&& (n >= 2 ==> calls[1] is Now)
            &&& only_polling(calls, n as int)
            &&& polls_missed(calls, n as int, s, want)
            &&& (o is Success <==> calls[n - 1] == CallView::IsVisible(
                s,
                Ok::<bool, DriverError>(want),
            ))
            &&& (o matches Outcome::DriverFailed(e) ==> calls[n - 1] == CallView::IsVisible(
                s,
                Err::<bool, DriverError>(e),
            ))
            &&& (calls[n - 1] matches CallView::IsVisible(_, Err(e)) ==> o
                == Outcome::DriverFailed(e))
            &&& !(o is NotFound)
            &&& (o matches Outcome::TimedOut(m) ==> (m == timeout_reason(want, timeout_ms, s)
                && calls[n - 1] is Now && (reading_at_least(calls[n - 1], deadline as int) || n == 3
                * left + 2)))
            &&& ((o is TimedOut && clock_moves_on(calls.subrange(0, n as int)) && reading_at_least(
                calls[1],
                floor,
            ) && floor + left >= deadline) ==> reading_at_least(calls[n - 1], deadline as int))
        }),
    decreases calls.len(),
{
    let (o, n) = poll_prefix(calls, s, want, timeout_ms, deadline, left)->Some_0;
    if n > 2 {
        let rest = calls.subrange(3, calls.len() as int);
        lemma_poll_outcome(rest, s, want, timeout_ms, deadline, (left - 1) as nat, floor + 1);
        let m = poll_prefix(rest, s, want, timeout_ms, deadline, (left - 1) as nat)->Some_0.1;
        assert(n == m + 3);
        assert(calls[n - 1] == rest[m - 1]);
        assert(calls[0] == CallView::IsVisible(s, Ok::<bool, DriverError>(!want)));
        assert(calls[2] is Sleep);
        assert forall|k: int| 0 <= k < n implies ((#[trigger] calls[k]) matches CallView::IsVisible(
            sel,
            res,
        ) ==> sel == s && (k < n - 1 ==> res == Ok::<bool, DriverError>(!want))) by {
            if k >= 3 {
                assert(calls[k] == rest[k - 3]);
            }
        }
        assert forall|k: int| 0 <= k < n implies (#[trigger] calls[k]) is IsVisible || calls[k] is Now
            || calls[k] is Sleep by {
            if k >= 3 {
                assert(calls[k] == rest[k - 3]);
            }
        }
        let used = calls.subrange(0, n as int);
        let rused = rest.subrange(0, m as int);
        if o is TimedOut && clock_moves_on(used) && reading_at_least(calls[1], floor) && floor
            + left >= deadline {
            assert(used[2] == calls[2]);
            assert(used[1] == calls[1]);
            assert(used[4] == rest[1]);
            assert(later_reading(used[1], used[4]));
            assert forall|k: int|
                1 <= k && k + 2 < rused.len() && (#[trigger] rused[k]) is Sleep implies later_reading(
                rused[k - 1],
                rused[k + 2],
            ) by {
                assert(rused[k] == used[k + 3]);
                assert(rused[k - 1] == used[k + 2]);
                assert(rused[k + 2] == used[k + 5]);
            }
        }
    }
}

/// What a wait came to, read off its calls. Every poll asks about the
/// selector, and every poll but the last call saw the element not in the
/// wanted state. The wait succeeds exactly when its last call is a poll
/// that saw the wanted state, fails with a driver error exactly when its
/// last call is a poll that failed with it, and times out, with the
/// message `timeout_reason`, only on a clock reading at or past the
/// deadline or after `POLL_ROUNDS` sleeps. Where the clock moves on across
/// each sleep, a timeout comes only on a reading at or past the deadline.
pub proof fn lemma_wait_outcome(calls: Seq<CallView>, s: SelectorView, want: bool, timeout_ms: u64)
    requires
        wait_prefix(calls, s, want, timeout_ms) is Some,
    ensures
        ({
            let (o, n) = wait_prefix(calls, s, want, timeout_ms)->Some_0;
            let deadline = wait_deadline(calls[0]->Now_0, timeout_ms);
            &&& 2 <= n <= calls.len()
            &&& calls[0] is Now
            &&& only_polling(calls, n as int)
            &&& polls_missed(calls.subrange(1, n as int), n - 1, s, want)
            &&& (o is Success <==> calls[n - 1] == CallView::IsVisible(
                s,
                Ok::<bool, DriverError>(want),
            ))
            &&& (o matches Outcome::DriverFailed(e) ==> calls[n - 1] == CallView::IsVisible(
                s,
                Err::<bool, DriverError>(e),
            ))
            &&& (calls[n - 1] matches CallView::IsVisible(_, Err(e)) ==> o
                == Outcome::DriverFailed(e))
            &&& !(o is NotFound)
            &&& (o matches Outcome::TimedOut(m) ==> (m == timeout_reason(want, timeout_ms, s)
                && calls[n - 1] is Now && (reading_at_least(calls[n - 1], deadline as int) || n == 3
                * POLL_ROUNDS + 3)))
            &&& ((o is TimedOut && clock_moves_on(calls.subrange(0, n as int))) ==> reading_at_least(
                calls[n - 1],
                deadline as int,
            ))
        }),
{
    let (o, n) = wait_prefix(calls, s, want, timeout_ms)->Some_0;
    let start = calls[0]->Now_0;
    let deadline = wait_deadline(start, timeout_ms);
    let rest = calls.subrange(1, calls.len() as int);
    lemma_poll_outcome(rest, s, want, timeout_ms, deadline, POLL_ROUNDS as nat, 0);
    let m = poll_prefix(rest, s, want, timeout_ms, deadline, POLL_ROUNDS as nat)->Some_0.1;
    assert(n == m + 1);
    assert(calls[n - 1] == rest[m - 1]);
    let polls = calls.subrange(1, n as int);
    assert forall|k: int| 0 <= k < m implies #[trigger] polls[k] == rest[k] by {}
    assert forall|k: int| 0 <= k < n implies (#[trigger] calls[k]) is IsVisible || calls[k] is Now
        || calls[k] is Sleep by {
        if k >= 1 {
            assert(calls[k] == rest[k - 1]);
        }
    }
    assert forall|k: int| 0 <= k < m implies ((#[trigger] polls[k]) matches CallView::IsVisible(
        sel,
        res,
    ) ==> sel == s && (k < m - 1 ==> res == Ok::<bool, DriverError>(!want))) by {
        assert(polls[k] == rest[k]);
    }
    let used = calls.subrange(0, n as int);
    let rused = rest.subrange(0, m as int);
    if o is TimedOut && clock_moves_on(used) {
        assert(rest[1] is Now);
        assert forall|k: int|
            1 <= k && k + 2 < rused.len() && (#[trigger] rused[k]) is Sleep implies later_reading(
            rused[k - 1],
            rused[k + 2],
        ) by {
            assert(rused[k] == used[k + 1]);
            assert(rused[k - 1] == used[k]);
            assert(rused[k + 2] == used[k + 3]);
        }
    }
}

/// Polls until the element is visible (`want_visible`) or gone, until the
/// driver's clock reaches `timeout_ms` after the start: the calls it makes
/// and what it returns are those of `wait_prefix`. Each poll is decided by
/// `poll_step`; a timeout is reported as `DriverError::Timeout` with the
/// message `timeout_reason`, and a driver error ends the wait as it is.
#[verifier::spinoff_prover]
pub fn wait_until_state<D: Driver>(
    rec: &mut Recorder<D>,
    selector: &Selector,
    timeout_ms: u64,
    want_visible: bool,
) -> (r: Result<(), DriverError>)
    ensures
        final(rec).extends(old(rec).calls()),
        wait_made(final(rec).calls_since(old(rec).calls()), selector@, want_visible, timeout_ms, r),
{
    let ghost base = rec.calls();
    let start = rec.now_ms();
    let deadline = start.saturating_add(timeout_ms);
    let ghost s = selector@;
    let mut left: u64 = POLL_ROUNDS;
    let ghost mut done: Seq<CallView> = Seq::empty();
    assert forall|tail: Seq<CallView>| #[trigger]
        poll_prefix(done + tail, s, want_visible, timeout_ms, deadline, POLL_ROUNDS as nat) == shifted(
            poll_prefix(tail, s, want_visible, timeout_ms, deadline, left as nat),
            done.len(),
        ) by {
        assert(done + tail =~= tail);
    }
    assert(rec.calls() =~= base.push(CallView::Now(start)) + done);
    loop
        invariant
            base == old(rec).calls(),
            s == selector@,
            deadline == wait_deadline(start, timeout_ms),
            rec.calls() == base.push(CallView::Now(start)) + done,
            forall|tail: Seq<CallView>| #[trigger]
                poll_prefix(done + tail, s, want_visible, timeout_ms, deadline, POLL_ROUNDS as nat)
                    == shifted(
                    poll_prefix(tail, s, want_visible, timeout_ms, deadline, left as nat),
                    done.len(),
                ),
        decreases left,
    {
        let seen = rec.is_visible(selector.copy());
        let visible = match seen {
            Ok(v) => v,
            Err(e) => {
                proof {
                    let fin = seq![CallView::IsVisible(s, Err::<bool, DriverError>(e))];
                    lemma_poll_stops(fin, s, want_visible, timeout_ms, deadline, left as nat);
                    assert(rec.calls() =~= base.push(CallView::Now(start)) + done + fin);
                    lemma_wait_ends(base, start, done, fin, rec.calls(), s, want_visible, timeout_ms, deadline, left as nat, Outcome::DriverFailed(e));
                }
                return Err(e);
            },
        };
        if visible == want_visible {
            proof {
                let fin = seq![CallView::IsVisible(s, Ok::<bool, DriverError>(visible))];
                lemma_poll_stops(fin, s, want_visible, timeout_ms, deadline, left as nat);
                assert(rec.calls() =~= base.push(CallView::Now(start)) + done + fin);
                lemma_wait_ends(base, start, done, fin, rec.calls(), s, want_visible, timeout_ms, deadline, left as nat, Outcome::Success);
            }
            return Ok(());
        }
        let now = rec.now_ms();
        let step = poll_step(visible, want_visible, now, deadline);
        let ms = match step {
            PollStep::Satisfied => {
                return Ok(());
            },
            PollStep::Wait(ms) => if left == 0 {
                None
            } else {
                Some(ms)
            },
            PollStep::TimedOut => None,
        };
        match ms {
            None => {
                let reason = timeout_reason_text(want_visible, timeout_ms, selector);
                proof {
                    let fin = seq![
                        CallView::IsVisible(s, Ok::<bool, DriverError>(visible)),
                        CallView::Now(now),
                    ];
                    lemma_poll_stops(fin, s, want_visible, timeout_ms, deadline, left as nat);
                    assert(rec.calls() =~= base.push(CallView::Now(start)) + done + fin);
                    lemma_wait_ends(base, start, done, fin, rec.calls(), s, want_visible, timeout_ms, deadline, left as nat, Outcome::TimedOut(reason@));
                }
                return Err(DriverError::Timeout { reason });
            },
            Some(ms) => {
                rec.sleep_ms(ms);
                proof {
                    let round = seq![
                        CallView::IsVisible(s, Ok::<bool, DriverError>(visible)),
                        CallView::Now(now),
                        CallView::Sleep(ms),
                    ];
                    lemma_poll_round(round, s, want_visible, timeout_ms, deadline, left as nat, ms);
                    lemma_poll_advance(done, round, s, want_visible, timeout_ms, deadline, left as nat);
                    assert(rec.calls() =~= base.push(CallView::Now(start)) + (done + round));
                    done = done + round;
                }
                left = left - 1;
            },
        }
    }
}

/// The polls of a wait after one more round.
proof fn lemma_poll_advance(
    done: Seq<CallView>,
    round: Seq<CallView>,
    s: SelectorView,
    want: bool,
    timeout_ms: u64,
    deadline: u64,
    left: nat,
)
    requires
        round.len() == 3,
        left > 0,
        forall|tail: Seq<CallView>| #[trigger]
            poll_prefix(done + tail, s, want, timeout_ms, deadline, POLL_ROUNDS as nat) == shifted(
                poll_prefix(tail, s, want, timeout_ms, deadline, left),
                done.len(),
            ),
        forall|tail: Seq<CallView>| #[trigger]
            poll_prefix(round + tail, s, want, timeout_ms, deadline, left) == shifted(
                poll_prefix(tail, s, want, timeout_ms, deadline, (left - 1) as nat),
                3,
            ),
    ensures
        forall|tail: Seq<CallView>| #[trigger]
            poll_prefix((done + round) + tail, s, want, timeout_ms, deadline, POLL_ROUNDS as nat)
                == shifted(
                poll_prefix(tail, s, want, timeout_ms, deadline, (left - 1) as nat),
                (done + round).len(),
            ),
{
    assert forall|tail: Seq<CallView>| #[trigger]
        poll_prefix((done + round) + tail, s, want, timeout_ms, deadline, POLL_ROUNDS as nat)
            == shifted(
            poll_prefix(tail, s, want, timeout_ms, deadline, (left - 1) as nat),
            (done + round).len(),
        ) by {
        assert((done + round) + tail =~= done + (round + tail));
        assert(poll_prefix(done + (round + tail), s, want, timeout_ms, deadline, POLL_ROUNDS as nat)
            == shifted(poll_prefix(round + tail, s, want, timeout_ms, deadline, left), done.len()));
    }
}

/// A poll that ends the wait takes no more calls, whatever follows it.
proof fn lemma_poll_stops(
    fin: Seq<CallView>,
    s: SelectorView,
    want: bool,
    timeout_ms: u64,
    deadline: u64,
    left: nat,
)
    requires
        poll_prefix(fin, s, want, timeout_ms, deadline, left) matches Some((o, n)) && n
            == fin.len(),
        1 <= fin.len() <= 2,
    ensures
        forall|tail: Seq<CallView>| #[trigger]
            poll_prefix(fin + tail, s, want, timeout_ms, deadline, left) == poll_prefix(
                fin,
                s,
                want,
                timeout_ms,
                deadline,
                left,
            ),
{
    assert forall|tail: Seq<CallView>| #[trigger]
        poll_prefix(fin + tail, s, want, timeout_ms, deadline, left) == poll_prefix(
            fin,
            s,
            want,
            timeout_ms,
            deadline,
            left,
        ) by {
        let c = fin + tail;
        assert(c[0] == fin[0]);
        if fin.len() == 2 {
            assert(c[1] == fin[1]);
        }
    }
}

/// The last poll of a wait ends it: the calls since the wait began are the
/// start, the rounds so far and that poll, and they are a whole wait.
proof fn lemma_wait_ends(
    base: Seq<CallView>,
    start: u64,
    done: Seq<CallView>,
    fin: Seq<CallView>,
    all: Seq<CallView>,
    s: SelectorView,
    want: bool,
    timeout_ms: u64,
    deadline: u64,
    left: nat,
    o: Outcome,
)
    requires
        all == base.push(CallView::Now(start)) + done + fin,
        deadline == wait_deadline(start, timeout_ms),
        forall|tail: Seq<CallView>| #[trigger]
            poll_prefix(done + tail, s, want, timeout_ms, deadline, POLL_ROUNDS as nat) == shifted(
                poll_prefix(tail, s, want, timeout_ms, deadline, left),
                done.len(),
            ),
        forall|tail: Seq<CallView>| #[trigger]
            poll_prefix(fin + tail, s, want, timeout_ms, deadline, left) == Some((o, fin.len())),
    ensures
        ({
            let since = all.subrange(base.len() as int, all.len() as int);
            &&& base.len() <= all.len()
            &&& all.subrange(0, base.len() as int) == base
            &&& wait_prefix(since, s, want, timeout_ms) == Some((o, since.len()))
            &&& forall|tail: Seq<CallView>| #[trigger]
                wait_prefix(since + tail, s, want, timeout_ms) == wait_prefix(
                    since,
                    s,
                    want,
                    timeout_ms,
                )
        }),
{
    let since = all.subrange(base.len() as int, all.len() as int);
    assert(all.subrange(0, base.len() as int) =~= base);
    assert(since =~= seq![CallView::Now(start)] + (done + fin));
    assert forall|tail: Seq<CallView>| #[trigger]
        wait_prefix(since + tail, s, want, timeout_ms) == Some((o, since.len())) by {
        let c = since + tail;
        assert(c[0] == CallView::Now(start));
        assert(c.subrange(1, c.len() as int) =~= done + (fin + tail));
        assert(poll_prefix(done + (fin + tail), s, want, timeout_ms, deadline, POLL_ROUNDS as nat)
            == shifted(poll_prefix(fin + tail, s, want, timeout_ms, deadline, left), done.len()));
    }
    assert(since + Seq::<CallView>::empty() =~= since);
    assert(wait_prefix(since + Seq::<CallView>::empty(), s, want, timeout_ms) == Some((o, since.len())));
}

/// Polls until the element is visible, for at most `timeout_ms`.
pub fn wait_until_visible<D: Driver>(rec: &mut Recorder<D>, selector: &Selector, timeout_ms: u64) -> (r: Result<
    (),
    DriverError,
>)
    ensures
        final(rec).extends(old(rec).calls()),
        wait_made(final(rec).calls_since(old(rec).calls()), selector@, true, timeout_ms, r),
{
    wait_until_state(rec, selector, timeout_ms, true)
}

/// Polls until the element is gone, for at most `timeout_ms`.
pub fn wait_until_not_visible<D: Driver>(
    rec: &mut Recorder<D>,
    selector: &Selector,
    timeout_ms: u64,
) -> (r: Result<(), DriverError>)
    ensures
        final(rec).extends(old(rec).calls()),
        wait_made(final(rec).calls_since(old(rec).calls()), selector@, false, timeout_ms, r),
{
    wait_until_state(rec, selector, timeout_ms, false)
}

// ----------------------------------------------------------------------------
// Scrolling
/// What a scroll does after the check numbered `i` (from 0) out of `max`.
#[derive(Debug, Clone, Copy, PartialEq, Eq, Structural)]
pub enum ScrollStep {
    /// The element is visible: the scroll is over.
    Found,
    /// Swipe down, then check again.
    Swipe,
    /// That was the last check.
    GiveUp,
}

pub open spec fn scroll_decision(visible: bool, i: nat, max: nat) -> ScrollStep {
    if visible {
        ScrollStep::Found
    } else if i + 1 < max {
        ScrollStep::Swipe
    } else {
        ScrollStep::GiveUp
    }
}

/// Decides what a scroll does after a check.
pub fn scroll_step(visible: bool, i: u32, max: u32) -> (r: ScrollStep)
    requires
        i < max,
    ensures
        r == scroll_decision(visible, i as nat, max as nat),
{
    if visible {
        ScrollStep::Found
    } else if i < max - 1 {
        ScrollStep::Swipe
    } else {
        ScrollStep::GiveUp
    }
}

/// The message of a scroll that gave up.
pub open spec fn not_found_reason(max_swipes: u32, s: SelectorView) -> Seq<char> {
    "Element not found after "@ + decimal(max_swipes as nat) + " swipes: "@ + selector_debug(s)
}

fn not_found_reason_text(max_swipes: u32, s: &Selector) -> (r: String)
    ensures
        r@ == not_found_reason(max_swipes, s@),
{
    let mut out = string_from("Element not found after ");
    let digits = decimal_chars(max_swipes as u64);
    append_chars(&mut out, &digits);
    out.append(" swipes: ");
    append_selector_debug(&mut out, s);
    out
}

/// A scroll, from the front of `calls`, at check `i` of at most `max`: each
/// check asks whether the element is visible; a driver error ends the
/// scroll with that error and a visible element with success. Otherwise
/// `scroll_decision` decides: swipe down and pause `POLL_INTERVAL_MS`, then
/// check again, or give up after the last check. No check is left: give up.
pub open spec fn scroll_prefix(calls: Seq<CallView>, s: SelectorView, max: u32, i: nat) -> Option<
    (Outcome, nat),
>
    decreases calls.len(),
{
    if i >= max {
        Some((Outcome::NotFound(not_found_reason(max, s)), 0))
    } else if calls.len() == 0 {
        None
    } else {
        match calls[0] {
            CallView::IsVisible(sel, res) => if sel != s {
                None
            } else {
                match res {
                    Err(e) => Some((Outcome::DriverFailed(e), 1)),
                    Ok(v) => if v {
                        Some((Outcome::Success, 1))
                    } else if i + 1 >= max {
                        Some((Outcome::NotFound(not_found_reason(max, s)), 1))
                    } else if calls.len() < 2 {
                        None
                    } else {
                        match calls[1] {
                            CallView::Swipe(d, sres) => if d != Direction::Down {
                                None
                            } else {
                                match sres {
                                    Err(e) => Some((Outcome::DriverFailed(e), 2)),
                                    Ok(_) => if calls.len() >= 3 && calls[2] == CallView::Sleep(
                                        POLL_INTERVAL_MS,
                                    ) {
                                        shifted(
                                            scroll_prefix(
                                                calls.subrange(3, calls.len() as int),
                                                s,
                                                max,
                                                i + 1,
                                            ),
                                            3,
                                        )
                                    } else {
                                        None
                                    },
                                }
                            },
                            _ => None,
                        }
                    },
                }
            },
            _ => None,
        }
    }
}

/// `calls` are exactly the calls of a scroll, whatever follows them, and
/// the scroll came to what `r` says.
pub open spec fn scroll_made(
    calls: Seq<CallView>,
    s: SelectorView,
    max: u32,
    r: Result<(), DriverError>,
) -> bool {
    &&& scroll_prefix(calls, s, max, 0) matches Some((o, n)) && n == calls.len() && outcome_holds(
        o,
        r,
    )
    &&& forall|tail: Seq<CallView>| #[trigger]
        scroll_prefix(calls + tail, s, max, 0) == scroll_prefix(calls, s, max, 0)
}

/// A check that did not find the element, with the swipe and pause that
/// follow it (or, after the last check, nothing): the scroll goes on at the
/// next check.
proof fn lemma_scroll_round(round: Seq<CallView>, s: SelectorView, max: u32, i: nat)
    requires
        i < max,
        round.len() >= 1,
        round[0] == CallView::IsVisible(s, Ok::<bool, DriverError>(false)),
        i + 1 < max ==> round.len() == 3 && (round[1] matches CallView::Swipe(d, sres) && d
            == Direction::Down && sres is Ok) && round[2] == CallView::Sleep(POLL_INTERVAL_MS),
        i + 1 >= max ==> round.len() == 1,
    ensures
        forall|tail: Seq<CallView>| #[trigger]
            scroll_prefix(round + tail, s, max, i) == shifted(
                scroll_prefix(tail, s, max, i + 1),
                round.len(),
            ),
{
    assert forall|tail: Seq<CallView>| #[trigger]
        scroll_prefix(round + tail, s, max, i) == shifted(
            scroll_prefix(tail, s, max, i + 1),
            round.len(),
        ) by {
        let c = round + tail;
        assert(c[0] == round[0]);
        if i + 1 < max {
            assert(c[1] == round[1]);
            assert(c[2] == round[2]);
            assert(c.subrange(3, c.len() as int) =~= tail);
        }
    }
}

/// The scroll after one more round.
proof fn lemma_scroll_advance(done: Seq<CallView>, round: Seq<CallView>, s: SelectorView, max: u32, i: nat)
    requires
        forall|tail: Seq<CallView>| #[trigger]
            scroll_prefix(done + tail, s, max, 0) == shifted(scroll_prefix(tail, s, max, i), done.len()),
        forall|tail: Seq<CallView>| #[trigger]
            scroll_prefix(round + tail, s, max, i) == shifted(
                scroll_prefix(tail, s, max, i + 1),
                round.len(),
            ),
    ensures
        forall|tail: Seq<CallView>| #[trigger]
            scroll_prefix((done + round) + tail, s, max, 0) == shifted(
                scroll_prefix(tail, s, max, i + 1),
                (done + round).len(),
            ),
{
    assert forall|tail: Seq<CallView>| #[trigger]
        scroll_prefix((done + round) + tail, s, max, 0) == shifted(
            scroll_prefix(tail, s, max, i + 1),
            (done + round).len(),
        ) by {
        assert((done + round) + tail =~= done + (round + tail));
        assert(scroll_prefix(done + (round + tail), s, max, 0) == shifted(
            scroll_prefix(round + tail, s, max, i),
            done.len(),
        ));
    }
}

/// A check that ends the scroll takes no more calls, whatever follows it.
proof fn lemma_scroll_stops(fin: Seq<CallView>, s: SelectorView, max: u32, i: nat)
    requires
        scroll_prefix(fin, s, max, i) matches Some((o, n)) && n == fin.len(),
        fin.len() <= 2,
    ensures
        forall|tail: Seq<CallView>| #[trigger]
            scroll_prefix(fin + tail, s, max, i) == scroll_prefix(fin, s, max, i),
{
    assert forall|tail: Seq<CallView>| #[trigger]
        scroll_prefix(fin + tail, s, max, i) == scroll_prefix(fin, s, max, i) by {
        let c = fin + tail;
        if fin.len() >= 1 {
            assert(c[0] == fin[0]);
        }
        if fin.len() == 2 {
            assert(c[1] == fin[1]);
        }
    }
}

/// The rounds of a scroll so far and its last check make a whole scroll.
proof fn lemma_scroll_ends(
    base: Seq<CallView>,
    done: Seq<CallView>,
    fin: Seq<CallView>,
    all: Seq<CallView>,
    s: SelectorView,
    max: u32,
    i: nat,
    o: Outcome,
)
    requires
        all == base + done + fin,
        forall|tail: Seq<CallView>| #[trigger]
            scroll_prefix(done + tail, s, max, 0) == shifted(
                scroll_prefix(tail, s, max, i),
                done.len(),
            ),
        forall|tail: Seq<CallView>| #[trigger]
            scroll_prefix(fin + tail, s, max, i) == Some((o, fin.len())),
    ensures
        ({
            let since = all.subrange(base.len() as int, all.len() as int);
            &&& base.len() <= all.len()
            &&& all.subrange(0, base.len() as int) == base
            &&& scroll_prefix(since, s, max, 0) == Some((o, since.len()))
            &&& forall|tail: Seq<CallView>| #[trigger]
                scroll_prefix(since + tail, s, max, 0) == scroll_prefix(since, s, max, 0)
        }),
{
    let since = all.subrange(base.len() as int, all.len() as int);
    assert(all.subrange(0, base.len() as int) =~= base);
    assert(since =~= done + fin);
    assert forall|tail: Seq<CallView>| #[trigger]
        scroll_prefix(since + tail, s, max, 0) == Some((o, since.len())) by {
        assert(since + tail =~= done + (fin + tail));
        assert(scroll_prefix(done + (fin + tail), s, max, 0) == shifted(
            scroll_prefix(fin + tail, s, max, i),
            done.len(),
        ));
    }
    assert(since + Seq::<CallView>::empty() =~= since);
    assert(scroll_prefix(since + Seq::<CallView>::empty(), s, max, 0) == Some((o, since.len())));
}

/// The number of swipes among `calls`.
pub open spec fn swipe_total(calls: Seq<CallView>) -> nat
    decreases calls.len(),
{
    if calls.len() == 0 {
        0
    } else {
        (if calls[0] is Swipe {
            1nat
        } else {
            0nat
        }) + swipe_total(calls.subrange(1, calls.len() as int))
    }
}

proof fn lemma_scroll_swipes(calls: Seq<CallView>, s: SelectorView, max: u32, i: nat)
    requires
        scroll_prefix(calls, s, max, i) is Some,
    ensures
        ({
            let n = scroll_prefix(calls, s, max, i)->Some_0.1;
            let used = calls.subrange(0, n as int);
            &&& n <= calls.len()
            &&& i >= max ==> n == 0
            &&& i < max ==> swipe_total(used) <= max - 1 - i
        }),
    decreases calls.len(),
{
    let n = scroll_prefix(calls, s, max, i)->Some_0.1;
    let used = calls.subrange(0, n as int);
    if i >= max {
    } else if n == 1 {
        let u1 = used.subrange(1, used.len() as int);
        assert(used[0] == calls[0]);
        assert(calls[0] is IsVisible);
        assert(u1 =~= Seq::<CallView>::empty());
        assert(swipe_total(u1) == 0);
        assert(swipe_total(used) == 0);
    } else if n == 2 {
        let u1 = used.subrange(1, used.len() as int);
        assert(used[0] == calls[0]);
        assert(u1[0] == calls[1]);
        assert(calls[0] is IsVisible);
        assert(u1.subrange(1, u1.len() as int) =~= Seq::<CallView>::empty());
        assert(i + 1 < max);
        assert(swipe_total(u1.subrange(1, u1.len() as int)) == 0);
        assert(swipe_total(u1) <= 1);
        assert(swipe_total(used) <= 1);
    } else {
        let rest = calls.subrange(3, calls.len() as int);
        lemma_scroll_swipes(rest, s, max, i + 1);
        let m = scroll_prefix(rest, s, max, i + 1)->Some_0.1;
        let rused = rest.subrange(0, m as int);
        let u1 = used.subrange(1, used.len() as int);
        let u2 = u1.subrange(1, u1.len() as int);
        assert(calls[0] is IsVisible);
        assert(calls[1] is Swipe);
        assert(calls[2] is Sleep);
        assert(used[0] == calls[0]);
        assert(u1[0] == calls[1]);
        assert(u2[0] == calls[2]);
        assert(u2.subrange(1, u2.len() as int) =~= rused);
        assert(swipe_total(u2) == swipe_total(rused));
        assert(swipe_total(u1) == 1 + swipe_total(u2));
        assert(swipe_total(used) == swipe_total(u1));
    }
}

/// A scroll of at most `max` checks swipes at most `max - 1` times, as there
/// is no swipe after the last check; with no check allowed it makes no
/// driver call at all.
pub proof fn lemma_scroll_swipes_bounded(calls: Seq<CallView>, s: SelectorView, max: u32)
    requires
        scroll_prefix(calls, s, max, 0) matches Some((o, n)) && n == calls.len(),
    ensures
        max == 0 ==> calls.len() == 0,
        max > 0 ==> swipe_total(calls) <= max - 1,
{
    lemma_scroll_swipes(calls, s, max, 0);
    assert(calls.subrange(0, calls.len() as int) =~= calls);
}

/// Checks for the element and swipes down between checks, for at most
/// `max_swipes` checks: the calls it makes and what it returns are those of
/// `scroll_prefix`. Each check is decided by `scroll_step`; giving up is
/// reported as `DriverError::ElementNotFound` with `not_found_reason`, and a
/// driver error ends the scroll as it is.
#[verifier::spinoff_prover]
pub fn scroll_until_visible<D: Driver>(rec: &mut Recorder<D>, selector: &Selector, max_swipes: u32) -> (r:
    Result<(), DriverError>)
    ensures
        final(rec).extends(old(rec).calls()),
        scroll_made(final(rec).calls_since(old(rec).calls()), selector@, max_swipes, r),
{
    let ghost base = rec.calls();
    let ghost s = selector@;
    let ghost mut done: Seq<CallView> = Seq::empty();
    let mut i: u32 = 0;
    assert forall|tail: Seq<CallView>| #[trigger]
        scroll_prefix(done + tail, s, max_swipes, 0) == shifted(
            scroll_prefix(tail, s, max_swipes, i as nat),
            done.len(),
        ) by {
        assert(done + tail =~= tail);
    }
    assert(rec.calls() =~= base + done);
    while i < max_swipes
        invariant
            i <= max_swipes,
            base == old(rec).calls(),
            s == selector@,
            rec.calls() == base + done,
            forall|tail: Seq<CallView>| #[trigger]
                scroll_prefix(done + tail, s, max_swipes, 0) == shifted(
                    scroll_prefix(tail, s, max_swipes, i as nat),
                    done.len(),
                ),
        decreases max_swipes - i,
    {
        let seen = rec.is_visible(selector.copy());
        let visible = match seen {
            Ok(v) => v,
            Err(e) => {
                proof {
                    let fin = seq![CallView::IsVisible(s, Err::<bool, DriverError>(e))];
                    lemma_scroll_stops(fin, s, max_swipes, i as nat);
                    assert(rec.calls() =~= base + done + fin);
                    lemma_scroll_ends(base, done, fin, rec.calls(), s, max_swipes, i as nat, Outcome::DriverFailed(e));
                }
                return Err(e);
            },
        };
        if visible {
            proof {
                let fin = seq![CallView::IsVisible(s, Ok::<bool, DriverError>(true))];
                lemma_scroll_stops(fin, s, max_swipes, i as nat);
                assert(rec.calls() =~= base + done + fin);
                lemma_scroll_ends(base, done, fin, rec.calls(), s, max_swipes, i as nat, Outcome::Success);
            }
            return Ok(());
        }
        let ghost seen_false = CallView::IsVisible(s, Ok::<bool, DriverError>(false));
        match scroll_step(visible, i, max_swipes) {
            ScrollStep::Found => {
                return Ok(());
            },
            ScrollStep::Swipe => {
                let swiped = rec.swipe(Direction::Down);
                if let Err(e) = swiped {
                    proof {
                        let fin = seq![seen_false, CallView::Swipe(Direction::Down, Err::<(), DriverError>(e))];
                        lemma_scroll_stops(fin, s, max_swipes, i as nat);
                        assert(rec.calls() =~= base + done + fin);
                        lemma_scroll_ends(base, done, fin, rec.calls(), s, max_swipes, i as nat, Outcome::DriverFailed(e));
                    }
                    return Err(e);
                }
                rec.sleep_ms(POLL_INTERVAL_MS);
                proof {
                    let round = seq![
                        seen_false,
                        CallView::Swipe(Direction::Down, swiped),
                        CallView::Sleep(POLL_INTERVAL_MS),
                    ];
                    lemma_scroll_round(round, s, max_swipes, i as nat);
                    lemma_scroll_advance(done, round, s, max_swipes, i as nat);
                    assert(rec.calls() =~= base + (done + round));
                    done = done + round;
                }
            },
            ScrollStep::GiveUp => {
                proof {
                    let round = seq![seen_false];
                    lemma_scroll_round(round, s, max_swipes, i as nat);
                    lemma_scroll_advance(done, round, s, max_swipes, i as nat);
                    assert(rec.calls() =~= base + (done + round));
                    done = done + round;
                }
            },
        }
        i += 1;
    }
    let reason = not_found_reason_text(max_swipes, selector);
    proof {
        let fin = Seq::<CallView>::empty();
        assert forall|tail: Seq<CallView>| #[trigger]
            scroll_prefix(fin + tail, s, max_swipes, i as nat) == Some((Outcome::NotFound(reason@), fin.len())) by {
        }
        assert(rec.calls() =~= base + done + fin);
        lemma_scroll_ends(base, done, fin, rec.calls(), s, max_swipes, i as nat, Outcome::NotFound(reason@));
    }
    Err(DriverError::ElementNotFound { reason })
}

// ----------------------------------------------------------------------------
// Running flows
/// The app a launch starts: its own app id, or the flow's.
pub open spec fn launch_target(app_id: Option<Seq<char>>, default_app_id: Seq<char>) -> Seq<char> {
    match app_id {
        Some(a) => a,
        None => default_app_id,
    }
}

/// A command, from the front of `calls`: what it asks of the driver and
/// what that came to. A launch without its own app id launches the flow's
/// app; a tap first waits up to `TAP_TIMEOUT_MS` for its element and taps
/// only once it is there; the visibility assertions are waits and
/// `scrollUntilVisible` is a scroll; every other command is one driver call
/// whose result is the command's.
pub open spec fn command_prefix(calls: Seq<CallView>, c: CommandView, default_app_id: Seq<char>) -> Option<
    (Outcome, nat),
> {
    match c {
        CommandView::TapOn { selector } => match wait_prefix(calls, selector, true, TAP_TIMEOUT_MS) {
            Some((Outcome::Success, n)) => if calls.len() > n {
                match calls[n as int] {
                    CallView::Tap(sel, res) => if sel == selector {
                        Some((of_result(res), n + 1))
                    } else {
                        None
                    },
                    _ => None,
                }
            } else {
                None
            },
            other => other,
        },
        CommandView::AssertVisible { selector, timeout_ms } => wait_prefix(
            calls,
            selector,
            true,
            timeout_ms,
        ),
        CommandView::AssertNotVisible { selector, timeout_ms } => wait_prefix(
            calls,
            selector,
            false,
            timeout_ms,
        ),
        CommandView::ScrollUntilVisible { selector, max_swipes } => scroll_prefix(
            calls,
            selector,
            max_swipes,
            0,
        ),
        _ => if calls.len() == 0 {
            None
        } else {
            match (c, calls[0]) {
                (
                    CommandView::LaunchApp { app_id, clear_state },
                    CallView::LaunchApp(a, cs, res),
                ) => if a == launch_target(app_id, default_app_id) && cs == clear_state {
                    Some((of_result(res), 1))
                } else {
                    None
                },
                (CommandView::InputText { text }, CallView::InputText(t, res)) => if t == text {
                    Some((of_result(res), 1))
                } else {
                    None
                },
                (CommandView::Back, CallView::Back(res)) => Some((of_result(res), 1)),
                (
                    CommandView::WaitForAnimationToEnd { timeout_ms },
                    CallView::WaitForIdle(t, res),
                ) => if t == timeout_ms {
                    Some((of_result(res), 1))
                } else {
                    None
                },
                (CommandView::Swipe { direction }, CallView::Swipe(d, res)) => if d == direction {
                    Some((of_result(res), 1))
                } else {
                    None
                },
                (CommandView::TakeScreenshot { name }, CallView::TakeScreenshot(n, res)) => if n
                    == name {
                    Some((of_result(res), 1))
                } else {
                    None
                },
                (CommandView::HideKeyboard, CallView::HideKeyboard(res)) => Some(
                    (of_result(res), 1),
                ),
                _ => None,
            }
        },
    }
}

/// A tap waits for its element and taps it at most once: no call before
/// the last is a tap; where the last call is a tap, it taps the element
/// right after a poll that saw it, and the command comes to what the tap
/// returned; where it is not, the command did not succeed. A timeout
/// carries the message of a wait of `TAP_TIMEOUT_MS` for the element.
pub proof fn lemma_tap_after_visible(calls: Seq<CallView>, s: SelectorView, app: Seq<char>)
    requires
        command_prefix(calls, CommandView::TapOn { selector: s }, app) is Some,
    ensures
        ({
            let (o, n) = command_prefix(calls, CommandView::TapOn { selector: s }, app)->Some_0;
            &&& 2 <= n <= calls.len()
            &&& forall|k: int| 0 <= k < n - 1 ==> !((#[trigger] calls[k]) is Tap)
            &&& (calls[n - 1] is Tap ==> (calls[n - 2] == CallView::IsVisible(
                s,
                Ok::<bool, DriverError>(true),
            ) && calls[n - 1]->Tap_0 == s && o == of_result(calls[n - 1]->Tap_1)))
            &&& (!(calls[n - 1] is Tap) ==> !(o is Success))
            &&& (o matches Outcome::TimedOut(m) ==> m == timeout_reason(true, TAP_TIMEOUT_MS, s))
        }),
{
    lemma_wait_outcome(calls, s, true, TAP_TIMEOUT_MS);
    let (w, nw) = wait_prefix(calls, s, true, TAP_TIMEOUT_MS)->Some_0;
    assert(only_polling(calls, nw as int));
    if w is Success {
        assert(calls[nw as int] is Tap);
    }
}

/// `calls` are exactly the calls of a command, whatever follows them, and
/// the command came to what `r` says.
pub open spec fn command_made(
    calls: Seq<CallView>,
    c: CommandView,
    default_app_id: Seq<char>,
    r: Result<(), DriverError>,
) -> bool {
    &&& command_prefix(calls, c, default_app_id) matches Some((o, n)) && n == calls.len()
        && outcome_holds(o, r)
    &&& forall|tail: Seq<CallView>| #[trigger]
        command_prefix(calls + tail, c, default_app_id) == command_prefix(calls, c, default_app_id)
}

/// A command made of one driver call: the call settles it.
proof fn lemma_one_call(
    base: Seq<CallView>,
    call: CallView,
    all: Seq<CallView>,
    c: CommandView,
    default_app_id: Seq<char>,
    r: Result<(), DriverError>,
)
    requires
        !(c is TapOn || c is AssertVisible || c is AssertNotVisible || c is ScrollUntilVisible),
        all == base.push(call),
        command_prefix(seq![call], c, default_app_id) == Some((of_result(r), 1nat)),
    ensures
        all.subrange(0, base.len() as int) == base,
        command_made(all.subrange(base.len() as int, all.len() as int), c, default_app_id, r),
{
    let since = all.subrange(base.len() as int, all.len() as int);
    assert(all.subrange(0, base.len() as int) =~= base);
    assert(since =~= seq![call]);
    assert forall|tail: Seq<CallView>| #[trigger]
        command_prefix(since + tail, c, default_app_id) == command_prefix(since, c, default_app_id) by {
        assert((since + tail)[0] == call);
    }
}

/// Runs one command. A launch without its own app id launches the flow's
/// app; a tap first waits for its element.
#[verifier::spinoff_prover]
pub fn execute_command<D: Driver>(
    command: &Command,
    rec: &mut Recorder<D>,
    default_app_id: &String,
) -> (r: Result<(), DriverError>)
    ensures
        final(rec).extends(old(rec).calls()),
        command_made(final(rec).calls_since(old(rec).calls()), command@, default_app_id@, r),
{
    let ghost base = rec.calls();
    let ghost c = command@;
    match command {
        Command::LaunchApp { app_id, clear_state } => {
            let app = match app_id {
                Some(id) => id.clone(),
                None => default_app_id.clone(),
            };
            let r = rec.launch_app(app, *clear_state);
            proof {
                lemma_one_call(base, rec.calls().last(), rec.calls(), c, default_app_id@, r);
            }
            r
        },
        Command::TapOn { selector } => {
            let waited = wait_until_visible(rec, selector, TAP_TIMEOUT_MS);
            let ghost w = rec.calls_since(base);
            let ghost mid = rec.calls();
            match waited {
                Err(e) => {
                    proof {
                        assert forall|tail: Seq<CallView>| #[trigger]
                            command_prefix(w + tail, c, default_app_id@) == command_prefix(
                                w,
                                c,
                                default_app_id@,
                            ) by {
                            assert(wait_prefix(w + tail, selector@, true, TAP_TIMEOUT_MS)
                                == wait_prefix(w, selector@, true, TAP_TIMEOUT_MS));
                        }
                    }
                    Err(e)
                },
                Ok(_) => {
                    let r = rec.tap(selector.copy());
                    proof {
                        let call = CallView::Tap(selector@, r);
                        let since = rec.calls_since(base);
                        assert(rec.calls().subrange(0, base.len() as int) =~= base) by {
                            assert(mid.subrange(0, base.len() as int) == base);
                            assert(rec.calls() == mid.push(call));
                        }
                        assert(since =~= w + seq![call]);
                        assert forall|tail: Seq<CallView>| #[trigger]
                            command_prefix(since + tail, c, default_app_id@) == Some(
                                (of_result(r), since.len()),
                            ) by {
                            assert(since + tail =~= w + (seq![call] + tail));
                            assert(wait_prefix(w + (seq![call] + tail), selector@, true, TAP_TIMEOUT_MS)
                                == wait_prefix(w, selector@, true, TAP_TIMEOUT_MS));
                            assert((since + tail)[w.len() as int] == call);
                        }
                        assert(since + Seq::<CallView>::empty() =~= since);
                        assert(command_prefix(since + Seq::<CallView>::empty(), c, default_app_id@)
                            == Some((of_result(r), since.len())));
                    }
                    r
                },
            }
        },
        Command::InputText { text } => {
            let r = rec.input_text(text.clone());
            proof {
                lemma_one_call(base, rec.calls().last(), rec.calls(), c, default_app_id@, r);
            }
            r
        },
        Command::AssertVisible { selector, timeout_ms } => wait_until_visible(
            rec,
            selector,
            *timeout_ms,
        ),
        Command::AssertNotVisible { selector, timeout_ms } => wait_until_not_visible(
            rec,
            selector,
            *timeout_ms,
        ),
        Command::ScrollUntilVisible { selector, max_swipes } => scroll_until_visible(
            rec,
            selector,
            *max_swipes,
        ),
        Command::Back => {
            let r = rec.back();
            proof {
                lemma_one_call(base, rec.calls().last(), rec.calls(), c, default_app_id@, r);
            }
            r
        },
        Command::WaitForAnimationToEnd { timeout_ms } => {
            let r = rec.wait_for_idle(*timeout_ms);
            proof {
                lemma_one_call(base, rec.calls().last(), rec.calls(), c, default_app_id@, r);
            }
            r
        },
        Command::Swipe { direction } => {
            let r = rec.swipe(*direction);
            proof {
                lemma_one_call(base, rec.calls().last(), rec.calls(), c, default_app_id@, r);
            }
            r
        },
        Command::TakeScreenshot { name } => {
            let r = rec.take_screenshot(name.clone());
            proof {
                lemma_one_call(base, rec.calls().last(), rec.calls(), c, default_app_id@, r);
            }
            r
        },
        Command::HideKeyboard => {
            let r = rec.hide_keyboard();
            proof {
                lemma_one_call(base, rec.calls().last(), rec.calls(), c, default_app_id@, r);
            }
            r
        },
    }
}

/// A failure message stands exactly on the failed steps.
pub open spec fn messages_on_failures(steps: Seq<StepResult>) -> bool {
    forall|i: int|
        0 <= i < steps.len() ==> ((#[trigger] steps[i]).status == StepStatus::Failed
            <==> steps[i].failure_message is Some)
}

/// Every step passed.
pub open spec fn all_passed(steps: Seq<StepResult>) -> bool {
    forall|i: int| 0 <= i < steps.len() ==> (#[trigger] steps[i]).status == StepStatus::Passed
}

/// After a step that did not pass, every step is skipped.
pub open spec fn skipped_after_failure(steps: Seq<StepResult>) -> bool {
    forall|i: int, j: int|
        0 <= i < j < steps.len() && (#[trigger] steps[i]).status != StepStatus::Passed ==> (
        #[trigger] steps[j]).status == StepStatus::Skipped
}

/// A step is skipped only right after a step that did not pass.
pub open spec fn skipped_only_after_failure(steps: Seq<StepResult>) -> bool {
    &&& steps.len() > 0 ==> steps[0].status != StepStatus::Skipped
    &&& forall|i: int, j: int|
        #![trigger steps[i], steps[j]]
        0 <= j && i == j + 1 && i < steps.len() && steps[i].status == StepStatus::Skipped
            ==> steps[j].status != StepStatus::Passed
}

/// The status pattern of a run: passed steps up to the first failure, then
/// only skipped ones; a failure message exactly on the failed step; and
/// `passed` exactly when every step passed.
pub open spec fn status_shape(steps: Seq<StepResult>, passed: bool) -> bool {
    &&& messages_on_failures(steps)
    &&& passed == all_passed(steps)
    &&& skipped_after_failure(steps)
    &&& skipped_only_after_failure(steps)
}

/// Whether a text is the message of some driver error.
pub open spec fn is_driver_message(m: Seq<char>) -> bool {
    exists|e: DriverError| #[trigger] driver_error_text(e) == m
}

/// The shape of a flow result: one step per command, described by
/// `command_desc`, with the status pattern of `status_shape`; a failure
/// message is the message of the driver error that failed the step.
pub open spec fn flow_result_shape(commands: Seq<CommandView>, r: FlowResult) -> bool {
    &&& r.steps@.len() == commands.len()
    &&& forall|i: int|
        0 <= i < r.steps@.len() ==> (#[trigger] r.steps@[i]).command_desc@ == command_desc(
            commands[i],
        )
    &&& status_shape(r.steps@, r.passed)
    &&& forall|i: int|
        0 <= i < r.steps@.len() ==> ((#[trigger] r.steps@[i]).failure_message matches Some(m)
            ==> is_driver_message(m@))
}

/// The status of a step run while the flow still passes (`running`) or
/// after it failed, given what the command returned.
pub open spec fn step_status(running: bool, failed: bool) -> StepStatus {
    if failed {
        StepStatus::Failed
    } else if running {
        StepStatus::Passed
    } else {
        StepStatus::Skipped
    }
}

proof fn lemma_messages_push(steps: Seq<StepResult>, step: StepResult)
    requires
        messages_on_failures(steps),
        step.status == StepStatus::Failed <==> step.failure_message is Some,
    ensures
        messages_on_failures(steps.push(step)),
{
    let s2 = steps.push(step);
    assert forall|i: int|
        0 <= i < s2.len() implies ((#[trigger] s2[i]).status == StepStatus::Failed
        <==> s2[i].failure_message is Some) by {
        if i < steps.len() {
            assert(s2[i] == steps[i]);
        }
    }
}

proof fn lemma_all_passed_push(steps: Seq<StepResult>, step: StepResult)
    ensures
        all_passed(steps.push(step)) == (all_passed(steps) && step.status == StepStatus::Passed),
{
    let s2 = steps.push(step);
    if all_passed(steps) && step.status == StepStatus::Passed {
        assert forall|i: int| 0 <= i < s2.len() implies (#[trigger] s2[i]).status
            == StepStatus::Passed by {
            if i < steps.len() {
                assert(s2[i] == steps[i]);
            }
        }
    }
    if all_passed(s2) {
        assert forall|i: int| 0 <= i < steps.len() implies (#[trigger] steps[i]).status
            == StepStatus::Passed by {
            assert(s2[i] == steps[i]);
        }
        assert(s2[steps.len() as int] == step);
    }
}

proof fn lemma_skipped_after_push(steps: Seq<StepResult>, step: StepResult)
    requires
        skipped_after_failure(steps),
        !all_passed(steps) ==> step.status == StepStatus::Skipped,
    ensures
        skipped_after_failure(steps.push(step)),
{
    let s2 = steps.push(step);
    assert forall|i: int, j: int|
        0 <= i < j < s2.len() && (#[trigger] s2[i]).status != StepStatus::Passed implies (
        #[trigger] s2[j]).status == StepStatus::Skipped by {
        assert(s2[i] == steps[i]);
        if j < steps.len() {
            assert(s2[j] == steps[j]);
        } else {
            assert(!all_passed(steps));
        }
    }
}

proof fn lemma_skipped_only_push(steps: Seq<StepResult>, step: StepResult)
    requires
        skipped_only_after_failure(steps),
        step.status == StepStatus::Skipped ==> steps.len() > 0 && steps.last().status
            != StepStatus::Passed,
    ensures
        skipped_only_after_failure(steps.push(step)),
{
    let s2 = steps.push(step);
    if steps.len() > 0 {
        assert(s2[0] == steps[0]);
    }
    assert forall|i: int, j: int|
        #![trigger s2[i], s2[j]]
        0 <= j && i == j + 1 && i < s2.len() && s2[i].status == StepStatus::Skipped implies s2[j].status
        != StepStatus::Passed by {
        assert(s2[j] == steps[j]);
        if i < steps.len() {
            assert(s2[i] == steps[i]);
        }
    }
}

proof fn lemma_status_shape_push(
    steps: Seq<StepResult>,
    passed: bool,
    step: StepResult,
    failed: bool,
)
    requires
        status_shape(steps, passed),
        !passed ==> steps.len() > 0 && steps.last().status != StepStatus::Passed,
        !passed ==> !failed,
        step.status == step_status(passed, failed),
        step.failure_message is Some <==> failed,
    ensures
        status_shape(steps.push(step), passed && !failed),
{
    lemma_messages_push(steps, step);
    lemma_all_passed_push(steps, step);
    lemma_skipped_after_push(steps, step);
    lemma_skipped_only_push(steps, step);
}

/// Before any step, the shape holds of a passing run.
proof fn lemma_status_shape_empty()
    ensures
        status_shape(Seq::<StepResult>::empty(), true),
{
}

/// A step result, its texts taken by their views.
pub struct StepView {
    pub command_desc: Seq<char>,
    pub status: StepStatus,
    pub duration_ms: u64,
    pub failure_message: Option<Seq<char>>,
}

pub open spec fn step_view(s: StepResult) -> StepView {
    StepView {
        command_desc: s.command_desc@,
        status: s.status,
        duration_ms: s.duration_ms,
        failure_message: opt_text(s.failure_message),
    }
}

/// The failure message of an outcome: the text of the error returned.
pub open spec fn outcome_message(o: Outcome) -> Option<Seq<char>> {
    match o {
        Outcome::Success => None,
        Outcome::DriverFailed(e) => Some(driver_error_text(e)),
        Outcome::TimedOut(m) => Some("Timeout: "@ + m),
        Outcome::NotFound(m) => Some("Element not found: "@ + m),
    }
}

/// The milliseconds between two clock readings; none when the clock went
/// back.
pub open spec fn elapsed(t0: u64, t1: u64) -> u64 {
    if t1 >= t0 {
        (t1 - t0) as u64
    } else {
        0
    }
}

/// The step of a command between the clock readings `t0` and `t1`: run
/// while the flow still passed (`running`) with outcome `o`, or skipped.
pub open spec fn recorded_step(c: CommandView, running: bool, o: Outcome, t0: u64, t1: u64) -> StepView {
    StepView {
        command_desc: command_desc(c),
        status: if !running {
            StepStatus::Skipped
        } else if o is Success {
            StepStatus::Passed
        } else {
            StepStatus::Failed
        },
        duration_ms: elapsed(t0, t1),
        failure_message: if running {
            outcome_message(o)
        } else {
            None
        },
    }
}

/// The steps of a run over `calls`: for each command the clock is read,
/// the command runs as `command_prefix` says while the flow still passes
/// (and makes no call once a step has failed), and the clock is read
/// again. `None` where the calls do not follow these rules.
pub open spec fn run_steps(
    calls: Seq<CallView>,
    cmds: Seq<CommandView>,
    default_app_id: Seq<char>,
    running: bool,
) -> Option<Seq<StepView>>
    decreases cmds.len(),
{
    if cmds.len() == 0 {
        if calls.len() == 0 {
            Some(Seq::empty())
        } else {
            None
        }
    } else if calls.len() == 0 {
        None
    } else {
        match calls[0] {
            CallView::Now(t0) => {
                let body = if running {
                    command_prefix(calls.subrange(1, calls.len() as int), cmds[0], default_app_id)
                } else {
                    Some((Outcome::Success, 0nat))
                };
                match body {
                    None => None,
                    Some((o, n)) => if calls.len() < n + 2 {
                        None
                    } else {
                        match calls[n + 1 as int] {
                            CallView::Now(t1) => prepend(
                                seq![recorded_step(cmds[0], running, o, t0, t1)],
                                run_steps(
                                    calls.subrange(n + 2 as int, calls.len() as int),
                                    cmds.drop_first(),
                                    default_app_id,
                                    running && o is Success,
                                ),
                            ),
                            _ => None,
                        }
                    },
                }
            },
            _ => None,
        }
    }
}

pub open spec fn prepend(p: Seq<StepView>, rest: Option<Seq<StepView>>) -> Option<Seq<StepView>> {
    match rest {
        Some(x) => Some(p + x),
        None => None,
    }
}

/// Once a step has failed, the rest of a run makes no driver call but the
/// clock readings around each skipped step.
pub proof fn lemma_no_calls_after_failure(
    calls: Seq<CallView>,
    cmds: Seq<CommandView>,
    default_app_id: Seq<char>,
)
    requires
        run_steps(calls, cmds, default_app_id, false) is Some,
    ensures
        forall|k: int| 0 <= k < calls.len() ==> (#[trigger] calls[k]) is Now,
    decreases cmds.len(),
{
    if cmds.len() > 0 {
        let rest = calls.subrange(2, calls.len() as int);
        assert(calls[0] is Now);
        assert(calls[1] is Now);
        lemma_no_calls_after_failure(rest, cmds.drop_first(), default_app_id);
        assert forall|k: int| 0 <= k < calls.len() implies (#[trigger] calls[k]) is Now by {
            if k >= 2 {
                assert(calls[k] == rest[k - 2]);
            }
        }
    }
}

/// Steps that were all skipped: no failure message on any of them.
pub open spec fn all_skipped(views: Seq<StepView>) -> bool {
    forall|i: int|
        0 <= i < views.len() ==> (#[trigger] views[i]).status == StepStatus::Skipped
            && views[i].failure_message is None
}

/// The steps of a run whose first `k` steps passed: those have no failure
/// message; if a step is left, step `k` failed with a message, and every
/// step after it was skipped with none.
pub open spec fn first_failure_at(views: Seq<StepView>, k: int) -> bool {
    &&& 0 <= k <= views.len()
    &&& forall|i: int|
        0 <= i < k ==> (#[trigger] views[i]).status == StepStatus::Passed
            && views[i].failure_message is None
    &&& k < views.len() ==> views[k].status == StepStatus::Failed && views[k].failure_message is Some
        && all_skipped(views.subrange(k + 1, views.len() as int))
}

/// Each step describes its command.
pub open spec fn steps_describe(views: Seq<StepView>, cmds: Seq<CommandView>) -> bool {
    &&& views.len() == cmds.len()
    &&& forall|i: int|
        0 <= i < views.len() ==> (#[trigger] views[i]).command_desc == command_desc(cmds[i])
}

/// The steps of a run after a failure are all skipped.
proof fn lemma_skipped_run(calls: Seq<CallView>, cmds: Seq<CommandView>, app: Seq<char>)
    requires
        run_steps(calls, cmds, app, false) is Some,
    ensures
        steps_describe(run_steps(calls, cmds, app, false)->Some_0, cmds),
        all_skipped(run_steps(calls, cmds, app, false)->Some_0),
    decreases cmds.len(),
{
    if cmds.len() > 0 {
        let views = run_steps(calls, cmds, app, false)->Some_0;
        let rest = calls.subrange(2, calls.len() as int);
        lemma_skipped_run(rest, cmds.drop_first(), app);
        let tail = run_steps(rest, cmds.drop_first(), app, false)->Some_0;
        assert(views == seq![recorded_step(cmds[0], false, Outcome::Success, calls[0]->Now_0, calls[1]->Now_0)] + tail);
        assert forall|i: int| 1 <= i < views.len() implies #[trigger] views[i] == tail[i - 1] by {}
        assert forall|i: int| 0 <= i < views.len() implies (#[trigger] views[i]).command_desc
            == command_desc(cmds[i]) by {
            if i >= 1 {
                assert(views[i] == tail[i - 1]);
                assert(cmds.drop_first()[i - 1] == cmds[i]);
            }
        }
    }
}

/// Where a run first failed, and where in its calls the skipped steps
/// begin.
proof fn lemma_run_failure_point(calls: Seq<CallView>, cmds: Seq<CommandView>, app: Seq<char>) -> (kp: (
    int,
    int,
))
    requires
        run_steps(calls, cmds, app, true) is Some,
    ensures
        ({
            let views = run_steps(calls, cmds, app, true)->Some_0;
            let (k, p) = kp;
            &&& steps_describe(views, cmds)
            &&& first_failure_at(views, k)
            &&& 0 <= p <= calls.len()
            &&& (k < cmds.len() ==> run_steps(
                calls.subrange(p, calls.len() as int),
                cmds.subrange(k + 1, cmds.len() as int),
                app,
                false,
            ) is Some)
        }),
    decreases cmds.len(),
{
    let views = run_steps(calls, cmds, app, true)->Some_0;
    if cmds.len() == 0 {
        (0, 0)
    } else {
        let t0 = calls[0]->Now_0;
        let (o, n) = command_prefix(calls.subrange(1, calls.len() as int), cmds[0], app)->Some_0;
        let t1 = calls[n + 1 as int]->Now_0;
        let rest = calls.subrange(n + 2 as int, calls.len() as int);
        let v0 = recorded_step(cmds[0], true, o, t0, t1);
        let cmds1 = cmds.drop_first();
        let tail = run_steps(rest, cmds1, app, o is Success)->Some_0;
        assert(views == seq![v0] + tail);
        assert forall|i: int| 1 <= i < views.len() implies #[trigger] views[i] == tail[i - 1] by {}
        if o is Success {
            let (k1, p1) = lemma_run_failure_point(rest, cmds1, app);
            assert forall|i: int| 0 <= i < views.len() implies (#[trigger] views[i]).command_desc
                == command_desc(cmds[i]) by {
                if i >= 1 {
                    assert(cmds1[i - 1] == cmds[i]);
                }
            }
            assert forall|i: int| 0 <= i < k1 + 1 implies (#[trigger] views[i]).status
                == StepStatus::Passed && views[i].failure_message is None by {
                if i >= 1 {
                    assert(views[i] == tail[i - 1]);
                }
            }
            if k1 < cmds1.len() {
                assert(views[k1 + 1] == tail[k1]);
                assert(views.subrange(k1 + 2, views.len() as int) =~= tail.subrange(
                    k1 + 1,
                    tail.len() as int,
                ));
                assert(calls.subrange(p1 + n + 2, calls.len() as int) =~= rest.subrange(
                    p1,
                    rest.len() as int,
                ));
                assert(cmds.subrange(k1 + 2, cmds.len() as int) =~= cmds1.subrange(
                    k1 + 1,
                    cmds1.len() as int,
                ));
            }
            (k1 + 1, p1 + n + 2)
        } else {
            lemma_skipped_run(rest, cmds1, app);
            assert forall|i: int| 0 <= i < views.len() implies (#[trigger] views[i]).command_desc
                == command_desc(cmds[i]) by {
                if i >= 1 {
                    assert(cmds1[i - 1] == cmds[i]);
                }
            }
            assert(views.subrange(1, views.len() as int) =~= tail);
            assert(calls.subrange(n + 2 as int, calls.len() as int) == rest);
            assert(cmds.subrange(1, cmds.len() as int) =~= cmds1);
            (0, n + 2 as int)
        }
    }
}

/// From position `p` on, `calls` are clock readings only.
pub open spec fn clock_only_from(calls: Seq<CallView>, p: int) -> bool {
    &&& 0 <= p <= calls.len()
    &&& forall|q: int| p <= q < calls.len() ==> (#[trigger] calls[q]) is Now
}

/// The steps of a run: one per command, each describing its command; the
/// steps up to the first failure passed with no message; the failed step
/// carries a message; every step after it is skipped with none, and from
/// its end on the run reads the clock and makes no other driver call. The
/// result is where the run first failed (the number of commands where none
/// did) and where in `calls` the clock readings alone begin.
pub proof fn lemma_run_first_failure(calls: Seq<CallView>, cmds: Seq<CommandView>, app: Seq<char>) -> (kp: (
    int,
    int,
))
    requires
        run_steps(calls, cmds, app, true) is Some,
    ensures
        steps_describe(run_steps(calls, cmds, app, true)->Some_0, cmds),
        first_failure_at(run_steps(calls, cmds, app, true)->Some_0, kp.0),
        kp.0 < cmds.len() ==> clock_only_from(calls, kp.1),
{
    let (k, p) = lemma_run_failure_point(calls, cmds, app);
    if k < cmds.len() {
        let after = calls.subrange(p, calls.len() as int);
        lemma_no_calls_after_failure(after, cmds.subrange(k + 1, cmds.len() as int), app);
        assert forall|q: int| p <= q < calls.len() implies (#[trigger] calls[q]) is Now by {
            assert(calls[q] == after[q - p]);
        }
    }
    (k, p)
}

/// The clock reading a call made; `0` for any other call.
pub open spec fn clock_value(c: CallView) -> int {
    match c {
        CallView::Now(t) => t as int,
        _ => 0,
    }
}

/// How long each step of a run took. The calls split into consecutive
/// stretches, one per step, each beginning and ending with a clock
/// reading; the result gives the positions of those two readings for each
/// step. A step's `duration_ms` is its end reading minus its start reading,
/// or 0 when the clock went back: a step whose two readings are equal took
/// 0 ms, whatever the clock read.
pub proof fn lemma_step_durations(
    calls: Seq<CallView>,
    cmds: Seq<CommandView>,
    app: Seq<char>,
    running: bool,
) -> (bounds: Seq<(int, int)>)
    requires
        run_steps(calls, cmds, app, running) is Some,
    ensures
        bounds.len() == run_steps(calls, cmds, app, running)->Some_0.len(),
        bounds.len() == 0 ==> calls.len() == 0,
        bounds.len() > 0 ==> bounds[0].0 == 0 && bounds[bounds.len() - 1].1 == calls.len() - 1,
        forall|i: int| 1 <= i < bounds.len() ==> #[trigger] bounds[i].0 == bounds[i - 1].1 + 1,
        forall|i: int|
            0 <= i < bounds.len() ==> {
                let a = (#[trigger] bounds[i]).0;
                let b = bounds[i].1;
                let d = run_steps(calls, cmds, app, running)->Some_0[i].duration_ms;
                &&& 0 <= a < b < calls.len()
                &&& calls[a] is Now
                &&& calls[b] is Now
                &&& (clock_value(calls[b]) >= clock_value(calls[a]) ==> d == clock_value(calls[b])
                    - clock_value(calls[a]))
                &&& (clock_value(calls[b]) < clock_value(calls[a]) ==> d == 0)
            },
    decreases cmds.len(),
{
    let views = run_steps(calls, cmds, app, running)->Some_0;
    if cmds.len() == 0 {
        Seq::empty()
    } else {
        let t0 = calls[0]->Now_0;
        let body = if running {
            command_prefix(calls.subrange(1, calls.len() as int), cmds[0], app)
        } else {
            Some((Outcome::Success, 0nat))
        };
        let (o, n) = body->Some_0;
        let t1 = calls[n + 1 as int]->Now_0;
        let rest = calls.subrange(n + 2 as int, calls.len() as int);
        let tail = run_steps(rest, cmds.drop_first(), app, running && o is Success)->Some_0;
        let bs = lemma_step_durations(rest, cmds.drop_first(), app, running && o is Success);
        assert(views == seq![recorded_step(cmds[0], running, o, t0, t1)] + tail);
        let k: int = (n + 2) as int;
        let bounds = Seq::new(
            bs.len() + 1,
            |i: int|
                if i == 0 {
                    (0int, (n + 1) as int)
                } else {
                    (bs[i - 1].0 + k, bs[i - 1].1 + k)
                },
        );
        assert forall|i: int| 1 <= i < bounds.len() implies #[trigger] bounds[i].0 == bounds[i
            - 1].1 + 1 by {
            if i > 1 {
                assert(bs[i - 1].0 == bs[i - 2].1 + 1);
            }
        }
        assert forall|i: int| 0 <= i < bounds.len() implies {
            let a = (#[trigger] bounds[i]).0;
            let b = bounds[i].1;
            let d = views[i].duration_ms;
            &&& 0 <= a < b < calls.len()
            &&& calls[a] is Now
            &&& calls[b] is Now
            &&& (clock_value(calls[b]) >= clock_value(calls[a]) ==> d == clock_value(calls[b])
                - clock_value(calls[a]))
            &&& (clock_value(calls[b]) < clock_value(calls[a]) ==> d == 0)
        } by {
            if i > 0 {
                let a1 = bs[i - 1].0;
                let b1 = bs[i - 1].1;
                assert(views[i] == tail[i - 1]);
                assert(calls[a1 + k] == rest[a1]);
                assert(calls[b1 + k] == rest[b1]);
            }
        }
        if bs.len() > 0 {
            assert(bounds[bounds.len() - 1] == (bs[bs.len() - 1].0 + k, bs[bs.len() - 1].1 + k));
        } else {
            assert(rest.len() == 0);
        }
        bounds
    }
}

/// One step of a run: a clock reading, the command's calls (none when the
/// flow already failed), a clock reading.
#[verifier::spinoff_prover]
#[verifier::rlimit(50)]
proof fn lemma_run_round(
    round: Seq<CallView>,
    body: Seq<CallView>,
    t0: u64,
    t1: u64,
    cmds: Seq<CommandView>,
    default_app_id: Seq<char>,
    running: bool,
    o: Outcome,
)
    requires
        cmds.len() > 0,
        round == seq![CallView::Now(t0)] + body + seq![CallView::Now(t1)],
        running ==> forall|tail: Seq<CallView>| #[trigger]
            command_prefix(body + tail, cmds[0], default_app_id) == Some((o, body.len())),
        !running ==> body.len() == 0 && o == Outcome::Success,
    ensures
        forall|tail: Seq<CallView>| #[trigger]
            run_steps(round + tail, cmds, default_app_id, running) == prepend(
                seq![recorded_step(cmds[0], running, o, t0, t1)],
                run_steps(tail, cmds.drop_first(), default_app_id, running && o is Success),
            ),
{
    assert forall|tail: Seq<CallView>| #[trigger]
        run_steps(round + tail, cmds, default_app_id, running) == prepend(
            seq![recorded_step(cmds[0], running, o, t0, t1)],
            run_steps(tail, cmds.drop_first(), default_app_id, running && o is Success),
        ) by {
        let c = round + tail;
        assert(c[0] == CallView::Now(t0));
        assert(c.subrange(1, c.len() as int) =~= body + (seq![CallView::Now(t1)] + tail));
        if running {
            assert(command_prefix(body + (seq![CallView::Now(t1)] + tail), cmds[0], default_app_id)
                == Some((o, body.len())));
        }
        assert(c[body.len() + 1 as int] == CallView::Now(t1));
        assert(c.subrange(body.len() + 2 as int, c.len() as int) =~= tail);
    }
}

/// The calls of one step: the record before it, a clock reading, the
/// command's calls and a clock reading.
proof fn lemma_calls_step(
    before: Seq<CallView>,
    after_start: Seq<CallView>,
    start: u64,
    after_body: Seq<CallView>,
    end: u64,
    all: Seq<CallView>,
)
    requires
        after_start == before.push(CallView::Now(start)),
        after_start.len() <= after_body.len(),
        after_body.subrange(0, after_start.len() as int) == after_start,
        all == after_body.push(CallView::Now(end)),
    ensures
        all == before + (seq![CallView::Now(start)] + after_body.subrange(
            after_start.len() as int,
            after_body.len() as int,
        ) + seq![CallView::Now(end)]),
{
    let body = after_body.subrange(after_start.len() as int, after_body.len() as int);
    assert forall|k: int| 0 <= k < after_start.len() implies after_body[k] == after_start[k] by {
        assert(after_body.subrange(0, after_start.len() as int)[k] == after_body[k]);
    }
    assert(all =~= before + (seq![CallView::Now(start)] + body + seq![CallView::Now(end)]));
}

/// The run's record after one more step.
proof fn lemma_run_advance(
    done: Seq<CallView>,
    round: Seq<CallView>,
    cmds: Seq<CommandView>,
    app: Seq<char>,
    i: int,
    views: Seq<StepView>,
    sv: StepView,
    was_passed: bool,
    passed: bool,
)
    requires
        0 <= i < cmds.len(),
        forall|tail: Seq<CallView>| #[trigger]
            run_steps(done + tail, cmds, app, true) == prepend(
                views,
                run_steps(tail, cmds.subrange(i, cmds.len() as int), app, was_passed),
            ),
        forall|tail: Seq<CallView>| #[trigger]
            run_steps(round + tail, cmds.subrange(i, cmds.len() as int), app, was_passed)
                == prepend(
                seq![sv],
                run_steps(tail, cmds.subrange(i, cmds.len() as int).drop_first(), app, passed),
            ),
    ensures
        forall|tail: Seq<CallView>| #[trigger]
            run_steps((done + round) + tail, cmds, app, true) == prepend(
                views.push(sv),
                run_steps(tail, cmds.subrange(i + 1, cmds.len() as int), app, passed),
            ),
{
    assert(cmds.subrange(i, cmds.len() as int).drop_first() =~= cmds.subrange(
        i + 1,
        cmds.len() as int,
    ));
    assert forall|tail: Seq<CallView>| #[trigger]
        run_steps((done + round) + tail, cmds, app, true) == prepend(
            views.push(sv),
            run_steps(tail, cmds.subrange(i + 1, cmds.len() as int), app, passed),
        ) by {
        assert((done + round) + tail =~= done + (round + tail));
        assert(run_steps(done + (round + tail), cmds, app, true) == prepend(
            views,
            run_steps(round + tail, cmds.subrange(i, cmds.len() as int), app, was_passed),
        ));
        match run_steps(tail, cmds.subrange(i + 1, cmds.len() as int), app, passed) {
            Some(x) => {
                assert(views + (seq![sv] + x) =~= views.push(sv) + x);
            },
            None => {},
        }
    }
}

/// Runs a flow through a recorder: each command in order, timed by the
/// driver's clock; after the first failure the remaining commands are not
/// run and are recorded as skipped. The calls made and the steps are those
/// of `run_steps`.
#[verifier::spinoff_prover]
pub fn run_flow_recorded<D: Driver>(flow: &Flow, rec: &mut Recorder<D>) -> (r: FlowResult)
    ensures
        flow_result_shape(flow@.commands, r),
        final(rec).extends(old(rec).calls()),
        run_steps(final(rec).calls_since(old(rec).calls()), flow@.commands, flow@.app_id, true)
            == Some(r.steps@.map_values(|s: StepResult| step_view(s))),
{
    let ghost base = rec.calls();
    let ghost cmds = flow@.commands;
    let ghost app = flow@.app_id;
    let mut steps: Vec<StepResult> = Vec::new();
    let mut passed = true;
    let n = flow.commands.len();
    let ghost mut done: Seq<CallView> = Seq::empty();
    proof {
        lemma_status_shape_empty();
        assert(flow.commands@.map_values(|c: Command| c@) == cmds);
        assert(cmds.subrange(0, cmds.len() as int) =~= cmds);
        assert forall|tail: Seq<CallView>| #[trigger]
            run_steps(done + tail, cmds, app, true) == prepend(
                steps@.map_values(|s: StepResult| step_view(s)),
                run_steps(tail, cmds.subrange(0, cmds.len() as int), app, passed),
            ) by {
            assert(done + tail =~= tail);
            assert(steps@.map_values(|s: StepResult| step_view(s)) =~= Seq::<StepView>::empty());
            match run_steps(tail, cmds, app, true) {
                Some(x) => {
                    assert(Seq::<StepView>::empty() + x =~= x);
                },
                None => {},
            }
        }
        assert(rec.calls() =~= base + done);
    }
    for i in 0..n
        invariant
            n == flow.commands.len(),
            cmds == flow.commands@.map_values(|c: Command| c@),
            app == flow.app_id@,
            steps.len() == i,
            forall|j: int|
                0 <= j < i ==> (#[trigger] steps@[j]).command_desc@ == command_desc(
                    flow.commands@[j]@,
                ),
            status_shape(steps@, passed),
            !passed ==> i > 0 && steps@[i - 1].status != StepStatus::Passed,
            forall|j: int|
                0 <= j < i ==> ((#[trigger] steps@[j]).failure_message matches Some(m)
                    ==> is_driver_message(m@)),
            rec.calls() == base + done,
            base == old(rec).calls(),
            forall|tail: Seq<CallView>| #[trigger]
                run_steps(done + tail, cmds, app, true) == prepend(
                    steps@.map_values(|s: StepResult| step_view(s)),
                    run_steps(tail, cmds.subrange(i as int, cmds.len() as int), app, passed),
                ),
    {
        let command = &flow.commands[i];
        let ghost before = rec.calls();
        let start = rec.now_ms();
        let ghost after_start = rec.calls();
        let command_desc = format_command(command);
        let result = if passed {
            execute_command(command, rec, &flow.app_id)
        } else {
            Ok(())
        };
        let ghost body = rec.calls_since(after_start);
        let ghost after_body = rec.calls();
        let end = rec.now_ms();
        let duration_ms = end.saturating_sub(start);
        let ghost was_passed = passed;
        let ghost o: Outcome = if was_passed {
            command_prefix(body, command@, app)->Some_0.0
        } else {
            Outcome::Success
        };
        let (status, failure_message) = match result {
            Ok(_) => {
                if passed {
                    (StepStatus::Passed, None)
                } else {
                    (StepStatus::Skipped, None)
                }
            },
            Err(e) => {
                passed = false;
                let m = e.message();
                assert(driver_error_text(e) == m@);
                (StepStatus::Failed, Some(m))
            },
        };
        let step = StepResult { command_desc, status, duration_ms, failure_message };
        proof {
            lemma_status_shape_push(steps@, was_passed, step, result is Err);
            let rest = cmds.subrange(i as int, cmds.len() as int);
            assert(rest[0] == cmds[i as int]);
            assert(cmds[i as int] == command@);
            assert(rest.drop_first() =~= cmds.subrange(i + 1, cmds.len() as int));
            if !was_passed {
                assert(after_body == after_start);
                assert(after_body.subrange(0, after_start.len() as int) =~= after_start);
                assert(body =~= Seq::<CallView>::empty());
            }
            assert(passed == (was_passed && o is Success));
            assert(step_view(step) == recorded_step(command@, was_passed, o, start, end));
            let round = seq![CallView::Now(start)] + body + seq![CallView::Now(end)];
            lemma_run_round(round, body, start, end, rest, app, was_passed, o);
            lemma_calls_step(base + done, after_start, start, after_body, end, rec.calls());
            assert(rec.calls() =~= base + (done + round));
            lemma_run_advance(done, round, cmds, app, i as int, steps@.map_values(|s: StepResult| step_view(s)), step_view(step), was_passed, passed);
            done = done + round;
        }
        let ghost old_steps = steps@;
        steps.push(step);
        assert forall|j: int| 0 <= j < i implies #[trigger] steps@[j] == old_steps[j] by {}
        assert(steps@.map_values(|s: StepResult| step_view(s)) =~= old_steps.map_values(
            |s: StepResult| step_view(s),
        ).push(step_view(step)));
    }
    let r = FlowResult { steps, passed };
    proof {
        assert(flow@.commands =~= flow.commands@.map_values(|c: Command| c@));
        assert(cmds.subrange(n as int, cmds.len() as int) =~= Seq::<CommandView>::empty());
        assert(done + Seq::<CallView>::empty() =~= done);
        let views = r.steps@.map_values(|s: StepResult| step_view(s));
        assert(run_steps(done + Seq::<CallView>::empty(), cmds, app, true) == prepend(
            views,
            run_steps(Seq::<CallView>::empty(), cmds.subrange(n as int, cmds.len() as int), app, passed),
        ));
        assert(views + Seq::<StepView>::empty() =~= views);
        assert(rec.calls().subrange(0, base.len() as int) =~= base);
        assert(rec.calls_since(base) =~= done);
    }
    r
}

/// Runs a flow: each command in order, timed by the driver's clock; after
/// the first failure the remaining commands are not run and are recorded as
/// skipped. The steps are those `run_steps` makes of the calls the run
/// made and what the driver answered.
pub fn run_flow<D: Driver>(flow: Flow, driver: D) -> (r: FlowResult)
    ensures
        flow_result_shape(flow@.commands, r),
        exists|calls: Seq<CallView>|
            #[trigger] run_steps(calls, flow@.commands, flow@.app_id, true) == Some(
                r.steps@.map_values(|s: StepResult| step_view(s)),
            ),
{
    let mut rec = Recorder::new(&driver);
    let r = run_flow_recorded(&flow, &mut rec);
    proof {
        let calls = rec.calls_since(Seq::<CallView>::empty());
        assert(run_steps(calls, flow@.commands, flow@.app_id, true) == Some(
            r.steps@.map_values(|s: StepResult| step_view(s)),
        ));
    }
    r
}

} // verus!
