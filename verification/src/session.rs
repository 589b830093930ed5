//! The device part of a test run, as a state machine. Once the flows have
//! been validated, a run installs the app APK (when there is one) and the
//! runner APK, replaces the flows on the device, runs the instrumentation
//! and pulls the result files. The caller performs each piece of work the
//! machine asks for (an adb command, locating an APK, streaming the
//! instrumentation) and hands back what came of it.

use vstd::prelude::*;
use crate::cli::{device_flow_path, instrument_args, instrument_args_spec, DEVICE_FLOWS_DIR};
use crate::device::adb::{adb_args, serial_prefix};
use crate::model::opt_text;
use crate::parser::env_pairs;
use crate::text::{push_string, push_text, string_from, texts};
use crate::text_map::EnvVars;

verus! {

/// A flow file as the run uses it: how it is shown to the user, its local
/// path, and its file name on the device.
pub struct FlowFile {
    pub shown: String,
    pub local: String,
    pub name: String,
}

pub struct FlowFileView {
    pub shown: Seq<char>,
    pub local: Seq<char>,
    pub name: Seq<char>,
}

impl View for FlowFile {
    type V = FlowFileView;

    open spec fn view(&self) -> FlowFileView {
        FlowFileView { shown: self.shown@, local: self.local@, name: self.name@ }
    }
}

/// Where a run stands.
#[derive(Debug, Clone, Copy, PartialEq, Eq, Structural)]
pub enum TestStage {
    /// Waiting for the app APK's path (or word that there is none).
    AwaitAppApk,
    /// Installing the app APK.
    InstallingApp,
    /// Waiting for the runner APK's path (or word that there is none).
    AwaitRunnerApk,
    /// Installing the runner APK.
    InstallingRunner,
    /// Removing the flows left on the device.
    ClearingFlows,
    /// Creating the device's flows directory.
    MakingFlowsDir,
    /// Pushing the flow with this position.
    Pushing(usize),
    /// Running the instrumentation.
    Running,
    /// Pulling the results from the candidate directory with this position.
    Pulling(usize),
    /// The run is over.
    Finished,
}

/// What came of the work the machine asked for.
pub enum TestEvent {
    /// The APK asked for: its path, or none.
    Apk(Option<String>),
    /// Whether the adb command succeeded.
    Command(bool),
    /// Whether the instrumentation passed.
    Instrumented(bool),
}

pub enum TestEventView {
    Apk(Option<Seq<char>>),
    Command(bool),
    Instrumented(bool),
}

impl View for TestEvent {
    type V = TestEventView;

    open spec fn view(&self) -> TestEventView {
        match self {
            TestEvent::Apk(p) => TestEventView::Apk(opt_text(*p)),
            TestEvent::Command(ok) => TestEventView::Command(*ok),
            TestEvent::Instrumented(ok) => TestEventView::Instrumented(*ok),
        }
    }
}

/// A line for the user, on standard output or standard error.
pub enum Note {
    Stdout(String),
    Stderr(String),
}

pub enum NoteView {
    Stdout(Seq<char>),
    Stderr(Seq<char>),
}

impl View for Note {
    type V = NoteView;

    open spec fn view(&self) -> NoteView {
        match self {
            Note::Stdout(s) => NoteView::Stdout(s@),
            Note::Stderr(s) => NoteView::Stderr(s@),
        }
    }
}

/// The work the machine asks for.
pub enum Work {
    /// Locate the app APK; answer with `TestEvent::Apk`.
    ResolveAppApk,
    /// Locate the runner APK; answer with `TestEvent::Apk`.
    ResolveRunnerApk,
    /// Run adb with these arguments; answer with `TestEvent::Command`.
    Adb(Vec<String>),
    /// Run adb with these arguments, streaming the instrumentation's output;
    /// answer with `TestEvent::Instrumented`.
    Instrument(Vec<String>),
    /// The run is over; it succeeded or failed.
    Finish(bool),
}

pub enum WorkView {
    ResolveAppApk,
    ResolveRunnerApk,
    Adb(Seq<Seq<char>>),
    Instrument(Seq<Seq<char>>),
    Finish(bool),
}

impl View for Work {
    type V = WorkView;

    open spec fn view(&self) -> WorkView {
        match self {
            Work::ResolveAppApk => WorkView::ResolveAppApk,
            Work::ResolveRunnerApk => WorkView::ResolveRunnerApk,
            Work::Adb(args) => WorkView::Adb(texts(args@)),
            Work::Instrument(args) => WorkView::Instrument(texts(args@)),
            Work::Finish(ok) => WorkView::Finish(*ok),
        }
    }
}

/// The lines to show, then the work to do.
pub struct TestAction {
    pub notes: Vec<Note>,
    pub work: Work,
}

pub struct TestActionView {
    pub notes: Seq<NoteView>,
    pub work: WorkView,
}

impl View for TestAction {
    type V = TestActionView;

    open spec fn view(&self) -> TestActionView {
        TestActionView { notes: self.notes@.map_values(|n: Note| n@), work: self.work@ }
    }
}

/// The message when no runner APK can be had.
pub const NO_RUNNER_MESSAGE: &'static str = "No runner APK available. Either pass --runner <path> or use a release build that has the APKs embedded.";

/// The device directories the results may be in, tried in order.
pub open spec fn results_dir(i: nat) -> Seq<char> {
    if i == 0 {
        "/sdcard/Android/data/dev.podium.runner.test/files/podium/results"@
    } else {
        "/sdcard/Android/data/dev.podium.runner/files/podium/results"@
    }
}

/// How many result directories are tried.
pub const RESULT_DIRS: usize = 2;

fn results_dir_text(i: usize) -> (r: String)
    requires
        i < RESULT_DIRS,
    ensures
        r@ == results_dir(i as nat),
{
    if i == 0 {
        string_from("/sdcard/Android/data/dev.podium.runner.test/files/podium/results")
    } else {
        string_from("/sdcard/Android/data/dev.podium.runner/files/podium/results")
    }
}

pub open spec fn install_args(path: Seq<char>) -> Seq<Seq<char>> {
    seq!["install"@, "-r"@, path]
}

pub open spec fn push_args(f: FlowFileView) -> Seq<Seq<char>> {
    seq!["push"@, f.local, DEVICE_FLOWS_DIR@ + "/"@ + f.name]
}

pub open spec fn pull_args(i: nat, out_dir: Seq<char>) -> Seq<Seq<char>> {
    seq!["pull"@, results_dir(i), out_dir]
}

pub open spec fn clear_flows_args() -> Seq<Seq<char>> {
    seq!["shell"@, "rm"@, "-rf"@, DEVICE_FLOWS_DIR@]
}

pub open spec fn make_flows_dir_args() -> Seq<Seq<char>> {
    seq!["shell"@, "mkdir"@, "-p"@, DEVICE_FLOWS_DIR@]
}

/// The run ends as failed, with a message.
pub open spec fn failed(passed: bool, message: Seq<char>) -> (TestStage, bool, TestActionView) {
    (TestStage::Finished, passed, act(seq![NoteView::Stderr(message)], WorkView::Finish(false)))
}

pub open spec fn act(notes: Seq<NoteView>, work: WorkView) -> TestActionView {
    TestActionView { notes, work }
}

/// The lines that end a run whose instrumentation passed or failed.
pub open spec fn verdict_notes(passed: bool, out_dir: Seq<char>) -> Seq<NoteView> {
    if passed {
        seq![NoteView::Stdout("\nAll flows passed. Results in "@ + out_dir)]
    } else {
        seq![NoteView::Stderr("\nOne or more flows failed. Results in "@ + out_dir)]
    }
}

/// The rank of a stage: every step moves a run to a stage of smaller rank,
/// and only a finished run has rank 0.
pub open spec fn stage_rank(stage: TestStage, flows: nat) -> nat {
    match stage {
        TestStage::Finished => 0,
        TestStage::Pulling(i) => if i < 2 {
            (2 - i) as nat
        } else {
            1
        },
        TestStage::Running => 3,
        TestStage::Pushing(i) => if i < flows {
            (4 + flows - i) as nat
        } else {
            4
        },
        TestStage::MakingFlowsDir => 5 + flows,
        TestStage::ClearingFlows => 6 + flows,
        TestStage::InstallingRunner => 7 + flows,
        TestStage::AwaitRunnerApk => 8 + flows,
        TestStage::InstallingApp => 9 + flows,
        TestStage::AwaitAppApk => 10 + flows,
    }
}

/// A test run: its fixed inputs (the device's serial, the flows, the
/// variables handed to the flows and the local results directory), its
/// stage, and whether the instrumentation passed.
pub struct TestRun {
    serial: Option<String>,
    files: Vec<FlowFile>,
    env: EnvVars,
    out_dir: String,
    stage: TestStage,
    passed: bool,
}

impl TestRun {
    pub closed spec fn serial_of(&self) -> Option<Seq<char>> {
        opt_text(self.serial)
    }

    pub closed spec fn files_of(&self) -> Seq<FlowFileView> {
        self.files@.map_values(|f: FlowFile| f@)
    }

    pub closed spec fn env_of(&self) -> Seq<(Seq<char>, Seq<char>)> {
        env_pairs(&self.env)
    }

    pub closed spec fn out_dir_of(&self) -> Seq<char> {
        self.out_dir@
    }

    pub closed spec fn stage_of(&self) -> TestStage {
        self.stage
    }

    pub closed spec fn passed_of(&self) -> bool {
        self.passed
    }

    #[verifier::type_invariant]
    closed spec fn positions_valid(&self) -> bool {
        match self.stage {
            TestStage::Pushing(i) => i < self.files.len(),
            TestStage::Pulling(i) => i < RESULT_DIRS,
            _ => true,
        }
    }

    /// The same inputs.
    pub open spec fn same_inputs(&self, other: &TestRun) -> bool {
        &&& self.serial_of() == other.serial_of()
        &&& self.files_of() == other.files_of()
        &&& self.env_of() == other.env_of()
        &&& self.out_dir_of() == other.out_dir_of()
    }

    /// An adb command on the run's device.
    pub open spec fn adb(&self, args: Seq<Seq<char>>) -> WorkView {
        WorkView::Adb(serial_prefix(self.serial_of()) + args)
    }

    /// After the flows before position `k` are on the device: push the
    /// next one, or run the instrumentation when all are there.
    pub open spec fn push_from(&self, k: nat) -> (TestStage, TestActionView) {
        if k < self.files_of().len() {
            (TestStage::Pushing(k as usize), act(Seq::empty(), self.adb(push_args(self.files_of()[k as int]))))
        } else {
            (
                TestStage::Running,
                act(
                    seq![NoteView::Stdout("\nRunning flows\u{2026}\n"@)],
                    WorkView::Instrument(
                        serial_prefix(self.serial_of()) + instrument_args_spec(self.env_of()),
                    ),
                ),
            )
        }
    }

    /// What one step does: the next stage, whether the instrumentation
    /// passed, and the action. An event the stage does not wait for ends
    /// the run as failed.
    pub open spec fn step_spec(&self, e: TestEventView) -> (TestStage, bool, TestActionView) {
        let passed = self.passed_of();
        let out = self.out_dir_of();
        match (self.stage_of(), e) {
            (TestStage::AwaitAppApk, TestEventView::Apk(Some(p))) => (
                TestStage::InstallingApp,
                passed,
                act(seq![NoteView::Stdout("Installing app APK: "@ + p)], self.adb(install_args(p))),
            ),
            (TestStage::AwaitAppApk, TestEventView::Apk(None)) => (
                TestStage::AwaitRunnerApk,
                passed,
                act(Seq::empty(), WorkView::ResolveRunnerApk),
            ),
            (TestStage::InstallingApp, TestEventView::Command(true)) => (
                TestStage::AwaitRunnerApk,
                passed,
                act(Seq::empty(), WorkView::ResolveRunnerApk),
            ),
            (TestStage::InstallingApp, TestEventView::Command(false)) => failed(passed, "Failed to install app APK"@,
            ),
            (TestStage::AwaitRunnerApk, TestEventView::Apk(Some(p))) => (
                TestStage::InstallingRunner,
                passed,
                act(seq![NoteView::Stdout("Installing runner APK: "@ + p)], self.adb(install_args(p))),
            ),
            (TestStage::AwaitRunnerApk, TestEventView::Apk(None)) => failed(passed, NO_RUNNER_MESSAGE@),
            (TestStage::InstallingRunner, TestEventView::Command(true)) => (
                TestStage::ClearingFlows,
                passed,
                act(
                    seq![NoteView::Stdout("Pushing flows to device\u{2026}"@)],
                    self.adb(clear_flows_args()),
                ),
            ),
            (TestStage::InstallingRunner, TestEventView::Command(false)) => failed(passed, "Failed to install runner APK"@,
            ),
            (TestStage::ClearingFlows, TestEventView::Command(_)) => (
                TestStage::MakingFlowsDir,
                passed,
                act(Seq::empty(), self.adb(make_flows_dir_args())),
            ),
            (TestStage::MakingFlowsDir, TestEventView::Command(true)) => {
                let (stage, a) = self.push_from(0);
                (stage, passed, a)
            },
            (TestStage::MakingFlowsDir, TestEventView::Command(false)) => failed(passed, "Failed to create device flows dir"@,
            ),
            (TestStage::Pushing(i), TestEventView::Command(true)) => {
                let (stage, a) = self.push_from((i + 1) as nat);
                (stage, passed, a)
            },
            (TestStage::Pushing(i), TestEventView::Command(false)) => failed(passed, "Failed to push "@ + self.files_of()[i as int].shown,
            ),
            (TestStage::Running, TestEventView::Instrumented(ok)) => (
                TestStage::Pulling(0),
                ok,
                act(seq![NoteView::Stdout("\nPulling results\u{2026}"@)], self.adb(pull_args(0, out))),
            ),
            (TestStage::Pulling(_), TestEventView::Command(true)) => (
                TestStage::Finished,
                passed,
                act(verdict_notes(passed, out), WorkView::Finish(passed)),
            ),
            (TestStage::Pulling(i), TestEventView::Command(false)) => if i + 1 < RESULT_DIRS {
                (
                    TestStage::Pulling((i + 1) as usize),
                    passed,
                    act(Seq::empty(), self.adb(pull_args((i + 1) as nat, out))),
                )
            } else {
                (
                    TestStage::Finished,
                    passed,
                    act(
                        seq![NoteView::Stderr("  (no result files found on device)"@)] + verdict_notes(
                            passed,
                            out,
                        ),
                        WorkView::Finish(passed),
                    ),
                )
            },
            _ => (TestStage::Finished, passed, act(Seq::empty(), WorkView::Finish(false))),
        }
    }
}

fn note_out(head: &str, tail: &str) -> (r: Note)
    ensures
        r@ == NoteView::Stdout(head@ + tail@),
{
    let mut t = string_from(head);
    t.append(tail);
    Note::Stdout(t)
}

fn note_err(head: &str, tail: &str) -> (r: Note)
    ensures
        r@ == NoteView::Stderr(head@ + tail@),
{
    let mut t = string_from(head);
    t.append(tail);
    Note::Stderr(t)
}

fn out_text(t: &str) -> (r: Note)
    ensures
        r@ == NoteView::Stdout(t@),
{
    Note::Stdout(string_from(t))
}

fn err_text(t: &str) -> (r: Note)
    ensures
        r@ == NoteView::Stderr(t@),
{
    Note::Stderr(string_from(t))
}

fn with_notes(notes: Vec<Note>, work: Work) -> (r: TestAction)
    ensures
        r@ == act(notes@.map_values(|n: Note| n@), work@),
{
    TestAction { notes, work }
}

fn one_note(n: Note, work: Work) -> (r: TestAction)
    ensures
        r@ == act(seq![n@], work@),
{
    let ghost nv = n@;
    let mut notes: Vec<Note> = Vec::new();
    notes.push(n);
    assert(notes@.map_values(|n: Note| n@) =~= seq![nv]);
    with_notes(notes, work)
}

fn no_note(work: Work) -> (r: TestAction)
    ensures
        r@ == act(Seq::empty(), work@),
{
    let notes: Vec<Note> = Vec::new();
    assert(notes@.map_values(|n: Note| n@) =~= Seq::<NoteView>::empty());
    with_notes(notes, work)
}

/// The lines that end a run, after an optional line about missing results.
fn verdict(missing: bool, passed: bool, out_dir: &String) -> (r: TestAction)
    ensures
        r@ == act(
            if missing {
                seq![NoteView::Stderr("  (no result files found on device)"@)] + verdict_notes(
                    passed,
                    out_dir@,
                )
            } else {
                verdict_notes(passed, out_dir@)
            },
            WorkView::Finish(passed),
        ),
{
    let mut notes: Vec<Note> = Vec::new();
    if missing {
        notes.push(err_text("  (no result files found on device)"));
    }
    let ghost before = notes@.map_values(|n: Note| n@);
    let last = if passed {
        note_out("\nAll flows passed. Results in ", out_dir.as_str())
    } else {
        note_err("\nOne or more flows failed. Results in ", out_dir.as_str())
    };
    let ghost lv = last@;
    notes.push(last);
    assert(notes@.map_values(|n: Note| n@) =~= before.push(lv));
    proof {
        let vn = verdict_notes(passed, out_dir@);
        assert(vn =~= seq![lv]);
        if missing {
            assert(before =~= seq![NoteView::Stderr("  (no result files found on device)"@)]);
            assert(before.push(lv) =~= seq![
                NoteView::Stderr("  (no result files found on device)"@),
            ] + vn);
        } else {
            assert(before =~= Seq::<NoteView>::empty());
            assert(before.push(lv) =~= vn);
        }
    }
    with_notes(notes, Work::Finish(passed))
}

impl TestRun {
    /// A run over the given inputs; it begins by asking for the app APK.
    pub fn start(serial: Option<String>, files: Vec<FlowFile>, env: EnvVars, out_dir: String) -> (r: (
        TestRun,
        TestAction,
    ))
        ensures
            r.0.serial_of() == opt_text(serial),
            r.0.files_of() == files@.map_values(|f: FlowFile| f@),
            r.0.env_of() == env_pairs(&env),
            r.0.out_dir_of() == out_dir@,
            r.0.stage_of() == TestStage::AwaitAppApk,
            !r.0.passed_of(),
            r.1@ == act(Seq::empty(), WorkView::ResolveAppApk),
    {
        let run = TestRun { serial, files, env, out_dir, stage: TestStage::AwaitAppApk, passed: false };
        (run, no_note(Work::ResolveAppApk))
    }

    /// The run's device as adb arguments, before `args`.
    fn adb_work(&self, args: Vec<String>) -> (r: Work)
        ensures
            r@ == self.adb(texts(args@)),
    {
        Work::Adb(adb_args(&self.serial, &args))
    }

    fn install_work(&self, path: &String) -> (r: Work)
        ensures
            r@ == self.adb(install_args(path@)),
    {
        let mut v: Vec<String> = Vec::new();
        push_text(&mut v, "install");
        push_text(&mut v, "-r");
        push_string(&mut v, path.clone());
        assert(texts(v@) =~= install_args(path@));
        self.adb_work(v)
    }

    fn flows_dir_work(&self, verb: &str, flag: &str) -> (r: Work)
        ensures
            r@ == self.adb(seq!["shell"@, verb@, flag@, DEVICE_FLOWS_DIR@]),
    {
        let mut v: Vec<String> = Vec::new();
        push_text(&mut v, "shell");
        push_text(&mut v, verb);
        push_text(&mut v, flag);
        push_text(&mut v, DEVICE_FLOWS_DIR);
        assert(texts(v@) =~= seq!["shell"@, verb@, flag@, DEVICE_FLOWS_DIR@]);
        self.adb_work(v)
    }

    fn pull_work(&self, i: usize) -> (r: Work)
        requires
            i < RESULT_DIRS,
        ensures
            r@ == self.adb(pull_args(i as nat, self.out_dir_of())),
    {
        let mut v: Vec<String> = Vec::new();
        push_text(&mut v, "pull");
        push_string(&mut v, results_dir_text(i));
        push_string(&mut v, self.out_dir.clone());
        assert(texts(v@) =~= pull_args(i as nat, self.out_dir_of()));
        self.adb_work(v)
    }

    /// Pushes the flow at position `k`, or runs the instrumentation once all
    /// flows are on the device.
    fn next_push(&self, k: usize) -> (r: (TestStage, TestAction))
        ensures
            (r.0, r.1@) == self.push_from(k as nat),
    {
        if k < self.files.len() {
            let f = &self.files[k];
            assert(self.files_of()[k as int] == f@);
            let mut v: Vec<String> = Vec::new();
            push_text(&mut v, "push");
            push_string(&mut v, f.local.clone());
            push_string(&mut v, device_flow_path(f.name.as_str()));
            assert(texts(v@) =~= push_args(f@));
            (TestStage::Pushing(k), no_note(self.adb_work(v)))
        } else {
            let args = instrument_args(&self.env);
            assert(texts(args@) =~= instrument_args_spec(self.env_of()));
            let work = Work::Instrument(adb_args(&self.serial, &args));
            (TestStage::Running, one_note(out_text("\nRunning flows\u{2026}\n"), work))
        }
    }

    /// Takes what came of the last piece of work and decides the next.
    pub fn step(&mut self, e: TestEvent) -> (r: TestAction)
        ensures
            final(self).same_inputs(old(self)),
            (final(self).stage_of(), final(self).passed_of(), r@) == old(self).step_spec(e@),
    {
        proof {
            use_type_invariant(&*self);
        }
        let passed = self.passed;
        let unexpected = (TestStage::Finished, no_note(Work::Finish(false)));
        let (stage, action) = match self.stage {
            TestStage::AwaitAppApk => match e {
                TestEvent::Apk(Some(p)) => {
                    let work = self.install_work(&p);
                    (TestStage::InstallingApp, one_note(note_out("Installing app APK: ", p.as_str()), work))
                },
                TestEvent::Apk(None) => (TestStage::AwaitRunnerApk, no_note(Work::ResolveRunnerApk)),
                _ => unexpected,
            },
            TestStage::InstallingApp => match e {
                TestEvent::Command(true) => (TestStage::AwaitRunnerApk, no_note(Work::ResolveRunnerApk)),
                TestEvent::Command(false) => (
                    TestStage::Finished,
                    one_note(err_text("Failed to install app APK"), Work::Finish(false)),
                ),
                _ => unexpected,
            },
            TestStage::AwaitRunnerApk => match e {
                TestEvent::Apk(Some(p)) => {
                    let work = self.install_work(&p);
                    (
                        TestStage::InstallingRunner,
                        one_note(note_out("Installing runner APK: ", p.as_str()), work),
                    )
                },
                TestEvent::Apk(None) => (
                    TestStage::Finished,
                    one_note(err_text(NO_RUNNER_MESSAGE), Work::Finish(false)),
                ),
                _ => unexpected,
            },
            TestStage::InstallingRunner => match e {
                TestEvent::Command(true) => {
                    let work = self.flows_dir_work("rm", "-rf");
                    (
                        TestStage::ClearingFlows,
                        one_note(out_text("Pushing flows to device\u{2026}"), work),
                    )
                },
                TestEvent::Command(false) => (
                    TestStage::Finished,
                    one_note(err_text("Failed to install runner APK"), Work::Finish(false)),
                ),
                _ => unexpected,
            },
            TestStage::ClearingFlows => match e {
                TestEvent::Command(_) => (
                    TestStage::MakingFlowsDir,
                    no_note(self.flows_dir_work("mkdir", "-p")),
                ),
                _ => unexpected,
            },
            TestStage::MakingFlowsDir => match e {
                TestEvent::Command(true) => self.next_push(0),
                TestEvent::Command(false) => (
                    TestStage::Finished,
                    one_note(err_text("Failed to create device flows dir"), Work::Finish(false)),
                ),
                _ => unexpected,
            },
            TestStage::Pushing(i) => match e {
                TestEvent::Command(true) => self.next_push(i + 1),
                TestEvent::Command(false) => (
                    TestStage::Finished,
                    one_note(
                        note_err("Failed to push ", self.files[i].shown.as_str()),
                        Work::Finish(false),
                    ),
                ),
                _ => unexpected,
            },
            TestStage::Running => match e {
                TestEvent::Instrumented(ok) => {
                    self.passed = ok;
                    let work = self.pull_work(0);
                    (TestStage::Pulling(0), one_note(out_text("\nPulling results\u{2026}"), work))
                },
                _ => unexpected,
            },
            TestStage::Pulling(i) => match e {
                TestEvent::Command(true) => (TestStage::Finished, verdict(false, passed, &self.out_dir)),
                TestEvent::Command(false) => if i + 1 < RESULT_DIRS {
                    (TestStage::Pulling(i + 1), no_note(self.pull_work(i + 1)))
                } else {
                    (TestStage::Finished, verdict(true, passed, &self.out_dir))
                },
                _ => unexpected,
            },
            TestStage::Finished => unexpected,
        };
        self.stage = stage;
        action
    }
}

/// A run always ends: from an unfinished stage every step moves to a stage
/// of smaller rank, and no stage ranks above the number of flows plus ten,
/// so a run over `n` flows finishes within `n + 10` steps.
pub proof fn lemma_run_progresses(run: TestRun, e: TestEventView)
    requires
        run.stage_of() != TestStage::Finished,
    ensures
        stage_rank(run.step_spec(e).0, run.files_of().len()) < stage_rank(
            run.stage_of(),
            run.files_of().len(),
        ),
        stage_rank(run.stage_of(), run.files_of().len()) <= run.files_of().len() + 10,
{
    assert(run.files.len() == run.files_of().len());
}

/// A run ends with success only once it is looking for the results of an
/// instrumentation that passed.
pub proof fn lemma_success_needs_passing_run(run: TestRun, e: TestEventView)
    ensures
        run.step_spec(e).2.work == WorkView::Finish(true) ==> run.stage_of() is Pulling
            && run.passed_of(),
{
}

/// A failed install, a failed creation of the flows directory or a failed
/// push ends the run as failed.
pub proof fn lemma_failed_command_ends_run(run: TestRun)
    requires
        run.stage_of() is InstallingApp || run.stage_of() is InstallingRunner || run.stage_of() is MakingFlowsDir
            || run.stage_of() is Pushing,
    ensures
        run.step_spec(TestEventView::Command(false)).0 == TestStage::Finished,
        run.step_spec(TestEventView::Command(false)).2.work == WorkView::Finish(false),
{
}

/// The flows are pushed one after another in their order, starting with the
/// first once the flows directory exists; the instrumentation runs only
/// after the last push succeeded (or, without flows, right after the
/// directory was made).
pub proof fn lemma_pushes_in_order(run: TestRun, e: TestEventView)
    ensures
        run.step_spec(e).0 matches TestStage::Pushing(k) ==> e == TestEventView::Command(true)
            && if k == 0 {
            run.stage_of() == TestStage::MakingFlowsDir
        } else {
            run.stage_of() == TestStage::Pushing((k - 1) as usize)
        },
        run.step_spec(e).0 == TestStage::Running ==> e == TestEventView::Command(true) && (
        (run.stage_of() == TestStage::MakingFlowsDir && run.files_of().len() == 0) || (
        run.stage_of() matches TestStage::Pushing(i) && i + 1 >= run.files_of().len())),
{
    assert(run.files.len() == run.files_of().len());
}

} // verus!
