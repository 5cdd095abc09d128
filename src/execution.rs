//! The pipeline engine as a step machine. It decides; the caller performs
//! each action (opening files, spawning, waiting) and reports back what
//! happened as an event.
use vstd::prelude::*;
use vstd::string::*;
use crate::built_ins::{BuiltIn, built_in, built_in_of, exit_term, help, help_text};
use crate::directive::{Directive, FileOutputType, Stage};

verus! {

/// Where a stage reads its standard input from.
#[derive(Debug, Clone, Copy, PartialEq, Eq, Structural)]
pub enum Source {
    /// The caller's own standard input.
    Inherit,
    /// The stage's input file, opened for reading.
    InputFile,
    /// The standard output of the stage before it.
    PreviousStage,
}

/// Where a stage writes its standard output to.
#[derive(Debug, Clone, Copy, PartialEq, Eq, Structural)]
pub enum Sink {
    /// Captured by the engine and shown to the caller.
    Capture,
    /// The stage's output file, opened in the given mode.
    OutputFile(FileOutputType),
    /// The standard input of the stage after it.
    NextStage,
}

/// How to bring up one stage.
#[derive(Debug, Clone, Copy, PartialEq, Eq, Structural)]
pub struct Launch {
    pub stage: usize,
    pub stdin: Source,
    pub stdout: Sink,
}

/// Where a run of the engine stands.
#[derive(Debug, Clone, Copy, PartialEq, Eq, Structural)]
pub enum Phase {
    /// A built-in command is being carried out by the caller.
    BuiltIn,
    /// The stage with this index is being brought up.
    Launching(usize),
    /// All stages run; the engine waits for the last one.
    Waiting,
    /// The run is over.
    Done,
}

/// Why a pipeline is refused before anything runs.
#[derive(Debug, Clone, Copy, PartialEq, Eq, Structural)]
pub enum Misplaced {
    OutputBeforeLast,
    InputAfterFirst,
}

/// The result of one line.
#[derive(Debug)]
pub struct Outcome {
    /// False only when the session is to end.
    pub continue_session: bool,
    pub succeeded: bool,
    /// Text for the caller's standard output.
    pub output: String,
    /// Text for the caller's error stream.
    pub message: Option<String>,
}

pub struct OutcomeView {
    pub continue_session: bool,
    pub succeeded: bool,
    pub output: Seq<char>,
    pub message: Option<Seq<char>>,
}

impl View for Outcome {
    type V = OutcomeView;

    open spec fn view(&self) -> OutcomeView {
        OutcomeView {
            continue_session: self.continue_session,
            succeeded: self.succeeded,
            output: self.output@,
            message: match self.message {
                Some(m) => Some(m@),
                None => None,
            },
        }
    }
}

/// What the caller is asked to do next.
#[derive(Debug)]
pub enum Action {
    /// Change the working directory to the first stage's only argument.
    ChangeDirectory,
    /// Show the stages after the first.
    ShowDirectives,
    /// Show the lines submitted so far.
    ShowHistory,
    /// Open the stage's files as given and spawn it.
    Launch(Launch),
    /// Wait for the last stage and collect what the stages wrote.
    Wait,
    /// Report the outcome; nothing more follows.
    Finish(Outcome),
}

pub enum ActionView {
    ChangeDirectory,
    ShowDirectives,
    ShowHistory,
    Launch(Launch),
    Wait,
    Finish(OutcomeView),
}

impl View for Action {
    type V = ActionView;

    open spec fn view(&self) -> ActionView {
        match self {
            Action::ChangeDirectory => ActionView::ChangeDirectory,
            Action::ShowDirectives => ActionView::ShowDirectives,
            Action::ShowHistory => ActionView::ShowHistory,
            Action::Launch(l) => ActionView::Launch(*l),
            Action::Wait => ActionView::Wait,
            Action::Finish(o) => ActionView::Finish(o@),
        }
    }
}

/// What the last stage left behind once it has exited.
#[derive(Debug)]
pub struct Exit {
    /// What the last stage wrote to its standard output, if captured.
    pub stdout: String,
    /// What each stage wrote to its standard error, in stage order.
    pub stderr: Vec<String>,
    /// Whether the last stage's exit status is success.
    pub success: bool,
}

/// What the caller reports after carrying out an action.
#[derive(Debug)]
pub enum Event {
    BuiltInDone(Result<(), String>),
    Launched,
    InputUnavailable,
    OutputUnavailable,
    SpawnFailed(String),
    Exited(Exit),
}

pub enum EventView {
    BuiltInDone(Result<(), Seq<char>>),
    Launched,
    InputUnavailable,
    OutputUnavailable,
    SpawnFailed(Seq<char>),
    Exited(Seq<char>, Seq<Seq<char>>, bool),
}

impl View for Event {
    type V = EventView;

    open spec fn view(&self) -> EventView {
        match self {
            Event::BuiltInDone(Ok(_)) => EventView::BuiltInDone(Ok(())),
            Event::BuiltInDone(Err(m)) => EventView::BuiltInDone(Err(m@)),
            Event::Launched => EventView::Launched,
            Event::InputUnavailable => EventView::InputUnavailable,
            Event::OutputUnavailable => EventView::OutputUnavailable,
            Event::SpawnFailed(m) => EventView::SpawnFailed(m@),
            Event::Exited(x) => EventView::Exited(
                x.stdout@,
                x.stderr@.map_values(|e: String| e@),
                x.success,
            ),
        }
    }
}

pub open spec fn stages(ds: Seq<Directive>) -> Seq<Stage> {
    ds.map_values(|d: Directive| d@)
}

pub open spec fn failure(m: Seq<char>) -> OutcomeView {
    OutcomeView { continue_session: true, succeeded: false, output: Seq::empty(), message: Some(m) }
}

pub open spec fn stage_source(ds: Seq<Stage>, i: int) -> Source {
    if ds[i].input is Some {
        Source::InputFile
    } else if i == 0 {
        Source::Inherit
    } else {
        Source::PreviousStage
    }
}

pub open spec fn stage_sink(ds: Seq<Stage>, i: int) -> Sink {
    if ds[i].output is Some {
        Sink::OutputFile(
            if ds[i].output_mode == Some(FileOutputType::Append) {
                FileOutputType::Append
            } else {
                FileOutputType::Truncate
            },
        )
    } else if i + 1 < ds.len() {
        Sink::NextStage
    } else {
        Sink::Capture
    }
}

pub open spec fn plan(ds: Seq<Stage>, i: int) -> Launch {
    Launch { stage: i as usize, stdin: stage_source(ds, i), stdout: stage_sink(ds, i) }
}

pub open spec fn stage_fault(ds: Seq<Stage>, i: int) -> Option<Misplaced> {
    if i + 1 < ds.len() && ds[i].output is Some {
        Some(Misplaced::OutputBeforeLast)
    } else if i > 0 && ds[i].input is Some {
        Some(Misplaced::InputAfterFirst)
    } else {
        None
    }
}

/// The first misplaced redirection at or after stage `k`.
pub open spec fn first_fault(ds: Seq<Stage>, k: int) -> Option<Misplaced>
    decreases ds.len() - k,
{
    if k < 0 || k >= ds.len() {
        None
    } else if stage_fault(ds, k) is Some {
        stage_fault(ds, k)
    } else {
        first_fault(ds, k + 1)
    }
}

pub open spec fn fault_message(f: Misplaced) -> Seq<char> {
    match f {
        Misplaced::OutputBeforeLast => "Specified output before the final pipe"@,
        Misplaced::InputAfterFirst => "Input specified after the first pipe"@,
    }
}

/// The non-empty texts of `errs`, in order, joined by newlines.
pub open spec fn joined_errors(errs: Seq<Seq<char>>) -> Seq<char>
    decreases errs.len(),
{
    if errs.len() == 0 {
        Seq::empty()
    } else {
        let p = joined_errors(errs.drop_last());
        let l = errs.last();
        if l.len() == 0 {
            p
        } else if p.len() == 0 {
            l
        } else {
            p + seq!['\n'] + l
        }
    }
}

/// `t` stands somewhere in `m` as a contiguous piece.
pub open spec fn occurs_in(t: Seq<char>, m: Seq<char>) -> bool {
    exists|i: int| 0 <= i && i + t.len() <= m.len() && #[trigger] m.subrange(i, i + t.len()) == t
}

/// Anything written to standard error fails the pipeline, with every
/// stage's text as the message; otherwise the captured output is shown and
/// the last exit status decides.
pub open spec fn conclusion(stdout: Seq<char>, stderr: Seq<Seq<char>>, success: bool) -> OutcomeView {
    let m = joined_errors(stderr);
    if m.len() > 0 {
        failure(m)
    } else {
        OutcomeView { continue_session: true, succeeded: success, output: stdout, message: None }
    }
}

/// The first step of a run.
pub open spec fn start(ds: Seq<Stage>) -> (Phase, ActionView) {
    match built_in_of(ds[0].cmd) {
        Some(BuiltIn::Exit) => (
            Phase::Done,
            ActionView::Finish(
                OutcomeView {
                    continue_session: false,
                    succeeded: true,
                    output: Seq::empty(),
                    message: None,
                },
            ),
        ),
        Some(BuiltIn::Help) => (
            Phase::Done,
            ActionView::Finish(
                OutcomeView {
                    continue_session: true,
                    succeeded: true,
                    output: help_text(),
                    message: None,
                },
            ),
        ),
        Some(BuiltIn::ChangeDirectory) => if ds[0].args.len() == 1 {
            (Phase::BuiltIn, ActionView::ChangeDirectory)
        } else {
            (Phase::Done, ActionView::Finish(failure("Invalid syntax"@)))
        },
        Some(BuiltIn::ViewDirectives) => (Phase::BuiltIn, ActionView::ShowDirectives),
        Some(BuiltIn::ViewHistory) => (Phase::BuiltIn, ActionView::ShowHistory),
        None => match first_fault(ds, 0) {
            Some(f) => (Phase::Done, ActionView::Finish(failure(fault_message(f)))),
            None => (Phase::Launching(0), ActionView::Launch(plan(ds, 0))),
        },
    }
}

/// Which events the engine expects in each phase.
pub open spec fn expects(ds: Seq<Stage>, p: Phase, e: EventView) -> bool {
    match p {
        Phase::BuiltIn => e is BuiltInDone,
        Phase::Launching(i) => i < ds.len() && (e is Launched || e is InputUnavailable
            || e is OutputUnavailable || e is SpawnFailed),
        Phase::Waiting => e is Exited,
        Phase::Done => false,
    }
}

/// The step after event `e` in phase `p`.
pub open spec fn advance(ds: Seq<Stage>, p: Phase, e: EventView) -> (Phase, ActionView) {
    match e {
        EventView::BuiltInDone(Ok(_)) => (
            Phase::Done,
            ActionView::Finish(
                OutcomeView {
                    continue_session: true,
                    succeeded: true,
                    output: Seq::empty(),
                    message: None,
                },
            ),
        ),
        EventView::BuiltInDone(Err(m)) => (Phase::Done, ActionView::Finish(failure(m))),
        EventView::Launched => {
            let i = match p {
                Phase::Launching(i) => i as int,
                _ => 0,
            };
            if i + 1 < ds.len() {
                (Phase::Launching((i + 1) as usize), ActionView::Launch(plan(ds, i + 1)))
            } else {
                (Phase::Waiting, ActionView::Wait)
            }
        },
        EventView::InputUnavailable => (
            Phase::Done,
            ActionView::Finish(failure("Unable to open input file"@)),
        ),
        EventView::OutputUnavailable => (
            Phase::Done,
            ActionView::Finish(failure("Unable to open output file"@)),
        ),
        EventView::SpawnFailed(m) => (Phase::Done, ActionView::Finish(failure(m))),
        EventView::Exited(out, errs, ok) => (
            Phase::Done,
            ActionView::Finish(conclusion(out, errs, ok)),
        ),
    }
}

fn fail_with(m: String) -> (r: Outcome)
    ensures
        r@ == failure(m@),
{
    Outcome { continue_session: true, succeeded: false, output: String::new(), message: Some(m) }
}

/// How stage `i` is wired.
pub fn plan_stage(ds: &Vec<Directive>, i: usize) -> (r: Launch)
    requires
        i < ds.len(),
    ensures
        r == plan(stages(ds@), i as int),
{
    let d = &ds[i];
    let stdin = if d.input_filename.is_some() {
        Source::InputFile
    } else if i == 0 {
        Source::Inherit
    } else {
        Source::PreviousStage
    };
    let stdout = if d.output_filename.is_some() {
        match d.file_output_type {
            Some(FileOutputType::Append) => Sink::OutputFile(FileOutputType::Append),
            _ => Sink::OutputFile(FileOutputType::Truncate),
        }
    } else if i + 1 < ds.len() {
        Sink::NextStage
    } else {
        Sink::Capture
    };
    Launch { stage: i, stdin, stdout }
}

/// The first misplaced redirection of the pipeline, if any.
pub fn find_fault(ds: &Vec<Directive>) -> (r: Option<Misplaced>)
    ensures
        r == first_fault(stages(ds@), 0),
{
    let ghost s = stages(ds@);
    let n = ds.len();
    let mut i: usize = 0;
    while i < n
        invariant
            n == ds.len(),
            s == stages(ds@),
            i <= n,
            first_fault(s, 0) == first_fault(s, i as int),
        decreases n - i,
    {
        let d = &ds[i];
        if i + 1 < n && d.output_filename.is_some() {
            return Some(Misplaced::OutputBeforeLast);
        }
        if i > 0 && d.input_filename.is_some() {
            return Some(Misplaced::InputAfterFirst);
        }
        i = i + 1;
    }
    None
}

fn fault_text(f: Misplaced) -> (r: String)
    ensures
        r@ == fault_message(f),
{
    match f {
        Misplaced::OutputBeforeLast => String::from_str("Specified output before the final pipe"),
        Misplaced::InputAfterFirst => String::from_str("Input specified after the first pipe"),
    }
}

/// The outcome once the last stage has exited.
pub fn conclude(x: Exit) -> (r: Outcome)
    ensures
        r@ == conclusion(x.stdout@, x.stderr@.map_values(|e: String| e@), x.success),
{
    let ghost errs = x.stderr@.map_values(|e: String| e@);
    let Exit { stdout, stderr, success } = x;
    let n = stderr.len();
    let mut msg = String::new();
    let mut i: usize = 0;
    proof {
        assert(errs.take(0) =~= Seq::<Seq<char>>::empty());
    }
    while i < n
        invariant
            n == stderr.len(),
            errs == stderr@.map_values(|e: String| e@),
            i <= n,
            msg@ == joined_errors(errs.take(i as int)),
        decreases n - i,
    {
        proof {
            assert(errs.take(i + 1).drop_last() =~= errs.take(i as int));
            assert(errs.take(i + 1).last() == stderr@[i as int]@);
        }
        let e = stderr[i].as_str();
        if e.unicode_len() > 0 {
            if msg.as_str().unicode_len() > 0 {
                msg = msg.concat("\n");
                proof {
                    reveal_strlit("\n");
                    assert("\n"@ =~= seq!['\n']);
                }
            }
            msg = msg.concat(e);
        }
        proof {
            assert(msg@ =~= joined_errors(errs.take(i + 1)));
        }
        i = i + 1;
    }
    proof {
        assert(errs.take(n as int) =~= errs);
    }
    if msg.as_str().unicode_len() > 0 {
        fail_with(msg)
    } else {
        Outcome { continue_session: true, succeeded: success, output: stdout, message: None }
    }
}

/// Takes the first step of running a parsed line: a built-in is handled
/// (or handed to the caller) at once, a misplaced redirection refuses the
/// whole pipeline, and otherwise the first stage is to be launched.
pub fn handle_directives(ds: &Vec<Directive>) -> (r: (Phase, Action))
    requires
        ds.len() > 0,
    ensures
        (r.0, r.1@) == start(stages(ds@)),
{
    let ghost s = stages(ds@);
    assert(s[0] == ds@[0]@);
    match built_in(&ds[0].cmd) {
        Some(BuiltIn::Exit) => (Phase::Done, Action::Finish(exit_term())),
        Some(BuiltIn::Help) => (Phase::Done, Action::Finish(help())),
        Some(BuiltIn::ChangeDirectory) => {
            if ds[0].args.len() == 1 {
                (Phase::BuiltIn, Action::ChangeDirectory)
            } else {
                (Phase::Done, Action::Finish(fail_with(String::from_str("Invalid syntax"))))
            }
        },
        Some(BuiltIn::ViewDirectives) => (Phase::BuiltIn, Action::ShowDirectives),
        Some(BuiltIn::ViewHistory) => (Phase::BuiltIn, Action::ShowHistory),
        None => match find_fault(ds) {
            Some(f) => (Phase::Done, Action::Finish(fail_with(fault_text(f)))),
            None => (Phase::Launching(0), Action::Launch(plan_stage(ds, 0))),
        },
    }
}

impl Phase {
    /// Whether the engine expects `e` in this phase.
    pub fn accepts(&self, ds: &Vec<Directive>, e: &Event) -> (r: bool)
        ensures
            r == expects(stages(ds@), *self, e@),
    {
        match self {
            Phase::BuiltIn => matches!(e, Event::BuiltInDone(_)),
            Phase::Launching(i) => *i < ds.len() && matches!(
                e,
                Event::Launched | Event::InputUnavailable | Event::OutputUnavailable
                    | Event::SpawnFailed(_)
            ),
            Phase::Waiting => matches!(e, Event::Exited(_)),
            Phase::Done => false,
        }
    }
}

/// Takes the next step after the caller reports event `e`.
pub fn resume(ds: &Vec<Directive>, p: Phase, e: Event) -> (r: (Phase, Action))
    requires
        expects(stages(ds@), p, e@),
    ensures
        (r.0, r.1@) == advance(stages(ds@), p, e@),
{
    match e {
        Event::BuiltInDone(Ok(_)) => (
            Phase::Done,
            Action::Finish(
                Outcome {
                    continue_session: true,
                    succeeded: true,
                    output: String::new(),
                    message: None,
                },
            ),
        ),
        Event::BuiltInDone(Err(m)) => (Phase::Done, Action::Finish(fail_with(m))),
        Event::Launched => {
            assert(stages(ds@).len() == ds.len());
            let i = match p {
                Phase::Launching(i) => i,
                _ => 0,
            };
            if i + 1 < ds.len() {
                (Phase::Launching(i + 1), Action::Launch(plan_stage(ds, i + 1)))
            } else {
                (Phase::Waiting, Action::Wait)
            }
        },
        Event::InputUnavailable => (
            Phase::Done,
            Action::Finish(fail_with(String::from_str("Unable to open input file"))),
        ),
        Event::OutputUnavailable => (
            Phase::Done,
            Action::Finish(fail_with(String::from_str("Unable to open output file"))),
        ),
        Event::SpawnFailed(m) => (Phase::Done, Action::Finish(fail_with(m))),
        Event::Exited(x) => (Phase::Done, Action::Finish(conclude(x))),
    }
}

proof fn lemma_fault_found(ds: Seq<Stage>, k: int, i: int)
    requires
        0 <= k <= i < ds.len(),
        stage_fault(ds, i) is Some,
    ensures
        first_fault(ds, k) is Some,
    decreases i - k,
{
    if stage_fault(ds, k) is None {
        lemma_fault_found(ds, k + 1, i);
    }
}

/// A pipeline in which a stage before the last redirects its output is
/// refused at the first step: the run is over and no stage is launched.
pub proof fn law_misplaced_output_rejected(ds: Seq<Stage>, i: int)
    requires
        built_in_of(ds[0].cmd) is None,
        0 <= i,
        i + 1 < ds.len(),
        ds[i].output is Some,
    ensures
        start(ds).0 == Phase::Done,
        start(ds).1 is Finish,
        !start(ds).1->Finish_0.succeeded,
        start(ds).1->Finish_0.continue_session,
        start(ds).1->Finish_0.message is Some,
{
    lemma_fault_found(ds, 0, i);
}

/// In a pipeline that is run, the first stage reads the caller's own
/// standard input unless it names an input file.
pub proof fn law_first_stage_inherits(ds: Seq<Stage>)
    requires
        ds.len() > 0,
        built_in_of(ds[0].cmd) is None,
        first_fault(ds, 0) is None,
        ds[0].input is None,
    ensures
        start(ds) == (Phase::Launching(0), ActionView::Launch(
            Launch { stage: 0, stdin: Source::Inherit, stdout: stage_sink(ds, 0) },
        )),
{
}

/// In a pipeline that is run, each stage after the first reads what the
/// stage before it writes.
pub proof fn law_stages_chained(ds: Seq<Stage>, i: int)
    requires
        first_fault(ds, 0) is None,
        0 < i < ds.len(),
    ensures
        plan(ds, i).stdin == Source::PreviousStage,
        plan(ds, i - 1).stdout == Sink::NextStage,
{
    if stage_fault(ds, i) is Some {
        lemma_fault_found(ds, 0, i);
    }
    if stage_fault(ds, i - 1) is Some {
        lemma_fault_found(ds, 0, i - 1);
    }
}

proof fn lemma_joined_contains(errs: Seq<Seq<char>>, k: int)
    requires
        0 <= k < errs.len(),
        errs[k].len() > 0,
    ensures
        joined_errors(errs).len() > 0,
        occurs_in(errs[k], joined_errors(errs)),
    decreases errs.len(),
{
    let p = joined_errors(errs.drop_last());
    let l = errs.last();
    let m = joined_errors(errs);
    let t = errs[k];
    if k == errs.len() - 1 {
        if p.len() == 0 {
            let z: int = 0;
            assert(m.subrange(z, z + t.len()) =~= t);
        } else {
            let i: int = p.len() as int + 1;
            assert(m.subrange(i, i + t.len()) =~= t);
        }
    } else {
        assert(errs.drop_last()[k] == t);
        lemma_joined_contains(errs.drop_last(), k);
        let i = choose|i: int|
            0 <= i && i + t.len() <= p.len() && #[trigger] p.subrange(i, i + t.len()) == t;
        if l.len() > 0 {
            assert(m.subrange(i, i + t.len()) =~= p.subrange(i, i + t.len()));
        }
    }
}

proof fn lemma_joined_silent(errs: Seq<Seq<char>>)
    requires
        forall|j: int| 0 <= j < errs.len() ==> (#[trigger] errs[j]).len() == 0,
    ensures
        joined_errors(errs).len() == 0,
    decreases errs.len(),
{
    if errs.len() > 0 {
        let p = errs.drop_last();
        assert forall|j: int| 0 <= j < p.len() implies (#[trigger] p[j]).len() == 0 by {
            assert(p[j] == errs[j]);
        }
        lemma_joined_silent(p);
        assert(errs[errs.len() - 1].len() == 0);
    }
}

proof fn lemma_joined_single(errs: Seq<Seq<char>>, k: int)
    requires
        0 <= k < errs.len(),
        forall|j: int| 0 <= j < errs.len() && j != k ==> (#[trigger] errs[j]).len() == 0,
    ensures
        joined_errors(errs) == errs[k],
    decreases errs.len(),
{
    let p = errs.drop_last();
    if k == errs.len() - 1 {
        assert forall|j: int| 0 <= j < p.len() implies (#[trigger] p[j]).len() == 0 by {
            assert(p[j] == errs[j]);
        }
        lemma_joined_silent(p);
    } else {
        assert forall|j: int| 0 <= j < p.len() && j != k implies (#[trigger] p[j]).len() == 0 by {
            assert(p[j] == errs[j]);
        }
        lemma_joined_single(p, k);
        assert(errs[errs.len() - 1].len() == 0);
    }
}

/// Text on the standard error of any stage, the middle ones included,
/// fails the whole pipeline whatever the last stage's exit status: the run
/// ends unsuccessful, the captured output is not shown, and that text
/// stands in the message (beside what the other stages wrote).
pub proof fn law_stderr_fails(ds: Seq<Stage>, out: Seq<char>, errs: Seq<Seq<char>>, ok: bool, k: int)
    requires
        0 <= k < errs.len(),
        errs[k].len() > 0,
    ensures
        ({
            let r = advance(ds, Phase::Waiting, EventView::Exited(out, errs, ok));
            &&& r.0 == Phase::Done
            &&& r.1 is Finish
            &&& !r.1->Finish_0.succeeded
            &&& r.1->Finish_0.continue_session
            &&& r.1->Finish_0.output.len() == 0
            &&& r.1->Finish_0.message is Some
            &&& occurs_in(errs[k], r.1->Finish_0.message->0)
        }),
{
    lemma_joined_contains(errs, k);
}

/// Where only one stage wrote to standard error, its text is the message,
/// whatever the last stage's exit status.
pub proof fn law_single_stderr_is_message(
    ds: Seq<Stage>,
    out: Seq<char>,
    errs: Seq<Seq<char>>,
    ok: bool,
    k: int,
)
    requires
        0 <= k < errs.len(),
        errs[k].len() > 0,
        forall|j: int| 0 <= j < errs.len() && j != k ==> (#[trigger] errs[j]).len() == 0,
    ensures
        advance(ds, Phase::Waiting, EventView::Exited(out, errs, ok)) == (
            Phase::Done,
            ActionView::Finish(failure(errs[k])),
        ),
{
    lemma_joined_single(errs, k);
}

} // verus!
