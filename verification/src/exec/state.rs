//! The state of the executor, and what it and its caller tell each other.

use vstd::prelude::*;

use super::rules::{
    ActionV, EventV, FrameV, InputV, MachineV, NextV, OutputV, SavedV, SpawnedV, StepV, TaskV,
    WorkV,
};
use crate::ast::{
    branches_view, list_option_view, AndOrList, Command, CommandList, CompoundCommand, Pipeline,
};
use crate::builtins::{all_named_view, changes_view, DirectoryChange, Ran, Waiting};
use crate::expand::{output_view, Answers};
use crate::jobs::ChildStatus;
use crate::shell::{ShellV, TrapChange};
use crate::text::texts;
use crate::text_map::TextMap;
use crate::traps::text_option;

verus! {

// ---- the state ------------------------------------------------------------------------------

/// Work to be run.
#[derive(Debug)]
pub enum Work {
    List(CommandList),
    AndOr(AndOrList),
    Pipeline(Pipeline),
    /// A command of a pipeline, with the bytes that the one before it wrote.
    Command { command: Command, input: Option<Vec<u8>>, capture: bool },
    Compound(CompoundCommand),
}

/// Something under way.
#[derive(Debug)]
pub enum Frame {
    /// A whole program.
    Program,
    /// The trap of the end of the shell, which then exits with this status.
    ExitWith(i32),
    /// A list, of which items `next` on are still to be run.
    List { list: CommandList, next: usize },
    /// An and-or list, of which the pipelines from `next` on are still ahead.
    AndOr { list: AndOrList, next: usize },
    /// A pipeline, of which commands `next` on are still to be run.
    Pipe { pipeline: Pipeline, next: usize },
    /// An `if` whose condition number `branch` is being run.
    If {
        branches: Vec<(CommandList, CommandList)>,
        else_branch: Option<CommandList>,
        branch: usize,
    },
    /// A `while` or `until` whose condition or body is being run.
    Loop {
        condition: CommandList,
        body: CommandList,
        until: bool,
        testing: bool,
        status: i32,
    },
    /// A `for`, with values `next` on still ahead.
    For { name: String, values: Vec<String>, next: usize, body: CommandList, status: i32 },
    /// A function call, with what it has replaced.
    Call {
        positional: Vec<String>,
        loop_depth: u32,
        saved: Vec<(String, Option<String>)>,
    },
    /// A builtin, with what it has replaced and where its output goes.
    Builtin {
        saved: Vec<(String, Option<String>)>,
        output: Option<(String, bool)>,
        capture: bool,
    },
}

/// What is to be done next.
#[derive(Debug)]
pub enum Task {
    /// Run this.
    Run(Work),
    /// Hand a status, and perhaps output, to the innermost frame.
    Return { status: i32, output: Option<Vec<u8>> },
    /// A program is running.
    Spawn {
        name: String,
        input: Option<String>,
        output: Option<(String, bool)>,
        capture: bool,
    },
    /// A subshell is running.
    Subshell,
    /// The output of a builtin is being written to a file.
    Write { target: String, status: i32 },
    /// `cd` is changing the directory.
    Cd(String),
    /// `fg` is running this job.
    Fg(u32),
    /// `bg` is resuming a job.
    Bg { id: u32, command: String },
    /// `wait` is waiting.
    Wait(Waiting),
    /// `trap` is looking up signals.
    Signals(Vec<String>),
    /// `trap` is setting dispositions.
    Dispositions { ran: Ran, changes: Vec<TrapChange> },
    /// A command of the program around the shell is running.
    Hosted,
    /// Everything has been run.
    Stop(i32),
    /// The shell is to exit.
    Exit(i32),
}

/// The executor.
#[derive(Debug)]
pub struct Machine {
    pub frames: Vec<Frame>,
    pub task: Task,
    /// The answers that the expansion under way has got.
    pub answers: Answers,
}

/// Where the standard input of a program comes from.
#[derive(Debug)]
pub enum Input {
    Inherit,
    File(String),
    Data(Vec<u8>),
}

/// Where the standard output of a program goes.
#[derive(Debug)]
pub enum Output {
    Inherit,
    Capture,
    File { target: String, append: bool },
}

/// What the caller has to do.
#[derive(Debug)]
pub enum Action {
    /// Run a command in a subshell and read its output.
    CommandOutput { body: String, env: TextMap<String> },
    /// Read the entries of the current directory.
    DirectoryEntries,
    /// Run a program.
    Spawn {
        name: String,
        args: Vec<String>,
        env: TextMap<String>,
        input: Input,
        output: Output,
    },
    /// Run a subshell.
    Subshell { source: String, env: TextMap<String> },
    /// Write bytes to a file.
    WriteFile { target: String, append: bool, data: Vec<u8> },
    /// Change the working directory.
    ChangeDirectory(String),
    /// Give a job the terminal, let it go on, and wait until it ends or stops.
    ResumeForeground(u32),
    /// Let a process group go on in the background.
    ResumeBackground(i32),
    /// Wait until a child changes.
    WaitForChild,
    /// Look up the signals that these texts name.
    ResolveSignals(Vec<String>),
    /// Set the dispositions of signals.
    SetDispositions(Vec<TrapChange>),
    /// Run a command of the program around the shell.
    Hosted { number: u32, args: Vec<String> },
}

/// How a process ended.
#[derive(Debug, Clone, Copy, PartialEq, Eq, Structural)]
pub enum Exit {
    /// With this status.
    Code(i32),
    /// By this signal.
    Signal(i32),
}

/// How a program went.
#[derive(Debug)]
pub enum Spawned {
    /// The file for its input could not be opened.
    NoInput(String),
    /// The file for its output could not be opened.
    NoOutput(String),
    /// It could not be started.
    NotStarted(String),
    /// It could not be waited for.
    NotWaited(String),
    /// It ended.
    Ended { how: Exit, output: Vec<u8> },
}

/// What the caller reports.
#[derive(Debug)]
pub enum Event {
    /// Nothing: go on.
    Go,
    CommandOutput(Result<String, String>),
    DirectoryEntries(Vec<String>),
    Spawned(Spawned),
    /// A subshell ended, or could not be run.
    SubshellEnded(Result<Exit, String>),
    Written(Result<(), String>),
    DirectoryChanged(DirectoryChange),
    /// A job was resumed in the foreground, and this was observed of its leader.
    ForegroundChanged(Result<ChildStatus, String>),
    BackgroundResumed(Result<(), String>),
    /// A child changed; `None` if there is none to wait for.
    ChildChanged(Option<(i32, ChildStatus)>),
    SignalsResolved(Vec<Result<Option<String>, String>>),
    /// For each change, whether it was made.
    DispositionsSet(Vec<bool>),
    HostedEnded(Ran),
}

/// What follows a step.
#[derive(Debug)]
pub enum Next {
    /// Another step.
    Continue,
    /// The caller does something and reports it.
    Perform(Action),
    /// All has been run.
    Finished(i32),
    /// The shell exits.
    Exit(i32),
    /// The report does not belong to what was to be done: nothing has changed.
    Mismatch,
}

/// The outcome of a step.
#[derive(Debug)]
pub struct Outcome {
    /// What is to be written to standard output.
    pub stdout: Vec<u8>,
    /// What is to be written to standard error.
    pub stderr: String,
    pub next: Next,
}

// ---- views ----------------------------------------------------------------------------------

/// The view of optional bytes.
pub open spec fn bytes_option(b: Option<Vec<u8>>) -> Option<Seq<u8>> {
    match b {
        Some(b) => Some(b@),
        None => None,
    }
}

/// The view of an optional target.
pub open spec fn target_option(t: Option<(String, bool)>) -> Option<(Seq<char>, bool)> {
    match t {
        Some((target, append)) => Some((target@, append)),
        None => None,
    }
}

/// The view of saved variables.
pub open spec fn saved_view(s: Seq<(String, Option<String>)>) -> SavedV {
    s.map_values(|p: (String, Option<String>)| (p.0@, text_option(p.1)))
}

/// The view of a report that is only a message, if there is one.
pub open spec fn unit_result(r: Result<(), String>) -> Result<(), Seq<char>> {
    match r {
        Ok(_) => Ok(()),
        Err(e) => Err(e@),
    }
}

impl View for Work {
    type V = WorkV;

    open spec fn view(&self) -> WorkV {
        match self {
            Work::List(list) => WorkV::List(list@),
            Work::AndOr(list) => WorkV::AndOr(list@),
            Work::Pipeline(pipeline) => WorkV::Pipeline(pipeline@),
            Work::Command { command, input, capture } => WorkV::Command {
                command: command@,
                input: bytes_option(*input),
                capture: *capture,
            },
            Work::Compound(c) => WorkV::Compound(c@),
        }
    }
}

impl View for Frame {
    type V = FrameV;

    open spec fn view(&self) -> FrameV {
        match self {
            Frame::Program => FrameV::Program,
            Frame::ExitWith(code) => FrameV::ExitWith(*code),
            Frame::List { list, next } => FrameV::List { list: list@, next: *next as nat },
            Frame::AndOr { list, next } => FrameV::AndOr { list: list@, next: *next as nat },
            Frame::Pipe { pipeline, next } => FrameV::Pipe {
                commands: pipeline@,
                next: *next as nat,
            },
            Frame::If { branches, else_branch, branch } => FrameV::If {
                branches: branches_view(branches@),
                else_branch: list_option_view(*else_branch),
                branch: *branch as nat,
            },
            Frame::Loop { condition, body, until, testing, status } => FrameV::Loop {
                condition: condition@,
                body: body@,
                until: *until,
                testing: *testing,
                status: *status,
            },
            Frame::For { name, values, next, body, status } => FrameV::For {
                name: name@,
                values: texts(values@),
                next: *next as nat,
                body: body@,
                status: *status,
            },
            Frame::Call { positional, loop_depth, saved } => FrameV::Call {
                positional: texts(positional@),
                loop_depth: *loop_depth,
                saved: saved_view(saved@),
            },
            Frame::Builtin { saved, output, capture } => FrameV::Builtin {
                saved: saved_view(saved@),
                output: target_option(*output),
                capture: *capture,
            },
        }
    }
}

impl View for Task {
    type V = TaskV;

    open spec fn view(&self) -> TaskV {
        match self {
            Task::Run(work) => TaskV::Run(work@),
            Task::Return { status, output } => TaskV::Return {
                status: *status,
                output: bytes_option(*output),
            },
            Task::Spawn { name, input, output, capture } => TaskV::Spawn {
                name: name@,
                input: text_option(*input),
                output: target_option(*output),
                capture: *capture,
            },
            Task::Subshell => TaskV::Subshell,
            Task::Write { target, status } => TaskV::Write { target: target@, status: *status },
            Task::Cd(target) => TaskV::Cd(target@),
            Task::Fg(id) => TaskV::Fg(*id),
            Task::Bg { id, command } => TaskV::Bg { id: *id, command: command@ },
            Task::Wait(w) => TaskV::Wait(w@),
            Task::Signals(args) => TaskV::Signals(texts(args@)),
            Task::Dispositions { ran, changes } => TaskV::Dispositions {
                ran: ran@,
                changes: changes_view(changes@),
            },
            Task::Hosted => TaskV::Hosted,
            Task::Stop(status) => TaskV::Stop(*status),
            Task::Exit(code) => TaskV::Exit(*code),
        }
    }
}

/// The views of a stack of frames.
pub open spec fn stack_view(s: Seq<Frame>) -> Seq<FrameV> {
    s.map_values(|f: Frame| f@)
}

impl View for Machine {
    type V = MachineV;

    open spec fn view(&self) -> MachineV {
        MachineV {
            frames: stack_view(self.frames@),
            task: self.task@,
            answers: self.answers@,
        }
    }
}

impl View for Input {
    type V = InputV;

    open spec fn view(&self) -> InputV {
        match self {
            Input::Inherit => InputV::Inherit,
            Input::File(target) => InputV::File(target@),
            Input::Data(data) => InputV::Data(data@),
        }
    }
}

impl View for Output {
    type V = OutputV;

    open spec fn view(&self) -> OutputV {
        match self {
            Output::Inherit => OutputV::Inherit,
            Output::Capture => OutputV::Capture,
            Output::File { target, append } => OutputV::File { target: target@, append: *append },
        }
    }
}

impl View for Action {
    type V = ActionV;

    open spec fn view(&self) -> ActionV {
        match self {
            Action::CommandOutput { body, env } => ActionV::CommandOutput {
                body: body@,
                env: env@,
            },
            Action::DirectoryEntries => ActionV::DirectoryEntries,
            Action::Spawn { name, args, env, input, output } => ActionV::Spawn {
                name: name@,
                args: texts(args@),
                env: env@,
                input: input@,
                output: output@,
            },
            Action::Subshell { source, env } => ActionV::Subshell { source: source@, env: env@ },
            Action::WriteFile { target, append, data } => ActionV::WriteFile {
                target: target@,
                append: *append,
                data: data@,
            },
            Action::ChangeDirectory(target) => ActionV::ChangeDirectory(target@),
            Action::ResumeForeground(id) => ActionV::ResumeForeground(*id),
            Action::ResumeBackground(pgid) => ActionV::ResumeBackground(*pgid),
            Action::WaitForChild => ActionV::WaitForChild,
            Action::ResolveSignals(specs) => ActionV::ResolveSignals(texts(specs@)),
            Action::SetDispositions(changes) => ActionV::SetDispositions(changes_view(changes@)),
            Action::Hosted { number, args } => ActionV::Hosted {
                number: *number,
                args: texts(args@),
            },
        }
    }
}

impl View for Spawned {
    type V = SpawnedV;

    open spec fn view(&self) -> SpawnedV {
        match self {
            Spawned::NoInput(e) => SpawnedV::NoInput(e@),
            Spawned::NoOutput(e) => SpawnedV::NoOutput(e@),
            Spawned::NotStarted(e) => SpawnedV::NotStarted(e@),
            Spawned::NotWaited(e) => SpawnedV::NotWaited(e@),
            Spawned::Ended { how, output } => SpawnedV::Ended { how: *how, output: output@ },
        }
    }
}

impl View for Event {
    type V = EventV;

    open spec fn view(&self) -> EventV {
        match self {
            Event::Go => EventV::Go,
            Event::CommandOutput(r) => EventV::CommandOutput(output_view(*r)),
            Event::DirectoryEntries(l) => EventV::DirectoryEntries(texts(l@)),
            Event::Spawned(how) => EventV::Spawned(how@),
            Event::SubshellEnded(r) => EventV::SubshellEnded(
                match *r {
                    Ok(how) => Ok(how),
                    Err(e) => Err(e@),
                },
            ),
            Event::Written(r) => EventV::Written(unit_result(*r)),
            Event::DirectoryChanged(change) => EventV::DirectoryChanged(*change),
            Event::ForegroundChanged(r) => EventV::ForegroundChanged(
                match *r {
                    Ok(status) => Ok(status),
                    Err(e) => Err(e@),
                },
            ),
            Event::BackgroundResumed(r) => EventV::BackgroundResumed(unit_result(*r)),
            Event::ChildChanged(change) => EventV::ChildChanged(*change),
            Event::SignalsResolved(named) => EventV::SignalsResolved(all_named_view(named@)),
            Event::DispositionsSet(installed) => EventV::DispositionsSet(installed@),
            Event::HostedEnded(ran) => EventV::HostedEnded(ran@),
        }
    }
}

impl View for Next {
    type V = NextV;

    open spec fn view(&self) -> NextV {
        match self {
            Next::Continue => NextV::Continue,
            Next::Perform(action) => NextV::Perform(action@),
            Next::Finished(status) => NextV::Finished(*status),
            Next::Exit(code) => NextV::Exit(*code),
            Next::Mismatch => NextV::Mismatch,
        }
    }
}

/// The outcome of a step as a whole.
pub open spec fn step_view(m: MachineV, sh: ShellV, o: Outcome) -> StepV {
    StepV { machine: m, shell: sh, stdout: o.stdout@, stderr: o.stderr@, next: o.next@ }
}

pub broadcast proof fn lemma_stack_view_push(s: Seq<Frame>, f: Frame)
    ensures
        #[trigger] stack_view(s.push(f)) == stack_view(s).push(f@),
{
    assert(stack_view(s.push(f)) =~= stack_view(s).push(f@));
}

} // verus!
