//! What each step of the executor does.
//!
//! The executor keeps what is under way as a stack of frames, the innermost
//! last, and one task: work to be run, a status on its way to the innermost
//! frame, or something that the caller has to do.

use vstd::prelude::*;
use vstd::utf8::encode_utf8;

use super::state::Exit;
use crate::ast::{
    AndOrV, ArmV, BranchV, CommandV, CompoundV, FunctionV, KindV, ListV, LogicalOp, SimpleCommandV,
};
use crate::builtins::{
    begun, bg_done, cd_done, fg_done, handlers_noted, trap_resolved, wait_resumed, BuiltinOutV,
    BuiltinStepV, DirectoryChange, NamedV, RanV, TrapChangeV, WaitingV,
};
use crate::expand::laws::only_vars_differ;
use crate::expand::rules::{word_text, AnswersV, OutV, RequestV, StopV};
use crate::expand::expand_error_text;
use crate::jobs::{signal_status, ChildStatus, INTERRUPT};
use crate::numbers::decimal;
use crate::parser::grammar::source;
use crate::parser::parse_error_text;
use crate::prepare::{
    last_input, last_output, law_patterns_can_be_resumed, pattern_matches, prepared, unused,
    words_fields, PreparedV,
};
use crate::shell::{
    frame_popped, ignored_key, interrupted, pid_key, Builtin, ControlFlow, ForegroundInterrupt,
    ShellV,
};
use crate::text::joined;
use crate::token::WordV;
use crate::traps::{ignored_among, TrapsV};

verus! {

// ---- the state ------------------------------------------------------------------------------

/// Work to be run.
pub ghost enum WorkV {
    List(ListV),
    AndOr(AndOrV),
    Pipeline(Seq<CommandV>),
    /// A command of a pipeline, with the bytes that the one before it wrote.
    /// `capture`: its own output goes to the next one.
    Command { command: CommandV, input: Option<Seq<u8>>, capture: bool },
    Compound(CompoundV),
}

/// Variables with the exported values that they had.
pub type SavedV = Seq<(Seq<char>, Option<Seq<char>>)>;

/// Something under way.
pub ghost enum FrameV {
    /// A whole program: a `break` or `continue` that leaves it goes nowhere, and
    /// it is all that an interrupted job ends.
    Program,
    /// The trap of the end of the shell, which then exits with this status.
    ExitWith(i32),
    /// A list, of which items `next` on are still to be run.
    List { list: ListV, next: nat },
    /// An and-or list, of which the pipelines from `next` on are still ahead.
    AndOr { list: AndOrV, next: nat },
    /// A pipeline, of which commands `next` on are still to be run.
    Pipe { commands: Seq<CommandV>, next: nat },
    /// An `if` whose condition number `branch` is being run.
    If { branches: Seq<BranchV>, else_branch: Option<ListV>, branch: nat },
    /// A `while` or `until` whose condition (`testing`) or body is being run.
    Loop { condition: ListV, body: ListV, until: bool, testing: bool, status: i32 },
    /// A `for`, with values `next` on still ahead.
    For { name: Seq<char>, values: Seq<Seq<char>>, next: nat, body: ListV, status: i32 },
    /// A function call, with what it has replaced.
    Call { positional: Seq<Seq<char>>, loop_depth: u32, saved: SavedV },
    /// A builtin, with what it has replaced and where its output goes.
    Builtin { saved: SavedV, output: Option<(Seq<char>, bool)>, capture: bool },
}

/// What is to be done next.
pub ghost enum TaskV {
    /// Run this.
    Run(WorkV),
    /// Hand a status, and perhaps output, to the innermost frame.
    Return { status: i32, output: Option<Seq<u8>> },
    /// A program is running.
    Spawn {
        name: Seq<char>,
        input: Option<Seq<char>>,
        output: Option<(Seq<char>, bool)>,
        capture: bool,
    },
    /// A subshell is running.
    Subshell,
    /// The output of a builtin is being written to a file.
    Write { target: Seq<char>, status: i32 },
    /// `cd` is changing the directory.
    Cd(Seq<char>),
    /// `fg` is running this job.
    Fg(u32),
    /// `bg` is resuming a job.
    Bg { id: u32, command: Seq<char> },
    /// `wait` is waiting.
    Wait(WaitingV),
    /// `trap` is looking up signals.
    Signals(Seq<Seq<char>>),
    /// `trap` is setting dispositions.
    Dispositions { ran: RanV, changes: Seq<TrapChangeV> },
    /// A command of the program around the shell is running.
    Hosted,
    /// Everything has been run.
    Stop(i32),
    /// The shell is to exit.
    Exit(i32),
}

/// The executor.
pub ghost struct MachineV {
    pub frames: Seq<FrameV>,
    pub task: TaskV,
    /// The answers that the expansion under way has got.
    pub answers: AnswersV,
}

/// Where the standard input of a program comes from.
pub ghost enum InputV {
    Inherit,
    File(Seq<char>),
    Data(Seq<u8>),
}

/// Where the standard output of a program goes.
pub ghost enum OutputV {
    Inherit,
    Capture,
    File { target: Seq<char>, append: bool },
}

/// What the caller has to do.
pub ghost enum ActionV {
    /// Run a command in a subshell and read its output.
    CommandOutput { body: Seq<char>, env: Map<Seq<char>, Seq<char>> },
    /// Read the entries of the current directory.
    DirectoryEntries,
    /// Run a program.
    Spawn {
        name: Seq<char>,
        args: Seq<Seq<char>>,
        env: Map<Seq<char>, Seq<char>>,
        input: InputV,
        output: OutputV,
    },
    /// Run a subshell.
    Subshell { source: Seq<char>, env: Map<Seq<char>, Seq<char>> },
    /// Write bytes to a file.
    WriteFile { target: Seq<char>, append: bool, data: Seq<u8> },
    ChangeDirectory(Seq<char>),
    ResumeForeground(u32),
    ResumeBackground(i32),
    WaitForChild,
    ResolveSignals(Seq<Seq<char>>),
    SetDispositions(Seq<TrapChangeV>),
    Hosted { number: u32, args: Seq<Seq<char>> },
}

/// How a program went.
pub ghost enum SpawnedV {
    /// The file for its input could not be opened.
    NoInput(Seq<char>),
    /// The file for its output could not be opened.
    NoOutput(Seq<char>),
    /// It could not be started.
    NotStarted(Seq<char>),
    /// It could not be waited for.
    NotWaited(Seq<char>),
    /// It ended.
    Ended { how: Exit, output: Seq<u8> },
}

/// What the caller reports.
pub ghost enum EventV {
    /// Nothing: go on.
    Go,
    CommandOutput(Result<Seq<char>, Seq<char>>),
    DirectoryEntries(Seq<Seq<char>>),
    Spawned(SpawnedV),
    /// A subshell ended, or could not be run.
    SubshellEnded(Result<Exit, Seq<char>>),
    Written(Result<(), Seq<char>>),
    DirectoryChanged(DirectoryChange),
    /// A job was resumed in the foreground, and this was observed of its leader.
    ForegroundChanged(Result<ChildStatus, Seq<char>>),
    BackgroundResumed(Result<(), Seq<char>>),
    ChildChanged(Option<(i32, ChildStatus)>),
    SignalsResolved(Seq<NamedV>),
    DispositionsSet(Seq<bool>),
    HostedEnded(RanV),
}

/// What follows a step.
pub ghost enum NextV {
    /// Another step.
    Continue,
    /// The caller does something and reports it.
    Perform(ActionV),
    /// All has been run.
    Finished(i32),
    /// The shell exits.
    Exit(i32),
    /// The report does not belong to what was to be done: nothing has changed.
    Mismatch,
}

/// The outcome of a step.
pub ghost struct StepV {
    pub machine: MachineV,
    pub shell: ShellV,
    /// What is to be written to standard output.
    pub stdout: Seq<u8>,
    /// What is to be written to standard error.
    pub stderr: Seq<char>,
    pub next: NextV,
}

/// No answers.
pub open spec fn no_answers() -> AnswersV {
    AnswersV { outputs: Seq::empty(), listings: Seq::empty() }
}

/// A step to another task.
pub open spec fn go(frames: Seq<FrameV>, task: TaskV, sh: ShellV) -> StepV {
    StepV {
        machine: MachineV { frames, task, answers: no_answers() },
        shell: sh,
        stdout: Seq::empty(),
        stderr: Seq::empty(),
        next: NextV::Continue,
    }
}

/// A step that runs something.
pub open spec fn run(frames: Seq<FrameV>, work: WorkV, sh: ShellV) -> StepV {
    go(frames, TaskV::Run(work), sh)
}

/// A step that hands on a status.
pub open spec fn give(frames: Seq<FrameV>, status: i32, sh: ShellV) -> StepV {
    go(frames, TaskV::Return { status, output: None }, sh)
}

/// A step with a message.
pub open spec fn telling(s: StepV, text: Seq<char>) -> StepV {
    StepV { stderr: text + s.stderr, ..s }
}

/// A step that waits for the caller.
pub open spec fn ask(frames: Seq<FrameV>, task: TaskV, sh: ShellV, action: ActionV) -> StepV {
    StepV { next: NextV::Perform(action), ..go(frames, task, sh) }
}

/// A line on standard error.
pub open spec fn message(t: Seq<char>) -> Seq<char> {
    "conch: "@ + t + "\n"@
}

/// The message for a `break` or `continue` that no loop is there for.
pub open spec fn no_loop_message() -> Seq<char> {
    message("break/continue: only meaningful in a `for', `while', or `until' loop"@)
}

/// The message for a control flow that has nowhere to go.
pub open spec fn unhandled_message(pending: Option<ControlFlow>) -> Seq<char> {
    match pending {
        None => Seq::empty(),
        Some(ControlFlow::Return(_)) => message(
            "return: can only `return' from a function or sourced script"@,
        ),
        Some(_) => no_loop_message(),
    }
}

/// The shell without a control flow under way.
pub open spec fn settled(sh: ShellV) -> ShellV {
    ShellV { pending: None, ..sh }
}

// ---- lists ------------------------------------------------------------------------------------

/// A list at its start.
pub open spec fn list_begun(frames: Seq<FrameV>, list: ListV, sh: ShellV) -> StepV {
    if list.len() == 0 {
        give(frames, sh.last_status, sh)
    } else {
        run(
            frames.push(FrameV::List { list, next: 1 }),
            WorkV::AndOr(list[0].and_or),
            sh,
        )
    }
}

/// A list with a status from its last item. A `break` or `continue` under way
/// ends it if there is a loop to end, and is dropped if there is none; a
/// `return` ends it.
pub open spec fn list_returned(
    frames: Seq<FrameV>,
    list: ListV,
    next: nat,
    sh: ShellV,
    status: i32,
) -> StepV {
    let here = ShellV { last_status: status, ..sh };
    let dropped = sh.pending is Some && !(sh.pending matches Some(ControlFlow::Return(_)))
        && sh.loop_depth == 0;
    if sh.pending is Some && !dropped {
        give(frames, status, here)
    } else {
        let after = settled(here);
        let step = if next < list.len() {
            run(
                frames.push(FrameV::List { list, next: next + 1 }),
                WorkV::AndOr(list[next as int].and_or),
                after,
            )
        } else {
            give(frames, status, after)
        };
        telling(step, unhandled_message(sh.pending))
    }
}

/// The first pipeline from `i` on that runs after `status`.
pub open spec fn next_pipeline(rest: Seq<(LogicalOp, Seq<CommandV>)>, i: int, status: i32) -> int
    decreases rest.len() - i,
{
    if i < 0 || i >= rest.len() {
        rest.len() as int
    } else if (rest[i].0 is And) == (status == 0) {
        i
    } else {
        next_pipeline(rest, i + 1, status)
    }
}

/// An and-or list with a status from its last pipeline.
pub open spec fn and_or_returned(
    frames: Seq<FrameV>,
    list: AndOrV,
    next: nat,
    sh: ShellV,
    status: i32,
) -> StepV {
    let k = next_pipeline(list.rest, next as int, status);
    if sh.pending is Some || k >= list.rest.len() {
        give(frames, status, sh)
    } else {
        run(
            frames.push(FrameV::AndOr { list, next: (k + 1) as nat }),
            WorkV::Pipeline(list.rest[k].1),
            sh,
        )
    }
}

/// A pipeline from command `next` on, with the bytes that were written for it.
pub open spec fn pipeline_from(
    frames: Seq<FrameV>,
    commands: Seq<CommandV>,
    next: nat,
    sh: ShellV,
    status: i32,
    output: Option<Seq<u8>>,
) -> StepV {
    if next < commands.len() {
        run(
            frames.push(FrameV::Pipe { commands, next: next + 1 }),
            WorkV::Command {
                command: commands[next as int],
                input: output,
                capture: next + 1 < commands.len(),
            },
            sh,
        )
    } else {
        give(frames, status, sh)
    }
}

// ---- compound commands --------------------------------------------------------------------------

/// A count one higher, as far as it goes.
pub open spec fn deeper(n: u32) -> u32 {
    if n < u32::MAX {
        (n + 1) as u32
    } else {
        n
    }
}

/// A count one lower, as far as it goes.
pub open spec fn shallower(n: u32) -> u32 {
    if n > 0 {
        (n - 1) as u32
    } else {
        n
    }
}

/// The shell inside one more loop.
pub open spec fn in_loop(sh: ShellV) -> ShellV {
    ShellV { loop_depth: deeper(sh.loop_depth), ..sh }
}

/// The shell outside the innermost loop.
pub open spec fn out_of_loop(sh: ShellV) -> ShellV {
    ShellV { loop_depth: shallower(sh.loop_depth), ..sh }
}

/// What is left of a control flow behind the innermost loop, and whether that
/// loop stops. A `continue` that names more loops than there are is for the
/// outermost one.
pub open spec fn after_loop(pending: Option<ControlFlow>, loop_depth: u32) -> (
    Option<ControlFlow>,
    bool,
) {
    match pending {
        None => (None, false),
        Some(ControlFlow::Break(n)) => if n == 1 {
            (None, true)
        } else {
            (Some(ControlFlow::Break(shallower(n))), true)
        },
        Some(ControlFlow::Continue(n)) => if n == 1 || loop_depth == 1 {
            (None, false)
        } else {
            (Some(ControlFlow::Continue(shallower(n))), true)
        },
        Some(ControlFlow::Return(code)) => (Some(ControlFlow::Return(code)), true),
    }
}

/// An `if` from branch `branch` on.
pub open spec fn if_from(
    frames: Seq<FrameV>,
    branches: Seq<BranchV>,
    else_branch: Option<ListV>,
    branch: nat,
    sh: ShellV,
) -> StepV {
    if branch < branches.len() {
        run(
            frames.push(FrameV::If { branches, else_branch, branch }),
            WorkV::List(branches[branch as int].condition),
            sh,
        )
    } else {
        match else_branch {
            Some(list) => run(frames, WorkV::List(list), sh),
            None => give(frames, 0, sh),
        }
    }
}

/// An `if` with a status from a condition.
pub open spec fn if_returned(
    frames: Seq<FrameV>,
    branches: Seq<BranchV>,
    else_branch: Option<ListV>,
    branch: nat,
    sh: ShellV,
    status: i32,
) -> StepV {
    if sh.pending is Some {
        give(frames, status, sh)
    } else if status == 0 && branch < branches.len() {
        run(frames, WorkV::List(branches[branch as int].body), sh)
    } else {
        if_from(frames, branches, else_branch, branch + 1, sh)
    }
}

/// The condition of a loop.
pub open spec fn loop_tested(
    frames: Seq<FrameV>,
    condition: ListV,
    body: ListV,
    until: bool,
    status: i32,
    sh: ShellV,
) -> StepV {
    run(
        frames.push(FrameV::Loop { condition, body, until, testing: true, status }),
        WorkV::List(condition),
        sh,
    )
}

/// A loop with a status from its condition or its body. Its own status is that
/// of the last body, or 0.
pub open spec fn loop_returned(
    frames: Seq<FrameV>,
    condition: ListV,
    body: ListV,
    until: bool,
    testing: bool,
    before: i32,
    sh: ShellV,
    status: i32,
) -> StepV {
    let (left, stops) = after_loop(sh.pending, sh.loop_depth);
    let after = ShellV { pending: left, ..sh };
    if testing && sh.pending is None {
        if (status == 0) == until {
            give(frames, before, out_of_loop(sh))
        } else {
            run(
                frames.push(
                    FrameV::Loop { condition, body, until, testing: false, status: before },
                ),
                WorkV::List(body),
                sh,
            )
        }
    } else if stops {
        give(frames, status, out_of_loop(after))
    } else {
        loop_tested(frames, condition, body, until, status, after)
    }
}

/// A `for` from value `next` on.
pub open spec fn for_from(
    frames: Seq<FrameV>,
    name: Seq<char>,
    values: Seq<Seq<char>>,
    next: nat,
    body: ListV,
    status: i32,
    sh: ShellV,
) -> StepV {
    if next < values.len() {
        run(
            frames.push(FrameV::For { name, values, next: next + 1, body, status }),
            WorkV::List(body),
            ShellV { vars: sh.vars.insert(name, values[next as int]), ..sh },
        )
    } else {
        give(frames, status, out_of_loop(sh))
    }
}

/// A `for` with a status from its body.
pub open spec fn for_returned(
    frames: Seq<FrameV>,
    name: Seq<char>,
    values: Seq<Seq<char>>,
    next: nat,
    body: ListV,
    sh: ShellV,
    status: i32,
) -> StepV {
    let (left, stops) = after_loop(sh.pending, sh.loop_depth);
    let after = ShellV { pending: left, ..sh };
    if stops {
        give(frames, status, out_of_loop(after))
    } else {
        for_from(frames, name, values, next, body, status, after)
    }
}

/// The environment of a subshell: that of the shell, with what it hands down.
pub open spec fn subshell_env(sh: ShellV) -> Map<Seq<char>, Seq<char>> {
    sh.env.insert(pid_key(), decimal(sh.pid as int)).insert(
        ignored_key(),
        joined(ignored_among(sh.traps.names, sh.traps.actions), ","@),
    )
}

/// The action for a request of an expansion.
pub open spec fn requested(r: RequestV, sh: ShellV) -> ActionV {
    match r {
        RequestV::CommandOutput(body) => ActionV::CommandOutput { body, env: subshell_env(sh) },
        RequestV::DirectoryEntries => ActionV::DirectoryEntries,
    }
}

/// An expansion that stopped. With a request, everything is as it was before
/// it. After a failure the shell exits if it has to: when a parameter was
/// required and the shell is not interactive.
pub open spec fn expansion_stopped(
    m: MachineV,
    before: ShellV,
    after: ShellV,
    stop: StopV,
) -> StepV {
    match stop {
        StopV::Needs(r) => StepV {
            machine: m,
            shell: before,
            stdout: Seq::empty(),
            stderr: Seq::empty(),
            next: NextV::Perform(requested(r, before)),
        },
        StopV::Failed(e) => if !before.is_interactive && e is ParameterNullOrUnset {
            StepV {
                stderr: message(expand_error_text(e)),
                next: NextV::Exit(1),
                ..go(m.frames, TaskV::Exit(1), after)
            }
        } else {
            telling(give(m.frames, 1, after), message(expand_error_text(e)))
        },
    }
}

/// A `for` at its start.
pub open spec fn for_begun(
    m: MachineV,
    name: Seq<char>,
    words: Option<Seq<WordV>>,
    body: ListV,
    sh: ShellV,
) -> StepV {
    match words {
        None => for_from(m.frames, name, sh.positional, 0, body, 0, in_loop(sh)),
        Some(words) => {
            let o = words_fields(words, 0, sh, unused(), m.answers, Seq::empty());
            match o.result {
                Err(stop) => expansion_stopped(m, sh, o.shell, stop),
                Ok(values) => for_from(m.frames, name, values, 0, body, 0, in_loop(o.shell)),
            }
        },
    }
}

/// The index of the first arm from `i` on one of whose patterns matches.
pub open spec fn matching_arm(
    arms: Seq<ArmV>,
    i: int,
    text: Seq<char>,
    o: OutV<Seq<char>>,
    a: AnswersV,
) -> OutV<int>
    decreases arms.len() - i,
{
    if i < 0 || i >= arms.len() {
        OutV { shell: o.shell, used: o.used, result: Ok(arms.len() as int) }
    } else {
        let p = pattern_matches(arms[i].patterns, 0, text, o.shell, o.used, a);
        match p.result {
            Err(stop) => OutV { shell: p.shell, used: p.used, result: Err(stop) },
            Ok(found) => if found {
                OutV { shell: p.shell, used: p.used, result: Ok(i) }
            } else {
                matching_arm(
                    arms,
                    i + 1,
                    text,
                    OutV { shell: p.shell, used: p.used, result: Ok(text) },
                    a,
                )
            },
        }
    }
}

/// Looking for an arm changes only variables.
pub proof fn lemma_matching_arm(
    arms: Seq<ArmV>,
    i: int,
    text: Seq<char>,
    o: OutV<Seq<char>>,
    a: AnswersV,
)
    ensures
        only_vars_differ(o.shell, matching_arm(arms, i, text, o, a).shell),
    decreases arms.len() - i,
{
    if 0 <= i < arms.len() {
        law_patterns_can_be_resumed(arms[i].patterns, 0, text, o.shell, o.used, a, a);
        let p = pattern_matches(arms[i].patterns, 0, text, o.shell, o.used, a);
        lemma_matching_arm(
            arms,
            i + 1,
            text,
            OutV { shell: p.shell, used: p.used, result: Ok(text) },
            a,
        );
    }
}

/// A `case`: the body of the first arm that matches.
pub open spec fn case_begun(m: MachineV, word: WordV, arms: Seq<ArmV>, sh: ShellV) -> StepV {
    let o = word_text(word, sh, unused(), m.answers);
    match o.result {
        Err(stop) => expansion_stopped(m, sh, o.shell, stop),
        Ok(text) => {
            let p = matching_arm(arms, 0, text, o, m.answers);
            match p.result {
                Err(stop) => expansion_stopped(m, sh, p.shell, stop),
                Ok(i) => if i < arms.len() {
                    run(m.frames, WorkV::List(arms[i].body), p.shell)
                } else {
                    give(m.frames, 0, p.shell)
                },
            }
        },
    }
}

/// A compound command at its start. Redirections of one are refused.
pub open spec fn compound_begun(m: MachineV, c: CompoundV, sh: ShellV) -> StepV {
    if c.redirects.len() > 0 {
        telling(
            give(m.frames, 1, sh),
            message(
                "a compound command's own trailing redirect (`{ ...; } > file`, `if ...; fi > file`, `(...) > file`, ...) is not yet supported"@,
            ),
        )
    } else {
        match c.kind {
            KindV::BraceGroup(list) => run(m.frames, WorkV::List(list), sh),
            KindV::Subshell { body: _, source } => ask(
                m.frames,
                TaskV::Subshell,
                sh,
                ActionV::Subshell { source, env: subshell_env(sh) },
            ),
            KindV::For { name, words, body } => for_begun(m, name, words, body, sh),
            KindV::Case { word, arms } => case_begun(m, word, arms, sh),
            KindV::If { branches, else_branch } => if_from(
                m.frames,
                branches,
                else_branch,
                0,
                sh,
            ),
            KindV::While { condition, body } => loop_tested(
                m.frames,
                condition,
                body,
                false,
                0,
                in_loop(sh),
            ),
            KindV::Until { condition, body } => loop_tested(
                m.frames,
                condition,
                body,
                true,
                0,
                in_loop(sh),
            ),
        }
    }
}

// ---- simple commands ------------------------------------------------------------------------------

/// The shell after assignments that last.
pub open spec fn all_assigned(sh: ShellV, pairs: Seq<(Seq<char>, Seq<char>)>) -> ShellV
    decreases pairs.len(),
{
    if pairs.len() == 0 {
        sh
    } else {
        let before = all_assigned(sh, pairs.drop_last());
        ShellV { vars: before.vars.insert(pairs.last().0, pairs.last().1), ..before }
    }
}

/// The environment with the assignments in front of a command.
pub open spec fn env_with(
    env: Map<Seq<char>, Seq<char>>,
    pairs: Seq<(Seq<char>, Seq<char>)>,
) -> Map<Seq<char>, Seq<char>>
    decreases pairs.len(),
{
    if pairs.len() == 0 {
        env
    } else {
        env_with(env, pairs.drop_last()).insert(pairs.last().0, pairs.last().1)
    }
}

/// The value of an exported variable.
pub open spec fn env_value(env: Map<Seq<char>, Seq<char>>, name: Seq<char>) -> Option<Seq<char>> {
    if env.contains_key(name) {
        Some(env[name])
    } else {
        None
    }
}

/// What each of these assignments replaces.
pub open spec fn replaced(
    env: Map<Seq<char>, Seq<char>>,
    pairs: Seq<(Seq<char>, Seq<char>)>,
) -> SavedV
    decreases pairs.len(),
{
    if pairs.len() == 0 {
        Seq::empty()
    } else {
        replaced(env, pairs.drop_last()).push(
            (
                pairs.last().0,
                env_value(env_with(env, pairs.drop_last()), pairs.last().0),
            ),
        )
    }
}

/// The environment after assignments in front of a command were undone, the
/// last one first.
pub open spec fn env_restored(env: Map<Seq<char>, Seq<char>>, saved: SavedV) -> Map<
    Seq<char>,
    Seq<char>,
>
    decreases saved.len(),
{
    if saved.len() == 0 {
        env
    } else {
        let one = match saved.last().1 {
            Some(v) => env.insert(saved.last().0, v),
            None => env.remove(saved.last().0),
        };
        env_restored(one, saved.drop_last())
    }
}

/// A function call.
pub open spec fn called(
    frames: Seq<FrameV>,
    f: FunctionV,
    args: Seq<Seq<char>>,
    p: PreparedV,
    sh: ShellV,
) -> StepV {
    if p.redirects.len() > 0 {
        telling(
            give(frames, 1, sh),
            message("a function call's own output redirect (`f > file`) is not yet supported"@),
        )
    } else {
        run(
            frames.push(
                FrameV::Call {
                    positional: sh.positional,
                    loop_depth: sh.loop_depth,
                    saved: replaced(sh.env, p.assignments),
                },
            ),
            WorkV::Compound(f.body),
            ShellV {
                env: env_with(sh.env, p.assignments),
                positional: args,
                loop_depth: 0,
                locals: sh.locals.push(Seq::empty()),
                function_depth: deeper(sh.function_depth),
                ..sh
            },
        )
    }
}

/// The status of a function call: what `return` says, or that of its body.
pub open spec fn call_status(pending: Option<ControlFlow>, status: i32) -> i32 {
    match pending {
        Some(ControlFlow::Return(code)) => code,
        _ => status,
    }
}

/// A function call with a status from its body. A `break` or `continue` that
/// is still under way goes no further.
pub open spec fn call_returned(
    frames: Seq<FrameV>,
    positional: Seq<Seq<char>>,
    loop_depth: u32,
    saved: SavedV,
    sh: ShellV,
    status: i32,
) -> StepV {
    let left = frame_popped(
        ShellV { function_depth: shallower(sh.function_depth), pending: None, ..sh },
    );
    let after = ShellV {
        positional,
        loop_depth,
        env: env_restored(left.env, saved),
        ..left
    };
    telling(
        give(frames, call_status(sh.pending, status), after),
        if sh.pending matches Some(ControlFlow::Return(_)) {
            Seq::empty()
        } else {
            unhandled_message(sh.pending)
        },
    )
}

/// The output of a builtin that has run.
pub open spec fn builtin_finished(
    frames: Seq<FrameV>,
    saved: SavedV,
    output: Option<(Seq<char>, bool)>,
    capture: bool,
    sh: ShellV,
    ran: RanV,
) -> StepV {
    let after = ShellV { env: env_restored(sh.env, saved), ..sh };
    let data = encode_utf8(ran.stdout);
    let step = match output {
        Some((target, append)) => ask(
            frames,
            TaskV::Write { target, status: ran.status },
            after,
            ActionV::WriteFile { target, append, data },
        ),
        None => if capture {
            go(frames, TaskV::Return { status: ran.status, output: Some(data) }, after)
        } else {
            StepV { stdout: data, ..give(frames, ran.status, after) }
        },
    };
    telling(step, ran.stderr)
}

/// The shell is to exit: its trap is run first, once.
pub open spec fn exit_begun(frames: Seq<FrameV>, sh: ShellV, code: i32) -> StepV {
    let after = ShellV { traps: TrapsV { exit: None, ..sh.traps }, ..sh };
    let leave = StepV { next: NextV::Exit(code), ..go(frames, TaskV::Exit(code), after) };
    match sh.traps.exit {
        None => leave,
        Some(text) => match source(text) {
            Ok(list) => run(frames.push(FrameV::ExitWith(code)), WorkV::List(list), after),
            Err(e) => telling(leave, message("trap: "@ + parse_error_text(e))),
        },
    }
}

/// How far a builtin has come.
pub open spec fn builtin_went(frames: Seq<FrameV>, out: BuiltinOutV) -> StepV {
    let sh = out.shell;
    match out.step {
        BuiltinStepV::Done(ran) => builtin_ended(frames, sh, ran),
        BuiltinStepV::Exit(code) => exit_begun(frames, sh, code),
        BuiltinStepV::ChangeDirectory(target) => ask(
            frames,
            TaskV::Cd(target),
            sh,
            ActionV::ChangeDirectory(target),
        ),
        BuiltinStepV::ResumeForeground(id) => ask(
            frames,
            TaskV::Fg(id),
            sh,
            ActionV::ResumeForeground(id),
        ),
        BuiltinStepV::ResumeBackground { id, pgid, command } => ask(
            frames,
            TaskV::Bg { id, command },
            sh,
            ActionV::ResumeBackground(pgid),
        ),
        BuiltinStepV::WaitForChild(w) => ask(frames, TaskV::Wait(w), sh, ActionV::WaitForChild),
        BuiltinStepV::ResolveSignals { args, specs } => ask(
            frames,
            TaskV::Signals(args),
            sh,
            ActionV::ResolveSignals(specs),
        ),
        BuiltinStepV::SetDispositions { ran, changes } => ask(
            frames,
            TaskV::Dispositions { ran, changes },
            sh,
            ActionV::SetDispositions(changes),
        ),
        BuiltinStepV::Hosted { number, args } => ask(
            frames,
            TaskV::Hosted,
            sh,
            ActionV::Hosted { number, args },
        ),
    }
}

/// A builtin has run: its frame ends.
pub open spec fn builtin_ended(frames: Seq<FrameV>, sh: ShellV, ran: RanV) -> StepV {
    if frames.len() > 0 {
        match frames.last() {
            FrameV::Builtin { saved, output, capture } => builtin_finished(
                frames.drop_last(),
                saved,
                output,
                capture,
                sh,
                ran,
            ),
            _ => telling(give(frames, ran.status, sh), ran.stderr),
        }
    } else {
        telling(give(frames, ran.status, sh), ran.stderr)
    }
}

/// A builtin at its start.
pub open spec fn builtin_begun(
    frames: Seq<FrameV>,
    b: Builtin,
    args: Seq<Seq<char>>,
    p: PreparedV,
    sh: ShellV,
    capture: bool,
) -> StepV {
    builtin_went(
        frames.push(
            FrameV::Builtin {
                saved: replaced(sh.env, p.assignments),
                output: last_output(p.redirects),
                capture,
            },
        ),
        begun(b, ShellV { env: env_with(sh.env, p.assignments), ..sh }, args),
    )
}

/// A program at its start.
pub open spec fn program_begun(
    frames: Seq<FrameV>,
    name: Seq<char>,
    args: Seq<Seq<char>>,
    p: PreparedV,
    sh: ShellV,
    input: Option<Seq<u8>>,
    capture: bool,
) -> StepV {
    let from = last_input(p.redirects);
    let to = last_output(p.redirects);
    ask(
        frames,
        TaskV::Spawn { name, input: from, output: to, capture },
        sh,
        ActionV::Spawn {
            name,
            args,
            env: env_with(sh.env, p.assignments),
            input: match from {
                Some(target) => InputV::File(target),
                None => match input {
                    Some(data) => InputV::Data(data),
                    None => InputV::Inherit,
                },
            },
            output: match to {
                Some((target, append)) => OutputV::File { target, append },
                None => if capture {
                    OutputV::Capture
                } else {
                    OutputV::Inherit
                },
            },
        },
    )
}

/// The status of a process that has ended: its own, or 128 more than the number
/// of the signal that ended it.
pub open spec fn ended_status(how: Exit) -> i32 {
    match how {
        Exit::Code(code) => code,
        Exit::Signal(signal) => signal_status(signal),
    }
}

/// The shell after a process in the foreground has ended. One that was interrupted
/// from the terminal ends everything that is under way.
pub open spec fn ended_shell(how: Exit, sh: ShellV) -> ShellV {
    if how == Exit::Signal(INTERRUPT) {
        interrupted(sh, ForegroundInterrupt::Interrupted)
    } else {
        sh
    }
}

/// A program that has run, or could not be run.
pub open spec fn program_ended(
    frames: Seq<FrameV>,
    name: Seq<char>,
    input: Option<Seq<char>>,
    output: Option<(Seq<char>, bool)>,
    capture: bool,
    sh: ShellV,
    how: SpawnedV,
) -> StepV {
    match how {
        SpawnedV::NoInput(e) => telling(
            give(frames, 1, sh),
            message(
                (match input {
                    Some(target) => target,
                    None => name,
                }) + ": "@ + e,
            ),
        ),
        SpawnedV::NoOutput(e) => telling(
            give(frames, 1, sh),
            message(
                (match output {
                    Some((target, _)) => target,
                    None => name,
                }) + ": "@ + e,
            ),
        ),
        SpawnedV::NotStarted(e) => telling(give(frames, 127, sh), message(name + ": "@ + e)),
        SpawnedV::NotWaited(e) => telling(give(frames, 1, sh), message(name + ": "@ + e)),
        SpawnedV::Ended { how, output: data } => go(
            frames,
            TaskV::Return {
                status: ended_status(how),
                output: if output is None && capture {
                    Some(data)
                } else {
                    None
                },
            },
            ended_shell(how, sh),
        ),
    }
}

/// A command whose words are expanded. Functions come first, then builtins,
/// then programs.
pub open spec fn command_begun(
    frames: Seq<FrameV>,
    p: PreparedV,
    sh: ShellV,
    input: Option<Seq<u8>>,
    capture: bool,
) -> StepV {
    match p.fields {
        None => give(frames, 0, all_assigned(sh, p.assignments)),
        Some(fields) => if fields.len() == 0 {
            give(frames, 0, sh)
        } else {
            let name = fields[0];
            let args = fields.skip(1);
            if sh.functions.contains_key(name) {
                called(frames, sh.functions[name], args, p, sh)
            } else if sh.builtins.contains_key(name) {
                builtin_begun(frames, sh.builtins[name], args, p, sh, capture)
            } else {
                program_begun(frames, name, args, p, sh, input, capture)
            }
        },
    }
}

/// A simple command at its start.
pub open spec fn simple_begun(
    m: MachineV,
    cmd: SimpleCommandV,
    sh: ShellV,
    input: Option<Seq<u8>>,
    capture: bool,
) -> StepV {
    let o = prepared(cmd, sh, m.answers);
    match o.result {
        Err(stop) => expansion_stopped(m, sh, o.shell, stop),
        Ok(p) => command_begun(m.frames, p, o.shell, input, capture),
    }
}

// ---- steps ------------------------------------------------------------------------------------------

/// Work at its start.
pub open spec fn work_begun(m: MachineV, work: WorkV, sh: ShellV) -> StepV {
    match work {
        WorkV::List(list) => list_begun(m.frames, list, sh),
        WorkV::AndOr(list) => run(
            m.frames.push(FrameV::AndOr { list, next: 0 }),
            WorkV::Pipeline(list.first),
            sh,
        ),
        WorkV::Pipeline(commands) => pipeline_from(m.frames, commands, 0, sh, 0, None),
        WorkV::Command { command, input, capture } => match command {
            CommandV::Simple(cmd) => simple_begun(m, cmd, sh, input, capture),
            CommandV::Compound(c) => run(m.frames, WorkV::Compound(c), sh),
            CommandV::Function(f) => give(
                m.frames,
                0,
                ShellV { functions: sh.functions.insert(f.name, f), ..sh },
            ),
        },
        WorkV::Compound(c) => compound_begun(m, c, sh),
    }
}

/// A frame that is given up: after the foreground job was stopped or interrupted
/// nothing more of it is run.
pub open spec fn abandoned(outer: Seq<FrameV>, frame: FrameV, sh: ShellV, status: i32) -> StepV {
    match frame {
        FrameV::List { .. } => give(outer, status, ShellV { last_status: status, ..sh }),
        FrameV::Loop { .. } => give(outer, status, out_of_loop(sh)),
        FrameV::For { .. } => give(outer, status, out_of_loop(sh)),
        _ => give(outer, status, sh),
    }
}

/// A frame of which more could be run.
pub open spec fn goes_on(frame: FrameV) -> bool {
    frame is List || frame is AndOr || frame is Pipe || frame is If || frame is Loop || frame is For
}

/// A status for the innermost frame.
pub open spec fn returned(
    frames: Seq<FrameV>,
    sh: ShellV,
    status: i32,
    output: Option<Seq<u8>>,
) -> StepV {
    if frames.len() == 0 {
        StepV {
            next: NextV::Finished(status),
            ..go(frames, TaskV::Stop(status), sh)
        }
    } else if sh.foreground_interrupt is Some && goes_on(frames.last()) {
        abandoned(frames.drop_last(), frames.last(), sh, status)
    } else {
        let outer = frames.drop_last();
        match frames.last() {
            FrameV::Program => telling(
                give(outer, status, ShellV { foreground_interrupt: None, ..settled(sh) }),
                unhandled_message(sh.pending),
            ),
            FrameV::ExitWith(code) => StepV {
                stderr: unhandled_message(sh.pending),
                next: NextV::Exit(code),
                ..go(outer, TaskV::Exit(code), settled(sh))
            },
            FrameV::List { list, next } => list_returned(outer, list, next, sh, status),
            FrameV::AndOr { list, next } => and_or_returned(outer, list, next, sh, status),
            FrameV::Pipe { commands, next } => pipeline_from(
                outer,
                commands,
                next,
                sh,
                status,
                output,
            ),
            FrameV::If { branches, else_branch, branch } => if_returned(
                outer,
                branches,
                else_branch,
                branch,
                sh,
                status,
            ),
            FrameV::Loop { condition, body, until, testing, status: before } => loop_returned(
                outer,
                condition,
                body,
                until,
                testing,
                before,
                sh,
                status,
            ),
            FrameV::For { name, values, next, body, status: _ } => for_returned(
                outer,
                name,
                values,
                next,
                body,
                sh,
                status,
            ),
            FrameV::Call { positional, loop_depth, saved } => call_returned(
                outer,
                positional,
                loop_depth,
                saved,
                sh,
                status,
            ),
            FrameV::Builtin { saved, output, capture } => builtin_finished(
                outer,
                saved,
                output,
                capture,
                sh,
                RanV { status, stdout: Seq::empty(), stderr: Seq::empty() },
            ),
        }
    }
}

/// A report that does not belong to what was to be done.
pub open spec fn mismatch(m: MachineV, sh: ShellV) -> StepV {
    StepV {
        machine: m,
        shell: sh,
        stdout: Seq::empty(),
        stderr: Seq::empty(),
        next: NextV::Mismatch,
    }
}

/// The answers with one more.
pub open spec fn answered(a: AnswersV, e: EventV) -> AnswersV {
    match e {
        EventV::CommandOutput(r) => AnswersV { outputs: a.outputs.push(r), ..a },
        EventV::DirectoryEntries(l) => AnswersV { listings: a.listings.push(l), ..a },
        _ => a,
    }
}

/// One step.
pub open spec fn step(m: MachineV, sh: ShellV, e: EventV) -> StepV {
    match m.task {
        TaskV::Run(work) => match e {
            EventV::Go => work_begun(m, work, sh),
            EventV::CommandOutput(_) => go_on(m, sh, e),
            EventV::DirectoryEntries(_) => go_on(m, sh, e),
            _ => mismatch(m, sh),
        },
        TaskV::Return { status, output } => if e is Go {
            returned(m.frames, sh, status, output)
        } else {
            mismatch(m, sh)
        },
        TaskV::Spawn { name, input, output, capture } => match e {
            EventV::Spawned(how) => program_ended(
                m.frames,
                name,
                input,
                output,
                capture,
                sh,
                how,
            ),
            _ => mismatch(m, sh),
        },
        TaskV::Subshell => match e {
            EventV::SubshellEnded(r) => match r {
                Ok(how) => give(m.frames, ended_status(how), ended_shell(how, sh)),
                Err(e) => telling(give(m.frames, 1, sh), message("subshell: "@ + e)),
            },
            _ => mismatch(m, sh),
        },
        TaskV::Write { target, status } => match e {
            EventV::Written(r) => match r {
                Ok(_) => give(m.frames, status, sh),
                Err(e) => telling(give(m.frames, 1, sh), message(target + ": "@ + e)),
            },
            _ => mismatch(m, sh),
        },
        TaskV::Cd(target) => match e {
            EventV::DirectoryChanged(change) => builtin_went(
                m.frames,
                cd_done(sh, target, change),
            ),
            _ => mismatch(m, sh),
        },
        TaskV::Fg(id) => match e {
            EventV::ForegroundChanged(r) => builtin_went(m.frames, fg_done(sh, id, r)),
            _ => mismatch(m, sh),
        },
        TaskV::Bg { id, command } => match e {
            EventV::BackgroundResumed(r) => builtin_went(m.frames, bg_done(sh, id, command, r)),
            _ => mismatch(m, sh),
        },
        TaskV::Wait(w) => match e {
            EventV::ChildChanged(change) => builtin_went(m.frames, wait_resumed(sh, w, change)),
            _ => mismatch(m, sh),
        },
        TaskV::Signals(args) => match e {
            EventV::SignalsResolved(named) => builtin_went(
                m.frames,
                trap_resolved(sh, args, named),
            ),
            _ => mismatch(m, sh),
        },
        TaskV::Dispositions { ran, changes } => match e {
            EventV::DispositionsSet(installed) => builtin_ended(
                m.frames,
                handlers_noted(sh, changes, installed),
                ran,
            ),
            _ => mismatch(m, sh),
        },
        TaskV::Hosted => match e {
            EventV::HostedEnded(ran) => builtin_ended(m.frames, sh, ran),
            _ => mismatch(m, sh),
        },
        TaskV::Stop(_) => mismatch(m, sh),
        TaskV::Exit(_) => mismatch(m, sh),
    }
}

/// A step that only takes in an answer.
pub open spec fn go_on(m: MachineV, sh: ShellV, e: EventV) -> StepV {
    StepV {
        machine: MachineV { answers: answered(m.answers, e), ..m },
        shell: sh,
        stdout: Seq::empty(),
        stderr: Seq::empty(),
        next: NextV::Continue,
    }
}

/// An executor that runs a list.
pub open spec fn list_machine(list: ListV) -> MachineV {
    MachineV {
        frames: Seq::empty(),
        task: TaskV::Run(WorkV::List(list)),
        answers: no_answers(),
    }
}

/// An executor that runs a whole program.
pub open spec fn program_machine(list: ListV) -> MachineV {
    MachineV {
        frames: seq![FrameV::Program],
        task: TaskV::Run(WorkV::List(list)),
        answers: no_answers(),
    }
}

} // verus!
