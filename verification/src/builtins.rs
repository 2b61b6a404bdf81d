//! The builtin commands.
//!
//! A builtin that only touches the shell runs at once. One that needs the
//! system stops with a step for the caller, who hands the outcome back.

use vstd::prelude::*;

use crate::glob::sorted;
use crate::jobs::{
    all_notified, awaited, finished, foreground_observed, is_ordered, is_settled, job_of, jobs_view,
    lemma_purged, lemma_settled_ids, observed, purged, resolved, resumed, settled_ids, some_running,
    state_label, Awaited, ChildStatus, Foreground, Job, JobState, JobTableV, JobV,
};
use crate::numbers::{decimal, i64_to_text, integer_of, parse_i32, parse_i64, parse_u32};
use crate::parser::is_valid_name;
use crate::shell::{
    captured, interrupted, local_set, lookup, recorded, trap_disposition, with_trap, Builtin,
    ControlFlow, ForegroundInterrupt, Shell, ShellV, TrapChange,
};
use crate::text::{
    chars_of, clone_texts, is_name, join, join2, join3, joined, lemma_texts_empty, lemma_texts_push,
    same_text, text_between, texts,
};
use crate::traps::{
    described, may_be_unknown, may_name, named_view, parse_signal_spec, signal_error, signal_spec,
    text_option, trap_lines, with_text, Disposition, TrapAction, TrapActionV, TrapsV,
};

pub mod laws;

verus! {

broadcast use {lemma_texts_push, lemma_texts_empty};

// ---- what a builtin does ---------------------------------------------------------------------

/// A builtin that has run.
#[derive(Debug, PartialEq, Eq)]
pub struct Ran {
    pub status: i32,
    pub stdout: String,
    pub stderr: String,
}

/// View of [`Ran`].
pub ghost struct RanV {
    pub status: i32,
    pub stdout: Seq<char>,
    pub stderr: Seq<char>,
}

impl View for Ran {
    type V = RanV;

    open spec fn view(&self) -> RanV {
        RanV { status: self.status, stdout: self.stdout@, stderr: self.stderr@ }
    }
}

/// A `wait` that waits for the process of argument `next`, with the status and
/// the messages of the arguments before it.
#[derive(Debug, PartialEq, Eq)]
pub struct Waiting {
    pub args: Vec<String>,
    pub next: usize,
    pub status: i32,
    pub stderr: String,
}

/// View of [`Waiting`].
pub ghost struct WaitingV {
    pub args: Seq<Seq<char>>,
    pub next: nat,
    pub status: i32,
    pub stderr: Seq<char>,
}

impl View for Waiting {
    type V = WaitingV;

    open spec fn view(&self) -> WaitingV {
        WaitingV {
            args: texts(self.args@),
            next: self.next as nat,
            status: self.status,
            stderr: self.stderr@,
        }
    }
}

/// How far a builtin has come.
#[derive(Debug, PartialEq, Eq)]
pub enum BuiltinStep {
    /// It has run.
    Done(Ran),
    /// The shell is to exit with this status.
    Exit(i32),
    /// The working directory is to be changed.
    ChangeDirectory(String),
    /// A job is to go on in the foreground.
    ResumeForeground(u32),
    /// The process group of a job is to go on in the background.
    ResumeBackground { id: u32, pgid: i32, command: String },
    /// A child is to be waited for.
    WaitForChild(Waiting),
    /// Signals are to be looked up.
    ResolveSignals { args: Vec<String>, specs: Vec<String> },
    /// Signals are to get new dispositions.
    SetDispositions { ran: Ran, changes: Vec<TrapChange> },
    /// A command of the program around the shell is to be run.
    Hosted { number: u32, args: Vec<String> },
}

/// View of [`TrapChange`].
pub ghost struct TrapChangeV {
    pub signal: Seq<char>,
    pub disposition: Disposition,
}

impl View for TrapChange {
    type V = TrapChangeV;

    open spec fn view(&self) -> TrapChangeV {
        TrapChangeV { signal: self.signal@, disposition: self.disposition }
    }
}

/// The views of a list of changes.
pub open spec fn changes_view(s: Seq<TrapChange>) -> Seq<TrapChangeV> {
    s.map_values(|c: TrapChange| c@)
}

/// View of [`BuiltinStep`].
pub ghost enum BuiltinStepV {
    Done(RanV),
    Exit(i32),
    ChangeDirectory(Seq<char>),
    ResumeForeground(u32),
    ResumeBackground { id: u32, pgid: i32, command: Seq<char> },
    WaitForChild(WaitingV),
    ResolveSignals { args: Seq<Seq<char>>, specs: Seq<Seq<char>> },
    SetDispositions { ran: RanV, changes: Seq<TrapChangeV> },
    Hosted { number: u32, args: Seq<Seq<char>> },
}

impl View for BuiltinStep {
    type V = BuiltinStepV;

    open spec fn view(&self) -> BuiltinStepV {
        match self {
            BuiltinStep::Done(ran) => BuiltinStepV::Done(ran@),
            BuiltinStep::Exit(code) => BuiltinStepV::Exit(*code),
            BuiltinStep::ChangeDirectory(target) => BuiltinStepV::ChangeDirectory(target@),
            BuiltinStep::ResumeForeground(id) => BuiltinStepV::ResumeForeground(*id),
            BuiltinStep::ResumeBackground { id, pgid, command } => {
                BuiltinStepV::ResumeBackground { id: *id, pgid: *pgid, command: command@ }
            },
            BuiltinStep::WaitForChild(w) => BuiltinStepV::WaitForChild(w@),
            BuiltinStep::ResolveSignals { args, specs } => BuiltinStepV::ResolveSignals {
                args: texts(args@),
                specs: texts(specs@),
            },
            BuiltinStep::SetDispositions { ran, changes } => BuiltinStepV::SetDispositions {
                ran: ran@,
                changes: changes_view(changes@),
            },
            BuiltinStep::Hosted { number, args } => BuiltinStepV::Hosted {
                number: *number,
                args: texts(args@),
            },
        }
    }
}

/// What running or resuming a builtin gives.
pub ghost struct BuiltinOutV {
    pub shell: ShellV,
    pub step: BuiltinStepV,
}

/// A line of output.
pub open spec fn line(t: Seq<char>) -> Seq<char> {
    t + "\n"@
}

/// A builtin that ran without output.
pub open spec fn quiet(sh: ShellV, status: i32) -> BuiltinOutV {
    BuiltinOutV {
        shell: sh,
        step: BuiltinStepV::Done(
            RanV { status, stdout: Seq::empty(), stderr: Seq::empty() },
        ),
    }
}

/// A builtin that ran and wrote a line of output.
pub open spec fn said(sh: ShellV, text: Seq<char>) -> BuiltinOutV {
    BuiltinOutV {
        shell: sh,
        step: BuiltinStepV::Done(
            RanV { status: 0, stdout: line(text), stderr: Seq::empty() },
        ),
    }
}

/// A builtin that ran and wrote a line of complaint.
pub open spec fn complained(sh: ShellV, status: i32, text: Seq<char>) -> BuiltinOutV {
    BuiltinOutV {
        shell: sh,
        step: BuiltinStepV::Done(
            RanV { status, stdout: Seq::empty(), stderr: line(text) },
        ),
    }
}

/// The first argument.
pub open spec fn first(args: Seq<Seq<char>>) -> Option<Seq<char>> {
    if args.len() > 0 {
        Some(args[0])
    } else {
        None
    }
}

// ---- variables: the rules ----------------------------------------------------------------------

/// The index of the first `=` from `i` on.
pub open spec fn equals_from(s: Seq<char>, i: int) -> Option<int>
    decreases s.len() - i,
{
    if i < 0 || i >= s.len() {
        None
    } else if s[i] == '=' {
        Some(i)
    } else {
        equals_from(s, i + 1)
    }
}

/// The name of a declaration.
pub open spec fn declared_name(s: Seq<char>) -> Seq<char> {
    match equals_from(s, 0) {
        Some(k) => s.subrange(0, k),
        None => s,
    }
}

/// The value of a declaration, if it has one.
pub open spec fn declared_value(s: Seq<char>) -> Option<Seq<char>> {
    match equals_from(s, 0) {
        Some(k) => Some(s.subrange(k + 1, s.len() as int)),
        None => None,
    }
}

/// The shell after one argument of `export`: a value is set; a variable of the
/// shell becomes exported; a name without a value is exported as empty.
pub open spec fn exported(sh: ShellV, arg: Seq<char>) -> ShellV {
    let name = declared_name(arg);
    match declared_value(arg) {
        Some(v) => ShellV { env: sh.env.insert(name, v), ..sh },
        None => if sh.vars.contains_key(name) {
            ShellV {
                vars: sh.vars.remove(name),
                env: sh.env.insert(name, sh.vars[name]),
                ..sh
            }
        } else if sh.env.contains_key(name) {
            sh
        } else {
            ShellV { env: sh.env.insert(name, Seq::empty()), ..sh }
        },
    }
}

/// The shell after all arguments of `export`.
pub open spec fn all_exported(sh: ShellV, args: Seq<Seq<char>>) -> ShellV
    decreases args.len(),
{
    if args.len() == 0 {
        sh
    } else {
        exported(all_exported(sh, args.drop_last()), args.last())
    }
}

/// The shell after a valid declaration of `local`.
pub open spec fn declared(sh: ShellV, arg: Seq<char>) -> ShellV {
    let name = declared_name(arg);
    local_set(recorded(sh, name, captured(sh, name)), name, declared_value(arg))
}

/// The arguments of `local`: those whose name is valid are declared, the others
/// are complained about.
pub open spec fn all_declared(sh: ShellV, args: Seq<Seq<char>>) -> BuiltinOutV
    decreases args.len(),
{
    if args.len() == 0 {
        quiet(sh, 0)
    } else {
        let before = all_declared(sh, args.drop_last());
        let arg = args.last();
        if is_name(declared_name(arg)) {
            BuiltinOutV { shell: declared(before.shell, arg), ..before }
        } else {
            BuiltinOutV {
                step: BuiltinStepV::Done(
                    RanV {
                        status: 1,
                        stdout: Seq::empty(),
                        stderr: before.step->Done_0.stderr + line(
                            "local: `"@ + arg + "': not a valid identifier"@,
                        ),
                    },
                ),
                ..before
            }
        }
    }
}

// ---- control flow: the rules --------------------------------------------------------------------

/// A number of loops: at least one.
pub open spec fn loop_count(arg: Option<Seq<char>>) -> Option<u32> {
    match arg {
        None => Some(1),
        Some(t) => match integer_of(t, false) {
            Some(n) if 0 < n <= u32::MAX => Some(n as u32),
            _ => None,
        },
    }
}

/// `break` or `continue`. Outside loops it only complains.
pub open spec fn loop_control(
    sh: ShellV,
    args: Seq<Seq<char>>,
    name: Seq<char>,
    is_break: bool,
) -> BuiltinOutV {
    match loop_count(first(args)) {
        None => complained(sh, 1, name + ": "@ + args[0] + ": loop count out of range"@),
        Some(n) => if sh.loop_depth == 0 {
            complained(
                sh,
                0,
                name + ": only meaningful in a `for', `while', or `until' loop"@,
            )
        } else {
            quiet(
                ShellV {
                    pending: Some(
                        if is_break {
                            ControlFlow::Break(n)
                        } else {
                            ControlFlow::Continue(n)
                        },
                    ),
                    ..sh
                },
                0,
            )
        },
    }
}

/// A status as 32 bits.
pub open spec fn status_of(t: Seq<char>) -> Option<i32> {
    match integer_of(t, true) {
        Some(n) if i32::MIN <= n <= i32::MAX => Some(n as i32),
        _ => None,
    }
}

/// `return`: leaves the function call with a status of eight bits.
pub open spec fn returned(sh: ShellV, args: Seq<Seq<char>>) -> BuiltinOutV {
    if sh.locals.len() == 0 {
        complained(
            sh,
            2,
            "return: can only `return' from a function or sourced script"@,
        )
    } else {
        match first(args) {
            None => quiet(
                ShellV {
                    pending: Some(ControlFlow::Return((sh.last_status % 256) as i32)),
                    ..sh
                },
                0,
            ),
            Some(t) => match status_of(t) {
                Some(code) => quiet(
                    ShellV { pending: Some(ControlFlow::Return((code % 256) as i32)), ..sh },
                    0,
                ),
                None => complained(
                    ShellV { pending: Some(ControlFlow::Return(2)), ..sh },
                    2,
                    "return: "@ + t + ": numeric argument required"@,
                ),
            },
        }
    }
}

/// `exit`: the status to exit with.
pub open spec fn exit_code(sh: ShellV, args: Seq<Seq<char>>) -> i32 {
    match first(args) {
        None => sh.last_status,
        Some(t) => match status_of(t) {
            Some(code) => code,
            None => sh.last_status,
        },
    }
}

/// `set`: only `set --` is there.
pub open spec fn params_set(sh: ShellV, args: Seq<Seq<char>>) -> BuiltinOutV {
    if first(args) == Some("--"@) {
        quiet(ShellV { positional: args.skip(1), ..sh }, 0)
    } else {
        complained(
            sh,
            1,
            "conch: only `set -- [arg...]` is supported so far (a narrow initial implementation -- full `set` is a later phase)"@,
        )
    }
}

/// `shift`: all or nothing.
pub open spec fn shifted(sh: ShellV, args: Seq<Seq<char>>) -> BuiltinOutV {
    let n = match first(args) {
        None => Some(1int),
        Some(t) => match integer_of(t, true) {
            Some(n) if i64::MIN <= n <= i64::MAX => Some(n),
            _ => None,
        },
    };
    match n {
        None => complained(sh, 1, "shift: "@ + args[0] + ": numeric argument required"@),
        Some(n) => if n < 0 || n > sh.positional.len() {
            complained(sh, 1, "shift: shift count out of range"@)
        } else {
            quiet(ShellV { positional: sh.positional.skip(n), ..sh }, 0)
        },
    }
}

// ---- directories: the rules ---------------------------------------------------------------------

/// How a change of directory went.
#[derive(Debug, PartialEq, Eq)]
pub enum DirectoryChange {
    /// The working directory is now this one.
    Changed(String),
    /// It could not be changed.
    Refused(String),
    /// It was changed, but its name could not be read.
    Unknown(String),
}

/// `cd`: to a directory, or home.
pub open spec fn cd(sh: ShellV, args: Seq<Seq<char>>) -> BuiltinOutV {
    match first(args) {
        Some(dir) => BuiltinOutV { shell: sh, step: BuiltinStepV::ChangeDirectory(dir) },
        None => match lookup(sh, "HOME"@) {
            Some(home) => BuiltinOutV { shell: sh, step: BuiltinStepV::ChangeDirectory(home) },
            None => complained(sh, 1, "cd: HOME not set"@),
        },
    }
}

/// `cd` after the change of directory.
pub open spec fn cd_done(sh: ShellV, target: Seq<char>, change: DirectoryChange) -> BuiltinOutV {
    match change {
        DirectoryChange::Changed(cwd) => quiet(ShellV { cwd: cwd@, ..sh }, 0),
        DirectoryChange::Refused(e) => complained(sh, 1, "cd: "@ + target + ": "@ + e@),
        DirectoryChange::Unknown(e) => complained(sh, 1, "cd: "@ + e@),
    }
}

// ---- jobs: the rules ------------------------------------------------------------------------------

/// `t` with spaces behind it up to a width.
pub open spec fn padded(t: Seq<char>, width: nat) -> Seq<char>
    decreases width - t.len(),
{
    if t.len() >= width {
        t
    } else {
        padded(t.push(' '), width)
    }
}

/// The line of a job in the list.
pub open spec fn job_line(j: JobV, pids_only: bool) -> Seq<char> {
    if pids_only {
        decimal(j.leader as int)
    } else {
        "["@ + decimal(j.id as int) + "]  "@ + padded(state_label(j.state), 11) + " "@ + j.command
    }
}

/// The list of jobs.
pub open spec fn job_lines(s: Seq<JobV>, pids_only: bool) -> Seq<char>
    decreases s.len(),
{
    if s.len() == 0 {
        Seq::empty()
    } else {
        job_lines(s.drop_last(), pids_only) + line(job_line(s.last(), pids_only))
    }
}

/// A job whose state is news: it has not been shown, and is not running.
pub open spec fn is_news(j: JobV) -> bool {
    !j.notified && !(j.state is Running)
}

/// The line of a job that is news.
pub open spec fn news_line(j: JobV) -> Seq<char> {
    "["@ + decimal(j.id as int) + "]+  "@ + padded(state_label(j.state), 24) + j.command
}

/// The lines of the jobs that are news.
pub open spec fn news_lines(s: Seq<JobV>) -> Seq<char>
    decreases s.len(),
{
    if s.len() == 0 {
        Seq::empty()
    } else if is_news(s.last()) {
        news_lines(s.drop_last()) + line(news_line(s.last()))
    } else {
        news_lines(s.drop_last())
    }
}

/// The table after its jobs were shown: those that are finished are forgotten.
pub open spec fn shown(t: JobTableV) -> JobTableV {
    let marked = all_notified(t);
    purged(marked, settled_ids(marked.jobs))
}

/// `jobs`.
pub open spec fn listed(sh: ShellV, args: Seq<Seq<char>>) -> BuiltinOutV {
    BuiltinOutV {
        shell: ShellV { jobs: shown(sh.jobs), ..sh },
        step: BuiltinStepV::Done(
            RanV {
                status: 0,
                stdout: job_lines(sh.jobs.jobs, args.contains("-p"@)),
                stderr: Seq::empty(),
            },
        ),
    }
}

/// The job that `fg` or `bg` is about.
pub open spec fn job_for(sh: ShellV, args: Seq<Seq<char>>, name: Seq<char>) -> Result<
    u32,
    Seq<char>,
> {
    if !sh.job_control_active {
        Err(name + ": no job control in this shell"@)
    } else {
        match resolved(sh.jobs, first(args)) {
            Ok(id) => Ok(id),
            Err(e) => Err(name + ": "@ + e),
        }
    }
}

/// `fg`.
pub open spec fn fg(sh: ShellV, args: Seq<Seq<char>>) -> BuiltinOutV {
    match job_for(sh, args, "fg"@) {
        Ok(id) => BuiltinOutV { shell: sh, step: BuiltinStepV::ResumeForeground(id) },
        Err(e) => complained(sh, 1, e),
    }
}

/// `fg` after the job was resumed and its leader was observed. A job that is
/// stopped or interrupted ends everything that is under way.
pub open spec fn fg_done(
    sh: ShellV,
    id: u32,
    result: Result<ChildStatus, Seq<char>>,
) -> BuiltinOutV {
    match result {
        Err(e) => complained(sh, 1, e),
        Ok(status) => {
            let (jobs, became) = foreground_observed(sh.jobs, id, status);
            let after = ShellV { jobs, ..sh };
            match became {
                Foreground::Running => BuiltinOutV {
                    shell: after,
                    step: BuiltinStepV::ResumeForeground(id),
                },
                Foreground::Ended(status) => quiet(after, status),
                Foreground::Stopped(status) => quiet(
                    interrupted(after, ForegroundInterrupt::Stopped(id)),
                    status,
                ),
                Foreground::Interrupted(status) => quiet(
                    interrupted(after, ForegroundInterrupt::Interrupted),
                    status,
                ),
            }
        },
    }
}

/// `bg`.
pub open spec fn bg(sh: ShellV, args: Seq<Seq<char>>) -> BuiltinOutV {
    match job_for(sh, args, "bg"@) {
        Ok(id) => match job_of(sh.jobs.jobs, id) {
            Some(job) => BuiltinOutV {
                shell: sh,
                step: BuiltinStepV::ResumeBackground {
                    id,
                    pgid: job.pgid,
                    command: job.command,
                },
            },
            None => complained(sh, 1, "bg: "@ + decimal(id as int) + ": no such job"@),
        },
        Err(e) => complained(sh, 1, e),
    }
}

/// `bg` after the signal was sent.
pub open spec fn bg_done(
    sh: ShellV,
    id: u32,
    command: Seq<char>,
    sent: Result<(), Seq<char>>,
) -> BuiltinOutV {
    let after = ShellV { jobs: resumed(sh.jobs, id), ..sh };
    match sent {
        Ok(_) => said(after, "["@ + decimal(id as int) + "]  "@ + command + " &"@),
        Err(e) => complained(after, 1, "bg: "@ + e),
    }
}

/// A `wait` that has come to its end.
pub open spec fn waited(sh: ShellV, status: i32, stderr: Seq<char>) -> BuiltinOutV {
    BuiltinOutV {
        shell: ShellV { jobs: purged(sh.jobs, settled_ids(sh.jobs.jobs)), ..sh },
        step: BuiltinStepV::Done(RanV { status, stdout: Seq::empty(), stderr }),
    }
}

/// `wait` from argument `next` on. `none_left`: there is no child to wait for,
/// so that the process of that argument will not change.
pub open spec fn wait_from(sh: ShellV, w: WaitingV, none_left: bool) -> BuiltinOutV
    decreases w.args.len() - w.next,
{
    if w.args.len() == 0 {
        if some_running(sh.jobs.jobs) && !none_left {
            BuiltinOutV { shell: sh, step: BuiltinStepV::WaitForChild(w) }
        } else {
            waited(sh, 0, w.stderr)
        }
    } else if w.next >= w.args.len() {
        waited(sh, w.status, w.stderr)
    } else {
        let arg = w.args[w.next as int];
        match status_of(arg) {
            None => wait_from(
                sh,
                WaitingV {
                    next: w.next + 1,
                    status: 127,
                    stderr: w.stderr + line(
                        "wait: "@ + arg + ": arguments must be process or job IDs"@,
                    ),
                    ..w
                },
                false,
            ),
            Some(pid) => match awaited(sh.jobs.jobs, pid, none_left) {
                Awaited::Ended(code) => wait_from(
                    sh,
                    WaitingV { next: w.next + 1, status: code, ..w },
                    false,
                ),
                Awaited::Block => BuiltinOutV { shell: sh, step: BuiltinStepV::WaitForChild(w) },
                Awaited::Unknown => wait_from(
                    sh,
                    WaitingV {
                        next: w.next + 1,
                        status: 127,
                        stderr: w.stderr + line(
                            "wait: pid "@ + decimal(pid as int)
                                + " is not a child of this shell"@,
                        ),
                        ..w
                    },
                    false,
                ),
            },
        }
    }
}

/// `wait` after a child changed, or after it turned out that there is none.
pub open spec fn wait_resumed(
    sh: ShellV,
    w: WaitingV,
    change: Option<(i32, ChildStatus)>,
) -> BuiltinOutV {
    match change {
        Some((pid, status)) => wait_from(
            ShellV { jobs: observed(sh.jobs, pid, status).0, ..sh },
            w,
            false,
        ),
        None => wait_from(sh, w, true),
    }
}

// ---- traps: the rules -----------------------------------------------------------------------------

/// Lines one after the other.
pub open spec fn lines_text(s: Seq<Seq<char>>) -> Seq<char>
    decreases s.len(),
{
    if s.len() == 0 {
        Seq::empty()
    } else {
        lines_text(s.drop_last()) + line(s.last())
    }
}

/// The lines for all traps, that of the end of the shell last.
pub open spec fn all_trap_lines(t: TrapsV) -> Seq<Seq<char>> {
    sorted(trap_lines(t.names, t.actions)) + (match described(t, None) {
        Some(l) => seq![l],
        None => Seq::empty(),
    })
}

/// The list of all traps.
pub open spec fn traps_listed(sh: ShellV) -> BuiltinOutV {
    BuiltinOutV {
        shell: sh,
        step: BuiltinStepV::Done(
            RanV {
                status: 0,
                stdout: lines_text(all_trap_lines(sh.traps)),
                stderr: Seq::empty(),
            },
        ),
    }
}

/// The action that an argument of `trap` asks for.
pub open spec fn action_of(arg: Seq<char>) -> TrapActionV {
    if arg == "-"@ {
        TrapActionV::Default
    } else if arg.len() == 0 {
        TrapActionV::Ignore
    } else {
        TrapActionV::Command(arg)
    }
}

/// `trap`.
pub open spec fn trap(sh: ShellV, args: Seq<Seq<char>>) -> BuiltinOutV {
    if args.len() == 0 || (args.len() == 1 && args[0] == "-p"@) {
        traps_listed(sh)
    } else if args.len() == 1 {
        complained(sh, 2, "trap: usage: trap [-p] [action] [signal...]"@)
    } else {
        BuiltinOutV {
            shell: sh,
            step: BuiltinStepV::ResolveSignals { args, specs: args.skip(1) },
        }
    }
}

/// What an argument of `trap` turned out to name: a signal, the end of the
/// shell, or an error.
pub type NamedV = Result<Option<Seq<char>>, Seq<char>>;

/// `trap -p` for the first arguments.
pub open spec fn traps_described(sh: ShellV, named: Seq<NamedV>) -> RanV
    decreases named.len(),
{
    if named.len() == 0 {
        RanV { status: 0, stdout: Seq::empty(), stderr: Seq::empty() }
    } else {
        let before = traps_described(sh, named.drop_last());
        match named.last() {
            Ok(signal) => match described(sh.traps, signal) {
                Some(l) => RanV { stdout: before.stdout + line(l), ..before },
                None => before,
            },
            Err(e) => RanV { status: 1, stderr: before.stderr + line(e), ..before },
        }
    }
}

/// `trap` with an action: the shell, the output and the changes of disposition.
pub ghost struct TrapsSetV {
    pub shell: ShellV,
    pub ran: RanV,
    pub changes: Seq<TrapChangeV>,
}

/// `trap` with an action for the first arguments.
pub open spec fn traps_set(sh: ShellV, action: TrapActionV, named: Seq<NamedV>) -> TrapsSetV
    decreases named.len(),
{
    if named.len() == 0 {
        TrapsSetV {
            shell: sh,
            ran: RanV { status: 0, stdout: Seq::empty(), stderr: Seq::empty() },
            changes: Seq::empty(),
        }
    } else {
        let before = traps_set(sh, action, named.drop_last());
        match named.last() {
            Ok(signal) => TrapsSetV {
                shell: with_trap(before.shell, signal, action),
                changes: match signal {
                    Some(s) => before.changes.push(
                        TrapChangeV {
                            signal: s,
                            disposition: trap_disposition(before.shell, signal, action)->Some_0,
                        },
                    ),
                    None => before.changes,
                },
                ..before
            },
            Err(e) => TrapsSetV {
                ran: RanV {
                    status: 1,
                    stderr: before.ran.stderr + line(e),
                    ..before.ran
                },
                ..before
            },
        }
    }
}

/// `trap` after its signals were looked up.
pub open spec fn trap_resolved(
    sh: ShellV,
    args: Seq<Seq<char>>,
    named: Seq<NamedV>,
) -> BuiltinOutV {
    if first(args) == Some("-p"@) {
        BuiltinOutV { shell: sh, step: BuiltinStepV::Done(traps_described(sh, named)) }
    } else {
        let set = traps_set(
            sh,
            action_of(
                if args.len() > 0 {
                    args[0]
                } else {
                    Seq::empty()
                },
            ),
            named,
        );
        BuiltinOutV {
            shell: set.shell,
            step: BuiltinStepV::SetDispositions { ran: set.ran, changes: set.changes },
        }
    }
}

/// The shell after handlers were installed: those signals of the first changes
/// that were to be handled, and for which it succeeded, are handled.
pub open spec fn handlers_noted(
    sh: ShellV,
    changes: Seq<TrapChangeV>,
    installed: Seq<bool>,
) -> ShellV
    decreases changes.len(),
{
    if changes.len() == 0 {
        sh
    } else {
        let n = changes.len() - 1;
        let before = handlers_noted(sh, changes.drop_last(), installed);
        if changes.last().disposition is Handle && n < installed.len() && installed[n] {
            ShellV {
                traps: TrapsV {
                    handled: with_text(
                        before.traps.handled,
                        changes.last().signal,
                    ),
                    ..before.traps
                },
                ..before
            }
        } else {
            before
        }
    }
}

/// The views of what arguments of `trap` name.
pub open spec fn all_named_view(s: Seq<Result<Option<String>, String>>) -> Seq<NamedV> {
    s.map_values(|r: Result<Option<String>, String>| named_view(r))
}

// ---- running: the rules ------------------------------------------------------------------------------

/// A builtin at its start.
pub open spec fn begun(b: Builtin, sh: ShellV, args: Seq<Seq<char>>) -> BuiltinOutV {
    match b {
        Builtin::Cd => cd(sh, args),
        Builtin::Exit => BuiltinOutV { shell: sh, step: BuiltinStepV::Exit(exit_code(sh, args)) },
        Builtin::Export => quiet(all_exported(sh, args), 0),
        Builtin::Echo => said(sh, joined(args, " "@)),
        Builtin::Pwd => said(sh, sh.cwd),
        Builtin::Break => loop_control(sh, args, "break"@, true),
        Builtin::Continue => loop_control(sh, args, "continue"@, false),
        Builtin::Local => if sh.locals.len() == 0 {
            complained(sh, 1, "local: can only be used in a function"@)
        } else {
            all_declared(sh, args)
        },
        Builtin::Return => returned(sh, args),
        Builtin::SetParams => params_set(sh, args),
        Builtin::Shift => shifted(sh, args),
        Builtin::Jobs => listed(sh, args),
        Builtin::Fg => fg(sh, args),
        Builtin::Bg => bg(sh, args),
        Builtin::Wait => wait_from(
            sh,
            WaitingV { args, next: 0, status: 0, stderr: Seq::empty() },
            false,
        ),
        Builtin::Trap => trap(sh, args),
        Builtin::Hosted(number) => BuiltinOutV {
            shell: sh,
            step: BuiltinStepV::Hosted { number, args },
        },
    }
}

// ---- running ---------------------------------------------------------------------------------------

fn ran(status: i32, stdout: String, stderr: String) -> (r: BuiltinStep)
    ensures
        r@ == BuiltinStepV::Done(RanV { status, stdout: stdout@, stderr: stderr@ }),
{
    BuiltinStep::Done(Ran { status, stdout, stderr })
}

fn empty_text() -> (r: String)
    ensures
        r@ == Seq::<char>::empty(),
{
    let r = String::new();
    assert(r@ =~= Seq::<char>::empty());
    r
}

fn silent(status: i32) -> (r: BuiltinStep)
    ensures
        r@ == BuiltinStepV::Done(
            RanV { status, stdout: Seq::empty(), stderr: Seq::empty() },
        ),
{
    ran(status, empty_text(), empty_text())
}

fn say(text: &str) -> (r: BuiltinStep)
    ensures
        r@ == BuiltinStepV::Done(
            RanV { status: 0, stdout: line(text@), stderr: Seq::empty() },
        ),
{
    ran(0, join2(text, "\n"), empty_text())
}

fn complain(status: i32, text: &str) -> (r: BuiltinStep)
    ensures
        r@ == BuiltinStepV::Done(
            RanV { status, stdout: Seq::empty(), stderr: line(text@) },
        ),
{
    ran(status, empty_text(), join2(text, "\n"))
}

/// The index of the first `=`.
fn find_equals(v: &Vec<char>) -> (r: Option<usize>)
    ensures
        match r {
            Some(k) => equals_from(v@, 0) == Some(k as int) && k < v@.len(),
            None => equals_from(v@, 0) is None,
        },
{
    let mut i: usize = 0;
    while i < v.len()
        invariant
            i <= v@.len(),
            equals_from(v@, 0) == equals_from(v@, i as int),
        decreases v@.len() - i,
    {
        if v[i] == '=' {
            return Some(i);
        }
        i += 1;
    }
    None
}

/// The name and the value of a declaration.
fn split_declaration(arg: &str) -> (r: (String, Option<String>))
    ensures
        r.0@ == declared_name(arg@),
        text_option(r.1) == declared_value(arg@),
{
    let v = chars_of(arg);
    let len: usize = v.len();
    match find_equals(&v) {
        Some(k) => (text_between(&v, 0, k), Some(text_between(&v, k + 1, len))),
        None => (arg.to_owned(), None),
    }
}

fn run_export(shell: &mut Shell, args: &Vec<String>) -> (r: BuiltinStep)
    ensures
        (BuiltinOutV { shell: final(shell)@, step: r@ }) == quiet(
            all_exported(old(shell)@, texts(args@)),
            0,
        ),
{
    let ghost all = texts(args@);
    let ghost start = shell@;
    let mut i: usize = 0;
    assert(all.take(0) =~= Seq::empty());
    while i < args.len()
        invariant
            i <= args@.len(),
            all == texts(args@),
            shell@ == all_exported(start, all.take(i as int)),
        decreases args@.len() - i,
    {
        let (name, value) = split_declaration(args[i].as_str());
        match value {
            Some(v) => {
                let _ = shell.env_vars.insert(name, v);
            },
            None => match shell.shell_vars.remove(name.as_str()) {
                Some(v) => {
                    let _ = shell.env_vars.insert(name, v);
                },
                None => {
                    assert(shell@.vars =~= all_exported(start, all.take(i as int)).vars);
                    if !shell.env_vars.contains_key(name.as_str()) {
                        let _ = shell.env_vars.insert(name, empty_text());
                    }
                },
            },
        }
        i += 1;
        assert(all.take(i as int).drop_last() =~= all.take(i - 1));
        assert(all.take(i as int).last() == args@[i - 1]@);
    }
    assert(all.take(all.len() as int) =~= all);
    silent(0)
}

fn run_local(shell: &mut Shell, args: &Vec<String>) -> (r: BuiltinStep)
    ensures
        (BuiltinOutV { shell: final(shell)@, step: r@ }) == begun(
            Builtin::Local,
            old(shell)@,
            texts(args@),
        ),
{
    if !shell.in_function_call() {
        return complain(1, "local: can only be used in a function");
    }
    let ghost all = texts(args@);
    let ghost start = shell@;
    let mut status: i32 = 0;
    let mut stderr = empty_text();
    let mut i: usize = 0;
    assert(all.take(0) =~= Seq::empty());
    while i < args.len()
        invariant
            i <= args@.len(),
            all == texts(args@),
            (BuiltinOutV {
                shell: shell@,
                step: BuiltinStepV::Done(
                    RanV { status, stdout: Seq::empty(), stderr: stderr@ },
                ),
            }) == all_declared(start, all.take(i as int)),
        decreases args@.len() - i,
    {
        let ghost before = all_declared(start, all.take(i as int));
        let arg = &args[i];
        let (name, value) = split_declaration(arg.as_str());
        if !is_valid_name(name.as_str()) {
            let complaint = join3("local: `", arg.as_str(), "': not a valid identifier");
            let ghost so_far = stderr@;
            stderr.append(complaint.as_str());
            stderr.append("\n");
            assert(stderr@ =~= so_far + line(complaint@));
            status = 1;
        } else {
            let previous = shell.capture_var(name.as_str());
            shell.record_local(name.clone(), previous);
            shell.set_local(name.as_str(), value);
        }
        i += 1;
        assert(all.take(i as int).drop_last() =~= all.take(i - 1));
        assert(all.take(i as int).last() == arg@);
    }
    assert(all.take(all.len() as int) =~= all);
    ran(status, empty_text(), stderr)
}

fn run_loop_control(shell: &mut Shell, args: &Vec<String>, is_break: bool) -> (r: BuiltinStep)
    ensures
        (BuiltinOutV { shell: final(shell)@, step: r@ }) == begun(
            if is_break {
                Builtin::Break
            } else {
                Builtin::Continue
            },
            old(shell)@,
            texts(args@),
        ),
{
    let name = if is_break {
        "break"
    } else {
        "continue"
    };
    let level: u32 = if args.len() == 0 {
        1
    } else {
        assert(texts(args@)[0] == args@[0]@);
        let count = match parse_u32(args[0].as_str()) {
            Some(n) => if n > 0 {
                Some(n)
            } else {
                None
            },
            None => None,
        };
        assert(count == loop_count(first(texts(args@))));
        match count {
            Some(n) => n,
            None => {
                let complaint = join3(name, ": ", args[0].as_str());
                return complain(
                    1,
                    join2(complaint.as_str(), ": loop count out of range").as_str(),
                );
            },
        }
    };
    if shell.loop_depth == 0 {
        return complain(
            0,
            join2(name, ": only meaningful in a `for', `while', or `until' loop").as_str(),
        );
    }
    shell.pending_control_flow = Some(
        if is_break {
            ControlFlow::Break(level)
        } else {
            ControlFlow::Continue(level)
        },
    );
    silent(0)
}

/// A status cut to eight bits.
fn low_byte(code: i32) -> (r: i32)
    ensures
        r == code % 256,
{
    match code.checked_rem_euclid(256) {
        Some(n) => n,
        None => 0,
    }
}

fn run_return(shell: &mut Shell, args: &Vec<String>) -> (r: BuiltinStep)
    ensures
        (BuiltinOutV { shell: final(shell)@, step: r@ }) == returned(old(shell)@, texts(args@)),
{
    if !shell.in_function_call() {
        return complain(2, "return: can only `return' from a function or sourced script");
    }
    let code: i32 = if args.len() == 0 {
        shell.last_status
    } else {
        assert(texts(args@)[0] == args@[0]@);
        match parse_i32(args[0].as_str()) {
            Some(code) => code,
            None => {
                shell.pending_control_flow = Some(ControlFlow::Return(2));
                return complain(
                    2,
                    join3("return: ", args[0].as_str(), ": numeric argument required").as_str(),
                );
            },
        }
    };
    shell.pending_control_flow = Some(ControlFlow::Return(low_byte(code)));
    silent(0)
}

fn run_set(shell: &mut Shell, args: &Vec<String>) -> (r: BuiltinStep)
    ensures
        (BuiltinOutV { shell: final(shell)@, step: r@ }) == params_set(old(shell)@, texts(args@)),
{
    assert(args@.len() > 0 ==> texts(args@)[0] == args@[0]@);
    if args.len() > 0 && same_text(args[0].as_str(), "--") {
        shell.positional_params = texts_from(args, 1);
        return silent(0);
    }
    complain(
        1,
        "conch: only `set -- [arg...]` is supported so far (a narrow initial implementation -- full `set` is a later phase)",
    )
}

/// Copies of the texts from `from` on.
pub fn texts_from(v: &Vec<String>, from: usize) -> (r: Vec<String>)
    requires
        from <= v@.len(),
    ensures
        texts(r@) == texts(v@).skip(from as int),
{
    let ghost wanted = texts(v@).skip(from as int);
    let mut r: Vec<String> = Vec::new();
    let mut i: usize = from;
    assert(wanted.take(0) =~= Seq::empty());
    while i < v.len()
        invariant
            from <= i <= v@.len(),
            wanted == texts(v@).skip(from as int),
            texts(r@) == wanted.take(i - from),
        decreases v@.len() - i,
    {
        r.push(v[i].clone());
        i += 1;
        assert(wanted.take(i - from) =~= wanted.take(i - from - 1).push(wanted[i - from - 1]));
    }
    assert(wanted.take(wanted.len() as int) =~= wanted);
    r
}

fn run_shift(shell: &mut Shell, args: &Vec<String>) -> (r: BuiltinStep)
    ensures
        (BuiltinOutV { shell: final(shell)@, step: r@ }) == shifted(old(shell)@, texts(args@)),
{
    let n: i64 = if args.len() == 0 {
        1
    } else {
        assert(texts(args@)[0] == args@[0]@);
        match parse_i64(args[0].as_str()) {
            Some(n) => n,
            None => {
                return complain(
                    1,
                    join3("shift: ", args[0].as_str(), ": numeric argument required").as_str(),
                );
            },
        }
    };
    if n < 0 || n as u64 > shell.positional_params.len() as u64 {
        return complain(1, "shift: shift count out of range");
    }
    shell.positional_params = texts_from(&shell.positional_params, n as usize);
    silent(0)
}

fn run_cd(shell: &Shell, args: &Vec<String>) -> (r: BuiltinStep)
    ensures
        (BuiltinOutV { shell: shell@, step: r@ }) == cd(shell@, texts(args@)),
{
    if args.len() > 0 {
        assert(texts(args@)[0] == args@[0]@);
        return BuiltinStep::ChangeDirectory(args[0].clone());
    }
    match shell.get_var("HOME") {
        Some(home) => BuiltinStep::ChangeDirectory(home.to_owned()),
        None => complain(1, "cd: HOME not set"),
    }
}

/// `cd` after the change of directory.
pub fn cd_finished(shell: &mut Shell, target: &str, change: DirectoryChange) -> (r: BuiltinStep)
    ensures
        (BuiltinOutV { shell: final(shell)@, step: r@ }) == cd_done(old(shell)@, target@, change),
{
    match change {
        DirectoryChange::Changed(cwd) => {
            shell.cwd = cwd;
            silent(0)
        },
        DirectoryChange::Refused(e) => {
            let complaint = join3("cd: ", target, ": ");
            complain(1, join2(complaint.as_str(), e.as_str()).as_str())
        },
        DirectoryChange::Unknown(e) => complain(1, join2("cd: ", e.as_str()).as_str()),
    }
}

// ---- jobs --------------------------------------------------------------------------------------------

/// `t` with spaces behind it up to a width.
pub fn pad(t: &str, width: usize) -> (r: String)
    ensures
        r@ == padded(t@, width as nat),
{
    let mut len: usize = chars_of(t).len();
    let mut r = t.to_owned();
    while len < width
        invariant
            len == r@.len(),
            padded(t@, width as nat) == padded(r@, width as nat),
        decreases width - len,
    {
        r.push(' ');
        len += 1;
    }
    r
}

fn format_job(job: &Job, pids_only: bool) -> (r: String)
    ensures
        r@ == job_line(job@, pids_only),
{
    if pids_only {
        return i64_to_text(job.leader as i64);
    }
    let mut r = join3("[", i64_to_text(job.id as i64).as_str(), "]  ");
    r.append(pad(job.state.label(), 11).as_str());
    r.append(" ");
    r.append(job.command.as_str());
    r
}

fn has_text(v: &Vec<String>, t: &str) -> (r: bool)
    ensures
        r == texts(v@).contains(t@),
{
    let mut i: usize = 0;
    while i < v.len()
        invariant
            i <= v@.len(),
            forall|k: int| 0 <= k < i ==> (#[trigger] v@[k])@ != t@,
        decreases v@.len() - i,
    {
        if same_text(v[i].as_str(), t) {
            assert(texts(v@)[i as int] == t@);
            return true;
        }
        i += 1;
    }
    assert forall|k: int| 0 <= k < texts(v@).len() implies texts(v@)[k] != t@ by {
        assert(v@[k]@ != t@);
    }
    false
}

fn run_jobs(shell: &mut Shell, args: &Vec<String>) -> (r: BuiltinStep)
    ensures
        (BuiltinOutV { shell: final(shell)@, step: r@ }) == listed(old(shell)@, texts(args@)),
{
    let pids_only = has_text(args, "-p");
    let ghost all = shell@.jobs.jobs;
    let mut stdout = empty_text();
    let jobs = shell.job_table.iter();
    let mut i: usize = 0;
    assert(all.take(0) =~= Seq::empty());
    while i < jobs.len()
        invariant
            i <= jobs@.len(),
            all == jobs_view(jobs@),
            stdout@ == job_lines(all.take(i as int), pids_only),
        decreases jobs@.len() - i,
    {
        let ghost so_far = stdout@;
        let text = format_job(&jobs[i], pids_only);
        stdout.append(text.as_str());
        stdout.append("\n");
        i += 1;
        assert(stdout@ =~= so_far + line(text@));
        assert(all.take(i as int).drop_last() =~= all.take(i - 1));
        assert(all.take(i as int).last() == all[i - 1]);
    }
    assert(all.take(all.len() as int) =~= all);
    shell.job_table.mark_all_notified();
    shell.job_table.purge_finished_notified();
    ran(0, stdout, empty_text())
}

/// The lines that an interactive shell shows before its prompt, for the jobs
/// whose states are news. All jobs then count as shown, and those that are
/// finished are forgotten.
pub fn report_finished_jobs(shell: &mut Shell) -> (r: String)
    ensures
        r@ == news_lines(old(shell)@.jobs.jobs),
        final(shell)@ == (ShellV { jobs: shown(old(shell)@.jobs), ..old(shell)@ }),
{
    let ghost all = shell@.jobs.jobs;
    let mut r = empty_text();
    let jobs = shell.job_table.iter();
    let mut i: usize = 0;
    assert(all.take(0) =~= Seq::empty());
    while i < jobs.len()
        invariant
            i <= jobs@.len(),
            all == jobs_view(jobs@),
            r@ == news_lines(all.take(i as int)),
        decreases jobs@.len() - i,
    {
        let ghost so_far = r@;
        let job = &jobs[i];
        let running = match job.state {
            JobState::Running => true,
            _ => false,
        };
        if !job.notified && !running {
            let mut text = join3("[", i64_to_text(job.id as i64).as_str(), "]+  ");
            text.append(pad(job.state.label(), 24).as_str());
            text.append(job.command.as_str());
            r.append(text.as_str());
            r.append("\n");
            assert(r@ =~= so_far + line(text@));
        }
        i += 1;
        assert(all.take(i as int).drop_last() =~= all.take(i - 1));
        assert(all.take(i as int).last() == all[i - 1]);
    }
    assert(all.take(all.len() as int) =~= all);
    shell.job_table.mark_all_notified();
    shell.job_table.purge_finished_notified();
    r
}

fn first_text(args: &Vec<String>) -> (r: Option<&str>)
    ensures
        match r {
            Some(t) => first(texts(args@)) == Some(t@),
            None => first(texts(args@)) is None,
        },
{
    if args.len() > 0 {
        assert(texts(args@)[0] == args@[0]@);
        Some(args[0].as_str())
    } else {
        None
    }
}

/// The job that `fg` or `bg` is about, or the message that there is none.
fn resolve_fg_bg_job(shell: &Shell, args: &Vec<String>, name: &str) -> (r: Result<u32, String>)
    ensures
        match job_for(shell@, texts(args@), name@) {
            Ok(id) => r == Ok::<u32, String>(id),
            Err(e) => r is Err && r->Err_0@ == e,
        },
{
    if !shell.job_control_active {
        return Err(join2(name, ": no job control in this shell"));
    }
    match shell.job_table.resolve_spec(first_text(args)) {
        Ok(id) => Ok(id),
        Err(e) => Err(join3(name, ": ", e.as_str())),
    }
}

fn run_fg(shell: &Shell, args: &Vec<String>) -> (r: BuiltinStep)
    ensures
        (BuiltinOutV { shell: shell@, step: r@ }) == fg(shell@, texts(args@)),
{
    match resolve_fg_bg_job(shell, args, "fg") {
        Ok(id) => BuiltinStep::ResumeForeground(id),
        Err(e) => complain(1, e.as_str()),
    }
}

/// `fg` after job `id` was resumed: what was observed of its leader, or why that
/// did not work.
pub fn foreground_changed(shell: &mut Shell, id: u32, result: Result<ChildStatus, String>) -> (r:
    BuiltinStep)
    ensures
        (BuiltinOutV { shell: final(shell)@, step: r@ }) == fg_done(
            old(shell)@,
            id,
            match result {
                Ok(status) => Ok(status),
                Err(e) => Err(e@),
            },
        ),
{
    match result {
        Err(e) => complain(1, e.as_str()),
        Ok(status) => match shell.job_table.observe_foreground(id, status) {
            Foreground::Running => BuiltinStep::ResumeForeground(id),
            Foreground::Ended(status) => silent(status),
            Foreground::Stopped(status) => {
                shell.foreground_interrupt = Some(ForegroundInterrupt::Stopped(id));
                silent(status)
            },
            Foreground::Interrupted(status) => {
                shell.foreground_interrupt = Some(ForegroundInterrupt::Interrupted);
                silent(status)
            },
        },
    }
}

fn run_bg(shell: &Shell, args: &Vec<String>) -> (r: BuiltinStep)
    ensures
        (BuiltinOutV { shell: shell@, step: r@ }) == bg(shell@, texts(args@)),
{
    match resolve_fg_bg_job(shell, args, "bg") {
        Ok(id) => match shell.background_group(id) {
            Ok(pgid) => {
                let command = match shell.job_table.get(id) {
                    Some(job) => job.command.clone(),
                    None => empty_text(),
                };
                BuiltinStep::ResumeBackground { id, pgid, command }
            },
            Err(e) => complain(1, e.as_str()),
        },
        Err(e) => complain(1, e.as_str()),
    }
}

/// `bg` after the signal was sent.
pub fn background_finished(
    shell: &mut Shell,
    id: u32,
    command: &str,
    sent: Result<(), String>,
) -> (r: BuiltinStep)
    ensures
        (BuiltinOutV { shell: final(shell)@, step: r@ }) == bg_done(
            old(shell)@,
            id,
            command@,
            match sent {
                Ok(_) => Ok(()),
                Err(e) => Err(e@),
            },
        ),
{
    match shell.resume_job_in_background(id, sent) {
        Ok(_) => {
            let mut text = join3("[", i64_to_text(id as i64).as_str(), "]  ");
            text.append(command);
            text.append(" &");
            say(text.as_str())
        },
        Err(e) => complain(1, e.as_str()),
    }
}

/// `wait` from the argument that it has come to.
fn run_wait(shell: &mut Shell, waiting: Waiting, none_left: bool) -> (r: BuiltinStep)
    ensures
        (BuiltinOutV { shell: final(shell)@, step: r@ }) == wait_from(
            old(shell)@,
            waiting@,
            none_left,
        ),
{
    if waiting.args.len() == 0 {
        if !shell.wait_for_all_background_jobs(none_left) {
            return BuiltinStep::WaitForChild(waiting);
        }
        shell.purge_finished_notified_jobs();
        return ran(0, empty_text(), waiting.stderr);
    }
    let ghost whole = wait_from(shell@, waiting@, none_left);
    let ghost start = shell@;
    let ghost args = waiting@.args;
    let mut w = waiting;
    let mut gone = none_left;
    while w.next < w.args.len()
        invariant
            args.len() > 0,
            args == texts(w.args@),
            start == shell@,
            start == old(shell)@,
            whole == wait_from(start, waiting@, none_left),
            whole == wait_from(start, w@, gone),
        decreases args.len() - w.next,
    {
        let arg = w.args[w.next].clone();
        assert(args[w.next as int] == arg@);
        let ghost before = w@;
        match parse_i32(arg.as_str()) {
            None => {
                let complaint = join3(
                    "wait: ",
                    arg.as_str(),
                    ": arguments must be process or job IDs",
                );
                w.stderr.append(complaint.as_str());
                w.stderr.append("\n");
                assert(w.stderr@ =~= before.stderr + line(complaint@));
                w.status = 127;
            },
            Some(pid) => {
                match shell.wait_for_pid(pid, gone) {
                    Awaited::Ended(code) => {
                        w.status = code;
                    },
                    Awaited::Block => {
                        return BuiltinStep::WaitForChild(w);
                    },
                    Awaited::Unknown => {
                        let complaint = join3(
                            "wait: pid ",
                            i64_to_text(pid as i64).as_str(),
                            " is not a child of this shell",
                        );
                        w.stderr.append(complaint.as_str());
                        w.stderr.append("\n");
                        assert(w.stderr@ =~= before.stderr + line(complaint@));
                        w.status = 127;
                    },
                }
            },
        }
        w.next = w.next + 1;
        gone = false;
    }
    shell.purge_finished_notified_jobs();
    ran(w.status, empty_text(), w.stderr)
}

/// `wait` after a child changed, or after it turned out that there is none.
pub fn wait_for_child_finished(
    shell: &mut Shell,
    waiting: Waiting,
    change: Option<(i32, ChildStatus)>,
) -> (r: BuiltinStep)
    ensures
        (BuiltinOutV { shell: final(shell)@, step: r@ }) == wait_resumed(
            old(shell)@,
            waiting@,
            change,
        ),
{
    match change {
        Some((pid, status)) => {
            let _ = shell.job_table.apply_wait_status(pid, status);
            run_wait(shell, waiting, false)
        },
        None => run_wait(shell, waiting, true),
    }
}

// ---- traps -------------------------------------------------------------------------------------------

/// The lines, one after the other.
fn text_of_lines(lines: &Vec<String>) -> (r: String)
    ensures
        r@ == lines_text(texts(lines@)),
{
    let ghost all = texts(lines@);
    let mut r = empty_text();
    let mut i: usize = 0;
    assert(all.take(0) =~= Seq::empty());
    while i < lines.len()
        invariant
            i <= lines@.len(),
            all == texts(lines@),
            r@ == lines_text(all.take(i as int)),
        decreases lines@.len() - i,
    {
        let ghost so_far = r@;
        r.append(lines[i].as_str());
        r.append("\n");
        i += 1;
        assert(r@ =~= so_far + line(all[i - 1]));
        assert(all.take(i as int).drop_last() =~= all.take(i - 1));
        assert(all.take(i as int).last() == all[i - 1]);
    }
    assert(all.take(all.len() as int) =~= all);
    r
}

fn run_trap(shell: &Shell, args: &Vec<String>) -> (r: BuiltinStep)
    ensures
        (BuiltinOutV { shell: shell@, step: r@ }) == trap(shell@, texts(args@)),
{
    assert(args@.len() > 0 ==> texts(args@)[0] == args@[0]@);
    if args.len() == 0 || (args.len() == 1 && same_text(args[0].as_str(), "-p")) {
        let lines = shell.traps.list();
        return ran(0, text_of_lines(&lines), empty_text());
    }
    if args.len() == 1 {
        return complain(2, "trap: usage: trap [-p] [action] [signal...]");
    }
    BuiltinStep::ResolveSignals { args: clone_texts(args), specs: texts_from(args, 1) }
}

/// What `r` says that `spec` names is possible.
pub open spec fn is_resolution(spec: Seq<char>, r: NamedV) -> bool {
    match r {
        Ok(None) => signal_spec(spec) is Exit,
        Ok(Some(signal)) => may_name(spec, signal),
        Err(e) => may_be_unknown(spec) && e == signal_error(spec),
    }
}

/// Looks up the signals that arguments of `trap` name.
pub fn resolve_signals(specs: &Vec<String>) -> (r: Vec<Result<Option<String>, String>>)
    ensures
        r@.len() == specs@.len(),
        forall|i: int|
            0 <= i < r@.len() ==> is_resolution(texts(specs@)[i], named_view(#[trigger] r@[i])),
{
    let mut r: Vec<Result<Option<String>, String>> = Vec::new();
    let mut i: usize = 0;
    while i < specs.len()
        invariant
            i <= specs@.len(),
            r@.len() == i,
            forall|k: int|
                0 <= k < r@.len() ==> is_resolution(
                    texts(specs@)[k],
                    named_view(#[trigger] r@[k]),
                ),
        decreases specs@.len() - i,
    {
        r.push(parse_signal_spec(specs[i].as_str()));
        i += 1;
    }
    r
}

fn describe_traps(shell: &Shell, named: &Vec<Result<Option<String>, String>>) -> (r: Ran)
    ensures
        r@ == traps_described(shell@, all_named_view(named@)),
{
    let ghost all = all_named_view(named@);
    let mut r = Ran { status: 0, stdout: empty_text(), stderr: empty_text() };
    let mut i: usize = 0;
    assert(all.take(0) =~= Seq::empty());
    while i < named.len()
        invariant
            i <= named@.len(),
            all == all_named_view(named@),
            r@ == traps_described(shell@, all.take(i as int)),
        decreases named@.len() - i,
    {
        let ghost before = r@;
        assert(all[i as int] == named_view(named@[i as int]));
        match &named[i] {
            Ok(signal) => {
                let text = match signal {
                    Some(s) => shell.traps.describe(Some(s.as_str())),
                    None => shell.traps.describe(None),
                };
                if let Some(text) = text {
                    r.stdout.append(text.as_str());
                    r.stdout.append("\n");
                    assert(r.stdout@ =~= before.stdout + line(text@));
                }
            },
            Err(e) => {
                r.stderr.append(e.as_str());
                r.stderr.append("\n");
                assert(r.stderr@ =~= before.stderr + line(e@));
                r.status = 1;
            },
        }
        i += 1;
        assert(all.take(i as int).drop_last() =~= all.take(i - 1));
        assert(all.take(i as int).last() == all[i - 1]);
    }
    assert(all.take(all.len() as int) =~= all);
    r
}

fn set_traps(
    shell: &mut Shell,
    action: &TrapAction,
    named: &Vec<Result<Option<String>, String>>,
) -> (r: (Ran, Vec<TrapChange>))
    ensures
        (TrapsSetV { shell: final(shell)@, ran: r.0@, changes: changes_view(r.1@) }) == traps_set(
            old(shell)@,
            action@,
            all_named_view(named@),
        ),
{
    let ghost all = all_named_view(named@);
    let ghost start = shell@;
    let mut r = Ran { status: 0, stdout: empty_text(), stderr: empty_text() };
    let mut changes: Vec<TrapChange> = Vec::new();
    let mut i: usize = 0;
    assert(all.take(0) =~= Seq::empty());
    assert(changes_view(changes@) =~= Seq::empty());
    while i < named.len()
        invariant
            i <= named@.len(),
            all == all_named_view(named@),
            (TrapsSetV { shell: shell@, ran: r@, changes: changes_view(changes@) }) == traps_set(
                start,
                action@,
                all.take(i as int),
            ),
        decreases named@.len() - i,
    {
        let ghost before = r@;
        let ghost changed = changes_view(changes@);
        assert(all[i as int] == named_view(named@[i as int]));
        match &named[i] {
            Ok(signal) => match signal {
                Some(s) => {
                    if let Some(disposition) = shell.set_trap(Some(s.as_str()), action.clone()) {
                        changes.push(TrapChange { signal: s.clone(), disposition });
                        assert(changes_view(changes@) =~= changed.push(
                            TrapChangeV { signal: s@, disposition },
                        ));
                    }
                },
                None => {
                    let _ = shell.set_trap(None, action.clone());
                },
            },
            Err(e) => {
                r.stderr.append(e.as_str());
                r.stderr.append("\n");
                assert(r.stderr@ =~= before.stderr + line(e@));
                r.status = 1;
            },
        }
        i += 1;
        assert(all.take(i as int).drop_last() =~= all.take(i - 1));
        assert(all.take(i as int).last() == all[i - 1]);
    }
    assert(all.take(all.len() as int) =~= all);
    (r, changes)
}

fn parse_action(arg: &str) -> (r: TrapAction)
    ensures
        r@ == action_of(arg@),
{
    if same_text(arg, "-") {
        TrapAction::Default
    } else if arg.is_empty() {
        TrapAction::Ignore
    } else {
        TrapAction::Command(arg.to_owned())
    }
}

/// `trap` after its signals were looked up.
pub fn signals_resolved(
    shell: &mut Shell,
    args: &Vec<String>,
    named: &Vec<Result<Option<String>, String>>,
) -> (r: BuiltinStep)
    ensures
        (BuiltinOutV { shell: final(shell)@, step: r@ }) == trap_resolved(
            old(shell)@,
            texts(args@),
            all_named_view(named@),
        ),
{
    let empty = empty_text();
    let arg = match first_text(args) {
        Some(t) => t,
        None => empty.as_str(),
    };
    if args.len() > 0 && same_text(arg, "-p") {
        return BuiltinStep::Done(describe_traps(shell, named));
    }
    let action = parse_action(arg);
    let (ran, changes) = set_traps(shell, &action, named);
    BuiltinStep::SetDispositions { ran, changes }
}

/// Notes the handlers that were installed for `changes`.
pub fn dispositions_set(shell: &mut Shell, changes: &Vec<TrapChange>, installed: &Vec<bool>)
    ensures
        final(shell)@ == handlers_noted(old(shell)@, changes_view(changes@), installed@),
{
    let ghost all = changes_view(changes@);
    let ghost start = shell@;
    let mut i: usize = 0;
    assert(all.take(0) =~= Seq::empty());
    while i < changes.len()
        invariant
            i <= changes@.len(),
            all == changes_view(changes@),
            shell@ == handlers_noted(start, all.take(i as int), installed@),
        decreases changes@.len() - i,
    {
        if let Disposition::Handle = changes[i].disposition {
            if i < installed.len() && installed[i] {
                shell.traps.note_handled(changes[i].signal.as_str());
            }
        }
        i += 1;
        assert(all.take(i as int).drop_last() =~= all.take(i - 1));
        assert(all.take(i as int).last() == all[i - 1]);
    }
    assert(all.take(all.len() as int) =~= all);
}

// ---- dispatch ------------------------------------------------------------------------------------------

/// Runs a builtin as far as it goes without the system.
pub fn run_builtin(builtin: Builtin, shell: &mut Shell, args: &Vec<String>) -> (r: BuiltinStep)
    ensures
        (BuiltinOutV { shell: final(shell)@, step: r@ }) == begun(
            builtin,
            old(shell)@,
            texts(args@),
        ),
{
    match builtin {
        Builtin::Cd => run_cd(shell, args),
        Builtin::Exit => {
            let code: i32 = match first_text(args) {
                None => shell.last_status,
                Some(t) => match parse_i32(t) {
                    Some(code) => code,
                    None => shell.last_status,
                },
            };
            BuiltinStep::Exit(code)
        },
        Builtin::Export => run_export(shell, args),
        Builtin::Echo => say(join(args, " ").as_str()),
        Builtin::Pwd => say(shell.cwd.as_str()),
        Builtin::Break => run_loop_control(shell, args, true),
        Builtin::Continue => run_loop_control(shell, args, false),
        Builtin::Local => run_local(shell, args),
        Builtin::Return => run_return(shell, args),
        Builtin::SetParams => run_set(shell, args),
        Builtin::Shift => run_shift(shell, args),
        Builtin::Jobs => run_jobs(shell, args),
        Builtin::Fg => run_fg(shell, args),
        Builtin::Bg => run_bg(shell, args),
        Builtin::Wait => run_wait(
            shell,
            Waiting { args: clone_texts(args), next: 0, status: 0, stderr: empty_text() },
            false,
        ),
        Builtin::Trap => run_trap(shell, args),
        Builtin::Hosted(number) => BuiltinStep::Hosted { number, args: clone_texts(args) },
    }
}

/// The shell with every builtin registered under its name.
#[verifier::opaque]
pub open spec fn all_registered(sh: ShellV) -> ShellV {
    let special = sh.special.insert("exit"@, Builtin::Exit).insert(
        "export"@,
        Builtin::Export,
    ).insert("break"@, Builtin::Break).insert("continue"@, Builtin::Continue).insert(
        "return"@,
        Builtin::Return,
    ).insert("set"@, Builtin::SetParams).insert("shift"@, Builtin::Shift).insert(
        "wait"@,
        Builtin::Wait,
    ).insert("trap"@, Builtin::Trap);
    let builtins = sh.builtins.insert("cd"@, Builtin::Cd).insert("exit"@, Builtin::Exit).insert(
        "export"@,
        Builtin::Export,
    ).insert("echo"@, Builtin::Echo).insert("pwd"@, Builtin::Pwd).insert(
        "break"@,
        Builtin::Break,
    ).insert("continue"@, Builtin::Continue).insert("local"@, Builtin::Local).insert(
        "return"@,
        Builtin::Return,
    ).insert("set"@, Builtin::SetParams).insert("shift"@, Builtin::Shift).insert(
        "jobs"@,
        Builtin::Jobs,
    ).insert("fg"@, Builtin::Fg).insert("bg"@, Builtin::Bg).insert("wait"@, Builtin::Wait).insert(
        "trap"@,
        Builtin::Trap,
    );
    ShellV { builtins, special, ..sh }
}

/// Registers every builtin under its name.
pub fn register_all(shell: &mut Shell)
    ensures
        final(shell)@ == all_registered(old(shell)@),
{
    reveal(all_registered);
    shell.register_builtin("cd".to_owned(), Builtin::Cd);
    shell.register_special_builtin("exit".to_owned(), Builtin::Exit);
    shell.register_special_builtin("export".to_owned(), Builtin::Export);
    shell.register_builtin("echo".to_owned(), Builtin::Echo);
    shell.register_builtin("pwd".to_owned(), Builtin::Pwd);
    shell.register_special_builtin("break".to_owned(), Builtin::Break);
    shell.register_special_builtin("continue".to_owned(), Builtin::Continue);
    shell.register_builtin("local".to_owned(), Builtin::Local);
    shell.register_special_builtin("return".to_owned(), Builtin::Return);
    shell.register_special_builtin("set".to_owned(), Builtin::SetParams);
    shell.register_special_builtin("shift".to_owned(), Builtin::Shift);
    shell.register_builtin("jobs".to_owned(), Builtin::Jobs);
    shell.register_builtin("fg".to_owned(), Builtin::Fg);
    shell.register_builtin("bg".to_owned(), Builtin::Bg);
    shell.register_special_builtin("wait".to_owned(), Builtin::Wait);
    shell.register_special_builtin("trap".to_owned(), Builtin::Trap);
}

// ---- laws --------------------------------------------------------------------------------------------

/// A job that is shown is remembered as shown, and forgotten if it is finished:
/// its end is told once.
pub proof fn law_finished_jobs_are_told_once(t: JobTableV, j: JobV)
    requires
        is_ordered(t),
    ensures
        is_ordered(shown(t)),
        shown(t).jobs.contains(j) <==> j.notified && !finished(j.state) && exists|k: int|
            0 <= k < t.jobs.len() && j == (JobV { notified: true, ..#[trigger] t.jobs[k] }),
{
    let marked = all_notified(t);
    let ids = settled_ids(marked.jobs);
    assert forall|i: int| 0 <= i < t.jobs.len() implies #[trigger] marked.jobs[i] == (JobV {
        notified: true,
        ..t.jobs[i]
    }) by {
    }
    lemma_purged(marked, ids);
    lemma_settled_ids(marked.jobs);
    assert(shown(t).jobs.contains(j) <==> marked.jobs.contains(j) && !ids.contains(j.id));
    if marked.jobs.contains(j) {
        let k = marked.jobs.index_of(j);
        assert(j == (JobV { notified: true, ..t.jobs[k] }));
        if ids.contains(j.id) {
            let m = choose|m: int|
                0 <= m < marked.jobs.len() && (#[trigger] marked.jobs[m]).id == j.id && is_settled(
                    marked.jobs[m],
                );
            assert(m == k) by {
                assert(t.jobs[m].id == t.jobs[k].id);
            }
        } else if finished(j.state) {
            assert(marked.jobs[k].id == j.id && is_settled(marked.jobs[k]));
        }
    }
    if j.notified && exists|k: int|
        0 <= k < t.jobs.len() && j == (JobV { notified: true, ..#[trigger] t.jobs[k] }) {
        let k = choose|k: int|
            0 <= k < t.jobs.len() && j == (JobV { notified: true, ..#[trigger] t.jobs[k] });
        assert(marked.jobs[k] == j);
    }
}

/// A builtin runs to its end on its own unless it is about the system: the
/// directory, jobs, signals, the end of the shell, or a command that is not the
/// shell's.
pub proof fn law_most_builtins_run_at_once(b: Builtin, sh: ShellV, args: Seq<Seq<char>>)
    requires
        !(b is Cd || b is Exit || b is Fg || b is Bg || b is Wait || b is Trap || b is Hosted),
    ensures
        begun(b, sh, args).step is Done,
    decreases args.len(),
{
    if b is Local && args.len() > 0 {
        law_most_builtins_run_at_once(b, sh, args.drop_last());
    }
}

/// A status that `return` hands over fits into eight bits.
pub proof fn law_return_status_fits_a_byte(sh: ShellV, args: Seq<Seq<char>>)
    requires
        sh.locals.len() > 0,
    ensures
        returned(sh, args).shell.pending matches Some(ControlFlow::Return(code)) && 0 <= code
            < 256,
{
}

/// `shift` removes parameters from the front, or leaves all of them.
pub proof fn law_shift_is_all_or_nothing(sh: ShellV, args: Seq<Seq<char>>)
    ensures
        ({
            let after = shifted(sh, args);
            after.step->Done_0.status == 0 || after.shell.positional == sh.positional
        }),
        exists|n: int|
            0 <= n <= sh.positional.len() && shifted(sh, args).shell.positional
                == #[trigger] sh.positional.skip(n),
{
    assert(sh.positional.skip(0) =~= sh.positional);
}

/// An exported variable is seen by child processes and keeps the value that it
/// had, if the argument gives none.
pub proof fn law_export_keeps_or_sets(sh: ShellV, arg: Seq<char>)
    ensures
        ({
            let name = declared_name(arg);
            let after = exported(sh, arg);
            &&& after.env.contains_key(name)
            &&& declared_value(arg) matches Some(v) ==> lookup(after, name) == Some(v)
            &&& declared_value(arg) is None && lookup(sh, name) is None ==> lookup(after, name)
                == Some(Seq::<char>::empty())
            &&& declared_value(arg) is None && !sh.vars.contains_key(name) && sh.env.contains_key(
                name,
            ) ==> lookup(after, name) == lookup(sh, name)
            &&& declared_value(arg) is None && sh.vars.contains_key(name) ==> lookup(after, name)
                == Some(sh.vars[name])
        }),
{
}

} // verus!
