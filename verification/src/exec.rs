//! The executor: it runs a list of commands step by step.
//!
//! Each step either goes on by itself or says what the caller has to do, which
//! then reports how it went. The executor itself touches nothing but the state
//! of the shell.

use vstd::prelude::*;
use vstd::utf8::encode_utf8;

use crate::ast::parts::{
    and_or_at, arm_body_at, arm_count, body_at, branch_count, command_at, command_count,
    condition_at, item_count, operator_at, patterns_at, pipeline_at, rest_count,
};
use crate::ast::{
    arms_view, branches_view, list_option_view, words_view, AndOrList, CaseArm, Command,
    CommandList, CompoundCommand, CompoundCommandKind, FunctionV, LogicalOp, Pipeline,
    SimpleCommand,
};
use crate::builtins::{
    background_finished, cd_finished, changes_view, dispositions_set, foreground_changed,
    run_builtin, signals_resolved, texts_from, wait_for_child_finished, BuiltinOutV, BuiltinStep,
    Ran,
};
use crate::expand::laws::law_expansion_can_be_resumed;
use crate::expand::rules::{OutV, StopV};
use crate::expand::{expand_word_single, output_view, Answers, ExpandError, Request, Stop, Used};
use crate::jobs::{status_of_signal, INTERRUPT};
use crate::numbers::i64_to_text;
use crate::parser::{grammar, parse, parse_error_text};
use crate::prepare::{
    expand_words_fields, find_input, find_output, law_preparation_can_be_resumed,
    law_words_can_be_resumed, match_patterns, pairs_view, prepare, unused, Prepared,
};
use crate::shell::{Builtin, ControlFlow, ForegroundInterrupt, Shell, ShellV, TrapChange};
use crate::text::{clone_texts, join2, join3, lemma_texts_empty, lemma_texts_push, texts};
use crate::text_map::TextMap;
use crate::token::Word;
use crate::traps::text_option;

pub mod laws;
pub mod order;
pub mod rules;
pub mod state;

use state::{
    lemma_stack_view_push, saved_view, stack_view, step_view, target_option, Action, Event, Exit,
    Frame, Input, Machine, Next, Outcome, Output, Spawned, Task, Work,
};

verus! {

broadcast use {lemma_texts_push, lemma_texts_empty, lemma_stack_view_push};

// ---- parts of steps ---------------------------------------------------------------------------

/// `conch: `, a text, and the end of the line.
fn message(text: &str) -> (r: String)
    ensures
        r@ == rules::message(text@),
{
    join3("conch: ", text, "\n")
}

fn no_text() -> (r: String)
    ensures
        r@ == Seq::<char>::empty(),
{
    let r = String::new();
    assert(r@ =~= Seq::<char>::empty());
    r
}

/// The message for a control flow that has nowhere to go.
fn unhandled_message(pending: Option<ControlFlow>) -> (r: String)
    ensures
        r@ == rules::unhandled_message(pending),
{
    match pending {
        None => no_text(),
        Some(ControlFlow::Return(_)) => message(
            "return: can only `return' from a function or sourced script",
        ),
        Some(_) => message("break/continue: only meaningful in a `for', `while', or `until' loop"),
    }
}

/// The bytes of a text.
fn bytes_of(text: &str) -> (r: Vec<u8>)
    ensures
        r@ == encode_utf8(text@),
{
    let bytes = text.as_bytes();
    let mut r: Vec<u8> = Vec::new();
    let mut i: usize = 0;
    assert(bytes@.take(0) =~= r@);
    while i < bytes.len()
        invariant
            i <= bytes@.len(),
            r@ == bytes@.take(i as int),
        decreases bytes@.len() - i,
    {
        r.push(bytes[i]);
        i += 1;
        assert(bytes@.take(i as int) =~= bytes@.take(i - 1).push(bytes@[i - 1]));
    }
    assert(bytes@.take(i as int) =~= bytes@);
    r
}

/// The same outcome with a message in front.
fn tell(o: Outcome, text: &str) -> (r: Outcome)
    ensures
        r.stdout == o.stdout,
        r.stderr@ == text@ + o.stderr@,
        r.next == o.next,
{
    Outcome { stdout: o.stdout, stderr: join2(text, o.stderr.as_str()), next: o.next }
}

fn deeper(n: u32) -> (r: u32)
    ensures
        r == rules::deeper(n),
{
    if n < u32::MAX {
        n + 1
    } else {
        n
    }
}

fn shallower(n: u32) -> (r: u32)
    ensures
        r == rules::shallower(n),
{
    if n > 0 {
        n - 1
    } else {
        n
    }
}

impl Machine {
    /// Goes on to another task.
    fn go(&mut self, task: Task, shell: &Shell) -> (r: Outcome)
        ensures
            step_view(final(self)@, shell@, r) == rules::go(old(self)@.frames, task@, shell@),
    {
        self.task = task;
        self.answers = Answers::new();
        let r = Outcome { stdout: Vec::new(), stderr: no_text(), next: Next::Continue };
        assert(r.stdout@ =~= Seq::empty());
        r
    }

    fn run(&mut self, work: Work, shell: &Shell) -> (r: Outcome)
        ensures
            step_view(final(self)@, shell@, r) == rules::run(old(self)@.frames, work@, shell@),
    {
        self.go(Task::Run(work), shell)
    }

    fn give(&mut self, status: i32, shell: &Shell) -> (r: Outcome)
        ensures
            step_view(final(self)@, shell@, r) == rules::give(old(self)@.frames, status, shell@),
    {
        self.go(Task::Return { status, output: None }, shell)
    }

    fn ask(&mut self, task: Task, action: Action, shell: &Shell) -> (r: Outcome)
        ensures
            step_view(final(self)@, shell@, r) == rules::ask(
                old(self)@.frames,
                task@,
                shell@,
                action@,
            ),
    {
        let o = self.go(task, shell);
        Outcome { stdout: o.stdout, stderr: o.stderr, next: Next::Perform(action) }
    }

    // ---- lists ----------------------------------------------------------------------------------

    fn begin_list(&mut self, list: CommandList, shell: &Shell) -> (r: Outcome)
        ensures
            step_view(final(self)@, shell@, r) == rules::list_begun(
                old(self)@.frames,
                list@,
                shell@,
            ),
    {
        if item_count(&list) == 0 {
            return self.give(shell.last_status, shell);
        }
        let first = and_or_at(&list, 0);
        self.frames.push(Frame::List { list, next: 1 });
        self.run(Work::AndOr(first), shell)
    }

    fn return_to_list(
        &mut self,
        list: CommandList,
        next: usize,
        shell: &mut Shell,
        status: i32,
    ) -> (r: Outcome)
        ensures
            step_view(final(self)@, final(shell)@, r) == rules::list_returned(
                old(self)@.frames,
                list@,
                next as nat,
                old(shell)@,
                status,
            ),
    {
        let pending = shell.pending_control_flow;
        shell.last_status = status;
        let dropped = match pending {
            None => false,
            Some(ControlFlow::Return(_)) => false,
            Some(_) => shell.loop_depth == 0,
        };
        if pending.is_some() && !dropped {
            return self.give(status, shell);
        }
        shell.pending_control_flow = None;
        let o = if next < item_count(&list) {
            let item = and_or_at(&list, next);
            self.frames.push(Frame::List { list, next: next + 1 });
            self.run(Work::AndOr(item), shell)
        } else {
            self.give(status, shell)
        };
        tell(o, unhandled_message(pending).as_str())
    }

    fn return_to_and_or(
        &mut self,
        list: AndOrList,
        next: usize,
        shell: &Shell,
        status: i32,
    ) -> (r: Outcome)
        ensures
            step_view(final(self)@, shell@, r) == rules::and_or_returned(
                old(self)@.frames,
                list@,
                next as nat,
                shell@,
                status,
            ),
    {
        let count: usize = rest_count(&list);
        let mut k: usize = next;
        let ghost rest = list@.rest;
        while k < count
            invariant
                count == rest.len(),
                rest == list@.rest,
                rules::next_pipeline(rest, next as int, status) == rules::next_pipeline(
                    rest,
                    k as int,
                    status,
                ),
            ensures
                k < count ==> rules::next_pipeline(rest, next as int, status) == k,
                k >= count ==> rules::next_pipeline(rest, next as int, status) >= rest.len(),
            decreases count - k,
        {
            let runs = match operator_at(&list, k) {
                LogicalOp::And => status == 0,
                LogicalOp::Or => status != 0,
            };
            if runs {
                break;
            }
            k += 1;
        }
        if shell.pending_control_flow.is_some() || k >= count {
            return self.give(status, shell);
        }
        let pipeline = pipeline_at(&list, k);
        self.frames.push(Frame::AndOr { list, next: k + 1 });
        self.run(Work::Pipeline(pipeline), shell)
    }

    fn run_pipeline(
        &mut self,
        pipeline: Pipeline,
        next: usize,
        shell: &Shell,
        status: i32,
        output: Option<Vec<u8>>,
    ) -> (r: Outcome)
        ensures
            step_view(final(self)@, shell@, r) == rules::pipeline_from(
                old(self)@.frames,
                pipeline@,
                next as nat,
                shell@,
                status,
                state::bytes_option(output),
            ),
    {
        let count: usize = command_count(&pipeline);
        if next >= count {
            return self.give(status, shell);
        }
        let command = command_at(&pipeline, next);
        let capture = count - next > 1;
        self.frames.push(Frame::Pipe { pipeline, next: next + 1 });
        self.run(Work::Command { command, input: output, capture }, shell)
    }

    // ---- compound commands ------------------------------------------------------------------------

    fn run_if(
        &mut self,
        branches: Vec<(CommandList, CommandList)>,
        else_branch: Option<CommandList>,
        branch: usize,
        shell: &Shell,
    ) -> (r: Outcome)
        ensures
            step_view(final(self)@, shell@, r) == rules::if_from(
                old(self)@.frames,
                branches_view(branches@),
                list_option_view(else_branch),
                branch as nat,
                shell@,
            ),
    {
        if branch < branch_count(&branches) {
            let condition = condition_at(&branches, branch);
            self.frames.push(Frame::If { branches, else_branch, branch });
            return self.run(Work::List(condition), shell);
        }
        match else_branch {
            Some(list) => self.run(Work::List(list), shell),
            None => self.give(0, shell),
        }
    }

    fn return_to_if(
        &mut self,
        branches: Vec<(CommandList, CommandList)>,
        else_branch: Option<CommandList>,
        branch: usize,
        shell: &Shell,
        status: i32,
    ) -> (r: Outcome)
        ensures
            step_view(final(self)@, shell@, r) == rules::if_returned(
                old(self)@.frames,
                branches_view(branches@),
                list_option_view(else_branch),
                branch as nat,
                shell@,
                status,
            ),
    {
        if shell.pending_control_flow.is_some() {
            return self.give(status, shell);
        }
        let count: usize = branch_count(&branches);
        if branch >= count {
            return self.run_if(branches, else_branch, branch, shell);
        }
        if status == 0 {
            let body = body_at(&branches, branch);
            return self.run(Work::List(body), shell);
        }
        self.run_if(branches, else_branch, branch + 1, shell)
    }

    fn test_loop(
        &mut self,
        condition: CommandList,
        body: CommandList,
        until: bool,
        status: i32,
        shell: &Shell,
    ) -> (r: Outcome)
        ensures
            step_view(final(self)@, shell@, r) == rules::loop_tested(
                old(self)@.frames,
                condition@,
                body@,
                until,
                status,
                shell@,
            ),
    {
        let work = Work::List(condition.clone());
        self.frames.push(Frame::Loop { condition, body, until, testing: true, status });
        self.run(work, shell)
    }

    fn return_to_loop(
        &mut self,
        condition: CommandList,
        body: CommandList,
        until: bool,
        testing: bool,
        before: i32,
        shell: &mut Shell,
        status: i32,
    ) -> (r: Outcome)
        ensures
            step_view(final(self)@, final(shell)@, r) == rules::loop_returned(
                old(self)@.frames,
                condition@,
                body@,
                until,
                testing,
                before,
                old(shell)@,
                status,
            ),
    {
        if testing && shell.pending_control_flow.is_none() {
            if (status == 0) == until {
                leave_loop(shell);
                return self.give(before, shell);
            }
            let work = Work::List(body.clone());
            self.frames.push(
                Frame::Loop { condition, body, until, testing: false, status: before },
            );
            return self.run(work, shell);
        }
        if take_loop_control_flow(shell) {
            leave_loop(shell);
            self.give(status, shell)
        } else {
            self.test_loop(condition, body, until, status, shell)
        }
    }

    fn run_for(
        &mut self,
        name: String,
        values: Vec<String>,
        next: usize,
        body: CommandList,
        status: i32,
        shell: &mut Shell,
    ) -> (r: Outcome)
        ensures
            step_view(final(self)@, final(shell)@, r) == rules::for_from(
                old(self)@.frames,
                name@,
                texts(values@),
                next as nat,
                body@,
                status,
                old(shell)@,
            ),
    {
        if next < values.len() {
            assert(texts(values@)[next as int] == values@[next as int]@);
            let _ = shell.shell_vars.insert(name.clone(), values[next].clone());
            let work = Work::List(body.clone());
            self.frames.push(Frame::For { name, values, next: next + 1, body, status });
            return self.run(work, shell);
        }
        leave_loop(shell);
        self.give(status, shell)
    }

    fn return_to_for(
        &mut self,
        name: String,
        values: Vec<String>,
        next: usize,
        body: CommandList,
        shell: &mut Shell,
        status: i32,
    ) -> (r: Outcome)
        ensures
            step_view(final(self)@, final(shell)@, r) == rules::for_returned(
                old(self)@.frames,
                name@,
                texts(values@),
                next as nat,
                body@,
                old(shell)@,
                status,
            ),
    {
        if take_loop_control_flow(shell) {
            leave_loop(shell);
            return self.give(status, shell);
        }
        self.run_for(name, values, next, body, status, shell)
    }
}

/// Notes how a process in the foreground has ended. Gives its status.
fn end_process(how: Exit, shell: &mut Shell) -> (status: i32)
    ensures
        status == rules::ended_status(how),
        final(shell)@ == rules::ended_shell(how, old(shell)@),
{
    match how {
        Exit::Code(code) => code,
        Exit::Signal(signal) => {
            if signal == INTERRUPT {
                shell.foreground_interrupt = Some(ForegroundInterrupt::Interrupted);
            }
            status_of_signal(signal)
        },
    }
}

/// Ends the innermost loop.
fn leave_loop(shell: &mut Shell)
    ensures
        final(shell)@ == rules::out_of_loop(old(shell)@),
{
    shell.loop_depth = shallower(shell.loop_depth);
}

/// Begins a loop.
fn enter_loop(shell: &mut Shell)
    ensures
        final(shell)@ == rules::in_loop(old(shell)@),
{
    shell.loop_depth = deeper(shell.loop_depth);
}

/// Takes the innermost loop's share of the control flow under way. Tells
/// whether the loop stops.
fn take_loop_control_flow(shell: &mut Shell) -> (stops: bool)
    ensures
        (final(shell)@.pending, stops) == rules::after_loop(
            old(shell)@.pending,
            old(shell)@.loop_depth,
        ),
        final(shell)@ == (ShellV { pending: final(shell)@.pending, ..old(shell)@ }),
{
    match shell.pending_control_flow {
        None => false,
        Some(ControlFlow::Break(n)) => {
            shell.pending_control_flow = if n == 1 {
                None
            } else {
                Some(ControlFlow::Break(shallower(n)))
            };
            true
        },
        Some(ControlFlow::Continue(n)) => if n == 1 || shell.loop_depth == 1 {
            shell.pending_control_flow = None;
            false
        } else {
            shell.pending_control_flow = Some(ControlFlow::Continue(shallower(n)));
            true
        },
        Some(ControlFlow::Return(_)) => true,
    }
}

// ---- expansion and compound commands ------------------------------------------------------------

/// The environment of a subshell.
fn subshell_env(shell: &Shell) -> (r: TextMap<String>)
    ensures
        r@ == rules::subshell_env(shell@),
{
    let mut env = shell.env_vars.clone();
    let _ = env.insert("__CONCH_PID".to_owned(), i64_to_text(shell.pid as i64));
    let _ = env.insert("__CONCH_IGNORED_SIGNALS".to_owned(), shell.traps.ignored_names());
    env
}

/// The index of the first arm one of whose patterns matches, or the number of
/// arms.
fn find_arm(
    arms: &Vec<CaseArm>,
    text: &str,
    shell: &mut Shell,
    answers: &Answers,
    used: &mut Used,
) -> (r: Result<usize, Stop>)
    ensures
        ({
            let o = rules::matching_arm(
                arms_view(arms@),
                0,
                text@,
                (OutV { shell: old(shell)@, used: old(used)@, result: Ok(text@) }),
                answers@,
            );
            &&& final(shell)@ == o.shell
            &&& match r {
                Ok(i) => o.result == Ok::<int, StopV>(i as int) && i <= arms_view(arms@).len(),
                Err(e) => o.result == Err::<int, StopV>(e@),
            }
        }),
{
    let ghost all = arms_view(arms@);
    let ghost whole = rules::matching_arm(
        all,
        0,
        text@,
        OutV { shell: shell@, used: used@, result: Ok(text@) },
        answers@,
    );
    let count: usize = arm_count(arms);
    let mut i: usize = 0;
    while i < count
        invariant
            i <= count == all.len(),
            all == arms_view(arms@),
            whole == rules::matching_arm(
                all,
                0,
                text@,
                (OutV { shell: old(shell)@, used: old(used)@, result: Ok(text@) }),
                answers@,
            ),
            whole == rules::matching_arm(
                all,
                i as int,
                text@,
                (OutV { shell: shell@, used: used@, result: Ok(text@) }),
                answers@,
            ),
        decreases count - i,
    {
        if match_patterns(patterns_at(arms, i), text, shell, answers, used)? {
            return Ok(i);
        }
        i += 1;
    }
    Ok(count)
}

impl Machine {
    /// An expansion has stopped. `vars` holds the variables from before it.
    fn stop_expansion(&mut self, stop: Stop, vars: TextMap<String>, shell: &mut Shell) -> (r:
        Outcome)
        ensures
            step_view(final(self)@, final(shell)@, r) == rules::expansion_stopped(
                old(self)@,
                (ShellV { vars: vars@, ..old(shell)@ }),
                old(shell)@,
                stop@,
            ),
    {
        match stop {
            Stop::Needs(request) => {
                shell.shell_vars = vars;
                let action = match request {
                    Request::CommandOutput(body) => Action::CommandOutput {
                        body,
                        env: subshell_env(shell),
                    },
                    Request::DirectoryEntries => Action::DirectoryEntries,
                };
                let r = Outcome {
                    stdout: Vec::new(),
                    stderr: no_text(),
                    next: Next::Perform(action),
                };
                assert(r.stdout@ =~= Seq::empty());
                r
            },
            Stop::Failed(e) => {
                let text = message(e.message().as_str());
                let fatal = match e {
                    ExpandError::ParameterNullOrUnset(_) => !shell.is_interactive,
                    _ => false,
                };
                if fatal {
                    let o = self.go(Task::Exit(1), shell);
                    Outcome { stdout: o.stdout, stderr: text, next: Next::Exit(1) }
                } else {
                    let o = self.give(1, shell);
                    tell(o, text.as_str())
                }
            },
        }
    }

    fn begin_for(
        &mut self,
        name: String,
        words: Option<Vec<Word>>,
        body: CommandList,
        shell: &mut Shell,
    ) -> (r: Outcome)
        ensures
            step_view(final(self)@, final(shell)@, r) == rules::for_begun(
                old(self)@,
                name@,
                match words {
                    Some(w) => Some(words_view(w@)),
                    None => None,
                },
                body@,
                old(shell)@,
            ),
    {
        let values = match words {
            None => clone_texts(&shell.positional_params),
            Some(words) => {
                let vars = shell.shell_vars.clone();
                let mut used = Used::new();
                let start: Vec<String> = Vec::new();
                let ghost before = shell@;
                match expand_words_fields(&words, shell, &self.answers, &mut used, start) {
                    Ok(values) => values,
                    Err(stop) => {
                        proof {
                            law_words_can_be_resumed(
                                words_view(words@),
                                0,
                                before,
                                unused(),
                                self.answers@,
                                self.answers@,
                                Seq::empty(),
                            );
                        }
                        return self.stop_expansion(stop, vars, shell);
                    },
                }
            },
        };
        enter_loop(shell);
        self.run_for(name, values, 0, body, 0, shell)
    }

    fn begin_case(&mut self, word: &Word, arms: &Vec<CaseArm>, shell: &mut Shell) -> (r: Outcome)
        ensures
            step_view(final(self)@, final(shell)@, r) == rules::case_begun(
                old(self)@,
                word@,
                arms_view(arms@),
                old(shell)@,
            ),
    {
        let vars = shell.shell_vars.clone();
        let ghost before = shell@;
        let ghost a = self.answers@;
        let mut used = Used::new();
        proof {
            law_expansion_can_be_resumed(word@, before, unused(), a, a);
        }
        let text = match expand_word_single(word, shell, &self.answers, &mut used) {
            Ok(text) => text,
            Err(stop) => {
                return self.stop_expansion(stop, vars, shell);
            },
        };
        proof {
            rules::lemma_matching_arm(
                arms_view(arms@),
                0,
                text@,
                OutV { shell: shell@, used: used@, result: Ok(text@) },
                a,
            );
        }
        match find_arm(arms, text.as_str(), shell, &self.answers, &mut used) {
            Ok(i) => if i < arm_count(arms) {
                let body = arm_body_at(arms, i);
                self.run(Work::List(body), shell)
            } else {
                self.give(0, shell)
            },
            Err(stop) => self.stop_expansion(stop, vars, shell),
        }
    }

    fn begin_compound(&mut self, compound: CompoundCommand, shell: &mut Shell) -> (r: Outcome)
        ensures
            step_view(final(self)@, final(shell)@, r) == rules::compound_begun(
                old(self)@,
                compound@,
                old(shell)@,
            ),
    {
        if compound.redirects.len() > 0 {
            let o = self.give(1, shell);
            return tell(
                o,
                message(
                    "a compound command's own trailing redirect (`{ ...; } > file`, `if ...; fi > file`, `(...) > file`, ...) is not yet supported",
                ).as_str(),
            );
        }
        match compound.kind {
            CompoundCommandKind::BraceGroup(list) => self.run(Work::List(list), shell),
            CompoundCommandKind::Subshell(subshell) => {
                let env = subshell_env(shell);
                self.ask(
                    Task::Subshell,
                    Action::Subshell { source: subshell.source, env },
                    shell,
                )
            },
            CompoundCommandKind::For(clause) => self.begin_for(
                clause.name,
                clause.words,
                clause.body,
                shell,
            ),
            CompoundCommandKind::Case(clause) => self.begin_case(
                &clause.word,
                &clause.arms,
                shell,
            ),
            CompoundCommandKind::If(clause) => self.run_if(
                clause.branches,
                clause.else_branch,
                0,
                shell,
            ),
            CompoundCommandKind::While(clause) => {
                enter_loop(shell);
                self.test_loop(clause.condition, clause.body, false, 0, shell)
            },
            CompoundCommandKind::Until(clause) => {
                enter_loop(shell);
                self.test_loop(clause.condition, clause.body, true, 0, shell)
            },
        }
    }
}

// ---- simple commands ------------------------------------------------------------------------------

/// Assigns values that last.
fn assign_all(pairs: &Vec<(String, String)>, shell: &mut Shell)
    ensures
        final(shell)@ == rules::all_assigned(old(shell)@, pairs_view(pairs@)),
{
    let ghost all = pairs_view(pairs@);
    let ghost start = shell@;
    let mut i: usize = 0;
    assert(all.take(0) =~= Seq::empty());
    while i < pairs.len()
        invariant
            i <= pairs@.len(),
            all == pairs_view(pairs@),
            shell@ == rules::all_assigned(start, all.take(i as int)),
        decreases pairs@.len() - i,
    {
        let _ = shell.shell_vars.insert(pairs[i].0.clone(), pairs[i].1.clone());
        i += 1;
        assert(all.take(i as int).drop_last() =~= all.take(i - 1));
        assert(all.take(i as int).last() == all[i - 1]);
    }
    assert(all.take(all.len() as int) =~= all);
}

/// Makes the assignments in front of a command, and gives what they replace.
fn assign_env(pairs: &Vec<(String, String)>, env: &mut TextMap<String>) -> (r: Vec<
    (String, Option<String>),
>)
    ensures
        final(env)@ == rules::env_with(old(env)@, pairs_view(pairs@)),
        saved_view(r@) == rules::replaced(old(env)@, pairs_view(pairs@)),
{
    let ghost all = pairs_view(pairs@);
    let ghost start = env@;
    let mut saved: Vec<(String, Option<String>)> = Vec::new();
    let mut i: usize = 0;
    assert(all.take(0) =~= Seq::empty());
    assert(saved_view(saved@) =~= Seq::empty());
    while i < pairs.len()
        invariant
            i <= pairs@.len(),
            all == pairs_view(pairs@),
            env@ == rules::env_with(start, all.take(i as int)),
            saved_view(saved@) == rules::replaced(start, all.take(i as int)),
        decreases pairs@.len() - i,
    {
        let ghost before = saved_view(saved@);
        let ghost now = env@;
        let previous = env.insert(pairs[i].0.clone(), pairs[i].1.clone());
        saved.push((pairs[i].0.clone(), previous));
        i += 1;
        assert(all.take(i as int).drop_last() =~= all.take(i - 1));
        assert(all.take(i as int).last() == all[i - 1]);
        assert(text_option(previous) == rules::env_value(now, all[i - 1].0));
        assert(saved_view(saved@) =~= before.push((all[i - 1].0, text_option(previous))));
    }
    assert(all.take(all.len() as int) =~= all);
    saved
}

/// Undoes the assignments in front of a command, the last one first.
fn restore_env(saved: Vec<(String, Option<String>)>, env: &mut TextMap<String>)
    ensures
        final(env)@ == rules::env_restored(old(env)@, saved_view(saved@)),
{
    let ghost whole = rules::env_restored(env@, saved_view(saved@));
    let mut saved = saved;
    while saved.len() > 0
        invariant
            whole == rules::env_restored(env@, saved_view(saved@)),
        decreases saved@.len(),
    {
        let ghost before = saved_view(saved@);
        if let Some((name, previous)) = saved.pop() {
            assert(saved_view(saved@) =~= before.drop_last());
            assert(before.last() == (name@, text_option(previous)));
            match previous {
                Some(v) => {
                    let _ = env.insert(name, v);
                },
                None => {
                    let _ = env.remove(name.as_str());
                },
            }
        }
    }
}

impl Machine {
    fn begin_call(
        &mut self,
        body: CompoundCommand,
        args: Vec<String>,
        prepared: &Prepared,
        shell: &mut Shell,
    ) -> (r: Outcome)
        ensures
            forall|f: FunctionV|
                f.body == body@ ==> step_view(final(self)@, final(shell)@, r)
                    == #[trigger] rules::called(
                    old(self)@.frames,
                    f,
                    texts(args@),
                    prepared@,
                    old(shell)@,
                ),
    {
        if prepared.redirects.len() > 0 {
            let o = self.give(1, shell);
            return tell(
                o,
                message(
                    "a function call's own output redirect (`f > file`) is not yet supported",
                ).as_str(),
            );
        }
        let saved = assign_env(&prepared.assignments, &mut shell.env_vars);
        let mut positional = args;
        core::mem::swap(&mut positional, &mut shell.positional_params);
        let loop_depth: u32 = shell.loop_depth;
        shell.loop_depth = 0;
        shell.push_local_frame();
        shell.function_depth = deeper(shell.function_depth);
        self.frames.push(Frame::Call { positional, loop_depth, saved });
        self.run(Work::Compound(body), shell)
    }

    fn return_to_call(
        &mut self,
        positional: Vec<String>,
        loop_depth: u32,
        saved: Vec<(String, Option<String>)>,
        shell: &mut Shell,
        status: i32,
    ) -> (r: Outcome)
        ensures
            step_view(final(self)@, final(shell)@, r) == rules::call_returned(
                old(self)@.frames,
                texts(positional@),
                loop_depth,
                saved_view(saved@),
                old(shell)@,
                status,
            ),
    {
        let pending = shell.pending_control_flow;
        shell.pending_control_flow = None;
        shell.function_depth = shallower(shell.function_depth);
        shell.pop_local_frame();
        shell.positional_params = positional;
        shell.loop_depth = loop_depth;
        restore_env(saved, &mut shell.env_vars);
        match pending {
            Some(ControlFlow::Return(code)) => {
                let o = self.give(code, shell);
                tell(o, no_text().as_str())
            },
            _ => {
                let o = self.give(status, shell);
                tell(o, unhandled_message(pending).as_str())
            },
        }
    }

    fn finish_builtin(
        &mut self,
        saved: Vec<(String, Option<String>)>,
        output: Option<(String, bool)>,
        capture: bool,
        shell: &mut Shell,
        ran: Ran,
    ) -> (r: Outcome)
        ensures
            step_view(final(self)@, final(shell)@, r) == rules::builtin_finished(
                old(self)@.frames,
                saved_view(saved@),
                target_option(output),
                capture,
                old(shell)@,
                ran@,
            ),
    {
        restore_env(saved, &mut shell.env_vars);
        let data = bytes_of(ran.stdout.as_str());
        let o = match output {
            Some((target, append)) => {
                let action = Action::WriteFile { target: target.clone(), append, data };
                self.ask(Task::Write { target, status: ran.status }, action, shell)
            },
            None => if capture {
                self.go(Task::Return { status: ran.status, output: Some(data) }, shell)
            } else {
                let o = self.give(ran.status, shell);
                Outcome { stdout: data, stderr: o.stderr, next: o.next }
            },
        };
        tell(o, ran.stderr.as_str())
    }

    fn end_builtin(&mut self, shell: &mut Shell, ran: Ran) -> (r: Outcome)
        ensures
            step_view(final(self)@, final(shell)@, r) == rules::builtin_ended(
                old(self)@.frames,
                old(shell)@,
                ran@,
            ),
    {
        let ghost frames = self@.frames;
        match self.frames.pop() {
            None => {
                assert(self@.frames =~= frames);
                let o = self.give(ran.status, shell);
                tell(o, ran.stderr.as_str())
            },
            Some(frame) => {
                assert(self@.frames =~= frames.drop_last());
                assert(frames.last() == frame@);
                match frame {
                    Frame::Builtin { saved, output, capture } => self.finish_builtin(
                        saved,
                        output,
                        capture,
                        shell,
                        ran,
                    ),
                    frame => {
                        self.frames.push(frame);
                        assert(self@.frames =~= frames);
                        let o = self.give(ran.status, shell);
                        tell(o, ran.stderr.as_str())
                    },
                }
            },
        }
    }

    fn begin_exit(&mut self, shell: &mut Shell, code: i32) -> (r: Outcome)
        ensures
            step_view(final(self)@, final(shell)@, r) == rules::exit_begun(
                old(self)@.frames,
                old(shell)@,
                code,
            ),
    {
        match shell.traps.take_exit() {
            None => {
                let o = self.go(Task::Exit(code), shell);
                Outcome { stdout: o.stdout, stderr: o.stderr, next: Next::Exit(code) }
            },
            Some(source) => match parse(source.as_str()) {
                Ok(list) => {
                    self.frames.push(Frame::ExitWith(code));
                    self.run(Work::List(list), shell)
                },
                Err(e) => {
                    let o = self.go(Task::Exit(code), shell);
                    let o = Outcome {
                        stdout: o.stdout,
                        stderr: o.stderr,
                        next: Next::Exit(code),
                    };
                    tell(o, message(join2("trap: ", e.message().as_str()).as_str()).as_str())
                },
            },
        }
    }

    fn follow_builtin(&mut self, step: BuiltinStep, shell: &mut Shell) -> (r: Outcome)
        ensures
            step_view(final(self)@, final(shell)@, r) == rules::builtin_went(
                old(self)@.frames,
                (BuiltinOutV { shell: old(shell)@, step: step@ }),
            ),
    {
        match step {
            BuiltinStep::Done(ran) => self.end_builtin(shell, ran),
            BuiltinStep::Exit(code) => self.begin_exit(shell, code),
            BuiltinStep::ChangeDirectory(target) => {
                let task = Task::Cd(target.clone());
                self.ask(task, Action::ChangeDirectory(target), shell)
            },
            BuiltinStep::ResumeForeground(id) => self.ask(
                Task::Fg(id),
                Action::ResumeForeground(id),
                shell,
            ),
            BuiltinStep::ResumeBackground { id, pgid, command } => self.ask(
                Task::Bg { id, command },
                Action::ResumeBackground(pgid),
                shell,
            ),
            BuiltinStep::WaitForChild(waiting) => self.ask(
                Task::Wait(waiting),
                Action::WaitForChild,
                shell,
            ),
            BuiltinStep::ResolveSignals { args, specs } => self.ask(
                Task::Signals(args),
                Action::ResolveSignals(specs),
                shell,
            ),
            BuiltinStep::SetDispositions { ran, changes } => {
                let to_set = clone_changes(&changes);
                self.ask(
                    Task::Dispositions { ran, changes },
                    Action::SetDispositions(to_set),
                    shell,
                )
            },
            BuiltinStep::Hosted { number, args } => self.ask(
                Task::Hosted,
                Action::Hosted { number, args },
                shell,
            ),
        }
    }

    fn begin_builtin(
        &mut self,
        builtin: Builtin,
        args: &Vec<String>,
        prepared: &Prepared,
        shell: &mut Shell,
        capture: bool,
    ) -> (r: Outcome)
        ensures
            step_view(final(self)@, final(shell)@, r) == rules::builtin_begun(
                old(self)@.frames,
                builtin,
                texts(args@),
                prepared@,
                old(shell)@,
                capture,
            ),
    {
        let saved = assign_env(&prepared.assignments, &mut shell.env_vars);
        let output = find_output(&prepared.redirects);
        self.frames.push(Frame::Builtin { saved, output, capture });
        let step = run_builtin(builtin, shell, args);
        self.follow_builtin(step, shell)
    }

    fn begin_program(
        &mut self,
        name: String,
        args: Vec<String>,
        prepared: &Prepared,
        shell: &Shell,
        input: Option<Vec<u8>>,
        capture: bool,
    ) -> (r: Outcome)
        ensures
            step_view(final(self)@, shell@, r) == rules::program_begun(
                old(self)@.frames,
                name@,
                texts(args@),
                prepared@,
                shell@,
                state::bytes_option(input),
                capture,
            ),
    {
        let mut env = shell.env_vars.clone();
        let _ = assign_env(&prepared.assignments, &mut env);
        let from = find_input(&prepared.redirects);
        let to = find_output(&prepared.redirects);
        let stdin = match &from {
            Some(target) => Input::File(target.clone()),
            None => match input {
                Some(data) => Input::Data(data),
                None => Input::Inherit,
            },
        };
        let stdout = match &to {
            Some((target, append)) => Output::File { target: target.clone(), append: *append },
            None => if capture {
                Output::Capture
            } else {
                Output::Inherit
            },
        };
        let task = Task::Spawn { name: name.clone(), input: from, output: to, capture };
        self.ask(
            task,
            Action::Spawn { name, args, env, input: stdin, output: stdout },
            shell,
        )
    }

    fn end_program(
        &mut self,
        name: String,
        input: Option<String>,
        output: Option<(String, bool)>,
        capture: bool,
        shell: &mut Shell,
        how: Spawned,
    ) -> (r: Outcome)
        ensures
            step_view(final(self)@, final(shell)@, r) == rules::program_ended(
                old(self)@.frames,
                name@,
                text_option(input),
                target_option(output),
                capture,
                old(shell)@,
                how@,
            ),
    {
        match how {
            Spawned::NoInput(e) => {
                let target = match input {
                    Some(target) => target,
                    None => name,
                };
                let o = self.give(1, shell);
                tell(o, message(join3(target.as_str(), ": ", e.as_str()).as_str()).as_str())
            },
            Spawned::NoOutput(e) => {
                let target = match output {
                    Some((target, _)) => target,
                    None => name,
                };
                let o = self.give(1, shell);
                tell(o, message(join3(target.as_str(), ": ", e.as_str()).as_str()).as_str())
            },
            Spawned::NotStarted(e) => {
                let o = self.give(127, shell);
                tell(o, message(join3(name.as_str(), ": ", e.as_str()).as_str()).as_str())
            },
            Spawned::NotWaited(e) => {
                let o = self.give(1, shell);
                tell(o, message(join3(name.as_str(), ": ", e.as_str()).as_str()).as_str())
            },
            Spawned::Ended { how, output: data } => {
                let status: i32 = end_process(how, shell);
                let kept = if output.is_none() && capture {
                    Some(data)
                } else {
                    None
                };
                self.go(Task::Return { status, output: kept }, shell)
            },
        }
    }

    fn begin_command(
        &mut self,
        prepared: Prepared,
        shell: &mut Shell,
        input: Option<Vec<u8>>,
        capture: bool,
    ) -> (r: Outcome)
        ensures
            step_view(final(self)@, final(shell)@, r) == rules::command_begun(
                old(self)@.frames,
                prepared@,
                old(shell)@,
                state::bytes_option(input),
                capture,
            ),
    {
        let (name, args) = match &prepared.fields {
            None => {
                assign_all(&prepared.assignments, shell);
                return self.give(0, shell);
            },
            Some(fields) => {
                assert(texts(fields@).len() == fields@.len());
                if fields.len() == 0 {
                    return self.give(0, shell);
                }
                assert(texts(fields@)[0] == fields@[0]@);
                (fields[0].clone(), texts_from(fields, 1))
            },
        };
        let body = match shell.functions.get(name.as_str()) {
            Some(f) => Some(f.body.clone()),
            None => None,
        };
        match body {
            Some(body) => {
                let ghost f = shell@.functions[name@];
                let r = self.begin_call(body, args, &prepared, shell);
                assert(f.body == body@);
                r
            },
            None => match shell.builtin(name.as_str()) {
                Some(builtin) => self.begin_builtin(builtin, &args, &prepared, shell, capture),
                None => self.begin_program(name, args, &prepared, shell, input, capture),
            },
        }
    }

    fn begin_simple(
        &mut self,
        cmd: &SimpleCommand,
        shell: &mut Shell,
        input: Option<Vec<u8>>,
        capture: bool,
    ) -> (r: Outcome)
        ensures
            step_view(final(self)@, final(shell)@, r) == rules::simple_begun(
                old(self)@,
                cmd@,
                old(shell)@,
                state::bytes_option(input),
                capture,
            ),
    {
        let vars = shell.shell_vars.clone();
        proof {
            law_preparation_can_be_resumed(cmd@, shell@, self.answers@, self.answers@);
        }
        match prepare(cmd, shell, &self.answers) {
            Ok(prepared) => self.begin_command(prepared, shell, input, capture),
            Err(stop) => self.stop_expansion(stop, vars, shell),
        }
    }
}

/// A copy of a list of changes.
fn clone_changes(v: &Vec<TrapChange>) -> (r: Vec<TrapChange>)
    ensures
        changes_view(r@) == changes_view(v@),
{
    let mut r: Vec<TrapChange> = Vec::new();
    let mut i: usize = 0;
    while i < v.len()
        invariant
            i <= v@.len(),
            r@.len() == i,
            forall|j: int| 0 <= j < i ==> (#[trigger] r@[j])@ == v@[j]@,
        decreases v@.len() - i,
    {
        r.push(TrapChange { signal: v[i].signal.clone(), disposition: v[i].disposition });
        i += 1;
    }
    assert(changes_view(r@) =~= changes_view(v@));
    r
}

// ---- steps ------------------------------------------------------------------------------------------

fn clone_bytes(v: &Vec<u8>) -> (r: Vec<u8>)
    ensures
        r@ == v@,
{
    let mut r: Vec<u8> = Vec::new();
    let mut i: usize = 0;
    assert(v@.take(0) =~= r@);
    while i < v.len()
        invariant
            i <= v@.len(),
            r@ == v@.take(i as int),
        decreases v@.len() - i,
    {
        r.push(v[i]);
        i += 1;
        assert(v@.take(i as int) =~= v@.take(i - 1).push(v@[i - 1]));
    }
    assert(v@.take(i as int) =~= v@);
    r
}

fn clone_work(work: &Work) -> (r: Work)
    ensures
        r@ == work@,
{
    match work {
        Work::List(list) => Work::List(list.clone()),
        Work::AndOr(list) => Work::AndOr(list.clone()),
        Work::Pipeline(pipeline) => Work::Pipeline(pipeline.clone()),
        Work::Command { command, input, capture } => Work::Command {
            command: command.clone(),
            input: match input {
                Some(data) => Some(clone_bytes(data)),
                None => None,
            },
            capture: *capture,
        },
        Work::Compound(compound) => Work::Compound(compound.clone()),
    }
}

impl Machine {
    fn begin_work(&mut self, work: Work, shell: &mut Shell) -> (r: Outcome)
        ensures
            step_view(final(self)@, final(shell)@, r) == rules::work_begun(
                old(self)@,
                work@,
                old(shell)@,
            ),
    {
        match work {
            Work::List(list) => self.begin_list(list, shell),
            Work::AndOr(list) => {
                let first = list.first.clone();
                self.frames.push(Frame::AndOr { list, next: 0 });
                self.run(Work::Pipeline(first), shell)
            },
            Work::Pipeline(pipeline) => self.run_pipeline(pipeline, 0, shell, 0, None),
            Work::Command { command, input, capture } => match command {
                Command::Simple(cmd) => self.begin_simple(&cmd, shell, input, capture),
                Command::Compound(compound) => self.run(Work::Compound(compound), shell),
                Command::Function(f) => {
                    let name = f.name.clone();
                    let _ = shell.functions.insert(name, f);
                    self.give(0, shell)
                },
            },
            Work::Compound(compound) => self.begin_compound(compound, shell),
        }
    }

    fn return_to_frame(
        &mut self,
        shell: &mut Shell,
        status: i32,
        output: Option<Vec<u8>>,
    ) -> (r: Outcome)
        ensures
            step_view(final(self)@, final(shell)@, r) == rules::returned(
                old(self)@.frames,
                old(shell)@,
                status,
                state::bytes_option(output),
            ),
    {
        let ghost frames = self@.frames;
        let frame = match self.frames.pop() {
            None => {
                assert(self@.frames =~= frames);
                let o = self.go(Task::Stop(status), shell);
                return Outcome {
                    stdout: o.stdout,
                    stderr: o.stderr,
                    next: Next::Finished(status),
                };
            },
            Some(frame) => frame,
        };
        assert(self@.frames =~= frames.drop_last());
        assert(frames.last() == frame@);
        if shell.foreground_interrupt.is_some() {
            match frame {
                Frame::List { .. } => {
                    shell.last_status = status;
                    return self.give(status, shell);
                },
                Frame::Loop { .. } | Frame::For { .. } => {
                    leave_loop(shell);
                    return self.give(status, shell);
                },
                Frame::AndOr { .. } | Frame::Pipe { .. } | Frame::If { .. } => {
                    return self.give(status, shell);
                },
                _ => {},
            }
        }
        match frame {
            Frame::Program => {
                let text = unhandled_message(shell.pending_control_flow);
                shell.pending_control_flow = None;
                shell.foreground_interrupt = None;
                let o = self.give(status, shell);
                tell(o, text.as_str())
            },
            Frame::ExitWith(code) => {
                let text = unhandled_message(shell.pending_control_flow);
                shell.pending_control_flow = None;
                let o = self.go(Task::Exit(code), shell);
                Outcome { stdout: o.stdout, stderr: text, next: Next::Exit(code) }
            },
            Frame::List { list, next } => self.return_to_list(list, next, shell, status),
            Frame::AndOr { list, next } => self.return_to_and_or(list, next, shell, status),
            Frame::Pipe { pipeline, next } => self.run_pipeline(
                pipeline,
                next,
                shell,
                status,
                output,
            ),
            Frame::If { branches, else_branch, branch } => self.return_to_if(
                branches,
                else_branch,
                branch,
                shell,
                status,
            ),
            Frame::Loop { condition, body, until, testing, status: before } => self.return_to_loop(
                condition,
                body,
                until,
                testing,
                before,
                shell,
                status,
            ),
            Frame::For { name, values, next, body, status: _ } => self.return_to_for(
                name,
                values,
                next,
                body,
                shell,
                status,
            ),
            Frame::Call { positional, loop_depth, saved } => self.return_to_call(
                positional,
                loop_depth,
                saved,
                shell,
                status,
            ),
            Frame::Builtin { saved, output, capture } => self.finish_builtin(
                saved,
                output,
                capture,
                shell,
                Ran { status, stdout: no_text(), stderr: no_text() },
            ),
        }
    }

    /// The report does not belong to the task, which is put back.
    fn refuse(&mut self, task: Task, shell: &Shell) -> (r: Outcome)
        ensures
            step_view(final(self)@, shell@, r) == rules::mismatch(
                (rules::MachineV { task: task@, ..old(self)@ }),
                shell@,
            ),
    {
        self.task = task;
        let r = Outcome { stdout: Vec::new(), stderr: no_text(), next: Next::Mismatch };
        assert(r.stdout@ =~= Seq::empty());
        r
    }

    /// Takes in an answer.
    fn take_answer(&mut self, shell: &Shell) -> (r: Outcome)
        ensures
            final(self)@ == old(self)@,
            r.stdout@ == Seq::<u8>::empty(),
            r.stderr@ == Seq::<char>::empty(),
            r.next@ == rules::NextV::Continue,
    {
        let r = Outcome { stdout: Vec::new(), stderr: no_text(), next: Next::Continue };
        assert(r.stdout@ =~= Seq::empty());
        r
    }

    /// Whether an item of a list is about to start: the place to act on signals
    /// that have arrived.
    #[must_use]
    pub fn is_between_commands(&self) -> (r: bool)
        ensures
            r == (self@.task is Run && self@.task->Run_0 is AndOr),
    {
        match &self.task {
            Task::Run(Work::AndOr(_)) => true,
            _ => false,
        }
    }

    /// Takes the next step, with a report on what was done since the last one.
    pub fn step(&mut self, shell: &mut Shell, event: Event) -> (r: Outcome)
        ensures
            step_view(final(self)@, final(shell)@, r) == rules::step(
                old(self)@,
                old(shell)@,
                event@,
            ),
    {
        if let Task::Run(work) = &self.task {
            return match event {
                Event::Go => {
                    let work = clone_work(work);
                    self.begin_work(work, shell)
                },
                Event::CommandOutput(result) => {
                    let ghost before = self.answers@.outputs;
                    let ghost answer = output_view(result);
                    self.answers.outputs.push(result);
                    assert(self.answers@.outputs =~= before.push(answer));
                    self.take_answer(shell)
                },
                Event::DirectoryEntries(entries) => {
                    let ghost before = self.answers@.listings;
                    let ghost answer = texts(entries@);
                    self.answers.listings.push(entries);
                    assert(self.answers@.listings =~= before.push(answer));
                    self.take_answer(shell)
                },
                _ => {
                    let r = Outcome {
                        stdout: Vec::new(),
                        stderr: no_text(),
                        next: Next::Mismatch,
                    };
                    assert(r.stdout@ =~= Seq::empty());
                    r
                },
            };
        }
        let mut task = Task::Stop(0);
        core::mem::swap(&mut task, &mut self.task);
        match task {
            Task::Run(work) => self.refuse(Task::Run(work), shell),
            Task::Return { status, output } => match event {
                Event::Go => self.return_to_frame(shell, status, output),
                _ => self.refuse(Task::Return { status, output }, shell),
            },
            Task::Spawn { name, input, output, capture } => match event {
                Event::Spawned(how) => self.end_program(
                    name,
                    input,
                    output,
                    capture,
                    shell,
                    how,
                ),
                _ => self.refuse(Task::Spawn { name, input, output, capture }, shell),
            },
            Task::Subshell => match event {
                Event::SubshellEnded(result) => match result {
                    Ok(how) => {
                        let status: i32 = end_process(how, shell);
                        self.give(status, shell)
                    },
                    Err(e) => {
                        let o = self.give(1, shell);
                        tell(o, message(join2("subshell: ", e.as_str()).as_str()).as_str())
                    },
                },
                _ => self.refuse(Task::Subshell, shell),
            },
            Task::Write { target, status } => match event {
                Event::Written(result) => match result {
                    Ok(_) => self.give(status, shell),
                    Err(e) => {
                        let o = self.give(1, shell);
                        tell(
                            o,
                            message(join3(target.as_str(), ": ", e.as_str()).as_str()).as_str(),
                        )
                    },
                },
                _ => self.refuse(Task::Write { target, status }, shell),
            },
            Task::Cd(target) => match event {
                Event::DirectoryChanged(change) => {
                    let step = cd_finished(shell, target.as_str(), change);
                    self.follow_builtin(step, shell)
                },
                _ => self.refuse(Task::Cd(target), shell),
            },
            Task::Fg(id) => match event {
                Event::ForegroundChanged(result) => {
                    let step = foreground_changed(shell, id, result);
                    self.follow_builtin(step, shell)
                },
                _ => self.refuse(Task::Fg(id), shell),
            },
            Task::Bg { id, command } => match event {
                Event::BackgroundResumed(result) => {
                    let step = background_finished(shell, id, command.as_str(), result);
                    self.follow_builtin(step, shell)
                },
                _ => self.refuse(Task::Bg { id, command }, shell),
            },
            Task::Wait(waiting) => match event {
                Event::ChildChanged(change) => {
                    let step = wait_for_child_finished(shell, waiting, change);
                    self.follow_builtin(step, shell)
                },
                _ => self.refuse(Task::Wait(waiting), shell),
            },
            Task::Signals(args) => match event {
                Event::SignalsResolved(named) => {
                    let step = signals_resolved(shell, &args, &named);
                    self.follow_builtin(step, shell)
                },
                _ => self.refuse(Task::Signals(args), shell),
            },
            Task::Dispositions { ran, changes } => match event {
                Event::DispositionsSet(installed) => {
                    dispositions_set(shell, &changes, &installed);
                    self.end_builtin(shell, ran)
                },
                _ => self.refuse(Task::Dispositions { ran, changes }, shell),
            },
            Task::Hosted => match event {
                Event::HostedEnded(ran) => self.end_builtin(shell, ran),
                _ => self.refuse(Task::Hosted, shell),
            },
            Task::Stop(status) => self.refuse(Task::Stop(status), shell),
            Task::Exit(code) => self.refuse(Task::Exit(code), shell),
        }
    }
}

/// An executor that runs a list of commands.
#[must_use]
pub fn exec_command_list(list: &CommandList) -> (r: Machine)
    ensures
        r@ == rules::list_machine(list@),
{
    let r = Machine {
        frames: Vec::new(),
        task: Task::Run(Work::List(list.clone())),
        answers: Answers::new(),
    };
    assert(r@.frames =~= Seq::empty());
    r
}

/// An executor that runs a whole program: a `break`, `continue` or `return` that
/// is still under way at its end is dropped with a message.
#[must_use]
pub fn exec_program(list: &CommandList) -> (r: Machine)
    ensures
        r@ == rules::program_machine(list@),
{
    let mut frames: Vec<Frame> = Vec::new();
    frames.push(Frame::Program);
    assert(stack_view(frames@) =~= seq![rules::FrameV::Program]);
    Machine {
        frames,
        task: Task::Run(Work::List(list.clone())),
        answers: Answers::new(),
    }
}

/// An executor that runs the command of a trap.
///
/// # Errors
///
/// A message, if the command cannot be parsed.
pub fn run_trap_source(source: &str) -> (r: Result<Machine, String>)
    ensures
        match grammar::source(source@) {
            Ok(list) => r is Ok && r->Ok_0@ == rules::program_machine(list),
            Err(e) => r is Err && r->Err_0@ == rules::message("trap: "@ + parse_error_text(e)),
        },
{
    match parse(source) {
        Ok(list) => Ok(exec_program(&list)),
        Err(e) => Err(message(join2("trap: ", e.message().as_str()).as_str())),
    }
}

} // verus!
