//! What holds of every run of the executor.

use vstd::prelude::*;

use super::rules::{
    after_loop, all_assigned, builtin_ended, builtin_finished, builtin_went, call_returned, called,
    command_begun, compound_begun, ended_shell, ended_status, env_restored, env_value, env_with,
    exit_begun, lemma_matching_arm, list_machine, next_pipeline, program_machine, replaced,
    returned, shallower, step, subshell_env, work_begun, EventV, FrameV, MachineV, NextV, SavedV,
    StepV, TaskV, WorkV,
};
use super::state::Exit;
use crate::ast::{CommandV, CompoundV, KindV, ListV, LogicalOp};
use crate::builtins::{
    all_declared, all_exported, begun, bg_done, cd_done, fg_done, handlers_noted, line, status_of,
    trap_resolved, traps_set, wait_from, wait_resumed, BuiltinOutV, BuiltinStepV, NamedV, RanV,
    TrapChangeV, WaitingV,
};
use crate::expand::laws::law_expansion_can_be_resumed;
use crate::expand::rules::word_text;
use crate::jobs::{awaited, observed, Awaited};
use crate::numbers::{decimal, law_decimal_reads_back};
use crate::prepare::{
    last_output, law_preparation_can_be_resumed, law_words_can_be_resumed, prepared, unused,
    PreparedV,
};
use crate::shell::{
    all_restored, frame_popped, ignored_key, inherited_pid, may_be_handed_down, pid_key, restored,
    Builtin, ControlFlow, FrameV as LocalsV, ShellV,
};
use crate::traps::{
    all_portable, can_be_listed, ignored_among, is_portable_signal, law_listed_names_read_back,
    law_portable_names_are_known, lemma_portable_names_itself, TrapActionV,
};

verus! {

// ---- control flow -----------------------------------------------------------------------------

/// What is left of a control flow behind `k` loops, the innermost of which is
/// `loop_depth` loops deep, while every loop stops.
pub open spec fn behind_loops(pending: Option<ControlFlow>, loop_depth: u32, k: nat) -> Option<
    ControlFlow,
>
    decreases k,
{
    if k == 0 {
        pending
    } else {
        behind_loops(after_loop(pending, loop_depth).0, shallower(loop_depth), (k - 1) as nat)
    }
}

/// `break n` stops the `n` innermost loops and no more.
pub proof fn law_break_leaves_its_loops(n: u32, loop_depth: u32, k: nat)
    requires
        0 < n,
        k <= n,
    ensures
        behind_loops(Some(ControlFlow::Break(n)), loop_depth, k) == (if k == n {
            None
        } else {
            Some(ControlFlow::Break((n - k) as u32))
        }),
        after_loop(Some(ControlFlow::Break(n)), loop_depth).1,
    decreases k,
{
    reveal_with_fuel(behind_loops, 2);
    if k > 0 && n > 1 {
        law_break_leaves_its_loops((n - 1) as u32, shallower(loop_depth), (k - 1) as nat);
    }
}

/// `continue n` stops the `n - 1` innermost loops and goes on with the next
/// iteration of the one around them.
pub proof fn law_continue_reaches_its_loop(n: u32, loop_depth: u32, k: nat)
    requires
        0 < n,
        n <= loop_depth,
        k < n,
    ensures
        behind_loops(Some(ControlFlow::Continue(n)), loop_depth, k) == Some(
            ControlFlow::Continue((n - k) as u32),
        ),
        after_loop(Some(ControlFlow::Continue(n)), loop_depth) == (if n == 1 {
            (None::<ControlFlow>, false)
        } else {
            (Some(ControlFlow::Continue((n - 1) as u32)), true)
        }),
    decreases k,
{
    if k > 0 {
        law_continue_reaches_its_loop((n - 1) as u32, shallower(loop_depth), (k - 1) as nat);
    }
}

/// A `continue` that names more loops than there are goes on with the outermost
/// one.
pub proof fn law_continue_is_for_a_loop_that_is_there(n: u32)
    ensures
        after_loop(Some(ControlFlow::Continue(n)), 1) == (None::<ControlFlow>, false),
{
}

/// `return` stops every loop that it passes, and goes through unchanged.
pub proof fn law_return_passes_loops(code: i32, loop_depth: u32, k: nat)
    ensures
        behind_loops(Some(ControlFlow::Return(code)), loop_depth, k) == Some(
            ControlFlow::Return(code),
        ),
        after_loop(Some(ControlFlow::Return(code)), loop_depth).1,
    decreases k,
{
    if k > 0 {
        law_return_passes_loops(code, shallower(loop_depth), (k - 1) as nat);
    }
}

/// After a status, an and-or list goes on with the first pipeline behind an
/// `&&` if it is 0, behind an `||` if it is not.
pub proof fn law_and_or_skips(
    rest: Seq<(LogicalOp, Seq<CommandV>)>,
    i: int,
    status: i32,
)
    requires
        0 <= i <= rest.len(),
    ensures
        ({
            let k = next_pipeline(rest, i, status);
            &&& i <= k <= rest.len()
            &&& k < rest.len() ==> ((rest[k].0 is And) <==> status == 0)
            &&& forall|j: int|
                i <= j < k ==> ((#[trigger] rest[j]).0 is And) != (status == 0)
        }),
    decreases rest.len() - i,
{
    if i < rest.len() && (rest[i].0 is And) != (status == 0) {
        law_and_or_skips(rest, i + 1, status);
    }
}

/// No `break`, `continue` or `return` leaves a function call, and the caller has
/// its positional parameters and its loops back.
pub proof fn law_calls_keep_control_flow(
    frames: Seq<FrameV>,
    positional: Seq<Seq<char>>,
    loop_depth: u32,
    saved: SavedV,
    sh: ShellV,
    status: i32,
)
    ensures
        ({
            let after = call_returned(frames, positional, loop_depth, saved, sh, status);
            &&& after.shell.pending is None
            &&& after.shell.positional == positional
            &&& after.shell.loop_depth == loop_depth
            &&& after.machine.task == (TaskV::Return {
                status: match sh.pending {
                    Some(ControlFlow::Return(code)) => code,
                    _ => status,
                },
                output: None,
            })
        }),
{
    lemma_frame_popped(
        ShellV { function_depth: shallower(sh.function_depth), pending: None, ..sh },
    );
}

/// A function hides a builtin of its name, even a special one.
pub proof fn law_functions_come_first(
    frames: Seq<FrameV>,
    p: PreparedV,
    sh: ShellV,
    input: Option<Seq<u8>>,
    capture: bool,
)
    requires
        p.fields matches Some(fields) && fields.len() > 0 && sh.functions.contains_key(fields[0]),
    ensures
        command_begun(frames, p, sh, input, capture) == called(
            frames,
            sh.functions[p.fields->Some_0[0]],
            p.fields->Some_0.skip(1),
            p,
            sh,
        ),
{
}

// ---- environments -----------------------------------------------------------------------------

/// One of the assignments is to `name`.
pub open spec fn assigns(pairs: Seq<(Seq<char>, Seq<char>)>, name: Seq<char>) -> bool {
    exists|k: int| 0 <= k < pairs.len() && (#[trigger] pairs[k]).0 == name
}

proof fn lemma_assigns_last(pairs: Seq<(Seq<char>, Seq<char>)>, name: Seq<char>)
    requires
        pairs.len() > 0,
    ensures
        assigns(pairs, name) == (assigns(pairs.drop_last(), name) || pairs.last().0 == name),
{
    let front = pairs.drop_last();
    let last = pairs.len() - 1;
    if assigns(front, name) {
        let k = choose|k: int| 0 <= k < front.len() && (#[trigger] front[k]).0 == name;
        assert(pairs[k].0 == name);
    }
    if pairs.last().0 == name {
        assert(pairs[last].0 == name);
    }
    if assigns(pairs, name) {
        let k = choose|k: int| 0 <= k < pairs.len() && (#[trigger] pairs[k]).0 == name;
        if k < last {
            assert(front[k].0 == name);
        }
    }
}

/// Assignments change no other variable.
proof fn lemma_env_with_others(
    env: Map<Seq<char>, Seq<char>>,
    pairs: Seq<(Seq<char>, Seq<char>)>,
    name: Seq<char>,
)
    requires
        !assigns(pairs, name),
    ensures
        env_value(env_with(env, pairs), name) == env_value(env, name),
    decreases pairs.len(),
{
    if pairs.len() > 0 {
        lemma_assigns_last(pairs, name);
        lemma_env_with_others(env, pairs.drop_last(), name);
    }
}

proof fn lemma_env_restored_value(
    env: Map<Seq<char>, Seq<char>>,
    pairs: Seq<(Seq<char>, Seq<char>)>,
    now: Map<Seq<char>, Seq<char>>,
    name: Seq<char>,
)
    ensures
        env_value(env_restored(now, replaced(env, pairs)), name) == (if assigns(pairs, name) {
            env_value(env, name)
        } else {
            env_value(now, name)
        }),
    decreases pairs.len(),
{
    if pairs.len() > 0 {
        let front = pairs.drop_last();
        let saved = replaced(env, pairs);
        assert(saved.drop_last() =~= replaced(env, front));
        let one = match saved.last().1 {
            Some(v) => now.insert(saved.last().0, v),
            None => now.remove(saved.last().0),
        };
        lemma_env_restored_value(env, front, one, name);
        lemma_assigns_last(pairs, name);
        if !assigns(front, name) {
            lemma_env_with_others(env, front, name);
        }
    }
}

/// The assignments in front of a builtin or a function call are undone when it
/// ends, even where one variable is assigned twice. Whatever environment `now` the
/// command leaves, a variable that was assigned in front of it is as it was before,
/// and every other variable is as the command leaves it.
pub proof fn law_prefix_assignments_are_undone(
    env: Map<Seq<char>, Seq<char>>,
    pairs: Seq<(Seq<char>, Seq<char>)>,
    now: Map<Seq<char>, Seq<char>>,
)
    ensures
        forall|name: Seq<char>|
            assigns(pairs, name) ==> #[trigger] env_value(
                env_restored(now, replaced(env, pairs)),
                name,
            ) == env_value(env, name),
        forall|name: Seq<char>|
            !assigns(pairs, name) ==> #[trigger] env_value(
                env_restored(now, replaced(env, pairs)),
                name,
            ) == env_value(now, name),
        env_restored(env_with(env, pairs), replaced(env, pairs)) == env,
{
    let after = env_restored(now, replaced(env, pairs));
    assert forall|name: Seq<char>| #[trigger] env_value(after, name) == (if assigns(pairs, name) {
        env_value(env, name)
    } else {
        env_value(now, name)
    }) by {
        lemma_env_restored_value(env, pairs, now, name);
    }
    let assigned = env_with(env, pairs);
    let back = env_restored(assigned, replaced(env, pairs));
    assert forall|name: Seq<char>| #[trigger] env_value(back, name) == env_value(env, name) by {
        lemma_env_restored_value(env, pairs, assigned, name);
        if !assigns(pairs, name) {
            lemma_env_with_others(env, pairs, name);
        }
    }
    assert forall|name: Seq<char>| #[trigger] back.contains_key(name) == env.contains_key(name) by {
        assert(env_value(back, name) == env_value(env, name));
    }
    assert forall|name: Seq<char>| env.contains_key(name) implies #[trigger] back[name]
        == env[name] by {
        assert(env_value(back, name) == env_value(env, name));
    }
    assert(back =~= env);
}

/// A builtin ends with the variables that were assigned in front of it as they were
/// `before`, and with every other exported variable as it leaves them.
pub proof fn law_builtins_leave_no_prefix_behind(
    frames: Seq<FrameV>,
    before: ShellV,
    pairs: Seq<(Seq<char>, Seq<char>)>,
    output: Option<(Seq<char>, bool)>,
    capture: bool,
    sh: ShellV,
    ran: RanV,
    name: Seq<char>,
)
    ensures
        ({
            let saved = replaced(before.env, pairs);
            let after = builtin_finished(frames, saved, output, capture, sh, ran).shell;
            env_value(after.env, name) == (if assigns(pairs, name) {
                env_value(before.env, name)
            } else {
                env_value(sh.env, name)
            })
        }),
{
    lemma_env_restored_value(before.env, pairs, sh.env, name);
}

/// What a call declared is undone in the same way whatever else the shell holds.
proof fn lemma_restored_env(a: ShellV, b: ShellV, frame: LocalsV)
    requires
        a.env == b.env,
    ensures
        all_restored(a, frame).env == all_restored(b, frame).env,
    decreases frame.len(),
{
    if frame.len() > 0 {
        let (name, previous) = frame.last();
        lemma_restored_env(
            restored(a, name, previous),
            restored(b, name, previous),
            frame.drop_last(),
        );
    }
}

/// A function call ends with the variables that were assigned in front of it as they
/// were `before`, and with every other exported variable as its body leaves them
/// once its local variables are gone.
pub proof fn law_calls_leave_no_prefix_behind(
    frames: Seq<FrameV>,
    before: ShellV,
    pairs: Seq<(Seq<char>, Seq<char>)>,
    sh: ShellV,
    status: i32,
    name: Seq<char>,
)
    ensures
        ({
            let saved = replaced(before.env, pairs);
            let after = call_returned(
                frames,
                before.positional,
                before.loop_depth,
                saved,
                sh,
                status,
            ).shell;
            env_value(after.env, name) == (if assigns(pairs, name) {
                env_value(before.env, name)
            } else {
                env_value(frame_popped(sh).env, name)
            })
        }),
{
    let inner = ShellV { function_depth: shallower(sh.function_depth), pending: None, ..sh };
    lemma_env_restored_value(before.env, pairs, frame_popped(inner).env, name);
    if sh.locals.len() > 0 {
        lemma_restored_env(
            ShellV { locals: sh.locals.drop_last(), ..sh },
            ShellV { locals: inner.locals.drop_last(), ..inner },
            sh.locals.last(),
        );
    }
}

/// A subshell has the `$$` of its shell, whatever its own process number is,
/// and ignores the signals that its shell ignores, if they are portable ones.
pub proof fn law_subshells_inherit(sh: ShellV, process_id: i32, ignored: Seq<Seq<char>>)
    requires
        all_portable(ignored_among(sh.traps.names, sh.traps.actions)),
        may_be_handed_down(subshell_env(sh), ignored),
    ensures
        inherited_pid(subshell_env(sh), process_id) == sh.pid,
        ignored == ignored_among(sh.traps.names, sh.traps.actions),
{
    let names = ignored_among(sh.traps.names, sh.traps.actions);
    law_decimal_reads_back(sh.pid as int);
    assert forall|i: int| 0 <= i < names.len() implies can_be_listed(#[trigger] names[i]) by {
        assert(is_portable_signal(names[i]));
        lemma_portable_names_itself(names[i]);
    }
    law_listed_names_read_back(names);
    law_portable_names_are_known(names, ignored);
    reveal_strlit("__CONCH_PID");
    reveal_strlit("__CONCH_IGNORED_SIGNALS");
    assert(pid_key().len() != ignored_key().len());
}

// ---- depths -----------------------------------------------------------------------------------

proof fn lemma_all_restored(sh: ShellV, frame: LocalsV)
    ensures
        all_restored(sh, frame) == (ShellV {
            env: all_restored(sh, frame).env,
            vars: all_restored(sh, frame).vars,
            ..sh
        }),
    decreases frame.len(),
{
    if frame.len() > 0 {
        lemma_all_restored(
            restored(sh, frame.last().0, frame.last().1),
            frame.drop_last(),
        );
    }
}

proof fn lemma_frame_popped(sh: ShellV)
    ensures
        frame_popped(sh) == (ShellV {
            env: frame_popped(sh).env,
            vars: frame_popped(sh).vars,
            locals: if sh.locals.len() > 0 {
                sh.locals.drop_last()
            } else {
                sh.locals
            },
            ..sh
        }),
{
    if sh.locals.len() > 0 {
        lemma_all_restored(ShellV { locals: sh.locals.drop_last(), ..sh }, sh.locals.last());
    }
}

/// The number of loops that are under way in the innermost function call, or,
/// outside calls, in all; `base` were under way when the executor was made.
pub open spec fn loops(frames: Seq<FrameV>, base: nat) -> nat
    decreases frames.len(),
{
    if frames.len() == 0 {
        base
    } else {
        match frames.last() {
            FrameV::Call { .. } => 0,
            FrameV::Loop { .. } => loops(frames.drop_last(), base) + 1,
            FrameV::For { .. } => loops(frames.drop_last(), base) + 1,
            _ => loops(frames.drop_last(), base),
        }
    }
}

/// The number of function calls that are under way.
pub open spec fn calls(frames: Seq<FrameV>) -> nat
    decreases frames.len(),
{
    if frames.len() == 0 {
        0
    } else {
        calls(frames.drop_last()) + (if frames.last() is Call {
            1nat
        } else {
            0nat
        })
    }
}

/// Every function call remembers how many loops its caller was in.
pub open spec fn calls_remember(frames: Seq<FrameV>, base: nat) -> bool
    decreases frames.len(),
{
    frames.len() == 0 || {
        &&& calls_remember(frames.drop_last(), base)
        &&& match frames.last() {
            FrameV::Call { loop_depth, .. } => loop_depth == loops(frames.drop_last(), base),
            _ => true,
        }
    }
}

/// What a shell counts when an executor is made for it.
pub ghost struct Base {
    pub loop_depth: nat,
    pub function_depth: nat,
    pub locals: nat,
}

/// What the shell counts is what is under way.
pub open spec fn counts_agree(frames: Seq<FrameV>, sh: ShellV, base: Base) -> bool {
    &&& calls_remember(frames, base.loop_depth)
    &&& sh.loop_depth == loops(frames, base.loop_depth)
    &&& sh.function_depth == base.function_depth + calls(frames)
    &&& sh.locals.len() == base.locals + calls(frames)
}

/// Another loop or call can be counted.
pub open spec fn can_count(sh: ShellV) -> bool {
    sh.loop_depth < u32::MAX && sh.function_depth < u32::MAX
}

/// Two shells count the same.
spec fn same_counts(a: ShellV, b: ShellV) -> bool {
    a.loop_depth == b.loop_depth && a.function_depth == b.function_depth && a.locals.len()
        == b.locals.len()
}

proof fn lemma_push(frames: Seq<FrameV>, f: FrameV)
    ensures
        frames.push(f).drop_last() == frames,
        frames.push(f).last() == f,
{
    assert(frames.push(f).drop_last() =~= frames);
}

proof fn lemma_exported(sh: ShellV, args: Seq<Seq<char>>)
    ensures
        same_counts(sh, all_exported(sh, args)),
    decreases args.len(),
{
    if args.len() > 0 {
        lemma_exported(sh, args.drop_last());
    }
}

proof fn lemma_declared(sh: ShellV, args: Seq<Seq<char>>)
    ensures
        same_counts(sh, all_declared(sh, args).shell),
    decreases args.len(),
{
    if args.len() > 0 {
        lemma_declared(sh, args.drop_last());
    }
}

proof fn lemma_wait(sh: ShellV, w: WaitingV, none_left: bool)
    ensures
        same_counts(sh, wait_from(sh, w, none_left).shell),
    decreases w.args.len() - w.next,
{
    if w.args.len() > 0 && w.next < w.args.len() {
        let arg = w.args[w.next as int];
        let next = w.next + 1;
        match status_of(arg) {
            None => {
                lemma_wait(
                    sh,
                    WaitingV {
                        next,
                        status: 127,
                        stderr: w.stderr + line(
                            "wait: "@ + arg + ": arguments must be process or job IDs"@,
                        ),
                        ..w
                    },
                    false,
                );
            },
            Some(pid) => match awaited(sh.jobs.jobs, pid, none_left) {
                Awaited::Ended(code) => {
                    lemma_wait(sh, WaitingV { next, status: code, ..w }, false);
                },
                Awaited::Block => {},
                Awaited::Unknown => {
                    lemma_wait(
                        sh,
                        WaitingV {
                            next,
                            status: 127,
                            stderr: w.stderr + line(
                                "wait: pid "@ + decimal(pid as int)
                                    + " is not a child of this shell"@,
                            ),
                            ..w
                        },
                        false,
                    );
                },
            },
        }
    }
}

proof fn lemma_traps_set(sh: ShellV, action: TrapActionV, named: Seq<NamedV>)
    ensures
        same_counts(sh, traps_set(sh, action, named).shell),
    decreases named.len(),
{
    if named.len() > 0 {
        lemma_traps_set(sh, action, named.drop_last());
    }
}

proof fn lemma_handlers_noted(sh: ShellV, changes: Seq<TrapChangeV>, installed: Seq<bool>)
    ensures
        same_counts(sh, handlers_noted(sh, changes, installed)),
    decreases changes.len(),
{
    if changes.len() > 0 {
        lemma_handlers_noted(sh, changes.drop_last(), installed);
    }
}

proof fn lemma_begun(b: Builtin, sh: ShellV, args: Seq<Seq<char>>)
    ensures
        same_counts(sh, begun(b, sh, args).shell),
{
    match b {
        Builtin::Export => {
            lemma_exported(sh, args);
        },
        Builtin::Local => {
            lemma_declared(sh, args);
        },
        Builtin::Wait => {
            lemma_wait(
                sh,
                WaitingV { args, next: 0, status: 0, stderr: Seq::empty() },
                false,
            );
        },
        _ => {},
    }
}

proof fn lemma_assigned(sh: ShellV, pairs: Seq<(Seq<char>, Seq<char>)>)
    ensures
        same_counts(sh, all_assigned(sh, pairs)),
    decreases pairs.len(),
{
    if pairs.len() > 0 {
        lemma_assigned(sh, pairs.drop_last());
    }
}

/// A step keeps the counts.
spec fn keeps(s: StepV, base: Base) -> bool {
    counts_agree(s.machine.frames, s.shell, base)
}

proof fn lemma_builtin_ended(frames: Seq<FrameV>, sh: ShellV, ran: RanV, base: Base)
    requires
        counts_agree(frames, sh, base),
    ensures
        keeps(builtin_ended(frames, sh, ran), base),
{
}

proof fn lemma_builtin_went(frames: Seq<FrameV>, out: BuiltinOutV, base: Base)
    requires
        counts_agree(frames, out.shell, base),
    ensures
        keeps(builtin_went(frames, out), base),
{
    match out.step {
        BuiltinStepV::Exit(code) => {
            lemma_push(frames, FrameV::ExitWith(code));
        },
        _ => {},
    }
}

proof fn lemma_command_begun(
    frames: Seq<FrameV>,
    p: PreparedV,
    sh: ShellV,
    input: Option<Seq<u8>>,
    capture: bool,
    base: Base,
)
    requires
        counts_agree(frames, sh, base),
        can_count(sh),
    ensures
        keeps(command_begun(frames, p, sh, input, capture), base),
{
    match p.fields {
        None => {
            lemma_assigned(sh, p.assignments);
        },
        Some(fields) => if fields.len() > 0 {
            let name = fields[0];
            let args = fields.skip(1);
            if sh.functions.contains_key(name) {
                lemma_push(
                    frames,
                    FrameV::Call {
                        positional: sh.positional,
                        loop_depth: sh.loop_depth,
                        saved: replaced(sh.env, p.assignments),
                    },
                );
            } else if sh.builtins.contains_key(name) {
                let frame = FrameV::Builtin {
                    saved: replaced(sh.env, p.assignments),
                    output: last_output(p.redirects),
                    capture,
                };
                let here = ShellV { env: env_with(sh.env, p.assignments), ..sh };
                lemma_push(frames, frame);
                lemma_begun(sh.builtins[name], here, args);
                lemma_builtin_went(
                    frames.push(frame),
                    begun(sh.builtins[name], here, args),
                    base,
                );
            }
        },
    }
}

proof fn lemma_compound_begun(m: MachineV, c: CompoundV, sh: ShellV, base: Base)
    requires
        counts_agree(m.frames, sh, base),
        can_count(sh),
    ensures
        keeps(compound_begun(m, c, sh), base),
{
    assert forall|f: FrameV| (#[trigger] m.frames.push(f)).drop_last() == m.frames
        && m.frames.push(f).last() == f by {
        lemma_push(m.frames, f);
    }
    match c.kind {
        KindV::For { name, words, body } => {
            if let Some(words) = words {
                law_words_can_be_resumed(
                    words,
                    0,
                    sh,
                    unused(),
                    m.answers,
                    m.answers,
                    Seq::empty(),
                );
            }
        },
        KindV::Case { word, arms } => {
            law_expansion_can_be_resumed(word, sh, unused(), m.answers, m.answers);
            let o = word_text(word, sh, unused(), m.answers);
            if let Ok(text) = o.result {
                lemma_matching_arm(arms, 0, text, o, m.answers);
            }
        },
        _ => {},
    }
}

proof fn lemma_work_begun(m: MachineV, work: WorkV, sh: ShellV, base: Base)
    requires
        counts_agree(m.frames, sh, base),
        can_count(sh),
    ensures
        keeps(work_begun(m, work, sh), base),
{
    assert forall|f: FrameV| (#[trigger] m.frames.push(f)).drop_last() == m.frames
        && m.frames.push(f).last() == f by {
        lemma_push(m.frames, f);
    }
    match work {
        WorkV::Command { command, input, capture } => match command {
            CommandV::Simple(cmd) => {
                law_preparation_can_be_resumed(cmd, sh, m.answers, m.answers);
                let o = prepared(cmd, sh, m.answers);
                if let Ok(p) = o.result {
                    lemma_command_begun(m.frames, p, o.shell, input, capture, base);
                }
            },
            _ => {},
        },
        WorkV::Compound(c) => {
            lemma_compound_begun(m, c, sh, base);
        },
        _ => {},
    }
}

proof fn lemma_returned(
    frames: Seq<FrameV>,
    sh: ShellV,
    status: i32,
    output: Option<Seq<u8>>,
    base: Base,
)
    requires
        counts_agree(frames, sh, base),
    ensures
        keeps(returned(frames, sh, status, output), base),
{
    if frames.len() > 0 {
        let outer = frames.drop_last();
        assert forall|f: FrameV| (#[trigger] outer.push(f)).drop_last() == outer && outer.push(
            f,
        ).last() == f by {
            lemma_push(outer, f);
        }
        match frames.last() {
            FrameV::Call { positional, loop_depth, saved } => {
                lemma_frame_popped(
                    ShellV {
                        function_depth: shallower(sh.function_depth),
                        pending: None,
                        ..sh
                    },
                );
            },
            _ => {},
        }
    }
}

/// What the shell counts stays what is under way: in every state that the
/// executor reaches, `loop_depth` is the number of loops in the innermost
/// function call, and there is a frame of local variables for every call.
pub proof fn law_counts_agree(m: MachineV, sh: ShellV, e: EventV, base: Base)
    requires
        counts_agree(m.frames, sh, base),
        can_count(sh),
    ensures
        counts_agree(step(m, sh, e).machine.frames, step(m, sh, e).shell, base),
{
    match m.task {
        TaskV::Run(work) => if e is Go {
            lemma_work_begun(m, work, sh, base);
        },
        TaskV::Return { status, output } => {
            lemma_returned(m.frames, sh, status, output, base);
        },
        TaskV::Cd(target) => if let EventV::DirectoryChanged(change) = e {
            lemma_builtin_went(m.frames, cd_done(sh, target, change), base);
        },
        TaskV::Fg(id) => if let EventV::ForegroundChanged(r) = e {
            lemma_builtin_went(m.frames, fg_done(sh, id, r), base);
        },
        TaskV::Bg { id, command } => if let EventV::BackgroundResumed(r) = e {
            lemma_builtin_went(m.frames, bg_done(sh, id, command, r), base);
        },
        TaskV::Wait(w) => if let EventV::ChildChanged(change) = e {
            match change {
                Some((pid, status)) => {
                    lemma_wait(
                        ShellV { jobs: observed(sh.jobs, pid, status).0, ..sh },
                        w,
                        false,
                    );
                },
                None => {
                    lemma_wait(sh, w, true);
                },
            }
            lemma_builtin_went(m.frames, wait_resumed(sh, w, change), base);
        },
        TaskV::Signals(args) => if let EventV::SignalsResolved(named) = e {
            assert forall|action: TrapActionV| same_counts(
                sh,
                #[trigger] traps_set(sh, action, named).shell,
            ) by {
                lemma_traps_set(sh, action, named);
            }
            lemma_builtin_went(m.frames, trap_resolved(sh, args, named), base);
        },
        TaskV::Dispositions { ran, changes } => if let EventV::DispositionsSet(installed) = e {
            lemma_handlers_noted(sh, changes, installed);
            lemma_builtin_ended(m.frames, handlers_noted(sh, changes, installed), ran, base);
        },
        TaskV::Hosted => if let EventV::HostedEnded(ran) = e {
            lemma_builtin_ended(m.frames, sh, ran, base);
        },
        _ => {},
    }
}

/// An executor starts with nothing under way.
pub proof fn law_counts_agree_at_the_start(list: ListV, sh: ShellV)
    ensures
        ({
            let base = Base {
                loop_depth: sh.loop_depth as nat,
                function_depth: sh.function_depth as nat,
                locals: sh.locals.len(),
            };
            &&& counts_agree(list_machine(list).frames, sh, base)
            &&& counts_agree(program_machine(list).frames, sh, base)
        }),
{
    let frames = program_machine(list).frames;
    assert(frames.drop_last() =~= Seq::empty());
    reveal_with_fuel(loops, 2);
    reveal_with_fuel(calls, 2);
    reveal_with_fuel(calls_remember, 2);
}

// ---- requests ---------------------------------------------------------------------------------

/// A step that needs the output of a command or the entries of the directory
/// has changed nothing: with the answer, it is taken again from the same state.
pub proof fn law_requests_change_nothing(m: MachineV, sh: ShellV, e: EventV)
    ensures
        step(m, sh, e).next matches NextV::Perform(action) && (action is CommandOutput
            || action is DirectoryEntries) ==> step(m, sh, e).machine == m && step(
            m,
            sh,
            e,
        ).shell == sh,
{
}

/// A report that does not belong to what was to be done changes nothing.
pub proof fn law_mismatched_reports_change_nothing(m: MachineV, sh: ShellV, e: EventV)
    ensures
        step(m, sh, e).next is Mismatch ==> step(m, sh, e).machine == m && step(m, sh, e).shell
            == sh,
{
}

/// The trap of the end of the shell is forgotten as it starts: it runs once.
pub proof fn law_exit_trap_runs_once(frames: Seq<FrameV>, sh: ShellV, code: i32)
    ensures
        exit_begun(frames, sh, code).shell.traps.exit is None,
        sh.traps.exit is None ==> exit_begun(frames, sh, code).next == NextV::Exit(code),
{
}

/// After the foreground job was stopped or interrupted nothing more is run: every
/// frame is left with the status of the job, except that a function call with a
/// `return` under way has the status of that. A program is where this ends.
pub proof fn law_interrupts_abandon_everything(
    outer: Seq<FrameV>,
    frame: FrameV,
    sh: ShellV,
    status: i32,
    output: Option<Seq<u8>>,
)
    requires
        sh.foreground_interrupt is Some,
        !(frame is ExitWith || frame is Builtin),
    ensures
        ({
            let after = returned(outer.push(frame), sh, status, output);
            &&& after.machine.frames == outer
            &&& after.machine.task is Return
            &&& sh.pending is None ==> after.machine.task == (TaskV::Return {
                status,
                output: None,
            })
            &&& frame is Program ==> after.shell.foreground_interrupt is None
            &&& !(frame is Program) ==> after.shell.foreground_interrupt
                == sh.foreground_interrupt
        }),
{
    lemma_push(outer, frame);
    lemma_frame_popped(
        ShellV { function_depth: shallower(sh.function_depth), pending: None, ..sh },
    );
}

/// A process that a signal ended has a status of 128 more than the number of the
/// signal; of all processes only an interrupted one ends what is under way.
pub proof fn law_signals_add_to_the_status(how: Exit, sh: ShellV)
    requires
        how matches Exit::Signal(n) ==> 0 <= n <= i32::MAX - 128,
    ensures
        ended_status(how) == (match how {
            Exit::Code(code) => code as int,
            Exit::Signal(n) => 128 + n,
        }),
        how != Exit::Signal(2) ==> ended_shell(how, sh) == sh,
        how == Exit::Signal(2) ==> ended_shell(how, sh).foreground_interrupt is Some,
{
}

/// At the end of a program no control flow is under way, and no interrupt.
pub proof fn law_programs_end_settled(
    outer: Seq<FrameV>,
    sh: ShellV,
    status: i32,
    output: Option<Seq<u8>>,
)
    ensures
        returned(outer.push(FrameV::Program), sh, status, output).shell.pending is None,
        returned(
            outer.push(FrameV::Program),
            sh,
            status,
            output,
        ).shell.foreground_interrupt is None,
        returned(outer.push(FrameV::Program), sh, status, output).machine.task == (TaskV::Return {
            status,
            output: None,
        }),
{
    lemma_push(outer, FrameV::Program);
}

} // verus!
