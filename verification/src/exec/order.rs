//! In which order the parts of a command are run, and which of them.
//!
//! A command is followed from its start: each law is about what the executor does after
//! the parts that it ran have ended, each with a status and a shell of its own.

use vstd::prelude::*;
use vstd::utf8::encode_utf8;

use super::rules::{
    builtin_went, step, ActionV, EventV, FrameV, InputV, MachineV, NextV, OutputV, SpawnedV, StepV,
    TaskV, WorkV,
};
use super::state::Exit;
use crate::ast::{
    AndOrV, ArmV, BranchV, CommandV, CompoundV, FunctionV, KindV, ListV, LogicalOp, SimpleCommandV,
};
use crate::builtins::laws::law_exits_carry_their_number;
use crate::builtins::{begun, RanV};
use crate::expand::rules::{word_text, AnswersV, OutV, StopV, UsedV};
use crate::numbers::decimal;
use crate::parser::grammar::{source, ParseErrorV};
use crate::prepare::{pattern_matches, prepared, words_fields};
use crate::shell::{Builtin, ControlFlow, ShellV};
use crate::token::WordV;

verus! {

/// Nothing is under way that would end a command early.
pub open spec fn calm(sh: ShellV) -> bool {
    sh.pending is None && sh.foreground_interrupt is None
}

/// The first step of some work.
pub open spec fn first_step(frames: Seq<FrameV>, work: WorkV, sh: ShellV, a: AnswersV) -> StepV {
    step(MachineV { frames, task: TaskV::Run(work), answers: a }, sh, EventV::Go)
}

/// The step after the innermost work ended with this status, and with this output for
/// the next command of its pipeline.
pub open spec fn next_step(
    frames: Seq<FrameV>,
    sh: ShellV,
    status: i32,
    output: Option<Seq<u8>>,
) -> StepV {
    step(
        MachineV {
            frames,
            task: TaskV::Return { status, output },
            answers: AnswersV { outputs: Seq::empty(), listings: Seq::empty() },
        },
        sh,
        EventV::Go,
    )
}

/// The executor goes on with this work.
pub open spec fn goes_to(s: StepV, work: WorkV) -> bool {
    s.next is Continue && s.machine.task == TaskV::Run(work)
}

/// The command has ended with this status.
pub open spec fn ends(s: StepV, frames: Seq<FrameV>, status: i32) -> bool {
    s.next is Continue && s.machine.frames == frames && s.machine.task == (TaskV::Return {
        status,
        output: None,
    })
}

/// A part that has ended: its status, and the shell that it left.
pub type EndV = (i32, ShellV);

/// All parts ended calmly.
pub open spec fn all_calm(parts: Seq<EndV>) -> bool {
    forall|k: int| 0 <= k < parts.len() ==> calm((#[trigger] parts[k]).1)
}

/// A compound command without redirections.
pub open spec fn compound(kind: KindV) -> WorkV {
    WorkV::Compound(CompoundV { kind, redirects: Seq::empty() })
}

proof fn lemma_top(frames: Seq<FrameV>, f: FrameV)
    ensures
        frames.push(f).drop_last() == frames,
        frames.push(f).last() == f,
{
    assert(frames.push(f).drop_last() =~= frames);
}

// ---- lists ------------------------------------------------------------------------------------

/// A list after its first items have ended.
pub open spec fn list_after(frames: Seq<FrameV>, list: ListV, sh: ShellV, parts: Seq<EndV>) -> StepV
    decreases parts.len(),
{
    if parts.len() == 0 {
        first_step(
            frames,
            WorkV::List(list),
            sh,
            AnswersV { outputs: Seq::empty(), listings: Seq::empty() },
        )
    } else {
        next_step(
            list_after(frames, list, sh, parts.drop_last()).machine.frames,
            parts.last().1,
            parts.last().0,
            None,
        )
    }
}

/// The items of a list are run one after the other, whatever their statuses. Each finds
/// the status of the one before it in `$?`, and the list ends with that of the last one.
pub proof fn law_lists_run_every_item(
    frames: Seq<FrameV>,
    list: ListV,
    sh: ShellV,
    parts: Seq<EndV>,
)
    requires
        all_calm(parts),
        parts.len() <= list.len(),
        list.len() > 0,
    ensures
        ({
            let s = list_after(frames, list, sh, parts);
            let k = parts.len() as int;
            &&& k < list.len() ==> goes_to(s, WorkV::AndOr(list[k].and_or))
            &&& k == list.len() ==> ends(s, frames, parts.last().0)
            &&& k == 0 ==> s.shell == sh
            &&& k > 0 ==> s.shell == (ShellV { last_status: parts.last().0, ..parts.last().1 })
        }),
{
    lemma_list_after(frames, list, sh, parts);
}

proof fn lemma_list_after(frames: Seq<FrameV>, list: ListV, sh: ShellV, parts: Seq<EndV>)
    requires
        all_calm(parts),
        parts.len() <= list.len(),
        list.len() > 0,
    ensures
        ({
            let s = list_after(frames, list, sh, parts);
            let k = parts.len();
            &&& k < list.len() ==> goes_to(s, WorkV::AndOr(list[k as int].and_or))
                && s.machine.frames == frames.push(FrameV::List { list, next: k + 1 })
            &&& k == list.len() ==> ends(s, frames, parts.last().0)
            &&& k == 0 ==> s.shell == sh
            &&& k > 0 ==> s.shell == (ShellV { last_status: parts.last().0, ..parts.last().1 })
        }),
    decreases parts.len(),
{
    if parts.len() > 0 {
        let front = parts.drop_last();
        let last = parts[parts.len() - 1];
        assert forall|k: int| 0 <= k < front.len() implies calm((#[trigger] front[k]).1) by {
            assert(front[k] == parts[k]);
        }
        lemma_list_after(frames, list, sh, front);
        lemma_top(frames, FrameV::List { list, next: parts.len() });
        assert(calm(last.1));
    }
}

/// An empty list leaves `$?` as it is, and ends with it.
pub proof fn law_empty_lists_keep_the_status(frames: Seq<FrameV>, sh: ShellV, a: AnswersV)
    ensures
        ends(first_step(frames, WorkV::List(Seq::empty()), sh, a), frames, sh.last_status),
        first_step(frames, WorkV::List(Seq::empty()), sh, a).shell == sh,
{
}

/// A pipeline that is joined to another with `&&` is run where that one, or the last one
/// that was run, succeeded, and one that is joined with `||` where it failed. All others
/// are skipped. The status is that of the last one that was run.
pub proof fn law_and_or_lists_choose(
    frames: Seq<FrameV>,
    list: AndOrV,
    next: nat,
    sh: ShellV,
    status: i32,
    output: Option<Seq<u8>>,
)
    requires
        calm(sh),
        next <= list.rest.len(),
    ensures
        ({
            let s = next_step(frames.push(FrameV::AndOr { list, next }), sh, status, output);
            let fits = |j: int| if status == 0 {
                list.rest[j].0 == LogicalOp::And
            } else {
                list.rest[j].0 == LogicalOp::Or
            };
            &&& s.shell == sh
            &&& (forall|j: int| next <= j < list.rest.len() ==> !#[trigger] fits(j)) ==> ends(
                s,
                frames,
                status,
            )
            &&& forall|k: int|
                next <= k < list.rest.len() && #[trigger] fits(k) && (forall|j: int|
                    next <= j < k ==> !#[trigger] fits(j)) ==> goes_to(
                    s,
                    WorkV::Pipeline(list.rest[k].1),
                ) && s.machine.frames == frames.push(FrameV::AndOr { list, next: (k + 1) as nat })
        }),
{
    lemma_top(frames, FrameV::AndOr { list, next });
    super::laws::law_and_or_skips(list.rest, next as int, status);
    let fits = |j: int| if status == 0 {
        list.rest[j].0 == LogicalOp::And
    } else {
        list.rest[j].0 == LogicalOp::Or
    };
    let k = super::rules::next_pipeline(list.rest, next as int, status);
    assert forall|j: int| next <= j < k implies !#[trigger] fits(j) by {
        assert((list.rest[j].0 is And) != (status == 0));
    }
    if k < list.rest.len() {
        assert(fits(k));
    }
    assert forall|n: int|
        next <= n < list.rest.len() && #[trigger] fits(n) && (forall|j: int|
            next <= j < n ==> !#[trigger] fits(j)) implies n == k by {
        if n > k {
            assert(!fits(k));
        }
    }
}

/// An and-or list begins with its first pipeline.
pub proof fn law_and_or_lists_begin_at_the_front(
    frames: Seq<FrameV>,
    list: AndOrV,
    sh: ShellV,
    a: AnswersV,
)
    ensures
        ({
            let s = first_step(frames, WorkV::AndOr(list), sh, a);
            &&& goes_to(s, WorkV::Pipeline(list.first))
            &&& s.machine.frames == frames.push(FrameV::AndOr { list, next: 0 })
            &&& s.shell == sh
        }),
{
}

/// A pipeline after its first commands have ended, each with what it wrote.
pub open spec fn pipeline_after(
    frames: Seq<FrameV>,
    commands: Seq<CommandV>,
    sh: ShellV,
    parts: Seq<(EndV, Option<Seq<u8>>)>,
) -> StepV
    decreases parts.len(),
{
    if parts.len() == 0 {
        first_step(
            frames,
            WorkV::Pipeline(commands),
            sh,
            AnswersV { outputs: Seq::empty(), listings: Seq::empty() },
        )
    } else {
        let (end, output) = parts.last();
        next_step(
            pipeline_after(frames, commands, sh, parts.drop_last()).machine.frames,
            end.1,
            end.0,
            output,
        )
    }
}

proof fn lemma_pipeline_after(
    frames: Seq<FrameV>,
    commands: Seq<CommandV>,
    sh: ShellV,
    parts: Seq<(EndV, Option<Seq<u8>>)>,
)
    requires
        forall|k: int| 0 <= k < parts.len() ==> calm((#[trigger] parts[k]).0.1),
        parts.len() <= commands.len(),
        commands.len() > 0,
    ensures
        ({
            let s = pipeline_after(frames, commands, sh, parts);
            let k = parts.len();
            &&& k < commands.len() ==> goes_to(
                s,
                WorkV::Command {
                    command: commands[k as int],
                    input: if k == 0 {
                        None
                    } else {
                        parts.last().1
                    },
                    capture: k + 1 < commands.len(),
                },
            ) && s.machine.frames == frames.push(FrameV::Pipe { commands, next: k + 1 })
            &&& k == commands.len() ==> ends(s, frames, parts.last().0.0)
            &&& s.shell == (if k == 0 {
                sh
            } else {
                parts.last().0.1
            })
        }),
    decreases parts.len(),
{
    if parts.len() > 0 {
        let front = parts.drop_last();
        let last = parts[parts.len() - 1];
        assert forall|k: int| 0 <= k < front.len() implies calm((#[trigger] front[k]).0.1) by {
            assert(front[k] == parts[k]);
        }
        lemma_pipeline_after(frames, commands, sh, front);
        lemma_top(frames, FrameV::Pipe { commands, next: parts.len() });
        assert(calm(last.0.1));
    }
}

/// The commands of a pipeline are run from left to right. Each one but the first reads
/// what the one before it wrote, what each one but the last writes is kept for the next
/// one, and the status is that of the last one.
pub proof fn law_pipelines_hand_their_output_on(
    frames: Seq<FrameV>,
    commands: Seq<CommandV>,
    sh: ShellV,
    parts: Seq<(EndV, Option<Seq<u8>>)>,
)
    requires
        forall|k: int| 0 <= k < parts.len() ==> calm((#[trigger] parts[k]).0.1),
        parts.len() <= commands.len(),
        commands.len() > 0,
    ensures
        ({
            let s = pipeline_after(frames, commands, sh, parts);
            let k = parts.len() as int;
            &&& k < commands.len() ==> goes_to(
                s,
                WorkV::Command {
                    command: commands[k],
                    input: if k == 0 {
                        None
                    } else {
                        parts[k - 1].1
                    },
                    capture: k < commands.len() - 1,
                },
            )
            &&& k == commands.len() ==> ends(s, frames, parts[k - 1].0.0)
        }),
{
    lemma_pipeline_after(frames, commands, sh, parts);
}

// ---- if -----------------------------------------------------------------------------------------

/// An `if` after its first conditions have ended.
pub open spec fn if_after(
    frames: Seq<FrameV>,
    branches: Seq<BranchV>,
    else_branch: Option<ListV>,
    sh: ShellV,
    parts: Seq<EndV>,
) -> StepV
    decreases parts.len(),
{
    if parts.len() == 0 {
        first_step(
            frames,
            compound(KindV::If { branches, else_branch }),
            sh,
            AnswersV { outputs: Seq::empty(), listings: Seq::empty() },
        )
    } else {
        next_step(
            if_after(frames, branches, else_branch, sh, parts.drop_last()).machine.frames,
            parts.last().1,
            parts.last().0,
            None,
        )
    }
}

proof fn lemma_if_after(
    frames: Seq<FrameV>,
    branches: Seq<BranchV>,
    else_branch: Option<ListV>,
    sh: ShellV,
    parts: Seq<EndV>,
)
    requires
        all_calm(parts),
        forall|k: int| 0 <= k < parts.len() ==> (#[trigger] parts[k]).0 != 0,
        parts.len() <= branches.len(),
        branches.len() > 0,
    ensures
        ({
            let s = if_after(frames, branches, else_branch, sh, parts);
            let k = parts.len();
            &&& k < branches.len() ==> goes_to(s, WorkV::List(branches[k as int].condition))
                && s.machine.frames == frames.push(
                FrameV::If { branches, else_branch, branch: k },
            )
            &&& k == branches.len() ==> match else_branch {
                Some(list) => goes_to(s, WorkV::List(list)) && s.machine.frames == frames,
                None => ends(s, frames, 0),
            }
            &&& s.shell == (if k == 0 {
                sh
            } else {
                parts.last().1
            })
        }),
    decreases parts.len(),
{
    if parts.len() > 0 {
        let front = parts.drop_last();
        let last = parts[parts.len() - 1];
        assert forall|k: int| 0 <= k < front.len() implies calm((#[trigger] front[k]).1) && front[
            k
        ].0 != 0 by {
            assert(front[k] == parts[k]);
        }
        lemma_if_after(frames, branches, else_branch, sh, front);
        lemma_top(frames, FrameV::If { branches, else_branch, branch: front.len() });
        assert(calm(last.1) && last.0 != 0);
    }
}

/// An `if` runs its conditions in order. As long as they fail, the next one is run; only
/// after all of them have failed is the `else` branch run, or the status 0 where there is
/// none. The body of the first condition that succeeds is run, and nothing after it.
pub proof fn law_the_first_condition_that_succeeds_decides(
    frames: Seq<FrameV>,
    branches: Seq<BranchV>,
    else_branch: Option<ListV>,
    sh: ShellV,
    parts: Seq<EndV>,
    after: ShellV,
)
    requires
        all_calm(parts),
        calm(after),
        forall|k: int| 0 <= k < parts.len() ==> (#[trigger] parts[k]).0 != 0,
        parts.len() <= branches.len(),
        branches.len() > 0,
    ensures
        ({
            let s = if_after(frames, branches, else_branch, sh, parts);
            let chosen = if_after(frames, branches, else_branch, sh, parts.push((0i32, after)));
            let k = parts.len() as int;
            &&& k < branches.len() ==> {
                &&& goes_to(s, WorkV::List(branches[k].condition))
                &&& goes_to(chosen, WorkV::List(branches[k].body))
                &&& chosen.machine.frames == frames
                &&& chosen.shell == after
            }
            &&& k == branches.len() ==> match else_branch {
                Some(list) => goes_to(s, WorkV::List(list)) && s.machine.frames == frames,
                None => ends(s, frames, 0),
            }
        }),
{
    lemma_if_after(frames, branches, else_branch, sh, parts);
    let all = parts.push((0i32, after));
    assert(all.drop_last() =~= parts);
    lemma_top(frames, FrameV::If { branches, else_branch, branch: parts.len() });
}

// ---- loops --------------------------------------------------------------------------------------

/// One turn of a loop: how its condition and its body ended.
pub ghost struct TurnV {
    pub condition: EndV,
    pub body: EndV,
}

/// A `while` or `until`.
pub open spec fn looping(until: bool, condition: ListV, body: ListV) -> WorkV {
    if until {
        compound(KindV::Until { condition, body })
    } else {
        compound(KindV::While { condition, body })
    }
}

/// A loop after some turns.
pub open spec fn loop_after(
    frames: Seq<FrameV>,
    until: bool,
    condition: ListV,
    body: ListV,
    sh: ShellV,
    turns: Seq<TurnV>,
) -> StepV
    decreases turns.len(),
{
    if turns.len() == 0 {
        first_step(
            frames,
            looping(until, condition, body),
            sh,
            AnswersV { outputs: Seq::empty(), listings: Seq::empty() },
        )
    } else {
        let t = turns.last();
        let s = loop_after(frames, until, condition, body, sh, turns.drop_last());
        let tested = next_step(s.machine.frames, t.condition.1, t.condition.0, None);
        next_step(tested.machine.frames, t.body.1, t.body.0, None)
    }
}

/// The turn is one that the loop takes.
pub open spec fn taken(until: bool, t: TurnV) -> bool {
    &&& calm(t.condition.1)
    &&& calm(t.body.1)
    &&& if until {
        t.condition.0 != 0
    } else {
        t.condition.0 == 0
    }
}

proof fn lemma_loop_after(
    frames: Seq<FrameV>,
    until: bool,
    condition: ListV,
    body: ListV,
    sh: ShellV,
    turns: Seq<TurnV>,
)
    requires
        forall|k: int| 0 <= k < turns.len() ==> taken(until, #[trigger] turns[k]),
    ensures
        ({
            let s = loop_after(frames, until, condition, body, sh, turns);
            &&& goes_to(s, WorkV::List(condition))
            &&& s.machine.frames == frames.push(
                FrameV::Loop {
                    condition,
                    body,
                    until,
                    testing: true,
                    status: if turns.len() == 0 {
                        0
                    } else {
                        turns.last().body.0
                    },
                },
            )
        }),
    decreases turns.len(),
{
    if turns.len() > 0 {
        let front = turns.drop_last();
        let last = turns[turns.len() - 1];
        assert forall|k: int| 0 <= k < front.len() implies taken(until, #[trigger] front[k]) by {
            assert(front[k] == turns[k]);
        }
        lemma_loop_after(frames, until, condition, body, sh, front);
        assert(taken(until, last));
        let before = if front.len() == 0 {
            0
        } else {
            front.last().body.0
        };
        lemma_top(
            frames,
            FrameV::Loop { condition, body, until, testing: true, status: before },
        );
        lemma_top(
            frames,
            FrameV::Loop { condition, body, until, testing: false, status: before },
        );
    }
}

/// A `while` runs its body as long as its condition succeeds, an `until` as long as it
/// fails; the condition is run before each turn, and again after it. The status is that
/// of the last turn, or 0 where there was none.
pub proof fn law_loops_test_before_each_turn(
    frames: Seq<FrameV>,
    until: bool,
    condition: ListV,
    body: ListV,
    sh: ShellV,
    turns: Seq<TurnV>,
    test: EndV,
)
    requires
        forall|k: int| 0 <= k < turns.len() ==> taken(until, #[trigger] turns[k]),
        calm(test.1),
    ensures
        ({
            let s = loop_after(frames, until, condition, body, sh, turns);
            let t = next_step(s.machine.frames, test.1, test.0, None);
            &&& goes_to(s, WorkV::List(condition))
            &&& (test.0 == 0) != until ==> goes_to(t, WorkV::List(body)) && t.shell == test.1
            &&& (test.0 == 0) == until ==> ends(
                t,
                frames,
                if turns.len() == 0 {
                    0
                } else {
                    turns.last().body.0
                },
            )
        }),
{
    lemma_loop_after(frames, until, condition, body, sh, turns);
    let status = if turns.len() == 0 {
        0
    } else {
        turns.last().body.0
    };
    lemma_top(frames, FrameV::Loop { condition, body, until, testing: true, status });
}

/// A `for` over these values after some turns.
pub open spec fn for_after(
    frames: Seq<FrameV>,
    name: Seq<char>,
    words: Option<Seq<WordV>>,
    body: ListV,
    sh: ShellV,
    a: AnswersV,
    turns: Seq<EndV>,
) -> StepV
    decreases turns.len(),
{
    if turns.len() == 0 {
        first_step(frames, compound(KindV::For { name, words, body }), sh, a)
    } else {
        next_step(
            for_after(frames, name, words, body, sh, a, turns.drop_last()).machine.frames,
            turns.last().1,
            turns.last().0,
            None,
        )
    }
}

/// The values of a `for`, and the shell after its words were expanded: the positional
/// parameters where it has no words.
pub open spec fn values(words: Option<Seq<WordV>>, sh: ShellV, a: AnswersV) -> OutV<
    Seq<Seq<char>>,
> {
    match words {
        None => OutV {
            shell: sh,
            used: UsedV { outputs: 0, listings: 0 },
            result: Ok(sh.positional),
        },
        Some(words) => words_fields(
            words,
            0,
            sh,
            UsedV { outputs: 0, listings: 0 },
            a,
            Seq::empty(),
        ),
    }
}

proof fn lemma_for_after(
    frames: Seq<FrameV>,
    name: Seq<char>,
    words: Option<Seq<WordV>>,
    body: ListV,
    sh: ShellV,
    a: AnswersV,
    turns: Seq<EndV>,
)
    requires
        all_calm(turns),
        values(words, sh, a).result is Ok,
        turns.len() <= values(words, sh, a).result->Ok_0.len(),
    ensures
        ({
            let s = for_after(frames, name, words, body, sh, a, turns);
            let all = values(words, sh, a).result->Ok_0;
            let left = if turns.len() == 0 {
                values(words, sh, a).shell
            } else {
                turns.last().1
            };
            let k = turns.len();
            &&& k < all.len() ==> {
                &&& goes_to(s, WorkV::List(body))
                &&& s.machine.frames.len() > 0
                &&& s.machine.frames.drop_last() == frames
                &&& s.machine.frames.last() matches FrameV::For {
                    name: n,
                    values: v,
                    next,
                    body: b,
                    status: _,
                } && n == name && v == all && next == k + 1 && b == body
                &&& s.shell.vars == left.vars.insert(name, all[k as int])
                &&& s.shell.env == left.env
            }
            &&& k == all.len() ==> ends(
                s,
                frames,
                if k == 0 {
                    0
                } else {
                    turns.last().0
                },
            )
        }),
    decreases turns.len(),
{
    let all = values(words, sh, a).result->Ok_0;
    if turns.len() > 0 {
        let front = turns.drop_last();
        let last = turns[turns.len() - 1];
        assert forall|k: int| 0 <= k < front.len() implies calm((#[trigger] front[k]).1) by {
            assert(front[k] == turns[k]);
        }
        lemma_for_after(frames, name, words, body, sh, a, front);
        assert(calm(last.1));
        let f = FrameV::For {
            name,
            values: all,
            next: turns.len() + 1,
            body,
            status: last.0,
        };
        lemma_top(frames, f);
    } else {
        let f = FrameV::For { name, values: all, next: 1, body, status: 0 };
        lemma_top(frames, f);
    }
}

/// A `for` runs its body once for each of its values, in order, with the variable set to
/// the value. The status is that of the last turn, or 0 where there was none.
pub proof fn law_for_takes_its_values_in_turn(
    frames: Seq<FrameV>,
    name: Seq<char>,
    words: Option<Seq<WordV>>,
    body: ListV,
    sh: ShellV,
    a: AnswersV,
    turns: Seq<EndV>,
)
    requires
        all_calm(turns),
        values(words, sh, a).result is Ok,
        turns.len() <= values(words, sh, a).result->Ok_0.len(),
    ensures
        ({
            let s = for_after(frames, name, words, body, sh, a, turns);
            let all = values(words, sh, a).result->Ok_0;
            let k = turns.len() as int;
            &&& k < all.len() ==> {
                &&& goes_to(s, WorkV::List(body))
                &&& s.shell.vars.contains_key(name)
                &&& s.shell.vars[name] == all[k]
            }
            &&& k == all.len() ==> ends(
                s,
                frames,
                if k == 0 {
                    0
                } else {
                    turns.last().0
                },
            )
        }),
{
    lemma_for_after(frames, name, words, body, sh, a, turns);
}

// ---- case ---------------------------------------------------------------------------------------

/// What is left after the first `k` arms of a `case` were tried.
pub open spec fn tried(
    arms: Seq<ArmV>,
    k: int,
    text: Seq<char>,
    o: OutV<Seq<char>>,
    a: AnswersV,
) -> OutV<bool>
    decreases k,
{
    if k <= 0 {
        OutV { shell: o.shell, used: o.used, result: Ok(false) }
    } else {
        let before = tried(arms, k - 1, text, o, a);
        pattern_matches(arms[k - 1].patterns, 0, text, before.shell, before.used, a)
    }
}

proof fn lemma_tried(arms: Seq<ArmV>, k: int, text: Seq<char>, o: OutV<Seq<char>>, a: AnswersV)
    requires
        0 <= k <= arms.len(),
        forall|j: int| 0 <= j <= k ==> (#[trigger] tried(arms, j, text, o, a)).result == Ok::<
            bool,
            StopV,
        >(false),
    ensures
        super::rules::matching_arm(arms, 0, text, o, a) == super::rules::matching_arm(
            arms,
            k,
            text,
            OutV {
                shell: tried(arms, k, text, o, a).shell,
                used: tried(arms, k, text, o, a).used,
                result: Ok(text),
            },
            a,
        ),
    decreases k,
{
    if k > 0 {
        lemma_tried(arms, k - 1, text, o, a);
        assert(tried(arms, k, text, o, a).result == Ok::<bool, StopV>(false));
    } else {
        lemma_arm_input(arms, text, o, a);
    }
}

/// Which arm matches depends on the shell and the answers, not on what came before.
proof fn lemma_arm_input(arms: Seq<ArmV>, text: Seq<char>, o: OutV<Seq<char>>, a: AnswersV)
    ensures
        super::rules::matching_arm(arms, 0, text, o, a) == super::rules::matching_arm(
            arms,
            0,
            text,
            OutV { shell: o.shell, used: o.used, result: Ok(text) },
            a,
        ),
{
}

/// A `case` runs the body of the first arm one of whose patterns matches its word, and
/// no other; where none matches, its status is 0.
pub proof fn law_the_first_arm_that_matches_is_run(
    frames: Seq<FrameV>,
    word: WordV,
    arms: Seq<ArmV>,
    sh: ShellV,
    a: AnswersV,
    k: int,
)
    requires
        0 <= k <= arms.len(),
        word_text(word, sh, UsedV { outputs: 0, listings: 0 }, a).result is Ok,
        ({
            let o = word_text(word, sh, UsedV { outputs: 0, listings: 0 }, a);
            forall|j: int|
                0 <= j <= k ==> (#[trigger] tried(arms, j, o.result->Ok_0, o, a)).result == Ok::<
                    bool,
                    StopV,
                >(false)
        }),
    ensures
        ({
            let o = word_text(word, sh, UsedV { outputs: 0, listings: 0 }, a);
            let s = first_step(frames, compound(KindV::Case { word, arms }), sh, a);
            &&& k == arms.len() ==> ends(s, frames, 0)
            &&& k < arms.len() && tried(arms, k + 1, o.result->Ok_0, o, a).result == Ok::<
                bool,
                StopV,
            >(true) ==> goes_to(s, WorkV::List(arms[k].body)) && s.machine.frames == frames
        }),
{
    let o = word_text(word, sh, UsedV { outputs: 0, listings: 0 }, a);
    lemma_tried(arms, k, o.result->Ok_0, o, a);
}

// ---- what else a command is ---------------------------------------------------------------------

/// Braces only group: their list is run in the same shell, and its status is theirs.
pub proof fn law_braces_only_group(frames: Seq<FrameV>, list: ListV, sh: ShellV, a: AnswersV)
    ensures
        ({
            let s = first_step(frames, compound(KindV::BraceGroup(list)), sh, a);
            goes_to(s, WorkV::List(list)) && s.machine.frames == frames && s.shell == sh
        }),
{
}

/// A subshell is run elsewhere, from its source text. Whatever it does, this shell stays
/// as it is, except that an interrupt of it ends what is under way.
pub proof fn law_subshells_change_nothing(
    frames: Seq<FrameV>,
    body: ListV,
    source: Seq<char>,
    sh: ShellV,
    a: AnswersV,
    code: i32,
)
    ensures
        ({
            let s = first_step(frames, compound(KindV::Subshell { body, source }), sh, a);
            let t = step(s.machine, s.shell, EventV::SubshellEnded(Ok(Exit::Code(code))));
            &&& s.shell == sh
            &&& s.next matches NextV::Perform(ActionV::Subshell { source: text, env: _ }) && text
                == source
            &&& ends(t, frames, code)
            &&& t.shell == sh
        }),
{
}

/// A function definition runs nothing: it makes the function known, in place of an older
/// one of its name, and succeeds.
pub proof fn law_definitions_make_functions_known(
    frames: Seq<FrameV>,
    f: FunctionV,
    input: Option<Seq<u8>>,
    capture: bool,
    sh: ShellV,
    a: AnswersV,
)
    ensures
        ({
            let s = first_step(
                frames,
                WorkV::Command { command: CommandV::Function(f), input, capture },
                sh,
                a,
            );
            &&& ends(s, frames, 0)
            &&& s.shell.functions.contains_key(f.name)
            &&& s.shell.functions[f.name] == f
            &&& s.shell == (ShellV { functions: s.shell.functions, ..sh })
            &&& s.shell.functions.remove(f.name) == sh.functions.remove(f.name)
        }),
{
    let s = first_step(
        frames,
        WorkV::Command { command: CommandV::Function(f), input, capture },
        sh,
        a,
    );
    assert(s.shell.functions.remove(f.name) =~= sh.functions.remove(f.name));
}

/// A function is run with the arguments of its call as positional parameters and with
/// the variables that were assigned in front of the call; when it ends, the positional
/// parameters are those of the caller again.
pub proof fn law_calls_have_parameters_of_their_own(
    frames: Seq<FrameV>,
    cmd: SimpleCommandV,
    input: Option<Seq<u8>>,
    capture: bool,
    sh: ShellV,
    a: AnswersV,
    end: EndV,
)
    requires
        prepared(cmd, sh, a).result is Ok,
        ({
            let o = prepared(cmd, sh, a);
            let p = o.result->Ok_0;
            &&& p.fields is Some && p.fields->0.len() > 0
            &&& o.shell.functions.contains_key(p.fields->0[0])
            &&& p.redirects.len() == 0
        }),
    ensures
        ({
            let o = prepared(cmd, sh, a);
            let fields = o.result->Ok_0.fields->0;
            let s = first_step(
                frames,
                WorkV::Command { command: CommandV::Simple(cmd), input, capture },
                sh,
                a,
            );
            let t = next_step(s.machine.frames, end.1, end.0, None);
            &&& goes_to(s, WorkV::Compound(o.shell.functions[fields[0]].body))
            &&& s.shell.positional == fields.skip(1)
            &&& s.shell.loop_depth == 0
            &&& t.shell.positional == o.shell.positional
            &&& t.shell.loop_depth == o.shell.loop_depth
            &&& t.shell.pending is None
            &&& ends(
                t,
                frames,
                match end.1.pending {
                    Some(ControlFlow::Return(code)) => code,
                    _ => end.0,
                },
            )
        }),
{
    let o = prepared(cmd, sh, a);
    let p = o.result->Ok_0;
    let f = FrameV::Call {
        positional: o.shell.positional,
        loop_depth: o.shell.loop_depth,
        saved: super::rules::replaced(o.shell.env, p.assignments),
    };
    lemma_top(frames, f);
    super::laws::law_calls_keep_control_flow(
        frames,
        o.shell.positional,
        o.shell.loop_depth,
        super::rules::replaced(o.shell.env, p.assignments),
        end.1,
        end.0,
    );
}

/// A `break`, `continue` or `return` under way passes everything but loops, calls and
/// programs without more of it being run.
pub proof fn law_control_flow_passes_everything_else(
    frames: Seq<FrameV>,
    frame: FrameV,
    sh: ShellV,
    status: i32,
    output: Option<Seq<u8>>,
)
    requires
        frame is List || frame is AndOr || frame is If,
        sh.pending is Some,
        sh.loop_depth > 0 || sh.pending matches Some(ControlFlow::Return(_)),
    ensures
        ({
            let s = next_step(frames.push(frame), sh, status, output);
            &&& ends(s, frames, status)
            &&& s.shell.pending == sh.pending
            &&& s.shell.loop_depth == sh.loop_depth
        }),
{
    lemma_top(frames, frame);
}

/// What a loop does with a `break` or `continue`: `break` ends it, and one that names
/// more loops ends those around it too; `continue` goes on with its next turn.
pub proof fn law_loops_stop_at_break_and_go_on_at_continue(
    frames: Seq<FrameV>,
    condition: ListV,
    body: ListV,
    until: bool,
    before: i32,
    sh: ShellV,
    status: i32,
    n: u32,
)
    requires
        sh.foreground_interrupt is None,
        0 < n <= sh.loop_depth,
    ensures
        ({
            let frame = FrameV::Loop { condition, body, until, testing: false, status: before };
            let b = next_step(
                frames.push(frame),
                ShellV { pending: Some(ControlFlow::Break(n)), ..sh },
                status,
                None,
            );
            let c = next_step(
                frames.push(frame),
                ShellV { pending: Some(ControlFlow::Continue(n)), ..sh },
                status,
                None,
            );
            &&& ends(b, frames, status)
            &&& b.shell.pending == (if n == 1 {
                None
            } else {
                Some(ControlFlow::Break((n - 1) as u32))
            })
            &&& b.shell.loop_depth == sh.loop_depth - 1
            &&& n == 1 ==> goes_to(c, WorkV::List(condition)) && c.shell.pending is None
                && c.shell.loop_depth == sh.loop_depth
            &&& n > 1 ==> ends(c, frames, status) && c.shell.pending == Some(
                ControlFlow::Continue((n - 1) as u32),
            ) && c.shell.loop_depth == sh.loop_depth - 1
        }),
{
    lemma_top(frames, FrameV::Loop { condition, body, until, testing: false, status: before });
}

// ---- assignments and programs -------------------------------------------------------------------

/// The value of the last of these assignments to `name`.
pub open spec fn last_value(pairs: Seq<(Seq<char>, Seq<char>)>, name: Seq<char>) -> Option<
    Seq<char>,
>
    decreases pairs.len(),
{
    if pairs.len() == 0 {
        None
    } else if pairs.last().0 == name {
        Some(pairs.last().1)
    } else {
        last_value(pairs.drop_last(), name)
    }
}

proof fn lemma_last_value(sh: ShellV, pairs: Seq<(Seq<char>, Seq<char>)>, name: Seq<char>)
    ensures
        match last_value(pairs, name) {
            Some(v) => {
                &&& super::rules::all_assigned(sh, pairs).vars.contains_key(name)
                &&& super::rules::all_assigned(sh, pairs).vars[name] == v
                &&& super::rules::env_with(sh.env, pairs).contains_key(name)
                &&& super::rules::env_with(sh.env, pairs)[name] == v
            },
            None => {
                &&& super::rules::all_assigned(sh, pairs).vars.contains_key(name)
                    == sh.vars.contains_key(name)
                &&& super::rules::all_assigned(sh, pairs).vars[name] == sh.vars[name]
                &&& super::rules::env_with(sh.env, pairs).contains_key(name)
                    == sh.env.contains_key(name)
                &&& super::rules::env_with(sh.env, pairs)[name] == sh.env[name]
            },
        },
        super::rules::all_assigned(sh, pairs) == (ShellV {
            vars: super::rules::all_assigned(sh, pairs).vars,
            ..sh
        }),
    decreases pairs.len(),
{
    if pairs.len() > 0 {
        lemma_last_value(sh, pairs.drop_last(), name);
    }
}

/// Assignments without a command last: each variable has the last value that was assigned
/// to it, and no other variable changes. The status is 0.
pub proof fn law_assignments_alone_last(
    frames: Seq<FrameV>,
    cmd: SimpleCommandV,
    input: Option<Seq<u8>>,
    capture: bool,
    sh: ShellV,
    a: AnswersV,
    name: Seq<char>,
)
    requires
        prepared(cmd, sh, a).result is Ok,
        cmd.name is None,
    ensures
        ({
            let o = prepared(cmd, sh, a);
            let s = first_step(
                frames,
                WorkV::Command { command: CommandV::Simple(cmd), input, capture },
                sh,
                a,
            );
            &&& ends(s, frames, 0)
            &&& s.shell == (ShellV { vars: s.shell.vars, ..o.shell })
            &&& match last_value(o.result->Ok_0.assignments, name) {
                Some(v) => s.shell.vars.contains_key(name) && s.shell.vars[name] == v,
                None => s.shell.vars.contains_key(name) == o.shell.vars.contains_key(name)
                    && s.shell.vars[name] == o.shell.vars[name],
            }
        }),
{
    let o = prepared(cmd, sh, a);
    lemma_last_value(o.shell, o.result->Ok_0.assignments, name);
}

/// A command that is no function and no builtin is a program. It is started with the name
/// and the arguments that its words expand to and with the exported variables, of which
/// those that are assigned in front of it have the last value assigned. It reads from the
/// file that its input is redirected to, else what the command before it wrote, and writes
/// to the file that its output is redirected to, else for the next command. The shell does
/// not change.
pub proof fn law_programs_get_what_is_theirs(
    frames: Seq<FrameV>,
    cmd: SimpleCommandV,
    input: Option<Seq<u8>>,
    capture: bool,
    sh: ShellV,
    a: AnswersV,
    var: Seq<char>,
)
    requires
        prepared(cmd, sh, a).result is Ok,
        ({
            let o = prepared(cmd, sh, a);
            let p = o.result->Ok_0;
            &&& p.fields is Some && p.fields->0.len() > 0
            &&& !o.shell.functions.contains_key(p.fields->0[0])
            &&& !o.shell.builtins.contains_key(p.fields->0[0])
        }),
    ensures
        ({
            let o = prepared(cmd, sh, a);
            let p = o.result->Ok_0;
            let s = first_step(
                frames,
                WorkV::Command { command: CommandV::Simple(cmd), input, capture },
                sh,
                a,
            );
            &&& s.shell == o.shell
            &&& s.machine.frames == frames
            &&& s.next matches NextV::Perform(
                ActionV::Spawn { name, args, env, input: from, output: to },
            ) && {
                &&& name == p.fields->0[0]
                &&& args == p.fields->0.skip(1)
                &&& match last_value(p.assignments, var) {
                    Some(v) => env.contains_key(var) && env[var] == v,
                    None => env.contains_key(var) == o.shell.env.contains_key(var) && env[var]
                        == o.shell.env[var],
                }
                &&& match crate::prepare::last_input(p.redirects) {
                    Some(file) => from == InputV::File(file),
                    None => match input {
                        Some(data) => from == InputV::Data(data),
                        None => from == InputV::Inherit,
                    },
                }
                &&& match crate::prepare::last_output(p.redirects) {
                    Some((file, append)) => to == (OutputV::File { target: file, append }),
                    None => to == (if capture {
                        OutputV::Capture
                    } else {
                        OutputV::Inherit
                    }),
                }
            }
        }),
{
    let o = prepared(cmd, sh, a);
    lemma_last_value(o.shell, o.result->Ok_0.assignments, var);
}

/// How a program went is its status: its exit code, 127 where it could not be started, and
/// 1 where its files could not be opened or it could not be waited for. What it wrote goes
/// to the next command, unless it went to a file.
pub proof fn law_programs_end_with_their_status(
    frames: Seq<FrameV>,
    name: Seq<char>,
    input: Option<Seq<char>>,
    output: Option<(Seq<char>, bool)>,
    capture: bool,
    sh: ShellV,
    a: AnswersV,
    why: Seq<char>,
    code: i32,
    data: Seq<u8>,
)
    ensures
        ({
            let m = MachineV {
                frames,
                task: TaskV::Spawn { name, input, output, capture },
                answers: a,
            };
            let after = |how: SpawnedV| step(m, sh, EventV::Spawned(how));
            let ended = after(SpawnedV::Ended { how: Exit::Code(code), output: data });
            &&& ends(after(SpawnedV::NotStarted(why)), frames, 127)
            &&& ends(after(SpawnedV::NotWaited(why)), frames, 1)
            &&& ends(after(SpawnedV::NoInput(why)), frames, 1)
            &&& ends(after(SpawnedV::NoOutput(why)), frames, 1)
            &&& ended.machine.task == (TaskV::Return {
                status: code,
                output: if capture && output is None {
                    Some(data)
                } else {
                    None
                },
            })
            &&& ended.machine.frames == frames
            &&& ended.shell == sh
        }),
{
}

/// The output of a builtin goes to the file that it is redirected to, else to the next
/// command, else to standard output; what it has to say of errors goes to standard error.
pub proof fn law_builtins_write_where_they_are_told(
    frames: Seq<FrameV>,
    saved: super::rules::SavedV,
    output: Option<(Seq<char>, bool)>,
    capture: bool,
    sh: ShellV,
    ran: RanV,
)
    ensures
        ({
            let m = MachineV {
                frames: frames.push(FrameV::Builtin { saved, output, capture }),
                task: TaskV::Hosted,
                answers: AnswersV { outputs: Seq::empty(), listings: Seq::empty() },
            };
            let s = step(m, sh, EventV::HostedEnded(ran));
            let data = encode_utf8(ran.stdout);
            &&& s.stderr == ran.stderr
            &&& s.machine.frames == frames
            &&& match output {
                Some((target, append)) => s.stdout.len() == 0 && s.next == NextV::Perform(
                    ActionV::WriteFile { target, append, data },
                ),
                None => s.next is Continue && s.machine.task == (TaskV::Return {
                    status: ran.status,
                    output: if capture {
                        Some(data)
                    } else {
                        None
                    },
                }) && s.stdout == (if capture {
                    Seq::empty()
                } else {
                    data
                }),
            }
        }),
{
    lemma_top(frames, FrameV::Builtin { saved, output, capture });
    assert(ran.stderr + Seq::<char>::empty() =~= ran.stderr);
}

// ---- ends ---------------------------------------------------------------------------------------

/// `exit` runs the commands of its trap, if there are any, and then ends the shell with
/// its own number, whatever their status is. They are not run again.
pub proof fn law_exits_run_their_trap_first(
    frames: Seq<FrameV>,
    sh: ShellV,
    code: i32,
    text: Seq<char>,
    list: ListV,
    status: i32,
    after: ShellV,
)
    requires
        after.foreground_interrupt is None,
    ensures
        ({
            let s = builtin_went(frames, begun(Builtin::Exit, sh, seq![decimal(code as int)]));
            &&& s.shell.traps.exit is None
            &&& s.shell == (ShellV { traps: s.shell.traps, ..sh })
            &&& s.shell.traps.actions == sh.traps.actions
            &&& sh.traps.exit is None ==> s.next == NextV::Exit(code)
            &&& sh.traps.exit == Some(text) && source(text) == Ok::<ListV, ParseErrorV>(list) ==> {
                &&& goes_to(s, WorkV::List(list))
                &&& next_step(s.machine.frames, after, status, None).next == NextV::Exit(code)
            }
            &&& sh.traps.exit == Some(text) && source(text) is Err ==> s.next == NextV::Exit(code)
        }),
{
    law_exits_carry_their_number(sh, code);
    lemma_top(frames, FrameV::ExitWith(code));
}

/// A command that cannot be expanded is not run: it ends with the status 1. Where a
/// parameter is missing that a script needs, the script ends with that status.
pub proof fn law_failed_expansions_run_nothing(
    frames: Seq<FrameV>,
    cmd: SimpleCommandV,
    sh: ShellV,
    a: AnswersV,
    input: Option<Seq<u8>>,
    capture: bool,
)
    requires
        prepared(cmd, sh, a).result is Err,
        prepared(cmd, sh, a).result->Err_0 is Failed,
    ensures
        ({
            let s = first_step(
                frames,
                WorkV::Command { command: CommandV::Simple(cmd), input, capture },
                sh,
                a,
            );
            let e = prepared(cmd, sh, a).result->Err_0->Failed_0;
            &&& s.stderr.len() > 0
            &&& s.stdout.len() == 0
            &&& s.shell == prepared(cmd, sh, a).shell
            &&& e is ParameterNullOrUnset && !sh.is_interactive ==> s.next == NextV::Exit(1)
            &&& !(e is ParameterNullOrUnset) || sh.is_interactive ==> ends(s, frames, 1)
        }),
{
    reveal_strlit("conch: ");
}

} // verus!
