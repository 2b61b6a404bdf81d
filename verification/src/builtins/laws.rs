//! What the builtins do, told by what they leave behind.

use vstd::prelude::*;

use crate::builtins::{
    all_declared, all_exported, begun, cd_done, declared_name, declared_value, equals_from,
    handlers_noted, job_lines, news_lines, padded, trap_resolved, traps_set, wait_from,
    wait_resumed, BuiltinOutV, BuiltinStepV, DirectoryChange, NamedV, TrapChangeV, WaitingV,
};
use crate::jobs::laws::{law_jobs_are_found, law_what_is_seen_is_known};
use crate::jobs::{awaited, is_ordered, job_led_by, state_label, Awaited, ChildStatus, JobV};
use crate::numbers::{all_digits, decimal, integer_of, law_decimal_reads_back};
use crate::shell::{
    captured, frame_popped, law_locals_end_with_their_call, lookup, Builtin, ControlFlow, ShellV,
};
use crate::text::{is_name, joined};
use crate::traps::laws::of_the_terminal;
use crate::traps::{trap_of, TrapActionV};

verus! {

/// The builtin has run with `status`, has written nothing to its standard
/// output, and has left `sh` as the shell.
pub open spec fn left(o: BuiltinOutV, sh: ShellV, status: int) -> bool {
    &&& o.shell == sh
    &&& o.step is Done
    &&& o.step->Done_0.status == status
    &&& o.step->Done_0.stdout.len() == 0
}

/// The builtin has run and written `text` to its standard output, and nothing
/// else has happened.
pub open spec fn wrote(o: BuiltinOutV, sh: ShellV, text: Seq<char>) -> bool {
    &&& o.shell == sh
    &&& o.step is Done
    &&& o.step->Done_0.status == 0
    &&& o.step->Done_0.stdout == text
    &&& o.step->Done_0.stderr.len() == 0
}

/// `echo` writes its arguments in their order, one blank between each two of
/// them, and ends the line.
pub proof fn law_echo_writes_its_arguments(sh: ShellV, args: Seq<Seq<char>>, arg: Seq<char>)
    ensures
        wrote(begun(Builtin::Echo, sh, Seq::empty()), sh, seq!['\n']),
        wrote(begun(Builtin::Echo, sh, seq![arg]), sh, arg + seq!['\n']),
        begun(Builtin::Echo, sh, args).step is Done,
        args.len() > 0 ==> wrote(
            begun(Builtin::Echo, sh, args.push(arg)),
            sh,
            begun(Builtin::Echo, sh, args).step->Done_0.stdout.drop_last() + seq![' '] + arg + seq![
                '\n',
            ],
        ),
{
    reveal_strlit(" ");
    reveal_strlit("\n");
    assert(" "@ =~= seq![' ']);
    assert("\n"@ =~= seq!['\n']);
    assert(Seq::<char>::empty() + seq!['\n'] =~= seq!['\n']);
    assert(args.push(arg).drop_last() =~= args);
    let t = joined(args, " "@);
    assert((t + "\n"@).drop_last() =~= t);
}

/// `cd` goes to the directory that it is given, or home. Where it went is
/// what `pwd` writes. A `cd` that fails changes nothing.
pub proof fn law_pwd_shows_where_cd_went(
    sh: ShellV,
    args: Seq<Seq<char>>,
    target: Seq<char>,
    change: DirectoryChange,
)
    ensures
        args.len() > 0 ==> begun(Builtin::Cd, sh, args) == (BuiltinOutV {
            shell: sh,
            step: BuiltinStepV::ChangeDirectory(args[0]),
        }),
        lookup(sh, "HOME"@) is Some ==> begun(Builtin::Cd, sh, Seq::empty()) == (BuiltinOutV {
            shell: sh,
            step: BuiltinStepV::ChangeDirectory(lookup(sh, "HOME"@)->Some_0),
        }),
        lookup(sh, "HOME"@) is None ==> left(begun(Builtin::Cd, sh, Seq::empty()), sh, 1),
        match change {
            DirectoryChange::Changed(dir) => {
                let after = cd_done(sh, target, change).shell;
                &&& left(cd_done(sh, target, change), ShellV { cwd: dir@, ..sh }, 0)
                &&& cd_done(sh, target, change).step->Done_0.stderr.len() == 0
                &&& wrote(begun(Builtin::Pwd, after, args), after, dir@ + seq!['\n'])
            },
            _ => left(cd_done(sh, target, change), sh, 1) && cd_done(
                sh,
                target,
                change,
            ).step->Done_0.stderr.len() > 0,
        },
{
    reveal_strlit("\n");
    assert("\n"@ =~= seq!['\n']);
}

proof fn lemma_equals_from(name: Seq<char>, rest: Seq<char>, i: int)
    requires
        !name.contains('='),
        0 <= i <= name.len(),
    ensures
        equals_from(name + seq!['='] + rest, i) == Some(name.len() as int),
        equals_from(name, i) is None,
    decreases name.len() - i,
{
    let s = name + seq!['='] + rest;
    if i < name.len() {
        assert(s[i] == name[i]);
        assert(name.contains(name[i]));
        lemma_equals_from(name, rest, i + 1);
    } else {
        assert(s[i] == '=');
    }
}

proof fn lemma_declaration(name: Seq<char>, value: Seq<char>)
    requires
        !name.contains('='),
    ensures
        declared_name(name + seq!['='] + value) == name,
        declared_value(name + seq!['='] + value) == Some(value),
        declared_name(name) == name,
        declared_value(name) is None,
{
    let s = name + seq!['='] + value;
    lemma_equals_from(name, value, 0);
    assert(s.subrange(0, name.len() as int) =~= name);
    assert(s.subrange(name.len() as int + 1, s.len() as int) =~= value);
}

/// `export name=value` puts the variable into the environment with that value,
/// whatever signs the value holds. `export name` puts it there with the value
/// that it has, or empty. No other variable is touched, and of several
/// arguments each has the effect that it has alone.
pub proof fn law_exports_reach_the_environment(
    sh: ShellV,
    name: Seq<char>,
    value: Seq<char>,
    other: Seq<char>,
    args: Seq<Seq<char>>,
)
    requires
        !name.contains('='),
    ensures
        ({
            let set = begun(Builtin::Export, sh, seq![name + seq!['='] + value]);
            let kept = begun(Builtin::Export, sh, seq![name]);
            let first = begun(Builtin::Export, sh, args);
            &&& left(set, set.shell, 0)
            &&& set.shell.env.contains_pair(name, value)
            &&& lookup(set.shell, name) == Some(value)
            &&& other != name ==> captured(set.shell, other) == captured(sh, other)
            &&& left(kept, kept.shell, 0)
            &&& kept.shell.env.contains_key(name)
            &&& lookup(sh, name) is Some && !(sh.env.contains_key(name) && sh.vars.contains_key(
                name,
            )) ==> lookup(kept.shell, name) == lookup(sh, name)
            &&& lookup(sh, name) is None ==> lookup(kept.shell, name) == Some(Seq::<char>::empty())
            &&& other != name ==> captured(kept.shell, other) == captured(sh, other)
            &&& left(first, first.shell, 0)
            &&& begun(Builtin::Export, sh, args.push(name)).shell == begun(
                Builtin::Export,
                first.shell,
                seq![name],
            ).shell
        }),
{
    let first = begun(Builtin::Export, sh, args).shell;
    lemma_declaration(name, value);
    reveal_with_fuel(all_exported, 3);
    assert(seq![name + seq!['='] + value].drop_last() =~= Seq::<Seq<char>>::empty());
    assert(seq![name].drop_last() =~= Seq::<Seq<char>>::empty());
    assert(args.push(name).drop_last() =~= args);
    assert(all_exported(first, seq![name].drop_last()) == first);
}

proof fn lemma_names_hold_no_equals_sign(name: Seq<char>)
    requires
        is_name(name),
    ensures
        !name.contains('='),
{
    if name.contains('=') {
        let k = choose|k: int| 0 <= k < name.len() && name[k] == '=';
        assert(name[k] == '=');
    }
}

/// Inside a call `local name=value` gives the variable a value of its own, and
/// `local name` unsets it there. When the call ends, the variable is what it
/// was. What is no name is refused, and so is `local` outside a call.
pub proof fn law_locals_hide_what_was_there(
    sh: ShellV,
    name: Seq<char>,
    value: Seq<char>,
    other: Seq<char>,
    args: Seq<Seq<char>>,
)
    ensures
        sh.locals.len() == 0 ==> left(begun(Builtin::Local, sh, args), sh, 1),
        sh.locals.len() > 0 && is_name(name) ==> {
            let set = begun(Builtin::Local, sh, seq![name + seq!['='] + value]);
            let bare = begun(Builtin::Local, sh, seq![name]);
            &&& left(set, set.shell, 0)
            &&& lookup(set.shell, name) == Some(value)
            &&& set.shell.env.contains_key(name) == sh.env.contains_key(name)
            &&& other != name ==> captured(set.shell, other) == captured(sh, other)
            &&& left(bare, bare.shell, 0)
            &&& lookup(bare.shell, name) is None
            &&& other != name ==> captured(bare.shell, other) == captured(sh, other)
            &&& sh.locals.last().len() == 0 ==> {
                &&& captured(frame_popped(set.shell), name) == captured(sh, name)
                &&& captured(frame_popped(bare.shell), name) == captured(sh, name)
                &&& captured(frame_popped(set.shell), other) == captured(sh, other)
            }
        },
        sh.locals.len() > 0 && !is_name(name) && !name.contains('=') ==> {
            &&& left(begun(Builtin::Local, sh, seq![name + seq!['='] + value]), sh, 1)
            &&& left(begun(Builtin::Local, sh, seq![name]), sh, 1)
        },
{
    let none = Seq::<Seq<char>>::empty();
    let text = name + seq!['='] + value;
    reveal_with_fuel(all_declared, 2);
    assert(seq![text].drop_last() =~= none);
    assert(seq![name].drop_last() =~= none);
    if sh.locals.len() > 0 {
        if is_name(name) {
            lemma_names_hold_no_equals_sign(name);
            lemma_declaration(name, value);
            let set = begun(Builtin::Local, sh, seq![text]).shell;
            let bare = begun(Builtin::Local, sh, seq![name]).shell;
            if sh.locals.last().len() == 0 {
                law_locals_end_with_their_call(set, name);
                law_locals_end_with_their_call(bare, name);
                law_locals_end_with_their_call(set, other);
                reveal_with_fuel(crate::shell::first_declared, 3);
            }
        } else if !name.contains('=') {
            lemma_declaration(name, value);
        }
    }
}

/// `break n` and `continue n` ask for `n` loops, and for one without a number.
/// A number that is not positive is refused. Outside a loop they ask for
/// nothing.
pub proof fn law_loops_are_left_by_their_count(sh: ShellV, n: int)
    requires
        n <= u32::MAX,
    ensures
        ({
            let none = Seq::<Seq<char>>::empty();
            let some = seq![decimal(n)];
            let broken = ControlFlow::Break(n as u32);
            let continued = ControlFlow::Continue(n as u32);
            &&& n <= 0 ==> {
                &&& left(begun(Builtin::Break, sh, some), sh, 1)
                &&& left(begun(Builtin::Continue, sh, some), sh, 1)
            }
            &&& n > 0 && sh.loop_depth == 0 ==> {
                &&& left(begun(Builtin::Break, sh, some), sh, 0)
                &&& left(begun(Builtin::Continue, sh, some), sh, 0)
            }
            &&& n > 0 && sh.loop_depth > 0 ==> {
                &&& left(
                    begun(Builtin::Break, sh, some),
                    ShellV { pending: Some(broken), ..sh },
                    0,
                )
                &&& left(
                    begun(Builtin::Continue, sh, some),
                    ShellV { pending: Some(continued), ..sh },
                    0,
                )
            }
            &&& n == 1 ==> {
                &&& begun(Builtin::Break, sh, none) == begun(Builtin::Break, sh, some)
                &&& begun(Builtin::Continue, sh, none) == begun(Builtin::Continue, sh, some)
            }
        }),
{
    law_decimal_reads_back(n);
    let s = decimal(n);
    if n < 0 {
        assert(s[0] == '-');
        assert(!all_digits(s)) by {
            assert(!crate::text::is_digit(s[0]));
        }
        assert(integer_of(s, false) is None);
    }
}

/// The status that `return` asks for agrees with its number by multiples of 256
/// and is not negative. Without a number it is that of the last status. Outside
/// a call nothing is asked for.
pub proof fn law_returns_count_round(sh: ShellV, code: i32, args: Seq<Seq<char>>)
    ensures
        sh.locals.len() == 0 ==> left(begun(Builtin::Return, sh, args), sh, 2),
        sh.locals.len() > 0 ==> {
            let given = begun(Builtin::Return, sh, seq![decimal(code as int)]);
            let bare = begun(Builtin::Return, ShellV { last_status: code, ..sh }, Seq::empty());
            &&& given.shell.pending is Some
            &&& given.shell.pending->Some_0 is Return
            &&& {
                let status = given.shell.pending->Some_0->Return_0;
                &&& 0 <= status < 256
                &&& (code - status) % 256 == 0
            }
            &&& left(given, ShellV { pending: given.shell.pending, ..sh }, 0)
            &&& bare.shell.pending == given.shell.pending
            &&& left(
                bare,
                ShellV { pending: given.shell.pending, last_status: code, ..sh },
                0,
            )
        },
{
    law_decimal_reads_back(code as int);
}

/// `exit` asks to end with its number, and with the last status without one.
pub proof fn law_exits_carry_their_number(sh: ShellV, code: i32)
    ensures
        begun(Builtin::Exit, sh, seq![decimal(code as int)]) == (BuiltinOutV {
            shell: sh,
            step: BuiltinStepV::Exit(code),
        }),
        begun(Builtin::Exit, sh, Seq::empty()) == (BuiltinOutV {
            shell: sh,
            step: BuiltinStepV::Exit(sh.last_status),
        }),
{
    law_decimal_reads_back(code as int);
}

/// After `set -- args` the positional parameters are `args`. After `shift n`
/// the parameter at `k` is the one that was at `k + n`, and the first `n` are
/// gone. One is shifted without a number, and what is not there is not shifted.
pub proof fn law_parameters_are_set_and_shifted(
    sh: ShellV,
    args: Seq<Seq<char>>,
    n: int,
    k: int,
)
    requires
        i64::MIN <= n <= i64::MAX,
    ensures
        left(
            begun(Builtin::SetParams, sh, seq!["--"@] + args),
            ShellV { positional: args, ..sh },
            0,
        ),
        0 <= n <= sh.positional.len() ==> {
            let o = begun(Builtin::Shift, sh, seq![decimal(n)]);
            &&& left(o, ShellV { positional: o.shell.positional, ..sh }, 0)
            &&& o.shell.positional.len() == sh.positional.len() - n
            &&& 0 <= k < o.shell.positional.len() ==> o.shell.positional[k] == sh.positional[k + n]
        },
        n < 0 || n > sh.positional.len() ==> left(
            begun(Builtin::Shift, sh, seq![decimal(n)]),
            sh,
            1,
        ),
        n == 1 ==> begun(Builtin::Shift, sh, Seq::empty()) == begun(
            Builtin::Shift,
            sh,
            seq![decimal(n)],
        ),
{
    law_decimal_reads_back(n);
    assert((seq!["--"@] + args).skip(1) =~= args);
    assert((seq!["--"@] + args)[0] == "--"@);
}

/// A text in a column of a width: filled up with blanks, never cut.
pub open spec fn cell(t: Seq<char>, width: nat) -> Seq<char> {
    t + Seq::new(
        (if t.len() < width {
            width - t.len()
        } else {
            0
        }) as nat,
        |i: int| ' ',
    )
}

proof fn lemma_padded(t: Seq<char>, width: nat)
    ensures
        padded(t, width) == cell(t, width),
    decreases width - t.len(),
{
    if t.len() < width {
        lemma_padded(t.push(' '), width);
        assert(cell(t.push(' '), width) =~= cell(t, width));
    } else {
        assert(cell(t, width) =~= t);
    }
}

/// `jobs` writes a line for each job, in the order of the table: its number in
/// brackets, its state in a column, and its command. With `-p` the line is the
/// number of its process. One more job is one more line.
pub proof fn law_jobs_are_listed_one_a_line(sh: ShellV, j: JobV, args: Seq<Seq<char>>)
    ensures
        ({
            let more = ShellV {
                jobs: crate::jobs::JobTableV { jobs: sh.jobs.jobs.push(j), ..sh.jobs },
                ..sh
            };
            let fewer = begun(Builtin::Jobs, sh, args);
            let o = begun(Builtin::Jobs, more, args);
            &&& o.step is Done
            &&& o.step->Done_0.status == 0
            &&& o.step->Done_0.stderr.len() == 0
            &&& sh.jobs.jobs.len() == 0 ==> fewer.step->Done_0.stdout.len() == 0
            &&& args.contains("-p"@) ==> o.step->Done_0.stdout == fewer.step->Done_0.stdout
                + decimal(j.leader as int) + seq!['\n']
            &&& !args.contains("-p"@) ==> o.step->Done_0.stdout == fewer.step->Done_0.stdout
                + seq!['['] + decimal(j.id as int) + seq![']', ' ', ' '] + cell(
                state_label(j.state),
                11,
            ) + seq![' '] + j.command + seq!['\n']
        }),
{
    reveal_strlit("\n");
    reveal_strlit("[");
    reveal_strlit("]  ");
    reveal_strlit(" ");
    let s = sh.jobs.jobs;
    let before = job_lines(s, args.contains("-p"@));
    assert(s.push(j).drop_last() =~= s);
    assert(s.push(j).last() == j);
    let label = state_label(j.state);
    lemma_padded(label, 11);
    if args.contains("-p"@) {
        assert(before + (decimal(j.leader as int) + "\n"@) =~= before + decimal(j.leader as int)
            + seq!['\n']);
    } else {
        let id = decimal(j.id as int);
        let l = "["@ + id + "]  "@ + padded(label, 11) + " "@ + j.command + "\n"@;
        assert(before + l =~= before + seq!['['] + id + seq![']', ' ', ' '] + cell(label, 11)
            + seq![' '] + j.command + seq!['\n']);
    }
}

/// Before a prompt a line is written for each job whose state has changed and
/// that does not run, in the order of the table, and for no other.
pub proof fn law_news_are_told_of_each_job(s: Seq<JobV>, j: JobV)
    ensures
        news_lines(Seq::empty()).len() == 0,
        news_lines(s.push(j)) == if j.notified || j.state is Running {
            news_lines(s)
        } else {
            news_lines(s) + seq!['['] + decimal(j.id as int) + seq![']', '+', ' ', ' '] + cell(
                state_label(j.state),
                24,
            ) + j.command + seq!['\n']
        },
{
    reveal_strlit("\n");
    reveal_strlit("[");
    reveal_strlit("]+  ");
    assert(s.push(j).drop_last() =~= s);
    assert(s.push(j).last() == j);
    let label = state_label(j.state);
    lemma_padded(label, 24);
    let id = decimal(j.id as int);
    let before = news_lines(s);
    let l = "["@ + id + "]+  "@ + padded(label, 24) + j.command + "\n"@;
    assert(before + l =~= before + seq!['['] + id + seq![']', '+', ' ', ' '] + cell(label, 24)
        + j.command + seq!['\n']);
}

/// `wait` for processes that have ended has the status of the last of them.
pub proof fn law_waits_have_the_last_status(sh: ShellV, pids: Seq<i32>, codes: Seq<i32>)
    requires
        pids.len() > 0,
        pids.len() == codes.len(),
        forall|i: int|
            0 <= i < pids.len() ==> awaited(sh.jobs.jobs, #[trigger] pids[i], false)
                == Awaited::Ended(codes[i]),
    ensures
        ({
            let args = Seq::new(pids.len(), |i: int| decimal(pids[i] as int));
            let o = begun(Builtin::Wait, sh, args);
            left(o, ShellV { jobs: o.shell.jobs, ..sh }, codes.last() as int)
        }),
{
    let args = Seq::new(pids.len(), |i: int| decimal(pids[i] as int));
    lemma_waits(
        sh,
        pids,
        codes,
        WaitingV { args, next: 0, status: 0, stderr: Seq::empty() },
    );
}

proof fn lemma_waits(sh: ShellV, pids: Seq<i32>, codes: Seq<i32>, w: WaitingV)
    requires
        pids.len() > 0,
        pids.len() == codes.len(),
        forall|i: int|
            0 <= i < pids.len() ==> awaited(sh.jobs.jobs, #[trigger] pids[i], false)
                == Awaited::Ended(codes[i]),
        w.args == Seq::new(pids.len(), |i: int| decimal(pids[i] as int)),
        w.next <= pids.len(),
        w.next == pids.len() ==> w.status == codes.last(),
    ensures
        ({
            let o = wait_from(sh, w, false);
            left(o, ShellV { jobs: o.shell.jobs, ..sh }, codes.last() as int)
        }),
    decreases pids.len() - w.next,
{
    if w.next < pids.len() {
        let i = w.next as int;
        law_decimal_reads_back(pids[i] as int);
        assert(w.args[i] == decimal(pids[i] as int));
        lemma_waits(sh, pids, codes, WaitingV { next: w.next + 1, status: codes[i], ..w });
    }
}

/// `wait` for a job that runs waits, and has the status that the process then
/// ends with. For a process that is not the shell's it has the status 127 and
/// says so. Without arguments it waits as long as a job runs.
pub proof fn law_waiting_ends_with_the_process(sh: ShellV, k: int, code: i32, stranger: i32)
    requires
        is_ordered(sh.jobs),
        0 <= k < sh.jobs.jobs.len(),
        sh.jobs.jobs[k].state is Running,
    ensures
        ({
            let pid = sh.jobs.jobs[k].leader;
            let o = begun(Builtin::Wait, sh, seq![decimal(pid as int)]);
            let ended = wait_resumed(
                sh,
                o.step->WaitForChild_0,
                Some((pid, ChildStatus::Exited(code))),
            );
            &&& o.step is WaitForChild
            &&& o.shell == sh
            &&& left(ended, ShellV { jobs: ended.shell.jobs, ..sh }, code as int)
        }),
        job_led_by(sh.jobs.jobs, stranger) is None ==> {
            let o = begun(Builtin::Wait, sh, seq![decimal(stranger as int)]);
            &&& left(o, ShellV { jobs: o.shell.jobs, ..sh }, 127)
            &&& o.step->Done_0.stderr.len() > 0
        },
        ({
            let o = begun(Builtin::Wait, sh, Seq::empty());
            let ended = wait_resumed(sh, o.step->WaitForChild_0, None);
            &&& o.step is WaitForChild
            &&& o.shell == sh
            &&& left(ended, ShellV { jobs: ended.shell.jobs, ..sh }, 0)
        }),
{
    let pid = sh.jobs.jobs[k].leader;
    reveal_strlit("\n");
    law_decimal_reads_back(pid as int);
    law_decimal_reads_back(stranger as int);
    law_jobs_are_found(sh.jobs, k, 0, stranger);
    law_what_is_seen_is_known(sh.jobs, k, code, 1);
    reveal_with_fuel(wait_from, 3);
}

/// The trap that is there after `trap text` for a signal: none for `-`, to do
/// nothing for an empty text, and else to run the text. For the end of the
/// shell there is no doing nothing.
pub open spec fn trap_for(text: Seq<char>, signal: Option<Seq<char>>) -> Option<TrapActionV> {
    if text == seq!['-'] {
        None
    } else if text.len() > 0 {
        Some(TrapActionV::Command(text))
    } else if signal is Some {
        Some(TrapActionV::Ignore)
    } else {
        None
    }
}

/// `trap text signals` sets the trap of each signal that it names and of no
/// other, and nothing else of the shell. It fails where a name is unknown, and
/// still sets the others.
pub proof fn law_traps_are_set_for_each_signal(
    sh: ShellV,
    text: Seq<char>,
    specs: Seq<Seq<char>>,
    named: Seq<NamedV>,
    i: int,
    other: Option<Seq<char>>,
)
    requires
        text != "-p"@,
        specs.len() > 0,
    ensures
        begun(Builtin::Trap, sh, seq![text] + specs) == (BuiltinOutV {
            shell: sh,
            step: BuiltinStepV::ResolveSignals { args: seq![text] + specs, specs },
        }),
        ({
            let o = trap_resolved(sh, seq![text] + specs, named);
            &&& o.step is SetDispositions
            &&& o.shell == (ShellV { traps: o.shell.traps, ..sh })
            &&& o.step->ran.status == 0 || o.step->ran.status == 1
            &&& o.step->ran.stdout.len() == 0
            &&& o.step->ran.status == 0 ==> o.step->ran.stderr.len() == 0
            &&& 0 <= i < named.len() && named[i] is Err ==> o.step->ran.status == 1
            &&& 0 <= i < named.len() && named[i] is Ok ==> trap_of(
                o.shell.traps,
                named[i]->Ok_0,
            ) == trap_for(text, named[i]->Ok_0)
            &&& !named.contains(Ok(other)) ==> trap_of(o.shell.traps, other) == trap_of(
                sh.traps,
                other,
            )
        }),
{
    reveal_strlit("-");
    assert("-"@ =~= seq!['-']);
    let args = seq![text] + specs;
    assert(args.skip(1) =~= specs);
    assert(args[0] == text);
    let action = crate::builtins::action_of(text);
    lemma_traps_set(sh, text, named, other);
    if 0 <= i < named.len() && named[i] is Ok {
        lemma_traps_set(sh, text, named, named[i]->Ok_0);
        assert(named.contains(named[i]));
    }
    if 0 <= i < named.len() && named[i] is Err {
        lemma_unknown_signals(sh, text, named, i);
    }
}

proof fn lemma_traps_set(
    sh: ShellV,
    text: Seq<char>,
    named: Seq<NamedV>,
    signal: Option<Seq<char>>,
)
    ensures
        ({
            let set = traps_set(sh, crate::builtins::action_of(text), named);
            &&& set.shell == (ShellV { traps: set.shell.traps, ..sh })
            &&& set.ran.status == 0 || set.ran.status == 1
            &&& set.ran.stdout.len() == 0
            &&& set.ran.status == 0 ==> set.ran.stderr.len() == 0
            &&& trap_of(set.shell.traps, signal) == if named.contains(Ok(signal)) {
                trap_for(text, signal)
            } else {
                trap_of(sh.traps, signal)
            }
        }),
    decreases named.len(),
{
    reveal_strlit("-");
    assert("-"@ =~= seq!['-']);
    if named.len() > 0 {
        let front = named.drop_last();
        lemma_traps_set(sh, text, front, signal);
        assert(named.contains(Ok(signal)) <==> front.contains(Ok(signal)) || named.last()
            == Ok::<Option<Seq<char>>, Seq<char>>(signal)) by {
            assert(named =~= front.push(named.last()));
            if named.contains(Ok(signal)) {
                let k = choose|k: int|
                    0 <= k < named.len() && named[k] == Ok::<Option<Seq<char>>, Seq<char>>(signal);
                if k < front.len() {
                    assert(front[k] == named[k]);
                }
            }
            if front.contains(Ok(signal)) {
                let k = choose|k: int|
                    0 <= k < front.len() && front[k] == Ok::<Option<Seq<char>>, Seq<char>>(signal);
                assert(named[k] == front[k]);
            }
        }
    }
}

proof fn lemma_unknown_signals(sh: ShellV, text: Seq<char>, named: Seq<NamedV>, i: int)
    requires
        0 <= i < named.len(),
        named[i] is Err,
    ensures
        traps_set(sh, crate::builtins::action_of(text), named).ran.status == 1,
    decreases named.len(),
{
    if i < named.len() - 1 {
        assert(named.drop_last()[i] == named[i]);
        lemma_unknown_signals(sh, text, named.drop_last(), i);
    } else {
        assert(named.last() == named[i]);
    }
}

/// A signal with a command is caught, one with an empty text is ignored, and
/// `-` gives a signal back to the system, except that the shell always hears of
/// its children and that a shell in charge of a terminal does not stop.
pub proof fn law_signals_are_handled_as_their_traps_say(
    sh: ShellV,
    text: Seq<char>,
    signal: Seq<char>,
)
    requires
        text != "-p"@,
    ensures
        ({
            let o = trap_resolved(sh, seq![text], seq![Ok(Some(signal))]);
            &&& o.step is SetDispositions
            &&& o.step->changes.len() == 1
            &&& o.step->changes[0].signal == signal
            &&& text.len() == 0 ==> o.step->changes[0].disposition is Ignore
            &&& text.len() > 0 && text != seq!['-'] ==> o.step->changes[0].disposition is Handle
            &&& text == seq!['-'] && signal == "SIGCHLD"@
                ==> o.step->changes[0].disposition is Handle
            &&& text == seq!['-'] && signal != "SIGCHLD"@ && !sh.job_control_active
                ==> o.step->changes[0].disposition is Default
            &&& text == seq!['-'] && sh.job_control_active && of_the_terminal(signal)
                ==> o.step->changes[0].disposition is Ignore
            &&& text == seq!['-'] && signal != "SIGCHLD"@ && !of_the_terminal(signal)
                ==> o.step->changes[0].disposition is Default
        }),
{
    reveal_strlit("-");
    assert("-"@ =~= seq!['-']);
    reveal_strlit("SIGCHLD");
    reveal_strlit("SIGINT");
    reveal_strlit("SIGTSTP");
    let named = seq![Ok::<Option<Seq<char>>, Seq<char>>(Some(signal))];
    assert(named.drop_last() =~= Seq::<NamedV>::empty());
    reveal_with_fuel(traps_set, 2);
    assert(named.last() == Ok::<Option<Seq<char>>, Seq<char>>(Some(signal)));
    assert(seq![text][0] == text);
    let action = crate::builtins::action_of(text);
    let set = traps_set(sh, action, named);
    assert(set.changes =~= seq![
        TrapChangeV {
            signal,
            disposition: crate::traps::disposition_for(signal, action, sh.job_control_active),
        },
    ]);
    assert(set.changes[0].signal == signal);
    assert("SIGCHLD"@[3] == 'C');
    assert("SIGINT"@[3] == 'I');
    assert("SIGTSTP"@[3] == 'T');
    reveal_strlit("SIGQUIT");
    reveal_strlit("SIGTTIN");
    reveal_strlit("SIGTTOU");
    assert("SIGQUIT"@[3] == 'Q');
    assert("SIGTTIN"@[3] == 'T');
    assert("SIGTTOU"@[3] == 'T');
    let terminal = seq!["SIGTTOU"@, "SIGTTIN"@, "SIGTSTP"@, "SIGQUIT"@, "SIGINT"@];
    assert(terminal[0] == "SIGTTOU"@ && terminal[1] == "SIGTTIN"@ && terminal[2] == "SIGTSTP"@
        && terminal[3] == "SIGQUIT"@ && terminal[4] == "SIGINT"@);
    assert(!terminal.contains("SIGCHLD"@));
    reveal(crate::traps::ignored_at_top_level);
}

/// A signal is noted as caught where its handler was put in place, and is not
/// where it was not.
pub proof fn law_handlers_are_noted(
    sh: ShellV,
    changes: Seq<TrapChangeV>,
    installed: Seq<bool>,
    signal: Seq<char>,
)
    requires
        changes.len() == installed.len(),
    ensures
        handlers_noted(sh, changes, installed).traps.handled.contains(signal)
            <==> sh.traps.handled.contains(signal) || exists|i: int|
            0 <= i < changes.len() && (#[trigger] changes[i]).signal == signal
                && changes[i].disposition is Handle && installed[i],
{
    lemma_handlers(sh, changes, installed, signal);
}

proof fn lemma_handlers(
    sh: ShellV,
    changes: Seq<TrapChangeV>,
    installed: Seq<bool>,
    signal: Seq<char>,
)
    requires
        changes.len() <= installed.len(),
    ensures
        handlers_noted(sh, changes, installed).traps.handled.contains(signal)
            <==> sh.traps.handled.contains(signal) || exists|i: int|
            0 <= i < changes.len() && (#[trigger] changes[i]).signal == signal
                && changes[i].disposition is Handle && installed[i],
    decreases changes.len(),
{
    if changes.len() > 0 {
        let front = changes.drop_last();
        let n = changes.len() - 1;
        lemma_handlers(sh, front, installed, signal);
        let before = handlers_noted(sh, front, installed).traps.handled;
        let after = handlers_noted(sh, changes, installed).traps.handled;
        let here = changes[n].disposition is Handle && installed[n];
        assert(after.contains(signal) <==> before.contains(signal) || (here && changes[n].signal
            == signal)) by {
            if here && after != before {
                assert(after == before.push(changes[n].signal));
                assert(after[before.len() as int] == changes[n].signal);
                if before.contains(signal) {
                    let k = choose|k: int| 0 <= k < before.len() && before[k] == signal;
                    assert(after[k] == signal);
                }
                if after.contains(signal) {
                    let k = choose|k: int| 0 <= k < after.len() && after[k] == signal;
                    if k < before.len() {
                        assert(before[k] == signal);
                    }
                }
            }
        }
        assert forall|i: int| 0 <= i < front.len() implies front[i] == #[trigger] changes[i] by {
        }
    }
}

} // verus!
