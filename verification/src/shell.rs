//! The state of a shell session: variables, parameters, functions, builtins,
//! jobs and traps.

use vstd::prelude::*;

use crate::ast::{FunctionDefinition, FunctionV};
use crate::glob::sorted;
use crate::jobs::{
    all_observed, awaited, job_of, purged, resumed, settled_ids, some_running, Awaited, ChildStatus,
    JobTable, JobTableV,
};
use crate::numbers::{decimal, i64_to_text, integer_of, parse_i32};
use crate::text::{join2, join3, joined, lemma_texts_empty, lemma_texts_push, texts};
use crate::text_map::TextMap;
use crate::traps::{
    described, disposition_for, ignored_among, may_all_name, may_be_unknown, may_name, name_parts,
    named_view, parse_ignored_trap_names, parse_signal_spec, signal_error, signal_spec, text_option,
    trap_lines, trap_of, trap_set, Disposition, SignalSpecV, TrapAction, TrapActionV, Traps, TrapsV,
};

verus! {

broadcast use {lemma_texts_push, lemma_texts_empty};

/// A `break`, `continue` or `return` on its way to the loop or function call
/// that it ends.
#[derive(Debug, Clone, Copy, PartialEq, Eq, Structural)]
pub enum ControlFlow {
    /// Stop this many loops.
    Break(u32),
    /// Go on with the next iteration of the loop this many levels up.
    Continue(u32),
    /// Leave the function call with this status.
    Return(i32),
}

/// Why the foreground job gave up the terminal before it had finished.
#[derive(Debug, Clone, Copy, PartialEq, Eq, Structural)]
pub enum ForegroundInterrupt {
    /// It was stopped and is now in the job table under this number.
    Stopped(u32),
    /// It was interrupted from the terminal.
    Interrupted,
}

/// The binding of a variable before a `local` declaration shadowed it.
#[derive(Debug, PartialEq, Eq)]
pub enum PreviousVar {
    /// It had none.
    Unset,
    /// A variable of the shell alone.
    ShellVar(String),
    /// An exported variable.
    EnvVar(String),
}

/// View of [`PreviousVar`].
pub ghost enum PreviousVarV {
    Unset,
    ShellVar(Seq<char>),
    EnvVar(Seq<char>),
}

impl View for PreviousVar {
    type V = PreviousVarV;

    open spec fn view(&self) -> PreviousVarV {
        match self {
            PreviousVar::Unset => PreviousVarV::Unset,
            PreviousVar::ShellVar(v) => PreviousVarV::ShellVar(v@),
            PreviousVar::EnvVar(v) => PreviousVarV::EnvVar(v@),
        }
    }
}

/// The commands that the shell runs itself.
#[derive(Debug, Clone, Copy, PartialEq, Eq, Structural)]
pub enum Builtin {
    Cd,
    Exit,
    Export,
    Echo,
    Pwd,
    Break,
    Continue,
    Local,
    Return,
    SetParams,
    Shift,
    Jobs,
    Fg,
    Bg,
    Wait,
    Trap,
    /// A command of the program that the shell is part of, by its number there.
    Hosted(u32),
}

impl View for Builtin {
    type V = Builtin;

    open spec fn view(&self) -> Builtin {
        *self
    }
}

/// The state of a shell session.
#[derive(Debug)]
pub struct Shell {
    /// The current working directory.
    pub cwd: String,
    /// The exported variables, which child processes see.
    pub env_vars: TextMap<String>,
    /// The other variables.
    pub shell_vars: TextMap<String>,
    /// The exit status of the last command (`$?`).
    pub last_status: i32,
    /// A fatal expansion error ends the command, not the shell.
    pub is_interactive: bool,
    /// The number of loops around the command that is running.
    pub loop_depth: u32,
    pub pending_control_flow: Option<ControlFlow>,
    /// `$0`
    pub arg0: String,
    /// `$$`: the process of the shell itself, in its subshells too.
    pub pid: i32,
    /// `$1` and so on.
    pub positional_params: Vec<String>,
    pub functions: TextMap<FunctionDefinition>,
    /// The number of function calls under way.
    pub function_depth: u32,
    pub(crate) local_stack: Vec<Vec<(String, PreviousVar)>>,
    pub(crate) builtins: TextMap<Builtin>,
    pub(crate) special_builtins: TextMap<Builtin>,
    pub job_table: JobTable,
    /// `$!`
    pub last_background_pid: Option<i32>,
    /// The shell owns a terminal and its process group.
    pub job_control_active: bool,
    pub shell_pgid: Option<i32>,
    pub foreground_interrupt: Option<ForegroundInterrupt>,
    pub traps: Traps,
}

/// A frame of bindings that the `local` declarations of a call have shadowed.
pub type FrameV = Seq<(Seq<char>, PreviousVarV)>;

/// View of [`Shell`].
pub ghost struct ShellV {
    pub cwd: Seq<char>,
    pub env: Map<Seq<char>, Seq<char>>,
    pub vars: Map<Seq<char>, Seq<char>>,
    pub last_status: i32,
    pub is_interactive: bool,
    pub loop_depth: u32,
    pub pending: Option<ControlFlow>,
    pub arg0: Seq<char>,
    pub pid: i32,
    pub positional: Seq<Seq<char>>,
    pub functions: Map<Seq<char>, FunctionV>,
    pub function_depth: u32,
    pub locals: Seq<FrameV>,
    pub builtins: Map<Seq<char>, Builtin>,
    pub special: Map<Seq<char>, Builtin>,
    pub jobs: JobTableV,
    pub last_background_pid: Option<i32>,
    pub job_control_active: bool,
    pub shell_pgid: Option<i32>,
    pub foreground_interrupt: Option<ForegroundInterrupt>,
    pub traps: TrapsV,
}

/// The view of a frame.
pub open spec fn frame_view(s: Seq<(String, PreviousVar)>) -> FrameV {
    s.map_values(|e: (String, PreviousVar)| (e.0@, e.1@))
}

/// The views of a stack of frames.
pub open spec fn frames_view(s: Seq<Vec<(String, PreviousVar)>>) -> Seq<FrameV> {
    s.map_values(|f: Vec<(String, PreviousVar)>| frame_view(f@))
}

impl View for Shell {
    type V = ShellV;

    open(crate) spec fn view(&self) -> ShellV {
        ShellV {
            cwd: self.cwd@,
            env: self.env_vars@,
            vars: self.shell_vars@,
            last_status: self.last_status,
            is_interactive: self.is_interactive,
            loop_depth: self.loop_depth,
            pending: self.pending_control_flow,
            arg0: self.arg0@,
            pid: self.pid,
            positional: texts(self.positional_params@),
            functions: self.functions@,
            function_depth: self.function_depth,
            locals: frames_view(self.local_stack@),
            builtins: self.builtins@,
            special: self.special_builtins@,
            jobs: self.job_table@,
            last_background_pid: self.last_background_pid,
            job_control_active: self.job_control_active,
            shell_pgid: self.shell_pgid,
            foreground_interrupt: self.foreground_interrupt,
            traps: self.traps@,
        }
    }
}

// ---- the rules ----------------------------------------------------------------------------

/// The value of a variable. An exported variable hides another of its name.
pub open spec fn lookup(sh: ShellV, name: Seq<char>) -> Option<Seq<char>> {
    if sh.env.contains_key(name) {
        Some(sh.env[name])
    } else if sh.vars.contains_key(name) {
        Some(sh.vars[name])
    } else {
        None
    }
}

/// The binding of a variable.
pub open spec fn captured(sh: ShellV, name: Seq<char>) -> PreviousVarV {
    if sh.env.contains_key(name) {
        PreviousVarV::EnvVar(sh.env[name])
    } else if sh.vars.contains_key(name) {
        PreviousVarV::ShellVar(sh.vars[name])
    } else {
        PreviousVarV::Unset
    }
}

/// The shell after a variable got a binding back.
pub open spec fn restored(sh: ShellV, name: Seq<char>, previous: PreviousVarV) -> ShellV {
    let env = sh.env.remove(name);
    let vars = sh.vars.remove(name);
    match previous {
        PreviousVarV::Unset => ShellV { env, vars, ..sh },
        PreviousVarV::ShellVar(v) => ShellV { env, vars: vars.insert(name, v), ..sh },
        PreviousVarV::EnvVar(v) => ShellV { env: env.insert(name, v), vars, ..sh },
    }
}

/// The shell after a declaration gave a variable a new value, or none. An
/// exported variable stays exported.
pub open spec fn local_set(sh: ShellV, name: Seq<char>, value: Option<Seq<char>>) -> ShellV {
    restored(
        sh,
        name,
        match value {
            None => PreviousVarV::Unset,
            Some(v) => if sh.env.contains_key(name) {
                PreviousVarV::EnvVar(v)
            } else {
                PreviousVarV::ShellVar(v)
            },
        },
    )
}

/// The shell after the bindings of a frame came back, the last one first.
pub open spec fn all_restored(sh: ShellV, frame: FrameV) -> ShellV
    decreases frame.len(),
{
    if frame.len() == 0 {
        sh
    } else {
        all_restored(restored(sh, frame.last().0, frame.last().1), frame.drop_last())
    }
}

/// The shell after a binding was recorded for the call under way.
pub open spec fn recorded(sh: ShellV, name: Seq<char>, previous: PreviousVarV) -> ShellV {
    if sh.locals.len() == 0 {
        sh
    } else {
        ShellV {
            locals: sh.locals.drop_last().push(sh.locals.last().push((name, previous))),
            ..sh
        }
    }
}

/// The shell after the declarations of the call under way were undone.
pub open spec fn frame_popped(sh: ShellV) -> ShellV {
    if sh.locals.len() == 0 {
        sh
    } else {
        all_restored(ShellV { locals: sh.locals.drop_last(), ..sh }, sh.locals.last())
    }
}

/// The traps after every signal of `names` was ignored.
pub open spec fn ignoring(t: TrapsV, names: Seq<Seq<char>>) -> TrapsV
    decreases names.len(),
{
    if names.len() == 0 {
        t
    } else {
        trap_set(ignoring(t, names.drop_last()), Some(names.last()), TrapActionV::Ignore, false)
    }
}

/// The shell whose foreground job gave up the terminal before it had finished.
pub open spec fn interrupted(sh: ShellV, why: ForegroundInterrupt) -> ShellV {
    ShellV { foreground_interrupt: Some(why), ..sh }
}

/// The name under which a shell hands its process number to a subshell.
pub open spec fn pid_key() -> Seq<char> {
    "__CONCH_PID"@
}

/// The name under which a shell hands its ignored signals to a subshell.
pub open spec fn ignored_key() -> Seq<char> {
    "__CONCH_IGNORED_SIGNALS"@
}

/// The process number for `$$`: what the parent shell handed down, else the
/// shell's own.
pub open spec fn inherited_pid(env: Map<Seq<char>, Seq<char>>, process_id: i32) -> i32 {
    if env.contains_key(pid_key()) {
        match integer_of(env[pid_key()], true) {
            Some(n) if i32::MIN <= n <= i32::MAX => n as i32,
            _ => process_id,
        }
    } else {
        process_id
    }
}

/// A shell at its start.
pub open spec fn started(
    cwd: Seq<char>,
    env: Map<Seq<char>, Seq<char>>,
    process_id: i32,
    ignored: Seq<Seq<char>>,
) -> ShellV {
    ShellV {
        cwd,
        env: env.remove(pid_key()).remove(ignored_key()),
        vars: Map::empty(),
        last_status: 0,
        is_interactive: false,
        loop_depth: 0,
        pending: None,
        arg0: "conch"@,
        pid: inherited_pid(env, process_id),
        positional: Seq::empty(),
        functions: Map::empty(),
        function_depth: 0,
        locals: Seq::empty(),
        builtins: Map::empty(),
        special: Map::empty(),
        jobs: JobTableV { jobs: Seq::empty(), next_id: 1, current: None, previous: None },
        last_background_pid: None,
        job_control_active: false,
        shell_pgid: None,
        foreground_interrupt: None,
        traps: ignoring(
            TrapsV {
                actions: Map::empty(),
                names: Seq::empty(),
                exit: None,
                handled: Seq::empty(),
            },
            ignored,
        ),
    }
}

/// `ignored` may be the signals that a parent shell handed down.
pub open spec fn may_be_handed_down(
    env: Map<Seq<char>, Seq<char>>,
    ignored: Seq<Seq<char>>,
) -> bool {
    if env.contains_key(ignored_key()) {
        may_all_name(name_parts(env[ignored_key()], 0, 0, Seq::empty()), ignored)
    } else {
        ignored.len() == 0
    }
}

// ---- starting -----------------------------------------------------------------------------

impl Shell {
    /// A new session in directory `cwd` with the given environment. What a
    /// parent shell handed down in it is taken out: its process number, and the
    /// signals that it ignores, which the caller must have ignored as well.
    #[must_use]
    pub fn new(cwd: String, env_vars: TextMap<String>, process_id: i32) -> (r: Self)
        ensures
            exists|ignored: Seq<Seq<char>>|
                {
                    &&& r@ == #[trigger] started(cwd@, env_vars@, process_id, ignored)
                    &&& may_be_handed_down(env_vars@, ignored)
                },
    {
        let ignored = match env_vars.get("__CONCH_IGNORED_SIGNALS") {
            Some(value) => parse_ignored_trap_names(value.as_str()),
            None => Vec::new(),
        };
        let ghost names = texts(ignored@);
        let r = Shell::with_ignored(cwd, env_vars, process_id, ignored);
        assert(r@ == started(cwd@, env_vars@, process_id, names));
        r
    }

    /// A new session in which the signals of `ignored` are ignored.
    #[must_use]
    pub fn with_ignored(
        cwd: String,
        env_vars: TextMap<String>,
        process_id: i32,
        ignored: Vec<String>,
    ) -> (r: Self)
        ensures
            r@ == started(cwd@, env_vars@, process_id, texts(ignored@)),
    {
        let mut env_vars = env_vars;
        let ghost env = env_vars@;
        let pid: i32 = match env_vars.remove("__CONCH_PID") {
            Some(value) => match parse_i32(value.as_str()) {
                Some(n) => n,
                None => process_id,
            },
            None => process_id,
        };
        let _ = env_vars.remove("__CONCH_IGNORED_SIGNALS");
        let mut traps = Traps::new();
        let ghost empty = traps@;
        let ghost all = texts(ignored@);
        let mut i: usize = 0;
        assert(all.take(0) =~= Seq::empty());
        while i < ignored.len()
            invariant
                i <= ignored@.len(),
                all == texts(ignored@),
                traps@ == ignoring(empty, all.take(i as int)),
            decreases ignored@.len() - i,
        {
            let _ = traps.set(Some(ignored[i].as_str()), TrapAction::Ignore, false);
            i += 1;
            assert(all.take(i as int).drop_last() =~= all.take(i - 1));
            assert(all.take(i as int).last() == all[i - 1]);
        }
        assert(all.take(all.len() as int) =~= all);
        let r = Shell {
            cwd,
            env_vars,
            shell_vars: TextMap::new(),
            last_status: 0,
            is_interactive: false,
            loop_depth: 0,
            pending_control_flow: None,
            arg0: "conch".to_owned(),
            pid,
            positional_params: Vec::new(),
            functions: TextMap::new(),
            function_depth: 0,
            local_stack: Vec::new(),
            builtins: TextMap::new(),
            special_builtins: TextMap::new(),
            job_table: JobTable::new(),
            last_background_pid: None,
            job_control_active: false,
            shell_pgid: None,
            foreground_interrupt: None,
            traps,
        };
        assert(r@.locals =~= Seq::empty());
        r
    }

    // ---- variables ------------------------------------------------------------------------

    /// The value of a variable. An exported variable hides another of its name.
    pub fn get_var(&self, name: &str) -> (r: Option<&str>)
        ensures
            match r {
                Some(v) => lookup(self@, name@) == Some(v@),
                None => lookup(self@, name@) is None,
            },
    {
        match self.env_vars.get(name) {
            Some(v) => Some(v.as_str()),
            None => match self.shell_vars.get(name) {
                Some(v) => Some(v.as_str()),
                None => None,
            },
        }
    }

    /// The binding of a variable, for [`Shell::restore_var`].
    pub fn capture_var(&self, name: &str) -> (r: PreviousVar)
        ensures
            r@ == captured(self@, name@),
    {
        match self.env_vars.get(name) {
            Some(v) => PreviousVar::EnvVar(v.clone()),
            None => match self.shell_vars.get(name) {
                Some(v) => PreviousVar::ShellVar(v.clone()),
                None => PreviousVar::Unset,
            },
        }
    }

    /// Gives a variable a binding back, whatever it is bound to now.
    pub fn restore_var(&mut self, name: &str, previous: PreviousVar)
        ensures
            final(self)@ == restored(old(self)@, name@, previous@),
    {
        let _ = self.env_vars.remove(name);
        let _ = self.shell_vars.remove(name);
        match previous {
            PreviousVar::Unset => {},
            PreviousVar::ShellVar(v) => {
                let _ = self.shell_vars.insert(name.to_owned(), v);
            },
            PreviousVar::EnvVar(v) => {
                let _ = self.env_vars.insert(name.to_owned(), v);
            },
        }
    }

    /// Gives a variable the value of a `local` declaration, or leaves it unset.
    pub fn set_local(&mut self, name: &str, value: Option<String>)
        ensures
            final(self)@ == local_set(old(self)@, name@, text_option(value)),
    {
        let was_exported = self.env_vars.contains_key(name);
        let binding = match value {
            None => PreviousVar::Unset,
            Some(v) => if was_exported {
                PreviousVar::EnvVar(v)
            } else {
                PreviousVar::ShellVar(v)
            },
        };
        self.restore_var(name, binding);
    }

    /// Begins the frame of a function call.
    pub fn push_local_frame(&mut self)
        ensures
            final(self)@ == (ShellV {
                locals: old(self)@.locals.push(Seq::empty()),
                ..old(self)@
            }),
    {
        let frame: Vec<(String, PreviousVar)> = Vec::new();
        assert(frame_view(frame@) =~= Seq::empty());
        self.local_stack.push(frame);
        assert(self@.locals =~= old(self)@.locals.push(Seq::empty()));
    }

    /// Records the binding that a declaration of the call under way shadows.
    /// Does nothing outside function calls.
    pub fn record_local(&mut self, name: String, previous: PreviousVar)
        ensures
            final(self)@ == recorded(old(self)@, name@, previous@),
    {
        match self.local_stack.pop() {
            None => {},
            Some(frame) => {
                let mut frame = frame;
                let ghost before = frame_view(frame@);
                frame.push((name, previous));
                assert(frame_view(frame@) =~= before.push((name@, previous@)));
                self.local_stack.push(frame);
                assert(self@.locals =~= recorded(old(self)@, name@, previous@).locals);
            },
        }
    }

    /// Whether a function call is under way.
    pub fn in_function_call(&self) -> (r: bool)
        ensures
            r == (self@.locals.len() > 0),
    {
        self.local_stack.len() > 0
    }

    /// Ends the frame of a function call and undoes its declarations, the last
    /// one first.
    pub fn pop_local_frame(&mut self)
        ensures
            final(self)@ == frame_popped(old(self)@),
    {
        match self.local_stack.pop() {
            None => {},
            Some(frame) => {
                let mut frame = frame;
                assert(self@.locals =~= old(self)@.locals.drop_last());
                let ghost whole = all_restored(self@, frame_view(frame@));
                while frame.len() > 0
                    invariant
                        whole == all_restored(self@, frame_view(frame@)),
                    decreases frame@.len(),
                {
                    let ghost before = frame_view(frame@);
                    if let Some((name, previous)) = frame.pop() {
                        assert(frame_view(frame@) =~= before.drop_last());
                        assert(before.last() == (name@, previous@));
                        self.restore_var(name.as_str(), previous);
                    }
                }
            },
        }
    }

    // ---- builtins -------------------------------------------------------------------------

    /// Registers a regular builtin.
    pub fn register_builtin(&mut self, name: String, builtin: Builtin)
        ensures
            final(self)@ == (ShellV {
                builtins: old(self)@.builtins.insert(name@, builtin),
                ..old(self)@
            }),
    {
        let _ = self.builtins.insert(name, builtin);
    }

    /// Registers a special builtin.
    pub fn register_special_builtin(&mut self, name: String, builtin: Builtin)
        ensures
            final(self)@ == (ShellV {
                builtins: old(self)@.builtins.insert(name@, builtin),
                special: old(self)@.special.insert(name@, builtin),
                ..old(self)@
            }),
    {
        let _ = self.special_builtins.insert(name.clone(), builtin);
        let _ = self.builtins.insert(name, builtin);
    }

    /// Whether a builtin was registered as a special one.
    pub fn is_special_builtin(&self, name: &str) -> (r: bool)
        ensures
            r == self@.special.contains_key(name@),
    {
        self.special_builtins.contains_key(name)
    }

    /// The builtin under a name.
    pub fn builtin(&self, name: &str) -> (r: Option<Builtin>)
        ensures
            r == (if self@.builtins.contains_key(name@) {
                Some(self@.builtins[name@])
            } else {
                None
            }),
    {
        match self.builtins.get(name) {
            Some(b) => Some(*b),
            None => None,
        }
    }

    /// Removes the builtin under a name.
    pub fn take_builtin(&mut self, name: &str) -> (r: Option<Builtin>)
        ensures
            r == (if old(self)@.builtins.contains_key(name@) {
                Some(old(self)@.builtins[name@])
            } else {
                None
            }),
            final(self)@ == (ShellV {
                builtins: old(self)@.builtins.remove(name@),
                ..old(self)@
            }),
    {
        self.builtins.remove(name)
    }

    // ---- jobs -----------------------------------------------------------------------------

    /// The process group to which signals for job `id` go.
    #[must_use]
    pub fn job_group(&self, id: u32) -> (r: Option<i32>)
        ensures
            r == (match job_of(self@.jobs.jobs, id) {
                Some(job) => Some(job.pgid),
                None => None,
            }),
    {
        match self.job_table.get(id) {
            Some(job) => Some(job.pgid),
            None => None,
        }
    }

    /// Records what was observed of the leaders of jobs. Gives the numbers of the
    /// jobs whose states that changed.
    pub fn reap_children(&mut self, seen: &Vec<(i32, ChildStatus)>) -> (r: Vec<u32>)
        ensures
            r@ == all_observed(old(self)@.jobs, seen@).1,
            final(self)@ == (ShellV {
                jobs: all_observed(old(self)@.jobs, seen@).0,
                ..old(self)@
            }),
    {
        self.job_table.apply_all(seen)
    }

    /// What waiting for process `pid` comes to. `none_left`: no child is left
    /// that could change.
    #[must_use]
    pub fn wait_for_pid(&self, pid: i32, none_left: bool) -> (r: Awaited)
        ensures
            r == awaited(self@.jobs.jobs, pid, none_left),
    {
        self.job_table.await_process(pid, none_left)
    }

    /// Whether there is nothing more to wait for: no job is running, or no child
    /// is left that could change.
    #[must_use]
    pub fn wait_for_all_background_jobs(&self, none_left: bool) -> (done: bool)
        ensures
            done == (none_left || !some_running(self@.jobs.jobs)),
    {
        none_left || !self.job_table.any_running()
    }

    /// Removes every job that is finished and has been shown.
    pub fn purge_finished_notified_jobs(&mut self)
        ensures
            final(self)@ == (ShellV {
                jobs: purged(old(self)@.jobs, settled_ids(old(self)@.jobs.jobs)),
                ..old(self)@
            }),
    {
        self.job_table.purge_finished_notified();
    }

    /// The process group to signal so that job `id` runs on in the background.
    ///
    /// # Errors
    ///
    /// A message, if there is no such job.
    pub fn background_group(&self, id: u32) -> (r: Result<i32, String>)
        ensures
            match job_of(self@.jobs.jobs, id) {
                Some(job) => r == Ok::<i32, String>(job.pgid),
                None => r is Err && r->Err_0@ == "bg: "@ + decimal(id as int)
                    + ": no such job"@,
            },
    {
        match self.job_group(id) {
            Some(pgid) => Ok(pgid),
            None => Err(join3("bg: ", i64_to_text(id as i64).as_str(), ": no such job")),
        }
    }

    /// Job `id` was told to run on in the background, with this outcome.
    ///
    /// # Errors
    ///
    /// A message, if the signal could not be sent.
    pub fn resume_job_in_background(&mut self, id: u32, sent: Result<(), String>) -> (r: Result<
        (),
        String,
    >)
        ensures
            final(self)@ == (ShellV { jobs: resumed(old(self)@.jobs, id), ..old(self)@ }),
            match sent {
                Ok(_) => r is Ok,
                Err(e) => r is Err && r->Err_0@ == "bg: "@ + e@,
            },
    {
        self.job_table.mark_resumed(id);
        match sent {
            Ok(_) => Ok(()),
            Err(e) => Err(join2("bg: ", e.as_str())),
        }
    }

    // ---- traps ----------------------------------------------------------------------------

    /// Sets the trap of a signal, or of the end of the shell (`None`). Gives the
    /// disposition that the signal is to have.
    pub fn set_trap(&mut self, signal: Option<&str>, action: TrapAction) -> (r: Option<
        Disposition,
    >)
        ensures
            ({
                let named = match signal {
                    Some(s) => Some(s@),
                    None => None,
                };
                &&& final(self)@ == with_trap(old(self)@, named, action@)
                &&& r == trap_disposition(old(self)@, named, action@)
            }),
    {
        let job_control = self.job_control_active;
        self.traps.set(signal, action, job_control)
    }

    /// The trap of a signal.
    #[must_use]
    pub fn trap_for(&self, signal: Option<&str>) -> (r: Option<&TrapAction>)
        ensures
            match signal {
                None => r is None,
                Some(s) => match r {
                    Some(a) => trap_of(self@.traps, Some(s@)) == Some(a@),
                    None => trap_of(self@.traps, Some(s@)) is None,
                },
            },
    {
        match signal {
            None => None,
            Some(s) => self.traps.get(s),
        }
    }

    /// The signals that have a trap, with their actions.
    pub fn traps_iter(&self) -> (r: Vec<(String, TrapAction)>)
        ensures
            r@.len() == self@.traps.names.len(),
            forall|i: int|
                0 <= i < r@.len() ==> (#[trigger] r@[i]).0@ == self@.traps.names[i] && r@[i].1@
                    == self@.traps.actions[r@[i].0@],
    {
        self.traps.entries()
    }

    /// The command to run when the shell exits.
    #[must_use]
    pub fn exit_trap(&self) -> (r: Option<&str>)
        ensures
            match r {
                Some(s) => self@.traps.exit == Some(s@),
                None => self@.traps.exit is None,
            },
    {
        self.traps.exit()
    }

    /// The command to run when the shell exits, which is then forgotten: it runs
    /// once.
    pub fn take_exit_trap(&mut self) -> (r: Option<String>)
        ensures
            text_option(r) == old(self)@.traps.exit,
            final(self)@ == (ShellV {
                traps: TrapsV { exit: None, ..old(self)@.traps },
                ..old(self)@
            }),
    {
        self.traps.take_exit()
    }

    /// The lines for all traps, in order, that of the end of the shell last.
    pub fn trap_list(&self) -> (r: Vec<String>)
        ensures
            texts(r@) == sorted(trap_lines(self@.traps.names, self@.traps.actions)) + (
            match described(self@.traps, None) {
                Some(line) => seq![line],
                None => Seq::empty(),
            }),
    {
        self.traps.list()
    }

    /// The names of the signals that are ignored, with commas between them.
    #[must_use]
    pub fn ignored_trap_names(&self) -> (r: String)
        ensures
            r@ == joined(ignored_among(self@.traps.names, self@.traps.actions), ","@),
    {
        self.traps.ignored_names()
    }

    /// Sets the trap that `spec` names.
    ///
    /// # Errors
    ///
    /// A message, if it names no signal of this system.
    pub fn trap_set_by_name(&mut self, spec: &str, action: TrapAction) -> (r: Result<
        Option<TrapChange>,
        String,
    >)
        ensures
            match signal_spec(spec@) {
                SignalSpecV::Exit => {
                    &&& r == Ok::<Option<TrapChange>, String>(None)
                    &&& final(self)@ == with_trap(old(self)@, None, action@)
                },
                _ => match r {
                    Ok(change) => {
                        &&& change matches Some(change) && final(self)@ == with_trap(
                            old(self)@,
                            Some(change.signal@),
                            action@,
                        ) && Some(change.disposition) == trap_disposition(
                            old(self)@,
                            Some(change.signal@),
                            action@,
                        )
                        &&& may_name(spec@, change->Some_0.signal@)
                    },
                    Err(e) => {
                        &&& final(self)@ == old(self)@
                        &&& may_be_unknown(spec@)
                        &&& e@ == signal_error(spec@)
                    },
                },
            },
    {
        match parse_signal_spec(spec)? {
            None => {
                let _ = self.set_trap(None, action);
                Ok(None)
            },
            Some(signal) => match self.set_trap(Some(signal.as_str()), action) {
                Some(disposition) => Ok(Some(TrapChange { signal, disposition })),
                None => Ok(None),
            },
        }
    }

    /// The line for the trap that `spec` names, if it is set.
    ///
    /// # Errors
    ///
    /// A message, if it names no signal of this system.
    pub fn trap_describe_by_name(&self, spec: &str) -> (r: Result<Option<String>, String>)
        ensures
            match signal_spec(spec@) {
                SignalSpecV::Exit => named_view(r) == Ok::<Option<Seq<char>>, Seq<char>>(
                    described(self@.traps, None),
                ),
                _ => match r {
                    Ok(line) => exists|signal: Seq<char>|
                        may_name(spec@, signal) && text_option(line)
                            == #[trigger] described(self@.traps, Some(signal)),
                    Err(e) => {
                        &&& may_be_unknown(spec@)
                        &&& e@ == signal_error(spec@)
                    },
                },
            },
    {
        match parse_signal_spec(spec)? {
            None => Ok(self.traps.describe(None)),
            Some(signal) => {
                let line = self.traps.describe(Some(signal.as_str()));
                assert(text_option(line) == described(self@.traps, Some(signal@)));
                Ok(line)
            },
        }
    }
}

/// A signal whose disposition is to change.
#[derive(Debug, PartialEq, Eq)]
pub struct TrapChange {
    pub signal: String,
    pub disposition: Disposition,
}

/// The shell after a trap was set.
pub open spec fn with_trap(sh: ShellV, signal: Option<Seq<char>>, action: TrapActionV) -> ShellV {
    ShellV { traps: trap_set(sh.traps, signal, action, sh.job_control_active), ..sh }
}

/// The disposition that a trap asks for, if it is one of a signal.
pub open spec fn trap_disposition(
    sh: ShellV,
    signal: Option<Seq<char>>,
    action: TrapActionV,
) -> Option<Disposition> {
    match signal {
        Some(s) => Some(disposition_for(s, action, sh.job_control_active)),
        None => None,
    }
}

// ---- laws ---------------------------------------------------------------------------------

/// A binding that is captured and restored is the same again, whatever happened
/// to the variable in between; no other variable changes.
pub proof fn law_restoring_undoes(before: ShellV, now: ShellV, name: Seq<char>, other: Seq<char>)
    ensures
        captured(restored(now, name, captured(before, name)), name) == captured(before, name),
        lookup(restored(now, name, captured(before, name)), name) == lookup(before, name),
        other != name ==> captured(restored(now, name, captured(before, name)), other) == captured(
            now,
            other,
        ),
{
}

/// The index of the first declaration of `name` in a frame, or its length.
pub open spec fn first_declared(frame: FrameV, name: Seq<char>) -> int
    decreases frame.len(),
{
    if frame.len() == 0 {
        0
    } else {
        let n = first_declared(frame.drop_last(), name);
        if n < frame.len() - 1 || frame.last().0 == name {
            n
        } else {
            frame.len() as int
        }
    }
}

proof fn lemma_all_restored(sh: ShellV, frame: FrameV, name: Seq<char>)
    ensures
        0 <= first_declared(frame, name) <= frame.len(),
        captured(all_restored(sh, frame), name) == (if first_declared(frame, name) < frame.len() {
            frame[first_declared(frame, name)].1
        } else {
            captured(sh, name)
        }),
    decreases frame.len(),
{
    if frame.len() > 0 {
        let next = restored(sh, frame.last().0, frame.last().1);
        lemma_all_restored(next, frame.drop_last(), name);
    }
}

/// The end of a function call gives every variable that it declared local the
/// binding of before its first declaration, however often it was declared, and
/// leaves every other variable as it is.
pub proof fn law_locals_end_with_their_call(sh: ShellV, name: Seq<char>)
    requires
        sh.locals.len() > 0,
    ensures
        ({
            let frame = sh.locals.last();
            let n = first_declared(frame, name);
            captured(frame_popped(sh), name) == (if n < frame.len() {
                frame[n].1
            } else {
                captured(sh, name)
            })
        }),
{
    lemma_all_restored(
        ShellV { locals: sh.locals.drop_last(), ..sh },
        sh.locals.last(),
        name,
    );
}

} // verus!
