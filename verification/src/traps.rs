//! Traps: what the shell does when a signal arrives or when it exits.
//!
//! A signal is known by its full name, such as `SIGUSR1`. Installing a handler
//! is left to the caller: setting a trap says which disposition the signal is
//! to have.

use vstd::prelude::*;

use crate::glob::{sort_texts, sorted};
use crate::numbers::{integer_of, parse_i32, unsigned_of};
use crate::text::{
    chars_of, clone_texts, join, join2, join3, joined, lemma_texts_empty, lemma_texts_push,
    same_text, text_between, texts, to_upper, upper, without_text,
};
use crate::text_map::TextMap;

pub mod laws;

verus! {

broadcast use {lemma_texts_push, lemma_texts_empty};

// ---- signals ------------------------------------------------------------------------------

/// A signal that every system knows.
#[verifier::opaque]
pub open spec fn is_portable_signal(s: Seq<char>) -> bool {
    s == "SIGHUP"@ || s == "SIGINT"@ || s == "SIGQUIT"@ || s == "SIGILL"@ || s == "SIGTRAP"@ || s
        == "SIGABRT"@ || s == "SIGBUS"@ || s == "SIGFPE"@ || s == "SIGKILL"@ || s == "SIGUSR1"@
        || s == "SIGSEGV"@ || s == "SIGUSR2"@ || s == "SIGPIPE"@ || s == "SIGALRM"@ || s
        == "SIGTERM"@ || s == "SIGCHLD"@ || s == "SIGCONT"@ || s == "SIGSTOP"@ || s == "SIGTSTP"@
        || s == "SIGTTIN"@ || s == "SIGTTOU"@ || s == "SIGURG"@ || s == "SIGXCPU"@ || s
        == "SIGXFSZ"@ || s == "SIGVTALRM"@ || s == "SIGPROF"@ || s == "SIGWINCH"@ || s
        == "SIGSYS"@
}

/// A signal that some system knows.
#[verifier::opaque]
pub open spec fn is_signal(s: Seq<char>) -> bool {
    is_portable_signal(s) || s == "SIGSTKFLT"@ || s == "SIGIO"@ || s == "SIGPWR"@ || s
        == "SIGEMT"@ || s == "SIGINFO"@
}

/// The signal that has the number `n` on every system.
pub open spec fn numbered_signal(n: int) -> Option<Seq<char>> {
    if n == 1 {
        Some("SIGHUP"@)
    } else if n == 2 {
        Some("SIGINT"@)
    } else if n == 3 {
        Some("SIGQUIT"@)
    } else if n == 4 {
        Some("SIGILL"@)
    } else if n == 6 {
        Some("SIGABRT"@)
    } else if n == 8 {
        Some("SIGFPE"@)
    } else if n == 9 {
        Some("SIGKILL"@)
    } else if n == 11 {
        Some("SIGSEGV"@)
    } else if n == 14 {
        Some("SIGALRM"@)
    } else if n == 15 {
        Some("SIGTERM"@)
    } else {
        None
    }
}

/// `signal` has the number `n` on some system: numbers are small, and a number
/// that belongs to one signal everywhere belongs to no other.
pub open spec fn may_have_number(signal: Seq<char>, n: int) -> bool {
    &&& is_signal(signal)
    &&& 1 <= n <= 64
    &&& numbered_signal(n) is Some ==> numbered_signal(n) == Some(signal)
    &&& forall|k: int| #[trigger] numbered_signal(k) == Some(signal) ==> k == n
}

/// `nix::sys::signal::Signal::from_str`: a signal's full name is read as that
/// signal, whose name is the same text. It accepts the portable signals
/// everywhere, some others on some systems, and nothing else.
#[verifier::external_body]
fn signal_from_name(name: &str) -> (r: Option<String>)
    ensures
        match r {
            Some(n) => n@ == name@ && is_signal(name@),
            None => !is_portable_signal(name@),
        },
{
    match name.parse::<nix::sys::signal::Signal>() {
        Ok(signal) => Some(signal.as_str().to_owned()),
        Err(_) => None,
    }
}

/// `nix::sys::signal::Signal::try_from(i32)`: the name of the signal with a
/// number, if the system has one. The numbers are those of the `libc` crate, where
/// some signals have the same number on every system. Which of the other numbers
/// belongs to which signal is up to the system and is left unsaid.
#[verifier::external_body]
fn signal_from_number(number: i32) -> (r: Option<String>)
    ensures
        match r {
            Some(n) => may_have_number(n@, number as int),
            None => numbered_signal(number as int) is None,
        },
{
    match nix::sys::signal::Signal::try_from(number) {
        Ok(signal) => Some(signal.as_str().to_owned()),
        Err(_) => None,
    }
}

/// What an argument of `trap` names.
pub ghost enum SignalSpecV {
    /// The end of the shell.
    Exit,
    /// A signal by number.
    Number(int),
    /// A signal by its full name.
    Name(Seq<char>),
}

/// `s` with `SIG` before it, unless it starts so.
pub open spec fn full_name(s: Seq<char>) -> Seq<char> {
    if "SIG"@.is_prefix_of(s) {
        s
    } else {
        "SIG"@ + s
    }
}

/// What an argument of `trap` names: `EXIT`, a number, or a name with or
/// without `SIG`. Case does not matter.
pub open spec fn signal_spec(s: Seq<char>) -> SignalSpecV {
    if upper(s) == "EXIT"@ {
        SignalSpecV::Exit
    } else {
        match integer_of(s, true) {
            Some(n) if i32::MIN <= n <= i32::MAX => SignalSpecV::Number(n),
            _ => SignalSpecV::Name(full_name(upper(s))),
        }
    }
}

/// The error for an argument that names no signal.
pub open spec fn signal_error(s: Seq<char>) -> Seq<char> {
    "trap: "@ + s + (if signal_spec(s) is Number {
        ": invalid signal number"@
    } else {
        ": invalid signal specification"@
    })
}

/// What an argument names, given the signal that the system has under its number
/// or name: `Ok(None)` for the end of the shell.
pub open spec fn signal_named(s: Seq<char>, found: Option<Seq<char>>) -> Result<
    Option<Seq<char>>,
    Seq<char>,
> {
    if signal_spec(s) is Exit {
        Ok(None)
    } else {
        match found {
            Some(n) => Ok(Some(n)),
            None => Err(signal_error(s)),
        }
    }
}

/// `spec` may name `signal`: by the full name, or by a number of the system's.
pub open spec fn may_name(spec: Seq<char>, signal: Seq<char>) -> bool {
    is_signal(signal) && match signal_spec(spec) {
        SignalSpecV::Exit => false,
        SignalSpecV::Number(n) => may_have_number(signal, n),
        SignalSpecV::Name(name) => signal == name,
    }
}

/// `spec` may name no signal of the system.
pub open spec fn may_be_unknown(spec: Seq<char>) -> bool {
    match signal_spec(spec) {
        SignalSpecV::Exit => false,
        SignalSpecV::Number(n) => numbered_signal(n) is None,
        SignalSpecV::Name(name) => !is_portable_signal(name),
    }
}

/// The view of an optional text.
pub open spec fn text_option(t: Option<String>) -> Option<Seq<char>> {
    match t {
        Some(t) => Some(t@),
        None => None,
    }
}

/// The view of what an argument names.
pub open spec fn named_view(r: Result<Option<String>, String>) -> Result<
    Option<Seq<char>>,
    Seq<char>,
> {
    match r {
        Ok(n) => Ok(text_option(n)),
        Err(e) => Err(e@),
    }
}

fn is_exit(spec: &str) -> (r: bool)
    ensures
        r == (signal_spec(spec@) is Exit),
{
    same_text(to_upper(spec).as_str(), "EXIT")
}

/// What `spec` names, given the signal that the system has under its number or
/// name.
pub fn resolve_signal(spec: &str, found: Option<String>) -> (r: Result<Option<String>, String>)
    ensures
        named_view(r) == signal_named(spec@, text_option(found)),
{
    if is_exit(spec) {
        return Ok(None);
    }
    match found {
        Some(name) => Ok(Some(name)),
        None => match parse_i32(spec) {
            Some(_) => Err(join3("trap: ", spec, ": invalid signal number")),
            None => Err(join3("trap: ", spec, ": invalid signal specification")),
        },
    }
}

/// What `spec` names: `EXIT`, or a signal by number or name.
///
/// # Errors
///
/// A message, if it names no signal of this system.
pub fn parse_signal_spec(spec: &str) -> (r: Result<Option<String>, String>)
    ensures
        match r {
            Ok(None) => signal_spec(spec@) is Exit,
            Ok(Some(signal)) => may_name(spec@, signal@),
            Err(e) => may_be_unknown(spec@) && e@ == signal_error(spec@),
        },
{
    if is_exit(spec) {
        return Ok(None);
    }
    let found = match parse_i32(spec) {
        Some(number) => signal_from_number(number),
        None => {
            let capitals = to_upper(spec);
            let v = chars_of(capitals.as_str());
            let has_prefix = v.len() >= 3 && v[0] == 'S' && v[1] == 'I' && v[2] == 'G';
            proof {
                reveal_strlit("SIG");
                let u = upper(spec@);
                if u.len() >= 3 {
                    assert(has_prefix ==> u.subrange(0, 3) =~= "SIG"@);
                    assert("SIG"@ == u.subrange(0, 3) ==> has_prefix) by {
                        if "SIG"@ == u.subrange(0, 3) {
                            assert(u[0] == u.subrange(0, 3)[0]);
                            assert(u[1] == u.subrange(0, 3)[1]);
                            assert(u[2] == u.subrange(0, 3)[2]);
                        }
                    }
                }
                assert(has_prefix == "SIG"@.is_prefix_of(u));
            }
            let name = if has_prefix {
                capitals
            } else {
                join2("SIG", capitals.as_str())
            };
            assert(name@ == full_name(upper(spec@)));
            assert(is_portable_signal(name@) ==> is_signal(name@)) by {
                reveal(is_signal);
            }
            signal_from_name(name.as_str())
        },
    };
    resolve_signal(spec, found)
}

// ---- traps --------------------------------------------------------------------------------

/// What to do when a signal arrives.
#[derive(Debug, PartialEq, Eq)]
pub enum TrapAction {
    /// What the signal does without a trap.
    Default,
    /// Nothing. Programs that the shell starts ignore the signal too.
    Ignore,
    /// Run a command.
    Command(String),
}

/// View of [`TrapAction`].
pub ghost enum TrapActionV {
    Default,
    Ignore,
    Command(Seq<char>),
}

impl View for TrapAction {
    type V = TrapActionV;

    open spec fn view(&self) -> TrapActionV {
        match self {
            TrapAction::Default => TrapActionV::Default,
            TrapAction::Ignore => TrapActionV::Ignore,
            TrapAction::Command(source) => TrapActionV::Command(source@),
        }
    }
}

impl Clone for TrapAction {
    fn clone(&self) -> (r: Self)
        ensures
            r@ == self@,
    {
        match self {
            TrapAction::Default => TrapAction::Default,
            TrapAction::Ignore => TrapAction::Ignore,
            TrapAction::Command(source) => TrapAction::Command(source.clone()),
        }
    }
}

/// The disposition that a signal is to have.
#[derive(Debug, Clone, Copy, PartialEq, Eq, Structural)]
pub enum Disposition {
    /// Note that the signal arrived; the shell acts on it later.
    Handle,
    /// Ignore the signal.
    Ignore,
    /// The default of the system.
    Default,
}

/// The traps of a shell.
#[derive(Debug)]
pub struct Traps {
    actions: TextMap<TrapAction>,
    exit: Option<String>,
    handled: Vec<String>,
}

/// View of [`Traps`].
pub ghost struct TrapsV {
    /// The trap of each signal that has one; never the default action.
    pub actions: Map<Seq<char>, TrapActionV>,
    /// The signals that have a trap, in the order in which they got one.
    pub names: Seq<Seq<char>>,
    /// The command to run when the shell exits.
    pub exit: Option<Seq<char>>,
    /// The signals for which the shell has a handler.
    pub handled: Seq<Seq<char>>,
}

impl View for Traps {
    type V = TrapsV;

    closed spec fn view(&self) -> TrapsV {
        TrapsV {
            actions: self.actions@,
            names: self.actions.keys(),
            exit: text_option(self.exit),
            handled: texts(self.handled@),
        }
    }
}

/// The signals that an interactive shell ignores for itself.
#[verifier::opaque]
pub open spec fn ignored_at_top_level(s: Seq<char>) -> bool {
    s == "SIGINT"@ || s == "SIGQUIT"@ || s == "SIGTSTP"@ || s == "SIGTTIN"@ || s == "SIGTTOU"@
}

/// The disposition that a trap asks for.
pub open spec fn disposition_for(
    signal: Seq<char>,
    action: TrapActionV,
    job_control: bool,
) -> Disposition {
    match action {
        TrapActionV::Command(_) => Disposition::Handle,
        TrapActionV::Ignore => Disposition::Ignore,
        TrapActionV::Default => if signal == "SIGCHLD"@ {
            Disposition::Handle
        } else if job_control && ignored_at_top_level(signal) {
            Disposition::Ignore
        } else {
            Disposition::Default
        },
    }
}

/// The traps after a signal's trap was set. A signal keeps its place among the
/// handled ones where it is to be handled; it gets one when the handler has
/// been installed.
pub open spec fn trap_set(
    t: TrapsV,
    signal: Option<Seq<char>>,
    action: TrapActionV,
    job_control: bool,
) -> TrapsV {
    match signal {
        None => TrapsV {
            exit: match action {
                TrapActionV::Command(source) => Some(source),
                _ => None,
            },
            ..t
        },
        Some(signal) => TrapsV {
            actions: if action is Default {
                t.actions.remove(signal)
            } else {
                t.actions.insert(signal, action)
            },
            names: if action is Default {
                without_text(t.names, signal)
            } else if t.actions.contains_key(signal) {
                t.names
            } else {
                t.names.push(signal)
            },
            handled: if disposition_for(signal, action, job_control) is Handle {
                t.handled
            } else {
                without_text(t.handled, signal)
            },
            ..t
        },
    }
}

/// A line that describes a trap, fit to be read back.
pub open spec fn trap_line(name: Seq<char>, action: TrapActionV) -> Seq<char> {
    "trap -- '"@ + (match action {
        TrapActionV::Command(source) => source,
        TrapActionV::Ignore => ""@,
        TrapActionV::Default => "-"@,
    }) + "' "@ + name
}

/// The lines for the traps of the signals `names`.
pub open spec fn trap_lines(names: Seq<Seq<char>>, actions: Map<Seq<char>, TrapActionV>) -> Seq<
    Seq<char>,
> {
    names.map_values(|n: Seq<char>| trap_line(n, actions[n]))
}

/// The ignored ones among the signals `names`.
pub open spec fn ignored_among(
    names: Seq<Seq<char>>,
    actions: Map<Seq<char>, TrapActionV>,
) -> Seq<Seq<char>>
    decreases names.len(),
{
    if names.len() == 0 {
        Seq::empty()
    } else if actions[names.last()] is Ignore {
        ignored_among(names.drop_last(), actions).push(names.last())
    } else {
        ignored_among(names.drop_last(), actions)
    }
}

/// The non-empty parts of `s` between commas, from `i` on; the part under way
/// began at `start`.
pub open spec fn name_parts(
    s: Seq<char>,
    i: int,
    start: int,
    acc: Seq<Seq<char>>,
) -> Seq<Seq<char>>
    decreases s.len() - i,
{
    if i < 0 || i >= s.len() {
        if start < s.len() {
            acc.push(s.subrange(start, s.len() as int))
        } else {
            acc
        }
    } else if s[i] == ',' {
        name_parts(
            s,
            i + 1,
            i + 1,
            if start < i {
                acc.push(s.subrange(start, i))
            } else {
                acc
            },
        )
    } else {
        name_parts(s, i + 1, start, acc)
    }
}

/// `s` with `t` at its end, unless it is in it.
pub open spec fn with_text(s: Seq<Seq<char>>, t: Seq<char>) -> Seq<Seq<char>> {
    if s.contains(t) {
        s
    } else {
        s.push(t)
    }
}

/// The signals whose disposition a shell may have changed.
pub open spec fn touched_signals(t: TrapsV) -> Seq<Seq<char>> {
    with_text(
        with_text(
            with_text(with_text(with_text(t.handled, "SIGINT"@), "SIGQUIT"@), "SIGTSTP"@),
            "SIGTTIN"@,
        ),
        "SIGTTOU"@,
    )
}

/// The signals among `names` that have no trap that ignores them.
pub open spec fn not_ignored(names: Seq<Seq<char>>, actions: Map<Seq<char>, TrapActionV>) -> Seq<
    Seq<char>,
>
    decreases names.len(),
{
    if names.len() == 0 {
        Seq::empty()
    } else if actions.contains_key(names.last()) && actions[names.last()] is Ignore {
        not_ignored(names.drop_last(), actions)
    } else {
        not_ignored(names.drop_last(), actions).push(names.last())
    }
}

/// The trap of a signal, or of the end of the shell.
pub open spec fn trap_of(t: TrapsV, signal: Option<Seq<char>>) -> Option<TrapActionV> {
    match signal {
        None => match t.exit {
            Some(source) => Some(TrapActionV::Command(source)),
            None => None,
        },
        Some(signal) => if t.actions.contains_key(signal) {
            Some(t.actions[signal])
        } else {
            None
        },
    }
}

/// The name that lines show for a signal, or for the end of the shell.
pub open spec fn shown_name(signal: Option<Seq<char>>) -> Seq<char> {
    match signal {
        None => "EXIT"@,
        Some(signal) => signal,
    }
}

/// The line for the trap of a signal, if it has one.
pub open spec fn described(t: TrapsV, signal: Option<Seq<char>>) -> Option<Seq<char>> {
    match trap_of(t, signal) {
        Some(action) => Some(trap_line(shown_name(signal), action)),
        None => None,
    }
}

fn is_in(v: &Vec<String>, t: &str) -> (r: bool)
    ensures
        r == texts(v@).contains(t@),
{
    let mut i: usize = 0;
    while i < v.len()
        invariant
            i <= v@.len(),
            forall|k: int| 0 <= k < i ==> (#[trigger] v@[k])@ != t@,
        decreases v@.len() - i,
    {
        if same_text(v[i].as_str(), t) {
            assert(texts(v@)[i as int] == t@);
            return true;
        }
        i += 1;
    }
    assert forall|k: int| 0 <= k < texts(v@).len() implies texts(v@)[k] != t@ by {
        assert(v@[k]@ != t@);
    }
    false
}

fn push_missing(v: &mut Vec<String>, t: &str)
    ensures
        texts(final(v)@) == with_text(texts(old(v)@), t@),
{
    if !is_in(v, t) {
        v.push(t.to_owned());
    }
}

fn is_ignored_at_top_level(s: &str) -> (r: bool)
    ensures
        r == ignored_at_top_level(s@),
{
    reveal(ignored_at_top_level);
    same_text(s, "SIGINT") || same_text(s, "SIGQUIT") || same_text(s, "SIGTSTP") || same_text(
        s,
        "SIGTTIN",
    ) || same_text(s, "SIGTTOU")
}

fn format_trap_line(name: &str, action: &TrapAction) -> (r: String)
    ensures
        r@ == trap_line(name@, action@),
{
    let command = match action {
        TrapAction::Command(source) => source.as_str(),
        TrapAction::Ignore => "",
        TrapAction::Default => "-",
    };
    let mut r = join3("trap -- '", command, "' ");
    r.append(name);
    r
}

/// The non-empty parts of `value` between commas.
fn split_names(value: &str) -> (r: Vec<String>)
    ensures
        texts(r@) == name_parts(value@, 0, 0, Seq::empty()),
{
    let v = chars_of(value);
    let mut parts: Vec<String> = Vec::new();
    let mut start: usize = 0;
    let mut i: usize = 0;
    while i < v.len()
        invariant
            start <= i <= v@.len(),
            name_parts(v@, 0, 0, Seq::empty()) == name_parts(
                v@,
                i as int,
                start as int,
                texts(parts@),
            ),
        decreases v@.len() - i,
    {
        if v[i] == ',' {
            if start < i {
                parts.push(text_between(&v, start, i));
            }
            start = i + 1;
        }
        i += 1;
    }
    if start < v.len() {
        parts.push(text_between(&v, start, v.len()));
    }
    parts
}

/// Every text of `s` is the full name of a portable signal.
pub open spec fn all_portable(s: Seq<Seq<char>>) -> bool {
    forall|i: int| 0 <= i < s.len() ==> is_portable_signal(#[trigger] s[i])
}

/// The name of a portable signal is written in capitals and digits, after `SIG`.
proof fn lemma_portable_name(s: Seq<char>)
    requires
        is_portable_signal(s),
    ensures
        "SIG"@.is_prefix_of(s),
        6 <= s.len() <= 9,
        forall|k: int|
            0 <= k < s.len() ==> 'A' <= #[trigger] s[k] <= 'Z' || '0' <= s[k] <= '9',
{
    reveal(is_portable_signal);
    reveal_strlit("SIG");
    reveal_strlit("SIGHUP");
    reveal_strlit("SIGINT");
    reveal_strlit("SIGQUIT");
    reveal_strlit("SIGILL");
    reveal_strlit("SIGTRAP");
    reveal_strlit("SIGABRT");
    reveal_strlit("SIGBUS");
    reveal_strlit("SIGFPE");
    reveal_strlit("SIGKILL");
    reveal_strlit("SIGUSR1");
    reveal_strlit("SIGSEGV");
    reveal_strlit("SIGUSR2");
    reveal_strlit("SIGPIPE");
    reveal_strlit("SIGALRM");
    reveal_strlit("SIGTERM");
    reveal_strlit("SIGCHLD");
    reveal_strlit("SIGCONT");
    reveal_strlit("SIGSTOP");
    reveal_strlit("SIGTSTP");
    reveal_strlit("SIGTTIN");
    reveal_strlit("SIGTTOU");
    reveal_strlit("SIGURG");
    reveal_strlit("SIGXCPU");
    reveal_strlit("SIGXFSZ");
    reveal_strlit("SIGVTALRM");
    reveal_strlit("SIGPROF");
    reveal_strlit("SIGWINCH");
    reveal_strlit("SIGSYS");
    assert(s.subrange(0, 3) =~= "SIG"@);
    assert forall|k: int| 0 <= k < s.len() implies 'A' <= #[trigger] s[k] <= 'Z' || '0' <= s[k]
        <= '9' by {
        assert(k == 0 || k == 1 || k == 2 || k == 3 || k == 4 || k == 5 || k == 6 || k == 7 || k
            == 8);
    }
}

/// The name of a portable signal names that signal, and can stand in a list.
pub proof fn lemma_portable_names_itself(s: Seq<char>)
    requires
        is_portable_signal(s),
    ensures
        signal_spec(s) == SignalSpecV::Name(s),
        can_be_listed(s),
{
    lemma_portable_name(s);
    reveal_strlit("SIG");
    reveal_strlit("EXIT");
    assert(upper(s) =~= s);
    assert(s[0] == s.subrange(0, 3)[0]);
    assert(integer_of(s, true) is None) by {
        assert(unsigned_of(s) is None);
    }
}

/// `signals` may be what `specs` name, those left out that name none: the end of
/// the shell, and what is no signal of the system.
pub open spec fn may_all_name(specs: Seq<Seq<char>>, signals: Seq<Seq<char>>) -> bool
    decreases specs.len(),
{
    if specs.len() == 0 {
        signals.len() == 0
    } else {
        let spec = specs.last();
        let front = specs.drop_last();
        ||| signals.len() > 0 && may_name(spec, signals.last()) && may_all_name(
            front,
            signals.drop_last(),
        )
        ||| (may_be_unknown(spec) || signal_spec(spec) is Exit) && may_all_name(front, signals)
    }
}

/// Full names of portable signals are all known, whatever the system.
pub proof fn law_portable_names_are_known(specs: Seq<Seq<char>>, signals: Seq<Seq<char>>)
    requires
        all_portable(specs),
        may_all_name(specs, signals),
    ensures
        signals == specs,
    decreases specs.len(),
{
    if specs.len() > 0 {
        let front = specs.drop_last();
        let spec = specs[specs.len() - 1];
        assert(is_portable_signal(spec));
        lemma_portable_names_itself(spec);
        assert forall|i: int| 0 <= i < front.len() implies is_portable_signal(
            #[trigger] front[i],
        ) by {
            assert(front[i] == specs[i]);
        }
        law_portable_names_are_known(front, signals.drop_last());
        assert(signals.drop_last().push(signals.last()) =~= signals);
        assert(front.push(spec) =~= specs);
    }
    assert(signals =~= specs);
}

/// Reads a list of signals back that [`Traps::ignored_names`] wrote. What names
/// no signal of this system is passed over.
pub fn parse_ignored_trap_names(value: &str) -> (r: Vec<String>)
    ensures
        may_all_name(name_parts(value@, 0, 0, Seq::empty()), texts(r@)),
{
    let parts = split_names(value);
    let ghost all = texts(parts@);
    let mut r: Vec<String> = Vec::new();
    let mut i: usize = 0;
    while i < parts.len()
        invariant
            i <= parts@.len(),
            all == texts(parts@),
            may_all_name(all.take(i as int), texts(r@)),
        decreases parts@.len() - i,
    {
        let named = parse_signal_spec(parts[i].as_str());
        let ghost before = texts(r@);
        assert(all[i as int] == parts@[i as int]@);
        if let Ok(Some(signal)) = named {
            r.push(signal);
            assert(texts(r@).drop_last() =~= before);
        }
        i += 1;
        assert(all.take(i as int).drop_last() =~= all.take(i - 1));
        assert(all.take(i as int).last() == all[i - 1]);
    }
    assert(all.take(all.len() as int) =~= all);
    r
}

impl Traps {
    /// No traps, and no signal handled.
    #[must_use]
    pub fn new() -> (r: Self)
        ensures
            r@ == (TrapsV {
                actions: Map::empty(),
                names: Seq::empty(),
                exit: None,
                handled: Seq::empty(),
            }),
    {
        Traps { actions: TextMap::new(), exit: None, handled: Vec::new() }
    }

    /// Sets the trap of a signal, or of the end of the shell (`None`). Gives the
    /// disposition that the signal is to have.
    pub fn set(&mut self, signal: Option<&str>, action: TrapAction, job_control: bool) -> (r:
        Option<Disposition>)
        ensures
            final(self)@ == trap_set(
                old(self)@,
                match signal {
                    Some(s) => Some(s@),
                    None => None,
                },
                action@,
                job_control,
            ),
            r == (match signal {
                Some(s) => Some(disposition_for(s@, action@, job_control)),
                None => None,
            }),
    {
        let signal = match signal {
            None => {
                self.exit = match action {
                    TrapAction::Command(source) => Some(source),
                    _ => None,
                };
                return None;
            },
            Some(s) => s,
        };
        let disposition = match &action {
            TrapAction::Command(_) => Disposition::Handle,
            TrapAction::Ignore => Disposition::Ignore,
            TrapAction::Default => if same_text(signal, "SIGCHLD") {
                Disposition::Handle
            } else if job_control && is_ignored_at_top_level(signal) {
                Disposition::Ignore
            } else {
                Disposition::Default
            },
        };
        match disposition {
            Disposition::Handle => {},
            _ => {
                self.unhandle(signal);
            },
        }
        match action {
            TrapAction::Default => {
                let _ = self.actions.remove(signal);
            },
            _ => {
                let _ = self.actions.insert(signal.to_owned(), action);
            },
        }
        Some(disposition)
    }

    fn unhandle(&mut self, signal: &str)
        ensures
            final(self)@ == (TrapsV {
                handled: without_text(old(self)@.handled, signal@),
                ..old(self)@
            }),
            final(self).actions == old(self).actions,
            final(self).exit == old(self).exit,
    {
        let ghost all = texts(self.handled@);
        let mut kept: Vec<String> = Vec::new();
        let mut i: usize = 0;
        assert(all.take(0) =~= Seq::empty());
        while i < self.handled.len()
            invariant
                *self == *old(self),
                i <= self.handled@.len(),
                all == texts(self.handled@),
                texts(kept@) == without_text(all.take(i as int), signal@),
            decreases self.handled@.len() - i,
        {
            if !same_text(self.handled[i].as_str(), signal) {
                kept.push(self.handled[i].clone());
            }
            i += 1;
            assert(all.take(i as int).drop_last() =~= all.take(i - 1));
            assert(all.take(i as int).last() == all[i - 1]);
        }
        assert(all.take(all.len() as int) =~= all);
        self.handled = kept;
    }

    /// Notes that a handler for a signal has been installed.
    pub fn note_handled(&mut self, signal: &str)
        ensures
            final(self)@ == (TrapsV {
                handled: with_text(old(self)@.handled, signal@),
                ..old(self)@
            }),
    {
        push_missing(&mut self.handled, signal);
    }

    /// The signals for which the shell has a handler.
    #[must_use]
    pub fn handled(&self) -> (r: &Vec<String>)
        ensures
            texts(r@) == self@.handled,
    {
        &self.handled
    }

    /// The trap of a signal.
    #[must_use]
    pub fn get(&self, signal: &str) -> (r: Option<&TrapAction>)
        ensures
            match r {
                Some(a) => trap_of(self@, Some(signal@)) == Some(a@),
                None => trap_of(self@, Some(signal@)) is None,
            },
    {
        self.actions.get(signal)
    }

    /// The command to run when the shell exits.
    #[must_use]
    pub fn exit(&self) -> (r: Option<&str>)
        ensures
            match r {
                Some(s) => self@.exit == Some(s@),
                None => self@.exit is None,
            },
    {
        match &self.exit {
            Some(s) => Some(s.as_str()),
            None => None,
        }
    }

    /// The command to run when the shell exits, which is then forgotten.
    pub fn take_exit(&mut self) -> (r: Option<String>)
        ensures
            text_option(r) == old(self)@.exit,
            final(self)@ == (TrapsV { exit: None, ..old(self)@ }),
    {
        self.exit.take()
    }

    /// The signals that have a trap, with their actions.
    pub fn entries(&self) -> (r: Vec<(String, TrapAction)>)
        ensures
            r@.len() == self@.names.len(),
            forall|i: int|
                0 <= i < r@.len() ==> (#[trigger] r@[i]).0@ == self@.names[i]
                    && self@.actions.contains_key(r@[i].0@) && r@[i].1@
                    == self@.actions[r@[i].0@],
            self@.names.no_duplicates(),
            forall|n: Seq<char>|
                self@.actions.contains_key(n) <==> #[trigger] self@.names.contains(n),
    {
        let mut r: Vec<(String, TrapAction)> = Vec::new();
        let mut i: usize = 0;
        let count: usize = self.actions.len();
        while i < count
            invariant
                i <= count == self.actions.keys().len(),
                r@.len() == i,
                forall|k: int|
                    0 <= k < r@.len() ==> (#[trigger] r@[k]).0@ == self@.names[k]
                        && self@.actions.contains_key(r@[k].0@) && r@[k].1@
                        == self@.actions[r@[k].0@],
            decreases count - i,
        {
            let (name, action) = self.actions.entry(i);
            r.push((name.clone(), action.clone()));
            i += 1;
        }
        r
    }

    /// The line for the trap of a signal, or of the end of the shell, if there
    /// is one.
    pub fn describe(&self, signal: Option<&str>) -> (r: Option<String>)
        ensures
            text_option(r) == described(
                self@,
                match signal {
                    Some(s) => Some(s@),
                    None => None,
                },
            ),
    {
        match signal {
            None => match &self.exit {
                Some(source) => Some(
                    format_trap_line("EXIT", &TrapAction::Command(source.clone())),
                ),
                None => None,
            },
            Some(signal) => match self.actions.get(signal) {
                Some(action) => Some(format_trap_line(signal, action)),
                None => None,
            },
        }
    }

    /// The lines for all traps, in order, that of the end of the shell last.
    pub fn list(&self) -> (r: Vec<String>)
        ensures
            texts(r@) == sorted(trap_lines(self@.names, self@.actions)) + (match described(
                self@,
                None,
            ) {
                Some(line) => seq![line],
                None => Seq::empty(),
            }),
    {
        let ghost names = self@.names;
        let ghost wanted = trap_lines(names, self@.actions);
        let mut lines: Vec<String> = Vec::new();
        let mut i: usize = 0;
        assert(wanted.take(0) =~= Seq::empty());
        let count: usize = self.actions.len();
        while i < count
            invariant
                i <= count == self.actions.keys().len(),
                names == self.actions.keys(),
                wanted == trap_lines(names, self.actions@),
                texts(lines@) == wanted.take(i as int),
            decreases count - i,
        {
            let (name, action) = self.actions.entry(i);
            lines.push(format_trap_line(name.as_str(), action));
            i += 1;
            assert(wanted.take(i as int) =~= wanted.take(i - 1).push(wanted[i - 1]));
        }
        assert(wanted.take(wanted.len() as int) =~= wanted);
        let mut lines = sort_texts(lines);
        let ghost ordered = texts(lines@);
        match self.describe(None) {
            Some(line) => {
                lines.push(line);
                assert(texts(lines@) =~= ordered + seq![line@]);
            },
            None => {
                assert(ordered + Seq::<Seq<char>>::empty() =~= ordered);
            },
        }
        lines
    }

    /// The names of the signals that are ignored, with commas between them.
    #[must_use]
    pub fn ignored_names(&self) -> (r: String)
        ensures
            r@ == joined(ignored_among(self@.names, self@.actions), ","@),
    {
        let ghost names = self@.names;
        let mut ignored: Vec<String> = Vec::new();
        let mut i: usize = 0;
        assert(names.take(0) =~= Seq::empty());
        let count: usize = self.actions.len();
        while i < count
            invariant
                i <= count == self.actions.keys().len(),
                names == self.actions.keys(),
                texts(ignored@) == ignored_among(names.take(i as int), self.actions@),
            decreases count - i,
        {
            let (name, action) = self.actions.entry(i);
            if let TrapAction::Ignore = action {
                ignored.push(name.clone());
            }
            i += 1;
            assert(names.take(i as int).drop_last() =~= names.take(i - 1));
            assert(names.take(i as int).last() == names[i - 1]);
        }
        assert(names.take(names.len() as int) =~= names);
        join(&ignored, ",")
    }

    /// The signals whose disposition a program that the shell starts has to set
    /// back: those that the shell may have changed, but for those that a trap
    /// ignores.
    #[must_use]
    pub fn signals_to_reset(&self) -> (r: Vec<String>)
        ensures
            texts(r@) == not_ignored(touched_signals(self@), self@.actions),
    {
        let mut touched = clone_texts(&self.handled);
        push_missing(&mut touched, "SIGINT");
        push_missing(&mut touched, "SIGQUIT");
        push_missing(&mut touched, "SIGTSTP");
        push_missing(&mut touched, "SIGTTIN");
        push_missing(&mut touched, "SIGTTOU");
        let ghost all = texts(touched@);
        let mut r: Vec<String> = Vec::new();
        let mut i: usize = 0;
        assert(all.take(0) =~= Seq::empty());
        while i < touched.len()
            invariant
                i <= touched@.len(),
                all == texts(touched@),
                texts(r@) == not_ignored(all.take(i as int), self@.actions),
            decreases touched@.len() - i,
        {
            let ignored = match self.actions.get(touched[i].as_str()) {
                Some(TrapAction::Ignore) => true,
                _ => false,
            };
            if !ignored {
                r.push(touched[i].clone());
            }
            i += 1;
            assert(all.take(i as int).drop_last() =~= all.take(i - 1));
            assert(all.take(i as int).last() == all[i - 1]);
        }
        assert(all.take(all.len() as int) =~= all);
        r
    }

    /// The command to run for a signal that has arrived.
    #[must_use]
    pub fn command_for(&self, signal: &str) -> (r: Option<String>)
        ensures
            text_option(r) == (match trap_of(self@, Some(signal@)) {
                Some(TrapActionV::Command(source)) if signal@ != "SIGCHLD"@ => Some(source),
                _ => None,
            }),
    {
        if same_text(signal, "SIGCHLD") {
            return None;
        }
        match self.actions.get(signal) {
            Some(TrapAction::Command(source)) => Some(source.clone()),
            _ => None,
        }
    }
}

// ---- laws ---------------------------------------------------------------------------------

/// A signal has a trap after one was set, and none after it was set back to the
/// default; no other signal's trap changes.
pub proof fn law_traps_are_per_signal(
    t: TrapsV,
    signal: Seq<char>,
    action: TrapActionV,
    job_control: bool,
    other: Option<Seq<char>>,
)
    ensures
        ({
            let after = trap_set(t, Some(signal), action, job_control);
            &&& trap_of(after, Some(signal)) == (if action is Default {
                None
            } else {
                Some(action)
            })
            &&& other != Some(signal) ==> trap_of(after, other) == trap_of(t, other)
        }),
{
}

proof fn lemma_not_ignored(names: Seq<Seq<char>>, actions: Map<Seq<char>, TrapActionV>, k: int)
    requires
        0 <= k < not_ignored(names, actions).len(),
    ensures
        ({
            let n = not_ignored(names, actions)[k];
            !(actions.contains_key(n) && actions[n] is Ignore)
        }),
    decreases names.len(),
{
    if names.len() > 0 {
        if !(actions.contains_key(names.last()) && actions[names.last()] is Ignore) {
            if k < not_ignored(names.drop_last(), actions).len() {
                lemma_not_ignored(names.drop_last(), actions, k);
            }
        } else {
            lemma_not_ignored(names.drop_last(), actions, k);
        }
    }
}

/// A signal that a trap ignores stays ignored in the programs that the shell
/// starts.
pub proof fn law_ignored_signals_are_inherited(t: TrapsV, signal: Seq<char>)
    requires
        trap_of(t, Some(signal)) == Some(TrapActionV::Ignore),
    ensures
        !not_ignored(touched_signals(t), t.actions).contains(signal),
{
    let s = not_ignored(touched_signals(t), t.actions);
    if s.contains(signal) {
        let k = choose|k: int| 0 <= k < s.len() && s[k] == signal;
        lemma_not_ignored(touched_signals(t), t.actions, k);
    }
}

/// A name that can stand in a list: not empty, and without a comma.
pub open spec fn can_be_listed(s: Seq<char>) -> bool {
    s.len() > 0 && !s.contains(',')
}

proof fn lemma_last_part(s: Seq<char>, i: int, start: int, acc: Seq<Seq<char>>)
    requires
        0 <= start <= i <= s.len(),
        start < s.len(),
        forall|k: int| i <= k < s.len() ==> s[k] != ',',
    ensures
        name_parts(s, i, start, acc) == acc.push(s.subrange(start, s.len() as int)),
    decreases s.len() - i,
{
    if i < s.len() {
        lemma_last_part(s, i + 1, start, acc);
    }
}

proof fn lemma_parts_before_comma(
    p: Seq<char>,
    q: Seq<char>,
    i: int,
    start: int,
    acc: Seq<Seq<char>>,
)
    requires
        0 <= start <= i <= p.len(),
    ensures
        name_parts(p + seq![','] + q, i, start, acc) == name_parts(
            p + seq![','] + q,
            p.len() as int + 1,
            p.len() as int + 1,
            name_parts(p, i, start, acc),
        ),
    decreases p.len() - i,
{
    let s = p + seq![','] + q;
    if i == p.len() {
        assert(s[i] == ',');
        assert(s.subrange(start, i) =~= p.subrange(start, i));
    } else {
        assert(s[i] == p[i]);
        if p[i] == ',' {
            assert(s.subrange(start, i) =~= p.subrange(start, i));
            let next = if start < i {
                acc.push(p.subrange(start, i))
            } else {
                acc
            };
            lemma_parts_before_comma(p, q, i + 1, i + 1, next);
        } else {
            lemma_parts_before_comma(p, q, i + 1, start, acc);
        }
    }
}

/// A list of names reads back as it was written.
pub proof fn law_listed_names_read_back(names: Seq<Seq<char>>)
    requires
        forall|i: int| 0 <= i < names.len() ==> can_be_listed(#[trigger] names[i]),
    ensures
        name_parts(joined(names, ","@), 0, 0, Seq::empty()) == names,
    decreases names.len(),
{
    reveal_strlit(",");
    let none = Seq::<Seq<char>>::empty();
    if names.len() == 0 {
        assert(names =~= none);
    } else {
        let last = names.last();
        assert(can_be_listed(names[names.len() - 1]));
        assert forall|k: int| 0 <= k < last.len() implies last[k] != ',' by {
            assert(last.contains(last[k]));
        }
        if names.len() == 1 {
            lemma_last_part(last, 0, 0, none);
            assert(last.subrange(0, last.len() as int) =~= last);
            assert(none.push(last) =~= names);
        } else {
            let front = names.drop_last();
            assert forall|i: int| 0 <= i < front.len() implies can_be_listed(
                #[trigger] front[i],
            ) by {
                assert(front[i] == names[i]);
            }
            law_listed_names_read_back(front);
            let p = joined(front, ","@);
            assert(","@ =~= seq![',']);
            let s = p + seq![','] + last;
            lemma_parts_before_comma(p, last, 0, 0, none);
            lemma_last_part(s, p.len() as int + 1, p.len() as int + 1, front);
            assert(s.subrange(p.len() as int + 1, s.len() as int) =~= last);
            assert(front.push(last) =~= names);
        }
    }
}

} // verus!
