//! How signals are named, and what of their traps is handed on.

use vstd::prelude::*;

use crate::numbers::{all_digits, decimal, law_decimal_reads_back};
use crate::text::{is_digit, upper};
use crate::traps::{
    described, ignored_among, not_ignored, signal_spec, touched_signals, trap_of, with_text,
    SignalSpecV, TrapActionV, TrapsV,
};

verus! {

/// A number stands for the signal with that number.
pub proof fn law_numbers_stand_for_signals(n: i32)
    ensures
        signal_spec(decimal(n as int)) == SignalSpecV::Number(n as int),
{
    law_decimal_reads_back(n as int);
    reveal_strlit("EXIT");
    let s = decimal(n as int);
    if n < 0 {
        assert(upper(s)[0] == '-');
    } else {
        crate::numbers::law_digits_read_back(n as nat);
        assert(is_digit(s[0]));
        assert(upper(s)[0] == s[0]);
    }
    assert("EXIT"@[0] == 'E');
}

/// `SIG` in front of a name may be left out.
pub proof fn law_sig_may_be_left_out(s: Seq<char>)
    requires
        !"SIG"@.is_prefix_of(upper(s)),
        signal_spec(s) is Name,
    ensures
        signal_spec("SIG"@ + s) == signal_spec(s),
        signal_spec(s) == SignalSpecV::Name("SIG"@ + upper(s)),
{
    reveal_strlit("SIG");
    reveal_strlit("EXIT");
    let t = "SIG"@ + s;
    assert(upper(t) =~= "SIG"@ + upper(s));
    assert(upper(t).subrange(0, 3) =~= "SIG"@);
    assert("SIG"@.is_prefix_of(upper(t)));
    assert(upper(t)[0] == 'S');
    assert("EXIT"@[0] == 'E');
    assert(t[0] == 'S');
    assert(!all_digits(t)) by {
        assert(!is_digit(t[0]));
    }
}

/// It does not matter for a name whether its letters are small.
pub proof fn law_small_letters_will_do(s: Seq<char>, t: Seq<char>)
    requires
        upper(s) == upper(t),
        signal_spec(s) is Name,
        signal_spec(t) is Name || signal_spec(t) is Exit,
    ensures
        signal_spec(s) == signal_spec(t),
{
}

/// The signals that are handed on as ignored are those whose trap is to do
/// nothing.
pub proof fn law_ignored_signals_are_handed_on(
    names: Seq<Seq<char>>,
    actions: Map<Seq<char>, TrapActionV>,
    signal: Seq<char>,
)
    ensures
        ignored_among(names, actions).contains(signal) <==> names.contains(signal)
            && actions[signal] is Ignore,
    decreases names.len(),
{
    if names.len() > 0 {
        let front = names.drop_last();
        let last = names.last();
        law_ignored_signals_are_handed_on(front, actions, signal);
        lemma_one_more(front, last, signal);
        assert(front.push(last) =~= names);
        lemma_one_more(ignored_among(front, actions), last, signal);
    }
}

/// The signals by which a terminal interrupts, stops or holds a program.
pub open spec fn of_the_terminal(signal: Seq<char>) -> bool {
    seq!["SIGTTOU"@, "SIGTTIN"@, "SIGTSTP"@, "SIGQUIT"@, "SIGINT"@].contains(signal)
}

/// A program that the shell starts gets back the system's way with every signal
/// that the shell handles or that a terminal sends, unless its trap is to do
/// nothing.
pub proof fn law_programs_get_the_usual_signals(t: TrapsV, signal: Seq<char>)
    ensures
        not_ignored(touched_signals(t), t.actions).contains(signal) <==> (t.handled.contains(signal)
            || of_the_terminal(signal)) && trap_of(t, Some(signal)) != Some(
            TrapActionV::Ignore,
        ),
{
    let a = with_text(t.handled, "SIGINT"@);
    let b = with_text(a, "SIGQUIT"@);
    let c = with_text(b, "SIGTSTP"@);
    let d = with_text(c, "SIGTTIN"@);
    lemma_one_more(t.handled, "SIGINT"@, signal);
    lemma_one_more(a, "SIGQUIT"@, signal);
    lemma_one_more(b, "SIGTSTP"@, signal);
    lemma_one_more(c, "SIGTTIN"@, signal);
    lemma_one_more(d, "SIGTTOU"@, signal);
    let terminal = seq!["SIGTTOU"@, "SIGTTIN"@, "SIGTSTP"@, "SIGQUIT"@, "SIGINT"@];
    assert(terminal[0] == "SIGTTOU"@ && terminal[1] == "SIGTTIN"@ && terminal[2] == "SIGTSTP"@
        && terminal[3] == "SIGQUIT"@ && terminal[4] == "SIGINT"@);
    lemma_not_ignored_are(touched_signals(t), t.actions, signal);
}

proof fn lemma_not_ignored_are(
    names: Seq<Seq<char>>,
    actions: Map<Seq<char>, TrapActionV>,
    signal: Seq<char>,
)
    ensures
        not_ignored(names, actions).contains(signal) <==> names.contains(signal) && !(
        actions.contains_key(signal) && actions[signal] is Ignore),
    decreases names.len(),
{
    if names.len() > 0 {
        let front = names.drop_last();
        let last = names.last();
        lemma_not_ignored_are(front, actions, signal);
        lemma_one_more(front, last, signal);
        assert(front.push(last) =~= names);
        lemma_one_more(not_ignored(front, actions), last, signal);
    }
}

proof fn lemma_one_more(s: Seq<Seq<char>>, t: Seq<char>, u: Seq<char>)
    ensures
        s.push(t).contains(u) <==> s.contains(u) || t == u,
{
    let p = s.push(t);
    assert(p[s.len() as int] == t);
    if s.contains(u) {
        let k = choose|k: int| 0 <= k < s.len() && s[k] == u;
        assert(p[k] == u);
    }
    if p.contains(u) {
        let k = choose|k: int| 0 <= k < p.len() && p[k] == u;
        if k < s.len() {
            assert(s[k] == u);
        }
    }
}

/// `trap -p` shows the trap of a signal as the command that sets it, and
/// nothing where there is none.
pub proof fn law_traps_are_shown_as_commands(t: TrapsV, signal: Seq<char>, source: Seq<char>)
    ensures
        trap_of(t, Some(signal)) is None ==> described(t, Some(signal)) is None,
        trap_of(t, Some(signal)) == Some(TrapActionV::Command(source)) ==> described(
            t,
            Some(signal),
        ) == Some(
            "trap"@ + seq![' '] + "--"@ + seq![' ', '\''] + source + seq!['\'', ' '] + signal,
        ),
        trap_of(t, Some(signal)) == Some(TrapActionV::Ignore) ==> described(t, Some(signal))
            == Some("trap"@ + seq![' '] + "--"@ + seq![' ', '\'', '\'', ' '] + signal),
        t.exit == Some(source) ==> described(t, None) == Some(
            "trap"@ + seq![' '] + "--"@ + seq![' ', '\''] + source + seq!['\'', ' '] + "EXIT"@,
        ),
        t.exit is None ==> described(t, None) is None,
{
    reveal_strlit("trap");
    reveal_strlit("--");
    reveal_strlit("trap -- '");
    reveal_strlit("' ");
    reveal_strlit("");
    let head = "trap"@ + seq![' '] + "--"@ + seq![' ', '\''];
    assert(head =~= "trap -- '"@);
    assert("' "@ =~= seq!['\'', ' ']);
    assert("trap -- '"@ + ""@ + "' "@ + signal =~= "trap"@ + seq![' '] + "--"@ + seq![
        ' ',
        '\'',
        '\'',
        ' ',
    ] + signal);
}

} // verus!
