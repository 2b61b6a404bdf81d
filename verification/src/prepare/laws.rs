//! In what order the parts of a command are made ready.

use vstd::prelude::*;

use crate::ast::{AssignmentV, RedirectOperator, RedirectV, SimpleCommandV};
use crate::brace::words_from;
use crate::expand::rules::{word_fields, word_pattern, word_text, AnswersV, OutV, StopV, UsedV};
use crate::glob::glob_matches;
use crate::prepare::{
    assigned_values, expanded_redirects, last_input, last_output, pattern_matches, prepared,
    variants_fields, words_fields, ExpandedRedirectV,
};
use crate::shell::ShellV;
use crate::token::WordV;

verus! {

/// `second` is what comes out when the same is done to what `first` left, and
/// nothing is done once `first` has failed.
pub open spec fn follows<T>(first: OutV<T>, second: OutV<T>, both: OutV<T>) -> bool {
    if first.result is Ok {
        both == second
    } else {
        both == first
    }
}

/// Words are expanded from left to right: the words of two lists are those of
/// the first, and then those of the second with what the first has left. A word
/// without braces gives its own fields, behind those that are there.
pub proof fn law_words_are_expanded_in_turn(
    u: Seq<WordV>,
    v: Seq<WordV>,
    w: WordV,
    sh: ShellV,
    used: UsedV,
    a: AnswersV,
    acc: Seq<Seq<char>>,
)
    ensures
        words_fields(Seq::empty(), 0, sh, used, a, acc) == (OutV {
            shell: sh,
            used,
            result: Ok::<Seq<Seq<char>>, StopV>(acc),
        }),
        ({
            let first = words_fields(u, 0, sh, used, a, acc);
            follows(
                first,
                words_fields(v, 0, first.shell, first.used, a, first.result->Ok_0),
                words_fields(u + v, 0, sh, used, a, acc),
            )
        }),
        words_from(w, 0) == seq![w] ==> {
            let o = words_fields(seq![w], 0, sh, used, a, acc);
            let alone = word_fields(w, sh, used, a);
            &&& o.shell == alone.shell
            &&& o.used == alone.used
            &&& o.result is Ok <==> alone.result is Ok
            &&& o.result is Ok ==> o.result->Ok_0 == acc + alone.result->Ok_0
            &&& o.result is Err ==> o.result->Err_0 == alone.result->Err_0
        },
{
    lemma_words(u, v, 0, sh, used, a, acc);
    reveal_with_fuel(words_fields, 2);
    reveal_with_fuel(variants_fields, 2);
}

proof fn lemma_words(
    u: Seq<WordV>,
    v: Seq<WordV>,
    i: int,
    sh: ShellV,
    used: UsedV,
    a: AnswersV,
    acc: Seq<Seq<char>>,
)
    requires
        0 <= i <= u.len(),
    ensures
        ({
            let first = words_fields(u, i, sh, used, a, acc);
            follows(
                first,
                words_fields(v, 0, first.shell, first.used, a, first.result->Ok_0),
                words_fields(u + v, i, sh, used, a, acc),
            )
        }),
    decreases u.len() - i,
{
    if i < u.len() {
        assert((u + v)[i] == u[i]);
        let o = variants_fields(words_from(u[i], 0), 0, sh, used, a, acc);
        if let Ok(fields) = o.result {
            lemma_words(u, v, i + 1, o.shell, o.used, a, fields);
        }
    } else {
        lemma_later_words(u, v, 0, sh, used, a, acc);
    }
}

proof fn lemma_later_words(
    u: Seq<WordV>,
    v: Seq<WordV>,
    i: int,
    sh: ShellV,
    used: UsedV,
    a: AnswersV,
    acc: Seq<Seq<char>>,
)
    requires
        0 <= i <= v.len(),
    ensures
        words_fields(u + v, u.len() + i, sh, used, a, acc) == words_fields(v, i, sh, used, a, acc),
    decreases v.len() - i,
{
    if i < v.len() {
        assert((u + v)[u.len() + i] == v[i]);
        let o = variants_fields(words_from(v[i], 0), 0, sh, used, a, acc);
        if let Ok(fields) = o.result {
            lemma_later_words(u, v, i + 1, o.shell, o.used, a, fields);
        }
    }
}

/// The words that braces make of a word give their fields from left to right.
pub proof fn law_brace_words_give_fields_in_turn(
    variants: Seq<WordV>,
    k: int,
    sh: ShellV,
    used: UsedV,
    a: AnswersV,
    acc: Seq<Seq<char>>,
)
    requires
        0 <= k < variants.len(),
        word_fields(variants[k], sh, used, a).result is Ok,
    ensures
        ({
            let o = word_fields(variants[k], sh, used, a);
            variants_fields(variants, k, sh, used, a, acc) == variants_fields(
                variants.skip(k + 1),
                0,
                o.shell,
                o.used,
                a,
                acc + o.result->Ok_0,
            )
        }),
{
    let o = word_fields(variants[k], sh, used, a);
    lemma_later_variants(variants, k + 1, 0, o.shell, o.used, a, acc + o.result->Ok_0);
}

proof fn lemma_later_variants(
    variants: Seq<WordV>,
    k: int,
    i: int,
    sh: ShellV,
    used: UsedV,
    a: AnswersV,
    acc: Seq<Seq<char>>,
)
    requires
        0 <= k <= variants.len(),
        0 <= i <= variants.len() - k,
    ensures
        variants_fields(variants, k + i, sh, used, a, acc) == variants_fields(
            variants.skip(k),
            i,
            sh,
            used,
            a,
            acc,
        ),
    decreases variants.len() - k - i,
{
    if i < variants.len() - k {
        assert(variants.skip(k)[i] == variants[k + i]);
        let o = word_fields(variants[k + i], sh, used, a);
        if let Ok(fields) = o.result {
            lemma_later_variants(variants, k, i + 1, o.shell, o.used, a, acc + fields);
        }
    }
}

/// Assignments are made ready from left to right, each with its own name and
/// with its value as the shell then expands it, behind those that are there.
pub proof fn law_assignments_are_expanded_in_turn(
    s: Seq<AssignmentV>,
    x: AssignmentV,
    i: int,
    sh: ShellV,
    used: UsedV,
    a: AnswersV,
    acc: Seq<(Seq<char>, Seq<char>)>,
)
    requires
        0 <= i <= s.len(),
    ensures
        ({
            let first = assigned_values(s, i, sh, used, a, acc);
            let both = assigned_values(s.push(x), i, sh, used, a, acc);
            let value = word_text(x.value, first.shell, first.used, a);
            &&& first.result is Ok ==> first.result->Ok_0.len() == acc.len() + s.len() - i
            &&& first.result is Err ==> both == first
            &&& first.result is Ok ==> both.shell == value.shell && both.used == value.used
            &&& first.result is Ok && value.result is Ok ==> both.result
                == Ok::<Seq<(Seq<char>, Seq<char>)>, StopV>(
                first.result->Ok_0.push((x.name, value.result->Ok_0)),
            )
            &&& first.result is Ok && value.result is Err ==> both.result is Err
                && both.result->Err_0 == value.result->Err_0
        }),
    decreases s.len() - i,
{
    if i < s.len() {
        assert(s.push(x)[i] == s[i]);
        let o = word_text(s[i].value, sh, used, a);
        if let Ok(v) = o.result {
            law_assignments_are_expanded_in_turn(
                s,
                x,
                i + 1,
                o.shell,
                o.used,
                a,
                acc.push((s[i].name, v)),
            );
        }
    } else {
        reveal_with_fuel(assigned_values, 2);
        assert(s.push(x)[i] == x);
    }
}

/// Redirections are made ready from left to right, each with its own operator
/// and with its target as the shell then expands it. One without a number is
/// about the standard input where it reads, and about the standard output where
/// it writes.
pub proof fn law_redirections_are_expanded_in_turn(
    s: Seq<RedirectV>,
    x: RedirectV,
    i: int,
    sh: ShellV,
    used: UsedV,
    a: AnswersV,
    acc: Seq<ExpandedRedirectV>,
)
    requires
        0 <= i <= s.len(),
    ensures
        ({
            let first = expanded_redirects(s, i, sh, used, a, acc);
            let both = expanded_redirects(s.push(x), i, sh, used, a, acc);
            let target = word_text(x.target, first.shell, first.used, a);
            let fd: u32 = match (x.fd, x.operator) {
                (Some(n), _) => n,
                (None, RedirectOperator::Input) => 0,
                (None, RedirectOperator::Output) => 1,
                (None, RedirectOperator::Append) => 1,
            };
            &&& first.result is Ok ==> first.result->Ok_0.len() == acc.len() + s.len() - i
            &&& first.result is Err ==> both == first
            &&& first.result is Ok ==> both.shell == target.shell && both.used == target.used
            &&& first.result is Ok && target.result is Ok ==> both.result
                == Ok::<Seq<ExpandedRedirectV>, StopV>(
                first.result->Ok_0.push(
                    ExpandedRedirectV { fd, operator: x.operator, target: target.result->Ok_0 },
                ),
            )
            &&& first.result is Ok && target.result is Err ==> both.result is Err
                && both.result->Err_0 == target.result->Err_0
        }),
    decreases s.len() - i,
{
    if i < s.len() {
        let r = s[i];
        assert(s.push(x)[i] == r);
        let o = word_text(r.target, sh, used, a);
        if let Ok(target) = o.result {
            law_redirections_are_expanded_in_turn(
                s,
                x,
                i + 1,
                o.shell,
                o.used,
                a,
                acc.push(
                    ExpandedRedirectV {
                        fd: crate::prepare::redirected_fd(r.fd, r.operator),
                        operator: r.operator,
                        target,
                    },
                ),
            );
        }
    } else {
        reveal_with_fuel(expanded_redirects, 2);
        assert(s.push(x)[i] == x);
    }
}

/// The redirection writes to the standard output.
pub open spec fn writes_output(r: ExpandedRedirectV) -> bool {
    r.fd == 1 && (r.operator is Output || r.operator is Append)
}

/// The redirection reads the standard input.
pub open spec fn reads_input(r: ExpandedRedirectV) -> bool {
    r.fd == 0 && r.operator is Input
}

/// Of several redirections of the standard output the last decides, also on
/// whether the file is kept; and of several of the standard input too. Without
/// one there is no file.
pub proof fn law_the_last_redirection_decides(s: Seq<ExpandedRedirectV>, k: int)
    ensures
        (forall|i: int| 0 <= i < s.len() ==> !writes_output(#[trigger] s[i])) ==> last_output(
            s,
        ) is None,
        (forall|i: int| 0 <= i < s.len() ==> !reads_input(#[trigger] s[i])) ==> last_input(
            s,
        ) is None,
        0 <= k < s.len() && writes_output(s[k]) && (forall|i: int|
            k < i < s.len() ==> !writes_output(#[trigger] s[i])) ==> last_output(s) == Some(
            (s[k].target, s[k].operator is Append),
        ),
        0 <= k < s.len() && reads_input(s[k]) && (forall|i: int|
            k < i < s.len() ==> !reads_input(#[trigger] s[i])) ==> last_input(s) == Some(
            s[k].target,
        ),
    decreases s.len(),
{
    if s.len() > 0 {
        let front = s.drop_last();
        assert(s.last() == s[s.len() - 1]);
        assert forall|i: int| 0 <= i < front.len() implies #[trigger] front[i] == s[i] by {
        }
        assert(writes_output(s[s.len() - 1]) ==> s.last().operator is Append
            || s.last().operator is Output);
        law_the_last_redirection_decides(front, k);
    }
}

/// The assignments of a command are made ready first, then its name with its
/// arguments, and its redirections last, each with what the others have left.
pub proof fn law_commands_are_made_ready_in_order(
    cmd: SimpleCommandV,
    sh: ShellV,
    a: AnswersV,
)
    ensures
        prepared(cmd, sh, a).result matches Ok(p) ==> {
            let none = UsedV { outputs: 0, listings: 0 };
            let x = assigned_values(cmd.assignments, 0, sh, none, a, Seq::empty());
            &&& x.result == Ok::<Seq<(Seq<char>, Seq<char>)>, StopV>(
                p.assignments,
            )
            &&& cmd.name is None ==> {
                &&& p.fields is None
                &&& p.redirects.len() == 0
                &&& prepared(cmd, sh, a).shell == x.shell
            }
            &&& cmd.name matches Some(name) ==> {
                let words = seq![name] + cmd.args;
                let y = words_fields(words, 0, x.shell, x.used, a, Seq::empty());
                let z = expanded_redirects(cmd.redirects, 0, y.shell, y.used, a, Seq::empty());
                &&& p.fields is Some
                &&& p.fields->Some_0.len() > 0 ==> {
                    &&& y.result == Ok::<Seq<Seq<char>>, StopV>(
                        p.fields->Some_0,
                    )
                    &&& z.result == Ok::<Seq<ExpandedRedirectV>, StopV>(
                        p.redirects,
                    )
                    &&& prepared(cmd, sh, a).shell == z.shell
                    &&& prepared(cmd, sh, a).used == z.used
                }
            }
        },
{
    let none = UsedV { outputs: 0, listings: 0 };
    let x = assigned_values(cmd.assignments, 0, sh, none, a, Seq::empty());
    if let Some(name) = cmd.name {
        law_words_are_expanded_in_turn(
            seq![name],
            cmd.args,
            name,
            x.shell,
            x.used,
            a,
            Seq::empty(),
        );
    }
}

/// A text matches a list of patterns where it matches one of them, and the
/// patterns behind that one are not expanded.
pub proof fn law_one_pattern_is_enough(
    u: Seq<WordV>,
    p: WordV,
    i: int,
    text: Seq<char>,
    sh: ShellV,
    used: UsedV,
    a: AnswersV,
)
    requires
        0 <= i <= u.len(),
    ensures
        ({
            let first = pattern_matches(u, i, text, sh, used, a);
            let both = pattern_matches(u.push(p), i, text, sh, used, a);
            let last = word_pattern(p, first.shell, first.used, a);
            &&& first.result is Err ==> both == first
            &&& first.result matches Ok(matched) ==> {
                &&& matched ==> both == first
                &&& !matched ==> both.shell == last.shell && both.used == last.used
                &&& !matched && last.result is Ok ==> both.result == Ok::<
                    bool,
                    StopV,
                >(glob_matches(last.result->Ok_0, text))
                &&& !matched && last.result is Err ==> both.result is Err && both.result->Err_0
                    == last.result->Err_0
            }
        }),
        pattern_matches(Seq::empty(), 0, text, sh, used, a).result == Ok::<
            bool,
            StopV,
        >(false),
    decreases u.len() - i,
{
    if i < u.len() {
        assert(u.push(p)[i] == u[i]);
        let o = word_pattern(u[i], sh, used, a);
        if o.result is Ok {
            law_one_pattern_is_enough(u, p, i + 1, text, o.shell, o.used, a);
        }
    } else {
        reveal_with_fuel(pattern_matches, 2);
        assert(u.push(p)[i] == p);
    }
}

} // verus!
