//! What a word expands to.
//!
//! Expansion may need the output of a command or the entries of the current
//! directory. These come as answers that are used up in order; where there are
//! none left, expansion stops with the request for the next one.

use vstd::prelude::*;

use super::arith::eval;
use super::ExpandErrorV;
use crate::arithmetic::arith_error_text;
use crate::arithmetic::rules::{body as arith_body, expression, lemma_body_weight};
use crate::fields::{field_pattern, field_text, has_meta, paths, split};
use crate::glob::{prefix_removed, suffix_removed};
use crate::lexer::laws::{lemma_quoted_content_weight, lemma_word_content_weight};
use crate::lexer::rules::{at, bare_parameter, lemma_digits_end, lemma_name_end, Boundary};
use crate::numbers::decimal;
use crate::parameter::{
    expansion, operand, param_error_text, NullMode, ParameterExpansionV, ParameterOperatorV,
};
use crate::segment::{FieldV, SegmentV};
use crate::shell::{lookup, ShellV};
use crate::text::joined;
use crate::token::{
    lemma_weight_in_word, weight, weights, ParameterV, SpecialParameter, WordSegmentV, WordV,
};

verus! {

// ---- answers ------------------------------------------------------------------------------

/// The answers that are there.
pub ghost struct AnswersV {
    /// What each command substitution wrote, or why it could not be run.
    pub outputs: Seq<Result<Seq<char>, Seq<char>>>,
    /// The entries of the current directory, each time they were asked for.
    pub listings: Seq<Seq<Seq<char>>>,
}

/// How many answers have been used.
pub ghost struct UsedV {
    pub outputs: nat,
    pub listings: nat,
}

/// A request for an answer.
pub ghost enum RequestV {
    /// The output of a command.
    CommandOutput(Seq<char>),
    /// The entries of the current directory.
    DirectoryEntries,
}

/// Why expansion stopped.
pub ghost enum StopV {
    /// It failed.
    Failed(ExpandErrorV),
    /// It needs an answer.
    Needs(RequestV),
}

/// What expansion gives: the shell after its assignments, the answers that were
/// used, and the result.
pub ghost struct OutV<T> {
    pub shell: ShellV,
    pub used: UsedV,
    pub result: Result<T, StopV>,
}

/// A failure.
pub open spec fn failed<T>(sh: ShellV, used: UsedV, e: ExpandErrorV) -> OutV<T> {
    OutV { shell: sh, used, result: Err(StopV::Failed(e)) }
}

/// A result.
pub open spec fn done<T>(sh: ShellV, used: UsedV, v: T) -> OutV<T> {
    OutV { shell: sh, used, result: Ok(v) }
}

/// The same stop, for another kind of result.
pub open spec fn stopped<T, U>(o: OutV<T>) -> OutV<U> {
    OutV { shell: o.shell, used: o.used, result: Err(o.result->Err_0) }
}

// ---- parameters -----------------------------------------------------------------------------

/// The value of `IFS`, which has one even where it is unset.
pub open spec fn ifs(sh: ShellV) -> Seq<char> {
    match lookup(sh, "IFS"@) {
        Some(s) => s,
        None => " \t\n"@,
    }
}

/// What joins the positional parameters in one text: the first character of
/// `IFS`, if it has one; a space where it is unset.
pub open spec fn separator(sh: ShellV) -> Seq<char> {
    match lookup(sh, "IFS"@) {
        None => seq![' '],
        Some(s) => if s.len() > 0 {
            seq![s[0]]
        } else {
            Seq::empty()
        },
    }
}

/// The positional parameters as one text.
pub open spec fn joined_params(sh: ShellV) -> Seq<char> {
    joined(sh.positional, separator(sh))
}

/// The positional parameter with number `n`.
pub open spec fn positional_param(sh: ShellV, n: u32) -> Option<Seq<char>> {
    if 0 < n <= sh.positional.len() {
        Some(sh.positional[n - 1])
    } else {
        None
    }
}

/// The text, or the empty text.
pub open spec fn or_empty(t: Option<Seq<char>>) -> Seq<char> {
    match t {
        Some(t) => t,
        None => Seq::empty(),
    }
}

/// `@` or `*`.
pub open spec fn is_all_params(p: ParameterV) -> bool {
    p == ParameterV::Special(SpecialParameter::At) || p == ParameterV::Special(
        SpecialParameter::Star,
    )
}

/// The value of a parameter as one text.
pub open spec fn parameter_value(p: ParameterV, sh: ShellV) -> Seq<char> {
    match p {
        ParameterV::Name(name) => or_empty(lookup(sh, name)),
        ParameterV::Positional(n) => or_empty(positional_param(sh, n)),
        ParameterV::Special(SpecialParameter::Question) => decimal(sh.last_status as int),
        ParameterV::Special(SpecialParameter::Zero) => sh.arg0,
        ParameterV::Special(SpecialParameter::Hash) => decimal(sh.positional.len() as int),
        ParameterV::Special(SpecialParameter::At) => joined_params(sh),
        ParameterV::Special(SpecialParameter::Star) => joined_params(sh),
        ParameterV::Special(SpecialParameter::Dash) => Seq::empty(),
        ParameterV::Special(SpecialParameter::Dollar) => decimal(sh.pid as int),
        ParameterV::Special(SpecialParameter::Bang) => match sh.last_background_pid {
            Some(pid) => decimal(pid as int),
            None => Seq::empty(),
        },
    }
}

/// A parameter has a value, which may be empty. `@` and `*` have one if there
/// is a positional parameter.
pub open spec fn is_parameter_set(p: ParameterV, sh: ShellV) -> bool {
    match p {
        ParameterV::Name(name) => lookup(sh, name) is Some,
        ParameterV::Positional(n) => positional_param(sh, n) is Some,
        ParameterV::Special(_) => is_all_params(p) ==> sh.positional.len() > 0,
    }
}

/// A parameter as messages show it.
pub open spec fn parameter_name(p: ParameterV) -> Seq<char> {
    match p {
        ParameterV::Name(name) => name,
        ParameterV::Positional(n) => decimal(n as int),
        ParameterV::Special(SpecialParameter::At) => "@"@,
        ParameterV::Special(SpecialParameter::Star) => "*"@,
        ParameterV::Special(SpecialParameter::Hash) => "#"@,
        ParameterV::Special(SpecialParameter::Question) => "?"@,
        ParameterV::Special(SpecialParameter::Dash) => "-"@,
        ParameterV::Special(SpecialParameter::Dollar) => "$"@,
        ParameterV::Special(SpecialParameter::Bang) => "!"@,
        ParameterV::Special(SpecialParameter::Zero) => "0"@,
    }
}

// ---- segments -------------------------------------------------------------------------------

/// Text from the source: it is not split.
pub open spec fn literal_segment(t: Seq<char>) -> SegmentV {
    SegmentV {
        text: t,
        glob_eligible: true,
        split_eligible: false,
        force_field_break_after: false,
    }
}

/// Quoted text.
pub open spec fn quoted_segment(t: Seq<char>) -> SegmentV {
    SegmentV {
        text: t,
        glob_eligible: false,
        split_eligible: false,
        force_field_break_after: false,
    }
}

/// The unquoted result of an expansion.
pub open spec fn expanded_segment(t: Seq<char>) -> SegmentV {
    SegmentV {
        text: t,
        glob_eligible: true,
        split_eligible: true,
        force_field_break_after: false,
    }
}

/// A segment inside double quotes.
pub open spec fn in_quotes(s: SegmentV) -> SegmentV {
    SegmentV { glob_eligible: false, split_eligible: false, ..s }
}

/// The positional parameters, each a field of its own.
pub open spec fn params_as_fields(sh: ShellV, glob_eligible: bool) -> FieldV {
    Seq::new(
        sh.positional.len(),
        |i: int|
            SegmentV {
                text: sh.positional[i],
                glob_eligible,
                split_eligible: false,
                force_field_break_after: i + 1 < sh.positional.len(),
            },
    )
}

/// `$@` or `$*` outside quotes: the parameters joined, to be split again; or
/// each a field of its own where `IFS` is empty and nothing is split.
pub open spec fn unquoted_params(sh: ShellV) -> FieldV {
    if lookup(sh, "IFS"@) == Some(""@) {
        params_as_fields(sh, true)
    } else {
        seq![expanded_segment(joined(sh.positional, first_separator(sh)))]
    }
}

/// The first character of `IFS`, or a space.
pub open spec fn first_separator(sh: ShellV) -> Seq<char> {
    match lookup(sh, "IFS"@) {
        Some(s) if s.len() > 0 => seq![s[0]],
        _ => seq![' '],
    }
}

/// `$@` or `$*` in quotes or outside.
pub open spec fn all_params(p: SpecialParameter, sh: ShellV, in_double_quotes: bool) -> FieldV {
    if !in_double_quotes {
        unquoted_params(sh)
    } else if p is At {
        params_as_fields(sh, false)
    } else {
        seq![quoted_segment(joined_params(sh))]
    }
}

/// The output of a command without the newlines at its end.
pub open spec fn trimmed(t: Seq<char>) -> Seq<char>
    decreases t.len(),
{
    if t.len() > 0 && t.last() == '\n' {
        trimmed(t.drop_last())
    } else {
        t
    }
}

/// The output of a command substitution.
pub open spec fn command_output(body: Seq<char>, sh: ShellV, used: UsedV, a: AnswersV) -> OutV<
    Seq<char>,
> {
    if used.outputs < a.outputs.len() {
        let after = UsedV { outputs: used.outputs + 1, ..used };
        match a.outputs[used.outputs as int] {
            Ok(t) => done(sh, after, trimmed(t)),
            Err(m) => failed(sh, after, ExpandErrorV::CommandSubstitutionFailed(m)),
        }
    } else {
        OutV { shell: sh, used, result: Err(StopV::Needs(RequestV::CommandOutput(body))) }
    }
}

/// A tilde at the start of a word stands for the home directory: the text after
/// it, and that directory.
pub open spec fn tilde(w: WordV, sh: ShellV) -> Option<(Seq<char>, Seq<char>)> {
    if w.len() > 0 {
        match w[0] {
            WordSegmentV::Literal(t) => if t.len() > 0 && t[0] == '~' && (t.len() == 1 || t[1]
                == '/') {
                match lookup(sh, "HOME"@) {
                    Some(home) => Some((t.skip(1), home)),
                    None => None,
                }
            } else {
                None
            },
            _ => None,
        }
    } else {
        None
    }
}

/// A word expanded, but not yet split.
pub open spec fn word_segments(w: WordV, sh: ShellV, used: UsedV, a: AnswersV) -> OutV<FieldV>
    decreases weights(w), 4nat, 0int,
{
    match tilde(w, sh) {
        Some((rest, home)) => segments_from(
            w,
            1,
            sh,
            used,
            a,
            false,
            seq![literal_segment(home), literal_segment(rest)],
        ),
        None => segments_from(w, 0, sh, used, a, false, Seq::empty()),
    }
}

/// A word expanded to one text.
pub open spec fn word_text(w: WordV, sh: ShellV, used: UsedV, a: AnswersV) -> OutV<Seq<char>>
    decreases weights(w), 5nat, 0int,
{
    let o = word_segments(w, sh, used, a);
    match o.result {
        Ok(segs) => done(o.shell, o.used, field_text(segs)),
        Err(_) => stopped(o),
    }
}

/// A word expanded to a pattern.
pub open spec fn word_pattern(w: WordV, sh: ShellV, used: UsedV, a: AnswersV) -> OutV<Seq<char>>
    decreases weights(w), 5nat, 0int,
{
    let o = word_segments(w, sh, used, a);
    match o.result {
        Ok(segs) => done(o.shell, o.used, field_pattern(segs)),
        Err(_) => stopped(o),
    }
}

/// Segments `i` on of a word expanded, behind `acc`.
pub open spec fn segments_from(
    w: WordV,
    i: int,
    sh: ShellV,
    used: UsedV,
    a: AnswersV,
    in_double_quotes: bool,
    acc: FieldV,
) -> OutV<FieldV>
    decreases weights(w), 3nat, w.len() - i,
    via segments_from_decreases
{
    if i < 0 || i >= w.len() {
        done(sh, used, acc)
    } else {
        let o = segment(w[i], sh, used, a, in_double_quotes);
        match o.result {
            Ok(segs) => segments_from(
                w,
                i + 1,
                o.shell,
                o.used,
                a,
                in_double_quotes,
                acc + segs,
            ),
            Err(_) => o,
        }
    }
}

#[via_fn]
proof fn segments_from_decreases(
    w: WordV,
    i: int,
    sh: ShellV,
    used: UsedV,
    a: AnswersV,
    in_double_quotes: bool,
    acc: FieldV,
) {
    if 0 <= i < w.len() {
        lemma_weight_in_word(w, i);
    }
}

/// One text as the result of an expansion.
pub open spec fn as_segment(o: OutV<Seq<char>>) -> OutV<FieldV> {
    match o.result {
        Ok(t) => done(o.shell, o.used, seq![expanded_segment(t)]),
        Err(_) => stopped(o),
    }
}

/// One segment expanded.
pub open spec fn segment(
    seg: WordSegmentV,
    sh: ShellV,
    used: UsedV,
    a: AnswersV,
    in_double_quotes: bool,
) -> OutV<FieldV>
    decreases weight(seg), 2nat, 0int,
{
    match seg {
        WordSegmentV::Literal(t) => done(sh, used, seq![literal_segment(t)]),
        WordSegmentV::SingleQuoted(t) => done(sh, used, seq![quoted_segment(t)]),
        WordSegmentV::DoubleQuoted(inner) => if inner.len() == 0 {
            done(sh, used, seq![quoted_segment(Seq::empty())])
        } else {
            let o = segments_from(inner, 0, sh, used, a, true, Seq::empty());
            match o.result {
                Ok(segs) => done(
                    o.shell,
                    o.used,
                    segs.map_values(|s: SegmentV| in_quotes(s)),
                ),
                Err(_) => o,
            }
        },
        WordSegmentV::Parameter(ParameterV::Special(SpecialParameter::At)) => done(
            sh,
            used,
            all_params(SpecialParameter::At, sh, in_double_quotes),
        ),
        WordSegmentV::Parameter(ParameterV::Special(SpecialParameter::Star)) => done(
            sh,
            used,
            all_params(SpecialParameter::Star, sh, in_double_quotes),
        ),
        WordSegmentV::Parameter(p) => done(
            sh,
            used,
            seq![expanded_segment(parameter_value(p, sh))],
        ),
        WordSegmentV::CommandSubstitution(_, body) => as_segment(
            command_output(body, sh, used, a),
        ),
        WordSegmentV::ComplexParameterExpansion(body) => as_segment(
            parameter_expansion(body, in_double_quotes, sh, used, a),
        ),
        WordSegmentV::ArithmeticExpansion(body) => as_segment(
            arithmetic_expansion(body, sh, used, a),
        ),
    }
}

/// `${body}`.
pub open spec fn parameter_expansion(
    body: Seq<char>,
    in_double_quotes: bool,
    sh: ShellV,
    used: UsedV,
    a: AnswersV,
) -> OutV<Seq<char>>
    decreases body.len() + 1, 1nat, 0int,
    via parameter_expansion_decreases
{
    match expansion(body, in_double_quotes) {
        Err(e) => failed(
            sh,
            used,
            ExpandErrorV::ParameterExpansionSyntax(param_error_text(e)),
        ),
        Ok(e) => operation(e, sh, used, a),
    }
}

#[via_fn]
proof fn parameter_expansion_decreases(
    body: Seq<char>,
    in_double_quotes: bool,
    sh: ShellV,
    used: UsedV,
    a: AnswersV,
) {
    lemma_operand_weight(body, in_double_quotes);
}

/// The weight of the operand of an expansion.
pub open spec fn operand_weight(e: ParameterExpansionV) -> nat {
    match e.operator {
        ParameterOperatorV::Length => 0,
        ParameterOperatorV::UseDefault { word, .. } => weights(word),
        ParameterOperatorV::AssignDefault { word, .. } => weights(word),
        ParameterOperatorV::ErrorIfUnsetOrNull { word, .. } => weights(word),
        ParameterOperatorV::UseAlternative { word, .. } => weights(word),
        ParameterOperatorV::RemovePrefix { pattern, .. } => weights(pattern),
        ParameterOperatorV::RemoveSuffix { pattern, .. } => weights(pattern),
    }
}

/// A parameter counts as empty for an operator.
pub open spec fn counts_as_empty(p: ParameterV, mode: NullMode, sh: ShellV) -> bool {
    !is_parameter_set(p, sh) || (mode is UnsetOrNull && parameter_value(p, sh).len() == 0)
}

/// The message for a parameter that has to be set.
pub open spec fn missing_message(p: ParameterV, mode: NullMode, text: Seq<char>) -> Seq<char> {
    parameter_name(p) + ": "@ + (if text.len() > 0 {
        text
    } else if mode is UnsetOrNull {
        "parameter null or not set"@
    } else {
        "parameter not set"@
    })
}

/// The shell after a value was assigned to a variable of the shell.
pub open spec fn text_assigned(sh: ShellV, name: Seq<char>, value: Seq<char>) -> ShellV {
    ShellV { vars: sh.vars.insert(name, value), ..sh }
}

/// Assigns the value that was computed, if one was.
pub open spec fn assign_result(p: ParameterV, o: OutV<Seq<char>>) -> OutV<Seq<char>> {
    match o.result {
        Err(_) => o,
        Ok(value) => match p {
            ParameterV::Name(name) => done(text_assigned(o.shell, name, value), o.used, value),
            _ => failed(o.shell, o.used, ExpandErrorV::CannotAssign(parameter_name(p))),
        },
    }
}

/// The failure with the message that was computed, if one was.
pub open spec fn missing(p: ParameterV, mode: NullMode, o: OutV<Seq<char>>) -> OutV<Seq<char>> {
    match o.result {
        Err(_) => o,
        Ok(text) => failed(
            o.shell,
            o.used,
            ExpandErrorV::ParameterNullOrUnset(missing_message(p, mode, text)),
        ),
    }
}

/// The value of an expansion.
pub open spec fn operation(e: ParameterExpansionV, sh: ShellV, used: UsedV, a: AnswersV) -> OutV<
    Seq<char>,
>
    decreases operand_weight(e) + 1, 0nat, 0int,
{
    let p = e.parameter;
    let current = parameter_value(p, sh);
    match e.operator {
        ParameterOperatorV::Length => done(
            sh,
            used,
            if is_all_params(p) {
                decimal(sh.positional.len() as int)
            } else {
                decimal(current.len() as int)
            },
        ),
        ParameterOperatorV::UseDefault { null_mode, word } => if counts_as_empty(
            p,
            null_mode,
            sh,
        ) {
            word_text(word, sh, used, a)
        } else {
            done(sh, used, current)
        },
        ParameterOperatorV::AssignDefault { null_mode, word } => if counts_as_empty(
            p,
            null_mode,
            sh,
        ) {
            assign_result(p, word_text(word, sh, used, a))
        } else {
            done(sh, used, current)
        },
        ParameterOperatorV::ErrorIfUnsetOrNull { null_mode, word } => if counts_as_empty(
            p,
            null_mode,
            sh,
        ) {
            missing(p, null_mode, word_text(word, sh, used, a))
        } else {
            done(sh, used, current)
        },
        ParameterOperatorV::UseAlternative { null_mode, word } => if counts_as_empty(
            p,
            null_mode,
            sh,
        ) {
            done(sh, used, Seq::empty())
        } else {
            word_text(word, sh, used, a)
        },
        ParameterOperatorV::RemovePrefix { greedy, pattern } => {
            let o = word_pattern(pattern, sh, used, a);
            match o.result {
                Ok(pat) => done(o.shell, o.used, prefix_removed(current, pat, greedy)),
                Err(_) => o,
            }
        },
        ParameterOperatorV::RemoveSuffix { greedy, pattern } => {
            let o = word_pattern(pattern, sh, used, a);
            match o.result {
                Ok(pat) => done(o.shell, o.used, suffix_removed(current, pat, greedy)),
                Err(_) => o,
            }
        },
    }
}

/// The value of an arithmetic expression, from its text.
pub open spec fn arithmetic_value(text: Seq<char>, sh: ShellV, used: UsedV) -> OutV<Seq<char>> {
    match expression(text) {
        Err(e) => failed(sh, used, ExpandErrorV::ArithmeticSyntax(arith_error_text(e))),
        Ok(e) => {
            let r = eval(e, sh, 0);
            match r.value {
                Ok(n) => done(r.shell, used, decimal(n as int)),
                Err(e) => failed(r.shell, used, e),
            }
        },
    }
}

/// `$((body))`: the body is expanded as if in double quotes, and the text that
/// comes out is evaluated.
pub open spec fn arithmetic_expansion(
    body: Seq<char>,
    sh: ShellV,
    used: UsedV,
    a: AnswersV,
) -> OutV<Seq<char>>
    decreases body.len() + 1, 1nat, 0int,
    via arithmetic_expansion_decreases
{
    match arith_body(body, 0, Seq::empty(), Seq::empty()) {
        Err(e) => failed(sh, used, ExpandErrorV::ArithmeticSyntax(arith_error_text(e))),
        Ok(w) => {
            let o = segments_from(w, 0, sh, used, a, true, Seq::empty());
            match o.result {
                Err(_) => stopped(o),
                Ok(segs) => arithmetic_value(field_text(segs), o.shell, o.used),
            }
        },
    }
}

#[via_fn]
proof fn arithmetic_expansion_decreases(body: Seq<char>, sh: ShellV, used: UsedV, a: AnswersV) {
    lemma_body_weight(body, 0, Seq::empty(), Seq::empty(), body.len());
}

// ---- fields ---------------------------------------------------------------------------------

/// Fields `i` on expanded to paths, behind `acc`.
pub open spec fn paths_from(
    fields: Seq<FieldV>,
    i: int,
    sh: ShellV,
    used: UsedV,
    a: AnswersV,
    acc: Seq<Seq<char>>,
) -> OutV<Seq<Seq<char>>>
    decreases fields.len() - i,
{
    if i < 0 || i >= fields.len() {
        done(sh, used, acc)
    } else if !has_meta(fields[i]) {
        paths_from(fields, i + 1, sh, used, a, acc.push(field_text(fields[i])))
    } else if used.listings < a.listings.len() {
        paths_from(
            fields,
            i + 1,
            sh,
            UsedV { listings: used.listings + 1, ..used },
            a,
            acc + paths(fields[i], a.listings[used.listings as int]),
        )
    } else {
        OutV { shell: sh, used, result: Err(StopV::Needs(RequestV::DirectoryEntries)) }
    }
}

/// A word expanded to fields.
pub open spec fn word_fields(w: WordV, sh: ShellV, used: UsedV, a: AnswersV) -> OutV<
    Seq<Seq<char>>,
> {
    let o = word_segments(w, sh, used, a);
    match o.result {
        Err(_) => stopped(o),
        Ok(segs) => paths_from(split(segs, ifs(o.shell)), 0, o.shell, o.used, a, Seq::empty()),
    }
}

// ---- an operand weighs less than its expansion ------------------------------------------------

/// The operand of an expansion weighs no more than its text is long.
pub proof fn lemma_operand_weight(body: Seq<char>, in_double_quotes: bool)
    ensures
        expansion(body, in_double_quotes) matches Ok(e) ==> operand_weight(e) <= body.len(),
{
    lemma_digits_end(body, 0);
    lemma_name_end(body, 0);
    if at(body, 0) is Some {
        lemma_digits_end(body, 1);
        lemma_name_end(body, 1);
    }
    match bare_parameter(body, 0, true) {
        Some((_, j)) => {
            assert(0 < j <= body.len());
            let s = body.subrange(j, body.len() as int);
            let n = s.len() as int;
            lemma_operand_text_weight(s, 1, in_double_quotes);
            lemma_operand_text_weight(s, 2, in_double_quotes);
        },
        None => {},
    }
}

proof fn lemma_operand_text_weight(s: Seq<char>, k: int, in_double_quotes: bool)
    ensures
        0 <= k <= s.len() ==> (operand(s.subrange(k, s.len() as int), in_double_quotes) matches Ok(
            w,
        ) ==> weights(w) <= s.len()),
{
    if 0 <= k <= s.len() {
        let t = s.subrange(k, s.len() as int);
        if in_double_quotes {
            lemma_quoted_content_weight(t, 0, true, Seq::empty(), Seq::empty(), t.len());
        } else {
            lemma_word_content_weight(
                t,
                0,
                Boundary::EndOfInput,
                Seq::empty(),
                Seq::empty(),
                t.len(),
            );
        }
    }
}

} // verus!
