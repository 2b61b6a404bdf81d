//! Word expansion: tildes, parameters, command substitutions and arithmetic.

use vstd::prelude::*;

use crate::arithmetic::{parse_arithmetic_body, parse_arithmetic_expr};
use crate::fields::{build_glob_pattern, glob_field, has_unquoted_meta, split_fields, text_of_field};
use crate::glob::{remove_prefix, remove_suffix};
use crate::numbers::{i64_to_text, usize_to_text};
use crate::parameter::{parse_parameter_expansion, NullMode, ParameterExpansion, ParameterOperator};
use crate::segment::{field_view, fields_view, group_field_views, FieldV, Segment, SegmentV};
use crate::shell::Shell;
use crate::text::{
    chars_from, chars_of, join, join2, join3, lemma_texts_empty, lemma_texts_push, text_of, texts,
};
use crate::token::{
    lemma_weight_in_word, segment_view, segments_view, weight, weights, Parameter, SpecialParameter,
    Word, WordSegment,
};

pub mod arith;
pub mod laws;
pub mod operators;
pub mod parameters;
pub mod rules;

use arith::eval_arith;
use rules::{AnswersV, OutV, RequestV, StopV, UsedV};

verus! {

broadcast use {lemma_texts_push, lemma_texts_empty, group_field_views};

/// Why a word cannot be expanded.
#[derive(Debug, PartialEq, Eq)]
pub enum ExpandError {
    /// A construct that is not evaluated.
    UnsupportedConstruct { construct: &'static str },
    /// A command substitution could not be run.
    CommandSubstitutionFailed(String),
    /// A `${...}` is no parameter expansion.
    ParameterExpansionSyntax(String),
    /// `${parameter:?word}` found the parameter unset or null.
    ParameterNullOrUnset(String),
    /// `${parameter:=word}` cannot assign to this parameter.
    CannotAssign(String),
    /// A `$((...))`, or the value of a variable in it, is no expression.
    ArithmeticSyntax(String),
    /// A division by zero.
    DivisionByZero,
    /// A negative exponent.
    NegativeExponent,
    /// Variables refer to each other without end.
    ArithmeticRecursionLimit,
}

/// View of [`ExpandError`].
pub ghost enum ExpandErrorV {
    UnsupportedConstruct { construct: Seq<char> },
    CommandSubstitutionFailed(Seq<char>),
    ParameterExpansionSyntax(Seq<char>),
    ParameterNullOrUnset(Seq<char>),
    CannotAssign(Seq<char>),
    ArithmeticSyntax(Seq<char>),
    DivisionByZero,
    NegativeExponent,
    ArithmeticRecursionLimit,
}

impl View for ExpandError {
    type V = ExpandErrorV;

    open spec fn view(&self) -> ExpandErrorV {
        match self {
            ExpandError::UnsupportedConstruct { construct } => {
                ExpandErrorV::UnsupportedConstruct { construct: construct@ }
            },
            ExpandError::CommandSubstitutionFailed(m) => {
                ExpandErrorV::CommandSubstitutionFailed(m@)
            },
            ExpandError::ParameterExpansionSyntax(m) => {
                ExpandErrorV::ParameterExpansionSyntax(m@)
            },
            ExpandError::ParameterNullOrUnset(m) => ExpandErrorV::ParameterNullOrUnset(m@),
            ExpandError::CannotAssign(m) => ExpandErrorV::CannotAssign(m@),
            ExpandError::ArithmeticSyntax(m) => ExpandErrorV::ArithmeticSyntax(m@),
            ExpandError::DivisionByZero => ExpandErrorV::DivisionByZero,
            ExpandError::NegativeExponent => ExpandErrorV::NegativeExponent,
            ExpandError::ArithmeticRecursionLimit => ExpandErrorV::ArithmeticRecursionLimit,
        }
    }
}

/// The message of an [`ExpandError`].
pub open spec fn expand_error_text(e: ExpandErrorV) -> Seq<char> {
    match e {
        ExpandErrorV::UnsupportedConstruct { construct } => {
            construct + " is not yet supported"@
        },
        ExpandErrorV::CommandSubstitutionFailed(m) => "command substitution failed: "@ + m,
        ExpandErrorV::ParameterExpansionSyntax(m) => m,
        ExpandErrorV::ParameterNullOrUnset(m) => m,
        ExpandErrorV::CannotAssign(m) => m + ": cannot assign in this way"@,
        ExpandErrorV::ArithmeticSyntax(m) => m,
        ExpandErrorV::DivisionByZero => "division by 0"@,
        ExpandErrorV::NegativeExponent => "exponent less than 0"@,
        ExpandErrorV::ArithmeticRecursionLimit => "expression recursion level exceeded"@,
    }
}

impl ExpandError {
    /// What went wrong, in words.
    #[must_use]
    pub fn message(&self) -> (r: String)
        ensures
            r@ == expand_error_text(self@),
    {
        match self {
            ExpandError::UnsupportedConstruct { construct } => join2(
                construct,
                " is not yet supported",
            ),
            ExpandError::CommandSubstitutionFailed(m) => join2(
                "command substitution failed: ",
                m.as_str(),
            ),
            ExpandError::ParameterExpansionSyntax(m) => m.clone(),
            ExpandError::ParameterNullOrUnset(m) => m.clone(),
            ExpandError::CannotAssign(m) => join2(m.as_str(), ": cannot assign in this way"),
            ExpandError::ArithmeticSyntax(m) => m.clone(),
            ExpandError::DivisionByZero => "division by 0".to_owned(),
            ExpandError::NegativeExponent => "exponent less than 0".to_owned(),
            ExpandError::ArithmeticRecursionLimit => {
                "expression recursion level exceeded".to_owned()
            },
        }
    }
}

impl Clone for ExpandError {
    fn clone(&self) -> (r: Self)
        ensures
            r@ == self@,
    {
        match self {
            ExpandError::UnsupportedConstruct { construct } => {
                ExpandError::UnsupportedConstruct { construct: *construct }
            },
            ExpandError::CommandSubstitutionFailed(m) => {
                ExpandError::CommandSubstitutionFailed(m.clone())
            },
            ExpandError::ParameterExpansionSyntax(m) => {
                ExpandError::ParameterExpansionSyntax(m.clone())
            },
            ExpandError::ParameterNullOrUnset(m) => ExpandError::ParameterNullOrUnset(m.clone()),
            ExpandError::CannotAssign(m) => ExpandError::CannotAssign(m.clone()),
            ExpandError::ArithmeticSyntax(m) => ExpandError::ArithmeticSyntax(m.clone()),
            ExpandError::DivisionByZero => ExpandError::DivisionByZero,
            ExpandError::NegativeExponent => ExpandError::NegativeExponent,
            ExpandError::ArithmeticRecursionLimit => ExpandError::ArithmeticRecursionLimit,
        }
    }
}

// ---- answers ------------------------------------------------------------------------------

/// What expansion needs from outside the shell.
#[derive(Debug, PartialEq, Eq)]
pub enum Request {
    /// The output of this command, run in a subshell.
    CommandOutput(String),
    /// The names of the entries of the current directory.
    DirectoryEntries,
}

/// Why expansion stopped.
#[derive(Debug, PartialEq, Eq)]
pub enum Stop {
    /// It failed.
    Failed(ExpandError),
    /// It needs an answer. With that answer behind the others it can start
    /// again from the same shell.
    Needs(Request),
}

/// The answers to the requests of an expansion, in the order of the requests.
#[derive(Debug)]
pub struct Answers {
    /// What each command wrote, or why it could not be run.
    pub outputs: Vec<Result<String, String>>,
    /// The entries of the current directory, each time they were asked for.
    pub listings: Vec<Vec<String>>,
}

/// How many answers have been used.
#[derive(Debug, Clone, Copy, PartialEq, Eq, Structural)]
pub struct Used {
    pub outputs: usize,
    pub listings: usize,
}

impl View for Request {
    type V = RequestV;

    open spec fn view(&self) -> RequestV {
        match self {
            Request::CommandOutput(body) => RequestV::CommandOutput(body@),
            Request::DirectoryEntries => RequestV::DirectoryEntries,
        }
    }
}

impl View for Stop {
    type V = StopV;

    open spec fn view(&self) -> StopV {
        match self {
            Stop::Failed(e) => StopV::Failed(e@),
            Stop::Needs(r) => StopV::Needs(r@),
        }
    }
}

/// The view of the answer to a command.
pub open spec fn output_view(r: Result<String, String>) -> Result<Seq<char>, Seq<char>> {
    match r {
        Ok(t) => Ok(t@),
        Err(m) => Err(m@),
    }
}

impl View for Answers {
    type V = AnswersV;

    open spec fn view(&self) -> AnswersV {
        AnswersV {
            outputs: self.outputs@.map_values(|r: Result<String, String>| output_view(r)),
            listings: self.listings@.map_values(|l: Vec<String>| texts(l@)),
        }
    }
}

impl View for Used {
    type V = UsedV;

    open spec fn view(&self) -> UsedV {
        UsedV { outputs: self.outputs as nat, listings: self.listings as nat }
    }
}

/// The view of a text or a stop.
pub open spec fn text_result(r: Result<String, Stop>) -> Result<Seq<char>, StopV> {
    match r {
        Ok(t) => Ok(t@),
        Err(e) => Err(e@),
    }
}

/// The view of a list of texts or a stop.
pub open spec fn texts_result(r: Result<Vec<String>, Stop>) -> Result<Seq<Seq<char>>, StopV> {
    match r {
        Ok(v) => Ok(texts(v@)),
        Err(e) => Err(e@),
    }
}

/// The view of an expanded word or a stop.
pub open spec fn segments_result(r: Result<Vec<Segment>, Stop>) -> Result<FieldV, StopV> {
    match r {
        Ok(v) => Ok(field_view(v@)),
        Err(e) => Err(e@),
    }
}

impl Answers {
    /// No answers.
    #[must_use]
    pub fn new() -> (r: Self)
        ensures
            r@ == (AnswersV { outputs: Seq::empty(), listings: Seq::empty() }),
    {
        let r = Answers { outputs: Vec::new(), listings: Vec::new() };
        assert(r@.outputs =~= Seq::empty());
        assert(r@.listings =~= Seq::empty());
        r
    }
}

impl Used {
    /// None used.
    #[must_use]
    pub fn new() -> (r: Self)
        ensures
            r@ == (UsedV { outputs: 0, listings: 0 }),
    {
        Used { outputs: 0, listings: 0 }
    }
}

// ---- parameters -----------------------------------------------------------------------------

fn joined_params(shell: &Shell) -> (r: String)
    ensures
        r@ == rules::joined_params(shell@),
{
    let sep = match shell.get_var("IFS") {
        None => {
            let mut t = String::new();
            t.push(' ');
            assert(t@ =~= seq![' ']);
            t
        },
        Some(s) => {
            let v = chars_of(s);
            let mut t = String::new();
            if v.len() > 0 {
                t.push(v[0]);
                assert(t@ =~= seq![s@[0]]);
            } else {
                assert(t@ =~= Seq::empty());
            }
            t
        },
    };
    join(&shell.positional_params, sep.as_str())
}

fn positional_param(shell: &Shell, n: u32) -> (r: Option<&str>)
    ensures
        match r {
            Some(t) => rules::positional_param(shell@, n) == Some(t@),
            None => rules::positional_param(shell@, n) is None,
        },
{
    if n == 0 {
        return None;
    }
    let index: usize = n as usize - 1;
    if index < shell.positional_params.len() {
        assert(shell@.positional[index as int] == shell.positional_params@[index as int]@);
        Some(shell.positional_params[index].as_str())
    } else {
        None
    }
}

fn owned_or_empty(t: Option<&str>) -> (r: String)
    ensures
        r@ == rules::or_empty(
            match t {
                Some(t) => Some(t@),
                None => None,
            },
        ),
{
    match t {
        Some(t) => t.to_owned(),
        None => {
            let r = String::new();
            assert(r@ =~= Seq::empty());
            r
        },
    }
}

/// The value of a parameter as one text.
fn expand_parameter(param: &Parameter, shell: &Shell) -> (r: String)
    ensures
        r@ == rules::parameter_value(param@, shell@),
{
    match param {
        Parameter::Name(name) => owned_or_empty(shell.get_var(name.as_str())),
        Parameter::Positional(n) => owned_or_empty(positional_param(shell, *n)),
        Parameter::Special(special) => match special {
            SpecialParameter::Question => i64_to_text(shell.last_status as i64),
            SpecialParameter::Zero => shell.arg0.clone(),
            SpecialParameter::Hash => usize_to_text(shell.positional_params.len()),
            SpecialParameter::At => joined_params(shell),
            SpecialParameter::Star => joined_params(shell),
            SpecialParameter::Dash => owned_or_empty(None),
            SpecialParameter::Dollar => i64_to_text(shell.pid as i64),
            SpecialParameter::Bang => match shell.last_background_pid {
                Some(pid) => i64_to_text(pid as i64),
                None => owned_or_empty(None),
            },
        },
    }
}

fn is_parameter_set(param: &Parameter, shell: &Shell) -> (r: bool)
    ensures
        r == rules::is_parameter_set(param@, shell@),
{
    match param {
        Parameter::Name(name) => shell.get_var(name.as_str()).is_some(),
        Parameter::Positional(n) => positional_param(shell, *n).is_some(),
        Parameter::Special(special) => match special {
            SpecialParameter::At => shell.positional_params.len() > 0,
            SpecialParameter::Star => shell.positional_params.len() > 0,
            _ => true,
        },
    }
}

/// A parameter as messages show it.
fn describe_parameter(param: &Parameter) -> (r: String)
    ensures
        r@ == rules::parameter_name(param@),
{
    match param {
        Parameter::Name(name) => name.clone(),
        Parameter::Positional(n) => i64_to_text(*n as i64),
        Parameter::Special(special) => match special {
            SpecialParameter::At => "@".to_owned(),
            SpecialParameter::Star => "*".to_owned(),
            SpecialParameter::Hash => "#".to_owned(),
            SpecialParameter::Question => "?".to_owned(),
            SpecialParameter::Dash => "-".to_owned(),
            SpecialParameter::Dollar => "$".to_owned(),
            SpecialParameter::Bang => "!".to_owned(),
            SpecialParameter::Zero => "0".to_owned(),
        },
    }
}

// ---- segments -------------------------------------------------------------------------------

fn one_segment(text: String, glob_eligible: bool, split_eligible: bool) -> (r: Vec<Segment>)
    ensures
        field_view(r@) == seq![
            SegmentV {
                text: text@,
                glob_eligible,
                split_eligible,
                force_field_break_after: false,
            },
        ],
{
    let mut r: Vec<Segment> = Vec::new();
    r.push(Segment { text, glob_eligible, split_eligible, force_field_break_after: false });
    assert(field_view(r@) =~= seq![
        SegmentV { text: text@, glob_eligible, split_eligible, force_field_break_after: false },
    ]);
    r
}

/// The positional parameters, each a field of its own.
fn params_as_fields(shell: &Shell, glob_eligible: bool) -> (r: Vec<Segment>)
    ensures
        field_view(r@) == rules::params_as_fields(shell@, glob_eligible),
{
    let ghost wanted = rules::params_as_fields(shell@, glob_eligible);
    let count: usize = shell.positional_params.len();
    let mut r: Vec<Segment> = Vec::new();
    let mut i: usize = 0;
    assert(wanted.take(0) =~= Seq::empty());
    while i < count
        invariant
            i <= count == shell.positional_params@.len(),
            wanted == rules::params_as_fields(shell@, glob_eligible),
            field_view(r@) == wanted.take(i as int),
        decreases count - i,
    {
        r.push(
            Segment {
                text: shell.positional_params[i].clone(),
                glob_eligible,
                split_eligible: false,
                force_field_break_after: count - i > 1,
            },
        );
        assert(shell@.positional[i as int] == shell.positional_params@[i as int]@);
        i += 1;
        assert(wanted.take(i as int) =~= wanted.take(i - 1).push(wanted[i - 1]));
    }
    assert(wanted.take(wanted.len() as int) =~= wanted);
    r
}

/// `$@` or `$*` outside quotes.
fn unquoted_params(shell: &Shell) -> (r: Vec<Segment>)
    ensures
        field_view(r@) == rules::unquoted_params(shell@),
{
    let mut sep = String::new();
    match shell.get_var("IFS") {
        Some(s) => {
            let v = chars_of(s);
            if v.len() == 0 {
                proof {
                    reveal_strlit("");
                    assert(s@ =~= ""@);
                }
                return params_as_fields(shell, true);
            }
            proof {
                reveal_strlit("");
                assert(s@ != ""@);
            }
            sep.push(v[0]);
        },
        None => {
            sep.push(' ');
        },
    }
    assert(sep@ =~= rules::first_separator(shell@));
    one_segment(join(&shell.positional_params, sep.as_str()), true, true)
}

fn all_params(special: SpecialParameter, shell: &Shell, in_double_quotes: bool) -> (r: Vec<
    Segment,
>)
    ensures
        field_view(r@) == rules::all_params(special, shell@, in_double_quotes),
{
    if !in_double_quotes {
        unquoted_params(shell)
    } else {
        match special {
            SpecialParameter::At => params_as_fields(shell, false),
            _ => one_segment(joined_params(shell), false, false),
        }
    }
}

/// The output of a command without the newlines at its end.
fn trim_newlines(t: &str) -> (r: String)
    ensures
        r@ == rules::trimmed(t@),
{
    let mut v = chars_of(t);
    while v.len() > 0 && v[v.len() - 1] == '\n'
        invariant
            rules::trimmed(v@) == rules::trimmed(t@),
        decreases v@.len(),
    {
        let _ = v.pop();
    }
    text_of(&v)
}

/// The output of a command substitution.
fn command_output(body: &String, shell: &Shell, answers: &Answers, used: &mut Used) -> (r: Result<
    String,
    Stop,
>)
    ensures
        (OutV { shell: shell@, used: final(used)@, result: text_result(r) })
            == rules::command_output(body@, shell@, old(used)@, answers@),
{
    if used.outputs < answers.outputs.len() {
        let k: usize = used.outputs;
        used.outputs = k + 1;
        assert(answers@.outputs[k as int] == output_view(answers.outputs@[k as int]));
        match &answers.outputs[k] {
            Ok(t) => Ok(trim_newlines(t.as_str())),
            Err(m) => Err(Stop::Failed(ExpandError::CommandSubstitutionFailed(m.clone()))),
        }
    } else {
        Err(Stop::Needs(Request::CommandOutput(body.clone())))
    }
}

/// Takes the marks of unquoted text from every segment.
fn quote_segments(v: Vec<Segment>) -> (r: Vec<Segment>)
    ensures
        field_view(r@) == field_view(v@).map_values(|s: SegmentV| rules::in_quotes(s)),
{
    let ghost wanted = field_view(v@).map_values(|s: SegmentV| rules::in_quotes(s));
    let mut r: Vec<Segment> = Vec::new();
    let mut i: usize = 0;
    assert(wanted.take(0) =~= Seq::empty());
    while i < v.len()
        invariant
            i <= v@.len(),
            wanted == field_view(v@).map_values(|s: SegmentV| rules::in_quotes(s)),
            field_view(r@) == wanted.take(i as int),
        decreases v@.len() - i,
    {
        let mut seg = v[i].clone();
        seg.glob_eligible = false;
        seg.split_eligible = false;
        r.push(seg);
        i += 1;
        assert(wanted.take(i as int) =~= wanted.take(i - 1).push(wanted[i - 1]));
    }
    assert(wanted.take(wanted.len() as int) =~= wanted);
    r
}

/// The first segment of a word whose tilde stands for the home directory.
fn expand_tilde(word: &Word, shell: &Shell) -> (r: Option<Vec<Segment>>)
    ensures
        match rules::tilde(word@, shell@) {
            Some((rest, home)) => r is Some && field_view(r->Some_0@) == seq![
                rules::literal_segment(home),
                rules::literal_segment(rest),
            ],
            None => r is None,
        },
{
    if word.segments.len() == 0 {
        return None;
    }
    assert(word@[0] == segment_view(word.segments@[0]));
    if let WordSegment::Literal(text) = &word.segments[0] {
        let v = chars_of(text.as_str());
        if v.len() > 0 && v[0] == '~' && (v.len() == 1 || v[1] == '/') {
            if let Some(home) = shell.get_var("HOME") {
                let mut r = one_segment(home.to_owned(), true, false);
                let rest = text_of(&chars_from(&v, 1));
                r.push(
                    Segment {
                        text: rest,
                        glob_eligible: true,
                        split_eligible: false,
                        force_field_break_after: false,
                    },
                );
                assert(rest@ =~= text@.skip(1));
                assert(field_view(r@) =~= seq![
                    rules::literal_segment(home@),
                    rules::literal_segment(rest@),
                ]);
                return Some(r);
            }
        }
    }
    None
}

/// Expands a word without splitting it.
fn expand_to_segments(word: &Word, shell: &mut Shell, answers: &Answers, used: &mut Used) -> (r:
    Result<Vec<Segment>, Stop>)
    ensures
        (OutV { shell: final(shell)@, used: final(used)@, result: segments_result(r) })
            == rules::word_segments(word@, old(shell)@, old(used)@, answers@),
    decreases weights(word@), 4nat, 0int,
{
    match expand_tilde(word, shell) {
        Some(start) => expand_from(&word.segments, 1, shell, answers, used, false, start),
        None => {
            let start: Vec<Segment> = Vec::new();
            expand_from(&word.segments, 0, shell, answers, used, false, start)
        },
    }
}

/// Expands segments `from` on, behind `start`.
fn expand_from(
    segments: &Vec<WordSegment>,
    from: usize,
    shell: &mut Shell,
    answers: &Answers,
    used: &mut Used,
    in_double_quotes: bool,
    start: Vec<Segment>,
) -> (r: Result<Vec<Segment>, Stop>)
    ensures
        (OutV { shell: final(shell)@, used: final(used)@, result: segments_result(r) })
            == rules::segments_from(
            segments_view(segments@),
            from as int,
            old(shell)@,
            old(used)@,
            answers@,
            in_double_quotes,
            field_view(start@),
        ),
    decreases weights(segments_view(segments@)), 3nat, 0int,
{
    let ghost w = segments_view(segments@);
    let ghost first = field_view(start@);
    let ghost whole = rules::segments_from(
        w,
        from as int,
        shell@,
        used@,
        answers@,
        in_double_quotes,
        first,
    );
    let mut out = start;
    let mut i: usize = from;
    while i < segments.len()
        invariant
            w == segments_view(segments@),
            first == field_view(start@),
            whole == rules::segments_from(
                w,
                from as int,
                old(shell)@,
                old(used)@,
                answers@,
                in_double_quotes,
                first,
            ),
            whole == rules::segments_from(
                w,
                i as int,
                shell@,
                used@,
                answers@,
                in_double_quotes,
                field_view(out@),
            ),
        decreases segments@.len() - i,
    {
        assert(w[i as int] == segment_view(segments@[i as int]));
        proof {
            lemma_weight_in_word(w, i as int);
        }
        let ghost before = field_view(out@);
        let mut nested = expand_segment(&segments[i], shell, answers, used, in_double_quotes)?;
        let ghost added = field_view(nested@);
        out.append(&mut nested);
        assert(field_view(out@) =~= before + added);
        i += 1;
    }
    Ok(out)
}

/// One text as the result of an expansion.
fn as_segment(r: Result<String, Stop>) -> (s: Result<Vec<Segment>, Stop>)
    ensures
        segments_result(s) == (match r {
            Ok(t) => Ok(seq![rules::expanded_segment(t@)]),
            Err(e) => Err(e@),
        }),
{
    match r {
        Ok(t) => Ok(one_segment(t, true, true)),
        Err(e) => Err(e),
    }
}

/// Expands one segment.
fn expand_segment(
    segment: &WordSegment,
    shell: &mut Shell,
    answers: &Answers,
    used: &mut Used,
    in_double_quotes: bool,
) -> (r: Result<Vec<Segment>, Stop>)
    ensures
        (OutV { shell: final(shell)@, used: final(used)@, result: segments_result(r) })
            == rules::segment(
            segment@,
            old(shell)@,
            old(used)@,
            answers@,
            in_double_quotes,
        ),
    decreases weight(segment@), 2nat, 0int,
{
    match segment {
        WordSegment::Literal(text) => Ok(one_segment(text.clone(), true, false)),
        WordSegment::SingleQuoted(text) => Ok(one_segment(text.clone(), false, false)),
        WordSegment::DoubleQuoted(inner) => {
            assert(segments_view(inner@).len() == inner@.len());
            if inner.len() == 0 {
                let text = String::new();
                assert(text@ =~= Seq::empty());
                return Ok(one_segment(text, false, false));
            }
            let start: Vec<Segment> = Vec::new();
            let nested = expand_from(inner, 0, shell, answers, used, true, start)?;
            Ok(quote_segments(nested))
        },
        WordSegment::Parameter(param) => match param {
            Parameter::Special(SpecialParameter::At) => Ok(
                all_params(SpecialParameter::At, shell, in_double_quotes),
            ),
            Parameter::Special(SpecialParameter::Star) => Ok(
                all_params(SpecialParameter::Star, shell, in_double_quotes),
            ),
            _ => Ok(one_segment(expand_parameter(param, shell), true, true)),
        },
        WordSegment::CommandSubstitution(sub) => as_segment(
            command_output(&sub.body, shell, answers, used),
        ),
        WordSegment::ComplexParameterExpansion(body) => as_segment(
            expand_complex_parameter_expansion(body, in_double_quotes, shell, answers, used),
        ),
        WordSegment::ArithmeticExpansion(body) => as_segment(
            expand_arithmetic_expansion(body, shell, answers, used),
        ),
    }
}

/// Expands `${body}`.
fn expand_complex_parameter_expansion(
    body: &String,
    in_double_quotes: bool,
    shell: &mut Shell,
    answers: &Answers,
    used: &mut Used,
) -> (r: Result<String, Stop>)
    ensures
        (OutV { shell: final(shell)@, used: final(used)@, result: text_result(r) })
            == rules::parameter_expansion(
            body@,
            in_double_quotes,
            old(shell)@,
            old(used)@,
            answers@,
        ),
    decreases body@.len() + 1, 1nat, 0int,
{
    proof {
        rules::lemma_operand_weight(body@, in_double_quotes);
    }
    match parse_parameter_expansion(body.as_str(), in_double_quotes) {
        Err(e) => Err(Stop::Failed(ExpandError::ParameterExpansionSyntax(e.message()))),
        Ok(expansion) => evaluate_parameter_expansion(&expansion, shell, answers, used),
    }
}

/// The value of an expansion.
fn evaluate_parameter_expansion(
    expansion: &ParameterExpansion,
    shell: &mut Shell,
    answers: &Answers,
    used: &mut Used,
) -> (r: Result<String, Stop>)
    ensures
        (OutV { shell: final(shell)@, used: final(used)@, result: text_result(r) })
            == rules::operation(expansion@, old(shell)@, old(used)@, answers@),
    decreases rules::operand_weight(expansion@) + 1, 0nat, 0int,
{
    let parameter = &expansion.parameter;
    let current = expand_parameter(parameter, shell);
    let is_set = is_parameter_set(parameter, shell);
    let is_null = current.as_str().is_empty();
    match &expansion.operator {
        ParameterOperator::Length => match parameter {
            Parameter::Special(SpecialParameter::At) => Ok(
                usize_to_text(shell.positional_params.len()),
            ),
            Parameter::Special(SpecialParameter::Star) => Ok(
                usize_to_text(shell.positional_params.len()),
            ),
            _ => Ok(usize_to_text(chars_of(current.as_str()).len())),
        },
        ParameterOperator::UseDefault { null_mode, word } => {
            if counts_as_empty(*null_mode, is_set, is_null) {
                expand_text(word, shell, answers, used)
            } else {
                Ok(current)
            }
        },
        ParameterOperator::AssignDefault { null_mode, word } => {
            if counts_as_empty(*null_mode, is_set, is_null) {
                let value = expand_text(word, shell, answers, used)?;
                match parameter {
                    Parameter::Name(name) => {
                        let _ = shell.shell_vars.insert(name.clone(), value.clone());
                        Ok(value)
                    },
                    _ => Err(
                        Stop::Failed(ExpandError::CannotAssign(describe_parameter(parameter))),
                    ),
                }
            } else {
                Ok(current)
            }
        },
        ParameterOperator::ErrorIfUnsetOrNull { null_mode, word } => {
            if counts_as_empty(*null_mode, is_set, is_null) {
                let text = expand_text(word, shell, answers, used)?;
                let name = describe_parameter(parameter);
                let message = if !text.as_str().is_empty() {
                    join3(name.as_str(), ": ", text.as_str())
                } else {
                    match null_mode {
                        NullMode::UnsetOrNull => join3(
                            name.as_str(),
                            ": ",
                            "parameter null or not set",
                        ),
                        NullMode::UnsetOnly => join3(name.as_str(), ": ", "parameter not set"),
                    }
                };
                Err(Stop::Failed(ExpandError::ParameterNullOrUnset(message)))
            } else {
                Ok(current)
            }
        },
        ParameterOperator::UseAlternative { null_mode, word } => {
            if counts_as_empty(*null_mode, is_set, is_null) {
                Ok(owned_or_empty(None))
            } else {
                expand_text(word, shell, answers, used)
            }
        },
        ParameterOperator::RemovePrefix { greedy, pattern } => {
            let pattern = expand_pattern(pattern, shell, answers, used)?;
            Ok(remove_prefix(current.as_str(), pattern.as_str(), *greedy))
        },
        ParameterOperator::RemoveSuffix { greedy, pattern } => {
            let pattern = expand_pattern(pattern, shell, answers, used)?;
            Ok(remove_suffix(current.as_str(), pattern.as_str(), *greedy))
        },
    }
}

fn counts_as_empty(mode: NullMode, is_set: bool, is_null: bool) -> (r: bool)
    ensures
        r == (!is_set || (mode is UnsetOrNull && is_null)),
{
    match mode {
        NullMode::UnsetOnly => !is_set,
        NullMode::UnsetOrNull => !is_set || is_null,
    }
}

/// Expands a word to one text.
fn expand_text(word: &Word, shell: &mut Shell, answers: &Answers, used: &mut Used) -> (r: Result<
    String,
    Stop,
>)
    ensures
        (OutV { shell: final(shell)@, used: final(used)@, result: text_result(r) })
            == rules::word_text(word@, old(shell)@, old(used)@, answers@),
    decreases weights(word@), 5nat, 0int,
{
    let segments = expand_to_segments(word, shell, answers, used)?;
    Ok(text_of_field(&segments))
}

/// Expands a word to a pattern.
fn expand_pattern(word: &Word, shell: &mut Shell, answers: &Answers, used: &mut Used) -> (r: Result<
    String,
    Stop,
>)
    ensures
        (OutV { shell: final(shell)@, used: final(used)@, result: text_result(r) })
            == rules::word_pattern(word@, old(shell)@, old(used)@, answers@),
    decreases weights(word@), 5nat, 0int,
{
    let segments = expand_to_segments(word, shell, answers, used)?;
    Ok(build_glob_pattern(&segments))
}

/// Expands `$((body))`.
fn expand_arithmetic_expansion(
    body: &String,
    shell: &mut Shell,
    answers: &Answers,
    used: &mut Used,
) -> (r: Result<String, Stop>)
    ensures
        (OutV { shell: final(shell)@, used: final(used)@, result: text_result(r) })
            == rules::arithmetic_expansion(body@, old(shell)@, old(used)@, answers@),
    decreases body@.len() + 1, 1nat, 0int,
{
    proof {
        crate::arithmetic::rules::lemma_body_weight(
            body@,
            0,
            Seq::empty(),
            Seq::empty(),
            body@.len(),
        );
    }
    let word = match parse_arithmetic_body(body.as_str()) {
        Err(e) => {
            return Err(Stop::Failed(ExpandError::ArithmeticSyntax(e.message())));
        },
        Ok(w) => w,
    };
    let start: Vec<Segment> = Vec::new();
    let segments = expand_from(&word.segments, 0, shell, answers, used, true, start)?;
    let source = text_of_field(&segments);
    match parse_arithmetic_expr(source.as_str()) {
        Err(e) => Err(Stop::Failed(ExpandError::ArithmeticSyntax(e.message()))),
        Ok(expr) => match eval_arith(&expr, shell, 0) {
            Ok(n) => Ok(i64_to_text(n)),
            Err(e) => Err(Stop::Failed(e)),
        },
    }
}

// ---- whole words ----------------------------------------------------------------------------

/// Expands a word to a single text, without splitting it and without pathname
/// expansion: for the values of assignments and the targets of redirections.
pub fn expand_word_single(word: &Word, shell: &mut Shell, answers: &Answers, used: &mut Used) -> (r:
    Result<String, Stop>)
    ensures
        (OutV { shell: final(shell)@, used: final(used)@, result: text_result(r) })
            == rules::word_text(word@, old(shell)@, old(used)@, answers@),
{
    expand_text(word, shell, answers, used)
}

/// Expands a word to a pattern: quoted metacharacters are escaped.
pub fn expand_word_as_pattern(
    word: &Word,
    shell: &mut Shell,
    answers: &Answers,
    used: &mut Used,
) -> (r: Result<String, Stop>)
    ensures
        (OutV { shell: final(shell)@, used: final(used)@, result: text_result(r) })
            == rules::word_pattern(word@, old(shell)@, old(used)@, answers@),
{
    expand_pattern(word, shell, answers, used)
}

/// Expands a word to fields: for the name and the arguments of a command.
pub fn expand_word_fields(word: &Word, shell: &mut Shell, answers: &Answers, used: &mut Used) -> (r:
    Result<Vec<String>, Stop>)
    ensures
        (OutV { shell: final(shell)@, used: final(used)@, result: texts_result(r) })
            == rules::word_fields(word@, old(shell)@, old(used)@, answers@),
{
    let segments = expand_to_segments(word, shell, answers, used)?;
    let ifs = match shell.get_var("IFS") {
        Some(s) => s.to_owned(),
        None => " \t\n".to_owned(),
    };
    let fields = split_fields(segments, ifs.as_str());
    expand_paths(&fields, shell, answers, used)
}

/// Expands fields to paths.
fn expand_paths(fields: &Vec<Vec<Segment>>, shell: &Shell, answers: &Answers, used: &mut Used) -> (r:
    Result<Vec<String>, Stop>)
    ensures
        (OutV { shell: shell@, used: final(used)@, result: texts_result(r) }) == rules::paths_from(
            fields_view(fields@),
            0,
            shell@,
            old(used)@,
            answers@,
            Seq::empty(),
        ),
{
    let ghost all = fields_view(fields@);
    let ghost sh = shell@;
    let ghost a = answers@;
    let ghost whole = rules::paths_from(all, 0, sh, used@, a, Seq::empty());
    let mut r: Vec<String> = Vec::new();
    let mut i: usize = 0;
    while i < fields.len()
        invariant
            i <= fields@.len(),
            all == fields_view(fields@),
            a == answers@,
            sh == shell@,
            whole == rules::paths_from(all, 0, sh, old(used)@, a, Seq::empty()),
            whole == rules::paths_from(all, i as int, sh, used@, a, texts(r@)),
        decreases fields@.len() - i,
    {
        let ghost before = texts(r@);
        assert(all[i as int] == field_view(fields@[i as int]@));
        if !has_unquoted_meta(&fields[i]) {
            r.push(text_of_field(&fields[i]));
        } else if used.listings < answers.listings.len() {
            let k: usize = used.listings;
            assert(a.listings[k as int] == texts(answers.listings@[k as int]@));
            let mut names = glob_field(&fields[i], &answers.listings[k]);
            let ghost added = texts(names@);
            used.listings = k + 1;
            r.append(&mut names);
            assert(texts(r@) =~= before + added);
        } else {
            return Err(Stop::Needs(Request::DirectoryEntries));
        }
        i += 1;
    }
    Ok(r)
}

} // verus!
