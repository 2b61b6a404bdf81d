//! Parameter expansion with an operator: the syntax of what stands between
//! `${` and `}`.

use vstd::prelude::*;

use crate::lexer::rules::{at, bare_parameter, quoted_content, word, Boundary};
use crate::lexer::{
    bare_parameter_at, lex_double_quoted_body, lex_error_text, lex_word_body, LexError,
};
use crate::text::{chars_of, join3, text_between};
use crate::token::{Parameter, ParameterV, Word, WordV};

verus! {

/// Whether a null value counts as unset.
#[derive(Debug, Clone, Copy, PartialEq, Eq, Structural)]
pub enum NullMode {
    /// It does not: the operator has no colon.
    UnsetOnly,
    /// It does: the operator has a colon.
    UnsetOrNull,
}

/// The operator of a parameter expansion.
#[derive(Debug, PartialEq, Eq)]
pub enum ParameterOperator {
    /// `${#parameter}`
    Length,
    /// `${parameter:-word}`
    UseDefault { null_mode: NullMode, word: Word },
    /// `${parameter:=word}`
    AssignDefault { null_mode: NullMode, word: Word },
    /// `${parameter:?word}`
    ErrorIfUnsetOrNull { null_mode: NullMode, word: Word },
    /// `${parameter:+word}`
    UseAlternative { null_mode: NullMode, word: Word },
    /// `${parameter#pattern}`, or `##` for the largest match
    RemovePrefix { greedy: bool, pattern: Word },
    /// `${parameter%pattern}`, or `%%` for the largest match
    RemoveSuffix { greedy: bool, pattern: Word },
}

/// A parameter and the operator that is applied to it.
#[derive(Debug, PartialEq, Eq)]
pub struct ParameterExpansion {
    pub parameter: Parameter,
    pub operator: ParameterOperator,
}

/// Why the text between `${` and `}` is no parameter expansion.
#[derive(Debug, PartialEq, Eq)]
pub enum ParamExpansionError {
    /// It does not start with a parameter.
    InvalidParameter { body: String },
    /// What follows the parameter is no operator.
    UnrecognizedOperator { body: String },
    /// The operand cannot be split into segments.
    Lex(LexError),
}

/// View of [`ParameterOperator`].
pub ghost enum ParameterOperatorV {
    Length,
    UseDefault { null_mode: NullMode, word: WordV },
    AssignDefault { null_mode: NullMode, word: WordV },
    ErrorIfUnsetOrNull { null_mode: NullMode, word: WordV },
    UseAlternative { null_mode: NullMode, word: WordV },
    RemovePrefix { greedy: bool, pattern: WordV },
    RemoveSuffix { greedy: bool, pattern: WordV },
}

/// View of [`ParameterExpansion`].
pub ghost struct ParameterExpansionV {
    pub parameter: ParameterV,
    pub operator: ParameterOperatorV,
}

/// View of [`ParamExpansionError`].
pub ghost enum ParamExpansionErrorV {
    InvalidParameter { body: Seq<char> },
    UnrecognizedOperator { body: Seq<char> },
    Lex(LexError),
}

impl View for ParameterOperator {
    type V = ParameterOperatorV;

    open spec fn view(&self) -> ParameterOperatorV {
        match self {
            ParameterOperator::Length => ParameterOperatorV::Length,
            ParameterOperator::UseDefault { null_mode, word } => ParameterOperatorV::UseDefault {
                null_mode: *null_mode,
                word: word@,
            },
            ParameterOperator::AssignDefault { null_mode, word } => {
                ParameterOperatorV::AssignDefault { null_mode: *null_mode, word: word@ }
            },
            ParameterOperator::ErrorIfUnsetOrNull { null_mode, word } => {
                ParameterOperatorV::ErrorIfUnsetOrNull { null_mode: *null_mode, word: word@ }
            },
            ParameterOperator::UseAlternative { null_mode, word } => {
                ParameterOperatorV::UseAlternative { null_mode: *null_mode, word: word@ }
            },
            ParameterOperator::RemovePrefix { greedy, pattern } => {
                ParameterOperatorV::RemovePrefix { greedy: *greedy, pattern: pattern@ }
            },
            ParameterOperator::RemoveSuffix { greedy, pattern } => {
                ParameterOperatorV::RemoveSuffix { greedy: *greedy, pattern: pattern@ }
            },
        }
    }
}

impl View for ParameterExpansion {
    type V = ParameterExpansionV;

    open spec fn view(&self) -> ParameterExpansionV {
        ParameterExpansionV { parameter: self.parameter@, operator: self.operator@ }
    }
}

impl View for ParamExpansionError {
    type V = ParamExpansionErrorV;

    open spec fn view(&self) -> ParamExpansionErrorV {
        match self {
            ParamExpansionError::InvalidParameter { body } => {
                ParamExpansionErrorV::InvalidParameter { body: body@ }
            },
            ParamExpansionError::UnrecognizedOperator { body } => {
                ParamExpansionErrorV::UnrecognizedOperator { body: body@ }
            },
            ParamExpansionError::Lex(e) => ParamExpansionErrorV::Lex(*e),
        }
    }
}

/// The message of a [`ParamExpansionError`].
pub open spec fn param_error_text(e: ParamExpansionErrorV) -> Seq<char> {
    match e {
        ParamExpansionErrorV::InvalidParameter { body } => {
            "`${"@ + body + "}` is not a valid parameter name or expansion"@
        },
        ParamExpansionErrorV::UnrecognizedOperator { body } => {
            "`${"@ + body
                + "}`: not a recognized POSIX parameter-expansion operator (bash extensions like `${var/pat/repl}` or `${var^^}` aren't supported yet)"@
        },
        ParamExpansionErrorV::Lex(e) => lex_error_text(e),
    }
}

impl ParamExpansionError {
    /// What went wrong, in words.
    #[must_use]
    pub fn message(&self) -> (r: String)
        ensures
            r@ == param_error_text(self@),
    {
        match self {
            ParamExpansionError::InvalidParameter { body } => join3(
                "`${",
                body.as_str(),
                "}` is not a valid parameter name or expansion",
            ),
            ParamExpansionError::UnrecognizedOperator { body } => join3(
                "`${",
                body.as_str(),
                "}`: not a recognized POSIX parameter-expansion operator (bash extensions like `${var/pat/repl}` or `${var^^}` aren't supported yet)",
            ),
            ParamExpansionError::Lex(e) => e.message(),
        }
    }
}

// ---- the rules --------------------------------------------------------------------

/// The word that an operand writes, under the quoting rules of its context.
pub open spec fn operand(s: Seq<char>, in_double_quotes: bool) -> Result<
    WordV,
    ParamExpansionErrorV,
> {
    let read = if in_double_quotes {
        quoted_content(s, 0, true, Seq::empty(), Seq::empty())
    } else {
        word(s, 0, Boundary::EndOfInput)
    };
    match read {
        Ok((w, _)) => Ok(w),
        Err(e) => Err(ParamExpansionErrorV::Lex(e)),
    }
}

/// The operator with a word after it that `c` writes.
pub open spec fn word_operator(c: char, null_mode: NullMode, word: WordV) -> Option<
    ParameterOperatorV,
> {
    if c == '-' {
        Some(ParameterOperatorV::UseDefault { null_mode, word })
    } else if c == '=' {
        Some(ParameterOperatorV::AssignDefault { null_mode, word })
    } else if c == '?' {
        Some(ParameterOperatorV::ErrorIfUnsetOrNull { null_mode, word })
    } else if c == '+' {
        Some(ParameterOperatorV::UseAlternative { null_mode, word })
    } else {
        None
    }
}

/// The operator that `s` writes, in the expansion whose whole text is `body`.
pub open spec fn operator(s: Seq<char>, in_double_quotes: bool, body: Seq<char>) -> Result<
    ParameterOperatorV,
    ParamExpansionErrorV,
> {
    let n = s.len() as int;
    if at(s, 0) == Some('#') || at(s, 0) == Some('%') {
        let greedy = at(s, 1) == at(s, 0);
        let start = if greedy {
            2int
        } else {
            1int
        };
        match operand(s.subrange(start, n), in_double_quotes) {
            Err(e) => Err(e),
            Ok(pattern) => Ok(
                if s[0] == '#' {
                    ParameterOperatorV::RemovePrefix { greedy, pattern }
                } else {
                    ParameterOperatorV::RemoveSuffix { greedy, pattern }
                },
            ),
        }
    } else {
        let colon = at(s, 0) == Some(':');
        let null_mode = if colon {
            NullMode::UnsetOrNull
        } else {
            NullMode::UnsetOnly
        };
        let k = if colon {
            1int
        } else {
            0int
        };
        match at(s, k) {
            None => Err(ParamExpansionErrorV::UnrecognizedOperator { body }),
            Some(c) => match operand(s.subrange(k + 1, n), in_double_quotes) {
                Err(e) => Err(e),
                Ok(word) => match word_operator(c, null_mode, word) {
                    Some(op) => Ok(op),
                    None => Err(ParamExpansionErrorV::UnrecognizedOperator { body }),
                },
            },
        }
    }
}

/// The parameter whose length `s` asks for: all of what follows its `#`.
pub open spec fn length_of(s: Seq<char>) -> Option<ParameterV> {
    if at(s, 0) == Some('#') {
        match bare_parameter(s.subrange(1, s.len() as int), 0, true) {
            Some((p, j)) if j == s.len() - 1 => Some(p),
            _ => None,
        }
    } else {
        None
    }
}

/// The parameter expansion that `s` writes.
pub open spec fn expansion(s: Seq<char>, in_double_quotes: bool) -> Result<
    ParameterExpansionV,
    ParamExpansionErrorV,
> {
    match length_of(s) {
        Some(parameter) => Ok(
            ParameterExpansionV { parameter, operator: ParameterOperatorV::Length },
        ),
        None => match bare_parameter(s, 0, true) {
            None => Err(ParamExpansionErrorV::InvalidParameter { body: s }),
            Some((parameter, j)) => match operator(
                s.subrange(j, s.len() as int),
                in_double_quotes,
                s,
            ) {
                Ok(operator) => Ok(ParameterExpansionV { parameter, operator }),
                Err(e) => Err(e),
            },
        },
    }
}

// ---- reading ------------------------------------------------------------------------

/// Reads characters `from` on of `v` as an operand.
fn parse_operand(v: &Vec<char>, from: usize, in_double_quotes: bool) -> (r: Result<
    Word,
    ParamExpansionError,
>)
    requires
        from <= v@.len(),
    ensures
        match operand(v@.subrange(from as int, v@.len() as int), in_double_quotes) {
            Ok(w) => r is Ok && r->Ok_0@ == w,
            Err(e) => r is Err && r->Err_0@ == e,
        },
{
    let text = text_between(v, from, v.len());
    if in_double_quotes {
        match lex_double_quoted_body(text.as_str()) {
            Ok(segments) => Ok(Word::new(segments)),
            Err(e) => Err(ParamExpansionError::Lex(e)),
        }
    } else {
        match lex_word_body(text.as_str()) {
            Ok(w) => Ok(w),
            Err(e) => Err(ParamExpansionError::Lex(e)),
        }
    }
}

/// Reads characters `from` on of `v`, the text of a whole expansion, as its
/// operator.
fn parse_operator(v: &Vec<char>, from: usize, in_double_quotes: bool) -> (r: Result<
    ParameterOperator,
    ParamExpansionError,
>)
    requires
        from <= v@.len(),
    ensures
        match operator(v@.subrange(from as int, v@.len() as int), in_double_quotes, v@) {
            Ok(op) => r is Ok && r->Ok_0@ == op,
            Err(e) => r is Err && r->Err_0@ == e,
        },
{
    let len: usize = v.len();
    let ghost s = v@.subrange(from as int, v@.len() as int);
    assert(v@.subrange(0, len as int) =~= v@);
    if from >= len {
        return Err(ParamExpansionError::UnrecognizedOperator { body: text_between(v, 0, len) });
    }
    let first = v[from];
    if first == '#' || first == '%' {
        let greedy = from + 1 < len && v[from + 1] == first;
        let start: usize = if greedy {
            from + 2
        } else {
            from + 1
        };
        assert(s.subrange(start - from, s.len() as int) =~= v@.subrange(start as int, len as int));
        let pattern = parse_operand(v, start, in_double_quotes)?;
        return Ok(
            if first == '#' {
                ParameterOperator::RemovePrefix { greedy, pattern }
            } else {
                ParameterOperator::RemoveSuffix { greedy, pattern }
            },
        );
    }
    let (null_mode, op_index) = if first == ':' {
        (NullMode::UnsetOrNull, from + 1)
    } else {
        (NullMode::UnsetOnly, from)
    };
    if op_index >= len {
        return Err(ParamExpansionError::UnrecognizedOperator { body: text_between(v, 0, len) });
    }
    assert(s.subrange(op_index - from + 1, s.len() as int) =~= v@.subrange(
        op_index + 1,
        len as int,
    ));
    let word = parse_operand(v, op_index + 1, in_double_quotes)?;
    match v[op_index] {
        '-' => Ok(ParameterOperator::UseDefault { null_mode, word }),
        '=' => Ok(ParameterOperator::AssignDefault { null_mode, word }),
        '?' => Ok(ParameterOperator::ErrorIfUnsetOrNull { null_mode, word }),
        '+' => Ok(ParameterOperator::UseAlternative { null_mode, word }),
        _ => Err(ParamExpansionError::UnrecognizedOperator { body: text_between(v, 0, len) }),
    }
}

/// Reads the text between `${` and `}`. The operand is read under the quoting
/// rules of the context, which the text alone does not tell.
pub fn parse_parameter_expansion(body: &str, in_double_quotes: bool) -> (r: Result<
    ParameterExpansion,
    ParamExpansionError,
>)
    ensures
        match expansion(body@, in_double_quotes) {
            Ok(e) => r is Ok && r->Ok_0@ == e,
            Err(e) => r is Err && r->Err_0@ == e,
        },
{
    let v = chars_of(body);
    if v.len() > 0 && v[0] == '#' {
        if let Some((parameter, len)) = bare_parameter_at(&v, 1) {
            if len == v.len() - 1 {
                return Ok(ParameterExpansion { parameter, operator: ParameterOperator::Length });
            }
        }
    }
    assert(v@.subrange(0, v@.len() as int) =~= v@);
    match bare_parameter_at(&v, 0) {
        None => Err(ParamExpansionError::InvalidParameter { body: body.to_owned() }),
        Some((parameter, consumed)) => {
            let operator = parse_operator(&v, consumed, in_double_quotes)?;
            Ok(ParameterExpansion { parameter, operator })
        },
    }
}

} // verus!
