//! The lexical rules: what each stretch of input is read as.
//!
//! Positions are character indices into the input `s`. A rule that finds the
//! end of a construct gives the index just past it; `open` is where the
//! construct was opened, which is what an error reports.

use vstd::prelude::*;

use crate::lexer::LexError;
use crate::numbers::nat_of;
use crate::text::{is_digit, is_name_char, is_name_start, offset_of};
use crate::token::{
    Operator, ParameterV, Span, SpecialParameter, SubstitutionStyle, TokenKindV, TokenV,
    WordSegmentV,
};

verus! {

/// Where an unquoted word ends, besides at the end of the input.
#[derive(Debug, Clone, Copy, PartialEq, Eq, Structural)]
pub enum Boundary {
    /// At a blank, a newline or an operator character.
    Delimiter,
    /// Nowhere else.
    EndOfInput,
}

/// What a run of balanced parentheses belongs to.
#[derive(Debug, Clone, Copy, PartialEq, Eq, Structural)]
pub enum BalanceContext {
    CommandSubstitution,
    Arithmetic,
}

// ---- positions --------------------------------------------------------------------

/// The character at `i`, if there is one.
pub open spec fn at(s: Seq<char>, i: int) -> Option<char> {
    if 0 <= i < s.len() {
        Some(s[i])
    } else {
        None
    }
}

/// How many characters are left from `i` on.
pub open spec fn left(s: Seq<char>, i: int) -> nat {
    if i < s.len() {
        (s.len() - i) as nat
    } else {
        0
    }
}

/// The byte offset of character `i`.
pub open spec fn pos(s: Seq<char>, i: int) -> usize {
    offset_of(s, i) as usize
}

/// The place to go on from after a construct at `i` that ends at `j`.
pub open spec fn past(i: int, j: int) -> int {
    if j > i {
        j
    } else {
        i + 1
    }
}

// ---- finding the end of a construct -------------------------------------------------

/// Past the first `'` at or after `i`.
pub open spec fn single_quote_end(s: Seq<char>, i: int, open: int) -> Result<int, LexError>
    decreases left(s, i),
{
    if i >= s.len() {
        Err(LexError::UnterminatedSingleQuote { start: pos(s, open) })
    } else if s[i] == '\'' {
        Ok(i + 1)
    } else {
        single_quote_end(s, i + 1, open)
    }
}

/// A character that a backslash escapes inside backquotes.
pub open spec fn backquote_escapable(c: Option<char>) -> bool {
    c == Some('`') || c == Some('$') || c == Some('\\')
}

/// A character that a backslash escapes inside double quotes, besides a
/// newline.
pub open spec fn double_quote_escapable(c: Option<char>) -> bool {
    c == Some('$') || c == Some('`') || c == Some('"') || c == Some('\\')
}

/// Past the first unescaped backquote at or after `i`.
pub open spec fn backquote_end(s: Seq<char>, i: int, open: int) -> Result<int, LexError>
    decreases left(s, i),
{
    if i >= s.len() {
        Err(LexError::UnterminatedBackquote { start: pos(s, open) })
    } else if s[i] == '\\' && backquote_escapable(at(s, i + 1)) {
        backquote_end(s, i + 2, open)
    } else if s[i] == '`' {
        Ok(i + 1)
    } else {
        backquote_end(s, i + 1, open)
    }
}

/// Past the `$(...)`, `$((...))` or `${...}` that stands at `i`, if one does.
pub open spec fn nested_end(s: Seq<char>, i: int) -> Option<Result<int, LexError>>
    decreases left(s, i), 0nat,
{
    if at(s, i) != Some('$') {
        None
    } else if at(s, i + 1) == Some('(') {
        if at(s, i + 2) == Some('(') {
            Some(parens_end(s, i + 3, 2, false, BalanceContext::Arithmetic, i))
        } else {
            Some(parens_end(s, i + 2, 1, false, BalanceContext::CommandSubstitution, i))
        }
    } else if at(s, i + 1) == Some('{') {
        Some(brace_end(s, i + 2, i))
    } else {
        None
    }
}

/// Past the `"` that closes a double-quoted region whose content goes on at
/// `i`. A nested construct is passed over as a whole.
pub open spec fn double_quote_end(s: Seq<char>, i: int, open: int) -> Result<int, LexError>
    decreases left(s, i), 1nat,
{
    if i >= s.len() {
        Err(LexError::UnterminatedDoubleQuote { start: pos(s, open) })
    } else {
        match nested_end(s, i) {
            Some(Ok(j)) => double_quote_end(s, past(i, j), open),
            Some(Err(e)) => Err(e),
            None => if s[i] == '\\' && (double_quote_escapable(at(s, i + 1)) || at(s, i + 1)
                == Some('\n')) {
                double_quote_end(s, i + 2, open)
            } else if s[i] == '"' {
                Ok(i + 1)
            } else {
                double_quote_end(s, i + 1, open)
            },
        }
    }
}

/// Past the quoted region or escaped character that stands at `i` inside
/// `$(...)` or `${...}`, if one does.
pub open spec fn quoted_end(s: Seq<char>, i: int) -> Option<Result<int, LexError>>
    decreases left(s, i), 0nat,
{
    if at(s, i) == Some('\\') {
        if i + 1 >= s.len() {
            Some(Err(LexError::TrailingBackslash { pos: pos(s, i) }))
        } else {
            Some(Ok(i + 2))
        }
    } else if at(s, i) == Some('\'') {
        Some(single_quote_end(s, i + 1, i))
    } else if at(s, i) == Some('"') {
        Some(double_quote_end(s, i + 1, i))
    } else if at(s, i) == Some('`') {
        Some(backquote_end(s, i + 1, i))
    } else {
        None
    }
}

/// The error for parentheses that are not closed.
pub open spec fn unbalanced(ctx: BalanceContext, start: usize) -> LexError {
    match ctx {
        BalanceContext::CommandSubstitution => LexError::UnterminatedCommandSubstitution { start },
        BalanceContext::Arithmetic => LexError::UnterminatedArithmeticExpansion { start },
    }
}

/// Past the `)` that closes the last of `depth` open parentheses. `closed`: what
/// stands before `i` closed one. The two that close an arithmetic expansion have
/// to stand side by side.
pub open spec fn parens_end(
    s: Seq<char>,
    i: int,
    depth: int,
    closed: bool,
    ctx: BalanceContext,
    open: int,
) -> Result<int, LexError>
    decreases left(s, i), 1nat,
{
    if depth <= 0 {
        Ok(i)
    } else if i >= s.len() {
        Err(unbalanced(ctx, pos(s, open)))
    } else {
        match nested_end(s, i) {
            Some(Ok(j)) => parens_end(s, past(i, j), depth, false, ctx, open),
            Some(Err(e)) => Err(e),
            None => match quoted_end(s, i) {
                Some(Ok(j)) => parens_end(s, past(i, j), depth, false, ctx, open),
                Some(Err(e)) => Err(e),
                None => if s[i] == '(' {
                    parens_end(s, i + 1, depth + 1, false, ctx, open)
                } else if s[i] == ')' {
                    if depth == 1 && ctx is Arithmetic && !closed {
                        Err(unbalanced(ctx, pos(s, open)))
                    } else {
                        parens_end(s, i + 1, depth - 1, true, ctx, open)
                    }
                } else {
                    parens_end(s, i + 1, depth, false, ctx, open)
                },
            },
        }
    }
}

/// Past the `}` that closes a `${`. Bare braces do not nest.
pub open spec fn brace_end(s: Seq<char>, i: int, open: int) -> Result<int, LexError>
    decreases left(s, i), 1nat,
{
    if i >= s.len() {
        Err(LexError::UnterminatedParameterExpansion { start: pos(s, open) })
    } else {
        match nested_end(s, i) {
            Some(Ok(j)) => brace_end(s, past(i, j), open),
            Some(Err(e)) => Err(e),
            None => match quoted_end(s, i) {
                Some(Ok(j)) => brace_end(s, past(i, j), open),
                Some(Err(e)) => Err(e),
                None => if s[i] == '}' {
                    Ok(i + 1)
                } else {
                    brace_end(s, i + 1, open)
                },
            },
        }
    }
}

// ---- parameters -------------------------------------------------------------------

/// The end of the run of digits at `i`.
pub open spec fn digits_end(s: Seq<char>, i: int) -> int
    decreases left(s, i),
{
    if 0 <= i < s.len() && is_digit(s[i]) {
        digits_end(s, i + 1)
    } else {
        i
    }
}

/// The end of the run of name characters at `i`.
pub open spec fn name_end(s: Seq<char>, i: int) -> int
    decreases left(s, i),
{
    if 0 <= i < s.len() && is_name_char(s[i]) {
        name_end(s, i + 1)
    } else {
        i
    }
}

/// The special parameter that `c` names.
pub open spec fn special_parameter(c: char) -> Option<SpecialParameter> {
    if c == '@' {
        Some(SpecialParameter::At)
    } else if c == '*' {
        Some(SpecialParameter::Star)
    } else if c == '#' {
        Some(SpecialParameter::Hash)
    } else if c == '?' {
        Some(SpecialParameter::Question)
    } else if c == '-' {
        Some(SpecialParameter::Dash)
    } else if c == '$' {
        Some(SpecialParameter::Dollar)
    } else if c == '!' {
        Some(SpecialParameter::Bang)
    } else {
        None
    }
}

/// The bare parameter at `i` and its end. Without braces a positional
/// parameter is a single digit; with them (`multi_digit`) it is the whole run,
/// and a number that does not fit is no parameter.
pub open spec fn bare_parameter(s: Seq<char>, i: int, multi_digit: bool) -> Option<
    (ParameterV, int),
> {
    match at(s, i) {
        None => None,
        Some(c) => if special_parameter(c) is Some {
            Some((ParameterV::Special(special_parameter(c)->0), i + 1))
        } else if is_digit(c) {
            let j = if multi_digit {
                digits_end(s, i)
            } else {
                i + 1
            };
            let n = nat_of(s.subrange(i, j));
            if j == i + 1 && c == '0' {
                Some((ParameterV::Special(SpecialParameter::Zero), j))
            } else if n <= u32::MAX {
                Some((ParameterV::Positional(n as u32), j))
            } else {
                None
            }
        } else if is_name_start(c) {
            Some((ParameterV::Name(s.subrange(i, name_end(s, i))), name_end(s, i)))
        } else {
            None
        },
    }
}

// ---- segments ---------------------------------------------------------------------

/// The single-quoted segment that opens at `i`, and its end.
pub open spec fn single_quoted(s: Seq<char>, i: int) -> Result<(WordSegmentV, int), LexError> {
    match single_quote_end(s, i + 1, i) {
        Ok(j) => Ok((WordSegmentV::SingleQuoted(s.subrange(i + 1, j - 1)), j)),
        Err(e) => Err(e),
    }
}

/// The backquoted substitution that opens at `i`, and its end.
pub open spec fn backquoted(s: Seq<char>, i: int) -> Result<(WordSegmentV, int), LexError> {
    match backquote_end(s, i + 1, i) {
        Ok(j) => Ok(
            (
                WordSegmentV::CommandSubstitution(
                    SubstitutionStyle::Backtick,
                    s.subrange(i + 1, j - 1),
                ),
                j,
            ),
        ),
        Err(e) => Err(e),
    }
}

/// What the `${` at `i` opens, and its end: a bare parameter directly followed
/// by `}`, or else the verbatim body.
pub open spec fn braced(s: Seq<char>, i: int) -> Result<(WordSegmentV, int), LexError> {
    match bare_parameter(s, i + 2, true) {
        Some((p, j)) if at(s, j) == Some('}') => Ok((WordSegmentV::Parameter(p), j + 1)),
        _ => match brace_end(s, i + 2, i) {
            Ok(j) => Ok((WordSegmentV::ComplexParameterExpansion(s.subrange(i + 2, j - 1)), j)),
            Err(e) => Err(e),
        },
    }
}

/// What the `$` at `i` introduces, and its end. A `$` that introduces nothing
/// is itself.
pub open spec fn dollar(s: Seq<char>, i: int) -> Result<(WordSegmentV, int), LexError> {
    if at(s, i + 1) == Some('{') {
        braced(s, i)
    } else if at(s, i + 1) == Some('(') && at(s, i + 2) == Some('(') {
        match parens_end(s, i + 3, 2, false, BalanceContext::Arithmetic, i) {
            Ok(j) => Ok((WordSegmentV::ArithmeticExpansion(s.subrange(i + 3, j - 2)), j)),
            Err(e) => Err(e),
        }
    } else if at(s, i + 1) == Some('(') {
        match parens_end(s, i + 2, 1, false, BalanceContext::CommandSubstitution, i) {
            Ok(j) => Ok(
                (
                    WordSegmentV::CommandSubstitution(
                        SubstitutionStyle::DollarParen,
                        s.subrange(i + 2, j - 1),
                    ),
                    j,
                ),
            ),
            Err(e) => Err(e),
        }
    } else {
        match bare_parameter(s, i + 1, false) {
            Some((p, j)) => Ok((WordSegmentV::Parameter(p), j)),
            None => Ok((WordSegmentV::Literal(seq!['$']), i + 1)),
        }
    }
}

/// `segs` with the literal text `lit` after it, if there is any.
pub open spec fn flush(lit: Seq<char>, segs: Seq<WordSegmentV>) -> Seq<WordSegmentV> {
    if lit.len() == 0 {
        segs
    } else {
        segs.push(WordSegmentV::Literal(lit))
    }
}

/// Double-quoted content from `i` on, with `lit` and `segs` read so far, and
/// its end. The content ends at a `"`, or, where `to_end` is set, only with the
/// input; a `"` then opens a nested region.
pub open spec fn quoted_content(
    s: Seq<char>,
    i: int,
    to_end: bool,
    lit: Seq<char>,
    segs: Seq<WordSegmentV>,
) -> Result<(Seq<WordSegmentV>, int), LexError>
    decreases left(s, i), 1nat,
{
    if i >= s.len() || (!to_end && s[i] == '"') {
        Ok((flush(lit, segs), i))
    } else if s[i] == '\\' {
        if double_quote_escapable(at(s, i + 1)) {
            quoted_content(s, i + 2, to_end, lit.push(s[i + 1]), segs)
        } else if at(s, i + 1) == Some('\n') {
            quoted_content(s, i + 2, to_end, lit, segs)
        } else if at(s, i + 1) is Some {
            quoted_content(s, i + 2, to_end, lit.push('\\').push(s[i + 1]), segs)
        } else {
            Err(LexError::TrailingBackslash { pos: pos(s, i) })
        }
    } else if s[i] == '"' {
        match double_quoted(s, i) {
            Ok((seg, j)) => quoted_content(
                s,
                past(i, j),
                to_end,
                Seq::empty(),
                flush(lit, segs).push(seg),
            ),
            Err(e) => Err(e),
        }
    } else if s[i] == '$' {
        match dollar(s, i) {
            Ok((WordSegmentV::Literal(t), j)) => quoted_content(
                s,
                past(i, j),
                to_end,
                lit + t,
                segs,
            ),
            Ok((seg, j)) => quoted_content(
                s,
                past(i, j),
                to_end,
                Seq::empty(),
                flush(lit, segs).push(seg),
            ),
            Err(e) => Err(e),
        }
    } else if s[i] == '`' {
        match backquoted(s, i) {
            Ok((seg, j)) => quoted_content(
                s,
                past(i, j),
                to_end,
                Seq::empty(),
                flush(lit, segs).push(seg),
            ),
            Err(e) => Err(e),
        }
    } else {
        quoted_content(s, i + 1, to_end, lit.push(s[i]), segs)
    }
}

/// The double-quoted segment that opens at `i`, and its end.
pub open spec fn double_quoted(s: Seq<char>, i: int) -> Result<(WordSegmentV, int), LexError>
    decreases left(s, i), 0nat,
    when 0 <= i < s.len()
{
    match quoted_content(s, i + 1, false, Seq::empty(), Seq::empty()) {
        Ok((segs, j)) => if j >= s.len() {
            Err(LexError::UnterminatedDoubleQuote { start: pos(s, i) })
        } else {
            Ok((WordSegmentV::DoubleQuoted(segs), j + 1))
        },
        Err(e) => Err(e),
    }
}

/// An operator character.
#[verifier::allow_in_spec]
pub fn is_operator_char(c: char) -> bool
    returns
        c == '|' || c == '&' || c == ';' || c == '<' || c == '>' || c == '(' || c == ')',
{
    c == '|' || c == '&' || c == ';' || c == '<' || c == '>' || c == '(' || c == ')'
}

/// Whether a word ends before `c`.
pub open spec fn ends_word(b: Boundary, c: char) -> bool {
    b is Delimiter && (c == ' ' || c == '\t' || c == '\n' || is_operator_char(c))
}

/// The rest of a word from `i` on, with `lit` and `segs` read so far, and its
/// end.
pub open spec fn word_content(
    s: Seq<char>,
    i: int,
    b: Boundary,
    lit: Seq<char>,
    segs: Seq<WordSegmentV>,
) -> Result<(Seq<WordSegmentV>, int), LexError>
    decreases left(s, i),
{
    if i >= s.len() || ends_word(b, s[i]) {
        Ok((flush(lit, segs), i))
    } else if s[i] == '\'' || s[i] == '"' || s[i] == '`' {
        let seg = if s[i] == '\'' {
            single_quoted(s, i)
        } else if s[i] == '"' {
            double_quoted(s, i)
        } else {
            backquoted(s, i)
        };
        match seg {
            Ok((seg, j)) => word_content(s, past(i, j), b, Seq::empty(), flush(lit, segs).push(seg)),
            Err(e) => Err(e),
        }
    } else if s[i] == '$' {
        match dollar(s, i) {
            Ok((WordSegmentV::Literal(t), j)) => word_content(s, past(i, j), b, lit + t, segs),
            Ok((seg, j)) => word_content(s, past(i, j), b, Seq::empty(), flush(lit, segs).push(seg)),
            Err(e) => Err(e),
        }
    } else if s[i] == '\\' {
        match at(s, i + 1) {
            None => Err(LexError::TrailingBackslash { pos: pos(s, i) }),
            Some(c) => if c == '\n' {
                word_content(s, i + 2, b, lit, segs)
            } else {
                word_content(s, i + 2, b, lit.push(c), segs)
            },
        }
    } else {
        word_content(s, i + 1, b, lit.push(s[i]), segs)
    }
}

/// The word that starts at `i`, and its end.
pub open spec fn word(s: Seq<char>, i: int, b: Boundary) -> Result<
    (Seq<WordSegmentV>, int),
    LexError,
> {
    word_content(s, i, b, Seq::empty(), Seq::empty())
}

// ---- tokens -----------------------------------------------------------------------

/// The end of the run of blanks at `i`.
pub open spec fn blanks_end(s: Seq<char>, i: int) -> int
    decreases left(s, i),
{
    if 0 <= i < s.len() && (s[i] == ' ' || s[i] == '\t') {
        blanks_end(s, i + 1)
    } else {
        i
    }
}

/// The end of the line that `i` stands in.
pub open spec fn line_end(s: Seq<char>, i: int) -> int
    decreases left(s, i),
{
    if 0 <= i < s.len() && s[i] != '\n' {
        line_end(s, i + 1)
    } else {
        i
    }
}

/// The longest operator at `i`, and its end.
pub open spec fn operator(s: Seq<char>, i: int) -> (Operator, int) {
    let next = at(s, i + 1);
    if s[i] == '|' {
        if next == Some('|') {
            (Operator::OrIf, i + 2)
        } else {
            (Operator::Pipe, i + 1)
        }
    } else if s[i] == '&' {
        if next == Some('&') {
            (Operator::AndIf, i + 2)
        } else {
            (Operator::Amp, i + 1)
        }
    } else if s[i] == ';' {
        if next == Some(';') {
            (Operator::DSemi, i + 2)
        } else {
            (Operator::Semi, i + 1)
        }
    } else if s[i] == '(' {
        (Operator::LParen, i + 1)
    } else if s[i] == ')' {
        (Operator::RParen, i + 1)
    } else if s[i] == '<' {
        if next == Some('<') {
            if at(s, i + 2) == Some('-') {
                (Operator::DLessDash, i + 3)
            } else {
                (Operator::DLess, i + 2)
            }
        } else if next == Some('&') {
            (Operator::LessAnd, i + 2)
        } else if next == Some('>') {
            (Operator::LessGreat, i + 2)
        } else {
            (Operator::Less, i + 1)
        }
    } else {
        if next == Some('>') {
            (Operator::DGreat, i + 2)
        } else if next == Some('&') {
            (Operator::GreatAnd, i + 2)
        } else if next == Some('|') {
            (Operator::Clobber, i + 2)
        } else {
            (Operator::Great, i + 1)
        }
    }
}

/// The run of digits at `i` directly before `<` or `>`, and its end.
pub open spec fn io_number(s: Seq<char>, i: int) -> Option<(u32, int)> {
    let j = digits_end(s, i);
    let n = nat_of(s.subrange(i, j));
    if j > i && (at(s, j) == Some('<') || at(s, j) == Some('>')) && n <= u32::MAX {
        Some((n as u32, j))
    } else {
        None
    }
}

/// The token at `i`, where neither a blank nor a comment stands, and its end.
pub open spec fn token_at(s: Seq<char>, i: int) -> Result<(TokenKindV, int), LexError> {
    if s[i] == '\n' {
        Ok((TokenKindV::Newline, i + 1))
    } else if is_operator_char(s[i]) {
        Ok((TokenKindV::Operator(operator(s, i).0), operator(s, i).1))
    } else {
        match io_number(s, i) {
            Some((n, j)) => Ok((TokenKindV::IoNumber(n), j)),
            None => match word(s, i, Boundary::Delimiter) {
                Ok((w, j)) => Ok((TokenKindV::Word(w), j)),
                Err(e) => Err(e),
            },
        }
    }
}

/// The tokens from `i` on. Blanks separate tokens; a `#` where a token would
/// start makes the rest of its line a comment.
pub open spec fn tokens_from(s: Seq<char>, i: int, acc: Seq<TokenV>) -> Result<
    Seq<TokenV>,
    LexError,
>
    decreases left(s, i),
{
    proof {
        lemma_blanks_end(s, i);
        lemma_line_end(s, blanks_end(s, i) + 1);
    }
    let j = blanks_end(s, i);
    if j >= s.len() {
        Ok(acc)
    } else if s[j] == '#' {
        tokens_from(s, line_end(s, j + 1), acc)
    } else {
        match token_at(s, j) {
            Ok((kind, k)) => tokens_from(
                s,
                past(j, k),
                acc.push(TokenV { kind, span: Span { start: pos(s, j), end: pos(s, k) } }),
            ),
            Err(e) => Err(e),
        }
    }
}

pub proof fn lemma_blanks_end(s: Seq<char>, i: int)
    ensures
        blanks_end(s, i) >= i,
        i <= s.len() ==> blanks_end(s, i) <= s.len(),
        0 <= i && blanks_end(s, i) < s.len() ==> s[blanks_end(s, i)] != ' ' && s[blanks_end(s, i)]
            != '\t',
    decreases left(s, i),
{
    if 0 <= i < s.len() && (s[i] == ' ' || s[i] == '\t') {
        lemma_blanks_end(s, i + 1);
    }
}

pub proof fn lemma_line_end(s: Seq<char>, i: int)
    ensures
        line_end(s, i) >= i,
        i <= s.len() ==> line_end(s, i) <= s.len(),
    decreases left(s, i),
{
    if 0 <= i < s.len() && s[i] != '\n' {
        lemma_line_end(s, i + 1);
    }
}

pub proof fn lemma_digits_end(s: Seq<char>, i: int)
    ensures
        digits_end(s, i) >= i,
        i <= s.len() ==> digits_end(s, i) <= s.len(),
        forall|k: int| i <= k < digits_end(s, i) ==> is_digit(#[trigger] s[k]),
    decreases left(s, i),
{
    if 0 <= i < s.len() && is_digit(s[i]) {
        lemma_digits_end(s, i + 1);
    }
}

pub proof fn lemma_name_end(s: Seq<char>, i: int)
    ensures
        name_end(s, i) >= i,
        i <= s.len() ==> name_end(s, i) <= s.len(),
        forall|k: int| i <= k < name_end(s, i) ==> is_name_char(#[trigger] s[k]),
    decreases left(s, i),
{
    if 0 <= i < s.len() && is_name_char(s[i]) {
        lemma_name_end(s, i + 1);
    }
}

} // verus!
