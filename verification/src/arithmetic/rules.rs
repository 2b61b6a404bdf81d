//! How an arithmetic expansion is read: the quoting rules of its body, and the
//! tokens and grammar of the expression that the body expands to.

use vstd::prelude::*;

use super::{ArithAssignOp, ArithBinaryOp, ArithUnaryOp, IncrDecrOp, Punct};
use crate::lexer::laws::{
    lemma_backquoted_weight, lemma_dollar_weight, lemma_weights_flush, lemma_weights_push,
};
use crate::lexer::rules::{
    at, backquoted, digits_end, dollar, double_quote_escapable, flush, left, name_end, past, pos,
};
use crate::lexer::LexError;
use crate::numbers::{decimal, integer_of};
use crate::text::{is_digit, is_letter, is_name_start, is_whitespace};
use crate::token::{weights, WordSegmentV};

verus! {

/// View of [`super::ArithExpr`].
pub ghost enum ArithExprV {
    Number(i64),
    Variable(Seq<char>),
    Unary { op: ArithUnaryOp, operand: Box<ArithExprV> },
    IncrDecr { op: IncrDecrOp, target: Seq<char>, prefix: bool },
    Binary { op: ArithBinaryOp, lhs: Box<ArithExprV>, rhs: Box<ArithExprV> },
    Conditional { cond: Box<ArithExprV>, if_true: Box<ArithExprV>, if_false: Box<ArithExprV> },
    Assign { op: ArithAssignOp, target: Seq<char>, value: Box<ArithExprV> },
    Comma { first: Box<ArithExprV>, second: Box<ArithExprV> },
}

/// View of [`super::ArithError`].
pub ghost enum ArithErrorV {
    TrailingBackslash { pos: usize },
    UnexpectedChar { found: char, pos: usize },
    UnexpectedEnd { expected: Seq<char> },
    UnexpectedToken { expected: Seq<char>, pos: usize },
    NotAnIdentifier { op: Seq<char>, pos: usize },
    InvalidBase { base: Seq<char>, pos: usize },
    DigitOutOfRange { digit: char, base: u32, pos: usize },
    Lex(LexError),
}

// ---- the body ---------------------------------------------------------------------

/// The segments of an arithmetic body from `i` on, with `lit` and `segs` read so
/// far. Backslashes escape as inside double quotes; a bare `"` vanishes; `'` is
/// an ordinary character.
pub open spec fn body(s: Seq<char>, i: int, lit: Seq<char>, segs: Seq<WordSegmentV>) -> Result<
    Seq<WordSegmentV>,
    ArithErrorV,
>
    decreases left(s, i),
{
    if i >= s.len() {
        Ok(flush(lit, segs))
    } else if s[i] == '\\' {
        match at(s, i + 1) {
            None => Err(ArithErrorV::TrailingBackslash { pos: pos(s, i) }),
            Some(c) => if double_quote_escapable(Some(c)) {
                body(s, i + 2, lit.push(c), segs)
            } else if c == '\n' {
                body(s, i + 2, lit, segs)
            } else {
                body(s, i + 2, lit.push('\\').push(c), segs)
            },
        }
    } else if s[i] == '"' {
        body(s, i + 1, lit, segs)
    } else if s[i] == '$' {
        match dollar(s.subrange(i, s.len() as int), 0) {
            Ok((WordSegmentV::Literal(t), j)) => body(s, past(i, i + j), lit + t, segs),
            Ok((seg, j)) => body(s, past(i, i + j), Seq::empty(), flush(lit, segs).push(seg)),
            Err(e) => Err(ArithErrorV::Lex(e)),
        }
    } else if s[i] == '`' {
        match backquoted(s.subrange(i, s.len() as int), 0) {
            Ok((seg, j)) => body(s, past(i, i + j), Seq::empty(), flush(lit, segs).push(seg)),
            Err(e) => Err(ArithErrorV::Lex(e)),
        }
    } else {
        body(s, i + 1, lit.push(s[i]), segs)
    }
}

/// The segments of a body weigh no more than the text from `i` on is long.
pub proof fn lemma_body_weight(
    s: Seq<char>,
    i: int,
    lit: Seq<char>,
    segs: Seq<WordSegmentV>,
    n: nat,
)
    requires
        0 <= i <= s.len(),
        weights(segs) <= n,
        s.len() - i <= n,
    ensures
        body(s, i, lit, segs) matches Ok(out) ==> weights(out) <= n,
    decreases left(s, i),
{
    let flushed = flush(lit, segs);
    lemma_weights_flush(lit, segs, n);
    if i < s.len() {
        let tail = s.subrange(i, s.len() as int);
        if s[i] == '\\' {
            if let Some(c) = at(s, i + 1) {
                lemma_body_weight(s, i + 2, lit.push(c), segs, n);
                lemma_body_weight(s, i + 2, lit, segs, n);
                lemma_body_weight(s, i + 2, lit.push('\\').push(c), segs, n);
            }
        } else if s[i] == '"' {
            lemma_body_weight(s, i + 1, lit, segs, n);
        } else if s[i] == '$' {
            lemma_dollar_weight(tail, 0);
            match dollar(tail, 0) {
                Ok((WordSegmentV::Literal(t), j)) => {
                    lemma_body_weight(s, i + j, lit + t, segs, n);
                },
                Ok((seg, j)) => {
                    lemma_weights_push(flushed, seg, n);
                    lemma_body_weight(s, i + j, Seq::empty(), flushed.push(seg), n);
                },
                Err(_) => {},
            }
        } else if s[i] == '`' {
            lemma_backquoted_weight(tail, 0);
            if let Ok((seg, j)) = backquoted(tail, 0) {
                lemma_weights_push(flushed, seg, n);
                lemma_body_weight(s, i + j, Seq::empty(), flushed.push(seg), n);
            }
        } else {
            lemma_body_weight(s, i + 1, lit.push(s[i]), segs, n);
        }
    }
}

// ---- numbers ----------------------------------------------------------------------

/// Two to the power of sixty-four.
pub open spec fn two64() -> int {
    0x1_0000_0000_0000_0000
}

/// The 64-bit signed integer that is congruent to `n`.
pub open spec fn wrap64(n: int) -> i64 {
    let m = n % two64();
    if m > i64::MAX {
        (m - two64()) as i64
    } else {
        m as i64
    }
}

/// The value of a digit. Letters of both cases mean the same up to base 36;
/// beyond it, capitals follow the small letters, then come `@` and `_`.
pub open spec fn digit_value(c: char, base: nat) -> Option<nat> {
    if is_digit(c) {
        Some((c as int - '0' as int) as nat)
    } else if 'a' <= c && c <= 'z' {
        Some((c as int - 'a' as int + 10) as nat)
    } else if 'A' <= c && c <= 'Z' {
        if base <= 36 {
            Some((c as int - 'A' as int + 10) as nat)
        } else {
            Some((c as int - 'A' as int + 36) as nat)
        }
    } else if c == '@' {
        Some(62)
    } else if c == '_' {
        Some(63)
    } else {
        None
    }
}

/// `c` is a digit of `base`.
pub open spec fn valid_digit(c: char, base: nat) -> bool {
    match digit_value(c, base) {
        Some(d) => d < base,
        None => false,
    }
}

/// The first character of `s` from `i` on that is no digit of `base`.
pub open spec fn first_bad_digit(s: Seq<char>, base: nat, i: int) -> Option<char>
    decreases s.len() - i,
{
    if i >= s.len() {
        None
    } else if valid_digit(s[i], base) {
        first_bad_digit(s, base, i + 1)
    } else {
        Some(s[i])
    }
}

/// The number that the digits of `s` write in `base`.
pub open spec fn base_value(s: Seq<char>, base: nat) -> nat
    decreases s.len(),
{
    if s.len() == 0 {
        0
    } else {
        base_value(s.drop_last(), base) * base + digit_value(s.last(), base)->0
    }
}

/// Reads `s` as digits of `base`, for the literal at `pos`.
pub open spec fn read_digits(s: Seq<char>, base: nat, pos: usize, empty_is_zero: bool) -> Result<
    nat,
    ArithErrorV,
> {
    if s.len() == 0 {
        if empty_is_zero {
            Ok(0)
        } else {
            Err(
                ArithErrorV::UnexpectedEnd {
                    expected: "at least one digit after the arithmetic base prefix"@,
                },
            )
        }
    } else {
        match first_bad_digit(s, base, 0) {
            Some(digit) => Err(ArithErrorV::DigitOutOfRange { digit, base: base as u32, pos }),
            None => Ok(base_value(s, base)),
        }
    }
}

/// The index of the first `#` from `i` on, or the length of `s`.
pub open spec fn hash_index(s: Seq<char>, i: int) -> int
    decreases s.len() - i,
{
    if i >= s.len() || s[i] == '#' {
        i
    } else {
        hash_index(s, i + 1)
    }
}

/// The number that the literal `s` writes, before it is cut to 64 bits:
/// hexadecimal, in an explicit base, octal or decimal.
pub open spec fn literal(s: Seq<char>, pos: usize) -> Result<nat, ArithErrorV> {
    let n = s.len() as int;
    let hash = hash_index(s, 0);
    if s.len() >= 2 && s[0] == '0' && (s[1] == 'x' || s[1] == 'X') {
        read_digits(s.subrange(2, n), 16, pos, true)
    } else if hash < s.len() {
        let base_text = s.subrange(0, hash);
        match integer_of(base_text, false) {
            Some(base) if base <= u32::MAX => if 2 <= base <= 64 {
                read_digits(s.subrange(hash + 1, n), base as nat, pos, false)
            } else {
                Err(ArithErrorV::InvalidBase { base: decimal(base), pos })
            },
            _ => Err(ArithErrorV::InvalidBase { base: base_text, pos }),
        }
    } else if s.len() > 1 && s[0] == '0' {
        read_digits(s.subrange(1, n), 8, pos, true)
    } else {
        read_digits(s, 10, pos, true)
    }
}

// ---- tokens -----------------------------------------------------------------------

/// View of [`super::Tok`].
pub ghost enum TokV {
    Number(i64),
    Ident(Seq<char>),
    Punct(Punct),
}

/// A token and the byte offset at which it stands.
pub ghost struct PlacedTokV {
    pub tok: TokV,
    pub pos: usize,
}

/// The end of the run of whitespace at `i`.
pub open spec fn spaces_end(s: Seq<char>, i: int) -> int
    decreases left(s, i),
{
    if 0 <= i < s.len() && is_whitespace(s[i]) {
        spaces_end(s, i + 1)
    } else {
        i
    }
}

/// A character of a literal in an explicit base.
#[verifier::allow_in_spec]
pub fn is_base_digit(c: char) -> bool
    returns
        is_digit(c) || is_letter(c) || c == '_' || c == '@',
{
    is_digit(c) || is_letter(c) || c == '_' || c == '@'
}

/// A hexadecimal digit.
#[verifier::allow_in_spec]
pub fn is_hex_digit(c: char) -> bool
    returns
        is_digit(c) || ('a' <= c && c <= 'f') || ('A' <= c && c <= 'F'),
{
    is_digit(c) || ('a' <= c && c <= 'f') || ('A' <= c && c <= 'F')
}

/// The end of the run of base digits at `i`.
pub open spec fn base_digits_end(s: Seq<char>, i: int) -> int
    decreases left(s, i),
{
    if 0 <= i < s.len() && is_base_digit(s[i]) {
        base_digits_end(s, i + 1)
    } else {
        i
    }
}

/// The end of the run of hexadecimal digits at `i`.
pub open spec fn hex_digits_end(s: Seq<char>, i: int) -> int
    decreases left(s, i),
{
    if 0 <= i < s.len() && is_hex_digit(s[i]) {
        hex_digits_end(s, i + 1)
    } else {
        i
    }
}

/// The end of the number literal at `i`.
pub open spec fn number_end(s: Seq<char>, i: int) -> int {
    let j = digits_end(s, i);
    if at(s, j) == Some('#') {
        base_digits_end(s, j + 1)
    } else if (at(s, j) == Some('x') || at(s, j) == Some('X')) && j == i + 1 && s[i] == '0' {
        hex_digits_end(s, j + 1)
    } else {
        j
    }
}

pub proof fn lemma_runs_end(s: Seq<char>, i: int)
    ensures
        spaces_end(s, i) >= i,
        i <= s.len() ==> spaces_end(s, i) <= s.len(),
        base_digits_end(s, i) >= i,
        i <= s.len() ==> base_digits_end(s, i) <= s.len(),
        hex_digits_end(s, i) >= i,
        i <= s.len() ==> hex_digits_end(s, i) <= s.len(),
    decreases left(s, i),
{
    if 0 <= i < s.len() {
        lemma_runs_end(s, i + 1);
    }
}

/// The longest punctuation at `i`, and its end.
pub open spec fn punct(s: Seq<char>, i: int) -> Option<(Punct, int)> {
    let c = s[i];
    let n = at(s, i + 1);
    let doubled = n == Some(c);
    let assigns = n == Some('=');
    let assigns_doubled = at(s, i + 2) == Some('=');
    if c == '(' {
        Some((Punct::LParen, i + 1))
    } else if c == ')' {
        Some((Punct::RParen, i + 1))
    } else if c == '?' {
        Some((Punct::Question, i + 1))
    } else if c == ':' {
        Some((Punct::Colon, i + 1))
    } else if c == ',' {
        Some((Punct::Comma, i + 1))
    } else if c == '~' {
        Some((Punct::Tilde, i + 1))
    } else if c == '+' {
        Some(
            if doubled {
                (Punct::PlusPlus, i + 2)
            } else if assigns {
                (Punct::PlusEq, i + 2)
            } else {
                (Punct::Plus, i + 1)
            },
        )
    } else if c == '-' {
        Some(
            if doubled {
                (Punct::MinusMinus, i + 2)
            } else if assigns {
                (Punct::MinusEq, i + 2)
            } else {
                (Punct::Minus, i + 1)
            },
        )
    } else if c == '*' {
        Some(
            if doubled {
                (Punct::StarStar, i + 2)
            } else if assigns {
                (Punct::StarEq, i + 2)
            } else {
                (Punct::Star, i + 1)
            },
        )
    } else if c == '/' {
        Some(
            if assigns {
                (Punct::SlashEq, i + 2)
            } else {
                (Punct::Slash, i + 1)
            },
        )
    } else if c == '%' {
        Some(
            if assigns {
                (Punct::PercentEq, i + 2)
            } else {
                (Punct::Percent, i + 1)
            },
        )
    } else if c == '<' {
        Some(
            if doubled && assigns_doubled {
                (Punct::ShlEq, i + 3)
            } else if doubled {
                (Punct::Shl, i + 2)
            } else if assigns {
                (Punct::Le, i + 2)
            } else {
                (Punct::Lt, i + 1)
            },
        )
    } else if c == '>' {
        Some(
            if doubled && assigns_doubled {
                (Punct::ShrEq, i + 3)
            } else if doubled {
                (Punct::Shr, i + 2)
            } else if assigns {
                (Punct::Ge, i + 2)
            } else {
                (Punct::Gt, i + 1)
            },
        )
    } else if c == '=' {
        Some(
            if doubled {
                (Punct::EqEq, i + 2)
            } else {
                (Punct::Assign, i + 1)
            },
        )
    } else if c == '!' {
        Some(
            if assigns {
                (Punct::NotEq, i + 2)
            } else {
                (Punct::Bang, i + 1)
            },
        )
    } else if c == '&' {
        Some(
            if doubled {
                (Punct::AmpAmp, i + 2)
            } else if assigns {
                (Punct::AmpEq, i + 2)
            } else {
                (Punct::Amp, i + 1)
            },
        )
    } else if c == '|' {
        Some(
            if doubled {
                (Punct::PipePipe, i + 2)
            } else if assigns {
                (Punct::PipeEq, i + 2)
            } else {
                (Punct::Pipe, i + 1)
            },
        )
    } else if c == '^' {
        Some(
            if assigns {
                (Punct::CaretEq, i + 2)
            } else {
                (Punct::Caret, i + 1)
            },
        )
    } else {
        None
    }
}

/// The token at `i`, where no whitespace stands, and its end.
pub open spec fn token_at(s: Seq<char>, i: int) -> Result<(TokV, int), ArithErrorV> {
    if is_digit(s[i]) {
        match literal(s.subrange(i, number_end(s, i)), pos(s, i)) {
            Ok(n) => Ok((TokV::Number(wrap64(n as int)), number_end(s, i))),
            Err(e) => Err(e),
        }
    } else if is_name_start(s[i]) {
        Ok((TokV::Ident(s.subrange(i, name_end(s, i))), name_end(s, i)))
    } else {
        match punct(s, i) {
            Some((p, j)) => Ok((TokV::Punct(p), j)),
            None => Err(ArithErrorV::UnexpectedChar { found: s[i], pos: pos(s, i) }),
        }
    }
}

/// The tokens from `i` on, after those in `acc`.
pub open spec fn tokens(s: Seq<char>, i: int, acc: Seq<PlacedTokV>) -> Result<
    Seq<PlacedTokV>,
    ArithErrorV,
>
    decreases left(s, i),
{
    proof {
        lemma_runs_end(s, i);
    }
    let j = spaces_end(s, i);
    if j >= s.len() {
        Ok(acc)
    } else {
        match token_at(s, j) {
            Ok((tok, k)) => tokens(s, past(j, k), acc.push(PlacedTokV { tok, pos: pos(s, j) })),
            Err(e) => Err(e),
        }
    }
}

// ---- the grammar --------------------------------------------------------------------

/// What is parsed: the tokens, and the byte length of their source.
pub ghost struct Tokens {
    pub toks: Seq<PlacedTokV>,
    pub source_len: usize,
}

/// What a rule gives.
pub type Parsed = Result<(ArithExprV, int), ArithErrorV>;

/// How many tokens are left from `i` on.
pub open spec fn ahead(p: Tokens, i: int) -> nat {
    if i < p.toks.len() {
        (p.toks.len() - i) as nat
    } else {
        0
    }
}

/// `j`, or `i` if that comes later.
pub open spec fn onward(i: int, j: int) -> int {
    if j > i {
        j
    } else {
        i
    }
}

/// Token `i`, if there is one.
pub open spec fn tok_at(p: Tokens, i: int) -> Option<TokV> {
    if 0 <= i < p.toks.len() {
        Some(p.toks[i].tok)
    } else {
        None
    }
}

/// The punctuation at `i`, if token `i` is one.
pub open spec fn punct_at(p: Tokens, i: int) -> Option<Punct> {
    match tok_at(p, i) {
        Some(TokV::Punct(q)) => Some(q),
        _ => None,
    }
}

/// The byte offset of token `i`, or of the end of the source.
pub open spec fn pos_at(p: Tokens, i: int) -> usize {
    if 0 <= i < p.toks.len() {
        p.toks[i].pos
    } else {
        p.source_len
    }
}

/// The error for token `i` where `expected` should stand.
#[verifier::opaque]
pub open spec fn unexpected(p: Tokens, i: int, expected: Seq<char>) -> ArithErrorV {
    if 0 <= i < p.toks.len() {
        ArithErrorV::UnexpectedToken { expected, pos: pos_at(p, i) }
    } else {
        ArithErrorV::UnexpectedEnd { expected }
    }
}

/// The name that `e` is, which `op` requires.
pub open spec fn identifier(e: ArithExprV, op: Seq<char>, pos: usize) -> Result<
    Seq<char>,
    ArithErrorV,
> {
    match e {
        ArithExprV::Variable(name) => Ok(name),
        _ => Err(ArithErrorV::NotAnIdentifier { op, pos }),
    }
}

/// A number, a variable or a parenthesized expression.
pub open spec fn primary(p: Tokens, i: int) -> Parsed
    decreases ahead(p, i), 0nat,
{
    match tok_at(p, i) {
        Some(TokV::Number(n)) => Ok((ArithExprV::Number(n), i + 1)),
        Some(TokV::Ident(name)) => Ok((ArithExprV::Variable(name), i + 1)),
        Some(TokV::Punct(Punct::LParen)) => match comma(p, i + 1) {
            Err(e) => Err(e),
            Ok((inner, j)) => if punct_at(p, j) == Some(Punct::RParen) {
                Ok((inner, j + 1))
            } else {
                Err(unexpected(p, j, "')'"@))
            },
        },
        _ => Err(unexpected(p, i, "an operand"@)),
    }
}

/// A primary with `++` or `--` after it, perhaps.
pub open spec fn postfix(p: Tokens, i: int) -> Parsed
    decreases ahead(p, i), 1nat,
{
    match primary(p, i) {
        Err(e) => Err(e),
        Ok((e, j)) => match punct_at(p, j) {
            Some(Punct::PlusPlus) => match identifier(e, "id++"@, pos_at(p, i)) {
                Ok(target) => Ok(
                    (
                        ArithExprV::IncrDecr { op: IncrDecrOp::Increment, target, prefix: false },
                        j + 1,
                    ),
                ),
                Err(e) => Err(e),
            },
            Some(Punct::MinusMinus) => match identifier(e, "id--"@, pos_at(p, i)) {
                Ok(target) => Ok(
                    (
                        ArithExprV::IncrDecr { op: IncrDecrOp::Decrement, target, prefix: false },
                        j + 1,
                    ),
                ),
                Err(e) => Err(e),
            },
            _ => Ok((e, j)),
        },
    }
}

/// The unary operator that `q` is.
pub open spec fn unary_op(q: Punct) -> Option<ArithUnaryOp> {
    match q {
        Punct::Plus => Some(ArithUnaryOp::Plus),
        Punct::Minus => Some(ArithUnaryOp::Minus),
        Punct::Bang => Some(ArithUnaryOp::LogicalNot),
        Punct::Tilde => Some(ArithUnaryOp::BitNot),
        _ => None,
    }
}

/// A postfix expression with unary operators, `++` and `--` before it.
pub open spec fn unary(p: Tokens, i: int) -> Parsed
    decreases ahead(p, i), 2nat,
{
    match punct_at(p, i) {
        Some(Punct::PlusPlus) => match unary(p, i + 1) {
            Err(e) => Err(e),
            Ok((e, j)) => match identifier(e, "++id"@, pos_at(p, i)) {
                Ok(target) => Ok(
                    (ArithExprV::IncrDecr { op: IncrDecrOp::Increment, target, prefix: true }, j),
                ),
                Err(e) => Err(e),
            },
        },
        Some(Punct::MinusMinus) => match unary(p, i + 1) {
            Err(e) => Err(e),
            Ok((e, j)) => match identifier(e, "--id"@, pos_at(p, i)) {
                Ok(target) => Ok(
                    (ArithExprV::IncrDecr { op: IncrDecrOp::Decrement, target, prefix: true }, j),
                ),
                Err(e) => Err(e),
            },
        },
        Some(q) if unary_op(q) is Some => match unary(p, i + 1) {
            Err(e) => Err(e),
            Ok((e, j)) => Ok(
                (ArithExprV::Unary { op: unary_op(q)->0, operand: Box::new(e) }, j),
            ),
        },
        _ => postfix(p, i),
    }
}

/// `**`, which groups to the right.
pub open spec fn power(p: Tokens, i: int) -> Parsed
    decreases ahead(p, i), 3nat,
{
    match unary(p, i) {
        Err(e) => Err(e),
        Ok((base, next)) => {
            let j = onward(i, next);
            if punct_at(p, j) == Some(Punct::StarStar) {
                match power(p, j + 1) {
                    Err(e) => Err(e),
                    Ok((exp, k)) => Ok((binary_expr(ArithBinaryOp::Power, base, exp), k)),
                }
            } else {
                Ok((base, j))
            }
        },
    }
}

/// The expression `lhs op rhs`.
pub open spec fn binary_expr(op: ArithBinaryOp, lhs: ArithExprV, rhs: ArithExprV) -> ArithExprV {
    ArithExprV::Binary { op, lhs: Box::new(lhs), rhs: Box::new(rhs) }
}

/// The binary operator that `q` is at a level of precedence: the products are
/// at level 1, `||` is at level 10.
pub open spec fn binary_op(q: Punct, level: nat) -> Option<ArithBinaryOp> {
    match q {
        Punct::Star if level == 1 => Some(ArithBinaryOp::Mul),
        Punct::Slash if level == 1 => Some(ArithBinaryOp::Div),
        Punct::Percent if level == 1 => Some(ArithBinaryOp::Rem),
        Punct::Plus if level == 2 => Some(ArithBinaryOp::Add),
        Punct::Minus if level == 2 => Some(ArithBinaryOp::Sub),
        Punct::Shl if level == 3 => Some(ArithBinaryOp::ShiftLeft),
        Punct::Shr if level == 3 => Some(ArithBinaryOp::ShiftRight),
        Punct::Lt if level == 4 => Some(ArithBinaryOp::Less),
        Punct::Le if level == 4 => Some(ArithBinaryOp::LessEq),
        Punct::Gt if level == 4 => Some(ArithBinaryOp::Greater),
        Punct::Ge if level == 4 => Some(ArithBinaryOp::GreaterEq),
        Punct::EqEq if level == 5 => Some(ArithBinaryOp::Eq),
        Punct::NotEq if level == 5 => Some(ArithBinaryOp::NotEq),
        Punct::Amp if level == 6 => Some(ArithBinaryOp::BitAnd),
        Punct::Caret if level == 7 => Some(ArithBinaryOp::BitXor),
        Punct::Pipe if level == 8 => Some(ArithBinaryOp::BitOr),
        Punct::AmpAmp if level == 9 => Some(ArithBinaryOp::LogicalAnd),
        Punct::PipePipe if level == 10 => Some(ArithBinaryOp::LogicalOr),
        _ => None,
    }
}

/// The binary operator of a level at `i`, if there is one.
pub open spec fn binary_op_at(p: Tokens, i: int, level: nat) -> Option<ArithBinaryOp> {
    match punct_at(p, i) {
        Some(q) => binary_op(q, level),
        None => None,
    }
}

/// Operands of the next tighter level joined by the operators of this one,
/// grouped to the left. Level 0 is `**`.
pub open spec fn binary(p: Tokens, i: int, level: nat) -> Parsed
    decreases ahead(p, i), 4nat + level,
{
    if level == 0 {
        power(p, i)
    } else {
        match binary(p, i, (level - 1) as nat) {
            Err(e) => Err(e),
            Ok((lhs, j)) => binary_rest(p, onward(i, j), level, lhs),
        }
    }
}

/// The rest of a chain of operators of one level, after `lhs`.
pub open spec fn binary_rest(p: Tokens, i: int, level: nat, lhs: ArithExprV) -> Parsed
    decreases ahead(p, i), 0nat,
{
    match binary_op_at(p, i, level) {
        None => Ok((lhs, i)),
        Some(op) => match binary(p, i + 1, (level - 1) as nat) {
            Err(e) => Err(e),
            Ok((rhs, j)) => binary_rest(p, onward(i + 1, j), level, binary_expr(op, lhs, rhs)),
        },
    }
}

/// `cond ? if_true : if_false`. The middle may be any expression; the last
/// part is again a conditional.
pub open spec fn conditional(p: Tokens, i: int) -> Parsed
    decreases ahead(p, i), 20nat,
{
    match binary(p, i, 10) {
        Err(e) => Err(e),
        Ok((cond, next)) => {
            let j = onward(i, next);
            if punct_at(p, j) == Some(Punct::Question) {
                match comma(p, j + 1) {
                    Err(e) => Err(e),
                    Ok((if_true, next)) => {
                        let k = onward(j + 1, next);
                        if punct_at(p, k) == Some(Punct::Colon) {
                            match conditional(p, k + 1) {
                                Err(e) => Err(e),
                                Ok((if_false, m)) => Ok(
                                    (conditional_expr(cond, if_true, if_false), m),
                                ),
                            }
                        } else {
                            Err(unexpected(p, k, "':'"@))
                        }
                    },
                }
            } else {
                Ok((cond, j))
            }
        },
    }
}

/// The expression `cond ? if_true : if_false`.
pub open spec fn conditional_expr(
    cond: ArithExprV,
    if_true: ArithExprV,
    if_false: ArithExprV,
) -> ArithExprV {
    ArithExprV::Conditional {
        cond: Box::new(cond),
        if_true: Box::new(if_true),
        if_false: Box::new(if_false),
    }
}

/// The assignment operator that `q` is.
pub open spec fn assign_op(q: Punct) -> Option<ArithAssignOp> {
    match q {
        Punct::Assign => Some(ArithAssignOp::Assign),
        Punct::PlusEq => Some(ArithAssignOp::AddAssign),
        Punct::MinusEq => Some(ArithAssignOp::SubAssign),
        Punct::StarEq => Some(ArithAssignOp::MulAssign),
        Punct::SlashEq => Some(ArithAssignOp::DivAssign),
        Punct::PercentEq => Some(ArithAssignOp::RemAssign),
        Punct::ShlEq => Some(ArithAssignOp::ShiftLeftAssign),
        Punct::ShrEq => Some(ArithAssignOp::ShiftRightAssign),
        Punct::AmpEq => Some(ArithAssignOp::BitAndAssign),
        Punct::CaretEq => Some(ArithAssignOp::BitXorAssign),
        Punct::PipeEq => Some(ArithAssignOp::BitOrAssign),
        _ => None,
    }
}

/// The assignment operator at `i`, if there is one.
pub open spec fn assign_op_at(p: Tokens, i: int) -> Option<ArithAssignOp> {
    match punct_at(p, i) {
        Some(q) => assign_op(q),
        None => None,
    }
}

/// An assignment to a variable, which groups to the right, or a conditional.
pub open spec fn assignment(p: Tokens, i: int) -> Parsed
    decreases ahead(p, i), 21nat,
{
    match conditional(p, i) {
        Err(e) => Err(e),
        Ok((lhs, next)) => {
            let j = onward(i, next);
            match assign_op_at(p, j) {
                None => Ok((lhs, j)),
                Some(op) => match identifier(lhs, "assignment"@, pos_at(p, i)) {
                    Err(e) => Err(e),
                    Ok(target) => match assignment(p, j + 1) {
                        Err(e) => Err(e),
                        Ok((value, k)) => Ok(
                            (ArithExprV::Assign { op, target, value: Box::new(value) }, k),
                        ),
                    },
                },
            }
        },
    }
}

/// Assignments joined by commas, grouped to the left.
pub open spec fn comma(p: Tokens, i: int) -> Parsed
    decreases ahead(p, i), 22nat,
{
    match assignment(p, i) {
        Err(e) => Err(e),
        Ok((first, j)) => comma_rest(p, onward(i, j), first),
    }
}

/// The rest of a comma expression, after `first`.
pub open spec fn comma_rest(p: Tokens, i: int, first: ArithExprV) -> Parsed
    decreases ahead(p, i), 0nat,
{
    if punct_at(p, i) == Some(Punct::Comma) {
        match assignment(p, i + 1) {
            Err(e) => Err(e),
            Ok((second, j)) => comma_rest(
                p,
                onward(i + 1, j),
                ArithExprV::Comma { first: Box::new(first), second: Box::new(second) },
            ),
        }
    } else {
        Ok((first, i))
    }
}

/// The expression that the tokens write; without any, zero.
pub open spec fn whole(p: Tokens) -> Result<ArithExprV, ArithErrorV> {
    if p.toks.len() == 0 {
        Ok(ArithExprV::Number(0))
    } else {
        match comma(p, 0) {
            Err(e) => Err(e),
            Ok((e, j)) => if j < p.toks.len() {
                Err(
                    ArithErrorV::UnexpectedToken {
                        expected: "end of expression"@,
                        pos: pos_at(p, j),
                    },
                )
            } else {
                Ok(e)
            },
        }
    }
}

/// The expression that `s` writes.
pub open spec fn expression(s: Seq<char>) -> Result<ArithExprV, ArithErrorV> {
    match tokens(s, 0, Seq::empty()) {
        Err(e) => Err(e),
        Ok(toks) => whole(Tokens { toks, source_len: pos(s, s.len() as int) }),
    }
}

} // verus!
