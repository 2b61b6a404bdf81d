//! Arithmetic expansion: its syntax, as [`rules`] states it.
//!
//! An expansion is read in two steps. The body is first read as text with
//! expansion sites in it ([`parse_arithmetic_body`]); once those are expanded,
//! the resulting text is parsed as an expression ([`parse_arithmetic_expr`]).

use vstd::prelude::*;

use crate::lexer::rules::{at, digits_end, lemma_digits_end, lemma_name_end, name_end, pos};
use crate::lexer::{
    backquote_expansion_at, dollar_expansion_at, flush_literal, lex_error_text, LexError,
};
use crate::numbers::{decimal, parse_u32_chars, usize_to_text};
use crate::parser::debug_quote;
use crate::parser::grammar::debug_text;
use crate::text::{
    byte_len, byte_length, char_width, chars_of, is_digit, is_name_char, is_name_start,
    is_whitespace, join3, lemma_offset_monotonic, offset_of, text_between,
};
use crate::token::{
    lemma_segments_view_empty, lemma_segments_view_push, segments_view, Word, WordSegment,
};

pub mod grouping;
pub mod inner;
pub mod laws;
pub mod rules;

use rules::{
    base_value, first_bad_digit, hash_index, is_base_digit, is_hex_digit, pos_at, punct_at, tok_at,
    two64, unexpected, wrap64, ArithErrorV, ArithExprV, PlacedTokV, TokV, Tokens,
};

verus! {

/// The unary operators.
#[derive(Debug, Clone, Copy, PartialEq, Eq, Structural)]
pub enum ArithUnaryOp {
    /// `+x`
    Plus,
    /// `-x`
    Minus,
    /// `!x`
    LogicalNot,
    /// `~x`
    BitNot,
}

/// `++` and `--`.
#[derive(Debug, Clone, Copy, PartialEq, Eq, Structural)]
pub enum IncrDecrOp {
    Increment,
    Decrement,
}

/// The binary operators.
#[derive(Debug, Clone, Copy, PartialEq, Eq, Structural)]
pub enum ArithBinaryOp {
    /// `**`
    Power,
    Mul,
    Div,
    Rem,
    Add,
    Sub,
    ShiftLeft,
    ShiftRight,
    Less,
    LessEq,
    Greater,
    GreaterEq,
    Eq,
    NotEq,
    BitAnd,
    BitXor,
    BitOr,
    LogicalAnd,
    LogicalOr,
}

/// The assignment operators.
#[derive(Debug, Clone, Copy, PartialEq, Eq, Structural)]
pub enum ArithAssignOp {
    Assign,
    AddAssign,
    SubAssign,
    MulAssign,
    DivAssign,
    RemAssign,
    ShiftLeftAssign,
    ShiftRightAssign,
    BitAndAssign,
    BitXorAssign,
    BitOrAssign,
}

/// The punctuation of expressions.
#[derive(Debug, Clone, Copy, PartialEq, Eq, Structural)]
pub enum Punct {
    LParen,
    RParen,
    Plus,
    Minus,
    Star,
    StarStar,
    Slash,
    Percent,
    Bang,
    Tilde,
    Amp,
    AmpAmp,
    Pipe,
    PipePipe,
    Caret,
    Shl,
    Shr,
    Lt,
    Le,
    Gt,
    Ge,
    EqEq,
    NotEq,
    Question,
    Colon,
    Comma,
    Assign,
    PlusEq,
    MinusEq,
    StarEq,
    SlashEq,
    PercentEq,
    ShlEq,
    ShrEq,
    AmpEq,
    CaretEq,
    PipeEq,
    PlusPlus,
    MinusMinus,
}

broadcast use {lemma_segments_view_push, lemma_segments_view_empty};

/// A parsed expression.
#[derive(Debug, PartialEq, Eq)]
pub enum ArithExpr {
    /// A literal, cut to 64 bits.
    Number(i64),
    /// A variable by its name.
    Variable(String),
    Unary { op: ArithUnaryOp, operand: Box<ArithExpr> },
    /// `++` or `--` on a variable, before it (`prefix`) or after it.
    IncrDecr { op: IncrDecrOp, target: String, prefix: bool },
    Binary { op: ArithBinaryOp, lhs: Box<ArithExpr>, rhs: Box<ArithExpr> },
    /// `cond ? if_true : if_false`
    Conditional { cond: Box<ArithExpr>, if_true: Box<ArithExpr>, if_false: Box<ArithExpr> },
    /// An assignment to a variable.
    Assign { op: ArithAssignOp, target: String, value: Box<ArithExpr> },
    /// `first , second`
    Comma { first: Box<ArithExpr>, second: Box<ArithExpr> },
}

/// The view of an expression.
pub open spec fn expr_view(e: ArithExpr) -> ArithExprV
    decreases e,
{
    match e {
        ArithExpr::Number(n) => ArithExprV::Number(n),
        ArithExpr::Variable(name) => ArithExprV::Variable(name@),
        ArithExpr::Unary { op, operand } => ArithExprV::Unary {
            op,
            operand: Box::new(expr_view(*operand)),
        },
        ArithExpr::IncrDecr { op, target, prefix } => ArithExprV::IncrDecr {
            op,
            target: target@,
            prefix,
        },
        ArithExpr::Binary { op, lhs, rhs } => ArithExprV::Binary {
            op,
            lhs: Box::new(expr_view(*lhs)),
            rhs: Box::new(expr_view(*rhs)),
        },
        ArithExpr::Conditional { cond, if_true, if_false } => ArithExprV::Conditional {
            cond: Box::new(expr_view(*cond)),
            if_true: Box::new(expr_view(*if_true)),
            if_false: Box::new(expr_view(*if_false)),
        },
        ArithExpr::Assign { op, target, value } => ArithExprV::Assign {
            op,
            target: target@,
            value: Box::new(expr_view(*value)),
        },
        ArithExpr::Comma { first, second } => ArithExprV::Comma {
            first: Box::new(expr_view(*first)),
            second: Box::new(expr_view(*second)),
        },
    }
}

impl View for ArithExpr {
    type V = ArithExprV;

    open spec fn view(&self) -> ArithExprV {
        expr_view(*self)
    }
}

/// Why a body or an expression cannot be read.
#[derive(Debug, PartialEq, Eq)]
pub enum ArithError {
    /// A backslash at the end of a body, with nothing to escape.
    TrailingBackslash { pos: usize },
    /// A character that starts no token.
    UnexpectedChar { found: char, pos: usize },
    /// The expression ends too early.
    UnexpectedEnd { expected: String },
    /// A token stands where the grammar does not allow it.
    UnexpectedToken { expected: String, pos: usize },
    /// `++`, `--` or an assignment on something other than a variable.
    NotAnIdentifier { op: &'static str, pos: usize },
    /// The base of a literal is not between 2 and 64.
    InvalidBase { base: String, pos: usize },
    /// A digit that the base of its literal does not have.
    DigitOutOfRange { digit: char, base: u32, pos: usize },
    /// An expansion site in a body is not terminated.
    Lex(LexError),
}

impl View for ArithError {
    type V = ArithErrorV;

    open spec fn view(&self) -> ArithErrorV {
        match self {
            ArithError::TrailingBackslash { pos } => ArithErrorV::TrailingBackslash { pos: *pos },
            ArithError::UnexpectedChar { found, pos } => ArithErrorV::UnexpectedChar {
                found: *found,
                pos: *pos,
            },
            ArithError::UnexpectedEnd { expected } => ArithErrorV::UnexpectedEnd {
                expected: expected@,
            },
            ArithError::UnexpectedToken { expected, pos } => ArithErrorV::UnexpectedToken {
                expected: expected@,
                pos: *pos,
            },
            ArithError::NotAnIdentifier { op, pos } => ArithErrorV::NotAnIdentifier {
                op: op@,
                pos: *pos,
            },
            ArithError::InvalidBase { base, pos } => ArithErrorV::InvalidBase {
                base: base@,
                pos: *pos,
            },
            ArithError::DigitOutOfRange { digit, base, pos } => ArithErrorV::DigitOutOfRange {
                digit: *digit,
                base: *base,
                pos: *pos,
            },
            ArithError::Lex(e) => ArithErrorV::Lex(*e),
        }
    }
}

/// The text that `{:?}` prints for `c`: in single quotes, with escapes.
pub uninterp spec fn debug_char(c: char) -> Seq<char>;

/// Formats `c` with `{:?}`, as [`char`]'s `Debug` does: in single quotes, with
/// special characters escaped.
#[verifier::external_body]
fn debug_quote_char(c: char) -> (r: String)
    ensures
        r@ == debug_char(c),
{
    format!("{:?}", c)
}

/// The message of an [`ArithError`].
pub open spec fn arith_error_text(e: ArithErrorV) -> Seq<char> {
    match e {
        ArithErrorV::TrailingBackslash { pos } => {
            "backslash at end of arithmetic expansion body with no character to escape (byte "@
                + decimal(pos as int) + ")"@
        },
        ArithErrorV::UnexpectedChar { found, pos } => {
            "invalid character "@ + debug_char(found) + " in arithmetic expression (byte "@
                + decimal(pos as int) + ")"@
        },
        ArithErrorV::UnexpectedEnd { expected } => {
            "unexpected end of arithmetic expression, expected "@ + expected
        },
        ArithErrorV::UnexpectedToken { expected, pos } => {
            "unexpected token in arithmetic expression, expected "@ + expected + " (byte "@
                + decimal(pos as int) + ")"@
        },
        ArithErrorV::NotAnIdentifier { op, pos } => {
            "`"@ + op + "` requires an identifier operand (byte "@ + decimal(pos as int) + ")"@
        },
        ArithErrorV::InvalidBase { base, pos } => {
            "invalid arithmetic base "@ + debug_text(base) + " (byte "@ + decimal(pos as int)
                + "); base must be between 2 and 64"@
        },
        ArithErrorV::DigitOutOfRange { digit, base, pos } => {
            "digit "@ + debug_char(digit) + " is not valid in base "@ + decimal(base as int)
                + " (byte "@ + decimal(pos as int) + ")"@
        },
        ArithErrorV::Lex(e) => lex_error_text(e),
    }
}

impl ArithError {
    /// What went wrong, in words.
    #[must_use]
    pub fn message(&self) -> (r: String)
        ensures
            r@ == arith_error_text(self@),
    {
        let r = match self {
            ArithError::TrailingBackslash { pos } => join3(
                "backslash at end of arithmetic expansion body with no character to escape (byte ",
                usize_to_text(*pos).as_str(),
                ")",
            ),
            ArithError::UnexpectedChar { found, pos } => join3(
                join3(
                    "invalid character ",
                    debug_quote_char(*found).as_str(),
                    " in arithmetic expression (byte ",
                ).as_str(),
                usize_to_text(*pos).as_str(),
                ")",
            ),
            ArithError::UnexpectedEnd { expected } => {
                proof {
                    reveal_strlit("");
                }
                join3("unexpected end of arithmetic expression, expected ", expected.as_str(), "")
            },
            ArithError::UnexpectedToken { expected, pos } => join3(
                join3(
                    "unexpected token in arithmetic expression, expected ",
                    expected.as_str(),
                    " (byte ",
                ).as_str(),
                usize_to_text(*pos).as_str(),
                ")",
            ),
            ArithError::NotAnIdentifier { op, pos } => join3(
                join3("`", op, "` requires an identifier operand (byte ").as_str(),
                usize_to_text(*pos).as_str(),
                ")",
            ),
            ArithError::InvalidBase { base, pos } => join3(
                join3("invalid arithmetic base ", debug_quote(base.as_str()).as_str(), " (byte ").as_str(),
                usize_to_text(*pos).as_str(),
                "); base must be between 2 and 64",
            ),
            ArithError::DigitOutOfRange { digit, base, pos } => join3(
                join3(
                    join3("digit ", debug_quote_char(*digit).as_str(), " is not valid in base ").as_str(),
                    usize_to_text(*base as usize).as_str(),
                    " (byte ",
                ).as_str(),
                usize_to_text(*pos).as_str(),
                ")",
            ),
            ArithError::Lex(e) => e.message(),
        };
        assert(r@ =~= arith_error_text(self@));
        r
    }
}

// ---- scanning ---------------------------------------------------------------------

/// A cursor over text that knows its byte offset.
struct Scanner {
    chars: Vec<char>,
    index: usize,
    offset: usize,
}

impl Scanner {
    spec fn wf(&self) -> bool {
        &&& self.index <= self.chars@.len()
        &&& self.offset == offset_of(self.chars@, self.index as int)
        &&& byte_len(self.chars@) <= usize::MAX
    }

    spec fn after(&self, before: &Scanner) -> bool {
        &&& self.wf()
        &&& self.chars@ == before.chars@
        &&& before.index <= self.index
    }

    fn new(text: &str) -> (r: Self)
        ensures
            r.wf(),
            r.chars@ == text@,
            r.index == 0,
    {
        Scanner { chars: chars_of(text), index: 0, offset: 0 }
    }

    fn peek(&self) -> (r: Option<char>)
        ensures
            r == at(self.chars@, self.index as int),
    {
        if self.index < self.chars.len() {
            Some(self.chars[self.index])
        } else {
            None
        }
    }

    fn bump(&mut self)
        requires
            old(self).wf(),
            old(self).index < old(self).chars@.len(),
        ensures
            final(self).after(old(self)),
            final(self).index == old(self).index + 1,
    {
        let len: usize = self.chars.len();
        assert(self.index < len);
        let c = self.chars[self.index];
        let next: usize = self.index + 1;
        proof {
            lemma_offset_monotonic(self.chars@, next as int, self.chars@.len() as int);
        }
        self.offset = self.offset + char_width(c);
        self.index = next;
    }

    /// Moves forward by `count` characters.
    fn advance(&mut self, count: usize)
        requires
            old(self).wf(),
            old(self).index + count <= old(self).chars@.len(),
        ensures
            final(self).after(old(self)),
            final(self).index == old(self).index + count,
    {
        let mut done: usize = 0;
        while done < count
            invariant
                self.after(old(self)),
                self.index == old(self).index + done,
                done <= count,
                old(self).index + count <= self.chars@.len(),
            decreases count - done,
        {
            self.bump();
            done = done + 1;
        }
    }
}

/// Reads the body of an arithmetic expansion: literal text and expansion
/// sites. Nothing in it is quoted.
pub fn parse_arithmetic_body(body: &str) -> (r: Result<Word, ArithError>)
    ensures
        match rules::body(body@, 0, Seq::empty(), Seq::empty()) {
            Ok(w) => r is Ok && r->Ok_0@ == w,
            Err(e) => r is Err && r->Err_0@ == e,
        },
{
    let mut scanner = Scanner::new(body);
    let mut segments: Vec<WordSegment> = Vec::new();
    let mut literal = String::new();
    loop
        invariant
            scanner.wf(),
            scanner.chars@ == body@,
            rules::body(body@, 0, Seq::empty(), Seq::empty()) == rules::body(
                scanner.chars@,
                scanner.index as int,
                literal@,
                segments_view(segments@),
            ),
        decreases scanner.chars@.len() - scanner.index,
    {
        let c = match scanner.peek() {
            None => {
                flush_literal(&mut literal, &mut segments);
                return Ok(Word::new(segments));
            },
            Some(c) => c,
        };
        match c {
            '\\' => {
                let open: usize = scanner.offset;
                scanner.bump();
                match scanner.peek() {
                    None => return Err(ArithError::TrailingBackslash { pos: open }),
                    Some('\n') => {
                        scanner.bump();
                    },
                    Some(e) => {
                        if e != '$' && e != '`' && e != '"' && e != '\\' {
                            literal.push('\\');
                        }
                        literal.push(e);
                        scanner.bump();
                    },
                }
            },
            '"' => {
                scanner.bump();
            },
            '$' => {
                match dollar_expansion_at(&scanner.chars, scanner.index) {
                    Err(e) => return Err(ArithError::Lex(e)),
                    Ok((WordSegment::Literal(text), len)) => {
                        vstd::string::StringExecFns::append(&mut literal, text.as_str());
                        scanner.advance(len);
                    },
                    Ok((segment, len)) => {
                        flush_literal(&mut literal, &mut segments);
                        segments.push(segment);
                        scanner.advance(len);
                    },
                }
            },
            '`' => {
                match backquote_expansion_at(&scanner.chars, scanner.index) {
                    Err(e) => return Err(ArithError::Lex(e)),
                    Ok((segment, len)) => {
                        flush_literal(&mut literal, &mut segments);
                        segments.push(segment);
                        scanner.advance(len);
                    },
                }
            },
            _ => {
                literal.push(c);
                scanner.bump();
            },
        }
    }
}

// ---- numbers ----------------------------------------------------------------------

fn digit_value(c: char, base: u32) -> (r: Option<u32>)
    ensures
        match rules::digit_value(c, base as nat) {
            Some(d) => r == Some(d as u32) && d < 64,
            None => r is None,
        },
{
    if is_digit(c) {
        Some(c as u32 - '0' as u32)
    } else if 'a' <= c && c <= 'z' {
        Some(c as u32 - 'a' as u32 + 10)
    } else if 'A' <= c && c <= 'Z' {
        if base <= 36 {
            Some(c as u32 - 'A' as u32 + 10)
        } else {
            Some(c as u32 - 'A' as u32 + 36)
        }
    } else if c == '@' {
        Some(62)
    } else if c == '_' {
        Some(63)
    } else {
        None
    }
}

proof fn lemma_horner_wraps(v: int, w: int, base: int, d: int)
    requires
        w == v % two64(),
        0 <= d,
    ensures
        (w * base + d) % two64() == (v * base + d) % two64(),
{
    vstd::arithmetic::div_mod::lemma_mul_mod_noop_left(v, base, two64());
    vstd::arithmetic::div_mod::lemma_add_mod_noop(w * base, d, two64());
    vstd::arithmetic::div_mod::lemma_add_mod_noop(v * base, d, two64());
}

/// Reads characters `from` to `to` of `v` as digits of `base`, cut to 64 bits.
fn parse_digits(
    v: &Vec<char>,
    from: usize,
    to: usize,
    base: u32,
    pos: usize,
    empty_is_zero: bool,
) -> (r: Result<u64, ArithError>)
    requires
        from <= to <= v@.len(),
        2 <= base <= 64,
    ensures
        match rules::read_digits(v@.subrange(from as int, to as int), base as nat, pos, empty_is_zero) {
            Ok(n) => r is Ok && r->Ok_0 == n as int % two64(),
            Err(e) => r is Err && r->Err_0@ == e,
        },
{
    let ghost s = v@.subrange(from as int, to as int);
    if from == to {
        return if empty_is_zero {
            Ok(0)
        } else {
            Err(
                ArithError::UnexpectedEnd {
                    expected: "at least one digit after the arithmetic base prefix".to_owned(),
                },
            )
        };
    }
    let mut value: u64 = 0;
    let mut i: usize = from;
    while i < to
        invariant
            from <= i <= to <= v@.len(),
            from < to,
            2 <= base <= 64,
            s == v@.subrange(from as int, to as int),
            first_bad_digit(s, base as nat, 0) == first_bad_digit(s, base as nat, i - from),
            value == base_value(s.take(i - from), base as nat) as int % two64(),
        decreases to - i,
    {
        let c = v[i];
        assert(s[i - from] == c);
        let d: u32 = match digit_value(c, base) {
            None => return Err(ArithError::DigitOutOfRange { digit: c, base, pos }),
            Some(d) => d,
        };
        if d >= base {
            return Err(ArithError::DigitOutOfRange { digit: c, base, pos });
        }
        proof {
            assert(s.take(i - from + 1).drop_last() =~= s.take(i - from));
            let old_value = base_value(s.take(i - from), base as nat) as int;
            lemma_horner_wraps(old_value, value as int, base as int, d as int);
            vstd::arithmetic::div_mod::lemma_add_mod_noop(value as int * base as int, d as int, two64());
            vstd::arithmetic::div_mod::lemma_small_mod(d as nat, two64() as nat);
            let m = (value as int * base as int) % two64();
            vstd::arithmetic::div_mod::lemma_mod_bound(value as int * base as int, two64());
            assert((m + d) % two64() == if m + d >= two64() { m + d - two64() } else { m + d }) by {
                if m + d >= two64() {
                    vstd::arithmetic::div_mod::lemma_mod_add_multiples_vanish(m + d - two64(), two64());
                    vstd::arithmetic::div_mod::lemma_small_mod((m + d - two64()) as nat, two64() as nat);
                } else {
                    vstd::arithmetic::div_mod::lemma_small_mod((m + d) as nat, two64() as nat);
                }
            }
        }
        value = value.wrapping_mul(base as u64).wrapping_add(d as u64);
        i = i + 1;
    }
    assert(s.take(to - from) =~= s);
    Ok(value)
}

/// The signed number with the same 64 bits.
fn reinterpret(v: u64) -> (r: i64)
    ensures
        r == wrap64(v as int),
{
    proof {
        vstd::arithmetic::div_mod::lemma_small_mod(v as nat, two64() as nat);
    }
    if v <= 0x7fff_ffff_ffff_ffff {
        v as i64
    } else {
        -((u64::MAX - v) as i64) - 1
    }
}

/// Reads the number literal in characters `from` to `to` of `v`.
fn decode_number(v: &Vec<char>, from: usize, to: usize, pos: usize) -> (r: Result<i64, ArithError>)
    requires
        from < to <= v@.len(),
    ensures
        match rules::literal(v@.subrange(from as int, to as int), pos) {
            Ok(n) => r is Ok && r->Ok_0 == wrap64(n as int),
            Err(e) => r is Err && r->Err_0@ == e,
        },
{
    let ghost s = v@.subrange(from as int, to as int);
    let mut hash: usize = from;
    while hash < to && v[hash] != '#'
        invariant
            from <= hash <= to <= v@.len(),
            s == v@.subrange(from as int, to as int),
            hash_index(s, 0) == hash_index(s, hash - from),
        decreases to - hash,
    {
        hash = hash + 1;
    }
    let value: u64 = if to - from >= 2 && v[from] == '0' && (v[from + 1] == 'x' || v[from + 1]
        == 'X') {
        assert(s.subrange(2, s.len() as int) =~= v@.subrange(from + 2, to as int));
        parse_digits(v, from + 2, to, 16, pos, true)?
    } else if hash < to {
        assert(s.subrange(0, hash - from) =~= v@.subrange(from as int, hash as int));
        let base: u32 = match parse_u32_chars(v, from, hash) {
            None => {
                return Err(
                    ArithError::InvalidBase { base: text_between(v, from, hash), pos },
                );
            },
            Some(base) => base,
        };
        if base < 2 || base > 64 {
            return Err(ArithError::InvalidBase { base: usize_to_text(base as usize), pos });
        }
        assert(s.subrange(hash - from + 1, s.len() as int) =~= v@.subrange(hash + 1, to as int));
        parse_digits(v, hash + 1, to, base, pos, false)?
    } else if to - from > 1 && v[from] == '0' {
        assert(s.subrange(1, s.len() as int) =~= v@.subrange(from + 1, to as int));
        parse_digits(v, from + 1, to, 8, pos, true)?
    } else {
        parse_digits(v, from, to, 10, pos, true)?
    };
    proof {
        let n = rules::literal(s, pos)->Ok_0;
        assert(value == n as int % two64());
        vstd::arithmetic::div_mod::lemma_mod_twice(n as int, two64());
    }
    Ok(reinterpret(value))
}

// ---- tokens -----------------------------------------------------------------------

/// A token.
enum Tok {
    Number(i64),
    Ident(String),
    Punct(Punct),
}

struct PlacedTok {
    tok: Tok,
    pos: usize,
}

impl View for Tok {
    type V = TokV;

    closed spec fn view(&self) -> TokV {
        match self {
            Tok::Number(n) => TokV::Number(*n),
            Tok::Ident(name) => TokV::Ident(name@),
            Tok::Punct(p) => TokV::Punct(*p),
        }
    }
}

impl View for PlacedTok {
    type V = PlacedTokV;

    closed spec fn view(&self) -> PlacedTokV {
        PlacedTokV { tok: self.tok@, pos: self.pos }
    }
}

spec fn toks_view(s: Seq<PlacedTok>) -> Seq<PlacedTokV> {
    s.map_values(|t: PlacedTok| t@)
}

impl Scanner {
    fn skip_whitespace(&mut self)
        requires
            old(self).wf(),
        ensures
            final(self).after(old(self)),
            final(self).index == rules::spaces_end(old(self).chars@, old(self).index as int),
    {
        while self.index < self.chars.len() && is_whitespace(self.chars[self.index])
            invariant
                self.after(old(self)),
                rules::spaces_end(old(self).chars@, old(self).index as int) == rules::spaces_end(
                    self.chars@,
                    self.index as int,
                ),
            decreases self.chars@.len() - self.index,
        {
            self.bump();
        }
    }

    /// Moves past the number literal at the cursor.
    fn scan_number_token(&mut self)
        requires
            old(self).wf(),
            old(self).index < old(self).chars@.len(),
            is_digit(old(self).chars@[old(self).index as int]),
        ensures
            final(self).after(old(self)),
            final(self).index == rules::number_end(old(self).chars@, old(self).index as int),
            final(self).index > old(self).index,
    {
        let ghost s = self.chars@;
        let start: usize = self.index;
        proof {
            lemma_digits_end(s, start + 1);
        }
        while self.index < self.chars.len() && is_digit(self.chars[self.index])
            invariant
                self.after(old(self)),
                s == self.chars@,
                start == old(self).index,
                digits_end(s, start as int) == digits_end(s, self.index as int),
            decreases self.chars@.len() - self.index,
        {
            self.bump();
        }
        let ghost j = self.index as int;
        if self.peek() == Some('#') {
            self.bump();
            while self.index < self.chars.len() && is_base_digit(self.chars[self.index])
                invariant
                    self.after(old(self)),
                    self.index > j,
                    s == self.chars@,
                    rules::base_digits_end(s, j + 1) == rules::base_digits_end(
                        s,
                        self.index as int,
                    ),
                decreases self.chars@.len() - self.index,
            {
                self.bump();
            }
        } else if (self.peek() == Some('x') || self.peek() == Some('X')) && self.index - start == 1
            && self.chars[start] == '0' {
            self.bump();
            while self.index < self.chars.len() && is_hex_digit(self.chars[self.index])
                invariant
                    self.after(old(self)),
                    self.index > j,
                    s == self.chars@,
                    rules::hex_digits_end(s, j + 1) == rules::hex_digits_end(
                        s,
                        self.index as int,
                    ),
                decreases self.chars@.len() - self.index,
            {
                self.bump();
            }
        }
    }

    /// Moves past the name at the cursor.
    fn scan_ident(&mut self)
        requires
            old(self).wf(),
            old(self).index < old(self).chars@.len(),
            is_name_start(old(self).chars@[old(self).index as int]),
        ensures
            final(self).after(old(self)),
            final(self).index == name_end(old(self).chars@, old(self).index as int),
            final(self).index > old(self).index,
    {
        proof {
            lemma_name_end(self.chars@, self.index + 1);
        }
        while self.index < self.chars.len() && is_name_char(self.chars[self.index])
            invariant
                self.after(old(self)),
                name_end(old(self).chars@, old(self).index as int) == name_end(
                    self.chars@,
                    self.index as int,
                ),
            decreases self.chars@.len() - self.index,
        {
            self.bump();
        }
    }

    /// Consumes `c` if it stands at the cursor.
    fn eat(&mut self, c: char) -> (r: bool)
        requires
            old(self).wf(),
        ensures
            final(self).after(old(self)),
            r == (at(old(self).chars@, old(self).index as int) == Some(c)),
            final(self).index == old(self).index + if r {
                1int
            } else {
                0int
            },
    {
        if self.peek() == Some(c) {
            self.bump();
            true
        } else {
            false
        }
    }

    /// The longest punctuation at the cursor.
    fn scan_punct(&mut self) -> (r: Option<Punct>)
        requires
            old(self).wf(),
            old(self).index < old(self).chars@.len(),
        ensures
            match rules::punct(old(self).chars@, old(self).index as int) {
                Some((p, j)) => r == Some(p) && final(self).after(old(self)) && final(self).index == j
                    && j > old(self).index,
                None => r is None,
            },
    {
        let c = self.chars[self.index];
        self.bump();
        match c {
            '(' => Some(Punct::LParen),
            ')' => Some(Punct::RParen),
            '?' => Some(Punct::Question),
            ':' => Some(Punct::Colon),
            ',' => Some(Punct::Comma),
            '~' => Some(Punct::Tilde),
            '+' => Some(
                if self.eat('+') {
                    Punct::PlusPlus
                } else if self.eat('=') {
                    Punct::PlusEq
                } else {
                    Punct::Plus
                },
            ),
            '-' => Some(
                if self.eat('-') {
                    Punct::MinusMinus
                } else if self.eat('=') {
                    Punct::MinusEq
                } else {
                    Punct::Minus
                },
            ),
            '*' => Some(
                if self.eat('*') {
                    Punct::StarStar
                } else if self.eat('=') {
                    Punct::StarEq
                } else {
                    Punct::Star
                },
            ),
            '/' => Some(
                if self.eat('=') {
                    Punct::SlashEq
                } else {
                    Punct::Slash
                },
            ),
            '%' => Some(
                if self.eat('=') {
                    Punct::PercentEq
                } else {
                    Punct::Percent
                },
            ),
            '<' => Some(
                if self.eat('<') {
                    if self.eat('=') {
                        Punct::ShlEq
                    } else {
                        Punct::Shl
                    }
                } else if self.eat('=') {
                    Punct::Le
                } else {
                    Punct::Lt
                },
            ),
            '>' => Some(
                if self.eat('>') {
                    if self.eat('=') {
                        Punct::ShrEq
                    } else {
                        Punct::Shr
                    }
                } else if self.eat('=') {
                    Punct::Ge
                } else {
                    Punct::Gt
                },
            ),
            '=' => Some(
                if self.eat('=') {
                    Punct::EqEq
                } else {
                    Punct::Assign
                },
            ),
            '!' => Some(
                if self.eat('=') {
                    Punct::NotEq
                } else {
                    Punct::Bang
                },
            ),
            '&' => Some(
                if self.eat('&') {
                    Punct::AmpAmp
                } else if self.eat('=') {
                    Punct::AmpEq
                } else {
                    Punct::Amp
                },
            ),
            '|' => Some(
                if self.eat('|') {
                    Punct::PipePipe
                } else if self.eat('=') {
                    Punct::PipeEq
                } else {
                    Punct::Pipe
                },
            ),
            '^' => Some(
                if self.eat('=') {
                    Punct::CaretEq
                } else {
                    Punct::Caret
                },
            ),
            _ => None,
        }
    }
}

/// Splits an expression into tokens.
fn tokenize(source: &str) -> (r: Result<Vec<PlacedTok>, ArithError>)
    ensures
        match rules::tokens(source@, 0, Seq::empty()) {
            Ok(t) => r is Ok && toks_view(r->Ok_0@) == t,
            Err(e) => r is Err && r->Err_0@ == e,
        },
{
    let mut scanner = Scanner::new(source);
    let mut toks: Vec<PlacedTok> = Vec::new();
    assert(toks_view(toks@) =~= Seq::<PlacedTokV>::empty());
    loop
        invariant
            scanner.wf(),
            scanner.chars@ == source@,
            rules::tokens(source@, 0, Seq::empty()) == rules::tokens(
                source@,
                scanner.index as int,
                toks_view(toks@),
            ),
        decreases scanner.chars@.len() - scanner.index,
    {
        let ghost before = toks_view(toks@);
        scanner.skip_whitespace();
        let start: usize = scanner.index;
        let pos: usize = scanner.offset;
        let c = match scanner.peek() {
            None => return Ok(toks),
            Some(c) => c,
        };
        let tok = if is_digit(c) {
            scanner.scan_number_token();
            Tok::Number(decode_number(&scanner.chars, start, scanner.index, pos)?)
        } else if is_name_start(c) {
            scanner.scan_ident();
            Tok::Ident(text_between(&scanner.chars, start, scanner.index))
        } else {
            match scanner.scan_punct() {
                Some(p) => Tok::Punct(p),
                None => return Err(ArithError::UnexpectedChar { found: c, pos }),
            }
        };
        let placed = PlacedTok { tok, pos };
        let ghost placed_view = placed@;
        toks.push(placed);
        assert(toks_view(toks@) =~= before.push(placed_view));
    }
}

// ---- expressions --------------------------------------------------------------------

struct Parser {
    toks: Vec<PlacedTok>,
    index: usize,
    source_len: usize,
}

/// The name that `expr` is, which `op` requires.
fn require_identifier(expr: ArithExpr, op: &'static str, pos: usize) -> (r: Result<
    String,
    ArithError,
>)
    ensures
        match rules::identifier(expr@, op@, pos) {
            Ok(name) => r is Ok && r->Ok_0@ == name,
            Err(e) => r is Err && r->Err_0@ == e,
        },
{
    match expr {
        ArithExpr::Variable(name) => Ok(name),
        _ => Err(ArithError::NotAnIdentifier { op, pos }),
    }
}

fn unary_op_for(q: Punct) -> (r: Option<ArithUnaryOp>)
    ensures
        r == rules::unary_op(q),
{
    match q {
        Punct::Plus => Some(ArithUnaryOp::Plus),
        Punct::Minus => Some(ArithUnaryOp::Minus),
        Punct::Bang => Some(ArithUnaryOp::LogicalNot),
        Punct::Tilde => Some(ArithUnaryOp::BitNot),
        _ => None,
    }
}

fn binary_op_for(q: Punct, level: u8) -> (r: Option<ArithBinaryOp>)
    ensures
        r == rules::binary_op(q, level as nat),
{
    match q {
        Punct::Star if level == 1 => Some(ArithBinaryOp::Mul),
        Punct::Slash if level == 1 => Some(ArithBinaryOp::Div),
        Punct::Percent if level == 1 => Some(ArithBinaryOp::Rem),
        Punct::Plus if level == 2 => Some(ArithBinaryOp::Add),
        Punct::Minus if level == 2 => Some(ArithBinaryOp::Sub),
        Punct::Shl if level == 3 => Some(ArithBinaryOp::ShiftLeft),
        Punct::Shr if level == 3 => Some(ArithBinaryOp::ShiftRight),
        Punct::Lt if level == 4 => Some(ArithBinaryOp::Less),
        Punct::Le if level == 4 => Some(ArithBinaryOp::LessEq),
        Punct::Gt if level == 4 => Some(ArithBinaryOp::Greater),
        Punct::Ge if level == 4 => Some(ArithBinaryOp::GreaterEq),
        Punct::EqEq if level == 5 => Some(ArithBinaryOp::Eq),
        Punct::NotEq if level == 5 => Some(ArithBinaryOp::NotEq),
        Punct::Amp if level == 6 => Some(ArithBinaryOp::BitAnd),
        Punct::Caret if level == 7 => Some(ArithBinaryOp::BitXor),
        Punct::Pipe if level == 8 => Some(ArithBinaryOp::BitOr),
        Punct::AmpAmp if level == 9 => Some(ArithBinaryOp::LogicalAnd),
        Punct::PipePipe if level == 10 => Some(ArithBinaryOp::LogicalOr),
        _ => None,
    }
}

fn assign_op_for(q: Punct) -> (r: Option<ArithAssignOp>)
    ensures
        r == rules::assign_op(q),
{
    match q {
        Punct::Assign => Some(ArithAssignOp::Assign),
        Punct::PlusEq => Some(ArithAssignOp::AddAssign),
        Punct::MinusEq => Some(ArithAssignOp::SubAssign),
        Punct::StarEq => Some(ArithAssignOp::MulAssign),
        Punct::SlashEq => Some(ArithAssignOp::DivAssign),
        Punct::PercentEq => Some(ArithAssignOp::RemAssign),
        Punct::ShlEq => Some(ArithAssignOp::ShiftLeftAssign),
        Punct::ShrEq => Some(ArithAssignOp::ShiftRightAssign),
        Punct::AmpEq => Some(ArithAssignOp::BitAndAssign),
        Punct::CaretEq => Some(ArithAssignOp::BitXorAssign),
        Punct::PipeEq => Some(ArithAssignOp::BitOrAssign),
        _ => None,
    }
}

impl Parser {
    #[verifier::opaque]
    spec fn input(&self) -> Tokens {
        Tokens { toks: toks_view(self.toks@), source_len: self.source_len }
    }

    spec fn wf(&self) -> bool {
        self.index <= self.input().toks.len()
    }

    /// The parser has moved from `before` to token `j`, forward.
    spec fn moved(&self, before: &Parser, j: int) -> bool {
        &&& self.wf()
        &&& self.input() == before.input()
        &&& before.index <= self.index
        &&& self.index == j
    }

    /// `r` is what `rule` states, and the parser has moved past it.
    spec fn parsed(&self, before: &Parser, r: Result<ArithExpr, ArithError>, rule: rules::Parsed) -> bool {
        match rule {
            Ok((e, j)) => r is Ok && r->Ok_0@ == e && self.moved(before, j) && j > before.index,
            Err(e) => r is Err && r->Err_0@ == e,
        }
    }

    fn peek_punct(&self) -> (r: Option<Punct>)
        ensures
            r == punct_at(self.input(), self.index as int),
    {
        reveal(Parser::input);
        if self.index < self.toks.len() {
            assert(self.input().toks[self.index as int] == self.toks@[self.index as int]@);
            match &self.toks[self.index].tok {
                Tok::Punct(p) => Some(*p),
                _ => None,
            }
        } else {
            None
        }
    }

    fn peek_pos(&self) -> (r: usize)
        ensures
            r == pos_at(self.input(), self.index as int),
    {
        reveal(Parser::input);
        if self.index < self.toks.len() {
            assert(self.input().toks[self.index as int] == self.toks@[self.index as int]@);
            self.toks[self.index].pos
        } else {
            self.source_len
        }
    }

    fn at_eof(&self) -> (r: bool)
        ensures
            r == (self.index >= self.input().toks.len()),
    {
        reveal(Parser::input);
        self.index >= self.toks.len()
    }

    fn next(&mut self)
        requires
            old(self).wf(),
            old(self).index < old(self).input().toks.len(),
        ensures
            final(self).moved(old(self), old(self).index + 1),
    {
        reveal(Parser::input);
        let len: usize = self.toks.len();
        assert(self.index < len);
        self.index = self.index + 1;
    }

    /// The error for the token at the cursor.
    fn error_for(&self, expected: &str) -> (r: ArithError)
        ensures
            r@ == unexpected(self.input(), self.index as int, expected@),
    {
        reveal(rules::unexpected);
        if self.at_eof() {
            ArithError::UnexpectedEnd { expected: expected.to_owned() }
        } else {
            ArithError::UnexpectedToken { expected: expected.to_owned(), pos: self.peek_pos() }
        }
    }

    /// The operand at the cursor, if it is a number or a variable.
    fn operand(&self) -> (r: Option<ArithExpr>)
        ensures
            match tok_at(self.input(), self.index as int) {
                Some(TokV::Number(n)) => r is Some && r->0@ == ArithExprV::Number(n),
                Some(TokV::Ident(name)) => r is Some && r->0@ == ArithExprV::Variable(name),
                _ => r is None,
            },
    {
        reveal(Parser::input);
        if self.index < self.toks.len() {
            assert(self.input().toks[self.index as int] == self.toks@[self.index as int]@);
            match &self.toks[self.index].tok {
                Tok::Number(n) => Some(ArithExpr::Number(*n)),
                Tok::Ident(name) => Some(ArithExpr::Variable(name.clone())),
                _ => None,
            }
        } else {
            None
        }
    }

    fn parse_primary(&mut self) -> (r: Result<ArithExpr, ArithError>)
        requires
            old(self).wf(),
        ensures
            final(self).parsed(old(self), r, rules::primary(old(self).input(), old(self).index as int)),
        decreases old(self).input().toks.len() - old(self).index, 0nat,
    {
        if let Some(e) = self.operand() {
            self.next();
            return Ok(e);
        }
        if self.peek_punct() == Some(Punct::LParen) {
            self.next();
            let inner = self.parse_comma()?;
            if self.peek_punct() == Some(Punct::RParen) {
                self.next();
                Ok(inner)
            } else {
                Err(self.error_for("')'"))
            }
        } else {
            Err(self.error_for("an operand"))
        }
    }

    fn parse_postfix(&mut self) -> (r: Result<ArithExpr, ArithError>)
        requires
            old(self).wf(),
        ensures
            final(self).parsed(old(self), r, rules::postfix(old(self).input(), old(self).index as int)),
        decreases old(self).input().toks.len() - old(self).index, 1nat,
    {
        let pos: usize = self.peek_pos();
        let primary = self.parse_primary()?;
        match self.peek_punct() {
            Some(Punct::PlusPlus) => {
                let target = require_identifier(primary, "id++", pos)?;
                self.next();
                Ok(ArithExpr::IncrDecr { op: IncrDecrOp::Increment, target, prefix: false })
            },
            Some(Punct::MinusMinus) => {
                let target = require_identifier(primary, "id--", pos)?;
                self.next();
                Ok(ArithExpr::IncrDecr { op: IncrDecrOp::Decrement, target, prefix: false })
            },
            _ => Ok(primary),
        }
    }

    fn parse_unary(&mut self) -> (r: Result<ArithExpr, ArithError>)
        requires
            old(self).wf(),
        ensures
            final(self).parsed(old(self), r, rules::unary(old(self).input(), old(self).index as int)),
        decreases old(self).input().toks.len() - old(self).index, 2nat,
    {
        let pos: usize = self.peek_pos();
        match self.peek_punct() {
            Some(Punct::PlusPlus) => {
                self.next();
                let operand = self.parse_unary()?;
                let target = require_identifier(operand, "++id", pos)?;
                Ok(ArithExpr::IncrDecr { op: IncrDecrOp::Increment, target, prefix: true })
            },
            Some(Punct::MinusMinus) => {
                self.next();
                let operand = self.parse_unary()?;
                let target = require_identifier(operand, "--id", pos)?;
                Ok(ArithExpr::IncrDecr { op: IncrDecrOp::Decrement, target, prefix: true })
            },
            Some(q) => match unary_op_for(q) {
                Some(op) => {
                    self.next();
                    let operand = self.parse_unary()?;
                    Ok(ArithExpr::Unary { op, operand: Box::new(operand) })
                },
                None => self.parse_postfix(),
            },
            None => self.parse_postfix(),
        }
    }

    fn parse_power(&mut self) -> (r: Result<ArithExpr, ArithError>)
        requires
            old(self).wf(),
        ensures
            final(self).parsed(old(self), r, rules::power(old(self).input(), old(self).index as int)),
        decreases old(self).input().toks.len() - old(self).index, 3nat,
    {
        let base = self.parse_unary()?;
        if self.peek_punct() == Some(Punct::StarStar) {
            self.next();
            let exp = self.parse_power()?;
            Ok(
                ArithExpr::Binary {
                    op: ArithBinaryOp::Power,
                    lhs: Box::new(base),
                    rhs: Box::new(exp),
                },
            )
        } else {
            Ok(base)
        }
    }

    fn peek_binary_op(&self, level: u8) -> (r: Option<ArithBinaryOp>)
        ensures
            r == rules::binary_op_at(self.input(), self.index as int, level as nat),
    {
        match self.peek_punct() {
            Some(q) => binary_op_for(q, level),
            None => None,
        }
    }

    /// A chain of the binary operators of one level, grouped to the left.
    fn parse_left_assoc(&mut self, level: u8) -> (r: Result<ArithExpr, ArithError>)
        requires
            old(self).wf(),
            level <= 10,
        ensures
            final(self).parsed(
                old(self),
                r,
                rules::binary(old(self).input(), old(self).index as int, level as nat),
            ),
        decreases old(self).input().toks.len() - old(self).index, 4nat + level,
    {
        if level == 0 {
            return self.parse_power();
        }
        let mut lhs = self.parse_left_assoc(level - 1)?;
        loop
            invariant
                1 <= level <= 10,
                self.moved(old(self), self.index as int),
                self.index > old(self).index,
                rules::binary(old(self).input(), old(self).index as int, level as nat)
                    == rules::binary_rest(self.input(), self.index as int, level as nat, lhs@),
            decreases self.input().toks.len() - self.index,
        {
            let op = match self.peek_binary_op(level) {
                None => return Ok(lhs),
                Some(op) => op,
            };
            self.next();
            let rhs = self.parse_left_assoc(level - 1)?;
            lhs = ArithExpr::Binary { op, lhs: Box::new(lhs), rhs: Box::new(rhs) };
        }
    }

    fn parse_conditional(&mut self) -> (r: Result<ArithExpr, ArithError>)
        requires
            old(self).wf(),
        ensures
            final(self).parsed(
                old(self),
                r,
                rules::conditional(old(self).input(), old(self).index as int),
            ),
        decreases old(self).input().toks.len() - old(self).index, 20nat,
    {
        let cond = self.parse_left_assoc(10)?;
        if self.peek_punct() != Some(Punct::Question) {
            return Ok(cond);
        }
        self.next();
        let if_true = self.parse_comma()?;
        if self.peek_punct() != Some(Punct::Colon) {
            return Err(self.error_for("':'"));
        }
        self.next();
        let if_false = self.parse_conditional()?;
        Ok(
            ArithExpr::Conditional {
                cond: Box::new(cond),
                if_true: Box::new(if_true),
                if_false: Box::new(if_false),
            },
        )
    }

    fn parse_assignment(&mut self) -> (r: Result<ArithExpr, ArithError>)
        requires
            old(self).wf(),
        ensures
            final(self).parsed(
                old(self),
                r,
                rules::assignment(old(self).input(), old(self).index as int),
            ),
        decreases old(self).input().toks.len() - old(self).index, 21nat,
    {
        let pos: usize = self.peek_pos();
        let lhs = self.parse_conditional()?;
        let op = match self.peek_punct() {
            None => return Ok(lhs),
            Some(q) => match assign_op_for(q) {
                None => return Ok(lhs),
                Some(op) => op,
            },
        };
        let target = require_identifier(lhs, "assignment", pos)?;
        self.next();
        let value = self.parse_assignment()?;
        Ok(ArithExpr::Assign { op, target, value: Box::new(value) })
    }

    fn parse_comma(&mut self) -> (r: Result<ArithExpr, ArithError>)
        requires
            old(self).wf(),
        ensures
            final(self).parsed(old(self), r, rules::comma(old(self).input(), old(self).index as int)),
        decreases old(self).input().toks.len() - old(self).index, 22nat,
    {
        let mut expr = self.parse_assignment()?;
        while self.peek_punct() == Some(Punct::Comma)
            invariant
                self.moved(old(self), self.index as int),
                self.index > old(self).index,
                rules::comma(old(self).input(), old(self).index as int) == rules::comma_rest(
                    self.input(),
                    self.index as int,
                    expr@,
                ),
            decreases self.input().toks.len() - self.index,
        {
            self.next();
            let second = self.parse_assignment()?;
            expr = ArithExpr::Comma { first: Box::new(expr), second: Box::new(second) };
        }
        Ok(expr)
    }
}

/// Parses the text of an expression, with every expansion in it already done.
/// Without any token it is zero.
pub fn parse_arithmetic_expr(source: &str) -> (r: Result<ArithExpr, ArithError>)
    ensures
        match rules::expression(source@) {
            Ok(e) => r is Ok && r->Ok_0@ == e,
            Err(e) => r is Err && r->Err_0@ == e,
        },
{
    let toks = tokenize(source)?;
    if toks.len() == 0 {
        return Ok(ArithExpr::Number(0));
    }
    let source_len: usize = byte_length(source);
    reveal(Parser::input);
    let mut parser = Parser { toks, index: 0, source_len };
    let expr = parser.parse_comma()?;
    if !parser.at_eof() {
        return Err(
            ArithError::UnexpectedToken {
                expected: "end of expression".to_owned(),
                pos: parser.peek_pos(),
            },
        );
    }
    Ok(expr)
}

} // verus!
