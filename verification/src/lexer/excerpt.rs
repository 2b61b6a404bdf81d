//! Lexing a part of a text that ends before a `)`.
//!
//! What the rules read in the whole text, up to that `)`, they read in the part
//! alone; where a construct ends, they find in any part that holds it. Positions
//! `x` are those of the whole text `s`; in the part, which begins at `a`, the same
//! place is `x - a`.

use vstd::prelude::*;

use super::rules::{
    at, backquote_end, backquote_escapable, backquoted, bare_parameter, blanks_end, brace_end,
    braced, digits_end, dollar, double_quote_end, double_quote_escapable, double_quoted, flush,
    left, lemma_blanks_end, lemma_line_end, line_end, name_end, nested_end, parens_end, past, pos,
    quoted_content, quoted_end, single_quote_end, single_quoted, token_at, tokens_from,
    word_content, BalanceContext, Boundary,
};
use super::LexError;
use crate::text::{byte_len, lemma_offset_monotonic, offset_of};
use crate::token::{Operator, Span, TokenKindV, TokenV, WordSegmentV};

verus! {

/// A `)` stands at `b`, and the part from `a` to `b` is looked at.
pub open spec fn closes(s: Seq<char>, a: int, b: int) -> bool {
    0 <= a <= b < s.len() && s[b] == ')'
}

/// The part from `a` to `b` is looked at, whatever stands at `b`.
pub open spec fn within(s: Seq<char>, a: int, b: int) -> bool {
    0 <= a <= b <= s.len()
}

/// The part from `a` to `b`.
pub open spec fn part(s: Seq<char>, a: int, b: int) -> Seq<char> {
    s.subrange(a, b)
}

/// An end that was found in the whole text is found in the part too, if it lies
/// there.
pub open spec fn same_end(r: Result<int, LexError>, q: Result<int, LexError>, a: int, b: int) -> bool {
    r matches Ok(j) ==> (j <= b ==> q == Ok::<int, LexError>(j - a))
}

/// The same of what ends there.
spec fn same_read<T>(
    r: Result<(T, int), LexError>,
    q: Result<(T, int), LexError>,
    a: int,
    b: int,
) -> bool {
    r matches Ok((v, j)) ==> (j <= b ==> q == Ok::<(T, int), LexError>((v, j - a)))
}

/// The end lies at or after `x`.
pub open spec fn onward_end(r: Result<int, LexError>, x: int) -> bool {
    r matches Ok(j) ==> x <= j
}

proof fn lemma_at(s: Seq<char>, a: int, b: int, x: int)
    requires
        closes(s, a, b),
        a <= x <= b,
    ensures
        at(s, x) == (if x < b {
            at(part(s, a, b), x - a)
        } else {
            Some(')')
        }),
        x == b ==> at(part(s, a, b), x - a) is None,
{
}

// ---- the ends of constructs -------------------------------------------------------------

proof fn lemma_single_quote_end(s: Seq<char>, a: int, b: int, x: int, open: int)
    requires
        within(s, a, b),
        a <= x,
    ensures
        onward_end(single_quote_end(s, x, open), x + 1),
        same_end(
            single_quote_end(s, x, open),
            single_quote_end(part(s, a, b), x - a, open - a),
            a,
            b,
        ),
    decreases left(s, x),
{
    if x < s.len() && s[x] != '\'' {
        lemma_single_quote_end(s, a, b, x + 1, open);
    }
}

pub proof fn lemma_backquote_end(s: Seq<char>, a: int, b: int, x: int, open: int)
    requires
        within(s, a, b),
        a <= x,
    ensures
        onward_end(backquote_end(s, x, open), x + 1),
        same_end(
            backquote_end(s, x, open),
            backquote_end(part(s, a, b), x - a, open - a),
            a,
            b,
        ),
    decreases left(s, x),
{
    if x < s.len() {
        if s[x] == '\\' && backquote_escapable(at(s, x + 1)) {
            lemma_backquote_end(s, a, b, x + 2, open);
        } else if s[x] != '`' {
            lemma_backquote_end(s, a, b, x + 1, open);
        }
    }
}

spec fn same_optional_end(
    r: Option<Result<int, LexError>>,
    q: Option<Result<int, LexError>>,
    x: int,
    a: int,
    b: int,
) -> bool {
    match r {
        Some(r) => onward_end(r, x + 1) && (r matches Ok(j) ==> (j <= b ==> q == Some(
            Ok::<int, LexError>(j - a),
        ))),
        None => q is None,
    }
}

proof fn lemma_nested_end(s: Seq<char>, a: int, b: int, x: int)
    requires
        within(s, a, b),
        a <= x,
    ensures
        nested_end(s, x) matches Some(r) ==> onward_end(r, x + 1),
        x < b ==> same_optional_end(nested_end(s, x), nested_end(part(s, a, b), x - a), x, a, b),
    decreases left(s, x), 0nat,
{
    if at(s, x) == Some('$') {
        if at(s, x + 1) == Some('(') {
            if at(s, x + 2) == Some('(') {
                lemma_parens_end(s, a, b, x + 3, 2, false, BalanceContext::Arithmetic, x);
            } else {
                lemma_parens_end(s, a, b, x + 2, 1, false, BalanceContext::CommandSubstitution, x);
            }
        } else if at(s, x + 1) == Some('{') {
            lemma_brace_end(s, a, b, x + 2, x);
        }
    }
}

proof fn lemma_double_quote_end(s: Seq<char>, a: int, b: int, x: int, open: int)
    requires
        within(s, a, b),
        a <= x,
    ensures
        onward_end(double_quote_end(s, x, open), x + 1),
        same_end(
            double_quote_end(s, x, open),
            double_quote_end(part(s, a, b), x - a, open - a),
            a,
            b,
        ),
    decreases left(s, x), 1nat,
{
    if x < s.len() {
        lemma_nested_end(s, a, b, x);
        match nested_end(s, x) {
            Some(Ok(j)) => {
                lemma_double_quote_end(s, a, b, past(x, j), open);
            },
            Some(Err(_)) => {},
            None => {
                if s[x] == '\\' && (double_quote_escapable(at(s, x + 1)) || at(s, x + 1)
                    == Some('\n')) {
                    lemma_double_quote_end(s, a, b, x + 2, open);
                } else if s[x] != '"' {
                    lemma_double_quote_end(s, a, b, x + 1, open);
                }
            },
        }
    }
}

proof fn lemma_quoted_end(s: Seq<char>, a: int, b: int, x: int)
    requires
        within(s, a, b),
        a <= x,
    ensures
        quoted_end(s, x) matches Some(r) ==> onward_end(r, x + 1),
        x < b ==> same_optional_end(quoted_end(s, x), quoted_end(part(s, a, b), x - a), x, a, b),
    decreases left(s, x), 0nat,
{
    if at(s, x) == Some('\'') {
        lemma_single_quote_end(s, a, b, x + 1, x);
    } else if at(s, x) == Some('"') {
        lemma_double_quote_end(s, a, b, x + 1, x);
    } else if at(s, x) == Some('`') {
        lemma_backquote_end(s, a, b, x + 1, x);
    }
}

pub proof fn lemma_parens_end(
    s: Seq<char>,
    a: int,
    b: int,
    x: int,
    depth: int,
    closed: bool,
    ctx: BalanceContext,
    open: int,
)
    requires
        within(s, a, b),
        a <= x,
    ensures
        onward_end(parens_end(s, x, depth, closed, ctx, open), x),
        same_end(
            parens_end(s, x, depth, closed, ctx, open),
            parens_end(part(s, a, b), x - a, depth, closed, ctx, open - a),
            a,
            b,
        ),
    decreases left(s, x), 1nat,
{
    if depth > 0 && x < s.len() {
        lemma_nested_end(s, a, b, x);
        lemma_quoted_end(s, a, b, x);
        match nested_end(s, x) {
            Some(Ok(j)) => {
                lemma_parens_end(s, a, b, past(x, j), depth, false, ctx, open);
            },
            Some(Err(_)) => {},
            None => match quoted_end(s, x) {
                Some(Ok(j)) => {
                    lemma_parens_end(s, a, b, past(x, j), depth, false, ctx, open);
                },
                Some(Err(_)) => {},
                None => {
                    if s[x] == '(' {
                        lemma_parens_end(s, a, b, x + 1, depth + 1, false, ctx, open);
                    } else if s[x] == ')' {
                        lemma_parens_end(s, a, b, x + 1, depth - 1, true, ctx, open);
                    } else {
                        lemma_parens_end(s, a, b, x + 1, depth, false, ctx, open);
                    }
                },
            },
        }
    }
}

pub proof fn lemma_brace_end(s: Seq<char>, a: int, b: int, x: int, open: int)
    requires
        within(s, a, b),
        a <= x,
    ensures
        onward_end(brace_end(s, x, open), x + 1),
        same_end(brace_end(s, x, open), brace_end(part(s, a, b), x - a, open - a), a, b),
    decreases left(s, x), 1nat,
{
    if x < s.len() {
        lemma_nested_end(s, a, b, x);
        lemma_quoted_end(s, a, b, x);
        match nested_end(s, x) {
            Some(Ok(j)) => {
                lemma_brace_end(s, a, b, past(x, j), open);
            },
            Some(Err(_)) => {},
            None => match quoted_end(s, x) {
                Some(Ok(j)) => {
                    lemma_brace_end(s, a, b, past(x, j), open);
                },
                Some(Err(_)) => {},
                None => {
                    if s[x] != '}' {
                        lemma_brace_end(s, a, b, x + 1, open);
                    }
                },
            },
        }
    }
}

// ---- segments ---------------------------------------------------------------------------

proof fn lemma_digits(s: Seq<char>, a: int, b: int, x: int)
    requires
        closes(s, a, b),
        a <= x <= b,
    ensures
        x <= digits_end(s, x) <= b,
        digits_end(part(s, a, b), x - a) == digits_end(s, x) - a,
    decreases b - x,
{
    if x < b {
        lemma_digits(s, a, b, x + 1);
    }
}

proof fn lemma_name(s: Seq<char>, a: int, b: int, x: int)
    requires
        closes(s, a, b),
        a <= x <= b,
    ensures
        x <= name_end(s, x) <= b,
        name_end(part(s, a, b), x - a) == name_end(s, x) - a,
    decreases b - x,
{
    if x < b {
        lemma_name(s, a, b, x + 1);
    }
}

pub proof fn lemma_subrange(s: Seq<char>, a: int, b: int, x: int, y: int)
    requires
        0 <= a <= x <= y <= b <= s.len(),
    ensures
        part(s, a, b).subrange(x - a, y - a) == s.subrange(x, y),
{
    assert(part(s, a, b).subrange(x - a, y - a) =~= s.subrange(x, y));
}

proof fn lemma_bare_parameter(s: Seq<char>, a: int, b: int, x: int, multi_digit: bool)
    requires
        closes(s, a, b),
        a <= x <= b,
    ensures
        match bare_parameter(s, x, multi_digit) {
            Some((p, j)) => x < j <= b && bare_parameter(part(s, a, b), x - a, multi_digit) == Some(
                (p, j - a),
            ),
            None => bare_parameter(part(s, a, b), x - a, multi_digit) is None,
        },
{
    lemma_digits(s, a, b, x);
    lemma_name(s, a, b, x);
    if x < b {
        lemma_digits(s, a, b, x + 1);
        lemma_name(s, a, b, x + 1);
        lemma_subrange(s, a, b, x, x + 1);
        lemma_subrange(s, a, b, x, digits_end(s, x));
        lemma_subrange(s, a, b, x, name_end(s, x));
    }
}

proof fn lemma_single_quoted(s: Seq<char>, a: int, b: int, x: int)
    requires
        closes(s, a, b),
        a <= x < b,
    ensures
        single_quoted(s, x) matches Ok((_, j)) ==> x < j,
        same_read(single_quoted(s, x), single_quoted(part(s, a, b), x - a), a, b),
{
    lemma_single_quote_end(s, a, b, x + 1, x);
    if let Ok(j) = single_quote_end(s, x + 1, x) {
        if j <= b {
            lemma_subrange(s, a, b, x + 1, j - 1);
        }
    }
}

proof fn lemma_backquoted(s: Seq<char>, a: int, b: int, x: int)
    requires
        closes(s, a, b),
        a <= x < b,
    ensures
        backquoted(s, x) matches Ok((_, j)) ==> x < j,
        same_read(backquoted(s, x), backquoted(part(s, a, b), x - a), a, b),
{
    lemma_backquote_end(s, a, b, x + 1, x);
    if let Ok(j) = backquote_end(s, x + 1, x) {
        if j <= b {
            lemma_subrange(s, a, b, x + 1, j - 1);
        }
    }
}

proof fn lemma_braced(s: Seq<char>, a: int, b: int, x: int)
    requires
        closes(s, a, b),
        a <= x,
        x + 2 <= b,
    ensures
        braced(s, x) matches Ok((_, j)) ==> x < j,
        same_read(braced(s, x), braced(part(s, a, b), x - a), a, b),
{
    lemma_bare_parameter(s, a, b, x + 2, true);
    lemma_brace_end(s, a, b, x + 2, x);
    if let Ok(j) = brace_end(s, x + 2, x) {
        if j <= b {
            lemma_subrange(s, a, b, x + 2, j - 1);
        }
    }
}

/// Parentheses that are open close after the place where they are looked for.
proof fn lemma_open_parens_close_later(
    s: Seq<char>,
    a: int,
    b: int,
    x: int,
    depth: int,
    closed: bool,
    ctx: BalanceContext,
    open: int,
)
    requires
        closes(s, a, b),
        a <= x,
        depth >= 0,
    ensures
        onward_end(parens_end(s, x, depth, closed, ctx, open), x + depth),
    decreases left(s, x),
{
    if depth > 0 && x < s.len() {
        lemma_nested_end(s, a, b, x);
        lemma_quoted_end(s, a, b, x);
        match nested_end(s, x) {
            Some(Ok(j)) => {
                lemma_open_parens_close_later(s, a, b, past(x, j), depth, false, ctx, open);
            },
            Some(Err(_)) => {},
            None => match quoted_end(s, x) {
                Some(Ok(j)) => {
                    lemma_open_parens_close_later(s, a, b, past(x, j), depth, false, ctx, open);
                },
                Some(Err(_)) => {},
                None => {
                    let next = if s[x] == '(' {
                        depth + 1
                    } else if s[x] == ')' {
                        depth - 1
                    } else {
                        depth
                    };
                    lemma_open_parens_close_later(s, a, b, x + 1, next, s[x] == ')', ctx, open);
                },
            },
        }
    }
}

proof fn lemma_dollar(s: Seq<char>, a: int, b: int, x: int)
    requires
        closes(s, a, b),
        a <= x < b,
    ensures
        dollar(s, x) matches Ok((_, j)) ==> x < j,
        same_read(dollar(s, x), dollar(part(s, a, b), x - a), a, b),
{
    lemma_at(s, a, b, x + 1);
    if at(s, x + 1) == Some('{') {
        lemma_braced(s, a, b, x);
    } else if at(s, x + 1) == Some('(') {
        lemma_at(s, a, b, x + 2);
        lemma_parens_end(s, a, b, x + 3, 2, false, BalanceContext::Arithmetic, x);
        lemma_open_parens_close_later(s, a, b, x + 3, 2, false, BalanceContext::Arithmetic, x);
        lemma_parens_end(s, a, b, x + 2, 1, false, BalanceContext::CommandSubstitution, x);
        lemma_open_parens_close_later(s, a, b, x + 2, 1, false, BalanceContext::CommandSubstitution, x);
        if at(s, x + 2) == Some('(') {
            if let Ok(j) = parens_end(s, x + 3, 2, false, BalanceContext::Arithmetic, x) {
                if j <= b {
                    lemma_subrange(s, a, b, x + 3, j - 2);
                }
            }
        } else {
            if let Ok(j) = parens_end(s, x + 2, 1, false, BalanceContext::CommandSubstitution, x) {
                if j <= b {
                    lemma_subrange(s, a, b, x + 2, j - 1);
                }
            }
        }
    } else {
        lemma_bare_parameter(s, a, b, x + 1, false);
    }
}

proof fn lemma_quoted_content(
    s: Seq<char>,
    a: int,
    b: int,
    x: int,
    lit: Seq<char>,
    segs: Seq<WordSegmentV>,
)
    requires
        closes(s, a, b),
        a <= x,
    ensures
        quoted_content(s, x, false, lit, segs) matches Ok((_, j)) ==> x <= j,
        same_read(
            quoted_content(s, x, false, lit, segs),
            quoted_content(part(s, a, b), x - a, false, lit, segs),
            a,
            b,
        ),
    decreases left(s, x),
{
    if x < s.len() && s[x] != '"' {
        if x < b {
            lemma_at(s, a, b, x);
            lemma_at(s, a, b, x + 1);
        }
        if s[x] == '\\' {
            if double_quote_escapable(at(s, x + 1)) {
                lemma_quoted_content(s, a, b, x + 2, lit.push(s[x + 1]), segs);
            } else if at(s, x + 1) == Some('\n') {
                lemma_quoted_content(s, a, b, x + 2, lit, segs);
            } else if at(s, x + 1) is Some {
                lemma_quoted_content(s, a, b, x + 2, lit.push('\\').push(s[x + 1]), segs);
            }
        } else if s[x] == '$' {
            if x < b {
                lemma_dollar(s, a, b, x);
            }
            match dollar(s, x) {
                Ok((WordSegmentV::Literal(t), j)) => {
                    lemma_quoted_content(s, a, b, past(x, j), lit + t, segs);
                },
                Ok((seg, j)) => {
                    lemma_quoted_content(
                        s,
                        a,
                        b,
                        past(x, j),
                        Seq::empty(),
                        flush(lit, segs).push(seg),
                    );
                },
                Err(_) => {},
            }
        } else if s[x] == '`' {
            if x < b {
                lemma_backquoted(s, a, b, x);
            }
            if let Ok((seg, j)) = backquoted(s, x) {
                lemma_quoted_content(
                    s,
                    a,
                    b,
                    past(x, j),
                    Seq::empty(),
                    flush(lit, segs).push(seg),
                );
            }
        } else {
            lemma_quoted_content(s, a, b, x + 1, lit.push(s[x]), segs);
        }
    }
}

proof fn lemma_double_quoted(s: Seq<char>, a: int, b: int, x: int)
    requires
        closes(s, a, b),
        a <= x < b,
    ensures
        double_quoted(s, x) matches Ok((_, j)) ==> x < j,
        same_read(double_quoted(s, x), double_quoted(part(s, a, b), x - a), a, b),
{
    lemma_quoted_content(s, a, b, x + 1, Seq::empty(), Seq::empty());
}

proof fn lemma_word_content(
    s: Seq<char>,
    a: int,
    b: int,
    x: int,
    lit: Seq<char>,
    segs: Seq<WordSegmentV>,
)
    requires
        closes(s, a, b),
        a <= x,
    ensures
        word_content(s, x, Boundary::Delimiter, lit, segs) matches Ok((_, j)) ==> x <= j,
        same_read(
            word_content(s, x, Boundary::Delimiter, lit, segs),
            word_content(part(s, a, b), x - a, Boundary::Delimiter, lit, segs),
            a,
            b,
        ),
    decreases left(s, x),
{
    if x < s.len() && !super::rules::ends_word(Boundary::Delimiter, s[x]) {
        if x < b {
            lemma_at(s, a, b, x);
            lemma_at(s, a, b, x + 1);
            lemma_single_quoted(s, a, b, x);
            lemma_double_quoted(s, a, b, x);
            lemma_backquoted(s, a, b, x);
            lemma_dollar(s, a, b, x);
        }
        if s[x] == '\'' || s[x] == '"' || s[x] == '`' {
            let seg = if s[x] == '\'' {
                single_quoted(s, x)
            } else if s[x] == '"' {
                double_quoted(s, x)
            } else {
                backquoted(s, x)
            };
            if let Ok((seg, j)) = seg {
                lemma_word_content(
                    s,
                    a,
                    b,
                    past(x, j),
                    Seq::empty(),
                    flush(lit, segs).push(seg),
                );
            }
        } else if s[x] == '$' {
            match dollar(s, x) {
                Ok((WordSegmentV::Literal(t), j)) => {
                    lemma_word_content(s, a, b, past(x, j), lit + t, segs);
                },
                Ok((seg, j)) => {
                    lemma_word_content(
                        s,
                        a,
                        b,
                        past(x, j),
                        Seq::empty(),
                        flush(lit, segs).push(seg),
                    );
                },
                Err(_) => {},
            }
        } else if s[x] == '\\' {
            if let Some(c) = at(s, x + 1) {
                if c == '\n' {
                    lemma_word_content(s, a, b, x + 2, lit, segs);
                } else {
                    lemma_word_content(s, a, b, x + 2, lit.push(c), segs);
                }
            }
        } else {
            lemma_word_content(s, a, b, x + 1, lit.push(s[x]), segs);
        }
    }
}

// ---- tokens -----------------------------------------------------------------------------

proof fn lemma_token_at(s: Seq<char>, a: int, b: int, x: int)
    requires
        closes(s, a, b),
        a <= x < b,
    ensures
        token_at(s, x) matches Ok((_, j)) ==> x <= j,
        same_read(token_at(s, x), token_at(part(s, a, b), x - a), a, b),
{
    lemma_at(s, a, b, x);
    lemma_at(s, a, b, x + 1);
    if x + 2 <= b {
        lemma_at(s, a, b, x + 2);
    }
    lemma_digits(s, a, b, x);
    lemma_at(s, a, b, digits_end(s, x));
    lemma_subrange(s, a, b, x, digits_end(s, x));
    lemma_word_content(s, a, b, x, Seq::empty(), Seq::empty());
}

proof fn lemma_blanks(s: Seq<char>, a: int, b: int, x: int)
    requires
        closes(s, a, b),
        a <= x <= b,
    ensures
        x <= blanks_end(s, x) <= b,
        blanks_end(part(s, a, b), x - a) == blanks_end(s, x) - a,
    decreases b - x,
{
    if x < b {
        lemma_blanks(s, a, b, x + 1);
    }
}

proof fn lemma_line(s: Seq<char>, a: int, b: int, x: int)
    requires
        closes(s, a, b),
        a <= x,
        line_end(s, x) <= b,
    ensures
        line_end(part(s, a, b), x - a) == line_end(s, x) - a,
    decreases left(s, x),
{
    lemma_line_end(s, x);
    if x < s.len() && s[x] != '\n' {
        lemma_line_end(s, x + 1);
        lemma_line(s, a, b, x + 1);
    }
}

/// Offsets in a part are those in the whole text, counted from its beginning.
pub proof fn lemma_offset(s: Seq<char>, a: int, b: int, x: int)
    requires
        0 <= a <= x <= b <= s.len(),
    ensures
        offset_of(s, x) == offset_of(s, a) + offset_of(part(s, a, b), x - a),
    decreases x - a,
{
    if a < x {
        lemma_offset(s, a, b, x - 1);
    }
}

/// The tokens from `x` on come after those read before, and start there or later.
proof fn lemma_tokens_follow(s: Seq<char>, x: int, acc: Seq<TokenV>, all: Seq<TokenV>)
    requires
        0 <= x <= s.len(),
        byte_len(s) <= usize::MAX,
        tokens_from(s, x, acc) == Ok::<Seq<TokenV>, LexError>(all),
    ensures
        acc.len() <= all.len(),
        all.take(acc.len() as int) == acc,
        forall|k: int|
            acc.len() <= k < all.len() ==> (#[trigger] all[k]).span.start >= offset_of(s, x),
    decreases left(s, x),
{
    let y = blanks_end(s, x);
    lemma_blanks_end(s, x);
    if y < s.len() {
        lemma_offset_monotonic(s, x, y);
        lemma_offset_monotonic(s, y, s.len() as int);
        if s[y] == '#' {
            lemma_line_end(s, y + 1);
            lemma_offset_monotonic(s, y, line_end(s, y + 1));
            lemma_tokens_follow(s, line_end(s, y + 1), acc, all);
        } else {
            super::laws::lemma_token_at(s, y);
            let (kind, z) = token_at(s, y)->Ok_0;
            let token = TokenV { kind, span: Span { start: pos(s, y), end: pos(s, z) } };
            lemma_offset_monotonic(s, y, z);
            lemma_tokens_follow(s, z, acc.push(token), all);
            let len = acc.len() as int;
            assert(all.take(len) =~= all.take(len + 1).take(len));
            assert(acc.push(token).take(len) =~= acc);
            assert(all[len] == all.take(len + 1)[len]);
        }
    } else {
        assert(all.take(acc.len() as int) =~= acc);
    }
}

/// A token as it stands in a part that begins at byte `from`.
pub open spec fn moved(t: TokenV, from: nat) -> TokenV {
    TokenV {
        kind: t.kind,
        span: Span {
            start: (t.span.start - from) as usize,
            end: (t.span.end - from) as usize,
        },
    }
}

/// Tokens as they stand in a part that begins at byte `from`.
pub open spec fn all_moved(tokens: Seq<TokenV>, from: nat) -> Seq<TokenV> {
    tokens.map_values(|t: TokenV| moved(t, from))
}

/// The part is lexed into the tokens that stand in it.
proof fn lemma_tokens(
    s: Seq<char>,
    a: int,
    b: int,
    x: int,
    acc: Seq<TokenV>,
    all: Seq<TokenV>,
    n: int,
    read: Seq<TokenV>,
)
    requires
        closes(s, a, b),
        a <= x <= b,
        byte_len(s) <= usize::MAX,
        tokens_from(s, x, acc) == Ok::<Seq<TokenV>, LexError>(all),
        acc.len() <= n < all.len(),
        all[n].span.start == offset_of(s, b),
    ensures
        tokens_from(part(s, a, b), x - a, read) == Ok::<Seq<TokenV>, LexError>(
            read + all_moved(all.subrange(acc.len() as int, n), offset_of(s, a)),
        ),
    decreases left(s, x),
{
    let t = part(s, a, b);
    let from = offset_of(s, a);
    let len = acc.len() as int;
    let rest = all_moved(all.subrange(len, n), from);
    let y = blanks_end(s, x);
    lemma_blanks(s, a, b, x);
    lemma_offset_monotonic(s, y, b);
    lemma_offset_monotonic(s, b, s.len() as int);
    if y < b && s[y] == '#' {
        let e = line_end(s, y + 1);
        lemma_line_end(s, y + 1);
        lemma_tokens_follow(s, e, acc, all);
        if e > b {
            lemma_offset_monotonic(s, b, e);
        }
        lemma_line(s, a, b, y + 1);
        lemma_tokens(s, a, b, e, acc, all, n, read);
    } else {
        lemma_blanks_end(s, x);
        super::laws::lemma_token_at(s, y);
        let (kind, z) = token_at(s, y)->Ok_0;
        let token = TokenV { kind, span: Span { start: pos(s, y), end: pos(s, z) } };
        lemma_tokens_follow(s, z, acc.push(token), all);
        assert(all[len] == all.take(len + 1)[len]);
        lemma_offset_monotonic(s, y, z);
        if y == b {
            assert(n == len);
            assert(read + rest =~= read);
        } else {
            assert(n > len);
            if z > b {
                lemma_offset_monotonic(s, b, z);
            }
            lemma_token_at(s, a, b, y);
            lemma_offset(s, a, b, y);
            lemma_offset(s, a, b, z);
            lemma_offset_monotonic(s, z, s.len() as int);
            lemma_tokens(s, a, b, z, acc.push(token), all, n, read.push(moved(token, from)));
            assert(read.push(moved(token, from)) + all_moved(all.subrange(len + 1, n), from)
                =~= read + rest);
        }
    }
}

/// Where token `n` stands, and that the tokens after it are read from its end on.
pub proof fn lemma_token_is_read(
    s: Seq<char>,
    x: int,
    acc: Seq<TokenV>,
    all: Seq<TokenV>,
    n: int,
) -> (r: (int, int))
    requires
        0 <= x <= s.len(),
        byte_len(s) <= usize::MAX,
        tokens_from(s, x, acc) == Ok::<Seq<TokenV>, LexError>(all),
        acc.len() <= n < all.len(),
    ensures
        x <= r.0 < r.1 <= s.len(),
        all[n].span == (Span { start: pos(s, r.0), end: pos(s, r.1) }),
        token_at(s, r.0) == Ok::<(TokenKindV, int), LexError>((all[n].kind, r.1)),
        tokens_from(s, r.1, all.take(n + 1)) == Ok::<Seq<TokenV>, LexError>(all),
    decreases left(s, x),
{
    let y = blanks_end(s, x);
    lemma_blanks_end(s, x);
    if s[y] == '#' {
        lemma_line_end(s, y + 1);
        lemma_token_is_read(s, line_end(s, y + 1), acc, all, n)
    } else {
        super::laws::lemma_token_at(s, y);
        let (kind, z) = token_at(s, y)->Ok_0;
        let token = TokenV { kind, span: Span { start: pos(s, y), end: pos(s, z) } };
        lemma_tokens_follow(s, z, acc.push(token), all);
        if n == acc.len() {
            assert(all[n] == all.take(n + 1)[n]);
            (y, z)
        } else {
            lemma_token_is_read(s, z, acc.push(token), all, n)
        }
    }
}

/// The text between a token and a `)` after it is lexed into the tokens that
/// stand there. Gives the two ends of that text.
pub proof fn lemma_text_between_tokens(s: Seq<char>, all: Seq<TokenV>, i: int, n: int) -> (r: (
    int,
    int,
))
    requires
        byte_len(s) <= usize::MAX,
        tokens_from(s, 0, Seq::empty()) == Ok::<Seq<TokenV>, LexError>(all),
        0 <= i < n < all.len(),
        all[n].kind == TokenKindV::Operator(Operator::RParen),
    ensures
        closes(s, r.0, r.1),
        all[i].span.end == offset_of(s, r.0),
        all[n].span.start == offset_of(s, r.1),
        tokens_from(part(s, r.0, r.1), 0, Seq::empty()) == Ok::<Seq<TokenV>, LexError>(
            all_moved(all.subrange(i + 1, n), offset_of(s, r.0)),
        ),
{
    let none = Seq::<TokenV>::empty();
    let (_, a) = lemma_token_is_read(s, 0, none, all, i);
    let (b, z) = lemma_token_is_read(s, a, all.take(i + 1), all, n);
    lemma_offset_monotonic(s, a, s.len() as int);
    lemma_offset_monotonic(s, b, s.len() as int);
    lemma_tokens(s, a, b, a, all.take(i + 1), all, n, none);
    let moved_tokens = all_moved(all.subrange(i + 1, n), offset_of(s, a));
    assert(none + moved_tokens =~= moved_tokens);
    (a, b)
}

/// The span of a token lies between characters, so that it can be cut out of the
/// input.
pub proof fn law_spans_lie_between_characters(s: Seq<char>, k: int)
    requires
        byte_len(s) <= usize::MAX,
        tokens_from(s, 0, Seq::empty()) matches Ok(tokens) && 0 <= k < tokens.len(),
    ensures
        exists|x: int, y: int|
            0 <= x < y <= s.len() && tokens_from(s, 0, Seq::empty())->Ok_0[k].span == (Span {
                start: #[trigger] offset_of(s, x) as usize,
                end: #[trigger] offset_of(s, y) as usize,
            }),
{
    let tokens = tokens_from(s, 0, Seq::empty())->Ok_0;
    let (x, y) = lemma_token_is_read(s, 0, Seq::empty(), tokens, k);
    assert(tokens[k].span == (Span {
        start: offset_of(s, x) as usize,
        end: offset_of(s, y) as usize,
    }));
}

} // verus!
