//! Lexing a text in the middle of a longer one.
//!
//! What the rules read to its end in a text, they read in the longer text too. The
//! text `t` is the part of the longer one, `s`, from `a` to `b`: index `i` of `t`
//! is index `x` of `s`.

use vstd::prelude::*;

use super::excerpt::{lemma_offset, part};
use super::rules::{
    at, backquote_end, backquote_escapable, backquoted, bare_parameter, blanks_end, brace_end,
    braced, digits_end, dollar, double_quote_end, double_quote_escapable, double_quoted, ends_word,
    flush, left, lemma_blanks_end, lemma_line_end, line_end, name_end, nested_end, parens_end, past,
    pos, quoted_content, quoted_end, single_quote_end, single_quoted, token_at, tokens_from,
    word_content, BalanceContext, Boundary,
};
use super::LexError;
use crate::text::{byte_len, lemma_offset_monotonic, offset_of};
use crate::token::{Span, TokenKindV, TokenV, WordSegmentV};

verus! {

/// `t` stands in `s` from `a` to `b`, and `x` is the place of `i`.
pub open spec fn lies_in(t: Seq<char>, s: Seq<char>, a: int, b: int, i: int, x: int) -> bool {
    &&& 0 <= a <= b <= s.len()
    &&& t == part(s, a, b)
    &&& 0 <= i
    &&& x == a + i
}

/// No parameter goes on at `b`.
pub open spec fn stops(s: Seq<char>, b: int) -> bool {
    b < s.len() ==> s[b] == '\n' || s[b] == '"'
}

/// An end that is found in `t` is found in `s`, at the same place.
pub open spec fn same_end(r: Result<int, LexError>, q: Result<int, LexError>, a: int) -> bool {
    r matches Ok(j) ==> q == Ok::<int, LexError>(a + j)
}

spec fn same_read<T>(r: Result<(T, int), LexError>, q: Result<(T, int), LexError>, a: int) -> bool {
    r matches Ok((v, j)) ==> q == Ok::<(T, int), LexError>((v, a + j))
}

// ---- the ends of constructs -------------------------------------------------------------

proof fn lemma_single_quote_end(
    t: Seq<char>,
    s: Seq<char>,
    a: int,
    b: int,
    i: int,
    x: int,
    open: int,
    begun: int,
)
    requires
        lies_in(t, s, a, b, i, x),
    ensures
        single_quote_end(t, i, open) matches Ok(j) ==> i < j <= t.len(),
        same_end(single_quote_end(t, i, open), single_quote_end(s, x, begun), a),
    decreases left(t, i),
{
    if i < t.len() {
        assert(t[i] == s[x]);
        if t[i] != '\'' {
            lemma_single_quote_end(t, s, a, b, i + 1, x + 1, open, begun);
        }
    }
}

pub proof fn lemma_backquote_end(
    t: Seq<char>,
    s: Seq<char>,
    a: int,
    b: int,
    i: int,
    x: int,
    open: int,
    begun: int,
)
    requires
        lies_in(t, s, a, b, i, x),
    ensures
        backquote_end(t, i, open) matches Ok(j) ==> i < j <= t.len(),
        same_end(backquote_end(t, i, open), backquote_end(s, x, begun), a),
    decreases left(t, i),
{
    if i < t.len() {
        assert(t[i] == s[x]);
        if i + 1 < t.len() {
            assert(t[i + 1] == s[x + 1]);
        }
        if t[i] == '\\' && backquote_escapable(at(t, i + 1)) {
            lemma_backquote_end(t, s, a, b, i + 2, x + 2, open, begun);
        } else if t[i] != '`' {
            lemma_backquote_end(t, s, a, b, i + 1, x + 1, open, begun);
        }
    }
}

/// What a nested construct at `i` comes to. A `$` at the very end of `t` may be more
/// in `s`.
spec fn same_nested(t: Seq<char>, s: Seq<char>, a: int, i: int, x: int) -> bool {
    match nested_end(t, i) {
        Some(Ok(j)) => i < j <= t.len() && nested_end(s, x) == Some(Ok::<int, LexError>(a + j)),
        Some(Err(_)) => true,
        None => i + 1 < t.len() || at(t, i) != Some('$') ==> nested_end(s, x) is None,
    }
}

proof fn lemma_nested_end(t: Seq<char>, s: Seq<char>, a: int, b: int, i: int, x: int)
    requires
        lies_in(t, s, a, b, i, x),
        i < t.len(),
    ensures
        same_nested(t, s, a, i, x),
    decreases left(t, i), 0nat,
{
    assert(t[i] == s[x]);
    if i + 1 < t.len() {
        assert(t[i + 1] == s[x + 1]);
    }
    if i + 2 < t.len() {
        assert(t[i + 2] == s[x + 2]);
    }
    if at(t, i) == Some('$') {
        if at(t, i + 1) == Some('(') {
            if at(t, i + 2) == Some('(') {
                lemma_parens_end(
                    t,
                    s,
                    a,
                    b,
                    i + 3,
                    x + 3,
                    2,
                    false,
                    BalanceContext::Arithmetic,
                    i,
                    x,
                );
            } else {
                lemma_parens_end(
                    t,
                    s,
                    a,
                    b,
                    i + 2,
                    x + 2,
                    1,
                    false,
                    BalanceContext::CommandSubstitution,
                    i,
                    x,
                );
            }
        } else if at(t, i + 1) == Some('{') {
            lemma_brace_end(t, s, a, b, i + 2, x + 2, i, x);
        }
    }
}

proof fn lemma_double_quote_end(
    t: Seq<char>,
    s: Seq<char>,
    a: int,
    b: int,
    i: int,
    x: int,
    open: int,
    begun: int,
)
    requires
        lies_in(t, s, a, b, i, x),
    ensures
        double_quote_end(t, i, open) matches Ok(j) ==> i < j <= t.len(),
        same_end(double_quote_end(t, i, open), double_quote_end(s, x, begun), a),
    decreases left(t, i), 1nat,
{
    if i < t.len() {
        assert(t[i] == s[x]);
        if i + 1 < t.len() {
            assert(t[i + 1] == s[x + 1]);
        }
        lemma_nested_end(t, s, a, b, i, x);
        match nested_end(t, i) {
            Some(Ok(j)) => {
                lemma_double_quote_end(t, s, a, b, past(i, j), a + past(i, j), open, begun);
            },
            Some(Err(_)) => {},
            None => {
                if t[i] == '\\' && (double_quote_escapable(at(t, i + 1)) || at(t, i + 1)
                    == Some('\n')) {
                    lemma_double_quote_end(t, s, a, b, i + 2, x + 2, open, begun);
                } else if t[i] != '"' {
                    lemma_double_quote_end(t, s, a, b, i + 1, x + 1, open, begun);
                }
            },
        }
    }
}

spec fn same_quoted(t: Seq<char>, s: Seq<char>, a: int, i: int, x: int) -> bool {
    match quoted_end(t, i) {
        Some(Ok(j)) => i < j <= t.len() && quoted_end(s, x) == Some(Ok::<int, LexError>(a + j)),
        Some(Err(_)) => true,
        None => quoted_end(s, x) is None,
    }
}

proof fn lemma_quoted_end(t: Seq<char>, s: Seq<char>, a: int, b: int, i: int, x: int)
    requires
        lies_in(t, s, a, b, i, x),
        i < t.len(),
    ensures
        same_quoted(t, s, a, i, x),
    decreases left(t, i), 0nat,
{
    assert(t[i] == s[x]);
    if at(t, i) == Some('\'') {
        lemma_single_quote_end(t, s, a, b, i + 1, x + 1, i, x);
    } else if at(t, i) == Some('"') {
        lemma_double_quote_end(t, s, a, b, i + 1, x + 1, i, x);
    } else if at(t, i) == Some('`') {
        lemma_backquote_end(t, s, a, b, i + 1, x + 1, i, x);
    }
}

pub proof fn lemma_parens_end(
    t: Seq<char>,
    s: Seq<char>,
    a: int,
    b: int,
    i: int,
    x: int,
    depth: int,
    closed: bool,
    ctx: BalanceContext,
    open: int,
    begun: int,
)
    requires
        lies_in(t, s, a, b, i, x),
        i <= t.len(),
    ensures
        parens_end(t, i, depth, closed, ctx, open) matches Ok(j) ==> i <= j <= t.len(),
        same_end(
            parens_end(t, i, depth, closed, ctx, open),
            parens_end(s, x, depth, closed, ctx, begun),
            a,
        ),
    decreases left(t, i), 1nat,
{
    if depth > 0 && i < t.len() {
        assert(t[i] == s[x]);
        lemma_nested_end(t, s, a, b, i, x);
        lemma_quoted_end(t, s, a, b, i, x);
        match nested_end(t, i) {
            Some(Ok(j)) => {
                lemma_parens_end(
                    t,
                    s,
                    a,
                    b,
                    past(i, j),
                    a + past(i, j),
                    depth,
                    false,
                    ctx,
                    open,
                    begun,
                );
            },
            Some(Err(_)) => {},
            None => match quoted_end(t, i) {
                Some(Ok(j)) => {
                    lemma_parens_end(
                        t,
                        s,
                        a,
                        b,
                        past(i, j),
                        a + past(i, j),
                        depth,
                        false,
                        ctx,
                        open,
                        begun,
                    );
                },
                Some(Err(_)) => {},
                None => {
                    let next = if t[i] == '(' {
                        depth + 1
                    } else if t[i] == ')' {
                        depth - 1
                    } else {
                        depth
                    };
                    lemma_parens_end(
                        t,
                        s,
                        a,
                        b,
                        i + 1,
                        x + 1,
                        next,
                        t[i] == ')',
                        ctx,
                        open,
                        begun,
                    );
                },
            },
        }
    }
}

pub proof fn lemma_brace_end(
    t: Seq<char>,
    s: Seq<char>,
    a: int,
    b: int,
    i: int,
    x: int,
    open: int,
    begun: int,
)
    requires
        lies_in(t, s, a, b, i, x),
    ensures
        brace_end(t, i, open) matches Ok(j) ==> i < j <= t.len(),
        same_end(brace_end(t, i, open), brace_end(s, x, begun), a),
    decreases left(t, i), 1nat,
{
    if i < t.len() {
        assert(t[i] == s[x]);
        lemma_nested_end(t, s, a, b, i, x);
        lemma_quoted_end(t, s, a, b, i, x);
        match nested_end(t, i) {
            Some(Ok(j)) => {
                lemma_brace_end(t, s, a, b, past(i, j), a + past(i, j), open, begun);
            },
            Some(Err(_)) => {},
            None => match quoted_end(t, i) {
                Some(Ok(j)) => {
                    lemma_brace_end(t, s, a, b, past(i, j), a + past(i, j), open, begun);
                },
                Some(Err(_)) => {},
                None => {
                    if t[i] != '}' {
                        lemma_brace_end(t, s, a, b, i + 1, x + 1, open, begun);
                    }
                },
            },
        }
    }
}

// ---- segments ---------------------------------------------------------------------------

proof fn lemma_runs(t: Seq<char>, s: Seq<char>, a: int, b: int, i: int, x: int)
    requires
        lies_in(t, s, a, b, i, x),
        i <= t.len(),
        stops(s, b),
    ensures
        i <= digits_end(t, i) <= t.len(),
        digits_end(s, x) == a + digits_end(t, i),
        i <= name_end(t, i) <= t.len(),
        name_end(s, x) == a + name_end(t, i),
    decreases left(t, i),
{
    if i < t.len() {
        assert(t[i] == s[x]);
        lemma_runs(t, s, a, b, i + 1, x + 1);
    }
}

proof fn lemma_subrange(t: Seq<char>, s: Seq<char>, a: int, b: int, i: int, j: int)
    requires
        0 <= a <= b <= s.len(),
        t == part(s, a, b),
        0 <= i <= j <= t.len(),
    ensures
        t.subrange(i, j) == s.subrange(a + i, a + j),
{
    assert(t.subrange(i, j) =~= s.subrange(a + i, a + j));
}

proof fn lemma_bare_parameter(
    t: Seq<char>,
    s: Seq<char>,
    a: int,
    b: int,
    i: int,
    x: int,
    multi_digit: bool,
)
    requires
        lies_in(t, s, a, b, i, x),
        i <= t.len(),
        stops(s, b),
    ensures
        match bare_parameter(t, i, multi_digit) {
            Some((p, j)) => i < j <= t.len() && bare_parameter(s, x, multi_digit) == Some(
                (p, a + j),
            ),
            None => bare_parameter(s, x, multi_digit) is None,
        },
{
    lemma_runs(t, s, a, b, i, x);
    if i < t.len() {
        assert(t[i] == s[x]);
        lemma_runs(t, s, a, b, i + 1, x + 1);
        lemma_subrange(t, s, a, b, i, i + 1);
        lemma_subrange(t, s, a, b, i, digits_end(t, i));
        lemma_subrange(t, s, a, b, i, name_end(t, i));
    }
}

proof fn lemma_braced(t: Seq<char>, s: Seq<char>, a: int, b: int, i: int, x: int)
    requires
        lies_in(t, s, a, b, i, x),
        i + 2 <= t.len(),
        stops(s, b),
    ensures
        braced(t, i) matches Ok((_, j)) ==> i < j <= t.len(),
        same_read(braced(t, i), braced(s, x), a),
{
    lemma_bare_parameter(t, s, a, b, i + 2, x + 2, true);
    lemma_brace_end(t, s, a, b, i + 2, x + 2, i, x);
    if let Some((_, j)) = bare_parameter(t, i + 2, true) {
        if j < t.len() {
            assert(t[j] == s[a + j]);
        }
    }
    if let Ok(j) = brace_end(t, i + 2, i) {
        lemma_subrange(t, s, a, b, i + 2, j - 1);
    }
}

proof fn lemma_dollar(t: Seq<char>, s: Seq<char>, a: int, b: int, i: int, x: int)
    requires
        lies_in(t, s, a, b, i, x),
        i < t.len(),
        t[i] == '$',
        stops(s, b),
    ensures
        dollar(t, i) matches Ok((_, j)) ==> i < j <= t.len(),
        same_read(dollar(t, i), dollar(s, x), a),
{
    super::laws::law_expansions_are_verbatim(t, i);
    if i + 1 < t.len() {
        assert(t[i + 1] == s[x + 1]);
    }
    if i + 2 < t.len() {
        assert(t[i + 2] == s[x + 2]);
    }
    if at(t, i + 1) == Some('{') {
        lemma_braced(t, s, a, b, i, x);
    } else if at(t, i + 1) == Some('(') && at(t, i + 2) == Some('(') {
        lemma_parens_end(t, s, a, b, i + 3, x + 3, 2, false, BalanceContext::Arithmetic, i, x);
        super::laws::lemma_parens_end(t, i + 3, 2, false, BalanceContext::Arithmetic, i);
        if let Ok(j) = parens_end(t, i + 3, 2, false, BalanceContext::Arithmetic, i) {
            lemma_subrange(t, s, a, b, i + 3, j - 2);
        }
    } else if at(t, i + 1) == Some('(') {
        let ctx = BalanceContext::CommandSubstitution;
        lemma_parens_end(t, s, a, b, i + 2, x + 2, 1, false, ctx, i, x);
        super::laws::lemma_parens_end(t, i + 2, 1, false, ctx, i);
        if let Ok(j) = parens_end(t, i + 2, 1, false, ctx, i) {
            lemma_subrange(t, s, a, b, i + 2, j - 1);
        }
    } else {
        lemma_bare_parameter(t, s, a, b, i + 1, x + 1, false);
    }
}

proof fn lemma_single_quoted(t: Seq<char>, s: Seq<char>, a: int, b: int, i: int, x: int)
    requires
        lies_in(t, s, a, b, i, x),
        i < t.len(),
    ensures
        single_quoted(t, i) matches Ok((_, j)) ==> i < j <= t.len(),
        same_read(single_quoted(t, i), single_quoted(s, x), a),
{
    lemma_single_quote_end(t, s, a, b, i + 1, x + 1, i, x);
    if let Ok(j) = single_quote_end(t, i + 1, i) {
        lemma_subrange(t, s, a, b, i + 1, j - 1);
    }
}

proof fn lemma_backquoted(t: Seq<char>, s: Seq<char>, a: int, b: int, i: int, x: int)
    requires
        lies_in(t, s, a, b, i, x),
        i < t.len(),
    ensures
        backquoted(t, i) matches Ok((_, j)) ==> i < j <= t.len(),
        same_read(backquoted(t, i), backquoted(s, x), a),
{
    lemma_backquote_end(t, s, a, b, i + 1, x + 1, i, x);
    if let Ok(j) = backquote_end(t, i + 1, i) {
        lemma_subrange(t, s, a, b, i + 1, j - 1);
    }
}

proof fn lemma_quoted_content(
    t: Seq<char>,
    s: Seq<char>,
    a: int,
    b: int,
    i: int,
    x: int,
    lit: Seq<char>,
    segs: Seq<WordSegmentV>,
)
    requires
        lies_in(t, s, a, b, i, x),
        i <= t.len(),
        stops(s, b),
    ensures
        quoted_content(t, i, false, lit, segs) matches Ok((out, j)) ==> i <= j <= t.len() && (j
            < t.len() ==> quoted_content(s, x, false, lit, segs) == Ok::<
            (Seq<WordSegmentV>, int),
            LexError,
        >((out, a + j))),
    decreases left(t, i),
{
    if i < t.len() && t[i] != '"' {
        assert(t[i] == s[x]);
        if i + 1 < t.len() {
            assert(t[i + 1] == s[x + 1]);
        }
        if t[i] == '\\' {
            if double_quote_escapable(at(t, i + 1)) {
                lemma_quoted_content(t, s, a, b, i + 2, x + 2, lit.push(t[i + 1]), segs);
            } else if at(t, i + 1) == Some('\n') {
                lemma_quoted_content(t, s, a, b, i + 2, x + 2, lit, segs);
            } else if at(t, i + 1) is Some {
                let more = lit.push('\\').push(t[i + 1]);
                lemma_quoted_content(t, s, a, b, i + 2, x + 2, more, segs);
            }
        } else if t[i] == '$' {
            lemma_dollar(t, s, a, b, i, x);
            match dollar(t, i) {
                Ok((WordSegmentV::Literal(text), j)) => {
                    lemma_quoted_content(t, s, a, b, j, a + j, lit + text, segs);
                },
                Ok((seg, j)) => {
                    let more = flush(lit, segs).push(seg);
                    lemma_quoted_content(t, s, a, b, j, a + j, Seq::empty(), more);
                },
                Err(_) => {},
            }
        } else if t[i] == '`' {
            lemma_backquoted(t, s, a, b, i, x);
            if let Ok((seg, j)) = backquoted(t, i) {
                let more = flush(lit, segs).push(seg);
                lemma_quoted_content(t, s, a, b, j, a + j, Seq::empty(), more);
            }
        } else {
            lemma_quoted_content(t, s, a, b, i + 1, x + 1, lit.push(t[i]), segs);
        }
    } else if i < t.len() {
        assert(t[i] == s[x]);
    }
}

proof fn lemma_double_quoted(t: Seq<char>, s: Seq<char>, a: int, b: int, i: int, x: int)
    requires
        lies_in(t, s, a, b, i, x),
        i < t.len(),
        stops(s, b),
    ensures
        double_quoted(t, i) matches Ok((_, j)) ==> i < j <= t.len(),
        same_read(double_quoted(t, i), double_quoted(s, x), a),
{
    lemma_quoted_content(t, s, a, b, i + 1, x + 1, Seq::empty(), Seq::empty());
}

/// A line ends at `b`.
pub open spec fn line_stops(s: Seq<char>, b: int) -> bool {
    b < s.len() ==> s[b] == '\n'
}

proof fn lemma_word_content(
    t: Seq<char>,
    s: Seq<char>,
    a: int,
    b: int,
    i: int,
    x: int,
    lit: Seq<char>,
    segs: Seq<WordSegmentV>,
)
    requires
        lies_in(t, s, a, b, i, x),
        i <= t.len(),
        line_stops(s, b),
    ensures
        word_content(t, i, Boundary::Delimiter, lit, segs) matches Ok((_, j)) ==> i <= j <= t.len(),
        same_read(
            word_content(t, i, Boundary::Delimiter, lit, segs),
            word_content(s, x, Boundary::Delimiter, lit, segs),
            a,
        ),
    decreases left(t, i),
{
    if i < t.len() {
        assert(t[i] == s[x]);
        if i + 1 < t.len() {
            assert(t[i + 1] == s[x + 1]);
        }
        if ends_word(Boundary::Delimiter, t[i]) {
        } else if t[i] == '\'' || t[i] == '"' || t[i] == '`' {
            lemma_single_quoted(t, s, a, b, i, x);
            lemma_double_quoted(t, s, a, b, i, x);
            lemma_backquoted(t, s, a, b, i, x);
            let seg = if t[i] == '\'' {
                single_quoted(t, i)
            } else if t[i] == '"' {
                double_quoted(t, i)
            } else {
                backquoted(t, i)
            };
            if let Ok((seg, j)) = seg {
                let more = flush(lit, segs).push(seg);
                lemma_word_content(t, s, a, b, j, a + j, Seq::empty(), more);
            }
        } else if t[i] == '$' {
            lemma_dollar(t, s, a, b, i, x);
            match dollar(t, i) {
                Ok((WordSegmentV::Literal(text), j)) => {
                    lemma_word_content(t, s, a, b, j, a + j, lit + text, segs);
                },
                Ok((seg, j)) => {
                    let more = flush(lit, segs).push(seg);
                    lemma_word_content(t, s, a, b, j, a + j, Seq::empty(), more);
                },
                Err(_) => {},
            }
        } else if t[i] == '\\' {
            if let Some(c) = at(t, i + 1) {
                if c == '\n' {
                    lemma_word_content(t, s, a, b, i + 2, x + 2, lit, segs);
                } else {
                    lemma_word_content(t, s, a, b, i + 2, x + 2, lit.push(c), segs);
                }
            }
        } else {
            lemma_word_content(t, s, a, b, i + 1, x + 1, lit.push(t[i]), segs);
        }
    }
}

// ---- tokens -----------------------------------------------------------------------------

proof fn lemma_token(t: Seq<char>, s: Seq<char>, a: int, b: int, i: int, x: int)
    requires
        lies_in(t, s, a, b, i, x),
        i < t.len(),
        line_stops(s, b),
    ensures
        same_read(token_at(t, i), token_at(s, x), a),
{
    assert(t[i] == s[x]);
    if i + 1 < t.len() {
        assert(t[i + 1] == s[x + 1]);
    }
    if i + 2 < t.len() {
        assert(t[i + 2] == s[x + 2]);
    }
    lemma_runs(t, s, a, b, i, x);
    let j = digits_end(t, i);
    if j < t.len() {
        assert(t[j] == s[a + j]);
    }
    lemma_subrange(t, s, a, b, i, j);
    lemma_word_content(t, s, a, b, i, x, Seq::empty(), Seq::empty());
}

proof fn lemma_blanks(t: Seq<char>, s: Seq<char>, a: int, b: int, i: int, x: int)
    requires
        lies_in(t, s, a, b, i, x),
        i <= t.len(),
        line_stops(s, b),
    ensures
        blanks_end(s, x) == a + blanks_end(t, i),
        line_end(t, i) < t.len() ==> line_end(s, x) == a + line_end(t, i),
        line_end(t, i) >= t.len() ==> line_end(s, x) == b,
    decreases left(t, i),
{
    if i < t.len() {
        assert(t[i] == s[x]);
        lemma_blanks(t, s, a, b, i + 1, x + 1);
    }
}

/// A token as it stands in a text in which `from` bytes come before.
pub open spec fn later(t: TokenV, from: nat) -> TokenV {
    TokenV {
        kind: t.kind,
        span: Span {
            start: (t.span.start + from) as usize,
            end: (t.span.end + from) as usize,
        },
    }
}

/// Tokens as they stand in a text in which `from` bytes come before.
pub open spec fn all_later(tokens: Seq<TokenV>, from: nat) -> Seq<TokenV> {
    tokens.map_values(|t: TokenV| later(t, from))
}

/// The tokens of a text that ends with a line are read in the longer text, which is
/// then read on behind them.
proof fn lemma_tokens(
    t: Seq<char>,
    s: Seq<char>,
    a: int,
    b: int,
    i: int,
    x: int,
    read: Seq<TokenV>,
    acc: Seq<TokenV>,
)
    requires
        lies_in(t, s, a, b, i, x),
        i <= t.len(),
        line_stops(s, b),
        byte_len(s) <= usize::MAX,
        tokens_from(t, i, read) is Ok,
    ensures
        ({
            let all = tokens_from(t, i, read)->Ok_0;
            &&& read.len() <= all.len()
            &&& all.take(read.len() as int) == read
            &&& tokens_from(s, x, acc) == tokens_from(
                s,
                b,
                acc + all_later(all.skip(read.len() as int), offset_of(s, a)),
            )
        }),
    decreases left(t, i),
{
    let from = offset_of(s, a);
    let n = read.len() as int;
    let all = tokens_from(t, i, read)->Ok_0;
    lemma_blanks(t, s, a, b, i, x);
    lemma_blanks_end(t, i);
    lemma_blanks_end(s, x);
    let j = blanks_end(t, i);
    if j >= t.len() {
        assert(all.skip(n) =~= Seq::empty());
        assert(acc + all_later(all.skip(n), from) =~= acc);
        assert(all.take(n) =~= read);
        assert(blanks_end(s, b) == b);
    } else {
        assert(t[j] == s[a + j]);
        lemma_line_end(t, j + 1);
        lemma_line_end(s, a + j + 1);
        if t[j] == '#' {
            lemma_blanks(t, s, a, b, j + 1, a + j + 1);
            let e = line_end(t, j + 1);
            lemma_tokens(t, s, a, b, e, a + e, read, acc);
        } else {
            super::laws::lemma_token_at(t, j);
            lemma_token(t, s, a, b, j, a + j);
            let (kind, k) = token_at(t, j)->Ok_0;
            let one = TokenV { kind, span: Span { start: pos(t, j), end: pos(t, k) } };
            let other = TokenV { kind, span: Span { start: pos(s, a + j), end: pos(s, a + k) } };
            assert(other == later(one, from)) by {
                lemma_offset(s, a, b, a + j);
                lemma_offset(s, a, b, a + k);
                lemma_offset_monotonic(s, a + j, s.len() as int);
                lemma_offset_monotonic(s, a + k, s.len() as int);
            }
            lemma_tokens(t, s, a, b, k, a + k, read.push(one), acc.push(other));
            assert(all.take(n) =~= all.take(n + 1).take(n));
            assert(read.push(one).take(n) =~= read);
            assert(all[n] == all.take(n + 1)[n]);
            assert(acc.push(other) + all_later(all.skip(n + 1), from) =~= acc + all_later(
                all.skip(n),
                from,
            ));
        }
    }
}

// ---- laws -------------------------------------------------------------------------------

/// Lines are lexed apart: the tokens of two texts that are joined by a newline are
/// those of the first, the newline, and those of the second behind it.
pub proof fn law_lines_are_lexed_apart(a: Seq<char>, b: Seq<char>)
    requires
        tokens_from(a, 0, Seq::empty()) is Ok,
        tokens_from(b, 0, Seq::empty()) is Ok,
        byte_len(a) + 1 + byte_len(b) <= usize::MAX,
    ensures
        tokens_from(a + seq!['\n'] + b, 0, Seq::empty()) == Ok::<Seq<TokenV>, LexError>(
            tokens_from(a, 0, Seq::empty())->Ok_0.push(
                TokenV {
                    kind: TokenKindV::Newline,
                    span: Span {
                        start: byte_len(a) as usize,
                        end: (byte_len(a) + 1) as usize,
                    },
                },
            ) + all_later(tokens_from(b, 0, Seq::empty())->Ok_0, byte_len(a) + 1),
        ),
{
    let s = a + seq!['\n'] + b;
    let none = Seq::<TokenV>::empty();
    let n = a.len() as int;
    let end = s.len() as int;
    assert(part(s, 0, n) =~= a);
    assert(part(s, n + 1, end) =~= b);
    assert(s[n] == '\n');
    lemma_offset(s, 0, n, n);
    assert(offset_of(s, n) == byte_len(a));
    assert(offset_of(s, n + 1) == byte_len(a) + 1);
    lemma_offset(s, n + 1, end, end);
    assert(byte_len(s) == byte_len(a) + 1 + byte_len(b));
    let first = tokens_from(a, 0, none)->Ok_0;
    let second = tokens_from(b, 0, none)->Ok_0;
    lemma_tokens(a, s, 0, n, 0, 0, none, none);
    assert(first.skip(0) =~= first);
    assert(none + all_later(first, 0) =~= first) by {
        assert forall|k: int| 0 <= k < first.len() implies later(#[trigger] first[k], 0)
            == first[k] by {
        }
    }
    let newline = TokenV {
        kind: TokenKindV::Newline,
        span: Span { start: pos(s, n), end: pos(s, n + 1) },
    };
    assert(blanks_end(s, n) == n);
    assert(tokens_from(s, n, first) == tokens_from(s, n + 1, first.push(newline)));
    lemma_tokens(b, s, n + 1, end, 0, n + 1, none, first.push(newline));
    assert(second.skip(0) =~= second);
    let all = first.push(newline) + all_later(second, byte_len(a) + 1);
    assert(blanks_end(s, end) == end);
    assert(tokens_from(s, end, all) == Ok::<Seq<TokenV>, LexError>(all));
}

proof fn lemma_body_in_quotes(
    t: Seq<char>,
    s: Seq<char>,
    a: int,
    b: int,
    i: int,
    x: int,
    lit: Seq<char>,
    segs: Seq<WordSegmentV>,
)
    requires
        lies_in(t, s, a, b, i, x),
        i <= t.len(),
        b < s.len(),
        s[b] == '"',
    ensures
        quoted_content(t, i, true, lit, segs) matches Ok((out, _)) ==> {
            &&& segs.len() <= out.len()
            &&& out.take(segs.len() as int) == segs
            &&& (forall|k: int|
                0 <= k < out.len() ==> !((#[trigger] out[k]) is DoubleQuoted)) ==> quoted_content(
                s,
                x,
                false,
                lit,
                segs,
            ) == Ok::<(Seq<WordSegmentV>, int), LexError>((out, b))
        },
    decreases left(t, i), 1nat,
{
    let n = segs.len() as int;
    if i >= t.len() {
        assert(flush(lit, segs).take(n) =~= segs);
    } else {
        assert(t[i] == s[x]);
        if i + 1 < t.len() {
            assert(t[i + 1] == s[x + 1]);
        }
        if t[i] == '\\' {
            if double_quote_escapable(at(t, i + 1)) {
                lemma_body_in_quotes(t, s, a, b, i + 2, x + 2, lit.push(t[i + 1]), segs);
            } else if at(t, i + 1) == Some('\n') {
                lemma_body_in_quotes(t, s, a, b, i + 2, x + 2, lit, segs);
            } else if at(t, i + 1) is Some {
                let more = lit.push('\\').push(t[i + 1]);
                lemma_body_in_quotes(t, s, a, b, i + 2, x + 2, more, segs);
            }
        } else if t[i] == '"' {
            lemma_double_quoted(t, s, a, b, i, x);
            if let Ok((seg, j)) = double_quoted(t, i) {
                lemma_after_segment(t, s, a, b, i, lit, segs, seg, j);
                assert(seg is DoubleQuoted);
            }
        } else if t[i] == '$' {
            lemma_dollar(t, s, a, b, i, x);
            match dollar(t, i) {
                Ok((WordSegmentV::Literal(text), j)) => {
                    lemma_body_in_quotes(t, s, a, b, j, a + j, lit + text, segs);
                },
                Ok((seg, j)) => {
                    lemma_after_segment(t, s, a, b, i, lit, segs, seg, j);
                },
                Err(_) => {},
            }
        } else if t[i] == '`' {
            lemma_backquoted(t, s, a, b, i, x);
            if let Ok((seg, j)) = backquoted(t, i) {
                lemma_after_segment(t, s, a, b, i, lit, segs, seg, j);
            }
        } else {
            lemma_body_in_quotes(t, s, a, b, i + 1, x + 1, lit.push(t[i]), segs);
        }
    }
}

proof fn lemma_after_segment(
    t: Seq<char>,
    s: Seq<char>,
    a: int,
    b: int,
    i: int,
    lit: Seq<char>,
    segs: Seq<WordSegmentV>,
    seg: WordSegmentV,
    j: int,
)
    requires
        lies_in(t, s, a, b, i, a + i),
        i < j <= t.len(),
        b < s.len(),
        s[b] == '"',
    ensures
        ({
            let more = flush(lit, segs).push(seg);
            quoted_content(t, j, true, Seq::empty(), more) matches Ok((out, _)) ==> {
                &&& segs.len() <= out.len()
                &&& out.take(segs.len() as int) == segs
                &&& out.len() > flush(lit, segs).len()
                &&& out[flush(lit, segs).len() as int] == seg
                &&& (forall|k: int|
                    0 <= k < out.len() ==> !((#[trigger] out[k]) is DoubleQuoted))
                    ==> quoted_content(s, a + j, false, Seq::empty(), more) == Ok::<
                    (Seq<WordSegmentV>, int),
                    LexError,
                >((out, b))
            }
        }),
    decreases left(t, i), 0nat,
{
    let flushed = flush(lit, segs);
    let more = flushed.push(seg);
    lemma_body_in_quotes(t, s, a, b, j, a + j, Seq::empty(), more);
    if let Ok((out, _)) = quoted_content(t, j, true, Seq::empty(), more) {
        let n = segs.len() as int;
        assert(out.take(n) =~= out.take(more.len() as int).take(n));
        assert(more.take(n) =~= segs);
        assert(out[flushed.len() as int] == out.take(more.len() as int)[flushed.len() as int]);
    }
}

/// A body that is read as double-quoted, and holds no quoted part, is read the same
/// between double quotes.
pub proof fn law_bodies_read_the_same_in_quotes(t: Seq<char>)
    requires
        quoted_content(t, 0, true, Seq::empty(), Seq::empty()) matches Ok((segs, _)) && forall|
            k: int,
        |
            0 <= k < segs.len() ==> !((#[trigger] segs[k]) is DoubleQuoted),
    ensures
        ({
            let s = seq!['"'] + t + seq!['"'];
            let segs = quoted_content(t, 0, true, Seq::empty(), Seq::empty())->Ok_0.0;
            tokens_from(s, 0, Seq::empty()) == Ok::<Seq<TokenV>, LexError>(
                seq![
                    TokenV {
                        kind: TokenKindV::Word(seq![WordSegmentV::DoubleQuoted(segs)]),
                        span: Span { start: 0, end: byte_len(s) as usize },
                    },
                ],
            )
        }),
{
    let s = seq!['"'] + t + seq!['"'];
    let b = t.len() as int + 1;
    let n = s.len() as int;
    let segs = quoted_content(t, 0, true, Seq::empty(), Seq::empty())->Ok_0.0;
    let seg = WordSegmentV::DoubleQuoted(segs);
    assert(part(s, 1, b) =~= t);
    assert(s[b] == '"' && s[0] == '"');
    lemma_body_in_quotes(t, s, 1, b, 0, 1, Seq::empty(), Seq::empty());
    assert(double_quoted(s, 0) == Ok::<(WordSegmentV, int), LexError>((seg, n)));
    assert(digits_end(s, 0) == 0);
    assert(Seq::<WordSegmentV>::empty().push(seg) =~= seq![seg]);
    assert(word_content(s, n, Boundary::Delimiter, Seq::empty(), seq![seg]) == Ok::<
        (Seq<WordSegmentV>, int),
        LexError,
    >((seq![seg], n)));
    assert(token_at(s, 0) == Ok::<(TokenKindV, int), LexError>(
        (TokenKindV::Word(seq![seg]), n),
    ));
    assert(blanks_end(s, 0) == 0);
    assert(blanks_end(s, n) == n);
    let token = TokenV {
        kind: TokenKindV::Word(seq![seg]),
        span: Span { start: pos(s, 0), end: pos(s, n) },
    };
    assert(Seq::<TokenV>::empty().push(token) =~= seq![token]);
    assert(tokens_from(s, n, seq![token]) == Ok::<Seq<TokenV>, LexError>(seq![token]));
}

} // verus!
