//! What holds of every arithmetic body and expression.

use vstd::prelude::*;

use super::inner::{holds_toks, lemma_comma, lemma_tokens, lemma_tokens_start, stands_in};
use super::rules::{
    assignment, base_value, binary, binary_rest, body, comma, comma_rest, conditional, expression,
    first_bad_digit, hash_index, lemma_runs_end, literal, number_end, postfix, power, primary,
    punct_at, spaces_end, tok_at, token_at, tokens, two64, unary, whole, wrap64, ArithErrorV,
    ArithExprV, PlacedTokV, TokV, Tokens,
};
use super::{ArithUnaryOp, Punct};
use crate::lexer::laws::{
    all_unquoted, lemma_backquoted_weight, lemma_dollar_unquoted, lemma_flush, lemma_push_segment,
    literals_merged, open_ended,
};
use crate::lexer::rules::{at, backquoted, digits_end, dollar, flush, left, past, pos};
use crate::numbers::{all_digits, decimal, digits, law_digits_read_back, nat_of};
use crate::text::{is_digit, is_whitespace};
use crate::token::WordSegmentV;

verus! {

// ---- bodies -------------------------------------------------------------------------------------

proof fn lemma_body_is_unquoted(s: Seq<char>, i: int, lit: Seq<char>, segs: Seq<WordSegmentV>)
    requires
        0 <= i <= s.len(),
        all_unquoted(segs),
        literals_merged(segs),
        open_ended(segs),
    ensures
        body(s, i, lit, segs) matches Ok(out) ==> all_unquoted(out) && literals_merged(out),
    decreases left(s, i),
{
    let flushed = flush(lit, segs);
    lemma_flush(lit, segs);
    if i < s.len() {
        let tail = s.subrange(i, s.len() as int);
        if s[i] == '\\' {
            if let Some(c) = at(s, i + 1) {
                lemma_body_is_unquoted(s, i + 2, lit.push(c), segs);
                lemma_body_is_unquoted(s, i + 2, lit, segs);
                lemma_body_is_unquoted(s, i + 2, lit.push('\\').push(c), segs);
            }
        } else if s[i] == '"' {
            lemma_body_is_unquoted(s, i + 1, lit, segs);
        } else if s[i] == '$' {
            lemma_dollar_unquoted(tail, 0);
            match dollar(tail, 0) {
                Ok((WordSegmentV::Literal(t), j)) => {
                    lemma_body_is_unquoted(s, i + j, lit + t, segs);
                },
                Ok((seg, j)) => {
                    lemma_push_segment(flushed, seg);
                    lemma_body_is_unquoted(s, i + j, Seq::empty(), flushed.push(seg));
                },
                Err(_) => {},
            }
        } else if s[i] == '`' {
            lemma_backquoted_weight(tail, 0);
            if let Ok((seg, j)) = backquoted(tail, 0) {
                lemma_push_segment(flushed, seg);
                lemma_body_is_unquoted(s, i + j, Seq::empty(), flushed.push(seg));
            }
        } else {
            lemma_body_is_unquoted(s, i + 1, lit.push(s[i]), segs);
        }
    }
}

/// Nothing in an arithmetic body is quoted: it is read as if all of it stood in
/// double quotes. No literal in it is empty, and no two literals stand side by side.
pub proof fn law_bodies_hold_no_quotes(s: Seq<char>)
    ensures
        body(s, 0, Seq::empty(), Seq::empty()) matches Ok(w) ==> all_unquoted(w)
            && literals_merged(w),
{
    lemma_body_is_unquoted(s, 0, Seq::empty(), Seq::empty());
}

// ---- numbers ------------------------------------------------------------------------------------

proof fn lemma_digits_end_at(s: Seq<char>, i: int)
    requires
        0 <= i <= s.len(),
        forall|k: int| i <= k < s.len() ==> is_digit(#[trigger] s[k]),
    ensures
        digits_end(s, i) == s.len(),
    decreases s.len() - i,
{
    if i < s.len() {
        lemma_digits_end_at(s, i + 1);
    }
}

proof fn lemma_no_bad_digit(s: Seq<char>, i: int)
    requires
        0 <= i <= s.len(),
        all_digits(s),
    ensures
        first_bad_digit(s, 10, i) is None,
        hash_index(s, i) == s.len(),
    decreases s.len() - i,
{
    if i < s.len() {
        assert(is_digit(s[i]));
        lemma_no_bad_digit(s, i + 1);
    }
}

proof fn lemma_base_value(s: Seq<char>)
    requires
        all_digits(s),
    ensures
        base_value(s, 10) == nat_of(s),
    decreases s.len(),
{
    if s.len() > 0 {
        assert(is_digit(s[s.len() - 1]));
        assert(all_digits(s.drop_last()));
        lemma_base_value(s.drop_last());
    }
}

proof fn lemma_no_leading_zero(n: nat)
    requires
        n > 0,
    ensures
        digits(n)[0] != '0',
    decreases n,
{
    if n >= 10 {
        lemma_no_leading_zero(n / 10);
        law_digits_read_back(n / 10);
        assert(digits(n)[0] == digits(n / 10)[0]);
    }
}

proof fn lemma_literal(n: nat, place: usize)
    ensures
        literal(digits(n), place) == Ok::<nat, ArithErrorV>(n),
{
    let s = digits(n);
    law_digits_read_back(n);
    lemma_no_bad_digit(s, 0);
    lemma_base_value(s);
    assert(is_digit(s[0]));
    if s.len() > 1 {
        lemma_no_leading_zero(n);
    }
}

/// The token that the digits of `n` at the end of `s` are.
proof fn lemma_number_token(s: Seq<char>, i: int, n: nat)
    requires
        0 <= i <= s.len(),
        s.subrange(i, s.len() as int) == digits(n),
    ensures
        i < s.len(),
        token_at(s, i) == Ok::<(TokV, int), ArithErrorV>(
            (TokV::Number(wrap64(n as int)), s.len() as int),
        ),
        !is_whitespace(s[i]),
{
    let t = digits(n);
    law_digits_read_back(n);
    assert forall|k: int| i <= k < s.len() implies is_digit(#[trigger] s[k]) by {
        assert(s[k] == t[k - i]);
    }
    lemma_digits_end_at(s, i);
    assert(number_end(s, i) == s.len());
    lemma_literal(n, pos(s, i));
}

proof fn lemma_tokens_of_digits(s: Seq<char>, i: int, n: nat, acc: Seq<PlacedTokV>)
    requires
        0 <= i <= s.len(),
        s.subrange(i, s.len() as int) == digits(n),
    ensures
        tokens(s, i, acc) == Ok::<Seq<PlacedTokV>, ArithErrorV>(
            acc.push(PlacedTokV { tok: TokV::Number(wrap64(n as int)), pos: pos(s, i) }),
        ),
{
    lemma_number_token(s, i, n);
    let more = acc.push(PlacedTokV { tok: TokV::Number(wrap64(n as int)), pos: pos(s, i) });
    assert(spaces_end(s, i) == i);
    assert(spaces_end(s, s.len() as int) == s.len());
    assert(tokens(s, s.len() as int, more) == Ok::<Seq<PlacedTokV>, ArithErrorV>(
        more,
    ));
}

// ---- single operands --------------------------------------------------------------------------------

proof fn lemma_binary_alone(p: Tokens, i: int, level: nat, e: ArithExprV)
    requires
        0 <= i < p.toks.len(),
        unary(p, i) == Ok::<(ArithExprV, int), ArithErrorV>(
            (e, p.toks.len() as int),
        ),
    ensures
        binary(p, i, level) == Ok::<(ArithExprV, int), ArithErrorV>(
            (e, p.toks.len() as int),
        ),
    decreases level,
{
    if level == 0 {
        assert(power(p, i) == unary(p, i));
    } else {
        lemma_binary_alone(p, i, (level - 1) as nat, e);
        assert(binary_rest(p, p.toks.len() as int, level, e) == unary(p, i));
        assert(binary(p, i, level) == binary_rest(p, p.toks.len() as int, level, e));
    }
}

/// Tokens that are one unary expression are that expression.
proof fn lemma_whole_alone(p: Tokens, e: ArithExprV)
    requires
        0 < p.toks.len(),
        unary(p, 0) == Ok::<(ArithExprV, int), ArithErrorV>(
            (e, p.toks.len() as int),
        ),
    ensures
        whole(p) == Ok::<ArithExprV, ArithErrorV>(e),
{
    lemma_binary_alone(p, 0, 10, e);
    assert(conditional(p, 0) == unary(p, 0));
    assert(assignment(p, 0) == unary(p, 0));
    assert(comma(p, 0) == unary(p, 0));
}

/// The expression that a decimal number writes: a literal, negated where the
/// number is negative.
pub open spec fn number_expr(n: i64) -> ArithExprV {
    if n < 0 {
        ArithExprV::Unary {
            op: ArithUnaryOp::Minus,
            operand: Box::new(ArithExprV::Number(wrap64(-n))),
        }
    } else {
        ArithExprV::Number(n)
    }
}

/// A number written in decimal is an expression: that number, or the negation
/// of its opposite.
pub proof fn law_decimal_numbers_are_expressions(n: i64)
    ensures
        expression(decimal(n as int)) == Ok::<ArithExprV, ArithErrorV>(
            number_expr(n),
        ),
{
    let s = decimal(n as int);
    let none = Seq::<PlacedTokV>::empty();
    let source_len = pos(s, s.len() as int);
    if n >= 0 {
        assert(s.subrange(0, s.len() as int) =~= digits(n as nat));
        lemma_tokens_of_digits(s, 0, n as nat, none);
        let tok = PlacedTokV { tok: TokV::Number(wrap64(n as int)), pos: pos(s, 0) };
        let p = Tokens { toks: none.push(tok), source_len };
        assert(wrap64(n as int) == n);
        assert(primary(p, 0) == Ok::<(ArithExprV, int), ArithErrorV>(
            (ArithExprV::Number(n), 1),
        ));
        assert(postfix(p, 0) == primary(p, 0));
        assert(unary(p, 0) == postfix(p, 0));
        lemma_whole_alone(p, ArithExprV::Number(n));
    } else {
        let m = (-n) as nat;
        assert(s.subrange(1, s.len() as int) =~= digits(m));
        law_digits_read_back(m);
        assert(is_digit(digits(m)[0]));
        assert(s[1] == digits(m)[0]);
        let minus = PlacedTokV { tok: TokV::Punct(Punct::Minus), pos: pos(s, 0) };
        assert(spaces_end(s, 0) == 0);
        assert(token_at(s, 0) == Ok::<(TokV, int), ArithErrorV>(
            (TokV::Punct(Punct::Minus), 1),
        ));
        lemma_tokens_of_digits(s, 1, m, none.push(minus));
        let number = PlacedTokV { tok: TokV::Number(wrap64(m as int)), pos: pos(s, 1) };
        let p = Tokens { toks: none.push(minus).push(number), source_len };
        let inner = ArithExprV::Number(wrap64(m as int));
        assert(primary(p, 1) == Ok::<(ArithExprV, int), ArithErrorV>((inner, 2)));
        assert(postfix(p, 1) == primary(p, 1));
        assert(unary(p, 1) == postfix(p, 1));
        let e = ArithExprV::Unary { op: ArithUnaryOp::Minus, operand: Box::new(inner) };
        assert(unary(p, 0) == Ok::<(ArithExprV, int), ArithErrorV>((e, 2)));
        lemma_whole_alone(p, e);
    }
}

proof fn lemma_spaces_end_at(s: Seq<char>, i: int)
    requires
        0 <= i <= s.len(),
        forall|k: int| 0 <= k < s.len() ==> is_whitespace(#[trigger] s[k]),
    ensures
        spaces_end(s, i) == s.len(),
    decreases s.len() - i,
{
    if i < s.len() {
        lemma_spaces_end_at(s, i + 1);
    }
}

/// A blank text is the expression 0.
pub proof fn law_blank_text_is_zero(s: Seq<char>)
    requires
        forall|k: int| 0 <= k < s.len() ==> is_whitespace(#[trigger] s[k]),
    ensures
        expression(s) == Ok::<ArithExprV, ArithErrorV>(ArithExprV::Number(0)),
{
    lemma_spaces_end_at(s, 0);
}

/// Cutting a number to 64 bits keeps what fits, and changes any number by a
/// multiple of two to the power of sixty-four.
pub proof fn law_wrapping_is_modular(n: int)
    ensures
        wrap64(n) as int % two64() == n % two64(),
        i64::MIN <= n <= i64::MAX ==> wrap64(n) == n,
{
}

proof fn lemma_lone_primary(p: Tokens, e: ArithExprV, level: nat)
    requires
        punct_at(p, 0) == Some(Punct::LParen),
        p.toks.len() > 0,
        primary(p, 0) == Ok::<(ArithExprV, int), ArithErrorV>((e, p.toks.len() as int)),
    ensures
        binary(p, 0, level) == Ok::<(ArithExprV, int), ArithErrorV>((e, p.toks.len() as int)),
    decreases level,
{
    let n = p.toks.len() as int;
    assert(punct_at(p, n) is None);
    assert(postfix(p, 0) == Ok::<(ArithExprV, int), ArithErrorV>((e, n)));
    assert(unary(p, 0) == postfix(p, 0));
    if level == 0 {
        assert(power(p, 0) == Ok::<(ArithExprV, int), ArithErrorV>((e, n)));
    } else {
        lemma_lone_primary(p, e, (level - 1) as nat);
        assert(binary_rest(p, n, level, e) == Ok::<(ArithExprV, int), ArithErrorV>((e, n)));
    }
}

proof fn lemma_no_tokens(s: Seq<char>, i: int)
    requires
        0 <= i <= s.len(),
        tokens(s, i, Seq::empty()) == Ok::<Seq<PlacedTokV>, ArithErrorV>(Seq::empty()),
    ensures
        forall|k: int| i <= k < s.len() ==> is_whitespace(#[trigger] s[k]),
{
    lemma_runs_end(s, i);
    let j = spaces_end(s, i);
    if j < s.len() {
        let (tok, k) = token_at(s, j)->Ok_0;
        lemma_tokens_start(s, past(j, k), seq![PlacedTokV { tok, pos: pos(s, j) }]);
        assert(Seq::<PlacedTokV>::empty().push(PlacedTokV { tok, pos: pos(s, j) })
            =~= seq![PlacedTokV { tok, pos: pos(s, j) }]);
    }
    lemma_spaces_are_blank(s, i);
}

proof fn lemma_spaces_are_blank(s: Seq<char>, i: int)
    requires
        0 <= i,
    ensures
        forall|k: int| i <= k < spaces_end(s, i) ==> is_whitespace(#[trigger] s[k]),
    decreases left(s, i),
{
    if i < s.len() && is_whitespace(s[i]) {
        lemma_spaces_are_blank(s, i + 1);
    }
}

/// The tokens of a text in parentheses.
proof fn lemma_parenthesized_tokens(s: Seq<char>) -> (all: Seq<PlacedTokV>)
    requires
        tokens(s, 0, Seq::empty()) is Ok,
    ensures
        tokens(seq!['('] + s + seq![')'], 0, Seq::empty()) == Ok::<Seq<PlacedTokV>, ArithErrorV>(
            all,
        ),
        ({
            let toks = tokens(s, 0, Seq::empty())->Ok_0;
            &&& all.len() == toks.len() + 2
            &&& all[0].tok == TokV::Punct(Punct::LParen)
            &&& all[toks.len() as int + 1].tok == TokV::Punct(Punct::RParen)
            &&& forall|k: int|
                0 <= k < toks.len() ==> (#[trigger] toks[k]).tok == all[1 + k].tok
        }),
{
    let w = seq!['('] + s + seq![')'];
    let b = s.len() as int + 1;
    let none = Seq::<PlacedTokV>::empty();
    assert(w.subrange(1, b) =~= s);
    assert(w[0] == '(' && w[b] == ')');
    let toks = tokens(s, 0, none)->Ok_0;
    assert(spaces_end(w, 0) == 0);
    assert(spaces_end(w, b) == b);
    let open = PlacedTokV { tok: TokV::Punct(Punct::LParen), pos: pos(w, 0) };
    let close = PlacedTokV { tok: TokV::Punct(Punct::RParen), pos: pos(w, b) };
    let placed = lemma_tokens(w, 1, b, 1, none.push(open), none);
    assert(toks.skip(0) =~= toks);
    let all = (none.push(open) + placed).push(close);
    assert(token_at(w, 0) == Ok::<(TokV, int), ArithErrorV>((TokV::Punct(Punct::LParen), 1)));
    assert(tokens(w, 0, none) == tokens(w, 1, none.push(open)));
    assert(token_at(w, b) == Ok::<(TokV, int), ArithErrorV>((TokV::Punct(Punct::RParen), b + 1)));
    assert(spaces_end(w, b + 1) == b + 1);
    assert(tokens(w, b + 1, all) == Ok::<Seq<PlacedTokV>, ArithErrorV>(all));
    assert forall|k: int| 0 <= k < toks.len() implies (#[trigger] toks[k]).tok == all[1 + k].tok by {
        assert(all[1 + k] == placed[k]);
        assert(placed[k].tok == toks.skip(0)[k].tok);
    }
    all
}

/// A primary that is all there is is the whole expression.
#[verifier::spinoff_prover]
proof fn lemma_only_primary(q: Tokens, e: ArithExprV)
    requires
        punct_at(q, 0) == Some(Punct::LParen),
        q.toks.len() > 0,
        primary(q, 0) == Ok::<(ArithExprV, int), ArithErrorV>((e, q.toks.len() as int)),
    ensures
        comma(q, 0) == Ok::<(ArithExprV, int), ArithErrorV>((e, q.toks.len() as int)),
{
    let n = q.toks.len() as int;
    let done = Ok::<(ArithExprV, int), ArithErrorV>((e, n));
    assert(punct_at(q, n) is None);
    assert(conditional(q, 0) == done) by {
        lemma_lone_primary(q, e, 10);
    }
    assert(assignment(q, 0) == done);
    assert(comma_rest(q, n, e) == done);
}

/// An expression in parentheses is a primary.
#[verifier::spinoff_prover]
proof fn lemma_parenthesized(q: Tokens, e: ArithExprV, n: int)
    requires
        punct_at(q, 0) == Some(Punct::LParen),
        punct_at(q, n) == Some(Punct::RParen),
        comma(q, 1) == Ok::<(ArithExprV, int), ArithErrorV>((e, n)),
    ensures
        primary(q, 0) == Ok::<(ArithExprV, int), ArithErrorV>((e, n + 1)),
{
    assert(tok_at(q, 0) == Some(TokV::Punct(Punct::LParen)));
}

/// Parentheses around an expression leave no trace in its tree.
pub proof fn law_parentheses_leave_no_trace(s: Seq<char>)
    requires
        expression(s) is Ok,
        exists|k: int| 0 <= k < s.len() && !is_whitespace(#[trigger] s[k]),
    ensures
        expression(seq!['('] + s + seq![')']) == expression(s),
{
    let w = seq!['('] + s + seq![')'];
    let toks = tokens(s, 0, Seq::empty())->Ok_0;
    if toks.len() == 0 {
        assert(toks =~= Seq::empty());
        lemma_no_tokens(s, 0);
    }
    let all = lemma_parenthesized_tokens(s);
    let p = Tokens { toks, source_len: pos(s, s.len() as int) };
    let q = Tokens { toks: all, source_len: pos(w, w.len() as int) };
    assert(stands_in(p, q, 1)) by {
        reveal(holds_toks);
    }
    lemma_comma(p, q, 1, 0, 1);
    let (e, j) = comma(p, 0)->Ok_0;
    lemma_parenthesized(q, e, j + 1);
    lemma_only_primary(q, e);
}

proof fn lemma_blanks_only(s: Seq<char>, i: int, b: int)
    requires
        0 <= i <= b <= s.len(),
        forall|k: int| i <= k < b ==> is_whitespace(#[trigger] s[k]),
    ensures
        spaces_end(s, i) == spaces_end(s, b),
    decreases b - i,
{
    if i < b {
        lemma_blanks_only(s, i + 1, b);
    }
}

/// White space around an expression leaves no trace in its tree.
pub proof fn law_outer_blanks_leave_no_trace(before: Seq<char>, s: Seq<char>, after: Seq<char>)
    requires
        expression(s) is Ok,
        forall|k: int| 0 <= k < before.len() ==> is_whitespace(#[trigger] before[k]),
        forall|k: int| 0 <= k < after.len() ==> is_whitespace(#[trigger] after[k]),
    ensures
        expression(before + s + after) == expression(s),
{
    let w = before + s + after;
    let a = before.len() as int;
    let b = a + s.len();
    let end = w.len() as int;
    let none = Seq::<PlacedTokV>::empty();
    assert(w.subrange(a, b) =~= s);
    assert forall|k: int| 0 <= k < a implies is_whitespace(#[trigger] w[k]) by {
        assert(w[k] == before[k]);
    }
    assert forall|k: int| b <= k < end implies is_whitespace(#[trigger] w[k]) by {
        assert(w[k] == after[k - b]);
    }
    lemma_blanks_only(w, 0, a);
    lemma_blanks_only(w, b, end);
    let toks = tokens(s, 0, none)->Ok_0;
    lemma_runs_end(w, 0);
    lemma_runs_end(w, a);
    assert(tokens(w, 0, none) == tokens(w, a, none));
    let placed = lemma_tokens(w, a, b, a, none, none);
    assert(toks.skip(0) =~= toks);
    assert(none + placed =~= placed);
    lemma_runs_end(w, b);
    assert(tokens(w, b, placed) == Ok::<Seq<PlacedTokV>, ArithErrorV>(placed));
    let p = Tokens { toks, source_len: pos(s, s.len() as int) };
    let q = Tokens { toks: placed, source_len: pos(w, end) };
    assert(stands_in(p, q, 0)) by {
        reveal(holds_toks);
        assert forall|k: int| 0 <= k < p.toks.len() implies (#[trigger] p.toks[k]).tok == q.toks[0
            + k].tok by {
            assert(placed[k].tok == toks.skip(0)[k].tok);
        }
    }
    if toks.len() > 0 {
        lemma_comma(p, q, 0, 0, 0);
    }
}

} // verus!
