//! Arithmetic inside of other text.
//!
//! What the rules read and parse in a text, they read and parse in the middle of a
//! longer one, up to a `)`, white space or its end. The text begins at index `a`
//! of the longer one, `s`, and ends at `b`.

use vstd::prelude::*;

use super::rules::{
    ahead, assignment, base_digits_end, binary, binary_expr, binary_op_at, binary_rest, comma,
    comma_rest, conditional, hex_digits_end, lemma_runs_end, number_end, postfix, power, primary,
    punct, punct_at, spaces_end, tok_at, token_at, tokens, unary, unexpected, ArithErrorV,
    ArithExprV, Parsed, PlacedTokV, Tokens,
};
use super::Punct;
use crate::lexer::rules::{at, digits_end, left, name_end, past, pos};
use crate::text::{is_digit, is_whitespace};

verus! {

// ---- tokens -----------------------------------------------------------------------------

/// The text from `a` to `b` can be read alone: no token goes on at `b`.
pub open spec fn stands_apart(s: Seq<char>, a: int, b: int) -> bool {
    &&& 0 <= a <= b <= s.len()
    &&& b < s.len() ==> s[b] == ')' || is_whitespace(s[b])
}

proof fn lemma_runs(s: Seq<char>, a: int, b: int, x: int)
    requires
        stands_apart(s, a, b),
        a <= x <= b,
    ensures
        digits_end(s, x) == a + digits_end(s.subrange(a, b), x - a),
        name_end(s, x) == a + name_end(s.subrange(a, b), x - a),
        base_digits_end(s, x) == a + base_digits_end(s.subrange(a, b), x - a),
        hex_digits_end(s, x) == a + hex_digits_end(s.subrange(a, b), x - a),
        x <= digits_end(s, x) <= b,
        x <= name_end(s, x) <= b,
        x <= base_digits_end(s, x) <= b,
        x <= hex_digits_end(s, x) <= b,
    decreases b - x,
{
    if x < b {
        assert(s.subrange(a, b)[x - a] == s[x]);
        lemma_runs(s, a, b, x + 1);
    }
}

proof fn lemma_spaces(s: Seq<char>, a: int, b: int, x: int)
    requires
        stands_apart(s, a, b),
        a <= x <= b,
    ensures
        ({
            let j = spaces_end(s.subrange(a, b), x - a);
            &&& x <= a + j <= b
            &&& a + j < b ==> spaces_end(s, x) == a + j
            &&& a + j == b ==> spaces_end(s, x) == spaces_end(s, b)
        }),
    decreases b - x,
{
    if x < b {
        assert(s.subrange(a, b)[x - a] == s[x]);
        lemma_spaces(s, a, b, x + 1);
    }
}

proof fn lemma_number(s: Seq<char>, a: int, b: int, x: int)
    requires
        stands_apart(s, a, b),
        a <= x < b,
        is_digit(s[x]),
    ensures
        number_end(s, x) == a + number_end(s.subrange(a, b), x - a),
        x < number_end(s, x) <= b,
{
    let t = s.subrange(a, b);
    lemma_runs(s, a, b, x);
    lemma_runs(s, a, b, x + 1);
    let j = digits_end(s, x);
    assert(j > x);
    if j < b {
        assert(t[j - a] == s[j]);
        lemma_runs(s, a, b, j + 1);
    }
    assert(t[x - a] == s[x]);
}

proof fn lemma_punct(s: Seq<char>, a: int, b: int, x: int)
    requires
        stands_apart(s, a, b),
        a <= x < b,
    ensures
        match punct(s.subrange(a, b), x - a) {
            Some((q, j)) => punct(s, x) == Some((q, a + j)) && x < a + j <= b,
            None => punct(s, x) is None,
        },
{
    let t = s.subrange(a, b);
    assert(t[x - a] == s[x]);
    if x + 1 < b {
        assert(at(t, x + 1 - a) == at(s, x + 1));
    }
    if x + 2 < b {
        assert(at(t, x + 2 - a) == at(s, x + 2));
    }
}

proof fn lemma_token(s: Seq<char>, a: int, b: int, x: int)
    requires
        stands_apart(s, a, b),
        a <= x < b,
    ensures
        token_at(s.subrange(a, b), x - a) matches Ok((tok, j)) ==> x < a + j <= b && token_at(s, x)
            == Ok::<_, ArithErrorV>((tok, a + j)),
{
    let t = s.subrange(a, b);
    assert(t[x - a] == s[x]);
    lemma_runs(s, a, b, x);
    lemma_runs(s, a, b, x + 1);
    lemma_punct(s, a, b, x);
    if is_digit(s[x]) {
        lemma_number(s, a, b, x);
        let e = number_end(s, x);
        assert(t.subrange(x - a, e - a) =~= s.subrange(x, e));
    } else {
        let e = name_end(s, x);
        assert(t.subrange(x - a, e - a) =~= s.subrange(x, e));
    }
}

/// The same tokens, wherever they stand.
pub open spec fn same_toks(s: Seq<PlacedTokV>, t: Seq<PlacedTokV>) -> bool {
    s.len() == t.len() && forall|k: int| 0 <= k < s.len() ==> (#[trigger] s[k]).tok == t[k].tok
}

/// The tokens of a text that stands apart are those of the longer text there.
/// Gives them as they are placed in the longer one.
pub proof fn lemma_tokens(
    s: Seq<char>,
    a: int,
    b: int,
    x: int,
    acc: Seq<PlacedTokV>,
    read: Seq<PlacedTokV>,
) -> (placed: Seq<PlacedTokV>)
    requires
        stands_apart(s, a, b),
        a <= x <= b,
        tokens(s.subrange(a, b), x - a, read) is Ok,
    ensures
        read.len() <= tokens(s.subrange(a, b), x - a, read)->Ok_0.len(),
        same_toks(
            placed,
            tokens(s.subrange(a, b), x - a, read)->Ok_0.skip(read.len() as int),
        ),
        tokens(s, x, acc) == tokens(s, b, acc + placed),
    decreases b - x,
{
    let t = s.subrange(a, b);
    lemma_spaces(s, a, b, x);
    lemma_runs_end(t, x - a);
    let y = a + spaces_end(t, x - a);
    if y == b {
        let none = Seq::<PlacedTokV>::empty();
        assert(acc + none =~= acc);
        assert(read.skip(read.len() as int) =~= none);
        lemma_runs_end(s, x);
        lemma_runs_end(s, b);
        none
    } else {
        lemma_token(s, a, b, y);
        let (tok, j) = token_at(t, y - a)->Ok_0;
        let one = PlacedTokV { tok, pos: pos(s, y) };
        let other = PlacedTokV { tok, pos: pos(t, y - a) };
        let rest = lemma_tokens(s, a, b, a + j, acc.push(one), read.push(other));
        let all = tokens(t, x - a, read)->Ok_0;
        lemma_tokens_start(t, j, read.push(other));
        let placed = seq![one] + rest;
        let n = read.len() as int;
        assert(acc.push(one) + rest =~= acc + placed);
        assert(all[n] == all.take(n + 1)[n]);
        assert forall|k: int| 0 <= k < placed.len() implies (#[trigger] placed[k]).tok == all.skip(
            n,
        )[k].tok by {
            if k > 0 {
                assert(placed[k] == rest[k - 1]);
                assert(all.skip(n + 1)[k - 1] == all[n + k]);
            }
        }
        placed
    }
}

/// What has been read stays.
pub proof fn lemma_tokens_start(s: Seq<char>, i: int, acc: Seq<PlacedTokV>)
    requires
        tokens(s, i, acc) is Ok,
    ensures
        acc.len() <= tokens(s, i, acc)->Ok_0.len(),
        tokens(s, i, acc)->Ok_0.take(acc.len() as int) == acc,
    decreases left(s, i),
{
    lemma_runs_end(s, i);
    let j = spaces_end(s, i);
    let n = acc.len() as int;
    if j < s.len() {
        let (tok, k) = token_at(s, j)->Ok_0;
        let one = PlacedTokV { tok, pos: pos(s, j) };
        lemma_tokens_start(s, past(j, k), acc.push(one));
        let all = tokens(s, i, acc)->Ok_0;
        assert(all.take(n) =~= all.take(n + 1).take(n));
        assert(acc.push(one).take(n) =~= acc);
    } else {
        assert(acc.take(n) =~= acc);
    }
}

// ---- the grammar ------------------------------------------------------------------------

/// The tokens of `p` stand in `q` from `d` on, before a `)` or the end.
pub open spec fn stands_in(p: Tokens, q: Tokens, d: int) -> bool {
    &&& 0 <= d
    &&& d + p.toks.len() <= q.toks.len()
    &&& holds_toks(p, q, d)
}

/// The tokens of `p` are those of `q` from `d` on, and then comes a `)` or nothing.
#[verifier::opaque]
pub open spec fn holds_toks(p: Tokens, q: Tokens, d: int) -> bool {
    &&& forall|k: int| 0 <= k < p.toks.len() ==> (#[trigger] p.toks[k]).tok == q.toks[d + k].tok
    &&& tok_at(q, d + p.toks.len()) is Some ==> punct_at(q, d + p.toks.len()) == Some(
        Punct::RParen,
    )
}

spec fn same(r: Parsed, s: Parsed, p: Tokens, i: int, d: int) -> bool {
    r matches Ok((e, j)) ==> i < j <= p.toks.len() && s == Ok::<(ArithExprV, int), ArithErrorV>(
        (e, d + j),
    )
}

proof fn lemma_tok(p: Tokens, q: Tokens, d: int, i: int, x: int)
    requires
        stands_in(p, q, d),
        x == d + i,
        0 <= i <= p.toks.len(),
    ensures
        i < p.toks.len() ==> tok_at(q, x) == tok_at(p, i),
        i < p.toks.len() ==> punct_at(q, x) == punct_at(p, i),
        i == p.toks.len() ==> tok_at(p, i) is None && punct_at(p, i) is None && (punct_at(q, x)
            is None || punct_at(q, x) == Some(Punct::RParen)),
{
    reveal(holds_toks);
    if i < p.toks.len() {
        assert(p.toks[i].tok == q.toks[d + i].tok);
    }
}

/// What `r` gives, with a `)` after it.
spec fn then_closed(p: Tokens, r: Parsed) -> Parsed {
    match r {
        Err(e) => Err(e),
        Ok((inner, j)) => if punct_at(p, j) == Some(Punct::RParen) {
            Ok((inner, j + 1))
        } else {
            Err(unexpected(p, j, "')'"@))
        },
    }
}

proof fn lemma_then_closed(p: Tokens, q: Tokens, d: int, i: int, r: Parsed, s: Parsed)
    requires
        stands_in(p, q, d),
        0 <= i,
        same(r, s, p, i, d),
    ensures
        same(then_closed(p, r), then_closed(q, s), p, i, d),
{
    if let Ok((_, j)) = r {
        lemma_tok(p, q, d, j, d + j);
    }
}

#[verifier::spinoff_prover]
proof fn lemma_primary(p: Tokens, q: Tokens, d: int, i: int, x: int)
    requires
        stands_in(p, q, d),
        x == d + i,
        0 <= i,
    ensures
        same(primary(p, i), primary(q, x), p, i, d),
    decreases ahead(p, i), 0nat,
{
    if i < p.toks.len() {
        lemma_tok(p, q, d, i, x);
        if punct_at(p, i) == Some(Punct::LParen) {
            lemma_comma(p, q, d, i + 1, x + 1);
            lemma_then_closed(p, q, d, i + 1, comma(p, i + 1), comma(q, x + 1));
            assert(primary(p, i) == then_closed(p, comma(p, i + 1)));
            assert(primary(q, x) == then_closed(q, comma(q, x + 1)));
        }
    }
}

#[verifier::spinoff_prover]
proof fn lemma_postfix(p: Tokens, q: Tokens, d: int, i: int, x: int)
    requires
        stands_in(p, q, d),
        x == d + i,
        0 <= i,
    ensures
        same(postfix(p, i), postfix(q, x), p, i, d),
    decreases ahead(p, i), 1nat,
{
    lemma_primary(p, q, d, i, x);
    if let Ok((_, j)) = primary(p, i) {
        lemma_tok(p, q, d, j, d + j);
    }
}

#[verifier::spinoff_prover]
proof fn lemma_unary(p: Tokens, q: Tokens, d: int, i: int, x: int)
    requires
        stands_in(p, q, d),
        x == d + i,
        0 <= i,
    ensures
        same(unary(p, i), unary(q, x), p, i, d),
    decreases ahead(p, i), 2nat,
{
    if i < p.toks.len() {
        lemma_tok(p, q, d, i, x);
        lemma_unary(p, q, d, i + 1, x + 1);
    }
    lemma_postfix(p, q, d, i, x);
}

#[verifier::spinoff_prover]
proof fn lemma_power(p: Tokens, q: Tokens, d: int, i: int, x: int)
    requires
        stands_in(p, q, d),
        x == d + i,
        0 <= i,
    ensures
        same(power(p, i), power(q, x), p, i, d),
    decreases ahead(p, i), 3nat,
{
    lemma_unary(p, q, d, i, x);
    if let Ok((_, j)) = unary(p, i) {
        lemma_tok(p, q, d, j, d + j);
        lemma_power(p, q, d, j + 1, d + j + 1);
    }
}

#[verifier::spinoff_prover]
proof fn lemma_binary(p: Tokens, q: Tokens, d: int, i: int, x: int, level: nat)
    requires
        stands_in(p, q, d),
        x == d + i,
        0 <= i,
    ensures
        same(binary(p, i, level), binary(q, x, level), p, i, d),
    decreases ahead(p, i), 4nat + level,
{
    if level == 0 {
        lemma_power(p, q, d, i, x);
    } else {
        lemma_binary(p, q, d, i, x, (level - 1) as nat);
        if let Ok((lhs, j)) = binary(p, i, (level - 1) as nat) {
            lemma_binary_rest(p, q, d, j, d + j, level, lhs);
        }
    }
}

#[verifier::spinoff_prover]
proof fn lemma_binary_rest(
    p: Tokens,
    q: Tokens,
    d: int,
    i: int,
    x: int,
    level: nat,
    lhs: ArithExprV,
)
    requires
        stands_in(p, q, d),
        x == d + i,
        0 <= i <= p.toks.len(),
    ensures
        binary_rest(p, i, level, lhs) matches Ok((e, j)) ==> i <= j <= p.toks.len() && binary_rest(
            q,
            x,
            level,
            lhs,
        ) == Ok::<(ArithExprV, int), ArithErrorV>((e, d + j)),
    decreases ahead(p, i), 0nat,
{
    lemma_tok(p, q, d, i, x);
    if let Some(op) = binary_op_at(p, i, level) {
        lemma_binary(p, q, d, i + 1, x + 1, (level - 1) as nat);
        if let Ok((rhs, j)) = binary(p, i + 1, (level - 1) as nat) {
            lemma_binary_rest(p, q, d, j, d + j, level, binary_expr(op, lhs, rhs));
        }
    }
}

#[verifier::spinoff_prover]
proof fn lemma_conditional(p: Tokens, q: Tokens, d: int, i: int, x: int)
    requires
        stands_in(p, q, d),
        x == d + i,
        0 <= i,
    ensures
        same(conditional(p, i), conditional(q, x), p, i, d),
    decreases ahead(p, i), 20nat,
{
    lemma_binary(p, q, d, i, x, 10);
    if let Ok((_, j)) = binary(p, i, 10) {
        lemma_tok(p, q, d, j, d + j);
        lemma_comma(p, q, d, j + 1, d + j + 1);
        if let Ok((_, k)) = comma(p, j + 1) {
            lemma_tok(p, q, d, k, d + k);
            lemma_conditional(p, q, d, k + 1, d + k + 1);
        }
    }
}

#[verifier::spinoff_prover]
proof fn lemma_assignment(p: Tokens, q: Tokens, d: int, i: int, x: int)
    requires
        stands_in(p, q, d),
        x == d + i,
        0 <= i,
    ensures
        same(assignment(p, i), assignment(q, x), p, i, d),
    decreases ahead(p, i), 21nat,
{
    lemma_conditional(p, q, d, i, x);
    if let Ok((_, j)) = conditional(p, i) {
        lemma_tok(p, q, d, j, d + j);
        lemma_assignment(p, q, d, j + 1, d + j + 1);
    }
}

/// A whole expression is parsed as the same one inside of others.
#[verifier::spinoff_prover]
pub proof fn lemma_comma(p: Tokens, q: Tokens, d: int, i: int, x: int)
    requires
        stands_in(p, q, d),
        x == d + i,
        0 <= i,
    ensures
        comma(p, i) matches Ok((e, j)) ==> i < j <= p.toks.len() && comma(q, x) == Ok::<
            (ArithExprV, int),
            ArithErrorV,
        >((e, d + j)),
    decreases ahead(p, i), 22nat,
{
    lemma_assignment(p, q, d, i, x);
    if let Ok((first, j)) = assignment(p, i) {
        lemma_comma_rest(p, q, d, j, d + j, first);
    }
}

#[verifier::spinoff_prover]
proof fn lemma_comma_rest(p: Tokens, q: Tokens, d: int, i: int, x: int, first: ArithExprV)
    requires
        stands_in(p, q, d),
        x == d + i,
        0 <= i <= p.toks.len(),
    ensures
        comma_rest(p, i, first) matches Ok((e, j)) ==> i <= j <= p.toks.len() && comma_rest(
            q,
            x,
            first,
        ) == Ok::<(ArithExprV, int), ArithErrorV>((e, d + j)),
    decreases ahead(p, i), 0nat,
{
    lemma_tok(p, q, d, i, x);
    if punct_at(p, i) == Some(Punct::Comma) {
        lemma_assignment(p, q, d, i + 1, x + 1);
        if let Ok((second, j)) = assignment(p, i + 1) {
            lemma_comma_rest(
                p,
                q,
                d,
                j,
                d + j,
                ArithExprV::Comma { first: Box::new(first), second: Box::new(second) },
            );
        }
    }
}

} // verus!
