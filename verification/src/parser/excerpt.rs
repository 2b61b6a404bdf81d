//! Parsing a part of a text that ends before a `)`.
//!
//! What the rules parse in the whole token stream `p`, up to that `)`, they parse
//! in the stream `q` of the part alone. Token `x` of `p` is token `i` of `q`.

use vstd::prelude::*;

use super::grammar::{
    and_or, and_or_rest, assignment_at, at_list_end, brace_group, branch, case_arm, case_arms,
    case_clause, command, command_prefix, command_suffix, compound_at, compound_command,
    compound_list, do_group, else_part, expect_reserved, for_clause, for_words, function_body,
    function_definition_at, function_with_keyword, function_without_keyword, if_clause, index_at,
    items, kind_at, left, lemma_newlines_end, logical_op_at, loop_parts, more_patterns,
    newlines_end, onward, op_at, pipeline, pipeline_rest, plain_at, program, redirect, redirect_at,
    redirects, reserved_at, separator, simple_command, source, source_of, subshell,
    text_between_offsets, until_clause, while_clause, word_at, words, Input, Parsed, ReservedWord,
};
use super::ParseErrorV;
use crate::ast::{ArmV, AssignmentV, BranchV, CommandV, ItemV, ListV, LogicalOp, RedirectV};
use crate::lexer::excerpt::{
    all_moved, closes, lemma_offset, lemma_subrange, lemma_text_between_tokens, part,
};
use crate::lexer::laws::law_lexing_is_well_placed;
use crate::lexer::rules::tokens_from;
use crate::lexer::LexError;
use crate::text::{byte_len, lemma_offset_monotonic, offset_of};
use crate::token::{Operator, TokenKindV, TokenV, WordV};

verus! {

/// The end in `p` of what `q` holds.
pub open spec fn end_of(q: Input, d: int) -> int {
    d + q.tokens.len()
}

/// `q` is the part of `p` from character `a` to character `b` and from token `d`
/// to the `)` at `b`.
pub open spec fn is_part(p: Input, q: Input, d: int, a: int, b: int) -> bool {
    &&& 0 <= d
    &&& end_of(q, d) < p.tokens.len()
    &&& holds_part(p, q, d, a, b)
}

/// The text and the tokens of `q` are those of `p` there.
#[verifier::opaque]
pub open spec fn holds_part(p: Input, q: Input, d: int, a: int, b: int) -> bool {
    &&& closes(p.text, a, b)
    &&& q.text == part(p.text, a, b)
    &&& p.tokens[end_of(q, d)].kind == TokenKindV::Operator(Operator::RParen)
    &&& q.tokens == all_moved(p.tokens.subrange(d, end_of(q, d)), offset_of(p.text, a))
    &&& forall|k: int|
        d <= k < end_of(q, d) ==> offset_of(p.text, a) <= (#[trigger] p.tokens[k]).span.start
            <= p.tokens[k].span.end <= offset_of(p.text, b)
}

/// What was parsed from `x` on in `p` is parsed in `q` too, if it lies there.
spec fn same<T>(r: Parsed<T>, s: Parsed<T>, q: Input, d: int, x: int) -> bool {
    r matches Ok((v, j)) ==> x <= j && (j <= end_of(q, d) ==> s == Ok::<(T, int), ParseErrorV>(
        (v, j - d),
    ))
}

proof fn lemma_kind(p: Input, q: Input, d: int, a: int, b: int, x: int, i: int)
    requires
        is_part(p, q, d, a, b),
        x == d + i,
        d <= x <= end_of(q, d),
    ensures
        x < end_of(q, d) ==> kind_at(q, i) == kind_at(p, x),
        x == end_of(q, d) ==> kind_at(q, i) is None && kind_at(p, x) == Some(
            TokenKindV::Operator(Operator::RParen),
        ),
        plain_at(q, i) == plain_at(p, x),
        reserved_at(q, i) == reserved_at(p, x),
{
    reveal(holds_part);
    if x < end_of(q, d) {
        lemma_source(p, q, d, a, b, x, x);
    }
}

proof fn lemma_list_end(p: Input, q: Input, d: int, a: int, b: int, x: int, i: int)
    requires
        is_part(p, q, d, a, b),
        x == d + i,
        d <= x <= end_of(q, d),
    ensures
        at_list_end(q, i) == at_list_end(p, x),
{
    lemma_kind(p, q, d, a, b, x, i);
}

proof fn lemma_compound_at(p: Input, q: Input, d: int, a: int, b: int, x: int, i: int)
    requires
        is_part(p, q, d, a, b),
        x == d + i,
        d <= x <= end_of(q, d),
    ensures
        compound_at(q, i) == compound_at(p, x),
{
    lemma_kind(p, q, d, a, b, x, i);
}

proof fn lemma_newlines(p: Input, q: Input, d: int, a: int, b: int, x: int, i: int)
    requires
        is_part(p, q, d, a, b),
        x == d + i,
        d <= x <= end_of(q, d),
    ensures
        x <= newlines_end(p, x) <= end_of(q, d),
        newlines_end(q, i) == newlines_end(p, x) - d,
    decreases end_of(q, d) - x,
{
    lemma_kind(p, q, d, a, b, x, i);
    if x < end_of(q, d) {
        lemma_newlines(p, q, d, a, b, x + 1, i + 1);
    }
}

// ---- the source text ----------------------------------------------------------------------

/// Where a byte offset falls is the same place, in the whole text and in a part.
proof fn lemma_index_from(s: Seq<char>, a: int, b: int, offset: nat, x: int)
    requires
        0 <= a <= x <= b <= s.len(),
        offset_of(s, a) <= offset <= offset_of(s, b),
    ensures
        x <= index_at(s, offset, x) <= b,
        index_at(part(s, a, b), (offset - offset_of(s, a)) as nat, x - a) == index_at(s, offset, x)
            - a,
    decreases b - x,
{
    lemma_offset(s, a, b, x);
    if x < b {
        lemma_index_from(s, a, b, offset, x + 1);
    }
}

proof fn lemma_index(s: Seq<char>, a: int, b: int, offset: nat, x: int)
    requires
        0 <= x <= a <= b <= s.len(),
        offset_of(s, a) <= offset <= offset_of(s, b),
    ensures
        a <= index_at(s, offset, x) <= b,
        index_at(part(s, a, b), (offset - offset_of(s, a)) as nat, 0) == index_at(s, offset, x)
            - a,
    decreases a - x,
{
    if x < a {
        lemma_offset_monotonic(s, x, a);
        lemma_index(s, a, b, offset, x + 1);
    } else {
        lemma_index_from(s, a, b, offset, x);
    }
}

/// The text between two byte offsets is the same, in the whole text and in a part.
proof fn lemma_text_between(s: Seq<char>, a: int, b: int, from: nat, to: nat)
    requires
        0 <= a <= b <= s.len(),
        offset_of(s, a) <= from <= offset_of(s, b),
        offset_of(s, a) <= to <= offset_of(s, b),
    ensures
        text_between_offsets(s, from, to) == text_between_offsets(
            part(s, a, b),
            (from - offset_of(s, a)) as nat,
            (to - offset_of(s, a)) as nat,
        ),
{
    lemma_index(s, a, b, from, 0);
    lemma_index(s, a, b, to, 0);
    let k = index_at(s, from, 0);
    lemma_subrange(s, a, b, k, onward(k, index_at(s, to, 0)));
}

/// The text from token `x` to token `y` is the same in both streams, and so is
/// that of a token.
proof fn lemma_source(p: Input, q: Input, d: int, a: int, b: int, x: int, y: int)
    requires
        is_part(p, q, d, a, b),
        d <= x < end_of(q, d),
        d <= y < end_of(q, d),
    ensures
        text_between_offsets(
            p.text,
            p.tokens[x].span.end as nat,
            p.tokens[y].span.start as nat,
        ) == text_between_offsets(
            q.text,
            q.tokens[x - d].span.end as nat,
            q.tokens[y - d].span.start as nat,
        ),
        source_of(q, x - d) == source_of(p, x),
{
    reveal(holds_part);
    let from = p.tokens[x].span.end as nat;
    lemma_text_between(p.text, a, b, from, p.tokens[y].span.start as nat);
    lemma_text_between(p.text, a, b, p.tokens[x].span.start as nat, from);
}

// ---- simple commands --------------------------------------------------------------------

proof fn lemma_redirect(p: Input, q: Input, d: int, a: int, b: int, x: int, i: int)
    requires
        is_part(p, q, d, a, b),
        x == d + i,
        d <= x,
        redirect_at(p, x),
    ensures
        same(redirect(p, x), redirect(q, i), q, d, x),
{
    if x <= end_of(q, d) {
        lemma_kind(p, q, d, a, b, x, i);
    }
    if x + 1 <= end_of(q, d) {
        lemma_kind(p, q, d, a, b, x + 1, i + 1);
    }
    if x + 2 <= end_of(q, d) {
        lemma_kind(p, q, d, a, b, x + 2, i + 2);
    }
}

proof fn lemma_redirects(
    p: Input,
    q: Input,
    d: int,
    a: int,
    b: int,
    x: int,
    i: int,
    acc: Seq<RedirectV>,
)
    requires
        is_part(p, q, d, a, b),
        x == d + i,
        d <= x,
    ensures
        same(redirects(p, x, acc), redirects(q, i, acc), q, d, x),
    decreases left(p, x),
{
    if x <= end_of(q, d) {
        lemma_kind(p, q, d, a, b, x, i);
    }
    if redirect_at(p, x) {
        lemma_redirect(p, q, d, a, b, x, i);
        if let Ok((r, j)) = redirect(p, x) {
            lemma_redirects(p, q, d, a, b, j, j - d, acc.push(r));
        }
    }
}

proof fn lemma_command_prefix(
    p: Input,
    q: Input,
    d: int,
    a: int,
    b: int,
    x: int,
    i: int,
    assignments: Seq<AssignmentV>,
    redirects: Seq<RedirectV>,
)
    requires
        is_part(p, q, d, a, b),
        x == d + i,
        d <= x,
    ensures
        same(
            command_prefix(p, x, assignments, redirects),
            command_prefix(q, i, assignments, redirects),
            q,
            d,
            x,
        ),
    decreases left(p, x),
{
    if x <= end_of(q, d) {
        lemma_kind(p, q, d, a, b, x, i);
    }
    if redirect_at(p, x) {
        lemma_redirect(p, q, d, a, b, x, i);
        if let Ok((r, j)) = redirect(p, x) {
            lemma_command_prefix(p, q, d, a, b, j, j - d, assignments, redirects.push(r));
        }
    } else {
        if x < end_of(q, d) {
            lemma_source(p, q, d, a, b, x, x);
        }
        if let Some(one) = assignment_at(p, x) {
            lemma_command_prefix(p, q, d, a, b, x + 1, i + 1, assignments.push(one), redirects);
        }
    }
}

proof fn lemma_command_suffix(
    p: Input,
    q: Input,
    d: int,
    a: int,
    b: int,
    x: int,
    i: int,
    args: Seq<WordV>,
    redirects: Seq<RedirectV>,
)
    requires
        is_part(p, q, d, a, b),
        x == d + i,
        d <= x,
    ensures
        same(
            command_suffix(p, x, args, redirects),
            command_suffix(q, i, args, redirects),
            q,
            d,
            x,
        ),
    decreases left(p, x),
{
    if x <= end_of(q, d) {
        lemma_kind(p, q, d, a, b, x, i);
    }
    if redirect_at(p, x) {
        lemma_redirect(p, q, d, a, b, x, i);
        if let Ok((r, j)) = redirect(p, x) {
            lemma_command_suffix(p, q, d, a, b, j, j - d, args, redirects.push(r));
        }
    } else if let Some(w) = word_at(p, x) {
        lemma_command_suffix(p, q, d, a, b, x + 1, i + 1, args.push(w), redirects);
    }
}

proof fn lemma_simple_command(p: Input, q: Input, d: int, a: int, b: int, x: int, i: int)
    requires
        is_part(p, q, d, a, b),
        x == d + i,
        d <= x,
    ensures
        same(simple_command(p, x), simple_command(q, i), q, d, x),
{
    lemma_command_prefix(p, q, d, a, b, x, i, Seq::empty(), Seq::empty());
    if let Ok(((assignments, before), j)) = command_prefix(p, x, Seq::empty(), Seq::empty()) {
        if j <= end_of(q, d) {
            lemma_kind(p, q, d, a, b, j, j - d);
        }
        let k = if word_at(p, j) is Some {
            j + 1
        } else {
            j
        };
        lemma_command_suffix(p, q, d, a, b, k, k - d, Seq::empty(), before);
    }
}

// ---- separators and words ---------------------------------------------------------------

proof fn lemma_separator(p: Input, q: Input, d: int, a: int, b: int, x: int, i: int)
    requires
        is_part(p, q, d, a, b),
        x == d + i,
        d <= x,
    ensures
        x <= separator(p, x).1,
        x <= end_of(q, d) ==> separator(p, x).1 <= end_of(q, d) && separator(q, i) == (
            separator(p, x).0,
            separator(p, x).1 - d,
        ),
        !(separator(p, x).0 is End) ==> x < separator(p, x).1,
{
    lemma_newlines_end(p, x);
    lemma_newlines_end(p, x + 1);
    if x <= end_of(q, d) {
        lemma_kind(p, q, d, a, b, x, i);
        lemma_newlines(p, q, d, a, b, x, i);
    }
    if x < end_of(q, d) {
        lemma_newlines(p, q, d, a, b, x + 1, i + 1);
    }
}

proof fn lemma_words(p: Input, q: Input, d: int, a: int, b: int, x: int, i: int, acc: Seq<WordV>)
    requires
        is_part(p, q, d, a, b),
        x == d + i,
        d <= x,
    ensures
        x <= words(p, x, acc).1,
        x <= end_of(q, d) ==> words(p, x, acc).1 <= end_of(q, d) && words(q, i, acc) == (
            words(p, x, acc).0,
            words(p, x, acc).1 - d,
        ),
    decreases left(p, x),
{
    if x <= end_of(q, d) {
        lemma_kind(p, q, d, a, b, x, i);
    }
    if let Some(w) = word_at(p, x) {
        lemma_words(p, q, d, a, b, x + 1, i + 1, acc.push(w));
    }
}

proof fn lemma_for_words(p: Input, q: Input, d: int, a: int, b: int, x: int, i: int)
    requires
        is_part(p, q, d, a, b),
        x == d + i,
        d <= x,
    ensures
        same(for_words(p, x), for_words(q, i), q, d, x),
{
    let n = end_of(q, d);
    let y = newlines_end(p, x);
    lemma_newlines_end(p, x);
    lemma_newlines_end(p, y);
    lemma_newlines_end(p, y + 1);
    if x <= n {
        lemma_newlines(p, q, d, a, b, x, i);
        lemma_kind(p, q, d, a, b, y, y - d);
        lemma_newlines(p, q, d, a, b, y, y - d);
        if y < n {
            lemma_newlines(p, q, d, a, b, y + 1, y - d + 1);
        }
    }
    let k = words(p, y + 1, Seq::empty()).1;
    lemma_words(p, q, d, a, b, y + 1, y - d + 1, Seq::empty());
    lemma_newlines_end(p, k);
    lemma_newlines_end(p, k + 1);
    if k <= n {
        lemma_kind(p, q, d, a, b, k, k - d);
        lemma_newlines(p, q, d, a, b, k, k - d);
        if k < n {
            lemma_newlines(p, q, d, a, b, k + 1, k - d + 1);
        }
    }
}

proof fn lemma_more_patterns(
    p: Input,
    q: Input,
    d: int,
    a: int,
    b: int,
    x: int,
    i: int,
    acc: Seq<WordV>,
)
    requires
        is_part(p, q, d, a, b),
        x == d + i,
        d <= x,
    ensures
        same(more_patterns(p, x, acc), more_patterns(q, i, acc), q, d, x),
    decreases left(p, x),
{
    if x <= end_of(q, d) {
        lemma_kind(p, q, d, a, b, x, i);
    }
    if x < end_of(q, d) {
        lemma_kind(p, q, d, a, b, x + 1, i + 1);
    }
    if op_at(p, x, Operator::Pipe) {
        if let Some(w) = word_at(p, x + 1) {
            lemma_more_patterns(p, q, d, a, b, x + 2, i + 2, acc.push(w));
        }
    }
}

// ---- lists and commands -----------------------------------------------------------------

#[verifier::spinoff_prover]
proof fn lemma_items(
    p: Input,
    q: Input,
    d: int,
    a: int,
    b: int,
    x: int,
    i: int,
    inner: bool,
    acc: ListV,
)
    requires
        is_part(p, q, d, a, b),
        x == d + i,
        d <= x,
    ensures
        same(items(p, x, inner, acc), items(q, i, inner, acc), q, d, x),
    decreases left(p, x), 5nat,
{
    if x <= end_of(q, d) {
        lemma_list_end(p, q, d, a, b, x, i);
    }
    if !(x >= p.tokens.len() || (inner && at_list_end(p, x))) {
        lemma_and_or(p, q, d, a, b, x, i);
        if let Ok((and_or, j)) = and_or(p, x) {
            lemma_separator(p, q, d, a, b, j, j - d);
            let (separator, k) = separator(p, j);
            let more = acc.push(ItemV { and_or, separator });
            if !(separator is End) {
                lemma_items(p, q, d, a, b, onward(x + 1, k), onward(i + 1, k - d), inner, more);
            }
        }
    }
}

#[verifier::spinoff_prover]
proof fn lemma_compound_list(p: Input, q: Input, d: int, a: int, b: int, x: int, i: int)
    requires
        is_part(p, q, d, a, b),
        x == d + i,
        d <= x,
    ensures
        same(compound_list(p, x), compound_list(q, i), q, d, x),
    decreases left(p, x), 6nat,
{
    lemma_newlines_end(p, x);
    if x <= end_of(q, d) {
        lemma_newlines(p, q, d, a, b, x, i);
    }
    lemma_items(p, q, d, a, b, newlines_end(p, x), newlines_end(p, x) - d, true, Seq::empty());
}

#[verifier::spinoff_prover]
proof fn lemma_and_or(p: Input, q: Input, d: int, a: int, b: int, x: int, i: int)
    requires
        is_part(p, q, d, a, b),
        x == d + i,
        d <= x,
    ensures
        same(and_or(p, x), and_or(q, i), q, d, x),
    decreases left(p, x), 4nat,
{
    lemma_pipeline(p, q, d, a, b, x, i);
    if let Ok((first, j)) = pipeline(p, x) {
        lemma_and_or_rest(p, q, d, a, b, onward(x, j), onward(i, j - d), first, Seq::empty());
    }
}

#[verifier::spinoff_prover]
proof fn lemma_and_or_rest(
    p: Input,
    q: Input,
    d: int,
    a: int,
    b: int,
    x: int,
    i: int,
    first: Seq<CommandV>,
    acc: Seq<(LogicalOp, Seq<CommandV>)>,
)
    requires
        is_part(p, q, d, a, b),
        x == d + i,
        d <= x,
    ensures
        same(and_or_rest(p, x, first, acc), and_or_rest(q, i, first, acc), q, d, x),
    decreases left(p, x), 0nat,
{
    if x <= end_of(q, d) {
        lemma_kind(p, q, d, a, b, x, i);
    }
    lemma_newlines_end(p, x + 1);
    if x < end_of(q, d) {
        lemma_newlines(p, q, d, a, b, x + 1, i + 1);
    }
    if let Some(op) = logical_op_at(p, x) {
        let k = newlines_end(p, x + 1);
        lemma_pipeline(p, q, d, a, b, k, k - d);
        if let Ok((next, j)) = pipeline(p, k) {
            lemma_and_or_rest(
                p,
                q,
                d,
                a,
                b,
                onward(k, j),
                onward(k - d, j - d),
                first,
                acc.push((op, next)),
            );
        }
    }
}

#[verifier::spinoff_prover]
proof fn lemma_pipeline(p: Input, q: Input, d: int, a: int, b: int, x: int, i: int)
    requires
        is_part(p, q, d, a, b),
        x == d + i,
        d <= x,
    ensures
        same(pipeline(p, x), pipeline(q, i), q, d, x),
    decreases left(p, x), 3nat,
{
    lemma_command(p, q, d, a, b, x, i);
    if let Ok((c, j)) = command(p, x) {
        lemma_pipeline_rest(p, q, d, a, b, onward(x, j), onward(i, j - d), seq![c]);
    }
}

#[verifier::spinoff_prover]
proof fn lemma_pipeline_rest(
    p: Input,
    q: Input,
    d: int,
    a: int,
    b: int,
    x: int,
    i: int,
    acc: Seq<CommandV>,
)
    requires
        is_part(p, q, d, a, b),
        x == d + i,
        d <= x,
    ensures
        same(pipeline_rest(p, x, acc), pipeline_rest(q, i, acc), q, d, x),
    decreases left(p, x), 0nat,
{
    if x <= end_of(q, d) {
        lemma_kind(p, q, d, a, b, x, i);
    }
    lemma_newlines_end(p, x + 1);
    if x < end_of(q, d) {
        lemma_newlines(p, q, d, a, b, x + 1, i + 1);
    }
    if op_at(p, x, Operator::Pipe) {
        let k = newlines_end(p, x + 1);
        lemma_command(p, q, d, a, b, k, k - d);
        if let Ok((c, j)) = command(p, k) {
            lemma_pipeline_rest(p, q, d, a, b, onward(k, j), onward(k - d, j - d), acc.push(c));
        }
    }
}

#[verifier::spinoff_prover]
proof fn lemma_command(p: Input, q: Input, d: int, a: int, b: int, x: int, i: int)
    requires
        is_part(p, q, d, a, b),
        x == d + i,
        d <= x,
    ensures
        same(command(p, x), command(q, i), q, d, x),
    decreases left(p, x), 2nat,
{
    if x <= end_of(q, d) {
        lemma_kind(p, q, d, a, b, x, i);
        lemma_compound_at(p, q, d, a, b, x, i);
    }
    if x < end_of(q, d) {
        lemma_kind(p, q, d, a, b, x + 1, i + 1);
    }
    if x + 2 <= end_of(q, d) {
        lemma_kind(p, q, d, a, b, x + 2, i + 2);
    }
    if reserved_at(p, x) == Some(ReservedWord::Function) {
        lemma_function_with_keyword(p, q, d, a, b, x, i);
    } else if function_definition_at(p, x) {
        lemma_function_without_keyword(p, q, d, a, b, x, i);
    } else if compound_at(p, x) {
        lemma_compound_command(p, q, d, a, b, x, i);
    } else {
        lemma_simple_command(p, q, d, a, b, x, i);
    }
}

#[verifier::spinoff_prover]
proof fn lemma_function_without_keyword(
    p: Input,
    q: Input,
    d: int,
    a: int,
    b: int,
    x: int,
    i: int,
)
    requires
        is_part(p, q, d, a, b),
        x == d + i,
        d <= x < p.tokens.len(),
    ensures
        function_without_keyword(p, x) matches Ok((_, j)) ==> x + 3 <= j,
        same(function_without_keyword(p, x), function_without_keyword(q, i), q, d, x),
    decreases left(p, x), 1nat,
{
    if x <= end_of(q, d) {
        lemma_kind(p, q, d, a, b, x, i);
    }
    lemma_newlines_end(p, x + 3);
    if x + 3 <= end_of(q, d) {
        lemma_newlines(p, q, d, a, b, x + 3, i + 3);
    }
    lemma_function_body(p, q, d, a, b, newlines_end(p, x + 3), newlines_end(p, x + 3) - d);
}

#[verifier::spinoff_prover]
proof fn lemma_function_with_keyword(p: Input, q: Input, d: int, a: int, b: int, x: int, i: int)
    requires
        is_part(p, q, d, a, b),
        x == d + i,
        d <= x < p.tokens.len(),
    ensures
        same(function_with_keyword(p, x), function_with_keyword(q, i), q, d, x),
    decreases left(p, x), 1nat,
{
    let n = end_of(q, d);
    lemma_newlines_end(p, x + 2);
    lemma_newlines_end(p, x + 4);
    if x + 1 <= n {
        lemma_kind(p, q, d, a, b, x + 1, i + 1);
    }
    if x + 2 <= n {
        lemma_kind(p, q, d, a, b, x + 2, i + 2);
        lemma_newlines(p, q, d, a, b, x + 2, i + 2);
    }
    if x + 3 <= n {
        lemma_kind(p, q, d, a, b, x + 3, i + 3);
    }
    if x + 4 <= n {
        lemma_newlines(p, q, d, a, b, x + 4, i + 4);
    }
    lemma_function_body(p, q, d, a, b, newlines_end(p, x + 2), newlines_end(p, x + 2) - d);
    lemma_function_body(p, q, d, a, b, newlines_end(p, x + 4), newlines_end(p, x + 4) - d);
}

#[verifier::spinoff_prover]
proof fn lemma_function_body(p: Input, q: Input, d: int, a: int, b: int, x: int, i: int)
    requires
        is_part(p, q, d, a, b),
        x == d + i,
        d <= x,
    ensures
        same(function_body(p, x), function_body(q, i), q, d, x),
    decreases left(p, x), 2nat,
{
    if x <= end_of(q, d) {
        lemma_compound_at(p, q, d, a, b, x, i);
    }
    if compound_at(p, x) {
        lemma_compound_command(p, q, d, a, b, x, i);
    }
}

#[verifier::spinoff_prover]
proof fn lemma_compound_command(p: Input, q: Input, d: int, a: int, b: int, x: int, i: int)
    requires
        is_part(p, q, d, a, b),
        x == d + i,
        d <= x,
        x < p.tokens.len(),
        compound_at(p, x),
    ensures
        same(compound_command(p, x), compound_command(q, i), q, d, x),
    decreases left(p, x), 1nat,
{
    if x <= end_of(q, d) {
        lemma_kind(p, q, d, a, b, x, i);
    }
    if op_at(p, x, Operator::LParen) {
        lemma_subshell(p, q, d, a, b, x, i);
    } else {
        match reserved_at(p, x) {
            Some(ReservedWord::LBrace) => {
                lemma_brace_group(p, q, d, a, b, x, i);
            },
            Some(ReservedWord::If) => {
                lemma_if_clause(p, q, d, a, b, x, i);
            },
            Some(ReservedWord::For) => {
                lemma_for_clause(p, q, d, a, b, x, i);
            },
            Some(ReservedWord::While) => {
                lemma_loop_parts(p, q, d, a, b, x + 1, i + 1);
            },
            Some(ReservedWord::Until) => {
                lemma_loop_parts(p, q, d, a, b, x + 1, i + 1);
            },
            _ => {
                lemma_case_clause(p, q, d, a, b, x, i);
            },
        }
    }
    let kind = if op_at(p, x, Operator::LParen) {
        subshell(p, x)
    } else {
        match reserved_at(p, x) {
            Some(ReservedWord::LBrace) => brace_group(p, x),
            Some(ReservedWord::If) => if_clause(p, x),
            Some(ReservedWord::For) => for_clause(p, x),
            Some(ReservedWord::While) => while_clause(p, x),
            Some(ReservedWord::Until) => until_clause(p, x),
            _ => case_clause(p, x),
        }
    };
    if let Ok((_, j)) = kind {
        lemma_redirects(p, q, d, a, b, j, j - d, Seq::empty());
    }
}

/// What `r` gives, with the reserved word `want` after it.
spec fn then_reserved<T>(p: Input, r: Parsed<T>, want: ReservedWord) -> Parsed<T> {
    match r {
        Err(e) => Err(e),
        Ok((v, j)) => match expect_reserved(p, j, want) {
            Ok(k) => Ok((v, k)),
            Err(e) => Err(e),
        },
    }
}

#[verifier::spinoff_prover]
proof fn lemma_then_reserved<T>(
    p: Input,
    q: Input,
    d: int,
    a: int,
    b: int,
    x: int,
    r: Parsed<T>,
    s: Parsed<T>,
    want: ReservedWord,
)
    requires
        is_part(p, q, d, a, b),
        d <= x,
        same(r, s, q, d, x),
    ensures
        same(then_reserved(p, r, want), then_reserved(q, s, want), q, d, x),
{
    if let Ok((_, j)) = r {
        if j <= end_of(q, d) {
            lemma_kind(p, q, d, a, b, j, j - d);
        }
    }
}

#[verifier::spinoff_prover]
proof fn lemma_brace_group(p: Input, q: Input, d: int, a: int, b: int, x: int, i: int)
    requires
        is_part(p, q, d, a, b),
        x == d + i,
        d <= x,
        x < p.tokens.len(),
    ensures
        same(brace_group(p, x), brace_group(q, i), q, d, x),
    decreases left(p, x), 0nat,
{
    lemma_compound_list(p, q, d, a, b, x + 1, i + 1);
    lemma_then_reserved(
        p,
        q,
        d,
        a,
        b,
        x + 1,
        compound_list(p, x + 1),
        compound_list(q, i + 1),
        ReservedWord::RBrace,
    );
}

#[verifier::spinoff_prover]
#[verifier::rlimit(30)]
proof fn lemma_subshell(p: Input, q: Input, d: int, a: int, b: int, x: int, i: int)
    requires
        is_part(p, q, d, a, b),
        x == d + i,
        d <= x,
        x < p.tokens.len(),
    ensures
        same(subshell(p, x), subshell(q, i), q, d, x),
    decreases left(p, x), 0nat,
{
    lemma_compound_list(p, q, d, a, b, x + 1, i + 1);
    if let Ok((_, j)) = compound_list(p, x + 1) {
        if j < end_of(q, d) {
            lemma_kind(p, q, d, a, b, j, j - d);
            lemma_source(p, q, d, a, b, x, j);
        }
    }
}

#[verifier::spinoff_prover]
proof fn lemma_branch(p: Input, q: Input, d: int, a: int, b: int, x: int, i: int)
    requires
        is_part(p, q, d, a, b),
        x == d + i,
        d <= x,
    ensures
        same(branch(p, x), branch(q, i), q, d, x),
    decreases left(p, x), 7nat,
{
    lemma_compound_list(p, q, d, a, b, x, i);
    if let Ok((_, j)) = compound_list(p, x) {
        if j <= end_of(q, d) {
            lemma_kind(p, q, d, a, b, j, j - d);
        }
        lemma_compound_list(p, q, d, a, b, onward(x, j + 1), onward(i, j - d + 1));
    }
}

#[verifier::spinoff_prover]
proof fn lemma_else(
    p: Input,
    q: Input,
    d: int,
    a: int,
    b: int,
    x: int,
    i: int,
    branches: Seq<BranchV>,
)
    requires
        is_part(p, q, d, a, b),
        x == d + i,
        d <= x,
        reserved_at(p, x) == Some(ReservedWord::Else),
    ensures
        same(else_part(p, x, branches), else_part(q, i, branches), q, d, x),
    decreases left(p, x), 0nat,
{
    lemma_compound_list(p, q, d, a, b, x + 1, i + 1);
    lemma_then_reserved(
        p,
        q,
        d,
        a,
        b,
        x + 1,
        compound_list(p, x + 1),
        compound_list(q, i + 1),
        ReservedWord::Fi,
    );
    if x <= end_of(q, d) {
        lemma_kind(p, q, d, a, b, x, i);
    }
}

#[verifier::spinoff_prover]
proof fn lemma_else_part(
    p: Input,
    q: Input,
    d: int,
    a: int,
    b: int,
    x: int,
    i: int,
    branches: Seq<BranchV>,
)
    requires
        is_part(p, q, d, a, b),
        x == d + i,
        d <= x,
    ensures
        same(else_part(p, x, branches), else_part(q, i, branches), q, d, x),
    decreases left(p, x), 1nat,
{
    if x <= end_of(q, d) {
        lemma_kind(p, q, d, a, b, x, i);
    }
    if reserved_at(p, x) == Some(ReservedWord::Else) {
        lemma_else(p, q, d, a, b, x, i, branches);
    } else if reserved_at(p, x) == Some(ReservedWord::Elif) {
        lemma_branch(p, q, d, a, b, x + 1, i + 1);
        if let Ok((branch, j)) = branch(p, x + 1) {
            lemma_else_part(
                p,
                q,
                d,
                a,
                b,
                onward(x + 1, j),
                onward(i + 1, j - d),
                branches.push(branch),
            );
        }
    }
}

#[verifier::spinoff_prover]
proof fn lemma_if_clause(p: Input, q: Input, d: int, a: int, b: int, x: int, i: int)
    requires
        is_part(p, q, d, a, b),
        x == d + i,
        d <= x,
        x < p.tokens.len(),
    ensures
        same(if_clause(p, x), if_clause(q, i), q, d, x),
    decreases left(p, x), 0nat,
{
    lemma_branch(p, q, d, a, b, x + 1, i + 1);
    if let Ok((branch, j)) = branch(p, x + 1) {
        lemma_else_part(p, q, d, a, b, onward(x + 1, j), onward(i + 1, j - d), seq![branch]);
    }
}

#[verifier::spinoff_prover]
proof fn lemma_do_group(p: Input, q: Input, d: int, a: int, b: int, x: int, i: int)
    requires
        is_part(p, q, d, a, b),
        x == d + i,
        d <= x,
    ensures
        same(do_group(p, x), do_group(q, i), q, d, x),
    decreases left(p, x), 7nat,
{
    if x <= end_of(q, d) {
        lemma_kind(p, q, d, a, b, x, i);
    }
    if reserved_at(p, x) == Some(ReservedWord::Do) {
        lemma_compound_list(p, q, d, a, b, x + 1, i + 1);
        lemma_then_reserved(
            p,
            q,
            d,
            a,
            b,
            x + 1,
            compound_list(p, x + 1),
            compound_list(q, i + 1),
            ReservedWord::Done,
        );
    }
}

#[verifier::spinoff_prover]
proof fn lemma_loop_parts(p: Input, q: Input, d: int, a: int, b: int, x: int, i: int)
    requires
        is_part(p, q, d, a, b),
        x == d + i,
        d <= x,
    ensures
        same(loop_parts(p, x), loop_parts(q, i), q, d, x),
    decreases left(p, x), 8nat,
{
    lemma_compound_list(p, q, d, a, b, x, i);
    if let Ok((_, j)) = compound_list(p, x) {
        lemma_do_group(p, q, d, a, b, onward(x, j), onward(i, j - d));
    }
}

#[verifier::spinoff_prover]
proof fn lemma_for_clause(p: Input, q: Input, d: int, a: int, b: int, x: int, i: int)
    requires
        is_part(p, q, d, a, b),
        x == d + i,
        d <= x,
        x < p.tokens.len(),
    ensures
        same(for_clause(p, x), for_clause(q, i), q, d, x),
    decreases left(p, x), 0nat,
{
    if x + 1 <= end_of(q, d) {
        lemma_kind(p, q, d, a, b, x + 1, i + 1);
    }
    lemma_for_words(p, q, d, a, b, x + 2, i + 2);
    if word_at(p, x + 1) is Some {
        if let Ok((_, k)) = for_words(p, x + 2) {
            lemma_do_group(p, q, d, a, b, onward(x + 1, k), onward(i + 1, k - d));
        }
    }
}

#[verifier::spinoff_prover]
proof fn lemma_case_clause(p: Input, q: Input, d: int, a: int, b: int, x: int, i: int)
    requires
        is_part(p, q, d, a, b),
        x == d + i,
        d <= x,
        x < p.tokens.len(),
    ensures
        same(case_clause(p, x), case_clause(q, i), q, d, x),
    decreases left(p, x), 0nat,
{
    let n = end_of(q, d);
    let y = newlines_end(p, x + 2);
    lemma_newlines_end(p, x + 2);
    lemma_newlines_end(p, y + 1);
    if x + 1 <= n {
        lemma_kind(p, q, d, a, b, x + 1, i + 1);
    }
    if x + 2 <= n {
        lemma_newlines(p, q, d, a, b, x + 2, i + 2);
        lemma_kind(p, q, d, a, b, y, y - d);
        if y < n {
            lemma_newlines(p, q, d, a, b, y + 1, y - d + 1);
        }
    }
    lemma_case_arms(
        p,
        q,
        d,
        a,
        b,
        newlines_end(p, y + 1),
        newlines_end(p, y + 1) - d,
        Seq::empty(),
    );
}

#[verifier::spinoff_prover]
#[verifier::rlimit(30)]
proof fn lemma_case_arms(
    p: Input,
    q: Input,
    d: int,
    a: int,
    b: int,
    x: int,
    i: int,
    acc: Seq<ArmV>,
)
    requires
        is_part(p, q, d, a, b),
        x == d + i,
        d <= x,
    ensures
        same(case_arms(p, x, acc), case_arms(q, i, acc), q, d, x),
    decreases left(p, x), 8nat,
{
    if x <= end_of(q, d) {
        lemma_kind(p, q, d, a, b, x, i);
    }
    if x < p.tokens.len() && reserved_at(p, x) != Some(ReservedWord::Esac) {
        lemma_case_arm(p, q, d, a, b, x, i);
        if let Ok((arm, j)) = case_arm(p, x) {
            lemma_case_arms(p, q, d, a, b, onward(x + 1, j), onward(i + 1, j - d), acc.push(arm));
        }
    }
}

#[verifier::spinoff_prover]
proof fn lemma_case_arm(p: Input, q: Input, d: int, a: int, b: int, x: int, i: int)
    requires
        is_part(p, q, d, a, b),
        x == d + i,
        d <= x,
    ensures
        same(case_arm(p, x), case_arm(q, i), q, d, x),
    decreases left(p, x), 7nat,
{
    let n = end_of(q, d);
    if x <= n {
        lemma_kind(p, q, d, a, b, x, i);
    }
    let first = if op_at(p, x, Operator::LParen) {
        x + 1
    } else {
        x
    };
    if first <= n {
        lemma_kind(p, q, d, a, b, first, first - d);
    }
    if let Some(w) = word_at(p, first) {
        lemma_more_patterns(p, q, d, a, b, first + 1, first - d + 1, seq![w]);
        if let Ok((_, k)) = more_patterns(p, first + 1, seq![w]) {
            if k <= n {
                lemma_kind(p, q, d, a, b, k, k - d);
            }
            if k < n {
                lemma_newlines(p, q, d, a, b, k + 1, k - d + 1);
            }
            lemma_newlines_end(p, k + 1);
            let m = onward(x, newlines_end(p, k + 1));
            lemma_compound_list(p, q, d, a, b, m, m - d);
            if let Ok((_, j)) = compound_list(p, m) {
                lemma_newlines_end(p, j + 1);
                if j <= n {
                    lemma_kind(p, q, d, a, b, j, j - d);
                }
                if j < n {
                    lemma_newlines(p, q, d, a, b, j + 1, j - d + 1);
                }
            }
        }
    }
}

// ---- subshells --------------------------------------------------------------------------

/// An inner list that ends before the `)` is a whole program in the part alone.
#[verifier::spinoff_prover]
proof fn lemma_items_to_end(
    p: Input,
    q: Input,
    d: int,
    a: int,
    b: int,
    x: int,
    i: int,
    acc: ListV,
)
    requires
        is_part(p, q, d, a, b),
        x == d + i,
        d <= x <= end_of(q, d),
    ensures
        items(p, x, true, acc) matches Ok((list, j)) ==> (j == end_of(q, d) ==> items(
            q,
            i,
            false,
            acc,
        ) == Ok::<(ListV, int), ParseErrorV>((list, j - d))),
    decreases left(p, x),
{
    lemma_kind(p, q, d, a, b, x, i);
    if !at_list_end(p, x) {
        lemma_and_or(p, q, d, a, b, x, i);
        if let Ok((and_or, j)) = and_or(p, x) {
            lemma_separator(p, q, d, a, b, j, j - d);
            let (separator, k) = separator(p, j);
            let more = acc.push(ItemV { and_or, separator });
            let next = onward(x + 1, k);
            if !(separator is End) {
                lemma_items(p, q, d, a, b, next, next - d, true, more);
                if next <= end_of(q, d) {
                    lemma_items_to_end(p, q, d, a, b, next, next - d, more);
                }
            }
        }
    }
}

/// `p` holds the tokens of its text.
pub open spec fn is_lexed(p: Input) -> bool {
    &&& byte_len(p.text) <= usize::MAX
    &&& tokens_from(p.text, 0, Seq::empty()) == Ok::<Seq<TokenV>, LexError>(p.tokens)
}

/// The text of a subshell alone is parsed into its body.
#[verifier::spinoff_prover]
pub proof fn lemma_subshell_text(p: Input, x: int)
    requires
        is_lexed(p),
        0 <= x < p.tokens.len(),
    ensures
        compound_list(p, x + 1) matches Ok((body, j)) ==> (x < j && op_at(p, j, Operator::RParen)
            ==> source(
            text_between_offsets(
                p.text,
                p.tokens[x].span.end as nat,
                p.tokens[j].span.start as nat,
            ),
        ) == Ok::<ListV, ParseErrorV>(body)),
{
    if let Ok((body, j)) = compound_list(p, x + 1) {
        if x < j && op_at(p, j, Operator::RParen) {
            let (a, b) = lemma_text_between_tokens(p.text, p.tokens, x, j);
            let d = x + 1;
            let text = part(p.text, a, b);
            let tokens = all_moved(p.tokens.subrange(d, j), offset_of(p.text, a));
            let q = Input { text, tokens };
            law_lexing_is_well_placed(p.text);
            assert(is_part(p, q, d, a, b)) by {
                reveal(holds_part);
                assert forall|k: int| d <= k < j implies offset_of(p.text, a) <= (
                #[trigger] p.tokens[k]).span.start <= p.tokens[k].span.end <= offset_of(
                    p.text,
                    b,
                ) by {
                    assert(p.tokens[x].span.end <= p.tokens[k].span.start);
                    assert(p.tokens[k].span.end <= p.tokens[j].span.start);
                }
            }
            lemma_index(p.text, a, a, offset_of(p.text, a), 0);
            lemma_index(p.text, b, b, offset_of(p.text, b), 0);
            lemma_newlines(p, q, d, a, b, d, 0);
            let y = newlines_end(p, d);
            lemma_items_to_end(p, q, d, a, b, y, y - d, Seq::empty());
            assert(program(q) == Ok::<ListV, ParseErrorV>(body));
        }
    }
}

} // verus!
