//! Commands side by side, and what joins them.

use vstd::prelude::*;

use super::grammar::{
    and_or, and_or_rest, assignment_at, command, command_suffix, items, kind_at, newlines_end,
    pipeline, pipeline_rest, program, redirect_at, reserved_at, simple_command, word_at, Input,
    ParseErrorV,
};
use crate::ast::{AndOrV, CommandV, ItemV, ListV, LogicalOp, Separator, SimpleCommandV};
use crate::token::{Operator, TokenKindV, WordV};

verus! {

/// From token `i` on these words stand, and then nothing that belongs to their command. The
/// first is neither a word of the grammar nor an assignment.
pub open spec fn calls(p: Input, i: int, w: Seq<WordV>) -> bool {
    let j = i + w.len();
    &&& 0 <= i
    &&& w.len() > 0
    &&& forall|k: int| 0 <= k < w.len() ==> kind_at(p, i + k) == Some(
        TokenKindV::Word(#[trigger] w[k]),
    )
    &&& reserved_at(p, i) is None
    &&& assignment_at(p, i) is None
    &&& j == p.tokens.len() || joins(p, j)
}

/// At token `i` stands what joins or ends commands.
pub open spec fn joins(p: Input, i: int) -> bool {
    match kind_at(p, i) {
        Some(TokenKindV::Newline) => true,
        Some(TokenKindV::Operator(op)) => op is Pipe || op is AndIf || op is OrIf || op is Semi
            || op is Amp,
        _ => false,
    }
}

/// The command with this name and these arguments.
pub open spec fn call(w: Seq<WordV>) -> CommandV {
    CommandV::Simple(
        SimpleCommandV {
            assignments: Seq::empty(),
            name: Some(w[0]),
            args: w.skip(1),
            redirects: Seq::empty(),
        },
    )
}

/// A command by itself, and how it is separated from the next.
pub open spec fn alone(w: Seq<WordV>, separator: Separator) -> ItemV {
    ItemV { and_or: AndOrV { first: seq![call(w)], rest: Seq::empty() }, separator }
}

proof fn lemma_arguments(p: Input, i: int, w: Seq<WordV>, k: int)
    requires
        calls(p, i, w),
        1 <= k <= w.len(),
    ensures
        command_suffix(p, i + k, w.subrange(1, k), Seq::empty()) == Ok::<
            ((Seq<WordV>, Seq<crate::ast::RedirectV>), int),
            ParseErrorV,
        >(((w.skip(1), Seq::empty()), i + w.len())),
    decreases w.len() - k,
{
    if k < w.len() {
        assert(kind_at(p, i + k) == Some(TokenKindV::Word(w[k])));
        assert(!redirect_at(p, i + k));
        lemma_arguments(p, i, w, k + 1);
        assert(w.subrange(1, k).push(w[k]) =~= w.subrange(1, k + 1));
    } else {
        assert(w.subrange(1, k) =~= w.skip(1));
        assert(!redirect_at(p, i + k));
        assert(word_at(p, i + k) is None);
    }
}

/// Words that begin with no word of the grammar and no assignment are a command, up to what
/// joins commands: the first is its name, and the others are its arguments, in their order.
pub proof fn law_words_are_commands(p: Input, i: int, w: Seq<WordV>)
    requires
        calls(p, i, w),
    ensures
        command(p, i) == Ok::<(CommandV, int), ParseErrorV>(
            (call(w), i + w.len()),
        ),
{
    assert(kind_at(p, i + 0) == Some(TokenKindV::Word(w[0])));
    assert(!redirect_at(p, i));
    assert(w.subrange(1, 1) =~= Seq::<WordV>::empty());
    lemma_arguments(p, i, w, 1);
    if w.len() > 1 {
        assert(kind_at(p, i + 1) == Some(TokenKindV::Word(w[1])));
    }
    assert(!super::grammar::function_definition_at(p, i));
    assert(simple_command(p, i) is Ok);
}

proof fn lemma_alone(p: Input, i: int, w: Seq<WordV>)
    requires
        calls(p, i, w),
        !super::grammar::op_at(p, i + w.len(), Operator::Pipe),
    ensures
        pipeline(p, i) == Ok::<(Seq<CommandV>, int), ParseErrorV>(
            (seq![call(w)], i + w.len()),
        ),
{
    law_words_are_commands(p, i, w);
}

proof fn lemma_last(p: Input, i: int, w: Seq<WordV>, acc: ListV)
    requires
        calls(p, i, w),
        i + w.len() == p.tokens.len(),
    ensures
        items(p, i, false, acc) == Ok::<(ListV, int), ParseErrorV>(
            (acc.push(alone(w, Separator::End)), i + w.len()),
        ),
{
    let j = i + w.len();
    lemma_alone(p, i, w);
    assert(kind_at(p, j) is None);
    assert(and_or_rest(p, j, seq![call(w)], Seq::empty()) == Ok::<
        (AndOrV, int),
        ParseErrorV,
    >((alone(w, Separator::End).and_or, j)));
    assert(newlines_end(p, j) == j);
    assert(and_or(p, i) == Ok::<(AndOrV, int), ParseErrorV>(
        (alone(w, Separator::End).and_or, j),
    ));
    assert(kind_at(p, i + 0) == Some(TokenKindV::Word(w[0])));
    assert(super::grammar::separator(p, j) == (Separator::End, j));
    assert(i < p.tokens.len());
}

/// A command alone is a program.
pub proof fn law_one_command_is_a_program(p: Input, w: Seq<WordV>)
    requires
        calls(p, 0, w),
        p.tokens.len() == w.len(),
    ensures
        program(p) == Ok::<ListV, ParseErrorV>(seq![alone(w, Separator::End)]),
{
    assert(kind_at(p, 0int + 0) == Some(TokenKindV::Word(w[0])));
    lemma_last(p, 0, w, Seq::empty());
    assert(Seq::<ItemV>::empty().push(alone(w, Separator::End)) =~= seq![
        alone(w, Separator::End),
    ]);
}

/// `|` makes a pipeline of two commands, `&&` and `||` make a list in which the second
/// depends on the first, and `;`, `&` or a new line make two commands of their own, the first
/// of them in the background with `&`.
pub proof fn law_two_commands_are_joined(p: Input, u: Seq<WordV>, v: Seq<WordV>)
    requires
        calls(p, 0, u),
        calls(p, u.len() as int + 1, v),
        p.tokens.len() == u.len() + 1 + v.len(),
    ensures
        ({
            let none = Seq::<(LogicalOp, Seq<CommandV>)>::empty();
            let given = |list: ListV| program(p) == Ok::<ListV, ParseErrorV>(list);
            let one = |and_or: AndOrV| given(seq![ItemV { and_or, separator: Separator::End }]);
            let last = alone(v, Separator::End);
            match p.tokens[u.len() as int].kind {
                TokenKindV::Operator(Operator::Pipe) => one(
                    AndOrV { first: seq![call(u), call(v)], rest: none },
                ),
                TokenKindV::Operator(Operator::AndIf) => one(
                    AndOrV { first: seq![call(u)], rest: seq![(LogicalOp::And, seq![call(v)])] },
                ),
                TokenKindV::Operator(Operator::OrIf) => one(
                    AndOrV { first: seq![call(u)], rest: seq![(LogicalOp::Or, seq![call(v)])] },
                ),
                TokenKindV::Operator(Operator::Amp) => given(
                    seq![alone(u, Separator::Async), last],
                ),
                _ => given(seq![alone(u, Separator::Sequential), last]),
            }
        }),
{
    let i = u.len() as int;
    let k = i + 1;
    let n = k + v.len();
    let none = Seq::<(LogicalOp, Seq<CommandV>)>::empty();
    let start = Seq::<ItemV>::empty();
    assert(kind_at(p, 0int + 0) == Some(TokenKindV::Word(u[0])));
    assert(kind_at(p, k + 0) == Some(TokenKindV::Word(v[0])));
    assert(newlines_end(p, 0) == 0);
    assert(newlines_end(p, k) == k);
    assert(kind_at(p, n) is None);
    assert(newlines_end(p, n) == n);
    law_words_are_commands(p, 0, u);
    law_words_are_commands(p, k, v);
    lemma_alone(p, k, v);
    let kind = p.tokens[i].kind;
    assert(kind_at(p, i) == Some(kind));
    assert(joins(p, i));
    if kind == TokenKindV::Operator(Operator::Pipe) {
        let both = seq![call(u), call(v)];
        assert(seq![call(u)].push(call(v)) =~= both);
        assert(pipeline_rest(p, n, both) == Ok::<
            (Seq<CommandV>, int),
            ParseErrorV,
        >((both, n)));
        assert(pipeline(p, 0) == Ok::<(Seq<CommandV>, int), ParseErrorV>(
            (both, n),
        ));
        let a = AndOrV { first: both, rest: none };
        assert(and_or(p, 0) == Ok::<(AndOrV, int), ParseErrorV>((a, n)));
        let item = ItemV { and_or: a, separator: Separator::End };
        assert(start.push(item) =~= seq![item]);
    } else {
        lemma_alone(p, 0, u);
        if kind == TokenKindV::Operator(Operator::AndIf) || kind == TokenKindV::Operator(
            Operator::OrIf,
        ) {
            let op = if kind == TokenKindV::Operator(Operator::AndIf) {
                LogicalOp::And
            } else {
                LogicalOp::Or
            };
            let rest = seq![(op, seq![call(v)])];
            assert(none.push((op, seq![call(v)])) =~= rest);
            let a = AndOrV { first: seq![call(u)], rest };
            assert(and_or_rest(p, n, seq![call(u)], rest) == Ok::<
                (AndOrV, int),
                ParseErrorV,
            >((a, n)));
            assert(and_or(p, 0) == Ok::<(AndOrV, int), ParseErrorV>((a, n)));
            let item = ItemV { and_or: a, separator: Separator::End };
            assert(start.push(item) =~= seq![item]);
        } else {
            let separator = if kind == TokenKindV::Operator(Operator::Amp) {
                Separator::Async
            } else {
                Separator::Sequential
            };
            let first = alone(u, separator);
            assert(and_or(p, 0) == Ok::<(AndOrV, int), ParseErrorV>(
                (first.and_or, i),
            ));
            assert(start.push(first) =~= seq![first]);
            lemma_last(p, k, v, seq![first]);
            assert(seq![first].push(alone(v, Separator::End)) =~= seq![
                first,
                alone(v, Separator::End),
            ]);
            assert(super::grammar::separator(p, i) == (separator, k));
            assert(items(p, 0, false, start) == items(p, k, false, seq![first]));
        }
    }
}

} // verus!
