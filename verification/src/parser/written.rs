//! A program written down again.
//!
//! Newlines, `;`, parentheses and the word `function` only hold a program together; all
//! else of its tokens is in the tree that they are parsed into, in the same order. Where a
//! redirection stands among the words of its command does not matter: words and
//! redirections are written down apart.

use vstd::prelude::*;

use super::grammar::{
    and_or, and_or_rest, assignment_at, at_list_end, branch, case_arm, case_arms, case_clause,
    command, command_prefix, command_suffix, compound_at, compound_command, compound_list, do_group,
    else_part, expect_sequential_sep, for_clause, for_words, function_body, function_definition_at,
    function_with_keyword, function_without_keyword, if_clause, items, kind_at, left,
    lemma_newlines_end, logical_op_at, loop_parts, more_patterns, newline_at, newlines_end, onward,
    op_at, optional_sequential_sep, pipeline, pipeline_rest, plain_at, redirect, redirect_at,
    redirects, reserved, reserved_at, separator, simple_command, source, word_at, words, Input,
    ReservedWord,
};
use super::kept::{law_assignments_lose_nothing, written_assignment};
use crate::ast::{
    ArmV, AssignmentV, BranchV, CommandV, ItemV, KindV, ListV, LogicalOp, RedirectOperator,
    RedirectV, SimpleCommandV,
};
use crate::lexer::laws::literals_merged;
use crate::text::byte_len;
use crate::token::{plain_literal, Operator, TokenKindV, WordSegmentV, WordV};

verus! {

/// What is written: words and operators, and redirections, each in order.
#[verifier::ext_equal]
pub ghost struct WrittenV {
    pub words: Seq<TokenKindV>,
    pub redirects: Seq<RedirectV>,
}

/// Nothing.
pub open spec fn nothing() -> WrittenV {
    WrittenV { words: Seq::empty(), redirects: Seq::empty() }
}

/// One behind the other.
pub open spec fn plus(a: WrittenV, b: WrittenV) -> WrittenV {
    WrittenV { words: a.words + b.words, redirects: a.redirects + b.redirects }
}

/// A word; `function` counts for nothing.
pub open spec fn a_word(w: WordV) -> WrittenV {
    if w == seq![WordSegmentV::Literal("function"@)] {
        nothing()
    } else {
        WrittenV { words: seq![TokenKindV::Word(w)], redirects: Seq::empty() }
    }
}

/// An operator.
pub open spec fn an_operator(op: Operator) -> WrittenV {
    WrittenV { words: seq![TokenKindV::Operator(op)], redirects: Seq::empty() }
}

/// A plain word.
pub open spec fn plain(t: Seq<char>) -> WrittenV {
    a_word(seq![WordSegmentV::Literal(t)])
}

// ---- tokens -------------------------------------------------------------------------------------

/// The redirection that an operator writes.
pub open spec fn redirection(op: Operator) -> Option<RedirectOperator> {
    match op {
        Operator::Less => Some(RedirectOperator::Input),
        Operator::Great => Some(RedirectOperator::Output),
        Operator::DGreat => Some(RedirectOperator::Append),
        _ => None,
    }
}

/// Token `k` is the operator of a redirection.
pub open spec fn redirects_at(p: Input, k: int) -> bool {
    kind_at(p, k) matches Some(TokenKindV::Operator(op)) && redirection(op) is Some
}

/// What token `k` writes. The word behind the operator of a redirection, and the number in
/// front of it, belong to the redirection.
pub open spec fn token_written(p: Input, k: int) -> WrittenV {
    match kind_at(p, k) {
        Some(TokenKindV::Word(w)) => if redirects_at(p, k - 1) {
            nothing()
        } else {
            a_word(w)
        },
        Some(TokenKindV::Operator(op)) => match redirection(op) {
            Some(operator) => WrittenV {
                words: Seq::empty(),
                redirects: seq![
                    RedirectV {
                        fd: match kind_at(p, k - 1) {
                            Some(TokenKindV::IoNumber(n)) => Some(n),
                            _ => None,
                        },
                        operator,
                        target: match kind_at(p, k + 1) {
                            Some(TokenKindV::Word(w)) => w,
                            _ => Seq::empty(),
                        },
                    },
                ],
            },
            None => if op is Semi || op is LParen || op is RParen {
                nothing()
            } else {
                an_operator(op)
            },
        },
        _ => nothing(),
    }
}

/// What tokens `i` up to `j` write.
pub open spec fn tokens_written(p: Input, i: int, j: int) -> WrittenV
    decreases j - i,
{
    if j <= i {
        nothing()
    } else {
        plus(tokens_written(p, i, j - 1), token_written(p, j - 1))
    }
}

// ---- trees --------------------------------------------------------------------------------------

/// What a list writes.
pub open spec fn list_written(l: ListV) -> WrittenV
    decreases l,
{
    if l.len() == 0 {
        nothing()
    } else {
        let here = plus(
            pipeline_written(l.last().and_or.first),
            rest_written(l.last().and_or.rest),
        );
        plus(
            list_written(l.drop_last()),
            if l.last().separator is Async {
                plus(here, an_operator(Operator::Amp))
            } else {
                here
            },
        )
    }
}

/// What the pipelines behind the first of an and-or list write.
pub open spec fn rest_written(r: Seq<(LogicalOp, Seq<CommandV>)>) -> WrittenV
    decreases r,
{
    if r.len() == 0 {
        nothing()
    } else {
        plus(
            plus(
                rest_written(r.drop_last()),
                an_operator(
                    match r.last().0 {
                        LogicalOp::And => Operator::AndIf,
                        LogicalOp::Or => Operator::OrIf,
                    },
                ),
            ),
            pipeline_written(r.last().1),
        )
    }
}

/// What a pipeline writes.
pub open spec fn pipeline_written(c: Seq<CommandV>) -> WrittenV
    decreases c,
{
    if c.len() == 0 {
        nothing()
    } else if c.len() == 1 {
        command_written(c.last())
    } else {
        plus(
            plus(pipeline_written(c.drop_last()), an_operator(Operator::Pipe)),
            command_written(c.last()),
        )
    }
}

/// What words write.
pub open spec fn words_written(ws: Seq<WordV>) -> WrittenV
    decreases ws.len(),
{
    if ws.len() == 0 {
        nothing()
    } else {
        plus(words_written(ws.drop_last()), a_word(ws.last()))
    }
}

/// What assignments write.
pub open spec fn assignments_written(s: Seq<AssignmentV>) -> WrittenV
    decreases s.len(),
{
    if s.len() == 0 {
        nothing()
    } else {
        plus(assignments_written(s.drop_last()), a_word(written_assignment(s.last())))
    }
}

/// Redirections.
pub open spec fn only_redirects(r: Seq<RedirectV>) -> WrittenV {
    WrittenV { words: Seq::empty(), redirects: r }
}

/// What a simple command writes.
pub open spec fn simple_written(c: SimpleCommandV) -> WrittenV {
    let named = match c.name {
        Some(w) => plus(assignments_written(c.assignments), a_word(w)),
        None => assignments_written(c.assignments),
    };
    plus(plus(named, words_written(c.args)), only_redirects(c.redirects))
}

/// What a command writes.
pub open spec fn command_written(c: CommandV) -> WrittenV
    decreases c,
{
    match c {
        CommandV::Simple(s) => simple_written(s),
        CommandV::Compound(c) => plus(kind_written(c.kind), only_redirects(c.redirects)),
        CommandV::Function(f) => plus(
            plain(f.name),
            plus(kind_written(f.body.kind), only_redirects(f.body.redirects)),
        ),
    }
}

/// What a compound command writes.
pub open spec fn kind_written(k: KindV) -> WrittenV
    decreases k,
{
    match k {
        KindV::BraceGroup(l) => plus(plus(plain("{"@), list_written(l)), plain("}"@)),
        KindV::Subshell { body, source: _ } => list_written(body),
        KindV::For { name, words, body } => {
            let head = plus(plain("for"@), plain(name));
            let over = match words {
                Some(ws) => plus(plus(head, plain("in"@)), words_written(ws)),
                None => head,
            };
            plus(over, plus(plus(plain("do"@), list_written(body)), plain("done"@)))
        },
        KindV::Case { word, arms } => plus(
            plus(plus(plus(plain("case"@), a_word(word)), plain("in"@)), arms_written(arms)),
            plain("esac"@),
        ),
        KindV::If { branches, else_branch } => match else_branch {
            Some(l) => plus(
                plus(plus(branches_written(branches), plain("else"@)), list_written(l)),
                plain("fi"@),
            ),
            None => plus(branches_written(branches), plain("fi"@)),
        },
        KindV::While { condition, body } => plus(
            plain("while"@),
            plus(
                list_written(condition),
                plus(plus(plain("do"@), list_written(body)), plain("done"@)),
            ),
        ),
        KindV::Until { condition, body } => plus(
            plain("until"@),
            plus(
                list_written(condition),
                plus(plus(plain("do"@), list_written(body)), plain("done"@)),
            ),
        ),
    }
}

/// What the branches of an `if` write: `if` before the first one, `elif` before the others.
pub open spec fn branches_written(s: Seq<BranchV>) -> WrittenV
    decreases s,
{
    if s.len() == 0 {
        nothing()
    } else {
        plus(
            plus(
                branches_written(s.drop_last()),
                plain(
                    if s.len() == 1 {
                        "if"@
                    } else {
                        "elif"@
                    },
                ),
            ),
            plus(
                plus(list_written(s.last().condition), plain("then"@)),
                list_written(s.last().body),
            ),
        )
    }
}

/// What the patterns of an arm write.
pub open spec fn patterns_written(ws: Seq<WordV>) -> WrittenV
    decreases ws.len(),
{
    if ws.len() == 0 {
        nothing()
    } else if ws.len() == 1 {
        a_word(ws.last())
    } else {
        plus(
            plus(patterns_written(ws.drop_last()), an_operator(Operator::Pipe)),
            a_word(ws.last()),
        )
    }
}

/// What the arms of a `case` write.
pub open spec fn arms_written(s: Seq<ArmV>) -> WrittenV
    decreases s,
{
    if s.len() == 0 {
        nothing()
    } else {
        let here = plus(patterns_written(s.last().patterns), list_written(s.last().body));
        plus(
            arms_written(s.drop_last()),
            if s.last().terminator is Break {
                plus(here, an_operator(Operator::DSemi))
            } else {
                here
            },
        )
    }
}

// ---- stretches of tokens ------------------------------------------------------------------------

/// No redirection is left half read before token `i`.
pub open spec fn clean(p: Input, i: int) -> bool {
    0 <= i && !redirects_at(p, i - 1) && !(kind_at(p, i - 1) matches Some(TokenKindV::IoNumber(_)))
}

/// Tokens `i` up to `j` write `w`.
#[verifier::opaque]
pub open spec fn fits(p: Input, i: int, j: int, w: WrittenV) -> bool {
    0 <= i <= j && clean(p, i) && clean(p, j) && tokens_written(p, i, j) == w
}

proof fn lemma_none(p: Input, i: int)
    requires
        clean(p, i),
    ensures
        fits(p, i, i, nothing()),
{
    reveal(fits);
}

proof fn lemma_bounds(p: Input, i: int, j: int, w: WrittenV)
    requires
        fits(p, i, j, w),
    ensures
        0 <= i <= j,
        clean(p, i),
        clean(p, j),
{
    reveal(fits);
}

proof fn lemma_split(p: Input, i: int, j: int, k: int)
    requires
        i <= j <= k,
    ensures
        tokens_written(p, i, k) == plus(tokens_written(p, i, j), tokens_written(p, j, k)),
    decreases k - j,
{
    if j < k {
        lemma_split(p, i, j, k - 1);
        let (a, b, c) = (
            tokens_written(p, i, j),
            tokens_written(p, j, k - 1),
            token_written(p, k - 1),
        );
        assert(plus(plus(a, b), c) =~= plus(a, plus(b, c)));
    } else {
        let a = tokens_written(p, i, j);
        assert(plus(a, nothing()) =~= a);
    }
}

proof fn lemma_join(p: Input, i: int, j: int, k: int, a: WrittenV, b: WrittenV)
    requires
        fits(p, i, j, a),
        fits(p, j, k, b),
    ensures
        fits(p, i, k, plus(a, b)),
{
    reveal(fits);
    lemma_split(p, i, j, k);
}

/// A stretch with one behind it that writes nothing.
proof fn lemma_join_none(p: Input, i: int, j: int, k: int, a: WrittenV)
    requires
        fits(p, i, j, a),
        fits(p, j, k, nothing()),
    ensures
        fits(p, i, k, a),
{
    lemma_join(p, i, j, k, a, nothing());
    assert(plus(a, nothing()) =~= a);
}

/// A stretch with one before it that writes nothing.
proof fn lemma_none_join(p: Input, i: int, j: int, k: int, a: WrittenV)
    requires
        fits(p, i, j, nothing()),
        fits(p, j, k, a),
    ensures
        fits(p, i, k, a),
{
    lemma_join(p, i, j, k, nothing(), a);
    assert(plus(nothing(), a) =~= a);
}

proof fn lemma_one(p: Input, i: int)
    requires
        clean(p, i),
        clean(p, i + 1),
    ensures
        fits(p, i, i + 1, token_written(p, i)),
{
    reveal(fits);
    reveal_with_fuel(tokens_written, 2);
    assert(plus(nothing(), token_written(p, i)) =~= token_written(p, i));
}

proof fn lemma_word(p: Input, i: int, w: WordV)
    requires
        clean(p, i),
        word_at(p, i) == Some(w),
    ensures
        fits(p, i, i + 1, a_word(w)),
{
    lemma_one(p, i);
}

proof fn lemma_op(p: Input, i: int, op: Operator)
    requires
        clean(p, i),
        op_at(p, i, op),
        redirection(op) is None,
    ensures
        fits(
            p,
            i,
            i + 1,
            if op is Semi || op is LParen || op is RParen {
                nothing()
            } else {
                an_operator(op)
            },
        ),
{
    lemma_one(p, i);
}

proof fn lemma_newlines(p: Input, i: int)
    requires
        clean(p, i),
    ensures
        fits(p, i, newlines_end(p, i), nothing()),
    decreases left(p, i),
{
    if newline_at(p, i) {
        lemma_one(p, i);
        lemma_newlines(p, i + 1);
        lemma_join_none(p, i, i + 1, newlines_end(p, i), nothing());
    } else {
        lemma_none(p, i);
    }
}

/// How a reserved word is written.
pub open spec fn keyword(r: ReservedWord) -> Seq<char> {
    match r {
        ReservedWord::If => "if"@,
        ReservedWord::Then => "then"@,
        ReservedWord::Elif => "elif"@,
        ReservedWord::Else => "else"@,
        ReservedWord::Fi => "fi"@,
        ReservedWord::For => "for"@,
        ReservedWord::While => "while"@,
        ReservedWord::Until => "until"@,
        ReservedWord::Do => "do"@,
        ReservedWord::Done => "done"@,
        ReservedWord::Case => "case"@,
        ReservedWord::Esac => "esac"@,
        ReservedWord::In => "in"@,
        ReservedWord::LBrace => "{"@,
        ReservedWord::RBrace => "}"@,
        ReservedWord::Function => "function"@,
    }
}

proof fn lemma_plain_word(p: Input, i: int, t: Seq<char>)
    requires
        clean(p, i),
        plain_at(p, i) == Some(t),
    ensures
        fits(p, i, i + 1, plain(t)),
{
    let w = word_at(p, i)->0;
    assert(plain_literal(w) == Some(t));
    assert(w =~= seq![WordSegmentV::Literal(t)]);
    lemma_word(p, i, w);
}

proof fn lemma_keyword(p: Input, i: int, r: ReservedWord)
    requires
        clean(p, i),
        reserved_at(p, i) == Some(r),
    ensures
        fits(p, i, i + 1, plain(keyword(r))),
{
    let w = word_at(p, i)->0;
    assert(plain_at(p, i) == plain_literal(w));
    assert(plain_literal(w) == Some(keyword(r))) by {
        reveal(reserved);
    }
    lemma_plain_word(p, i, keyword(r));
}

// ---- simple commands ----------------------------------------------------------------------------

/// What a stretch writes, with redirections apart.
proof fn lemma_redirect(p: Input, i: int)
    requires
        clean(p, i),
    ensures
        redirect(p, i) matches Ok((r, j)) ==> i < j && fits(p, i, j, only_redirects(seq![r])),
{
    if let Ok((r, j)) = redirect(p, i) {
        reveal(fits);
        reveal_with_fuel(tokens_written, 4);
        let k = j - 2;
        assert(redirects_at(p, k));
        assert(token_written(p, k) == only_redirects(seq![r]));
        assert(token_written(p, k + 1) == nothing());
        if k > i {
            assert(token_written(p, i) == nothing());
        }
        assert(tokens_written(p, i, j) =~= only_redirects(seq![r]));
    }
}

proof fn lemma_redirects(p: Input, s: int, i: int, acc: Seq<RedirectV>)
    requires
        fits(p, s, i, only_redirects(acc)),
    ensures
        redirects(p, i, acc) matches Ok((out, j)) ==> i <= j && fits(p, s, j, only_redirects(out)),
    decreases left(p, i),
{
    lemma_bounds(p, s, i, only_redirects(acc));
    if redirect_at(p, i) {
        lemma_redirect(p, i);
        if let Ok((r, j)) = redirect(p, i) {
            lemma_join(p, s, i, j, only_redirects(acc), only_redirects(seq![r]));
            assert(plus(only_redirects(acc), only_redirects(seq![r])) =~= only_redirects(
                acc.push(r),
            ));
            lemma_redirects(p, s, j, acc.push(r));
        }
    }
}

proof fn lemma_words_alone(ws: Seq<WordV>)
    ensures
        words_written(ws).redirects.len() == 0,
    decreases ws.len(),
{
    if ws.len() > 0 {
        lemma_words_alone(ws.drop_last());
    }
}

proof fn lemma_assignments_alone(s: Seq<AssignmentV>)
    ensures
        assignments_written(s).redirects.len() == 0,
    decreases s.len(),
{
    if s.len() > 0 {
        lemma_assignments_alone(s.drop_last());
    }
}

/// Every word of the input is as the lexer makes it.
pub open spec fn words_are_merged(p: Input) -> bool {
    forall|k: int|
        0 <= k < p.tokens.len() ==> ((#[trigger] p.tokens[k]).kind matches TokenKindV::Word(w)
            ==> literals_merged(w))
}

proof fn lemma_prefix(
    p: Input,
    s: int,
    i: int,
    assignments: Seq<AssignmentV>,
    rs: Seq<RedirectV>,
)
    requires
        words_are_merged(p),
        fits(p, s, i, plus(assignments_written(assignments), only_redirects(rs))),
    ensures
        command_prefix(p, i, assignments, rs) matches Ok((parts, j)) ==> i <= j && fits(
            p,
            s,
            j,
            plus(assignments_written(parts.0), only_redirects(parts.1)),
        ) && !redirect_at(p, j),
    decreases left(p, i),
{
    let before = plus(assignments_written(assignments), only_redirects(rs));
    lemma_bounds(p, s, i, before);
    lemma_assignments_alone(assignments);
    if redirect_at(p, i) {
        lemma_redirect(p, i);
        if let Ok((r, j)) = redirect(p, i) {
            lemma_join(p, s, i, j, before, only_redirects(seq![r]));
            assert(plus(before, only_redirects(seq![r])) =~= plus(
                assignments_written(assignments),
                only_redirects(rs.push(r)),
            ));
            lemma_prefix(p, s, j, assignments, rs.push(r));
        }
    } else if let Some(a) = assignment_at(p, i) {
        let w = word_at(p, i)->0;
        assert(p.tokens[i].kind == TokenKindV::Word(w));
        law_assignments_lose_nothing(w);
        lemma_word(p, i, w);
        lemma_join(p, s, i, i + 1, before, a_word(w));
        let more = assignments.push(a);
        assert(more.drop_last() =~= assignments);
        assert(plus(before, a_word(w)) =~= plus(assignments_written(more), only_redirects(rs)));
        lemma_prefix(p, s, i + 1, more, rs);
    }
}

proof fn lemma_suffix(
    p: Input,
    s: int,
    i: int,
    front: WrittenV,
    args: Seq<WordV>,
    rs: Seq<RedirectV>,
)
    requires
        front.redirects.len() == 0,
        fits(p, s, i, plus(plus(front, words_written(args)), only_redirects(rs))),
    ensures
        command_suffix(p, i, args, rs) matches Ok((parts, j)) ==> i <= j && fits(
            p,
            s,
            j,
            plus(plus(front, words_written(parts.0)), only_redirects(parts.1)),
        ),
    decreases left(p, i),
{
    let before = plus(plus(front, words_written(args)), only_redirects(rs));
    lemma_bounds(p, s, i, before);
    lemma_words_alone(args);
    if redirect_at(p, i) {
        lemma_redirect(p, i);
        if let Ok((r, j)) = redirect(p, i) {
            lemma_join(p, s, i, j, before, only_redirects(seq![r]));
            assert(plus(before, only_redirects(seq![r])) =~= plus(
                plus(front, words_written(args)),
                only_redirects(rs.push(r)),
            ));
            lemma_suffix(p, s, j, front, args, rs.push(r));
        }
    } else if let Some(w) = word_at(p, i) {
        lemma_word(p, i, w);
        lemma_join(p, s, i, i + 1, before, a_word(w));
        let more = args.push(w);
        assert(more.drop_last() =~= args);
        assert(plus(before, a_word(w)) =~= plus(
            plus(front, words_written(more)),
            only_redirects(rs),
        ));
        lemma_suffix(p, s, i + 1, front, more, rs);
    }
}

proof fn lemma_simple(p: Input, i: int)
    requires
        words_are_merged(p),
        clean(p, i),
    ensures
        simple_command(p, i) matches Ok((c, j)) ==> fits(p, i, j, simple_written(c)),
{
    lemma_none(p, i);
    assert(plus(nothing(), only_redirects(Seq::empty())) =~= nothing());
    lemma_prefix(p, i, i, Seq::empty(), Seq::empty());
    if let Ok(((assignments, before), j)) = command_prefix(p, i, Seq::empty(), Seq::empty()) {
        let a = assignments_written(assignments);
        let first = plus(a, only_redirects(before));
        lemma_assignments_alone(assignments);
        lemma_bounds(p, i, j, first);
        match word_at(p, j) {
            Some(w) => {
                lemma_word(p, j, w);
                lemma_join(p, i, j, j + 1, first, a_word(w));
                let front = plus(a, a_word(w));
                assert(plus(first, a_word(w)) =~= plus(
                    plus(front, words_written(Seq::empty())),
                    only_redirects(before),
                ));
                lemma_suffix(p, i, j + 1, front, Seq::empty(), before);
            },
            None => {
                assert(first =~= plus(
                    plus(a, words_written(Seq::empty())),
                    only_redirects(before),
                ));
                lemma_suffix(p, i, j, a, Seq::empty(), before);
            },
        }
    }
}

proof fn lemma_words(p: Input, s: int, i: int, front: WrittenV, acc: Seq<WordV>)
    requires
        fits(p, s, i, plus(front, words_written(acc))),
    ensures
        ({
            let (out, j) = words(p, i, acc);
            i <= j && fits(p, s, j, plus(front, words_written(out)))
        }),
    decreases left(p, i),
{
    let before = plus(front, words_written(acc));
    lemma_bounds(p, s, i, before);
    if let Some(w) = word_at(p, i) {
        lemma_word(p, i, w);
        lemma_join(p, s, i, i + 1, before, a_word(w));
        let more = acc.push(w);
        assert(more.drop_last() =~= acc);
        assert(plus(before, a_word(w)) =~= plus(front, words_written(more)));
        lemma_words(p, s, i + 1, front, more);
    }
}

proof fn lemma_patterns(p: Input, s: int, i: int, acc: Seq<WordV>)
    requires
        acc.len() > 0,
        fits(p, s, i, patterns_written(acc)),
    ensures
        more_patterns(p, i, acc) matches Ok((out, j)) ==> i <= j && fits(
            p,
            s,
            j,
            patterns_written(out),
        ),
    decreases left(p, i),
{
    let before = patterns_written(acc);
    lemma_bounds(p, s, i, before);
    if op_at(p, i, Operator::Pipe) {
        if let Some(w) = word_at(p, i + 1) {
            lemma_op(p, i, Operator::Pipe);
            lemma_join(p, s, i, i + 1, before, an_operator(Operator::Pipe));
            lemma_word(p, i + 1, w);
            lemma_join(
                p,
                s,
                i + 1,
                i + 2,
                plus(before, an_operator(Operator::Pipe)),
                a_word(w),
            );
            let more = acc.push(w);
            assert(more.drop_last() =~= acc);
            lemma_patterns(p, s, i + 2, more);
        }
    }
}

// ---- lists --------------------------------------------------------------------------------------

#[verifier::spinoff_prover]
proof fn lemma_items(p: Input, s: int, i: int, inner: bool, acc: ListV)
    requires
        words_are_merged(p),
        fits(p, s, i, list_written(acc)),
    ensures
        items(p, i, inner, acc) matches Ok((l, j)) ==> i <= j && fits(p, s, j, list_written(l)),
    decreases left(p, i), 5nat,
{
    lemma_bounds(p, s, i, list_written(acc));
    if !(i >= p.tokens.len() || (inner && at_list_end(p, i))) {
        lemma_and_or(p, i);
        if let Ok((a, j)) = and_or(p, i) {
            let here = plus(pipeline_written(a.first), rest_written(a.rest));
            lemma_bounds(p, i, j, here);
            lemma_item(p, s, i, j, acc, a);
            let (sep, k) = separator(p, j);
            let more = acc.push(ItemV { and_or: a, separator: sep });
            lemma_bounds(p, s, k, list_written(more));
            if !(sep is End) {
                lemma_items(p, s, onward(i + 1, k), inner, more);
            }
        }
    }
}

#[verifier::spinoff_prover]
proof fn lemma_item(p: Input, s: int, i: int, j: int, acc: ListV, a: crate::ast::AndOrV)
    requires
        fits(p, s, i, list_written(acc)),
        fits(p, i, j, plus(pipeline_written(a.first), rest_written(a.rest))),
    ensures
        ({
            let (sep, k) = separator(p, j);
            j <= k && (!(sep is End) ==> j < k) && fits(
                p,
                s,
                k,
                list_written(acc.push(ItemV { and_or: a, separator: sep })),
            )
        }),
{
    let here = plus(pipeline_written(a.first), rest_written(a.rest));
    let (sep, k) = separator(p, j);
    let more = acc.push(ItemV { and_or: a, separator: sep });
    assert(more.drop_last() =~= acc);
    lemma_bounds(p, i, j, here);
    lemma_newlines_end(p, j);
    lemma_newlines_end(p, j + 1);
    if op_at(p, j, Operator::Amp) {
        lemma_op(p, j, Operator::Amp);
        lemma_join(p, i, j, j + 1, here, an_operator(Operator::Amp));
        let amp = plus(here, an_operator(Operator::Amp));
        lemma_newlines(p, j + 1);
        lemma_join_none(p, i, j + 1, k, amp);
        lemma_join(p, s, i, k, list_written(acc), amp);
    } else if op_at(p, j, Operator::Semi) {
        lemma_op(p, j, Operator::Semi);
        lemma_newlines(p, j + 1);
        lemma_join_none(p, i, j, j + 1, here);
        lemma_join_none(p, i, j + 1, k, here);
        lemma_join(p, s, i, k, list_written(acc), here);
    } else {
        lemma_newlines(p, j);
        lemma_join_none(p, i, j, newlines_end(p, j), here);
        assert(newlines_end(p, j) == k);
        lemma_join(p, s, i, k, list_written(acc), here);
    }
}

#[verifier::spinoff_prover]
proof fn lemma_compound_list(p: Input, i: int)
    requires
        words_are_merged(p),
        clean(p, i),
    ensures
        compound_list(p, i) matches Ok((l, j)) ==> i <= j && fits(p, i, j, list_written(l)),
    decreases left(p, i), 6nat,
{
    lemma_newlines_end(p, i);
    lemma_newlines(p, i);
    lemma_items(p, i, newlines_end(p, i), true, Seq::empty());
}

#[verifier::spinoff_prover]
proof fn lemma_and_or(p: Input, i: int)
    requires
        words_are_merged(p),
        clean(p, i),
    ensures
        and_or(p, i) matches Ok((a, j)) ==> i <= j && fits(
            p,
            i,
            j,
            plus(pipeline_written(a.first), rest_written(a.rest)),
        ),
    decreases left(p, i), 4nat,
{
    lemma_pipeline(p, i);
    if let Ok((first, j)) = pipeline(p, i) {
        assert(plus(pipeline_written(first), nothing()) =~= pipeline_written(first));
        lemma_bounds(p, i, j, pipeline_written(first));
        lemma_and_or_rest(p, i, onward(i, j), first, Seq::empty());
    }
}

#[verifier::spinoff_prover]
proof fn lemma_regroup(a: WrittenV, b: WrittenV, c: WrittenV, d: WrittenV)
    ensures
        plus(plus(a, b), plus(c, d)) == plus(a, plus(plus(b, c), d)),
{
    assert(plus(plus(a, b), plus(c, d)) =~= plus(a, plus(plus(b, c), d)));
}

#[verifier::spinoff_prover]
proof fn lemma_and_or_rest(
    p: Input,
    s: int,
    i: int,
    first: Seq<CommandV>,
    acc: Seq<(LogicalOp, Seq<CommandV>)>,
)
    requires
        words_are_merged(p),
        fits(p, s, i, plus(pipeline_written(first), rest_written(acc))),
    ensures
        and_or_rest(p, i, first, acc) matches Ok((a, j)) ==> i <= j && fits(
            p,
            s,
            j,
            plus(pipeline_written(a.first), rest_written(a.rest)),
        ),
    decreases left(p, i), 0nat,
{
    let before = plus(pipeline_written(first), rest_written(acc));
    lemma_bounds(p, s, i, before);
    lemma_newlines_end(p, i + 1);
    if let Some(op) = logical_op_at(p, i) {
        let k = newlines_end(p, i + 1);
        let sign = if op is And {
            Operator::AndIf
        } else {
            Operator::OrIf
        };
        lemma_op(p, i, sign);
        lemma_newlines(p, i + 1);
        lemma_join_none(p, i, i + 1, k, an_operator(sign));
        lemma_bounds(p, i, k, an_operator(sign));
        lemma_pipeline(p, k);
        if let Ok((next, j)) = pipeline(p, k) {
            let more = acc.push((op, next));
            assert(more.drop_last() =~= acc);
            lemma_bounds(p, k, j, pipeline_written(next));
            lemma_join(p, i, k, j, an_operator(sign), pipeline_written(next));
            lemma_join(
                p,
                s,
                i,
                j,
                before,
                plus(an_operator(sign), pipeline_written(next)),
            );
            lemma_regroup(
                pipeline_written(first),
                rest_written(acc),
                an_operator(sign),
                pipeline_written(next),
            );
            assert(rest_written(more) == plus(
                plus(rest_written(acc), an_operator(sign)),
                pipeline_written(next),
            ));
            lemma_and_or_rest(p, s, onward(k, j), first, more);
        }
    }
}

#[verifier::spinoff_prover]
proof fn lemma_pipeline(p: Input, i: int)
    requires
        words_are_merged(p),
        clean(p, i),
    ensures
        pipeline(p, i) matches Ok((c, j)) ==> i <= j && fits(p, i, j, pipeline_written(c)),
    decreases left(p, i), 3nat,
{
    lemma_command(p, i);
    if let Ok((c, j)) = command(p, i) {
        lemma_bounds(p, i, j, command_written(c));
        assert(pipeline_written(seq![c]) == command_written(c));
        lemma_pipeline_rest(p, i, onward(i, j), seq![c]);
    }
}

#[verifier::spinoff_prover]
proof fn lemma_pipeline_rest(p: Input, s: int, i: int, acc: Seq<CommandV>)
    requires
        words_are_merged(p),
        acc.len() > 0,
        fits(p, s, i, pipeline_written(acc)),
    ensures
        pipeline_rest(p, i, acc) matches Ok((c, j)) ==> i <= j && fits(
            p,
            s,
            j,
            pipeline_written(c),
        ),
    decreases left(p, i), 0nat,
{
    let before = pipeline_written(acc);
    lemma_bounds(p, s, i, before);
    lemma_newlines_end(p, i + 1);
    if op_at(p, i, Operator::Pipe) {
        let k = newlines_end(p, i + 1);
        let pipe = an_operator(Operator::Pipe);
        lemma_op(p, i, Operator::Pipe);
        lemma_newlines(p, i + 1);
        lemma_join_none(p, i, i + 1, k, pipe);
        lemma_bounds(p, i, k, pipe);
        lemma_join(p, s, i, k, before, pipe);
        lemma_command(p, k);
        if let Ok((c, j)) = command(p, k) {
            let more = acc.push(c);
            assert(more.drop_last() =~= acc);
            lemma_bounds(p, k, j, command_written(c));
            lemma_join(p, s, k, j, plus(before, pipe), command_written(c));
            lemma_pipeline_rest(p, s, onward(k, j), more);
        }
    }
}

// ---- commands -----------------------------------------------------------------------------------

#[verifier::spinoff_prover]
proof fn lemma_command(p: Input, i: int)
    requires
        words_are_merged(p),
        clean(p, i),
    ensures
        command(p, i) matches Ok((c, j)) ==> fits(p, i, j, command_written(c)),
    decreases left(p, i), 2nat,
{
    if reserved_at(p, i) == Some(ReservedWord::Function) {
        lemma_function_with_keyword(p, i);
    } else if function_definition_at(p, i) {
        lemma_function_without_keyword(p, i);
    } else if compound_at(p, i) {
        lemma_compound_command(p, i);
    } else {
        lemma_simple(p, i);
    }
}

#[verifier::spinoff_prover]
proof fn lemma_function_without_keyword(p: Input, i: int)
    requires
        words_are_merged(p),
        clean(p, i),
        function_definition_at(p, i),
    ensures
        function_without_keyword(p, i) matches Ok((f, j)) ==> fits(
            p,
            i,
            j,
            command_written(CommandV::Function(f)),
        ),
    decreases left(p, i), 1nat,
{
    lemma_newlines_end(p, i + 3);
    let k = newlines_end(p, i + 3);
    if let Some(name) = plain_at(p, i) {
        lemma_plain_word(p, i, name);
        lemma_op(p, i + 1, Operator::LParen);
        lemma_op(p, i + 2, Operator::RParen);
        lemma_newlines(p, i + 3);
        lemma_join_none(p, i, i + 1, i + 2, plain(name));
        lemma_join_none(p, i, i + 2, i + 3, plain(name));
        lemma_join_none(p, i, i + 3, k, plain(name));
        lemma_bounds(p, i, k, plain(name));
        lemma_function_body(p, k);
        if let Ok((body, j)) = function_body(p, k) {
            lemma_join(
                p,
                i,
                k,
                j,
                plain(name),
                plus(kind_written(body.kind), only_redirects(body.redirects)),
            );
        }
    }
}

#[verifier::spinoff_prover]
proof fn lemma_function_with_keyword(p: Input, i: int)
    requires
        words_are_merged(p),
        clean(p, i),
        reserved_at(p, i) == Some(ReservedWord::Function),
    ensures
        function_with_keyword(p, i) matches Ok((f, j)) ==> fits(
            p,
            i,
            j,
            command_written(CommandV::Function(f)),
        ),
    decreases left(p, i), 1nat,
{
    lemma_newlines_end(p, i + 2);
    lemma_newlines_end(p, i + 4);
    lemma_keyword(p, i, ReservedWord::Function);
    assert(plain("function"@) == nothing());
    if let Some(name) = plain_at(p, i + 1) {
        lemma_plain_word(p, i + 1, name);
        lemma_none_join(p, i, i + 1, i + 2, plain(name));
        let open = op_at(p, i + 2, Operator::LParen);
        if open && op_at(p, i + 3, Operator::RParen) {
            lemma_op(p, i + 2, Operator::LParen);
            lemma_op(p, i + 3, Operator::RParen);
            lemma_join_none(p, i, i + 2, i + 3, plain(name));
            lemma_join_none(p, i, i + 3, i + 4, plain(name));
            lemma_newlines(p, i + 4);
            lemma_join_none(p, i, i + 4, newlines_end(p, i + 4), plain(name));
        }
        if !open {
            lemma_newlines(p, i + 2);
            lemma_join_none(p, i, i + 2, newlines_end(p, i + 2), plain(name));
        }
        if !open || op_at(p, i + 3, Operator::RParen) {
            let k = if open {
                newlines_end(p, i + 4)
            } else {
                newlines_end(p, i + 2)
            };
            lemma_bounds(p, i, k, plain(name));
            lemma_function_body(p, k);
            if let Ok((body, j)) = function_body(p, k) {
                lemma_join(
                    p,
                    i,
                    k,
                    j,
                    plain(name),
                    plus(kind_written(body.kind), only_redirects(body.redirects)),
                );
            }
        }
    }
}

#[verifier::spinoff_prover]
proof fn lemma_function_body(p: Input, i: int)
    requires
        words_are_merged(p),
        clean(p, i),
    ensures
        function_body(p, i) matches Ok((c, j)) ==> fits(
            p,
            i,
            j,
            plus(kind_written(c.kind), only_redirects(c.redirects)),
        ),
    decreases left(p, i), 2nat,
{
    if compound_at(p, i) {
        lemma_compound_command(p, i);
    }
}

#[verifier::spinoff_prover]
proof fn lemma_compound_command(p: Input, i: int)
    requires
        words_are_merged(p),
        clean(p, i),
        compound_at(p, i),
    ensures
        compound_command(p, i) matches Ok((c, j)) ==> fits(
            p,
            i,
            j,
            plus(kind_written(c.kind), only_redirects(c.redirects)),
        ),
    decreases left(p, i), 1nat,
{
    if op_at(p, i, Operator::LParen) {
        lemma_subshell(p, i);
    } else {
        match reserved_at(p, i) {
            Some(ReservedWord::LBrace) => {
                lemma_brace_group(p, i);
            },
            Some(ReservedWord::If) => {
                lemma_if_clause(p, i);
            },
            Some(ReservedWord::For) => {
                lemma_for_clause(p, i);
            },
            Some(ReservedWord::While) => {
                lemma_keyword(p, i, ReservedWord::While);
                lemma_loop_parts(p, i + 1);
                if let Ok(((c, b), j)) = loop_parts(p, i + 1) {
                    lemma_join(p, i, i + 1, j, plain("while"@), loop_written(c, b));
                }
            },
            Some(ReservedWord::Until) => {
                lemma_keyword(p, i, ReservedWord::Until);
                lemma_loop_parts(p, i + 1);
                if let Ok(((c, b), j)) = loop_parts(p, i + 1) {
                    lemma_join(p, i, i + 1, j, plain("until"@), loop_written(c, b));
                }
            },
            _ => {
                lemma_case_clause(p, i);
            },
        }
    }
    if let Ok((c, k)) = compound_command(p, i) {
        let j = kind_end(p, i);
        lemma_bounds(p, i, j, kind_written(c.kind));
        lemma_none(p, j);
        lemma_redirects(p, j, j, Seq::empty());
        lemma_join(p, i, j, k, kind_written(c.kind), only_redirects(c.redirects));
    }
}

/// Where the compound command at `i` ends, before its redirections.
spec fn kind_end(p: Input, i: int) -> int {
    let kind = if op_at(p, i, Operator::LParen) {
        super::grammar::subshell(p, i)
    } else {
        match reserved_at(p, i) {
            Some(ReservedWord::LBrace) => super::grammar::brace_group(p, i),
            Some(ReservedWord::If) => if_clause(p, i),
            Some(ReservedWord::For) => for_clause(p, i),
            Some(ReservedWord::While) => super::grammar::while_clause(p, i),
            Some(ReservedWord::Until) => super::grammar::until_clause(p, i),
            _ => case_clause(p, i),
        }
    };
    kind->Ok_0.1
}

/// What the parts of a loop write.
spec fn loop_written(condition: ListV, body: ListV) -> WrittenV {
    plus(
        list_written(condition),
        plus(plus(plain("do"@), list_written(body)), plain("done"@)),
    )
}

#[verifier::spinoff_prover]
proof fn lemma_subshell(p: Input, i: int)
    requires
        words_are_merged(p),
        clean(p, i),
        op_at(p, i, Operator::LParen),
    ensures
        super::grammar::subshell(p, i) matches Ok((k, j)) ==> fits(p, i, j, kind_written(k)),
    decreases left(p, i), 0nat,
{
    lemma_op(p, i, Operator::LParen);
    lemma_compound_list(p, i + 1);
    if let Ok((body, j)) = compound_list(p, i + 1) {
        lemma_none_join(p, i, i + 1, j, list_written(body));
        lemma_bounds(p, i, j, list_written(body));
        if op_at(p, j, Operator::RParen) {
            lemma_op(p, j, Operator::RParen);
            lemma_join_none(p, i, j, j + 1, list_written(body));
        }
    }
}

#[verifier::spinoff_prover]
proof fn lemma_brace_group(p: Input, i: int)
    requires
        words_are_merged(p),
        clean(p, i),
        reserved_at(p, i) == Some(ReservedWord::LBrace),
    ensures
        super::grammar::brace_group(p, i) matches Ok((k, j)) ==> fits(p, i, j, kind_written(k)),
    decreases left(p, i), 0nat,
{
    lemma_keyword(p, i, ReservedWord::LBrace);
    lemma_compound_list(p, i + 1);
    if let Ok((body, j)) = compound_list(p, i + 1) {
        lemma_join(p, i, i + 1, j, plain("{"@), list_written(body));
        lemma_bounds(p, i + 1, j, list_written(body));
        if reserved_at(p, j) == Some(ReservedWord::RBrace) {
            lemma_keyword(p, j, ReservedWord::RBrace);
            lemma_join(p, i, j, j + 1, plus(plain("{"@), list_written(body)), plain("}"@));
        }
    }
}

/// What a branch writes behind its `if` or `elif`.
spec fn branch_written(b: BranchV) -> WrittenV {
    plus(plus(list_written(b.condition), plain("then"@)), list_written(b.body))
}

#[verifier::spinoff_prover]
proof fn lemma_branch(p: Input, i: int)
    requires
        words_are_merged(p),
        clean(p, i),
    ensures
        branch(p, i) matches Ok((b, j)) ==> fits(p, i, j, branch_written(b)),
    decreases left(p, i), 7nat,
{
    lemma_compound_list(p, i);
    if let Ok((condition, j)) = compound_list(p, i) {
        lemma_bounds(p, i, j, list_written(condition));
        if reserved_at(p, j) == Some(ReservedWord::Then) {
            lemma_keyword(p, j, ReservedWord::Then);
            lemma_join(p, i, j, j + 1, list_written(condition), plain("then"@));
            lemma_compound_list(p, onward(i, j + 1));
            if let Ok((body, m)) = compound_list(p, j + 1) {
                lemma_join(
                    p,
                    i,
                    j + 1,
                    m,
                    plus(list_written(condition), plain("then"@)),
                    list_written(body),
                );
            }
        }
    }
}

#[verifier::spinoff_prover]
proof fn lemma_else_part(p: Input, s: int, i: int, branches: Seq<BranchV>)
    requires
        words_are_merged(p),
        branches.len() > 0,
        fits(p, s, i, branches_written(branches)),
    ensures
        else_part(p, i, branches) matches Ok((k, j)) ==> fits(p, s, j, kind_written(k)),
    decreases left(p, i), 0nat,
{
    let before = branches_written(branches);
    lemma_bounds(p, s, i, before);
    match reserved_at(p, i) {
        Some(ReservedWord::Elif) => {
            lemma_keyword(p, i, ReservedWord::Elif);
            lemma_join(p, s, i, i + 1, before, plain("elif"@));
            lemma_branch(p, i + 1);
            if let Ok((b, j)) = branch(p, i + 1) {
                let more = branches.push(b);
                assert(more.drop_last() =~= branches);
                lemma_bounds(p, i + 1, j, branch_written(b));
                lemma_join(p, s, i + 1, j, plus(before, plain("elif"@)), branch_written(b));
                lemma_else_part(p, s, onward(i + 1, j), more);
            }
        },
        Some(ReservedWord::Else) => {
            lemma_keyword(p, i, ReservedWord::Else);
            lemma_join(p, s, i, i + 1, before, plain("else"@));
            lemma_compound_list(p, i + 1);
            if let Ok((l, j)) = compound_list(p, i + 1) {
                lemma_join(p, s, i + 1, j, plus(before, plain("else"@)), list_written(l));
                lemma_bounds(p, i + 1, j, list_written(l));
                if reserved_at(p, j) == Some(ReservedWord::Fi) {
                    lemma_keyword(p, j, ReservedWord::Fi);
                    lemma_join(
                        p,
                        s,
                        j,
                        j + 1,
                        plus(plus(before, plain("else"@)), list_written(l)),
                        plain("fi"@),
                    );
                }
            }
        },
        _ => {
            if reserved_at(p, i) == Some(ReservedWord::Fi) {
                lemma_keyword(p, i, ReservedWord::Fi);
                lemma_join(p, s, i, i + 1, before, plain("fi"@));
            }
        },
    }
}

#[verifier::spinoff_prover]
proof fn lemma_if_clause(p: Input, i: int)
    requires
        words_are_merged(p),
        clean(p, i),
        reserved_at(p, i) == Some(ReservedWord::If),
    ensures
        if_clause(p, i) matches Ok((k, j)) ==> fits(p, i, j, kind_written(k)),
    decreases left(p, i), 0nat,
{
    lemma_keyword(p, i, ReservedWord::If);
    lemma_branch(p, i + 1);
    if let Ok((b, j)) = branch(p, i + 1) {
        let one = seq![b];
        assert(one.drop_last() =~= Seq::empty());
        lemma_bounds(p, i + 1, j, branch_written(b));
        lemma_join(p, i, i + 1, j, plain("if"@), branch_written(b));
        assert(branches_written(Seq::empty()) == nothing());
        assert(plus(nothing(), plain("if"@)) =~= plain("if"@));
        assert(branches_written(one) == plus(plain("if"@), branch_written(b)));
        lemma_else_part(p, i, onward(i + 1, j), one);
    }
}

#[verifier::spinoff_prover]
proof fn lemma_do_group(p: Input, i: int)
    requires
        words_are_merged(p),
        clean(p, i),
    ensures
        do_group(p, i) matches Ok((l, j)) ==> fits(
            p,
            i,
            j,
            plus(plus(plain("do"@), list_written(l)), plain("done"@)),
        ),
    decreases left(p, i), 7nat,
{
    if reserved_at(p, i) == Some(ReservedWord::Do) {
        lemma_keyword(p, i, ReservedWord::Do);
        lemma_compound_list(p, i + 1);
        if let Ok((l, k)) = compound_list(p, i + 1) {
            lemma_join(p, i, i + 1, k, plain("do"@), list_written(l));
            lemma_bounds(p, i + 1, k, list_written(l));
            if reserved_at(p, k) == Some(ReservedWord::Done) {
                lemma_keyword(p, k, ReservedWord::Done);
                lemma_join(p, i, k, k + 1, plus(plain("do"@), list_written(l)), plain("done"@));
            }
        }
    }
}

#[verifier::spinoff_prover]
proof fn lemma_loop_parts(p: Input, i: int)
    requires
        words_are_merged(p),
        clean(p, i),
    ensures
        loop_parts(p, i) matches Ok((parts, j)) ==> fits(p, i, j, loop_written(parts.0, parts.1)),
    decreases left(p, i), 8nat,
{
    lemma_compound_list(p, i);
    if let Ok((condition, j)) = compound_list(p, i) {
        lemma_bounds(p, i, j, list_written(condition));
        lemma_do_group(p, onward(i, j));
        if let Ok((body, k)) = do_group(p, j) {
            lemma_join(
                p,
                i,
                j,
                k,
                list_written(condition),
                plus(plus(plain("do"@), list_written(body)), plain("done"@)),
            );
        }
    }
}

#[verifier::spinoff_prover]
proof fn lemma_sequential_sep(p: Input, i: int)
    requires
        clean(p, i),
    ensures
        expect_sequential_sep(p, i) matches Ok(j) ==> fits(p, i, j, nothing()),
        fits(p, i, optional_sequential_sep(p, i), nothing()),
{
    lemma_newlines(p, i);
    if op_at(p, i, Operator::Semi) {
        lemma_op(p, i, Operator::Semi);
        lemma_newlines(p, i + 1);
        lemma_join_none(p, i, i + 1, newlines_end(p, i + 1), nothing());
    }
}

/// What a `for` writes before its `do`.
spec fn for_head(name: Seq<char>, ws: Option<Seq<WordV>>) -> WrittenV {
    let head = plus(plain("for"@), plain(name));
    match ws {
        Some(ws) => plus(plus(head, plain("in"@)), words_written(ws)),
        None => head,
    }
}

#[verifier::spinoff_prover]
proof fn lemma_for_words(p: Input, s: int, i: int, name: Seq<char>)
    requires
        fits(p, s, i, for_head(name, None)),
    ensures
        for_words(p, i) matches Ok((ws, j)) ==> i <= j && fits(p, s, j, for_head(name, ws)),
{
    let head = for_head(name, None);
    lemma_bounds(p, s, i, head);
    lemma_newlines_end(p, i);
    lemma_newlines(p, i);
    let j = newlines_end(p, i);
    lemma_join_none(p, s, i, j, head);
    lemma_bounds(p, s, j, head);
    if reserved_at(p, j) == Some(ReservedWord::In) {
        lemma_keyword(p, j, ReservedWord::In);
        lemma_join(p, s, j, j + 1, head, plain("in"@));
        let front = plus(head, plain("in"@));
        assert(plus(front, nothing()) =~= front);
        lemma_words(p, s, j + 1, front, Seq::empty());
        let (ws, k) = words(p, j + 1, Seq::empty());
        let all = plus(front, words_written(ws));
        lemma_bounds(p, s, k, all);
        lemma_sequential_sep(p, k);
        if let Ok(m) = expect_sequential_sep(p, k) {
            lemma_join_none(p, s, k, m, all);
            lemma_bounds(p, k, m, nothing());
        }
    } else {
        lemma_sequential_sep(p, j);
        let m = optional_sequential_sep(p, j);
        lemma_join_none(p, s, j, m, head);
        lemma_bounds(p, j, m, nothing());
    }
}

#[verifier::spinoff_prover]
proof fn lemma_for_clause(p: Input, i: int)
    requires
        words_are_merged(p),
        clean(p, i),
        reserved_at(p, i) == Some(ReservedWord::For),
    ensures
        for_clause(p, i) matches Ok((k, j)) ==> fits(p, i, j, kind_written(k)),
    decreases left(p, i), 0nat,
{
    lemma_keyword(p, i, ReservedWord::For);
    if let Some(name) = plain_at(p, i + 1) {
        lemma_plain_word(p, i + 1, name);
        lemma_join(p, i, i + 1, i + 2, plain("for"@), plain(name));
        lemma_for_words(p, i, i + 2, name);
        if let Ok((ws, k)) = for_words(p, i + 2) {
            lemma_bounds(p, i, k, for_head(name, ws));
            lemma_do_group(p, onward(i + 1, k));
            if let Ok((body, m)) = do_group(p, k) {
                lemma_join(
                    p,
                    i,
                    k,
                    m,
                    for_head(name, ws),
                    plus(plus(plain("do"@), list_written(body)), plain("done"@)),
                );
            }
        }
    }
}

#[verifier::spinoff_prover]
proof fn lemma_case_clause(p: Input, i: int)
    requires
        words_are_merged(p),
        clean(p, i),
        reserved_at(p, i) == Some(ReservedWord::Case),
    ensures
        case_clause(p, i) matches Ok((k, j)) ==> fits(p, i, j, kind_written(k)),
    decreases left(p, i), 0nat,
{
    lemma_newlines_end(p, i + 2);
    let n = newlines_end(p, i + 2);
    let k = n + 1;
    lemma_newlines_end(p, k);
    lemma_keyword(p, i, ReservedWord::Case);
    if let Some(w) = word_at(p, i + 1) {
        lemma_word(p, i + 1, w);
        lemma_join(p, i, i + 1, i + 2, plain("case"@), a_word(w));
        let head = plus(plain("case"@), a_word(w));
        lemma_newlines(p, i + 2);
        lemma_join_none(p, i, i + 2, n, head);
        lemma_bounds(p, i, n, head);
        if reserved_at(p, n) == Some(ReservedWord::In) {
            lemma_keyword(p, n, ReservedWord::In);
            lemma_join(p, i, n, k, head, plain("in"@));
            let front = plus(head, plain("in"@));
            lemma_newlines(p, k);
            let m = newlines_end(p, k);
            lemma_join_none(p, i, k, m, front);
            assert(plus(front, nothing()) =~= front);
            lemma_case_arms(p, i, m, front, Seq::empty());
        }
    }
}

#[verifier::spinoff_prover]
proof fn lemma_case_arms(p: Input, s: int, i: int, front: WrittenV, acc: Seq<ArmV>)
    requires
        words_are_merged(p),
        fits(p, s, i, plus(front, arms_written(acc))),
    ensures
        case_arms(p, i, acc) matches Ok((arms, j)) ==> fits(
            p,
            s,
            j,
            plus(plus(front, arms_written(arms)), plain("esac"@)),
        ),
    decreases left(p, i), 8nat,
{
    let before = plus(front, arms_written(acc));
    lemma_bounds(p, s, i, before);
    if i < p.tokens.len() {
        if reserved_at(p, i) == Some(ReservedWord::Esac) {
            lemma_keyword(p, i, ReservedWord::Esac);
            lemma_join(p, s, i, i + 1, before, plain("esac"@));
        } else {
            lemma_case_arm(p, i);
            if let Ok((arm, j)) = case_arm(p, i) {
                let more = acc.push(arm);
                assert(more.drop_last() =~= acc);
                let here = arm_written(arm);
                lemma_bounds(p, i, j, here);
                lemma_join(p, s, i, j, before, here);
                assert(plus(before, here) =~= plus(front, arms_written(more)));
                lemma_case_arms(p, s, onward(i + 1, j), front, more);
            }
        }
    }
}

/// What an arm writes.
spec fn arm_written(arm: ArmV) -> WrittenV {
    let here = plus(patterns_written(arm.patterns), list_written(arm.body));
    if arm.terminator is Break {
        plus(here, an_operator(Operator::DSemi))
    } else {
        here
    }
}

#[verifier::spinoff_prover]
proof fn lemma_case_arm(p: Input, i: int)
    requires
        words_are_merged(p),
        clean(p, i),
    ensures
        case_arm(p, i) matches Ok((arm, j)) ==> i < j && fits(p, i, j, arm_written(arm)),
    decreases left(p, i), 7nat,
{
    let start = if op_at(p, i, Operator::LParen) {
        i + 1
    } else {
        i
    };
    if op_at(p, i, Operator::LParen) {
        lemma_op(p, i, Operator::LParen);
    } else {
        lemma_none(p, i);
    }
    if let Some(w) = word_at(p, start) {
        lemma_word(p, start, w);
        lemma_none_join(p, i, start, start + 1, a_word(w));
        assert(patterns_written(seq![w]) == a_word(w));
        lemma_patterns(p, i, start + 1, seq![w]);
        if let Ok((patterns, k)) = more_patterns(p, start + 1, seq![w]) {
            let ps = patterns_written(patterns);
            lemma_bounds(p, i, k, ps);
            if op_at(p, k, Operator::RParen) {
                lemma_op(p, k, Operator::RParen);
                lemma_join_none(p, i, k, k + 1, ps);
                lemma_newlines_end(p, k + 1);
                lemma_newlines(p, k + 1);
                let m = onward(i, newlines_end(p, k + 1));
                lemma_join_none(p, i, k + 1, m, ps);
                lemma_bounds(p, i, m, ps);
                lemma_compound_list(p, m);
                if let Ok((body, n)) = compound_list(p, m) {
                    let here = plus(ps, list_written(body));
                    lemma_join(p, i, m, n, ps, list_written(body));
                    lemma_bounds(p, i, n, here);
                    if op_at(p, n, Operator::DSemi) {
                        lemma_op(p, n, Operator::DSemi);
                        lemma_join(p, i, n, n + 1, here, an_operator(Operator::DSemi));
                        lemma_newlines(p, n + 1);
                        lemma_newlines_end(p, n + 1);
                        lemma_join_none(
                            p,
                            i,
                            n + 1,
                            newlines_end(p, n + 1),
                            plus(here, an_operator(Operator::DSemi)),
                        );
                    }
                }
            }
        }
    }
}

// ---- the law ------------------------------------------------------------------------------------

/// Parsing loses nothing, invents nothing and keeps the order: a program that is parsed
/// writes the words, operators and redirections of its tokens again, whatever the tree
/// looks like.
pub proof fn law_parsing_loses_nothing(text: Seq<char>)
    requires
        byte_len(text) <= usize::MAX,
    ensures
        source(text) matches Ok(list) ==> {
            let tokens = crate::lexer::rules::tokens_from(text, 0, Seq::empty())->Ok_0;
            list_written(list) == tokens_written(
                Input { text, tokens },
                0,
                tokens.len() as int,
            )
        },
{
    if let Ok(list) = source(text) {
        let tokens = crate::lexer::rules::tokens_from(text, 0, Seq::empty())->Ok_0;
        let p = Input { text, tokens };
        crate::lexer::laws::law_lexing_is_well_placed(text);
        assert(words_are_merged(p));
        let i = newlines_end(p, 0);
        lemma_newlines_end(p, 0);
        lemma_newlines(p, 0);
        lemma_items(p, 0, i, false, Seq::empty());
        let (l, j) = items(p, i, false, Seq::empty())->Ok_0;
        lemma_past_the_end(p, j);
        reveal(fits);
    }
}

/// Behind the last token nothing is written.
proof fn lemma_past_the_end(p: Input, j: int)
    requires
        j >= p.tokens.len(),
    ensures
        tokens_written(p, 0, j) == tokens_written(p, 0, p.tokens.len() as int),
    decreases j,
{
    if j > p.tokens.len() {
        lemma_past_the_end(p, j - 1);
        let a = tokens_written(p, 0, j - 1);
        assert(plus(a, nothing()) =~= a);
    }
}

} // verus!
