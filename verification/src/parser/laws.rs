//! What holds of every program that is parsed.

use vstd::prelude::*;

use super::excerpt::{is_lexed, lemma_subshell_text};
use super::grammar::{
    and_or, and_or_rest, assignment, assignment_at, branch, case_arm, case_arms, case_clause,
    command, command_prefix, compound_at, compound_command, compound_list, do_group, else_part,
    for_clause, for_words, function_body, function_definition_at, function_with_keyword,
    function_without_keyword, if_clause, items, left, lemma_newlines_end, logical_op_at, loop_parts,
    more_patterns, newlines_end, onward, op_at, pipeline, pipeline_rest, redirect, redirect_at,
    reserved_at, separator, simple_command, source, word_at, Input, ReservedWord,
};
use super::ParseErrorV;
use crate::ast::{
    ArmV, AssignmentV, BranchV, CommandV, ItemV, KindV, ListV, LogicalOp, RedirectV, SimpleCommandV,
};
use crate::lexer::rules::lemma_name_end;
use crate::text::{byte_len, is_name};
use crate::token::{Operator, WordV};

verus! {

// ---- well-formed trees ------------------------------------------------------------------------

/// Every item of a list is well formed, and only the last one lacks a
/// separator.
pub open spec fn is_list(l: ListV) -> bool
    decreases l,
{
    l.len() == 0 || {
        &&& is_list(l.drop_last())
        &&& is_pipeline(l.last().and_or.first)
        &&& is_rest(l.last().and_or.rest)
        &&& l.len() > 1 ==> !(l[l.len() - 2].separator is End)
    }
}

/// Every pipeline is well formed.
pub open spec fn is_rest(r: Seq<(LogicalOp, Seq<CommandV>)>) -> bool
    decreases r,
{
    r.len() == 0 || (is_rest(r.drop_last()) && is_pipeline(r.last().1))
}

/// There is a command, and every command is well formed.
pub open spec fn is_pipeline(p: Seq<CommandV>) -> bool
    decreases p,
{
    p.len() > 0 && is_command(p.last()) && (p.len() > 1 ==> is_pipeline(p.drop_last()))
}

/// The names of assignments are names.
pub open spec fn is_assignments(s: Seq<AssignmentV>) -> bool {
    forall|i: int| 0 <= i < s.len() ==> is_name((#[trigger] s[i]).name)
}

/// A simple command is not empty, and one without a name has no arguments.
pub open spec fn is_simple(c: SimpleCommandV) -> bool {
    &&& c.name is Some || c.assignments.len() > 0 || c.redirects.len() > 0
    &&& c.name is None ==> c.args.len() == 0
    &&& is_assignments(c.assignments)
}

/// A well-formed command.
pub open spec fn is_command(c: CommandV) -> bool
    decreases c,
{
    match c {
        CommandV::Simple(s) => is_simple(s),
        CommandV::Compound(c) => is_kind(c.kind),
        CommandV::Function(f) => is_name(f.name) && is_kind(f.body.kind),
    }
}

/// A well-formed compound command: an `if` has a branch, a `for` a name, the text
/// of a subshell is parsed into its body, and each list in it is well formed.
pub open spec fn is_kind(k: KindV) -> bool
    decreases k,
{
    match k {
        KindV::BraceGroup(l) => is_list(l),
        KindV::Subshell { body, source: text } => is_list(body) && source(text) == Ok::<
            ListV,
            ParseErrorV,
        >(body),
        KindV::For { name, words: _, body } => is_name(name) && is_list(body),
        KindV::Case { word: _, arms } => is_arms(arms),
        KindV::If { branches, else_branch } => branches.len() > 0 && is_branches(branches) && (
        match else_branch {
            Some(l) => is_list(l),
            None => true,
        }),
        KindV::While { condition, body } => is_list(condition) && is_list(body),
        KindV::Until { condition, body } => is_list(condition) && is_list(body),
    }
}

/// Every branch is well formed.
pub open spec fn is_branches(s: Seq<BranchV>) -> bool
    decreases s,
{
    s.len() == 0 || (is_branches(s.drop_last()) && is_list(s.last().condition) && is_list(
        s.last().body,
    ))
}

/// Every arm has a pattern and a well-formed body, and only the last one lacks
/// its `;;`.
pub open spec fn is_arms(s: Seq<ArmV>) -> bool
    decreases s,
{
    s.len() == 0 || {
        &&& is_arms(s.drop_last())
        &&& s.last().patterns.len() > 0
        &&& is_list(s.last().body)
        &&& s.len() > 1 ==> s[s.len() - 2].terminator is Break
    }
}

// ---- parts ----------------------------------------------------------------------------------------

proof fn lemma_separator(p: Input, i: int)
    requires
        0 <= i,
    ensures
        separator(p, i).1 >= i,
{
    lemma_newlines_end(p, i);
    lemma_newlines_end(p, i + 1);
}

proof fn lemma_command_prefix(
    p: Input,
    i: int,
    assignments: Seq<AssignmentV>,
    redirects: Seq<RedirectV>,
)
    requires
        is_assignments(assignments),
    ensures
        command_prefix(p, i, assignments, redirects) matches Ok((parts, j)) ==> is_assignments(
            parts.0,
        ) && !redirect_at(p, j),
    decreases left(p, i),
{
    if redirect_at(p, i) {
        if let Ok((r, j)) = redirect(p, i) {
            lemma_command_prefix(p, j, assignments, redirects.push(r));
        }
    } else if let Some(a) = assignment_at(p, i) {
        assert(is_name(a.name)) by {
            reveal(assignment);
            let t = word_at(p, i)->0[0]->Literal_0;
            lemma_name_end(t, 0);
            lemma_name_end(t, 1);
        }
        lemma_command_prefix(p, i + 1, assignments.push(a), redirects);
    }
}

proof fn lemma_simple_command(p: Input, i: int)
    ensures
        simple_command(p, i) matches Ok((c, _)) ==> is_simple(c),
{
    lemma_command_prefix(p, i, Seq::empty(), Seq::empty());
}

proof fn lemma_more_patterns(p: Input, i: int, acc: Seq<WordV>)
    ensures
        more_patterns(p, i, acc) matches Ok((out, j)) ==> i <= j && out.len() >= acc.len(),
    decreases left(p, i),
{
    if op_at(p, i, Operator::Pipe) {
        if let Some(w) = word_at(p, i + 1) {
            lemma_more_patterns(p, i + 2, acc.push(w));
        }
    }
}

// ---- lists and commands -----------------------------------------------------------------------------

proof fn lemma_items(p: Input, i: int, inner: bool, acc: ListV)
    requires
        is_lexed(p),
        is_list(acc),
        acc.len() > 0 ==> !(acc.last().separator is End),
    ensures
        items(p, i, inner, acc) matches Ok((l, j)) ==> i <= j && is_list(l),
    decreases left(p, i), 5nat,
{
    if !(i >= p.tokens.len() || (inner && super::grammar::at_list_end(p, i))) {
        lemma_and_or(p, i);
        if let Ok((a, j)) = and_or(p, i) {
            lemma_separator(p, j);
            let (sep, k) = separator(p, j);
            let more = acc.push(ItemV { and_or: a, separator: sep });
            assert(more.drop_last() =~= acc);
            assert(is_list(more));
            if !(sep is End) {
                lemma_items(p, onward(i + 1, k), inner, more);
            }
        }
    }
}

proof fn lemma_compound_list(p: Input, i: int)
    requires
        is_lexed(p),
    ensures
        compound_list(p, i) matches Ok((l, j)) ==> i <= j && is_list(l),
    decreases left(p, i), 6nat,
{
    lemma_newlines_end(p, i);
    lemma_items(p, newlines_end(p, i), true, Seq::empty());
}

proof fn lemma_and_or(p: Input, i: int)
    requires
        is_lexed(p),
    ensures
        and_or(p, i) matches Ok((a, j)) ==> i <= j && is_pipeline(a.first) && is_rest(a.rest),
    decreases left(p, i), 4nat,
{
    lemma_pipeline(p, i);
    if let Ok((first, j)) = pipeline(p, i) {
        lemma_and_or_rest(p, onward(i, j), first, Seq::empty());
    }
}

proof fn lemma_and_or_rest(
    p: Input,
    i: int,
    first: Seq<CommandV>,
    acc: Seq<(LogicalOp, Seq<CommandV>)>,
)
    requires
        is_lexed(p),
        is_pipeline(first),
        is_rest(acc),
    ensures
        and_or_rest(p, i, first, acc) matches Ok((a, j)) ==> i <= j && is_pipeline(a.first)
            && is_rest(a.rest),
    decreases left(p, i), 0nat,
{
    lemma_newlines_end(p, i + 1);
    if let Some(op) = logical_op_at(p, i) {
        let k = newlines_end(p, i + 1);
        lemma_pipeline(p, k);
        if let Ok((next, j)) = pipeline(p, k) {
            let more = acc.push((op, next));
            assert(more.drop_last() =~= acc);
            lemma_and_or_rest(p, onward(k, j), first, more);
        }
    }
}

proof fn lemma_pipeline(p: Input, i: int)
    requires
        is_lexed(p),
    ensures
        pipeline(p, i) matches Ok((c, j)) ==> i <= j && is_pipeline(c),
    decreases left(p, i), 3nat,
{
    lemma_command(p, i);
    if let Ok((c, j)) = command(p, i) {
        assert(is_pipeline(seq![c]));
        lemma_pipeline_rest(p, onward(i, j), seq![c]);
    }
}

proof fn lemma_pipeline_rest(p: Input, i: int, acc: Seq<CommandV>)
    requires
        is_lexed(p),
        is_pipeline(acc),
    ensures
        pipeline_rest(p, i, acc) matches Ok((c, j)) ==> i <= j && is_pipeline(c),
    decreases left(p, i), 0nat,
{
    lemma_newlines_end(p, i + 1);
    if op_at(p, i, Operator::Pipe) {
        let k = newlines_end(p, i + 1);
        lemma_command(p, k);
        if let Ok((c, j)) = command(p, k) {
            assert(acc.push(c).drop_last() =~= acc);
            lemma_pipeline_rest(p, onward(k, j), acc.push(c));
        }
    }
}

proof fn lemma_command(p: Input, i: int)
    requires
        is_lexed(p),
    ensures
        command(p, i) matches Ok((c, _)) ==> is_command(c),
    decreases left(p, i), 2nat,
{
    if reserved_at(p, i) == Some(ReservedWord::Function) {
        lemma_function_with_keyword(p, i);
    } else if function_definition_at(p, i) {
        lemma_function_without_keyword(p, i);
    } else if compound_at(p, i) {
        lemma_compound_command(p, i);
    } else {
        lemma_simple_command(p, i);
    }
}

proof fn lemma_function_without_keyword(p: Input, i: int)
    requires
        is_lexed(p),
        0 <= i < p.tokens.len(),
    ensures
        function_without_keyword(p, i) matches Ok((f, _)) ==> is_name(f.name) && is_kind(
            f.body.kind,
        ),
    decreases left(p, i), 1nat,
{
    lemma_newlines_end(p, i + 3);
    lemma_function_body(p, newlines_end(p, i + 3));
}

proof fn lemma_function_with_keyword(p: Input, i: int)
    requires
        is_lexed(p),
        0 <= i < p.tokens.len(),
    ensures
        function_with_keyword(p, i) matches Ok((f, _)) ==> is_name(f.name) && is_kind(
            f.body.kind,
        ),
    decreases left(p, i), 1nat,
{
    lemma_newlines_end(p, i + 2);
    lemma_newlines_end(p, i + 4);
    lemma_function_body(p, newlines_end(p, i + 2));
    lemma_function_body(p, newlines_end(p, i + 4));
}

proof fn lemma_function_body(p: Input, i: int)
    requires
        is_lexed(p),
    ensures
        function_body(p, i) matches Ok((c, _)) ==> is_kind(c.kind),
    decreases left(p, i), 2nat,
{
    if compound_at(p, i) {
        lemma_compound_command(p, i);
    }
}

proof fn lemma_compound_command(p: Input, i: int)
    requires
        is_lexed(p),
        0 <= i < p.tokens.len(),
    ensures
        compound_command(p, i) matches Ok((c, _)) ==> is_kind(c.kind),
    decreases left(p, i), 1nat,
{
    if op_at(p, i, Operator::LParen) {
        lemma_compound_list(p, i + 1);
        lemma_subshell_text(p, i);
    } else {
        match reserved_at(p, i) {
            Some(ReservedWord::LBrace) => {
                lemma_compound_list(p, i + 1);
            },
            Some(ReservedWord::If) => {
                lemma_if_clause(p, i);
            },
            Some(ReservedWord::For) => {
                lemma_for_clause(p, i);
            },
            Some(ReservedWord::While) => {
                lemma_loop_parts(p, i + 1);
            },
            Some(ReservedWord::Until) => {
                lemma_loop_parts(p, i + 1);
            },
            _ => {
                lemma_case_clause(p, i);
            },
        }
    }
}

proof fn lemma_branch(p: Input, i: int)
    requires
        is_lexed(p),
    ensures
        branch(p, i) matches Ok((b, _)) ==> is_list(b.condition) && is_list(b.body),
    decreases left(p, i), 7nat,
{
    lemma_compound_list(p, i);
    if let Ok((condition, j)) = compound_list(p, i) {
        if reserved_at(p, j) == Some(ReservedWord::Then) {
            lemma_compound_list(p, onward(i, j + 1));
        }
    }
}

proof fn lemma_else_part(p: Input, i: int, branches: Seq<BranchV>)
    requires
        is_lexed(p),
        branches.len() > 0,
        is_branches(branches),
    ensures
        else_part(p, i, branches) matches Ok((k, _)) ==> is_kind(k),
    decreases left(p, i), 0nat,
{
    match reserved_at(p, i) {
        Some(ReservedWord::Elif) => {
            lemma_branch(p, i + 1);
            if let Ok((b, j)) = branch(p, i + 1) {
                assert(branches.push(b).drop_last() =~= branches);
                lemma_else_part(p, onward(i + 1, j), branches.push(b));
            }
        },
        Some(ReservedWord::Else) => {
            lemma_compound_list(p, i + 1);
        },
        _ => {},
    }
}

proof fn lemma_if_clause(p: Input, i: int)
    requires
        is_lexed(p),
        0 <= i < p.tokens.len(),
    ensures
        if_clause(p, i) matches Ok((k, _)) ==> is_kind(k),
    decreases left(p, i), 0nat,
{
    lemma_branch(p, i + 1);
    if let Ok((b, j)) = branch(p, i + 1) {
        assert(seq![b].drop_last() =~= Seq::empty());
        assert(is_branches(seq![b])) by {
            reveal_with_fuel(is_branches, 2);
        }
        lemma_else_part(p, onward(i + 1, j), seq![b]);
    }
}

proof fn lemma_do_group(p: Input, i: int)
    requires
        is_lexed(p),
    ensures
        do_group(p, i) matches Ok((l, _)) ==> is_list(l),
    decreases left(p, i), 7nat,
{
    if reserved_at(p, i) == Some(ReservedWord::Do) {
        lemma_compound_list(p, i + 1);
    }
}

proof fn lemma_loop_parts(p: Input, i: int)
    requires
        is_lexed(p),
    ensures
        loop_parts(p, i) matches Ok((parts, _)) ==> is_list(parts.0) && is_list(parts.1),
    decreases left(p, i), 8nat,
{
    lemma_compound_list(p, i);
    if let Ok((condition, j)) = compound_list(p, i) {
        lemma_do_group(p, onward(i, j));
    }
}

proof fn lemma_for_clause(p: Input, i: int)
    requires
        is_lexed(p),
        0 <= i < p.tokens.len(),
    ensures
        for_clause(p, i) matches Ok((k, _)) ==> is_kind(k),
    decreases left(p, i), 0nat,
{
    if word_at(p, i + 1) is Some {
        if let Ok((words, k)) = for_words(p, i + 2) {
            lemma_do_group(p, onward(i + 1, k));
        }
    }
}

proof fn lemma_case_clause(p: Input, i: int)
    requires
        is_lexed(p),
        0 <= i < p.tokens.len(),
    ensures
        case_clause(p, i) matches Ok((k, _)) ==> is_kind(k),
    decreases left(p, i), 0nat,
{
    lemma_newlines_end(p, i + 2);
    let k = newlines_end(p, i + 2) + 1;
    lemma_newlines_end(p, k);
    lemma_case_arms(p, newlines_end(p, k), Seq::empty());
}

proof fn lemma_case_arms(p: Input, i: int, acc: Seq<ArmV>)
    requires
        is_lexed(p),
        is_arms(acc),
        acc.len() > 0 && acc.last().terminator is Omitted ==> reserved_at(p, i) == Some(
            ReservedWord::Esac,
        ),
    ensures
        case_arms(p, i, acc) matches Ok((arms, _)) ==> is_arms(arms),
    decreases left(p, i), 8nat,
{
    if i < p.tokens.len() && reserved_at(p, i) != Some(ReservedWord::Esac) {
        lemma_case_arm(p, i);
        if let Ok((arm, j)) = case_arm(p, i) {
            assert(acc.push(arm).drop_last() =~= acc);
            lemma_case_arms(p, onward(i + 1, j), acc.push(arm));
        }
    }
}

proof fn lemma_case_arm(p: Input, i: int)
    requires
        is_lexed(p),
    ensures
        case_arm(p, i) matches Ok((arm, j)) ==> {
            &&& i < j
            &&& arm.patterns.len() > 0
            &&& is_list(arm.body)
            &&& arm.terminator is Omitted ==> reserved_at(p, j) == Some(ReservedWord::Esac)
        },
    decreases left(p, i), 7nat,
{
    let start = if op_at(p, i, Operator::LParen) {
        i + 1
    } else {
        i
    };
    if let Some(w) = word_at(p, start) {
        lemma_more_patterns(p, start + 1, seq![w]);
        if let Ok((patterns, k)) = more_patterns(p, start + 1, seq![w]) {
            lemma_newlines_end(p, k + 1);
            let m = onward(i, newlines_end(p, k + 1));
            lemma_compound_list(p, m);
            if let Ok((body, n)) = compound_list(p, m) {
                lemma_newlines_end(p, n + 1);
            }
        }
    }
}

// ---- the laws -----------------------------------------------------------------------------------------

/// Every program that parses is well formed. In particular the text of every
/// subshell in it, run on its own, is parsed again into the body of the subshell.
pub proof fn law_parsed_programs_are_well_formed(text: Seq<char>)
    requires
        byte_len(text) <= usize::MAX,
    ensures
        source(text) matches Ok(list) ==> is_list(list),
{
    if let Ok(tokens) = crate::lexer::rules::tokens_from(text, 0, Seq::empty()) {
        let p = Input { text, tokens };
        lemma_items(p, newlines_end(p, 0), false, Seq::empty());
    }
}

proof fn lemma_only_newlines(p: Input, i: int)
    requires
        0 <= i <= p.tokens.len(),
        forall|k: int| 0 <= k < p.tokens.len() ==> (#[trigger] p.tokens[k]).kind is Newline,
    ensures
        newlines_end(p, i) == p.tokens.len(),
    decreases left(p, i),
{
    if i < p.tokens.len() {
        assert(p.tokens[i].kind is Newline);
        lemma_only_newlines(p, i + 1);
    }
}

/// Input that holds only blanks, comments and newlines is the empty program.
pub proof fn law_blank_input_is_the_empty_program(text: Seq<char>)
    requires
        crate::lexer::rules::tokens_from(text, 0, Seq::empty()) matches Ok(tokens) && forall|k: int|
            0 <= k < tokens.len() ==> (#[trigger] tokens[k]).kind is Newline,
    ensures
        source(text) == Ok::<ListV, ParseErrorV>(Seq::empty()),
{
    let tokens = crate::lexer::rules::tokens_from(text, 0, Seq::empty())->Ok_0;
    lemma_only_newlines(Input { text, tokens }, 0);
}

} // verus!
