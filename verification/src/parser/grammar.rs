//! The grammar: what each stretch of the token stream is parsed as.
//!
//! A rule takes the index of a token and gives what it parsed and the index of
//! the token after it, or the error for the first token that does not fit.

use vstd::prelude::*;

use crate::ast::{
    AndOrV, ArmV, AssignmentV, BranchV, CaseTerminator, CommandV, CompoundV, FunctionV, ItemV,
    KindV, ListV, LogicalOp, RedirectOperator, RedirectV, Separator, SimpleCommandV,
};
use crate::lexer::rules::{at, name_end};
use crate::lexer::LexError;
use crate::numbers::decimal;
use crate::text::{is_name, is_name_start, offset_of};
use crate::token::{plain_literal, Operator, Span, TokenKindV, TokenV, WordSegmentV, WordV};

verus! {

/// The reserved words.
#[derive(Debug, Clone, Copy, PartialEq, Eq, Structural)]
pub enum ReservedWord {
    If,
    Then,
    Elif,
    Else,
    Fi,
    For,
    While,
    Until,
    Do,
    Done,
    Case,
    Esac,
    In,
    LBrace,
    RBrace,
    Function,
}

/// View of [`crate::parser::ParseError`].
pub ghost enum ParseErrorV {
    Lex(LexError),
    UnexpectedToken { found: Seq<char>, span: Span, expected: Seq<char> },
    UnexpectedEof { expected: Seq<char> },
    UnsupportedConstruct { message: Seq<char>, span: Span },
}

/// What is parsed: the source text and its tokens.
pub ghost struct Input {
    pub text: Seq<char>,
    pub tokens: Seq<TokenV>,
}

/// What a rule gives.
pub type Parsed<T> = Result<(T, int), ParseErrorV>;

// ---- positions --------------------------------------------------------------------

/// How many tokens are left from `i` on.
pub open spec fn left(p: Input, i: int) -> nat {
    if i < p.tokens.len() {
        (p.tokens.len() - i) as nat
    } else {
        0
    }
}

/// `j`, or `i` if that comes later.
pub open spec fn onward(i: int, j: int) -> int {
    if j > i {
        j
    } else {
        i
    }
}

/// The kind of token `i`, if there is one.
pub open spec fn kind_at(p: Input, i: int) -> Option<TokenKindV> {
    if 0 <= i < p.tokens.len() {
        Some(p.tokens[i].kind)
    } else {
        None
    }
}

/// Token `i` is the operator `op`.
pub open spec fn op_at(p: Input, i: int, op: Operator) -> bool {
    kind_at(p, i) == Some(TokenKindV::Operator(op))
}

/// Token `i` is a newline.
pub open spec fn newline_at(p: Input, i: int) -> bool {
    kind_at(p, i) == Some(TokenKindV::Newline)
}

/// The word at `i`, if token `i` is a word.
pub open spec fn word_at(p: Input, i: int) -> Option<WordV> {
    match kind_at(p, i) {
        Some(TokenKindV::Word(w)) => Some(w),
        _ => None,
    }
}

/// The end of the run of newlines at `i`.
pub open spec fn newlines_end(p: Input, i: int) -> int
    decreases left(p, i),
{
    if newline_at(p, i) {
        newlines_end(p, i + 1)
    } else {
        i
    }
}

pub proof fn lemma_newlines_end(p: Input, i: int)
    ensures
        newlines_end(p, i) >= i,
        i <= p.tokens.len() ==> newlines_end(p, i) <= p.tokens.len(),
    decreases left(p, i),
{
    if newline_at(p, i) {
        lemma_newlines_end(p, i + 1);
    }
}

// ---- errors -----------------------------------------------------------------------

/// The text that `{:?}` prints for `s`: quoted, with escapes.
pub uninterp spec fn debug_text(s: Seq<char>) -> Seq<char>;

/// The source text of an operator.
pub open spec fn operator_text(op: Operator) -> Seq<char> {
    match op {
        Operator::Pipe => "|"@,
        Operator::OrIf => "||"@,
        Operator::Amp => "&"@,
        Operator::AndIf => "&&"@,
        Operator::Semi => ";"@,
        Operator::DSemi => ";;"@,
        Operator::Less => "<"@,
        Operator::Great => ">"@,
        Operator::DLess => "<<"@,
        Operator::DLessDash => "<<-"@,
        Operator::LessAnd => "<&"@,
        Operator::GreatAnd => ">&"@,
        Operator::DGreat => ">>"@,
        Operator::LessGreat => "<>"@,
        Operator::Clobber => ">|"@,
        Operator::LParen => "("@,
        Operator::RParen => ")"@,
    }
}

/// Why an operator of the language is not accepted yet, if it is one of those.
pub open spec fn deferred_operator(op: Operator) -> Option<Seq<char>> {
    match op {
        Operator::DLess => Some("'<<' (here-document) is not yet supported"@),
        Operator::DLessDash => Some(
            "'<<-' (here-document with leading-tab stripping) is not yet supported"@,
        ),
        Operator::LessAnd => Some("'<&' (fd-duplicating input redirection) is not yet supported"@),
        Operator::GreatAnd => Some("'>&' (fd-duplicating output redirection) is not yet supported"@),
        Operator::LessGreat => Some("'<>' (open for read+write) is not yet supported"@),
        Operator::Clobber => Some("'>|' (clobber-override output redirection) is not yet supported"@),
        _ => None,
    }
}

/// How a token is named in a message.
pub open spec fn token_text(kind: TokenKindV) -> Seq<char> {
    match kind {
        TokenKindV::Word(w) => match plain_literal(w) {
            Some(t) => "word "@ + debug_text(t),
            None => "a quoted/expansion word"@,
        },
        TokenKindV::IoNumber(n) => "IO number '"@ + decimal(n as int) + "'"@,
        TokenKindV::Operator(op) => "operator '"@ + operator_text(op) + "'"@,
        TokenKindV::Newline => "newline"@,
    }
}

/// The error for token `i` where `expected` should stand.
#[verifier::opaque]
pub open spec fn unexpected(p: Input, i: int, expected: Seq<char>) -> ParseErrorV {
    match kind_at(p, i) {
        None => ParseErrorV::UnexpectedEof { expected },
        Some(kind) => {
            let span = p.tokens[i].span;
            match kind {
                TokenKindV::Operator(op) if deferred_operator(op) is Some => {
                    ParseErrorV::UnsupportedConstruct { message: deferred_operator(op)->0, span }
                },
                _ => ParseErrorV::UnexpectedToken { found: token_text(kind), span, expected },
            }
        },
    }
}

// ---- words as they are typed ---------------------------------------------------------

/// The characters of `t` from `k` on are typed in `s` from `i` on, as they are.
/// A line continuation counts as nothing.
pub open spec fn typed_from(s: Seq<char>, i: int, t: Seq<char>, k: int) -> bool
    decreases s.len() - i,
{
    if k >= t.len() {
        true
    } else if i < 0 || i >= s.len() {
        false
    } else if s[i] == '\\' && at(s, i + 1) == Some('\n') {
        typed_from(s, i + 2, t, k)
    } else {
        s[i] == t[k] && typed_from(s, i + 1, t, k + 1)
    }
}

/// The source text of token `i`.
pub open spec fn source_of(p: Input, i: int) -> Seq<char> {
    text_between_offsets(p.text, p.tokens[i].span.start as nat, p.tokens[i].span.end as nat)
}

/// The text of the plain word at `i`: a single literal, typed without any quoting.
pub open spec fn plain_at(p: Input, i: int) -> Option<Seq<char>> {
    match word_at(p, i) {
        Some(w) => match plain_literal(w) {
            Some(t) if typed_from(source_of(p, i), 0, t, 0) => Some(t),
            _ => None,
        },
        None => None,
    }
}

// ---- reserved words -----------------------------------------------------------------

/// The reserved word that `w` is, if nothing in it is quoted.
#[verifier::opaque]
pub open spec fn reserved(w: WordV) -> Option<ReservedWord> {
    match plain_literal(w) {
        None => None,
        Some(t) => if t == "if"@ {
            Some(ReservedWord::If)
        } else if t == "then"@ {
            Some(ReservedWord::Then)
        } else if t == "elif"@ {
            Some(ReservedWord::Elif)
        } else if t == "else"@ {
            Some(ReservedWord::Else)
        } else if t == "fi"@ {
            Some(ReservedWord::Fi)
        } else if t == "for"@ {
            Some(ReservedWord::For)
        } else if t == "while"@ {
            Some(ReservedWord::While)
        } else if t == "until"@ {
            Some(ReservedWord::Until)
        } else if t == "do"@ {
            Some(ReservedWord::Do)
        } else if t == "done"@ {
            Some(ReservedWord::Done)
        } else if t == "case"@ {
            Some(ReservedWord::Case)
        } else if t == "esac"@ {
            Some(ReservedWord::Esac)
        } else if t == "in"@ {
            Some(ReservedWord::In)
        } else if t == "{"@ {
            Some(ReservedWord::LBrace)
        } else if t == "}"@ {
            Some(ReservedWord::RBrace)
        } else if t == "function"@ {
            Some(ReservedWord::Function)
        } else {
            None
        },
    }
}

/// The reserved word at `i`, if there is one.
pub open spec fn reserved_at(p: Input, i: int) -> Option<ReservedWord> {
    match word_at(p, i) {
        Some(w) if plain_at(p, i) is Some => reserved(w),
        _ => None,
    }
}

/// How a reserved word is named in a message.
#[verifier::opaque]
pub open spec fn reserved_text(w: ReservedWord) -> Seq<char> {
    match w {
        ReservedWord::If => "'if'"@,
        ReservedWord::Then => "'then'"@,
        ReservedWord::Elif => "'elif'"@,
        ReservedWord::Else => "'else'"@,
        ReservedWord::Fi => "'fi'"@,
        ReservedWord::For => "'for'"@,
        ReservedWord::While => "'while'"@,
        ReservedWord::Until => "'until'"@,
        ReservedWord::Do => "'do'"@,
        ReservedWord::Done => "'done'"@,
        ReservedWord::Case => "'case'"@,
        ReservedWord::Esac => "'esac'"@,
        ReservedWord::In => "'in'"@,
        ReservedWord::LBrace => "'{'"@,
        ReservedWord::RBrace => "'}'"@,
        ReservedWord::Function => "'function'"@,
    }
}

/// Past the reserved word `want` at `i`.
pub open spec fn expect_reserved(p: Input, i: int, want: ReservedWord) -> Result<int, ParseErrorV> {
    if reserved_at(p, i) == Some(want) {
        Ok(i + 1)
    } else {
        Err(unexpected(p, i, reserved_text(want)))
    }
}

/// Past the operator `want` at `i`.
pub open spec fn expect_operator(
    p: Input,
    i: int,
    want: Operator,
    what: Seq<char>,
) -> Result<int, ParseErrorV> {
    if op_at(p, i, want) {
        Ok(i + 1)
    } else {
        Err(unexpected(p, i, what))
    }
}

/// The word at `i`.
pub open spec fn expect_word(p: Input, i: int, what: Seq<char>) -> Parsed<WordV> {
    match word_at(p, i) {
        Some(w) => Ok((w, i + 1)),
        None => Err(unexpected(p, i, what)),
    }
}

/// The name at `i`: a plain word that is a shell name.
pub open spec fn expect_name(p: Input, i: int) -> Parsed<Seq<char>> {
    match plain_at(p, i) {
        Some(t) if is_name(t) => Ok((t, i + 1)),
        _ => Err(unexpected(p, i, "a name"@)),
    }
}

// ---- simple commands ----------------------------------------------------------------

/// The assignment that `w` writes after its escapes are resolved: a name and `=`
/// at the start of its first segment, which is a literal.
#[verifier::opaque]
pub open spec fn assignment(w: WordV) -> Option<AssignmentV> {
    if w.len() > 0 && w[0] is Literal {
        let t = w[0]->Literal_0;
        let k = name_end(t, 0);
        if t.len() > 0 && is_name_start(t[0]) && at(t, k) == Some('=') {
            let rest = t.subrange(k + 1, t.len() as int);
            Some(
                AssignmentV {
                    name: t.subrange(0, k),
                    value: if rest.len() == 0 {
                        w.drop_first()
                    } else {
                        w.update(0, WordSegmentV::Literal(rest))
                    },
                },
            )
        } else {
            None
        }
    } else {
        None
    }
}

/// The assignment at `i`: its name and `=` are typed without any quoting.
pub open spec fn assignment_at(p: Input, i: int) -> Option<AssignmentV> {
    match word_at(p, i) {
        Some(w) => match assignment(w) {
            Some(a) if typed_from(source_of(p, i), 0, a.name.push('='), 0) => Some(a),
            _ => None,
        },
        None => None,
    }
}

/// The redirection that an operator stands for.
pub open spec fn redirect_operator(op: Operator) -> Option<RedirectOperator> {
    match op {
        Operator::Less => Some(RedirectOperator::Input),
        Operator::Great => Some(RedirectOperator::Output),
        Operator::DGreat => Some(RedirectOperator::Append),
        _ => None,
    }
}

/// The redirection operator at `i`, if there is one.
pub open spec fn redirect_operator_at(p: Input, i: int) -> Option<RedirectOperator> {
    match kind_at(p, i) {
        Some(TokenKindV::Operator(op)) => redirect_operator(op),
        _ => None,
    }
}

/// The file descriptor number at `i`, if there is one.
pub open spec fn io_number_at(p: Input, i: int) -> Option<u32> {
    match kind_at(p, i) {
        Some(TokenKindV::IoNumber(n)) => Some(n),
        _ => None,
    }
}

/// A redirection starts at `i`.
pub open spec fn redirect_at(p: Input, i: int) -> bool {
    io_number_at(p, i) is Some || redirect_operator_at(p, i) is Some
}

/// The redirection at `i`: an optional number, the operator, and the target.
pub open spec fn redirect(p: Input, i: int) -> Parsed<RedirectV> {
    let fd = io_number_at(p, i);
    let j = if fd is Some {
        i + 1
    } else {
        i
    };
    match redirect_operator_at(p, j) {
        None => Err(unexpected(p, j, "a redirection operator ('<', '>', or '>>')"@)),
        Some(operator) => match word_at(p, j + 1) {
            Some(target) => Ok((RedirectV { fd, operator, target }, j + 2)),
            None => Err(unexpected(p, j + 1, "a filename"@)),
        },
    }
}

/// The redirections from `i` on, after those in `acc`.
pub open spec fn redirects(p: Input, i: int, acc: Seq<RedirectV>) -> Parsed<Seq<RedirectV>>
    decreases left(p, i),
{
    if redirect_at(p, i) {
        match redirect(p, i) {
            Ok((r, j)) => redirects(p, j, acc.push(r)),
            Err(e) => Err(e),
        }
    } else {
        Ok((acc, i))
    }
}

/// Assignments and redirections before a command name.
pub open spec fn command_prefix(
    p: Input,
    i: int,
    assignments: Seq<AssignmentV>,
    redirects: Seq<RedirectV>,
) -> Parsed<(Seq<AssignmentV>, Seq<RedirectV>)>
    decreases left(p, i),
{
    if redirect_at(p, i) {
        match redirect(p, i) {
            Ok((r, j)) => command_prefix(p, j, assignments, redirects.push(r)),
            Err(e) => Err(e),
        }
    } else {
        match assignment_at(p, i) {
            Some(a) => command_prefix(p, i + 1, assignments.push(a), redirects),
            None => Ok(((assignments, redirects), i)),
        }
    }
}

/// Arguments and redirections after a command name. A word that looks like an
/// assignment is an argument here.
pub open spec fn command_suffix(
    p: Input,
    i: int,
    args: Seq<WordV>,
    redirects: Seq<RedirectV>,
) -> Parsed<(Seq<WordV>, Seq<RedirectV>)>
    decreases left(p, i),
{
    if redirect_at(p, i) {
        match redirect(p, i) {
            Ok((r, j)) => command_suffix(p, j, args, redirects.push(r)),
            Err(e) => Err(e),
        }
    } else {
        match word_at(p, i) {
            Some(w) => command_suffix(p, i + 1, args.push(w), redirects),
            None => Ok(((args, redirects), i)),
        }
    }
}

/// The simple command at `i`. It may lack a name, but not everything.
pub open spec fn simple_command(p: Input, i: int) -> Parsed<SimpleCommandV> {
    match command_prefix(p, i, Seq::empty(), Seq::empty()) {
        Err(e) => Err(e),
        Ok(((assignments, before), j)) => {
            let name = word_at(p, j);
            let k = if name is Some {
                j + 1
            } else {
                j
            };
            match command_suffix(p, k, Seq::empty(), before) {
                Err(e) => Err(e),
                Ok(((args, redirects), m)) => if name is None && assignments.len() == 0
                    && redirects.len() == 0 {
                    Err(unexpected(p, m, "a command"@))
                } else {
                    Ok((SimpleCommandV { assignments, name, args, redirects }, m))
                },
            }
        },
    }
}

// ---- separators ---------------------------------------------------------------------

/// The separator at `i`, and the end of the newlines after it.
pub open spec fn separator(p: Input, i: int) -> (Separator, int) {
    if op_at(p, i, Operator::Semi) || newline_at(p, i) {
        (Separator::Sequential, newlines_end(p, i + 1))
    } else if op_at(p, i, Operator::Amp) {
        (Separator::Async, newlines_end(p, i + 1))
    } else {
        (Separator::End, newlines_end(p, i))
    }
}

/// Past the `;` or newlines at `i`, which have to be there.
pub open spec fn expect_sequential_sep(p: Input, i: int) -> Result<int, ParseErrorV> {
    if op_at(p, i, Operator::Semi) {
        Ok(newlines_end(p, i + 1))
    } else if newline_at(p, i) {
        Ok(newlines_end(p, i))
    } else {
        Err(unexpected(p, i, "';' or a newline"@))
    }
}

/// Past the `;` and newlines at `i`, which may be absent.
pub open spec fn optional_sequential_sep(p: Input, i: int) -> int {
    if op_at(p, i, Operator::Semi) {
        newlines_end(p, i + 1)
    } else {
        newlines_end(p, i)
    }
}

/// The words from `i` on, after those in `acc`.
pub open spec fn words(p: Input, i: int, acc: Seq<WordV>) -> (Seq<WordV>, int)
    decreases left(p, i),
{
    match word_at(p, i) {
        Some(w) => words(p, i + 1, acc.push(w)),
        None => (acc, i),
    }
}

/// The `|`-separated patterns from `i` on, after those in `acc`.
pub open spec fn more_patterns(p: Input, i: int, acc: Seq<WordV>) -> Parsed<Seq<WordV>>
    decreases left(p, i),
{
    if op_at(p, i, Operator::Pipe) {
        match expect_word(p, i + 1, "a case pattern"@) {
            Ok((w, j)) => more_patterns(p, j, acc.push(w)),
            Err(e) => Err(e),
        }
    } else {
        Ok((acc, i))
    }
}

// ---- lists ----------------------------------------------------------------------------

/// A list inside a compound command ends before token `i`.
pub open spec fn at_list_end(p: Input, i: int) -> bool {
    ||| i >= p.tokens.len()
    ||| op_at(p, i, Operator::RParen)
    ||| op_at(p, i, Operator::DSemi)
    ||| match reserved_at(p, i) {
        Some(w) => w is Then || w is Elif || w is Else || w is Fi || w is Do || w is Done || w is Esac
            || w is RBrace,
        None => false,
    }
}

/// The items of a list from `i` on, after those in `acc`: up to the end of the
/// input or, where `inner` is set, up to what ends an inner list.
pub open spec fn items(p: Input, i: int, inner: bool, acc: ListV) -> Parsed<ListV>
    decreases left(p, i), 5nat,
{
    if i >= p.tokens.len() || (inner && at_list_end(p, i)) {
        Ok((acc, i))
    } else {
        match and_or(p, i) {
            Err(e) => Err(e),
            Ok((and_or, j)) => {
                let (separator, k) = separator(p, j);
                let more = acc.push(ItemV { and_or, separator });
                if separator is End {
                    Ok((more, k))
                } else {
                    items(p, onward(i + 1, k), inner, more)
                }
            },
        }
    }
}

/// The list inside a compound command, from `i` on.
pub open spec fn compound_list(p: Input, i: int) -> Parsed<ListV>
    decreases left(p, i), 6nat,
{
    proof {
        lemma_newlines_end(p, i);
    }
    items(p, newlines_end(p, i), true, Seq::empty())
}

/// Pipelines joined by `&&` and `||`.
pub open spec fn and_or(p: Input, i: int) -> Parsed<AndOrV>
    decreases left(p, i), 4nat,
{
    match pipeline(p, i) {
        Err(e) => Err(e),
        Ok((first, j)) => and_or_rest(p, onward(i, j), first, Seq::empty()),
    }
}

/// The logical operator at `i`, if there is one.
pub open spec fn logical_op_at(p: Input, i: int) -> Option<LogicalOp> {
    if op_at(p, i, Operator::AndIf) {
        Some(LogicalOp::And)
    } else if op_at(p, i, Operator::OrIf) {
        Some(LogicalOp::Or)
    } else {
        None
    }
}

/// The rest of an and-or list, with `first` and `acc` parsed so far.
pub open spec fn and_or_rest(
    p: Input,
    i: int,
    first: Seq<CommandV>,
    acc: Seq<(LogicalOp, Seq<CommandV>)>,
) -> Parsed<AndOrV>
    decreases left(p, i), 0nat,
{
    proof {
        lemma_newlines_end(p, i + 1);
    }
    match logical_op_at(p, i) {
        None => Ok((AndOrV { first, rest: acc }, i)),
        Some(op) => {
            let k = newlines_end(p, i + 1);
            match pipeline(p, k) {
                Err(e) => Err(e),
                Ok((next, j)) => and_or_rest(p, onward(k, j), first, acc.push((op, next))),
            }
        },
    }
}

/// Commands joined by `|`.
pub open spec fn pipeline(p: Input, i: int) -> Parsed<Seq<CommandV>>
    decreases left(p, i), 3nat,
{
    match command(p, i) {
        Err(e) => Err(e),
        Ok((c, j)) => pipeline_rest(p, onward(i, j), seq![c]),
    }
}

/// The rest of a pipeline, after the commands in `acc`.
pub open spec fn pipeline_rest(p: Input, i: int, acc: Seq<CommandV>) -> Parsed<Seq<CommandV>>
    decreases left(p, i), 0nat,
{
    proof {
        lemma_newlines_end(p, i + 1);
    }
    if op_at(p, i, Operator::Pipe) {
        let k = newlines_end(p, i + 1);
        match command(p, k) {
            Err(e) => Err(e),
            Ok((c, j)) => pipeline_rest(p, onward(k, j), acc.push(c)),
        }
    } else {
        Ok((acc, i))
    }
}

// ---- commands -------------------------------------------------------------------------

/// A word, `(` and `)` stand at `i`: a function definition without a keyword.
pub open spec fn function_definition_at(p: Input, i: int) -> bool {
    word_at(p, i) is Some && op_at(p, i + 1, Operator::LParen) && op_at(p, i + 2, Operator::RParen)
}

/// A compound command starts at `i`.
pub open spec fn compound_at(p: Input, i: int) -> bool {
    op_at(p, i, Operator::LParen) || match reserved_at(p, i) {
        Some(w) => w is LBrace || w is If || w is For || w is While || w is Until || w is Case,
        None => false,
    }
}

/// The command at `i`. Only here are reserved words looked for.
pub open spec fn command(p: Input, i: int) -> Parsed<CommandV>
    decreases left(p, i), 2nat,
{
    if reserved_at(p, i) == Some(ReservedWord::Function) {
        match function_with_keyword(p, i) {
            Ok((f, j)) => Ok((CommandV::Function(f), j)),
            Err(e) => Err(e),
        }
    } else if function_definition_at(p, i) {
        match function_without_keyword(p, i) {
            Ok((f, j)) => Ok((CommandV::Function(f), j)),
            Err(e) => Err(e),
        }
    } else if compound_at(p, i) {
        match compound_command(p, i) {
            Ok((c, j)) => Ok((CommandV::Compound(c), j)),
            Err(e) => Err(e),
        }
    } else if reserved_at(p, i) is Some {
        Err(unexpected(p, i, "a command"@))
    } else {
        match simple_command(p, i) {
            Ok((c, j)) => Ok((CommandV::Simple(c), j)),
            Err(e) => Err(e),
        }
    }
}

/// `name ( ) body`
pub open spec fn function_without_keyword(p: Input, i: int) -> Parsed<FunctionV>
    decreases left(p, i), 1nat,
    when 0 <= i < p.tokens.len()
{
    proof {
        lemma_newlines_end(p, i + 3);
    }
    match expect_name(p, i) {
        Err(e) => Err(e),
        Ok((name, _)) => match function_body(p, newlines_end(p, i + 3)) {
            Ok((body, j)) => Ok((FunctionV { name, body }, j)),
            Err(e) => Err(e),
        },
    }
}

/// `function name [( )] body`
pub open spec fn function_with_keyword(p: Input, i: int) -> Parsed<FunctionV>
    decreases left(p, i), 1nat,
    when 0 <= i < p.tokens.len()
{
    proof {
        lemma_newlines_end(p, i + 2);
        lemma_newlines_end(p, i + 4);
    }
    match expect_name(p, i + 1) {
        Err(e) => Err(e),
        Ok((name, _)) => if op_at(p, i + 2, Operator::LParen) && !op_at(p, i + 3, Operator::RParen) {
            Err(unexpected(p, i + 3, "')'"@))
        } else {
            let k = if op_at(p, i + 2, Operator::LParen) {
                newlines_end(p, i + 4)
            } else {
                newlines_end(p, i + 2)
            };
            match function_body(p, k) {
                Ok((body, j)) => Ok((FunctionV { name, body }, j)),
                Err(e) => Err(e),
            }
        },
    }
}

/// The body of a function: a compound command.
pub open spec fn function_body(p: Input, i: int) -> Parsed<CompoundV>
    decreases left(p, i), 2nat,
{
    if compound_at(p, i) {
        compound_command(p, i)
    } else {
        Err(unexpected(p, i, "a compound command (a function's body)"@))
    }
}

/// The compound command at `i`, with the redirections after it.
pub open spec fn compound_command(p: Input, i: int) -> Parsed<CompoundV>
    decreases left(p, i), 1nat,
    when 0 <= i < p.tokens.len()
{
    let kind = if op_at(p, i, Operator::LParen) {
        subshell(p, i)
    } else {
        match reserved_at(p, i) {
            Some(ReservedWord::LBrace) => brace_group(p, i),
            Some(ReservedWord::If) => if_clause(p, i),
            Some(ReservedWord::For) => for_clause(p, i),
            Some(ReservedWord::While) => while_clause(p, i),
            Some(ReservedWord::Until) => until_clause(p, i),
            _ => case_clause(p, i),
        }
    };
    match kind {
        Err(e) => Err(e),
        Ok((kind, j)) => match redirects(p, j, Seq::empty()) {
            Ok((redirects, k)) => Ok((CompoundV { kind, redirects }, k)),
            Err(e) => Err(e),
        },
    }
}

/// `{ list }`
pub open spec fn brace_group(p: Input, i: int) -> Parsed<KindV>
    decreases left(p, i), 0nat,
    when 0 <= i < p.tokens.len()
{
    match compound_list(p, i + 1) {
        Err(e) => Err(e),
        Ok((body, j)) => match expect_reserved(p, j, ReservedWord::RBrace) {
            Ok(k) => Ok((KindV::BraceGroup(body), k)),
            Err(e) => Err(e),
        },
    }
}

/// The index of the first character of `s` at or after byte `offset`.
pub open spec fn index_at(s: Seq<char>, offset: nat, i: int) -> int
    decreases s.len() - i,
{
    if i >= s.len() || offset_of(s, i) >= offset {
        i
    } else {
        index_at(s, offset, i + 1)
    }
}

/// The text of `s` between two byte offsets.
pub open spec fn text_between_offsets(s: Seq<char>, from: nat, to: nat) -> Seq<char> {
    let i = index_at(s, from, 0);
    s.subrange(i, onward(i, index_at(s, to, 0)))
}

/// `( list )`. The source text is what stands between the parentheses.
pub open spec fn subshell(p: Input, i: int) -> Parsed<KindV>
    decreases left(p, i), 0nat,
    when 0 <= i < p.tokens.len()
{
    match compound_list(p, i + 1) {
        Err(e) => Err(e),
        Ok((body, j)) => match expect_operator(p, j, Operator::RParen, "')'"@) {
            Ok(k) => Ok(
                (
                    KindV::Subshell {
                        body,
                        source: text_between_offsets(
                            p.text,
                            p.tokens[i].span.end as nat,
                            p.tokens[j].span.start as nat,
                        ),
                    },
                    k,
                ),
            ),
            Err(e) => Err(e),
        },
    }
}

/// `list then list`, of an `if` or `elif`.
pub open spec fn branch(p: Input, i: int) -> Parsed<BranchV>
    decreases left(p, i), 7nat,
{
    match compound_list(p, i) {
        Err(e) => Err(e),
        Ok((condition, j)) => match expect_reserved(p, j, ReservedWord::Then) {
            Err(e) => Err(e),
            Ok(k) => match compound_list(p, onward(i, k)) {
                Ok((body, m)) => Ok((BranchV { condition, body }, m)),
                Err(e) => Err(e),
            },
        },
    }
}

/// The rest of an `if` whose first branches are parsed, through `fi`.
pub open spec fn else_part(p: Input, i: int, branches: Seq<BranchV>) -> Parsed<KindV>
    decreases left(p, i), 0nat,
{
    match reserved_at(p, i) {
        Some(ReservedWord::Elif) => match branch(p, i + 1) {
            Ok((b, j)) => else_part(p, onward(i + 1, j), branches.push(b)),
            Err(e) => Err(e),
        },
        Some(ReservedWord::Else) => match compound_list(p, i + 1) {
            Err(e) => Err(e),
            Ok((l, j)) => match expect_reserved(p, j, ReservedWord::Fi) {
                Ok(k) => Ok((KindV::If { branches, else_branch: Some(l) }, k)),
                Err(e) => Err(e),
            },
        },
        _ => match expect_reserved(p, i, ReservedWord::Fi) {
            Ok(k) => Ok((KindV::If { branches, else_branch: None }, k)),
            Err(e) => Err(e),
        },
    }
}

/// `if ... fi`
pub open spec fn if_clause(p: Input, i: int) -> Parsed<KindV>
    decreases left(p, i), 0nat,
    when 0 <= i < p.tokens.len()
{
    match branch(p, i + 1) {
        Err(e) => Err(e),
        Ok((b, j)) => else_part(p, onward(i + 1, j), seq![b]),
    }
}

/// `do list done`
pub open spec fn do_group(p: Input, i: int) -> Parsed<ListV>
    decreases left(p, i), 7nat,
{
    match expect_reserved(p, i, ReservedWord::Do) {
        Err(e) => Err(e),
        Ok(j) => match compound_list(p, j) {
            Err(e) => Err(e),
            Ok((body, k)) => match expect_reserved(p, k, ReservedWord::Done) {
                Ok(m) => Ok((body, m)),
                Err(e) => Err(e),
            },
        },
    }
}

/// A condition and a `do` group, of a `while` or `until`.
pub open spec fn loop_parts(p: Input, i: int) -> Parsed<(ListV, ListV)>
    decreases left(p, i), 8nat,
{
    match compound_list(p, i) {
        Err(e) => Err(e),
        Ok((condition, j)) => match do_group(p, onward(i, j)) {
            Ok((body, k)) => Ok(((condition, body), k)),
            Err(e) => Err(e),
        },
    }
}

/// `while list do_group`
pub open spec fn while_clause(p: Input, i: int) -> Parsed<KindV>
    decreases left(p, i), 0nat,
    when 0 <= i < p.tokens.len()
{
    match loop_parts(p, i + 1) {
        Ok(((condition, body), j)) => Ok((KindV::While { condition, body }, j)),
        Err(e) => Err(e),
    }
}

/// `until list do_group`
pub open spec fn until_clause(p: Input, i: int) -> Parsed<KindV>
    decreases left(p, i), 0nat,
    when 0 <= i < p.tokens.len()
{
    match loop_parts(p, i + 1) {
        Ok(((condition, body), j)) => Ok((KindV::Until { condition, body }, j)),
        Err(e) => Err(e),
    }
}

/// What a `for` iterates over, from just after its name, and the index of its
/// `do`.
pub open spec fn for_words(p: Input, i: int) -> Parsed<Option<Seq<WordV>>> {
    let j = newlines_end(p, i);
    if reserved_at(p, j) == Some(ReservedWord::In) {
        let (ws, k) = words(p, j + 1, Seq::empty());
        match expect_sequential_sep(p, k) {
            Ok(m) => Ok((Some(ws), m)),
            Err(e) => Err(e),
        }
    } else {
        Ok((None, optional_sequential_sep(p, j)))
    }
}

/// `for name [in words;] do_group`
pub open spec fn for_clause(p: Input, i: int) -> Parsed<KindV>
    decreases left(p, i), 0nat,
    when 0 <= i < p.tokens.len()
{
    match expect_name(p, i + 1) {
        Err(e) => Err(e),
        Ok((name, j)) => match for_words(p, j) {
            Err(e) => Err(e),
            Ok((words, k)) => match do_group(p, onward(i + 1, k)) {
                Ok((body, m)) => Ok((KindV::For { name, words, body }, m)),
                Err(e) => Err(e),
            },
        },
    }
}

/// `case word in arms esac`
pub open spec fn case_clause(p: Input, i: int) -> Parsed<KindV>
    decreases left(p, i), 0nat,
    when 0 <= i < p.tokens.len()
{
    proof {
        lemma_newlines_end(p, i + 2);
        lemma_newlines_end(p, newlines_end(p, i + 2) + 1);
    }
    match expect_word(p, i + 1, "a word to match against"@) {
        Err(e) => Err(e),
        Ok((word, _)) => match expect_reserved(p, newlines_end(p, i + 2), ReservedWord::In) {
            Err(e) => Err(e),
            Ok(k) => match case_arms(p, newlines_end(p, k), Seq::empty()) {
                Ok((arms, m)) => Ok((KindV::Case { word, arms }, m)),
                Err(e) => Err(e),
            },
        },
    }
}

/// The arms of a `case` from `i` on, after those in `acc`, through `esac`.
pub open spec fn case_arms(p: Input, i: int, acc: Seq<ArmV>) -> Parsed<Seq<ArmV>>
    decreases left(p, i), 8nat,
{
    if i >= p.tokens.len() {
        Err(unexpected(p, i, "a case pattern"@))
    } else if reserved_at(p, i) == Some(ReservedWord::Esac) {
        Ok((acc, i + 1))
    } else {
        match case_arm(p, i) {
            Ok((arm, j)) => case_arms(p, onward(i + 1, j), acc.push(arm)),
            Err(e) => Err(e),
        }
    }
}

/// `[(] pattern [| pattern]... ) list [;;]`
pub open spec fn case_arm(p: Input, i: int) -> Parsed<ArmV>
    decreases left(p, i), 7nat,
{
    let first = if op_at(p, i, Operator::LParen) {
        i + 1
    } else {
        i
    };
    match expect_word(p, first, "a case pattern"@) {
        Err(e) => Err(e),
        Ok((w, j)) => match more_patterns(p, j, seq![w]) {
            Err(e) => Err(e),
            Ok((patterns, k)) => match expect_operator(p, k, Operator::RParen, "')'"@) {
                Err(e) => Err(e),
                Ok(m) => match compound_list(p, onward(i, newlines_end(p, m))) {
                    Err(e) => Err(e),
                    Ok((body, n)) => if op_at(p, n, Operator::DSemi) {
                        Ok(
                            (
                                ArmV { patterns, body, terminator: CaseTerminator::Break },
                                newlines_end(p, n + 1),
                            ),
                        )
                    } else if reserved_at(p, n) == Some(ReservedWord::Esac) {
                        Ok((ArmV { patterns, body, terminator: CaseTerminator::Omitted }, n))
                    } else {
                        Err(unexpected(p, n, "';;' or 'esac'"@))
                    },
                },
            },
        },
    }
}

// ---- programs ---------------------------------------------------------------------------

/// The whole input as a list of commands.
pub open spec fn program(p: Input) -> Result<ListV, ParseErrorV> {
    match items(p, newlines_end(p, 0), false, Seq::empty()) {
        Err(e) => Err(e),
        Ok((list, j)) => if j < p.tokens.len() {
            Err(unexpected(p, j, "a separator (';', '&', or newline) or end of input"@))
        } else {
            Ok(list)
        },
    }
}

/// The list of commands that `text` writes.
pub open spec fn source(text: Seq<char>) -> Result<ListV, ParseErrorV> {
    match crate::lexer::rules::tokens_from(text, 0, Seq::empty()) {
        Err(e) => Err(ParseErrorV::Lex(e)),
        Ok(tokens) => program(Input { text, tokens }),
    }
}

} // verus!
