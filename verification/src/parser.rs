//! The parser: from tokens to a syntax tree, as [`grammar`] states it.

use vstd::prelude::*;

use crate::ast::{
    arms_view, assignments_view, branch_view, branches_view, commands_view, group_ast_views,
    items_view, lemma_empty_views, redirects_view, rest_view, words_view, AndOrList, Assignment,
    CaseArm, CaseClause, CaseTerminator, Command, CommandList, CommandListItem, CompoundCommand,
    CompoundCommandKind, ForClause, FunctionDefinition, IfClause, KindV, LogicalOp, Pipeline,
    Redirect, RedirectOperator, Separator, SimpleCommand, SimpleCommandV, SubshellBody, UntilClause,
    WhileClause,
};
use crate::lexer::rules::{at, name_end};
use crate::lexer::{lex, lex_error_text, LexError};
use crate::numbers::{decimal, usize_to_text};
use crate::text::{
    byte_len, char_width, chars_of, is_name, is_name_char, is_name_start, join3,
    lemma_offset_monotonic, offset_of, same_text, text_between,
};
use crate::token::{
    segment_view, tokens_view, Operator, Span, Token, TokenKind, Word, WordSegment, WordSegmentV,
    WordV,
};

pub mod accepted;
pub mod excerpt;
pub mod grammar;
pub mod kept;
pub mod laws;
pub mod written;

use grammar::{
    debug_text, index_at, newline_at, newlines_end, op_at, reserved_at, unexpected, word_at, Input,
    ParseErrorV, ReservedWord,
};

verus! {

broadcast use group_ast_views;

/// Why input cannot be parsed.
#[derive(Debug, PartialEq, Eq)]
pub enum ParseError {
    /// It cannot be split into tokens.
    Lex(LexError),
    /// A token stands where the grammar does not allow it.
    UnexpectedToken { found: String, span: Span, expected: String },
    /// The input ends where the grammar requires another token.
    UnexpectedEof { expected: String },
    /// A construct of the language that is not supported yet.
    UnsupportedConstruct { message: String, span: Span },
}

impl View for ParseError {
    type V = ParseErrorV;

    open spec fn view(&self) -> ParseErrorV {
        match self {
            ParseError::Lex(e) => ParseErrorV::Lex(*e),
            ParseError::UnexpectedToken { found, span, expected } => ParseErrorV::UnexpectedToken {
                found: found@,
                span: *span,
                expected: expected@,
            },
            ParseError::UnexpectedEof { expected } => ParseErrorV::UnexpectedEof {
                expected: expected@,
            },
            ParseError::UnsupportedConstruct { message, span } => {
                ParseErrorV::UnsupportedConstruct { message: message@, span: *span }
            },
        }
    }
}

/// The message of a [`ParseError`].
pub open spec fn parse_error_text(e: ParseErrorV) -> Seq<char> {
    match e {
        ParseErrorV::Lex(e) => lex_error_text(e),
        ParseErrorV::UnexpectedToken { found, span, expected } => {
            "unexpected "@ + found + " at byte "@ + decimal(span.start as int) + ", expected "@
                + expected
        },
        ParseErrorV::UnexpectedEof { expected } => {
            "unexpected end of input, expected "@ + expected
        },
        ParseErrorV::UnsupportedConstruct { message, span } => {
            message + " (at byte "@ + decimal(span.start as int) + ")"@
        },
    }
}

impl ParseError {
    /// What went wrong, in words.
    #[must_use]
    pub fn message(&self) -> (r: String)
        ensures
            r@ == parse_error_text(self@),
    {
        match self {
            ParseError::Lex(e) => e.message(),
            ParseError::UnexpectedToken { found, span, expected } => {
                let head = join3("unexpected ", found.as_str(), " at byte ");
                let tail = join3(usize_to_text(span.start).as_str(), ", expected ", expected.as_str());
                let r = join3(head.as_str(), tail.as_str(), "");
                proof {
                    reveal_strlit("");
                    assert(r@ =~= parse_error_text(self@));
                }
                r
            },
            ParseError::UnexpectedEof { expected } => {
                let r = join3("unexpected end of input, expected ", expected.as_str(), "");
                proof {
                    reveal_strlit("");
                    assert(r@ =~= parse_error_text(self@));
                }
                r
            },
            ParseError::UnsupportedConstruct { message, span } => {
                let head = join3(message.as_str(), " (at byte ", usize_to_text(span.start).as_str());
                let r = join3(head.as_str(), ")", "");
                proof {
                    reveal_strlit("");
                    assert(r@ =~= parse_error_text(self@));
                }
                r
            },
        }
    }
}

/// Formats `text` with `{:?}`, as [`str`]'s `Debug` does: in double quotes, with
/// special characters escaped.
#[verifier::external_body]
pub(crate) fn debug_quote(text: &str) -> (r: String)
    ensures
        r@ == debug_text(text@),
{
    format!("{:?}", text)
}

/// Whether `s` is a shell name.
pub fn is_valid_name(s: &str) -> (r: bool)
    ensures
        r == is_name(s@),
{
    let v = chars_of(s);
    if v.len() == 0 || !is_name_start(v[0]) {
        return false;
    }
    let mut i: usize = 0;
    while i < v.len()
        invariant
            i <= v@.len(),
            v@ == s@,
            forall|k: int| 0 <= k < i ==> is_name_char(#[trigger] v@[k]),
        decreases v@.len() - i,
    {
        if !is_name_char(v[i]) {
            return false;
        }
        i = i + 1;
    }
    true
}

fn operator_text(op: Operator) -> (r: &'static str)
    ensures
        r@ == grammar::operator_text(op),
{
    match op {
        Operator::Pipe => "|",
        Operator::OrIf => "||",
        Operator::Amp => "&",
        Operator::AndIf => "&&",
        Operator::Semi => ";",
        Operator::DSemi => ";;",
        Operator::Less => "<",
        Operator::Great => ">",
        Operator::DLess => "<<",
        Operator::DLessDash => "<<-",
        Operator::LessAnd => "<&",
        Operator::GreatAnd => ">&",
        Operator::DGreat => ">>",
        Operator::LessGreat => "<>",
        Operator::Clobber => ">|",
        Operator::LParen => "(",
        Operator::RParen => ")",
    }
}

fn describe_deferred_operator(op: Operator) -> (r: Option<&'static str>)
    ensures
        match grammar::deferred_operator(op) {
            Some(t) => r is Some && r->0@ == t,
            None => r is None,
        },
{
    match op {
        Operator::DLess => Some("'<<' (here-document) is not yet supported"),
        Operator::DLessDash => Some(
            "'<<-' (here-document with leading-tab stripping) is not yet supported",
        ),
        Operator::LessAnd => Some("'<&' (fd-duplicating input redirection) is not yet supported"),
        Operator::GreatAnd => Some("'>&' (fd-duplicating output redirection) is not yet supported"),
        Operator::LessGreat => Some("'<>' (open for read+write) is not yet supported"),
        Operator::Clobber => Some(
            "'>|' (clobber-override output redirection) is not yet supported",
        ),
        _ => None,
    }
}

fn describe_token_kind(kind: &TokenKind) -> (r: String)
    ensures
        r@ == grammar::token_text(kind@),
{
    match kind {
        TokenKind::Word(w) => match w.as_plain_literal() {
            Some(text) => {
                let r = join3("word ", debug_quote(text).as_str(), "");
                proof {
                    reveal_strlit("");
                    assert(r@ =~= "word "@ + debug_text(text@));
                }
                r
            },
            None => "a quoted/expansion word".to_owned(),
        },
        TokenKind::IoNumber(n) => join3("IO number '", usize_to_text(*n as usize).as_str(), "'"),
        TokenKind::Operator(op) => join3("operator '", operator_text(*op), "'"),
        TokenKind::Newline => "newline".to_owned(),
    }
}

fn reserved_word_text(word: ReservedWord) -> (r: &'static str)
    ensures
        r@ == grammar::reserved_text(word),
{
    reveal(grammar::reserved_text);
    match word {
        ReservedWord::If => "'if'",
        ReservedWord::Then => "'then'",
        ReservedWord::Elif => "'elif'",
        ReservedWord::Else => "'else'",
        ReservedWord::Fi => "'fi'",
        ReservedWord::For => "'for'",
        ReservedWord::While => "'while'",
        ReservedWord::Until => "'until'",
        ReservedWord::Do => "'do'",
        ReservedWord::Done => "'done'",
        ReservedWord::Case => "'case'",
        ReservedWord::Esac => "'esac'",
        ReservedWord::In => "'in'",
        ReservedWord::LBrace => "'{'",
        ReservedWord::RBrace => "'}'",
        ReservedWord::Function => "'function'",
    }
}

/// The reserved word that `word` is, if any.
fn reserved_word(word: &Word) -> (r: Option<ReservedWord>)
    ensures
        r == grammar::reserved(word@),
{
    reveal(grammar::reserved);
    let text = match word.as_plain_literal() {
        None => return None,
        Some(text) => text,
    };
    if same_text(text, "if") {
        Some(ReservedWord::If)
    } else if same_text(text, "then") {
        Some(ReservedWord::Then)
    } else if same_text(text, "elif") {
        Some(ReservedWord::Elif)
    } else if same_text(text, "else") {
        Some(ReservedWord::Else)
    } else if same_text(text, "fi") {
        Some(ReservedWord::Fi)
    } else if same_text(text, "for") {
        Some(ReservedWord::For)
    } else if same_text(text, "while") {
        Some(ReservedWord::While)
    } else if same_text(text, "until") {
        Some(ReservedWord::Until)
    } else if same_text(text, "do") {
        Some(ReservedWord::Do)
    } else if same_text(text, "done") {
        Some(ReservedWord::Done)
    } else if same_text(text, "case") {
        Some(ReservedWord::Case)
    } else if same_text(text, "esac") {
        Some(ReservedWord::Esac)
    } else if same_text(text, "in") {
        Some(ReservedWord::In)
    } else if same_text(text, "{") {
        Some(ReservedWord::LBrace)
    } else if same_text(text, "}") {
        Some(ReservedWord::RBrace)
    } else if same_text(text, "function") {
        Some(ReservedWord::Function)
    } else {
        None
    }
}

/// `w` starts with a name and, at index `k` of its first segment, an `=`.
spec fn writes_assignment(w: WordV, k: int) -> bool {
    &&& w.len() > 0
    &&& w[0] is Literal
    &&& w[0]->Literal_0.len() > 0
    &&& is_name_start(w[0]->Literal_0[0])
    &&& k == name_end(w[0]->Literal_0, 0)
    &&& at(w[0]->Literal_0, k) == Some('=')
}

/// Whether the first `n` characters of `t` are typed at the start of `s`, apart
/// from line continuations.
fn is_typed(s: &Vec<char>, t: &Vec<char>, n: usize) -> (r: bool)
    requires
        n <= t@.len(),
    ensures
        r == grammar::typed_from(s@, 0, t@.take(n as int), 0),
{
    let ghost want = t@.take(n as int);
    let mut i: usize = 0;
    let mut k: usize = 0;
    while k < n
        invariant
            n <= t@.len(),
            want == t@.take(n as int),
            i <= s@.len(),
            k <= n,
            grammar::typed_from(s@, 0, want, 0) == grammar::typed_from(
                s@,
                i as int,
                want,
                k as int,
            ),
        decreases s@.len() - i,
    {
        if i >= s.len() {
            return false;
        }
        if s[i] == '\\' && i + 1 < s.len() && s[i + 1] == '\n' {
            i += 2;
        } else if s[i] == t[k] {
            i += 1;
            k += 1;
        } else {
            return false;
        }
    }
    true
}

/// The index in the first segment of `word` of the `=` of an assignment, if
/// `word` writes one.
fn assignment_name_end(word: &Word) -> (r: Option<usize>)
    ensures
        match r {
            Some(k) => word.segments@.len() > 0 && writes_assignment(word@, k as int),
            None => grammar::assignment(word@) is None,
        },
{
    reveal(grammar::assignment);
    if word.segments.len() == 0 {
        return None;
    }
    assert(word@[0] == segment_view(word.segments@[0]));
    let text = match &word.segments[0] {
        WordSegment::Literal(text) => chars_of(text.as_str()),
        _ => return None,
    };
    if text.len() == 0 || !is_name_start(text[0]) {
        return None;
    }
    let mut k: usize = 0;
    while k < text.len() && is_name_char(text[k])
        invariant
            k <= text@.len(),
            name_end(text@, 0) == name_end(text@, k as int),
        decreases text@.len() - k,
    {
        k = k + 1;
    }
    if k < text.len() && text[k] == '=' {
        Some(k)
    } else {
        None
    }
}

/// The assignment that `word` writes, its `=` at index `eq` of the first
/// segment.
fn split_assignment(word: Word, eq: usize) -> (r: Assignment)
    requires
        writes_assignment(word@, eq as int),
    ensures
        grammar::assignment(word@) == Some(r@),
{
    reveal(grammar::assignment);
    let mut word = word;
    let ghost before = word@;
    assert(word@[0] == segment_view(word.segments@[0]));
    let text = match &word.segments[0] {
        WordSegment::Literal(text) => chars_of(text.as_str()),
        _ => Vec::new(),
    };
    assert(before[0]->Literal_0 == text@);
    let len: usize = text.len();
    assert(eq < len);
    let name = text_between(&text, 0, eq);
    if eq + 1 == len {
        assert(text@.subrange(eq + 1, text@.len() as int) =~= Seq::<char>::empty());
        let removed = word.segments.remove(0);
        assert(word@ =~= before.drop_first());
    } else {
        let rest = text_between(&text, eq + 1, text.len());
        let ghost rest_view = rest@;
        let ghost old_segments = word.segments@;
        word.segments.set(0, WordSegment::Literal(rest));
        assert(word@ =~= before.update(0, WordSegmentV::Literal(rest_view)));
    }
    let r = Assignment { name, value: word };
    assert(r@ == grammar::assignment(before)->0);
    r
}

/// `offsets` holds the byte offset of each character of `s`.
#[verifier::opaque]
spec fn are_offsets(offsets: Seq<usize>, s: Seq<char>) -> bool {
    offsets.len() == s.len() && forall|k: int|
        0 <= k < s.len() ==> #[trigger] offsets[k] == offset_of(s, k)
}

/// The byte offset of each character of `s`.
fn char_offsets(s: &Vec<char>) -> (r: Vec<usize>)
    requires
        byte_len(s@) <= usize::MAX,
    ensures
        are_offsets(r@, s@),
{
    let mut r: Vec<usize> = Vec::new();
    let mut i: usize = 0;
    let mut here: usize = 0;
    while i < s.len()
        invariant
            i <= s@.len(),
            here == offset_of(s@, i as int),
            byte_len(s@) <= usize::MAX,
            r@.len() == i,
            forall|k: int| 0 <= k < i ==> #[trigger] r@[k] == offset_of(s@, k),
        decreases s@.len() - i,
    {
        proof {
            lemma_offset_monotonic(s@, i + 1, s@.len() as int);
        }
        r.push(here);
        here = here + char_width(s[i]);
        i = i + 1;
    }
    reveal(are_offsets);
    r
}

proof fn lemma_index_at(s: Seq<char>, offset: nat, k: int, i: int)
    requires
        0 <= i <= k <= s.len(),
        k < s.len() ==> offset_of(s, k) >= offset,
        k > 0 ==> offset_of(s, k - 1) < offset,
    ensures
        index_at(s, offset, i) == k,
    decreases k - i,
{
    if i < k {
        lemma_offset_monotonic(s, i, k - 1);
        lemma_index_at(s, offset, k, i + 1);
    }
}

/// The index of the first character at or after byte `offset`.
fn index_of_offset(s: &Vec<char>, offsets: &Vec<usize>, offset: usize) -> (r: usize)
    requires
        are_offsets(offsets@, s@),
    ensures
        r == index_at(s@, offset as nat, 0),
        r <= s@.len(),
{
    reveal(are_offsets);
    let mut low: usize = 0;
    let mut high: usize = s.len();
    while low < high
        invariant
            low <= high <= s@.len(),
            offsets@.len() == s@.len(),
            forall|k: int| 0 <= k < s@.len() ==> #[trigger] offsets@[k] == offset_of(s@, k),
            high < s@.len() ==> offset_of(s@, high as int) >= offset,
            low > 0 ==> offset_of(s@, low - 1) < offset,
        decreases high - low,
    {
        let middle: usize = low + (high - low) / 2;
        assert(offsets@[middle as int] == offset_of(s@, middle as int));
        if offsets[middle] < offset {
            low = middle + 1;
        } else {
            high = middle;
        }
    }
    proof {
        lemma_index_at(s@, offset as nat, low as int, 0);
    }
    low
}

/// The text between two byte offsets.
fn slice_offsets(s: &Vec<char>, offsets: &Vec<usize>, from: usize, to: usize) -> (r: String)
    requires
        are_offsets(offsets@, s@),
    ensures
        r@ == grammar::text_between_offsets(s@, from as nat, to as nat),
{
    let i: usize = index_of_offset(s, offsets, from);
    let j: usize = index_of_offset(s, offsets, to);
    if j > i {
        text_between(s, i, j)
    } else {
        text_between(s, i, i)
    }
}

struct Parser {
    source: Vec<char>,
    offsets: Vec<usize>,
    tokens: Vec<Token>,
    pos: usize,
}

impl Parser {
    #[verifier::opaque]
    spec fn input(&self) -> Input {
        Input { text: self.source@, tokens: tokens_view(self.tokens@) }
    }

    spec fn wf(&self) -> bool {
        &&& self.pos <= self.input().tokens.len()
        &&& are_offsets(self.offsets@, self.source@)
    }

    /// The parser has moved from `before` to token `j`, forward.
    spec fn moved(&self, before: &Parser, j: int) -> bool {
        &&& self.wf()
        &&& self.input() == before.input()
        &&& before.pos <= self.pos
        &&& self.pos == j
    }

    // ---- cursor -----------------------------------------------------------------

    fn at_eof(&self) -> (r: bool)
        ensures
            r == (self.pos >= self.input().tokens.len()),
    {
        reveal(Parser::input);
        self.pos >= self.tokens.len()
    }

    fn at_operator(&self, op: Operator) -> (r: bool)
        ensures
            r == op_at(self.input(), self.pos as int, op),
    {
        self.operator_at(self.pos, op)
    }

    fn operator_at(&self, i: usize, op: Operator) -> (r: bool)
        ensures
            r == op_at(self.input(), i as int, op),
    {
        reveal(Parser::input);
        if i < self.tokens.len() {
            assert(self.input().tokens[i as int] == self.tokens@[i as int]@);
            match &self.tokens[i].kind {
                TokenKind::Operator(o) => *o == op,
                _ => false,
            }
        } else {
            false
        }
    }

    fn at_newline(&self) -> (r: bool)
        ensures
            r == newline_at(self.input(), self.pos as int),
    {
        reveal(Parser::input);
        if self.pos < self.tokens.len() {
            assert(self.input().tokens[self.pos as int] == self.tokens@[self.pos as int]@);
            match &self.tokens[self.pos].kind {
                TokenKind::Newline => true,
                _ => false,
            }
        } else {
            false
        }
    }

    fn at_word(&self) -> (r: bool)
        ensures
            r == (word_at(self.input(), self.pos as int) is Some),
    {
        self.peek_word().is_some()
    }

    fn peek_word(&self) -> (r: Option<&Word>)
        ensures
            match word_at(self.input(), self.pos as int) {
                Some(w) => r is Some && r->0@ == w,
                None => r is None,
            },
    {
        reveal(Parser::input);
        if self.pos < self.tokens.len() {
            assert(self.input().tokens[self.pos as int] == self.tokens@[self.pos as int]@);
            match &self.tokens[self.pos].kind {
                TokenKind::Word(w) => Some(w),
                _ => None,
            }
        } else {
            None
        }
    }

    /// Whether the first `n` characters of `t` are typed at the start of the token
    /// at the cursor.
    fn types(&self, t: &Vec<char>, n: usize) -> (r: bool)
        requires
            self.wf(),
            self.pos < self.input().tokens.len(),
            n <= t@.len(),
        ensures
            r == grammar::typed_from(
                grammar::source_of(self.input(), self.pos as int),
                0,
                t@.take(n as int),
                0,
            ),
    {
        reveal(Parser::input);
        assert(self.input().tokens[self.pos as int] == self.tokens@[self.pos as int]@);
        let span = self.tokens[self.pos].span;
        let raw = slice_offsets(&self.source, &self.offsets, span.start, span.end);
        is_typed(&chars_of(raw.as_str()), t, n)
    }

    /// The text of the plain word at the cursor, if there is one.
    fn peek_plain(&self) -> (r: Option<&str>)
        requires
            self.wf(),
        ensures
            match grammar::plain_at(self.input(), self.pos as int) {
                Some(t) => r is Some && r->0@ == t,
                None => r is None,
            },
    {
        match self.peek_word() {
            None => None,
            Some(word) => match word.as_plain_literal() {
                None => None,
                Some(text) => {
                    let chars = chars_of(text);
                    let n: usize = chars.len();
                    assert(chars@.take(n as int) =~= text@);
                    if self.types(&chars, n) {
                        Some(text)
                    } else {
                        None
                    }
                },
            },
        }
    }

    /// The index of the `=` in the first segment of the assignment at the cursor,
    /// if there is one.
    fn peek_assignment(&self) -> (r: Option<usize>)
        requires
            self.wf(),
        ensures
            match r {
                Some(k) => {
                    &&& grammar::assignment_at(self.input(), self.pos as int) is Some
                    &&& word_at(self.input(), self.pos as int) is Some
                    &&& writes_assignment(word_at(self.input(), self.pos as int)->0, k as int)
                },
                None => grammar::assignment_at(self.input(), self.pos as int) is None,
            },
    {
        let word = match self.peek_word() {
            None => return None,
            Some(word) => word,
        };
        let eq: usize = match assignment_name_end(word) {
            None => return None,
            Some(eq) => eq,
        };
        let ghost w = word@;
        let ghost t = w[0]->Literal_0;
        assert(w[0] == segment_view(word.segments@[0]));
        let text = match &word.segments[0] {
            WordSegment::Literal(text) => chars_of(text.as_str()),
            _ => return None,
        };
        proof {
            reveal(grammar::assignment);
            assert(t.take(eq + 1) =~= grammar::assignment(w)->0.name.push('='));
        }
        let len: usize = text.len();
        assert(eq < len);
        if self.types(&text, eq + 1) {
            Some(eq)
        } else {
            None
        }
    }

    fn peek_reserved(&self) -> (r: Option<ReservedWord>)
        requires
            self.wf(),
        ensures
            r == reserved_at(self.input(), self.pos as int),
    {
        let reserved = match self.peek_word() {
            Some(w) => reserved_word(w),
            None => None,
        };
        if reserved.is_some() && self.peek_plain().is_some() {
            reserved
        } else {
            None
        }
    }

    fn peek_io_number(&self) -> (r: Option<u32>)
        ensures
            r == grammar::io_number_at(self.input(), self.pos as int),
    {
        reveal(Parser::input);
        if self.pos < self.tokens.len() {
            assert(self.input().tokens[self.pos as int] == self.tokens@[self.pos as int]@);
            match &self.tokens[self.pos].kind {
                TokenKind::IoNumber(n) => Some(*n),
                _ => None,
            }
        } else {
            None
        }
    }

    fn peek_redirect_operator(&self) -> (r: Option<RedirectOperator>)
        ensures
            r == grammar::redirect_operator_at(self.input(), self.pos as int),
    {
        reveal(Parser::input);
        if self.pos < self.tokens.len() {
            assert(self.input().tokens[self.pos as int] == self.tokens@[self.pos as int]@);
            match &self.tokens[self.pos].kind {
                TokenKind::Operator(Operator::Less) => Some(RedirectOperator::Input),
                TokenKind::Operator(Operator::Great) => Some(RedirectOperator::Output),
                TokenKind::Operator(Operator::DGreat) => Some(RedirectOperator::Append),
                _ => None,
            }
        } else {
            None
        }
    }

    fn at_redirect(&self) -> (r: bool)
        ensures
            r == grammar::redirect_at(self.input(), self.pos as int),
    {
        self.peek_io_number().is_some() || self.peek_redirect_operator().is_some()
    }

    fn next(&mut self)
        requires
            old(self).wf(),
            old(self).pos < old(self).input().tokens.len(),
        ensures
            final(self).moved(old(self), old(self).pos + 1),
    {
        reveal(Parser::input);
        let len: usize = self.tokens.len();
        assert(self.pos < len);
        self.pos = self.pos + 1;
    }

    /// Consumes the word at the cursor.
    fn next_word(&mut self) -> (r: Word)
        requires
            old(self).wf(),
            word_at(old(self).input(), old(self).pos as int) is Some,
        ensures
            final(self).moved(old(self), old(self).pos + 1),
            word_at(old(self).input(), old(self).pos as int) == Some(r@),
    {
        let word = match self.peek_word() {
            Some(w) => w.clone(),
            None => Word::new(Vec::new()),
        };
        self.next();
        word
    }

    fn skip_newlines(&mut self)
        requires
            old(self).wf(),
        ensures
            final(self).moved(old(self), newlines_end(old(self).input(), old(self).pos as int)),
    {
        while self.at_newline()
            invariant
                self.moved(old(self), self.pos as int),
                newlines_end(old(self).input(), old(self).pos as int) == newlines_end(
                    self.input(),
                    self.pos as int,
                ),
            decreases self.input().tokens.len() - self.pos,
        {
            self.next();
        }
    }

    /// The error for the token at the cursor.
    fn error_for_unexpected(&self, expected: &str) -> (r: ParseError)
        requires
            self.wf(),
        ensures
            r@ == unexpected(self.input(), self.pos as int, expected@),
    {
        reveal(Parser::input);
        reveal(grammar::unexpected);
        if self.pos >= self.tokens.len() {
            return ParseError::UnexpectedEof { expected: expected.to_owned() };
        }
        assert(self.input().tokens[self.pos as int] == self.tokens@[self.pos as int]@);
        let token = &self.tokens[self.pos];
        if let TokenKind::Operator(op) = &token.kind {
            if let Some(message) = describe_deferred_operator(*op) {
                return ParseError::UnsupportedConstruct {
                    message: message.to_owned(),
                    span: token.span,
                };
            }
        }
        ParseError::UnexpectedToken {
            found: describe_token_kind(&token.kind),
            span: token.span,
            expected: expected.to_owned(),
        }
    }

    fn expect_reserved(&mut self, want: ReservedWord) -> (r: Result<(), ParseError>)
        requires
            old(self).wf(),
        ensures
            match grammar::expect_reserved(old(self).input(), old(self).pos as int, want) {
                Ok(j) => r is Ok && final(self).moved(old(self), j),
                Err(e) => r is Err && r->Err_0@ == e,
            },
    {
        if self.peek_reserved() == Some(want) {
            self.next();
            Ok(())
        } else {
            Err(self.error_for_unexpected(reserved_word_text(want)))
        }
    }

    fn expect_operator(&mut self, want: Operator, what: &str) -> (r: Result<(), ParseError>)
        requires
            old(self).wf(),
        ensures
            match grammar::expect_operator(old(self).input(), old(self).pos as int, want, what@) {
                Ok(j) => r is Ok && final(self).moved(old(self), j),
                Err(e) => r is Err && r->Err_0@ == e,
            },
    {
        if self.at_operator(want) {
            self.next();
            Ok(())
        } else {
            Err(self.error_for_unexpected(what))
        }
    }

    fn expect_word(&mut self, what: &str) -> (r: Result<Word, ParseError>)
        requires
            old(self).wf(),
        ensures
            match grammar::expect_word(old(self).input(), old(self).pos as int, what@) {
                Ok((w, j)) => r is Ok && r->Ok_0@ == w && final(self).moved(old(self), j),
                Err(e) => r is Err && r->Err_0@ == e,
            },
    {
        if self.at_word() {
            Ok(self.next_word())
        } else {
            Err(self.error_for_unexpected(what))
        }
    }

    fn expect_name(&mut self) -> (r: Result<String, ParseError>)
        requires
            old(self).wf(),
        ensures
            match grammar::expect_name(old(self).input(), old(self).pos as int) {
                Ok((n, j)) => r is Ok && r->Ok_0@ == n && final(self).moved(old(self), j),
                Err(e) => r is Err && r->Err_0@ == e,
            },
    {
        if let Some(text) = self.peek_plain() {
            if is_valid_name(text) {
                let name = text.to_owned();
                self.next();
                return Ok(name);
            }
        }
        Err(self.error_for_unexpected("a name"))
    }

    // ---- simple commands ----------------------------------------------------------

    fn parse_redirect(&mut self) -> (r: Result<Redirect, ParseError>)
        requires
            old(self).wf(),
        ensures
            match grammar::redirect(old(self).input(), old(self).pos as int) {
                Ok((v, j)) => r is Ok && r->Ok_0@ == v && final(self).moved(old(self), j) && j > old(
                    self,
                ).pos,
                Err(e) => r is Err && r->Err_0@ == e,
            },
    {
        let fd = self.peek_io_number();
        if fd.is_some() {
            self.next();
        }
        let operator = match self.peek_redirect_operator() {
            Some(op) => op,
            None => {
                return Err(self.error_for_unexpected("a redirection operator ('<', '>', or '>>')"));
            },
        };
        self.next();
        if !self.at_word() {
            return Err(self.error_for_unexpected("a filename"));
        }
        let target = self.next_word();
        Ok(Redirect { fd, operator, target })
    }

    fn parse_redirect_list(&mut self) -> (r: Result<Vec<Redirect>, ParseError>)
        requires
            old(self).wf(),
        ensures
            match grammar::redirects(old(self).input(), old(self).pos as int, Seq::empty()) {
                Ok((v, j)) => r is Ok && redirects_view(r->Ok_0@) == v && final(self).moved(
                    old(self),
                    j,
                ),
                Err(e) => r is Err && r->Err_0@ == e,
            },
    {
        let mut redirects: Vec<Redirect> = Vec::new();
        proof {
            lemma_empty_views();
        }
        while self.at_redirect()
            invariant
                self.moved(old(self), self.pos as int),
                grammar::redirects(old(self).input(), old(self).pos as int, Seq::empty())
                    == grammar::redirects(
                    self.input(),
                    self.pos as int,
                    redirects_view(redirects@),
                ),
            decreases self.input().tokens.len() - self.pos,
        {
            let redirect = self.parse_redirect()?;
            redirects.push(redirect);
        }
        Ok(redirects)
    }

    fn parse_simple_command(&mut self) -> (r: Result<SimpleCommand, ParseError>)
        requires
            old(self).wf(),
        ensures
            match grammar::simple_command(old(self).input(), old(self).pos as int) {
                Ok((v, j)) => r is Ok && r->Ok_0@ == v && final(self).moved(old(self), j) && j > old(
                    self,
                ).pos,
                Err(e) => r is Err && r->Err_0@ == e,
            },
    {
        let mut assignments: Vec<Assignment> = Vec::new();
        let mut redirects: Vec<Redirect> = Vec::new();
        proof {
            lemma_empty_views();
        }
        loop
            invariant_except_break
                self.moved(old(self), self.pos as int),
                self.pos > old(self).pos <==> assignments@.len() > 0 || redirects@.len() > 0,
                grammar::command_prefix(
                    old(self).input(),
                    old(self).pos as int,
                    Seq::empty(),
                    Seq::empty(),
                ) == grammar::command_prefix(
                    self.input(),
                    self.pos as int,
                    assignments_view(assignments@),
                    redirects_view(redirects@),
                ),
            ensures
                self.moved(old(self), self.pos as int),
                self.pos > old(self).pos <==> assignments@.len() > 0 || redirects@.len() > 0,
                grammar::command_prefix(
                    old(self).input(),
                    old(self).pos as int,
                    Seq::empty(),
                    Seq::empty(),
                ) == Ok::<_, ParseErrorV>(
                    (
                        (assignments_view(assignments@), redirects_view(redirects@)),
                        self.pos as int,
                    ),
                ),
            decreases self.input().tokens.len() - self.pos,
        {
            if self.at_redirect() {
                let redirect = self.parse_redirect()?;
                redirects.push(redirect);
                continue;
            }
            let eq: usize = match self.peek_assignment() {
                None => break,
                Some(eq) => eq,
            };
            let word = self.next_word();
            assignments.push(split_assignment(word, eq));
        }
        let name = if self.at_word() {
            Some(self.next_word())
        } else {
            None
        };
        let mut args: Vec<Word> = Vec::new();
        let ghost middle = *self;
        let ghost before = redirects_view(redirects@);
        let ghost before_len = redirects@.len();
        let ghost suffix = grammar::command_suffix(
            middle.input(),
            middle.pos as int,
            Seq::empty(),
            before,
        );
        loop
            invariant_except_break
                self.moved(&middle, self.pos as int),
                suffix == grammar::command_suffix(
                    middle.input(),
                    middle.pos as int,
                    Seq::empty(),
                    before,
                ),
                suffix is Err ==> grammar::simple_command(old(self).input(), old(self).pos as int)
                    == Err::<(SimpleCommandV, int), ParseErrorV>(suffix->Err_0),
                redirects@.len() >= before_len,
                self.pos > middle.pos ==> args@.len() > 0 || redirects@.len() > before_len,
                redirects@.len() > before_len ==> self.pos > middle.pos,
                grammar::command_suffix(middle.input(), middle.pos as int, Seq::empty(), before)
                    == grammar::command_suffix(
                    self.input(),
                    self.pos as int,
                    words_view(args@),
                    redirects_view(redirects@),
                ),
            ensures
                self.moved(&middle, self.pos as int),
                redirects@.len() >= before_len,
                redirects@.len() > before_len ==> self.pos > middle.pos,
                grammar::command_suffix(middle.input(), middle.pos as int, Seq::empty(), before)
                    == Ok::<_, ParseErrorV>(
                    ((words_view(args@), redirects_view(redirects@)), self.pos as int),
                ),
            decreases self.input().tokens.len() - self.pos,
        {
            if self.at_redirect() {
                let redirect = self.parse_redirect()?;
                redirects.push(redirect);
            } else if self.at_word() {
                args.push(self.next_word());
            } else {
                break;
            }
        }
        if name.is_none() && assignments.len() == 0 && redirects.len() == 0 {
            return Err(self.error_for_unexpected("a command"));
        }
        Ok(SimpleCommand { assignments, name, args, redirects })
    }

    // ---- lists ----------------------------------------------------------------------

    fn parse_optional_separator(&mut self) -> (r: Separator)
        requires
            old(self).wf(),
        ensures
            r == grammar::separator(old(self).input(), old(self).pos as int).0,
            final(self).moved(
                old(self),
                grammar::separator(old(self).input(), old(self).pos as int).1,
            ),
    {
        let separator = if self.at_operator(Operator::Semi) || self.at_newline() {
            self.next();
            Separator::Sequential
        } else if self.at_operator(Operator::Amp) {
            self.next();
            Separator::Async
        } else {
            Separator::End
        };
        self.skip_newlines();
        separator
    }

    fn at_compound_list_end(&self) -> (r: bool)
        requires
            self.wf(),
        ensures
            r == grammar::at_list_end(self.input(), self.pos as int),
    {
        if self.at_eof() || self.at_operator(Operator::RParen) || self.at_operator(
            Operator::DSemi,
        ) {
            return true;
        }
        match self.peek_reserved() {
            Some(ReservedWord::Then) => true,
            Some(ReservedWord::Elif) => true,
            Some(ReservedWord::Else) => true,
            Some(ReservedWord::Fi) => true,
            Some(ReservedWord::Do) => true,
            Some(ReservedWord::Done) => true,
            Some(ReservedWord::Esac) => true,
            Some(ReservedWord::RBrace) => true,
            _ => false,
        }
    }

    /// The items of a list, up to its end.
    fn parse_items(&mut self, inner: bool) -> (r: Result<CommandList, ParseError>)
        requires
            old(self).wf(),
        ensures
            match grammar::items(old(self).input(), old(self).pos as int, inner, Seq::empty()) {
                Ok((v, j)) => r is Ok && r->Ok_0@ == v && final(self).moved(old(self), j),
                Err(e) => r is Err && r->Err_0@ == e,
            },
        decreases old(self).input().tokens.len() - old(self).pos, 5nat,
    {
        let mut items: Vec<CommandListItem> = Vec::new();
        proof {
            lemma_empty_views();
        }
        loop
            invariant
                self.moved(old(self), self.pos as int),
                grammar::items(old(self).input(), old(self).pos as int, inner, Seq::empty())
                    == grammar::items(self.input(), self.pos as int, inner, items_view(items@)),
            decreases self.input().tokens.len() - self.pos,
        {
            if self.at_eof() || (inner && self.at_compound_list_end()) {
                return Ok(CommandList { items });
            }
            let and_or = self.parse_and_or()?;
            let separator = self.parse_optional_separator();
            items.push(CommandListItem { and_or, separator });
            if separator == Separator::End {
                return Ok(CommandList { items });
            }
        }
    }

    fn parse_compound_list(&mut self) -> (r: Result<CommandList, ParseError>)
        requires
            old(self).wf(),
        ensures
            match grammar::compound_list(old(self).input(), old(self).pos as int) {
                Ok((v, j)) => r is Ok && r->Ok_0@ == v && final(self).moved(old(self), j),
                Err(e) => r is Err && r->Err_0@ == e,
            },
        decreases old(self).input().tokens.len() - old(self).pos, 6nat,
    {
        self.skip_newlines();
        self.parse_items(true)
    }

    fn peek_logical_op(&self) -> (r: Option<LogicalOp>)
        ensures
            r == grammar::logical_op_at(self.input(), self.pos as int),
    {
        if self.at_operator(Operator::AndIf) {
            Some(LogicalOp::And)
        } else if self.at_operator(Operator::OrIf) {
            Some(LogicalOp::Or)
        } else {
            None
        }
    }

    fn parse_and_or(&mut self) -> (r: Result<AndOrList, ParseError>)
        requires
            old(self).wf(),
        ensures
            match grammar::and_or(old(self).input(), old(self).pos as int) {
                Ok((v, j)) => r is Ok && r->Ok_0@ == v && final(self).moved(old(self), j) && j > old(
                    self,
                ).pos,
                Err(e) => r is Err && r->Err_0@ == e,
            },
        decreases old(self).input().tokens.len() - old(self).pos, 4nat,
    {
        let first = self.parse_pipeline()?;
        let ghost first_view = first@;
        let mut rest: Vec<(LogicalOp, Pipeline)> = Vec::new();
        proof {
            lemma_empty_views();
        }
        loop
            invariant
                self.moved(old(self), self.pos as int),
                self.pos > old(self).pos,
                first@ == first_view,
                grammar::and_or(old(self).input(), old(self).pos as int) == grammar::and_or_rest(
                    self.input(),
                    self.pos as int,
                    first_view,
                    rest_view(rest@),
                ),
            decreases self.input().tokens.len() - self.pos,
        {
            let op = match self.peek_logical_op() {
                None => return Ok(AndOrList { first, rest }),
                Some(op) => op,
            };
            self.next();
            self.skip_newlines();
            let pipeline = self.parse_pipeline()?;
            rest.push((op, pipeline));
        }
    }

    fn parse_pipeline(&mut self) -> (r: Result<Pipeline, ParseError>)
        requires
            old(self).wf(),
        ensures
            match grammar::pipeline(old(self).input(), old(self).pos as int) {
                Ok((v, j)) => r is Ok && r->Ok_0@ == v && final(self).moved(old(self), j) && j > old(
                    self,
                ).pos,
                Err(e) => r is Err && r->Err_0@ == e,
            },
        decreases old(self).input().tokens.len() - old(self).pos, 3nat,
    {
        let mut commands: Vec<Command> = Vec::new();
        let first = self.parse_command()?;
        proof {
            lemma_empty_views();
        }
        commands.push(first);
        while self.at_operator(Operator::Pipe)
            invariant
                self.moved(old(self), self.pos as int),
                self.pos > old(self).pos,
                grammar::pipeline(old(self).input(), old(self).pos as int)
                    == grammar::pipeline_rest(
                    self.input(),
                    self.pos as int,
                    commands_view(commands@),
                ),
            decreases self.input().tokens.len() - self.pos,
        {
            self.next();
            self.skip_newlines();
            let command = self.parse_command()?;
            commands.push(command);
        }
        Ok(Pipeline { commands })
    }

    // ---- commands -------------------------------------------------------------------

    fn at_posix_function_definition(&self) -> (r: bool)
        requires
            self.wf(),
        ensures
            r == grammar::function_definition_at(self.input(), self.pos as int),
    {
        reveal(Parser::input);
        let len: usize = self.tokens.len();
        if !self.at_word() {
            return false;
        }
        assert(self.pos < len);
        if !self.operator_at(self.pos + 1, Operator::LParen) {
            return false;
        }
        assert(self.pos + 1 < len);
        self.operator_at(self.pos + 2, Operator::RParen)
    }

    fn at_compound(&self) -> (r: bool)
        requires
            self.wf(),
        ensures
            r == grammar::compound_at(self.input(), self.pos as int),
    {
        if self.at_operator(Operator::LParen) {
            return true;
        }
        match self.peek_reserved() {
            Some(ReservedWord::LBrace) => true,
            Some(ReservedWord::If) => true,
            Some(ReservedWord::For) => true,
            Some(ReservedWord::While) => true,
            Some(ReservedWord::Until) => true,
            Some(ReservedWord::Case) => true,
            _ => false,
        }
    }

    fn parse_command(&mut self) -> (r: Result<Command, ParseError>)
        requires
            old(self).wf(),
        ensures
            match grammar::command(old(self).input(), old(self).pos as int) {
                Ok((v, j)) => r is Ok && r->Ok_0@ == v && final(self).moved(old(self), j) && j > old(
                    self,
                ).pos,
                Err(e) => r is Err && r->Err_0@ == e,
            },
        decreases old(self).input().tokens.len() - old(self).pos, 2nat,
    {
        if self.peek_reserved() == Some(ReservedWord::Function) {
            let definition = self.parse_function_definition_with_keyword()?;
            return Ok(Command::Function(definition));
        }
        if self.at_posix_function_definition() {
            let definition = self.parse_function_definition_posix()?;
            return Ok(Command::Function(definition));
        }
        if self.at_compound() {
            let compound = self.parse_compound_command()?;
            return Ok(Command::Compound(compound));
        }
        if self.peek_reserved().is_some() {
            return Err(self.error_for_unexpected("a command"));
        }
        let simple = self.parse_simple_command()?;
        Ok(Command::Simple(simple))
    }

    fn parse_function_definition_posix(&mut self) -> (r: Result<FunctionDefinition, ParseError>)
        requires
            old(self).wf(),
            grammar::function_definition_at(old(self).input(), old(self).pos as int),
        ensures
            match grammar::function_without_keyword(old(self).input(), old(self).pos as int) {
                Ok((v, j)) => r is Ok && r->Ok_0@ == v && final(self).moved(old(self), j) && j > old(
                    self,
                ).pos,
                Err(e) => r is Err && r->Err_0@ == e,
            },
        decreases old(self).input().tokens.len() - old(self).pos, 1nat,
    {
        let name = self.expect_name()?;
        self.next();
        self.next();
        self.skip_newlines();
        let body = self.parse_function_body()?;
        Ok(FunctionDefinition { name, body })
    }

    fn parse_function_definition_with_keyword(&mut self) -> (r: Result<
        FunctionDefinition,
        ParseError,
    >)
        requires
            old(self).wf(),
            reserved_at(old(self).input(), old(self).pos as int) == Some(ReservedWord::Function),
        ensures
            match grammar::function_with_keyword(old(self).input(), old(self).pos as int) {
                Ok((v, j)) => r is Ok && r->Ok_0@ == v && final(self).moved(old(self), j) && j > old(
                    self,
                ).pos,
                Err(e) => r is Err && r->Err_0@ == e,
            },
        decreases old(self).input().tokens.len() - old(self).pos, 1nat,
    {
        self.next();
        let name = self.expect_name()?;
        if self.at_operator(Operator::LParen) {
            self.next();
            self.expect_operator(Operator::RParen, "')'")?;
        }
        self.skip_newlines();
        let body = self.parse_function_body()?;
        Ok(FunctionDefinition { name, body })
    }

    fn parse_function_body(&mut self) -> (r: Result<CompoundCommand, ParseError>)
        requires
            old(self).wf(),
        ensures
            match grammar::function_body(old(self).input(), old(self).pos as int) {
                Ok((v, j)) => r is Ok && r->Ok_0@ == v && final(self).moved(old(self), j) && j > old(
                    self,
                ).pos,
                Err(e) => r is Err && r->Err_0@ == e,
            },
        decreases old(self).input().tokens.len() - old(self).pos, 2nat,
    {
        if self.at_compound() {
            self.parse_compound_command()
        } else {
            Err(self.error_for_unexpected("a compound command (a function's body)"))
        }
    }

    // ---- compound commands ------------------------------------------------------------

    /// The compound command at the cursor, with the redirections after it.
    fn parse_compound_command(&mut self) -> (r: Result<CompoundCommand, ParseError>)
        requires
            old(self).wf(),
            grammar::compound_at(old(self).input(), old(self).pos as int),
        ensures
            match grammar::compound_command(old(self).input(), old(self).pos as int) {
                Ok((v, j)) => r is Ok && r->Ok_0@ == v && final(self).moved(old(self), j) && j > old(
                    self,
                ).pos,
                Err(e) => r is Err && r->Err_0@ == e,
            },
        decreases old(self).input().tokens.len() - old(self).pos, 1nat,
    {
        let kind = if self.at_operator(Operator::LParen) {
            self.parse_subshell()?
        } else {
            match self.peek_reserved() {
                Some(ReservedWord::LBrace) => self.parse_brace_group()?,
                Some(ReservedWord::If) => self.parse_if_clause()?,
                Some(ReservedWord::For) => self.parse_for_clause()?,
                Some(ReservedWord::While) => self.parse_while_clause()?,
                Some(ReservedWord::Until) => self.parse_until_clause()?,
                _ => self.parse_case_clause()?,
            }
        };
        let redirects = self.parse_redirect_list()?;
        Ok(CompoundCommand { kind, redirects })
    }

    fn parse_brace_group(&mut self) -> (r: Result<CompoundCommandKind, ParseError>)
        requires
            old(self).wf(),
            old(self).pos < old(self).input().tokens.len(),
        ensures
            kind_parsed(r, *old(self), *final(self), grammar::brace_group(
                old(self).input(),
                old(self).pos as int,
            )),
        decreases old(self).input().tokens.len() - old(self).pos, 0nat,
    {
        self.next();
        let body = self.parse_compound_list()?;
        self.expect_reserved(ReservedWord::RBrace)?;
        Ok(CompoundCommandKind::BraceGroup(body))
    }

    fn parse_subshell(&mut self) -> (r: Result<CompoundCommandKind, ParseError>)
        requires
            old(self).wf(),
            old(self).pos < old(self).input().tokens.len(),
        ensures
            kind_parsed(r, *old(self), *final(self), grammar::subshell(
                old(self).input(),
                old(self).pos as int,
            )),
        decreases old(self).input().tokens.len() - old(self).pos, 0nat,
    {
        reveal(Parser::input);
        assert(self.input().tokens[self.pos as int] == self.tokens@[self.pos as int]@);
        let open: usize = self.tokens[self.pos].span.end;
        self.next();
        let body = self.parse_compound_list()?;
        let close_index: usize = self.pos;
        self.expect_operator(Operator::RParen, "')'")?;
        assert(self.input().tokens[close_index as int] == self.tokens@[close_index as int]@);
        let close: usize = self.tokens[close_index].span.start;
        let source = slice_offsets(&self.source, &self.offsets, open, close);
        Ok(CompoundCommandKind::Subshell(SubshellBody { body, source }))
    }

    /// `list then list`.
    fn parse_branch(&mut self) -> (r: Result<(CommandList, CommandList), ParseError>)
        requires
            old(self).wf(),
        ensures
            match grammar::branch(old(self).input(), old(self).pos as int) {
                Ok((v, j)) => r is Ok && branch_view(r->Ok_0) == v && final(self).moved(
                    old(self),
                    j,
                ),
                Err(e) => r is Err && r->Err_0@ == e,
            },
        decreases old(self).input().tokens.len() - old(self).pos, 7nat,
    {
        let condition = self.parse_compound_list()?;
        self.expect_reserved(ReservedWord::Then)?;
        let body = self.parse_compound_list()?;
        Ok((condition, body))
    }

    /// The rest of an `if`, after its first branches.
    fn parse_else_part(&mut self, first: Vec<(CommandList, CommandList)>) -> (r: Result<
        CompoundCommandKind,
        ParseError,
    >)
        requires
            old(self).wf(),
        ensures
            kind_parsed(r, *old(self), *final(self), grammar::else_part(
                old(self).input(),
                old(self).pos as int,
                branches_view(first@),
            )),
        decreases old(self).input().tokens.len() - old(self).pos, 0nat,
    {
        let ghost start = branches_view(first@);
        let mut branches = first;
        while self.peek_reserved() == Some(ReservedWord::Elif)
            invariant
                self.moved(old(self), self.pos as int),
                start == branches_view(first@),
                grammar::else_part(old(self).input(), old(self).pos as int, start)
                    == grammar::else_part(
                    self.input(),
                    self.pos as int,
                    branches_view(branches@),
                ),
            decreases self.input().tokens.len() - self.pos,
        {
            self.next();
            let branch = self.parse_branch()?;
            branches.push(branch);
        }
        let mut else_branch: Option<CommandList> = None;
        if self.peek_reserved() == Some(ReservedWord::Else) {
            self.next();
            else_branch = Some(self.parse_compound_list()?);
        }
        self.expect_reserved(ReservedWord::Fi)?;
        Ok(CompoundCommandKind::If(IfClause { branches, else_branch }))
    }

    fn parse_if_clause(&mut self) -> (r: Result<CompoundCommandKind, ParseError>)
        requires
            old(self).wf(),
            old(self).pos < old(self).input().tokens.len(),
        ensures
            kind_parsed(r, *old(self), *final(self), grammar::if_clause(
                old(self).input(),
                old(self).pos as int,
            )),
        decreases old(self).input().tokens.len() - old(self).pos, 0nat,
    {
        self.next();
        let first = self.parse_branch()?;
        let mut branches: Vec<(CommandList, CommandList)> = Vec::new();
        proof {
            lemma_empty_views();
        }
        branches.push(first);
        self.parse_else_part(branches)
    }

    fn parse_do_group(&mut self) -> (r: Result<CommandList, ParseError>)
        requires
            old(self).wf(),
        ensures
            match grammar::do_group(old(self).input(), old(self).pos as int) {
                Ok((v, j)) => r is Ok && r->Ok_0@ == v && final(self).moved(old(self), j),
                Err(e) => r is Err && r->Err_0@ == e,
            },
        decreases old(self).input().tokens.len() - old(self).pos, 7nat,
    {
        self.expect_reserved(ReservedWord::Do)?;
        let body = self.parse_compound_list()?;
        self.expect_reserved(ReservedWord::Done)?;
        Ok(body)
    }

    /// A condition and a `do` group.
    fn parse_loop_parts(&mut self) -> (r: Result<(CommandList, CommandList), ParseError>)
        requires
            old(self).wf(),
        ensures
            match grammar::loop_parts(old(self).input(), old(self).pos as int) {
                Ok((v, j)) => r is Ok && (r->Ok_0.0@, r->Ok_0.1@) == v && final(self).moved(
                    old(self),
                    j,
                ),
                Err(e) => r is Err && r->Err_0@ == e,
            },
        decreases old(self).input().tokens.len() - old(self).pos, 8nat,
    {
        let condition = self.parse_compound_list()?;
        let body = self.parse_do_group()?;
        Ok((condition, body))
    }

    fn parse_while_clause(&mut self) -> (r: Result<CompoundCommandKind, ParseError>)
        requires
            old(self).wf(),
            old(self).pos < old(self).input().tokens.len(),
        ensures
            kind_parsed(r, *old(self), *final(self), grammar::while_clause(
                old(self).input(),
                old(self).pos as int,
            )),
        decreases old(self).input().tokens.len() - old(self).pos, 0nat,
    {
        self.next();
        let (condition, body) = self.parse_loop_parts()?;
        Ok(CompoundCommandKind::While(WhileClause { condition, body }))
    }

    fn parse_until_clause(&mut self) -> (r: Result<CompoundCommandKind, ParseError>)
        requires
            old(self).wf(),
            old(self).pos < old(self).input().tokens.len(),
        ensures
            kind_parsed(r, *old(self), *final(self), grammar::until_clause(
                old(self).input(),
                old(self).pos as int,
            )),
        decreases old(self).input().tokens.len() - old(self).pos, 0nat,
    {
        self.next();
        let (condition, body) = self.parse_loop_parts()?;
        Ok(CompoundCommandKind::Until(UntilClause { condition, body }))
    }

    fn skip_optional_sequential_sep(&mut self)
        requires
            old(self).wf(),
        ensures
            final(self).moved(
                old(self),
                grammar::optional_sequential_sep(old(self).input(), old(self).pos as int),
            ),
    {
        if self.at_operator(Operator::Semi) {
            self.next();
        }
        self.skip_newlines();
    }

    fn expect_sequential_sep(&mut self) -> (r: Result<(), ParseError>)
        requires
            old(self).wf(),
        ensures
            match grammar::expect_sequential_sep(old(self).input(), old(self).pos as int) {
                Ok(j) => r is Ok && final(self).moved(old(self), j),
                Err(e) => r is Err && r->Err_0@ == e,
            },
    {
        if self.at_operator(Operator::Semi) {
            self.next();
            self.skip_newlines();
            Ok(())
        } else if self.at_newline() {
            self.skip_newlines();
            Ok(())
        } else {
            Err(self.error_for_unexpected("';' or a newline"))
        }
    }

    /// The words at the cursor.
    fn parse_words(&mut self) -> (r: Vec<Word>)
        requires
            old(self).wf(),
        ensures
            ({
                let (ws, j) = grammar::words(
                    old(self).input(),
                    old(self).pos as int,
                    Seq::empty(),
                );
                words_view(r@) == ws && final(self).moved(old(self), j)
            }),
    {
        let mut words: Vec<Word> = Vec::new();
        proof {
            lemma_empty_views();
        }
        while self.at_word()
            invariant
                self.moved(old(self), self.pos as int),
                grammar::words(old(self).input(), old(self).pos as int, Seq::empty())
                    == grammar::words(self.input(), self.pos as int, words_view(words@)),
            decreases self.input().tokens.len() - self.pos,
        {
            words.push(self.next_word());
        }
        words
    }

    /// What a `for` iterates over.
    fn parse_for_words(&mut self) -> (r: Result<Option<Vec<Word>>, ParseError>)
        requires
            old(self).wf(),
        ensures
            match grammar::for_words(old(self).input(), old(self).pos as int) {
                Ok((v, j)) => match r {
                    Ok(Some(ws)) => v == Some(words_view(ws@)) && final(self).moved(old(self), j),
                    Ok(None) => v is None && final(self).moved(old(self), j),
                    Err(_) => false,
                },
                Err(e) => r is Err && r->Err_0@ == e,
            },
    {
        self.skip_newlines();
        if self.peek_reserved() == Some(ReservedWord::In) {
            self.next();
            let words = self.parse_words();
            self.expect_sequential_sep()?;
            Ok(Some(words))
        } else {
            self.skip_optional_sequential_sep();
            Ok(None)
        }
    }

    fn parse_for_clause(&mut self) -> (r: Result<CompoundCommandKind, ParseError>)
        requires
            old(self).wf(),
            old(self).pos < old(self).input().tokens.len(),
        ensures
            kind_parsed(r, *old(self), *final(self), grammar::for_clause(
                old(self).input(),
                old(self).pos as int,
            )),
        decreases old(self).input().tokens.len() - old(self).pos, 0nat,
    {
        self.next();
        let name = self.expect_name()?;
        let words = self.parse_for_words()?;
        let body = self.parse_do_group()?;
        Ok(CompoundCommandKind::For(ForClause { name, words, body }))
    }

    /// The patterns of a `case` arm.
    fn parse_patterns(&mut self) -> (r: Result<Vec<Word>, ParseError>)
        requires
            old(self).wf(),
        ensures
            match grammar::expect_word(
                old(self).input(),
                old(self).pos as int,
                "a case pattern"@,
            ) {
                Ok((w, i)) => match grammar::more_patterns(old(self).input(), i, seq![w]) {
                    Ok((v, j)) => r is Ok && words_view(r->Ok_0@) == v && final(self).moved(
                        old(self),
                        j,
                    ) && j > old(self).pos,
                    Err(e) => r is Err && r->Err_0@ == e,
                },
                Err(e) => r is Err && r->Err_0@ == e,
            },
    {
        let first = self.expect_word("a case pattern")?;
        let ghost w = first@;
        let mut patterns: Vec<Word> = Vec::new();
        patterns.push(first);
        assert(words_view(patterns@) =~= seq![w]);
        while self.at_operator(Operator::Pipe)
            invariant
                self.moved(old(self), self.pos as int),
                self.pos > old(self).pos,
                word_at(old(self).input(), old(self).pos as int) == Some(w),
                grammar::more_patterns(old(self).input(), old(self).pos + 1, seq![w])
                    == grammar::more_patterns(
                    self.input(),
                    self.pos as int,
                    words_view(patterns@),
                ),
            decreases self.input().tokens.len() - self.pos,
        {
            self.next();
            let word = self.expect_word("a case pattern")?;
            patterns.push(word);
        }
        Ok(patterns)
    }

    fn parse_case_arm(&mut self) -> (r: Result<CaseArm, ParseError>)
        requires
            old(self).wf(),
        ensures
            match grammar::case_arm(old(self).input(), old(self).pos as int) {
                Ok((v, j)) => r is Ok && r->Ok_0@ == v && final(self).moved(old(self), j) && j > old(
                    self,
                ).pos,
                Err(e) => r is Err && r->Err_0@ == e,
            },
        decreases old(self).input().tokens.len() - old(self).pos, 7nat,
    {
        if self.at_operator(Operator::LParen) {
            self.next();
        }
        let patterns = self.parse_patterns()?;
        self.expect_operator(Operator::RParen, "')'")?;
        self.skip_newlines();
        let body = self.parse_compound_list()?;
        let terminator = if self.at_operator(Operator::DSemi) {
            self.next();
            self.skip_newlines();
            CaseTerminator::Break
        } else if self.peek_reserved() == Some(ReservedWord::Esac) {
            CaseTerminator::Omitted
        } else {
            return Err(self.error_for_unexpected("';;' or 'esac'"));
        };
        Ok(CaseArm { patterns, body, terminator })
    }

    fn parse_case_clause(&mut self) -> (r: Result<CompoundCommandKind, ParseError>)
        requires
            old(self).wf(),
            old(self).pos < old(self).input().tokens.len(),
        ensures
            kind_parsed(r, *old(self), *final(self), grammar::case_clause(
                old(self).input(),
                old(self).pos as int,
            )),
        decreases old(self).input().tokens.len() - old(self).pos, 0nat,
    {
        self.next();
        let word = self.expect_word("a word to match against")?;
        let ghost word_view = word@;
        self.skip_newlines();
        self.expect_reserved(ReservedWord::In)?;
        self.skip_newlines();
        let mut arms: Vec<CaseArm> = Vec::new();
        proof {
            lemma_empty_views();
        }
        let ghost middle = *self;
        let ghost whole = grammar::case_arms(middle.input(), middle.pos as int, Seq::empty());
        while self.peek_reserved() != Some(ReservedWord::Esac)
            invariant
                self.moved(&middle, self.pos as int),
                middle.input() == old(self).input(),
                middle.pos > old(self).pos,
                whole == grammar::case_arms(self.input(), self.pos as int, arms_view(arms@)),
                whole is Err ==> grammar::case_clause(old(self).input(), old(self).pos as int)
                    == Err::<(KindV, int), ParseErrorV>(whole->Err_0),
            decreases self.input().tokens.len() - self.pos,
        {
            if self.at_eof() {
                return Err(self.error_for_unexpected("a case pattern"));
            }
            let arm = self.parse_case_arm()?;
            arms.push(arm);
        }
        self.next();
        Ok(CompoundCommandKind::Case(CaseClause { word, arms }))
    }

    fn parse_program(&mut self) -> (r: Result<CommandList, ParseError>)
        requires
            old(self).wf(),
            old(self).pos == 0,
        ensures
            match grammar::program(old(self).input()) {
                Ok(v) => r is Ok && r->Ok_0@ == v,
                Err(e) => r is Err && r->Err_0@ == e,
            },
    {
        self.skip_newlines();
        let list = self.parse_items(false)?;
        if !self.at_eof() {
            return Err(
                self.error_for_unexpected("a separator (';', '&', or newline) or end of input"),
            );
        }
        Ok(list)
    }
}

/// `r` is the compound command that `rule` states, and `after` is the parser
/// past it.
spec fn kind_parsed(
    r: Result<CompoundCommandKind, ParseError>,
    before: Parser,
    after: Parser,
    rule: grammar::Parsed<KindV>,
) -> bool {
    match rule {
        Ok((v, j)) => r is Ok && crate::ast::kind_view(r->Ok_0) == v && after.moved(&before, j) && j
            > before.pos,
        Err(e) => r is Err && r->Err_0@ == e,
    }
}

/// Parses a whole program.
pub fn parse(input: &str) -> (r: Result<CommandList, ParseError>)
    ensures
        match grammar::source(input@) {
            Ok(v) => r is Ok && r->Ok_0@ == v,
            Err(e) => r is Err && r->Err_0@ == e,
        },
{
    let tokens = match lex(input) {
        Ok(tokens) => tokens,
        Err(e) => return Err(ParseError::Lex(e)),
    };
    reveal(Parser::input);
    let source = chars_of(input);
    let offsets = char_offsets(&source);
    let mut parser = Parser { source, offsets, tokens, pos: 0 };
    parser.parse_program()
}

} // verus!
