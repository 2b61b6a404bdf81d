//! The lexer: from input text to tokens, as [`rules`] states it.

use vstd::prelude::*;

use crate::numbers::{all_digits, decimal, parse_u32_chars, usize_to_text};
use crate::text::{
    byte_len, char_width, chars_from, chars_of, is_digit, is_name_char, is_name_start, join3,
    lemma_offset_in_tail, lemma_offset_monotonic, offset_of, text_between,
};
use crate::token::{
    lemma_segments_view_empty, lemma_segments_view_push, lemma_tokens_view_push, segments_view,
    tokens_view, CommandSubstitution, Operator, Parameter, Span, SpecialParameter,
    SubstitutionStyle, Token, TokenKind, TokenV, Word, WordSegment, WordSegmentV,
};

pub mod alone;
pub mod excerpt;
pub mod expansions;
pub mod inner;
pub mod laws;
pub mod round_trips;
pub mod rules;

use rules::{at, is_operator_char, pos, BalanceContext, Boundary};

verus! {

broadcast use {lemma_segments_view_push, lemma_segments_view_empty, lemma_tokens_view_push};

/// Why input cannot be split into tokens. Each variant has the byte offset at
/// which the offending construct opened.
#[derive(Debug, Clone, Copy, PartialEq, Eq, Structural)]
pub enum LexError {
    /// `'...` with no closing `'`.
    UnterminatedSingleQuote { start: usize },
    /// `"...` with no closing `"`.
    UnterminatedDoubleQuote { start: usize },
    /// `${...` with no closing `}`.
    UnterminatedParameterExpansion { start: usize },
    /// `$(...` with no closing `)`.
    UnterminatedCommandSubstitution { start: usize },
    /// `` `... `` with no closing backquote.
    UnterminatedBackquote { start: usize },
    /// `$((...` with no closing `))`.
    UnterminatedArithmeticExpansion { start: usize },
    /// A backslash at the end of the input, with nothing to escape.
    TrailingBackslash { pos: usize },
}

/// A lexer over one input.
pub struct Lexer {
    chars: Vec<char>,
    index: usize,
    offset: usize,
}

impl Lexer {
    /// The whole input.
    pub closed spec fn input(&self) -> Seq<char> {
        self.chars@
    }

    /// The index of the next character.
    pub closed spec fn index(&self) -> int {
        self.index as int
    }

    /// The index is within the input, and the offset is the one in bytes.
    pub closed spec fn wf(&self) -> bool {
        &&& self.index <= self.chars@.len()
        &&& self.offset == offset_of(self.chars@, self.index as int)
        &&& byte_len(self.chars@) <= usize::MAX
    }

    /// What stays the same, and what holds, after a step forward.
    spec fn after(&self, before: &Lexer) -> bool {
        &&& self.wf()
        &&& self.chars@ == before.chars@
        &&& before.index <= self.index
    }

    /// A lexer at the start of `input`.
    #[must_use]
    pub fn new(input: &str) -> (r: Self)
        ensures
            r.wf(),
            r.input() == input@,
            r.index() == 0,
    {
        Lexer { chars: chars_of(input), index: 0, offset: 0 }
    }

    // ---- cursor -----------------------------------------------------------------

    fn peek(&self) -> (r: Option<char>)
        ensures
            r == at(self.chars@, self.index as int),
    {
        if self.index < self.chars.len() {
            Some(self.chars[self.index])
        } else {
            None
        }
    }

    fn peek2(&self) -> (r: Option<char>)
        requires
            self.wf(),
        ensures
            r == at(self.chars@, self.index + 1),
    {
        if self.index < self.chars.len() && self.index + 1 < self.chars.len() {
            Some(self.chars[self.index + 1])
        } else {
            None
        }
    }

    fn bump(&mut self)
        requires
            old(self).wf(),
            old(self).index < old(self).chars@.len(),
        ensures
            final(self).after(old(self)),
            final(self).index == old(self).index + 1,
    {
        let len: usize = self.chars.len();
        assert(self.index < len);
        let c = self.chars[self.index];
        let next: usize = self.index + 1;
        proof {
            lemma_offset_monotonic(self.chars@, next as int, self.chars@.len() as int);
        }
        self.offset = self.offset + char_width(c);
        self.index = next;
    }

    fn skip_blanks(&mut self)
        requires
            old(self).wf(),
        ensures
            final(self).after(old(self)),
            final(self).index == rules::blanks_end(old(self).chars@, old(self).index as int),
    {
        while self.peek() == Some(' ') || self.peek() == Some('\t')
            invariant
                self.after(old(self)),
                rules::blanks_end(old(self).chars@, old(self).index as int) == rules::blanks_end(
                    self.chars@,
                    self.index as int,
                ),
            decreases self.chars@.len() - self.index,
        {
            self.bump();
        }
    }

    fn skip_line(&mut self)
        requires
            old(self).wf(),
        ensures
            final(self).after(old(self)),
            final(self).index == rules::line_end(old(self).chars@, old(self).index as int),
    {
        while self.peek().is_some() && self.peek() != Some('\n')
            invariant
                self.after(old(self)),
                rules::line_end(old(self).chars@, old(self).index as int) == rules::line_end(
                    self.chars@,
                    self.index as int,
                ),
            decreases self.chars@.len() - self.index,
        {
            self.bump();
        }
    }

    fn skip_digits(&mut self)
        requires
            old(self).wf(),
        ensures
            final(self).after(old(self)),
            final(self).index == rules::digits_end(old(self).chars@, old(self).index as int),
    {
        while self.index < self.chars.len() && is_digit(self.chars[self.index])
            invariant
                self.after(old(self)),
                rules::digits_end(old(self).chars@, old(self).index as int) == rules::digits_end(
                    self.chars@,
                    self.index as int,
                ),
            decreases self.chars@.len() - self.index,
        {
            self.bump();
        }
    }

    fn skip_name(&mut self)
        requires
            old(self).wf(),
        ensures
            final(self).after(old(self)),
            final(self).index == rules::name_end(old(self).chars@, old(self).index as int),
    {
        while self.index < self.chars.len() && is_name_char(self.chars[self.index])
            invariant
                self.after(old(self)),
                rules::name_end(old(self).chars@, old(self).index as int) == rules::name_end(
                    self.chars@,
                    self.index as int,
                ),
            decreases self.chars@.len() - self.index,
        {
            self.bump();
        }
    }

    // ---- finding the end of a construct -------------------------------------------

    /// Consumes a single-quoted region, quotes included.
    fn skip_single_quoted_raw(&mut self) -> (r: Result<(), LexError>)
        requires
            old(self).wf(),
            old(self).index < old(self).chars@.len(),
        ensures
            final(self).after(old(self)),
            match rules::single_quote_end(
                old(self).chars@,
                old(self).index + 1,
                old(self).index as int,
            ) {
                Ok(j) => r is Ok && final(self).index == j && j >= old(self).index + 2,
                Err(e) => r == Err::<(), LexError>(e),
            },
    {
        let open: usize = self.offset;
        self.bump();
        loop
            invariant
                self.after(old(self)),
                self.index > old(self).index,
                open == pos(old(self).chars@, old(self).index as int),
                rules::single_quote_end(
                    old(self).chars@,
                    old(self).index + 1,
                    old(self).index as int,
                ) == rules::single_quote_end(
                    self.chars@,
                    self.index as int,
                    old(self).index as int,
                ),
            decreases self.chars@.len() - self.index,
        {
            match self.peek() {
                None => return Err(LexError::UnterminatedSingleQuote { start: open }),
                Some('\'') => {
                    self.bump();
                    return Ok(());
                },
                Some(_) => {
                    self.bump();
                },
            }
        }
    }

    /// Consumes a backquoted region, quotes included.
    fn skip_backquote_raw(&mut self) -> (r: Result<(), LexError>)
        requires
            old(self).wf(),
            old(self).index < old(self).chars@.len(),
        ensures
            final(self).after(old(self)),
            match rules::backquote_end(
                old(self).chars@,
                old(self).index + 1,
                old(self).index as int,
            ) {
                Ok(j) => r is Ok && final(self).index == j && j >= old(self).index + 2,
                Err(e) => r == Err::<(), LexError>(e),
            },
    {
        let open: usize = self.offset;
        self.bump();
        loop
            invariant
                self.after(old(self)),
                self.index > old(self).index,
                open == pos(old(self).chars@, old(self).index as int),
                rules::backquote_end(
                    old(self).chars@,
                    old(self).index + 1,
                    old(self).index as int,
                ) == rules::backquote_end(self.chars@, self.index as int, old(self).index as int),
            decreases self.chars@.len() - self.index,
        {
            match self.peek() {
                None => return Err(LexError::UnterminatedBackquote { start: open }),
                Some('\\') if self.peek2() == Some('`') || self.peek2() == Some('$')
                    || self.peek2() == Some('\\') => {
                    self.bump();
                    self.bump();
                },
                Some('`') => {
                    self.bump();
                    return Ok(());
                },
                Some(_) => {
                    self.bump();
                },
            }
        }
    }

    /// Consumes the `$(...)`, `$((...))` or `${...}` at the cursor, if there is
    /// one, and says whether there was.
    fn skip_nested_dollar_construct(&mut self) -> (r: Result<bool, LexError>)
        requires
            old(self).wf(),
        ensures
            final(self).after(old(self)),
            match rules::nested_end(old(self).chars@, old(self).index as int) {
                Some(Ok(j)) => r == Ok::<bool, LexError>(true) && final(self).index == j && j
                    > old(self).index,
                Some(Err(e)) => r == Err::<bool, LexError>(e),
                None => r == Ok::<bool, LexError>(false) && final(self).index == old(self).index,
            },
        decreases old(self).chars@.len() - old(self).index, 0nat,
    {
        if self.peek() != Some('$') {
            return Ok(false);
        }
        let open: usize = self.offset;
        match self.peek2() {
            Some('(') => {
                self.bump();
                self.bump();
                if self.peek() == Some('(') {
                    self.bump();
                    self.skip_balanced_parens(
                        2,
                        BalanceContext::Arithmetic,
                        open,
                        Ghost(old(self).index as int),
                    )?;
                } else {
                    self.skip_balanced_parens(
                        1,
                        BalanceContext::CommandSubstitution,
                        open,
                        Ghost(old(self).index as int),
                    )?;
                }
                Ok(true)
            },
            Some('{') => {
                self.bump();
                self.bump();
                self.skip_to_matching_brace(open, Ghost(old(self).index as int))?;
                Ok(true)
            },
            _ => Ok(false),
        }
    }

    /// Consumes a double-quoted region, quotes included.
    fn skip_double_quoted_raw(&mut self) -> (r: Result<(), LexError>)
        requires
            old(self).wf(),
            old(self).index < old(self).chars@.len(),
        ensures
            final(self).after(old(self)),
            match rules::double_quote_end(
                old(self).chars@,
                old(self).index + 1,
                old(self).index as int,
            ) {
                Ok(j) => r is Ok && final(self).index == j && j >= old(self).index + 2,
                Err(e) => r == Err::<(), LexError>(e),
            },
        decreases old(self).chars@.len() - old(self).index, 0nat,
    {
        let open: usize = self.offset;
        self.bump();
        loop
            invariant
                self.after(old(self)),
                self.index > old(self).index,
                old(self).index < old(self).chars@.len(),
                open == pos(old(self).chars@, old(self).index as int),
                rules::double_quote_end(
                    old(self).chars@,
                    old(self).index + 1,
                    old(self).index as int,
                ) == rules::double_quote_end(
                    self.chars@,
                    self.index as int,
                    old(self).index as int,
                ),
            decreases self.chars@.len() - self.index,
        {
            if self.skip_nested_dollar_construct()? {
                continue;
            }
            match self.peek() {
                None => return Err(LexError::UnterminatedDoubleQuote { start: open }),
                Some('\\') if self.peek2() == Some('$') || self.peek2() == Some('`')
                    || self.peek2() == Some('"') || self.peek2() == Some('\\') || self.peek2()
                    == Some('\n') => {
                    self.bump();
                    self.bump();
                },
                Some('"') => {
                    self.bump();
                    return Ok(());
                },
                Some(_) => {
                    self.bump();
                },
            }
        }
    }

    /// Consumes the quoted region or escaped character at the cursor, if there
    /// is one, and says whether there was.
    fn skip_quoted(&mut self) -> (r: Result<bool, LexError>)
        requires
            old(self).wf(),
        ensures
            final(self).after(old(self)),
            match rules::quoted_end(old(self).chars@, old(self).index as int) {
                Some(Ok(j)) => r == Ok::<bool, LexError>(true) && final(self).index == j && j
                    > old(self).index,
                Some(Err(e)) => r == Err::<bool, LexError>(e),
                None => r == Ok::<bool, LexError>(false) && final(self).index == old(self).index,
            },
        decreases old(self).chars@.len() - old(self).index, 1nat,
    {
        match self.peek() {
            Some('\\') => {
                let open: usize = self.offset;
                self.bump();
                if self.peek().is_none() {
                    return Err(LexError::TrailingBackslash { pos: open });
                }
                self.bump();
                Ok(true)
            },
            Some('\'') => {
                self.skip_single_quoted_raw()?;
                Ok(true)
            },
            Some('"') => {
                self.skip_double_quoted_raw()?;
                Ok(true)
            },
            Some('`') => {
                self.skip_backquote_raw()?;
                Ok(true)
            },
            _ => Ok(false),
        }
    }

    /// Consumes up to and including the `)` that closes the last of `depth`
    /// open parentheses.
    fn skip_balanced_parens(
        &mut self,
        depth: usize,
        ctx: BalanceContext,
        open: usize,
        Ghost(at_open): Ghost<int>,
    ) -> (r: Result<(), LexError>)
        requires
            old(self).wf(),
            depth <= old(self).index,
            open == pos(old(self).chars@, at_open),
        ensures
            final(self).after(old(self)),
            match rules::parens_end(
                old(self).chars@,
                old(self).index as int,
                depth as int,
                false,
                ctx,
                at_open,
            ) {
                Ok(j) => r is Ok && final(self).index == j && j >= old(self).index + depth,
                Err(e) => r == Err::<(), LexError>(e),
            },
        decreases old(self).chars@.len() - old(self).index, 2nat,
    {
        let mut open_count: usize = depth;
        let mut closed = false;
        while open_count > 0
            invariant
                self.after(old(self)),
                open_count <= self.index,
                self.index - old(self).index + open_count >= depth,
                open == pos(old(self).chars@, at_open),
                rules::parens_end(
                    old(self).chars@,
                    old(self).index as int,
                    depth as int,
                    false,
                    ctx,
                    at_open,
                ) == rules::parens_end(
                    self.chars@,
                    self.index as int,
                    open_count as int,
                    closed,
                    ctx,
                    at_open,
                ),
            decreases self.chars@.len() - self.index,
        {
            if self.skip_nested_dollar_construct()? {
                closed = false;
                continue;
            }
            if self.skip_quoted()? {
                closed = false;
                continue;
            }
            match self.peek() {
                None => return Err(unterminated_error(ctx, open)),
                Some('(') => {
                    self.bump();
                    open_count = open_count + 1;
                    closed = false;
                },
                Some(')') => {
                    if open_count == 1 && ctx == BalanceContext::Arithmetic && !closed {
                        return Err(unterminated_error(ctx, open));
                    }
                    self.bump();
                    open_count = open_count - 1;
                    closed = true;
                },
                Some(_) => {
                    self.bump();
                    closed = false;
                },
            }
        }
        Ok(())
    }

    /// Consumes up to and including the `}` that closes a `${`.
    fn skip_to_matching_brace(&mut self, open: usize, Ghost(at_open): Ghost<int>) -> (r: Result<
        (),
        LexError,
    >)
        requires
            old(self).wf(),
            open == pos(old(self).chars@, at_open),
        ensures
            final(self).after(old(self)),
            match rules::brace_end(old(self).chars@, old(self).index as int, at_open) {
                Ok(j) => r is Ok && final(self).index == j && j >= old(self).index + 1,
                Err(e) => r == Err::<(), LexError>(e),
            },
        decreases old(self).chars@.len() - old(self).index, 2nat,
    {
        loop
            invariant
                self.after(old(self)),
                open == pos(old(self).chars@, at_open),
                rules::brace_end(old(self).chars@, old(self).index as int, at_open)
                    == rules::brace_end(self.chars@, self.index as int, at_open),
            decreases self.chars@.len() - self.index,
        {
            if self.skip_nested_dollar_construct()? {
                continue;
            }
            if self.skip_quoted()? {
                continue;
            }
            match self.peek() {
                None => return Err(LexError::UnterminatedParameterExpansion { start: open }),
                Some('}') => {
                    self.bump();
                    return Ok(());
                },
                Some(_) => {
                    self.bump();
                },
            }
        }
    }

    // ---- parameters -----------------------------------------------------------------

    /// Consumes the bare parameter at the cursor, if there is one.
    fn scan_bare_parameter(&mut self, multi_digit: bool) -> (r: Option<Parameter>)
        requires
            old(self).wf(),
        ensures
            match rules::bare_parameter(old(self).chars@, old(self).index as int, multi_digit) {
                Some((p, j)) => r is Some && r->0@ == p && final(self).after(old(self))
                    && final(self).index == j && j > old(self).index,
                None => r is None && final(self).after(old(self)) && final(self).index == old(
                    self,
                ).index,
            },
    {
        let first = match self.peek() {
            None => return None,
            Some(c) => c,
        };
        if let Some(special) = special_parameter_for(first) {
            self.bump();
            return Some(Parameter::Special(special));
        }
        let start: usize = self.index;
        let start_offset: usize = self.offset;
        if is_digit(first) {
            proof {
                rules::lemma_digits_end(self.chars@, self.index as int);
            }
            if multi_digit {
                self.skip_digits();
            } else {
                self.bump();
            }
            let ghost text = self.chars@.subrange(start as int, self.index as int);
            proof {
                assert(rules::digits_end(self.chars@, start as int) == rules::digits_end(
                    self.chars@,
                    start + 1,
                ));
                rules::lemma_digits_end(self.chars@, start + 1);
                assert(text[0] == first);
                assert(all_digits(text));
            }
            if self.index == start + 1 && first == '0' {
                return Some(Parameter::Special(SpecialParameter::Zero));
            }
            match parse_u32_chars(&self.chars, start, self.index) {
                Some(n) => Some(Parameter::Positional(n)),
                None => {
                    self.index = start;
                    self.offset = start_offset;
                    None
                },
            }
        } else if is_name_start(first) {
            proof {
                rules::lemma_name_end(self.chars@, start + 1);
            }
            self.skip_name();
            Some(Parameter::Name(text_between(&self.chars, start, self.index)))
        } else {
            None
        }
    }

    // ---- segments ---------------------------------------------------------------------

    fn scan_single_quoted(&mut self) -> (r: Result<WordSegment, LexError>)
        requires
            old(self).wf(),
            old(self).index < old(self).chars@.len(),
        ensures
            scanned(r, *old(self), *final(self), rules::single_quoted(
                old(self).chars@,
                old(self).index as int,
            )),
    {
        let start: usize = self.index;
        self.skip_single_quoted_raw()?;
        Ok(WordSegment::SingleQuoted(text_between(&self.chars, start + 1, self.index - 1)))
    }

    fn scan_backquote_segment(&mut self) -> (r: Result<WordSegment, LexError>)
        requires
            old(self).wf(),
            old(self).index < old(self).chars@.len(),
        ensures
            scanned(r, *old(self), *final(self), rules::backquoted(
                old(self).chars@,
                old(self).index as int,
            )),
    {
        let start: usize = self.index;
        self.skip_backquote_raw()?;
        Ok(
            WordSegment::CommandSubstitution(
                CommandSubstitution {
                    style: SubstitutionStyle::Backtick,
                    body: text_between(&self.chars, start + 1, self.index - 1),
                },
            ),
        )
    }

    /// What a `${` opens; the cursor is past it.
    fn scan_braced_parameter(&mut self, open: usize, Ghost(at_open): Ghost<int>) -> (r: Result<
        WordSegment,
        LexError,
    >)
        requires
            old(self).wf(),
            open == pos(old(self).chars@, at_open),
            old(self).index == at_open + 2,
        ensures
            scanned(r, *old(self), *final(self), rules::braced(old(self).chars@, at_open)),
    {
        let start: usize = self.index;
        let start_offset: usize = self.offset;
        if let Some(param) = self.scan_bare_parameter(true) {
            if self.peek() == Some('}') {
                self.bump();
                return Ok(WordSegment::Parameter(param));
            }
        }
        self.index = start;
        self.offset = start_offset;
        self.skip_to_matching_brace(open, Ghost(at_open))?;
        Ok(
            WordSegment::ComplexParameterExpansion(
                text_between(&self.chars, start, self.index - 1),
            ),
        )
    }

    fn scan_dollar(&mut self) -> (r: Result<WordSegment, LexError>)
        requires
            old(self).wf(),
            old(self).index < old(self).chars@.len(),
        ensures
            scanned(r, *old(self), *final(self), rules::dollar(
                old(self).chars@,
                old(self).index as int,
            )),
    {
        let open: usize = self.offset;
        let ghost at_open = self.index as int;
        self.bump();
        match self.peek() {
            Some('{') => {
                self.bump();
                self.scan_braced_parameter(open, Ghost(at_open))
            },
            Some('(') => {
                self.bump();
                if self.peek() == Some('(') {
                    self.bump();
                    let start: usize = self.index;
                    self.skip_balanced_parens(
                        2,
                        BalanceContext::Arithmetic,
                        open,
                        Ghost(at_open),
                    )?;
                    Ok(
                        WordSegment::ArithmeticExpansion(
                            text_between(&self.chars, start, self.index - 2),
                        ),
                    )
                } else {
                    let start: usize = self.index;
                    self.skip_balanced_parens(
                        1,
                        BalanceContext::CommandSubstitution,
                        open,
                        Ghost(at_open),
                    )?;
                    Ok(
                        WordSegment::CommandSubstitution(
                            CommandSubstitution {
                                style: SubstitutionStyle::DollarParen,
                                body: text_between(&self.chars, start, self.index - 1),
                            },
                        ),
                    )
                }
            },
            _ => match self.scan_bare_parameter(false) {
                Some(param) => Ok(WordSegment::Parameter(param)),
                None => {
                    let mut text = String::new();
                    text.push('$');
                    assert(text@ =~= seq!['$']);
                    Ok(WordSegment::Literal(text))
                },
            },
        }
    }

    fn scan_double_quoted(&mut self) -> (r: Result<WordSegment, LexError>)
        requires
            old(self).wf(),
            old(self).index < old(self).chars@.len(),
        ensures
            scanned(r, *old(self), *final(self), rules::double_quoted(
                old(self).chars@,
                old(self).index as int,
            )),
        decreases old(self).chars@.len() - old(self).index, 0nat,
    {
        let open: usize = self.offset;
        self.bump();
        let segments = self.scan_double_quoted_style_until(false)?;
        if self.peek().is_none() {
            return Err(LexError::UnterminatedDoubleQuote { start: open });
        }
        self.bump();
        Ok(WordSegment::DoubleQuoted(segments))
    }

    /// Double-quoted content, up to a `"` or, where `to_end` is set, up to the
    /// end of the input.
    fn scan_double_quoted_style_until(&mut self, to_end: bool) -> (r: Result<
        Vec<WordSegment>,
        LexError,
    >)
        requires
            old(self).wf(),
        ensures
            scanned_all(r, *old(self), *final(self), rules::quoted_content(
                old(self).chars@,
                old(self).index as int,
                to_end,
                Seq::empty(),
                Seq::empty(),
            )),
        decreases old(self).chars@.len() - old(self).index, 1nat,
    {
        let mut segments: Vec<WordSegment> = Vec::new();
        let mut literal = String::new();
        loop
            invariant
                self.after(old(self)),
                rules::quoted_content(
                    old(self).chars@,
                    old(self).index as int,
                    to_end,
                    Seq::empty(),
                    Seq::empty(),
                ) == rules::quoted_content(
                    self.chars@,
                    self.index as int,
                    to_end,
                    literal@,
                    segments_view(segments@),
                ),
            decreases self.chars@.len() - self.index,
        {
            let c = match self.peek() {
                None => {
                    flush_literal(&mut literal, &mut segments);
                    return Ok(segments);
                },
                Some(c) => c,
            };
            if c == '"' && !to_end {
                flush_literal(&mut literal, &mut segments);
                return Ok(segments);
            }
            match c {
                '\\' => {
                    let open: usize = self.offset;
                    self.bump();
                    match self.peek() {
                        None => return Err(LexError::TrailingBackslash { pos: open }),
                        Some('\n') => {
                            self.bump();
                        },
                        Some(e) => {
                            if e != '$' && e != '`' && e != '"' && e != '\\' {
                                literal.push('\\');
                            }
                            literal.push(e);
                            self.bump();
                        },
                    }
                },
                '"' => {
                    flush_literal(&mut literal, &mut segments);
                    let segment = self.scan_double_quoted()?;
                    segments.push(segment);
                },
                '$' => {
                    match self.scan_dollar()? {
                        WordSegment::Literal(text) => {
                            vstd::string::StringExecFns::append(&mut literal, text.as_str());
                        },
                        segment => {
                            flush_literal(&mut literal, &mut segments);
                            segments.push(segment);
                        },
                    }
                },
                '`' => {
                    flush_literal(&mut literal, &mut segments);
                    let segment = self.scan_backquote_segment()?;
                    segments.push(segment);
                },
                _ => {
                    literal.push(c);
                    self.bump();
                },
            }
        }
    }

    /// A word's segments, up to the boundary or the end of the input.
    fn scan_word_until(&mut self, boundary: Boundary) -> (r: Result<Word, LexError>)
        requires
            old(self).wf(),
        ensures
            match rules::word(old(self).chars@, old(self).index as int, boundary) {
                Ok((w, j)) => r is Ok && r->Ok_0@ == w && final(self).after(old(self))
                    && final(self).index == j,
                Err(e) => r is Err && r->Err_0 == e,
            },
            r is Ok && old(self).index < old(self).chars@.len() && !rules::ends_word(
                boundary,
                old(self).chars@[old(self).index as int],
            ) ==> final(self).index > old(self).index,
    {
        let mut segments: Vec<WordSegment> = Vec::new();
        let mut literal = String::new();
        let ghost moves = self.index < self.chars@.len() && !rules::ends_word(
            boundary,
            self.chars@[self.index as int],
        );
        loop
            invariant
                self.after(old(self)),
                moves == (old(self).index < old(self).chars@.len() && !rules::ends_word(
                    boundary,
                    old(self).chars@[old(self).index as int],
                )),
                rules::word(old(self).chars@, old(self).index as int, boundary)
                    == rules::word_content(
                    self.chars@,
                    self.index as int,
                    boundary,
                    literal@,
                    segments_view(segments@),
                ),
            decreases self.chars@.len() - self.index,
        {
            let c = match self.peek() {
                None => {
                    flush_literal(&mut literal, &mut segments);
                    return Ok(Word::new(segments));
                },
                Some(c) => c,
            };
            if boundary == Boundary::Delimiter && (c == ' ' || c == '\t' || c == '\n'
                || is_operator_char(c)) {
                flush_literal(&mut literal, &mut segments);
                return Ok(Word::new(segments));
            }
            match c {
                '\'' => {
                    flush_literal(&mut literal, &mut segments);
                    let segment = self.scan_single_quoted()?;
                    segments.push(segment);
                },
                '"' => {
                    flush_literal(&mut literal, &mut segments);
                    let segment = self.scan_double_quoted()?;
                    segments.push(segment);
                },
                '`' => {
                    flush_literal(&mut literal, &mut segments);
                    let segment = self.scan_backquote_segment()?;
                    segments.push(segment);
                },
                '$' => {
                    match self.scan_dollar()? {
                        WordSegment::Literal(text) => {
                            vstd::string::StringExecFns::append(&mut literal, text.as_str());
                        },
                        segment => {
                            flush_literal(&mut literal, &mut segments);
                            segments.push(segment);
                        },
                    }
                },
                '\\' => {
                    let open: usize = self.offset;
                    self.bump();
                    match self.peek() {
                        None => return Err(LexError::TrailingBackslash { pos: open }),
                        Some('\n') => {
                            self.bump();
                        },
                        Some(e) => {
                            literal.push(e);
                            self.bump();
                        },
                    }
                },
                _ => {
                    literal.push(c);
                    self.bump();
                },
            }
        }
    }

    // ---- tokens -----------------------------------------------------------------------

    /// The longest operator at the cursor.
    fn lex_operator(&mut self) -> (r: Operator)
        requires
            old(self).wf(),
            old(self).index < old(self).chars@.len(),
            is_operator_char(old(self).chars@[old(self).index as int]),
        ensures
            final(self).after(old(self)),
            (r, final(self).index as int) == rules::operator(
                old(self).chars@,
                old(self).index as int,
            ),
    {
        let c = self.chars[self.index];
        self.bump();
        match c {
            '|' => if self.peek() == Some('|') {
                self.bump();
                Operator::OrIf
            } else {
                Operator::Pipe
            },
            '&' => if self.peek() == Some('&') {
                self.bump();
                Operator::AndIf
            } else {
                Operator::Amp
            },
            ';' => if self.peek() == Some(';') {
                self.bump();
                Operator::DSemi
            } else {
                Operator::Semi
            },
            '(' => Operator::LParen,
            ')' => Operator::RParen,
            '<' => if self.peek() == Some('<') {
                self.bump();
                if self.peek() == Some('-') {
                    self.bump();
                    Operator::DLessDash
                } else {
                    Operator::DLess
                }
            } else if self.peek() == Some('&') {
                self.bump();
                Operator::LessAnd
            } else if self.peek() == Some('>') {
                self.bump();
                Operator::LessGreat
            } else {
                Operator::Less
            },
            _ => if self.peek() == Some('>') {
                self.bump();
                Operator::DGreat
            } else if self.peek() == Some('&') {
                self.bump();
                Operator::GreatAnd
            } else if self.peek() == Some('|') {
                self.bump();
                Operator::Clobber
            } else {
                Operator::Great
            },
        }
    }

    /// The run of digits at the cursor, if `<` or `>` directly follows it.
    fn try_lex_io_number(&mut self) -> (r: Option<u32>)
        requires
            old(self).wf(),
        ensures
            match rules::io_number(old(self).chars@, old(self).index as int) {
                Some((n, j)) => r == Some(n) && final(self).after(old(self)) && final(self).index
                    == j && j > old(self).index,
                None => r is None && final(self).after(old(self)) && final(self).index == old(
                    self,
                ).index,
            },
    {
        let start: usize = self.index;
        let start_offset: usize = self.offset;
        self.skip_digits();
        proof {
            rules::lemma_digits_end(self.chars@, start as int);
            assert(all_digits(self.chars@.subrange(start as int, self.index as int)));
        }
        if self.index > start && (self.peek() == Some('<') || self.peek() == Some('>')) {
            if let Some(n) = parse_u32_chars(&self.chars, start, self.index) {
                return Some(n);
            }
        }
        self.index = start;
        self.offset = start_offset;
        None
    }

    /// Everything that is left, as tokens.
    pub fn tokenize(self) -> (r: Result<Vec<Token>, LexError>)
        requires
            self.wf(),
        ensures
            lexed(r, rules::tokens_from(self.input(), self.index(), Seq::empty())),
    {
        let mut lexer = self;
        let mut tokens: Vec<Token> = Vec::new();
        assert(tokens_view(tokens@) =~= Seq::<TokenV>::empty());
        loop
            invariant
                lexer.wf(),
                lexer.chars@ == self.chars@,
                rules::tokens_from(self.chars@, self.index as int, Seq::empty())
                    == rules::tokens_from(
                    lexer.chars@,
                    lexer.index as int,
                    tokens_view(tokens@),
                ),
            decreases lexer.chars@.len() - lexer.index,
        {
            let ghost before = lexer.index as int;
            lexer.skip_blanks();
            proof {
                rules::lemma_blanks_end(lexer.chars@, before);
            }
            let start: usize = lexer.offset;
            let ghost at_start = lexer.index as int;
            let c = match lexer.peek() {
                None => return Ok(tokens),
                Some(c) => c,
            };
            if c == '#' {
                lexer.bump();
                lexer.skip_line();
                proof {
                    rules::lemma_line_end(lexer.chars@, at_start + 1);
                }
                continue;
            }
            let kind = if c == '\n' {
                lexer.bump();
                TokenKind::Newline
            } else if is_operator_char(c) {
                TokenKind::Operator(lexer.lex_operator())
            } else {
                match lexer.try_lex_io_number() {
                    Some(n) => TokenKind::IoNumber(n),
                    None => TokenKind::Word(lexer.scan_word_until(Boundary::Delimiter)?),
                }
            };
            proof {
                lemma_offset_monotonic(lexer.chars@, at_start, lexer.index as int);
            }
            tokens.push(Token::new(kind, Span::new(start, lexer.offset)));
        }
    }
}

/// `r` is what `rule` says of the segment at the cursor of `before`, and
/// `after` is the lexer past it.
spec fn scanned(
    r: Result<WordSegment, LexError>,
    before: Lexer,
    after: Lexer,
    rule: Result<(WordSegmentV, int), LexError>,
) -> bool {
    match rule {
        Ok((seg, j)) => r is Ok && r->Ok_0@ == seg && after.after(&before) && after.index == j && j
            > before.index,
        Err(e) => r is Err && r->Err_0 == e,
    }
}

/// The same for several segments.
spec fn scanned_all(
    r: Result<Vec<WordSegment>, LexError>,
    before: Lexer,
    after: Lexer,
    rule: Result<(Seq<WordSegmentV>, int), LexError>,
) -> bool {
    match rule {
        Ok((segs, j)) => r is Ok && segments_view(r->Ok_0@) == segs && after.after(&before)
            && after.index == j,
        Err(e) => r is Err && r->Err_0 == e,
    }
}

// ---- entry points -------------------------------------------------------------------

/// Splits `input` into tokens.
pub fn lex(input: &str) -> (r: Result<Vec<Token>, LexError>)
    ensures
        lexed(r, rules::tokens_from(input@, 0, Seq::empty())),
{
    Lexer::new(input).tokenize()
}

/// Reads the whole of `input` as one word: blanks and operators are ordinary
/// characters. This is how the operand of an unquoted `${parameter:-word}` is
/// read.
pub fn lex_word_body(input: &str) -> (r: Result<Word, LexError>)
    ensures
        match rules::word(input@, 0, Boundary::EndOfInput) {
            Ok((w, _)) => r is Ok && r->Ok_0@ == w,
            Err(e) => r is Err && r->Err_0 == e,
        },
{
    let mut lexer = Lexer::new(input);
    lexer.scan_word_until(Boundary::EndOfInput)
}

/// Reads the whole of `input` as double-quoted content, in which single quotes
/// are ordinary characters. This is how the operand of a `${parameter:-word}`
/// inside double quotes is read.
pub fn lex_double_quoted_body(input: &str) -> (r: Result<Vec<WordSegment>, LexError>)
    ensures
        match rules::quoted_content(input@, 0, true, Seq::empty(), Seq::empty()) {
            Ok((w, _)) => r is Ok && segments_view(r->Ok_0@) == w,
            Err(e) => r is Err && r->Err_0 == e,
        },
{
    let mut lexer = Lexer::new(input);
    lexer.scan_double_quoted_style_until(true)
}

/// Reads the expansion that the `$` at the start of `input` introduces, and
/// tells how many bytes it takes. A `$` that introduces nothing is itself.
pub fn lex_dollar_expansion(input: &str) -> (r: Result<(WordSegment, usize), LexError>)
    requires
        at(input@, 0) == Some('$'),
    ensures
        expanded(r, input@, rules::dollar(input@, 0)),
        r matches Ok((segment, _)) ==> laws::is_verbatim(
            segment@,
            input@.take(rules::dollar(input@, 0)->Ok_0.1),
        ),
{
    proof {
        laws::law_expansions_are_verbatim(input@, 0);
    }
    let mut lexer = Lexer::new(input);
    let segment = lexer.scan_dollar()?;
    Ok((segment, lexer.offset))
}

/// Reads the backquoted substitution at the start of `input`, and tells how
/// many bytes it takes.
pub fn lex_backquote_expansion(input: &str) -> (r: Result<(WordSegment, usize), LexError>)
    requires
        at(input@, 0) == Some('`'),
    ensures
        expanded(r, input@, rules::backquoted(input@, 0)),
        r matches Ok((segment, _)) ==> laws::is_verbatim(
            segment@,
            input@.take(rules::backquoted(input@, 0)->Ok_0.1),
        ),
{
    proof {
        laws::law_backquotes_are_verbatim(input@, 0);
    }
    let mut lexer = Lexer::new(input);
    let segment = lexer.scan_backquote_segment()?;
    Ok((segment, lexer.offset))
}

/// Reads the bare parameter at the start of `s`, if there is one, and tells
/// how many bytes it takes. `allow_multi_digit` is how a parameter in braces is
/// read.
pub fn match_bare_parameter(s: &str, allow_multi_digit: bool) -> (r: Option<(Parameter, usize)>)
    ensures
        match rules::bare_parameter(s@, 0, allow_multi_digit) {
            Some((p, j)) => match r {
                Some((param, len)) => param@ == p && len == pos(s@, j),
                None => false,
            },
            None => r is None,
        },
{
    let mut lexer = Lexer::new(s);
    match lexer.scan_bare_parameter(allow_multi_digit) {
        Some(param) => Some((param, lexer.offset)),
        None => None,
    }
}

/// Reads the bare parameter at index `i` of `v` as one in braces is read, if
/// there is one, and tells how many characters it takes.
pub fn bare_parameter_at(v: &Vec<char>, i: usize) -> (r: Option<(Parameter, usize)>)
    requires
        byte_len(v@) <= usize::MAX,
        i <= v@.len(),
    ensures
        match rules::bare_parameter(v@.subrange(i as int, v@.len() as int), 0, true) {
            Some((p, j)) => match r {
                Some((param, len)) => param@ == p && len == j && 0 < j <= v@.len() - i,
                None => false,
            },
            None => r is None,
        },
{
    proof {
        lemma_offset_in_tail(v@, i as int, v@.len() - i);
    }
    let mut lexer = Lexer { chars: chars_from(v, i), index: 0, offset: 0 };
    match lexer.scan_bare_parameter(true) {
        Some(param) => Some((param, lexer.index)),
        None => None,
    }
}

/// Reads the expansion that the `$` at index `i` of `v` introduces, as
/// [`lex_dollar_expansion`] does, and tells how many characters it takes.
pub fn dollar_expansion_at(v: &Vec<char>, i: usize) -> (r: Result<(WordSegment, usize), LexError>)
    requires
        byte_len(v@) <= usize::MAX,
        at(v@, i as int) == Some('$'),
    ensures
        match rules::dollar(v@.subrange(i as int, v@.len() as int), 0) {
            Ok((seg, j)) => r is Ok && r->Ok_0.0@ == seg && r->Ok_0.1 == j && 0 < j <= v@.len() - i,
            Err(e) => r is Err && r->Err_0 == e,
        },
{
    proof {
        lemma_offset_in_tail(v@, i as int, v@.len() - i);
    }
    let mut lexer = Lexer { chars: chars_from(v, i), index: 0, offset: 0 };
    let segment = lexer.scan_dollar()?;
    Ok((segment, lexer.index))
}

/// The same for a backquoted substitution.
pub fn backquote_expansion_at(v: &Vec<char>, i: usize) -> (r: Result<
    (WordSegment, usize),
    LexError,
>)
    requires
        byte_len(v@) <= usize::MAX,
        at(v@, i as int) == Some('`'),
    ensures
        match rules::backquoted(v@.subrange(i as int, v@.len() as int), 0) {
            Ok((seg, j)) => r is Ok && r->Ok_0.0@ == seg && r->Ok_0.1 == j && 0 < j <= v@.len() - i,
            Err(e) => r is Err && r->Err_0 == e,
        },
{
    proof {
        lemma_offset_in_tail(v@, i as int, v@.len() - i);
    }
    let mut lexer = Lexer { chars: chars_from(v, i), index: 0, offset: 0 };
    let segment = lexer.scan_backquote_segment()?;
    Ok((segment, lexer.index))
}

/// `r` is the expansion that `rule` states, with its length in bytes.
pub open spec fn expanded(
    r: Result<(WordSegment, usize), LexError>,
    s: Seq<char>,
    rule: Result<(WordSegmentV, int), LexError>,
) -> bool {
    match rule {
        Ok((seg, j)) => r is Ok && r->Ok_0.0@ == seg && r->Ok_0.1 == pos(s, j),
        Err(e) => r is Err && r->Err_0 == e,
    }
}

/// The message of a [`LexError`].
pub open spec fn lex_error_text(e: LexError) -> Seq<char> {
    match e {
        LexError::UnterminatedSingleQuote { start } => {
            "unterminated single-quoted string (opened at byte "@ + decimal(start as int) + ")"@
        },
        LexError::UnterminatedDoubleQuote { start } => {
            "unterminated double-quoted string (opened at byte "@ + decimal(start as int) + ")"@
        },
        LexError::UnterminatedParameterExpansion { start } => {
            "unterminated `${...}` parameter expansion (opened at byte "@ + decimal(start as int)
                + ")"@
        },
        LexError::UnterminatedCommandSubstitution { start } => {
            "unterminated `$(...)` command substitution (opened at byte "@ + decimal(start as int)
                + ")"@
        },
        LexError::UnterminatedBackquote { start } => {
            "unterminated backquoted command substitution (opened at byte "@ + decimal(
                start as int,
            ) + ")"@
        },
        LexError::UnterminatedArithmeticExpansion { start } => {
            "unterminated `$((...))` arithmetic expansion (opened at byte "@ + decimal(
                start as int,
            ) + ")"@
        },
        LexError::TrailingBackslash { pos } => {
            "backslash at end of input with no character to escape (byte "@ + decimal(pos as int)
                + ")"@
        },
    }
}

impl LexError {
    /// What went wrong, in words.
    #[must_use]
    pub fn message(&self) -> (r: String)
        ensures
            r@ == lex_error_text(*self),
    {
        match self {
            LexError::UnterminatedSingleQuote { start } => join3(
                "unterminated single-quoted string (opened at byte ",
                usize_to_text(*start).as_str(),
                ")",
            ),
            LexError::UnterminatedDoubleQuote { start } => join3(
                "unterminated double-quoted string (opened at byte ",
                usize_to_text(*start).as_str(),
                ")",
            ),
            LexError::UnterminatedParameterExpansion { start } => join3(
                "unterminated `${...}` parameter expansion (opened at byte ",
                usize_to_text(*start).as_str(),
                ")",
            ),
            LexError::UnterminatedCommandSubstitution { start } => join3(
                "unterminated `$(...)` command substitution (opened at byte ",
                usize_to_text(*start).as_str(),
                ")",
            ),
            LexError::UnterminatedBackquote { start } => join3(
                "unterminated backquoted command substitution (opened at byte ",
                usize_to_text(*start).as_str(),
                ")",
            ),
            LexError::UnterminatedArithmeticExpansion { start } => join3(
                "unterminated `$((...))` arithmetic expansion (opened at byte ",
                usize_to_text(*start).as_str(),
                ")",
            ),
            LexError::TrailingBackslash { pos } => join3(
                "backslash at end of input with no character to escape (byte ",
                usize_to_text(*pos).as_str(),
                ")",
            ),
        }
    }
}

/// `r` is the outcome of lexing that `rule` states.
pub open spec fn lexed(r: Result<Vec<Token>, LexError>, rule: Result<Seq<TokenV>, LexError>) -> bool {
    match rule {
        Ok(t) => r is Ok && tokens_view(r->Ok_0@) == t,
        Err(e) => r is Err && r->Err_0 == e,
    }
}

/// Moves the literal text read so far into a segment of its own.
pub(crate) fn flush_literal(literal: &mut String, segments: &mut Vec<WordSegment>)
    ensures
        final(literal)@ == Seq::<char>::empty(),
        segments_view(final(segments)@) == rules::flush(old(literal)@, segments_view(old(segments)@)),
{
    if !literal.as_str().is_empty() {
        let mut text = String::new();
        core::mem::swap(literal, &mut text);
        segments.push(WordSegment::Literal(text));
    } else {
        assert(literal@ =~= Seq::<char>::empty());
    }
}

fn special_parameter_for(c: char) -> (r: Option<SpecialParameter>)
    ensures
        r == rules::special_parameter(c),
{
    match c {
        '@' => Some(SpecialParameter::At),
        '*' => Some(SpecialParameter::Star),
        '#' => Some(SpecialParameter::Hash),
        '?' => Some(SpecialParameter::Question),
        '-' => Some(SpecialParameter::Dash),
        '$' => Some(SpecialParameter::Dollar),
        '!' => Some(SpecialParameter::Bang),
        _ => None,
    }
}

/// The error for parentheses that were opened at `start` and never closed.
fn unterminated_error(ctx: BalanceContext, start: usize) -> (r: LexError)
    ensures
        r == rules::unbalanced(ctx, start),
{
    match ctx {
        BalanceContext::CommandSubstitution => LexError::UnterminatedCommandSubstitution { start },
        BalanceContext::Arithmetic => LexError::UnterminatedArithmeticExpansion { start },
    }
}

} // verus!
