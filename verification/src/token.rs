//! Tokens and words.
//!
//! A word is not flattened to a string: it is a sequence of segments, each
//! with its own quoting context, because field splitting and pathname
//! expansion apply only to what was unquoted.
//!
//! Each type has a view (its name with a `V`) in which text is a sequence of
//! characters; contracts speak of the views.

use vstd::prelude::*;

verus! {

/// A half-open range of byte offsets into the input, `[start, end)`.
#[derive(Debug, Clone, Copy, PartialEq, Eq, Hash, Structural)]
pub struct Span {
    pub start: usize,
    pub end: usize,
}

impl Span {
    #[must_use]
    pub fn new(start: usize, end: usize) -> (r: Self)
        requires
            start <= end,
        ensures
            r == (Span { start, end }),
    {
        Self { start, end }
    }
}

/// The shell operator tokens.
#[derive(Debug, Clone, Copy, PartialEq, Eq, Structural)]
pub enum Operator {
    /// `|`
    Pipe,
    /// `||`
    OrIf,
    /// `&`
    Amp,
    /// `&&`
    AndIf,
    /// `;`
    Semi,
    /// `;;`
    DSemi,
    /// `<`
    Less,
    /// `>`
    Great,
    /// `<<`
    DLess,
    /// `<<-`
    DLessDash,
    /// `<&`
    LessAnd,
    /// `>&`
    GreatAnd,
    /// `>>`
    DGreat,
    /// `<>`
    LessGreat,
    /// `>|`
    Clobber,
    /// `(`
    LParen,
    /// `)`
    RParen,
}

/// The special parameters.
#[derive(Debug, Clone, Copy, PartialEq, Eq, Structural)]
pub enum SpecialParameter {
    /// `$@`
    At,
    /// `$*`
    Star,
    /// `$#`
    Hash,
    /// `$?`
    Question,
    /// `$-`
    Dash,
    /// `$$`
    Dollar,
    /// `$!`
    Bang,
    /// `$0`
    Zero,
}

/// `$(...)` or a backquoted command substitution.
#[derive(Debug, Clone, Copy, PartialEq, Eq, Structural)]
pub enum SubstitutionStyle {
    /// `$(...)`
    DollarParen,
    /// `` `...` ``
    Backtick,
}

/// A parameter reference.
#[derive(Debug, PartialEq, Eq)]
pub enum Parameter {
    /// A shell variable.
    Name(String),
    /// A positional parameter: one digit without braces, any number of digits
    /// with them.
    Positional(u32),
    /// A single-character special parameter.
    Special(SpecialParameter),
}

/// A command substitution, its body verbatim.
#[derive(Debug, PartialEq, Eq)]
pub struct CommandSubstitution {
    pub style: SubstitutionStyle,
    /// The source text between the delimiters.
    pub body: String,
}

/// One segment of a word, tagged with its quoting context.
#[derive(Debug, PartialEq, Eq)]
pub enum WordSegment {
    /// Unquoted literal text, backslash escapes already resolved.
    Literal(String),
    /// `'...'`: every character is literal.
    SingleQuoted(String),
    /// `"..."`: literal text and expansion sites, never split or globbed.
    DoubleQuoted(Vec<WordSegment>),
    /// A parameter reference without an operator.
    Parameter(Parameter),
    /// `${...}` with more than a bare parameter in it, its body verbatim.
    ComplexParameterExpansion(String),
    /// A command substitution.
    CommandSubstitution(CommandSubstitution),
    /// `$((...))`, its body verbatim.
    ArithmeticExpansion(String),
}

/// A shell word.
#[derive(Debug, PartialEq, Eq)]
pub struct Word {
    pub segments: Vec<WordSegment>,
}

/// What a token is.
#[derive(Debug, PartialEq, Eq)]
pub enum TokenKind {
    /// A word.
    Word(Word),
    /// A run of digits directly before `<` or `>`.
    IoNumber(u32),
    /// An operator.
    Operator(Operator),
    /// A newline, which is significant in the grammar.
    Newline,
}

/// A token and where it stands.
#[derive(Debug, PartialEq, Eq)]
pub struct Token {
    pub kind: TokenKind,
    pub span: Span,
}

// ---- views ----------------------------------------------------------------------

/// View of [`Parameter`].
#[verifier::ext_equal]
pub ghost enum ParameterV {
    Name(Seq<char>),
    Positional(u32),
    Special(SpecialParameter),
}

/// View of [`WordSegment`].
#[verifier::ext_equal]
pub ghost enum WordSegmentV {
    Literal(Seq<char>),
    SingleQuoted(Seq<char>),
    DoubleQuoted(Seq<WordSegmentV>),
    Parameter(ParameterV),
    ComplexParameterExpansion(Seq<char>),
    CommandSubstitution(SubstitutionStyle, Seq<char>),
    ArithmeticExpansion(Seq<char>),
}

/// View of [`Word`].
pub type WordV = Seq<WordSegmentV>;

/// View of [`TokenKind`].
#[verifier::ext_equal]
pub ghost enum TokenKindV {
    Word(WordV),
    IoNumber(u32),
    Operator(Operator),
    Newline,
}

/// View of [`Token`].
#[verifier::ext_equal]
pub ghost struct TokenV {
    pub kind: TokenKindV,
    pub span: Span,
}

impl View for Parameter {
    type V = ParameterV;

    open spec fn view(&self) -> ParameterV {
        match self {
            Parameter::Name(s) => ParameterV::Name(s@),
            Parameter::Positional(n) => ParameterV::Positional(*n),
            Parameter::Special(p) => ParameterV::Special(*p),
        }
    }
}

/// The view of one segment.
pub open spec fn segment_view(s: WordSegment) -> WordSegmentV
    decreases s,
{
    match s {
        WordSegment::Literal(t) => WordSegmentV::Literal(t@),
        WordSegment::SingleQuoted(t) => WordSegmentV::SingleQuoted(t@),
        WordSegment::DoubleQuoted(v) => WordSegmentV::DoubleQuoted(segments_view(v@)),
        WordSegment::Parameter(p) => WordSegmentV::Parameter(p@),
        WordSegment::ComplexParameterExpansion(t) => WordSegmentV::ComplexParameterExpansion(t@),
        WordSegment::CommandSubstitution(c) => WordSegmentV::CommandSubstitution(c.style, c.body@),
        WordSegment::ArithmeticExpansion(t) => WordSegmentV::ArithmeticExpansion(t@),
    }
}

/// The view of a sequence of segments: the views of the segments.
pub open spec fn segments_view(s: Seq<WordSegment>) -> Seq<WordSegmentV>
    decreases s,
{
    Seq::new(
        s.len(),
        |i: int|
            if 0 <= i < s.len() {
                segment_view(s[i])
            } else {
                WordSegmentV::Literal(Seq::empty())
            },
    )
}

impl View for WordSegment {
    type V = WordSegmentV;

    open spec fn view(&self) -> WordSegmentV {
        segment_view(*self)
    }
}

impl View for Word {
    type V = WordV;

    open spec fn view(&self) -> WordV {
        segments_view(self.segments@)
    }
}

impl View for TokenKind {
    type V = TokenKindV;

    open spec fn view(&self) -> TokenKindV {
        match self {
            TokenKind::Word(w) => TokenKindV::Word(w@),
            TokenKind::IoNumber(n) => TokenKindV::IoNumber(*n),
            TokenKind::Operator(op) => TokenKindV::Operator(*op),
            TokenKind::Newline => TokenKindV::Newline,
        }
    }
}

impl View for Token {
    type V = TokenV;

    open spec fn view(&self) -> TokenV {
        TokenV { kind: self.kind@, span: self.span }
    }
}

/// The views of a sequence of tokens.
pub open spec fn tokens_view(s: Seq<Token>) -> Seq<TokenV> {
    s.map_values(|t: Token| t@)
}

pub broadcast proof fn lemma_segments_view_push(s: Seq<WordSegment>, x: WordSegment)
    ensures
        #[trigger] segments_view(s.push(x)) == segments_view(s).push(segment_view(x)),
{
    assert(segments_view(s.push(x)) =~= segments_view(s).push(segment_view(x)));
}

pub broadcast proof fn lemma_segments_view_empty(s: Seq<WordSegment>)
    requires
        s.len() == 0,
    ensures
        #[trigger] segments_view(s) == Seq::<WordSegmentV>::empty(),
{
    assert(segments_view(s) =~= Seq::<WordSegmentV>::empty());
}

pub broadcast proof fn lemma_tokens_view_push(s: Seq<Token>, x: Token)
    ensures
        #[trigger] tokens_view(s.push(x)) == tokens_view(s).push(x@),
{
    assert(tokens_view(s.push(x)) =~= tokens_view(s).push(x@));
}

// ---- how deep a word nests ----------------------------------------------------------

/// A bound on how deep the text of a segment can nest: expansions inside an
/// expansion have less of it.
pub open spec fn weight(seg: WordSegmentV) -> nat
    decreases seg,
{
    match seg {
        WordSegmentV::DoubleQuoted(inner) => 1 + weights(inner),
        WordSegmentV::ComplexParameterExpansion(body) => body.len() + 1,
        WordSegmentV::ArithmeticExpansion(body) => body.len() + 1,
        _ => 0,
    }
}

/// The largest weight of the segments of a word.
pub open spec fn weights(segs: Seq<WordSegmentV>) -> nat
    decreases segs,
{
    if segs.len() == 0 {
        0
    } else {
        let front = weights(segs.drop_last());
        let last = weight(segs.last());
        if front < last {
            last
        } else {
            front
        }
    }
}

/// No segment weighs more than its word.
pub proof fn lemma_weight_in_word(segs: Seq<WordSegmentV>, i: int)
    requires
        0 <= i < segs.len(),
    ensures
        weight(segs[i]) <= weights(segs),
    decreases segs.len(),
{
    if i < segs.len() - 1 {
        lemma_weight_in_word(segs.drop_last(), i);
    }
}

// ---- operations -------------------------------------------------------------------

impl Token {
    #[must_use]
    pub fn new(kind: TokenKind, span: Span) -> (r: Self)
        ensures
            r == (Token { kind, span }),
    {
        Self { kind, span }
    }
}

/// The text of a word that is one unquoted literal.
pub open spec fn plain_literal(w: WordV) -> Option<Seq<char>> {
    if w.len() == 1 {
        match w[0] {
            WordSegmentV::Literal(t) => Some(t),
            _ => None,
        }
    } else {
        None
    }
}

impl Word {
    #[must_use]
    pub fn new(segments: Vec<WordSegment>) -> (r: Self)
        ensures
            r@ == segments_view(segments@),
            r.segments == segments,
    {
        Self { segments }
    }

    #[must_use]
    pub fn is_empty(&self) -> (r: bool)
        ensures
            r == (self@.len() == 0),
    {
        self.segments.len() == 0
    }

    /// The word's text, if it is a single unquoted literal without expansions.
    /// There is no such text for any other word before expansion.
    #[must_use]
    pub fn as_plain_literal(&self) -> (r: Option<&str>)
        ensures
            match r {
                Some(t) => plain_literal(self@) == Some(t@),
                None => plain_literal(self@) is None,
            },
    {
        if self.segments.len() == 1 {
            assert(self@[0] == segment_view(self.segments@[0]));
            match &self.segments[0] {
                WordSegment::Literal(text) => Some(text.as_str()),
                _ => None,
            }
        } else {
            None
        }
    }
}

impl Default for Word {
    fn default() -> (r: Self)
        ensures
            r@ == Seq::<WordSegmentV>::empty(),
    {
        let r = Word { segments: Vec::new() };
        assert(r@ =~= Seq::<WordSegmentV>::empty());
        r
    }
}

impl Clone for Parameter {
    fn clone(&self) -> (r: Self)
        ensures
            r@ == self@,
    {
        match self {
            Parameter::Name(s) => Parameter::Name(s.clone()),
            Parameter::Positional(n) => Parameter::Positional(*n),
            Parameter::Special(p) => Parameter::Special(*p),
        }
    }
}

impl Clone for CommandSubstitution {
    fn clone(&self) -> (r: Self)
        ensures
            r.style == self.style,
            r.body@ == self.body@,
    {
        CommandSubstitution { style: self.style, body: self.body.clone() }
    }
}

impl Clone for WordSegment {
    fn clone(&self) -> (r: Self)
        ensures
            r@ == self@,
        decreases self,
    {
        match self {
            WordSegment::Literal(t) => WordSegment::Literal(t.clone()),
            WordSegment::SingleQuoted(t) => WordSegment::SingleQuoted(t.clone()),
            WordSegment::DoubleQuoted(v) => WordSegment::DoubleQuoted(clone_segments(v)),
            WordSegment::Parameter(p) => WordSegment::Parameter(p.clone()),
            WordSegment::ComplexParameterExpansion(t) => WordSegment::ComplexParameterExpansion(
                t.clone(),
            ),
            WordSegment::CommandSubstitution(c) => WordSegment::CommandSubstitution(c.clone()),
            WordSegment::ArithmeticExpansion(t) => WordSegment::ArithmeticExpansion(t.clone()),
        }
    }
}

/// A copy of a list of segments.
pub fn clone_segments(v: &Vec<WordSegment>) -> (r: Vec<WordSegment>)
    ensures
        segments_view(r@) == segments_view(v@),
        r@.len() == v@.len(),
    decreases v@,
{
    let mut r: Vec<WordSegment> = Vec::new();
    let mut i: usize = 0;
    while i < v.len()
        invariant
            i <= v.len(),
            r@.len() == i,
            forall|j: int| 0 <= j < i ==> segment_view(r@[j]) == segment_view(#[trigger] v@[j]),
        decreases v.len() - i,
    {
        assert(decreases_to!(v@ => v@[i as int]));
        r.push(v[i].clone());
        i += 1;
    }
    assert(segments_view(r@) =~= segments_view(v@));
    r
}

impl Clone for Word {
    fn clone(&self) -> (r: Self)
        ensures
            r@ == self@,
    {
        Word { segments: clone_segments(&self.segments) }
    }
}

impl Clone for TokenKind {
    fn clone(&self) -> (r: Self)
        ensures
            r@ == self@,
    {
        match self {
            TokenKind::Word(w) => TokenKind::Word(w.clone()),
            TokenKind::IoNumber(n) => TokenKind::IoNumber(*n),
            TokenKind::Operator(op) => TokenKind::Operator(*op),
            TokenKind::Newline => TokenKind::Newline,
        }
    }
}

impl Clone for Token {
    fn clone(&self) -> (r: Self)
        ensures
            r@ == self@,
    {
        Token { kind: self.kind.clone(), span: self.span }
    }
}

} // verus!
