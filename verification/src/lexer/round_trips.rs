//! Reading back what was written.
//!
//! A text that is written with quotes, with escapes or as it is, and an operator, a
//! number, a comment or an expansion, is lexed as what it was written for.

use vstd::prelude::*;

use super::inner;
use super::rules::{
    at, blanks_end, digits_end, double_quoted, flush, is_operator_char, line_end, pos,
    quoted_content, token_at, tokens_from, word, word_content, Boundary,
};
use super::LexError;
use crate::numbers::{all_digits, digits, law_digits_read_back};
use crate::text::{byte_len, is_digit, offset_of};
use crate::token::{Operator, Span, TokenKindV, TokenV, WordSegmentV};

pub mod neighbours;
pub mod unfinished;

verus! {

/// The text is lexed as this one token.
pub open spec fn is_one_token(s: Seq<char>, kind: TokenKindV) -> bool {
    tokens_from(s, 0, Seq::empty()) == Ok::<Seq<TokenV>, LexError>(
        seq![TokenV { kind, span: Span { start: 0, end: byte_len(s) as usize } }],
    )
}

/// The text is lexed as one word with these segments.
pub open spec fn is_one_word(s: Seq<char>, w: Seq<WordSegmentV>) -> bool {
    is_one_token(s, TokenKindV::Word(w))
}

proof fn lemma_one_token(s: Seq<char>, kind: TokenKindV)
    requires
        s.len() > 0,
        s[0] != ' ' && s[0] != '\t' && s[0] != '#',
        token_at(s, 0) == Ok::<(TokenKindV, int), LexError>((kind, s.len() as int)),
    ensures
        is_one_token(s, kind),
{
    let n = s.len() as int;
    let token = TokenV { kind, span: Span { start: pos(s, 0), end: pos(s, n) } };
    assert(blanks_end(s, 0) == 0);
    assert(blanks_end(s, n) == n);
    assert(Seq::<TokenV>::empty().push(token) =~= seq![token]);
    assert(tokens_from(s, n, seq![token]) == Ok::<Seq<TokenV>, LexError>(seq![token]));
}

// ---- double quotes ------------------------------------------------------------------------------

/// A character as it is written between double quotes: the four that mean something
/// there have a backslash in front.
pub open spec fn written_in_quotes(c: char) -> Seq<char> {
    if c == '$' || c == '`' || c == '"' || c == '\\' {
        seq!['\\', c]
    } else {
        seq![c]
    }
}

/// A text as it is written between double quotes.
pub open spec fn quoted_form(t: Seq<char>) -> Seq<char>
    decreases t.len(),
{
    if t.len() == 0 {
        Seq::empty()
    } else {
        written_in_quotes(t[0]) + quoted_form(t.skip(1))
    }
}

/// The literal that a text is, if it is not empty.
pub open spec fn literal(t: Seq<char>) -> Seq<WordSegmentV> {
    if t.len() == 0 {
        Seq::empty()
    } else {
        seq![WordSegmentV::Literal(t)]
    }
}

/// `u` stands in `s` from `i` on.
spec fn stands(s: Seq<char>, i: int, u: Seq<char>) -> bool {
    &&& 0 <= i
    &&& i + u.len() <= s.len()
    &&& forall|k: int| 0 <= k < u.len() ==> s[i + k] == #[trigger] u[k]
}

proof fn lemma_stands_parts(s: Seq<char>, i: int, u: Seq<char>, v: Seq<char>)
    requires
        stands(s, i, u + v),
    ensures
        stands(s, i, u),
        stands(s, i + u.len(), v),
{
    assert forall|k: int| 0 <= k < u.len() implies s[i + k] == #[trigger] u[k] by {
        assert((u + v)[k] == u[k]);
    }
    assert forall|k: int| 0 <= k < v.len() implies s[i + u.len() + k] == #[trigger] v[k] by {
        assert((u + v)[u.len() + k] == v[k]);
    }
}

proof fn lemma_quoted_form(
    s: Seq<char>,
    i: int,
    t: Seq<char>,
    to_end: bool,
    lit: Seq<char>,
    segs: Seq<WordSegmentV>,
)
    requires
        stands(s, i, quoted_form(t)),
        to_end ==> i + quoted_form(t).len() == s.len(),
        !to_end ==> i + quoted_form(t).len() == s.len() || at(
            s,
            (i + quoted_form(t).len()) as int,
        ) == Some('"'),
    ensures
        quoted_content(s, i, to_end, lit, segs) == Ok::<(Seq<WordSegmentV>, int), LexError>(
            (flush(lit + t, segs), (i + quoted_form(t).len()) as int),
        ),
    decreases t.len(),
{
    if t.len() == 0 {
        assert(lit + t =~= lit);
    } else {
        let c = t[0];
        let one = written_in_quotes(c);
        let rest = t.skip(1);
        lemma_stands_parts(s, i, one, quoted_form(rest));
        assert(s[i] == one[0]);
        if one.len() == 2 {
            assert(s[i + 1] == one[1]);
        }
        lemma_quoted_form(s, i + one.len(), rest, to_end, lit.push(c), segs);
        assert(lit.push(c) + rest =~= lit + t);
    }
}

/// What is quoted for double quotes reads back: any text, written between double quotes
/// with a backslash in front of each `$`, backquote, `"` and `\`, is one word that holds
/// exactly that text.
pub proof fn law_double_quotes_read_back(t: Seq<char>)
    ensures
        is_one_word(
            seq!['"'] + quoted_form(t) + seq!['"'],
            seq![WordSegmentV::DoubleQuoted(literal(t))],
        ),
        quoted_content(quoted_form(t), 0, true, Seq::empty(), Seq::empty()) == Ok::<
            (Seq<WordSegmentV>, int),
            LexError,
        >((literal(t), quoted_form(t).len() as int)),
{
    let body = quoted_form(t);
    let s = seq!['"'] + body + seq!['"'];
    let n = s.len() as int;
    let none = Seq::<WordSegmentV>::empty();
    assert(Seq::<char>::empty() + t =~= t);
    assert(flush(t, none) =~= literal(t));
    assert(stands(s, 1, body));
    assert(at(s, n - 1) == Some('"'));
    lemma_quoted_form(s, 1, t, false, Seq::empty(), none);
    lemma_quoted_form(body, 0, t, true, Seq::empty(), none);
    lemma_quoted_word(s, literal(t));
}

/// A text that a double quote opens, and another one at its end closes, is one word.
proof fn lemma_quoted_word(s: Seq<char>, inner: Seq<WordSegmentV>)
    requires
        at(s, 0) == Some('"'),
        s.len() > 1,
        quoted_content(s, 1, false, Seq::empty(), Seq::empty()) == Ok::<
            (Seq<WordSegmentV>, int),
            LexError,
        >((inner, s.len() - 1)),
    ensures
        is_one_word(s, seq![WordSegmentV::DoubleQuoted(inner)]),
{
    let n = s.len() as int;
    let seg = WordSegmentV::DoubleQuoted(inner);
    assert(double_quoted(s, 0) == Ok::<(WordSegmentV, int), LexError>((seg, n)));
    assert(digits_end(s, 0) == 0);
    assert(Seq::<WordSegmentV>::empty().push(seg) =~= seq![seg]);
    assert(word_content(s, n, Boundary::Delimiter, Seq::empty(), seq![seg]) == Ok::<
        (Seq<WordSegmentV>, int),
        LexError,
    >((seq![seg], n)));
    lemma_one_token(s, TokenKindV::Word(seq![seg]));
}

/// Between double quotes a backslash that has nothing to escape stays, and one at the end
/// of a line goes with the line end.
pub proof fn law_other_backslashes_stay_in_double_quotes(c: char)
    ensures
        c != '$' && c != '`' && c != '"' && c != '\\' && c != '\n' ==> is_one_word(
            seq!['"', '\\', c, '"'],
            seq![WordSegmentV::DoubleQuoted(seq![WordSegmentV::Literal(seq!['\\', c])])],
        ),
        is_one_word(seq!['"', '\\', '\n', '"'], seq![WordSegmentV::DoubleQuoted(Seq::empty())]),
{
    let none = Seq::<WordSegmentV>::empty();
    let nothing = Seq::<char>::empty();
    if c != '$' && c != '`' && c != '"' && c != '\\' && c != '\n' {
        let s = seq!['"', '\\', c, '"'];
        let lit = nothing.push('\\').push(c);
        assert(lit =~= seq!['\\', c]);
        assert(flush(lit, none) =~= seq![WordSegmentV::Literal(lit)]);
        assert(quoted_content(s, 3, false, lit, none) == Ok::<(Seq<WordSegmentV>, int), LexError>(
            (flush(lit, none), 3),
        ));
        lemma_quoted_word(s, flush(lit, none));
    }
    let s = seq!['"', '\\', '\n', '"'];
    assert(quoted_content(s, 3, false, nothing, none) == Ok::<(Seq<WordSegmentV>, int), LexError>(
        (none, 3),
    ));
    lemma_quoted_word(s, none);
}

// ---- outside quotes -----------------------------------------------------------------------------

/// A character that means only itself in a word.
pub open spec fn is_plain(c: char) -> bool {
    &&& c != ' ' && c != '\t' && c != '\n'
    &&& c != '|' && c != '&' && c != ';' && c != '<' && c != '>' && c != '(' && c != ')'
    &&& c != '\'' && c != '"' && c != '`' && c != '$' && c != '\\'
}

/// Every character means only itself.
pub open spec fn all_plain(t: Seq<char>) -> bool {
    forall|k: int| 0 <= k < t.len() ==> is_plain(#[trigger] t[k])
}

proof fn lemma_plain_run(
    s: Seq<char>,
    i: int,
    t: Seq<char>,
    b: Boundary,
    lit: Seq<char>,
    segs: Seq<WordSegmentV>,
)
    requires
        stands(s, i, t),
        all_plain(t),
    ensures
        word_content(s, i, b, lit, segs) == word_content(
            s,
            (i + t.len()) as int,
            b,
            lit + t,
            segs,
        ),
    decreases t.len(),
{
    if t.len() == 0 {
        assert(lit + t =~= lit);
    } else {
        let rest = t.skip(1);
        assert(is_plain(t[0]));
        assert(s[i + 0] == t[0]);
        assert(stands(s, i + 1, rest)) by {
            assert forall|k: int| 0 <= k < rest.len() implies s[i + 1 + k] == #[trigger] rest[
                k
            ] by {
                assert(rest[k] == t[k + 1]);
                assert(s[i + (k + 1)] == t[k + 1]);
            }
        }
        assert forall|k: int| 0 <= k < rest.len() implies is_plain(#[trigger] rest[k]) by {
            assert(rest[k] == t[k + 1]);
        }
        lemma_plain_run(s, i + 1, rest, b, lit.push(t[0]), segs);
        assert(lit.push(t[0]) + rest =~= lit + t);
    }
}

/// The digits at the end of a plain text are no IO number.
proof fn lemma_no_io_number(s: Seq<char>, i: int, j: int)
    requires
        0 <= i <= j <= s.len(),
        forall|k: int| i <= k < j ==> is_plain(#[trigger] s[k]),
        j < s.len() ==> !is_digit(s[j]) && s[j] != '<' && s[j] != '>',
    ensures
        i <= digits_end(s, i) <= j,
        at(s, digits_end(s, i)) != Some('<'),
        at(s, digits_end(s, i)) != Some('>'),
    decreases j - i,
{
    if i < j {
        assert(is_plain(s[i]));
        lemma_no_io_number(s, i + 1, j);
    }
}

/// A plain text at `i` with a delimiter behind it is a word.
proof fn lemma_plain_word(s: Seq<char>, i: int, t: Seq<char>)
    requires
        stands(s, i, t),
        all_plain(t),
        t.len() > 0,
        i + t.len() < s.len() ==> {
            let c = s[(i + t.len()) as int];
            c == ' ' || c == '\t' || c == '\n' || c == '|' || c == '&' || c == ';' || c == '('
                || c == ')'
        },
    ensures
        token_at(s, i) == Ok::<(TokenKindV, int), LexError>(
            (TokenKindV::Word(seq![WordSegmentV::Literal(t)]), (i + t.len()) as int),
        ),
{
    let j = (i + t.len()) as int;
    let none = Seq::<WordSegmentV>::empty();
    assert(is_plain(t[0]));
    assert(s[i + 0] == t[0]);
    assert forall|k: int| i <= k < j implies is_plain(#[trigger] s[k]) by {
        assert(s[i + (k - i)] == t[k - i]);
    }
    lemma_no_io_number(s, i, j);
    lemma_plain_run(s, i, t, Boundary::Delimiter, Seq::empty(), none);
    assert(Seq::<char>::empty() + t =~= t);
    assert(flush(t, none) =~= seq![WordSegmentV::Literal(t)]);
}

/// A text of characters that mean only themselves is one word, which holds exactly that
/// text, unless it begins a comment.
pub proof fn law_plain_text_is_one_word(t: Seq<char>)
    requires
        all_plain(t),
        t.len() > 0,
        t[0] != '#',
    ensures
        is_one_word(t, seq![WordSegmentV::Literal(t)]),
{
    assert(is_plain(t[0]));
    assert(stands(t, 0, t));
    lemma_plain_word(t, 0, t);
    lemma_one_token(t, TokenKindV::Word(seq![WordSegmentV::Literal(t)]));
}

/// A text with a backslash in front of each character.
pub open spec fn escaped_form(t: Seq<char>) -> Seq<char>
    decreases t.len(),
{
    if t.len() == 0 {
        Seq::empty()
    } else {
        seq!['\\', t[0]] + escaped_form(t.skip(1))
    }
}

proof fn lemma_escaped_form(
    s: Seq<char>,
    i: int,
    t: Seq<char>,
    b: Boundary,
    lit: Seq<char>,
    segs: Seq<WordSegmentV>,
)
    requires
        stands(s, i, escaped_form(t)),
        i + escaped_form(t).len() == s.len(),
        forall|k: int| 0 <= k < t.len() ==> #[trigger] t[k] != '\n',
    ensures
        word_content(s, i, b, lit, segs) == Ok::<(Seq<WordSegmentV>, int), LexError>(
            (flush(lit + t, segs), s.len() as int),
        ),
    decreases t.len(),
{
    if t.len() == 0 {
        assert(lit + t =~= lit);
    } else {
        let rest = t.skip(1);
        let one = seq!['\\', t[0]];
        assert(t[0] != '\n');
        lemma_stands_parts(s, i, one, escaped_form(rest));
        assert(s[i + 0] == one[0]);
        assert(s[i + 1] == one[1]);
        assert forall|k: int| 0 <= k < rest.len() implies #[trigger] rest[k] != '\n' by {
            assert(rest[k] == t[k + 1]);
        }
        lemma_escaped_form(s, i + 2, rest, b, lit.push(t[0]), segs);
        assert(lit.push(t[0]) + rest =~= lit + t);
    }
}

/// Outside quotes a backslash takes the meaning from whatever character comes after it,
/// except from a newline: a text with a backslash before each character is one word that
/// holds exactly that text.
pub proof fn law_escapes_read_back(t: Seq<char>)
    requires
        t.len() > 0,
        forall|k: int| 0 <= k < t.len() ==> #[trigger] t[k] != '\n',
    ensures
        is_one_word(escaped_form(t), seq![WordSegmentV::Literal(t)]),
        word(escaped_form(t), 0, Boundary::EndOfInput) == Ok::<(Seq<WordSegmentV>, int), LexError>(
            (seq![WordSegmentV::Literal(t)], escaped_form(t).len() as int),
        ),
{
    let s = escaped_form(t);
    let none = Seq::<WordSegmentV>::empty();
    assert(s[0] == '\\');
    assert(stands(s, 0, s));
    lemma_escaped_form(s, 0, t, Boundary::Delimiter, Seq::empty(), none);
    lemma_escaped_form(s, 0, t, Boundary::EndOfInput, Seq::empty(), none);
    assert(Seq::<char>::empty() + t =~= t);
    assert(flush(t, none) =~= seq![WordSegmentV::Literal(t)]);
    assert(digits_end(s, 0) == 0);
    lemma_one_token(s, TokenKindV::Word(seq![WordSegmentV::Literal(t)]));
}

/// A backslash at the end of a line joins it to the next one: both go.
pub proof fn law_line_continuations_join(t: Seq<char>, u: Seq<char>)
    requires
        all_plain(t),
        all_plain(u),
        t.len() > 0,
        t[0] != '#',
    ensures
        is_one_word(t + seq!['\\', '\n'] + u, seq![WordSegmentV::Literal(t + u)]),
{
    let s = t + seq!['\\', '\n'] + u;
    let n = t.len() as int;
    let none = Seq::<WordSegmentV>::empty();
    assert(is_plain(t[0]) && s[0] == t[0]);
    assert(stands(s, 0, t));
    assert(stands(s, n + 2, u));
    assert(s[n] == '\\' && s[n + 1] == '\n');
    lemma_plain_run(s, 0, t, Boundary::Delimiter, Seq::empty(), none);
    assert(Seq::<char>::empty() + t =~= t);
    lemma_plain_run(s, n + 2, u, Boundary::Delimiter, t, none);
    assert(flush(t + u, none) =~= seq![WordSegmentV::Literal(t + u)]);
    assert forall|k: int| 0 <= k < n implies is_plain(#[trigger] s[k]) by {
        assert(s[k] == t[k]);
    }
    lemma_no_io_number(s, 0, n);
    lemma_one_token(s, TokenKindV::Word(seq![WordSegmentV::Literal(t + u)]));
}

// ---- blanks and comments ------------------------------------------------------------------------

/// A token that was read at these places.
pub open spec fn placed(s: Seq<char>, kind: TokenKindV, i: int, j: int) -> TokenV {
    TokenV { kind, span: Span { start: offset_of(s, i) as usize, end: offset_of(s, j) as usize } }
}

proof fn lemma_blank_run(s: Seq<char>, i: int, j: int)
    requires
        0 <= i <= j <= s.len(),
        forall|k: int| i <= k < j ==> (#[trigger] s[k]) == ' ' || s[k] == '\t',
        j < s.len() ==> s[j] != ' ' && s[j] != '\t',
    ensures
        blanks_end(s, i) == j,
    decreases j - i,
{
    if i < j {
        assert(s[i] == ' ' || s[i] == '\t');
        lemma_blank_run(s, i + 1, j);
    }
}

/// Blanks separate words, however many there are, and are no part of them.
pub proof fn law_blanks_separate_words(t: Seq<char>, blanks: Seq<char>, u: Seq<char>)
    requires
        all_plain(t) && t.len() > 0 && t[0] != '#',
        all_plain(u) && u.len() > 0 && u[0] != '#',
        blanks.len() > 0,
        forall|k: int| 0 <= k < blanks.len() ==> (#[trigger] blanks[k]) == ' ' || blanks[k] == '\t',
    ensures
        ({
            let s = t + blanks + u;
            let i = t.len() as int;
            let j = (t.len() + blanks.len()) as int;
            tokens_from(s, 0, Seq::empty()) == Ok::<Seq<TokenV>, LexError>(
                seq![
                    placed(s, TokenKindV::Word(seq![WordSegmentV::Literal(t)]), 0, i),
                    placed(s, TokenKindV::Word(seq![WordSegmentV::Literal(u)]), j, s.len() as int),
                ],
            )
        }),
{
    let s = t + blanks + u;
    let i = t.len() as int;
    let j = (t.len() + blanks.len()) as int;
    let n = s.len() as int;
    assert(is_plain(t[0]) && s[0] == t[0]);
    assert(is_plain(u[0]) && s[j] == u[0]);
    assert(s[i] == blanks[0]);
    assert(stands(s, 0, t));
    assert(stands(s, j, u));
    lemma_plain_word(s, 0, t);
    lemma_plain_word(s, j, u);
    assert forall|k: int| i <= k < j implies (#[trigger] s[k]) == ' ' || s[k] == '\t' by {
        assert(s[k] == blanks[k - i]);
    }
    lemma_blank_run(s, 0, 0);
    lemma_blank_run(s, i, j);
    lemma_blank_run(s, n, n);
    let one = placed(s, TokenKindV::Word(seq![WordSegmentV::Literal(t)]), 0, i);
    let two = placed(s, TokenKindV::Word(seq![WordSegmentV::Literal(u)]), j, n);
    let none = Seq::<TokenV>::empty();
    assert(none.push(one).push(two) =~= seq![one, two]);
    assert(tokens_from(s, n, none.push(one).push(two)) == Ok::<Seq<TokenV>, LexError>(
        none.push(one).push(two),
    ));
    assert(tokens_from(s, i, none.push(one)) == tokens_from(s, n, none.push(one).push(two)));
}

proof fn lemma_line(s: Seq<char>, i: int, j: int)
    requires
        0 <= i <= j <= s.len(),
        forall|k: int| i <= k < j ==> (#[trigger] s[k]) != '\n',
        j < s.len() ==> s[j] == '\n',
    ensures
        line_end(s, i) == j,
    decreases j - i,
{
    if i < j {
        assert(s[i] != '\n');
        lemma_line(s, i + 1, j);
    }
}

/// A comment is from a `#` where a word could begin to the end of its line: nothing in it
/// is a token, whatever it holds. Inside a word `#` is an ordinary character.
pub proof fn law_comments_are_passed_over(t: Seq<char>, comment: Seq<char>)
    requires
        all_plain(t) && t.len() > 0 && t[0] != '#',
        forall|k: int| 0 <= k < comment.len() ==> (#[trigger] comment[k]) != '\n',
    ensures
        tokens_from(seq!['#'] + comment, 0, Seq::empty()) == Ok::<Seq<TokenV>, LexError>(
            Seq::empty(),
        ),
        tokens_from(t + seq![' ', '#'] + comment, 0, Seq::empty()) == Ok::<Seq<TokenV>, LexError>(
            seq![
                placed(
                    t + seq![' ', '#'] + comment,
                    TokenKindV::Word(seq![WordSegmentV::Literal(t)]),
                    0,
                    t.len() as int,
                ),
            ],
        ),
        tokens_from(seq!['#'] + comment + seq!['\n'], 0, Seq::empty()) == Ok::<
            Seq<TokenV>,
            LexError,
        >(
            seq![
                placed(
                    seq!['#'] + comment + seq!['\n'],
                    TokenKindV::Newline,
                    (comment.len() + 1) as int,
                    (comment.len() + 2) as int,
                ),
            ],
        ),
        is_one_word(t + seq!['#'], seq![WordSegmentV::Literal(t + seq!['#'])]),
{
    let none = Seq::<TokenV>::empty();
    let s = seq!['#'] + comment;
    let n = s.len() as int;
    assert(s[0] == '#');
    assert forall|k: int| 1 <= k < n implies (#[trigger] s[k]) != '\n' by {
        assert(s[k] == comment[k - 1]);
    }
    lemma_blank_run(s, 0, 0);
    lemma_line(s, 1, n);
    lemma_blank_run(s, n, n);
    assert(tokens_from(s, n, none) == Ok::<Seq<TokenV>, LexError>(none));

    let s = t + seq![' ', '#'] + comment;
    let n = s.len() as int;
    let i = t.len() as int;
    assert(is_plain(t[0]) && s[0] == t[0]);
    assert(s[i] == ' ' && s[i + 1] == '#');
    assert(stands(s, 0, t));
    lemma_plain_word(s, 0, t);
    assert forall|k: int| i + 2 <= k < n implies (#[trigger] s[k]) != '\n' by {
        assert(s[k] == comment[k - i - 2]);
    }
    lemma_blank_run(s, 0, 0);
    lemma_blank_run(s, i, i + 1);
    lemma_line(s, i + 2, n);
    lemma_blank_run(s, n, n);
    let one = placed(s, TokenKindV::Word(seq![WordSegmentV::Literal(t)]), 0, i);
    assert(none.push(one) =~= seq![one]);
    assert(tokens_from(s, n, none.push(one)) == Ok::<Seq<TokenV>, LexError>(none.push(one)));
    assert(tokens_from(s, i, none.push(one)) == tokens_from(s, n, none.push(one)));

    let s = seq!['#'] + comment + seq!['\n'];
    let n = s.len() as int;
    assert(s[0] == '#' && s[n - 1] == '\n');
    assert forall|k: int| 1 <= k < n - 1 implies (#[trigger] s[k]) != '\n' by {
        assert(s[k] == comment[k - 1]);
    }
    lemma_blank_run(s, 0, 0);
    lemma_line(s, 1, n - 1);
    lemma_blank_run(s, n - 1, n - 1);
    lemma_blank_run(s, n, n);
    let one = placed(s, TokenKindV::Newline, n - 1, n);
    assert(none.push(one) =~= seq![one]);
    assert(tokens_from(s, n, none.push(one)) == Ok::<Seq<TokenV>, LexError>(none.push(one)));
    assert(tokens_from(s, n - 1, none) == tokens_from(s, n, none.push(one)));

    let s = t + seq!['#'];
    assert forall|k: int| 0 <= k < s.len() implies is_plain(#[trigger] s[k]) by {
        if k < t.len() {
            assert(s[k] == t[k]);
        }
    }
    assert(s[0] == t[0]);
    law_plain_text_is_one_word(s);
}

// ---- operators ----------------------------------------------------------------------------------

/// How an operator is written.
pub open spec fn spelling(op: Operator) -> Seq<char> {
    match op {
        Operator::Pipe => seq!['|'],
        Operator::OrIf => seq!['|', '|'],
        Operator::Amp => seq!['&'],
        Operator::AndIf => seq!['&', '&'],
        Operator::Semi => seq![';'],
        Operator::DSemi => seq![';', ';'],
        Operator::LParen => seq!['('],
        Operator::RParen => seq![')'],
        Operator::Less => seq!['<'],
        Operator::DLess => seq!['<', '<'],
        Operator::DLessDash => seq!['<', '<', '-'],
        Operator::LessAnd => seq!['<', '&'],
        Operator::LessGreat => seq!['<', '>'],
        Operator::Great => seq!['>'],
        Operator::DGreat => seq!['>', '>'],
        Operator::GreatAnd => seq!['>', '&'],
        Operator::Clobber => seq!['>', '|'],
    }
}

/// No operator begins with the spelling of `op` and goes on with `c`.
pub open spec fn cannot_go_on(op: Operator, c: char) -> bool {
    forall|longer: Operator|
        (#[trigger] spelling(longer)).len() > spelling(op).len() ==> !(spelling(longer).take(
            spelling(op).len() as int,
        ) == spelling(op) && spelling(longer)[spelling(op).len() as int] == c)
}

/// Every operator is read as it is written, by itself and with a word behind it that does
/// not make it a longer one.
pub proof fn law_operators_read_back(op: Operator, t: Seq<char>)
    requires
        all_plain(t),
        t.len() > 0,
        t[0] != '#',
        cannot_go_on(op, t[0]),
    ensures
        is_one_token(spelling(op), TokenKindV::Operator(op)),
        ({
            let s = spelling(op) + t;
            let n = spelling(op).len() as int;
            tokens_from(s, 0, Seq::empty()) == Ok::<Seq<TokenV>, LexError>(
                seq![
                    placed(s, TokenKindV::Operator(op), 0, n),
                    placed(s, TokenKindV::Word(seq![WordSegmentV::Literal(t)]), n, s.len() as int),
                ],
            )
        }),
{
    let own = spelling(op);
    let n = own.len() as int;
    assert(is_operator_char(own[0]));
    assert(token_at(own, 0) == Ok::<(TokenKindV, int), LexError>((TokenKindV::Operator(op), n)));
    lemma_one_token(own, TokenKindV::Operator(op));
    let s = own + t;
    let end = s.len() as int;
    assert(is_plain(t[0]) && s[n] == t[0]);
    assert(s[0] == own[0]);
    if n > 1 {
        assert(s[1] == own[1]);
    }
    if op is DLess {
        let dash = spelling(Operator::DLessDash);
        assert(dash.take(2) =~= own);
        assert(t[0] != '-');
    }
    assert(token_at(s, 0) == Ok::<(TokenKindV, int), LexError>((TokenKindV::Operator(op), n)));
    assert(stands(s, n, t));
    lemma_plain_word(s, n, t);
    lemma_blank_run(s, 0, 0);
    lemma_blank_run(s, n, n);
    lemma_blank_run(s, end, end);
    let one = placed(s, TokenKindV::Operator(op), 0, n);
    let two = placed(s, TokenKindV::Word(seq![WordSegmentV::Literal(t)]), n, end);
    let none = Seq::<TokenV>::empty();
    assert(none.push(one).push(two) =~= seq![one, two]);
    assert(tokens_from(s, end, none.push(one).push(two)) == Ok::<Seq<TokenV>, LexError>(
        none.push(one).push(two),
    ));
    assert(tokens_from(s, n, none.push(one)) == tokens_from(s, end, none.push(one).push(two)));
}

proof fn lemma_digit_run(s: Seq<char>, i: int, j: int)
    requires
        0 <= i <= j <= s.len(),
        forall|k: int| i <= k < j ==> is_digit(#[trigger] s[k]),
        j < s.len() ==> !is_digit(s[j]),
    ensures
        digits_end(s, i) == j,
    decreases j - i,
{
    if i < j {
        assert(is_digit(s[i]));
        lemma_digit_run(s, i + 1, j);
    }
}

/// Digits directly before `<` or `>` are the number of a file descriptor; by themselves
/// they are a word.
pub proof fn law_numbers_before_redirections_are_descriptors(n: u32, into: bool)
    ensures
        ({
            let (c, op) = if into {
                ('<', Operator::Less)
            } else {
                ('>', Operator::Great)
            };
            let d = digits(n as nat);
            let s = d.push(c);
            &&& tokens_from(s, 0, Seq::empty()) == Ok::<Seq<TokenV>, LexError>(
                seq![
                    placed(s, TokenKindV::IoNumber(n), 0, d.len() as int),
                    placed(s, TokenKindV::Operator(op), d.len() as int, s.len() as int),
                ],
            )
            &&& is_one_word(d, seq![WordSegmentV::Literal(d)])
        }),
{
    let (c, op) = if into {
        ('<', Operator::Less)
    } else {
        ('>', Operator::Great)
    };
    let d = digits(n as nat);
    let i = d.len() as int;
    let s = d.push(c);
    law_digits_read_back(n as nat);
    assert(all_digits(d));
    assert forall|k: int| 0 <= k < i implies is_digit(#[trigger] s[k]) by {
        assert(s[k] == d[k]);
        assert(is_digit(d[k]));
    }
    assert(s[i] == c);
    assert(is_digit(s[0]));
    lemma_digit_run(s, 0, i);
    assert(s.subrange(0, i) =~= d);
    lemma_blank_run(s, 0, 0);
    lemma_blank_run(s, i, i);
    lemma_blank_run(s, i + 1, i + 1);
    let one = placed(s, TokenKindV::IoNumber(n), 0, i);
    let two = placed(s, TokenKindV::Operator(op), i, i + 1);
    let none = Seq::<TokenV>::empty();
    assert(token_at(s, 0) == Ok::<(TokenKindV, int), LexError>((TokenKindV::IoNumber(n), i)));
    assert(token_at(s, i) == Ok::<(TokenKindV, int), LexError>((TokenKindV::Operator(op), i + 1)));
    assert(none.push(one).push(two) =~= seq![one, two]);
    assert(tokens_from(s, i + 1, none.push(one).push(two)) == Ok::<Seq<TokenV>, LexError>(
        none.push(one).push(two),
    ));
    assert(tokens_from(s, i, none.push(one)) == tokens_from(s, i + 1, none.push(one).push(two)));
    assert forall|k: int| 0 <= k < d.len() implies is_plain(#[trigger] d[k]) by {
        assert(is_digit(d[k]));
    }
    assert(is_digit(d[0]));
    law_plain_text_is_one_word(d);
}

} // verus!
