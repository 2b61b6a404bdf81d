//! Reading a word, an expansion or a parameter by itself.
//!
//! Each ends where it is read to end, so that what comes after it has no say in what
//! it is.

use vstd::prelude::*;

use super::excerpt::{self, lemma_token_is_read, part};
use super::inner;
use super::laws::{
    law_expansions_are_verbatim, lemma_backquote_closes, lemma_bare_parameter, lemma_brace_closes,
    lemma_parens_end,
};
use super::rules::{
    at, backquoted, bare_parameter, brace_end, braced, digits_end, dollar, double_quoted, ends_word,
    flush, left, lemma_digits_end, lemma_name_end, name_end, parens_end, past, single_quoted,
    special_parameter, tokens_from, word, word_content, BalanceContext, Boundary,
};
use super::LexError;
use crate::text::{byte_len, is_digit, is_name_char, is_name_start, lemma_offset_monotonic};
use crate::token::{Span, TokenKindV, TokenV, WordSegmentV};

verus! {

// ---- parameters -------------------------------------------------------------------------

/// A bare parameter that begins with `first` is longer where `next` comes after it.
pub open spec fn goes_on(first: char, multi_digit: bool, next: Option<char>) -> bool {
    match next {
        Some(c) => if is_digit(first) {
            multi_digit && is_digit(c)
        } else {
            is_name_start(first) && is_name_char(c)
        },
        None => false,
    }
}

/// The two texts are the same from `i` up to `j`.
spec fn agree(t: Seq<char>, s: Seq<char>, i: int, j: int) -> bool {
    &&& 0 <= i <= j <= t.len()
    &&& j <= s.len()
    &&& forall|k: int| i <= k < j ==> #[trigger] t[k] == s[k]
}

proof fn lemma_runs_agree(t: Seq<char>, s: Seq<char>, i: int, j: int)
    requires
        agree(t, s, i, j),
    ensures
        digits_end(t, i) == j && !(at(s, j) matches Some(c) && is_digit(c)) ==> digits_end(s, i)
            == j,
        name_end(t, i) == j && !(at(s, j) matches Some(c) && is_name_char(c)) ==> name_end(s, i)
            == j,
    decreases j - i,
{
    if i < j {
        assert(t[i] == s[i]);
        lemma_runs_agree(t, s, i + 1, j);
    }
}

/// A bare parameter is the same in another text that has it and goes on otherwise.
proof fn lemma_parameter_agrees(t: Seq<char>, s: Seq<char>, i: int, multi_digit: bool)
    requires
        bare_parameter(t, i, multi_digit) matches Some((_, j)) && agree(t, s, i, j) && !goes_on(
            t[i],
            multi_digit,
            at(s, j),
        ),
    ensures
        bare_parameter(s, i, multi_digit) == bare_parameter(t, i, multi_digit),
{
    let (_, j) = bare_parameter(t, i, multi_digit)->0;
    lemma_digits_end(t, i + 1);
    lemma_name_end(t, i + 1);
    assert(t[i] == s[i]);
    lemma_runs_agree(t, s, i, j);
    assert(t.subrange(i, j) =~= s.subrange(i, j));
}

/// A bare parameter is read to its end and no further. By itself, and with anything
/// behind it that does not continue it, it is the same parameter.
pub proof fn law_parameters_are_read_by_themselves(
    t: Seq<char>,
    multi_digit: bool,
    rest: Seq<char>,
)
    ensures
        bare_parameter(t, 0, multi_digit) matches Some((p, j)) ==> {
            &&& 0 < j <= t.len()
            &&& bare_parameter(t.take(j), 0, multi_digit) == Some((p, j))
            &&& !goes_on(t[0], multi_digit, at(rest, 0)) ==> bare_parameter(
                t.take(j) + rest,
                0,
                multi_digit,
            ) == Some((p, j))
        },
{
    if let Some((_, j)) = bare_parameter(t, 0, multi_digit) {
        lemma_bare_parameter(t, 0, multi_digit);
        lemma_parameter_agrees(t, t.take(j), 0, multi_digit);
        if !goes_on(t[0], multi_digit, at(rest, 0)) {
            lemma_parameter_agrees(t, t.take(j) + rest, 0, multi_digit);
        }
    }
}

// ---- expansions -------------------------------------------------------------------------

/// Up to a place where no parameter goes on, the same parameter is read in both texts.
proof fn lemma_same_parameter(t: Seq<char>, s: Seq<char>, i: int, n: int)
    requires
        agree(t, s, i, n + 1),
        i <= n,
        t[n] == '}',
    ensures
        i <= digits_end(t, i) <= n,
        digits_end(s, i) == digits_end(t, i),
        i <= name_end(t, i) <= n,
        name_end(s, i) == name_end(t, i),
        bare_parameter(s, i, true) == bare_parameter(t, i, true),
        bare_parameter(t, i, true) matches Some((_, k)) ==> i < k <= n,
    decreases n - i,
{
    assert(t[i] == s[i]);
    assert(t[n] == s[n]);
    if i < n {
        lemma_same_parameter(t, s, i + 1, n);
    }
    assert(t.subrange(i, digits_end(t, i)) =~= s.subrange(i, digits_end(t, i)));
    assert(t.subrange(i, name_end(t, i)) =~= s.subrange(i, name_end(t, i)));
}

/// An expansion whose text is `text` is longer, or another one, where `next` comes
/// after it. One in brackets never is.
pub open spec fn runs_on(text: Seq<char>, next: Option<char>) -> bool {
    if text.len() == 1 {
        match next {
            Some(c) => c == '{' || c == '(' || special_parameter(c) is Some || is_digit(c)
                || is_name_start(c),
            None => false,
        }
    } else {
        goes_on(text[1], false, next)
    }
}

proof fn lemma_braced_agrees(t: Seq<char>, s: Seq<char>)
    requires
        at(t, 0) == Some('$'),
        at(t, 1) == Some('{'),
        braced(t, 0) matches Ok((_, j)) && agree(t, s, 0, j),
    ensures
        braced(s, 0) == braced(t, 0),
        at(s, 1) == Some('{'),
{
    let (_, j) = braced(t, 0)->Ok_0;
    law_expansions_are_verbatim(t, 0);
    lemma_brace_closes(t, 2, 0);
    lemma_bare_parameter(t, 2, true);
    lemma_same_parameter(t, s, 2, j - 1);
    assert(t[1] == s[1]);
    assert(t[j - 1] == s[j - 1]);
    if let Some((_, k)) = bare_parameter(t, 2, true) {
        assert(t[k] == s[k]);
    }
    let p = part(t, 0, j);
    assert(p =~= part(s, 0, j));
    if brace_end(t, 2, 0) == Ok::<int, LexError>(j) {
        excerpt::lemma_brace_end(t, 0, j, 2, 0);
        inner::lemma_brace_end(p, s, 0, j, 2, 2, 0, 0);
        assert(t.subrange(2, j - 1) =~= s.subrange(2, j - 1));
    }
}

proof fn lemma_parens_agree(t: Seq<char>, s: Seq<char>, i: int, depth: int, ctx: BalanceContext)
    requires
        0 <= i,
        parens_end(t, i, depth, false, ctx, 0) matches Ok(j) && i <= j && agree(t, s, 0, j),
    ensures
        parens_end(s, i, depth, false, ctx, 0) == parens_end(t, i, depth, false, ctx, 0),
{
    let j = parens_end(t, i, depth, false, ctx, 0)->Ok_0;
    let p = part(t, 0, j);
    assert(p =~= part(s, 0, j));
    excerpt::lemma_parens_end(t, 0, j, i, depth, false, ctx, 0);
    inner::lemma_parens_end(p, s, 0, j, i, i, depth, false, ctx, 0, 0);
}

proof fn lemma_dollar_agrees(t: Seq<char>, s: Seq<char>)
    requires
        at(t, 0) == Some('$'),
        dollar(t, 0) matches Ok((_, j)) && agree(t, s, 0, j) && !runs_on(t.take(j), at(s, j)),
    ensures
        dollar(s, 0) == dollar(t, 0),
{
    let (seg, j) = dollar(t, 0)->Ok_0;
    law_expansions_are_verbatim(t, 0);
    assert(t[0] == s[0]);
    if at(t, 1) == Some('{') {
        lemma_braced_agrees(t, s);
    } else if at(t, 1) == Some('(') && at(t, 2) == Some('(') {
        lemma_parens_end(t, 3, 2, false, BalanceContext::Arithmetic, 0);
        lemma_parens_agree(t, s, 3, 2, BalanceContext::Arithmetic);
        assert(t[1] == s[1] && t[2] == s[2]);
        assert(t.subrange(3, j - 2) =~= s.subrange(3, j - 2));
    } else if at(t, 1) == Some('(') {
        lemma_parens_end(t, 2, 1, false, BalanceContext::CommandSubstitution, 0);
        lemma_parens_agree(t, s, 2, 1, BalanceContext::CommandSubstitution);
        assert(t[1] == s[1] && t[2] == s[2]);
        assert(t.subrange(2, j - 1) =~= s.subrange(2, j - 1));
    } else if bare_parameter(t, 1, false) is Some {
        assert(t.take(j)[1] == t[1]);
        assert(t[1] == s[1]);
        lemma_parameter_agrees(t, s, 1, false);
    }
}

/// What a `$` introduces is read to its end and no further. By itself, and with
/// anything behind it that does not continue it, it is the same expansion. Nothing
/// continues one in brackets; only a name, and a `$` that introduces nothing, can go
/// on.
pub proof fn law_expansions_are_read_by_themselves(t: Seq<char>, rest: Seq<char>)
    requires
        at(t, 0) == Some('$'),
    ensures
        dollar(t, 0) matches Ok((seg, j)) ==> {
            &&& 0 < j <= t.len()
            &&& dollar(t.take(j), 0) == Ok::<(WordSegmentV, int), LexError>((seg, j))
            &&& !runs_on(t.take(j), at(rest, 0)) ==> dollar(t.take(j) + rest, 0) == Ok::<
                (WordSegmentV, int),
                LexError,
            >((seg, j))
        },
{
    law_expansions_are_verbatim(t, 0);
    if let Ok((_, j)) = dollar(t, 0) {
        lemma_dollar_agrees(t, t.take(j));
        if !runs_on(t.take(j), at(rest, 0)) {
            lemma_dollar_agrees(t, t.take(j) + rest);
        }
    }
}

/// A backquoted substitution is read to its end and no further: by itself, and with
/// anything behind it, it is the same substitution.
pub proof fn law_backquotes_are_read_by_themselves(t: Seq<char>, rest: Seq<char>)
    requires
        at(t, 0) == Some('`'),
    ensures
        backquoted(t, 0) matches Ok((seg, j)) ==> {
            &&& 0 < j <= t.len()
            &&& backquoted(t.take(j) + rest, 0) == Ok::<(WordSegmentV, int), LexError>((seg, j))
        },
{
    lemma_backquote_closes(t, 1, 0);
    if let Ok((_, j)) = backquoted(t, 0) {
        let s = t.take(j) + rest;
        let p = part(t, 0, j);
        assert(p =~= part(s, 0, j));
        excerpt::lemma_backquote_end(t, 0, j, 1, 0);
        inner::lemma_backquote_end(p, s, 0, j, 1, 1, 0, 0);
        assert(t.subrange(1, j - 1) =~= s.subrange(1, j - 1));
    }
}

// ---- words ------------------------------------------------------------------------------

/// A word that takes the whole text is the same where nothing but the end of the text
/// ends it.
proof fn lemma_word_to_the_end(
    s: Seq<char>,
    i: int,
    lit: Seq<char>,
    segs: Seq<WordSegmentV>,
    out: Seq<WordSegmentV>,
)
    requires
        0 <= i,
        word_content(s, i, Boundary::Delimiter, lit, segs) == Ok::<
            (Seq<WordSegmentV>, int),
            LexError,
        >((out, s.len() as int)),
    ensures
        word_content(s, i, Boundary::EndOfInput, lit, segs) == Ok::<
            (Seq<WordSegmentV>, int),
            LexError,
        >((out, s.len() as int)),
    decreases left(s, i),
{
    if i < s.len() && !ends_word(Boundary::Delimiter, s[i]) {
        if s[i] == '\'' || s[i] == '"' || s[i] == '`' {
            let seg = if s[i] == '\'' {
                single_quoted(s, i)
            } else if s[i] == '"' {
                double_quoted(s, i)
            } else {
                backquoted(s, i)
            };
            if let Ok((seg, j)) = seg {
                let more = flush(lit, segs).push(seg);
                lemma_word_to_the_end(s, past(i, j), Seq::empty(), more, out);
            }
        } else if s[i] == '$' {
            match dollar(s, i) {
                Ok((WordSegmentV::Literal(t), j)) => {
                    lemma_word_to_the_end(s, past(i, j), lit + t, segs, out);
                },
                Ok((seg, j)) => {
                    let more = flush(lit, segs).push(seg);
                    lemma_word_to_the_end(s, past(i, j), Seq::empty(), more, out);
                },
                Err(_) => {},
            }
        } else if s[i] == '\\' {
            if let Some(c) = at(s, i + 1) {
                if c == '\n' {
                    lemma_word_to_the_end(s, i + 2, lit, segs, out);
                } else {
                    lemma_word_to_the_end(s, i + 2, lit.push(c), segs, out);
                }
            }
        } else {
            lemma_word_to_the_end(s, i + 1, lit.push(s[i]), segs, out);
        }
    }
}

/// A text that is lexed as one word, from its first byte to its last, is read as that
/// word too where it is read as a whole.
pub proof fn law_whole_words_are_read_the_same(s: Seq<char>, w: Seq<WordSegmentV>)
    requires
        byte_len(s) <= usize::MAX,
        tokens_from(s, 0, Seq::empty()) == Ok::<Seq<TokenV>, LexError>(
            seq![
                TokenV {
                    kind: TokenKindV::Word(w),
                    span: Span { start: 0, end: byte_len(s) as usize },
                },
            ],
        ),
    ensures
        word(s, 0, Boundary::EndOfInput) == Ok::<(Seq<WordSegmentV>, int), LexError>(
            (w, s.len() as int),
        ),
{
    let n = s.len() as int;
    let tokens = tokens_from(s, 0, Seq::empty())->Ok_0;
    let (x, y) = lemma_token_is_read(s, 0, Seq::empty(), tokens, 0);
    lemma_offset_monotonic(s, 0, x);
    lemma_offset_monotonic(s, x, n);
    lemma_offset_monotonic(s, y, n);
    assert(x == 0);
    assert(y == n);
    lemma_word_to_the_end(s, 0, Seq::empty(), Seq::empty(), w);
}

} // verus!
