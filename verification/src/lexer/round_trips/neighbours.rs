//! Words, operators and lines side by side.

use vstd::prelude::*;

use super::{
    all_plain, cannot_go_on, is_one_word, is_plain, lemma_blank_run, lemma_no_io_number,
    lemma_one_token, lemma_plain_run, lemma_plain_word, lemma_quoted_form, literal, placed,
    quoted_form, spelling, stands,
};
use crate::lexer::rules::{
    digits_end, flush, is_operator_char, single_quote_end, token_at, tokens_from, word,
    word_content, Boundary,
};
use crate::lexer::LexError;
use crate::text::is_digit;
use crate::token::{Operator, TokenKindV, TokenV, WordSegmentV};

verus! {

/// A plain text as a word.
pub open spec fn plain_word(t: Seq<char>) -> TokenKindV {
    TokenKindV::Word(seq![WordSegmentV::Literal(t)])
}

/// A plain text in front of an operator or of the end of a line is a word, unless it is a
/// number in front of a redirection.
proof fn lemma_word_in_front(s: Seq<char>, t: Seq<char>)
    requires
        stands(s, 0, t),
        all_plain(t),
        0 < t.len() < s.len(),
        is_operator_char(s[t.len() as int]) || s[t.len() as int] == '\n',
        is_digit(t[0]) ==> s[t.len() as int] != '<' && s[t.len() as int] != '>',
    ensures
        token_at(s, 0) == Ok::<(TokenKindV, int), LexError>((plain_word(t), t.len() as int)),
{
    let c = s[t.len() as int];
    assert(is_plain(t[0]));
    assert(s[0] == t[0]);
    if c == '<' || c == '>' {
        let none = Seq::<WordSegmentV>::empty();
        assert(digits_end(s, 0) == 0);
        lemma_plain_run(s, 0, t, Boundary::Delimiter, Seq::empty(), none);
        assert(Seq::<char>::empty() + t =~= t);
        assert(none.push(WordSegmentV::Literal(t)) =~= seq![WordSegmentV::Literal(t)]);
        assert(word(s, 0, Boundary::Delimiter) == Ok::<(Seq<WordSegmentV>, int), LexError>(
            (seq![WordSegmentV::Literal(t)], t.len() as int),
        ));
    } else {
        lemma_plain_word(s, 0, t);
    }
}

/// An operator needs no blanks around it: it ends the word in front of it and begins none.
/// Only a number in front of a redirection is no word.
pub proof fn law_operators_end_words(t: Seq<char>, op: Operator, u: Seq<char>)
    requires
        all_plain(t) && t.len() > 0 && t[0] != '#',
        all_plain(u) && u.len() > 0 && u[0] != '#',
        is_digit(t[0]) ==> spelling(op)[0] != '<' && spelling(op)[0] != '>',
        cannot_go_on(op, u[0]),
    ensures
        ({
            let s = t + spelling(op) + u;
            let i = t.len() as int;
            let j = (t.len() + spelling(op).len()) as int;
            tokens_from(s, 0, Seq::empty()) == Ok::<Seq<TokenV>, LexError>(
                seq![
                    placed(s, plain_word(t), 0, i),
                    placed(s, TokenKindV::Operator(op), i, j),
                    placed(s, plain_word(u), j, s.len() as int),
                ],
            )
        }),
{
    let own = spelling(op);
    let s = t + own + u;
    let i = t.len() as int;
    let j = (t.len() + own.len()) as int;
    assert(is_plain(t[0]) && s[0] == t[0]);
    assert(is_plain(u[0]) && s[j] == u[0]);
    assert(s[i] == own[0]);
    assert(is_operator_char(own[0]));
    if own.len() > 1 {
        assert(s[i + 1] == own[1]);
    }
    if own.len() > 2 {
        assert(s[i + 2] == own[2]);
    }
    if op is DLess {
        let dash = spelling(Operator::DLessDash);
        assert(dash.take(2) =~= own);
        assert(u[0] != '-');
    }
    assert(token_at(s, i) == Ok::<(TokenKindV, int), LexError>((TokenKindV::Operator(op), j)));
    lemma_three_tokens(s, t, TokenKindV::Operator(op), j, u);
}

/// The end of a line is a token of its own between the words of two lines.
pub proof fn law_lines_end_words(t: Seq<char>, u: Seq<char>)
    requires
        all_plain(t) && t.len() > 0 && t[0] != '#',
        all_plain(u) && u.len() > 0 && u[0] != '#',
    ensures
        ({
            let s = t + seq!['\n'] + u;
            let i = t.len() as int;
            tokens_from(s, 0, Seq::empty()) == Ok::<Seq<TokenV>, LexError>(
                seq![
                    placed(s, plain_word(t), 0, i),
                    placed(s, TokenKindV::Newline, i, i + 1),
                    placed(s, plain_word(u), i + 1, s.len() as int),
                ],
            )
        }),
{
    let s = t + seq!['\n'] + u;
    let i = t.len() as int;
    assert(s[i] == '\n');
    assert(token_at(s, i) == Ok::<(TokenKindV, int), LexError>((TokenKindV::Newline, i + 1)));
    lemma_three_tokens(s, t, TokenKindV::Newline, i + 1, u);
}

proof fn lemma_three_tokens(
    s: Seq<char>,
    t: Seq<char>,
    kind: TokenKindV,
    j: int,
    u: Seq<char>,
)
    requires
        all_plain(t) && t.len() > 0 && t[0] != '#',
        all_plain(u) && u.len() > 0 && u[0] != '#',
        t.len() < j,
        s.len() == j + u.len(),
        forall|k: int| 0 <= k < t.len() ==> s[k] == #[trigger] t[k],
        forall|k: int| 0 <= k < u.len() ==> s[j + k] == #[trigger] u[k],
        is_operator_char(s[t.len() as int]) || s[t.len() as int] == '\n',
        is_digit(t[0]) ==> s[t.len() as int] != '<' && s[t.len() as int] != '>',
        token_at(s, t.len() as int) == Ok::<(TokenKindV, int), LexError>((kind, j)),
    ensures
        tokens_from(s, 0, Seq::empty()) == Ok::<Seq<TokenV>, LexError>(
            seq![
                placed(s, plain_word(t), 0, t.len() as int),
                placed(s, kind, t.len() as int, j),
                placed(s, plain_word(u), j, s.len() as int),
            ],
        ),
{
    let i = t.len() as int;
    let n = s.len() as int;
    assert(stands(s, 0, t)) by {
        assert forall|k: int| 0 <= k < t.len() implies s[0 + k] == #[trigger] t[k] by {
        }
    }
    assert(stands(s, j, u));
    assert(is_plain(t[0]) && s[0] == t[0]);
    assert(is_plain(u[0]) && s[j + 0] == u[0]);
    lemma_word_in_front(s, t);
    lemma_plain_word(s, j, u);
    lemma_blank_run(s, 0, 0);
    lemma_blank_run(s, i, i);
    lemma_blank_run(s, j, j);
    lemma_blank_run(s, n, n);
    let one = placed(s, plain_word(t), 0, i);
    let two = placed(s, kind, i, j);
    let three = placed(s, plain_word(u), j, n);
    let none = Seq::<TokenV>::empty();
    let all = none.push(one).push(two).push(three);
    assert(all =~= seq![one, two, three]);
    assert(tokens_from(s, n, all) == Ok::<Seq<TokenV>, LexError>(all));
    assert(tokens_from(s, j, none.push(one).push(two)) == tokens_from(s, n, all));
    assert(tokens_from(s, i, none.push(one)) == tokens_from(s, n, all));
}

proof fn lemma_single_quote_run(s: Seq<char>, i: int, j: int, open: int)
    requires
        0 <= i <= j < s.len(),
        forall|k: int| i <= k < j ==> #[trigger] s[k] != '\'',
        s[j] == '\'',
    ensures
        single_quote_end(s, i, open) == Ok::<int, LexError>(j + 1),
    decreases j - i,
{
    if i < j {
        lemma_single_quote_run(s, i + 1, j, open);
    }
}

/// What is written without blanks between is one word, with a part for each way of
/// writing, in their order.
pub proof fn law_parts_of_a_word_stay_together(
    t: Seq<char>,
    q: Seq<char>,
    d: Seq<char>,
    u: Seq<char>,
)
    requires
        all_plain(t) && t.len() > 0 && t[0] != '#',
        all_plain(u) && u.len() > 0,
        !q.contains('\''),
    ensures
        is_one_word(
            t + (seq!['\''] + q + seq!['\'']) + (seq!['"'] + quoted_form(d) + seq!['"']) + u,
            seq![
                WordSegmentV::Literal(t),
                WordSegmentV::SingleQuoted(q),
                WordSegmentV::DoubleQuoted(literal(d)),
                WordSegmentV::Literal(u),
            ],
        ),
{
    let a = seq!['\''] + q + seq!['\''];
    let f = quoted_form(d);
    let b = seq!['"'] + f + seq!['"'];
    let s = t + a + b + u;
    let i = t.len() as int;
    let j = i + a.len();
    let k = j + b.len();
    let n = s.len() as int;
    let none = Seq::<WordSegmentV>::empty();
    let nothing = Seq::<char>::empty();
    assert(is_plain(t[0]) && s[0] == t[0]);
    assert(s[i] == '\'' && s[j - 1] == '\'');
    assert(s[j] == '"' && s[k - 1] == '"');
    assert forall|m: int| i + 1 <= m < j - 1 implies #[trigger] s[m] != '\'' by {
        assert(s[m] == q[m - i - 1]);
        assert(q.contains(q[m - i - 1]));
    }
    lemma_single_quote_run(s, i + 1, j - 1, i);
    assert(s.subrange(i + 1, j - 1) =~= q);
    assert(stands(s, j + 1, f)) by {
        assert forall|m: int| 0 <= m < f.len() implies s[j + 1 + m] == #[trigger] f[m] by {
            assert(b[1 + m] == f[m]);
        }
    }
    assert((j + 1 + f.len()) as int == k - 1);
    lemma_quoted_form(s, j + 1, d, false, nothing, none);
    assert(nothing + d =~= d);
    assert(flush(d, none) =~= literal(d));
    assert(stands(s, 0, t));
    assert(stands(s, k, u));
    assert forall|m: int| 0 <= m < i implies is_plain(#[trigger] s[m]) by {
        assert(s[m] == t[m]);
    }
    lemma_no_io_number(s, 0, i);
    lemma_plain_run(s, 0, t, Boundary::Delimiter, nothing, none);
    assert(nothing + t =~= t);
    let one = seq![WordSegmentV::Literal(t)];
    let two = one.push(WordSegmentV::SingleQuoted(q));
    let three = two.push(WordSegmentV::DoubleQuoted(literal(d)));
    let all = three.push(WordSegmentV::Literal(u));
    assert(flush(t, none) =~= one);
    lemma_plain_run(s, k, u, Boundary::Delimiter, nothing, three);
    assert(nothing + u =~= u);
    assert(word_content(s, n, Boundary::Delimiter, u, three) == Ok::<
        (Seq<WordSegmentV>, int),
        LexError,
    >((all, n)));
    assert(word_content(s, j, Boundary::Delimiter, nothing, two) == word_content(
        s,
        k,
        Boundary::Delimiter,
        nothing,
        three,
    ));
    assert(word_content(s, i, Boundary::Delimiter, t, none) == word_content(
        s,
        j,
        Boundary::Delimiter,
        nothing,
        two,
    ));
    assert(all =~= seq![
        WordSegmentV::Literal(t),
        WordSegmentV::SingleQuoted(q),
        WordSegmentV::DoubleQuoted(literal(d)),
        WordSegmentV::Literal(u),
    ]);
    lemma_one_token(s, TokenKindV::Word(all));
}

} // verus!
