//! What is opened and not closed.

use vstd::prelude::*;

use super::{
    all_plain, is_plain, lemma_no_io_number, lemma_plain_run, lemma_quoted_form, quoted_form,
    stands,
};
use crate::lexer::rules::{
    at, backquote_end, bare_parameter, blanks_end, brace_end, digits_end, is_operator_char,
    name_end, nested_end, parens_end, pos, quoted_end, single_quote_end, token_at, tokens_from,
    word_content, BalanceContext, Boundary,
};
use crate::lexer::LexError;
use crate::text::{byte_len, offset_of};
use crate::token::{TokenKindV, TokenV, WordSegmentV};

verus! {

/// The text cannot be lexed, for this reason.
pub open spec fn fails(s: Seq<char>, e: LexError) -> bool {
    tokens_from(s, 0, Seq::empty()) == Err::<Seq<TokenV>, LexError>(e)
}

/// The character neither opens nor closes anything, and escapes nothing.
pub open spec fn is_inert(c: char) -> bool {
    c != '\\' && c != '\'' && c != '"' && c != '`' && c != '$' && c != '(' && c != ')' && c != '{'
        && c != '}'
}

/// Nothing is opened or closed in the text.
pub open spec fn all_inert(t: Seq<char>) -> bool {
    forall|k: int| 0 <= k < t.len() ==> is_inert(#[trigger] t[k])
}

proof fn lemma_offset_in_front(u: Seq<char>, v: Seq<char>, k: int)
    requires
        0 <= k <= u.len(),
    ensures
        offset_of(u + v, k) == offset_of(u, k),
    decreases k,
{
    if k > 0 {
        lemma_offset_in_front(u, v, k - 1);
        assert((u + v)[k - 1] == u[k - 1]);
    }
}

/// What fails behind a plain text fails in the word that the text begins.
proof fn lemma_fails(u: Seq<char>, v: Seq<char>, e: LexError)
    requires
        all_plain(u),
        u.len() > 0 ==> u[0] != '#',
        v.len() > 0,
        v[0] == '\'' || v[0] == '"' || v[0] == '`' || v[0] == '$' || v[0] == '\\',
        word_content(u + v, u.len() as int, Boundary::Delimiter, u, Seq::empty()) == Err::<
            (Seq<WordSegmentV>, int),
            LexError,
        >(e),
    ensures
        fails(u + v, e),
{
    let s = u + v;
    let n = u.len() as int;
    let none = Seq::<WordSegmentV>::empty();
    assert(stands(s, 0, u));
    assert(s[n] == v[0]);
    assert forall|k: int| 0 <= k < n implies is_plain(#[trigger] s[k]) by {
        assert(s[k] == u[k]);
    }
    lemma_no_io_number(s, 0, n);
    lemma_plain_run(s, 0, u, Boundary::Delimiter, Seq::empty(), none);
    assert(Seq::<char>::empty() + u =~= u);
    if n > 0 {
        assert(s[0] == u[0]);
        assert(is_plain(u[0]));
    }
    assert(blanks_end(s, 0) == 0);
    assert(!is_operator_char(s[0]));
    assert(token_at(s, 0) == Err::<(TokenKindV, int), LexError>(e));
}

proof fn lemma_no_single_quote(s: Seq<char>, i: int, open: int)
    requires
        0 <= i <= s.len(),
        forall|k: int| i <= k < s.len() ==> #[trigger] s[k] != '\'',
    ensures
        single_quote_end(s, i, open) == Err::<int, LexError>(
            LexError::UnterminatedSingleQuote { start: pos(s, open) },
        ),
    decreases s.len() - i,
{
    if i < s.len() {
        lemma_no_single_quote(s, i + 1, open);
    }
}

proof fn lemma_nothing_closes(s: Seq<char>, i: int, depth: int, open: int)
    requires
        0 <= i <= s.len(),
        depth > 0,
        forall|k: int| i <= k < s.len() ==> is_inert(#[trigger] s[k]),
    ensures
        backquote_end(s, i, open) == Err::<int, LexError>(
            LexError::UnterminatedBackquote { start: pos(s, open) },
        ),
        brace_end(s, i, open) == Err::<int, LexError>(
            LexError::UnterminatedParameterExpansion { start: pos(s, open) },
        ),
        parens_end(s, i, depth, false, BalanceContext::CommandSubstitution, open) == Err::<
            int,
            LexError,
        >(LexError::UnterminatedCommandSubstitution { start: pos(s, open) }),
        parens_end(s, i, depth, false, BalanceContext::Arithmetic, open) == Err::<int, LexError>(
            LexError::UnterminatedArithmeticExpansion { start: pos(s, open) },
        ),
    decreases s.len() - i,
{
    if i < s.len() {
        assert(is_inert(s[i]));
        assert(nested_end(s, i) is None);
        assert(quoted_end(s, i) is None);
        lemma_nothing_closes(s, i + 1, depth, open);
    }
}

/// What is opened and not closed is reported, each by its own name and with the place
/// where it was opened: quotes, backquotes, expansions, and a backslash with nothing
/// behind it.
pub proof fn law_what_is_left_open_is_reported(u: Seq<char>, t: Seq<char>)
    requires
        all_plain(u),
        u.len() > 0 ==> u[0] != '#',
    ensures
        ({
            let start = byte_len(u) as usize;
            &&& !t.contains('\'') ==> fails(
                u + (seq!['\''] + t),
                LexError::UnterminatedSingleQuote { start },
            )
            &&& fails(u + (seq!['"'] + quoted_form(t)), LexError::UnterminatedDoubleQuote { start })
            &&& all_inert(t) ==> {
                &&& fails(u + (seq!['`'] + t), LexError::UnterminatedBackquote { start })
                &&& fails(
                    u + (seq!['$', '{'] + t),
                    LexError::UnterminatedParameterExpansion { start },
                )
                &&& fails(
                    u + (seq!['$', '('] + t),
                    LexError::UnterminatedCommandSubstitution { start },
                )
                &&& fails(
                    u + (seq!['$', '(', '('] + t),
                    LexError::UnterminatedArithmeticExpansion { start },
                )
            }
            &&& fails(u + seq!['\\'], LexError::TrailingBackslash { pos: start })
        }),
{
    let n = u.len() as int;
    let start = byte_len(u) as usize;
    let none = Seq::<WordSegmentV>::empty();
    if !t.contains('\'') {
        let v = seq!['\''] + t;
        let s = u + v;
        lemma_offset_in_front(u, v, n);
        assert(s[n] == '\'');
        assert forall|k: int| n + 1 <= k < s.len() implies #[trigger] s[k] != '\'' by {
            assert(s[k] == t[k - n - 1]);
            assert(t.contains(t[k - n - 1]));
        }
        lemma_no_single_quote(s, n + 1, n);
        lemma_fails(u, v, LexError::UnterminatedSingleQuote { start });
    }
    lemma_open_double_quote(u, t);
    if all_inert(t) {
        lemma_open_expansions(u, t);
    }
    let v = seq!['\\'];
    lemma_offset_in_front(u, v, n);
    assert((u + v)[n] == '\\');
    lemma_fails(u, v, LexError::TrailingBackslash { pos: start });
}

proof fn lemma_open_double_quote(u: Seq<char>, t: Seq<char>)
    requires
        all_plain(u),
        u.len() > 0 ==> u[0] != '#',
    ensures
        fails(
            u + (seq!['"'] + quoted_form(t)),
            LexError::UnterminatedDoubleQuote { start: byte_len(u) as usize },
        ),
{
    let n = u.len() as int;
    let v = seq!['"'] + quoted_form(t);
    let s = u + v;
    lemma_offset_in_front(u, v, n);
    assert(s[n] == '"');
    assert(stands(s, n + 1, quoted_form(t))) by {
        assert forall|k: int| 0 <= k < quoted_form(t).len() implies s[n + 1 + k]
            == #[trigger] quoted_form(t)[k] by {
            assert(v[1 + k] == quoted_form(t)[k]);
        }
    }
    lemma_quoted_form(s, n + 1, t, false, Seq::empty(), Seq::empty());
    lemma_fails(u, v, LexError::UnterminatedDoubleQuote { start: byte_len(u) as usize });
}

proof fn lemma_open_expansions(u: Seq<char>, t: Seq<char>)
    requires
        all_plain(u),
        u.len() > 0 ==> u[0] != '#',
        all_inert(t),
    ensures
        ({
            let start = byte_len(u) as usize;
            &&& fails(u + (seq!['`'] + t), LexError::UnterminatedBackquote { start })
            &&& fails(
                u + (seq!['$', '{'] + t),
                LexError::UnterminatedParameterExpansion { start },
            )
            &&& fails(
                u + (seq!['$', '('] + t),
                LexError::UnterminatedCommandSubstitution { start },
            )
            &&& fails(
                u + (seq!['$', '(', '('] + t),
                LexError::UnterminatedArithmeticExpansion { start },
            )
        }),
{
    let start = byte_len(u) as usize;
    let a = seq!['`'];
    lemma_behind(u, a, t);
    assert((u + (a + t))[u.len() as int] == '`');
    lemma_fails(u, a + t, LexError::UnterminatedBackquote { start });
    let b = seq!['$', '{'];
    lemma_behind(u, b, t);
    lemma_no_parameter(u, t);
    assert((u + (b + t))[u.len() as int] == '$');
    lemma_fails(u, b + t, LexError::UnterminatedParameterExpansion { start });
    let c = seq!['$', '('];
    lemma_behind(u, c, t);
    assert((u + (c + t))[u.len() as int] == '$');
    assert(at(u + (c + t), u.len() as int + 2) != Some('(')) by {
        if t.len() > 0 {
            assert((u + (c + t))[u.len() as int + 2] == t[0]);
            assert(is_inert(t[0]));
        }
    }
    lemma_fails(u, c + t, LexError::UnterminatedCommandSubstitution { start });
    let d = seq!['$', '(', '('];
    lemma_behind(u, d, t);
    assert((u + (d + t))[u.len() as int] == '$');
    lemma_fails(u, d + t, LexError::UnterminatedArithmeticExpansion { start });
}

/// Behind what is opened nothing closes it.
proof fn lemma_behind(u: Seq<char>, open: Seq<char>, t: Seq<char>)
    requires
        all_inert(t),
        open.len() > 0,
    ensures
        ({
            let s = u + (open + t);
            let i = (u.len() + open.len()) as int;
            let n = u.len() as int;
            let start = byte_len(u) as usize;
            &&& forall|k: int| 0 <= k < open.len() ==> s[n + k] == #[trigger] open[k]
            &&& backquote_end(s, i, n) == Err::<int, LexError>(
                LexError::UnterminatedBackquote { start },
            )
            &&& brace_end(s, i, n) == Err::<int, LexError>(
                LexError::UnterminatedParameterExpansion { start },
            )
            &&& parens_end(s, i, 1, false, BalanceContext::CommandSubstitution, n) == Err::<
                int,
                LexError,
            >(LexError::UnterminatedCommandSubstitution { start })
            &&& parens_end(s, i, 2, false, BalanceContext::Arithmetic, n) == Err::<int, LexError>(
                LexError::UnterminatedArithmeticExpansion { start },
            )
            &&& at(s, n) == Some(open[0])
            &&& open.len() > 1 ==> at(s, n + 1) == Some(open[1])
            &&& open.len() > 2 ==> at(s, n + 2) == Some(open[2])
        }),
{
    let v = open + t;
    let s = u + v;
    let n = u.len() as int;
    let i = (u.len() + open.len()) as int;
    lemma_offset_in_front(u, v, n);
    assert forall|k: int| 0 <= k < open.len() implies s[n + k] == #[trigger] open[k] by {
        assert(v[k] == open[k]);
    }
    assert forall|k: int| i <= k < s.len() implies is_inert(#[trigger] s[k]) by {
        assert(s[k] == v[k - n]);
        assert(s[k] == t[k - i]);
    }
    lemma_nothing_closes(s, i, 1, n);
    lemma_nothing_closes(s, i, 2, n);
}

/// No parameter in braces is closed where nothing is.
proof fn lemma_no_parameter(u: Seq<char>, t: Seq<char>)
    requires
        all_inert(t),
    ensures
        ({
            let s = u + (seq!['$', '{'] + t);
            bare_parameter(s, u.len() as int + 2, true) matches Some((p, j)) ==> at(s, j) != Some('}')
        }),
{
    let v = seq!['$', '{'] + t;
    let s = u + v;
    let i = u.len() as int + 2;
    if let Some((p, j)) = bare_parameter(s, i, true) {
        if at(s, j) == Some('}') {
            lemma_ends_behind(s, i);
            assert(j >= i);
            assert(s[j] == v[j - u.len()]);
            assert(s[j] == t[j - i]);
            assert(is_inert(t[j - i]));
        }
    }
}

proof fn lemma_ends_behind(s: Seq<char>, i: int)
    requires
        0 <= i,
    ensures
        digits_end(s, i) >= i,
        name_end(s, i) >= i,
    decreases s.len() - i,
{
    if i < s.len() {
        lemma_ends_behind(s, i + 1);
    }
}

} // verus!
