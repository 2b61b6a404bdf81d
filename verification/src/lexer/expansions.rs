//! Reading back expansions.
//!
//! An expansion that is written around a body is read as one with exactly that body, also
//! where the body holds quotes, escapes, parentheses or other expansions.

use vstd::prelude::*;

use super::inner;
use super::rules::{
    at, backquote_end, backquoted, bare_parameter, brace_end, digits_end, dollar, name_end,
    nested_end, parens_end, quoted_end, single_quote_end, BalanceContext,
};
use super::LexError;
use crate::numbers::{digits, law_digits_read_back};
use crate::text::{is_digit, is_name, is_name_char};
use crate::token::{ParameterV, SpecialParameter, SubstitutionStyle, WordSegmentV};

verus! {

/// The text is read, to its end, as this expansion.
pub open spec fn reads_as(s: Seq<char>, seg: WordSegmentV) -> bool {
    dollar(s, 0) == Ok::<(WordSegmentV, int), LexError>((seg, s.len() as int))
}

// ---- parameters ---------------------------------------------------------------------------------

proof fn lemma_name_run(s: Seq<char>, i: int, j: int)
    requires
        0 <= i <= j <= s.len(),
        forall|k: int| i <= k < j ==> is_name_char(#[trigger] s[k]),
        j < s.len() ==> !is_name_char(s[j]),
    ensures
        name_end(s, i) == j,
    decreases j - i,
{
    if i < j {
        assert(is_name_char(s[i]));
        lemma_name_run(s, i + 1, j);
    }
}

proof fn lemma_digit_run(s: Seq<char>, i: int, j: int)
    requires
        0 <= i <= j <= s.len(),
        forall|k: int| i <= k < j ==> is_digit(#[trigger] s[k]),
        j < s.len() ==> !is_digit(s[j]),
    ensures
        digits_end(s, i) == j,
    decreases j - i,
{
    if i < j {
        assert(is_digit(s[i]));
        lemma_digit_run(s, i + 1, j);
    }
}

/// A name is the parameter of that name, with braces and without.
pub proof fn law_names_read_back(name: Seq<char>)
    requires
        is_name(name),
    ensures
        reads_as(seq!['$'] + name, WordSegmentV::Parameter(ParameterV::Name(name))),
        reads_as(
            seq!['$', '{'] + name + seq!['}'],
            WordSegmentV::Parameter(ParameterV::Name(name)),
        ),
{
    let n = name.len() as int;
    let s = seq!['$'] + name;
    assert forall|k: int| 1 <= k < n + 1 implies is_name_char(#[trigger] s[k]) by {
        assert(s[k] == name[k - 1]);
        assert(is_name_char(name[k - 1]));
    }
    assert(s[1] == name[0]);
    lemma_name_run(s, 1, n + 1);
    assert(s.subrange(1, n + 1) =~= name);
    let s = seq!['$', '{'] + name + seq!['}'];
    assert forall|k: int| 2 <= k < n + 2 implies is_name_char(#[trigger] s[k]) by {
        assert(s[k] == name[k - 2]);
        assert(is_name_char(name[k - 2]));
    }
    assert(s[2] == name[0] && s[n + 2] == '}' && s[1] == '{');
    lemma_name_run(s, 2, n + 2);
    assert(s.subrange(2, n + 2) =~= name);
}

/// A number in braces is the positional parameter of that number. Without braces it is a
/// single digit. 0 is the name of the shell.
pub proof fn law_positional_parameters_read_back(n: u32, rest: Seq<char>)
    requires
        n > 0,
    ensures
        reads_as(
            seq!['$', '{'] + digits(n as nat) + seq!['}'],
            WordSegmentV::Parameter(ParameterV::Positional(n)),
        ),
        n < 10 ==> dollar(seq!['$'] + digits(n as nat) + rest, 0) == Ok::<
            (WordSegmentV, int),
            LexError,
        >((WordSegmentV::Parameter(ParameterV::Positional(n)), 2)),
        reads_as(
            seq!['$', '0'],
            WordSegmentV::Parameter(ParameterV::Special(SpecialParameter::Zero)),
        ),
{
    let d = digits(n as nat);
    let m = d.len() as int;
    law_digits_read_back(n as nat);
    assert(is_digit(d[0]));
    let s = seq!['$', '{'] + d + seq!['}'];
    assert forall|k: int| 2 <= k < m + 2 implies is_digit(#[trigger] s[k]) by {
        assert(s[k] == d[k - 2]);
        assert(is_digit(d[k - 2]));
    }
    assert(s[2] == d[0] && s[m + 2] == '}' && s[1] == '{');
    lemma_digit_run(s, 2, m + 2);
    assert(s.subrange(2, m + 2) =~= d);
    assert(m == 1 ==> d[0] != '0') by {
        reveal_with_fuel(crate::numbers::nat_of, 2);
        if m == 1 && d[0] == '0' {
            assert(d.drop_last() =~= Seq::empty());
        }
    }
    if n < 10 {
        let s = seq!['$'] + d + rest;
        assert(m == 1);
        assert(s[1] == d[0]);
        assert(s.subrange(1, 2) =~= d);
    }
}

/// How a special parameter is written.
pub open spec fn sign(p: SpecialParameter) -> char {
    match p {
        SpecialParameter::At => '@',
        SpecialParameter::Star => '*',
        SpecialParameter::Hash => '#',
        SpecialParameter::Question => '?',
        SpecialParameter::Dash => '-',
        SpecialParameter::Dollar => '$',
        SpecialParameter::Bang => '!',
        SpecialParameter::Zero => '0',
    }
}

/// Every special parameter is read as it is written, with braces and without.
pub proof fn law_special_parameters_read_back(p: SpecialParameter)
    ensures
        reads_as(seq!['$', sign(p)], WordSegmentV::Parameter(ParameterV::Special(p))),
        reads_as(seq!['$', '{', sign(p), '}'], WordSegmentV::Parameter(ParameterV::Special(p))),
{
    let s = seq!['$', '{', sign(p), '}'];
    if p is Zero {
        lemma_digit_run(s, 2, 3);
    }
}

/// A `$` before anything that begins no expansion is an ordinary character.
pub proof fn law_lone_dollars_are_themselves(c: char)
    requires
        c == ' ' || c == '.' || c == '"' || c == '/' || c == '=' || c == ')' || c == '\\',
    ensures
        reads_as(seq!['$'], WordSegmentV::Literal(seq!['$'])),
        dollar(seq!['$', c], 0) == Ok::<(WordSegmentV, int), LexError>(
            (WordSegmentV::Literal(seq!['$']), 1),
        ),
{
}

// ---- bodies -------------------------------------------------------------------------------------

/// A character that is ordinary in the body of an expansion.
pub open spec fn is_ordinary(c: char) -> bool {
    c != '$' && c != '\'' && c != '"' && c != '`' && c != '\\' && c != '(' && c != ')' && c != '{'
        && c != '}'
}

/// Something that hides what it holds from the expansion around it: an ordinary
/// character, an escaped one, a text in single quotes, or an expansion.
pub open spec fn is_piece(e: Seq<char>) -> bool {
    ||| e.len() == 1 && is_ordinary(e[0])
    ||| e.len() == 2 && e[0] == '\\'
    ||| {
        &&& e.len() >= 2
        &&& e[0] == '\''
        &&& e[e.len() - 1] == '\''
        &&& forall|k: int| 0 < k < e.len() - 1 ==> #[trigger] e[k] != '\''
    }
    ||| {
        &&& at(e, 0) == Some('$')
        &&& dollar(e, 0) matches Ok((seg, n)) && n == e.len() && (seg is CommandSubstitution
            || seg is ArithmeticExpansion || seg is ComplexParameterExpansion)
    }
}

/// The pieces behind each other.
pub open spec fn body_of(pieces: Seq<Seq<char>>) -> Seq<char>
    decreases pieces.len(),
{
    if pieces.len() == 0 {
        Seq::empty()
    } else {
        pieces[0] + body_of(pieces.skip(1))
    }
}

/// All of them are pieces.
pub open spec fn all_pieces(pieces: Seq<Seq<char>>) -> bool {
    forall|k: int| 0 <= k < pieces.len() ==> is_piece(#[trigger] pieces[k])
}

/// `u` stands in `s` from `i` on.
spec fn stands(s: Seq<char>, i: int, u: Seq<char>) -> bool {
    0 <= i && i + u.len() <= s.len() && s.subrange(i, (i + u.len()) as int) == u
}

proof fn lemma_stands_parts(s: Seq<char>, i: int, u: Seq<char>, v: Seq<char>)
    requires
        stands(s, i, u + v),
    ensures
        stands(s, i, u),
        stands(s, i + u.len(), v),
{
    let whole = s.subrange(i, (i + u.len() + v.len()) as int);
    assert(s.subrange(i, (i + u.len()) as int) =~= u) by {
        assert forall|k: int| 0 <= k < u.len() implies s[i + k] == #[trigger] u[k] by {
            assert(whole[k] == (u + v)[k]);
        }
    }
    assert(s.subrange((i + u.len()) as int, (i + u.len() + v.len()) as int) =~= v) by {
        assert forall|k: int| 0 <= k < v.len() implies s[i + u.len() + k] == #[trigger] v[k] by {
            assert(whole[u.len() + k] == (u + v)[u.len() + k]);
        }
    }
}

proof fn lemma_quote_closes(s: Seq<char>, i: int, j: int, open: int)
    requires
        0 <= i <= j < s.len(),
        s[j] == '\'',
        forall|k: int| i <= k < j ==> s[k] != '\'',
    ensures
        single_quote_end(s, i, open) == Ok::<int, LexError>(j + 1),
    decreases j - i,
{
    if i < j {
        lemma_quote_closes(s, i + 1, j, open);
    }
}

/// How a piece at `i` is passed over: as a nested expansion, as something quoted, or as a
/// single character.
proof fn lemma_piece(s: Seq<char>, i: int, e: Seq<char>)
    requires
        stands(s, i, e),
        is_piece(e),
    ensures
        ({
            let j = (i + e.len()) as int;
            ||| nested_end(s, i) == Some(Ok::<int, LexError>(j)) && j > i
            ||| nested_end(s, i) is None && quoted_end(s, i) == Some(Ok::<int, LexError>(j)) && j > i
            ||| nested_end(s, i) is None && quoted_end(s, i) is None && j == i + 1 && s[i] != '('
                && s[i] != ')' && s[i] != '}'
        }),
{
    let n = e.len() as int;
    let j = i + n;
    assert forall|k: int| 0 <= k < n implies s[i + k] == #[trigger] e[k] by {
        assert(s.subrange(i, j)[k] == e[k]);
    }
    assert(s[i] == e[0]);
    if e[0] == '\'' {
        assert(s[j - 1] == e[n - 1]);
        assert forall|k: int| i + 1 <= k < j - 1 implies s[k] != '\'' by {
            assert(s[i + (k - i)] == e[k - i]);
        }
        lemma_quote_closes(s, i + 1, j - 1, i);
    } else if e[0] == '$' {
        super::laws::law_expansions_are_verbatim(e, 0);
        assert(super::excerpt::part(s, i, j) == e);
        let (seg, m) = dollar(e, 0)->Ok_0;
        if at(e, 1) == Some('{') {
            assert(s[i + 1] == e[1]);
            inner::lemma_brace_end(e, s, i, j, 2, i + 2, 0, i);
        } else if at(e, 1) == Some('(') && at(e, 2) == Some('(') {
            assert(s[i + 1] == e[1] && s[i + 2] == e[2]);
            inner::lemma_parens_end(
                e,
                s,
                i,
                j,
                3,
                i + 3,
                2,
                false,
                BalanceContext::Arithmetic,
                0,
                i,
            );
        } else if at(e, 1) == Some('(') {
            super::laws::lemma_parens_end(e, 2, 1, false, BalanceContext::CommandSubstitution, 0);
            assert(s[i + 1] == e[1] && s[i + 2] == e[2]);
            inner::lemma_parens_end(
                e,
                s,
                i,
                j,
                2,
                i + 2,
                1,
                false,
                BalanceContext::CommandSubstitution,
                0,
                i,
            );
        }
    }
}

proof fn lemma_pieces(
    s: Seq<char>,
    i: int,
    pieces: Seq<Seq<char>>,
    depth: int,
    ctx: BalanceContext,
    open: int,
)
    requires
        stands(s, i, body_of(pieces)),
        all_pieces(pieces),
        depth > 0,
    ensures
        parens_end(s, i, depth, false, ctx, open) == parens_end(
            s,
            (i + body_of(pieces).len()) as int,
            depth,
            false,
            ctx,
            open,
        ),
        brace_end(s, i, open) == brace_end(s, (i + body_of(pieces).len()) as int, open),
    decreases pieces.len(),
{
    if pieces.len() > 0 {
        let e = pieces[0];
        let rest = pieces.skip(1);
        lemma_stands_parts(s, i, e, body_of(rest));
        assert(is_piece(e));
        lemma_piece(s, i, e);
        assert forall|k: int| 0 <= k < rest.len() implies is_piece(#[trigger] rest[k]) by {
            assert(rest[k] == pieces[k + 1]);
        }
        lemma_pieces(s, i + e.len(), rest, depth, ctx, open);
    }
}

/// A substitution, an arithmetic expansion and a parameter expansion read back their body:
/// whatever is quoted or nested in it ends nothing. What is a parameter by itself in braces
/// is that parameter, and no body.
pub proof fn law_bodies_read_back(pieces: Seq<Seq<char>>)
    requires
        all_pieces(pieces),
    ensures
        ({
            let body = body_of(pieces);
            &&& reads_as(
                seq!['$', '('] + body + seq![')'],
                WordSegmentV::CommandSubstitution(SubstitutionStyle::DollarParen, body),
            )
            &&& reads_as(
                seq!['$', '(', '('] + body + seq![')', ')'],
                WordSegmentV::ArithmeticExpansion(body),
            )
            &&& !(bare_parameter(body, 0, true) matches Some((_, j)) && j == body.len())
                ==> reads_as(
                seq!['$', '{'] + body + seq!['}'],
                WordSegmentV::ComplexParameterExpansion(body),
            )
        }),
{
    lemma_substitution_reads_back(pieces);
    lemma_arithmetic_reads_back(pieces);
    let body = body_of(pieces);
    if !(bare_parameter(body, 0, true) matches Some((_, j)) && j == body.len()) {
        lemma_braces_read_back(pieces);
    }
}

proof fn lemma_substitution_reads_back(pieces: Seq<Seq<char>>)
    requires
        all_pieces(pieces),
    ensures
        reads_as(
            seq!['$', '('] + body_of(pieces) + seq![')'],
            WordSegmentV::CommandSubstitution(SubstitutionStyle::DollarParen, body_of(pieces)),
        ),
{
    let body = body_of(pieces);
    let n = body.len() as int;
    lemma_first(pieces);
    let s = seq!['$', '('] + body + seq![')'];
    assert(s.subrange(2, n + 2) =~= body);
    assert(s[n + 2] == ')' && s[1] == '(');
    if n > 0 {
        assert(s[2] == body[0]);
    }
    lemma_pieces(s, 2, pieces, 1, BalanceContext::CommandSubstitution, 0);
    assert(nested_end(s, n + 2) is None && quoted_end(s, n + 2) is None);
    assert(parens_end(s, n + 3, 0, true, BalanceContext::CommandSubstitution, 0) == Ok::<
        int,
        LexError,
    >(n + 3));
}

proof fn lemma_arithmetic_reads_back(pieces: Seq<Seq<char>>)
    requires
        all_pieces(pieces),
    ensures
        reads_as(
            seq!['$', '(', '('] + body_of(pieces) + seq![')', ')'],
            WordSegmentV::ArithmeticExpansion(body_of(pieces)),
        ),
{
    let body = body_of(pieces);
    let n = body.len() as int;
    let s = seq!['$', '(', '('] + body + seq![')', ')'];
    assert(s.subrange(3, n + 3) =~= body);
    assert(s[n + 3] == ')' && s[n + 4] == ')' && s[1] == '(' && s[2] == '(');
    lemma_pieces(s, 3, pieces, 2, BalanceContext::Arithmetic, 0);
    assert(nested_end(s, n + 3) is None && quoted_end(s, n + 3) is None);
    assert(nested_end(s, n + 4) is None && quoted_end(s, n + 4) is None);
    assert(parens_end(s, n + 5, 0, true, BalanceContext::Arithmetic, 0) == Ok::<int, LexError>(
        n + 5,
    ));
    assert(parens_end(s, n + 4, 1, true, BalanceContext::Arithmetic, 0) == Ok::<int, LexError>(
        n + 5,
    ));
}

proof fn lemma_braces_read_back(pieces: Seq<Seq<char>>)
    requires
        all_pieces(pieces),
        !(bare_parameter(body_of(pieces), 0, true) matches Some((_, j)) && j == body_of(
            pieces,
        ).len()),
    ensures
        reads_as(
            seq!['$', '{'] + body_of(pieces) + seq!['}'],
            WordSegmentV::ComplexParameterExpansion(body_of(pieces)),
        ),
{
    let body = body_of(pieces);
    let n = body.len() as int;
    let s = seq!['$', '{'] + body + seq!['}'];
    assert(s.subrange(2, n + 2) =~= body);
    assert(s[n + 2] == '}' && s[1] == '{');
    lemma_pieces(s, 2, pieces, 1, BalanceContext::CommandSubstitution, 0);
    assert(nested_end(s, n + 2) is None && quoted_end(s, n + 2) is None);
    assert(brace_end(s, n + 2, 0) == Ok::<int, LexError>(n + 3));
    lemma_no_brace(pieces, body);
    lemma_not_bare(s, body);
}

proof fn lemma_first(pieces: Seq<Seq<char>>)
    requires
        all_pieces(pieces),
    ensures
        body_of(pieces).len() > 0 ==> body_of(pieces)[0] != '(',
{
    if pieces.len() > 0 {
        assert(is_piece(pieces[0]));
        assert(pieces[0].len() > 0);
        assert(body_of(pieces)[0] == pieces[0][0]);
    }
}

/// A parameter at the start of a body ends before the first closing brace.
proof fn lemma_no_brace(pieces: Seq<Seq<char>>, body: Seq<char>)
    requires
        all_pieces(pieces),
        body == body_of(pieces),
    ensures
        bare_parameter(body, 0, true) matches Some((_, j)) ==> 0 < j <= body.len() && (j
            < body.len() ==> body[j] != '}'),
{
    super::laws::lemma_bare_parameter(body, 0, true);
    if let Some((_, j)) = bare_parameter(body, 0, true) {
        if j < body.len() && body[j] == '}' {
            lemma_brace_is_hidden(pieces, j);
            let k = choose|k: int|
                0 <= k < j && #[trigger] is_opening(body[k]) && (body[k] == '$' ==> k + 1 < j
                    && !is_name_char(body[k + 1]));
            super::rules::lemma_digits_end(body, 0);
            super::rules::lemma_name_end(body, 0);
            assert(is_opening(body[k]));
            if k > 0 {
                assert(is_digit(body[k]) || is_name_char(body[k]));
            }
        }
    }
}

/// Before a closing brace in a body stands something that opened what it is part of.
proof fn lemma_brace_is_hidden(pieces: Seq<Seq<char>>, j: int)
    requires
        all_pieces(pieces),
        0 <= j < body_of(pieces).len(),
        body_of(pieces)[j] == '}',
    ensures
        exists|k: int|
            0 <= k < j && #[trigger] is_opening(body_of(pieces)[k]) && (body_of(pieces)[k] == '$'
                ==> k + 1 < j && !is_name_char(body_of(pieces)[k + 1])),
    decreases pieces.len(),
{
    let e = pieces[0];
    let rest = pieces.skip(1);
    let body = body_of(pieces);
    let n = e.len() as int;
    assert(is_piece(e));
    assert forall|k: int| 0 <= k < n implies body[k] == #[trigger] e[k] by {}
    if j < n {
        assert(body[0] == e[0]);
        assert(is_opening(body[0]));
        if e[0] == '$' {
            super::laws::law_expansions_are_verbatim(e, 0);
            assert(body[1] == e[1]);
        }
    } else {
        assert(body[j] == body_of(rest)[j - n]);
        assert forall|k: int| 0 <= k < rest.len() implies is_piece(#[trigger] rest[k]) by {
            assert(rest[k] == pieces[k + 1]);
        }
        lemma_brace_is_hidden(rest, j - n);
        let inside = body_of(rest);
        let k = choose|k: int|
            0 <= k < j - n && #[trigger] is_opening(inside[k]) && (inside[k] == '$' ==> k + 1 < j
                - n && !is_name_char(inside[k + 1]));
        assert(body[k + n] == inside[k]);
        assert(is_opening(body[k + n]));
        assert(body[k + n + 1] == inside[k + 1]);
    }
}

/// A character that can open a piece of more than one character.
pub open spec fn is_opening(c: char) -> bool {
    c == '$' || c == '\'' || c == '\\'
}

/// Where no parameter fills the braces, there is none directly before the closing one.
proof fn lemma_not_bare(s: Seq<char>, body: Seq<char>)
    requires
        s == seq!['$', '{'] + body + seq!['}'],
        bare_parameter(body, 0, true) matches Some((_, j)) ==> 0 < j < body.len() && body[j] != '}',
    ensures
        bare_parameter(s, 2, true) matches Some((_, j)) ==> at(s, j) != Some('}'),
{
    let n = body.len() as int;
    assert(s.len() == n + 3);
    assert forall|k: int| 0 <= k < n implies s[k + 2] == #[trigger] body[k] by {}
    assert(s[n + 2] == '}');
    if n > 0 {
        assert(s[2] == body[0]);
        lemma_runs_in_braces(s, body, 0);
        assert(s.subrange(2, digits_end(s, 2)) =~= body.subrange(0, digits_end(body, 0)));
    }
}

proof fn lemma_runs_in_braces(s: Seq<char>, body: Seq<char>, i: int)
    requires
        s == seq!['$', '{'] + body + seq!['}'],
        0 <= i <= body.len(),
    ensures
        digits_end(s, i + 2) == digits_end(body, i) + 2,
        name_end(s, i + 2) == name_end(body, i) + 2,
        i <= digits_end(body, i) <= body.len(),
        i <= name_end(body, i) <= body.len(),
    decreases body.len() - i,
{
    if i < body.len() {
        assert(s[i + 2] == body[i]);
        lemma_runs_in_braces(s, body, i + 1);
    } else {
        assert(s[i + 2] == '}');
    }
}

/// Parentheses in the body of a substitution or of an arithmetic expansion are balanced.
pub proof fn law_parentheses_balance(
    before: Seq<Seq<char>>,
    within: Seq<Seq<char>>,
    after: Seq<Seq<char>>,
)
    requires
        all_pieces(before) && before.len() > 0,
        all_pieces(within),
        all_pieces(after) && after.len() > 0,
    ensures
        ({
            let body = body_of(before) + seq!['('] + body_of(within) + seq![')'] + body_of(after);
            &&& reads_as(
                seq!['$', '('] + body + seq![')'],
                WordSegmentV::CommandSubstitution(SubstitutionStyle::DollarParen, body),
            )
            &&& reads_as(
                seq!['$', '(', '('] + body + seq![')', ')'],
                WordSegmentV::ArithmeticExpansion(body),
            )
        }),
{
    let body = body_of(before) + seq!['('] + body_of(within) + seq![')'] + body_of(after);
    let n = body.len() as int;
    lemma_first(before);
    assert(is_piece(before[0]));
    assert(body[0] == body_of(before)[0]);

    let s = seq!['$', '('] + body + seq![')'];
    assert(s[2] == body[0] && s[1] == '(' && s[n + 2] == ')');
    lemma_balanced(s, 2, before, within, after, 1, BalanceContext::CommandSubstitution);
    assert(s.subrange(2, n + 2) =~= body);
    assert(nested_end(s, n + 2) is None && quoted_end(s, n + 2) is None);
    assert(parens_end(s, n + 3, 0, true, BalanceContext::CommandSubstitution, 0) == Ok::<
        int,
        LexError,
    >(n + 3));

    let s = seq!['$', '(', '('] + body + seq![')', ')'];
    assert(s[n + 3] == ')' && s[n + 4] == ')' && s[1] == '(' && s[2] == '(');
    lemma_balanced(s, 3, before, within, after, 2, BalanceContext::Arithmetic);
    assert(s.subrange(3, n + 3) =~= body);
    assert(nested_end(s, n + 3) is None && quoted_end(s, n + 3) is None);
    assert(nested_end(s, n + 4) is None && quoted_end(s, n + 4) is None);
    assert(parens_end(s, n + 5, 0, true, BalanceContext::Arithmetic, 0) == Ok::<int, LexError>(
        n + 5,
    ));
    assert(parens_end(s, n + 4, 1, true, BalanceContext::Arithmetic, 0) == Ok::<int, LexError>(
        n + 5,
    ));
}

proof fn lemma_balanced(
    s: Seq<char>,
    i: int,
    before: Seq<Seq<char>>,
    within: Seq<Seq<char>>,
    after: Seq<Seq<char>>,
    depth: int,
    ctx: BalanceContext,
)
    requires
        all_pieces(before),
        all_pieces(within),
        all_pieces(after) && after.len() > 0,
        depth > 0,
        0 <= i,
        ({
            let body = body_of(before) + seq!['('] + body_of(within) + seq![')'] + body_of(after);
            i + body.len() <= s.len() && forall|k: int|
                0 <= k < body.len() ==> s[i + k] == #[trigger] body[k]
        }),
    ensures
        ({
            let body = body_of(before) + seq!['('] + body_of(within) + seq![')'] + body_of(after);
            parens_end(s, i, depth, false, ctx, 0) == parens_end(
                s,
                (i + body.len()) as int,
                depth,
                false,
                ctx,
                0,
            )
        }),
{
    let (x, y, z) = (body_of(before), body_of(within), body_of(after));
    let body = x + seq!['('] + y + seq![')'] + z;
    let a = (i + x.len()) as int;
    let b = (a + 1 + y.len()) as int;
    assert forall|k: int| 0 <= k < x.len() implies s[i + k] == #[trigger] x[k] by {
        assert(body[k] == x[k]);
    }
    assert forall|k: int| 0 <= k < y.len() implies s[a + 1 + k] == #[trigger] y[k] by {
        assert(body[x.len() + 1 + k] == y[k]);
    }
    assert forall|k: int| 0 <= k < z.len() implies s[b + 1 + k] == #[trigger] z[k] by {
        assert(body[x.len() + 1 + y.len() + 1 + k] == z[k]);
    }
    assert(s[a] == body[x.len() as int]);
    assert(s[b] == body[(x.len() + 1 + y.len()) as int]);
    assert(s.subrange(i, a) =~= x);
    assert(s.subrange(a + 1, b) =~= y);
    assert(s.subrange(b + 1, (b + 1 + z.len()) as int) =~= z);
    lemma_pieces(s, i, before, depth, ctx, 0);
    assert(nested_end(s, a) is None && quoted_end(s, a) is None);
    lemma_pieces(s, a + 1, within, depth + 1, ctx, 0);
    assert(nested_end(s, b) is None && quoted_end(s, b) is None);
    lemma_after_close(s, b + 1, after, depth, ctx);
}

/// Behind a closing parenthesis the pieces are passed over in the same way.
proof fn lemma_after_close(
    s: Seq<char>,
    i: int,
    pieces: Seq<Seq<char>>,
    depth: int,
    ctx: BalanceContext,
)
    requires
        stands(s, i, body_of(pieces)),
        all_pieces(pieces),
        pieces.len() > 0,
        depth > 0,
    ensures
        parens_end(s, i, depth, true, ctx, 0) == parens_end(
            s,
            (i + body_of(pieces).len()) as int,
            depth,
            false,
            ctx,
            0,
        ),
{
    let e = pieces[0];
    let rest = pieces.skip(1);
    lemma_stands_parts(s, i, e, body_of(rest));
    assert(is_piece(e));
    lemma_piece(s, i, e);
    assert forall|k: int| 0 <= k < rest.len() implies is_piece(#[trigger] rest[k]) by {
        assert(rest[k] == pieces[k + 1]);
    }
    lemma_pieces(s, i + e.len(), rest, depth, ctx, 0);
}

// ---- backquotes ---------------------------------------------------------------------------------

/// A text as it is written between backquotes: the three characters that mean something
/// there have a backslash in front.
pub open spec fn backquoted_form(t: Seq<char>) -> Seq<char>
    decreases t.len(),
{
    if t.len() == 0 {
        Seq::empty()
    } else {
        (if t[0] == '`' || t[0] == '$' || t[0] == '\\' {
            seq!['\\', t[0]]
        } else {
            seq![t[0]]
        }) + backquoted_form(t.skip(1))
    }
}

proof fn lemma_backquoted_form(s: Seq<char>, i: int, t: Seq<char>, open: int)
    requires
        stands(s, i, backquoted_form(t)),
        at(s, (i + backquoted_form(t).len()) as int) == Some('`'),
    ensures
        backquote_end(s, i, open) == Ok::<int, LexError>(
            (i + backquoted_form(t).len() + 1) as int,
        ),
    decreases t.len(),
{
    if t.len() > 0 {
        let c = t[0];
        let one = if c == '`' || c == '$' || c == '\\' {
            seq!['\\', c]
        } else {
            seq![c]
        };
        let rest = t.skip(1);
        lemma_stands_parts(s, i, one, backquoted_form(rest));
        let here = s.subrange(i, (i + one.len()) as int);
        assert(here[0] == one[0]);
        assert(s[i] == one[0]);
        if one.len() == 2 {
            assert(here[1] == one[1]);
            assert(s[i + 1] == one[1]);
        }
        lemma_backquoted_form(s, i + one.len(), rest, open);
    }
}

/// A substitution in backquotes ends at the first backquote that is not escaped, and keeps
/// its body as it is written.
pub proof fn law_backquotes_read_back(t: Seq<char>)
    ensures
        ({
            let body = backquoted_form(t);
            let s = seq!['`'] + body + seq!['`'];
            backquoted(s, 0) == Ok::<(WordSegmentV, int), LexError>(
                (
                    WordSegmentV::CommandSubstitution(SubstitutionStyle::Backtick, body),
                    s.len() as int,
                ),
            )
        }),
{
    let body = backquoted_form(t);
    let s = seq!['`'] + body + seq!['`'];
    let n = body.len() as int;
    assert(s.subrange(1, n + 1) =~= body);
    assert(at(s, n + 1) == Some('`'));
    lemma_backquoted_form(s, 1, t, 0);
}

} // verus!
