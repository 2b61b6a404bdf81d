//! What holds of every input that is lexed.

use vstd::prelude::*;

use super::rules::{
    at, backquote_end, backquote_escapable, backquoted, bare_parameter, blanks_end, brace_end,
    digits_end, dollar, double_quote_end, double_quoted, ends_word, flush, left, lemma_blanks_end,
    lemma_digits_end, lemma_line_end, lemma_name_end, line_end, nested_end, parens_end, past, pos,
    quoted_content, quoted_end, single_quote_end, single_quoted, token_at, tokens_from, unbalanced,
    word, word_content, BalanceContext, Boundary,
};
use super::LexError;
use crate::text::{byte_len, lemma_offset_monotonic, offset_of};
use crate::token::{weight, weights, Span, SubstitutionStyle, TokenKindV, TokenV, WordSegmentV};

verus! {

// ---- errors point at what was opened ------------------------------------------------

/// `e` reports character `k` of `s`, and what stands there opens the construct
/// that `e` is about.
pub open spec fn reports(s: Seq<char>, e: LexError, k: int) -> bool {
    &&& 0 <= k < s.len()
    &&& match e {
        LexError::UnterminatedSingleQuote { start } => start == pos(s, k) && s[k] == '\'',
        LexError::UnterminatedDoubleQuote { start } => start == pos(s, k) && s[k] == '"',
        LexError::UnterminatedBackquote { start } => start == pos(s, k) && s[k] == '`',
        LexError::UnterminatedParameterExpansion { start } => start == pos(s, k) && s[k] == '$'
            && at(s, k + 1) == Some('{'),
        LexError::UnterminatedCommandSubstitution { start } => start == pos(s, k) && s[k] == '$'
            && at(s, k + 1) == Some('('),
        LexError::UnterminatedArithmeticExpansion { start } => start == pos(s, k) && s[k] == '$'
            && at(s, k + 1) == Some('(') && at(s, k + 2) == Some('('),
        LexError::TrailingBackslash { pos: start } => start == pos(s, k) && s[k] == '\\' && k
            == s.len() - 1,
    }
}

/// `e` reports some character of `s`.
pub open spec fn well_placed(s: Seq<char>, e: LexError) -> bool {
    exists|k: int| reports(s, e, k)
}

/// What an end-finding rule may answer.
spec fn good_end(s: Seq<char>, i: int, r: Result<int, LexError>) -> bool {
    match r {
        Ok(j) => i < j <= s.len(),
        Err(e) => well_placed(s, e),
    }
}

proof fn lemma_single_quote_end(s: Seq<char>, i: int, open: int)
    requires
        0 <= open < i,
        open < s.len(),
        s[open] == '\'',
    ensures
        good_end(s, i, single_quote_end(s, i, open)),
    decreases left(s, i),
{
    if i >= s.len() {
        assert(reports(s, LexError::UnterminatedSingleQuote { start: pos(s, open) }, open));
    } else if s[i] != '\'' {
        lemma_single_quote_end(s, i + 1, open);
    }
}

proof fn lemma_backquote_end(s: Seq<char>, i: int, open: int)
    requires
        0 <= open < i,
        open < s.len(),
        s[open] == '`',
    ensures
        good_end(s, i, backquote_end(s, i, open)),
    decreases left(s, i),
{
    if i >= s.len() {
        assert(reports(s, LexError::UnterminatedBackquote { start: pos(s, open) }, open));
    } else if s[i] == '\\' && backquote_escapable(at(s, i + 1)) {
        lemma_backquote_end(s, i + 2, open);
    } else if s[i] != '`' {
        lemma_backquote_end(s, i + 1, open);
    }
}

proof fn lemma_nested_end(s: Seq<char>, i: int)
    ensures
        nested_end(s, i) is Some ==> good_end(s, i, nested_end(s, i)->0),
    decreases left(s, i), 0nat,
{
    if at(s, i) == Some('$') {
        if at(s, i + 1) == Some('(') {
            if at(s, i + 2) == Some('(') {
                lemma_parens_end(s, i + 3, 2, false, BalanceContext::Arithmetic, i);
            } else {
                lemma_parens_end(s, i + 2, 1, false, BalanceContext::CommandSubstitution, i);
            }
        } else if at(s, i + 1) == Some('{') {
            lemma_brace_end(s, i + 2, i);
        }
    }
}

proof fn lemma_double_quote_end(s: Seq<char>, i: int, open: int)
    requires
        0 <= open < i,
        open < s.len(),
        s[open] == '"',
    ensures
        good_end(s, i, double_quote_end(s, i, open)),
    decreases left(s, i), 1nat,
{
    if i >= s.len() {
        assert(reports(s, LexError::UnterminatedDoubleQuote { start: pos(s, open) }, open));
    } else {
        lemma_nested_end(s, i);
        match nested_end(s, i) {
            Some(Ok(j)) => lemma_double_quote_end(s, past(i, j), open),
            Some(Err(_)) => {},
            None => {
                if i + 1 < s.len() {
                    lemma_double_quote_end(s, i + 2, open);
                }
                if s[i] != '"' {
                    lemma_double_quote_end(s, i + 1, open);
                }
            },
        }
    }
}

proof fn lemma_quoted_end(s: Seq<char>, i: int)
    ensures
        quoted_end(s, i) is Some ==> good_end(s, i, quoted_end(s, i)->0),
    decreases left(s, i), 0nat,
{
    if at(s, i) == Some('\\') {
        if i + 1 >= s.len() {
            assert(reports(s, LexError::TrailingBackslash { pos: pos(s, i) }, i));
        }
    } else if at(s, i) == Some('\'') {
        lemma_single_quote_end(s, i + 1, i);
    } else if at(s, i) == Some('"') {
        lemma_double_quote_end(s, i + 1, i);
    } else if at(s, i) == Some('`') {
        lemma_backquote_end(s, i + 1, i);
    }
}

pub proof fn lemma_parens_end(
    s: Seq<char>,
    i: int,
    depth: int,
    closed: bool,
    ctx: BalanceContext,
    open: int,
)
    requires
        0 <= open < i,
        open < s.len(),
        reports(s, unbalanced(ctx, pos(s, open)), open),
        depth >= 0,
        i <= s.len(),
        closed ==> s[i - 1] == ')',
    ensures
        match parens_end(s, i, depth, closed, ctx, open) {
            Ok(j) => {
                &&& i + depth <= j <= s.len()
                &&& depth > 0 ==> s[j - 1] == ')'
                &&& depth > 0 && ctx is Arithmetic ==> s[j - 2] == ')'
            },
            Err(e) => well_placed(s, e),
        },
    decreases left(s, i), 1nat,
{
    if depth > 0 && i < s.len() {
        lemma_nested_end(s, i);
        match nested_end(s, i) {
            Some(Ok(j)) => {
                // The nested construct is longer than one character per level
                // that it could have closed: it closes none.
                lemma_parens_end(s, past(i, j), depth, false, ctx, open);
            },
            Some(Err(_)) => {},
            None => {
                lemma_quoted_end(s, i);
                match quoted_end(s, i) {
                    Some(Ok(j)) => lemma_parens_end(s, past(i, j), depth, false, ctx, open),
                    Some(Err(_)) => {},
                    None => {
                        if s[i] == '(' {
                            lemma_parens_end(s, i + 1, depth + 1, false, ctx, open);
                        } else if s[i] == ')' {
                            lemma_parens_end(s, i + 1, depth - 1, true, ctx, open);
                        } else {
                            lemma_parens_end(s, i + 1, depth, false, ctx, open);
                        }
                    },
                }
            },
        }
    }
}

proof fn lemma_brace_end(s: Seq<char>, i: int, open: int)
    requires
        0 <= open < i,
        open < s.len(),
        s[open] == '$',
        at(s, open + 1) == Some('{'),
    ensures
        good_end(s, i, brace_end(s, i, open)),
    decreases left(s, i), 1nat,
{
    if i >= s.len() {
        assert(reports(s, LexError::UnterminatedParameterExpansion { start: pos(s, open) }, open));
    } else {
        lemma_nested_end(s, i);
        match nested_end(s, i) {
            Some(Ok(j)) => lemma_brace_end(s, past(i, j), open),
            Some(Err(_)) => {},
            None => {
                lemma_quoted_end(s, i);
                match quoted_end(s, i) {
                    Some(Ok(j)) => lemma_brace_end(s, past(i, j), open),
                    Some(Err(_)) => {},
                    None => {
                        if s[i] != '}' {
                            lemma_brace_end(s, i + 1, open);
                        }
                    },
                }
            },
        }
    }
}

// ---- what a word consists of ----------------------------------------------------------

/// A segment that can stand inside double quotes: no quoted region.
pub open spec fn is_unquoted(seg: WordSegmentV) -> bool {
    !(seg is SingleQuoted) && !(seg is DoubleQuoted)
}

/// Every segment can stand inside double quotes.
pub open spec fn all_unquoted(segs: Seq<WordSegmentV>) -> bool {
    forall|k: int| 0 <= k < segs.len() ==> is_unquoted(#[trigger] segs[k])
}

/// No literal is empty, and no two literals stand side by side.
pub open spec fn literals_merged(segs: Seq<WordSegmentV>) -> bool {
    &&& forall|k: int|
        0 <= k < segs.len() && (#[trigger] segs[k]) is Literal ==> segs[k]->Literal_0.len() > 0
    &&& forall|k: int|
        0 < k < segs.len() && (#[trigger] segs[k]) is Literal ==> !(segs[k - 1] is Literal)
}

/// A word as the lexer makes it: literals are merged, and a double-quoted
/// region holds merged literals and expansions but no quoted region.
pub open spec fn well_formed_word(segs: Seq<WordSegmentV>) -> bool {
    &&& literals_merged(segs)
    &&& forall|k: int|
        0 <= k < segs.len() && (#[trigger] segs[k]) is DoubleQuoted ==> all_unquoted(
            segs[k]->DoubleQuoted_0,
        ) && literals_merged(segs[k]->DoubleQuoted_0)
}

/// `segs` may be followed by anything: it ends in no literal.
pub open spec fn open_ended(segs: Seq<WordSegmentV>) -> bool {
    segs.len() > 0 ==> !(segs.last() is Literal)
}

/// What a segment rule may answer at `i`.
spec fn good_segment(s: Seq<char>, i: int, r: Result<(WordSegmentV, int), LexError>) -> bool {
    match r {
        Ok((seg, j)) => i < j <= s.len(),
        Err(e) => well_placed(s, e),
    }
}

pub proof fn lemma_bare_parameter(s: Seq<char>, i: int, multi_digit: bool)
    ensures
        match bare_parameter(s, i, multi_digit) {
            Some((_, j)) => i < j <= s.len(),
            None => true,
        },
{
    lemma_digits_end(s, i);
    lemma_name_end(s, i);
    if at(s, i) is Some {
        lemma_digits_end(s, i + 1);
        lemma_name_end(s, i + 1);
    }
}

proof fn lemma_dollar(s: Seq<char>, i: int)
    requires
        at(s, i) == Some('$'),
    ensures
        good_segment(s, i, dollar(s, i)),
        match dollar(s, i) {
            Ok((seg, j)) => is_unquoted(seg) && (seg is Literal ==> seg == WordSegmentV::Literal(
                seq!['$'],
            )),
            Err(_) => true,
        },
{
    lemma_bare_parameter(s, i + 1, false);
    if at(s, i + 1) == Some('{') {
        lemma_bare_parameter(s, i + 2, true);
        lemma_brace_end(s, i + 2, i);
    } else if at(s, i + 1) == Some('(') && at(s, i + 2) == Some('(') {
        lemma_parens_end(s, i + 3, 2, false, BalanceContext::Arithmetic, i);
    } else if at(s, i + 1) == Some('(') {
        lemma_parens_end(s, i + 2, 1, false, BalanceContext::CommandSubstitution, i);
    }
}

/// Literal text goes on where no literal ends.
pub proof fn lemma_flush(lit: Seq<char>, segs: Seq<WordSegmentV>)
    requires
        literals_merged(segs),
        open_ended(segs),
    ensures
        literals_merged(flush(lit, segs)),
        all_unquoted(segs) ==> all_unquoted(flush(lit, segs)),
        well_formed_word(segs) ==> well_formed_word(flush(lit, segs)),
{
}

/// A segment that is no literal may follow anything.
pub proof fn lemma_push_segment(segs: Seq<WordSegmentV>, seg: WordSegmentV)
    requires
        literals_merged(segs),
        !(seg is Literal),
    ensures
        literals_merged(segs.push(seg)),
        open_ended(segs.push(seg)),
        all_unquoted(segs) && is_unquoted(seg) ==> all_unquoted(segs.push(seg)),
        well_formed_word(segs) && (seg is DoubleQuoted ==> all_unquoted(seg->DoubleQuoted_0)
            && literals_merged(seg->DoubleQuoted_0)) ==> well_formed_word(segs.push(seg)),
{
}

/// Double-quoted content never runs past the input, and holds what it may
/// hold.
proof fn lemma_quoted_content(
    s: Seq<char>,
    i: int,
    to_end: bool,
    lit: Seq<char>,
    segs: Seq<WordSegmentV>,
)
    requires
        0 <= i <= s.len(),
        literals_merged(segs),
        open_ended(segs),
        to_end ==> well_formed_word(segs),
        !to_end ==> all_unquoted(segs),
    ensures
        match quoted_content(s, i, to_end, lit, segs) {
            Ok((out, j)) => i <= j <= s.len() && literals_merged(out) && (!to_end ==> all_unquoted(
                out,
            )) && (to_end ==> well_formed_word(out) && j == s.len()),
            Err(e) => well_placed(s, e),
        },
    decreases left(s, i), 1nat,
{
    if i >= s.len() || (!to_end && s[i] == '"') {
        lemma_flush(lit, segs);
    } else if s[i] == '\\' {
        if at(s, i + 1) is None {
            assert(reports(s, LexError::TrailingBackslash { pos: pos(s, i) }, i));
        } else {
            lemma_quoted_content(s, i + 2, to_end, lit.push(s[i + 1]), segs);
            lemma_quoted_content(s, i + 2, to_end, lit, segs);
            lemma_quoted_content(s, i + 2, to_end, lit.push('\\').push(s[i + 1]), segs);
        }
    } else if s[i] == '"' {
        lemma_double_quoted(s, i);
        lemma_flush(lit, segs);
        match double_quoted(s, i) {
            Ok((seg, j)) => {
                lemma_push_segment(flush(lit, segs), seg);
                lemma_quoted_content(s, j, to_end, Seq::empty(), flush(lit, segs).push(seg));
            },
            Err(_) => {},
        }
    } else if s[i] == '$' {
        lemma_dollar(s, i);
        lemma_flush(lit, segs);
        match dollar(s, i) {
            Ok((WordSegmentV::Literal(t), j)) => {
                lemma_quoted_content(s, j, to_end, lit + t, segs);
            },
            Ok((seg, j)) => {
                lemma_push_segment(flush(lit, segs), seg);
                lemma_quoted_content(s, j, to_end, Seq::empty(), flush(lit, segs).push(seg));
            },
            Err(_) => {},
        }
    } else if s[i] == '`' {
        lemma_backquote_end(s, i + 1, i);
        lemma_flush(lit, segs);
        match backquoted(s, i) {
            Ok((seg, j)) => {
                lemma_push_segment(flush(lit, segs), seg);
                lemma_quoted_content(s, j, to_end, Seq::empty(), flush(lit, segs).push(seg));
            },
            Err(_) => {},
        }
    } else {
        lemma_quoted_content(s, i + 1, to_end, lit.push(s[i]), segs);
    }
}

proof fn lemma_double_quoted(s: Seq<char>, i: int)
    requires
        at(s, i) == Some('"'),
    ensures
        good_segment(s, i, double_quoted(s, i)),
        match double_quoted(s, i) {
            Ok((seg, _)) => seg is DoubleQuoted && all_unquoted(seg->DoubleQuoted_0)
                && literals_merged(seg->DoubleQuoted_0),
            Err(_) => true,
        },
    decreases left(s, i), 0nat,
{
    lemma_quoted_content(s, i + 1, false, Seq::empty(), Seq::empty());
    assert(reports(s, LexError::UnterminatedDoubleQuote { start: pos(s, i) }, i));
}

proof fn lemma_word_content(
    s: Seq<char>,
    i: int,
    b: Boundary,
    lit: Seq<char>,
    segs: Seq<WordSegmentV>,
)
    requires
        0 <= i <= s.len(),
        well_formed_word(segs),
        open_ended(segs),
    ensures
        match word_content(s, i, b, lit, segs) {
            Ok((out, j)) => i <= j <= s.len() && well_formed_word(out) && (b is EndOfInput ==> j
                == s.len()) && (i < s.len() && !ends_word(b, s[i]) ==> i < j),
            Err(e) => well_placed(s, e),
        },
    decreases left(s, i),
{
    lemma_flush(lit, segs);
    if i >= s.len() || ends_word(b, s[i]) {
    } else if s[i] == '\'' || s[i] == '"' || s[i] == '`' {
        if s[i] == '\'' {
            lemma_single_quote_end(s, i + 1, i);
        } else if s[i] == '"' {
            lemma_double_quoted(s, i);
        } else {
            lemma_backquote_end(s, i + 1, i);
        }
        let seg = if s[i] == '\'' {
            single_quoted(s, i)
        } else if s[i] == '"' {
            double_quoted(s, i)
        } else {
            backquoted(s, i)
        };
        match seg {
            Ok((seg, j)) => {
                lemma_push_segment(flush(lit, segs), seg);
                lemma_word_content(s, j, b, Seq::empty(), flush(lit, segs).push(seg));
            },
            Err(_) => {},
        }
    } else if s[i] == '$' {
        lemma_dollar(s, i);
        match dollar(s, i) {
            Ok((WordSegmentV::Literal(t), j)) => lemma_word_content(s, j, b, lit + t, segs),
            Ok((seg, j)) => {
                lemma_push_segment(flush(lit, segs), seg);
                lemma_word_content(s, j, b, Seq::empty(), flush(lit, segs).push(seg));
            },
            Err(_) => {},
        }
    } else if s[i] == '\\' {
        match at(s, i + 1) {
            None => {
                assert(reports(s, LexError::TrailingBackslash { pos: pos(s, i) }, i));
            },
            Some(c) => {
                lemma_word_content(s, i + 2, b, lit, segs);
                lemma_word_content(s, i + 2, b, lit.push(c), segs);
            },
        }
    } else {
        lemma_word_content(s, i + 1, b, lit.push(s[i]), segs);
    }
}

// ---- how deep a word nests ------------------------------------------------------------

/// A word with one more segment weighs as much as the heavier of the two.
pub proof fn lemma_weights_push(segs: Seq<WordSegmentV>, seg: WordSegmentV, n: nat)
    requires
        weights(segs) <= n,
        weight(seg) <= n,
    ensures
        weights(segs.push(seg)) <= n,
{
    assert(segs.push(seg).drop_last() =~= segs);
}

/// Literal text has no weight.
pub proof fn lemma_weights_flush(lit: Seq<char>, segs: Seq<WordSegmentV>, n: nat)
    requires
        weights(segs) <= n,
    ensures
        weights(flush(lit, segs)) <= n,
{
    if lit.len() > 0 {
        lemma_weights_push(segs, WordSegmentV::Literal(lit), n);
    }
}

/// What a `$` introduces weighs no more than the text from it on is long.
pub proof fn lemma_dollar_weight(s: Seq<char>, i: int)
    requires
        at(s, i) == Some('$'),
    ensures
        dollar(s, i) matches Ok((seg, j)) ==> i < j <= s.len() && weight(seg) <= s.len() - i,
{
    lemma_dollar(s, i);
    if at(s, i + 1) == Some('{') {
        lemma_bare_parameter(s, i + 2, true);
        lemma_brace_end(s, i + 2, i);
    } else if at(s, i + 1) == Some('(') && at(s, i + 2) == Some('(') {
        lemma_parens_end(s, i + 3, 2, false, BalanceContext::Arithmetic, i);
    }
}

/// What a `$` introduces is no quoted region.
pub proof fn lemma_dollar_unquoted(s: Seq<char>, i: int)
    requires
        at(s, i) == Some('$'),
    ensures
        dollar(s, i) matches Ok((seg, j)) ==> i < j <= s.len() && is_unquoted(seg),
{
    lemma_dollar(s, i);
}

/// What a backquote opens has no weight.
pub proof fn lemma_backquoted_weight(s: Seq<char>, i: int)
    requires
        at(s, i) == Some('`'),
    ensures
        backquoted(s, i) matches Ok((seg, j)) ==> i < j <= s.len() && weight(seg) == 0,
{
    lemma_backquote_end(s, i + 1, i);
}

proof fn lemma_double_quoted_weight(s: Seq<char>, i: int)
    requires
        at(s, i) == Some('"'),
    ensures
        double_quoted(s, i) matches Ok((seg, j)) ==> i < j <= s.len() && weight(seg) <= s.len()
            - i,
    decreases left(s, i), 0nat,
{
    lemma_double_quoted(s, i);
    lemma_quoted_content_weight(
        s,
        i + 1,
        false,
        Seq::empty(),
        Seq::empty(),
        (s.len() - i - 1) as nat,
    );
}

/// Double-quoted content weighs no more than the text from `i` on is long.
pub proof fn lemma_quoted_content_weight(
    s: Seq<char>,
    i: int,
    to_end: bool,
    lit: Seq<char>,
    segs: Seq<WordSegmentV>,
    n: nat,
)
    requires
        0 <= i <= s.len(),
        weights(segs) <= n,
        s.len() - i <= n,
    ensures
        quoted_content(s, i, to_end, lit, segs) matches Ok((out, _)) ==> weights(out) <= n,
    decreases left(s, i), 1nat,
{
    lemma_weights_flush(lit, segs, n);
    if i >= s.len() || (!to_end && s[i] == '"') {
    } else if s[i] == '\\' {
        if at(s, i + 1) is Some {
            lemma_quoted_content_weight(s, i + 2, to_end, lit.push(s[i + 1]), segs, n);
            lemma_quoted_content_weight(s, i + 2, to_end, lit, segs, n);
            lemma_quoted_content_weight(
                s,
                i + 2,
                to_end,
                lit.push('\\').push(s[i + 1]),
                segs,
                n,
            );
        }
    } else if s[i] == '"' {
        lemma_double_quoted_weight(s, i);
        if let Ok((seg, j)) = double_quoted(s, i) {
            let next = flush(lit, segs).push(seg);
            lemma_weights_push(flush(lit, segs), seg, n);
            lemma_quoted_content_weight(s, j, to_end, Seq::empty(), next, n);
        }
    } else if s[i] == '$' {
        lemma_dollar_weight(s, i);
        match dollar(s, i) {
            Ok((WordSegmentV::Literal(t), j)) => {
                lemma_quoted_content_weight(s, j, to_end, lit + t, segs, n);
            },
            Ok((seg, j)) => {
                let next = flush(lit, segs).push(seg);
                lemma_weights_push(flush(lit, segs), seg, n);
                lemma_quoted_content_weight(s, j, to_end, Seq::empty(), next, n);
            },
            Err(_) => {},
        }
    } else if s[i] == '`' {
        lemma_backquoted_weight(s, i);
        if let Ok((seg, j)) = backquoted(s, i) {
            let next = flush(lit, segs).push(seg);
            lemma_weights_push(flush(lit, segs), seg, n);
            lemma_quoted_content_weight(s, j, to_end, Seq::empty(), next, n);
        }
    } else {
        lemma_quoted_content_weight(s, i + 1, to_end, lit.push(s[i]), segs, n);
    }
}

/// A word weighs no more than the text from `i` on is long.
pub proof fn lemma_word_content_weight(
    s: Seq<char>,
    i: int,
    b: Boundary,
    lit: Seq<char>,
    segs: Seq<WordSegmentV>,
    n: nat,
)
    requires
        0 <= i <= s.len(),
        weights(segs) <= n,
        s.len() - i <= n,
    ensures
        word_content(s, i, b, lit, segs) matches Ok((out, _)) ==> weights(out) <= n,
    decreases left(s, i),
{
    lemma_weights_flush(lit, segs, n);
    if i >= s.len() || ends_word(b, s[i]) {
    } else if s[i] == '\'' || s[i] == '"' || s[i] == '`' {
        if s[i] == '\'' {
            lemma_single_quote_end(s, i + 1, i);
        } else if s[i] == '"' {
            lemma_double_quoted_weight(s, i);
        } else {
            lemma_backquoted_weight(s, i);
        }
        let seg = if s[i] == '\'' {
            single_quoted(s, i)
        } else if s[i] == '"' {
            double_quoted(s, i)
        } else {
            backquoted(s, i)
        };
        if let Ok((seg, j)) = seg {
            let next = flush(lit, segs).push(seg);
            lemma_weights_push(flush(lit, segs), seg, n);
            lemma_word_content_weight(s, j, b, Seq::empty(), next, n);
        }
    } else if s[i] == '$' {
        lemma_dollar_weight(s, i);
        match dollar(s, i) {
            Ok((WordSegmentV::Literal(t), j)) => {
                lemma_word_content_weight(s, j, b, lit + t, segs, n);
            },
            Ok((seg, j)) => {
                let next = flush(lit, segs).push(seg);
                lemma_weights_push(flush(lit, segs), seg, n);
                lemma_word_content_weight(s, j, b, Seq::empty(), next, n);
            },
            Err(_) => {},
        }
    } else if s[i] == '\\' {
        if let Some(c) = at(s, i + 1) {
            lemma_word_content_weight(s, i + 2, b, lit, segs, n);
            lemma_word_content_weight(s, i + 2, b, lit.push(c), segs, n);
        }
    } else {
        lemma_word_content_weight(s, i + 1, b, lit.push(s[i]), segs, n);
    }
}

// ---- tokens ---------------------------------------------------------------------------

/// The tokens stand in the order of the input, do not overlap, take at least
/// one byte each and lie within its `limit` bytes; every word is well formed.
pub open spec fn well_formed_tokens(tokens: Seq<TokenV>, limit: nat) -> bool {
    &&& forall|k: int|
        0 <= k < tokens.len() ==> (#[trigger] tokens[k]).span.start < tokens[k].span.end
            && tokens[k].span.end <= limit
    &&& forall|k: int, l: int|
        0 <= k < l < tokens.len() ==> (#[trigger] tokens[k]).span.end <= (
        #[trigger] tokens[l]).span.start
    &&& forall|k: int|
        0 <= k < tokens.len() && (#[trigger] tokens[k]).kind is Word ==> well_formed_word(
            tokens[k].kind->Word_0,
        )
}

pub proof fn lemma_token_at(s: Seq<char>, i: int)
    requires
        0 <= i < s.len(),
        s[i] != ' ',
        s[i] != '\t',
    ensures
        match token_at(s, i) {
            Ok((kind, j)) => i < j <= s.len() && (kind is Word ==> well_formed_word(kind->Word_0)),
            Err(e) => well_placed(s, e),
        },
{
    lemma_digits_end(s, i);
    lemma_word_content(s, i, Boundary::Delimiter, Seq::empty(), Seq::empty());
}

proof fn lemma_tokens_from(s: Seq<char>, i: int, acc: Seq<TokenV>)
    requires
        0 <= i <= s.len(),
        byte_len(s) <= usize::MAX,
        well_formed_tokens(acc, offset_of(s, i)),
    ensures
        match tokens_from(s, i, acc) {
            Ok(out) => well_formed_tokens(out, byte_len(s)),
            Err(e) => well_placed(s, e),
        },
    decreases left(s, i),
{
    let j = blanks_end(s, i);
    let n = s.len() as int;
    lemma_blanks_end(s, i);
    lemma_offset_monotonic(s, i, n);
    if j < s.len() {
        lemma_line_end(s, j + 1);
        if s[j] == '#' {
            let e = line_end(s, j + 1);
            lemma_offset_monotonic(s, i, e);
            lemma_tokens_from(s, e, acc);
        } else {
            lemma_token_at(s, j);
            match token_at(s, j) {
                Ok((kind, k)) => {
                    let t = TokenV { kind, span: Span { start: pos(s, j), end: pos(s, k) } };
                    lemma_offset_monotonic(s, i, j);
                    lemma_offset_monotonic(s, j, k);
                    lemma_offset_monotonic(s, k, n);
                    assert(well_formed_tokens(acc.push(t), offset_of(s, k)));
                    lemma_tokens_from(s, k, acc.push(t));
                },
                Err(_) => {},
            }
        }
    }
}

// ---- the laws ---------------------------------------------------------------------------

/// Lexing succeeds with tokens in input order that do not overlap, whose words
/// are well formed, or fails with an error whose offset is where the
/// unterminated construct opened.
pub proof fn law_lexing_is_well_placed(s: Seq<char>)
    requires
        byte_len(s) <= usize::MAX,
    ensures
        match tokens_from(s, 0, Seq::empty()) {
            Ok(tokens) => well_formed_tokens(tokens, byte_len(s)),
            Err(e) => well_placed(s, e),
        },
{
    lemma_tokens_from(s, 0, Seq::empty());
}

/// An operand that is read as a whole is read to its end, as a well-formed
/// word, whichever quoting rules apply.
pub proof fn law_operand_is_read_to_its_end(s: Seq<char>)
    ensures
        match word(s, 0, Boundary::EndOfInput) {
            Ok((w, j)) => well_formed_word(w) && j == s.len(),
            Err(e) => well_placed(s, e),
        },
        match quoted_content(s, 0, true, Seq::empty(), Seq::empty()) {
            Ok((w, j)) => well_formed_word(w) && j == s.len(),
            Err(e) => well_placed(s, e),
        },
{
    lemma_word_content(s, 0, Boundary::EndOfInput, Seq::empty(), Seq::empty());
    lemma_quoted_content(s, 0, true, Seq::empty(), Seq::empty());
}

pub proof fn lemma_brace_closes(s: Seq<char>, i: int, open: int)
    requires
        0 <= i,
    ensures
        brace_end(s, i, open) matches Ok(j) ==> i < j <= s.len() && s[j - 1] == '}',
    decreases left(s, i),
{
    if i < s.len() {
        lemma_nested_end(s, i);
        lemma_quoted_end(s, i);
        match nested_end(s, i) {
            Some(Ok(j)) => lemma_brace_closes(s, past(i, j), open),
            Some(Err(_)) => {},
            None => match quoted_end(s, i) {
                Some(Ok(j)) => lemma_brace_closes(s, past(i, j), open),
                Some(Err(_)) => {},
                None => {
                    if s[i] != '}' {
                        lemma_brace_closes(s, i + 1, open);
                    }
                },
            },
        }
    }
}

pub proof fn lemma_backquote_closes(s: Seq<char>, i: int, open: int)
    requires
        0 <= i,
    ensures
        backquote_end(s, i, open) matches Ok(j) ==> i < j <= s.len() && s[j - 1] == '`',
    decreases left(s, i),
{
    if i < s.len() {
        if s[i] == '\\' && backquote_escapable(at(s, i + 1)) {
            lemma_backquote_closes(s, i + 2, open);
        } else if s[i] != '`' {
            lemma_backquote_closes(s, i + 1, open);
        }
    }
}

/// `text` is the expansion `seg` as it is typed, with its body unchanged.
pub open spec fn is_verbatim(seg: WordSegmentV, text: Seq<char>) -> bool {
    match seg {
        WordSegmentV::ArithmeticExpansion(body) => text == "$(("@ + body + "))"@,
        WordSegmentV::CommandSubstitution(SubstitutionStyle::DollarParen, body) => text == "$("@
            + body + ")"@,
        WordSegmentV::CommandSubstitution(SubstitutionStyle::Backtick, body) => text == "`"@ + body
            + "`"@,
        WordSegmentV::ComplexParameterExpansion(body) => text == "${"@ + body + "}"@,
        WordSegmentV::Parameter(_) => text.len() > 1 && text[0] == '$',
        WordSegmentV::Literal(t) => t == "$"@ && text == "$"@,
        _ => false,
    }
}

/// What a `$` introduces keeps its body verbatim: between its brackets stands the
/// body and nothing else. A `$` that introduces nothing is itself.
pub proof fn law_expansions_are_verbatim(s: Seq<char>, i: int)
    requires
        at(s, i) == Some('$'),
    ensures
        dollar(s, i) matches Ok((seg, j)) ==> i < j <= s.len() && is_verbatim(
            seg,
            s.subrange(i, j),
        ),
{
    reveal_strlit("$((");
    reveal_strlit("))");
    reveal_strlit("$(");
    reveal_strlit(")");
    reveal_strlit("${");
    reveal_strlit("}");
    reveal_strlit("$");
    lemma_dollar(s, i);
    lemma_bare_parameter(s, i + 1, false);
    if let Ok((seg, j)) = dollar(s, i) {
        let text = s.subrange(i, j);
        if at(s, i + 1) == Some('{') {
            lemma_bare_parameter(s, i + 2, true);
            lemma_brace_closes(s, i + 2, i);
            if seg is ComplexParameterExpansion {
                assert(text =~= "${"@ + s.subrange(i + 2, j - 1) + "}"@);
            }
        } else if at(s, i + 1) == Some('(') && at(s, i + 2) == Some('(') {
            lemma_parens_end(s, i + 3, 2, false, BalanceContext::Arithmetic, i);
            assert(text =~= "$(("@ + s.subrange(i + 3, j - 2) + "))"@);
        } else if at(s, i + 1) == Some('(') {
            lemma_parens_end(s, i + 2, 1, false, BalanceContext::CommandSubstitution, i);
            assert(text =~= "$("@ + s.subrange(i + 2, j - 1) + ")"@);
        } else {
            assert(seq!['$'] =~= "$"@);
            assert(seg is Literal ==> text =~= "$"@);
        }
    }
}

/// A backquoted substitution keeps its body verbatim.
pub proof fn law_backquotes_are_verbatim(s: Seq<char>, i: int)
    requires
        at(s, i) == Some('`'),
    ensures
        backquoted(s, i) matches Ok((seg, j)) ==> i < j <= s.len() && is_verbatim(
            seg,
            s.subrange(i, j),
        ),
{
    reveal_strlit("`");
    lemma_backquote_closes(s, i + 1, i);
    if let Ok((_, j)) = backquoted(s, i) {
        assert(s.subrange(i, j) =~= "`"@ + s.subrange(i + 1, j - 1) + "`"@);
    }
}

proof fn lemma_single_quote_end_of(s: Seq<char>, i: int, close: int, open: int)
    requires
        0 <= i <= close < s.len(),
        s[close] == '\'',
        forall|k: int| i <= k < close ==> s[k] != '\'',
    ensures
        single_quote_end(s, i, open) == Ok::<int, LexError>(close + 1),
    decreases close - i,
{
    if i < close {
        lemma_single_quote_end_of(s, i + 1, close, open);
    }
}

/// Single quotes keep any text that has none in it: the quoted text is one word
/// with exactly that text.
pub proof fn law_single_quotes_keep_text(t: Seq<char>)
    requires
        forall|k: int| 0 <= k < t.len() ==> t[k] != '\'',
    ensures
        ({
            let s = seq!['\''] + t + seq!['\''];
            tokens_from(s, 0, Seq::empty()) == Ok::<Seq<TokenV>, LexError>(
                seq![
                    TokenV {
                        kind: TokenKindV::Word(seq![WordSegmentV::SingleQuoted(t)]),
                        span: Span { start: 0, end: byte_len(s) as usize },
                    },
                ],
            )
        }),
{
    let s = seq!['\''] + t + seq!['\''];
    let n = s.len() as int;
    assert forall|k: int| 1 <= k < n - 1 implies s[k] != '\'' by {
        assert(s[k] == t[k - 1]);
    }
    lemma_single_quote_end_of(s, 1, n - 1, 0);
    assert(s.subrange(1, n - 1) =~= t);
    assert(digits_end(s, 0) == 0);
    let seg = WordSegmentV::SingleQuoted(t);
    assert(Seq::<WordSegmentV>::empty().push(seg) =~= seq![seg]);
    assert(word_content(s, n, Boundary::Delimiter, Seq::empty(), seq![seg]) == Ok::<
        (Seq<WordSegmentV>, int),
        LexError,
    >((seq![seg], n)));
    assert(word(s, 0, Boundary::Delimiter) == Ok::<(Seq<WordSegmentV>, int), LexError>(
        (seq![seg], n),
    ));
    let tok = TokenV {
        kind: TokenKindV::Word(seq![seg]),
        span: Span { start: pos(s, 0), end: pos(s, n) },
    };
    assert(blanks_end(s, 0) == 0);
    assert(blanks_end(s, n) == n);
    assert(tokens_from(s, n, seq![tok]) == Ok::<Seq<TokenV>, LexError>(seq![tok]));
    assert(Seq::<TokenV>::empty().push(tok) =~= seq![tok]);
}

} // verus!
