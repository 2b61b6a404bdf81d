//! Brace expansion: `{a,b,c}` and `{start..end[..step]}`.
//!
//! It works on the unexpanded word and may turn one word into several. A group
//! counts only where it lies within one literal segment: `{$a,$b}` is left as
//! it is. Ranges are not padded with zeros.

use vstd::prelude::*;

use crate::ast::words_view;
use crate::numbers::{decimal, digits, i64_to_text, integer_of, parse_i64};
use crate::text::{chars_of, is_letter, lemma_texts_empty, lemma_texts_push, text_between, texts};
use crate::token::{
    lemma_segments_view_empty, lemma_segments_view_push, segment_view, segments_view, Word,
    WordSegment, WordSegmentV, WordV,
};

pub mod laws;

verus! {

broadcast use {lemma_texts_push, lemma_texts_empty, lemma_segments_view_push, lemma_segments_view_empty};

// ---- the rules ------------------------------------------------------------------------

/// The index of the first `{` from `i` on.
pub open spec fn open_from(s: Seq<char>, i: int) -> Option<int>
    decreases s.len() - i,
{
    if i < 0 || i >= s.len() {
        None
    } else if s[i] == '{' {
        Some(i)
    } else {
        open_from(s, i + 1)
    }
}

/// The index of the `}` from `i` on that closes the outermost of `depth` open
/// braces.
pub open spec fn close_from(s: Seq<char>, i: int, depth: nat) -> Option<int>
    decreases s.len() - i,
{
    if i < 0 || i >= s.len() {
        None
    } else if s[i] == '{' {
        close_from(s, i + 1, depth + 1)
    } else if s[i] == '}' && depth <= 1 {
        Some(i)
    } else if s[i] == '}' {
        close_from(s, i + 1, (depth - 1) as nat)
    } else {
        close_from(s, i + 1, depth)
    }
}

/// The parts of `s` between the commas that stand outside braces, from `i` on;
/// the part under way began at `start`.
pub open spec fn comma_parts(
    s: Seq<char>,
    i: int,
    depth: int,
    start: int,
    acc: Seq<Seq<char>>,
) -> Seq<Seq<char>>
    decreases s.len() - i,
{
    if i < 0 || i >= s.len() {
        acc.push(s.subrange(start, s.len() as int))
    } else if s[i] == '{' {
        comma_parts(s, i + 1, depth + 1, start, acc)
    } else if s[i] == '}' {
        comma_parts(s, i + 1, depth - 1, start, acc)
    } else if s[i] == ',' && depth == 0 {
        comma_parts(s, i + 1, depth, i + 1, acc.push(s.subrange(start, i)))
    } else {
        comma_parts(s, i + 1, depth, start, acc)
    }
}

/// The parts of `s` between its `..`s, from `i` on; the part under way began at
/// `start`.
pub open spec fn dot_parts(s: Seq<char>, i: int, start: int, acc: Seq<Seq<char>>) -> Seq<Seq<char>>
    decreases s.len() - i,
{
    if i < 0 || i + 1 >= s.len() {
        acc.push(s.subrange(start, s.len() as int))
    } else if s[i] == '.' && s[i + 1] == '.' {
        dot_parts(s, i + 2, i + 2, acc.push(s.subrange(start, i)))
    } else {
        dot_parts(s, i + 1, start, acc)
    }
}

/// The 64-bit integer that `s` writes.
pub open spec fn bound(s: Seq<char>) -> Option<int> {
    match integer_of(s, true) {
        Some(n) if i64::MIN <= n <= i64::MAX => Some(n),
        _ => None,
    }
}

/// The numbers from `v` up to `end`.
pub open spec fn count_up(v: int, end: int, step: int) -> Seq<Seq<char>>
    decreases
            (if v <= end {
                end - v + 1
            } else {
                0
            }),
{
    if v > end || step <= 0 {
        Seq::empty()
    } else {
        seq![decimal(v)] + count_up(v + step, end, step)
    }
}

/// The numbers from `v` down to `end`.
pub open spec fn count_down(v: int, end: int, step: int) -> Seq<Seq<char>>
    decreases
            (if v >= end {
                v - end + 1
            } else {
                0
            }),
{
    if v < end || step <= 0 {
        Seq::empty()
    } else {
        seq![decimal(v)] + count_down(v - step, end, step)
    }
}

/// The characters from code `v` to code `end`, in either direction.
pub open spec fn letters(v: int, end: int) -> Seq<Seq<char>>
    decreases
            (if v <= end {
                end - v
            } else {
                v - end
            }),
{
    if v == end {
        seq![seq![v as char]]
    } else if v < end {
        seq![seq![v as char]] + letters(v + 1, end)
    } else {
        seq![seq![v as char]] + letters(v - 1, end)
    }
}

/// The step that a number writes: its size, or 1 for zero.
pub open spec fn step_of(n: int) -> int {
    if n == 0 {
        1
    } else if n < 0 {
        -n
    } else {
        n
    }
}

/// The sequence that a range writes.
pub open spec fn range(body: Seq<char>) -> Option<Seq<Seq<char>>> {
    let parts = dot_parts(body, 0, 0, Seq::empty());
    if parts.len() < 2 || parts.len() > 3 {
        None
    } else if bound(parts[0]) is Some && bound(parts[1]) is Some {
        let start = bound(parts[0])->Some_0;
        let end = bound(parts[1])->Some_0;
        let step = if parts.len() == 2 {
            Some(1)
        } else {
            bound(parts[2])
        };
        match step {
            None => None,
            Some(n) => Some(
                if start <= end {
                    count_up(start, end, step_of(n))
                } else {
                    count_down(start, end, step_of(n))
                },
            ),
        }
    } else if parts.len() == 2 && parts[0].len() == 1 && parts[1].len() == 1 && is_letter(
        parts[0][0],
    ) && is_letter(parts[1][0]) {
        Some(letters(parts[0][0] as int, parts[1][0] as int))
    } else {
        None
    }
}

/// What a brace group stands for: a range, or two or more parts between commas.
pub open spec fn alternatives(body: Seq<char>) -> Option<Seq<Seq<char>>> {
    match range(body) {
        Some(r) => Some(r),
        None => {
            let parts = comma_parts(body, 0, 0, 0, Seq::empty());
            if parts.len() >= 2 {
                Some(parts)
            } else {
                None
            }
        },
    }
}

/// A brace group in a text: what stands before it, what it stands for, and what
/// stands after it.
pub ghost struct GroupV {
    pub prefix: Seq<char>,
    pub alternatives: Seq<Seq<char>>,
    pub suffix: Seq<char>,
}

/// The first brace group of `s` that opens at or after `i`. A pair of braces
/// without alternatives is no group, and is passed over as a whole.
pub open spec fn group_from(s: Seq<char>, i: int) -> Option<GroupV>
    decreases s.len() - i,
    via group_from_decreases
{
    match open_from(s, i) {
        None => None,
        Some(open) => match close_from(s, open, 0) {
            None => None,
            Some(close) => match alternatives(s.subrange(open + 1, close)) {
                None => if i < 0 {
                    None
                } else {
                    group_from(s, close + 1)
                },
                Some(alternatives) => Some(
                    GroupV {
                        prefix: s.subrange(0, open),
                        alternatives,
                        suffix: s.subrange(close + 1, s.len() as int),
                    },
                ),
            },
        },
    }
}

#[via_fn]
proof fn group_from_decreases(s: Seq<char>, i: int) {
    if 0 <= i {
        lemma_open_from(s, i);
        if let Some(open) = open_from(s, i) {
            lemma_close_from(s, open, 0);
        }
    }
}

/// The first brace group of `s`.
pub open spec fn group(s: Seq<char>) -> Option<GroupV> {
    group_from(s, 0)
}

/// The brace group in segment `i` of a word.
pub open spec fn group_at(w: WordV, i: int) -> Option<GroupV> {
    if 0 <= i < w.len() {
        match w[i] {
            WordSegmentV::Literal(t) => group(t),
            _ => None,
        }
    } else {
        None
    }
}

/// A literal segment, or nothing for an empty text.
pub open spec fn literal(t: Seq<char>) -> WordV {
    if t.len() == 0 {
        Seq::empty()
    } else {
        seq![WordSegmentV::Literal(t)]
    }
}

/// `w` with segment `i` replaced by one alternative of its brace group.
pub open spec fn variant(w: WordV, i: int, g: GroupV, k: int) -> WordV {
    w.subrange(0, i) + literal(g.prefix) + literal(g.alternatives[k]) + literal(g.suffix)
        + w.subrange(i + 1, w.len() as int)
}

/// The number of `{`s in a text.
pub open spec fn opens(s: Seq<char>) -> nat
    decreases s.len(),
{
    if s.len() == 0 {
        0
    } else {
        opens(s.drop_last()) + (if s.last() == '{' {
            1nat
        } else {
            0nat
        })
    }
}

/// The number of `{`s in the literal segments of a word.
pub open spec fn word_opens(w: WordV) -> nat
    decreases w.len(),
{
    if w.len() == 0 {
        0
    } else {
        word_opens(w.drop_last()) + (match w.last() {
            WordSegmentV::Literal(t) => opens(t),
            _ => 0nat,
        })
    }
}

/// The words that `w` stands for, where segments before `i` hold no group.
pub open spec fn words_from(w: WordV, i: int) -> Seq<WordV>
    decreases word_opens(w), 1nat, w.len() - i,
    via words_from_decreases
{
    if i < 0 || i >= w.len() {
        seq![w]
    } else {
        match group_at(w, i) {
            Some(g) => words_of_variants(w, i, g, 0),
            None => words_from(w, i + 1),
        }
    }
}

/// The words that alternatives `k` on of the group in segment `i` give, in
/// order.
pub open spec fn words_of_variants(w: WordV, i: int, g: GroupV, k: int) -> Seq<WordV>
    decreases word_opens(w), 0nat, g.alternatives.len() - k,
    via words_of_variants_decreases
{
    if k < 0 || k >= g.alternatives.len() || group_at(w, i) != Some(g) {
        Seq::empty()
    } else {
        words_from(variant(w, i, g, k), 0) + words_of_variants(w, i, g, k + 1)
    }
}

#[via_fn]
proof fn words_from_decreases(w: WordV, i: int) {
}

#[via_fn]
proof fn words_of_variants_decreases(w: WordV, i: int, g: GroupV, k: int) {
    if 0 <= k < g.alternatives.len() && group_at(w, i) == Some(g) {
        lemma_variant_has_fewer_opens(w, i, g, k);
    }
}

// ---- every variant has fewer braces -----------------------------------------------------

proof fn lemma_opens_concat(a: Seq<char>, b: Seq<char>)
    ensures
        opens(a + b) == opens(a) + opens(b),
    decreases b.len(),
{
    if b.len() == 0 {
        assert(a + b =~= a);
    } else {
        assert((a + b).drop_last() =~= a + b.drop_last());
        lemma_opens_concat(a, b.drop_last());
    }
}

proof fn lemma_opens_subrange(s: Seq<char>, i: int, j: int)
    requires
        0 <= i <= j <= s.len(),
    ensures
        opens(s.subrange(i, j)) <= opens(s),
{
    let n = s.len() as int;
    assert(s =~= s.subrange(0, i) + s.subrange(i, j) + s.subrange(j, n));
    lemma_opens_concat(s.subrange(0, i) + s.subrange(i, j), s.subrange(j, n));
    lemma_opens_concat(s.subrange(0, i), s.subrange(i, j));
}

proof fn lemma_word_opens_concat(a: WordV, b: WordV)
    ensures
        word_opens(a + b) == word_opens(a) + word_opens(b),
    decreases b.len(),
{
    if b.len() == 0 {
        assert(a + b =~= a);
    } else {
        assert((a + b).drop_last() =~= a + b.drop_last());
        lemma_word_opens_concat(a, b.drop_last());
    }
}

proof fn lemma_literal_opens(t: Seq<char>)
    ensures
        word_opens(literal(t)) == opens(t),
{
    reveal_with_fuel(word_opens, 2);
    if t.len() > 0 {
        assert(literal(t).drop_last() =~= Seq::empty());
    }
}

proof fn lemma_digits_have_no_opens(n: nat)
    ensures
        opens(digits(n)) == 0,
    decreases n,
{
    reveal_with_fuel(opens, 2);
    if n < 10 {
        assert(digits(n).drop_last() =~= Seq::empty());
    } else {
        lemma_digits_have_no_opens(n / 10);
        assert(digits(n).drop_last() =~= digits(n / 10));
    }
}

proof fn lemma_decimal_has_no_opens(n: int)
    ensures
        opens(decimal(n)) == 0,
{
    if n < 0 {
        lemma_digits_have_no_opens((-n) as nat);
        lemma_opens_concat(seq!['-'], digits((-n) as nat));
        reveal_with_fuel(opens, 2);
        assert(seq!['-'].drop_last() =~= Seq::empty());
    } else {
        lemma_digits_have_no_opens(n as nat);
    }
}

proof fn lemma_count_up_opens(v: int, end: int, step: int, k: int)
    requires
        0 <= k < count_up(v, end, step).len(),
    ensures
        opens(count_up(v, end, step)[k]) == 0,
    decreases
            (if v <= end {
                end - v + 1
            } else {
                0
            }),
{
    lemma_decimal_has_no_opens(v);
    if k > 0 {
        lemma_count_up_opens(v + step, end, step, k - 1);
    }
}

proof fn lemma_count_down_opens(v: int, end: int, step: int, k: int)
    requires
        0 <= k < count_down(v, end, step).len(),
    ensures
        opens(count_down(v, end, step)[k]) == 0,
    decreases
            (if v >= end {
                v - end + 1
            } else {
                0
            }),
{
    lemma_decimal_has_no_opens(v);
    if k > 0 {
        lemma_count_down_opens(v - step, end, step, k - 1);
    }
}

proof fn lemma_letters_opens(v: int, end: int, k: int)
    requires
        0 <= v < '{' as int,
        0 <= end < '{' as int,
        0 <= k < letters(v, end).len(),
    ensures
        opens(letters(v, end)[k]) == 0,
    decreases
            (if v <= end {
                end - v
            } else {
                v - end
            }),
{
    if k == 0 {
        reveal_with_fuel(opens, 2);
        assert(letters(v, end)[0] =~= seq![v as char]);
        assert(seq![v as char].drop_last() =~= Seq::empty());
    } else if v < end {
        lemma_letters_opens(v + 1, end, k - 1);
    } else {
        lemma_letters_opens(v - 1, end, k - 1);
    }
}

proof fn lemma_comma_parts_opens(
    s: Seq<char>,
    i: int,
    depth: int,
    start: int,
    acc: Seq<Seq<char>>,
    k: int,
)
    requires
        0 <= start <= i <= s.len(),
        forall|j: int| 0 <= j < acc.len() ==> opens(#[trigger] acc[j]) <= opens(s),
        0 <= k < comma_parts(s, i, depth, start, acc).len(),
    ensures
        opens(comma_parts(s, i, depth, start, acc)[k]) <= opens(s),
    decreases s.len() - i,
{
    if i >= s.len() {
        lemma_opens_subrange(s, start, s.len() as int);
        if k < acc.len() {
            assert(opens(acc[k]) <= opens(s));
        }
    } else if s[i] == '{' {
        lemma_comma_parts_opens(s, i + 1, depth + 1, start, acc, k);
    } else if s[i] == '}' {
        lemma_comma_parts_opens(s, i + 1, depth - 1, start, acc, k);
    } else if s[i] == ',' && depth == 0 {
        lemma_opens_subrange(s, start, i);
        lemma_comma_parts_opens(s, i + 1, depth, i + 1, acc.push(s.subrange(start, i)), k);
    } else {
        lemma_comma_parts_opens(s, i + 1, depth, start, acc, k);
    }
}

proof fn lemma_alternative_opens(body: Seq<char>, k: int)
    requires
        alternatives(body) is Some,
        0 <= k < alternatives(body)->Some_0.len(),
    ensures
        opens(alternatives(body)->Some_0[k]) <= opens(body),
{
    if range(body) is Some {
        let parts = dot_parts(body, 0, 0, Seq::empty());
        if bound(parts[0]) is Some && bound(parts[1]) is Some {
            let start = bound(parts[0])->Some_0;
            let end = bound(parts[1])->Some_0;
            let step = if parts.len() == 2 {
                1
            } else {
                bound(parts[2])->Some_0
            };
            if start <= end {
                lemma_count_up_opens(start, end, step_of(step), k);
            } else {
                lemma_count_down_opens(start, end, step_of(step), k);
            }
        } else {
            lemma_letters_opens(parts[0][0] as int, parts[1][0] as int, k);
        }
    } else {
        lemma_comma_parts_opens(body, 0, 0, 0, Seq::empty(), k);
    }
}

proof fn lemma_open_from(s: Seq<char>, i: int)
    requires
        0 <= i,
    ensures
        open_from(s, i) matches Some(j) ==> i <= j < s.len() && s[j] == '{',
    decreases s.len() - i,
{
    if i < s.len() && s[i] != '{' {
        lemma_open_from(s, i + 1);
    }
}

proof fn lemma_close_from(s: Seq<char>, i: int, depth: nat)
    requires
        0 <= i,
    ensures
        close_from(s, i, depth) matches Some(j) ==> i <= j < s.len() && s[j] == '}',
    decreases s.len() - i,
{
    if i < s.len() {
        if s[i] == '{' {
            lemma_close_from(s, i + 1, depth + 1);
        } else if s[i] == '}' && depth > 1 {
            lemma_close_from(s, i + 1, (depth - 1) as nat);
        } else if s[i] != '}' {
            lemma_close_from(s, i + 1, depth);
        }
    }
}

/// Where a brace group opens and closes.
proof fn lemma_group_from(s: Seq<char>, i: int, g: GroupV) -> (r: (int, int))
    requires
        0 <= i,
        group_from(s, i) == Some(g),
    ensures
        i <= r.0 < r.1 < s.len(),
        s[r.0] == '{',
        s[r.1] == '}',
        alternatives(s.subrange(r.0 + 1, r.1)) == Some(g.alternatives),
        g.prefix == s.subrange(0, r.0),
        g.suffix == s.subrange(r.1 + 1, s.len() as int),
    decreases s.len() - i,
{
    lemma_open_from(s, i);
    let open = open_from(s, i)->Some_0;
    lemma_close_from(s, open, 0);
    let close = close_from(s, open, 0)->Some_0;
    if alternatives(s.subrange(open + 1, close)) is Some {
        (open, close)
    } else {
        lemma_group_from(s, close + 1, g)
    }
}

proof fn lemma_variant_has_fewer_opens(w: WordV, i: int, g: GroupV, k: int)
    requires
        group_at(w, i) == Some(g),
        0 <= k < g.alternatives.len(),
    ensures
        word_opens(variant(w, i, g, k)) < word_opens(w),
{
    let n = w.len() as int;
    let t = match w[i] {
        WordSegmentV::Literal(t) => t,
        _ => arbitrary(),
    };
    let (open, close) = lemma_group_from(t, 0, g);
    let body = t.subrange(open + 1, close);
    lemma_alternative_opens(body, k);
    assert(t =~= g.prefix + seq!['{'] + body + seq!['}'] + g.suffix);
    lemma_opens_concat(g.prefix + seq!['{'] + body + seq!['}'], g.suffix);
    lemma_opens_concat(g.prefix + seq!['{'] + body, seq!['}']);
    lemma_opens_concat(g.prefix + seq!['{'], body);
    lemma_opens_concat(g.prefix, seq!['{']);
    reveal_with_fuel(opens, 2);
    assert(opens(seq!['{']) == 1);
    let alt = g.alternatives[k];
    let a = w.subrange(0, i);
    let b = w.subrange(i + 1, n);
    assert(w =~= a + seq![w[i]] + b);
    lemma_word_opens_concat(a + seq![w[i]], b);
    lemma_word_opens_concat(a, seq![w[i]]);
    assert(t.len() > 0);
    assert(seq![w[i]] =~= literal(t));
    lemma_literal_opens(t);
    lemma_literal_opens(g.prefix);
    lemma_literal_opens(alt);
    lemma_literal_opens(g.suffix);
    lemma_word_opens_concat(a + literal(g.prefix) + literal(alt) + literal(g.suffix), b);
    lemma_word_opens_concat(a + literal(g.prefix) + literal(alt), literal(g.suffix));
    lemma_word_opens_concat(a + literal(g.prefix), literal(alt));
    lemma_word_opens_concat(a, literal(g.prefix));
}

// ---- expanding --------------------------------------------------------------------------

/// Splits the characters of `v` at the commas outside braces.
fn split_top_level_commas(v: &Vec<char>) -> (r: Vec<String>)
    ensures
        texts(r@) == comma_parts(v@, 0, 0, 0, Seq::empty()),
{
    let mut parts: Vec<String> = Vec::new();
    let mut opened: usize = 0;
    let mut closed: usize = 0;
    let mut start: usize = 0;
    let mut i: usize = 0;
    while i < v.len()
        invariant
            start <= i <= v@.len(),
            opened + closed <= i,
            comma_parts(v@, 0, 0, 0, Seq::empty()) == comma_parts(
                v@,
                i as int,
                opened - closed,
                start as int,
                texts(parts@),
            ),
        decreases v@.len() - i,
    {
        let c = v[i];
        if c == '{' {
            opened += 1;
        } else if c == '}' {
            closed += 1;
        } else if c == ',' && opened == closed {
            parts.push(text_between(v, start, i));
            start = i + 1;
        }
        i += 1;
    }
    parts.push(text_between(v, start, v.len()));
    parts
}

/// Splits the characters of `v` at each `..`.
fn split_dots(v: &Vec<char>) -> (r: Vec<String>)
    ensures
        texts(r@) == dot_parts(v@, 0, 0, Seq::empty()),
{
    let mut parts: Vec<String> = Vec::new();
    let mut start: usize = 0;
    let mut i: usize = 0;
    while i < v.len() && v.len() - i > 1
        invariant
            start <= i <= v@.len(),
            dot_parts(v@, 0, 0, Seq::empty()) == dot_parts(
                v@,
                i as int,
                start as int,
                texts(parts@),
            ),
        decreases v@.len() - i,
    {
        if v[i] == '.' && v[i + 1] == '.' {
            parts.push(text_between(v, start, i));
            i += 2;
            start = i;
        } else {
            i += 1;
        }
    }
    parts.push(text_between(v, start, v.len()));
    parts
}

/// The numbers from `start` to `end`.
fn count(start: i64, end: i64, step: i128) -> (r: Vec<String>)
    requires
        0 < step <= 0x8000_0000_0000_0000,
    ensures
        start <= end ==> texts(r@) == count_up(start as int, end as int, step as int),
        start > end ==> texts(r@) == count_down(start as int, end as int, step as int),
{
    let mut r: Vec<String> = Vec::new();
    let mut v: i128 = start as i128;
    if start <= end {
        while v <= end as i128
            invariant
                0 < step <= 0x8000_0000_0000_0000,
                start <= v <= end + step,
                count_up(start as int, end as int, step as int) == texts(r@) + count_up(
                    v as int,
                    end as int,
                    step as int,
                ),
            decreases
            (if v <= end {
                end - v + 1
            } else {
                0
            }),
        {
            let ghost before = texts(r@);
            r.push(i64_to_text(v as i64));
            assert(before + (seq![decimal(v as int)] + count_up(v + step, end as int, step as int))
                =~= before.push(decimal(v as int)) + count_up(v + step, end as int, step as int));
            v += step;
        }
        assert(texts(r@) + Seq::<Seq<char>>::empty() =~= texts(r@));
    } else {
        while v >= end as i128
            invariant
                0 < step <= 0x8000_0000_0000_0000,
                end - step <= v <= start,
                count_down(start as int, end as int, step as int) == texts(r@) + count_down(
                    v as int,
                    end as int,
                    step as int,
                ),
            decreases
            (if v >= end {
                v - end + 1
            } else {
                0
            }),
        {
            let ghost before = texts(r@);
            r.push(i64_to_text(v as i64));
            assert(before + (seq![decimal(v as int)] + count_down(
                v - step,
                end as int,
                step as int,
            )) =~= before.push(decimal(v as int)) + count_down(v - step, end as int, step as int));
            v -= step;
        }
        assert(texts(r@) + Seq::<Seq<char>>::empty() =~= texts(r@));
    }
    r
}

/// The characters from `a` to `b`.
fn letter_range(a: char, b: char) -> (r: Vec<String>)
    requires
        is_letter(a),
        is_letter(b),
    ensures
        texts(r@) == letters(a as int, b as int),
{
    let mut r: Vec<String> = Vec::new();
    let mut v: u8 = a as u8;
    let end: u8 = b as u8;
    let ghost whole = letters(a as int, b as int);
    while v != end
        invariant
            v < 128,
            end < 128,
            whole == texts(r@) + letters(v as int, end as int),
        decreases
                (if v <= end {
                    end - v
                } else {
                    v - end
                }),
    {
        let ghost before = texts(r@);
        let ghost one = seq![v as char];
        let mut t = String::new();
        t.push(v as char);
        assert(t@ =~= one);
        r.push(t);
        let next: u8 = if v < end {
            v + 1
        } else {
            v - 1
        };
        assert(before + (seq![one] + letters(next as int, end as int)) =~= before.push(one)
            + letters(next as int, end as int));
        v = next;
    }
    let ghost before = texts(r@);
    let ghost one = seq![v as char];
    let mut t = String::new();
    t.push(v as char);
    assert(t@ =~= one);
    r.push(t);
    assert(before + seq![one] =~= before.push(one));
    r
}

/// The 64-bit integer that `s` writes.
fn parse_bound(s: &String) -> (r: Option<i64>)
    ensures
        match r {
            Some(n) => bound(s@) == Some(n as int),
            None => bound(s@) is None,
        },
{
    parse_i64(s.as_str())
}

/// Reads a range `start..end` or `start..end..step`.
fn expand_range(body: &Vec<char>) -> (r: Option<Vec<String>>)
    ensures
        match r {
            Some(v) => range(body@) == Some(texts(v@)),
            None => range(body@) is None,
        },
{
    let parts = split_dots(body);
    let ghost p = texts(parts@);
    if parts.len() < 2 || parts.len() > 3 {
        return None;
    }
    assert(p[0] == parts@[0]@ && p[1] == parts@[1]@);
    if let (Some(start), Some(end)) = (parse_bound(&parts[0]), parse_bound(&parts[1])) {
        let step: i64 = if parts.len() == 2 {
            1
        } else {
            assert(p[2] == parts@[2]@);
            match parse_bound(&parts[2]) {
                Some(n) => n,
                None => {
                    return None;
                },
            }
        };
        let step: i128 = if step == 0 {
            1
        } else if step < 0 {
            -(step as i128)
        } else {
            step as i128
        };
        return Some(count(start, end, step));
    }
    if parts.len() == 2 {
        let a = chars_of(parts[0].as_str());
        let b = chars_of(parts[1].as_str());
        if a.len() == 1 && b.len() == 1 && is_letter(a[0]) && is_letter(b[0]) {
            return Some(letter_range(a[0], b[0]));
        }
    }
    None
}

/// Finds the first brace group of `text`: what stands before it, its
/// alternatives, and what stands after it.
pub fn find_brace_group(text: &str) -> (r: Option<(String, Vec<String>, String)>)
    ensures
        match r {
            Some((prefix, alternatives, suffix)) => group(text@) == Some(
                GroupV { prefix: prefix@, alternatives: texts(alternatives@), suffix: suffix@ },
            ),
            None => group(text@) is None,
        },
{
    let chars = chars_of(text);
    let len: usize = chars.len();
    let mut open: usize = 0;
    while open < len
        invariant
            chars@ == text@,
            len == chars@.len(),
            open <= len,
            group(chars@) == group_from(chars@, open as int),
        decreases len - open,
    {
        if chars[open] != '{' {
            open += 1;
            continue;
        }
        let close = match matching_brace(&chars, open) {
            None => {
                return None;
            },
            Some(close) => close,
        };
        proof {
            lemma_close_from(chars@, open as int, 0);
        }
        let body_text = text_between(&chars, open + 1, close);
        let body = chars_of(body_text.as_str());
        let range = expand_range(&body);
        if let Some(alternatives) = range {
            let prefix = text_between(&chars, 0, open);
            return Some((prefix, alternatives, text_between(&chars, close + 1, len)));
        }
        let parts = split_top_level_commas(&body);
        if parts.len() >= 2 {
            let prefix = text_between(&chars, 0, open);
            return Some((prefix, parts, text_between(&chars, close + 1, len)));
        }
        open = close + 1;
    }
    None
}

/// The index of the `}` that closes the `{` at `open`.
fn matching_brace(chars: &Vec<char>, open: usize) -> (r: Option<usize>)
    requires
        open < chars@.len(),
        chars@[open as int] == '{',
    ensures
        match close_from(chars@, open as int, 0) {
            Some(close) => r == Some(close as usize) && open < close < chars@.len(),
            None => r is None,
        },
{
    let len: usize = chars.len();
    let mut depth: usize = 0;
    let mut close: usize = open;
    while close < len && !(chars[close] == '}' && depth <= 1)
        invariant
            len == chars@.len(),
            open <= close <= len,
            chars@[open as int] == '{',
            depth <= close - open,
            close_from(chars@, open as int, 0) == close_from(chars@, close as int, depth as nat),
        decreases len - close,
    {
        if chars[close] == '{' {
            depth += 1;
        } else if chars[close] == '}' {
            depth -= 1;
        }
        close += 1;
    }
    if close == len {
        None
    } else {
        Some(close)
    }
}

/// Appends a literal segment, unless it is empty.
fn push_literal(segments: &mut Vec<WordSegment>, text: &String)
    ensures
        segments_view(final(segments)@) == segments_view(old(segments)@) + literal(text@),
{
    let ghost before = segments_view(segments@);
    if !text.as_str().is_empty() {
        segments.push(WordSegment::Literal(text.clone()));
        assert(before.push(WordSegmentV::Literal(text@)) =~= before + literal(text@));
    } else {
        assert(text@.len() == 0);
        assert(before + literal(text@) =~= before);
    }
}

/// Appends copies of segments `from` to `to` of `source`.
fn push_copies(segments: &mut Vec<WordSegment>, source: &Vec<WordSegment>, from: usize, to: usize)
    requires
        from <= to <= source@.len(),
    ensures
        segments_view(final(segments)@) == segments_view(old(segments)@) + segments_view(
            source@,
        ).subrange(from as int, to as int),
{
    let ghost before = segments_view(segments@);
    let ghost all = segments_view(source@);
    let mut i: usize = from;
    assert(before + all.subrange(from as int, from as int) =~= before);
    while i < to
        invariant
            from <= i <= to <= source@.len(),
            all == segments_view(source@),
            segments_view(segments@) == before + all.subrange(from as int, i as int),
        decreases to - i,
    {
        segments.push(source[i].clone());
        i += 1;
        assert(segments_view(segments@) =~= before + all.subrange(from as int, i as int));
    }
}

/// Expands the brace groups of a word, from left to right.
pub fn brace_expand(word: &Word) -> (r: Vec<Word>)
    ensures
        words_view(r@) == words_from(word@, 0),
    decreases word_opens(word@), 1nat,
{
    let mut i: usize = 0;
    while i < word.segments.len()
        invariant
            i <= word.segments@.len(),
            words_from(word@, 0) == words_from(word@, i as int),
        decreases word.segments@.len() - i,
    {
        assert(word@[i as int] == segment_view(word.segments@[i as int]));
        if let WordSegment::Literal(text) = &word.segments[i] {
            if let Some((prefix, alternatives, suffix)) = find_brace_group(text.as_str()) {
                return expand_group(word, i, &prefix, &alternatives, &suffix);
            }
        }
        i += 1;
    }
    let mut r: Vec<Word> = Vec::new();
    r.push(word.clone());
    assert(words_view(r@) =~= seq![word@]);
    r
}

/// Expands a word with a brace group in segment `at`.
fn expand_group(
    word: &Word,
    at: usize,
    prefix: &String,
    alternatives: &Vec<String>,
    suffix: &String,
) -> (r: Vec<Word>)
    requires
        group_at(word@, at as int) == Some(
            GroupV { prefix: prefix@, alternatives: texts(alternatives@), suffix: suffix@ },
        ),
    ensures
        words_view(r@) == words_from(word@, at as int),
    decreases word_opens(word@), 0nat,
{
    let ghost g = GroupV {
        prefix: prefix@,
        alternatives: texts(alternatives@),
        suffix: suffix@,
    };
    let ghost whole = words_of_variants(word@, at as int, g, 0);
    let mut r: Vec<Word> = Vec::new();
    let mut k: usize = 0;
    assert(words_view(r@) + whole =~= whole);
    while k < alternatives.len()
        invariant
            k <= alternatives@.len(),
            g == (GroupV {
                prefix: prefix@,
                alternatives: texts(alternatives@),
                suffix: suffix@,
            }),
            group_at(word@, at as int) == Some(g),
            whole == words_of_variants(word@, at as int, g, 0),
            whole == words_view(r@) + words_of_variants(word@, at as int, g, k as int),
        decreases alternatives@.len() - k,
    {
        proof {
            lemma_variant_has_fewer_opens(word@, at as int, g, k as int);
        }
        let ghost before = words_view(r@);
        let count: usize = word.segments.len();
        assert(at < count);
        let mut segments: Vec<WordSegment> = Vec::new();
        push_copies(&mut segments, &word.segments, 0, at);
        push_literal(&mut segments, prefix);
        push_literal(&mut segments, &alternatives[k]);
        push_literal(&mut segments, suffix);
        push_copies(&mut segments, &word.segments, at + 1, count);
        assert(g.alternatives[k as int] == alternatives@[k as int]@);
        assert(segments_view(segments@) =~= variant(word@, at as int, g, k as int));
        let mut expanded = brace_expand(&Word::new(segments));
        r.append(&mut expanded);
        k += 1;
        assert(words_view(r@) =~= before + words_from(variant(word@, at as int, g, k - 1), 0));
        assert(words_view(r@) + words_of_variants(word@, at as int, g, k as int) =~= before + (
        words_from(variant(word@, at as int, g, k - 1), 0) + words_of_variants(
            word@,
            at as int,
            g,
            k as int,
        )));
    }
    assert(words_view(r@) + Seq::<WordV>::empty() =~= words_view(r@));
    r
}

// ---- laws -------------------------------------------------------------------------------

/// No segment of `w` holds a brace group.
pub open spec fn without_group(w: WordV) -> bool {
    forall|i: int| #[trigger] group_at(w, i) is None
}

proof fn lemma_words_from_without_group(w: WordV, i: int)
    requires
        0 <= i,
        without_group(w),
    ensures
        words_from(w, i) == seq![w],
    decreases w.len() - i,
{
    if i < w.len() {
        assert(group_at(w, i) is None);
        lemma_words_from_without_group(w, i + 1);
    }
}

/// A word without a brace group stands for itself.
pub proof fn law_words_without_group_are_kept(w: WordV)
    requires
        without_group(w),
    ensures
        words_from(w, 0) == seq![w],
{
    lemma_words_from_without_group(w, 0);
}

proof fn lemma_no_group_is_left(w: WordV, i: int, k: int)
    requires
        0 <= i,
        forall|j: int| j < i ==> #[trigger] group_at(w, j) is None,
        0 <= k < words_from(w, i).len(),
    ensures
        without_group(words_from(w, i)[k]),
    decreases word_opens(w), 1nat, w.len() - i,
{
    if i < w.len() {
        match group_at(w, i) {
            Some(g) => {
                lemma_no_group_is_left_in_variants(w, i, g, 0, k);
            },
            None => {
                lemma_no_group_is_left(w, i + 1, k);
            },
        }
    }
}

proof fn lemma_no_group_is_left_in_variants(w: WordV, i: int, g: GroupV, n: int, k: int)
    requires
        0 <= n,
        group_at(w, i) == Some(g),
        0 <= k < words_of_variants(w, i, g, n).len(),
    ensures
        without_group(words_of_variants(w, i, g, n)[k]),
    decreases word_opens(w), 0nat, g.alternatives.len() - n,
{
    let v = variant(w, i, g, n);
    lemma_variant_has_fewer_opens(w, i, g, n);
    if k < words_from(v, 0).len() {
        lemma_no_group_is_left(v, 0, k);
    } else {
        lemma_no_group_is_left_in_variants(w, i, g, n + 1, k - words_from(v, 0).len());
    }
}

/// Expansion is complete: no word that comes out holds a brace group.
pub proof fn law_no_group_is_left(w: WordV, k: int)
    requires
        0 <= k < words_from(w, 0).len(),
    ensures
        without_group(words_from(w, 0)[k]),
{
    lemma_no_group_is_left(w, 0, k);
}

} // verus!
