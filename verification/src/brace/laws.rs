//! What brace groups stand for.

use vstd::prelude::*;

use super::{
    alternatives, bound, close_from, comma_parts, count_down, count_up, dot_parts, group, group_at,
    letters, literal, open_from, range, step_of, variant, words_from, words_of_variants, GroupV,
};
use crate::numbers::{decimal, digits, integer_of, law_decimal_reads_back, law_digits_read_back};
use crate::text::{is_digit, is_letter, joined};
use crate::token::{WordSegmentV, WordV};

verus! {

/// A text without braces, commas and dots.
pub open spec fn is_simple(t: Seq<char>) -> bool {
    forall|k: int|
        0 <= k < t.len() ==> (#[trigger] t[k]) != '{' && t[k] != '}' && t[k] != ',' && t[k] != '.'
}

/// A text without braces.
pub open spec fn is_braceless(t: Seq<char>) -> bool {
    forall|k: int| 0 <= k < t.len() ==> (#[trigger] t[k]) != '{' && t[k] != '}'
}

/// All of them are simple.
pub open spec fn all_simple(parts: Seq<Seq<char>>) -> bool {
    forall|k: int| 0 <= k < parts.len() ==> is_simple(#[trigger] parts[k])
}

// ---- commas -------------------------------------------------------------------------------------

proof fn lemma_comma_run(s: Seq<char>, i: int, j: int, start: int, acc: Seq<Seq<char>>)
    requires
        0 <= i <= j <= s.len(),
        forall|k: int| i <= k < j ==> (#[trigger] s[k]) != '{' && s[k] != '}' && s[k] != ',',
    ensures
        comma_parts(s, i, 0, start, acc) == comma_parts(s, j, 0, start, acc),
    decreases j - i,
{
    if i < j {
        assert(s[i] != '{');
        lemma_comma_run(s, i + 1, j, start, acc);
    }
}

proof fn lemma_joined_front(parts: Seq<Seq<char>>, sep: Seq<char>)
    requires
        parts.len() > 1,
    ensures
        joined(parts, sep) == parts[0] + sep + joined(parts.skip(1), sep),
    decreases parts.len(),
{
    let rest = parts.skip(1);
    if parts.len() == 2 {
        assert(parts.drop_last().len() == 1);
        assert(joined(parts.drop_last(), sep) == parts[0]);
        assert(joined(rest, sep) == parts[1]);
    } else {
        let front = parts.drop_last();
        lemma_joined_front(front, sep);
        assert(front.skip(1) =~= rest.drop_last());
        assert(joined(rest, sep) == joined(rest.drop_last(), sep) + sep + rest.last());
        assert(joined(parts, sep) =~= parts[0] + sep + joined(rest, sep));
    }
}

/// The parts from `i` on, where all from there to the end of `s` are joined by commas.
proof fn lemma_comma_parts(s: Seq<char>, i: int, parts: Seq<Seq<char>>, acc: Seq<Seq<char>>)
    requires
        parts.len() > 0,
        all_simple(parts),
        0 <= i <= s.len(),
        s.subrange(i, s.len() as int) == joined(parts, seq![',']),
    ensures
        comma_parts(s, i, 0, i, acc) == acc + parts,
    decreases parts.len(),
{
    let tail = s.subrange(i, s.len() as int);
    let first = parts[0];
    assert(is_simple(first));
    let n = s.len() as int;
    if parts.len() == 1 {
        assert(tail == first);
        assert forall|k: int| i <= k < n implies (#[trigger] s[k]) != '{' && s[k] != '}' && s[k]
            != ',' by {
            assert(tail[k - i] == s[k]);
            assert(first[k - i] == s[k]);
        }
        lemma_comma_run(s, i, n, i, acc);
        assert(acc.push(tail) =~= acc + parts);
    } else {
        let rest = parts.skip(1);
        let j = i + first.len();
        lemma_joined_front(parts, seq![',']);
        let after = joined(rest, seq![',']);
        assert(tail =~= first + seq![','] + after);
        assert forall|k: int| i <= k < j implies (#[trigger] s[k]) != '{' && s[k] != '}' && s[k]
            != ',' by {
            assert(tail[k - i] == s[k]);
            assert(tail[k - i] == first[k - i]);
        }
        assert(s[j] == tail[first.len() as int]);
        assert(s.subrange(i, j) =~= first) by {
            assert forall|k: int| 0 <= k < first.len() implies s[i + k] == first[k] by {
                assert(tail[k] == s[i + k]);
            }
        }
        assert(s.subrange(j + 1, n) =~= after) by {
            assert forall|k: int| 0 <= k < after.len() implies s[j + 1 + k] == after[k] by {
                assert(tail[first.len() + 1 + k] == s[j + 1 + k]);
            }
        }
        lemma_comma_run(s, i, j, i, acc);
        assert forall|k: int| 0 <= k < rest.len() implies is_simple(#[trigger] rest[k]) by {
            assert(rest[k] == parts[k + 1]);
        }
        lemma_comma_parts(s, j + 1, rest, acc.push(first));
        assert(acc.push(first) + rest =~= acc + parts);
    }
}

proof fn lemma_no_dots(s: Seq<char>, i: int, start: int, acc: Seq<Seq<char>>)
    requires
        0 <= i,
        forall|k: int| i <= k < s.len() ==> #[trigger] s[k] != '.',
    ensures
        dot_parts(s, i, start, acc) == acc.push(s.subrange(start, s.len() as int)),
    decreases s.len() - i,
{
    if i + 1 < s.len() {
        assert(s[i] != '.');
        lemma_no_dots(s, i + 1, start, acc);
    }
}

proof fn lemma_joined_chars(parts: Seq<Seq<char>>, k: int)
    requires
        all_simple(parts),
        0 <= k < joined(parts, seq![',']).len(),
    ensures
        joined(parts, seq![','])[k] != '{',
        joined(parts, seq![','])[k] != '}',
        joined(parts, seq![','])[k] != '.',
    decreases parts.len(),
{
    if parts.len() == 1 {
        assert(is_simple(parts[0]));
    } else if parts.len() > 1 {
        let front = parts.drop_last();
        let head = joined(front, seq![',']);
        assert forall|n: int| 0 <= n < front.len() implies is_simple(#[trigger] front[n]) by {
            assert(front[n] == parts[n]);
        }
        assert(is_simple(parts[parts.len() - 1]));
        if k < head.len() {
            lemma_joined_chars(front, k);
        }
    }
}

/// Parts that commas join between braces are what the braces stand for.
proof fn lemma_alternatives(parts: Seq<Seq<char>>)
    requires
        parts.len() >= 2,
        all_simple(parts),
    ensures
        alternatives(joined(parts, seq![','])) == Some(parts),
{
    let body = joined(parts, seq![',']);
    let none = Seq::<Seq<char>>::empty();
    assert forall|k: int| 0 <= k < body.len() implies #[trigger] body[k] != '.' by {
        lemma_joined_chars(parts, k);
    }
    lemma_no_dots(body, 0, 0, none);
    assert(body.subrange(0, body.len() as int) =~= body);
    lemma_comma_parts(body, 0, parts, none);
    assert(none + parts =~= parts);
}

proof fn lemma_open_at(s: Seq<char>, i: int, j: int)
    requires
        0 <= i <= j < s.len(),
        forall|k: int| i <= k < j ==> #[trigger] s[k] != '{',
        s[j] == '{',
    ensures
        open_from(s, i) == Some(j),
    decreases j - i,
{
    if i < j {
        assert(s[i] != '{');
        lemma_open_at(s, i + 1, j);
    }
}

proof fn lemma_none_opens(s: Seq<char>, i: int)
    requires
        0 <= i,
        forall|k: int| i <= k < s.len() ==> #[trigger] s[k] != '{',
    ensures
        open_from(s, i) is None,
    decreases s.len() - i,
{
    if i < s.len() {
        assert(s[i] != '{');
        lemma_none_opens(s, i + 1);
    }
}

proof fn lemma_close_at(s: Seq<char>, i: int, j: int)
    requires
        0 <= i <= j < s.len(),
        forall|k: int| i <= k < j ==> (#[trigger] s[k]) != '{' && s[k] != '}',
        s[j] == '}',
    ensures
        close_from(s, i, 1) == Some(j),
    decreases j - i,
{
    if i < j {
        assert(s[i] != '{');
        lemma_close_at(s, i + 1, j);
    }
}

/// The group that a body in braces is, if it has alternatives.
proof fn lemma_group(prefix: Seq<char>, body: Seq<char>, suffix: Seq<char>)
    requires
        is_braceless(prefix),
        is_braceless(body),
        alternatives(body) is Some,
    ensures
        group(prefix + seq!['{'] + body + seq!['}'] + suffix) == Some(
            GroupV { prefix, alternatives: alternatives(body)->0, suffix },
        ),
{
    let s = prefix + seq!['{'] + body + seq!['}'] + suffix;
    let i = prefix.len() as int;
    let j = i + 1 + body.len();
    assert forall|k: int| 0 <= k < i implies #[trigger] s[k] != '{' by {
        assert(s[k] == prefix[k]);
    }
    assert(s[i] == '{');
    lemma_open_at(s, 0, i);
    assert forall|k: int| i + 1 <= k < j implies (#[trigger] s[k]) != '{' && s[k] != '}' by {
        assert(s[k] == body[k - i - 1]);
    }
    assert(s[j] == '}');
    lemma_close_at(s, i + 1, j);
    assert(s.subrange(i + 1, j) =~= body);
    assert(s.subrange(0, i) =~= prefix);
    assert(s.subrange(j + 1, s.len() as int) =~= suffix);
}

/// `prefix{a,b,...}suffix` has a group that stands for exactly its parts, in order.
pub proof fn law_commas_separate_alternatives(
    prefix: Seq<char>,
    parts: Seq<Seq<char>>,
    suffix: Seq<char>,
)
    requires
        is_braceless(prefix),
        parts.len() >= 2,
        all_simple(parts),
    ensures
        group(prefix + seq!['{'] + joined(parts, seq![',']) + seq!['}'] + suffix) == Some(
            GroupV { prefix, alternatives: parts, suffix },
        ),
{
    let body = joined(parts, seq![',']);
    lemma_alternatives(parts);
    assert forall|k: int| 0 <= k < body.len() implies (#[trigger] body[k]) != '{' && body[k]
        != '}' by {
        lemma_joined_chars(parts, k);
    }
    lemma_group(prefix, body, suffix);
}

/// A word as three texts behind each other.
pub open spec fn of_three(a: Seq<char>, b: Seq<char>, c: Seq<char>) -> WordV {
    literal(a) + literal(b) + literal(c)
}

proof fn lemma_no_groups(w: WordV, i: int)
    requires
        0 <= i,
        forall|k: int|
            0 <= k < w.len() ==> ((#[trigger] w[k]) matches WordSegmentV::Literal(t) && is_braceless(
                t,
            )),
    ensures
        words_from(w, i) == seq![w],
    decreases w.len() - i,
{
    if i < w.len() {
        let t = w[i]->Literal_0;
        assert(w[i] is Literal && is_braceless(t));
        lemma_none_opens(t, 0);
        lemma_no_groups(w, i + 1);
    }
}

proof fn lemma_variants(prefix: Seq<char>, g: GroupV, w: WordV, k: int)
    requires
        w.len() == 1,
        group_at(w, 0) == Some(g),
        g.prefix == prefix,
        is_braceless(prefix),
        is_braceless(g.suffix),
        forall|n: int| 0 <= n < g.alternatives.len() ==> is_braceless(#[trigger] g.alternatives[n]),
        0 <= k <= g.alternatives.len(),
    ensures
        words_of_variants(w, 0, g, k) == g.alternatives.skip(k).map_values(
            |t: Seq<char>| of_three(prefix, t, g.suffix),
        ),
    decreases g.alternatives.len() - k,
{
    let made = |t: Seq<char>| of_three(prefix, t, g.suffix);
    let rest = g.alternatives.skip(k);
    if k < g.alternatives.len() {
        let t = g.alternatives[k];
        assert(is_braceless(t));
        let v = variant(w, 0, g, k);
        assert(v =~= of_three(prefix, t, g.suffix));
        assert forall|n: int| 0 <= n < v.len() implies ((#[trigger] v[n]) matches WordSegmentV::Literal(
            u,
        ) && is_braceless(u)) by {
            let (a, b) = (literal(prefix), literal(t));
            if n < a.len() {
                assert(v[n] == a[n]);
            } else if n < a.len() + b.len() {
                assert(v[n] == b[n - a.len()]);
            } else {
                assert(v[n] == literal(g.suffix)[n - a.len() - b.len()]);
            }
        }
        lemma_no_groups(v, 0);
        lemma_variants(prefix, g, w, k + 1);
        assert(rest.map_values(made) =~= seq![v] + g.alternatives.skip(k + 1).map_values(made));
    } else {
        assert(rest.map_values(made) =~= Seq::empty());
    }
}

/// A word with one group is one word for each alternative, in order: what stands before the
/// group, the alternative, and what stands behind the group.
pub proof fn law_groups_make_a_word_of_each_alternative(
    prefix: Seq<char>,
    body: Seq<char>,
    suffix: Seq<char>,
)
    requires
        is_braceless(prefix),
        is_braceless(body),
        is_braceless(suffix),
        alternatives(body) is Some,
        forall|n: int|
            0 <= n < alternatives(body)->0.len() ==> is_braceless(
                #[trigger] alternatives(body)->0[n],
            ),
    ensures
        words_from(
            seq![WordSegmentV::Literal(prefix + seq!['{'] + body + seq!['}'] + suffix)],
            0,
        ) == alternatives(body)->0.map_values(|t: Seq<char>| of_three(prefix, t, suffix)),
{
    let s = prefix + seq!['{'] + body + seq!['}'] + suffix;
    let w = seq![WordSegmentV::Literal(s)];
    lemma_group(prefix, body, suffix);
    let g = GroupV { prefix, alternatives: alternatives(body)->0, suffix };
    lemma_variants(prefix, g, w, 0);
    assert(g.alternatives.skip(0) =~= g.alternatives);
}

// ---- ranges -------------------------------------------------------------------------------------

proof fn lemma_count_up(v: int, end: int, step: int, k: int)
    requires
        step > 0,
    ensures
        v > end ==> count_up(v, end, step).len() == 0,
        0 <= k < count_up(v, end, step).len() ==> count_up(v, end, step)[k] == decimal(
            v + k * step,
        ) && v + k * step <= end,
        v <= end ==> count_up(v, end, step).len() > 0 && v + count_up(v, end, step).len() * step
            > end,
    decreases
            (if v <= end {
                end - v + 1
            } else {
                0
            }),
{
    if v <= end {
        lemma_count_up(v + step, end, step, k - 1);
        let rest = count_up(v + step, end, step);
        let n = rest.len() as int;
        assert((k - 1) * step == k * step - step) by (nonlinear_arith);
        assert((n + 1) * step == n * step + step) by (nonlinear_arith);
        if n == 0 {
            assert(n * step == 0) by (nonlinear_arith)
                requires
                    n == 0,
            ;
        }
        if k == 0 {
            assert(k * step == 0) by (nonlinear_arith)
                requires
                    k == 0,
            ;
        }
    }
}

proof fn lemma_count_down(v: int, end: int, step: int, k: int)
    requires
        step > 0,
    ensures
        v < end ==> count_down(v, end, step).len() == 0,
        0 <= k < count_down(v, end, step).len() ==> count_down(v, end, step)[k] == decimal(
            v - k * step,
        ) && v - k * step >= end,
        v >= end ==> count_down(v, end, step).len() > 0 && v - count_down(v, end, step).len() * step
            < end,
    decreases
            (if v >= end {
                v - end + 1
            } else {
                0
            }),
{
    if v >= end {
        lemma_count_down(v - step, end, step, k - 1);
        let rest = count_down(v - step, end, step);
        let n = rest.len() as int;
        assert((k - 1) * step == k * step - step) by (nonlinear_arith);
        assert((n + 1) * step == n * step + step) by (nonlinear_arith);
        if n == 0 {
            assert(n * step == 0) by (nonlinear_arith)
                requires
                    n == 0,
            ;
        }
        if k == 0 {
            assert(k * step == 0) by (nonlinear_arith)
                requires
                    k == 0,
            ;
        }
    }
}

proof fn lemma_decimal_has_no_dots(n: int)
    ensures
        forall|k: int| 0 <= k < decimal(n).len() ==> #[trigger] decimal(n)[k] != '.',
{
    let d = digits(
        if n < 0 {
            (-n) as nat
        } else {
            n as nat
        },
    );
    law_digits_read_back(
        if n < 0 {
            (-n) as nat
        } else {
            n as nat
        },
    );
    assert forall|k: int| 0 <= k < decimal(n).len() implies #[trigger] decimal(n)[k] != '.' by {
        if n < 0 {
            if k > 0 {
                assert(decimal(n)[k] == d[k - 1]);
                assert(is_digit(d[k - 1]));
            }
        } else {
            assert(is_digit(d[k]));
        }
    }
}

/// Two texts with two dots between them are the parts of what they make, if neither holds
/// a dot.
proof fn lemma_dot_parts(a: Seq<char>, b: Seq<char>)
    requires
        forall|k: int| 0 <= k < a.len() ==> #[trigger] a[k] != '.',
        forall|k: int| 0 <= k < b.len() ==> #[trigger] b[k] != '.',
    ensures
        dot_parts(a + seq!['.', '.'] + b, 0, 0, Seq::empty()) == seq![a, b],
{
    let s = a + seq!['.', '.'] + b;
    let n = a.len() as int;
    let none = Seq::<Seq<char>>::empty();
    assert forall|k: int| 0 <= k < n implies #[trigger] s[k] != '.' by {
        assert(s[k] == a[k]);
    }
    assert(s[n] == '.' && s[n + 1] == '.');
    lemma_dots_at(s, 0, n, 0, none);
    assert(s.subrange(0, n) =~= a);
    assert forall|k: int| n + 2 <= k < s.len() implies #[trigger] s[k] != '.' by {
        assert(s[k] == b[k - n - 2]);
    }
    lemma_no_dots(s, n + 2, n + 2, none.push(a));
    assert(s.subrange(n + 2, s.len() as int) =~= b);
    assert(none.push(a).push(b) =~= seq![a, b]);
}

proof fn lemma_dots_at(s: Seq<char>, i: int, j: int, start: int, acc: Seq<Seq<char>>)
    requires
        0 <= i <= j,
        j + 1 < s.len(),
        forall|k: int| i <= k < j ==> #[trigger] s[k] != '.',
        s[j] == '.' && s[j + 1] == '.',
    ensures
        dot_parts(s, i, start, acc) == dot_parts(s, j + 2, j + 2, acc.push(s.subrange(start, j))),
    decreases j - i,
{
    if i < j {
        assert(s[i] != '.');
        lemma_dots_at(s, i + 1, j, start, acc);
    }
}

proof fn lemma_three_dot_parts(a: Seq<char>, b: Seq<char>, c: Seq<char>)
    requires
        forall|k: int| 0 <= k < a.len() ==> #[trigger] a[k] != '.',
        forall|k: int| 0 <= k < b.len() ==> #[trigger] b[k] != '.',
        forall|k: int| 0 <= k < c.len() ==> #[trigger] c[k] != '.',
    ensures
        dot_parts(a + seq!['.', '.'] + b + seq!['.', '.'] + c, 0, 0, Seq::empty()) == seq![a, b, c],
{
    let s = a + seq!['.', '.'] + b + seq!['.', '.'] + c;
    let n = a.len() as int;
    let m = n + 2 + b.len();
    let none = Seq::<Seq<char>>::empty();
    assert forall|k: int| 0 <= k < n implies #[trigger] s[k] != '.' by {
        assert(s[k] == a[k]);
    }
    assert(s[n] == '.' && s[n + 1] == '.');
    lemma_dots_at(s, 0, n, 0, none);
    assert(s.subrange(0, n) =~= a);
    assert forall|k: int| n + 2 <= k < m implies #[trigger] s[k] != '.' by {
        assert(s[k] == b[k - n - 2]);
    }
    assert(s[m] == '.' && s[m + 1] == '.');
    lemma_dots_at(s, n + 2, m, n + 2, none.push(a));
    assert(s.subrange(n + 2, m) =~= b);
    assert forall|k: int| m + 2 <= k < s.len() implies #[trigger] s[k] != '.' by {
        assert(s[k] == c[k - m - 2]);
    }
    lemma_no_dots(s, m + 2, m + 2, none.push(a).push(b));
    assert(s.subrange(m + 2, s.len() as int) =~= c);
    assert(none.push(a).push(b).push(c) =~= seq![a, b, c]);
}

/// The distance from one number of a range to the next: the size of the step, or 1 where
/// it is 0; downwards where the first number is the larger one.
pub open spec fn stride(start: i64, end: i64, step: i64) -> int {
    let by = if step == 0 {
        1int
    } else if step < 0 {
        -(step as int)
    } else {
        step as int
    };
    if start <= end {
        by
    } else {
        -by
    }
}

/// `l` counts from `start` towards `end`: from one number to the next by the stride, not
/// past the end, and not without need before it.
pub open spec fn counts(l: Seq<Seq<char>>, start: i64, end: i64, by: int) -> bool {
    &&& l.len() > 0
    &&& forall|k: int| 0 <= k < l.len() ==> #[trigger] l[k] == decimal(start + k * by)
    &&& if start <= end {
        start + (l.len() - 1) * by <= end < start + l.len() * by
    } else {
        start + (l.len() - 1) * by >= end > start + l.len() * by
    }
}

/// `{start..end}` and `{start..end..step}` count from the first number to the second one,
/// up or down.
pub proof fn law_ranges_count(start: i64, end: i64, step: i64)
    ensures
        range(decimal(start as int) + seq!['.', '.'] + decimal(end as int)) matches Some(l)
            && counts(l, start, end, stride(start, end, 1)),
        range(
            decimal(start as int) + seq!['.', '.'] + decimal(end as int) + seq!['.', '.'] + decimal(
                step as int,
            ),
        ) matches Some(l) && counts(l, start, end, stride(start, end, step)),
{
    let (a, b, c) = (decimal(start as int), decimal(end as int), decimal(step as int));
    lemma_decimal_has_no_dots(start as int);
    lemma_decimal_has_no_dots(end as int);
    lemma_decimal_has_no_dots(step as int);
    law_decimal_reads_back(start as int);
    law_decimal_reads_back(end as int);
    law_decimal_reads_back(step as int);
    lemma_dot_parts(a, b);
    lemma_three_dot_parts(a, b, c);
    lemma_counts(start, end, 1);
    lemma_counts(start, end, step);
}

proof fn lemma_counts(start: i64, end: i64, step: i64)
    ensures
        counts(
            if start <= end {
                count_up(start as int, end as int, step_of(step as int))
            } else {
                count_down(start as int, end as int, step_of(step as int))
            },
            start,
            end,
            stride(start, end, step),
        ),
{
    let by = step_of(step as int);
    let d = stride(start, end, step);
    if start <= end {
        let l = count_up(start as int, end as int, by);
        lemma_count_up(start as int, end as int, by, l.len() - 1);
        assert forall|k: int| 0 <= k < l.len() implies #[trigger] l[k] == decimal(start + k * d) by {
            lemma_count_up(start as int, end as int, by, k);
        }
    } else {
        let l = count_down(start as int, end as int, by);
        lemma_count_down(start as int, end as int, by, l.len() - 1);
        assert forall|k: int| 0 <= k < l.len() implies #[trigger] l[k] == decimal(start + k * d) by {
            lemma_count_down(start as int, end as int, by, k);
            assert(k * d == -(k * by)) by (nonlinear_arith)
                requires
                    d == -by,
            ;
        }
        let n = l.len() as int;
        assert((n - 1) * d == -((n - 1) * by)) by (nonlinear_arith)
            requires
                d == -by,
        ;
        assert(n * d == -(n * by)) by (nonlinear_arith)
            requires
                d == -by,
        ;
    }
}

proof fn lemma_letters(v: int, end: int, k: int)
    ensures
        letters(v, end).len() == (if v <= end {
            end - v
        } else {
            v - end
        }) + 1,
        0 <= k < letters(v, end).len() ==> letters(v, end)[k] == seq![
            (if v <= end {
                v + k
            } else {
                v - k
            }) as char,
        ],
    decreases
            (if v <= end {
                end - v
            } else {
                v - end
            }),
{
    if v < end {
        lemma_letters(v + 1, end, k - 1);
    } else if v > end {
        lemma_letters(v - 1, end, k - 1);
    }
}

/// `{a..e}` is every character from the first letter to the second one, in either
/// direction.
pub proof fn law_letter_ranges_go_from_letter_to_letter(a: char, b: char, k: int)
    requires
        is_letter(a),
        is_letter(b),
    ensures
        range(seq![a, '.', '.', b]) matches Some(l) && {
            &&& l.len() == (if a <= b {
                b as int - a as int
            } else {
                a as int - b as int
            }) + 1
            &&& 0 <= k < l.len() ==> l[k] == seq![
                (if a <= b {
                    a as int + k
                } else {
                    a as int - k
                }) as char,
            ]
        },
{
    let s = seq![a, '.', '.', b];
    assert(s =~= seq![a] + seq!['.', '.'] + seq![b]);
    lemma_dot_parts(seq![a], seq![b]);
    assert(bound(seq![a]) is None) by {
        lemma_letter_is_no_number(a);
    }
    lemma_letters(a as int, b as int, k);
}

proof fn lemma_letter_is_no_number(a: char)
    requires
        is_letter(a),
    ensures
        integer_of(seq![a], true) is None,
{
    let s = seq![a];
    assert(!is_digit(s[0]));
}

} // verus!
