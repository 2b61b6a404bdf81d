//! Pattern matching notation: `*`, `?`, `[...]`, `[!...]` and `\x`, for
//! pathname expansion, `case` patterns and the removal of prefixes and suffixes.

use vstd::prelude::*;

use crate::text::{chars_of, lemma_texts_empty, lemma_texts_push, text_between, texts};

pub mod laws;

verus! {

broadcast use {lemma_texts_push, lemma_texts_empty};

// ---- the rules ------------------------------------------------------------------------

/// Reads the members of a bracket expression from index `i` of `p` on, where
/// the first stands at `start`. Gives the index behind the closing bracket and
/// whether `c` is a member (`found`: it is one of those before `i`).
pub open spec fn bracket_members(
    p: Seq<char>,
    i: int,
    start: int,
    c: char,
    found: bool,
) -> Option<(int, bool)>
    decreases p.len() - i,
{
    if i < 0 || i >= p.len() {
        None
    } else if p[i] == ']' && i != start {
        Some((i + 1, found))
    } else if i + 2 < p.len() && p[i + 1] == '-' && p[i + 2] != ']' {
        bracket_members(p, i + 3, start, c, found || (p[i] <= c && c <= p[i + 2]))
    } else {
        bracket_members(p, i + 1, start, c, found || p[i] == c)
    }
}

/// Matches `c` against the bracket expression at the start of `p`. Gives the
/// index behind it if it matches.
pub open spec fn bracket(p: Seq<char>, c: char) -> Option<int> {
    let negate = p.len() > 1 && p[1] == '!';
    let start = if negate {
        2int
    } else {
        1int
    };
    match bracket_members(p, start, start, c, false) {
        Some((end, found)) if found != negate => Some(end),
        _ => None,
    }
}

/// Pattern `p` matches all of `t`.
pub open spec fn glob_matches(p: Seq<char>, t: Seq<char>) -> bool
    decreases p.len(), t.len(),
    via glob_matches_decreases
{
    if p.len() == 0 {
        t.len() == 0
    } else if p[0] == '\\' && p.len() > 1 {
        t.len() > 0 && t[0] == p[1] && glob_matches(p.skip(2), t.skip(1))
    } else if p[0] == '*' {
        glob_matches(p.skip(1), t) || (t.len() > 0 && glob_matches(p, t.skip(1)))
    } else if p[0] == '?' {
        t.len() > 0 && glob_matches(p.skip(1), t.skip(1))
    } else if p[0] == '[' {
        t.len() > 0 && match bracket(p, t[0]) {
            Some(n) => glob_matches(p.skip(n), t.skip(1)),
            None => false,
        }
    } else {
        t.len() > 0 && t[0] == p[0] && glob_matches(p.skip(1), t.skip(1))
    }
}

#[via_fn]
proof fn glob_matches_decreases(p: Seq<char>, t: Seq<char>) {
    if p.len() > 0 && t.len() > 0 {
        lemma_bracket_end(p, t[0]);
    }
}

proof fn lemma_bracket_members_end(p: Seq<char>, i: int, start: int, c: char, found: bool)
    ensures
        bracket_members(p, i, start, c, found) matches Some((end, _)) ==> i < end <= p.len(),
    decreases p.len() - i,
{
    if 0 <= i < p.len() && !(p[i] == ']' && i != start) {
        if i + 2 < p.len() && p[i + 1] == '-' && p[i + 2] != ']' {
            lemma_bracket_members_end(
                p,
                i + 3,
                start,
                c,
                found || (p[i] <= c && c <= p[i + 2]),
            );
        } else {
            lemma_bracket_members_end(p, i + 1, start, c, found || p[i] == c);
        }
    }
}

proof fn lemma_bracket_end(p: Seq<char>, c: char)
    ensures
        bracket(p, c) matches Some(end) ==> 1 < end <= p.len(),
{
    let start = if p.len() > 1 && p[1] == '!' {
        2int
    } else {
        1int
    };
    lemma_bracket_members_end(p, start, start, c, false);
}

/// The length of the shortest prefix of `t`, of at least `k` characters, that
/// `p` matches.
pub open spec fn shortest_prefix(t: Seq<char>, p: Seq<char>, k: int) -> Option<int>
    decreases t.len() - k,
{
    if k < 0 || k > t.len() {
        None
    } else if glob_matches(p, t.take(k)) {
        Some(k)
    } else if k == t.len() {
        None
    } else {
        shortest_prefix(t, p, k + 1)
    }
}

/// The length of the longest prefix of `t`, of at most `k` characters, that `p`
/// matches.
pub open spec fn longest_prefix(t: Seq<char>, p: Seq<char>, k: int) -> Option<int>
    decreases k,
{
    if k < 0 || k > t.len() {
        None
    } else if glob_matches(p, t.take(k)) {
        Some(k)
    } else if k == 0 {
        None
    } else {
        longest_prefix(t, p, k - 1)
    }
}

/// `t` without the prefix that `p` matches: the longest one if `greedy`, else
/// the shortest. All of `t` if it matches none.
pub open spec fn prefix_removed(t: Seq<char>, p: Seq<char>, greedy: bool) -> Seq<char> {
    let cut = if greedy {
        longest_prefix(t, p, t.len() as int)
    } else {
        shortest_prefix(t, p, 0)
    };
    match cut {
        Some(k) => t.skip(k),
        None => t,
    }
}

/// The start of the shortest suffix of `t`, at `start` or before, that `p`
/// matches.
pub open spec fn shortest_suffix(t: Seq<char>, p: Seq<char>, start: int) -> Option<int>
    decreases start,
{
    if start < 0 || start > t.len() {
        None
    } else if glob_matches(p, t.skip(start)) {
        Some(start)
    } else if start == 0 {
        None
    } else {
        shortest_suffix(t, p, start - 1)
    }
}

/// The start of the longest suffix of `t`, at `start` or behind, that `p`
/// matches.
pub open spec fn longest_suffix(t: Seq<char>, p: Seq<char>, start: int) -> Option<int>
    decreases t.len() - start,
{
    if start < 0 || start > t.len() {
        None
    } else if glob_matches(p, t.skip(start)) {
        Some(start)
    } else if start == t.len() {
        None
    } else {
        longest_suffix(t, p, start + 1)
    }
}

/// `t` without the suffix that `p` matches: the longest one if `greedy`, else
/// the shortest. All of `t` if it matches none.
pub open spec fn suffix_removed(t: Seq<char>, p: Seq<char>, greedy: bool) -> Seq<char> {
    let cut = if greedy {
        longest_suffix(t, p, 0)
    } else {
        shortest_suffix(t, p, t.len() as int)
    };
    match cut {
        Some(start) => t.take(start),
        None => t,
    }
}

/// A character that is special in a pattern where it is not quoted.
#[verifier::allow_in_spec]
pub fn is_meta(c: char) -> bool
    returns
        c == '*' || c == '?' || c == '[',
{
    c == '*' || c == '?' || c == '['
}

/// The pattern that a character of a text stands for: an unquoted
/// metacharacter keeps its meaning, any other special character is escaped.
pub open spec fn pattern_char(c: char, unquoted: bool) -> Seq<char> {
    if (is_meta(c) && !unquoted) || c == '\\' {
        seq!['\\', c]
    } else {
        seq![c]
    }
}

/// The pattern that a text stands for.
pub open spec fn pattern_of(t: Seq<char>, unquoted: bool) -> Seq<char>
    decreases t.len(),
{
    if t.len() == 0 {
        Seq::empty()
    } else {
        pattern_of(t.drop_last(), unquoted) + pattern_char(t.last(), unquoted)
    }
}

/// A directory entry is found by a pattern: it matches, and a leading dot is
/// matched only by a dot.
pub open spec fn finds(p: Seq<char>, name: Seq<char>) -> bool {
    &&& (p.len() > 0 && p[0] == '.') || !(name.len() > 0 && name[0] == '.')
    &&& glob_matches(p, name)
}

/// The entries that a pattern finds.
pub open spec fn found(p: Seq<char>, entries: Seq<Seq<char>>) -> Seq<Seq<char>>
    decreases entries.len(),
{
    if entries.len() == 0 {
        Seq::empty()
    } else if finds(p, entries.last()) {
        found(p, entries.drop_last()).push(entries.last())
    } else {
        found(p, entries.drop_last())
    }
}

/// `a` comes before `b`, or is the same text: by the first character in which
/// they differ.
pub open spec fn text_le(a: Seq<char>, b: Seq<char>) -> bool
    decreases a.len(),
{
    if a.len() == 0 {
        true
    } else if b.len() == 0 {
        false
    } else if a[0] == b[0] {
        text_le(a.skip(1), b.skip(1))
    } else {
        a[0] < b[0]
    }
}

/// Where a text belongs in a sorted list: behind all that are not greater.
pub open spec fn place(s: Seq<Seq<char>>, t: Seq<char>) -> int
    decreases s.len(),
{
    if s.len() == 0 {
        0
    } else if text_le(s.last(), t) {
        s.len() as int
    } else {
        place(s.drop_last(), t)
    }
}

/// The texts of `s` in order.
pub open spec fn sorted(s: Seq<Seq<char>>) -> Seq<Seq<char>>
    decreases s.len(),
{
    if s.len() == 0 {
        Seq::empty()
    } else {
        let rest = sorted(s.drop_last());
        rest.insert(place(rest, s.last()), s.last())
    }
}

// ---- matching ---------------------------------------------------------------------------

/// Matches `c` against the bracket expression at index `pi` of `pat`. Gives the
/// index behind it if it matches.
fn match_bracket(pat: &Vec<char>, pi: usize, c: char) -> (r: Option<usize>)
    requires
        pi < pat@.len(),
        pat@[pi as int] == '[',
    ensures
        match bracket(pat@.skip(pi as int), c) {
            Some(n) => r == Some((pi + n) as usize) && pi + n <= pat@.len(),
            None => r is None,
        },
{
    let ghost p = pat@.skip(pi as int);
    let len: usize = pat.len();
    let mut i: usize = pi + 1;
    let negate = i < len && pat[i] == '!';
    if negate {
        i += 1;
    }
    let start: usize = i;
    let mut matched = false;
    while i < len && (pat[i] != ']' || i == start)
        invariant
            len == pat@.len(),
            p == pat@.skip(pi as int),
            pi < start <= i,
            i <= len,
            bracket_members(p, start - pi, start - pi, c, false) == bracket_members(
                p,
                i - pi,
                start - pi,
                c,
                matched,
            ),
        decreases len - i,
    {
        if len - i > 2 && pat[i + 1] == '-' && pat[i + 2] != ']' {
            if pat[i] <= c && c <= pat[i + 2] {
                matched = true;
            }
            i += 3;
        } else {
            if pat[i] == c {
                matched = true;
            }
            i += 1;
        }
    }
    if i >= len {
        return None;
    }
    if matched != negate {
        Some(i + 1)
    } else {
        None
    }
}

/// Matches the pattern from index `pi` on against characters `ti` to `end` of
/// `text`.
fn glob_match_at(pat: &Vec<char>, pi: usize, text: &Vec<char>, ti: usize, end: usize) -> (r: bool)
    requires
        pi <= pat@.len(),
        ti <= end <= text@.len(),
    ensures
        r == glob_matches(pat@.skip(pi as int), text@.subrange(ti as int, end as int)),
    decreases pat@.len() - pi,
{
    let ghost p = pat@.skip(pi as int);
    let ghost t = text@.subrange(ti as int, end as int);
    let len: usize = pat.len();
    if pi == len {
        return ti == end;
    }
    proof {
        assert(forall|n: int| 0 <= n <= p.len() ==> #[trigger] p.skip(n) =~= pat@.skip(pi + n));
        assert(forall|k: int|
            0 <= k <= t.len() ==> #[trigger] t.skip(k) =~= text@.subrange(ti + k, end as int));
        if t.len() > 0 {
            lemma_bracket_end(p, t[0]);
        }
    }
    let c = pat[pi];
    if c == '\\' && len - pi > 1 {
        ti < end && text[ti] == pat[pi + 1] && glob_match_at(pat, pi + 2, text, ti + 1, end)
    } else if c == '*' {
        let mut k: usize = ti;
        assert(text@.subrange(ti as int, end as int) =~= t);
        loop
            invariant
                pi < len == pat@.len(),
                ti <= k <= end <= text@.len(),
                p == pat@.skip(pi as int),
                p[0] == '*',
                p.skip(1) == pat@.skip(pi + 1),
                glob_matches(p, t) == glob_matches(p, text@.subrange(k as int, end as int)),
                p == pat@.skip(pi as int),
                t == text@.subrange(ti as int, end as int),
            decreases end - k,
        {
            if glob_match_at(pat, pi + 1, text, k, end) {
                return true;
            }
            if k == end {
                return false;
            }
            assert(text@.subrange(k as int, end as int).skip(1) =~= text@.subrange(
                k + 1,
                end as int,
            ));
            k += 1;
        }
    } else if c == '?' {
        ti < end && glob_match_at(pat, pi + 1, text, ti + 1, end)
    } else if c == '[' {
        if ti >= end {
            return false;
        }
        match match_bracket(pat, pi, text[ti]) {
            Some(next) => glob_match_at(pat, next, text, ti + 1, end),
            None => false,
        }
    } else {
        ti < end && text[ti] == c && glob_match_at(pat, pi + 1, text, ti + 1, end)
    }
}

/// Whether `pattern` matches all of `name`.
pub fn glob_match(pattern: &str, name: &str) -> (r: bool)
    ensures
        r == glob_matches(pattern@, name@),
{
    let pat = chars_of(pattern);
    let text = chars_of(name);
    assert(pat@.skip(0) =~= pat@);
    assert(text@.subrange(0, text@.len() as int) =~= text@);
    glob_match_at(&pat, 0, &text, 0, text.len())
}

/// Removes the shortest prefix of `text` that `pattern` matches, or the longest
/// if `greedy`.
pub fn remove_prefix(text: &str, pattern: &str, greedy: bool) -> (r: String)
    ensures
        r@ == prefix_removed(text@, pattern@, greedy),
{
    let pat = chars_of(pattern);
    let chars = chars_of(text);
    let len: usize = chars.len();
    let ghost t = text@;
    let ghost p = pattern@;
    assert(pat@.skip(0) =~= p);
    if greedy {
        let mut k: usize = len;
        loop
            invariant
                greedy,
                k <= len == chars@.len(),
                t == text@,
                p == pattern@,
                chars@ == t,
                pat@.skip(0) == p,
                longest_prefix(t, p, len as int) == longest_prefix(t, p, k as int),
            decreases k,
        {
            assert(chars@.subrange(0, k as int) =~= t.take(k as int));
            if glob_match_at(&pat, 0, &chars, 0, k) {
                assert(t.skip(k as int) =~= chars@.subrange(k as int, len as int));
                return text_between(&chars, k, len);
            }
            if k == 0 {
                return text.to_owned();
            }
            k -= 1;
        }
    } else {
        let mut k: usize = 0;
        loop
            invariant
                !greedy,
                k <= len == chars@.len(),
                t == text@,
                p == pattern@,
                chars@ == t,
                pat@.skip(0) == p,
                shortest_prefix(t, p, 0) == shortest_prefix(t, p, k as int),
            decreases len - k,
        {
            assert(chars@.subrange(0, k as int) =~= t.take(k as int));
            if glob_match_at(&pat, 0, &chars, 0, k) {
                assert(t.skip(k as int) =~= chars@.subrange(k as int, len as int));
                return text_between(&chars, k, len);
            }
            if k == len {
                return text.to_owned();
            }
            k += 1;
        }
    }
}

/// Removes the shortest suffix of `text` that `pattern` matches, or the longest
/// if `greedy`.
pub fn remove_suffix(text: &str, pattern: &str, greedy: bool) -> (r: String)
    ensures
        r@ == suffix_removed(text@, pattern@, greedy),
{
    let pat = chars_of(pattern);
    let chars = chars_of(text);
    let len: usize = chars.len();
    let ghost t = text@;
    let ghost p = pattern@;
    assert(pat@.skip(0) =~= p);
    if greedy {
        let mut start: usize = 0;
        loop
            invariant
                greedy,
                start <= len == chars@.len(),
                t == text@,
                p == pattern@,
                chars@ == t,
                pat@.skip(0) == p,
                longest_suffix(t, p, 0) == longest_suffix(t, p, start as int),
            decreases len - start,
        {
            assert(chars@.subrange(start as int, len as int) =~= t.skip(start as int));
            if glob_match_at(&pat, 0, &chars, start, len) {
                assert(t.take(start as int) =~= chars@.subrange(0, start as int));
                return text_between(&chars, 0, start);
            }
            if start == len {
                return text.to_owned();
            }
            start += 1;
        }
    } else {
        let mut start: usize = len;
        loop
            invariant
                !greedy,
                start <= len == chars@.len(),
                t == text@,
                p == pattern@,
                chars@ == t,
                pat@.skip(0) == p,
                shortest_suffix(t, p, len as int) == shortest_suffix(t, p, start as int),
            decreases start,
        {
            assert(chars@.subrange(start as int, len as int) =~= t.skip(start as int));
            if glob_match_at(&pat, 0, &chars, start, len) {
                assert(t.take(start as int) =~= chars@.subrange(0, start as int));
                return text_between(&chars, 0, start);
            }
            if start == 0 {
                return text.to_owned();
            }
            start -= 1;
        }
    }
}

/// Appends the pattern that `text` stands for.
pub fn push_pattern(pattern: &mut String, text: &str, unquoted: bool)
    ensures
        final(pattern)@ == old(pattern)@ + pattern_of(text@, unquoted),
{
    let v = chars_of(text);
    let ghost before = pattern@;
    let mut i: usize = 0;
    assert(v@.take(0) =~= Seq::empty());
    assert(before + pattern_of(v@.take(0), unquoted) =~= before);
    while i < v.len()
        invariant
            i <= v@.len(),
            pattern@ == before + pattern_of(v@.take(i as int), unquoted),
        decreases v@.len() - i,
    {
        let ghost here = pattern@;
        let c = v[i];
        if (is_meta(c) && !unquoted) || c == '\\' {
            pattern.push('\\');
        }
        pattern.push(c);
        i += 1;
        assert(v@.take(i as int).drop_last() =~= v@.take(i - 1));
        assert(pattern@ =~= here + pattern_char(c, unquoted));
        assert(pattern@ =~= before + pattern_of(v@.take(i as int), unquoted));
    }
    assert(v@.take(v@.len() as int) =~= text@);
}

// ---- directory entries --------------------------------------------------------------------

/// Whether `a` comes before `b` or is the same text.
fn is_text_le(a: &str, b: &str) -> (r: bool)
    ensures
        r == text_le(a@, b@),
{
    let x = chars_of(a);
    let y = chars_of(b);
    let mut i: usize = 0;
    assert(x@.skip(0) =~= x@ && y@.skip(0) =~= y@);
    while i < x.len() && i < y.len() && x[i] == y[i]
        invariant
            i <= x@.len(),
            i <= y@.len(),
            text_le(x@, y@) == text_le(x@.skip(i as int), y@.skip(i as int)),
        decreases x@.len() - i,
    {
        i += 1;
        assert(x@.skip(i - 1).skip(1) =~= x@.skip(i as int));
        assert(y@.skip(i - 1).skip(1) =~= y@.skip(i as int));
    }
    if i == x.len() {
        true
    } else if i == y.len() {
        false
    } else {
        x[i] < y[i]
    }
}

/// The names among `entries` that `pattern` finds.
pub fn glob_match_entries(pattern: &str, entries: &Vec<String>) -> (r: Vec<String>)
    ensures
        texts(r@) == found(pattern@, texts(entries@)),
{
    let p = chars_of(pattern);
    let pattern_starts_with_dot = p.len() > 0 && p[0] == '.';
    let mut r: Vec<String> = Vec::new();
    let mut i: usize = 0;
    let ghost all = texts(entries@);
    assert(all.take(0) =~= Seq::empty());
    while i < entries.len()
        invariant
            i <= entries@.len(),
            all == texts(entries@),
            pattern_starts_with_dot == (pattern@.len() > 0 && pattern@[0] == '.'),
            texts(r@) == found(pattern@, all.take(i as int)),
        decreases entries@.len() - i,
    {
        let name = &entries[i];
        let n = chars_of(name.as_str());
        let hidden = n.len() > 0 && n[0] == '.';
        if (pattern_starts_with_dot || !hidden) && glob_match(pattern, name.as_str()) {
            r.push(name.clone());
        }
        i += 1;
        assert(all.take(i as int).drop_last() =~= all.take(i - 1));
    }
    assert(all.take(all.len() as int) =~= all);
    r
}

/// Puts texts in order.
pub fn sort_texts(v: Vec<String>) -> (r: Vec<String>)
    ensures
        texts(r@) == sorted(texts(v@)),
{
    let mut r: Vec<String> = Vec::new();
    let mut i: usize = 0;
    let ghost all = texts(v@);
    assert(all.take(0) =~= Seq::empty());
    while i < v.len()
        invariant
            i <= v@.len(),
            all == texts(v@),
            texts(r@) == sorted(all.take(i as int)),
        decreases v@.len() - i,
    {
        let t = v[i].clone();
        let ghost before = texts(r@);
        let mut k: usize = r.len();
        assert(before.take(k as int) =~= before);
        while k > 0 && !is_text_le(r[k - 1].as_str(), t.as_str())
            invariant
                k <= r@.len(),
                before == texts(r@),
                place(before, t@) == place(before.take(k as int), t@),
            decreases k,
        {
            k -= 1;
            assert(before.take(k + 1).drop_last() =~= before.take(k as int));
        }
        assert(k > 0 ==> before.take(k as int).last() == r@[k - 1]@);
        r.insert(k, t);
        i += 1;
        assert(all.take(i as int).drop_last() =~= all.take(i - 1));
        assert(texts(r@) =~= before.insert(k as int, t@));
    }
    assert(all.take(all.len() as int) =~= all);
    r
}

// ---- laws -------------------------------------------------------------------------------

proof fn lemma_pattern_of_first(t: Seq<char>, unquoted: bool)
    requires
        t.len() > 0,
    ensures
        pattern_of(t, unquoted) == pattern_char(t[0], unquoted) + pattern_of(t.skip(1), unquoted),
    decreases t.len(),
{
    let c = pattern_char(t[0], unquoted);
    if t.len() == 1 {
        assert(t.drop_last() =~= Seq::empty());
        assert(t.skip(1) =~= Seq::empty());
        assert(pattern_of(t, unquoted) =~= c + pattern_of(t.skip(1), unquoted));
    } else {
        lemma_pattern_of_first(t.drop_last(), unquoted);
        assert(t.drop_last().skip(1) =~= t.skip(1).drop_last());
        assert(pattern_of(t, unquoted) =~= c + pattern_of(t.skip(1), unquoted));
    }
}

/// A text without unquoted metacharacters matches itself and nothing else: a
/// quoted metacharacter is an ordinary character.
pub proof fn law_quoted_text_matches_itself(t: Seq<char>, unquoted: bool, u: Seq<char>)
    requires
        unquoted ==> forall|i: int| 0 <= i < t.len() ==> !is_meta(#[trigger] t[i]),
    ensures
        glob_matches(pattern_of(t, unquoted), u) <==> u == t,
    decreases t.len(),
{
    if t.len() == 0 {
        assert(u.len() == 0 ==> u =~= t);
    } else {
        let rest = pattern_of(t.skip(1), unquoted);
        let p = pattern_of(t, unquoted);
        lemma_pattern_of_first(t, unquoted);
        assert(!(unquoted && is_meta(t[0])));
        if pattern_char(t[0], unquoted).len() == 2 {
            assert(p.skip(2) =~= rest);
        } else {
            assert(p.skip(1) =~= rest);
        }
        if u.len() > 0 {
            law_quoted_text_matches_itself(t.skip(1), unquoted, u.skip(1));
            if u[0] == t[0] && u.skip(1) == t.skip(1) {
                assert(u =~= seq![u[0]] + u.skip(1));
                assert(t =~= seq![t[0]] + t.skip(1));
            }
        }
    }
}

/// `*` stands for any text: a pattern that starts with it matches exactly the
/// texts of which the rest of the pattern matches a suffix.
pub proof fn law_star_matches_any_text(p: Seq<char>, t: Seq<char>)
    requires
        p.len() > 0,
        p[0] == '*',
    ensures
        glob_matches(p, t) <==> exists|k: int|
            0 <= k <= t.len() && #[trigger] glob_matches(p.skip(1), t.skip(k)),
    decreases t.len(),
{
    assert(t.skip(0) =~= t);
    if t.len() > 0 {
        law_star_matches_any_text(p, t.skip(1));
        let rest = t.skip(1);
        assert forall|k: int| 0 <= k <= rest.len() implies #[trigger] rest.skip(k) == t.skip(
            k + 1,
        ) by {
            assert(rest.skip(k) =~= t.skip(k + 1));
        }
        if glob_matches(p.skip(1), t) {
            assert(glob_matches(p.skip(1), t.skip(0)));
        }
        if glob_matches(p, rest) {
            let k = choose|k: int|
                0 <= k <= rest.len() && #[trigger] glob_matches(p.skip(1), rest.skip(k));
            assert(glob_matches(p.skip(1), t.skip(k + 1)));
        }
        if exists|k: int| 0 <= k <= t.len() && #[trigger] glob_matches(p.skip(1), t.skip(k)) {
            let k = choose|k: int|
                0 <= k <= t.len() && #[trigger] glob_matches(p.skip(1), t.skip(k));
            if k > 0 {
                assert(rest.skip(k - 1) == t.skip(k));
                assert(glob_matches(p.skip(1), rest.skip(k - 1)));
            }
        }
    } else {
        if exists|k: int| 0 <= k <= t.len() && #[trigger] glob_matches(p.skip(1), t.skip(k)) {
            let k = choose|k: int|
                0 <= k <= t.len() && #[trigger] glob_matches(p.skip(1), t.skip(k));
            assert(k == 0);
        }
        if glob_matches(p, t) {
            assert(glob_matches(p.skip(1), t.skip(0)));
        }
    }
}

proof fn lemma_shortest_prefix(t: Seq<char>, p: Seq<char>, k: int)
    requires
        0 <= k <= t.len(),
    ensures
        match shortest_prefix(t, p, k) {
            Some(n) => k <= n <= t.len() && glob_matches(p, t.take(n)) && forall|j: int|
                k <= j < n ==> !glob_matches(p, #[trigger] t.take(j)),
            None => forall|j: int| k <= j <= t.len() ==> !glob_matches(p, #[trigger] t.take(j)),
        },
    decreases t.len() - k,
{
    if !glob_matches(p, t.take(k)) && k < t.len() {
        lemma_shortest_prefix(t, p, k + 1);
    }
}

proof fn lemma_longest_prefix(t: Seq<char>, p: Seq<char>, k: int)
    requires
        0 <= k <= t.len(),
    ensures
        match longest_prefix(t, p, k) {
            Some(n) => 0 <= n <= k && glob_matches(p, t.take(n)) && forall|j: int|
                n < j <= k ==> !glob_matches(p, #[trigger] t.take(j)),
            None => forall|j: int| 0 <= j <= k ==> !glob_matches(p, #[trigger] t.take(j)),
        },
    decreases k,
{
    if !glob_matches(p, t.take(k)) && k > 0 {
        lemma_longest_prefix(t, p, k - 1);
    }
}

/// Removing a prefix removes one that the pattern matches, with no shorter one
/// (or, if greedy, no longer one) that it matches too, and nothing where it
/// matches none.
pub proof fn law_removed_prefix_is_extremal(t: Seq<char>, p: Seq<char>, greedy: bool)
    ensures
        ({
            let n = t.len() - prefix_removed(t, p, greedy).len();
            if exists|j: int| 0 <= j <= t.len() && glob_matches(p, #[trigger] t.take(j)) {
                &&& 0 <= n <= t.len()
                &&& prefix_removed(t, p, greedy) == t.skip(n)
                &&& glob_matches(p, t.take(n))
                &&& forall|j: int|
                    0 <= j <= t.len() && glob_matches(p, #[trigger] t.take(j)) ==> if greedy {
                        j <= n
                    } else {
                        n <= j
                    }
            } else {
                prefix_removed(t, p, greedy) == t
            }
        }),
{
    lemma_shortest_prefix(t, p, 0);
    lemma_longest_prefix(t, p, t.len() as int);
}

proof fn lemma_shortest_suffix(t: Seq<char>, p: Seq<char>, start: int)
    requires
        0 <= start <= t.len(),
    ensures
        match shortest_suffix(t, p, start) {
            Some(n) => 0 <= n <= start && glob_matches(p, t.skip(n)) && forall|j: int|
                n < j <= start ==> !glob_matches(p, #[trigger] t.skip(j)),
            None => forall|j: int| 0 <= j <= start ==> !glob_matches(p, #[trigger] t.skip(j)),
        },
    decreases start,
{
    if !glob_matches(p, t.skip(start)) && start > 0 {
        lemma_shortest_suffix(t, p, start - 1);
    }
}

proof fn lemma_longest_suffix(t: Seq<char>, p: Seq<char>, start: int)
    requires
        0 <= start <= t.len(),
    ensures
        match longest_suffix(t, p, start) {
            Some(n) => start <= n <= t.len() && glob_matches(p, t.skip(n)) && forall|j: int|
                start <= j < n ==> !glob_matches(p, #[trigger] t.skip(j)),
            None => forall|j: int| start <= j <= t.len() ==> !glob_matches(p, #[trigger] t.skip(j)),
        },
    decreases t.len() - start,
{
    if !glob_matches(p, t.skip(start)) && start < t.len() {
        lemma_longest_suffix(t, p, start + 1);
    }
}

/// Removing a suffix removes one that the pattern matches, with no shorter one
/// (or, if greedy, no longer one) that it matches too, and nothing where it
/// matches none.
pub proof fn law_removed_suffix_is_extremal(t: Seq<char>, p: Seq<char>, greedy: bool)
    ensures
        ({
            let n = suffix_removed(t, p, greedy).len() as int;
            if exists|j: int| 0 <= j <= t.len() && glob_matches(p, #[trigger] t.skip(j)) {
                &&& n <= t.len()
                &&& suffix_removed(t, p, greedy) == t.take(n)
                &&& glob_matches(p, t.skip(n))
                &&& forall|j: int|
                    0 <= j <= t.len() && glob_matches(p, #[trigger] t.skip(j)) ==> if greedy {
                        n <= j
                    } else {
                        j <= n
                    }
            } else {
                suffix_removed(t, p, greedy) == t
            }
        }),
{
    lemma_shortest_suffix(t, p, t.len() as int);
    lemma_longest_suffix(t, p, 0);
}

proof fn lemma_text_le_total(a: Seq<char>, b: Seq<char>)
    ensures
        text_le(a, b) || text_le(b, a),
    decreases a.len(),
{
    if a.len() > 0 && b.len() > 0 && a[0] == b[0] {
        lemma_text_le_total(a.skip(1), b.skip(1));
    }
}

proof fn lemma_text_le_transitive(a: Seq<char>, b: Seq<char>, c: Seq<char>)
    requires
        text_le(a, b),
        text_le(b, c),
    ensures
        text_le(a, c),
    decreases a.len(),
{
    if a.len() > 0 && b.len() > 0 && c.len() > 0 && a[0] == b[0] && b[0] == c[0] {
        lemma_text_le_transitive(a.skip(1), b.skip(1), c.skip(1));
    }
}

/// No text of `s` comes before one that stands ahead of it.
pub open spec fn in_order(s: Seq<Seq<char>>) -> bool {
    forall|i: int, j: int| 0 <= i <= j < s.len() ==> text_le(#[trigger] s[i], #[trigger] s[j])
}

proof fn lemma_place(s: Seq<Seq<char>>, t: Seq<char>)
    requires
        in_order(s),
    ensures
        0 <= place(s, t) <= s.len(),
        forall|i: int| 0 <= i < place(s, t) ==> text_le(#[trigger] s[i], t),
        forall|i: int| place(s, t) <= i < s.len() ==> text_le(t, #[trigger] s[i]),
    decreases s.len(),
{
    if s.len() > 0 {
        if text_le(s.last(), t) {
            assert forall|i: int| 0 <= i < s.len() implies text_le(#[trigger] s[i], t) by {
                lemma_text_le_transitive(s[i], s.last(), t);
            }
        } else {
            let front = s.drop_last();
            lemma_text_le_total(s.last(), t);
            assert forall|i: int, j: int| 0 <= i <= j < front.len() implies text_le(
                #[trigger] front[i],
                #[trigger] front[j],
            ) by {
                assert(front[i] == s[i] && front[j] == s[j]);
            }
            lemma_place(front, t);
            assert forall|i: int| 0 <= i < place(s, t) implies text_le(#[trigger] s[i], t) by {
                assert(front[i] == s[i]);
            }
            assert forall|i: int| place(s, t) <= i < s.len() implies text_le(
                t,
                #[trigger] s[i],
            ) by {
                if i < front.len() {
                    assert(front[i] == s[i]);
                }
            }
        }
    }
}

/// Sorting puts the texts in order and keeps every one of them.
pub proof fn law_sorting_keeps_and_orders(s: Seq<Seq<char>>)
    ensures
        in_order(sorted(s)),
        sorted(s).to_multiset() == s.to_multiset(),
    decreases s.len(),
{
    if s.len() > 0 {
        let rest = sorted(s.drop_last());
        law_sorting_keeps_and_orders(s.drop_last());
        let n = place(rest, s.last());
        lemma_place(rest, s.last());
        let r = rest.insert(n, s.last());
        lemma_text_le_total(s.last(), s.last());
        assert forall|i: int, j: int| 0 <= i <= j < r.len() implies text_le(
            #[trigger] r[i],
            #[trigger] r[j],
        ) by {
            let at = |k: int|
                if k < n {
                    rest[k]
                } else if k == n {
                    s.last()
                } else {
                    rest[k - 1]
                };
            assert(r[i] == at(i) && r[j] == at(j));
        }
        assert(rest =~= rest.take(n) + rest.skip(n));
        assert(r =~= rest.take(n).push(s.last()) + rest.skip(n));
        vstd::seq_lib::lemma_multiset_commutative(rest.take(n), rest.skip(n));
        vstd::seq_lib::lemma_multiset_commutative(rest.take(n).push(s.last()), rest.skip(n));
        rest.take(n).to_multiset_ensures();
        assert(r.to_multiset() =~= rest.to_multiset().insert(s.last()));
        assert(s =~= s.drop_last().push(s.last()));
        s.drop_last().to_multiset_ensures();
    } else {
        assert(s =~= Seq::empty());
    }
}

} // verus!
