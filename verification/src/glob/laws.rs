//! What each part of a pattern matches.

use vstd::prelude::*;

use super::{bracket_members, glob_matches, text_le};

verus! {

/// A character that means only itself in a pattern.
pub open spec fn is_plain(c: char) -> bool {
    c != '*' && c != '?' && c != '[' && c != '\\'
}

/// A plain character, or any character behind a backslash, matches itself and nothing else,
/// and the rest of the pattern the rest of the text.
pub proof fn law_characters_match_themselves(c: char, p: Seq<char>, t: Seq<char>)
    ensures
        is_plain(c) ==> (glob_matches(seq![c] + p, t) <==> t.len() > 0 && t[0] == c && glob_matches(
            p,
            t.skip(1),
        )),
        glob_matches(seq!['\\', c] + p, t) <==> t.len() > 0 && t[0] == c && glob_matches(
            p,
            t.skip(1),
        ),
{
    assert((seq![c] + p).skip(1) =~= p);
    assert((seq!['\\', c] + p).skip(2) =~= p);
}

/// The empty pattern matches the empty text only, and `?` any one character.
pub proof fn law_question_marks_match_one_character(p: Seq<char>, t: Seq<char>)
    ensures
        glob_matches(Seq::empty(), t) <==> t.len() == 0,
        glob_matches(seq!['?'] + p, t) <==> t.len() > 0 && glob_matches(p, t.skip(1)),
{
    assert((seq!['?'] + p).skip(1) =~= p);
}

proof fn lemma_star(p: Seq<char>, t: Seq<char>, k: int)
    requires
        0 <= k <= t.len(),
    ensures
        glob_matches(p, t.skip(k)) ==> glob_matches(seq!['*'] + p, t),
    decreases k,
{
    let star = seq!['*'] + p;
    assert(star.skip(1) =~= p);
    if k == 0 {
        assert(t.skip(0) =~= t);
    } else {
        assert(t.skip(1).skip(k - 1) =~= t.skip(k));
        lemma_star(p, t.skip(1), k - 1);
    }
}

proof fn lemma_star_finds(p: Seq<char>, t: Seq<char>) -> (k: int)
    requires
        glob_matches(seq!['*'] + p, t),
    ensures
        0 <= k <= t.len(),
        glob_matches(p, t.skip(k)),
    decreases t.len(),
{
    let star = seq!['*'] + p;
    assert(star.skip(1) =~= p);
    if glob_matches(p, t) {
        assert(t.skip(0) =~= t);
        0
    } else {
        let k = lemma_star_finds(p, t.skip(1));
        assert(t.skip(1).skip(k) =~= t.skip(k + 1));
        k + 1
    }
}

/// `*` matches any part of a text, also an empty one: behind it the rest of the pattern
/// matches what is left behind some place of the text.
pub proof fn law_stars_match_any_part(p: Seq<char>, t: Seq<char>)
    ensures
        glob_matches(seq!['*'] + p, t) <==> exists|k: int|
            0 <= k <= t.len() && glob_matches(p, #[trigger] t.skip(k)),
{
    if glob_matches(seq!['*'] + p, t) {
        let k = lemma_star_finds(p, t);
        assert(glob_matches(p, t.skip(k)));
    }
    if exists|k: int| 0 <= k <= t.len() && glob_matches(p, #[trigger] t.skip(k)) {
        let k = choose|k: int| 0 <= k <= t.len() && glob_matches(p, #[trigger] t.skip(k));
        lemma_star(p, t, k);
    }
}

// ---- brackets -----------------------------------------------------------------------------------

/// Characters that stand for themselves between brackets, wherever they stand.
pub open spec fn is_listed(m: Seq<char>) -> bool {
    forall|k: int| 0 <= k < m.len() ==> (#[trigger] m[k]) != ']' && m[k] != '-' && m[k] != '!'
}

proof fn lemma_members(
    s: Seq<char>,
    i: int,
    start: int,
    j: int,
    c: char,
    found: bool,
)
    requires
        0 <= i <= j < s.len(),
        start <= i,
        s[j] == ']',
        start < j,
        forall|k: int| i <= k < j ==> (#[trigger] s[k]) != ']' && s[k] != '-',
    ensures
        bracket_members(s, i, start, c, found) == Some(
            (j + 1, found || exists|k: int| i <= k < j && #[trigger] s[k] == c),
        ),
    decreases j - i,
{
    if i < j {
        assert(s[i] != ']');
        if i + 1 < j {
            assert(s[i + 1] != '-');
        }
        lemma_members(s, i + 1, start, j, c, found || s[i] == c);
    }
}

/// Between brackets stand the characters that may come; with a `!` in front, those that
/// may not. Exactly one character is matched, and the rest of the pattern matches the rest
/// of the text.
pub proof fn law_brackets_list_characters(m: Seq<char>, p: Seq<char>, t: Seq<char>)
    requires
        is_listed(m),
        m.len() > 0,
    ensures
        glob_matches(seq!['['] + m + seq![']'] + p, t) <==> t.len() > 0 && m.contains(t[0])
            && glob_matches(p, t.skip(1)),
        glob_matches(seq!['[', '!'] + m + seq![']'] + p, t) <==> t.len() > 0 && !m.contains(t[0])
            && glob_matches(p, t.skip(1)),
{
    if t.len() > 0 {
        let c = t[0];
        let s = seq!['['] + m + seq![']'] + p;
        let j = (m.len() + 1) as int;
        assert(s[1] == m[0]);
        assert forall|k: int| 1 <= k < j implies (#[trigger] s[k]) != ']' && s[k] != '-' by {
            assert(s[k] == m[k - 1]);
        }
        assert(s[j] == ']');
        lemma_members(s, 1, 1, j, c, false);
        lemma_contains(s, m, 1, c);
        assert(s.skip(j + 1) =~= p);
        let s = seq!['[', '!'] + m + seq![']'] + p;
        let j = (m.len() + 2) as int;
        assert(s[2] == m[0]);
        assert forall|k: int| 2 <= k < j implies (#[trigger] s[k]) != ']' && s[k] != '-' by {
            assert(s[k] == m[k - 2]);
        }
        assert(s[j] == ']');
        lemma_members(s, 2, 2, j, c, false);
        lemma_contains(s, m, 2, c);
        assert(s.skip(j + 1) =~= p);
    }
}

proof fn lemma_contains(s: Seq<char>, m: Seq<char>, i: int, c: char)
    requires
        0 <= i,
        i + m.len() <= s.len(),
        forall|k: int| i <= k < i + m.len() ==> #[trigger] s[k] == m[k - i],
    ensures
        (exists|k: int| i <= k < i + m.len() && #[trigger] s[k] == c) == m.contains(c),
{
    if m.contains(c) {
        let k = m.index_of(c);
        assert(s[k + i] == c);
    }
    if exists|k: int| i <= k < i + m.len() && #[trigger] s[k] == c {
        let k = choose|k: int| i <= k < i + m.len() && #[trigger] s[k] == c;
        assert(m[k - i] == c);
    }
}

/// Two characters between brackets with a `-` between them are all from the one to the
/// other.
pub proof fn law_brackets_hold_ranges(a: char, b: char, p: Seq<char>, t: Seq<char>)
    requires
        a != ']' && a != '!' && b != ']',
    ensures
        glob_matches(seq!['[', a, '-', b, ']'] + p, t) <==> t.len() > 0 && a <= t[0] <= b
            && glob_matches(p, t.skip(1)),
        glob_matches(seq!['[', '!', a, '-', b, ']'] + p, t) <==> t.len() > 0 && !(a <= t[0] <= b)
            && glob_matches(p, t.skip(1)),
{
    let s = seq!['[', a, '-', b, ']'] + p;
    assert(s.skip(5) =~= p);
    let u = seq!['[', '!', a, '-', b, ']'] + p;
    assert(u.skip(6) =~= p);
    reveal_with_fuel(bracket_members, 3);
}

/// A bracket that is not closed matches nothing.
pub proof fn law_open_brackets_match_nothing(m: Seq<char>, t: Seq<char>)
    requires
        is_listed(m),
    ensures
        !glob_matches(seq!['['] + m, t),
{
    let s = seq!['['] + m;
    if t.len() > 0 {
        assert forall|k: int| 1 <= k < s.len() implies (#[trigger] s[k]) != ']' && s[k] != '-' && s[
            k
        ] != '!' by {
            assert(s[k] == m[k - 1]);
        }
        lemma_never_closed(s, 1, 1, t[0], false);
    }
}

proof fn lemma_never_closed(s: Seq<char>, i: int, start: int, c: char, found: bool)
    requires
        0 <= i,
        forall|k: int| i <= k < s.len() ==> (#[trigger] s[k]) != ']' && s[k] != '-',
    ensures
        bracket_members(s, i, start, c, found) is None,
    decreases s.len() - i,
{
    if i < s.len() {
        assert(s[i] != ']');
        lemma_never_closed(s, i + 1, start, c, found || s[i] == c);
    }
}

// ---- order --------------------------------------------------------------------------------------

/// The order of texts: of two different ones exactly one comes first, a text comes before
/// each longer one that begins with it, and else the first character in which they differ
/// decides.
pub proof fn law_texts_are_ordered_by_their_first_difference(
    front: Seq<char>,
    a: Seq<char>,
    b: Seq<char>,
)
    requires
        a.len() > 0 && b.len() > 0 ==> a[0] != b[0],
    ensures
        text_le(front + a, front + b) <==> a.len() == 0 || (b.len() > 0 && a[0] < b[0]),
    decreases front.len(),
{
    if front.len() == 0 {
        assert(front + a =~= a);
        assert(front + b =~= b);
    } else {
        assert((front + a).skip(1) =~= front.skip(1) + a);
        assert((front + b).skip(1) =~= front.skip(1) + b);
        law_texts_are_ordered_by_their_first_difference(front.skip(1), a, b);
    }
}

} // verus!
