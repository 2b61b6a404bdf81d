//! Characters, text and numbers: the vocabulary that every other module
//! speaks. Text is a sequence of characters throughout; byte offsets appear
//! only where a position is reported to a reader.

use vstd::prelude::*;
use vstd::string::*;

verus! {

/// `String::push` of the standard library: appends one character to the end.
pub assume_specification[ String::push ](s: &mut String, ch: char)
    ensures
        final(s)@ == old(s)@.push(ch),
;

// ---- character classes ----------------------------------------------------

/// An ASCII decimal digit.
#[verifier::allow_in_spec]
pub fn is_digit(c: char) -> bool
    returns
        '0' <= c && c <= '9',
{
    '0' <= c && c <= '9'
}

/// An ASCII letter.
#[verifier::allow_in_spec]
pub fn is_letter(c: char) -> bool
    returns
        ('a' <= c && c <= 'z') || ('A' <= c && c <= 'Z'),
{
    ('a' <= c && c <= 'z') || ('A' <= c && c <= 'Z')
}

/// A character that may start a shell name.
#[verifier::allow_in_spec]
pub fn is_name_start(c: char) -> bool
    returns
        c == '_' || is_letter(c),
{
    c == '_' || is_letter(c)
}

/// A character that may continue a shell name.
#[verifier::allow_in_spec]
pub fn is_name_char(c: char) -> bool
    returns
        c == '_' || is_letter(c) || is_digit(c),
{
    c == '_' || is_letter(c) || is_digit(c)
}

/// The Unicode `White_Space` property.
#[verifier::allow_in_spec]
pub fn is_whitespace(c: char) -> bool
    returns
        ('\u{9}' <= c && c <= '\u{D}') || c == ' ' || c == '\u{85}' || c == '\u{A0}' || c
            == '\u{1680}' || ('\u{2000}' <= c && c <= '\u{200A}') || c == '\u{2028}' || c
            == '\u{2029}' || c == '\u{202F}' || c == '\u{205F}' || c == '\u{3000}',
{
    ('\u{9}' <= c && c <= '\u{D}') || c == ' ' || c == '\u{85}' || c == '\u{A0}' || c == '\u{1680}'
        || ('\u{2000}' <= c && c <= '\u{200A}') || c == '\u{2028}' || c == '\u{2029}' || c
        == '\u{202F}' || c == '\u{205F}' || c == '\u{3000}'
}

/// How many bytes UTF-8 spends on `c`.
#[verifier::allow_in_spec]
pub fn char_width(c: char) -> usize
    returns
        if (c as u32) < 0x80 {
            1usize
        } else if (c as u32) < 0x800 {
            2usize
        } else if (c as u32) < 0x10000 {
            3usize
        } else {
            4usize
        },
{
    let code: u32 = c as u32;
    if code < 0x80 {
        1
    } else if code < 0x800 {
        2
    } else if code < 0x10000 {
        3
    } else {
        4
    }
}

/// `s` is a shell name: a letter or underscore, then letters, digits and
/// underscores.
pub open spec fn is_name(s: Seq<char>) -> bool {
    s.len() > 0 && is_name_start(s[0]) && forall|i: int|
        0 <= i < s.len() ==> is_name_char(#[trigger] s[i])
}

// ---- positions --------------------------------------------------------------

/// The byte offset at which character `i` of `s` starts.
pub open spec fn offset_of(s: Seq<char>, i: int) -> nat
    decreases i,
{
    if i <= 0 {
        0
    } else {
        offset_of(s, i - 1) + char_width(s[i - 1]) as nat
    }
}

/// The number of bytes that `s` takes in UTF-8.
pub open spec fn byte_len(s: Seq<char>) -> nat {
    offset_of(s, s.len() as int)
}

/// Offsets grow with the index: each character is at least one byte wide.
pub proof fn lemma_offset_monotonic(s: Seq<char>, i: int, j: int)
    requires
        0 <= i <= j,
    ensures
        offset_of(s, i) + (j - i) <= offset_of(s, j),
        i < j ==> offset_of(s, i) < offset_of(s, j),
    decreases j - i,
{
    if i < j {
        lemma_offset_monotonic(s, i, j - 1);
    }
}

proof fn lemma_offset_of_tail(s: Seq<char>, i: int)
    requires
        0 < i <= s.len(),
    ensures
        offset_of(s, i) == char_width(s[0]) as nat + offset_of(s.drop_first(), i - 1),
    decreases i,
{
    if i > 1 {
        lemma_offset_of_tail(s, i - 1);
        assert(s.drop_first()[i - 2] == s[i - 1]);
    } else {
        assert(offset_of(s, 0) == 0);
        assert(offset_of(s.drop_first(), 0) == 0);
    }
}

/// Offsets into a tail of `s` are offsets into `s`, counted from the tail.
pub proof fn lemma_offset_in_tail(s: Seq<char>, i: int, k: int)
    requires
        0 <= i,
        0 <= k,
        i + k <= s.len(),
    ensures
        offset_of(s, i) + offset_of(s.subrange(i, s.len() as int), k) == offset_of(s, i + k),
    decreases k,
{
    if k > 0 {
        lemma_offset_in_tail(s, i, k - 1);
        assert(s.subrange(i, s.len() as int)[k - 1] == s[i + k - 1]);
    }
}

/// The byte length agrees with the UTF-8 encoding.
pub proof fn lemma_byte_len_is_encoded_len(s: Seq<char>)
    ensures
        byte_len(s) == vstd::utf8::encode_utf8(s).len(),
    decreases s.len(),
{
    if s.len() > 0 {
        lemma_offset_of_tail(s, s.len() as int);
        lemma_byte_len_is_encoded_len(s.drop_first());
        vstd::utf8::char_is_scalar(s[0]);
        reveal_with_fuel(vstd::utf8::encode_utf8, 2);
    }
}

/// The number of bytes of `s`.
pub fn byte_length(s: &str) -> (r: usize)
    ensures
        r == byte_len(s@),
{
    proof {
        lemma_byte_len_is_encoded_len(s@);
    }
    s.as_bytes().len()
}

// ---- building text ----------------------------------------------------------

/// The characters of `s`.
pub fn chars_of(s: &str) -> (r: Vec<char>)
    ensures
        r@ == s@,
        byte_len(s@) <= usize::MAX,
{
    let bytes = s.as_bytes();
    let count: usize = bytes.len();
    proof {
        lemma_byte_len_is_encoded_len(s@);
    }
    let mut r: Vec<char> = Vec::new();
    for c in it: s.chars()
        invariant
            r@ == it.seq().take(it.index()),
            it.seq() == s@,
    {
        r.push(c);
        assert(it.seq().take(it.index() + 1) =~= it.seq().take(it.index()).push(c));
    }
    assert(r@ =~= s@);
    r
}

/// The characters of `v` from `from` on.
pub fn chars_from(v: &Vec<char>, from: usize) -> (r: Vec<char>)
    requires
        from <= v@.len(),
    ensures
        r@ == v@.subrange(from as int, v@.len() as int),
{
    let mut r: Vec<char> = Vec::new();
    let mut i: usize = from;
    while i < v.len()
        invariant
            from <= i <= v@.len(),
            r@ == v@.subrange(from as int, i as int),
        decreases v@.len() - i,
    {
        r.push(v[i]);
        i = i + 1;
        assert(v@.subrange(from as int, i as int) =~= v@.subrange(from as int, i - 1).push(
            v@[i - 1],
        ));
    }
    r
}

/// The text made of characters `from` to `to` (exclusive) of `v`.
pub fn text_between(v: &Vec<char>, from: usize, to: usize) -> (r: String)
    requires
        from <= to <= v@.len(),
    ensures
        r@ == v@.subrange(from as int, to as int),
{
    let mut r = String::new();
    let mut i: usize = from;
    while i < to
        invariant
            from <= i <= to <= v@.len(),
            r@ == v@.subrange(from as int, i as int),
        decreases to - i,
    {
        r.push(v[i]);
        i = i + 1;
        assert(v@.subrange(from as int, i as int) =~= v@.subrange(from as int, i - 1).push(
            v@[i - 1],
        ));
    }
    r
}

/// The text made of all the characters of `v`.
pub fn text_of(v: &Vec<char>) -> (r: String)
    ensures
        r@ == v@,
{
    let r = text_between(v, 0, v.len());
    assert(v@.subrange(0, v@.len() as int) =~= v@);
    r
}

/// `a`, `b` and `c` one after the other.
pub fn join3(a: &str, b: &str, c: &str) -> (r: String)
    ensures
        r@ == a@ + b@ + c@,
{
    let mut r = a.to_owned();
    r.append(b);
    r.append(c);
    r
}

/// The characters of each text in turn.
pub open spec fn texts(s: Seq<String>) -> Seq<Seq<char>> {
    s.map_values(|t: String| t@)
}

pub broadcast proof fn lemma_texts_push(s: Seq<String>, x: String)
    ensures
        #[trigger] texts(s.push(x)) == texts(s).push(x@),
{
    assert(texts(s.push(x)) =~= texts(s).push(x@));
}

pub broadcast proof fn lemma_texts_empty(s: Seq<String>)
    requires
        s.len() == 0,
    ensures
        #[trigger] texts(s) == Seq::<Seq<char>>::empty(),
{
    assert(texts(s) =~= Seq::<Seq<char>>::empty());
}

/// Whether two texts hold the same characters.
pub fn same_text(a: &str, b: &str) -> (r: bool)
    ensures
        r == (a@ == b@),
{
    a.to_owned() == b.to_owned()
}

/// `a` and then `b`.
pub fn join2(a: &str, b: &str) -> (r: String)
    ensures
        r@ == a@ + b@,
{
    let mut r = a.to_owned();
    r.append(b);
    r
}

/// The ASCII capital for a small letter; any other character as it is.
#[verifier::allow_in_spec]
pub fn upper_char(c: char) -> char
    returns
        (if 'a' <= c && c <= 'z' {
            ((c as u8 - 32) as u8) as char
        } else {
            c
        }),
{
    if 'a' <= c && c <= 'z' {
        (c as u8 - 32) as char
    } else {
        c
    }
}

/// `s` in ASCII capitals.
pub open spec fn upper(s: Seq<char>) -> Seq<char> {
    s.map_values(|c: char| upper_char(c))
}

/// `s` in ASCII capitals.
pub fn to_upper(s: &str) -> (r: String)
    ensures
        r@ == upper(s@),
{
    let v = chars_of(s);
    let mut r = String::new();
    let mut i: usize = 0;
    assert(upper(v@).take(0) =~= r@);
    while i < v.len()
        invariant
            i <= v@.len(),
            r@ == upper(v@).take(i as int),
        decreases v@.len() - i,
    {
        r.push(upper_char(v[i]));
        i += 1;
        assert(upper(v@).take(i as int) =~= upper(v@).take(i - 1).push(upper_char(v@[i - 1])));
    }
    assert(upper(v@).take(i as int) =~= upper(v@));
    r
}

/// The texts of `s` with `sep` between them.
pub open spec fn joined(s: Seq<Seq<char>>, sep: Seq<char>) -> Seq<char>
    decreases s.len(),
{
    if s.len() == 0 {
        Seq::empty()
    } else if s.len() == 1 {
        s[0]
    } else {
        joined(s.drop_last(), sep) + sep + s.last()
    }
}

/// The texts of `v` with `sep` between them.
pub fn join(v: &Vec<String>, sep: &str) -> (r: String)
    ensures
        r@ == joined(texts(v@), sep@),
{
    let ghost all = texts(v@);
    let mut r = String::new();
    let mut i: usize = 0;
    assert(all.take(0) =~= Seq::empty());
    assert(r@ =~= Seq::empty());
    while i < v.len()
        invariant
            i <= v@.len(),
            all == texts(v@),
            r@ == joined(all.take(i as int), sep@),
        decreases v@.len() - i,
    {
        if i > 0 {
            r.append(sep);
        }
        let ghost before = r@;
        r.append(v[i].as_str());
        i += 1;
        assert(all.take(i as int).drop_last() =~= all.take(i - 1));
        assert(all.take(i as int).last() == v@[i - 1]@);
        if i == 1 {
            assert(all.take(0) =~= Seq::empty());
            assert(r@ =~= all.take(1)[0]);
        }
    }
    assert(all.take(all.len() as int) =~= all);
    r
}

/// `s` without every occurrence of `t`.
pub open spec fn without_text(s: Seq<Seq<char>>, t: Seq<char>) -> Seq<Seq<char>>
    decreases s.len(),
{
    if s.len() == 0 {
        Seq::empty()
    } else if s.last() == t {
        without_text(s.drop_last(), t)
    } else {
        without_text(s.drop_last(), t).push(s.last())
    }
}

/// Where `t` occurs once, at `i`, it is the one text that goes.
pub proof fn lemma_without_text(s: Seq<Seq<char>>, t: Seq<char>, i: int)
    requires
        0 <= i <= s.len(),
        i < s.len() ==> s[i] == t,
        forall|k: int| 0 <= k < s.len() && k != i ==> #[trigger] s[k] != t,
    ensures
        without_text(s, t) == (if i < s.len() {
            s.remove(i)
        } else {
            s
        }),
    decreases s.len(),
{
    if s.len() > 0 {
        let front = s.drop_last();
        if i >= s.len() - 1 {
            lemma_without_text(front, t, front.len() as int);
            if i < s.len() {
                assert(s.remove(i) =~= front);
            } else {
                assert(s[s.len() - 1] != t);
                assert(front.push(s.last()) =~= s);
            }
        } else {
            lemma_without_text(front, t, i);
            assert(s[s.len() - 1] != t);
            assert(front.remove(i).push(s.last()) =~= s.remove(i));
        }
    } else {
        assert(s =~= Seq::empty());
    }
}

/// A copy of a list of texts.
pub fn clone_texts(v: &Vec<String>) -> (r: Vec<String>)
    ensures
        texts(r@) == texts(v@),
{
    let mut r: Vec<String> = Vec::new();
    let mut i: usize = 0;
    while i < v.len()
        invariant
            i <= v@.len(),
            r@.len() == i,
            forall|j: int| 0 <= j < i ==> (#[trigger] r@[j])@ == v@[j]@,
        decreases v@.len() - i,
    {
        r.push(v[i].clone());
        i += 1;
    }
    assert(texts(r@) =~= texts(v@));
    r
}

} // verus!
