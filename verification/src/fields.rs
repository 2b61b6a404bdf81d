//! Field splitting and pathname expansion of expanded words.
//!
//! An expanded word is a list of segments that remember how they were quoted.
//! Only the unquoted result of an expansion is split at the characters of
//! `IFS`; literal text is not, but its unquoted metacharacters still match
//! file names.

use vstd::prelude::*;

use crate::glob::{found, glob_match_entries, is_meta, pattern_of, push_pattern, sort_texts, sorted};
use crate::segment::{field_view, fields_view, group_field_views, FieldV, Segment, SegmentV};
use crate::text::{chars_of, lemma_texts_empty, lemma_texts_push, texts};

pub mod laws;

verus! {

broadcast use {lemma_texts_push, lemma_texts_empty, group_field_views};

// ---- splitting: the rules ---------------------------------------------------------------

/// How far splitting has come.
pub ghost struct Split {
    /// The fields that are complete.
    pub fields: Seq<FieldV>,
    /// The field under way.
    pub current: FieldV,
    /// The field under way counts, even if it is empty.
    pub has_content: bool,
    /// The characters of the segment under way that belong to the field.
    pub piece: Seq<char>,
}

/// Adds the piece under way to the field under way.
pub open spec fn flush(st: Split, glob_eligible: bool) -> Split {
    if st.piece.len() == 0 {
        st
    } else {
        Split {
            current: st.current.push(
                SegmentV {
                    text: st.piece,
                    glob_eligible,
                    split_eligible: true,
                    force_field_break_after: false,
                },
            ),
            has_content: true,
            piece: Seq::empty(),
            ..st
        }
    }
}

/// Ends the field under way.
pub open spec fn close(st: Split) -> Split {
    Split {
        fields: st.fields.push(st.current),
        current: Seq::empty(),
        has_content: false,
        ..st
    }
}

/// A character that `IFS` treats as white space.
#[verifier::allow_in_spec]
pub fn is_ifs_space(c: char) -> bool
    returns
        c == ' ' || c == '\t' || c == '\n',
{
    c == ' ' || c == '\t' || c == '\n'
}

/// One character of a segment that is split. A run of `IFS` white space ends a
/// field that counts; any other `IFS` character ends a field even if it is
/// empty.
pub open spec fn split_char(st: Split, c: char, ifs: Seq<char>, glob_eligible: bool) -> Split {
    if !ifs.contains(c) {
        Split { piece: st.piece.push(c), ..st }
    } else {
        let flushed = flush(st, glob_eligible);
        if is_ifs_space(c) && !flushed.has_content {
            flushed
        } else {
            close(flushed)
        }
    }
}

/// The characters of a segment that is split, in order.
pub open spec fn split_text(st: Split, t: Seq<char>, ifs: Seq<char>, glob_eligible: bool) -> Split
    decreases t.len(),
{
    if t.len() == 0 {
        st
    } else {
        split_char(split_text(st, t.drop_last(), ifs, glob_eligible), t.last(), ifs, glob_eligible)
    }
}

/// One segment.
pub open spec fn split_segment(st: Split, seg: SegmentV, ifs: Seq<char>) -> Split {
    let added = if seg.split_eligible {
        flush(split_text(st, seg.text, ifs, seg.glob_eligible), seg.glob_eligible)
    } else {
        Split { current: st.current.push(seg), has_content: true, ..st }
    };
    if seg.force_field_break_after && added.has_content {
        close(added)
    } else {
        added
    }
}

/// Nothing split yet.
pub open spec fn unsplit() -> Split {
    Split {
        fields: Seq::empty(),
        current: Seq::empty(),
        has_content: false,
        piece: Seq::empty(),
    }
}

/// All segments, in order.
pub open spec fn split_all(segs: FieldV, ifs: Seq<char>) -> Split
    decreases segs.len(),
{
    if segs.len() == 0 {
        unsplit()
    } else {
        split_segment(split_all(segs.drop_last(), ifs), segs.last(), ifs)
    }
}

/// The fields of an expanded word.
pub open spec fn split(segs: FieldV, ifs: Seq<char>) -> Seq<FieldV> {
    let st = split_all(segs, ifs);
    if st.has_content {
        st.fields.push(st.current)
    } else {
        st.fields
    }
}

// ---- pathname expansion: the rules --------------------------------------------------------

/// The text of a field.
pub open spec fn field_text(f: FieldV) -> Seq<char>
    decreases f.len(),
{
    if f.len() == 0 {
        Seq::empty()
    } else {
        field_text(f.drop_last()) + f.last().text
    }
}

/// The pattern that a field writes.
pub open spec fn field_pattern(f: FieldV) -> Seq<char>
    decreases f.len(),
{
    if f.len() == 0 {
        Seq::empty()
    } else {
        field_pattern(f.drop_last()) + pattern_of(f.last().text, f.last().glob_eligible)
    }
}

/// A text holds a metacharacter.
pub open spec fn text_has_meta(t: Seq<char>) -> bool {
    exists|i: int| 0 <= i < t.len() && is_meta(#[trigger] t[i])
}

/// A field holds an unquoted metacharacter.
#[verifier::opaque]
pub open spec fn has_meta(f: FieldV) -> bool {
    exists|i: int|
        0 <= i < f.len() && (#[trigger] f[i]).glob_eligible && text_has_meta(f[i].text)
}

/// What a field becomes in a directory that holds `entries`: the names that it
/// matches, in order, or its own text where it matches none.
#[verifier::opaque]
pub open spec fn paths(f: FieldV, entries: Seq<Seq<char>>) -> Seq<Seq<char>> {
    let names = found(field_pattern(f), entries);
    if has_meta(f) && names.len() > 0 {
        sorted(names)
    } else {
        seq![field_text(f)]
    }
}

// ---- splitting --------------------------------------------------------------------------

/// Splitting under way.
struct Splitter {
    fields: Vec<Vec<Segment>>,
    current: Vec<Segment>,
    has_content: bool,
    piece: String,
}

impl View for Splitter {
    type V = Split;

    closed spec fn view(&self) -> Split {
        Split {
            fields: fields_view(self.fields@),
            current: field_view(self.current@),
            has_content: self.has_content,
            piece: self.piece@,
        }
    }
}

impl Splitter {
    fn flush(&mut self, glob_eligible: bool)
        ensures
            final(self)@ == flush(old(self)@, glob_eligible),
    {
        if !self.piece.as_str().is_empty() {
            let mut text = String::new();
            core::mem::swap(&mut text, &mut self.piece);
            self.current.push(
                Segment {
                    text,
                    glob_eligible,
                    split_eligible: true,
                    force_field_break_after: false,
                },
            );
            self.has_content = true;
            assert(self.piece@ =~= Seq::empty());
        }
    }

    fn close(&mut self)
        ensures
            final(self)@ == close(old(self)@),
    {
        let mut field: Vec<Segment> = Vec::new();
        core::mem::swap(&mut field, &mut self.current);
        self.fields.push(field);
        self.has_content = false;
    }

    fn split_text(&mut self, t: &str, ifs: &Vec<char>, glob_eligible: bool)
        ensures
            final(self)@ == split_text(old(self)@, t@, ifs@, glob_eligible),
    {
        let v = chars_of(t);
        let ghost start = self@;
        let mut i: usize = 0;
        assert(v@.take(0) =~= Seq::empty());
        while i < v.len()
            invariant
                i <= v@.len(),
                self@ == split_text(start, v@.take(i as int), ifs@, glob_eligible),
            decreases v@.len() - i,
        {
            let c = v[i];
            if !contains_char(ifs, c) {
                self.piece.push(c);
            } else {
                self.flush(glob_eligible);
                if self.has_content || !is_ifs_space(c) {
                    self.close();
                }
            }
            i += 1;
            assert(v@.take(i as int).drop_last() =~= v@.take(i - 1));
        }
        assert(v@.take(v@.len() as int) =~= t@);
    }

    fn split_segment(&mut self, seg: Segment, ifs: &Vec<char>)
        ensures
            final(self)@ == split_segment(old(self)@, seg@, ifs@),
    {
        let force_break = seg.force_field_break_after;
        if seg.split_eligible {
            self.split_text(seg.text.as_str(), ifs, seg.glob_eligible);
            self.flush(seg.glob_eligible);
        } else {
            self.current.push(seg);
            self.has_content = true;
        }
        if force_break && self.has_content {
            self.close();
        }
    }
}

/// Whether `c` is one of the characters of `v`.
fn contains_char(v: &Vec<char>, c: char) -> (r: bool)
    ensures
        r == v@.contains(c),
{
    let mut i: usize = 0;
    while i < v.len()
        invariant
            i <= v@.len(),
            forall|k: int| 0 <= k < i ==> v@[k] != c,
        decreases v@.len() - i,
    {
        if v[i] == c {
            assert(v@[i as int] == c);
            return true;
        }
        i += 1;
    }
    false
}

/// Splits the segments of an expanded word into fields at the characters of
/// `ifs`.
pub fn split_fields(segments: Vec<Segment>, ifs: &str) -> (r: Vec<Vec<Segment>>)
    ensures
        fields_view(r@) == split(field_view(segments@), ifs@),
{
    let ifs_chars = chars_of(ifs);
    let mut splitter = Splitter {
        fields: Vec::new(),
        current: Vec::new(),
        has_content: false,
        piece: String::new(),
    };
    let ghost all = field_view(segments@);
    let mut i: usize = 0;
    assert(all.take(0) =~= Seq::empty());
    assert(splitter@.fields =~= Seq::empty());
    assert(splitter@.piece =~= Seq::empty());
    while i < segments.len()
        invariant
            i <= segments@.len(),
            all == field_view(segments@),
            splitter@ == split_all(all.take(i as int), ifs_chars@),
        decreases segments@.len() - i,
    {
        let seg = segments[i].clone();
        splitter.split_segment(seg, &ifs_chars);
        i += 1;
        assert(all.take(i as int).drop_last() =~= all.take(i - 1));
    }
    assert(all.take(all.len() as int) =~= all);
    if splitter.has_content {
        splitter.close();
    }
    splitter.fields
}

// ---- pathname expansion -------------------------------------------------------------------

/// The text of a field.
pub fn text_of_field(field: &Vec<Segment>) -> (r: String)
    ensures
        r@ == field_text(field_view(field@)),
{
    let ghost all = field_view(field@);
    let mut r = String::new();
    let mut i: usize = 0;
    assert(all.take(0) =~= Seq::empty());
    assert(r@ =~= Seq::empty());
    while i < field.len()
        invariant
            i <= field@.len(),
            all == field_view(field@),
            r@ == field_text(all.take(i as int)),
        decreases field@.len() - i,
    {
        r.append(field[i].text.as_str());
        i += 1;
        assert(all.take(i as int).drop_last() =~= all.take(i - 1));
    }
    assert(all.take(all.len() as int) =~= all);
    r
}

/// The pattern that a field writes: quoted metacharacters are escaped.
pub fn build_glob_pattern(field: &Vec<Segment>) -> (r: String)
    ensures
        r@ == field_pattern(field_view(field@)),
{
    let ghost all = field_view(field@);
    let mut r = String::new();
    let mut i: usize = 0;
    assert(all.take(0) =~= Seq::empty());
    assert(r@ =~= Seq::empty());
    while i < field.len()
        invariant
            i <= field@.len(),
            all == field_view(field@),
            r@ == field_pattern(all.take(i as int)),
        decreases field@.len() - i,
    {
        push_pattern(&mut r, field[i].text.as_str(), field[i].glob_eligible);
        i += 1;
        assert(all.take(i as int).drop_last() =~= all.take(i - 1));
    }
    assert(all.take(all.len() as int) =~= all);
    r
}

/// Whether a text holds a metacharacter.
fn contains_meta(t: &str) -> (r: bool)
    ensures
        r == text_has_meta(t@),
{
    let v = chars_of(t);
    let mut i: usize = 0;
    while i < v.len()
        invariant
            i <= v@.len(),
            v@ == t@,
            forall|k: int| 0 <= k < i ==> !is_meta(#[trigger] v@[k]),
        decreases v@.len() - i,
    {
        if is_meta(v[i]) {
            assert(is_meta(t@[i as int]));
            return true;
        }
        i += 1;
    }
    false
}

/// Whether a field holds an unquoted metacharacter.
pub fn has_unquoted_meta(field: &Vec<Segment>) -> (r: bool)
    ensures
        r == has_meta(field_view(field@)),
{
    reveal(has_meta);
    let ghost all = field_view(field@);
    let mut i: usize = 0;
    while i < field.len()
        invariant
            i <= field@.len(),
            all == field_view(field@),
            forall|k: int|
                0 <= k < i ==> !((#[trigger] all[k]).glob_eligible && text_has_meta(all[k].text)),
        decreases field@.len() - i,
    {
        let here = field[i].glob_eligible && contains_meta(field[i].text.as_str());
        assert(all[i as int] == field@[i as int]@);
        if here {
            reveal(has_meta);
            return true;
        }
        i += 1;
    }
    false
}

/// Expands one field in a directory that holds `entries`.
pub fn glob_field(field: &Vec<Segment>, entries: &Vec<String>) -> (r: Vec<String>)
    ensures
        texts(r@) == paths(field_view(field@), texts(entries@)),
{
    reveal(paths);
    if has_unquoted_meta(field) {
        let pattern = build_glob_pattern(field);
        let matches = glob_match_entries(pattern.as_str(), entries);
        assert(texts(matches@).len() == matches@.len());
        if matches.len() > 0 {
            return sort_texts(matches);
        }
    }
    let mut r: Vec<String> = Vec::new();
    r.push(text_of_field(field));
    assert(texts(r@) =~= seq![field_text(field_view(field@))]);
    r
}

// ---- laws -------------------------------------------------------------------------------

proof fn lemma_unsplit_segments(segs: FieldV, ifs: Seq<char>)
    requires
        forall|i: int|
            0 <= i < segs.len() ==> !(#[trigger] segs[i]).split_eligible
                && !segs[i].force_field_break_after,
    ensures
        split_all(segs, ifs) == (Split {
            fields: Seq::empty(),
            current: segs,
            has_content: segs.len() > 0,
            piece: Seq::empty(),
        }),
    decreases segs.len(),
{
    if segs.len() == 0 {
        assert(segs =~= Seq::empty());
    } else {
        lemma_unsplit_segments(segs.drop_last(), ifs);
        assert(segs[segs.len() - 1] == segs.last());
        assert(segs.drop_last().push(segs.last()) =~= segs);
    }
}

/// Literal and quoted text is never split: whatever `IFS` holds, such a word is
/// one field, with all of its segments.
pub proof fn law_literal_and_quoted_text_is_not_split(segs: FieldV, ifs: Seq<char>)
    requires
        segs.len() > 0,
        forall|i: int|
            0 <= i < segs.len() ==> !(#[trigger] segs[i]).split_eligible
                && !segs[i].force_field_break_after,
    ensures
        split(segs, ifs) == seq![segs],
{
    lemma_unsplit_segments(segs, ifs);
    assert(split(segs, ifs) =~= seq![segs]);
}

/// No `IFS` character is left in the split pieces of a field.
pub open spec fn field_is_split(f: FieldV, ifs: Seq<char>) -> bool {
    forall|i: int, k: int|
        0 <= i < f.len() && (#[trigger] f[i]).split_eligible && 0 <= k < f[i].text.len()
            ==> !ifs.contains(#[trigger] f[i].text[k])
}

spec fn is_split(st: Split, ifs: Seq<char>) -> bool {
    &&& forall|n: int| 0 <= n < st.fields.len() ==> field_is_split(#[trigger] st.fields[n], ifs)
    &&& field_is_split(st.current, ifs)
    &&& forall|k: int| 0 <= k < st.piece.len() ==> !ifs.contains(#[trigger] st.piece[k])
}

proof fn lemma_flush_is_split(st: Split, ifs: Seq<char>, glob_eligible: bool)
    requires
        is_split(st, ifs),
    ensures
        is_split(flush(st, glob_eligible), ifs),
{
    let after = flush(st, glob_eligible);
    if st.piece.len() > 0 {
        assert forall|i: int, k: int|
            0 <= i < after.current.len() && (#[trigger] after.current[i]).split_eligible && 0 <= k
                < after.current[i].text.len() implies !ifs.contains(
            #[trigger] after.current[i].text[k],
        ) by {
            if i < st.current.len() {
                assert(after.current[i] == st.current[i]);
            } else {
                assert(after.current[i].text == st.piece);
            }
        }
    }
}

proof fn lemma_split_text_is_split(st: Split, t: Seq<char>, ifs: Seq<char>, glob_eligible: bool)
    requires
        is_split(st, ifs),
    ensures
        is_split(split_text(st, t, ifs, glob_eligible), ifs),
    decreases t.len(),
{
    if t.len() > 0 {
        let before = split_text(st, t.drop_last(), ifs, glob_eligible);
        lemma_split_text_is_split(st, t.drop_last(), ifs, glob_eligible);
        lemma_flush_is_split(before, ifs, glob_eligible);
    }
}

proof fn lemma_split_all_is_split(segs: FieldV, ifs: Seq<char>)
    ensures
        is_split(split_all(segs, ifs), ifs),
        split_all(segs, ifs).piece.len() == 0,
    decreases segs.len(),
{
    if segs.len() > 0 {
        let before = split_all(segs.drop_last(), ifs);
        let seg = segs.last();
        lemma_split_all_is_split(segs.drop_last(), ifs);
        if seg.split_eligible {
            let read = split_text(before, seg.text, ifs, seg.glob_eligible);
            lemma_split_text_is_split(before, seg.text, ifs, seg.glob_eligible);
            lemma_flush_is_split(read, ifs, seg.glob_eligible);
        } else {
            let after = before.current.push(seg);
            assert forall|i: int, k: int|
                0 <= i < after.len() && (#[trigger] after[i]).split_eligible && 0 <= k
                    < after[i].text.len() implies !ifs.contains(#[trigger] after[i].text[k]) by {
                assert(after[i] == before.current[i]);
            }
        }
    }
}

/// Splitting is complete: no piece of a field that came from an unquoted
/// expansion holds an `IFS` character.
pub proof fn law_splitting_is_complete(segs: FieldV, ifs: Seq<char>, n: int)
    requires
        0 <= n < split(segs, ifs).len(),
    ensures
        field_is_split(split(segs, ifs)[n], ifs),
{
    lemma_split_all_is_split(segs, ifs);
}

} // verus!
