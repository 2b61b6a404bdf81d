//! How texts are taken apart at the characters of `IFS`.

use vstd::prelude::*;

use super::{
    field_text, flush, has_meta, paths, split, split_all, split_char, split_text, unsplit, Split,
};
use crate::glob::{found, glob_matches, sorted};
use crate::segment::{FieldV, SegmentV};
use crate::text::joined;

verus! {

/// A text that an expansion gave, to be split.
pub open spec fn expanded(t: Seq<char>) -> SegmentV {
    SegmentV { text: t, glob_eligible: true, split_eligible: true, force_field_break_after: false }
}

/// The texts of the fields that a text is split into.
pub open spec fn pieces_of(t: Seq<char>, ifs: Seq<char>) -> Seq<Seq<char>> {
    split(seq![expanded(t)], ifs).map_values(|f: FieldV| field_text(f))
}

/// No character of a text is one of these.
pub open spec fn avoids(t: Seq<char>, ifs: Seq<char>) -> bool {
    forall|k: int| 0 <= k < t.len() ==> !ifs.contains(#[trigger] t[k])
}

proof fn lemma_split_append(st: Split, a: Seq<char>, b: Seq<char>, ifs: Seq<char>, glob: bool)
    ensures
        split_text(st, a + b, ifs, glob) == split_text(split_text(st, a, ifs, glob), b, ifs, glob),
    decreases b.len(),
{
    if b.len() == 0 {
        assert(a + b =~= a);
    } else {
        assert((a + b).drop_last() =~= a + b.drop_last());
        lemma_split_append(st, a, b.drop_last(), ifs, glob);
    }
}

proof fn lemma_split_plain(st: Split, t: Seq<char>, ifs: Seq<char>, glob: bool)
    requires
        avoids(t, ifs),
    ensures
        split_text(st, t, ifs, glob) == (Split { piece: st.piece + t, ..st }),
    decreases t.len(),
{
    if t.len() == 0 {
        assert(st.piece + t =~= st.piece);
    } else {
        let front = t.drop_last();
        assert forall|k: int| 0 <= k < front.len() implies !ifs.contains(#[trigger] front[k]) by {
            assert(front[k] == t[k]);
        }
        lemma_split_plain(st, front, ifs, glob);
        assert(!ifs.contains(t[t.len() - 1]));
        assert((st.piece + front).push(t.last()) =~= st.piece + t);
    }
}

proof fn lemma_one_segment(t: Seq<char>, ifs: Seq<char>)
    ensures
        split_all(seq![expanded(t)], ifs) == flush(split_text(unsplit(), t, ifs, true), true),
{
    let segs = seq![expanded(t)];
    assert(segs.drop_last() =~= Seq::empty());
    reveal_with_fuel(split_all, 2);
}

proof fn lemma_text_of_one(s: SegmentV)
    ensures
        field_text(seq![s]) == s.text,
{
    assert(seq![s].drop_last() =~= Seq::empty());
    reveal_with_fuel(field_text, 2);
    assert(Seq::<char>::empty() + s.text =~= s.text);
}

/// What was read of pieces that a separator joins, before the last of them is ended.
proof fn lemma_joined(pieces: Seq<Seq<char>>, c: char, ifs: Seq<char>)
    requires
        pieces.len() > 0,
        ifs.contains(c),
        forall|k: int|
            0 <= k < pieces.len() ==> (#[trigger] pieces[k]).len() > 0 && avoids(pieces[k], ifs),
    ensures
        split_text(unsplit(), joined(pieces, seq![c]), ifs, true) == (Split {
            fields: pieces.drop_last().map_values(|p: Seq<char>| seq![expanded(p)]),
            current: Seq::empty(),
            has_content: false,
            piece: pieces.last(),
        }),
    decreases pieces.len(),
{
    let last = pieces[pieces.len() - 1];
    let none = Seq::<char>::empty();
    assert(last.len() > 0);
    if pieces.len() == 1 {
        assert(joined(pieces, seq![c]) =~= last) by {
            reveal_with_fuel(joined, 2);
        }
        lemma_split_plain(unsplit(), last, ifs, true);
        assert(none + last =~= last);
        assert(pieces.drop_last().map_values(|p: Seq<char>| seq![expanded(p)]) =~= Seq::empty());
    } else {
        let front = pieces.drop_last();
        assert forall|k: int| 0 <= k < front.len() implies (#[trigger] front[k]).len() > 0
            && avoids(front[k], ifs) by {
            assert(front[k] == pieces[k]);
        }
        lemma_joined(front, c, ifs);
        let text = joined(front, seq![c]);
        assert(joined(pieces, seq![c]) =~= text + seq![c] + last);
        lemma_split_append(unsplit(), text, seq![c], ifs, true);
        lemma_split_append(unsplit(), text + seq![c], last, ifs, true);
        let st = split_text(unsplit(), text, ifs, true);
        assert(seq![c].drop_last() =~= none);
        assert(split_text(st, none, ifs, true) == st);
        assert(split_text(st, seq![c], ifs, true) == split_char(st, c, ifs, true));
        let ended = split_char(st, c, ifs, true);
        assert(front.last().len() > 0);
        let own = seq![expanded(front.last())];
        assert(Seq::<SegmentV>::empty().push(expanded(front.last())) =~= own);
        assert(ended.current =~= Seq::empty());
        assert(ended.fields =~= front.map_values(|p: Seq<char>| seq![expanded(p)]));
        lemma_split_plain(ended, last, ifs, true);
        assert(none + last =~= last);
    }
}

/// Splitting undoes joining: texts that hold no character of `IFS` and are joined by one
/// of them are split into the same texts, in the same order.
pub proof fn law_splitting_undoes_joining(pieces: Seq<Seq<char>>, c: char, ifs: Seq<char>)
    requires
        pieces.len() > 0,
        ifs.contains(c),
        forall|k: int|
            0 <= k < pieces.len() ==> (#[trigger] pieces[k]).len() > 0 && avoids(pieces[k], ifs),
    ensures
        pieces_of(joined(pieces, seq![c]), ifs) == pieces,
{
    let t = joined(pieces, seq![c]);
    lemma_joined(pieces, c, ifs);
    lemma_one_segment(t, ifs);
    assert(pieces[pieces.len() - 1].len() > 0);
    let own = seq![expanded(pieces.last())];
    assert(Seq::<SegmentV>::empty().push(expanded(pieces.last())) =~= own);
    let fields = split(seq![expanded(t)], ifs);
    assert(fields =~= pieces.map_values(|p: Seq<char>| seq![expanded(p)]));
    assert forall|k: int| 0 <= k < pieces.len() implies field_text(#[trigger] fields[k])
        == pieces[k] by {
        lemma_text_of_one(expanded(pieces[k]));
    }
    assert(pieces_of(t, ifs) =~= pieces);
}

/// White space of `IFS` at the end of a text, at its start, and more of it where there is
/// some, makes no fields.
pub proof fn law_white_space_makes_no_fields(t: Seq<char>, u: Seq<char>, c: char, ifs: Seq<char>)
    requires
        ifs.contains(c),
        c == ' ' || c == '\t' || c == '\n',
    ensures
        pieces_of(seq![c] + t, ifs) == pieces_of(t, ifs),
        pieces_of(t + seq![c], ifs) == pieces_of(t, ifs),
        pieces_of(t + seq![c, c] + u, ifs) == pieces_of(t + seq![c] + u, ifs),
{
    let none = Seq::<char>::empty();
    assert(seq![c].drop_last() =~= none);
    lemma_one_segment(seq![c] + t, ifs);
    lemma_one_segment(t, ifs);
    lemma_one_segment(t + seq![c], ifs);
    assert forall|st: Split| #[trigger] split_text(st, seq![c], ifs, true) == split_char(
        st,
        c,
        ifs,
        true,
    ) by {
        assert(split_text(st, none, ifs, true) == st);
    }
    lemma_split_append(unsplit(), seq![c], t, ifs, true);
    assert(split_text(unsplit(), seq![c], ifs, true) == unsplit());
    lemma_split_append(unsplit(), t, seq![c], ifs, true);
    let st = split_text(unsplit(), t, ifs, true);
    assert(split_text(unsplit(), t + seq![c], ifs, true) == split_char(st, c, ifs, true));
    assert(split(seq![expanded(t + seq![c])], ifs) =~= split(seq![expanded(t)], ifs));
    lemma_one_segment(t + seq![c, c] + u, ifs);
    lemma_one_segment(t + seq![c] + u, ifs);
    lemma_split_append(unsplit(), t + seq![c, c], u, ifs, true);
    lemma_split_append(unsplit(), t + seq![c], u, ifs, true);
    assert(t + seq![c, c] =~= t + seq![c] + seq![c]);
    lemma_split_append(unsplit(), t + seq![c], seq![c], ifs, true);
    let once = split_char(st, c, ifs, true);
    assert(split_char(once, c, ifs, true) == once);
}

/// Any other character of `IFS` ends a field each time, also an empty one.
pub proof fn law_other_separators_end_a_field_each(t: Seq<char>, c: char, ifs: Seq<char>)
    requires
        ifs.contains(c),
        c != ' ' && c != '\t' && c != '\n',
    ensures
        t.len() > 0 && avoids(t, ifs) ==> pieces_of(t + seq![c], ifs) == seq![t],
        pieces_of(t + seq![c, c], ifs) == pieces_of(t + seq![c], ifs).push(Seq::empty()),
{
    let none = Seq::<char>::empty();
    assert(seq![c].drop_last() =~= none);
    assert forall|st: Split| #[trigger] split_text(st, seq![c], ifs, true) == split_char(
        st,
        c,
        ifs,
        true,
    ) by {
        assert(split_text(st, none, ifs, true) == st);
    }
    lemma_one_segment(t + seq![c], ifs);
    lemma_one_segment(t + seq![c, c], ifs);
    lemma_split_append(unsplit(), t, seq![c], ifs, true);
    assert(t + seq![c, c] =~= t + seq![c] + seq![c]);
    lemma_split_append(unsplit(), t + seq![c], seq![c], ifs, true);
    let st = split_text(unsplit(), t, ifs, true);
    let once = split_char(st, c, ifs, true);
    let twice = split_char(once, c, ifs, true);
    assert(!once.has_content && once.piece.len() == 0 && once.current.len() == 0);
    assert(once.current =~= Seq::empty());
    assert(twice.fields =~= once.fields.push(Seq::empty()));
    let before = split(seq![expanded(t + seq![c])], ifs);
    let after = split(seq![expanded(t + seq![c, c])], ifs);
    assert(after =~= before.push(Seq::empty()));
    assert(field_text(Seq::<SegmentV>::empty()) == none);
    assert(pieces_of(t + seq![c, c], ifs) =~= pieces_of(t + seq![c], ifs).push(none));
    if t.len() > 0 && avoids(t, ifs) {
        lemma_split_plain(unsplit(), t, ifs, true);
        assert(none + t =~= t);
        assert(Seq::<SegmentV>::empty().push(expanded(t)) =~= seq![expanded(t)]);
        assert(before =~= seq![seq![expanded(t)]]);
        lemma_text_of_one(expanded(t));
        assert(pieces_of(t + seq![c], ifs) =~= seq![t]);
    }
}

/// A text without characters of `IFS` is one field, and an empty text is none.
pub proof fn law_text_without_separators_is_one_field(t: Seq<char>, ifs: Seq<char>)
    requires
        avoids(t, ifs),
    ensures
        pieces_of(t, ifs) == (if t.len() == 0 {
            Seq::empty()
        } else {
            seq![t]
        }),
{
    let none = Seq::<char>::empty();
    lemma_one_segment(t, ifs);
    lemma_split_plain(unsplit(), t, ifs, true);
    assert(none + t =~= t);
    if t.len() > 0 {
        assert(Seq::<SegmentV>::empty().push(expanded(t)) =~= seq![expanded(t)]);
        assert(split(seq![expanded(t)], ifs) =~= seq![seq![expanded(t)]]);
        lemma_text_of_one(expanded(t));
        assert(pieces_of(t, ifs) =~= seq![t]);
    } else {
        assert(split(seq![expanded(t)], ifs) =~= Seq::empty());
        assert(pieces_of(t, ifs) =~= Seq::empty());
    }
}

// ---- files --------------------------------------------------------------------------------------

/// A pattern matches the name of one of these files. A name that begins with a dot is
/// matched only by a pattern that does so too.
pub open spec fn hits(p: Seq<char>, entries: Seq<Seq<char>>, n: Seq<char>) -> bool {
    entries.contains(n) && glob_matches(p, n) && (n.len() == 0 || n[0] != '.' || (p.len() > 0
        && p[0] == '.'))
}

/// A field without an unquoted metacharacter stands for itself, whatever files there are;
/// so does one that matches no file. Any other stands for the names of the files that it
/// matches: all of them, no other, and in order.
pub proof fn law_patterns_stand_for_files(f: FieldV, entries: Seq<Seq<char>>, name: Seq<char>)
    ensures
        ({
            let p = super::field_pattern(f);
            let out = paths(f, entries);
            &&& !has_meta(f) ==> out == seq![field_text(f)]
            &&& (forall|n: Seq<char>| !#[trigger] hits(p, entries, n)) ==> out == seq![
                field_text(f),
            ]
            &&& has_meta(f) && (exists|n: Seq<char>| #[trigger] hits(p, entries, n)) ==> {
                &&& out.contains(name) <==> hits(p, entries, name)
                &&& crate::glob::in_order(out)
            }
        }),
{
    reveal(paths);
    let p = super::field_pattern(f);
    let names = found(p, entries);
    crate::glob::law_sorting_keeps_and_orders(names);
    lemma_found(p, entries, name);
    lemma_sorted_contains(names, name);
    if names.len() > 0 {
        lemma_found(p, entries, names[0]);
        assert(names.contains(names[0]));
        assert(hits(p, entries, names[0]));
    }
    if exists|n: Seq<char>| #[trigger] hits(p, entries, n) {
        let n = choose|n: Seq<char>| #[trigger] hits(p, entries, n);
        lemma_found(p, entries, n);
        assert(names.contains(n));
    }
}

proof fn lemma_found(p: Seq<char>, entries: Seq<Seq<char>>, n: Seq<char>)
    ensures
        found(p, entries).contains(n) == hits(p, entries, n),
    decreases entries.len(),
{
    if entries.len() > 0 {
        let front = entries.drop_last();
        let last = entries[entries.len() - 1];
        lemma_found(p, front, n);
        if entries.contains(n) && n != last {
            let k = entries.index_of(n);
            assert(front[k] == n);
        }
        if front.contains(n) {
            let k = front.index_of(n);
            assert(entries[k] == n);
        }
        assert(entries.contains(last));
        let rest = found(p, front);
        let here = found(p, entries);
        if here.len() > rest.len() {
            assert(here =~= rest.push(last));
            if rest.contains(n) {
                let k = rest.index_of(n);
                assert(here[k] == n);
            }
            assert(here[here.len() - 1] == last);
            if here.contains(n) && n != last {
                let k = here.index_of(n);
                assert(rest[k] == n);
            }
        }
    }
}

proof fn lemma_sorted_contains(names: Seq<Seq<char>>, n: Seq<char>)
    ensures
        sorted(names).contains(n) == names.contains(n),
{
    crate::glob::law_sorting_keeps_and_orders(names);
    assert(sorted(names).to_multiset().count(n) == names.to_multiset().count(n));
    broadcast use vstd::seq_lib::group_to_multiset_ensures;
    assert(sorted(names).contains(n) == (sorted(names).to_multiset().count(n) > 0));
    assert(names.contains(n) == (names.to_multiset().count(n) > 0));
}

// ---- segments side by side ----------------------------------------------------------------------

/// The characters of a text that do not separate fields.
pub open spec fn kept_of(t: Seq<char>, ifs: Seq<char>) -> Seq<char>
    decreases t.len(),
{
    if t.len() == 0 {
        Seq::empty()
    } else if ifs.contains(t.last()) {
        kept_of(t.drop_last(), ifs)
    } else {
        kept_of(t.drop_last(), ifs).push(t.last())
    }
}

/// The characters of the segments without the separators in what is to be split.
pub open spec fn all_kept(segs: FieldV, ifs: Seq<char>) -> Seq<char>
    decreases segs.len(),
{
    if segs.len() == 0 {
        Seq::empty()
    } else {
        all_kept(segs.drop_last(), ifs) + (if segs.last().split_eligible {
            kept_of(segs.last().text, ifs)
        } else {
            segs.last().text
        })
    }
}

/// The fields, one behind the other.
pub open spec fn in_a_row(fields: Seq<FieldV>) -> Seq<char>
    decreases fields.len(),
{
    if fields.len() == 0 {
        Seq::empty()
    } else {
        in_a_row(fields.drop_last()) + field_text(fields.last())
    }
}

spec fn whole(st: Split) -> Seq<char> {
    in_a_row(st.fields) + field_text(st.current) + st.piece
}

spec fn has_what_it_says(st: Split) -> bool {
    !st.has_content ==> st.current.len() == 0
}

proof fn lemma_close_keeps(st: Split)
    requires
        st.piece.len() == 0,
    ensures
        whole(super::close(st)) == whole(st),
        has_what_it_says(super::close(st)),
{
    let fields = st.fields.push(st.current);
    assert(fields.drop_last() =~= st.fields);
    assert(field_text(Seq::<SegmentV>::empty()) =~= Seq::<char>::empty());
    assert(whole(super::close(st)) =~= whole(st));
}

proof fn lemma_flush_keeps(st: Split, glob: bool)
    requires
        has_what_it_says(st),
    ensures
        whole(flush(st, glob)) == whole(st),
        has_what_it_says(flush(st, glob)),
        flush(st, glob).piece.len() == 0,
{
    if st.piece.len() > 0 {
        let after = flush(st, glob);
        assert(after.current.drop_last() =~= st.current);
        assert(whole(after) =~= whole(st));
    }
}

proof fn lemma_text_keeps(st: Split, t: Seq<char>, ifs: Seq<char>, glob: bool)
    requires
        has_what_it_says(st),
    ensures
        whole(split_text(st, t, ifs, glob)) == whole(st) + kept_of(t, ifs),
        has_what_it_says(split_text(st, t, ifs, glob)),
    decreases t.len(),
{
    if t.len() == 0 {
        assert(whole(st) + kept_of(t, ifs) =~= whole(st));
    } else {
        let front = t.drop_last();
        let before = split_text(st, front, ifs, glob);
        lemma_text_keeps(st, front, ifs, glob);
        if ifs.contains(t.last()) {
            lemma_flush_keeps(before, glob);
            lemma_close_keeps(flush(before, glob));
        } else {
            let after = split_char(before, t.last(), ifs, glob);
            assert(after.piece == before.piece.push(t.last()));
            assert(whole(after) =~= whole(before).push(t.last()));
            assert((whole(st) + kept_of(front, ifs)).push(t.last()) =~= whole(st) + kept_of(
                front,
                ifs,
            ).push(t.last()));
        }
    }
}

proof fn lemma_segments_keep(segs: FieldV, ifs: Seq<char>)
    ensures
        whole(split_all(segs, ifs)) == all_kept(segs, ifs),
        has_what_it_says(split_all(segs, ifs)),
        split_all(segs, ifs).piece.len() == 0,
    decreases segs.len(),
{
    if segs.len() == 0 {
        assert(whole(unsplit()) =~= Seq::<char>::empty());
    } else {
        let seg = segs.last();
        let before = split_all(segs.drop_last(), ifs);
        lemma_segments_keep(segs.drop_last(), ifs);
        let added = if seg.split_eligible {
            flush(split_text(before, seg.text, ifs, seg.glob_eligible), seg.glob_eligible)
        } else {
            Split { current: before.current.push(seg), has_content: true, ..before }
        };
        if seg.split_eligible {
            let st = split_text(before, seg.text, ifs, seg.glob_eligible);
            lemma_text_keeps(before, seg.text, ifs, seg.glob_eligible);
            lemma_flush_keeps(st, seg.glob_eligible);
        } else {
            assert(before.current.push(seg).drop_last() =~= before.current);
            assert(whole(added) =~= whole(before) + seg.text);
        }
        lemma_close_keeps(added);
    }
}

/// Splitting drops the separators in what an expansion gave and nothing else: the fields,
/// one behind the other, hold every other character, in its order, and what was quoted or
/// written as it is whole.
pub proof fn law_splitting_drops_only_separators(segs: FieldV, ifs: Seq<char>)
    ensures
        in_a_row(split(segs, ifs)) == all_kept(segs, ifs),
{
    let st = split_all(segs, ifs);
    lemma_segments_keep(segs, ifs);
    if st.has_content {
        assert(st.fields.push(st.current).drop_last() =~= st.fields);
        assert(in_a_row(split(segs, ifs)) =~= whole(st));
    } else {
        assert(field_text(st.current) =~= Seq::<char>::empty());
        assert(in_a_row(split(segs, ifs)) =~= whole(st));
    }
}

/// What stands beside an expansion without a separator between them belongs to the same
/// field: text in front of it is in front of its first field, and text behind it is behind
/// its last.
pub proof fn law_text_beside_an_expansion_joins_it(
    front: SegmentV,
    back: SegmentV,
    a: Seq<char>,
    b: Seq<char>,
    c: char,
    ifs: Seq<char>,
)
    requires
        !front.split_eligible && !front.force_field_break_after,
        !back.split_eligible && !back.force_field_break_after,
        a.len() > 0 && avoids(a, ifs),
        b.len() > 0 && avoids(b, ifs),
        ifs.contains(c),
    ensures
        split(seq![front, expanded(a + seq![c] + b), back], ifs).map_values(
            |f: FieldV| field_text(f),
        ) == seq![front.text + a, b + back.text],
{
    let t = a + seq![c] + b;
    let middle = expanded(t);
    let one = seq![front];
    let two = seq![front, middle];
    let three = seq![front, middle, back];
    let none = Seq::<char>::empty();
    assert(one.drop_last() =~= Seq::<SegmentV>::empty());
    assert(two.drop_last() =~= one);
    assert(three.drop_last() =~= two);
    let st = Split { current: one, has_content: true, ..unsplit() };
    assert(split_all(Seq::<SegmentV>::empty(), ifs) == unsplit());
    assert(Seq::<SegmentV>::empty().push(front) =~= one);
    assert(split_all(one, ifs) == st);
    lemma_split_append(st, a + seq![c], b, ifs, true);
    lemma_split_append(st, a, seq![c], ifs, true);
    lemma_split_plain(st, a, ifs, true);
    assert(none + a =~= a);
    let after_a = Split { piece: a, ..st };
    assert(seq![c].drop_last() =~= none);
    assert(split_text(after_a, none, ifs, true) == after_a);
    assert(split_text(after_a, seq![c], ifs, true) == split_char(after_a, c, ifs, true));
    let after_c = split_char(after_a, c, ifs, true);
    let first = seq![front, expanded(a)];
    assert(one.push(expanded(a)) =~= first);
    assert(Seq::<FieldV>::empty().push(first) =~= seq![first]);
    assert(after_c == (Split { fields: seq![first], ..unsplit() }));
    lemma_split_plain(after_c, b, ifs, true);
    assert(none + b =~= b);
    let second = seq![expanded(b), back];
    assert(Seq::<SegmentV>::empty().push(expanded(b)) =~= seq![expanded(b)]);
    assert(seq![expanded(b)].push(back) =~= second);
    assert(split_all(two, ifs).current == seq![expanded(b)]);
    assert(split_all(three, ifs).current == second);
    assert(split(three, ifs) =~= seq![first, second]);
    reveal_with_fuel(field_text, 3);
    assert(first.drop_last() =~= one);
    assert(second.drop_last() =~= seq![expanded(b)]);
    assert(seq![expanded(b)].drop_last() =~= Seq::<SegmentV>::empty());
    assert(field_text(first) =~= front.text + a);
    assert(field_text(second) =~= b + back.text);
    assert(split(three, ifs).map_values(|f: FieldV| field_text(f)) =~= seq![
        front.text + a,
        b + back.text,
    ]);
}

} // verus!
