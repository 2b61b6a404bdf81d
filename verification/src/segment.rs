//! The pieces of an expanded word, with what their quoting allows.

use vstd::prelude::*;

verus! {

/// One piece of an expanded word.
#[derive(Debug, PartialEq, Eq)]
pub struct Segment {
    pub text: String,
    /// Unquoted: `*`, `?` and `[` are special.
    pub glob_eligible: bool,
    /// The unquoted result of an expansion: it is split at `IFS` characters.
    pub split_eligible: bool,
    /// A field ends behind this piece whatever follows.
    pub force_field_break_after: bool,
}

/// View of [`Segment`].
#[verifier::ext_equal]
pub ghost struct SegmentV {
    pub text: Seq<char>,
    pub glob_eligible: bool,
    pub split_eligible: bool,
    pub force_field_break_after: bool,
}

impl View for Segment {
    type V = SegmentV;

    open spec fn view(&self) -> SegmentV {
        SegmentV {
            text: self.text@,
            glob_eligible: self.glob_eligible,
            split_eligible: self.split_eligible,
            force_field_break_after: self.force_field_break_after,
        }
    }
}

/// A field before pathname expansion.
pub type FieldV = Seq<SegmentV>;

/// The views of a list of segments.
pub open spec fn field_view(s: Seq<Segment>) -> FieldV {
    s.map_values(|x: Segment| x@)
}

/// The views of a list of fields.
pub open spec fn fields_view(s: Seq<Vec<Segment>>) -> Seq<FieldV> {
    s.map_values(|x: Vec<Segment>| field_view(x@))
}

pub broadcast proof fn lemma_field_view_push(s: Seq<Segment>, x: Segment)
    ensures
        #[trigger] field_view(s.push(x)) == field_view(s).push(x@),
{
    assert(field_view(s.push(x)) =~= field_view(s).push(x@));
}

pub broadcast proof fn lemma_field_view_empty(s: Seq<Segment>)
    requires
        s.len() == 0,
    ensures
        #[trigger] field_view(s) == Seq::<SegmentV>::empty(),
{
    assert(field_view(s) =~= Seq::<SegmentV>::empty());
}

pub broadcast proof fn lemma_fields_view_push(s: Seq<Vec<Segment>>, x: Vec<Segment>)
    ensures
        #[trigger] fields_view(s.push(x)) == fields_view(s).push(field_view(x@)),
{
    assert(fields_view(s.push(x)) =~= fields_view(s).push(field_view(x@)));
}

pub broadcast group group_field_views {
    lemma_field_view_push,
    lemma_field_view_empty,
    lemma_fields_view_push,
}

impl Clone for Segment {
    fn clone(&self) -> (r: Self)
        ensures
            r@ == self@,
    {
        Segment {
            text: self.text.clone(),
            glob_eligible: self.glob_eligible,
            split_eligible: self.split_eligible,
            force_field_break_after: self.force_field_break_after,
        }
    }
}

} // verus!
