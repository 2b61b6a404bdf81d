//! That parsing loses nothing of what was written.

use vstd::prelude::*;

use super::grammar::assignment;
use crate::ast::AssignmentV;
use crate::lexer::laws::literals_merged;
use crate::lexer::rules::name_end;
use crate::text::{is_name, is_name_char};
use crate::token::{WordSegmentV, WordV};

verus! {

// ---- assignments --------------------------------------------------------------------------------

/// The word that an assignment is written with: its name, `=`, and its value behind it in
/// the same literal, if that begins with one.
pub open spec fn written_assignment(a: AssignmentV) -> WordV {
    let front = a.name + seq!['='];
    if a.value.len() > 0 && a.value[0] is Literal {
        a.value.update(0, WordSegmentV::Literal(front + a.value[0]->Literal_0))
    } else {
        seq![WordSegmentV::Literal(front)] + a.value
    }
}

proof fn lemma_name_end_in(t: Seq<char>, i: int, n: int)
    requires
        0 <= i <= n <= t.len(),
        forall|k: int| i <= k < n ==> is_name_char(#[trigger] t[k]),
        n < t.len() ==> !is_name_char(t[n]),
    ensures
        name_end(t, i) == n,
    decreases n - i,
{
    if i < n {
        assert(is_name_char(t[i]));
        lemma_name_end_in(t, i + 1, n);
    }
}

/// An assignment loses nothing of its word: its name, `=` and its value are the word again.
/// Its value has all segments of the word behind the first one, in order.
pub proof fn law_assignments_lose_nothing(w: WordV)
    ensures
        assignment(w) matches Some(a) ==> {
            &&& is_name(a.name)
            &&& w.len() > 0 && w[0] is Literal
            &&& a.value.len() >= w.len() - 1
            &&& a.value.skip(a.value.len() - (w.len() - 1)) == w.skip(1)
            &&& literals_merged(w) ==> written_assignment(a) == w
        },
{
    reveal(assignment);
    if let Some(a) = assignment(w) {
        let t = w[0]->Literal_0;
        let k = name_end(t, 0);
        crate::lexer::rules::lemma_name_end(t, 0);
        let rest = t.subrange(k + 1, t.len() as int);
        assert forall|i: int| 0 <= i < a.name.len() implies is_name_char(#[trigger] a.name[i]) by {
            assert(a.name[i] == t[i]);
        }
        assert(k > 0) by {
            crate::lexer::rules::lemma_name_end(t, 1);
        }
        assert(a.name + seq!['='] + rest =~= t);
        if rest.len() == 0 {
            assert(a.name + seq!['='] =~= t);
            assert(a.value =~= w.skip(1));
            assert(a.value.skip(0) =~= w.skip(1));
            if a.value.len() > 0 {
                assert(w[1] == a.value[0]);
            }
            assert(literals_merged(w) ==> !(a.value.len() > 0 && a.value[0] is Literal));
            assert(seq![w[0]] + w.skip(1) =~= w);
        } else {
            assert(a.value.skip(1) =~= w.skip(1));
            assert(a.value.update(0, w[0]) =~= w);
        }
    }
}

/// A word whose first literal begins with a name and `=` is an assignment to that name.
pub proof fn law_names_before_equals_signs_are_assigned_to(
    name: Seq<char>,
    rest: Seq<char>,
    more: WordV,
)
    requires
        is_name(name),
    ensures
        ({
            let w = seq![WordSegmentV::Literal(name + seq!['='] + rest)] + more;
            assignment(w) matches Some(a) && a.name == name && a.value == (if rest.len() == 0 {
                more
            } else {
                seq![WordSegmentV::Literal(rest)] + more
            })
        }),
{
    reveal(assignment);
    let t = name + seq!['='] + rest;
    let n = name.len() as int;
    let w = seq![WordSegmentV::Literal(t)] + more;
    assert(w[0] == WordSegmentV::Literal(t));
    assert forall|k: int| 0 <= k < n implies is_name_char(#[trigger] t[k]) by {
        assert(t[k] == name[k]);
        assert(is_name_char(name[k]));
    }
    assert(t[n] == '=');
    assert(t[0] == name[0]);
    lemma_name_end_in(t, 0, n);
    assert(t.subrange(0, n) =~= name);
    assert(t.subrange(n + 1, t.len() as int) =~= rest);
    assert(w.drop_first() =~= more);
    assert(w.update(0, WordSegmentV::Literal(rest)) =~= seq![WordSegmentV::Literal(rest)] + more);
}

} // verus!
