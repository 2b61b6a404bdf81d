//! What the operators of `${...}` are for, and what becomes of the parts of a word.

use vstd::prelude::*;

use super::rules::{
    done, expanded_segment, in_quotes, joined_params, literal_segment, operation, parameter_value,
    quoted_segment, segment, segments_from, tilde, trimmed, word_pattern, word_segments, word_text,
    AnswersV, OutV, RequestV, StopV, UsedV,
};
use super::ExpandErrorV;
use crate::fields::field_text;
use crate::glob::{glob_matches, prefix_removed, suffix_removed};
use crate::lexer::alone::law_parameters_are_read_by_themselves;
use crate::lexer::rules::{at, bare_parameter, name_end};
use crate::numbers::decimal;
use crate::parameter::{
    expansion, operand, operator, NullMode, ParamExpansionErrorV, ParameterExpansionV,
    ParameterOperatorV,
};
use crate::segment::{FieldV, SegmentV};
use crate::shell::ShellV;
use crate::text::{is_name, is_name_char};
use crate::token::{ParameterV, SpecialParameter, SubstitutionStyle, WordSegmentV, WordV};

verus! {

// ---- values ---------------------------------------------------------------------------------

/// The value of a parameter, if it is set.
pub open spec fn value_of(p: ParameterV, sh: ShellV) -> Option<Seq<char>> {
    match p {
        ParameterV::Name(name) => if sh.env.contains_key(name) {
            Some(sh.env[name])
        } else if sh.vars.contains_key(name) {
            Some(sh.vars[name])
        } else {
            None
        },
        ParameterV::Positional(n) => if 1 <= n <= sh.positional.len() {
            Some(sh.positional[n - 1])
        } else {
            None
        },
        ParameterV::Special(SpecialParameter::At) => if sh.positional.len() == 0 {
            None
        } else {
            Some(joined_params(sh))
        },
        ParameterV::Special(SpecialParameter::Star) => if sh.positional.len() == 0 {
            None
        } else {
            Some(joined_params(sh))
        },
        ParameterV::Special(_) => Some(parameter_value(p, sh)),
    }
}

/// What `${p<op>}` expands to.
pub open spec fn applied(
    p: ParameterV,
    operator: ParameterOperatorV,
    sh: ShellV,
    used: UsedV,
    a: AnswersV,
) -> OutV<Seq<char>> {
    operation(ParameterExpansionV { parameter: p, operator }, sh, used, a)
}

/// A parameter that is set and not empty keeps its value under `:-`, `-`, `:=`, `=`,
/// `:?` and `?`: nothing else is expanded, and nothing changes. Under `:+` and `+` the
/// word takes its place.
pub proof fn law_values_are_kept(
    p: ParameterV,
    null_mode: NullMode,
    word: WordV,
    sh: ShellV,
    used: UsedV,
    a: AnswersV,
)
    requires
        value_of(p, sh) matches Some(v) && (v.len() > 0 || null_mode is UnsetOnly),
    ensures
        ({
            let kept = OutV { shell: sh, used, result: Ok(value_of(p, sh)->0) };
            &&& applied(p, ParameterOperatorV::UseDefault { null_mode, word }, sh, used, a) == kept
            &&& applied(p, ParameterOperatorV::AssignDefault { null_mode, word }, sh, used, a)
                == kept
            &&& applied(p, ParameterOperatorV::ErrorIfUnsetOrNull { null_mode, word }, sh, used, a)
                == kept
            &&& applied(p, ParameterOperatorV::UseAlternative { null_mode, word }, sh, used, a)
                == word_text(word, sh, used, a)
        }),
{
}

/// Where a parameter is unset, or empty and the operator has a colon, `:-` gives the
/// word, `:=` gives it and assigns it to a variable, `:?` fails with it, and `:+` gives
/// nothing. What the word cannot be expanded to stops all three.
pub proof fn law_missing_values_are_made_up_for(
    p: ParameterV,
    null_mode: NullMode,
    word: WordV,
    sh: ShellV,
    used: UsedV,
    a: AnswersV,
)
    requires
        value_of(p, sh) is None || (value_of(p, sh)->0.len() == 0 && null_mode is UnsetOrNull),
    ensures
        ({
            let w = word_text(word, sh, used, a);
            let set = applied(p, ParameterOperatorV::AssignDefault { null_mode, word }, sh, used, a);
            let fail = applied(
                p,
                ParameterOperatorV::ErrorIfUnsetOrNull { null_mode, word },
                sh,
                used,
                a,
            );
            &&& applied(p, ParameterOperatorV::UseDefault { null_mode, word }, sh, used, a) == w
            &&& applied(p, ParameterOperatorV::UseAlternative { null_mode, word }, sh, used, a)
                == (OutV { shell: sh, used, result: Ok(Seq::<char>::empty()) })
            &&& w.result is Err ==> set == w && fail == w
            &&& w.result matches Ok(text) ==> {
                &&& fail.result matches Err(StopV::Failed(ExpandErrorV::ParameterNullOrUnset(_)))
                &&& fail.shell == w.shell
                &&& p matches ParameterV::Name(name) ==> {
                    &&& set.result == w.result
                    &&& set.used == w.used
                    &&& set.shell == (ShellV { vars: w.shell.vars.insert(name, text), ..w.shell })
                }
                &&& !(p is Name) ==> {
                    &&& set.result matches Err(StopV::Failed(ExpandErrorV::CannotAssign(_)))
                    &&& set.shell == w.shell
                }
            }
        }),
{
}

/// The message of `${p:?word}` is that of the word, or says that the parameter is
/// missing where the word is empty; the name of the parameter comes first.
pub proof fn law_missing_values_are_reported(
    name: Seq<char>,
    null_mode: NullMode,
    word: WordV,
    sh: ShellV,
    used: UsedV,
    a: AnswersV,
)
    requires
        !sh.env.contains_key(name),
        !sh.vars.contains_key(name),
    ensures
        word_text(word, sh, used, a).result matches Ok(text) ==> applied(
            ParameterV::Name(name),
            ParameterOperatorV::ErrorIfUnsetOrNull { null_mode, word },
            sh,
            used,
            a,
        ).result == Err::<Seq<char>, StopV>(
            StopV::Failed(
                ExpandErrorV::ParameterNullOrUnset(
                    name + seq![':', ' '] + (if text.len() > 0 {
                        text
                    } else if null_mode is UnsetOnly {
                        "parameter not set"@
                    } else {
                        "parameter null or not set"@
                    }),
                ),
            ),
        ),
{
    reveal_strlit(": ");
    assert(": "@ =~= seq![':', ' ']);
}

/// `${#p}` is the number of characters of the value, or of the positional parameters
/// for `@` and `*`. It changes nothing.
pub proof fn law_lengths_are_counted(p: ParameterV, sh: ShellV, used: UsedV, a: AnswersV)
    ensures
        applied(p, ParameterOperatorV::Length, sh, used, a) == (OutV {
            shell: sh,
            used,
            result: Ok(
                decimal(
                    if p == ParameterV::Special(SpecialParameter::At) || p == ParameterV::Special(
                        SpecialParameter::Star,
                    ) {
                        sh.positional.len() as int
                    } else {
                        match value_of(p, sh) {
                            Some(v) => v.len() as int,
                            None => 0,
                        }
                    },
                ),
            ),
        }),
{
}

/// `#` and `##` take from the front of a value a part that the pattern matches, and `%`
/// and `%%` from its back, if there is one; the rest stays. `#` and `%` take the
/// shortest such part, `##` and `%%` the longest.
pub proof fn law_patterns_are_taken_away(
    p: ParameterV,
    greedy: bool,
    pattern: WordV,
    sh: ShellV,
    used: UsedV,
    a: AnswersV,
    cut: int,
)
    requires
        word_pattern(pattern, sh, used, a).result is Ok,
        value_of(p, sh) is Some,
    ensures
        ({
            let v = value_of(p, sh)->0;
            let n = v.len() as int;
            let o = word_pattern(pattern, sh, used, a);
            let pat = o.result->Ok_0;
            let front = applied(p, ParameterOperatorV::RemovePrefix { greedy, pattern }, sh, used, a);
            let back = applied(p, ParameterOperatorV::RemoveSuffix { greedy, pattern }, sh, used, a);
            &&& front.result is Ok && back.result is Ok
            &&& front.shell == o.shell && back.shell == o.shell
            &&& ({
                let gone = n - front.result->Ok_0.len();
                &&& 0 <= gone <= n
                &&& front.result->Ok_0 == v.skip(gone)
                &&& gone > 0 ==> glob_matches(pat, v.take(gone))
                &&& 0 <= cut <= n && glob_matches(pat, v.take(cut)) ==> if greedy {
                    cut <= gone
                } else {
                    gone <= cut
                }
            })
            &&& ({
                let kept = back.result->Ok_0.len() as int;
                &&& 0 <= kept <= n
                &&& back.result->Ok_0 == v.take(kept)
                &&& kept < n ==> glob_matches(pat, v.skip(kept))
                &&& 0 <= cut <= n && glob_matches(pat, v.skip(cut)) ==> if greedy {
                    kept <= cut
                } else {
                    cut <= kept
                }
            })
        }),
{
    let v = value_of(p, sh)->0;
    assert(parameter_value(p, sh) == v);
    let pat = word_pattern(pattern, sh, used, a).result->Ok_0;
    crate::glob::law_removed_prefix_is_extremal(v, pat, greedy);
    crate::glob::law_removed_suffix_is_extremal(v, pat, greedy);
    let n = v.len() as int;
    let front = prefix_removed(v, pat, greedy);
    let back = suffix_removed(v, pat, greedy);
    if n - front.len() == 0 {
        assert(v.skip(0) =~= v);
    }
    if back.len() == n {
        assert(v.take(n) =~= v);
    }
}

// ---- how the operators are written ------------------------------------------------------------

proof fn lemma_name_to_its_end(s: Seq<char>, i: int)
    requires
        0 <= i <= s.len(),
        forall|k: int| i <= k < s.len() ==> is_name_char(#[trigger] s[k]),
    ensures
        name_end(s, i) == s.len(),
    decreases s.len() - i,
{
    if i < s.len() {
        lemma_name_to_its_end(s, i + 1);
    }
}

/// A name with something behind it that does not continue it is read as that name.
proof fn lemma_name_is_read(name: Seq<char>, rest: Seq<char>)
    requires
        is_name(name),
        rest.len() > 0 ==> !is_name_char(rest[0]),
    ensures
        bare_parameter(name + rest, 0, true) == Some(
            (ParameterV::Name(name), name.len() as int),
        ),
{
    lemma_name_to_its_end(name, 0);
    assert(name.subrange(0, name.len() as int) =~= name);
    assert(bare_parameter(name, 0, true) == Some((ParameterV::Name(name), name.len() as int)));
    law_parameters_are_read_by_themselves(name, true, rest);
    assert(name.take(name.len() as int) =~= name);
}

proof fn lemma_operator_follows(name: Seq<char>, mark: Seq<char>, text: Seq<char>, quoted: bool)
    requires
        is_name(name),
        mark.len() > 0,
        !is_name_char(mark[0]),
    ensures
        ({
            let s = name + mark + text;
            let rest = mark + text;
            &&& expansion(s, quoted) == (match operator(rest, quoted, s) {
                Ok(operator) => Ok(
                    ParameterExpansionV { parameter: ParameterV::Name(name), operator },
                ),
                Err(e) => Err(e),
            })
            &&& rest.subrange(mark.len() as int, rest.len() as int) == text
        }),
{
    let s = name + mark + text;
    let rest = mark + text;
    assert(s =~= name + rest);
    assert(s[0] == name[0]);
    lemma_name_is_read(name, rest);
    assert(s.subrange(name.len() as int, s.len() as int) =~= rest);
    assert(rest.subrange(mark.len() as int, rest.len() as int) =~= text);
}

/// `s` is the expansion of a name with this operator.
pub open spec fn writes(
    s: Seq<char>,
    quoted: bool,
    name: Seq<char>,
    operator: ParameterOperatorV,
) -> bool {
    expansion(s, quoted) == Ok::<ParameterExpansionV, ParamExpansionErrorV>(
        ParameterExpansionV { parameter: ParameterV::Name(name), operator },
    )
}

/// After a name `-`, `=`, `?` and `+` write the operators that look at whether it is
/// set, with a colon in front also whether it is empty. All of what follows is the word.
pub proof fn law_signs_write_operators(
    name: Seq<char>,
    colon: bool,
    c: char,
    text: Seq<char>,
    quoted: bool,
)
    requires
        is_name(name),
        operand(text, quoted) is Ok,
    ensures
        ({
            let s = name + (if colon {
                seq![':', c]
            } else {
                seq![c]
            }) + text;
            let word = operand(text, quoted)->Ok_0;
            let null_mode = if colon {
                NullMode::UnsetOrNull
            } else {
                NullMode::UnsetOnly
            };
            &&& c == '-' ==> writes(
                s,
                quoted,
                name,
                ParameterOperatorV::UseDefault { null_mode, word },
            )
            &&& c == '=' ==> writes(
                s,
                quoted,
                name,
                ParameterOperatorV::AssignDefault { null_mode, word },
            )
            &&& c == '?' ==> writes(
                s,
                quoted,
                name,
                ParameterOperatorV::ErrorIfUnsetOrNull { null_mode, word },
            )
            &&& c == '+' ==> writes(
                s,
                quoted,
                name,
                ParameterOperatorV::UseAlternative { null_mode, word },
            )
        }),
{
    if c == '-' || c == '=' || c == '?' || c == '+' {
        let mark = if colon {
            seq![':', c]
        } else {
            seq![c]
        };
        lemma_operator_follows(name, mark, text, quoted);
        assert((mark + text)[0] == mark[0]);
        if colon {
            assert((mark + text)[1] == c);
        }
    }
}

/// After a name `#` and `%` write the operators that take something away from the front
/// or the back: the shortest part, or written twice the longest. All of what follows is
/// the pattern.
pub proof fn law_doubled_signs_are_greedy(
    name: Seq<char>,
    twice: bool,
    c: char,
    text: Seq<char>,
    quoted: bool,
)
    requires
        is_name(name),
        operand(text, quoted) is Ok,
        twice || at(text, 0) != Some(c),
    ensures
        ({
            let s = name + (if twice {
                seq![c, c]
            } else {
                seq![c]
            }) + text;
            let pattern = operand(text, quoted)->Ok_0;
            &&& c == '#' ==> writes(
                s,
                quoted,
                name,
                ParameterOperatorV::RemovePrefix { greedy: twice, pattern },
            )
            &&& c == '%' ==> writes(
                s,
                quoted,
                name,
                ParameterOperatorV::RemoveSuffix { greedy: twice, pattern },
            )
        }),
{
    if c == '#' || c == '%' {
        let mark = if twice {
            seq![c, c]
        } else {
            seq![c]
        };
        lemma_operator_follows(name, mark, text, quoted);
        let rest = mark + text;
        assert(rest[0] == c);
        if twice {
            assert(rest[1] == c);
        } else if text.len() > 0 {
            assert(rest[1] == text[0]);
        }
    }
}

/// `#` before a name, and nothing behind it, asks for the length.
pub proof fn law_lengths_are_asked_for_with_a_hash(name: Seq<char>, quoted: bool)
    requires
        is_name(name),
    ensures
        expansion(seq!['#'] + name, quoted) == Ok::<
            ParameterExpansionV,
            ParamExpansionErrorV,
        >(
            ParameterExpansionV {
                parameter: ParameterV::Name(name),
                operator: ParameterOperatorV::Length,
            },
        ),
{
    let s = seq!['#'] + name;
    assert(s.subrange(1, s.len() as int) =~= name);
    lemma_name_is_read(name, Seq::empty());
    assert(name + Seq::<char>::empty() =~= name);
}

// ---- the parts of a word ----------------------------------------------------------------------

proof fn lemma_one_more(
    w: WordV,
    i: int,
    seg: WordSegmentV,
    sh: ShellV,
    used: UsedV,
    a: AnswersV,
    quoted: bool,
    acc: FieldV,
)
    requires
        0 <= i <= w.len(),
    ensures
        segments_from(w.push(seg), i, sh, used, a, quoted, acc) == behind(
            segments_from(w, i, sh, used, a, quoted, acc),
            seg,
            a,
            quoted,
        ),
    decreases w.len() - i,
{
    let more = w.push(seg);
    if i < w.len() {
        assert(more[i] == w[i]);
        let o = segment(w[i], sh, used, a, quoted);
        if let Ok(segs) = o.result {
            lemma_one_more(w, i + 1, seg, o.shell, o.used, a, quoted, acc + segs);
        }
    } else {
        assert(more[i] == seg);
        let o = segment(seg, sh, used, a, quoted);
        if let Ok(segs) = o.result {
            assert(segments_from(more, i + 1, o.shell, o.used, a, quoted, acc + segs) == done(
                o.shell,
                o.used,
                acc + segs,
            ));
        }
    }
}

/// What was expanded, with one more part of the word expanded behind it.
pub open spec fn behind(o: OutV<FieldV>, seg: WordSegmentV, a: AnswersV, quoted: bool) -> OutV<
    FieldV,
> {
    match o.result {
        Err(_) => o,
        Ok(before) => {
            let s = segment(seg, o.shell, o.used, a, quoted);
            OutV {
                shell: s.shell,
                used: s.used,
                result: match s.result {
                    Ok(segs) => Ok(before + segs),
                    Err(stop) => Err(stop),
                },
            }
        },
    }
}

/// The parts of a word are expanded from left to right, each in the shell and with the
/// answers that the ones before it leave, and stand behind each other in that order.
pub proof fn law_words_are_expanded_part_by_part(
    w: WordV,
    seg: WordSegmentV,
    sh: ShellV,
    used: UsedV,
    a: AnswersV,
)
    requires
        w.len() > 0,
    ensures
        word_segments(w.push(seg), sh, used, a) == behind(
            word_segments(w, sh, used, a),
            seg,
            a,
            false,
        ),
{
    assert(w.push(seg)[0] == w[0]);
    match tilde(w, sh) {
        Some((rest, home)) => {
            lemma_one_more(
                w,
                1,
                seg,
                sh,
                used,
                a,
                false,
                seq![literal_segment(home), literal_segment(rest)],
            );
        },
        None => lemma_one_more(w, 0, seg, sh, used, a, false, Seq::empty()),
    }
}

/// The same inside double quotes, where nothing is split or matched afterwards.
pub proof fn law_quoted_words_are_expanded_part_by_part(
    inner: WordV,
    seg: WordSegmentV,
    sh: ShellV,
    used: UsedV,
    a: AnswersV,
    quoted: bool,
)
    requires
        inner.len() > 0,
    ensures
        ({
            let whole = segment(WordSegmentV::DoubleQuoted(inner.push(seg)), sh, used, a, quoted);
            let front = segment(WordSegmentV::DoubleQuoted(inner), sh, used, a, quoted);
            match front.result {
                Err(_) => whole == front,
                Ok(before) => {
                    let s = segment(seg, front.shell, front.used, a, true);
                    &&& whole.shell == s.shell
                    &&& whole.used == s.used
                    &&& match s.result {
                        Err(stop) => whole.result == Err::<FieldV, StopV>(stop),
                        Ok(segs) => whole.result == Ok::<FieldV, StopV>(
                            before + segs.map_values(
                                |s: SegmentV|
                                    SegmentV { glob_eligible: false, split_eligible: false, ..s },
                            ),
                        ),
                    }
                },
            }
        }),
{
    lemma_one_more(inner, 0, seg, sh, used, a, true, Seq::empty());
    let front = segments_from(inner, 0, sh, used, a, true, Seq::empty());
    if let Ok(before) = front.result {
        let s = segment(seg, front.shell, front.used, a, true);
        if let Ok(segs) = s.result {
            assert((before + segs).map_values(|s: SegmentV| in_quotes(s)) =~= before.map_values(
                |s: SegmentV| in_quotes(s),
            ) + segs.map_values(
                |s: SegmentV| SegmentV { glob_eligible: false, split_eligible: false, ..s },
            ));
        }
    }
}

proof fn lemma_one_part(seg: WordSegmentV, sh: ShellV, used: UsedV, a: AnswersV, quoted: bool)
    ensures
        segments_from(seq![seg], 0, sh, used, a, quoted, Seq::empty()) == segment(
            seg,
            sh,
            used,
            a,
            quoted,
        ),
{
    let w = seq![seg];
    let o = segment(seg, sh, used, a, quoted);
    assert(w[0] == seg);
    if let Ok(segs) = o.result {
        assert(Seq::<SegmentV>::empty() + segs =~= segs);
        assert(segments_from(w, 1, o.shell, o.used, a, quoted, segs) == done(
            o.shell,
            o.used,
            segs,
        ));
    }
}

proof fn lemma_text_of_one(s: SegmentV)
    ensures
        field_text(seq![s]) == s.text,
{
    assert(seq![s].drop_last() =~= Seq::empty());
    reveal_with_fuel(field_text, 2);
    assert(Seq::<char>::empty() + s.text =~= s.text);
}

/// Literal text, and text in single or double quotes, expands to itself, unless a tilde
/// comes first outside quotes.
pub proof fn law_text_expands_to_itself(t: Seq<char>, sh: ShellV, used: UsedV, a: AnswersV)
    ensures
        at(t, 0) != Some('~') ==> word_text(seq![WordSegmentV::Literal(t)], sh, used, a) == (OutV {
            shell: sh,
            used,
            result: Ok(t),
        }),
        word_text(seq![WordSegmentV::SingleQuoted(t)], sh, used, a) == (OutV {
            shell: sh,
            used,
            result: Ok(t),
        }),
        word_text(
            seq![WordSegmentV::DoubleQuoted(seq![WordSegmentV::Literal(t)])],
            sh,
            used,
            a,
        ) == (OutV { shell: sh, used, result: Ok(t) }),
{
    let lit = WordSegmentV::Literal(t);
    lemma_one_part(lit, sh, used, a, false);
    lemma_one_part(lit, sh, used, a, true);
    lemma_one_part(WordSegmentV::SingleQuoted(t), sh, used, a, false);
    lemma_one_part(WordSegmentV::DoubleQuoted(seq![lit]), sh, used, a, false);
    lemma_text_of_one(literal_segment(t));
    lemma_text_of_one(quoted_segment(t));
    assert(seq![literal_segment(t)].map_values(|s: SegmentV| in_quotes(s)) =~= seq![
        quoted_segment(t),
    ]);
}

/// A tilde at the start of a word, alone or before a slash, is the home directory; with
/// none it stays, and so does any other.
pub proof fn law_tildes_are_home(t: Seq<char>, sh: ShellV, used: UsedV, a: AnswersV)
    requires
        at(t, 0) == Some('~'),
    ensures
        ({
            let home = seq!['H', 'O', 'M', 'E'];
            let known = sh.env.contains_key(home) || sh.vars.contains_key(home);
            let dir = if sh.env.contains_key(home) {
                sh.env[home]
            } else {
                sh.vars[home]
            };
            word_text(seq![WordSegmentV::Literal(t)], sh, used, a) == (OutV {
                shell: sh,
                used,
                result: Ok(
                    if known && (t.len() == 1 || t[1] == '/') {
                        dir + t.skip(1)
                    } else {
                        t
                    },
                ),
            })
        }),
{
    reveal_strlit("HOME");
    let home = seq!['H', 'O', 'M', 'E'];
    assert("HOME"@ =~= home);
    let lit = WordSegmentV::Literal(t);
    let w = seq![lit];
    lemma_one_part(lit, sh, used, a, false);
    lemma_text_of_one(literal_segment(t));
    if let Some((rest, dir)) = tilde(w, sh) {
        let both = seq![literal_segment(dir), literal_segment(rest)];
        assert(segments_from(w, 1, sh, used, a, false, both) == done(sh, used, both));
        assert(both.drop_last() =~= seq![literal_segment(dir)]);
        lemma_text_of_one(literal_segment(dir));
    }
}

/// A parameter expands to its value, or to nothing where it is unset; `$@` and `$*` are
/// another matter. It changes nothing.
pub proof fn law_parameters_expand_to_their_values(
    p: ParameterV,
    sh: ShellV,
    used: UsedV,
    a: AnswersV,
)
    requires
        p != ParameterV::Special(SpecialParameter::At),
        p != ParameterV::Special(SpecialParameter::Star),
    ensures
        ({
            let plain = OutV {
                shell: sh,
                used,
                result: Ok(
                    match value_of(p, sh) {
                        Some(v) => v,
                        None => Seq::empty(),
                    },
                ),
            };
            let seg = WordSegmentV::Parameter(p);
            &&& word_text(seq![seg], sh, used, a) == plain
            &&& word_text(seq![WordSegmentV::DoubleQuoted(seq![seg])], sh, used, a) == plain
        }),
{
    let seg = WordSegmentV::Parameter(p);
    let v = parameter_value(p, sh);
    lemma_one_part(seg, sh, used, a, false);
    lemma_one_part(seg, sh, used, a, true);
    lemma_one_part(WordSegmentV::DoubleQuoted(seq![seg]), sh, used, a, false);
    lemma_text_of_one(expanded_segment(v));
    lemma_text_of_one(quoted_segment(v));
    assert(seq![expanded_segment(v)].map_values(|s: SegmentV| in_quotes(s)) =~= seq![
        quoted_segment(v),
    ]);
}

/// `$?` is the last status, `$#` the number of positional parameters, `$$` the process of
/// the shell, `$!` that of the last job in the background, `$0` the name of the shell, and
/// `$-` nothing.
pub proof fn law_special_parameters_tell_of_the_shell(sh: ShellV)
    ensures
        value_of(ParameterV::Special(SpecialParameter::Question), sh) == Some(
            decimal(sh.last_status as int),
        ),
        value_of(ParameterV::Special(SpecialParameter::Hash), sh) == Some(
            decimal(sh.positional.len() as int),
        ),
        value_of(ParameterV::Special(SpecialParameter::Dollar), sh) == Some(
            decimal(sh.pid as int),
        ),
        value_of(ParameterV::Special(SpecialParameter::Zero), sh) == Some(sh.arg0),
        value_of(ParameterV::Special(SpecialParameter::Dash), sh) == Some(Seq::<char>::empty()),
        sh.last_background_pid matches Some(n) ==> value_of(
            ParameterV::Special(SpecialParameter::Bang),
            sh,
        ) == Some(decimal(n as int)),
        sh.last_background_pid is None ==> value_of(
            ParameterV::Special(SpecialParameter::Bang),
            sh,
        ) == Some(Seq::<char>::empty()),
{
}

/// A command substitution takes the next answer, and gives its text without the newlines
/// at its end; an answer that is a failure is a failure. Where there is no answer left it
/// asks for one.
pub proof fn law_command_substitutions_take_answers_in_turn(
    style: SubstitutionStyle,
    body: Seq<char>,
    sh: ShellV,
    used: UsedV,
    a: AnswersV,
)
    ensures
        ({
            let o = word_text(seq![WordSegmentV::CommandSubstitution(style, body)], sh, used, a);
            &&& o.shell == sh
            &&& used.outputs >= a.outputs.len() ==> o.used == used && o.result == Err::<
                Seq<char>,
                StopV,
            >(StopV::Needs(RequestV::CommandOutput(body)))
            &&& used.outputs < a.outputs.len() ==> {
                &&& o.used == (UsedV { outputs: used.outputs + 1, ..used })
                &&& match a.outputs[used.outputs as int] {
                    Err(why) => o.result == Err::<Seq<char>, StopV>(
                        StopV::Failed(ExpandErrorV::CommandSubstitutionFailed(why)),
                    ),
                    Ok(t) => o.result matches Ok(text) && text.is_prefix_of(t) && (text.len() > 0
                        ==> text.last() != '\n') && forall|k: int|
                        text.len() <= k < t.len() ==> #[trigger] t[k] == '\n',
                }
            }
        }),
{
    let seg = WordSegmentV::CommandSubstitution(style, body);
    lemma_one_part(seg, sh, used, a, false);
    if used.outputs < a.outputs.len() {
        if let Ok(t) = a.outputs[used.outputs as int] {
            super::laws::law_only_last_newlines_are_trimmed(t);
            lemma_text_of_one(expanded_segment(trimmed(t)));
        }
    }
}

/// `*` is the positional parameters in one text, in their order, with the first character
/// of `IFS` between each two of them: a blank where it is unset, and nothing where it is
/// empty.
pub proof fn law_stars_join_the_parameters(sh: ShellV, s: Seq<Seq<char>>, x: Seq<char>)
    ensures
        ({
            let star = |params: Seq<Seq<char>>| parameter_value(
                ParameterV::Special(SpecialParameter::Star),
                ShellV { positional: params, ..sh },
            );
            let between = match value_of(ParameterV::Name("IFS"@), sh) {
                None => seq![' '],
                Some(ifs) => if ifs.len() == 0 {
                    Seq::empty()
                } else {
                    seq![ifs[0]]
                },
            };
            &&& star(Seq::empty()).len() == 0
            &&& star(seq![x]) == x
            &&& s.len() > 0 ==> star(s.push(x)) == star(s) + between + x
        }),
{
    reveal_strlit(" ");
    assert(" "@ =~= seq![' ']);
    assert(s.push(x).drop_last() =~= s);
}

} // verus!
