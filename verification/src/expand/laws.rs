//! What holds of every expansion.

use vstd::arithmetic::power::pow;
use vstd::prelude::*;

use super::arith::{
    binary, eval, eval_variable, lemma_quotient_bounds, lemma_wrap64_congruent, lemma_wrap64_mod,
    lemma_wrap64_mul, lemma_wrap64_near, levels_left, number_assigned, quotient, remainder, size,
    EvalV, MAX_ARITH_RECURSION,
};
use super::ExpandErrorV;
use super::rules::{
    arithmetic_expansion, assign_result, ifs, in_quotes, lemma_operand_weight, operand_weight,
    operation, parameter_expansion, params_as_fields, paths_from, segment, segments_from, tilde,
    trimmed, word_fields, word_pattern, word_segments, word_text, AnswersV, OutV, StopV, UsedV,
};
use crate::arithmetic::rules::{
    body as arith_body, expression, lemma_body_weight, two64, wrap64, ArithErrorV, ArithExprV,
};
use crate::arithmetic::laws::{law_decimal_numbers_are_expressions, number_expr};
use crate::arithmetic::ArithBinaryOp;
use crate::fields::{field_text, has_meta, paths, split, split_all, Split};
use crate::numbers::decimal;
use crate::parameter::{expansion, ParameterExpansionV, ParameterOperatorV};
use crate::segment::{FieldV, SegmentV};
use crate::shell::{lookup, ShellV};
use crate::token::{
    lemma_weight_in_word, weight, weights, ParameterV, SpecialParameter, WordSegmentV, WordV,
};

verus! {

/// Nothing of the shell but its variables differs, and no exported one.
pub open spec fn only_vars_differ(before: ShellV, after: ShellV) -> bool {
    after == (ShellV { vars: after.vars, ..before })
}

/// All answers of `a` are there in `b`, in the same order.
pub open spec fn extends(a: AnswersV, b: AnswersV) -> bool {
    &&& a.outputs.len() <= b.outputs.len()
    &&& forall|i: int| 0 <= i < a.outputs.len() ==> a.outputs[i] == b.outputs[i]
    &&& a.listings.len() <= b.listings.len()
    &&& forall|i: int| 0 <= i < a.listings.len() ==> a.listings[i] == b.listings[i]
}

/// The expansion did not stop for an answer.
pub open spec fn is_settled<T>(o: OutV<T>) -> bool {
    !(o.result matches Err(StopV::Needs(_)))
}

/// An expansion that started with `sh` went well in two ways: it changed only
/// variables, and more answers change nothing once it does not need any.
pub open spec fn sound<T>(sh: ShellV, with_a: OutV<T>, with_b: OutV<T>) -> bool {
    &&& only_vars_differ(sh, with_a.shell)
    &&& is_settled(with_a) ==> with_b == with_a
}

proof fn lemma_eval_variable(name: Seq<char>, sh: ShellV, depth: nat)
    ensures
        only_vars_differ(sh, eval_variable(name, sh, depth).shell),
    decreases levels_left(depth), 0nat, ArithExprV::Number(0),
{
    if let Some(text) = lookup(sh, name) {
        if depth < MAX_ARITH_RECURSION {
            if let Ok(e) = expression(text) {
                lemma_eval(e, sh, depth + 1);
            }
        }
    }
}

proof fn lemma_eval(e: ArithExprV, sh: ShellV, depth: nat)
    ensures
        only_vars_differ(sh, eval(e, sh, depth).shell),
    decreases levels_left(depth), 1nat, e,
{
    match e {
        ArithExprV::Number(_) => {},
        ArithExprV::Variable(name) => {
            lemma_eval_variable(name, sh, depth);
        },
        ArithExprV::Unary { op: _, operand } => {
            lemma_eval(*operand, sh, depth);
        },
        ArithExprV::IncrDecr { op: _, target, prefix: _ } => {
            lemma_eval_variable(target, sh, depth);
        },
        ArithExprV::Binary { op: _, lhs, rhs } => {
            lemma_eval(*lhs, sh, depth);
            lemma_eval(*rhs, eval(*lhs, sh, depth).shell, depth);
        },
        ArithExprV::Conditional { cond, if_true, if_false } => {
            let c = eval(*cond, sh, depth);
            lemma_eval(*cond, sh, depth);
            lemma_eval(*if_true, c.shell, depth);
            lemma_eval(*if_false, c.shell, depth);
        },
        ArithExprV::Assign { op: _, target, value } => {
            lemma_eval(*value, sh, depth);
            lemma_eval_variable(target, eval(*value, sh, depth).shell, depth);
        },
        ArithExprV::Comma { first, second } => {
            lemma_eval(*first, sh, depth);
            lemma_eval(*second, eval(*first, sh, depth).shell, depth);
        },
    }
}

proof fn lemma_word_segments(w: WordV, sh: ShellV, used: UsedV, a: AnswersV, b: AnswersV)
    requires
        extends(a, b),
    ensures
        sound(sh, word_segments(w, sh, used, a), word_segments(w, sh, used, b)),
    decreases weights(w), 4nat, 0int,
{
    match tilde(w, sh) {
        Some((rest, home)) => {
            lemma_segments_from(
                w,
                1,
                sh,
                used,
                a,
                b,
                false,
                seq![super::rules::literal_segment(home), super::rules::literal_segment(rest)],
            );
        },
        None => {
            lemma_segments_from(w, 0, sh, used, a, b, false, Seq::empty());
        },
    }
}

proof fn lemma_word_text(w: WordV, sh: ShellV, used: UsedV, a: AnswersV, b: AnswersV)
    requires
        extends(a, b),
    ensures
        sound(sh, word_text(w, sh, used, a), word_text(w, sh, used, b)),
        sound(sh, word_pattern(w, sh, used, a), word_pattern(w, sh, used, b)),
    decreases weights(w), 5nat, 0int,
{
    lemma_word_segments(w, sh, used, a, b);
}

proof fn lemma_segments_from(
    w: WordV,
    i: int,
    sh: ShellV,
    used: UsedV,
    a: AnswersV,
    b: AnswersV,
    in_double_quotes: bool,
    acc: FieldV,
)
    requires
        extends(a, b),
    ensures
        sound(
            sh,
            segments_from(w, i, sh, used, a, in_double_quotes, acc),
            segments_from(w, i, sh, used, b, in_double_quotes, acc),
        ),
    decreases weights(w), 3nat, w.len() - i,
{
    if 0 <= i < w.len() {
        lemma_weight_in_word(w, i);
        lemma_segment(w[i], sh, used, a, b, in_double_quotes);
        let o = segment(w[i], sh, used, a, in_double_quotes);
        if let Ok(segs) = o.result {
            lemma_segments_from(w, i + 1, o.shell, o.used, a, b, in_double_quotes, acc + segs);
        }
    }
}

proof fn lemma_segment(
    seg: WordSegmentV,
    sh: ShellV,
    used: UsedV,
    a: AnswersV,
    b: AnswersV,
    in_double_quotes: bool,
)
    requires
        extends(a, b),
    ensures
        sound(
            sh,
            segment(seg, sh, used, a, in_double_quotes),
            segment(seg, sh, used, b, in_double_quotes),
        ),
    decreases weight(seg), 2nat, 0int,
{
    match seg {
        WordSegmentV::DoubleQuoted(inner) => {
            lemma_segments_from(inner, 0, sh, used, a, b, true, Seq::empty());
        },
        WordSegmentV::ComplexParameterExpansion(body) => {
            lemma_parameter_expansion(body, in_double_quotes, sh, used, a, b);
        },
        WordSegmentV::ArithmeticExpansion(body) => {
            lemma_arithmetic_expansion(body, sh, used, a, b);
        },
        _ => {},
    }
}

proof fn lemma_parameter_expansion(
    body: Seq<char>,
    in_double_quotes: bool,
    sh: ShellV,
    used: UsedV,
    a: AnswersV,
    b: AnswersV,
)
    requires
        extends(a, b),
    ensures
        sound(
            sh,
            parameter_expansion(body, in_double_quotes, sh, used, a),
            parameter_expansion(body, in_double_quotes, sh, used, b),
        ),
    decreases body.len() + 1, 1nat, 0int,
{
    lemma_operand_weight(body, in_double_quotes);
    if let Ok(e) = expansion(body, in_double_quotes) {
        lemma_operation(e, sh, used, a, b);
    }
}

proof fn lemma_operation(
    e: ParameterExpansionV,
    sh: ShellV,
    used: UsedV,
    a: AnswersV,
    b: AnswersV,
)
    requires
        extends(a, b),
    ensures
        sound(sh, operation(e, sh, used, a), operation(e, sh, used, b)),
    decreases operand_weight(e) + 1, 0nat, 0int,
{
    match e.operator {
        ParameterOperatorV::Length => {},
        ParameterOperatorV::UseDefault { null_mode: _, word } => {
            lemma_word_text(word, sh, used, a, b);
        },
        ParameterOperatorV::AssignDefault { null_mode: _, word } => {
            lemma_word_text(word, sh, used, a, b);
        },
        ParameterOperatorV::ErrorIfUnsetOrNull { null_mode: _, word } => {
            lemma_word_text(word, sh, used, a, b);
        },
        ParameterOperatorV::UseAlternative { null_mode: _, word } => {
            lemma_word_text(word, sh, used, a, b);
        },
        ParameterOperatorV::RemovePrefix { greedy: _, pattern } => {
            lemma_word_text(pattern, sh, used, a, b);
        },
        ParameterOperatorV::RemoveSuffix { greedy: _, pattern } => {
            lemma_word_text(pattern, sh, used, a, b);
        },
    }
}

proof fn lemma_arithmetic_expansion(
    body: Seq<char>,
    sh: ShellV,
    used: UsedV,
    a: AnswersV,
    b: AnswersV,
)
    requires
        extends(a, b),
    ensures
        sound(
            sh,
            arithmetic_expansion(body, sh, used, a),
            arithmetic_expansion(body, sh, used, b),
        ),
    decreases body.len() + 1, 1nat, 0int,
{
    lemma_body_weight(body, 0, Seq::empty(), Seq::empty(), body.len());
    if let Ok(w) = arith_body(body, 0, Seq::empty(), Seq::empty()) {
        lemma_segments_from(w, 0, sh, used, a, b, true, Seq::empty());
        let o = segments_from(w, 0, sh, used, a, true, Seq::empty());
        if let Ok(segs) = o.result {
            if let Ok(e) = expression(field_text(segs)) {
                lemma_eval(e, o.shell, 0);
            }
        }
    }
}

proof fn lemma_paths_from(
    fields: Seq<FieldV>,
    i: int,
    sh: ShellV,
    used: UsedV,
    a: AnswersV,
    b: AnswersV,
    acc: Seq<Seq<char>>,
)
    requires
        extends(a, b),
    ensures
        paths_from(fields, i, sh, used, a, acc).shell == sh,
        sound(
            sh,
            paths_from(fields, i, sh, used, a, acc),
            paths_from(fields, i, sh, used, b, acc),
        ),
    decreases fields.len() - i,
{
    if 0 <= i < fields.len() {
        if !has_meta(fields[i]) {
            lemma_paths_from(fields, i + 1, sh, used, a, b, acc.push(field_text(fields[i])));
        } else if used.listings < a.listings.len() {
            lemma_paths_from(
                fields,
                i + 1,
                sh,
                UsedV { listings: used.listings + 1, ..used },
                a,
                b,
                acc + paths(fields[i], a.listings[used.listings as int]),
            );
        }
    }
}

/// Expanding a word sets variables of the shell and changes nothing else; and
/// once an expansion does not stop for an answer, more answers do not change
/// what it gives. So an expansion that stops can be started again from the same
/// shell when the answer is there.
pub proof fn law_expansion_can_be_resumed(
    w: WordV,
    sh: ShellV,
    used: UsedV,
    a: AnswersV,
    b: AnswersV,
)
    requires
        extends(a, b),
    ensures
        sound(sh, word_text(w, sh, used, a), word_text(w, sh, used, b)),
        sound(sh, word_pattern(w, sh, used, a), word_pattern(w, sh, used, b)),
        sound(sh, word_fields(w, sh, used, a), word_fields(w, sh, used, b)),
{
    lemma_word_text(w, sh, used, a, b);
    lemma_word_segments(w, sh, used, a, b);
    let o = word_segments(w, sh, used, a);
    if let Ok(segs) = o.result {
        let fields = split(segs, ifs(o.shell));
        lemma_paths_from(fields, 0, o.shell, o.used, a, b, Seq::empty());
    }
}

/// A quoted text is one field, whatever it holds: it is not expanded, split or
/// matched with files.
pub proof fn law_quoted_text_is_one_field(t: Seq<char>, sh: ShellV, used: UsedV, a: AnswersV)
    ensures
        word_fields(seq![WordSegmentV::SingleQuoted(t)], sh, used, a) == (OutV {
            shell: sh,
            used,
            result: Ok(seq![t]),
        }),
{
    let w = seq![WordSegmentV::SingleQuoted(t)];
    let seg = super::rules::quoted_segment(t);
    let one = seq![seg];
    assert(Seq::<SegmentV>::empty() + one =~= one);
    assert(segments_from(w, 1, sh, used, a, false, one).result == Ok::<FieldV, StopV>(one));
    assert(word_segments(w, sh, used, a).result == Ok::<FieldV, StopV>(one));
    let sep = ifs(sh);
    crate::fields::law_literal_and_quoted_text_is_not_split(one, sep);
    assert(!has_meta(one)) by {
        reveal(has_meta);
    }
    assert(one.drop_last() =~= Seq::empty());
    assert(field_text(one) =~= t) by {
        reveal_with_fuel(field_text, 2);
    }
    let fields = seq![one];
    let none = Seq::<Seq<char>>::empty();
    assert(none.push(t) =~= seq![t]);
    assert(paths_from(fields, 1, sh, used, a, seq![t]).result == Ok::<Seq<Seq<char>>, StopV>(
        seq![t],
    ));
}

// ---- arithmetic -------------------------------------------------------------------------------

/// A number that arithmetic assigns to a variable is the value of that variable
/// from then on, unless an exported one hides it.
pub proof fn law_assigned_numbers_read_back(sh: ShellV, name: Seq<char>, n: i64, depth: nat)
    requires
        !sh.env.contains_key(name),
        depth < MAX_ARITH_RECURSION,
    ensures
        ({
            let after = number_assigned(sh, name, n);
            eval_variable(name, after, depth) == (EvalV { shell: after, value: Ok(n) })
        }),
{
    let after = number_assigned(sh, name, n);
    law_decimal_numbers_are_expressions(n);
    let e = number_expr(n);
    assert(lookup(after, name) == Some(decimal(n as int)));
    if n < 0 {
        let inner = ArithExprV::Number(wrap64(-n));
        assert(eval(inner, after, depth + 1).value == Ok::<i64, ExpandErrorV>(wrap64(-n)));
        assert(wrap64(-wrap64(-n)) == n);
    }
    assert(eval(e, after, depth + 1) == (EvalV { shell: after, value: Ok(n) }));
}

/// A variable whose value is its own name is an error, at whatever depth it is
/// met, and not an endless evaluation.
pub proof fn law_self_reference_is_an_error(sh: ShellV, name: Seq<char>, depth: nat)
    requires
        lookup(sh, name) matches Some(text) && expression(text) == Ok::<ArithExprV, ArithErrorV>(
            ArithExprV::Variable(name),
        ),
    ensures
        eval_variable(name, sh, depth) == (EvalV {
            shell: sh,
            value: Err(ExpandErrorV::ArithmeticRecursionLimit),
        }),
    decreases levels_left(depth),
{
    if depth < MAX_ARITH_RECURSION {
        law_self_reference_is_an_error(sh, name, depth + 1);
        assert(eval(ArithExprV::Variable(name), sh, depth + 1) == eval_variable(
            name,
            sh,
            depth + 1,
        ));
    }
}

/// An unset variable is 0.
pub proof fn law_unset_variables_are_zero(sh: ShellV, name: Seq<char>, depth: nat)
    requires
        lookup(sh, name) is None,
    ensures
        eval_variable(name, sh, depth) == (EvalV { shell: sh, value: Ok(0) }),
{
}

/// `&&` and `||` do not evaluate their second operand where the first one
/// settles the value: its assignments do not happen.
pub proof fn law_logic_is_lazy(lhs: ArithExprV, rhs: ArithExprV, sh: ShellV, depth: nat)
    ensures
        ({
            let l = eval(lhs, sh, depth);
            let and = ArithExprV::Binary {
                op: ArithBinaryOp::LogicalAnd,
                lhs: Box::new(lhs),
                rhs: Box::new(rhs),
            };
            let or = ArithExprV::Binary {
                op: ArithBinaryOp::LogicalOr,
                lhs: Box::new(lhs),
                rhs: Box::new(rhs),
            };
            &&& l.value == Ok::<i64, ExpandErrorV>(0) ==> eval(and, sh, depth) == l
            &&& l.value is Ok && l.value->Ok_0 != 0 ==> eval(or, sh, depth) == (EvalV {
                shell: l.shell,
                value: Ok(1),
            })
        }),
{
}

/// `?:` evaluates its condition and the operand that it chooses, and not the
/// other one.
pub proof fn law_conditionals_take_one_branch(
    cond: ArithExprV,
    if_true: ArithExprV,
    if_false: ArithExprV,
    sh: ShellV,
    depth: nat,
)
    ensures
        ({
            let c = eval(cond, sh, depth);
            let whole = ArithExprV::Conditional {
                cond: Box::new(cond),
                if_true: Box::new(if_true),
                if_false: Box::new(if_false),
            };
            match c.value {
                Ok(n) => eval(whole, sh, depth) == (if n != 0 {
                    eval(if_true, c.shell, depth)
                } else {
                    eval(if_false, c.shell, depth)
                }),
                Err(_) => eval(whole, sh, depth) == c,
            }
        }),
{
}

/// Division rounds towards zero: the quotient times the divisor, and the
/// remainder, make up the dividend, and the remainder is smaller than the
/// divisor and has the sign of the dividend.
pub proof fn law_division_is_exact(l: int, r: int)
    requires
        r != 0,
    ensures
        quotient(l, r) * r + remainder(l, r) == l,
        size(remainder(l, r)) < size(r),
        remainder(l, r) == 0 || (remainder(l, r) < 0 <==> l < 0),
{
    let a = size(l);
    let b = size(r);
    vstd::arithmetic::div_mod::lemma_fundamental_div_mod(a, b);
    vstd::arithmetic::div_mod::lemma_mod_bound(a, b);
    let q = a / b;
    assert(b * q + a % b == a);
    assert(quotient(l, r) * r == (if l < 0 {
        -(b * q)
    } else {
        b * q
    })) by {
        assert((-q) * r == -(q * r)) by (nonlinear_arith);
        assert(q * (-b) == -(q * b)) by (nonlinear_arith);
        assert((-q) * (-b) == q * b) by (nonlinear_arith);
        assert((-q) * b == -(q * b)) by (nonlinear_arith);
        assert(b * q == q * b) by (nonlinear_arith);
    }
}

// ---- parameters -------------------------------------------------------------------------------

/// Division fails exactly where the divisor is 0. Else the quotient times the
/// divisor, and the remainder, make up the dividend in the arithmetic that wraps,
/// and the remainder is smaller than the divisor.
pub proof fn law_division_wraps(l: i64, r: i64)
    ensures
        ({
            let q = binary(ArithBinaryOp::Div, l, r);
            let m = binary(ArithBinaryOp::Rem, l, r);
            if r == 0 {
                &&& q == Err::<i64, ExpandErrorV>(ExpandErrorV::DivisionByZero)
                &&& m == Err::<i64, ExpandErrorV>(ExpandErrorV::DivisionByZero)
            } else {
                &&& q is Ok
                &&& m is Ok
                &&& wrap64(wrap64(q->Ok_0 * r) + m->Ok_0) == l
                &&& size(m->Ok_0 as int) < size(r as int)
            }
        }),
{
    if r != 0 {
        let (a, b) = (l as int, r as int);
        let q = quotient(a, b);
        let m = remainder(a, b);
        law_division_is_exact(a, b);
        lemma_quotient_bounds(a, b);
        lemma_wrap64_near(m);
        assert(wrap64(m) == m);
        lemma_wrap64_mul(q, b);
        assert(wrap64(wrap64(q) * b) == wrap64(q * b));
        lemma_wrap64_mod(q * b);
        vstd::arithmetic::div_mod::lemma_add_mod_noop(q * b, m, two64());
        vstd::arithmetic::div_mod::lemma_add_mod_noop(wrap64(q * b) as int, m, two64());
        lemma_wrap64_congruent(q * b + m, wrap64(q * b) + m);
        lemma_wrap64_near(a);
    }
}

/// A power fails exactly where the exponent is negative. Else powers with added
/// exponents multiply, in the arithmetic that wraps.
pub proof fn law_powers_multiply(base: i64, m: i64, n: i64)
    ensures
        m < 0 ==> binary(ArithBinaryOp::Power, base, m) == Err::<i64, ExpandErrorV>(
            ExpandErrorV::NegativeExponent,
        ),
        m >= 0 ==> binary(ArithBinaryOp::Power, base, m) is Ok,
        binary(ArithBinaryOp::Power, base, 0) == Ok::<i64, ExpandErrorV>(1),
        binary(ArithBinaryOp::Power, base, 1) == Ok::<i64, ExpandErrorV>(base),
        m >= 0 && n >= 0 && m + n <= i64::MAX ==> binary(
            ArithBinaryOp::Power,
            base,
            (m + n) as i64,
        ) == binary(
            ArithBinaryOp::Mul,
            binary(ArithBinaryOp::Power, base, m)->Ok_0,
            binary(ArithBinaryOp::Power, base, n)->Ok_0,
        ),
{
    let b = base as int;
    reveal_with_fuel(pow, 2);
    lemma_wrap64_near(1);
    lemma_wrap64_near(b);
    if m >= 0 && n >= 0 {
        let (x, y) = (pow(b, m as nat), pow(b, n as nat));
        vstd::arithmetic::power::lemma_pow_adds(b, m as nat, n as nat);
        lemma_wrap64_mul(x, y);
        lemma_wrap64_mul(y, wrap64(x) as int);
        assert(wrap64(x) * y == y * wrap64(x)) by (nonlinear_arith);
        assert(wrap64(y) * wrap64(x) == wrap64(x) * wrap64(y)) by (nonlinear_arith);
    }
}

/// `${name:=word}` and `${name=word}` give the variable the value that they
/// expand to, unless an exported one hides it; no other parameter can be
/// assigned so.
pub proof fn law_default_is_assigned(p: ParameterV, o: OutV<Seq<char>>)
    requires
        o.result is Ok,
    ensures
        ({
            let after = assign_result(p, o);
            match p {
                ParameterV::Name(name) => after.result == o.result && (!o.shell.env.contains_key(
                    name,
                ) ==> lookup(after.shell, name) == Some(o.result->Ok_0)),
                _ => after.result matches Err(StopV::Failed(ExpandErrorV::CannotAssign(_)))
                    && after.shell == o.shell,
            }
        }),
{
}

/// A command substitution drops the newlines at the end of the output, all of
/// them, and nothing else.
pub proof fn law_only_last_newlines_are_trimmed(t: Seq<char>)
    ensures
        trimmed(t).is_prefix_of(t),
        forall|k: int| trimmed(t).len() <= k < t.len() ==> #[trigger] t[k] == '\n',
        trimmed(t).len() > 0 ==> trimmed(t).last() != '\n',
    decreases t.len(),
{
    if t.len() > 0 && t.last() == '\n' {
        let front = t.drop_last();
        law_only_last_newlines_are_trimmed(front);
        let n = trimmed(t).len() as int;
        assert(front.subrange(0, n) =~= t.subrange(0, n));
        assert forall|k: int| n <= k < t.len() implies #[trigger] t[k] == '\n' by {
            if k < front.len() {
                assert(front[k] == t[k]);
            }
        }
    } else {
        assert(t.subrange(0, t.len() as int) =~= t);
    }
}

/// Outside quotes `$@` and `$*` are the same.
pub proof fn law_unquoted_at_is_star(sh: ShellV, used: UsedV, a: AnswersV)
    ensures
        segment(
            WordSegmentV::Parameter(ParameterV::Special(SpecialParameter::At)),
            sh,
            used,
            a,
            false,
        ) == segment(
            WordSegmentV::Parameter(ParameterV::Special(SpecialParameter::Star)),
            sh,
            used,
            a,
            false,
        ),
{
}

/// The fields of the first `k` positional parameters in `"$@"`.
spec fn param_fields(sh: ShellV, k: int) -> Seq<FieldV> {
    Seq::new(k as nat, |i: int| seq![params_as_fields(sh, false)[i]])
}

proof fn lemma_split_params(sh: ShellV, k: int, sep: Seq<char>)
    requires
        0 <= k <= sh.positional.len(),
    ensures
        split_all(params_as_fields(sh, false).take(k), sep) == (if k > 0 && k
            == sh.positional.len() {
            Split {
                fields: param_fields(sh, k - 1),
                current: seq![params_as_fields(sh, false)[k - 1]],
                has_content: true,
                piece: Seq::empty(),
            }
        } else {
            Split {
                fields: param_fields(sh, k),
                current: Seq::empty(),
                has_content: false,
                piece: Seq::empty(),
            }
        }),
    decreases k,
{
    let all = params_as_fields(sh, false);
    let here = all.take(k);
    if k == 0 {
        assert(here =~= Seq::empty());
        assert(param_fields(sh, 0) =~= Seq::empty());
    } else {
        lemma_split_params(sh, k - 1, sep);
        assert(here.drop_last() =~= all.take(k - 1));
        assert(here.last() == all[k - 1]);
        let none = Seq::<SegmentV>::empty();
        assert(none.push(all[k - 1]) =~= seq![all[k - 1]]);
        assert(param_fields(sh, k) =~= param_fields(sh, k - 1).push(seq![all[k - 1]]));
    }
}

proof fn lemma_param_paths(sh: ShellV, k: int, used: UsedV, a: AnswersV, acc: Seq<Seq<char>>)
    requires
        0 <= k <= sh.positional.len(),
        acc == sh.positional.take(k),
    ensures
        paths_from(param_fields(sh, sh.positional.len() as int), k, sh, used, a, acc) == (OutV {
            shell: sh,
            used,
            result: Ok(sh.positional),
        }),
    decreases sh.positional.len() - k,
{
    let n = sh.positional.len() as int;
    let fields = param_fields(sh, n);
    if k < n {
        let f = fields[k];
        assert(f =~= seq![params_as_fields(sh, false)[k]]);
        assert(!has_meta(f)) by {
            reveal(has_meta);
        }
        assert(f.drop_last() =~= Seq::empty());
        assert(field_text(f) =~= sh.positional[k]) by {
            reveal_with_fuel(field_text, 2);
        }
        assert(acc.push(field_text(f)) =~= sh.positional.take(k + 1));
        lemma_param_paths(sh, k + 1, used, a, acc.push(field_text(f)));
    } else {
        assert(acc =~= sh.positional);
    }
}

/// `"$@"` is exactly the positional parameters, each a field of its own,
/// whatever they hold and whatever `IFS` is; without any, it is no field.
pub proof fn law_quoted_at_is_the_parameters(sh: ShellV, used: UsedV, a: AnswersV)
    ensures
        word_fields(
            seq![
                WordSegmentV::DoubleQuoted(
                    seq![WordSegmentV::Parameter(ParameterV::Special(SpecialParameter::At))],
                ),
            ],
            sh,
            used,
            a,
        ) == (OutV { shell: sh, used, result: Ok(sh.positional) }),
{
    let at = WordSegmentV::Parameter(ParameterV::Special(SpecialParameter::At));
    let inner = seq![at];
    let quoted = WordSegmentV::DoubleQuoted(inner);
    let w = seq![quoted];
    let all = params_as_fields(sh, false);
    let none = Seq::<SegmentV>::empty();
    let sep = ifs(sh);
    let n = sh.positional.len() as int;
    assert(none + all =~= all);
    assert(segments_from(inner, 1, sh, used, a, true, all).result == Ok::<FieldV, StopV>(all));
    assert(segments_from(inner, 0, sh, used, a, true, none) == (OutV {
        shell: sh,
        used,
        result: Ok::<FieldV, StopV>(all),
    }));
    assert(all.map_values(|s: SegmentV| in_quotes(s)) =~= all);
    assert(segment(quoted, sh, used, a, false) == (OutV {
        shell: sh,
        used,
        result: Ok::<FieldV, StopV>(all),
    }));
    assert(segments_from(w, 1, sh, used, a, false, all).result == Ok::<FieldV, StopV>(all));
    assert(word_segments(w, sh, used, a) == (OutV {
        shell: sh,
        used,
        result: Ok::<FieldV, StopV>(all),
    }));
    assert(all.take(n) =~= all);
    lemma_split_params(sh, n, sep);
    let fields = param_fields(sh, n);
    assert(split(all, sep) =~= fields) by {
        if n > 0 {
            assert(fields =~= param_fields(sh, n - 1).push(seq![all[n - 1]]));
        }
    }
    assert(sh.positional.take(0) =~= Seq::empty());
    lemma_param_paths(sh, 0, used, a, Seq::empty());
}

} // verus!
