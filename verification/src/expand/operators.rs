//! How the operators of arithmetic relate to each other.

use vstd::prelude::*;

use super::arith::{
    binary, eval, eval_variable, lemma_wrap64_near, shift_amount, unary, EvalV,
};
use super::ExpandErrorV;
use crate::arithmetic::rules::{wrap64, ArithExprV};
use crate::arithmetic::{ArithAssignOp, ArithBinaryOp, ArithUnaryOp, IncrDecrOp};
use crate::numbers::decimal;
use crate::shell::{lookup, ShellV};

verus! {

// ---- two operands ---------------------------------------------------------------------------

/// The expression `l op r` of two numbers.
pub open spec fn of_numbers(op: ArithBinaryOp, l: i64, r: i64) -> ArithExprV {
    ArithExprV::Binary {
        op,
        lhs: Box::new(ArithExprV::Number(l)),
        rhs: Box::new(ArithExprV::Number(r)),
    }
}

/// `l op r` evaluates to `n`, and changes nothing.
pub open spec fn gives(op: ArithBinaryOp, l: i64, r: i64, n: int) -> bool {
    forall|sh: ShellV, depth: nat|
        i64::MIN <= n <= i64::MAX && #[trigger] eval(of_numbers(op, l, r), sh, depth) == (EvalV {
            shell: sh,
            value: Ok(n as i64),
        })
}

/// `op n` evaluates to `m`, and changes nothing.
pub open spec fn turns(op: ArithUnaryOp, n: i64, m: int) -> bool {
    forall|sh: ShellV, depth: nat|
        i64::MIN <= m <= i64::MAX && #[trigger] eval(
            ArithExprV::Unary { op, operand: Box::new(ArithExprV::Number(n)) },
            sh,
            depth,
        ) == (EvalV { shell: sh, value: Ok(m as i64) })
}

proof fn lemma_of_numbers(op: ArithBinaryOp, l: i64, r: i64, sh: ShellV, depth: nat)
    ensures
        eval(of_numbers(op, l, r), sh, depth) == (EvalV { shell: sh, value: binary(op, l, r) }),
{
    reveal_with_fuel(eval, 2);
}

proof fn lemma_numbers()
    ensures
        forall|op: ArithBinaryOp, l: i64, r: i64, sh: ShellV, depth: nat|
            #[trigger] eval(of_numbers(op, l, r), sh, depth) == (EvalV {
                shell: sh,
                value: binary(op, l, r),
            }),
        forall|op: ArithUnaryOp, n: i64, sh: ShellV, depth: nat|
            #[trigger] eval(
                ArithExprV::Unary { op, operand: Box::new(ArithExprV::Number(n)) },
                sh,
                depth,
            ) == (EvalV { shell: sh, value: Ok(unary(op, n)) }),
{
    assert forall|op: ArithBinaryOp, l: i64, r: i64, sh: ShellV, depth: nat|
        #[trigger] eval(of_numbers(op, l, r), sh, depth) == (EvalV {
            shell: sh,
            value: binary(op, l, r),
        }) by {
        lemma_of_numbers(op, l, r, sh, depth);
    }
    assert forall|op: ArithUnaryOp, n: i64, sh: ShellV, depth: nat|
        #[trigger] eval(
            ArithExprV::Unary { op, operand: Box::new(ArithExprV::Number(n)) },
            sh,
            depth,
        ) == (EvalV { shell: sh, value: Ok(unary(op, n)) }) by {
        reveal_with_fuel(eval, 2);
    }
}

/// The comparisons form one order. Of any two numbers exactly one of `<`, `==` and
/// `>` holds, which is 1 where it holds and 0 where it does not; `>=` is where `<`
/// is not, `<=` where `>` is not, `!=` where `==` is not. What is larger is so by a
/// positive difference.
pub proof fn law_comparisons_form_one_order(l: i64, r: i64)
    ensures
        ({
            let less = if r - l > 0 { 1int } else { 0 };
            let more = if l - r > 0 { 1int } else { 0 };
            let same = 1 - less - more;
            &&& gives(ArithBinaryOp::Less, l, r, less)
            &&& gives(ArithBinaryOp::Greater, l, r, more)
            &&& gives(ArithBinaryOp::Eq, l, r, same)
            &&& gives(ArithBinaryOp::GreaterEq, l, r, 1 - less)
            &&& gives(ArithBinaryOp::GreaterEq, l, r, more + same)
            &&& gives(ArithBinaryOp::LessEq, l, r, 1 - more)
            &&& gives(ArithBinaryOp::LessEq, l, r, less + same)
            &&& gives(ArithBinaryOp::NotEq, l, r, less + more)
            &&& gives(ArithBinaryOp::Less, r, l, more)
        }),
{
    lemma_numbers();
}

/// `n` is `m` in the arithmetic that wraps.
pub open spec fn wraps_to(m: int, n: int) -> bool {
    i64::MIN <= n <= i64::MAX && (m - n) % 0x1_0000_0000_0000_0000 == 0
}

/// Sums, differences and products are exact but for multiples of 2 to the 64th: they
/// wrap, and never fail.
pub proof fn law_sums_and_products_wrap(l: i64, r: i64, n: int)
    ensures
        wraps_to(l + r, n) ==> gives(ArithBinaryOp::Add, l, r, n),
        wraps_to(l - r, n) ==> gives(ArithBinaryOp::Sub, l, r, n),
        wraps_to(l * r, n) ==> gives(ArithBinaryOp::Mul, l, r, n),
        wraps_to(-l, n) ==> turns(ArithUnaryOp::Minus, l, n),
        turns(ArithUnaryOp::Plus, l, l as int),
{
    lemma_numbers();
    lemma_wraps_once(l + r, n);
    lemma_wraps_once(l - r, n);
    lemma_wraps_once(l * r, n);
    lemma_wraps_once(-l, n);
}

proof fn lemma_wraps_once(m: int, n: int)
    ensures
        wraps_to(m, n) ==> wrap64(m) == n,
{
    if wraps_to(m, n) {
        vstd::arithmetic::div_mod::lemma_mod_equivalence(m, n, 0x1_0000_0000_0000_0000);
    }
}

/// A difference undoes a sum, and the other way round.
pub proof fn law_differences_undo_sums(l: i64, r: i64, n: int)
    ensures
        gives(ArithBinaryOp::Add, l, r, n) ==> gives(ArithBinaryOp::Sub, n as i64, r, l as int),
        gives(ArithBinaryOp::Sub, l, r, n) ==> gives(ArithBinaryOp::Add, n as i64, r, l as int),
{
    lemma_numbers();
    let sh = arbitrary_shell();
    assert(gives(ArithBinaryOp::Add, l, r, n) ==> eval(of_numbers(ArithBinaryOp::Add, l, r), sh, 0)
        == (EvalV { shell: sh, value: Ok(n as i64) }));
    assert(gives(ArithBinaryOp::Sub, l, r, n) ==> eval(of_numbers(ArithBinaryOp::Sub, l, r), sh, 0)
        == (EvalV { shell: sh, value: Ok(n as i64) }));
    lemma_wrap64_near(l + r);
    lemma_wrap64_near(l - r);
    lemma_wrap64_near(wrap64(l + r) - r);
    lemma_wrap64_near(wrap64(l - r) + r);
}

spec fn arbitrary_shell() -> ShellV {
    arbitrary()
}

/// Division rounds towards zero: what it leaves has the sign of the dividend.
pub proof fn law_remainders_have_the_sign_of_the_dividend(l: i64, r: i64, n: int)
    requires
        gives(ArithBinaryOp::Rem, l, r, n),
    ensures
        n == 0 || (n < 0 <==> l < 0),
{
    lemma_numbers();
    let sh = arbitrary_shell();
    assert(eval(of_numbers(ArithBinaryOp::Rem, l, r), sh, 0) == (EvalV {
        shell: sh,
        value: Ok(n as i64),
    }));
    super::laws::law_division_is_exact(l as int, r as int);
    lemma_wrap64_near(super::arith::remainder(l as int, r as int));
}

// ---- bits -------------------------------------------------------------------------------------

/// A shift to the left by one more doubles, in the arithmetic that wraps; one to the
/// right by one more halves, and rounds down. A shift by nothing changes nothing, and
/// only the amount modulo 64 counts.
pub proof fn law_shifts_double_and_halve(l: i64, n: i64)
    requires
        0 <= n < 63,
    ensures
        gives(ArithBinaryOp::ShiftLeft, l, 0, l as int),
        gives(ArithBinaryOp::ShiftRight, l, 0, l as int),
        forall|a: i64|
            #[trigger] gives(ArithBinaryOp::ShiftLeft, l, n, a as int) ==> gives(
                ArithBinaryOp::ShiftLeft,
                l,
                (n + 1) as i64,
                wrap64(a + a) as int,
            ),
        forall|a: i64|
            #[trigger] gives(ArithBinaryOp::ShiftRight, l, n, a as int) ==> gives(
                ArithBinaryOp::ShiftRight,
                l,
                (n + 1) as i64,
                a as int / 2,
            ),
{
    lemma_numbers();
    let k = n as u32;
    assert(l << 0u32 == l) by (bit_vector);
    assert(l >> 0u32 == l) by (bit_vector);
    assert(k < 63);
    lemma_shift_left_once(l, k);
    lemma_shift_right_once(l, k);
    let sh = arbitrary_shell();
    assert forall|a: i64| #[trigger] gives(ArithBinaryOp::ShiftLeft, l, n, a as int) implies gives(
        ArithBinaryOp::ShiftLeft,
        l,
        (n + 1) as i64,
        wrap64(a + a) as int,
    ) by {
        assert(eval(of_numbers(ArithBinaryOp::ShiftLeft, l, n), sh, 0) == (EvalV {
            shell: sh,
            value: Ok(a),
        }));
    }
    assert forall|a: i64| #[trigger] gives(ArithBinaryOp::ShiftRight, l, n, a as int) implies gives(
        ArithBinaryOp::ShiftRight,
        l,
        (n + 1) as i64,
        a as int / 2,
    ) by {
        assert(eval(of_numbers(ArithBinaryOp::ShiftRight, l, n), sh, 0) == (EvalV {
            shell: sh,
            value: Ok(a),
        }));
    }
}

proof fn lemma_shift_left_once(l: i64, k: u32)
    requires
        k < 63,
    ensures
        l << ((k + 1) as u32) == wrap64((l << k) + (l << k)),
{
    let a = l << k;
    let b = l << ((k + 1) as u32);
    assert(k < 63 && a == l << k && b == l << ((k + 1) as u32) ==> (b == a + a || b == a + a
        - 0x1_0000_0000_0000_0000 || b == a + a + 0x1_0000_0000_0000_0000)) by (bit_vector);
    lemma_wrap64_near(a + a);
}

proof fn lemma_shift_right_once(l: i64, k: u32)
    requires
        k < 63,
    ensures
        l >> ((k + 1) as u32) == (l >> k) as int / 2,
{
    let a = l >> k;
    let b = l >> ((k + 1) as u32);
    assert(k < 63 && a == l >> k && b == l >> ((k + 1) as u32) ==> (a == b + b || a == b + b + 1))
        by (bit_vector);
}

/// Only the amount modulo 64 counts for a shift.
pub proof fn law_shifts_go_round(l: i64, n: i64, a: int)
    requires
        n <= i64::MAX - 64,
    ensures
        gives(ArithBinaryOp::ShiftLeft, l, n, a) ==> gives(
            ArithBinaryOp::ShiftLeft,
            l,
            (n + 64) as i64,
            a,
        ),
        gives(ArithBinaryOp::ShiftRight, l, n, a) ==> gives(
            ArithBinaryOp::ShiftRight,
            l,
            (n + 64) as i64,
            a,
        ),
{
    lemma_numbers();
    let sh = arbitrary_shell();
    let m = (n + 64) as i64;
    assert(n as int % 64 == m as int % 64);
    assert(shift_amount(m) == shift_amount(n));
    assert(eval(of_numbers(ArithBinaryOp::ShiftLeft, l, n), sh, 0).value == binary(
        ArithBinaryOp::ShiftLeft,
        l,
        m,
    ));
    assert(eval(of_numbers(ArithBinaryOp::ShiftRight, l, n), sh, 0).value == binary(
        ArithBinaryOp::ShiftRight,
        l,
        m,
    ));
}

/// Bit `k` of `n`.
pub open spec fn bit(n: i64, k: u32) -> bool {
    (n >> k) & 1 == 1
}

/// The operators on bits work on each bit by itself: `&` sets those that both numbers
/// have, `|` those that one of them has, `^` those that exactly one has, and `~` those
/// that its number lacks. `~n` is `-n - 1`.
pub proof fn law_bits_are_combined_one_by_one(l: i64, r: i64, n: i64, k: u32)
    requires
        k < 64,
    ensures
        gives(ArithBinaryOp::BitAnd, l, r, n as int) ==> bit(n, k) == (bit(l, k) && bit(r, k)),
        gives(ArithBinaryOp::BitOr, l, r, n as int) ==> bit(n, k) == (bit(l, k) || bit(r, k)),
        gives(ArithBinaryOp::BitXor, l, r, n as int) ==> bit(n, k) == (bit(l, k) != bit(r, k)),
        turns(ArithUnaryOp::BitNot, l, -l - 1),
        exists|m: i64| gives(ArithBinaryOp::BitAnd, l, r, m as int),
        exists|m: i64| gives(ArithBinaryOp::BitOr, l, r, m as int),
        exists|m: i64| gives(ArithBinaryOp::BitXor, l, r, m as int),
{
    lemma_numbers();
    let sh = arbitrary_shell();
    assert(eval(of_numbers(ArithBinaryOp::BitAnd, l, r), sh, 0).value == Ok::<i64, ExpandErrorV>(
        l & r,
    ));
    assert(eval(of_numbers(ArithBinaryOp::BitOr, l, r), sh, 0).value == Ok::<i64, ExpandErrorV>(
        l | r,
    ));
    assert(eval(of_numbers(ArithBinaryOp::BitXor, l, r), sh, 0).value == Ok::<i64, ExpandErrorV>(
        l ^ r,
    ));
    assert(gives(ArithBinaryOp::BitAnd, l, r, (l & r) as int));
    assert(gives(ArithBinaryOp::BitOr, l, r, (l | r) as int));
    assert(gives(ArithBinaryOp::BitXor, l, r, (l ^ r) as int));
    assert(k < 64 ==> ((((l & r) >> k) & 1 == 1) == ((l >> k) & 1 == 1 && (r >> k) & 1 == 1)))
        by (bit_vector);
    assert(k < 64 ==> ((((l | r) >> k) & 1 == 1) == ((l >> k) & 1 == 1 || (r >> k) & 1 == 1)))
        by (bit_vector);
    assert(k < 64 ==> ((((l ^ r) >> k) & 1 == 1) == (((l >> k) & 1 == 1) != ((r >> k) & 1 == 1))))
        by (bit_vector);
    assert(!l == -l - 1) by (bit_vector);
}

// ---- truth ------------------------------------------------------------------------------------

/// Every number but 0 is true. `!`, `&&` and `||` give 1 for true and 0 for false, and
/// `&&` is what `!` and `||` make of it.
pub proof fn law_logic_is_about_zero(l: i64, r: i64)
    ensures
        ({
            let p = if l == 0 { 0int } else { 1 };
            let q = if r == 0 { 0int } else { 1 };
            &&& turns(ArithUnaryOp::LogicalNot, l, 1 - p)
            &&& gives(ArithBinaryOp::LogicalAnd, l, r, p * q)
            &&& gives(ArithBinaryOp::LogicalOr, l, r, 1 - (1 - p) * (1 - q))
            &&& gives(ArithBinaryOp::LogicalOr, (1 - p) as i64, (1 - q) as i64, 1 - p * q)
        }),
{
    lemma_numbers();
    let p = if l == 0 { 0int } else { 1 };
    let q = if r == 0 { 0int } else { 1 };
    assert(p * q == if l == 0 || r == 0 { 0int } else { 1 });
    assert((1 - p) * (1 - q) == if l == 0 && r == 0 { 1int } else { 0 });
}

// ---- order of evaluation ----------------------------------------------------------------------

/// The operands of an operator are evaluated from left to right, each in the shell that
/// the one before it leaves, and the operator is applied to their values in that order.
/// What fails ends the evaluation there.
pub proof fn law_operands_are_evaluated_in_order(
    op: ArithBinaryOp,
    lhs: ArithExprV,
    rhs: ArithExprV,
    sh: ShellV,
    depth: nat,
)
    requires
        !(op is LogicalAnd) && !(op is LogicalOr),
    ensures
        ({
            let whole = eval(
                ArithExprV::Binary { op, lhs: Box::new(lhs), rhs: Box::new(rhs) },
                sh,
                depth,
            );
            let l = eval(lhs, sh, depth);
            let r = eval(rhs, l.shell, depth);
            &&& l.value is Err ==> whole == l
            &&& l.value is Ok && r.value is Err ==> whole == r
            &&& l.value is Ok && r.value is Ok ==> whole == eval(
                of_numbers(op, l.value->Ok_0, r.value->Ok_0),
                r.shell,
                depth,
            )
        }),
{
    lemma_numbers();
}

/// Where the first operand of `&&` or `||` does not settle the value, the second one
/// does: it is evaluated behind the first, and it is 1 or 0 as that is true or false.
pub proof fn law_logic_goes_on(lhs: ArithExprV, rhs: ArithExprV, sh: ShellV, depth: nat)
    ensures
        ({
            let l = eval(lhs, sh, depth);
            let r = eval(rhs, l.shell, depth);
            let and = eval(
                ArithExprV::Binary {
                    op: ArithBinaryOp::LogicalAnd,
                    lhs: Box::new(lhs),
                    rhs: Box::new(rhs),
                },
                sh,
                depth,
            );
            let or = eval(
                ArithExprV::Binary {
                    op: ArithBinaryOp::LogicalOr,
                    lhs: Box::new(lhs),
                    rhs: Box::new(rhs),
                },
                sh,
                depth,
            );
            let truth = match r.value {
                Ok(n) => EvalV { shell: r.shell, value: Ok(if n == 0 { 0i64 } else { 1 }) },
                Err(_) => r,
            };
            &&& l.value is Err ==> and == l && or == l
            &&& l.value is Ok && l.value->Ok_0 != 0 ==> and == truth
            &&& l.value == Ok::<i64, ExpandErrorV>(0) ==> or == truth
        }),
{
}

/// The value of `a, b` is that of `b`, in the shell that `a` leaves.
pub proof fn law_commas_go_from_left_to_right(
    first: ArithExprV,
    second: ArithExprV,
    sh: ShellV,
    depth: nat,
)
    ensures
        ({
            let a = eval(first, sh, depth);
            eval(
                ArithExprV::Comma { first: Box::new(first), second: Box::new(second) },
                sh,
                depth,
            ) == (if a.value is Ok {
                eval(second, a.shell, depth)
            } else {
                a
            })
        }),
{
}

// ---- assignment -------------------------------------------------------------------------------

/// Assignment gives the value that is assigned, and the variable then has it, in
/// decimal. No other variable changes.
pub proof fn law_assignment_assigns(
    target: Seq<char>,
    value: ArithExprV,
    sh: ShellV,
    depth: nat,
    other: Seq<char>,
)
    ensures
        ({
            let v = eval(value, sh, depth);
            let whole = eval(
                ArithExprV::Assign { op: ArithAssignOp::Assign, target, value: Box::new(value) },
                sh,
                depth,
            );
            &&& whole.value == v.value
            &&& v.value is Err ==> whole.shell == v.shell
            &&& v.value matches Ok(n) ==> {
                &&& whole.shell.vars.contains_key(target)
                &&& whole.shell.vars[target] == decimal(n as int)
                &&& other != target ==> lookup(whole.shell, other) == lookup(v.shell, other)
                &&& whole.shell == (ShellV { vars: whole.shell.vars, ..v.shell })
            }
        }),
{
}

/// The operator that goes with an assignment operator.
pub open spec fn goes_with(assign: ArithAssignOp, op: ArithBinaryOp) -> bool {
    ||| assign is AddAssign && op is Add
    ||| assign is SubAssign && op is Sub
    ||| assign is MulAssign && op is Mul
    ||| assign is DivAssign && op is Div
    ||| assign is RemAssign && op is Rem
    ||| assign is ShiftLeftAssign && op is ShiftLeft
    ||| assign is ShiftRightAssign && op is ShiftRight
    ||| assign is BitAndAssign && op is BitAnd
    ||| assign is BitXorAssign && op is BitXor
    ||| assign is BitOrAssign && op is BitOr
}

/// `x op= n` is `x = x op n`.
pub proof fn law_assignment_operators_are_short(
    assign: ArithAssignOp,
    op: ArithBinaryOp,
    target: Seq<char>,
    n: i64,
    sh: ShellV,
    depth: nat,
)
    requires
        goes_with(assign, op),
    ensures
        eval(
            ArithExprV::Assign {
                op: assign,
                target,
                value: Box::new(ArithExprV::Number(n)),
            },
            sh,
            depth,
        ) == eval(
            ArithExprV::Assign {
                op: ArithAssignOp::Assign,
                target,
                value: Box::new(
                    ArithExprV::Binary {
                        op,
                        lhs: Box::new(ArithExprV::Variable(target)),
                        rhs: Box::new(ArithExprV::Number(n)),
                    },
                ),
            },
            sh,
            depth,
        ),
{
    let var = ArithExprV::Variable(target);
    let num = ArithExprV::Number(n);
    let sum = ArithExprV::Binary { op, lhs: Box::new(var), rhs: Box::new(num) };
    let v = eval_variable(target, sh, depth);
    assert(eval(var, sh, depth) == v);
    assert(eval(num, sh, depth) == (EvalV { shell: sh, value: Ok(n) }));
    assert(eval(num, v.shell, depth) == (EvalV { shell: v.shell, value: Ok(n) }));
    assert(eval(sum, sh, depth) == (match v.value {
        Err(_) => v,
        Ok(a) => EvalV { shell: v.shell, value: binary(op, a, n) },
    }));
}

/// `++x` is `x += 1` and `--x` is `x -= 1`. `x++` and `x--` do the same to the variable
/// and give the value that it had.
pub proof fn law_increments_add_one(target: Seq<char>, sh: ShellV, depth: nat)
    ensures
        ({
            let one = |op: IncrDecrOp, prefix: bool| eval(
                ArithExprV::IncrDecr { op, target, prefix },
                sh,
                depth,
            );
            let by_one = |op: ArithAssignOp| eval(
                ArithExprV::Assign { op, target, value: Box::new(ArithExprV::Number(1)) },
                sh,
                depth,
            );
            let had = eval(ArithExprV::Variable(target), sh, depth);
            &&& one(IncrDecrOp::Increment, true) == by_one(ArithAssignOp::AddAssign)
            &&& one(IncrDecrOp::Decrement, true) == by_one(ArithAssignOp::SubAssign)
            &&& one(IncrDecrOp::Increment, false).shell == one(IncrDecrOp::Increment, true).shell
            &&& one(IncrDecrOp::Decrement, false).shell == one(IncrDecrOp::Decrement, true).shell
            &&& one(IncrDecrOp::Increment, false).value == had.value
            &&& one(IncrDecrOp::Decrement, false).value == had.value
        }),
{
    let num = ArithExprV::Number(1);
    assert(eval(num, sh, depth) == (EvalV { shell: sh, value: Ok(1) }));
}

} // verus!
