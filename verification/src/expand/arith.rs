//! Evaluation of arithmetic expressions, in 64-bit integers that wrap around.

use vstd::arithmetic::power::pow;
use vstd::prelude::*;

use super::{ExpandError, ExpandErrorV};
use crate::arithmetic::rules::{expression, two64, wrap64, ArithExprV};
use crate::arithmetic::{
    arith_error_text, expr_view, parse_arithmetic_expr, ArithAssignOp, ArithBinaryOp, ArithExpr,
    ArithUnaryOp, IncrDecrOp,
};
use crate::numbers::{decimal, i64_to_text};
use crate::shell::{lookup, Shell, ShellV};

verus! {

/// How often the value of a variable may in turn be evaluated.
pub const MAX_ARITH_RECURSION: u32 = 100;

// ---- the rules ----------------------------------------------------------------------------

/// The size of `n`.
pub open spec fn size(n: int) -> int {
    if n < 0 {
        -n
    } else {
        n
    }
}

/// `l / r`, rounded towards zero.
pub open spec fn quotient(l: int, r: int) -> int {
    if (l < 0) != (r < 0) {
        -(size(l) / size(r))
    } else {
        size(l) / size(r)
    }
}

/// What `quotient` leaves of `l`: it has the sign of `l`.
pub open spec fn remainder(l: int, r: int) -> int {
    if l < 0 {
        -(size(l) % size(r))
    } else {
        size(l) % size(r)
    }
}

/// 1 for true, 0 for false.
pub open spec fn truth(b: bool) -> i64 {
    if b {
        1
    } else {
        0
    }
}

/// How far to shift: the last six bits of the operand.
pub open spec fn shift_amount(r: i64) -> u32 {
    (r % 64) as u32
}

/// The value of an operator with two operands, both of which are evaluated.
pub open spec fn binary(op: ArithBinaryOp, l: i64, r: i64) -> Result<i64, ExpandErrorV> {
    match op {
        ArithBinaryOp::Power => if r < 0 {
            Err(ExpandErrorV::NegativeExponent)
        } else {
            Ok(wrap64(pow(l as int, r as nat)))
        },
        ArithBinaryOp::Mul => Ok(wrap64(l * r)),
        ArithBinaryOp::Div => if r == 0 {
            Err(ExpandErrorV::DivisionByZero)
        } else {
            Ok(wrap64(quotient(l as int, r as int)))
        },
        ArithBinaryOp::Rem => if r == 0 {
            Err(ExpandErrorV::DivisionByZero)
        } else {
            Ok(wrap64(remainder(l as int, r as int)))
        },
        ArithBinaryOp::Add => Ok(wrap64(l + r)),
        ArithBinaryOp::Sub => Ok(wrap64(l - r)),
        ArithBinaryOp::ShiftLeft => Ok(l << shift_amount(r)),
        ArithBinaryOp::ShiftRight => Ok(l >> shift_amount(r)),
        ArithBinaryOp::Less => Ok(truth(l < r)),
        ArithBinaryOp::LessEq => Ok(truth(l <= r)),
        ArithBinaryOp::Greater => Ok(truth(l > r)),
        ArithBinaryOp::GreaterEq => Ok(truth(l >= r)),
        ArithBinaryOp::Eq => Ok(truth(l == r)),
        ArithBinaryOp::NotEq => Ok(truth(l != r)),
        ArithBinaryOp::BitAnd => Ok(l & r),
        ArithBinaryOp::BitXor => Ok(l ^ r),
        ArithBinaryOp::BitOr => Ok(l | r),
        ArithBinaryOp::LogicalAnd => Ok(truth(l != 0 && r != 0)),
        ArithBinaryOp::LogicalOr => Ok(truth(l != 0 || r != 0)),
    }
}

/// The value of an operator with one operand.
pub open spec fn unary(op: ArithUnaryOp, v: i64) -> i64 {
    match op {
        ArithUnaryOp::Plus => v,
        ArithUnaryOp::Minus => wrap64(-v),
        ArithUnaryOp::LogicalNot => truth(v == 0),
        ArithUnaryOp::BitNot => !v,
    }
}

/// The operator that an assignment applies, if it does.
pub open spec fn operator_of(op: ArithAssignOp) -> Option<ArithBinaryOp> {
    match op {
        ArithAssignOp::Assign => None,
        ArithAssignOp::AddAssign => Some(ArithBinaryOp::Add),
        ArithAssignOp::SubAssign => Some(ArithBinaryOp::Sub),
        ArithAssignOp::MulAssign => Some(ArithBinaryOp::Mul),
        ArithAssignOp::DivAssign => Some(ArithBinaryOp::Div),
        ArithAssignOp::RemAssign => Some(ArithBinaryOp::Rem),
        ArithAssignOp::ShiftLeftAssign => Some(ArithBinaryOp::ShiftLeft),
        ArithAssignOp::ShiftRightAssign => Some(ArithBinaryOp::ShiftRight),
        ArithAssignOp::BitAndAssign => Some(ArithBinaryOp::BitAnd),
        ArithAssignOp::BitXorAssign => Some(ArithBinaryOp::BitXor),
        ArithAssignOp::BitOrAssign => Some(ArithBinaryOp::BitOr),
    }
}

/// What evaluation gives: the shell after its assignments, and the value or the
/// error.
pub ghost struct EvalV {
    pub shell: ShellV,
    pub value: Result<i64, ExpandErrorV>,
}

/// The shell after a number was assigned to a variable of the shell.
pub open spec fn number_assigned(sh: ShellV, name: Seq<char>, n: i64) -> ShellV {
    ShellV { vars: sh.vars.insert(name, decimal(n as int)), ..sh }
}

/// Assigns the value that was computed, if one was.
pub open spec fn assigned(r: EvalV, name: Seq<char>) -> EvalV {
    match r.value {
        Ok(n) => EvalV { shell: number_assigned(r.shell, name, n), value: Ok(n) },
        Err(_) => r,
    }
}

/// How many more times the value of a variable may be evaluated.
pub open spec fn levels_left(depth: nat) -> nat {
    if depth < MAX_ARITH_RECURSION {
        (MAX_ARITH_RECURSION - depth) as nat
    } else {
        0
    }
}

/// The value of a variable: that of its text as an expression, or 0 if it is
/// unset.
pub open spec fn eval_variable(name: Seq<char>, sh: ShellV, depth: nat) -> EvalV
    decreases levels_left(depth), 0nat, ArithExprV::Number(0),
{
    match lookup(sh, name) {
        None => EvalV { shell: sh, value: Ok(0) },
        Some(text) => if depth >= MAX_ARITH_RECURSION {
            EvalV { shell: sh, value: Err(ExpandErrorV::ArithmeticRecursionLimit) }
        } else {
            match expression(text) {
                Err(e) => EvalV {
                    shell: sh,
                    value: Err(ExpandErrorV::ArithmeticSyntax(arith_error_text(e))),
                },
                Ok(e) => eval(e, sh, depth + 1),
            }
        },
    }
}

/// The value of an expression. `&&` and `||` evaluate their second operand, and
/// `?:` one of its branches, only where the value depends on it.
pub open spec fn eval(e: ArithExprV, sh: ShellV, depth: nat) -> EvalV
    decreases levels_left(depth), 1nat, e,
{
    match e {
        ArithExprV::Number(n) => EvalV { shell: sh, value: Ok(n) },
        ArithExprV::Variable(name) => eval_variable(name, sh, depth),
        ArithExprV::Unary { op, operand } => {
            let r = eval(*operand, sh, depth);
            match r.value {
                Err(_) => r,
                Ok(v) => EvalV { shell: r.shell, value: Ok(unary(op, v)) },
            }
        },
        ArithExprV::IncrDecr { op, target, prefix } => {
            let r = eval_variable(target, sh, depth);
            match r.value {
                Err(_) => r,
                Ok(v) => {
                    let new = match op {
                        IncrDecrOp::Increment => wrap64(v + 1),
                        IncrDecrOp::Decrement => wrap64(v - 1),
                    };
                    EvalV {
                        shell: number_assigned(r.shell, target, new),
                        value: Ok(
                            if prefix {
                                new
                            } else {
                                v
                            },
                        ),
                    }
                },
            }
        },
        ArithExprV::Binary { op, lhs, rhs } => {
            let l = eval(*lhs, sh, depth);
            match l.value {
                Err(_) => l,
                Ok(a) => if op is LogicalAnd && a == 0 {
                    EvalV { shell: l.shell, value: Ok(0) }
                } else if op is LogicalOr && a != 0 {
                    EvalV { shell: l.shell, value: Ok(1) }
                } else {
                    let r = eval(*rhs, l.shell, depth);
                    match r.value {
                        Err(_) => r,
                        Ok(b) => EvalV { shell: r.shell, value: binary(op, a, b) },
                    }
                },
            }
        },
        ArithExprV::Conditional { cond, if_true, if_false } => {
            let c = eval(*cond, sh, depth);
            match c.value {
                Err(_) => c,
                Ok(v) => if v != 0 {
                    eval(*if_true, c.shell, depth)
                } else {
                    eval(*if_false, c.shell, depth)
                },
            }
        },
        ArithExprV::Assign { op, target, value } => {
            let r = eval(*value, sh, depth);
            match r.value {
                Err(_) => r,
                Ok(b) => match operator_of(op) {
                    None => assigned(r, target),
                    Some(op) => {
                        let v = eval_variable(target, r.shell, depth);
                        match v.value {
                            Err(_) => v,
                            Ok(a) => assigned(
                                EvalV { shell: v.shell, value: binary(op, a, b) },
                                target,
                            ),
                        }
                    },
                },
            }
        },
        ArithExprV::Comma { first, second } => {
            let a = eval(*first, sh, depth);
            match a.value {
                Err(_) => a,
                Ok(_) => eval(*second, a.shell, depth),
            }
        },
    }
}

// ---- operators ----------------------------------------------------------------------------

/// The view of a value or an error.
pub open spec fn value_view(r: Result<i64, ExpandError>) -> Result<i64, ExpandErrorV> {
    match r {
        Ok(n) => Ok(n),
        Err(e) => Err(e@),
    }
}

pub proof fn lemma_wrap64_near(n: int)
    requires
        i64::MIN - two64() < n < i64::MAX + two64(),
    ensures
        wrap64(n) == (if n > i64::MAX {
            (n - two64()) as i64
        } else if n < i64::MIN {
            (n + two64()) as i64
        } else {
            n as i64
        }),
{
}

pub proof fn lemma_wrap64_mod(n: int)
    ensures
        wrap64(n) as int % two64() == n % two64(),
{
}

pub proof fn lemma_wrap64_congruent(a: int, b: int)
    requires
        a % two64() == b % two64(),
    ensures
        wrap64(a) == wrap64(b),
{
}

/// A factor may be cut to 64 bits before the multiplication.
pub proof fn lemma_wrap64_mul(a: int, b: int)
    ensures
        wrap64(wrap64(a) * b) == wrap64(a * b),
{
    let m = two64();
    lemma_wrap64_mod(a);
    vstd::arithmetic::div_mod::lemma_mul_mod_noop(wrap64(a) as int, b, m);
    vstd::arithmetic::div_mod::lemma_mul_mod_noop(a, b, m);
    lemma_wrap64_congruent(wrap64(a) * b, a * b);
}

/// A base may be cut to 64 bits before it is raised.
pub proof fn lemma_wrap64_pow(k: int, a: int, e: nat)
    ensures
        wrap64(k * pow(wrap64(a) as int, e)) == wrap64(k * pow(a, e)),
{
    let m = two64();
    lemma_wrap64_mod(a);
    vstd::arithmetic::power::lemma_pow_mod_noop(wrap64(a) as int, e, m);
    vstd::arithmetic::power::lemma_pow_mod_noop(a, e, m);
    let x = pow(wrap64(a) as int, e);
    let y = pow(a, e);
    assert(x % m == y % m);
    vstd::arithmetic::div_mod::lemma_mul_mod_noop(k, x, m);
    vstd::arithmetic::div_mod::lemma_mul_mod_noop(k, y, m);
    lemma_wrap64_congruent(k * x, k * y);
}

/// `l / r`, rounded towards zero.
#[verifier::spinoff_prover]
pub fn checked_div(l: i64, r: i64) -> (v: Result<i64, ExpandError>)
    ensures
        value_view(v) == binary(ArithBinaryOp::Div, l, r),
{
    if r == 0 {
        return Err(ExpandError::DivisionByZero);
    }
    proof {
        lemma_quotient_bounds(l as int, r as int);
    }
    match l.checked_div(r) {
        Some(q) => Ok(q),
        None => Ok(i64::MIN),
    }
}

pub proof fn lemma_quotient_bounds(l: int, r: int)
    requires
        i64::MIN <= l <= i64::MAX,
        i64::MIN <= r <= i64::MAX,
        r != 0,
    ensures
        0 <= size(l) / size(r) <= size(l),
        0 <= size(l) % size(r) < size(r),
        size(l) / size(r) == 0x8000_0000_0000_0000 ==> l == i64::MIN && size(r) == 1,
{
    assert(0 <= size(l) / size(r) <= size(l)) by (nonlinear_arith)
        requires
            size(r) >= 1,
            size(l) >= 0,
    ;
    if size(r) >= 2 {
        assert(size(l) / size(r) <= size(l) / 2) by (nonlinear_arith)
            requires
                size(r) >= 2,
                size(l) >= 0,
        ;
    }
}

/// What [`checked_div`] leaves.
#[verifier::spinoff_prover]
pub fn checked_rem(l: i64, r: i64) -> (v: Result<i64, ExpandError>)
    ensures
        value_view(v) == binary(ArithBinaryOp::Rem, l, r),
{
    if r == 0 {
        return Err(ExpandError::DivisionByZero);
    }
    proof {
        let (a, b) = (l as int, r as int);
        lemma_quotient_bounds(a, b);
        lemma_wrap64_near(remainder(a, b));
        assert(size(a) == (if a < 0 {
            a * -1
        } else {
            a
        }));
        assert(size(b) == (if b < 0 {
            b * -1
        } else {
            b
        }));
        vstd::arithmetic::div_mod::lemma_small_mod(0, size(b) as nat);
        assert(a == 0 ==> size(a) % size(b) == 0);
        assert(a == i64::MIN && b == -1 ==> remainder(a, b) == 0);
    }
    match l.checked_rem(r) {
        Some(v) => Ok(v),
        None => Ok(0),
    }
}

/// `base` to the power of `exp`, by repeated squaring.
pub fn arith_pow(base: i64, exp: i64) -> (v: Result<i64, ExpandError>)
    ensures
        value_view(v) == binary(ArithBinaryOp::Power, base, exp),
{
    if exp < 0 {
        return Err(ExpandError::NegativeExponent);
    }
    let ghost whole = wrap64(pow(base as int, exp as nat));
    let mut result: i64 = 1;
    let mut factor: i64 = base;
    let mut left: u64 = exp as u64;
    while left > 0
        invariant
            whole == wrap64(result * pow(factor as int, left as nat)),
        decreases left,
    {
        let ghost (r0, f0, n0) = (result as int, factor as int, left as nat);
        let ghost half = n0 / 2;
        if left % 2 == 1 {
            result = result.wrapping_mul(factor);
        }
        factor = factor.wrapping_mul(factor);
        left = left / 2;
        proof {
            assert(half * 2 == n0 - n0 % 2);
            vstd::arithmetic::power::lemma_pow_multiplies(f0, 2, half);
            assert(pow(f0, 2) == f0 * f0) by {
                reveal_with_fuel(pow, 3);
            }
            assert(pow(pow(f0, 2), half) == pow(f0, 2 * half));
            if n0 % 2 == 1 {
                assert(pow(f0, n0) == f0 * pow(f0, (n0 - 1) as nat)) by {
                    reveal(pow);
                }
                let p = pow(f0 * f0, half);
                assert(r0 * (f0 * p) == (r0 * f0) * p) by (nonlinear_arith);
                lemma_wrap64_mul(r0 * f0, p);
                lemma_wrap64_pow(result as int, f0 * f0, half);
            } else {
                lemma_wrap64_pow(r0, f0 * f0, half);
            }
        }
    }
    assert(pow(factor as int, 0) == 1) by {
        reveal(pow);
    }
    proof {
        lemma_wrap64_near(result as int);
    }
    Ok(result)
}

/// How far to shift.
fn shift_of(r: i64) -> (k: u32)
    ensures
        k == shift_amount(r),
        k < 64,
{
    match r.checked_rem_euclid(64) {
        Some(low) => low as u32,
        None => 0,
    }
}

fn bool_value(b: bool) -> (v: i64)
    ensures
        v == truth(b),
{
    if b {
        1
    } else {
        0
    }
}

/// Applies an operator to two values.
fn apply_binary(op: ArithBinaryOp, l: i64, r: i64) -> (v: Result<i64, ExpandError>)
    ensures
        value_view(v) == binary(op, l, r),
{
    proof {
        lemma_wrap64_near(l + r);
        lemma_wrap64_near(l - r);
    }
    match op {
        ArithBinaryOp::Power => arith_pow(l, r),
        ArithBinaryOp::Mul => Ok(l.wrapping_mul(r)),
        ArithBinaryOp::Div => checked_div(l, r),
        ArithBinaryOp::Rem => checked_rem(l, r),
        ArithBinaryOp::Add => Ok(l.wrapping_add(r)),
        ArithBinaryOp::Sub => Ok(l.wrapping_sub(r)),
        ArithBinaryOp::ShiftLeft => Ok(l.wrapping_shl(shift_of(r))),
        ArithBinaryOp::ShiftRight => Ok(l.wrapping_shr(shift_of(r))),
        ArithBinaryOp::Less => Ok(bool_value(l < r)),
        ArithBinaryOp::LessEq => Ok(bool_value(l <= r)),
        ArithBinaryOp::Greater => Ok(bool_value(l > r)),
        ArithBinaryOp::GreaterEq => Ok(bool_value(l >= r)),
        ArithBinaryOp::Eq => Ok(bool_value(l == r)),
        ArithBinaryOp::NotEq => Ok(bool_value(l != r)),
        ArithBinaryOp::BitAnd => Ok(l & r),
        ArithBinaryOp::BitXor => Ok(l ^ r),
        ArithBinaryOp::BitOr => Ok(l | r),
        ArithBinaryOp::LogicalAnd => Ok(bool_value(l != 0 && r != 0)),
        ArithBinaryOp::LogicalOr => Ok(bool_value(l != 0 || r != 0)),
    }
}

fn apply_unary(op: ArithUnaryOp, v: i64) -> (r: i64)
    ensures
        r == unary(op, v),
{
    proof {
        lemma_wrap64_near(-v);
    }
    match op {
        ArithUnaryOp::Plus => v,
        ArithUnaryOp::Minus => 0i64.wrapping_sub(v),
        ArithUnaryOp::LogicalNot => bool_value(v == 0),
        ArithUnaryOp::BitNot => !v,
    }
}

fn operator_for(op: ArithAssignOp) -> (r: Option<ArithBinaryOp>)
    ensures
        r == operator_of(op),
{
    match op {
        ArithAssignOp::Assign => None,
        ArithAssignOp::AddAssign => Some(ArithBinaryOp::Add),
        ArithAssignOp::SubAssign => Some(ArithBinaryOp::Sub),
        ArithAssignOp::MulAssign => Some(ArithBinaryOp::Mul),
        ArithAssignOp::DivAssign => Some(ArithBinaryOp::Div),
        ArithAssignOp::RemAssign => Some(ArithBinaryOp::Rem),
        ArithAssignOp::ShiftLeftAssign => Some(ArithBinaryOp::ShiftLeft),
        ArithAssignOp::ShiftRightAssign => Some(ArithBinaryOp::ShiftRight),
        ArithAssignOp::BitAndAssign => Some(ArithBinaryOp::BitAnd),
        ArithAssignOp::BitXorAssign => Some(ArithBinaryOp::BitXor),
        ArithAssignOp::BitOrAssign => Some(ArithBinaryOp::BitOr),
    }
}

// ---- evaluation ---------------------------------------------------------------------------

fn assign_number(shell: &mut Shell, name: &String, n: i64)
    ensures
        final(shell)@ == number_assigned(old(shell)@, name@, n),
{
    let _ = shell.shell_vars.insert(name.clone(), i64_to_text(n));
}

/// The value of a variable.
fn eval_arith_variable(name: &str, shell: &mut Shell, depth: u32) -> (r: Result<i64, ExpandError>)
    ensures
        final(shell)@ == eval_variable(name@, old(shell)@, depth as nat).shell,
        value_view(r) == eval_variable(name@, old(shell)@, depth as nat).value,
    decreases levels_left(depth as nat), 0nat, ArithExprV::Number(0),
{
    let value = match shell.get_var(name) {
        None => {
            return Ok(0);
        },
        Some(v) => v.to_owned(),
    };
    if depth >= MAX_ARITH_RECURSION {
        return Err(ExpandError::ArithmeticRecursionLimit);
    }
    match parse_arithmetic_expr(value.as_str()) {
        Err(e) => Err(ExpandError::ArithmeticSyntax(e.message())),
        Ok(expr) => eval_arith(&expr, shell, depth + 1),
    }
}

/// Evaluates an expression; `depth` variables are being evaluated already.
pub fn eval_arith(expr: &ArithExpr, shell: &mut Shell, depth: u32) -> (r: Result<i64, ExpandError>)
    ensures
        final(shell)@ == eval(expr_view(*expr), old(shell)@, depth as nat).shell,
        value_view(r) == eval(expr_view(*expr), old(shell)@, depth as nat).value,
    decreases levels_left(depth as nat), 1nat, expr_view(*expr),
{
    match expr {
        ArithExpr::Number(n) => Ok(*n),
        ArithExpr::Variable(name) => eval_arith_variable(name.as_str(), shell, depth),
        ArithExpr::Unary { op, operand } => {
            let v: i64 = eval_arith(operand, shell, depth)?;
            Ok(apply_unary(*op, v))
        },
        ArithExpr::IncrDecr { op, target, prefix } => {
            let v: i64 = eval_arith_variable(target.as_str(), shell, depth)?;
            proof {
                lemma_wrap64_near(v + 1);
                lemma_wrap64_near(v - 1);
            }
            let new: i64 = match op {
                IncrDecrOp::Increment => v.wrapping_add(1),
                IncrDecrOp::Decrement => v.wrapping_sub(1),
            };
            assign_number(shell, target, new);
            Ok(
                if *prefix {
                    new
                } else {
                    v
                },
            )
        },
        ArithExpr::Binary { op, lhs, rhs } => {
            let l: i64 = eval_arith(lhs, shell, depth)?;
            match op {
                ArithBinaryOp::LogicalAnd => if l == 0 {
                    return Ok(0);
                },
                ArithBinaryOp::LogicalOr => if l != 0 {
                    return Ok(1);
                },
                _ => {},
            }
            let r: i64 = eval_arith(rhs, shell, depth)?;
            apply_binary(*op, l, r)
        },
        ArithExpr::Conditional { cond, if_true, if_false } => {
            let c: i64 = eval_arith(cond, shell, depth)?;
            if c != 0 {
                eval_arith(if_true, shell, depth)
            } else {
                eval_arith(if_false, shell, depth)
            }
        },
        ArithExpr::Assign { op, target, value } => {
            let b: i64 = eval_arith(value, shell, depth)?;
            let new: i64 = match operator_for(*op) {
                None => b,
                Some(op) => {
                    let a: i64 = eval_arith_variable(target.as_str(), shell, depth)?;
                    apply_binary(op, a, b)?
                },
            };
            assign_number(shell, target, new);
            Ok(new)
        },
        ArithExpr::Comma { first, second } => {
            let _ = eval_arith(first, shell, depth)?;
            eval_arith(second, shell, depth)
        },
    }
}

} // verus!
