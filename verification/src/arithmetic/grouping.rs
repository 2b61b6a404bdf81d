//! How the tokens of an arithmetic expression are grouped.
//!
//! Every expression that is written down with parentheses is read back, and without them
//! the operators bind in their order.

use vstd::prelude::*;

use super::rules::{
    assign_op, assignment, base_value, binary, binary_expr, binary_op_at, binary_rest, comma,
    comma_rest, conditional, literal, postfix, power, primary, punct_at, tok_at, token_at, unary,
    unary_op, whole, ArithErrorV, ArithExprV, TokV, Tokens,
};
use super::{ArithAssignOp, ArithBinaryOp, ArithUnaryOp, IncrDecrOp, Punct};

verus! {

// ---- how it is written --------------------------------------------------------------------------

/// How a token of one to three characters is written.
pub open spec fn spelling(q: Punct) -> Seq<char> {
    match q {
        Punct::LParen => seq!['('],
        Punct::RParen => seq![')'],
        Punct::Plus => seq!['+'],
        Punct::Minus => seq!['-'],
        Punct::Star => seq!['*'],
        Punct::StarStar => seq!['*', '*'],
        Punct::Slash => seq!['/'],
        Punct::Percent => seq!['%'],
        Punct::Bang => seq!['!'],
        Punct::Tilde => seq!['~'],
        Punct::Amp => seq!['&'],
        Punct::AmpAmp => seq!['&', '&'],
        Punct::Pipe => seq!['|'],
        Punct::PipePipe => seq!['|', '|'],
        Punct::Caret => seq!['^'],
        Punct::Shl => seq!['<', '<'],
        Punct::Shr => seq!['>', '>'],
        Punct::Lt => seq!['<'],
        Punct::Le => seq!['<', '='],
        Punct::Gt => seq!['>'],
        Punct::Ge => seq!['>', '='],
        Punct::EqEq => seq!['=', '='],
        Punct::NotEq => seq!['!', '='],
        Punct::Question => seq!['?'],
        Punct::Colon => seq![':'],
        Punct::Comma => seq![','],
        Punct::Assign => seq!['='],
        Punct::PlusEq => seq!['+', '='],
        Punct::MinusEq => seq!['-', '='],
        Punct::StarEq => seq!['*', '='],
        Punct::SlashEq => seq!['/', '='],
        Punct::PercentEq => seq!['%', '='],
        Punct::ShlEq => seq!['<', '<', '='],
        Punct::ShrEq => seq!['>', '>', '='],
        Punct::AmpEq => seq!['&', '='],
        Punct::CaretEq => seq!['^', '='],
        Punct::PipeEq => seq!['|', '='],
        Punct::PlusPlus => seq!['+', '+'],
        Punct::MinusMinus => seq!['-', '-'],
    }
}

/// Every operator is read as it is written, by itself and with a blank, a digit or a letter
/// behind it.
pub proof fn law_operators_read_back(q: Punct, rest: Seq<char>)
    requires
        rest.len() > 0 ==> rest[0] == ' ' || rest[0] == 'x' || rest[0] == '1',
    ensures
        token_at(spelling(q) + rest, 0) == Ok::<(TokV, int), ArithErrorV>(
            (TokV::Punct(q), spelling(q).len() as int),
        ),
{
    let own = spelling(q);
    let s = own + rest;
    let n = own.len() as int;
    assert(s[0] == own[0]);
    if n > 1 {
        assert(s[1] == own[1]);
    }
    if n > 2 {
        assert(s[2] == own[2]);
    }
    if rest.len() > 0 {
        assert(s[n] == rest[0]);
    }
}

/// The token of an operator with two operands.
pub open spec fn sign(op: ArithBinaryOp) -> Punct {
    match op {
        ArithBinaryOp::Power => Punct::StarStar,
        ArithBinaryOp::Mul => Punct::Star,
        ArithBinaryOp::Div => Punct::Slash,
        ArithBinaryOp::Rem => Punct::Percent,
        ArithBinaryOp::Add => Punct::Plus,
        ArithBinaryOp::Sub => Punct::Minus,
        ArithBinaryOp::ShiftLeft => Punct::Shl,
        ArithBinaryOp::ShiftRight => Punct::Shr,
        ArithBinaryOp::Less => Punct::Lt,
        ArithBinaryOp::LessEq => Punct::Le,
        ArithBinaryOp::Greater => Punct::Gt,
        ArithBinaryOp::GreaterEq => Punct::Ge,
        ArithBinaryOp::Eq => Punct::EqEq,
        ArithBinaryOp::NotEq => Punct::NotEq,
        ArithBinaryOp::BitAnd => Punct::Amp,
        ArithBinaryOp::BitXor => Punct::Caret,
        ArithBinaryOp::BitOr => Punct::Pipe,
        ArithBinaryOp::LogicalAnd => Punct::AmpAmp,
        ArithBinaryOp::LogicalOr => Punct::PipePipe,
    }
}

/// How loosely an operator binds.
pub open spec fn rank(op: ArithBinaryOp) -> nat {
    match op {
        ArithBinaryOp::Power => 0,
        ArithBinaryOp::Mul => 1,
        ArithBinaryOp::Div => 1,
        ArithBinaryOp::Rem => 1,
        ArithBinaryOp::Add => 2,
        ArithBinaryOp::Sub => 2,
        ArithBinaryOp::ShiftLeft => 3,
        ArithBinaryOp::ShiftRight => 3,
        ArithBinaryOp::Less => 4,
        ArithBinaryOp::LessEq => 4,
        ArithBinaryOp::Greater => 4,
        ArithBinaryOp::GreaterEq => 4,
        ArithBinaryOp::Eq => 5,
        ArithBinaryOp::NotEq => 5,
        ArithBinaryOp::BitAnd => 6,
        ArithBinaryOp::BitXor => 7,
        ArithBinaryOp::BitOr => 8,
        ArithBinaryOp::LogicalAnd => 9,
        ArithBinaryOp::LogicalOr => 10,
    }
}

/// The token of an operator with one operand.
pub open spec fn unary_sign(op: ArithUnaryOp) -> Punct {
    match op {
        ArithUnaryOp::Plus => Punct::Plus,
        ArithUnaryOp::Minus => Punct::Minus,
        ArithUnaryOp::LogicalNot => Punct::Bang,
        ArithUnaryOp::BitNot => Punct::Tilde,
    }
}

/// The token of an assignment operator.
pub open spec fn assign_sign(op: ArithAssignOp) -> Punct {
    match op {
        ArithAssignOp::Assign => Punct::Assign,
        ArithAssignOp::AddAssign => Punct::PlusEq,
        ArithAssignOp::SubAssign => Punct::MinusEq,
        ArithAssignOp::MulAssign => Punct::StarEq,
        ArithAssignOp::DivAssign => Punct::SlashEq,
        ArithAssignOp::RemAssign => Punct::PercentEq,
        ArithAssignOp::ShiftLeftAssign => Punct::ShlEq,
        ArithAssignOp::ShiftRightAssign => Punct::ShrEq,
        ArithAssignOp::BitAndAssign => Punct::AmpEq,
        ArithAssignOp::BitXorAssign => Punct::CaretEq,
        ArithAssignOp::BitOrAssign => Punct::PipeEq,
    }
}

/// The token of `++` or `--`.
pub open spec fn step_sign(op: IncrDecrOp) -> Punct {
    match op {
        IncrDecrOp::Increment => Punct::PlusPlus,
        IncrDecrOp::Decrement => Punct::MinusMinus,
    }
}

/// An expression as an operand: in parentheses, unless it is a number or a variable.
pub open spec fn operand_form(e: ArithExprV) -> Seq<TokV>
    decreases e, 1nat,
{
    match e {
        ArithExprV::Number(n) => seq![TokV::Number(n)],
        ArithExprV::Variable(name) => seq![TokV::Ident(name)],
        _ => seq![TokV::Punct(Punct::LParen)] + form(e) + seq![TokV::Punct(Punct::RParen)],
    }
}

/// An expression written down, with all of its operands in parentheses.
pub open spec fn form(e: ArithExprV) -> Seq<TokV>
    decreases e, 0nat,
{
    match e {
        ArithExprV::Number(n) => seq![TokV::Number(n)],
        ArithExprV::Variable(name) => seq![TokV::Ident(name)],
        ArithExprV::Unary { op, operand } => seq![TokV::Punct(unary_sign(op))] + operand_form(
            *operand,
        ),
        ArithExprV::IncrDecr { op, target, prefix } => if prefix {
            seq![TokV::Punct(step_sign(op)), TokV::Ident(target)]
        } else {
            seq![TokV::Ident(target), TokV::Punct(step_sign(op))]
        },
        ArithExprV::Binary { op, lhs, rhs } => operand_form(*lhs) + seq![TokV::Punct(sign(op))]
            + operand_form(*rhs),
        ArithExprV::Conditional { cond, if_true, if_false } => operand_form(*cond) + seq![
            TokV::Punct(Punct::Question),
        ] + operand_form(*if_true) + seq![TokV::Punct(Punct::Colon)] + operand_form(*if_false),
        ArithExprV::Assign { op, target, value } => seq![
            TokV::Ident(target),
            TokV::Punct(assign_sign(op)),
        ] + operand_form(*value),
        ArithExprV::Comma { first, second } => operand_form(*first) + seq![
            TokV::Punct(Punct::Comma),
        ] + operand_form(*second),
    }
}

// ---- reading ------------------------------------------------------------------------------------

/// These tokens stand at `i`.
pub open spec fn has(p: Tokens, i: int, ts: Seq<TokV>) -> bool {
    &&& 0 <= i
    &&& i + ts.len() <= p.toks.len()
    &&& forall|k: int| 0 <= k < ts.len() ==> p.toks[i + k].tok == #[trigger] ts[k]
}

/// What `r` read is `e`, up to `j`.
spec fn reads(r: Result<(ArithExprV, int), ArithErrorV>, e: ArithExprV, j: int) -> bool {
    r == Ok::<(ArithExprV, int), ArithErrorV>((e, j))
}

/// An expression ends before token `j`, whatever its last operator is.
spec fn ends_at(p: Tokens, j: int) -> bool {
    punct_at(p, j) is None || punct_at(p, j) == Some(Punct::RParen)
}

proof fn lemma_has_parts(p: Tokens, i: int, a: Seq<TokV>, b: Seq<TokV>)
    requires
        has(p, i, a + b),
    ensures
        has(p, i, a),
        has(p, i + a.len(), b),
{
    assert forall|k: int| 0 <= k < a.len() implies p.toks[i + k].tok == #[trigger] a[k] by {
        assert((a + b)[k] == a[k]);
    }
    assert forall|k: int| 0 <= k < b.len() implies p.toks[i + a.len() + k].tok == #[trigger] b[
        k
    ] by {
        assert((a + b)[a.len() + k] == b[k]);
    }
}

proof fn lemma_has_one(p: Tokens, i: int, t: TokV)
    requires
        has(p, i, seq![t]),
    ensures
        tok_at(p, i) == Some(t),
{
    assert(seq![t][0] == t);
    assert(p.toks[i + 0].tok == t);
}

/// An operator is one of its own level only.
proof fn lemma_levels_of(p: Tokens, j: int, op: ArithBinaryOp)
    requires
        punct_at(p, j) == Some(sign(op)),
    ensures
        forall|m: nat|
            1 <= m <= 10 ==> #[trigger] binary_op_at(p, j, m) == (if m == rank(op) {
                Some(op)
            } else {
                None
            }),
        op is Power <==> sign(op) == Punct::StarStar,
{
}

/// From one level to a looser one, where no operator of those between comes.
proof fn lemma_climb(p: Tokens, i: int, e: ArithExprV, j: int, from: nat, to: nat)
    requires
        reads(binary(p, i, from), e, j),
        i < j,
        from <= to,
        forall|m: nat| from < m <= to ==> #[trigger] binary_op_at(p, j, m) is None,
    ensures
        reads(binary(p, i, to), e, j),
    decreases to - from,
{
    if from < to {
        lemma_climb(p, i, e, j, from, (to - 1) as nat);
        assert(binary_op_at(p, j, to) is None);
        assert(reads(binary_rest(p, j, to, e), e, j));
    }
}

proof fn lemma_to_the_top(p: Tokens, i: int, e: ArithExprV, j: int, level: nat)
    requires
        reads(binary(p, i, level), e, j),
        level <= 10,
        i < j,
        ends_at(p, j),
    ensures
        reads(assignment(p, i), e, j),
        reads(comma(p, i), e, j),
{
    assert forall|m: nat| level < m <= 10 implies #[trigger] binary_op_at(p, j, m) is None by {}
    lemma_climb(p, i, e, j, level, 10);
    assert(reads(conditional(p, i), e, j));
    assert(reads(assignment(p, i), e, j));
    assert(reads(comma_rest(p, j, e), e, j));
}

#[verifier::spinoff_prover]
#[verifier::rlimit(60)]
proof fn lemma_operand(p: Tokens, i: int, e: ArithExprV)
    requires
        has(p, i, operand_form(e)),
    ensures
        ({
            let j = (i + operand_form(e).len()) as int;
            &&& i < j
            &&& reads(primary(p, i), e, j)
            &&& punct_at(p, i) is None || punct_at(p, i) == Some(Punct::LParen)
        }),
    decreases e, 2nat,
{
    match e {
        ArithExprV::Number(n) => {
            lemma_has_one(p, i, TokV::Number(n));
        },
        ArithExprV::Variable(name) => {
            lemma_has_one(p, i, TokV::Ident(name));
        },
        _ => {
            let open = seq![TokV::Punct(Punct::LParen)];
            let close = seq![TokV::Punct(Punct::RParen)];
            lemma_has_parts(p, i, open + form(e), close);
            lemma_has_parts(p, i, open, form(e));
            lemma_has_one(p, i, open[0]);
            let j = (i + 1 + form(e).len()) as int;
            lemma_has_one(p, j, close[0]);
            assert(punct_at(p, i) == Some(Punct::LParen));
            assert(punct_at(p, j) == Some(Punct::RParen));
            lemma_form(p, i + 1, e);
            assert(reads(comma(p, i + 1), e, j));
            assert(reads(primary(p, i), e, j + 1));
        },
    }
}

/// An operand with nothing behind it that belongs to it.
#[verifier::spinoff_prover]
proof fn lemma_alone(p: Tokens, i: int, e: ArithExprV)
    requires
        has(p, i, operand_form(e)),
        ({
            let next = punct_at(p, (i + operand_form(e).len()) as int);
            next != Some(Punct::PlusPlus) && next != Some(Punct::MinusMinus)
        }),
    ensures
        ({
            let j = (i + operand_form(e).len()) as int;
            &&& i < j
            &&& reads(unary(p, i), e, j)
            &&& punct_at(p, j) != Some(Punct::StarStar) ==> reads(binary(p, i, 0), e, j)
        }),
    decreases e, 3nat,
{
    lemma_operand(p, i, e);
    let j = (i + operand_form(e).len()) as int;
    assert(reads(postfix(p, i), e, j));
    assert(reads(unary(p, i), e, j));
    if punct_at(p, j) != Some(Punct::StarStar) {
        assert(reads(power(p, i), e, j));
    }
}

#[verifier::spinoff_prover]
proof fn lemma_form_number(p: Tokens, i: int, e: ArithExprV)
    requires
        e is Number,
        has(p, i, form(e)),
        ends_at(p, (i + form(e).len()) as int),
    ensures
        form(e).len() > 0,
        reads(comma(p, i), e, (i + form(e).len()) as int),
    decreases e, 0nat,
{
    let end = (i + form(e).len()) as int;
    match e {
        ArithExprV::Number(n) => {
            lemma_has_one(p, i, TokV::Number(n));
            assert(reads(primary(p, i), e, end));
            assert(reads(postfix(p, i), e, end));
            assert(reads(unary(p, i), e, end));
            assert(reads(power(p, i), e, end));
            lemma_to_the_top(p, i, e, end, 0);
        },
        _ => {},
    }
}

#[verifier::spinoff_prover]
proof fn lemma_form_variable(p: Tokens, i: int, e: ArithExprV)
    requires
        e is Variable,
        has(p, i, form(e)),
        ends_at(p, (i + form(e).len()) as int),
    ensures
        form(e).len() > 0,
        reads(comma(p, i), e, (i + form(e).len()) as int),
    decreases e, 0nat,
{
    let end = (i + form(e).len()) as int;
    match e {
        ArithExprV::Variable(name) => {
            lemma_has_one(p, i, TokV::Ident(name));
            assert(reads(primary(p, i), e, end));
            assert(reads(postfix(p, i), e, end));
            assert(reads(unary(p, i), e, end));
            assert(reads(power(p, i), e, end));
            lemma_to_the_top(p, i, e, end, 0);
        },
        _ => {},
    }
}

#[verifier::spinoff_prover]
proof fn lemma_form_sign(p: Tokens, i: int, e: ArithExprV)
    requires
        e is Unary,
        has(p, i, form(e)),
        ends_at(p, (i + form(e).len()) as int),
    ensures
        form(e).len() > 0,
        reads(comma(p, i), e, (i + form(e).len()) as int),
    decreases e, 0nat,
{
    let end = (i + form(e).len()) as int;
    match e {
        ArithExprV::Unary { op, operand } => {
            let front = seq![TokV::Punct(unary_sign(op))];
            lemma_has_parts(p, i, front, operand_form(*operand));
            lemma_has_one(p, i, front[0]);
            lemma_alone(p, i + 1, *operand);
            assert(unary_op(unary_sign(op)) == Some(op));
            assert(reads(unary(p, i), e, end));
            assert(reads(power(p, i), e, end));
            lemma_to_the_top(p, i, e, end, 0);
        },
        _ => {},
    }
}

#[verifier::spinoff_prover]
proof fn lemma_form_step(p: Tokens, i: int, e: ArithExprV)
    requires
        e is IncrDecr,
        has(p, i, form(e)),
        ends_at(p, (i + form(e).len()) as int),
    ensures
        form(e).len() > 0,
        reads(comma(p, i), e, (i + form(e).len()) as int),
    decreases e, 0nat,
{
    let end = (i + form(e).len()) as int;
    match e {
        ArithExprV::IncrDecr { op, target, prefix } => {
            let var = ArithExprV::Variable(target);
            if prefix {
                let (a, b) = (TokV::Punct(step_sign(op)), TokV::Ident(target));
                assert(seq![a, b] =~= seq![a] + seq![b]);
                lemma_has_parts(p, i, seq![a], seq![b]);
                lemma_has_one(p, i, a);
                lemma_has_one(p, i + 1, b);
                assert(reads(primary(p, i + 1), var, end));
                assert(reads(postfix(p, i + 1), var, end));
                assert(reads(unary(p, i + 1), var, end));
                assert(reads(unary(p, i), e, end));
            } else {
                let (a, b) = (TokV::Ident(target), TokV::Punct(step_sign(op)));
                assert(seq![a, b] =~= seq![a] + seq![b]);
                lemma_has_parts(p, i, seq![a], seq![b]);
                lemma_has_one(p, i, a);
                lemma_has_one(p, i + 1, b);
                assert(reads(primary(p, i), var, i + 1));
                assert(reads(postfix(p, i), e, end));
                assert(reads(unary(p, i), e, end));
            }
            assert(reads(power(p, i), e, end));
            lemma_to_the_top(p, i, e, end, 0);
        },
        _ => {},
    }
}

#[verifier::spinoff_prover]
proof fn lemma_form_binary(p: Tokens, i: int, e: ArithExprV)
    requires
        e is Binary,
        has(p, i, form(e)),
        ends_at(p, (i + form(e).len()) as int),
    ensures
        form(e).len() > 0,
        reads(comma(p, i), e, (i + form(e).len()) as int),
    decreases e, 0nat,
{
    let end = (i + form(e).len()) as int;
    match e {
        ArithExprV::Binary { op, lhs, rhs } => {
            let (a, b, c) = (
                operand_form(*lhs),
                seq![TokV::Punct(sign(op))],
                operand_form(*rhs),
            );
            lemma_has_parts(p, i, a + b, c);
            lemma_has_parts(p, i, a, b);
            let j = (i + a.len()) as int;
            lemma_has_one(p, j, b[0]);
            lemma_alone(p, i, *lhs);
            lemma_alone(p, j + 1, *rhs);
            lemma_two(p, i, *lhs, j, op, *rhs, end);
            lemma_to_the_top(p, i, e, end, rank(op));
        },
        _ => {},
    }
}

#[verifier::spinoff_prover]
proof fn lemma_form_conditional(p: Tokens, i: int, e: ArithExprV)
    requires
        e is Conditional,
        has(p, i, form(e)),
        ends_at(p, (i + form(e).len()) as int),
    ensures
        form(e).len() > 0,
        reads(comma(p, i), e, (i + form(e).len()) as int),
    decreases e, 0nat,
{
    let end = (i + form(e).len()) as int;
    match e {
        ArithExprV::Conditional { cond, if_true, if_false } => {
            let (a, q, b, d, c) = (
                operand_form(*cond),
                seq![TokV::Punct(Punct::Question)],
                operand_form(*if_true),
                seq![TokV::Punct(Punct::Colon)],
                operand_form(*if_false),
            );
            lemma_has_parts(p, i, a + q + b + d, c);
            lemma_has_parts(p, i, a + q + b, d);
            lemma_has_parts(p, i, a + q, b);
            lemma_has_parts(p, i, a, q);
            let j = (i + a.len()) as int;
            let k = (j + 1 + b.len()) as int;
            lemma_has_one(p, j, q[0]);
            lemma_has_one(p, k, d[0]);
            lemma_alone(p, i, *cond);
            lemma_alone(p, j + 1, *if_true);
            lemma_alone(p, k + 1, *if_false);
            lemma_climb(p, i, *cond, j, 0, 10);
            lemma_climb(p, j + 1, *if_true, k, 0, 10);
            assert(reads(conditional(p, j + 1), *if_true, k));
            assert(reads(assignment(p, j + 1), *if_true, k));
            assert(reads(comma_rest(p, k, *if_true), *if_true, k));
            assert(reads(comma(p, j + 1), *if_true, k));
            assert forall|m: nat| 0 < m <= 10 implies #[trigger] binary_op_at(p, end, m) is None by {}
            lemma_climb(p, k + 1, *if_false, end, 0, 10);
            assert(reads(conditional(p, k + 1), *if_false, end));
            assert(reads(conditional(p, i), e, end));
            assert(reads(assignment(p, i), e, end));
            assert(reads(comma_rest(p, end, e), e, end));
        },
        _ => {},
    }
}

#[verifier::spinoff_prover]
proof fn lemma_form_assignment(p: Tokens, i: int, e: ArithExprV)
    requires
        e is Assign,
        has(p, i, form(e)),
        ends_at(p, (i + form(e).len()) as int),
    ensures
        form(e).len() > 0,
        reads(comma(p, i), e, (i + form(e).len()) as int),
    decreases e, 0nat,
{
    let end = (i + form(e).len()) as int;
    match e {
        ArithExprV::Assign { op, target, value } => {
            let (a, b) = (TokV::Ident(target), TokV::Punct(assign_sign(op)));
            let var = ArithExprV::Variable(target);
            lemma_has_parts(p, i, seq![a, b], operand_form(*value));
            assert(seq![a, b] =~= seq![a] + seq![b]);
            lemma_has_parts(p, i, seq![a], seq![b]);
            lemma_has_one(p, i, a);
            lemma_has_one(p, i + 1, b);
            assert(assign_op(assign_sign(op)) == Some(op));
            assert(reads(primary(p, i), var, i + 1));
            assert(reads(postfix(p, i), var, i + 1));
            assert(reads(unary(p, i), var, i + 1));
            assert(reads(power(p, i), var, i + 1));
            lemma_climb(p, i, var, i + 1, 0, 10);
            assert(reads(conditional(p, i), var, i + 1));
            lemma_alone(p, i + 2, *value);
            lemma_to_the_top(p, i + 2, *value, end, 0);
            assert(reads(assignment(p, i), e, end));
            assert(reads(comma_rest(p, end, e), e, end));
        },
        _ => {},
    }
}

#[verifier::spinoff_prover]
proof fn lemma_form_comma(p: Tokens, i: int, e: ArithExprV)
    requires
        e is Comma,
        has(p, i, form(e)),
        ends_at(p, (i + form(e).len()) as int),
    ensures
        form(e).len() > 0,
        reads(comma(p, i), e, (i + form(e).len()) as int),
    decreases e, 0nat,
{
    let end = (i + form(e).len()) as int;
    match e {
        ArithExprV::Comma { first, second } => {
            let (a, b, c) = (
                operand_form(*first),
                seq![TokV::Punct(Punct::Comma)],
                operand_form(*second),
            );
            lemma_has_parts(p, i, a + b, c);
            lemma_has_parts(p, i, a, b);
            let j = (i + a.len()) as int;
            lemma_has_one(p, j, b[0]);
            lemma_alone(p, i, *first);
            lemma_alone(p, j + 1, *second);
            lemma_climb(p, i, *first, j, 0, 10);
            assert(reads(conditional(p, i), *first, j));
            assert(reads(assignment(p, i), *first, j));
            lemma_to_the_top(p, j + 1, *second, end, 0);
            assert(reads(comma_rest(p, end, e), e, end));
            assert(reads(comma_rest(p, j, *first), e, end));
        },
        _ => {},
    }
}

/// What is written down is read back, where the tokens behind it end it.
proof fn lemma_form(p: Tokens, i: int, e: ArithExprV)
    requires
        has(p, i, form(e)),
        ends_at(p, (i + form(e).len()) as int),
    ensures
        form(e).len() > 0,
        reads(comma(p, i), e, (i + form(e).len()) as int),
    decreases e, 1nat,
{
    match e {
        ArithExprV::Number(_) => lemma_form_number(p, i, e),
        ArithExprV::Variable(_) => lemma_form_variable(p, i, e),
        ArithExprV::Unary { .. } => lemma_form_sign(p, i, e),
        ArithExprV::IncrDecr { .. } => lemma_form_step(p, i, e),
        ArithExprV::Binary { .. } => lemma_form_binary(p, i, e),
        ArithExprV::Conditional { .. } => lemma_form_conditional(p, i, e),
        ArithExprV::Assign { .. } => lemma_form_assignment(p, i, e),
        ArithExprV::Comma { .. } => lemma_form_comma(p, i, e),
    }
}

/// Two operands with an operator between them, where what comes behind does not belong to
/// the second one.
proof fn lemma_two(
    p: Tokens,
    i: int,
    l: ArithExprV,
    j: int,
    op: ArithBinaryOp,
    r: ArithExprV,
    k: int,
)
    requires
        0 <= i < j,
        j + 1 < k,
        reads(unary(p, i), l, j),
        reads(unary(p, j + 1), r, k),
        punct_at(p, j) == Some(sign(op)),
        punct_at(p, k) != Some(Punct::StarStar),
        forall|m: nat| 0 < m <= rank(op) ==> #[trigger] binary_op_at(p, k, m) is None,
    ensures
        reads(binary(p, i, rank(op)), binary_expr(op, l, r), k),
{
    let e = binary_expr(op, l, r);
    lemma_levels_of(p, j, op);
    assert(reads(power(p, j + 1), r, k));
    if op is Power {
        assert(reads(power(p, i), e, k));
    } else {
        let level = rank(op);
        assert(reads(power(p, i), l, j));
        lemma_climb(p, i, l, j, 0, (level - 1) as nat);
        lemma_climb(p, j + 1, r, k, 0, (level - 1) as nat);
        assert(binary_op_at(p, k, level) is None);
        assert(reads(binary_rest(p, k, level, e), e, k));
        assert(reads(binary_rest(p, j, level, l), e, k));
    }
}

/// Every expression reads back: its tokens, with all of its operands in parentheses, are
/// parsed into it.
pub proof fn law_expressions_read_back(p: Tokens, e: ArithExprV)
    requires
        p.toks.len() == form(e).len(),
        has(p, 0, form(e)),
    ensures
        whole(p) == Ok::<ArithExprV, ArithErrorV>(e),
{
    lemma_form(p, 0, e);
}

// ---- without parentheses ------------------------------------------------------------------------

proof fn lemma_number(p: Tokens, i: int, n: i64)
    requires
        tok_at(p, i) == Some(TokV::Number(n)),
        punct_at(p, i + 1) != Some(Punct::PlusPlus),
        punct_at(p, i + 1) != Some(Punct::MinusMinus),
    ensures
        reads(unary(p, i), ArithExprV::Number(n), i + 1),
        punct_at(p, i + 1) != Some(Punct::StarStar) ==> reads(
            binary(p, i, 0),
            ArithExprV::Number(n),
            i + 1,
        ),
{
    let e = ArithExprV::Number(n);
    assert(reads(primary(p, i), e, i + 1));
    assert(reads(postfix(p, i), e, i + 1));
    assert(reads(unary(p, i), e, i + 1));
    if punct_at(p, i + 1) != Some(Punct::StarStar) {
        assert(reads(power(p, i), e, i + 1));
    }
}

/// Of two operators the one that binds more tightly is applied first; of two that bind the
/// same the left one, but `**` groups to the right.
pub proof fn law_operators_bind_in_their_order(
    p: Tokens,
    a: i64,
    first: ArithBinaryOp,
    b: i64,
    second: ArithBinaryOp,
    c: i64,
)
    requires
        p.toks.len() == 5,
        has(
            p,
            0,
            seq![
                TokV::Number(a),
                TokV::Punct(sign(first)),
                TokV::Number(b),
                TokV::Punct(sign(second)),
                TokV::Number(c),
            ],
        ),
    ensures
        ({
            let (x, y, z) = (ArithExprV::Number(a), ArithExprV::Number(b), ArithExprV::Number(c));
            let left = binary_expr(second, binary_expr(first, x, y), z);
            let right = binary_expr(first, x, binary_expr(second, y, z));
            whole(p) == Ok::<ArithExprV, ArithErrorV>(
                if rank(first) < rank(second) || (rank(first) == rank(second) && rank(first) > 0) {
                    left
                } else {
                    right
                },
            )
        }),
{
    let ts = seq![
        TokV::Number(a),
        TokV::Punct(sign(first)),
        TokV::Number(b),
        TokV::Punct(sign(second)),
        TokV::Number(c),
    ];
    assert(p.toks[0int + 0].tok == ts[0]);
    assert(p.toks[0int + 1].tok == ts[1]);
    assert(p.toks[0int + 2].tok == ts[2]);
    assert(p.toks[0int + 3].tok == ts[3]);
    assert(p.toks[0int + 4].tok == ts[4]);
    let (x, y, z) = (ArithExprV::Number(a), ArithExprV::Number(b), ArithExprV::Number(c));
    assert(punct_at(p, 5) is None);
    lemma_number(p, 0, a);
    lemma_number(p, 2, b);
    lemma_number(p, 4, c);
    lemma_levels_of(p, 1, first);
    lemma_levels_of(p, 3, second);
    let (n, m) = (rank(first), rank(second));
    if n < m {
        let inner = binary_expr(first, x, y);
        let e = binary_expr(second, inner, z);
        lemma_two(p, 0, x, 1, first, y, 3);
        lemma_climb(p, 0, inner, 3, n, (m - 1) as nat);
        lemma_climb(p, 4, z, 5, 0, (m - 1) as nat);
        assert(reads(binary_rest(p, 5, m, e), e, 5));
        assert(reads(binary_rest(p, 3, m, inner), e, 5));
        assert(reads(binary(p, 0, m), e, 5));
        lemma_to_the_top(p, 0, e, 5, m);
    } else if n == m && n > 0 {
        let inner = binary_expr(first, x, y);
        let e = binary_expr(second, inner, z);
        lemma_climb(p, 0, x, 1, 0, (n - 1) as nat);
        lemma_climb(p, 2, y, 3, 0, (n - 1) as nat);
        lemma_climb(p, 4, z, 5, 0, (n - 1) as nat);
        assert(reads(binary_rest(p, 5, n, e), e, 5));
        assert(reads(binary_rest(p, 3, n, inner), e, 5));
        assert(reads(binary_rest(p, 1, n, x), e, 5));
        assert(reads(binary(p, 0, n), e, 5));
        lemma_to_the_top(p, 0, e, 5, n);
    } else {
        let inner = binary_expr(second, y, z);
        let e = binary_expr(first, x, inner);
        lemma_two(p, 2, y, 3, second, z, 5);
        if n == 0 {
            assert(reads(power(p, 2), inner, 5));
            assert(reads(power(p, 0), e, 5));
            lemma_to_the_top(p, 0, e, 5, 0);
        } else {
            lemma_climb(p, 0, x, 1, 0, (n - 1) as nat);
            lemma_climb(p, 2, inner, 5, m, (n - 1) as nat);
            assert(reads(binary_rest(p, 5, n, e), e, 5));
            assert(reads(binary_rest(p, 1, n, x), e, 5));
            assert(reads(binary(p, 0, n), e, 5));
            lemma_to_the_top(p, 0, e, 5, n);
        }
    }
}

/// An operator with one operand is applied before every operator with two.
pub proof fn law_signs_bind_most_tightly(
    p: Tokens,
    op: ArithUnaryOp,
    a: i64,
    second: ArithBinaryOp,
    b: i64,
)
    requires
        p.toks.len() == 4,
        has(
            p,
            0,
            seq![
                TokV::Punct(unary_sign(op)),
                TokV::Number(a),
                TokV::Punct(sign(second)),
                TokV::Number(b),
            ],
        ),
    ensures
        whole(p) == Ok::<ArithExprV, ArithErrorV>(
            binary_expr(
                second,
                ArithExprV::Unary { op, operand: Box::new(ArithExprV::Number(a)) },
                ArithExprV::Number(b),
            ),
        ),
{
    let ts = seq![
        TokV::Punct(unary_sign(op)),
        TokV::Number(a),
        TokV::Punct(sign(second)),
        TokV::Number(b),
    ];
    assert(p.toks[0int + 0].tok == ts[0]);
    assert(p.toks[0int + 1].tok == ts[1]);
    assert(p.toks[0int + 2].tok == ts[2]);
    assert(p.toks[0int + 3].tok == ts[3]);
    assert(punct_at(p, 4) is None);
    let x = ArithExprV::Unary { op, operand: Box::new(ArithExprV::Number(a)) };
    let y = ArithExprV::Number(b);
    lemma_number(p, 1, a);
    lemma_number(p, 3, b);
    assert(unary_op(unary_sign(op)) == Some(op));
    assert(reads(unary(p, 0), x, 2));
    lemma_two(p, 0, x, 2, second, y, 4);
    lemma_to_the_top(p, 0, binary_expr(second, x, y), 4, rank(second));
}

// ---- numbers ------------------------------------------------------------------------------------

/// `0x` writes a number in base 16.
pub proof fn law_hexadecimal_is_base_16(s: Seq<char>, place: usize)
    requires
        s.len() > 0,
        forall|k: int| 0 <= k < s.len() ==> #[trigger] s[k] != '#',
    ensures
        literal(seq!['0', 'x'] + s, place) == literal(seq!['1', '6', '#'] + s, place),
        literal(seq!['0', 'X'] + s, place) == literal(seq!['1', '6', '#'] + s, place),
{
    let n = s.len() as int;
    let hex = seq!['0', 'x'] + s;
    let big = seq!['0', 'X'] + s;
    let based = seq!['1', '6', '#'] + s;
    assert(hex.subrange(2, n + 2) =~= s);
    assert(big.subrange(2, n + 2) =~= s);
    assert(based.subrange(3, n + 3) =~= s);
    reveal_with_fuel(super::rules::hash_index, 4);
    assert(based.subrange(0, 2) =~= seq!['1', '6']);
    assert(crate::numbers::integer_of(seq!['1', '6'], false) == Some(16int)) by {
        let t = seq!['1', '6'];
        assert(t.drop_last() =~= seq!['1']);
        assert(seq!['1'].drop_last() =~= Seq::empty());
        reveal_with_fuel(crate::numbers::nat_of, 3);
        assert(crate::numbers::all_digits(t));
    }
}

/// The digits of a number count in its base, each one as many as it stands for: `0` to `9`,
/// then the letters, where capitals are the same as small letters up to base 36 and come
/// behind them in larger ones, then `@` and `_`.
pub proof fn law_digits_count_in_their_base(s: Seq<char>, c: char, base: nat)
    requires
        2 <= base <= 64,
    ensures
        base_value(Seq::empty(), base) == 0,
        '0' <= c <= '9' ==> base_value(s.push(c), base) == base * base_value(s, base) + (c as int
            - '0' as int),
        'a' <= c <= 'z' ==> base_value(s.push(c), base) == base * base_value(s, base) + 10 + (
        c as int - 'a' as int),
        'A' <= c <= 'Z' && base <= 36 ==> base_value(s.push(c), base) == base * base_value(s, base)
            + 10 + (c as int - 'A' as int),
        'A' <= c <= 'Z' && base > 36 ==> base_value(s.push(c), base) == base * base_value(s, base)
            + 36 + (c as int - 'A' as int),
        c == '@' ==> base_value(s.push(c), base) == base * base_value(s, base) + 62,
        c == '_' ==> base_value(s.push(c), base) == base * base_value(s, base) + 63,
{
    assert(s.push(c).drop_last() =~= s);
    let v = base_value(s, base);
    assert(v * base == base * v) by (nonlinear_arith);
}

} // verus!
