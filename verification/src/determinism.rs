//! With a host whose functions give one answer to one question, the
//! meaning of an expression and of a program is a function: what it
//! evaluates to, what it prints, binds and reports is determined by the
//! program, the state it starts in, and the host.

use vstd::prelude::*;
use crate::expr::{ExprView, LiteralView, evaluates, unary_outcome, binary_outcome};
use crate::interpreter::{Machine, Reported, executes, runs, statement_outcome};
use crate::stmt::StmtView;
use crate::token_type::TokenType;
use crate::value::{ValueView, Evaluated, Numerics, ArithOp, arith_op};

verus! {

/// A value has one textual form.
pub proof fn lemma_renders_one_text<L, N, A, R>(
    numerics: &Numerics<L, N, A, R>,
    value: ValueView,
    a: Seq<char>,
    b: Seq<char>,
) where
    L: Fn(&str) -> Option<u64>,
    N: Fn(u64) -> u64,
    A: Fn(ArithOp, u64, u64) -> u64,
    R: Fn(u64) -> String,

    requires
        numerics.deterministic(),
        numerics.renders(value, a),
        numerics.renders(value, b),
    ensures
        a == b,
{
    match value {
        ValueView::Number(bits) => {
            let s = choose|s: String| s@ == a && call_ensures(numerics.render, (bits,), s);
            let t = choose|t: String| t@ == b && call_ensures(numerics.render, (bits,), t);
            assert(s@ == t@);
        },
        ValueView::StringValue(_) => {},
    }
}

/// A numeral converts to one value or to one error.
pub proof fn lemma_converts_to_one<L, N, A, R>(
    numerics: &Numerics<L, N, A, R>,
    numeral: Seq<char>,
    a: Evaluated,
    b: Evaluated,
) where
    L: Fn(&str) -> Option<u64>,
    N: Fn(u64) -> u64,
    A: Fn(ArithOp, u64, u64) -> u64,
    R: Fn(u64) -> String,

    requires
        numerics.deterministic(),
        numerics.converts(numeral, a),
        numerics.converts(numeral, b),
    ensures
        a == b,
{
    let (s, read_a) = choose|s: &str, read: Option<u64>|
        s@ == numeral && #[trigger] call_ensures(numerics.numeral, (s,), read) && a == match read {
            Some(bits) => Ok::<ValueView, Seq<char>>(ValueView::Number(bits)),
            None => Err(crate::value::number_format_message(numeral)),
        };
    let (t, read_b) = choose|t: &str, read: Option<u64>|
        t@ == numeral && #[trigger] call_ensures(numerics.numeral, (t,), read) && b == match read {
            Some(bits) => Ok::<ValueView, Seq<char>>(ValueView::Number(bits)),
            None => Err(crate::value::number_format_message(numeral)),
        };
    assert(read_a == read_b);
}

/// A unary operator has one outcome on one operand.
pub proof fn lemma_negates_to_one<L, N, A, R>(
    numerics: &Numerics<L, N, A, R>,
    operator: TokenType,
    operand: ValueView,
    a: Evaluated,
    b: Evaluated,
) where
    L: Fn(&str) -> Option<u64>,
    N: Fn(u64) -> u64,
    A: Fn(ArithOp, u64, u64) -> u64,
    R: Fn(u64) -> String,

    requires
        numerics.deterministic(),
        numerics.negates(operator, operand, a),
        numerics.negates(operator, operand, b),
    ensures
        a == b,
{
    if operator == TokenType::Minus && operand is Number {
        let x = operand->Number_0;
        let y = choose|y: u64|
            a == Ok::<ValueView, Seq<char>>(ValueView::Number(y)) && call_ensures(
                numerics.negate,
                (x,),
                y,
            );
        let z = choose|z: u64|
            b == Ok::<ValueView, Seq<char>>(ValueView::Number(z)) && call_ensures(
                numerics.negate,
                (x,),
                z,
            );
        assert(y == z);
    }
}

/// A binary operator has one outcome on two operands.
pub proof fn lemma_combines_to_one<L, N, A, R>(
    numerics: &Numerics<L, N, A, R>,
    left: ValueView,
    operator: TokenType,
    right: ValueView,
    a: Evaluated,
    b: Evaluated,
) where
    L: Fn(&str) -> Option<u64>,
    N: Fn(u64) -> u64,
    A: Fn(ArithOp, u64, u64) -> u64,
    R: Fn(u64) -> String,

    requires
        numerics.deterministic(),
        numerics.combines(left, operator, right, a),
        numerics.combines(left, operator, right, b),
    ensures
        a == b,
{
    if left is Number && arith_op(operator) is Some && right is Number {
        let x = left->Number_0;
        let y = right->Number_0;
        let op = arith_op(operator)->Some_0;
        let p = choose|z: u64|
            a == Ok::<ValueView, Seq<char>>(ValueView::Number(z)) && call_ensures(
                numerics.arith,
                (op, x, y),
                z,
            );
        let q = choose|z: u64|
            b == Ok::<ValueView, Seq<char>>(ValueView::Number(z)) && call_ensures(
                numerics.arith,
                (op, x, y),
                z,
            );
        assert(p == q);
    } else {
        let (la, ra) = choose|l: Seq<char>, r: Seq<char>|
            #[trigger] numerics.renders(left, l) && #[trigger] numerics.renders(right, r) && a
                == Err::<ValueView, Seq<char>>(crate::value::binary_message(operator, l, r));
        let (lb, rb) = choose|l: Seq<char>, r: Seq<char>|
            #[trigger] numerics.renders(left, l) && #[trigger] numerics.renders(right, r) && b
                == Err::<ValueView, Seq<char>>(crate::value::binary_message(operator, l, r));
        lemma_renders_one_text(numerics, left, la, lb);
        lemma_renders_one_text(numerics, right, ra, rb);
    }
}

/// An expression evaluates to one value or to one error.
pub proof fn lemma_evaluates_to_one<L, N, A, R>(
    e: ExprView,
    env: Map<Seq<char>, ValueView>,
    numerics: &Numerics<L, N, A, R>,
    a: Evaluated,
    b: Evaluated,
) where
    L: Fn(&str) -> Option<u64>,
    N: Fn(u64) -> u64,
    A: Fn(ArithOp, u64, u64) -> u64,
    R: Fn(u64) -> String,

    requires
        numerics.deterministic(),
        evaluates(e, env, numerics, a),
        evaluates(e, env, numerics, b),
    ensures
        a == b,
    decreases e,
{
    match e {
        ExprView::Literal { value, .. } => match value {
            LiteralView::Number(numeral) => lemma_converts_to_one(numerics, numeral, a, b),
            LiteralView::StringValue(_) => {},
        },
        ExprView::Grouping { expression, .. } => lemma_evaluates_to_one(
            *expression,
            env,
            numerics,
            a,
            b,
        ),
        ExprView::Var { .. } => {},
        ExprView::Unary { operator, right, .. } => {
            let p = choose|operand: Evaluated|
                evaluates(*right, env, numerics, operand) && #[trigger] unary_outcome(
                    numerics,
                    operator.token_type,
                    operand,
                    a,
                );
            let q = choose|operand: Evaluated|
                evaluates(*right, env, numerics, operand) && #[trigger] unary_outcome(
                    numerics,
                    operator.token_type,
                    operand,
                    b,
                );
            lemma_evaluates_to_one(*right, env, numerics, p, q);
            if p is Ok {
                lemma_negates_to_one(numerics, operator.token_type, p->Ok_0, a, b);
            }
        },
        ExprView::Binary { left, operator, right, .. } => {
            let (first_a, second_a) = choose|first: Evaluated, second: Evaluated|
                evaluates(*left, env, numerics, first) && (first is Ok ==> evaluates(
                    *right,
                    env,
                    numerics,
                    second,
                )) && #[trigger] binary_outcome(numerics, first, operator.token_type, second, a);
            let (first_b, second_b) = choose|first: Evaluated, second: Evaluated|
                evaluates(*left, env, numerics, first) && (first is Ok ==> evaluates(
                    *right,
                    env,
                    numerics,
                    second,
                )) && #[trigger] binary_outcome(numerics, first, operator.token_type, second, b);
            lemma_evaluates_to_one(*left, env, numerics, first_a, first_b);
            if first_a is Ok {
                lemma_evaluates_to_one(*right, env, numerics, second_a, second_b);
                if second_a is Ok {
                    lemma_combines_to_one(
                        numerics,
                        first_a->Ok_0,
                        operator.token_type,
                        second_a->Ok_0,
                        a,
                        b,
                    );
                }
            }
        },
    }
}

/// A statement has one effect and one report.
pub proof fn lemma_executes_to_one<L, N, A, R>(
    stmt: StmtView,
    numerics: &Numerics<L, N, A, R>,
    before: Machine,
    after_a: Machine,
    result_a: Reported,
    after_b: Machine,
    result_b: Reported,
) where
    L: Fn(&str) -> Option<u64>,
    N: Fn(u64) -> u64,
    A: Fn(ArithOp, u64, u64) -> u64,
    R: Fn(u64) -> String,

    requires
        numerics.deterministic(),
        executes(stmt, numerics, before, after_a, result_a),
        executes(stmt, numerics, before, after_b, result_b),
    ensures
        after_a == after_b,
        result_a == result_b,
{
    let p = choose|value: Evaluated|
        evaluates(stmt.expression(), before.bindings, numerics, value)
            && #[trigger] statement_outcome(numerics, stmt, value, before, after_a, result_a);
    let q = choose|value: Evaluated|
        evaluates(stmt.expression(), before.bindings, numerics, value)
            && #[trigger] statement_outcome(numerics, stmt, value, before, after_b, result_b);
    lemma_evaluates_to_one(stmt.expression(), before.bindings, numerics, p, q);
    if p is Ok && stmt is Print {
        let v = p->Ok_0;
        let s = choose|text: Seq<char>| #[trigger]
            numerics.renders(v, text) && after_a == (Machine {
                printed: before.printed.push(text),
                ..before
            });
        let t = choose|text: Seq<char>| #[trigger]
            numerics.renders(v, text) && after_b == (Machine {
                printed: before.printed.push(text),
                ..before
            });
        lemma_renders_one_text(numerics, v, s, t);
    }
}

/// A program has one effect and one report.
pub proof fn lemma_runs_to_one<L, N, A, R>(
    stmts: Seq<StmtView>,
    numerics: &Numerics<L, N, A, R>,
    before: Machine,
    after_a: Machine,
    result_a: Reported,
    after_b: Machine,
    result_b: Reported,
) where
    L: Fn(&str) -> Option<u64>,
    N: Fn(u64) -> u64,
    A: Fn(ArithOp, u64, u64) -> u64,
    R: Fn(u64) -> String,

    requires
        numerics.deterministic(),
        runs(stmts, numerics, before, after_a, result_a),
        runs(stmts, numerics, before, after_b, result_b),
    ensures
        after_a == after_b,
        result_a == result_b,
    decreases stmts.len(),
{
    if stmts.len() > 0 {
        let (ma, fa) = choose|middle: Machine, first: Reported| #[trigger]
            executes(stmts[0], numerics, before, middle, first) && if first is Err {
                after_a == middle && result_a == first
            } else {
                runs(stmts.skip(1), numerics, middle, after_a, result_a)
            };
        let (mb, fb) = choose|middle: Machine, first: Reported| #[trigger]
            executes(stmts[0], numerics, before, middle, first) && if first is Err {
                after_b == middle && result_b == first
            } else {
                runs(stmts.skip(1), numerics, middle, after_b, result_b)
            };
        lemma_executes_to_one(stmts[0], numerics, before, ma, fa, mb, fb);
        if fa is Ok {
            lemma_runs_to_one(stmts.skip(1), numerics, ma, after_a, result_a, after_b, result_b);
        }
    }
}

} // verus!
