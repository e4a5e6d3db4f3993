//! Expressions: the literal values they hold and the tree itself.

use vstd::prelude::*;
use vstd::string::*;
use crate::text::{quote, quoted};
use crate::token_type::{Token, TokenType, TokenView};
use crate::value::{Value, ValueView, Evaluated, evaluated, Numerics, ArithOp, undefined_message};
use crate::environment::Environment;

verus! {

/// The value of a literal expression.
#[derive(Debug)]
pub enum LiteralValue {
    /// A number, kept as the decimal numeral that was written.
    Number(String),
    /// The text of a string.
    StringValue(String),
}

/// The mathematical content of a [`LiteralValue`].
pub enum LiteralView {
    Number(Seq<char>),
    StringValue(Seq<char>),
}

impl View for LiteralValue {
    type V = LiteralView;

    open spec fn view(&self) -> LiteralView {
        match self {
            LiteralValue::Number(numeral) => LiteralView::Number(numeral@),
            LiteralValue::StringValue(text) => LiteralView::StringValue(text@),
        }
    }
}

impl Clone for LiteralValue {
    fn clone(&self) -> (copy: Self)
        ensures
            copy == *self,
    {
        match self {
            LiteralValue::Number(numeral) => LiteralValue::Number(numeral.clone()),
            LiteralValue::StringValue(text) => LiteralValue::StringValue(text.clone()),
        }
    }
}

impl LiteralView {
    /// The textual form: a number as its numeral, a string between
    /// quotation marks.
    pub open spec fn text(self) -> Seq<char> {
        match self {
            LiteralView::Number(numeral) => numeral,
            LiteralView::StringValue(text) => quoted(text),
        }
    }

    /// The same payload, as a token carries it.
    pub open spec fn payload(self) -> crate::token_type::LiteralView {
        match self {
            LiteralView::Number(numeral) => crate::token_type::LiteralView::NumberValue(numeral),
            LiteralView::StringValue(text) => crate::token_type::LiteralView::StringValue(text),
        }
    }
}

/// The literal value that a payload stands for.
pub open spec fn literal_of(payload: crate::token_type::LiteralView) -> LiteralView {
    match payload {
        crate::token_type::LiteralView::NumberValue(numeral) => LiteralView::Number(numeral),
        crate::token_type::LiteralView::StringValue(text) => LiteralView::StringValue(text),
    }
}

/// The numeral of a number payload.
pub fn unwrap_as_number(literal: Option<crate::token_type::LiteralValue>) -> (numeral: String)
    requires
        literal matches Some(crate::token_type::LiteralValue::NumberValue(_)),
    ensures
        literal == Some(crate::token_type::LiteralValue::NumberValue(numeral)),
{
    match literal {
        Some(crate::token_type::LiteralValue::NumberValue(x)) => x,
        _ => {
            proof {
                assert(false);
            }
            String::new()
        },
    }
}

/// The text of a string payload.
pub fn unwrap_as_string(literal: Option<crate::token_type::LiteralValue>) -> (text: String)
    requires
        literal matches Some(crate::token_type::LiteralValue::StringValue(_)),
    ensures
        literal == Some(crate::token_type::LiteralValue::StringValue(text)),
{
    match literal {
        Some(crate::token_type::LiteralValue::StringValue(s)) => s,
        _ => {
            proof {
                assert(false);
            }
            String::new()
        },
    }
}

impl LiteralValue {
    /// The textual form of the value.
    pub fn to_string(&self) -> (text: String)
        ensures
            text@ == self@.text(),
    {
        match self {
            LiteralValue::Number(x) => x.clone(),
            LiteralValue::StringValue(x) => quote(x.as_str()),
        }
    }

    /// The value of a number or string token.
    pub fn from_token(token: Token) -> (value: Self)
        requires
            token@.token_type == TokenType::Number || token@.token_type == TokenType::StringLit,
            token@.carries_payload(),
        ensures
            value@ == literal_of(token@.literal->Some_0),
    {
        match token.token_type {
            TokenType::Number => Self::Number(unwrap_as_number(token.literal)),
            _ => Self::StringValue(unwrap_as_string(token.literal)),
        }
    }
}

/// An expression. Each node carries the identity that the parser gave it.
#[derive(Debug)]
#[allow(inconsistent_fields)]
pub enum Expr {
    Binary { id: usize, left: Box<Expr>, operator: Token, right: Box<Expr> },
    Unary { id: usize, operator: Token, right: Box<Expr> },
    Grouping { id: usize, expression: Box<Expr> },
    Literal { id: usize, value: LiteralValue },
    Var { id: usize, value: Token },
}

/// The mathematical content of an [`Expr`].
#[allow(inconsistent_fields)]
pub enum ExprView {
    Binary { id: nat, left: Box<ExprView>, operator: TokenView, right: Box<ExprView> },
    Unary { id: nat, operator: TokenView, right: Box<ExprView> },
    Grouping { id: nat, expression: Box<ExprView> },
    Literal { id: nat, value: LiteralView },
    Var { id: nat, value: TokenView },
}

impl Expr {
    /// The mathematical content of the tree.
    pub open spec fn model(&self) -> ExprView
        decreases self,
    {
        match self {
            Expr::Binary { id, left, operator, right } => ExprView::Binary {
                id: *id as nat,
                left: Box::new(left.model()),
                operator: operator@,
                right: Box::new(right.model()),
            },
            Expr::Unary { id, operator, right } => ExprView::Unary {
                id: *id as nat,
                operator: operator@,
                right: Box::new(right.model()),
            },
            Expr::Grouping { id, expression } => ExprView::Grouping {
                id: *id as nat,
                expression: Box::new(expression.model()),
            },
            Expr::Literal { id, value } => ExprView::Literal { id: *id as nat, value: value@ },
            Expr::Var { id, value } => ExprView::Var { id: *id as nat, value: value@ },
        }
    }
}

impl Expr {
    /// A copy of the tree.
    pub fn copy_tree(&self) -> (copy: Self)
        ensures
            copy == *self,
        decreases self,
    {
        match self {
            Expr::Binary { id, left, operator, right } => Expr::Binary {
                id: *id,
                left: Box::new(left.copy_tree()),
                operator: operator.clone(),
                right: Box::new(right.copy_tree()),
            },
            Expr::Unary { id, operator, right } => Expr::Unary {
                id: *id,
                operator: operator.clone(),
                right: Box::new(right.copy_tree()),
            },
            Expr::Grouping { id, expression } => Expr::Grouping {
                id: *id,
                expression: Box::new(expression.copy_tree()),
            },
            Expr::Literal { id, value } => Expr::Literal { id: *id, value: value.clone() },
            Expr::Var { id, value } => Expr::Var { id: *id, value: value.clone() },
        }
    }
}

impl Clone for Expr {
    fn clone(&self) -> (copy: Self)
        ensures
            copy == *self,
    {
        self.copy_tree()
    }
}

impl View for Expr {
    type V = ExprView;

    open spec fn view(&self) -> ExprView {
        self.model()
    }
}

impl ExprView {
    /// The identity of the node at the root.
    pub open spec fn id(self) -> nat {
        match self {
            ExprView::Binary { id, .. } => id,
            ExprView::Unary { id, .. } => id,
            ExprView::Grouping { id, .. } => id,
            ExprView::Literal { id, .. } => id,
            ExprView::Var { id, .. } => id,
        }
    }

    /// The number of nodes.
    pub open spec fn size(self) -> nat
        decreases self,
    {
        match self {
            ExprView::Binary { left, right, .. } => left.size() + right.size() + 1,
            ExprView::Unary { right, .. } => right.size() + 1,
            ExprView::Grouping { expression, .. } => expression.size() + 1,
            ExprView::Literal { .. } => 1,
            ExprView::Var { .. } => 1,
        }
    }

    /// The identities of the nodes, each child before its parent and a left
    /// operand before a right one.
    pub open spec fn ids(self) -> Seq<nat>
        decreases self,
    {
        match self {
            ExprView::Binary { id, left, right, .. } => (left.ids() + right.ids()).push(id),
            ExprView::Unary { id, right, .. } => right.ids().push(id),
            ExprView::Grouping { id, expression } => expression.ids().push(id),
            ExprView::Literal { id, .. } => seq![id],
            ExprView::Var { id, .. } => seq![id],
        }
    }

    /// Every literal in the tree holds a value that the scanner can produce:
    /// a numeral of the digit grammar, or text without a quotation mark.
    pub open spec fn literals_well_formed(self) -> bool
        decreases self,
    {
        match self {
            ExprView::Binary { left, right, .. } => left.literals_well_formed()
                && right.literals_well_formed(),
            ExprView::Unary { right, .. } => right.literals_well_formed(),
            ExprView::Grouping { expression, .. } => expression.literals_well_formed(),
            ExprView::Literal { value, .. } => value.payload().well_formed(),
            ExprView::Var { .. } => true,
        }
    }

    /// The kinds of the tokens that write the expression, in source order.
    pub open spec fn kinds(self) -> Seq<TokenType>
        decreases self,
    {
        match self {
            ExprView::Binary { left, operator, right, .. } => left.kinds().push(
                operator.token_type,
            ) + right.kinds(),
            ExprView::Unary { operator, right, .. } => seq![operator.token_type] + right.kinds(),
            ExprView::Grouping { expression, .. } => (seq![TokenType::LeftParen]
                + expression.kinds()).push(TokenType::RightParen),
            ExprView::Literal { value, .. } => match value {
                LiteralView::Number(_) => seq![TokenType::Number],
                LiteralView::StringValue(_) => seq![TokenType::StringLit],
            },
            ExprView::Var { .. } => seq![TokenType::Identifier],
        }
    }
}

/// What looking `name` up in `env` yields: the value that it is bound to, or
/// an error that names it.
pub open spec fn resolves(env: Map<Seq<char>, ValueView>, name: Seq<char>) -> Evaluated {
    if env.contains_key(name) {
        Ok(env[name])
    } else {
        Err(undefined_message(name))
    }
}

/// `out` is what a unary expression may evaluate to once its operand has
/// evaluated to `operand`: an error of the operand is handed on.
pub open spec fn unary_outcome<L, N, A, R>(
    numerics: &Numerics<L, N, A, R>,
    operator: TokenType,
    operand: Evaluated,
    out: Evaluated,
) -> bool where
    L: Fn(&str) -> Option<u64>,
    N: Fn(u64) -> u64,
    A: Fn(ArithOp, u64, u64) -> u64,
    R: Fn(u64) -> String,
 {
    match operand {
        Err(message) => out == Err::<ValueView, Seq<char>>(message),
        Ok(value) => numerics.negates(operator, value, out),
    }
}

/// `out` is what a binary expression may evaluate to once its left operand
/// has evaluated to `left` and, if that is a value, its right operand to
/// `right`: the first error is handed on.
pub open spec fn binary_outcome<L, N, A, R>(
    numerics: &Numerics<L, N, A, R>,
    left: Evaluated,
    operator: TokenType,
    right: Evaluated,
    out: Evaluated,
) -> bool where
    L: Fn(&str) -> Option<u64>,
    N: Fn(u64) -> u64,
    A: Fn(ArithOp, u64, u64) -> u64,
    R: Fn(u64) -> String,
 {
    match (left, right) {
        (Err(message), _) => out == Err::<ValueView, Seq<char>>(message),
        (Ok(_), Err(message)) => out == Err::<ValueView, Seq<char>>(message),
        (Ok(first), Ok(second)) => numerics.combines(first, operator, second, out),
    }
}

/// The meaning of expressions: `out` is what `e` may evaluate to in `env`
/// with the host arithmetic `numerics`.
///
/// A literal evaluates to its value, a grouping to what it encloses, a
/// variable to what it is bound to. The operand of a unary operator is
/// evaluated first; of a binary operator the left operand, then the right
/// one, which is not evaluated if the left one fails. The first error ends
/// the evaluation.
pub open spec fn evaluates<L, N, A, R>(
    e: ExprView,
    env: Map<Seq<char>, ValueView>,
    numerics: &Numerics<L, N, A, R>,
    out: Evaluated,
) -> bool where
    L: Fn(&str) -> Option<u64>,
    N: Fn(u64) -> u64,
    A: Fn(ArithOp, u64, u64) -> u64,
    R: Fn(u64) -> String,

    decreases e,
{
    match e {
        ExprView::Literal { value, .. } => match value {
            LiteralView::Number(numeral) => numerics.converts(numeral, out),
            LiteralView::StringValue(text) => out == Ok::<ValueView, Seq<char>>(
                ValueView::StringValue(text),
            ),
        },
        ExprView::Grouping { expression, .. } => evaluates(*expression, env, numerics, out),
        ExprView::Var { value, .. } => out == resolves(env, value.lexeme),
        ExprView::Unary { operator, right, .. } => exists|operand: Evaluated|
            evaluates(*right, env, numerics, operand) && #[trigger] unary_outcome(
                numerics,
                operator.token_type,
                operand,
                out,
            ),
        ExprView::Binary { left, operator, right, .. } => exists|first: Evaluated, second: Evaluated|
            evaluates(*left, env, numerics, first) && (first is Ok ==> evaluates(
                *right,
                env,
                numerics,
                second,
            )) && #[trigger] binary_outcome(numerics, first, operator.token_type, second, out),
    }
}

impl Expr {
    /// Evaluates the expression in `env`, with the host arithmetic
    /// `numerics`.
    pub fn evaluate<L, N, A, R>(&self, env: &Environment, numerics: &Numerics<L, N, A, R>) -> (result:
        Result<Value, String>) where
        L: Fn(&str) -> Option<u64>,
        N: Fn(u64) -> u64,
        A: Fn(ArithOp, u64, u64) -> u64,
        R: Fn(u64) -> String,

        requires
            numerics.usable(),
        ensures
            evaluates(self@, env@, numerics, evaluated(result)),
        decreases self,
    {
        match self {
            Expr::Binary { id: _, left, operator, right } => {
                let first = left.evaluate(env, numerics);
                match first {
                    Err(message) => {
                        let result = Err(message);
                        proof {
                            assert(evaluated(result) == evaluated(first));
                            assert(binary_outcome(
                                numerics,
                                evaluated(first),
                                operator.token_type,
                                evaluated(first),
                                evaluated(result),
                            ));
                        }
                        result
                    },
                    Ok(left_value) => {
                        let second = right.evaluate(env, numerics);
                        let result = match second {
                            Err(message) => Err(message),
                            Ok(right_value) => numerics.apply_binary(
                                &left_value,
                                operator.token_type,
                                &right_value,
                            ),
                        };
                        proof {
                            assert(binary_outcome(
                                numerics,
                                evaluated(first),
                                operator.token_type,
                                evaluated(second),
                                evaluated(result),
                            ));
                        }
                        result
                    },
                }
            },
            Expr::Unary { id: _, operator, right } => {
                let operand = right.evaluate(env, numerics);
                let result = match operand {
                    Err(message) => Err(message),
                    Ok(value) => numerics.apply_unary(operator.token_type, &value),
                };
                proof {
                    assert(unary_outcome(
                        numerics,
                        operator.token_type,
                        evaluated(operand),
                        evaluated(result),
                    ));
                }
                result
            },
            Expr::Grouping { id: _, expression } => {
expression.evaluate(env, numerics)
            },
            Expr::Literal { id: _, value } => {
                match value {
                    LiteralValue::Number(numeral) => numerics.convert(numeral),
                    LiteralValue::StringValue(text) => Ok(Value::StringValue(text.clone())),
                }
            },
            Expr::Var { id: _, value } => {
                match env.get(&value.lexeme) {
                    Some(found) => Ok(found),
                    None => {
                        let mut message = String::from_str("undefined variable: ");
                        message.append(value.lexeme.as_str());
                        Err(message)
                    },
                }
            },
        }
    }
}

} // verus!
