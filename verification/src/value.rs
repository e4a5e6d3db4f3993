//! Run-time values, and the arithmetic that the host supplies.
//!
//! A number at run time is an IEEE-754 binary64 value, carried as its 64-bit
//! pattern. This library never looks inside a pattern: it gets one from the
//! host for each numeral, hands patterns to the host to negate, add,
//! subtract, multiply, divide and render, and carries the answers. What it
//! proves holds of every host, and is stated over the host functions' own
//! contracts.

use vstd::prelude::*;
use vstd::string::*;
use crate::text::{quote, quoted};
use crate::token_type::{TokenType, kind_name};

verus! {

/// A value at run time.
#[derive(Debug)]
pub enum Value {
    /// A number, as the bit pattern of a binary64.
    Number(u64),
    /// A string.
    StringValue(String),
}

/// The mathematical content of a [`Value`].
pub enum ValueView {
    Number(u64),
    StringValue(Seq<char>),
}

impl View for Value {
    type V = ValueView;

    open spec fn view(&self) -> ValueView {
        match self {
            Value::Number(bits) => ValueView::Number(*bits),
            Value::StringValue(text) => ValueView::StringValue(text@),
        }
    }
}

impl Clone for Value {
    fn clone(&self) -> (copy: Self)
        ensures
            copy == *self,
    {
        match self {
            Value::Number(bits) => Value::Number(*bits),
            Value::StringValue(text) => Value::StringValue(text.clone()),
        }
    }
}

/// The four operations on two numbers.
#[derive(Debug, Copy, Clone, PartialEq, Eq, Structural)]
pub enum ArithOp {
    Add,
    Sub,
    Mul,
    Div,
}

/// The arithmetic operation that an operator token stands for, if any.
pub open spec fn arith_op(kind: TokenType) -> Option<ArithOp> {
    match kind {
        TokenType::Plus => Some(ArithOp::Add),
        TokenType::Minus => Some(ArithOp::Sub),
        TokenType::Star => Some(ArithOp::Mul),
        TokenType::Slash => Some(ArithOp::Div),
        _ => None,
    }
}

/// The arithmetic operation that an operator token stands for, if any.
pub fn arith_op_of(kind: TokenType) -> (op: Option<ArithOp>)
    ensures
        op == arith_op(kind),
{
    match kind {
        TokenType::Plus => Some(ArithOp::Add),
        TokenType::Minus => Some(ArithOp::Sub),
        TokenType::Star => Some(ArithOp::Mul),
        TokenType::Slash => Some(ArithOp::Div),
        _ => None,
    }
}

/// The outcome of evaluating an expression: a value, or the message of a
/// run-time error.
pub type Evaluated = Result<ValueView, Seq<char>>;

/// The view of an executable outcome.
pub open spec fn evaluated(result: Result<Value, String>) -> Evaluated {
    match result {
        Ok(value) => Ok(value@),
        Err(message) => Err(message@),
    }
}

/// The message for a numeral that the host cannot convert.
pub open spec fn number_format_message(numeral: Seq<char>) -> Seq<char> {
    "could not parse number: "@ + numeral
}

/// The message for a unary operator that is not defined on its operand.
pub open spec fn unary_message(operator: TokenType) -> Seq<char> {
    kind_name(operator) + " is not a valid unary operator"@
}

/// The message for a binary operator that is not defined on its operands,
/// which are shown in their textual forms.
pub open spec fn binary_message(operator: TokenType, left: Seq<char>, right: Seq<char>) -> Seq<
    char,
> {
    kind_name(operator) + " is not implemented for operands "@ + left + " and "@ + right
}

/// The message for a name that is not bound.
pub open spec fn undefined_message(name: Seq<char>) -> Seq<char> {
    "undefined variable: "@ + name
}

/// The host's arithmetic: four functions on bit patterns.
pub struct Numerics<L, N, A, R> {
    /// The number that a numeral of the digit grammar writes, or `None` if
    /// the host cannot read it.
    pub numeral: L,
    /// The negation of a number.
    pub negate: N,
    /// The sum, difference, product or quotient of two numbers.
    pub arith: A,
    /// The decimal representation of a number.
    pub render: R,
}

impl<L, N, A, R> Numerics<L, N, A, R> where
    L: Fn(&str) -> Option<u64>,
    N: Fn(u64) -> u64,
    A: Fn(ArithOp, u64, u64) -> u64,
    R: Fn(u64) -> String,
 {
    /// The four functions, as one host.
    pub fn new(numeral: L, negate: N, arith: A, render: R) -> (numerics: Self)
        ensures
            numerics.numeral == numeral,
            numerics.negate == negate,
            numerics.arith == arith,
            numerics.render == render,
    {
        Numerics { numeral, negate, arith, render }
    }

    /// Each of the four functions may be called on every argument.
    pub open spec fn usable(&self) -> bool {
        &&& forall|s: &str| call_requires(self.numeral, (s,))
        &&& forall|x: u64| call_requires(self.negate, (x,))
        &&& forall|op: ArithOp, x: u64, y: u64| call_requires(self.arith, (op, x, y))
        &&& forall|x: u64| call_requires(self.render, (x,))
    }

    /// Each of the four functions gives one answer to one question, where
    /// numerals and renderings are told apart by their characters.
    pub open spec fn deterministic(&self) -> bool {
        &&& forall|s: &str, t: &str, a: Option<u64>, b: Option<u64>|
            s@ == t@ && #[trigger] call_ensures(self.numeral, (s,), a) && #[trigger] call_ensures(
                self.numeral,
                (t,),
                b,
            ) ==> a == b
        &&& forall|x: u64, a: u64, b: u64| #[trigger]
            call_ensures(self.negate, (x,), a) && #[trigger] call_ensures(self.negate, (x,), b)
                ==> a == b
        &&& forall|op: ArithOp, x: u64, y: u64, a: u64, b: u64| #[trigger]
            call_ensures(self.arith, (op, x, y), a) && #[trigger] call_ensures(
                self.arith,
                (op, x, y),
                b,
            ) ==> a == b
        &&& forall|x: u64, a: String, b: String| #[trigger]
            call_ensures(self.render, (x,), a) && #[trigger] call_ensures(self.render, (x,), b)
                ==> a@ == b@
    }

    /// `out` is what a number literal written `numeral` may evaluate to: the
    /// number that the host reads, or an error if the host reads none.
    pub open spec fn converts(&self, numeral: Seq<char>, out: Evaluated) -> bool {
        exists|s: &str, read: Option<u64>|
            s@ == numeral && #[trigger] call_ensures(self.numeral, (s,), read) && out == match read {
                Some(bits) => Ok::<ValueView, Seq<char>>(ValueView::Number(bits)),
                None => Err(number_format_message(numeral)),
            }
    }

    /// `text` is a textual form of `value`: a number as the host renders it,
    /// a string between quotation marks.
    pub open spec fn renders(&self, value: ValueView, text: Seq<char>) -> bool {
        match value {
            ValueView::Number(bits) => self.renders_number(bits, text),
            ValueView::StringValue(s) => text == quoted(s),
        }
    }

    /// `text` is what the host may render the number `bits` as.
    pub open spec fn renders_number(&self, bits: u64, text: Seq<char>) -> bool {
        exists|rendered: String|
            rendered@ == text && #[trigger] call_ensures(self.render, (bits,), rendered)
    }

    /// `out` is what the unary `operator` may yield on `operand`: `-` on a
    /// number is the host's negation, and everything else is an error.
    pub open spec fn negates(&self, operator: TokenType, operand: ValueView, out: Evaluated) -> bool {
        match (operator, operand) {
            (TokenType::Minus, ValueView::Number(x)) => self.negates_number(x, out),
            _ => out == Err::<ValueView, Seq<char>>(unary_message(operator)),
        }
    }

    /// `out` is a number that the host may give as the negation of `x`.
    pub open spec fn negates_number(&self, x: u64, out: Evaluated) -> bool {
        exists|y: u64|
            out == Ok::<ValueView, Seq<char>>(ValueView::Number(y)) && #[trigger] call_ensures(
                self.negate,
                (x,),
                y,
            )
    }

    /// `out` is what the binary `operator` may yield on `left` and `right`:
    /// `+ - * /` on two numbers are the host's, and everything else is an
    /// error that shows the operator and both operands.
    pub open spec fn combines(
        &self,
        left: ValueView,
        operator: TokenType,
        right: ValueView,
        out: Evaluated,
    ) -> bool {
        match (left, arith_op(operator), right) {
            (ValueView::Number(x), Some(op), ValueView::Number(y)) => exists|z: u64|
                out == Ok::<ValueView, Seq<char>>(ValueView::Number(z)) && #[trigger] call_ensures(
                    self.arith,
                    (op, x, y),
                    z,
                ),
            _ => exists|l: Seq<char>, r: Seq<char>|
                #[trigger] self.renders(left, l) && #[trigger] self.renders(right, r) && out
                    == Err::<ValueView, Seq<char>>(binary_message(operator, l, r)),
        }
    }

    /// The textual form of `value`.
    pub fn to_string(&self, value: &Value) -> (text: String)
        requires
            self.usable(),
        ensures
            self.renders(value@, text@),
    {
        match value {
            Value::Number(bits) => {
                let rendered = (self.render)(*bits);
                assert(call_ensures(self.render, (*bits,), rendered));
                rendered
            },
            Value::StringValue(s) => quote(s.as_str()),
        }
    }

    /// The value of a number literal written `numeral`.
    pub fn convert(&self, numeral: &String) -> (result: Result<Value, String>)
        requires
            self.usable(),
        ensures
            self.converts(numeral@, evaluated(result)),
    {
        let s = numeral.as_str();
        let read = (self.numeral)(s);
        assert(s@ == numeral@ && call_ensures(self.numeral, (s,), read));
        match read {
            Some(bits) => Ok(Value::Number(bits)),
            None => {
                let mut message = String::from_str("could not parse number: ");
                message.append(s);
                Err(message)
            },
        }
    }

    /// Applies the unary `operator` to `operand`.
    pub fn apply_unary(&self, operator: TokenType, operand: &Value) -> (result: Result<
        Value,
        String,
    >)
        requires
            self.usable(),
        ensures
            self.negates(operator, operand@, evaluated(result)),
    {
        match (operand, operator) {
            (Value::Number(v), TokenType::Minus) => {
                let negated = (self.negate)(*v);
                assert(call_ensures(self.negate, (*v,), negated));
                Ok(Value::Number(negated))
            },
            (_, ttype) => {
                let mut message = ttype.to_string();
                message.append(" is not a valid unary operator");
                Err(message)
            },
        }
    }

    /// Applies the binary `operator` to `left` and `right`.
    pub fn apply_binary(&self, left: &Value, operator: TokenType, right: &Value) -> (result: Result<
        Value,
        String,
    >)
        requires
            self.usable(),
        ensures
            self.combines(left@, operator, right@, evaluated(result)),
    {
        match (left, arith_op_of(operator), right) {
            (Value::Number(x), Some(op), Value::Number(y)) => {
                let computed = (self.arith)(op, *x, *y);
                assert(call_ensures(self.arith, (op, *x, *y), computed));
                Ok(Value::Number(computed))
            },
            (x, _, y) => {
                let l = self.to_string(x);
                let r = self.to_string(y);
                let mut message = operator.to_string();
                message.append(" is not implemented for operands ");
                message.append(l.as_str());
                message.append(" and ");
                message.append(r.as_str());
                assert(message@ =~= binary_message(operator, l@, r@));
                Err(message)
            },
        }
    }
}

} // verus!
