//! The meaning of expressions.
//!
//! An expression is evaluated against the input of the evaluation and gives
//! a value, or fails with the reason. A type made of an expression matches
//! the inputs for which the expression gives the truth value `true`.

use crate::types::{Expr, ExprModel, Operator};
use crate::value::{same_value, RuntimeValue, ValueModel};
use vstd::prelude::*;
use vstd::string::*;

verus! {

/// The reason given where a truth value was needed and something else came.
pub open spec fn not_a_truth_value() -> Seq<char> {
    "operand is not a truth value"@
}

/// The reason given where something other than two integers was to be
/// ordered.
pub open spec fn not_ordered() -> Seq<char> {
    "operands cannot be ordered"@
}

/// The value of a comparison. Equality is that of values; order is defined
/// between integers only.
pub open spec fn compared(op: Operator, left: ValueModel, right: ValueModel) -> Result<
    ValueModel,
    Seq<char>,
> {
    match op {
        Operator::Equal => Ok(ValueModel::Boolean(same_value(left, right))),
        Operator::NotEqual => Ok(ValueModel::Boolean(!same_value(left, right))),
        _ => match (left, right) {
            (ValueModel::Integer(x), ValueModel::Integer(y)) => Ok(
                ValueModel::Boolean(
                    match op {
                        Operator::LessThan => x < y,
                        Operator::LessThanEqual => x <= y,
                        Operator::GreaterThan => x > y,
                        _ => x >= y,
                    },
                ),
            ),
            _ => Err(not_ordered()),
        },
    }
}

/// The value of an expression for an input. `and` and `or` look at their
/// right operand only where the left one does not decide.
pub open spec fn expr_value(expr: ExprModel, input: ValueModel) -> Result<ValueModel, Seq<char>>
    decreases expr,
{
    match expr {
        ExprModel::SelfLiteral => Ok(input),
        ExprModel::Value(value) => Ok(value),
        ExprModel::Not(inner) => match expr_value(*inner, input) {
            Ok(ValueModel::Boolean(b)) => Ok(ValueModel::Boolean(!b)),
            Ok(_) => Err(not_a_truth_value()),
            Err(reason) => Err(reason),
        },
        ExprModel::Binary(op, left, right) => match op {
            Operator::LogicalAnd | Operator::LogicalOr => match expr_value(*left, input) {
                Ok(ValueModel::Boolean(b)) => if b == (op == Operator::LogicalOr) {
                    Ok(ValueModel::Boolean(b))
                } else {
                    match expr_value(*right, input) {
                        Ok(ValueModel::Boolean(c)) => Ok(ValueModel::Boolean(c)),
                        Ok(_) => Err(not_a_truth_value()),
                        Err(reason) => Err(reason),
                    }
                },
                Ok(_) => Err(not_a_truth_value()),
                Err(reason) => Err(reason),
            },
            _ => match expr_value(*left, input) {
                Err(reason) => Err(reason),
                Ok(x) => match expr_value(*right, input) {
                    Err(reason) => Err(reason),
                    Ok(y) => compared(op, x, y),
                },
            },
        },
    }
}

/// The value of an expression: a value that the expression or the input
/// holds, or a truth value that was computed.
pub enum ExprValue<'a> {
    Held(&'a RuntimeValue),
    Truth(bool),
}

impl<'a> View for ExprValue<'a> {
    type V = ValueModel;

    open spec fn view(&self) -> ValueModel {
        match self {
            ExprValue::Held(value) => value@,
            ExprValue::Truth(b) => ValueModel::Boolean(*b),
        }
    }
}

/// What the evaluation of an expression gave.
pub open spec fn value_model(result: Result<ExprValue<'_>, String>) -> Result<
    ValueModel,
    Seq<char>,
> {
    match result {
        Ok(value) => Ok(value@),
        Err(reason) => Err(reason@),
    }
}

impl<'a> ExprValue<'a> {
    /// The truth value, where the value is one.
    pub fn truth(&self) -> (r: Option<bool>)
        ensures
            match r {
                Some(b) => self@ == ValueModel::Boolean(b),
                None => !(self@ is Boolean),
            },
    {
        match self {
            ExprValue::Truth(b) => Some(*b),
            ExprValue::Held(RuntimeValue::Boolean(b)) => Some(*b),
            _ => None,
        }
    }

    /// The integer, where the value is one.
    pub fn integer(&self) -> (r: Option<i64>)
        ensures
            match r {
                Some(i) => self@ == ValueModel::Integer(i as int),
                None => !(self@ is Integer),
            },
    {
        match self {
            ExprValue::Held(RuntimeValue::Integer(i)) => Some(*i),
            _ => None,
        }
    }

    /// Tells whether both values are equal.
    pub fn same(&self, other: &ExprValue<'_>) -> (r: bool)
        ensures
            r == same_value(self@, other@),
    {
        match (self, other) {
            (ExprValue::Held(x), ExprValue::Held(y)) => x.same(y),
            (ExprValue::Truth(x), ExprValue::Truth(y)) => *x == *y,
            (ExprValue::Held(x), ExprValue::Truth(y)) => match x {
                RuntimeValue::Boolean(b) => *b == *y,
                _ => false,
            },
            (ExprValue::Truth(x), ExprValue::Held(y)) => match y {
                RuntimeValue::Boolean(b) => *x == *b,
                _ => false,
            },
        }
    }
}

/// Compares two values by `op`, which is no `and` and no `or`.
fn compare<'a>(op: Operator, left: &ExprValue<'_>, right: &ExprValue<'_>) -> (r: Result<
    ExprValue<'a>,
    String,
>)
    ensures
        value_model(r) == compared(op, left@, right@),
{
    match op {
        Operator::Equal => Ok(ExprValue::Truth(left.same(right))),
        Operator::NotEqual => Ok(ExprValue::Truth(!left.same(right))),
        _ => match (left.integer(), right.integer()) {
            (Some(x), Some(y)) => Ok(
                ExprValue::Truth(
                    match op {
                        Operator::LessThan => x < y,
                        Operator::LessThanEqual => x <= y,
                        Operator::GreaterThan => x > y,
                        _ => x >= y,
                    },
                ),
            ),
            _ => Err(String::from_str("operands cannot be ordered")),
        },
    }
}

impl Expr {
    /// Evaluates the expression against `input`.
    pub fn evaluate<'a>(&'a self, input: &'a RuntimeValue) -> (r: Result<ExprValue<'a>, String>)
        ensures
            value_model(r) == expr_value(self@, input@),
        decreases self,
    {
        match self {
            Expr::SelfLiteral => Ok(ExprValue::Held(input)),
            Expr::Value(value) => Ok(ExprValue::Held(value)),
            Expr::Not(inner) => match inner.evaluate(input) {
                Ok(value) => match value.truth() {
                    Some(b) => Ok(ExprValue::Truth(!b)),
                    None => Err(String::from_str("operand is not a truth value")),
                },
                Err(reason) => Err(reason),
            },
            Expr::Binary(op, left, right) => match op {
                Operator::LogicalAnd | Operator::LogicalOr => match left.evaluate(input) {
                    Ok(value) => match value.truth() {
                        Some(b) => {
                            let decides = match op {
                                Operator::LogicalOr => b,
                                _ => !b,
                            };
                            if decides {
                                Ok(ExprValue::Truth(b))
                            } else {
                                match right.evaluate(input) {
                                    Ok(other) => match other.truth() {
                                        Some(c) => Ok(ExprValue::Truth(c)),
                                        None => Err(
                                            String::from_str("operand is not a truth value"),
                                        ),
                                    },
                                    Err(reason) => Err(reason),
                                }
                            }
                        },
                        None => Err(String::from_str("operand is not a truth value")),
                    },
                    Err(reason) => Err(reason),
                },
                _ => match left.evaluate(input) {
                    Err(reason) => Err(reason),
                    Ok(x) => match right.evaluate(input) {
                        Err(reason) => Err(reason),
                        Ok(y) => compare(*op, &x, &y),
                    },
                },
            },
        }
    }
}

} // verus!
