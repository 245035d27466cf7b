//! What the operators of the language compute from the values of their
//! operands.

use crate::error::{ErrorView, LoxError};
use crate::number::{
    difference_bits, negated, number_le, number_lt, product_bits, quotient_bits, sum_bits, Number,
};
use crate::object::{kind_name, object_location, objects_equal, truthy, LoxObject, ObjectView};
use crate::source_location::{join_spans, SourceLocation};
use crate::token::{Token, TokenType, TokenView};
use vstd::prelude::*;
use vstd::string::StringExecFns;

verus! {

/// The span of a binary operation: that of both operands and the operator.
pub open spec fn operation_span(
    left: ObjectView,
    operator: TokenView,
    right: ObjectView,
) -> SourceLocation {
    join_spans(join_spans(object_location(left), operator.location), object_location(right))
}

/// The error of a binary operator applied to operands it is not defined
/// for: it names the kinds of both operands and the operator's text.
pub open spec fn binary_mismatch(
    left: ObjectView,
    operator: TokenView,
    right: ObjectView,
) -> ErrorView {
    ErrorView::InvalidBinaryOperation {
        location: operation_span(left, operator, right),
        left: kind_name(left),
        operator: operator.lexeme,
        right: kind_name(right),
    }
}

/// The result of the binary operator `operator` on `left` and `right`.
///
/// `+` adds two numbers or joins two strings; `-`, `*`, `/` and the four
/// orderings take two numbers; `==` and `!=` take any two values. Every
/// other pairing is an error.
pub open spec fn binary_result(
    left: ObjectView,
    operator: TokenView,
    right: ObjectView,
) -> Result<ObjectView, ErrorView> {
    let location = operation_span(left, operator, right);
    let mismatch = Err(binary_mismatch(left, operator, right));
    match operator.kind {
        TokenType::Plus => match (left, right) {
            (ObjectView::Number { value: a, .. }, ObjectView::Number { value: b, .. }) => Ok(
                ObjectView::Number { location, value: Number { bits: sum_bits(a.bits, b.bits) } },
            ),
            (ObjectView::String { value: a, .. }, ObjectView::String { value: b, .. }) => Ok(
                ObjectView::String { location, value: a + b },
            ),
            _ => mismatch,
        },
        TokenType::Minus => match (left, right) {
            (ObjectView::Number { value: a, .. }, ObjectView::Number { value: b, .. }) => Ok(
                ObjectView::Number {
                    location,
                    value: Number { bits: difference_bits(a.bits, b.bits) },
                },
            ),
            _ => mismatch,
        },
        TokenType::Star => match (left, right) {
            (ObjectView::Number { value: a, .. }, ObjectView::Number { value: b, .. }) => Ok(
                ObjectView::Number {
                    location,
                    value: Number { bits: product_bits(a.bits, b.bits) },
                },
            ),
            _ => mismatch,
        },
        TokenType::Slash => match (left, right) {
            (ObjectView::Number { value: a, .. }, ObjectView::Number { value: b, .. }) => Ok(
                ObjectView::Number {
                    location,
                    value: Number { bits: quotient_bits(a.bits, b.bits) },
                },
            ),
            _ => mismatch,
        },
        TokenType::EqualEqual => Ok(
            ObjectView::Boolean { location, value: objects_equal(left, right) },
        ),
        TokenType::BangEqual => Ok(
            ObjectView::Boolean { location, value: !objects_equal(left, right) },
        ),
        TokenType::GreaterEqual => match (left, right) {
            (ObjectView::Number { value: a, .. }, ObjectView::Number { value: b, .. }) => Ok(
                ObjectView::Boolean { location, value: number_le(b.bits, a.bits) },
            ),
            _ => mismatch,
        },
        TokenType::Greater => match (left, right) {
            (ObjectView::Number { value: a, .. }, ObjectView::Number { value: b, .. }) => Ok(
                ObjectView::Boolean { location, value: number_lt(b.bits, a.bits) },
            ),
            _ => mismatch,
        },
        TokenType::LessEqual => match (left, right) {
            (ObjectView::Number { value: a, .. }, ObjectView::Number { value: b, .. }) => Ok(
                ObjectView::Boolean { location, value: number_le(a.bits, b.bits) },
            ),
            _ => mismatch,
        },
        TokenType::Less => match (left, right) {
            (ObjectView::Number { value: a, .. }, ObjectView::Number { value: b, .. }) => Ok(
                ObjectView::Boolean { location, value: number_lt(a.bits, b.bits) },
            ),
            _ => mismatch,
        },
        _ => mismatch,
    }
}

/// The result of the unary operator `operator` on `right`.
///
/// `!` gives the opposite of the operand's truthiness, for any value; `-`
/// negates a number. Anything else is an error that names the operator's
/// text and the operand's kind.
pub open spec fn unary_result(operator: TokenView, right: ObjectView) -> Result<
    ObjectView,
    ErrorView,
> {
    match (operator.kind, right) {
        (TokenType::Bang, _) => Ok(
            ObjectView::Boolean { location: object_location(right), value: !truthy(right) },
        ),
        (TokenType::Minus, ObjectView::Number { location, value }) => Ok(
            ObjectView::Number { location, value: Number { bits: negated(value.bits) } },
        ),
        _ => Err(
            ErrorView::InvalidUnaryOperation {
                location: join_spans(operator.location, object_location(right)),
                operator: operator.lexeme,
                right: kind_name(right),
            },
        ),
    }
}

/// What a computed value, or the error in its place, is.
pub open spec fn value_model(result: Result<LoxObject, LoxError>) -> Result<ObjectView, ErrorView> {
    match result {
        Ok(value) => Ok(value@),
        Err(error) => Err(error@),
    }
}

/// The result of a binary operator applied to operands it is not defined for.
fn mismatch(left: &LoxObject, token: &Token, right: &LoxObject) -> (r: LoxError)
    ensures
        r@ == binary_mismatch(left@, token@, right@),
{
    LoxError::InvalidBinaryOperation {
        location: left.location().join(token.location).join(right.location()),
        left: left.type_to_string(),
        operator: token.lexeme.clone(),
        right: right.type_to_string(),
    }
}

/// Applies a binary operator to the values of its operands.
pub fn binary_operation(left: LoxObject, token: &Token, right: LoxObject) -> (r: Result<
    LoxObject,
    LoxError,
>)
    ensures
        value_model(r) == binary_result(left@, token@, right@),
{
    let location = left.location().join(token.location).join(right.location());
    match token.kind {
        TokenType::Plus => match (&left, &right) {
            (LoxObject::Number { value: a, .. }, LoxObject::Number { value: b, .. }) => Ok(
                LoxObject::Number { location, value: a.plus(*b) },
            ),
            (LoxObject::String { value: a, .. }, LoxObject::String { value: b, .. }) => Ok(
                LoxObject::String { location, value: a.clone().concat(b.as_str()) },
            ),
            _ => Err(mismatch(&left, token, &right)),
        },
        TokenType::Minus => match (&left, &right) {
            (LoxObject::Number { value: a, .. }, LoxObject::Number { value: b, .. }) => Ok(
                LoxObject::Number { location, value: a.minus(*b) },
            ),
            _ => Err(mismatch(&left, token, &right)),
        },
        TokenType::Star => match (&left, &right) {
            (LoxObject::Number { value: a, .. }, LoxObject::Number { value: b, .. }) => Ok(
                LoxObject::Number { location, value: a.times(*b) },
            ),
            _ => Err(mismatch(&left, token, &right)),
        },
        TokenType::Slash => match (&left, &right) {
            (LoxObject::Number { value: a, .. }, LoxObject::Number { value: b, .. }) => Ok(
                LoxObject::Number { location, value: a.divided_by(*b) },
            ),
            _ => Err(mismatch(&left, token, &right)),
        },
        TokenType::EqualEqual => Ok(
            LoxObject::Boolean { location, value: LoxObject::is_equal(left, right) },
        ),
        TokenType::BangEqual => Ok(
            LoxObject::Boolean { location, value: !LoxObject::is_equal(left, right) },
        ),
        TokenType::GreaterEqual => match (&left, &right) {
            (LoxObject::Number { value: a, .. }, LoxObject::Number { value: b, .. }) => Ok(
                LoxObject::Boolean { location, value: a.greater_or_equal(*b) },
            ),
            _ => Err(mismatch(&left, token, &right)),
        },
        TokenType::Greater => match (&left, &right) {
            (LoxObject::Number { value: a, .. }, LoxObject::Number { value: b, .. }) => Ok(
                LoxObject::Boolean { location, value: a.greater_than(*b) },
            ),
            _ => Err(mismatch(&left, token, &right)),
        },
        TokenType::LessEqual => match (&left, &right) {
            (LoxObject::Number { value: a, .. }, LoxObject::Number { value: b, .. }) => Ok(
                LoxObject::Boolean { location, value: a.less_or_equal(*b) },
            ),
            _ => Err(mismatch(&left, token, &right)),
        },
        TokenType::Less => match (&left, &right) {
            (LoxObject::Number { value: a, .. }, LoxObject::Number { value: b, .. }) => Ok(
                LoxObject::Boolean { location, value: a.less_than(*b) },
            ),
            _ => Err(mismatch(&left, token, &right)),
        },
        _ => Err(mismatch(&left, token, &right)),
    }
}

/// Applies a unary operator to the value of its operand.
pub fn unary_operation(operator: &Token, right: LoxObject) -> (r: Result<LoxObject, LoxError>)
    ensures
        value_model(r) == unary_result(operator@, right@),
{
    match (operator.kind, &right) {
        (TokenType::Bang, _) => Ok(
            LoxObject::Boolean { location: right.location(), value: !right.is_truthy() },
        ),
        (TokenType::Minus, LoxObject::Number { location, value }) => Ok(
            LoxObject::Number { location: *location, value: value.negate() },
        ),
        _ => Err(
            LoxError::InvalidUnaryOperation {
                location: operator.location.join(right.location()),
                operator: operator.lexeme.clone(),
                right: right.type_to_string(),
            },
        ),
    }
}

/// Whether two values are of the same kind.
pub open spec fn same_kind(left: ObjectView, right: ObjectView) -> bool {
    ||| left is String && right is String
    ||| left is Number && right is Number
    ||| left is Boolean && right is Boolean
    ||| left is Nil && right is Nil
    ||| left is Callable && right is Callable
}

/// Equality across kinds is never true and never an error: `==` on two
/// values of different kinds is `false` and `!=` is `true`, whatever the
/// values hold.
pub proof fn equality_across_kinds_is_false(
    left: ObjectView,
    operator: TokenView,
    right: ObjectView,
)
    requires
        !same_kind(left, right),
        operator.kind == TokenType::EqualEqual || operator.kind == TokenType::BangEqual,
    ensures
        !objects_equal(left, right),
        binary_result(left, operator, right) == Ok::<ObjectView, ErrorView>(
            ObjectView::Boolean {
                location: operation_span(left, operator, right),
                value: operator.kind == TokenType::BangEqual,
            },
        ),
{
}

/// `==` and `!=` are defined for every pair of values: comparing is never
/// an error.
pub proof fn equality_is_total(left: ObjectView, operator: TokenView, right: ObjectView)
    requires
        operator.kind == TokenType::EqualEqual || operator.kind == TokenType::BangEqual,
    ensures
        binary_result(left, operator, right) is Ok,
{
}

} // verus!
