//! The evaluator of compile-time constants: the value of one initializer, and
//! the values of all constants of an index, in whatever order they are declared.

use vstd::prelude::*;
use vstd::arithmetic::power2::{
    pow2,
    lemma2_to64,
    lemma2_to64_rest,
    lemma_pow2_adds,
    lemma_pow2_strictly_increases,
    lemma_pow2_unfold,
};
use indexmap::IndexMap;
use std::collections::VecDeque;
use crate::ast::{lemma_view_each_push, view_each, Operator, Statement, StatementView};
use crate::index::{Index, VariableIndexEntry};
use crate::resolver::resolution::{
    declared_type,
    is_resolution,
    lemma_constants_resolve,
    names_at,
    places,
    spec_cast_if_necessary,
    spec_collect,
    spec_evaluate_constants,
    spec_resolve_queue,
    spec_truncate,
    truncation_mask,
    Resolution,
};
use crate::typesystem::DataTypeInformation;
use crate::resolver::number::{
    integer_literal,
    is_real_literal,
    is_real_literal_text,
    parse_integer_literal,
};

verus! {

/// A real number as the term that denotes it. The evaluator decides what is
/// computed and leaves the computing to the target's arithmetic.
#[derive(Debug, PartialEq)]
pub enum RealValue {
    /// The number that a real literal denotes.
    Literal(String),
    /// The real number nearest to an integer.
    FromInt(i128),
    /// The result of arithmetic on two real numbers.
    Binary { operator: Operator, left: Box<RealValue>, right: Box<RealValue> },
}

/// The value of a constant.
#[derive(Debug, PartialEq)]
pub enum LiteralValue {
    Int(i128),
    Real(RealValue),
    Bool(bool),
}

/// The model of a [`RealValue`].
pub enum RealValueView {
    Literal(Seq<char>),
    FromInt(i128),
    Binary { operator: Operator, left: Box<RealValueView>, right: Box<RealValueView> },
}

/// The model of a [`LiteralValue`].
pub enum LiteralValueView {
    Int(i128),
    Real(RealValueView),
    Bool(bool),
}

/// The model of a real value.
pub open spec fn real_value_view(value: RealValue) -> RealValueView
    decreases value,
{
    match value {
        RealValue::Literal(text) => RealValueView::Literal(text@),
        RealValue::FromInt(v) => RealValueView::FromInt(v),
        RealValue::Binary { operator, left, right } => RealValueView::Binary {
            operator,
            left: Box::new(real_value_view(*left)),
            right: Box::new(real_value_view(*right)),
        },
    }
}

impl View for RealValue {
    type V = RealValueView;

    open spec fn view(&self) -> RealValueView {
        real_value_view(*self)
    }
}

impl View for LiteralValue {
    type V = LiteralValueView;

    open spec fn view(&self) -> LiteralValueView {
        match self {
            LiteralValue::Int(v) => LiteralValueView::Int(*v),
            LiteralValue::Real(v) => LiteralValueView::Real(v@),
            LiteralValue::Bool(v) => LiteralValueView::Bool(*v),
        }
    }
}

impl Clone for RealValue {
    fn clone(&self) -> (result: Self)
        ensures
            result@ == self@,
        decreases self,
    {
        match self {
            RealValue::Literal(text) => RealValue::Literal(text.clone()),
            RealValue::FromInt(v) => RealValue::FromInt(*v),
            RealValue::Binary { operator, left, right } => RealValue::Binary {
                operator: *operator,
                left: Box::new((&**left).clone()),
                right: Box::new((&**right).clone()),
            },
        }
    }
}

impl Clone for LiteralValue {
    fn clone(&self) -> (result: Self)
        ensures
            result@ == self@,
    {
        match self {
            LiteralValue::Int(v) => LiteralValue::Int(*v),
            LiteralValue::Real(v) => LiteralValue::Real(v.clone()),
            LiteralValue::Bool(v) => LiteralValue::Bool(*v),
        }
    }
}

/// The hash map of an outside crate that keeps its entries in the order in
/// which their keys were first inserted.
#[verifier::external_type_specification]
#[verifier::external_body]
#[verifier::reject_recursive_types(K)]
#[verifier::reject_recursive_types(V)]
#[verifier::reject_recursive_types(S)]
pub struct ExIndexMap<K, V, S>(IndexMap<K, V, S>);

/// The values of the constants that are resolved, by qualified name.
pub type ConstantsIndex = IndexMap<String, LiteralValue>;

/// The model of the values that a constants index holds, by the model of their keys.
pub uninterp spec fn constants_map(index: IndexMap<String, LiteralValue>) -> Map<
    Seq<char>,
    LiteralValueView,
>;

/// The models of the keys of a constants index, in the order in which the index
/// hands its entries out: that in which the keys were first inserted.
pub uninterp spec fn constants_order(index: IndexMap<String, LiteralValue>) -> Seq<Seq<char>>;

/// The model of a constants index without entries.
pub open spec fn no_constants() -> Map<Seq<char>, LiteralValueView> {
    Map::empty()
}

/// `IndexMap::new`: a map without entries.
#[verifier::external_body]
fn new_constants_index() -> (result: IndexMap<String, LiteralValue>)
    ensures
        constants_map(result) == no_constants(),
        constants_order(result) == Seq::<Seq<char>>::empty(),
{
    IndexMap::new()
}

/// `IndexMap::insert`: the key has the given value afterwards and every other
/// key the value that it had. A key that was in the map keeps its place in the
/// order; a new key comes last.
#[verifier::external_body]
fn insert_constant(index: &mut IndexMap<String, LiteralValue>, name: String, value: LiteralValue)
    ensures
        constants_map(*final(index)) == constants_map(*old(index)).insert(name@, value@),
        constants_order(*final(index)) == if constants_map(*old(index)).contains_key(name@) {
            constants_order(*old(index))
        } else {
            constants_order(*old(index)).push(name@)
        },
{
    index.insert(name, value);
}

/// `IndexMap::get`: the value of the key, where the map holds the key.
#[verifier::external_body]
fn get_constant<'a>(index: &'a IndexMap<String, LiteralValue>, name: &str) -> (result: Option<
    &'a LiteralValue,
>)
    ensures
        match result {
            Some(value) => constants_map(*index).contains_key(name@) && constants_map(
                *index,
            )[name@] == value@,
            None => !constants_map(*index).contains_key(name@),
        },
{
    index.get(name)
}

/// Why an initializer has no value and never will have one.
#[derive(Debug, Clone, Copy, PartialEq, Eq, Structural)]
pub enum EvaluationError {
    /// The text of an integer literal is no decimal number, or the number
    /// does not fit the 128 bits in which integers are kept.
    InvalidInteger,
    /// The text of a real literal is no real literal.
    InvalidReal,
    /// The result of integer arithmetic does not fit 128 bits.
    Overflow,
    /// An integer is divided by zero.
    DivisionByZero,
    /// The operator is not defined for operands of these kinds.
    IllegalOperands(Operator),
    /// Two reals are compared for equality, which no tolerance makes sound.
    RealComparison,
    /// The operator is not evaluated at compile time.
    UnsupportedOperator(Operator),
    /// The operand of `NOT` is neither a boolean nor an integer.
    IllegalNegation,
    /// The statement is no expression that is evaluated at compile time.
    UnsupportedStatement,
}

impl EvaluationError {
    /// A sentence that says what is wrong.
    pub open spec fn spec_message(self) -> Seq<char> {
        match self {
            EvaluationError::InvalidInteger => "Cannot parse the literal as an integer"@,
            EvaluationError::InvalidReal => "Cannot parse the literal as a real"@,
            EvaluationError::Overflow => "The result of integer arithmetic is out of range"@,
            EvaluationError::DivisionByZero => "Cannot divide an integer by zero"@,
            EvaluationError::IllegalOperands(_) => "Cannot evaluate the operator on these operands"@,
            EvaluationError::RealComparison => "Cannot compare Reals without epsilon"@,
            EvaluationError::UnsupportedOperator(_) => "Cannot resolve the operation"@,
            EvaluationError::IllegalNegation => "Cannot resolve constant NOT of this operand"@,
            EvaluationError::UnsupportedStatement => "Cannot resolve constant"@,
        }
    }

    /// A sentence that says what is wrong.
    pub fn message(&self) -> (result: &'static str)
        ensures
            result@ == self.spec_message(),
    {
        match self {
            EvaluationError::InvalidInteger => "Cannot parse the literal as an integer",
            EvaluationError::InvalidReal => "Cannot parse the literal as a real",
            EvaluationError::Overflow => "The result of integer arithmetic is out of range",
            EvaluationError::DivisionByZero => "Cannot divide an integer by zero",
            EvaluationError::IllegalOperands(_) => "Cannot evaluate the operator on these operands",
            EvaluationError::RealComparison => "Cannot compare Reals without epsilon",
            EvaluationError::UnsupportedOperator(_) => "Cannot resolve the operation",
            EvaluationError::IllegalNegation => "Cannot resolve constant NOT of this operand",
            EvaluationError::UnsupportedStatement => "Cannot resolve constant",
        }
    }
}

/// A constant whose initializer is no legal constant expression, with the
/// error that evaluating the initializer gave.
#[derive(Debug, Clone, PartialEq, Eq)]
pub struct IllegalConstant {
    pub name: String,
    pub error: EvaluationError,
}

/// The model of an [`IllegalConstant`].
pub struct IllegalConstantView {
    pub name: Seq<char>,
    pub error: EvaluationError,
}

impl View for IllegalConstant {
    type V = IllegalConstantView;

    open spec fn view(&self) -> IllegalConstantView {
        IllegalConstantView { name: self.name@, error: self.error }
    }
}

/// The quotient of an integer division, rounded towards zero.
pub open spec fn truncated_quotient(x: int, d: int) -> int
    recommends
        d != 0,
{
    if x == 0 {
        0
    } else if x > 0 && d > 0 {
        x / d
    } else if x < 0 && d < 0 {
        (x * -1) / (d * -1)
    } else if x < 0 {
        ((x * -1) / d) * -1
    } else {
        (x / (d * -1)) * -1
    }
}

/// The remainder of an integer division that rounds towards zero; it has the
/// sign of the dividend.
pub open spec fn truncated_remainder(x: int, d: int) -> int
    recommends
        d != 0,
{
    if x == 0 {
        0
    } else if x > 0 && d > 0 {
        x % d
    } else if x < 0 && d < 0 {
        ((x * -1) % (d * -1)) * -1
    } else if x < 0 {
        ((x * -1) % d) * -1
    } else {
        x % (d * -1)
    }
}

/// The integer as a value, where it fits 128 bits.
pub open spec fn integer_in_range(x: int) -> Result<LiteralValueView, EvaluationError> {
    if i128::MIN <= x <= i128::MAX {
        Ok(LiteralValueView::Int(x as i128))
    } else {
        Err(EvaluationError::Overflow)
    }
}

/// Whether the operator is one of arithmetic: `+`, `-`, `*`, `/` and `MOD`.
pub open spec fn is_arithmetic(operator: Operator) -> bool {
    matches!(
        operator,
        Operator::Plus | Operator::Minus | Operator::Multiplication | Operator::Division
            | Operator::Modulo
    )
}

/// Arithmetic on two integers. The result must fit 128 bits, and nothing is
/// divided by zero.
pub open spec fn integer_arithmetic(operator: Operator, l: i128, r: i128) -> Result<
    LiteralValueView,
    EvaluationError,
> {
    match operator {
        Operator::Plus => integer_in_range(l + r),
        Operator::Minus => integer_in_range(l - r),
        Operator::Multiplication => integer_in_range(l * r),
        Operator::Division => if r == 0 {
            Err(EvaluationError::DivisionByZero)
        } else {
            integer_in_range(truncated_quotient(l as int, r as int))
        },
        Operator::Modulo => if r == 0 {
            Err(EvaluationError::DivisionByZero)
        } else if l == i128::MIN && r == -1 {
            Err(EvaluationError::Overflow)
        } else {
            integer_in_range(truncated_remainder(l as int, r as int))
        },
        _ => Err(EvaluationError::UnsupportedOperator(operator)),
    }
}

/// A number as a real: an integer is converted, a real is itself. A boolean
/// is no number.
pub open spec fn as_real(value: LiteralValueView) -> Option<RealValueView> {
    match value {
        LiteralValueView::Int(v) => Some(RealValueView::FromInt(v)),
        LiteralValueView::Real(v) => Some(v),
        LiteralValueView::Bool(_) => None,
    }
}

/// Arithmetic on two values. On two integers it is integer arithmetic; where
/// one operand at least is a real, both are taken as reals and the result is
/// a real. A boolean is no operand of arithmetic, and no other operator is
/// one of arithmetic.
pub open spec fn spec_arithmetic(
    operator: Operator,
    left: LiteralValueView,
    right: LiteralValueView,
) -> Result<LiteralValueView, EvaluationError> {
    if !is_arithmetic(operator) {
        Err(EvaluationError::UnsupportedOperator(operator))
    } else {
        match (left, right) {
            (LiteralValueView::Int(l), LiteralValueView::Int(r)) => integer_arithmetic(
                operator,
                l,
                r,
            ),
            _ => match (as_real(left), as_real(right)) {
                (Some(l), Some(r)) => Ok(
                    LiteralValueView::Real(
                        RealValueView::Binary { operator, left: Box::new(l), right: Box::new(r) },
                    ),
                ),
                _ => Err(EvaluationError::IllegalOperands(operator)),
            },
        }
    }
}

/// Whether two values are equal: two integers or two booleans. Two reals are
/// never compared, and two values of different kinds neither.
pub open spec fn spec_eq(left: LiteralValueView, right: LiteralValueView) -> Result<
    LiteralValueView,
    EvaluationError,
> {
    match (left, right) {
        (LiteralValueView::Int(l), LiteralValueView::Int(r)) => Ok(LiteralValueView::Bool(l == r)),
        (LiteralValueView::Real(_), LiteralValueView::Real(_)) => Err(
            EvaluationError::RealComparison,
        ),
        (LiteralValueView::Bool(l), LiteralValueView::Bool(r)) => Ok(
            LiteralValueView::Bool(l == r),
        ),
        _ => Err(EvaluationError::IllegalOperands(Operator::Equal)),
    }
}

/// Whether two values differ: two integers or two booleans.
pub open spec fn spec_neq(left: LiteralValueView, right: LiteralValueView) -> Result<
    LiteralValueView,
    EvaluationError,
> {
    match (left, right) {
        (LiteralValueView::Int(l), LiteralValueView::Int(r)) => Ok(LiteralValueView::Bool(l != r)),
        (LiteralValueView::Real(_), LiteralValueView::Real(_)) => Err(
            EvaluationError::RealComparison,
        ),
        (LiteralValueView::Bool(l), LiteralValueView::Bool(r)) => Ok(
            LiteralValueView::Bool(l != r),
        ),
        _ => Err(EvaluationError::IllegalOperands(Operator::NotEqual)),
    }
}

/// Whether the operator is `AND`, `OR` or `XOR`.
pub open spec fn is_bitwise(operator: Operator) -> bool {
    matches!(operator, Operator::And | Operator::Or | Operator::Xor)
}

/// `AND`, `OR` and `XOR`: bit by bit on two integers, and on the truth
/// values of two booleans.
pub open spec fn spec_bitwise(
    operator: Operator,
    left: LiteralValueView,
    right: LiteralValueView,
) -> Result<LiteralValueView, EvaluationError> {
    match (operator, left, right) {
        (Operator::And, LiteralValueView::Int(l), LiteralValueView::Int(r)) => Ok(
            LiteralValueView::Int(l & r),
        ),
        (Operator::Or, LiteralValueView::Int(l), LiteralValueView::Int(r)) => Ok(
            LiteralValueView::Int(l | r),
        ),
        (Operator::Xor, LiteralValueView::Int(l), LiteralValueView::Int(r)) => Ok(
            LiteralValueView::Int(l ^ r),
        ),
        (Operator::And, LiteralValueView::Bool(l), LiteralValueView::Bool(r)) => Ok(
            LiteralValueView::Bool(l && r),
        ),
        (Operator::Or, LiteralValueView::Bool(l), LiteralValueView::Bool(r)) => Ok(
            LiteralValueView::Bool(l || r),
        ),
        (Operator::Xor, LiteralValueView::Bool(l), LiteralValueView::Bool(r)) => Ok(
            LiteralValueView::Bool(l != r),
        ),
        _ => Err(EvaluationError::IllegalOperands(operator)),
    }
}

/// The value of a binary expression whose operands have the given values.
/// The relational operators are not evaluated at compile time, and `NOT`
/// takes one operand.
pub open spec fn spec_binary(
    operator: Operator,
    left: LiteralValueView,
    right: LiteralValueView,
) -> Result<LiteralValueView, EvaluationError> {
    if is_arithmetic(operator) {
        spec_arithmetic(operator, left, right)
    } else if operator == Operator::Equal {
        spec_eq(left, right)
    } else if operator == Operator::NotEqual {
        spec_neq(left, right)
    } else if is_bitwise(operator) {
        spec_bitwise(operator, left, right)
    } else {
        Err(EvaluationError::UnsupportedOperator(operator))
    }
}

/// The value of `NOT` on an operand of the given value: the other truth
/// value of a boolean, and the complement of an integer bit by bit.
pub open spec fn spec_not(value: LiteralValueView) -> Result<LiteralValueView, EvaluationError> {
    match value {
        LiteralValueView::Bool(v) => Ok(LiteralValueView::Bool(!v)),
        LiteralValueView::Int(v) => Ok(LiteralValueView::Int(!v)),
        LiteralValueView::Real(_) => Err(EvaluationError::IllegalNegation),
    }
}

/// What the evaluation of an initializer ends in: `Ok(Some(..))` with its
/// value; `Ok(None)` where a constant that it refers to has no value yet, so
/// that it may have a value later; `Err(..)` where it is no legal constant
/// expression, whatever values the constants get.
pub type Evaluation = Result<Option<LiteralValueView>, EvaluationError>;

/// The value of an initializer, given the values of the constants that are
/// resolved. A literal is its own value. A reference has the value of the
/// constant, if that is resolved. An operator is applied to the values of its
/// operands once all of them are resolved; an error in an operand is the
/// error of the expression, the left operand's first.
pub open spec fn spec_evaluate(
    initial: StatementView,
    constants: Map<Seq<char>, LiteralValueView>,
) -> Evaluation
    decreases initial,
{
    match initial {
        StatementView::LiteralNumber { value } => match integer_literal(value) {
            Some(v) => Ok(Some(LiteralValueView::Int(v))),
            None => Err(EvaluationError::InvalidInteger),
        },
        StatementView::LiteralReal { value } => if is_real_literal(value) {
            Ok(Some(LiteralValueView::Real(RealValueView::Literal(value))))
        } else {
            Err(EvaluationError::InvalidReal)
        },
        StatementView::LiteralBool { value } => Ok(Some(LiteralValueView::Bool(value))),
        StatementView::Reference { name } => if constants.contains_key(name) {
            Ok(Some(constants[name]))
        } else {
            Ok(None)
        },
        StatementView::BinaryExpression { operator, left, right } => match spec_evaluate(
            *left,
            constants,
        ) {
            Err(error) => Err(error),
            Ok(l) => match spec_evaluate(*right, constants) {
                Err(error) => Err(error),
                Ok(r) => match (l, r) {
                    (Some(l), Some(r)) => match spec_binary(operator, l, r) {
                        Ok(value) => Ok(Some(value)),
                        Err(error) => Err(error),
                    },
                    _ => Ok(None),
                },
            },
        },
        StatementView::UnaryExpression { operator, value } => if operator == Operator::Not {
            match spec_evaluate(*value, constants) {
                Err(error) => Err(error),
                Ok(None) => Ok(None),
                Ok(Some(v)) => match spec_not(v) {
                    Ok(value) => Ok(Some(value)),
                    Err(error) => Err(error),
                },
            }
        } else {
            Err(EvaluationError::UnsupportedStatement)
        },
        _ => Err(EvaluationError::UnsupportedStatement),
    }
}

/// The model of a result of operating on values.
pub open spec fn value_result_view(result: Result<LiteralValue, EvaluationError>) -> Result<
    LiteralValueView,
    EvaluationError,
> {
    match result {
        Ok(value) => Ok(value@),
        Err(error) => Err(error),
    }
}

/// The model of what an evaluation ends in.
pub open spec fn evaluation_view(result: Result<Option<LiteralValue>, EvaluationError>) -> Evaluation {
    match result {
        Ok(Some(value)) => Ok(Some(value@)),
        Ok(None) => Ok(None),
        Err(error) => Err(error),
    }
}

/// The integer, where an operation gave one, and the overflow where it gave none.
fn checked(outcome: Option<i128>) -> (result: Result<LiteralValue, EvaluationError>)
    ensures
        value_result_view(result) == match outcome {
            Some(v) => Ok::<LiteralValueView, EvaluationError>(LiteralValueView::Int(v)),
            None => Err(EvaluationError::Overflow),
        },
{
    match outcome {
        Some(v) => Ok(LiteralValue::Int(v)),
        None => Err(EvaluationError::Overflow),
    }
}

/// The number as a real, where the value is a number.
fn into_real(value: LiteralValue) -> (result: Option<RealValue>)
    ensures
        match result {
            Some(number) => as_real(value@) == Some(number@),
            None => as_real(value@) is None,
        },
{
    match value {
        LiteralValue::Int(v) => Some(RealValue::FromInt(v)),
        LiteralValue::Real(v) => Some(v),
        LiteralValue::Bool(_) => None,
    }
}

/// Arithmetic on two values, for `+`, `-`, `*`, `/` and `MOD`.
pub fn arithmetic_expression(operator: Operator, left: LiteralValue, right: LiteralValue) -> (result:
    Result<LiteralValue, EvaluationError>)
    ensures
        value_result_view(result) == spec_arithmetic(operator, left@, right@),
{
    match operator {
        Operator::Plus | Operator::Minus | Operator::Multiplication | Operator::Division
        | Operator::Modulo => {},
        _ => {
            return Err(EvaluationError::UnsupportedOperator(operator));
        },
    }
    match (left, right) {
        (LiteralValue::Int(l), LiteralValue::Int(r)) => match operator {
            Operator::Plus => checked(l.checked_add(r)),
            Operator::Minus => checked(l.checked_sub(r)),
            Operator::Multiplication => checked(l.checked_mul(r)),
            Operator::Division => if r == 0 {
                Err(EvaluationError::DivisionByZero)
            } else {
                checked(l.checked_div(r))
            },
            _ => if r == 0 {
                Err(EvaluationError::DivisionByZero)
            } else {
                checked(l.checked_rem(r))
            },
        },
        (left, right) => match (into_real(left), into_real(right)) {
            (Some(l), Some(r)) => Ok(
                LiteralValue::Real(
                    RealValue::Binary { operator, left: Box::new(l), right: Box::new(r) },
                ),
            ),
            _ => Err(EvaluationError::IllegalOperands(operator)),
        },
    }
}

/// The remainder of dividing the left value by the right one.
pub fn modulo(left: &LiteralValue, right: &LiteralValue) -> (result: Result<
    LiteralValue,
    EvaluationError,
>)
    ensures
        value_result_view(result) == spec_arithmetic(Operator::Modulo, left@, right@),
{
    arithmetic_expression(Operator::Modulo, left.clone(), right.clone())
}

/// Whether the two values are equal.
pub fn eq(left: &LiteralValue, right: &LiteralValue) -> (result: Result<
    LiteralValue,
    EvaluationError,
>)
    ensures
        value_result_view(result) == spec_eq(left@, right@),
{
    match (left, right) {
        (LiteralValue::Int(l), LiteralValue::Int(r)) => Ok(LiteralValue::Bool(*l == *r)),
        (LiteralValue::Real(_), LiteralValue::Real(_)) => Err(EvaluationError::RealComparison),
        (LiteralValue::Bool(l), LiteralValue::Bool(r)) => Ok(LiteralValue::Bool(*l == *r)),
        _ => Err(EvaluationError::IllegalOperands(Operator::Equal)),
    }
}

/// Whether the two values differ.
pub fn neq(left: &LiteralValue, right: &LiteralValue) -> (result: Result<
    LiteralValue,
    EvaluationError,
>)
    ensures
        value_result_view(result) == spec_neq(left@, right@),
{
    match (left, right) {
        (LiteralValue::Int(l), LiteralValue::Int(r)) => Ok(LiteralValue::Bool(*l != *r)),
        (LiteralValue::Real(_), LiteralValue::Real(_)) => Err(EvaluationError::RealComparison),
        (LiteralValue::Bool(l), LiteralValue::Bool(r)) => Ok(LiteralValue::Bool(*l != *r)),
        _ => Err(EvaluationError::IllegalOperands(Operator::NotEqual)),
    }
}

/// `AND`, `OR` and `XOR` on two values.
pub fn bitwise_expression(operator: Operator, left: &LiteralValue, right: &LiteralValue) -> (result:
    Result<LiteralValue, EvaluationError>)
    ensures
        value_result_view(result) == spec_bitwise(operator, left@, right@),
{
    match (left, right) {
        (LiteralValue::Int(l), LiteralValue::Int(r)) => match operator {
            Operator::And => Ok(LiteralValue::Int(*l & *r)),
            Operator::Or => Ok(LiteralValue::Int(*l | *r)),
            Operator::Xor => Ok(LiteralValue::Int(*l ^ *r)),
            _ => Err(EvaluationError::IllegalOperands(operator)),
        },
        (LiteralValue::Bool(l), LiteralValue::Bool(r)) => match operator {
            Operator::And => Ok(LiteralValue::Bool(*l && *r)),
            Operator::Or => Ok(LiteralValue::Bool(*l || *r)),
            Operator::Xor => Ok(LiteralValue::Bool(*l != *r)),
            _ => Err(EvaluationError::IllegalOperands(operator)),
        },
        _ => Err(EvaluationError::IllegalOperands(operator)),
    }
}

/// The truth value of a boolean; any other value is an error.
pub fn expect_bool(lit: &LiteralValue) -> (result: Result<bool, EvaluationError>)
    ensures
        result == match lit@ {
            LiteralValueView::Bool(v) => Ok::<bool, EvaluationError>(v),
            _ => Err(EvaluationError::IllegalOperands(Operator::Not)),
        },
{
    match lit {
        LiteralValue::Bool(v) => Ok(*v),
        _ => Err(EvaluationError::IllegalOperands(Operator::Not)),
    }
}

/// The value of a binary expression whose operands have the given values.
pub fn evaluate_binary(operator: Operator, left: LiteralValue, right: LiteralValue) -> (result:
    Result<LiteralValue, EvaluationError>)
    ensures
        value_result_view(result) == spec_binary(operator, left@, right@),
{
    match operator {
        Operator::Plus | Operator::Minus | Operator::Multiplication | Operator::Division => {
            arithmetic_expression(operator, left, right)
        },
        Operator::Modulo => modulo(&left, &right),
        Operator::Equal => eq(&left, &right),
        Operator::NotEqual => neq(&left, &right),
        Operator::And | Operator::Or | Operator::Xor => bitwise_expression(operator, &left, &right),
        _ => Err(EvaluationError::UnsupportedOperator(operator)),
    }
}

/// Evaluates the initializer `initial` with the constants that `cindex` holds.
///
/// - `Ok(Some(..))` is its value;
/// - `Ok(None)` says that a constant it refers to is not resolved yet;
/// - `Err(..)` says that it is no legal constant expression.
pub fn evaluate(initial: &Statement, cindex: &ConstantsIndex, index: &Index) -> (result: Result<
    Option<LiteralValue>,
    EvaluationError,
>)
    ensures
        evaluation_view(result) == spec_evaluate(initial@, constants_map(*cindex)),
    decreases initial,
{
    match initial {
        Statement::LiteralNumber { value } => match parse_integer_literal(value.as_str()) {
            Some(v) => Ok(Some(LiteralValue::Int(v))),
            None => Err(EvaluationError::InvalidInteger),
        },
        Statement::LiteralReal { value } => if is_real_literal_text(value.as_str()) {
            Ok(Some(LiteralValue::Real(RealValue::Literal(value.clone()))))
        } else {
            Err(EvaluationError::InvalidReal)
        },
        Statement::LiteralBool { value } => Ok(Some(LiteralValue::Bool(*value))),
        Statement::Reference { name } => match get_constant(cindex, name.as_str()) {
            Some(value) => Ok(Some(value.clone())),
            None => Ok(None),
        },
        Statement::BinaryExpression { operator, left, right } => {
            let left = match evaluate(&**left, cindex, index) {
                Err(error) => {
                    return Err(error);
                },
                Ok(value) => value,
            };
            let right = match evaluate(&**right, cindex, index) {
                Err(error) => {
                    return Err(error);
                },
                Ok(value) => value,
            };
            match (left, right) {
                (Some(left), Some(right)) => match evaluate_binary(*operator, left, right) {
                    Ok(value) => Ok(Some(value)),
                    Err(error) => Err(error),
                },
                _ => Ok(None),
            }
        },
        Statement::UnaryExpression { operator: Operator::Not, value } => match evaluate(
            &**value,
            cindex,
            index,
        ) {
            Err(error) => Err(error),
            Ok(None) => Ok(None),
            Ok(Some(LiteralValue::Bool(v))) => Ok(Some(LiteralValue::Bool(!v))),
            Ok(Some(LiteralValue::Int(v))) => Ok(Some(LiteralValue::Int(!v))),
            Ok(Some(LiteralValue::Real(_))) => Err(EvaluationError::IllegalNegation),
        },
        _ => Err(EvaluationError::UnsupportedStatement),
    }
}

/// The mask that keeps the low `size` bits of an integer.
pub fn get_truncation_mask(size: u32) -> (mask: i128)
    ensures
        mask == truncation_mask(size),
{
    if size >= 128 {
        return -1;
    }
    proof {
        lemma2_to64();
        lemma2_to64_rest();
        lemma_pow2_adds(64, 63);
    }
    let mut mask: i128 = 0;
    let mut i: u32 = 0;
    while i < size
        invariant
            i <= size < 128,
            mask == pow2(i as nat) - 1,
            pow2(127) == 0x8000_0000_0000_0000_0000_0000_0000_0000,
        decreases size - i,
    {
        proof {
            lemma_pow2_unfold((i + 1) as nat);
            if i + 1 < 127 {
                lemma_pow2_strictly_increases((i + 1) as nat, 127);
            }
        }
        mask = 2 * mask + 1;
        i += 1;
    }
    mask
}

/// Keeps of an integer for a constant of an unsigned integer type the bits
/// that the type has; every other value stays as it is.
pub fn truncate_if_unsigned(literal: LiteralValue, candidate: &VariableIndexEntry, index: &Index) -> (result:
    LiteralValue)
    ensures
        result@ == spec_truncate(literal@, declared_type(index@, candidate@)),
{
    match index.find_effective_type_by_name(candidate.get_type_name()) {
        Some(data_type) => match (literal, data_type.get_type_information()) {
            (LiteralValue::Int(v), DataTypeInformation::Integer { signed: false, size, .. }) => {
                LiteralValue::Int(v & get_truncation_mask(*size))
            },
            (literal, _) => literal,
        },
        None => literal,
    }
}

/// Fits the value to the type of the constant: an integer for a constant of
/// a floating-point type becomes a real.
pub fn cast_if_necessary(literal: LiteralValue, candidate: &VariableIndexEntry, index: &Index) -> (result:
    LiteralValue)
    ensures
        result@ == spec_cast_if_necessary(literal@, declared_type(index@, candidate@)),
{
    match index.find_effective_type_by_name(candidate.get_type_name()) {
        Some(data_type) => match literal {
            LiteralValue::Int(v) => if data_type.get_type_information().is_float() {
                LiteralValue::Real(RealValue::FromInt(v))
            } else {
                LiteralValue::Int(v)
            },
            literal => literal,
        },
        None => literal,
    }
}

/// Resolves the constants of the index, in whatever order they are declared.
/// Returns three things:
///
/// - the values of the constants that could be resolved, by qualified name
///   and in the order in which they were resolved;
/// - the qualified names of the constants that cannot be resolved: those
///   without an initializer, and those that wait for a constant that is
///   never resolved;
/// - the constants whose initializer is no legal constant expression, each
///   with its error.
///
/// Every constant with an initializer waits in a queue. The first of the
/// queue is evaluated with the constants that are resolved: with a value it
/// is resolved, without one it goes to the back and is tried again later, and
/// in error it is reported and not tried again. When all that wait were tried
/// in a row and none got a value, none ever will.
pub fn evaluate_constants(index: &Index) -> (result: (
    ConstantsIndex,
    Vec<String>,
    Vec<IllegalConstant>,
))
    ensures
        (Resolution {
            constants: constants_map(result.0),
            order: constants_order(result.0),
            unresolvable: view_each(result.1@),
            illegal: view_each(result.2@),
        }) == spec_evaluate_constants(index@),
        index.wf() ==> is_resolution(
            index@,
            Resolution {
                constants: constants_map(result.0),
                order: constants_order(result.0),
                unresolvable: view_each(result.1@),
                illegal: view_each(result.2@),
            },
        ),
{
    let variables = index.get_all_variable_entries();
    let mut resolved_constants = new_constants_index();
    let mut unresolvable: Vec<String> = Vec::new();
    let mut illegal: Vec<IllegalConstant> = Vec::new();
    let mut constants: VecDeque<usize> = VecDeque::new();
    let mut k: usize = 0;
    assert(places(constants@) =~= Seq::empty());
    assert(view_each(unresolvable@) =~= Seq::empty());
    assert(view_each(illegal@) =~= Seq::empty());
    while k < variables.len()
        invariant
            k <= variables.len(),
            view_each(variables@) == index@.variables,
            spec_collect(index@, 0, Seq::empty(), Seq::empty()) == spec_collect(
                index@,
                k as int,
                places(constants@),
                view_each(unresolvable@),
            ),
            forall|j: int|
                0 <= j < constants@.len() ==> (#[trigger] constants@[j]) < variables@.len(),
        decreases variables.len() - k,
    {
        let candidate = &variables[k];
        assert(candidate@ == index@.variables[k as int]);
        let ghost queue = constants@;
        if candidate.is_constant() {
            if candidate.initial_value.is_some() {
                constants.push_back(k);
                assert(places(constants@) =~= places(queue).push(k as int));
            } else {
                proof {
                    lemma_view_each_push(unresolvable@, candidate.name);
                }
                unresolvable.push(candidate.name.clone());
            }
        }
        k += 1;
    }
    let mut tries: usize = 0;
    while tries < constants.len()
        invariant
            view_each(variables@) == index@.variables,
            tries <= constants@.len(),
            forall|j: int|
                0 <= j < constants@.len() ==> (#[trigger] constants@[j]) < variables@.len(),
            spec_evaluate_constants(index@) == spec_resolve_queue(
                index@,
                places(constants@),
                tries as nat,
                Resolution {
                    constants: constants_map(resolved_constants),
                    order: constants_order(resolved_constants),
                    unresolvable: view_each(unresolvable@),
                    illegal: view_each(illegal@),
                },
            ),
        decreases constants@.len(), constants@.len() - tries,
    {
        let ghost queue = places(constants@);
        if let Some(place) = constants.pop_front() {
            assert(place == queue[0]);
            assert(places(constants@) =~= queue.subrange(1, queue.len() as int));
            let candidate = &variables[place];
            assert(candidate@ == index@.variables[place as int]);
            match &candidate.initial_value {
                None => {
                    proof {
                        lemma_view_each_push(unresolvable@, candidate.name);
                    }
                    unresolvable.push(candidate.name.clone());
                },
                Some(initial) => match evaluate(initial, &resolved_constants, index) {
                    Ok(Some(literal)) => {
                        let value = cast_if_necessary(
                            truncate_if_unsigned(literal, candidate, index),
                            candidate,
                            index,
                        );
                        insert_constant(&mut resolved_constants, candidate.name.clone(), value);
                        tries = 0;
                    },
                    Ok(None) => {
                        tries += 1;
                        constants.push_back(place);
                        assert(places(constants@) =~= queue.subrange(
                            1,
                            queue.len() as int,
                        ).push(queue[0]));
                    },
                    Err(error) => {
                        let reported = IllegalConstant { name: candidate.name.clone(), error };
                        proof {
                            lemma_view_each_push(illegal@, reported);
                        }
                        illegal.push(reported);
                    },
                },
            }
        }
    }
    let ghost given_up = view_each(unresolvable@);
    let ghost waiting = names_at(index@, places(constants@));
    let mut j: usize = 0;
    while j < constants.len()
        invariant
            j <= constants.len(),
            view_each(variables@) == index@.variables,
            waiting == names_at(index@, places(constants@)),
            forall|i: int|
                0 <= i < constants@.len() ==> (#[trigger] constants@[i]) < variables@.len(),
            view_each(unresolvable@) == given_up + waiting.take(j as int),
        decreases constants.len() - j,
    {
        let candidate = &variables[constants[j]];
        proof {
            lemma_view_each_push(unresolvable@, candidate.name);
            assert(candidate@ == index@.variables[constants@[j as int] as int]);
            assert(waiting[j as int] == candidate@.name);
            assert((given_up + waiting.take(j as int)).push(waiting[j as int]) =~= given_up
                + waiting.take(j + 1));
        }
        unresolvable.push(candidate.name.clone());
        j += 1;
    }
    proof {
        assert(waiting.take(j as int) =~= waiting);
        if index.wf() {
            lemma_constants_resolve(index@);
        }
    }
    (resolved_constants, unresolvable, illegal)
}

} // verus!
