//! The syntax-tree fragment that the rewrite reads and builds.
use vstd::prelude::*;

verus! {

/// Assignment operators: plain `=`, the arithmetic and bitwise compounds,
/// and the three logical compounds.
#[derive(Clone, Copy, Debug, PartialEq, Eq, Structural)]
pub enum AssignmentOperator {
    Assign,
    Addition,
    Subtraction,
    Multiplication,
    Division,
    Remainder,
    Exponential,
    ShiftLeft,
    ShiftRight,
    ShiftRightZeroFill,
    BitwiseOr,
    BitwiseXor,
    BitwiseAnd,
    LogicalAnd,
    LogicalOr,
    LogicalNullish,
}

/// Short-circuiting binary operators: `||`, `&&` and `??`.
#[derive(Clone, Copy, Debug, PartialEq, Eq, Structural)]
pub enum LogicalOperator {
    Or,
    And,
    Coalesce,
}

/// An expression.
#[derive(Debug, PartialEq, Eq)]
pub enum Expression {
    /// A reference to a binding, by name.
    Identifier(String),
    /// `this`.
    This,
    NumericLiteral(u64),
    StringLiteral(String),
    /// `callee(arguments...)`.
    Call { callee: Box<Expression>, arguments: Vec<Expression> },
    Member(Box<MemberExpression>),
    Assignment(Box<AssignmentExpression>),
    Logical(Box<LogicalExpression>),
    /// The placeholder left in a slot whose subtree was moved elsewhere.
    Empty,
    /// A subtree the rewrite never looks into, held elsewhere under this handle.
    Opaque(u64),
}

/// A property access.
#[derive(Debug, PartialEq, Eq)]
pub enum MemberExpression {
    /// `object.property`.
    Static { object: Expression, property: String },
    /// `object[expression]`.
    Computed { object: Expression, expression: Expression },
    /// `object.#field`.
    PrivateField { object: Expression, field: String },
}

/// `left operator right`, where `operator` is an assignment operator.
#[derive(Debug, PartialEq, Eq)]
pub struct AssignmentExpression {
    pub operator: AssignmentOperator,
    pub left: AssignmentTarget,
    pub right: Expression,
}

/// `left operator right`, where `operator` is a logical operator.
#[derive(Debug, PartialEq, Eq)]
pub struct LogicalExpression {
    pub left: Expression,
    pub operator: LogicalOperator,
    pub right: Expression,
}

/// What an assignment writes to.
#[derive(Debug, PartialEq, Eq)]
pub enum AssignmentTarget {
    Simple(SimpleAssignmentTarget),
    /// A destructuring pattern `[a, b]` or `{a, b}`, listed by its element targets.
    Pattern(Vec<AssignmentTarget>),
}

/// A single-location assignment target.
#[derive(Debug, PartialEq, Eq)]
pub enum SimpleAssignmentTarget {
    Identifier(String),
    Member(Box<MemberExpression>),
    /// A type-annotated target such as `x as T` or `x!`, holding the inner expression.
    Other(Box<Expression>),
}

/// `true` when `e` is a bare binding reference, which can be read twice without a hazard.
pub open spec fn is_trivial(e: Expression) -> bool {
    e is Identifier
}

pub open spec fn assignment(target: AssignmentTarget, value: Expression) -> Expression {
    Expression::Assignment(
        Box::new(
            AssignmentExpression { operator: AssignmentOperator::Assign, left: target, right: value },
        ),
    )
}

/// Builds `target = value` with the plain `=` operator.
pub fn plain_assignment(target: AssignmentTarget, value: Expression) -> (r: Expression)
    ensures
        r == assignment(target, value),
{
    Expression::Assignment(
        Box::new(
            AssignmentExpression { operator: AssignmentOperator::Assign, left: target, right: value },
        ),
    )
}

} // verus!
