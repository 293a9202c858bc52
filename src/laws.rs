//! Properties of the rewrite, stated over its specification and proved.
use vstd::prelude::*;
use crate::ast::{
    assignment, is_trivial, AssignmentExpression, AssignmentOperator, AssignmentTarget,
    Expression, LogicalExpression, LogicalOperator, MemberExpression, SimpleAssignmentTarget,
};
use crate::logical_assignment_operators::{
    is_rewritable, logical_operator_of, rewritten, temps_needed,
};

verus! {

/// `target op= right` as an expression.
pub open spec fn compound(op: AssignmentOperator, target: AssignmentTarget, right: Expression) -> Expression {
    Expression::Assignment(Box::new(AssignmentExpression { operator: op, left: target, right }))
}

/// `left op right` as an expression.
pub open spec fn guard(
    left: Expression,
    op: LogicalOperator,
    right: Expression,
) -> Expression {
    Expression::Logical(Box::new(LogicalExpression { left, operator: op, right }))
}

/// The target `member`.
pub open spec fn member_target(member: MemberExpression) -> AssignmentTarget {
    AssignmentTarget::Simple(SimpleAssignmentTarget::Member(Box::new(member)))
}

/// The target `name`.
pub open spec fn name_target(name: String) -> AssignmentTarget {
    AssignmentTarget::Simple(SimpleAssignmentTarget::Identifier(name))
}

/// A binding target: `a op= c` becomes `a op' (a = c)`, with no scratch variable.
pub proof fn law_identifier_target(name: String, op: AssignmentOperator, right: Expression, temps: Seq<String>)
    requires
        logical_operator_of(op) is Some,
    ensures
        is_rewritable(compound(op, name_target(name), right)),
        temps_needed(compound(op, name_target(name), right)) == 0,
        rewritten(compound(op, name_target(name), right), temps) == guard(
            Expression::Identifier(name),
            logical_operator_of(op)->0,
            assignment(name_target(name), right),
        ),
{
}

/// `a.b op= c` with a binding `a` becomes `a.b op' (a.b = c)`, with no scratch variable.
pub proof fn law_static_member_plain_object(
    object: String,
    property: String,
    op: AssignmentOperator,
    right: Expression,
    temps: Seq<String>,
)
    requires
        logical_operator_of(op) is Some,
    ensures
        ({
            let member = MemberExpression::Static { object: Expression::Identifier(object), property };
            let e = compound(op, member_target(member), right);
            &&& is_rewritable(e)
            &&& temps_needed(e) == 0
            &&& rewritten(e, temps) == guard(
                Expression::Member(Box::new(member)),
                logical_operator_of(op)->0,
                assignment(member_target(member), right),
            )
        }),
{
}

/// `o.b op= c` where `o` is not a bare binding needs one scratch variable `t`, and
/// becomes `(t = o).b op' (t.b = c)`: `o` stands once in the result.
pub proof fn law_static_member_effectful_object(
    object: Expression,
    property: String,
    op: AssignmentOperator,
    right: Expression,
    temp: String,
)
    requires
        logical_operator_of(op) is Some,
        !is_trivial(object),
    ensures
        ({
            let e = compound(op, member_target(MemberExpression::Static { object, property }), right);
            &&& is_rewritable(e)
            &&& temps_needed(e) == 1
            &&& rewritten(e, seq![temp]) == guard(
                Expression::Member(
                    Box::new(
                        MemberExpression::Static {
                            object: assignment(name_target(temp), object),
                            property,
                        },
                    ),
                ),
                logical_operator_of(op)->0,
                assignment(
                    member_target(
                        MemberExpression::Static { object: Expression::Identifier(temp), property },
                    ),
                    right,
                ),
            )
        }),
{
}

/// `o[k] op= c`: each of `o` and `k` that is not a bare binding gets a scratch variable
/// of its own, the object's first, assigned where it is read in the guard and read
/// back in the nested assignment.
pub proof fn law_computed_member(
    object: Expression,
    key: Expression,
    op: AssignmentOperator,
    right: Expression,
    t0: String,
    t1: String,
)
    requires
        logical_operator_of(op) is Some,
    ensures
        ({
            let e = compound(
                op,
                member_target(MemberExpression::Computed { object, expression: key }),
                right,
            );
            let lop = logical_operator_of(op)->0;
            let computed = |o: Expression, k: Expression| MemberExpression::Computed { object: o, expression: k };
            &&& is_rewritable(e)
            &&& (is_trivial(object) && is_trivial(key)) ==> temps_needed(e) == 0 && rewritten(
                e,
                seq![],
            ) == guard(
                Expression::Member(Box::new(computed(object, key))),
                lop,
                assignment(member_target(computed(object, key)), right),
            )
            &&& (!is_trivial(object) && is_trivial(key)) ==> temps_needed(e) == 1 && rewritten(
                e,
                seq![t0],
            ) == guard(
                Expression::Member(
                    Box::new(computed(assignment(name_target(t0), object), key)),
                ),
                lop,
                assignment(member_target(computed(Expression::Identifier(t0), key)), right),
            )
            &&& (is_trivial(object) && !is_trivial(key)) ==> temps_needed(e) == 1 && rewritten(
                e,
                seq![t0],
            ) == guard(
                Expression::Member(
                    Box::new(computed(object, assignment(name_target(t0), key))),
                ),
                lop,
                assignment(member_target(computed(object, Expression::Identifier(t0))), right),
            )
            &&& (!is_trivial(object) && !is_trivial(key)) ==> temps_needed(e) == 2 && rewritten(
                e,
                seq![t0, t1],
            ) == guard(
                Expression::Member(
                    Box::new(
                        computed(
                            assignment(name_target(t0), object),
                            assignment(name_target(t1), key),
                        ),
                    ),
                ),
                lop,
                assignment(
                    member_target(
                        computed(Expression::Identifier(t0), Expression::Identifier(t1)),
                    ),
                    right,
                ),
            )
        }),
{
}

/// Private-field and pattern targets are not rewritten: the expression stays as it is.
pub proof fn law_ineligible_targets(
    op: AssignmentOperator,
    object: Expression,
    field: String,
    pattern: Vec<AssignmentTarget>,
    right: Expression,
    temps: Seq<String>,
)
    ensures
        ({
            let private = compound(
                op,
                member_target(MemberExpression::PrivateField { object, field }),
                right,
            );
            let destructuring = compound(op, AssignmentTarget::Pattern(pattern), right);
            &&& !is_rewritable(private)
            &&& rewritten(private, temps) == private
            &&& !is_rewritable(destructuring)
            &&& rewritten(destructuring, temps) == destructuring
        }),
{
}

/// Rewriting again finds nothing to do: neither the guard, nor its read side, nor
/// the nested assignment is a logical compound assignment.
pub proof fn law_rewrite_idempotent(e: Expression, temps: Seq<String>)
    requires
        is_rewritable(e),
    ensures
        !is_rewritable(rewritten(e, temps)),
        rewritten(e, temps) matches Expression::Logical(l) && !is_rewritable(l.left)
            && !is_rewritable(l.right) && rewritten(l.left, temps) == l.left,
{
}

} // verus!
