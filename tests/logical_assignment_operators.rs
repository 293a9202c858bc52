use logical_assignment::ast::{
    AssignmentExpression, AssignmentOperator, AssignmentTarget, Expression, LogicalExpression,
    LogicalOperator, MemberExpression, SimpleAssignmentTarget,
};
use logical_assignment::logical_assignment_operators::{
    logical_operator, CreateVars, LogicalAssignmentOperators, VariableDeclarator,
};
use logical_assignment::options::{TransformOptions, TransformTarget};

fn id(name: &str) -> Expression {
    Expression::Identifier(name.to_string())
}

fn call(callee: &str) -> Expression {
    Expression::Call { callee: Box::new(id(callee)), arguments: Vec::new() }
}

fn name_target(name: &str) -> AssignmentTarget {
    AssignmentTarget::Simple(SimpleAssignmentTarget::Identifier(name.to_string()))
}

fn member_target(member: MemberExpression) -> AssignmentTarget {
    AssignmentTarget::Simple(SimpleAssignmentTarget::Member(Box::new(member)))
}

fn member(member: MemberExpression) -> Expression {
    Expression::Member(Box::new(member))
}

fn stat(object: Expression, property: &str) -> MemberExpression {
    MemberExpression::Static { object, property: property.to_string() }
}

fn comp(object: Expression, key: Expression) -> MemberExpression {
    MemberExpression::Computed { object, expression: key }
}

fn assign_op(operator: AssignmentOperator, left: AssignmentTarget, right: Expression) -> Expression {
    Expression::Assignment(Box::new(AssignmentExpression { operator, left, right }))
}

fn assign(left: AssignmentTarget, right: Expression) -> Expression {
    assign_op(AssignmentOperator::Assign, left, right)
}

fn logical(left: Expression, operator: LogicalOperator, right: Expression) -> Expression {
    Expression::Logical(Box::new(LogicalExpression { left, operator, right }))
}

fn pass(bindings: &[&str]) -> LogicalAssignmentOperators {
    let options = TransformOptions { target: TransformTarget::ES2015, logical_assignment_operators: false };
    LogicalAssignmentOperators::new(bindings.iter().map(|s| s.to_string()).collect(), &options).unwrap()
}

fn var_names(vars: &[VariableDeclarator]) -> Vec<String> {
    vars.iter().map(|v| v.name.clone()).collect()
}

#[test]
fn identifier_and_assignment() {
    let mut p = pass(&["a", "c"]);
    let mut e = assign_op(AssignmentOperator::LogicalAnd, name_target("a"), id("c"));
    p.transform_expression(&mut e);
    assert_eq!(e, logical(id("a"), LogicalOperator::And, assign(name_target("a"), id("c"))));
    assert!(p.take_vars().is_empty());
}

#[test]
fn identifier_or_assignment() {
    let mut p = pass(&["a"]);
    let mut e = assign_op(AssignmentOperator::LogicalOr, name_target("a"), Expression::NumericLiteral(1));
    p.transform_expression(&mut e);
    assert_eq!(
        e,
        logical(id("a"), LogicalOperator::Or, assign(name_target("a"), Expression::NumericLiteral(1)))
    );
    assert!(p.take_vars().is_empty());
}

#[test]
fn identifier_nullish_assignment() {
    let mut p = pass(&["a"]);
    let mut e = assign_op(AssignmentOperator::LogicalNullish, name_target("a"), call("g"));
    p.transform_expression(&mut e);
    assert_eq!(e, logical(id("a"), LogicalOperator::Coalesce, assign(name_target("a"), call("g"))));
    assert!(p.take_vars().is_empty());
}

#[test]
fn static_member_plain_object() {
    let mut p = pass(&["a", "c"]);
    let mut e = assign_op(AssignmentOperator::LogicalAnd, member_target(stat(id("a"), "b")), id("c"));
    p.transform_expression(&mut e);
    let expected = logical(
        member(stat(id("a"), "b")),
        LogicalOperator::And,
        assign(member_target(stat(id("a"), "b")), id("c")),
    );
    assert_eq!(e, expected);
    assert!(p.take_vars().is_empty());
}

#[test]
fn static_member_call_object() {
    let mut p = pass(&["f", "c"]);
    let mut e = assign_op(AssignmentOperator::LogicalAnd, member_target(stat(call("f"), "b")), id("c"));
    p.transform_expression(&mut e);
    let expected = logical(
        member(stat(assign(name_target("_f"), call("f")), "b")),
        LogicalOperator::And,
        assign(member_target(stat(id("_f"), "b")), id("c")),
    );
    assert_eq!(e, expected);
    assert_eq!(var_names(&p.take_vars()), vec!["_f".to_string()]);
}

#[test]
fn computed_member_plain_object_plain_key() {
    let mut p = pass(&["a", "k"]);
    let mut e = assign_op(AssignmentOperator::LogicalOr, member_target(comp(id("a"), id("k"))), id("c"));
    p.transform_expression(&mut e);
    let expected = logical(
        member(comp(id("a"), id("k"))),
        LogicalOperator::Or,
        assign(member_target(comp(id("a"), id("k"))), id("c")),
    );
    assert_eq!(e, expected);
    assert!(p.take_vars().is_empty());
}

#[test]
fn computed_member_call_object_plain_key() {
    let mut p = pass(&["f", "k"]);
    let mut e = assign_op(AssignmentOperator::LogicalAnd, member_target(comp(call("f"), id("k"))), id("c"));
    p.transform_expression(&mut e);
    let expected = logical(
        member(comp(assign(name_target("_f"), call("f")), id("k"))),
        LogicalOperator::And,
        assign(member_target(comp(id("_f"), id("k"))), id("c")),
    );
    assert_eq!(e, expected);
    assert_eq!(var_names(&p.take_vars()), vec!["_f".to_string()]);
}

#[test]
fn computed_member_plain_object_call_key() {
    let mut p = pass(&["a", "g"]);
    let mut e = assign_op(AssignmentOperator::LogicalNullish, member_target(comp(id("a"), call("g"))), id("c"));
    p.transform_expression(&mut e);
    let expected = logical(
        member(comp(id("a"), assign(name_target("_g"), call("g")))),
        LogicalOperator::Coalesce,
        assign(member_target(comp(id("a"), id("_g"))), id("c")),
    );
    assert_eq!(e, expected);
    assert_eq!(var_names(&p.take_vars()), vec!["_g".to_string()]);
}

#[test]
fn computed_member_call_object_call_key() {
    let mut p = pass(&["f", "g"]);
    let mut e = assign_op(AssignmentOperator::LogicalAnd, member_target(comp(call("f"), call("g"))), id("c"));
    p.transform_expression(&mut e);
    let expected = logical(
        member(comp(assign(name_target("_f"), call("f")), assign(name_target("_g"), call("g")))),
        LogicalOperator::And,
        assign(member_target(comp(id("_f"), id("_g"))), id("c")),
    );
    assert_eq!(e, expected);
    assert_eq!(var_names(&p.take_vars()), vec!["_f".to_string(), "_g".to_string()]);
}

#[test]
fn same_callee_twice_gets_two_names() {
    let mut p = pass(&["f"]);
    let mut e = assign_op(AssignmentOperator::LogicalAnd, member_target(comp(call("f"), call("f"))), id("c"));
    p.transform_expression(&mut e);
    let expected = logical(
        member(comp(assign(name_target("_f"), call("f")), assign(name_target("__f"), call("f")))),
        LogicalOperator::And,
        assign(member_target(comp(id("_f"), id("__f"))), id("c")),
    );
    assert_eq!(e, expected);
    assert_eq!(var_names(&p.take_vars()), vec!["_f".to_string(), "__f".to_string()]);
}

#[test]
fn nested_member_object_hint() {
    let mut p = pass(&["a"]);
    let object = member(stat(id("a"), "b"));
    let mut e = assign_op(AssignmentOperator::LogicalOr, member_target(stat(object, "c")), id("d"));
    p.transform_expression(&mut e);
    let expected = logical(
        member(stat(assign(name_target("_a$b"), member(stat(id("a"), "b"))), "c")),
        LogicalOperator::Or,
        assign(member_target(stat(id("_a$b"), "c")), id("d")),
    );
    assert_eq!(e, expected);
}

#[test]
fn private_field_target_unchanged() {
    let mut p = pass(&["a"]);
    let target = member_target(MemberExpression::PrivateField { object: id("a"), field: "x".to_string() });
    let mut e = assign_op(AssignmentOperator::LogicalAnd, target, id("c"));
    p.transform_expression(&mut e);
    let target = member_target(MemberExpression::PrivateField { object: id("a"), field: "x".to_string() });
    assert_eq!(e, assign_op(AssignmentOperator::LogicalAnd, target, id("c")));
    assert!(p.take_vars().is_empty());
}

#[test]
fn private_field_with_call_object_unchanged() {
    let mut p = pass(&[]);
    let target = member_target(MemberExpression::PrivateField { object: call("f"), field: "x".to_string() });
    let mut e = assign_op(AssignmentOperator::LogicalOr, target, id("c"));
    p.transform_expression(&mut e);
    let target = member_target(MemberExpression::PrivateField { object: call("f"), field: "x".to_string() });
    assert_eq!(e, assign_op(AssignmentOperator::LogicalOr, target, id("c")));
    assert!(p.take_vars().is_empty());
}

#[test]
fn pattern_target_unchanged() {
    let mut p = pass(&["a", "b"]);
    let pattern = || AssignmentTarget::Pattern(vec![name_target("a"), name_target("b")]);
    let mut e = assign_op(AssignmentOperator::LogicalNullish, pattern(), id("c"));
    p.transform_expression(&mut e);
    assert_eq!(e, assign_op(AssignmentOperator::LogicalNullish, pattern(), id("c")));
    assert!(p.take_vars().is_empty());
}

#[test]
fn annotated_target_unchanged() {
    let mut p = pass(&["a"]);
    let target = || AssignmentTarget::Simple(SimpleAssignmentTarget::Other(Box::new(id("a"))));
    let mut e = assign_op(AssignmentOperator::LogicalAnd, target(), id("c"));
    p.transform_expression(&mut e);
    assert_eq!(e, assign_op(AssignmentOperator::LogicalAnd, target(), id("c")));
}

#[test]
fn other_operators_unchanged() {
    let mut p = pass(&["a"]);
    for op in [AssignmentOperator::Assign, AssignmentOperator::Addition, AssignmentOperator::BitwiseAnd] {
        let mut e = assign_op(op, member_target(stat(call("f"), "b")), id("c"));
        p.transform_expression(&mut e);
        assert_eq!(e, assign_op(op, member_target(stat(call("f"), "b")), id("c")));
    }
    let mut e = logical(id("a"), LogicalOperator::And, id("b"));
    p.transform_expression(&mut e);
    assert_eq!(e, logical(id("a"), LogicalOperator::And, id("b")));
    assert!(p.take_vars().is_empty());
}

#[test]
fn rewriting_twice_changes_nothing() {
    let mut p = pass(&["f", "g"]);
    let mut e = assign_op(AssignmentOperator::LogicalAnd, member_target(comp(call("f"), call("g"))), id("c"));
    p.transform_expression(&mut e);
    let once = logical(
        member(comp(assign(name_target("_f"), call("f")), assign(name_target("_g"), call("g")))),
        LogicalOperator::And,
        assign(member_target(comp(id("_f"), id("_g"))), id("c")),
    );
    assert_eq!(e, once);
    p.transform_expression(&mut e);
    assert_eq!(e, once);
    if let Expression::Logical(l) = &mut e {
        p.transform_expression(&mut l.left);
        p.transform_expression(&mut l.right);
    }
    assert_eq!(e, once);
    assert_eq!(p.take_vars().len(), 2);
}

#[test]
fn temp_names_avoid_bound_names() {
    let mut p = pass(&["f", "_f", "__f", "g", "_g"]);
    let mut e = assign_op(AssignmentOperator::LogicalAnd, member_target(comp(call("f"), call("g"))), id("c"));
    p.transform_expression(&mut e);
    assert_eq!(var_names(&p.take_vars()), vec!["___f".to_string(), "__g".to_string()]);
}

#[test]
fn temp_names_fresh_over_generated_scopes() {
    let mut seed: u64 = 0x2545_f491_4f6c_dd1d;
    let stems = ["f", "g", "ref", "a$b"];
    for _ in 0..50 {
        let mut bound: Vec<String> = Vec::new();
        for stem in stems {
            seed = seed.wrapping_mul(6364136223846793005).wrapping_add(1442695040888963407);
            let depth = (seed >> 33) % 5;
            for d in 0..depth {
                if (seed >> (40 + d)) & 1 == 1 {
                    bound.push(format!("{}{}", "_".repeat(d as usize + 1), stem));
                }
            }
        }
        let names: Vec<&str> = bound.iter().map(|s| s.as_str()).collect();
        let mut p = pass(&names);
        let mut exprs = vec![
            assign_op(AssignmentOperator::LogicalAnd, member_target(comp(call("f"), call("g"))), id("c")),
            assign_op(AssignmentOperator::LogicalOr, member_target(stat(call("f"), "x")), id("c")),
            assign_op(AssignmentOperator::LogicalNullish, member_target(comp(Expression::This, Expression::NumericLiteral(0))), id("c")),
            assign_op(AssignmentOperator::LogicalAnd, member_target(stat(member(stat(id("a"), "b")), "y")), id("c")),
        ];
        for e in exprs.iter_mut() {
            p.transform_expression(e);
        }
        let made = var_names(&p.take_vars());
        assert_eq!(made.len(), 6);
        for (i, name) in made.iter().enumerate() {
            assert!(!bound.contains(name));
            assert!(!made[..i].contains(name));
        }
    }
}

#[test]
fn take_vars_drains() {
    let mut p = pass(&[]);
    let mut e = assign_op(AssignmentOperator::LogicalAnd, member_target(stat(call("f"), "b")), id("c"));
    p.transform_expression(&mut e);
    assert_eq!(p.take_vars(), vec![VariableDeclarator { name: "_f".to_string() }]);
    assert!(p.take_vars().is_empty());
    let mut e = assign_op(AssignmentOperator::LogicalAnd, member_target(stat(call("f"), "b")), id("c"));
    p.transform_expression(&mut e);
    assert_eq!(var_names(&p.take_vars()), vec!["__f".to_string()]);
}

#[test]
fn memoised_only_when_not_a_binding() {
    let mut p = pass(&["a"]);
    assert_eq!(p.maybe_generate_memoised(&id("a")), None);
    assert_eq!(p.maybe_generate_memoised(&Expression::This), Some("_this".to_string()));
    assert_eq!(p.maybe_generate_memoised(&Expression::StringLiteral("s".to_string())), Some("_ref".to_string()));
    assert_eq!(p.maybe_generate_memoised(&Expression::NumericLiteral(3)), Some("__ref".to_string()));
    assert_eq!(p.take_vars().len(), 3);
}

#[test]
fn generate_uid_prefixes_until_free() {
    let mut p = pass(&["_x", "__x"]);
    assert_eq!(p.generate_uid("x"), "___x".to_string());
    assert_eq!(p.generate_uid("x"), "____x".to_string());
    assert_eq!(p.generate_uid("y"), "_y".to_string());
    assert!(p.is_bound_name(&"_y".to_string()));
    assert!(!p.is_bound_name(&"y".to_string()));
}

#[test]
fn enabled_below_es2021() {
    let options = TransformOptions { target: TransformTarget::ES2020, logical_assignment_operators: false };
    assert!(LogicalAssignmentOperators::new(Vec::new(), &options).is_some());
    let options = TransformOptions { target: TransformTarget::ES5, logical_assignment_operators: false };
    assert!(LogicalAssignmentOperators::new(Vec::new(), &options).is_some());
}

#[test]
fn disabled_from_es2021() {
    for target in [TransformTarget::ES2021, TransformTarget::ES2022, TransformTarget::ESNext] {
        let options = TransformOptions { target, logical_assignment_operators: false };
        assert!(LogicalAssignmentOperators::new(Vec::new(), &options).is_none());
    }
}

#[test]
fn forced_on_new_targets() {
    let options = TransformOptions { target: TransformTarget::ESNext, logical_assignment_operators: true };
    let mut p = LogicalAssignmentOperators::new(vec!["a".to_string()], &options).unwrap();
    let mut e = assign_op(AssignmentOperator::LogicalAnd, name_target("a"), id("c"));
    p.transform_expression(&mut e);
    assert_eq!(e, logical(id("a"), LogicalOperator::And, assign(name_target("a"), id("c"))));
}

#[test]
fn target_order() {
    assert_eq!(TransformTarget::ES5.rank(), 0);
    assert_eq!(TransformTarget::ES2021.rank(), 7);
    assert!(TransformTarget::ES2020.is_before(&TransformTarget::ES2021));
    assert!(!TransformTarget::ES2021.is_before(&TransformTarget::ES2021));
}

#[test]
fn logical_operator_mapping() {
    assert_eq!(logical_operator(AssignmentOperator::LogicalAnd), Some(LogicalOperator::And));
    assert_eq!(logical_operator(AssignmentOperator::LogicalOr), Some(LogicalOperator::Or));
    assert_eq!(logical_operator(AssignmentOperator::LogicalNullish), Some(LogicalOperator::Coalesce));
    assert_eq!(logical_operator(AssignmentOperator::Subtraction), None);
}

#[test]
fn plain_assignment_builds_assign() {
    let e = logical_assignment::ast::plain_assignment(name_target("a"), id("b"));
    assert_eq!(e, assign_op(AssignmentOperator::Assign, name_target("a"), id("b")));
}

#[test]
fn opaque_object_is_memoised() {
    let mut p = pass(&["_ref"]);
    let mut e = assign_op(
        AssignmentOperator::LogicalNullish,
        member_target(comp(Expression::Opaque(4), Expression::Opaque(5))),
        Expression::Opaque(6),
    );
    p.transform_expression(&mut e);
    let expected = logical(
        member(comp(
            assign(name_target("__ref"), Expression::Opaque(4)),
            assign(name_target("___ref"), Expression::Opaque(5)),
        )),
        LogicalOperator::Coalesce,
        assign(member_target(comp(id("__ref"), id("___ref"))), Expression::Opaque(6)),
    );
    assert_eq!(e, expected);
    assert_eq!(var_names(&p.take_vars()), vec!["__ref".to_string(), "___ref".to_string()]);
}
