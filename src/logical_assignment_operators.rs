//! The pass that rewrites `a &&= b`, `a ||= b` and `a ??= b`.
use vstd::prelude::*;
use vstd::string::*;
use crate::ast::{
    assignment, is_trivial, plain_assignment,
    AssignmentExpression, AssignmentOperator, AssignmentTarget, Expression, LogicalExpression,
    LogicalOperator, MemberExpression, SimpleAssignmentTarget,
};
use crate::options::{target_rank, TransformOptions, TransformTarget};

verus! {

broadcast use vstd::string::group_string_axioms;

/// A scratch variable declared by the pass: `var name;`, with no initializer.
#[derive(Debug, PartialEq, Eq)]
pub struct VariableDeclarator {
    pub name: String,
}

/// `true` when some name of `bindings` reads `name`.
pub open spec fn is_bound(bindings: Seq<String>, name: Seq<char>) -> bool {
    exists|i: int| 0 <= i < bindings.len() && #[trigger] bindings[i]@ == name
}

/// `hint` behind `k` underscores.
pub open spec fn underscored(k: nat, hint: Seq<char>) -> Seq<char> {
    Seq::new(k, |_i: int| '_') + hint
}

/// The names of a list of declarations, in order.
pub open spec fn declared_names(vars: Seq<VariableDeclarator>) -> Seq<String> {
    vars.map_values(|d: VariableDeclarator| d.name)
}

/// The plain logical operator behind a logical compound assignment operator.
pub open spec fn logical_operator_of(op: AssignmentOperator) -> Option<LogicalOperator> {
    match op {
        AssignmentOperator::LogicalAnd => Some(LogicalOperator::And),
        AssignmentOperator::LogicalOr => Some(LogicalOperator::Or),
        AssignmentOperator::LogicalNullish => Some(LogicalOperator::Coalesce),
        _ => None,
    }
}

/// Targets the pass handles: a binding, `obj.prop` and `obj[key]`.
pub open spec fn is_rewritable_target(t: AssignmentTarget) -> bool {
    match t {
        AssignmentTarget::Simple(SimpleAssignmentTarget::Identifier(_)) => true,
        AssignmentTarget::Simple(SimpleAssignmentTarget::Member(m)) => !(*m is PrivateField),
        _ => false,
    }
}

/// `e` is a logical compound assignment to a target the pass handles.
pub open spec fn is_rewritable(e: Expression) -> bool {
    match e {
        Expression::Assignment(a) => logical_operator_of(a.operator) is Some
            && is_rewritable_target(a.left),
        _ => false,
    }
}

/// Scratch variables needed to refer to `e` twice: none for a binding, one otherwise.
pub open spec fn memo_count(e: Expression) -> nat {
    if is_trivial(e) {
        0
    } else {
        1
    }
}

/// Scratch variables needed to refer to the target `m` twice.
pub open spec fn member_temps(m: MemberExpression) -> nat {
    match m {
        MemberExpression::Static { object, .. } => memo_count(object),
        MemberExpression::Computed { object, expression } => memo_count(object) + memo_count(
            expression,
        ),
        MemberExpression::PrivateField { .. } => 0,
    }
}

/// Scratch variables that rewriting `e` declares.
pub open spec fn temps_needed(e: Expression) -> nat {
    match e {
        Expression::Assignment(a) => match a.left {
            AssignmentTarget::Simple(SimpleAssignmentTarget::Member(m)) => member_temps(*m),
            _ => 0,
        },
        _ => 0,
    }
}

/// First reference to `e`: `e` itself if it is a binding, else `temp = e`.
pub open spec fn memo_first(e: Expression, temp: String) -> Expression {
    if is_trivial(e) {
        e
    } else {
        assignment(AssignmentTarget::Simple(SimpleAssignmentTarget::Identifier(temp)), e)
    }
}

/// Later references to `e`: `e` itself if it is a binding, else `temp`.
pub open spec fn memo_later(e: Expression, temp: String) -> Expression {
    if is_trivial(e) {
        e
    } else {
        Expression::Identifier(temp)
    }
}

/// The scratch name of a computed key: the first one when the object needs none.
pub open spec fn key_temp(object: Expression, temps: Seq<String>) -> String {
    if is_trivial(object) {
        temps[0]
    } else {
        temps[1]
    }
}

/// The member read in the guard, which evaluates object and key for the only time.
pub open spec fn read_form(m: MemberExpression, temps: Seq<String>) -> Expression {
    match m {
        MemberExpression::Static { object, property } => Expression::Member(
            Box::new(MemberExpression::Static { object: memo_first(object, temps[0]), property }),
        ),
        MemberExpression::Computed { object, expression } => Expression::Member(
            Box::new(
                MemberExpression::Computed {
                    object: memo_first(object, temps[0]),
                    expression: memo_first(expression, key_temp(object, temps)),
                },
            ),
        ),
        MemberExpression::PrivateField { .. } => Expression::Member(Box::new(m)),
    }
}

/// The member written by the nested assignment, through the scratch variables.
pub open spec fn write_form(m: MemberExpression, temps: Seq<String>) -> MemberExpression {
    match m {
        MemberExpression::Static { object, property } => MemberExpression::Static {
            object: memo_later(object, temps[0]),
            property,
        },
        MemberExpression::Computed { object, expression } => MemberExpression::Computed {
            object: memo_later(object, temps[0]),
            expression: memo_later(expression, key_temp(object, temps)),
        },
        MemberExpression::PrivateField { .. } => m,
    }
}

/// The guard `read op (target = right)` that replaces `target op= right`, where
/// `temps` are the scratch names in the order they were made; any other `e` stays.
pub open spec fn rewritten(e: Expression, temps: Seq<String>) -> Expression {
    match e {
        Expression::Assignment(a) => match logical_operator_of(a.operator) {
            Some(op) => match a.left {
                AssignmentTarget::Simple(SimpleAssignmentTarget::Identifier(name)) => Expression::Logical(
                    Box::new(
                        LogicalExpression {
                            left: Expression::Identifier(name),
                            operator: op,
                            right: assignment(
                                AssignmentTarget::Simple(SimpleAssignmentTarget::Identifier(name)),
                                a.right,
                            ),
                        },
                    ),
                ),
                AssignmentTarget::Simple(SimpleAssignmentTarget::Member(m)) => if *m is PrivateField {
                    e
                } else {
                    Expression::Logical(
                        Box::new(
                            LogicalExpression {
                                left: read_form(*m, temps),
                                operator: op,
                                right: assignment(
                                    AssignmentTarget::Simple(
                                        SimpleAssignmentTarget::Member(Box::new(write_form(*m, temps))),
                                    ),
                                    a.right,
                                ),
                            },
                        ),
                    )
                },
                _ => e,
            },
            None => e,
        },
        _ => e,
    }
}

/// Rewrites logical assignments for targets that lack them.
///
/// It holds the names bound in the scope being rewritten, to which it adds each
/// name it makes up, and the scratch declarations made since they were last drained.
pub struct LogicalAssignmentOperators {
    bindings: Vec<String>,
    vars: Vec<VariableDeclarator>,
}

impl LogicalAssignmentOperators {
    /// The names bound in the current scope, those made up by the pass included.
    pub closed spec fn bindings(&self) -> Seq<String> {
        self.bindings@
    }

    /// The scratch declarations not yet drained, oldest first.
    pub closed spec fn vars(&self) -> Seq<VariableDeclarator> {
        self.vars@
    }

    /// Every pending declaration names a bound name, and no two of them share a name.
    pub open spec fn wf(&self) -> bool {
        &&& forall|i: int|
            0 <= i < self.vars().len() ==> is_bound(self.bindings(), #[trigger] self.vars()[i].name@)
        &&& forall|i: int, j: int|
            0 <= i < j < self.vars().len() ==> #[trigger] self.vars()[i].name@
                != #[trigger] self.vars()[j].name@
    }

    /// The pass is wanted when the target predates logical assignments, or when it is forced.
    pub open spec fn enabled(options: TransformOptions) -> bool {
        target_rank(options.target) < target_rank(TransformTarget::ES2021)
            || options.logical_assignment_operators
    }

    /// Makes the pass for a scope whose bound names are `bindings`, if `options` want it.
    pub fn new(bindings: Vec<String>, options: &TransformOptions) -> (r: Option<Self>)
        ensures
            r is Some <==> Self::enabled(*options),
            r matches Some(p) ==> p.wf() && p.bindings() == bindings@ && p.vars() == Seq::<
                VariableDeclarator,
            >::empty(),
    {
        if options.target.is_before(&TransformTarget::ES2021) || options.logical_assignment_operators {
            Some(LogicalAssignmentOperators { bindings, vars: Vec::new() })
        } else {
            None
        }
    }

    /// `true` when `name` is bound in the current scope.
    pub fn is_bound_name(&self, name: &String) -> (r: bool)
        ensures
            r == is_bound(self.bindings(), name@),
    {
        let mut i: usize = 0;
        while i < self.bindings.len()
            invariant
                i <= self.bindings@.len(),
                forall|j: int| 0 <= j < i ==> #[trigger] self.bindings@[j]@ != name@,
            decreases self.bindings@.len() - i,
        {
            if self.bindings[i] == *name {
                return true;
            }
            i = i + 1;
        }
        false
    }

    /// The length of the longest bound name.
    fn longest_binding(&self) -> (r: usize)
        ensures
            forall|i: int| 0 <= i < self.bindings().len() ==> #[trigger] self.bindings()[i]@.len() <= r,
    {
        let mut longest: usize = 0;
        let mut i: usize = 0;
        while i < self.bindings.len()
            invariant
                i <= self.bindings@.len(),
                forall|j: int| 0 <= j < i ==> #[trigger] self.bindings@[j]@.len() <= longest,
            decreases self.bindings@.len() - i,
        {
            let n = self.bindings[i].as_str().unicode_len();
            if n > longest {
                longest = n;
            }
            i = i + 1;
        }
        longest
    }

    /// Makes up a name that is not bound yet and binds it: `hint` behind the fewest
    /// underscores, at least one, that give a free name.
    pub fn generate_uid(&mut self, hint: &str) -> (r: String)
        ensures
            !is_bound(old(self).bindings(), r@),
            exists|k: nat|
                k >= 1 && r@ == underscored(k, hint@) && forall|j: nat|
                    1 <= j < k ==> is_bound(old(self).bindings(), #[trigger] underscored(j, hint@)),
            final(self).bindings() == old(self).bindings().push(r),
            final(self).vars() == old(self).vars(),
    {
        let longest = self.longest_binding();
        let mut candidate = String::from_str("_");
        candidate.append(hint);
        let ghost mut k: nat = 1;
        proof {
            reveal_strlit("_");
            assert(candidate@ =~= underscored(1, hint@));
        }
        while self.is_bound_name(&candidate)
            invariant
                self.bindings() == old(self).bindings(),
                self.vars() == old(self).vars(),
                forall|i: int| 0 <= i < self.bindings().len() ==> #[trigger] self.bindings()[i]@.len() <= longest,
                k >= 1,
                candidate@ == underscored(k, hint@),
                forall|j: nat| 1 <= j < k ==> is_bound(self.bindings(), #[trigger] underscored(j, hint@)),
            decreases longest + 1 - candidate@.len(),
        {
            proof {
                let i = choose|i: int|
                    0 <= i < self.bindings().len() && #[trigger] self.bindings()[i]@ == candidate@;
                assert(self.bindings()[i]@.len() <= longest);
                reveal_strlit("_");
            }
            let mut longer = String::from_str("_");
            longer.append(candidate.as_str());
            candidate = longer;
            proof {
                assert(is_bound(self.bindings(), underscored(k, hint@)));
                k = k + 1;
                assert(candidate@ =~= underscored(k, hint@));
            }
        }
        self.bindings.push(candidate.clone());
        candidate
    }

    /// Binds a made-up name and declares a scratch variable of that name.
    fn create_new_var(&mut self, hint: &str) -> (r: String)
        requires
            old(self).wf(),
        ensures
            final(self).wf(),
            !is_bound(old(self).bindings(), r@),
            final(self).bindings() == old(self).bindings().push(r),
            final(self).vars() == old(self).vars().push(VariableDeclarator { name: r }),
    {
        let name = self.generate_uid(hint);
        self.vars.push(VariableDeclarator { name: name.clone() });
        proof {
            assert forall|i: int| 0 <= i < self.vars().len() implies is_bound(
                self.bindings(),
                #[trigger] self.vars()[i].name@,
            ) by {
                if i < old(self).vars().len() {
                    let k = choose|k: int|
                        0 <= k < old(self).bindings().len() && #[trigger] old(self).bindings()[k]@
                            == old(self).vars()[i].name@;
                    assert(self.bindings()[k] == old(self).bindings()[k]);
                } else {
                    assert(self.bindings()[old(self).bindings().len() as int]@ == name@);
                }
            }
            assert forall|i: int, j: int| 0 <= i < j < self.vars().len() implies #[trigger] self.vars()[i].name@
                != #[trigger] self.vars()[j].name@ by {
                if j == old(self).vars().len() {
                    assert(is_bound(old(self).bindings(), old(self).vars()[i].name@));
                }
            }
        }
        name
    }

    /// Decides how `expr` is referred to twice. A bare binding reference is read again
    /// as it is (`None`). Anything else gets a scratch variable, whose fresh name is
    /// returned: the first reference becomes `name = expr`, the later ones `name`.
    pub fn maybe_generate_memoised(&mut self, expr: &Expression) -> (r: Option<String>)
        requires
            old(self).wf(),
        ensures
            final(self).wf(),
            is_trivial(*expr) ==> r is None && *final(self) == *old(self),
            !is_trivial(*expr) ==> (r matches Some(name) && !is_bound(old(self).bindings(), name@)
                && final(self).bindings() == old(self).bindings().push(name) && final(self).vars()
                == old(self).vars().push(VariableDeclarator { name })),
    {
        if let Expression::Identifier(_) = expr {
            None
        } else {
            let hint = name_hint(expr);
            Some(self.create_new_var(hint.as_str()))
        }
    }

    /// The names of the scratch variables declared between `before` and `after`.
    pub open spec fn new_temps(before: Self, after: Self) -> Seq<String> {
        declared_names(after.vars().subrange(before.vars().len() as int, after.vars().len() as int))
    }

    /// `after` is `before` with `k` more scratch variables, whose names were unbound in
    /// `before`, distinct, and are bound now.
    pub open spec fn appended(before: Self, after: Self, k: nat) -> bool {
        let temps = Self::new_temps(before, after);
        &&& after.vars().len() == before.vars().len() + k
        &&& after.vars().subrange(0, before.vars().len() as int) == before.vars()
        &&& after.bindings() == before.bindings() + temps
        &&& forall|i: int| 0 <= i < k ==> !is_bound(before.bindings(), #[trigger] temps[i]@)
        &&& forall|i: int, j: int| 0 <= i < j < k ==> #[trigger] temps[i]@ != #[trigger] temps[j]@
    }

    /// Refers to `e` twice: returns the first reference and a later one.
    fn memoise(&mut self, e: Expression) -> (r: (Expression, Expression))
        requires
            old(self).wf(),
        ensures
            final(self).wf(),
            Self::appended(*old(self), *final(self), memo_count(e)),
            r.0 == memo_first(e, Self::new_temps(*old(self), *final(self))[0]),
            r.1 == memo_later(e, Self::new_temps(*old(self), *final(self))[0]),
    {
        let temp = self.maybe_generate_memoised(&e);
        let ghost temps = Self::new_temps(*old(self), *self);
        match temp {
            None => {
                assert(self.vars().subrange(0, self.vars().len() as int) == self.vars());
                assert(temps =~= Seq::<String>::empty());
                assert(self.bindings() =~= old(self).bindings() + temps);
                let copy = copy_identifier(&e);
                (e, copy)
            },
            Some(name) => {
                assert(old(self).vars() =~= self.vars().subrange(0, old(self).vars().len() as int));
                assert(temps =~= seq![name]);
                assert(self.bindings() =~= old(self).bindings() + temps);
                let later = Expression::Identifier(name.clone());
                (
                    plain_assignment(
                        AssignmentTarget::Simple(SimpleAssignmentTarget::Identifier(name)),
                        e,
                    ),
                    later,
                )
            },
        }
    }

    /// Two runs of appending compose into one.
    proof fn lemma_appended_compose(s0: Self, s1: Self, s2: Self, k1: nat, k2: nat)
        requires
            Self::appended(s0, s1, k1),
            Self::appended(s1, s2, k2),
            s2.wf(),
        ensures
            Self::appended(s0, s2, k1 + k2),
            Self::new_temps(s0, s2) == Self::new_temps(s0, s1) + Self::new_temps(s1, s2),
    {
        let n0 = s0.vars().len() as int;
        let n1 = s1.vars().len() as int;
        let n2 = s2.vars().len() as int;
        assert(s2.vars().subrange(0, n1) == s1.vars());
        assert(s2.vars().subrange(0, n0) =~= s1.vars().subrange(0, n0));
        assert(Self::new_temps(s0, s1) =~= declared_names(s2.vars().subrange(n0, n1)));
        assert(Self::new_temps(s0, s2) =~= Self::new_temps(s0, s1) + Self::new_temps(s1, s2));
        let t = Self::new_temps(s0, s2);
        assert(s2.bindings() =~= s0.bindings() + t);
        assert forall|i: int| 0 <= i < k1 + k2 implies !is_bound(s0.bindings(), #[trigger] t[i]@) by {
            if i >= k1 {
                assert(t[i] == Self::new_temps(s1, s2)[i - k1]);
                if is_bound(s0.bindings(), t[i]@) {
                    let j = choose|j: int|
                        0 <= j < s0.bindings().len() && #[trigger] s0.bindings()[j]@ == t[i]@;
                    assert(s1.bindings()[j] == s0.bindings()[j]);
                }
            }
        }
        assert forall|i: int, j: int| 0 <= i < j < k1 + k2 implies #[trigger] t[i]@ != #[trigger] t[j]@ by {
            assert(t[i] == s2.vars()[n0 + i].name);
            assert(t[j] == s2.vars()[n0 + j].name);
        }
    }

    /// Rewrites the member target `m`: returns the guard's read and the nested write.
    fn rewrite_member(&mut self, m: MemberExpression) -> (r: (Expression, MemberExpression))
        requires
            old(self).wf(),
            !(m is PrivateField),
        ensures
            final(self).wf(),
            Self::appended(*old(self), *final(self), member_temps(m)),
            r.0 == read_form(m, Self::new_temps(*old(self), *final(self))),
            r.1 == write_form(m, Self::new_temps(*old(self), *final(self))),
    {
        let ghost s0 = *self;
        match m {
            MemberExpression::Static { object, property } => {
                let (first, later) = self.memoise(object);
                let copy = property.clone();
                (
                    Expression::Member(
                        Box::new(MemberExpression::Static { object: first, property }),
                    ),
                    MemberExpression::Static { object: later, property: copy },
                )
            },
            MemberExpression::Computed { object, expression } => {
                let ghost object_view = object;
                let (object_first, object_later) = self.memoise(object);
                let ghost s1 = *self;
                let (key_first, key_later) = self.memoise(expression);
                proof {
                    Self::lemma_appended_compose(
                        s0,
                        s1,
                        *self,
                        memo_count(object_view),
                        memo_count(expression),
                    );
                    let t = Self::new_temps(s0, *self);
                    if !is_trivial(object_view) {
                        assert(t[0] == Self::new_temps(s0, s1)[0]);
                        if !is_trivial(expression) {
                            assert(t[1] == Self::new_temps(s1, *self)[0]);
                        }
                    } else if !is_trivial(expression) {
                        assert(t[0] == Self::new_temps(s1, *self)[0]);
                    }
                }
                (
                    Expression::Member(
                        Box::new(
                            MemberExpression::Computed { object: object_first, expression: key_first },
                        ),
                    ),
                    MemberExpression::Computed { object: object_later, expression: key_later },
                )
            },
            MemberExpression::PrivateField { .. } => {
                proof {
                    assert(false);
                }
                (Expression::Empty, m)
            },
        }
    }

    /// Replaces the logical compound assignment `e` by its guard.
    fn rewrite_assignment(&mut self, e: Expression, operator: LogicalOperator) -> (r: Expression)
        requires
            old(self).wf(),
            is_rewritable(e),
            e matches Expression::Assignment(a) && logical_operator_of(a.operator) == Some(operator),
        ensures
            final(self).wf(),
            Self::appended(*old(self), *final(self), temps_needed(e)),
            r == rewritten(e, Self::new_temps(*old(self), *final(self))),
    {
        match e {
            Expression::Assignment(boxed) => {
                let AssignmentExpression { operator: _, left, right } = *boxed;
                let (read, target) = match left {
                    AssignmentTarget::Simple(SimpleAssignmentTarget::Identifier(name)) => {
                        proof {
                            assert(self.vars().subrange(0, self.vars().len() as int) == self.vars());
                            assert(Self::new_temps(*self, *self) =~= Seq::<String>::empty());
                            assert(self.bindings() =~= self.bindings() + Self::new_temps(*self, *self));
                        }
                        (Expression::Identifier(name.clone()), SimpleAssignmentTarget::Identifier(name))
                    },
                    AssignmentTarget::Simple(SimpleAssignmentTarget::Member(member)) => {
                        let (read, write) = self.rewrite_member(*member);
                        (read, SimpleAssignmentTarget::Member(Box::new(write)))
                    },
                    _ => {
                        proof {
                            assert(false);
                        }
                        (Expression::Empty, SimpleAssignmentTarget::Identifier(String::new()))
                    },
                };
                Expression::Logical(
                    Box::new(
                        LogicalExpression {
                            left: read,
                            operator,
                            right: plain_assignment(AssignmentTarget::Simple(target), right),
                        },
                    ),
                )
            },
            _ => {
                proof {
                    assert(false);
                }
                e
            },
        }
    }

    /// Rewrites `expr` in place when it is `target &&= value`, `target ||= value` or
    /// `target ??= value` with a binding, `obj.prop` or `obj[key]` target; leaves
    /// every other expression as it is. Object and key are evaluated once: each
    /// one that is not a bare binding gets a scratch variable of a fresh name,
    /// declared in the order the rewrite meets them.
    pub fn transform_expression(&mut self, expr: &mut Expression)
        requires
            old(self).wf(),
        ensures
            final(self).wf(),
            !is_rewritable(*old(expr)) ==> *final(expr) == *old(expr) && *final(self) == *old(self),
            is_rewritable(*old(expr)) ==> Self::appended(
                *old(self),
                *final(self),
                temps_needed(*old(expr)),
            ) && *final(expr) == rewritten(*old(expr), Self::new_temps(*old(self), *final(self))),
    {
        let operator = match rewritable_operator(&*expr) {
            Some(op) => op,
            None => return ,
        };
        let mut taken = Expression::Empty;
        std::mem::swap(expr, &mut taken);
        let replacement = self.rewrite_assignment(taken, operator);
        *expr = replacement;
    }
}

/// A pass that declares scratch variables, which the owner of the scope drains
/// into its declaration list once the pass is done with that scope.
pub trait CreateVars: Sized {
    /// The declarations made and not yet drained, oldest first.
    spec fn pending_vars(&self) -> Seq<VariableDeclarator>;

    /// What the pass keeps true between calls.
    spec fn inv(&self) -> bool;

    /// Hands over the pending declarations, oldest first, and forgets them.
    fn take_vars(&mut self) -> (r: Vec<VariableDeclarator>)
        requires
            old(self).inv(),
        ensures
            final(self).inv(),
            r@ == old(self).pending_vars(),
            final(self).pending_vars() == Seq::<VariableDeclarator>::empty();
}

impl CreateVars for LogicalAssignmentOperators {
    open spec fn pending_vars(&self) -> Seq<VariableDeclarator> {
        self.vars()
    }

    open spec fn inv(&self) -> bool {
        self.wf()
    }

    /// The names of the drained declarations stay bound.
    fn take_vars(&mut self) -> (r: Vec<VariableDeclarator>)
        ensures
            final(self).bindings() == old(self).bindings(),
    {
        let mut drained = Vec::new();
        std::mem::swap(&mut drained, &mut self.vars);
        drained
    }
}

/// The plain logical operator behind `op`, if `op` is a logical compound assignment.
pub fn logical_operator(op: AssignmentOperator) -> (r: Option<LogicalOperator>)
    ensures
        r == logical_operator_of(op),
{
    match op {
        AssignmentOperator::LogicalAnd => Some(LogicalOperator::And),
        AssignmentOperator::LogicalOr => Some(LogicalOperator::Or),
        AssignmentOperator::LogicalNullish => Some(LogicalOperator::Coalesce),
        _ => None,
    }
}

/// The guard's operator when `expr` is one the pass rewrites.
fn rewritable_operator(expr: &Expression) -> (r: Option<LogicalOperator>)
    ensures
        r is Some <==> is_rewritable(*expr),
        r matches Some(op) ==> (*expr matches Expression::Assignment(a) && logical_operator_of(
            a.operator,
        ) == Some(op)),
{
    match expr {
        Expression::Assignment(a) => {
            let op = logical_operator(a.operator);
            match &a.left {
                AssignmentTarget::Simple(SimpleAssignmentTarget::Identifier(_)) => op,
                AssignmentTarget::Simple(SimpleAssignmentTarget::Member(m)) => match &**m {
                    MemberExpression::PrivateField { .. } => None,
                    _ => op,
                },
                _ => None,
            }
        },
        _ => None,
    }
}

/// A copy of the binding reference `e`.
fn copy_identifier(e: &Expression) -> (r: Expression)
    requires
        is_trivial(*e),
    ensures
        r == *e,
{
    match e {
        Expression::Identifier(name) => Expression::Identifier(name.clone()),
        _ => {
            proof {
                assert(false);
            }
            Expression::Empty
        },
    }
}

/// A readable stem for the scratch variable that holds `e`: `f` for `f()`, `a$b` for `a.b`.
fn name_hint(e: &Expression) -> String
    decreases e,
{
    match e {
        Expression::Identifier(name) => name.clone(),
        Expression::This => String::from_str("this"),
        Expression::Call { callee, .. } => name_hint(callee),
        Expression::Member(member) => match &**member {
            MemberExpression::Static { object, property } => {
                let mut hint = name_hint(object);
                hint.append("$");
                hint.append(property.as_str());
                hint
            },
            MemberExpression::Computed { object, .. } => name_hint(object),
            MemberExpression::PrivateField { object, field } => {
                let mut hint = name_hint(object);
                hint.append("$");
                hint.append(field.as_str());
                hint
            },
        },
        _ => String::from_str("ref"),
    }
}

} // verus!
