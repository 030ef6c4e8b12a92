//! The meaning of the language, as mathematics.
//!
//! Evaluation is a function from a state and a piece of syntax to a state and
//! a value. The state is the scope graph with its stack of active scopes, and
//! the errors recorded so far. The description has two parameters: the
//! floating-point arithmetic, a function from an operator and the bits of two
//! operands to the bits of the result, and the strictness of the evaluator.
//! Calls nest at most `depth` deep; a call beyond that evaluates to the empty
//! value and is recorded as an error, whatever the strictness.

use vstd::prelude::*;
use crate::arithmetic::{integer_result, is_arithmetic};
use crate::ast::{ExpressionView, Operator, ParameterView, Range, StatementView, TypeNameView};
use crate::const_value::{KindView, TypeView, ValueView};
use crate::error::{ErrorKindView, ErrorView};
use crate::linked::put;
use crate::scope::{ScopeValueView, Scopes};
use crate::strictness::Strictness;

verus! {

/// The state that evaluation reads and changes.
pub struct StateView {
    pub scope: Scopes,
    pub errors: Seq<ErrorView>,
}

/// What an evaluation is made with.
pub struct Rules {
    /// Floating-point arithmetic on the bits of two operands.
    pub floats: spec_fn(Operator, u64, u64) -> u64,
    pub strictness: Strictness,
}

/// The state after an error was recorded.
pub open spec fn record_error(s: StateView, kind: ErrorKindView, range: Range) -> StateView {
    StateView { scope: s.scope, errors: s.errors.push(ErrorView { kind, range }) }
}

/// Giving up: the value is empty, and the failure is recorded, with its
/// range, where the strictness asks for that.
pub open spec fn fail(rules: Rules, s: StateView, kind: ErrorKindView, range: Range) -> (
    StateView,
    ValueView,
) {
    (
        if rules.strictness.report_failures {
            record_error(s, kind, range)
        } else {
            s
        },
        ValueView::empty(),
    )
}

/// The type of the result where two numeric operands meet: a sized operand
/// decides it, and two literals of one family stay a literal.
pub open spec fn coerced(left: TypeView, right: TypeView) -> Option<TypeView> {
    match (left, right) {
        (TypeView::CoercibleInteger, TypeView::CoercibleInteger) => Some(TypeView::CoercibleInteger),
        (TypeView::Integer { width, signed }, TypeView::CoercibleInteger) => Some(
            TypeView::Integer { width, signed },
        ),
        (TypeView::CoercibleInteger, TypeView::Integer { width, signed }) => Some(
            TypeView::Integer { width, signed },
        ),
        (TypeView::CoercibleFloat, TypeView::CoercibleFloat) => Some(TypeView::CoercibleFloat),
        (TypeView::Float { width }, TypeView::CoercibleFloat) => Some(TypeView::Float { width }),
        (TypeView::CoercibleFloat, TypeView::Float { width }) => Some(TypeView::Float { width }),
        _ => None,
    }
}

/// Whether a type is one of the two integer types.
pub open spec fn is_integer_type(ty: TypeView) -> bool {
    ty is CoercibleInteger || ty is Integer
}

/// The value of `left op right` for two values. Operands whose types do not
/// combine, a payload that does not fit its type, an operator that is no
/// arithmetic and a division by zero all give the empty value.
pub open spec fn arithmetic(
    fl: spec_fn(Operator, u64, u64) -> u64,
    op: Operator,
    left: ValueView,
    right: ValueView,
) -> ValueView {
    match coerced(left.ty, right.ty) {
        Some(ty) => match (left.kind, right.kind) {
            (KindView::Integer { value: a }, KindView::Integer { value: b }) => {
                if is_integer_type(ty) {
                    match integer_result(op, a, b) {
                        Some(value) => ValueView { ty, kind: KindView::Integer { value } },
                        None => ValueView::empty(),
                    }
                } else {
                    ValueView::empty()
                }
            },
            (KindView::Float { bits: a }, KindView::Float { bits: b }) => {
                if !is_integer_type(ty) && is_arithmetic(op) {
                    ValueView { ty, kind: KindView::Float { bits: fl(op, a, b) } }
                } else {
                    ValueView::empty()
                }
            },
            _ => ValueView::empty(),
        },
        None => ValueView::empty(),
    }
}

/// Why `left op right` has no value: an integer is divided by zero, or the
/// operator does not combine the operands.
pub open spec fn arithmetic_failure(op: Operator, left: ValueView, right: ValueView) -> ErrorKindView {
    match (coerced(left.ty, right.ty), left.kind, right.kind) {
        (Some(ty), KindView::Integer { .. }, KindView::Integer { value: divisor }) => {
            if is_integer_type(ty) && op == Operator::Divide && divisor == 0 {
                ErrorKindView::DivisionByZero
            } else {
                ErrorKindView::UnsupportedOperation
            }
        },
        _ => ErrorKindView::UnsupportedOperation,
    }
}

/// The type that a written type stands for.
pub open spec fn eval_type(scope: Scopes, ty: TypeNameView) -> TypeView {
    match ty {
        TypeNameView::Integer { width, signed } => TypeView::Integer { width, signed },
        TypeNameView::Float { width } => TypeView::Float { width },
        TypeNameView::Ident(name) => match scope.resolve(name) {
            Some(rf) => TypeView::Symbol(rf),
            None => TypeView::Empty,
        },
    }
}

/// The named types that the first `n` entries of a parameter list declare.
/// An entry without a name or without a type declares nothing; of two entries
/// of one name the later one counts, at the later one's place.
pub open spec fn eval_params(scope: Scopes, params: Seq<ParameterView>, n: nat) -> Seq<
    (Seq<char>, TypeView),
>
    decreases n,
{
    if n == 0 || n > params.len() {
        Seq::empty()
    } else {
        let before = eval_params(scope, params, (n - 1) as nat);
        match (params[n - 1].name, params[n - 1].ty) {
            (Some(name), Some(ty)) => put(before, name, eval_type(scope, ty)),
            _ => before,
        }
    }
}

/// The state after the first `n` arguments were bound to the parameters at
/// their positions, and whether all of them had the parameter's type. The
/// first argument of another type is recorded as an error, with its range,
/// and ends the binding.
pub open spec fn bind_arguments(
    s: StateView,
    argv: Seq<ValueView>,
    params: Seq<(Seq<char>, TypeView)>,
    ranges: Seq<Range>,
    n: nat,
) -> (StateView, bool)
    decreases n,
{
    if n == 0 {
        (s, true)
    } else {
        let (before, ok) = bind_arguments(s, argv, params, ranges, (n - 1) as nat);
        let i = n - 1;
        if !ok {
            (before, false)
        } else if argv[i].ty != params[i].1 {
            (
                StateView {
                    scope: before.scope,
                    errors: before.errors.push(
                        ErrorView {
                            kind: ErrorKindView::TypeMismatch(argv[i].ty, params[i].1),
                            range: ranges[i],
                        },
                    ),
                },
                false,
            )
        } else {
            (
                StateView {
                    scope: before.scope.bind(params[i].0, ScopeValueView::ConstValue(argv[i])),
                    errors: before.errors,
                },
                true,
            )
        }
    }
}

/// Once an argument has been refused, binding goes no further.
pub proof fn lemma_bind_arguments_stops(
    s: StateView,
    argv: Seq<ValueView>,
    params: Seq<(Seq<char>, TypeView)>,
    ranges: Seq<Range>,
    k: nat,
    n: nat,
)
    requires
        k <= n,
        !bind_arguments(s, argv, params, ranges, k).1,
    ensures
        bind_arguments(s, argv, params, ranges, n) == bind_arguments(s, argv, params, ranges, k),
    decreases n - k,
{
    if k < n {
        lemma_bind_arguments_stops(s, argv, params, ranges, k, (n - 1) as nat);
    }
}

/// The smaller of two lengths.
pub open spec fn shorter(a: nat, b: nat) -> nat {
    if a <= b {
        a
    } else {
        b
    }
}

/// What entering a call leaves to do.
pub enum CallEntry {
    /// The call evaluates to the empty value, in this state.
    Refused { state: StateView },
    /// The body is to be run in this state, and these names returned.
    Entered { state: StateView, body: StatementView, return_parameters: Seq<(Seq<char>, TypeView)> },
}

/// Entering a call of `callee` with the values `argv`, whose expressions have
/// the ranges `ranges`; the call itself has the range `range`.
///
/// A callee that is no function value, or whose scope is not of this graph,
/// is refused with the scopes unchanged. Otherwise the callee's own scope
/// becomes the innermost active scope and the arguments are bound in it, by
/// position. An argument of another type than its parameter is recorded as an
/// error and the call refused; the callee's scope then stays active, unless
/// the strictness asks for its release.
pub open spec fn call_entry(
    rules: Rules,
    s: StateView,
    callee: ValueView,
    argv: Seq<ValueView>,
    ranges: Seq<Range>,
    range: Range,
) -> CallEntry {
    match (callee.ty, callee.kind) {
        (
            TypeView::Function { parameters, return_parameters },
            KindView::Function { body, rf },
        ) => {
            if !s.scope.contains(rf) {
                CallEntry::Refused {
                    state: fail(rules, s, ErrorKindView::UnmatchedCallTarget, range).0,
                }
            } else {
                let entered = StateView { scope: s.scope.push(rf), errors: s.errors };
                let (bound, ok) = bind_arguments(
                    entered,
                    argv,
                    parameters,
                    ranges,
                    shorter(argv.len(), parameters.len()),
                );
                if ok {
                    CallEntry::Entered { state: bound, body, return_parameters }
                } else if rules.strictness.release_refused_calls {
                    CallEntry::Refused {
                        state: StateView { scope: bound.scope.pop(), errors: bound.errors },
                    }
                } else {
                    CallEntry::Refused { state: bound }
                }
            }
        },
        _ => CallEntry::Refused {
            state: fail(rules, s, ErrorKindView::UnmatchedCallTarget, range).0,
        },
    }
}

/// The value returned under a declared name: what the name is bound to, or
/// the default of the declared type where the name does not resolve.
pub open spec fn returned_value(scope: Scopes, name: Seq<char>, ty: TypeView) -> ValueView {
    match scope.resolve(name) {
        Some(rf) => scope.value_at(rf),
        None => ty.default_value(),
    }
}

/// The members that the first `n` declared return names give.
pub open spec fn collect_returns(scope: Scopes, declared: Seq<(Seq<char>, TypeView)>, n: nat) -> Seq<
    (Seq<char>, ValueView),
>
    decreases n,
{
    if n == 0 || n > declared.len() {
        Seq::empty()
    } else {
        put(
            collect_returns(scope, declared, (n - 1) as nat),
            declared[n - 1].0,
            returned_value(scope, declared[n - 1].0, declared[n - 1].1),
        )
    }
}

/// Leaving a call whose body has run: the declared return names are read in
/// the state that the body left, the innermost active scope leaves the
/// stack, and the call evaluates to the record instance of what was read.
pub open spec fn call_exit(after: StateView, declared: Seq<(Seq<char>, TypeView)>) -> (
    StateView,
    ValueView,
) {
    (
        StateView { scope: after.scope.pop(), errors: after.errors },
        ValueView::record_instance(collect_returns(after.scope, declared, declared.len())),
    )
}

/// The ranges of a run of expressions.
pub open spec fn ranges_of(args: Seq<ExpressionView>) -> Seq<Range> {
    Seq::new(args.len(), |i: int| args[i].range())
}

/// Evaluating a statement.
pub open spec fn eval_statement(
    rules: Rules,
    s: StateView,
    statement: StatementView,
    depth: nat,
) -> (StateView, ValueView)
    decreases depth, statement, 0nat,
{
    match statement {
        StatementView::Declaration { ident, expr: Some(ExpressionView::Record { parameters, .. }), .. } => {
            let members = eval_params(s.scope, parameters, parameters.len());
            (
                StateView {
                    scope: s.scope.bind(ident, ScopeValueView::Record { ident, members }),
                    errors: s.errors,
                },
                ValueView::empty(),
            )
        },
        StatementView::Declaration {
            ident,
            expr: Some(
                ExpressionView::Function { parameters, return_parameters, body: Some(body), .. },
            ),
            ..
        } => {
            let ps = eval_params(s.scope, parameters, parameters.len());
            let rs = eval_params(s.scope, return_parameters, return_parameters.len());
            let reserved = s.scope.bind(ident, ScopeValueView::ConstValue(ValueView::empty()));
            match reserved.resolve(ident) {
                Some(rf) => (
                    StateView {
                        scope: reserved.bind(
                            ident,
                            ScopeValueView::ConstValue(ValueView::func(*body, ps, rs, rf)),
                        ),
                        errors: s.errors,
                    },
                    ValueView::empty(),
                ),
                None => (StateView { scope: reserved, errors: s.errors }, ValueView::empty()),
            }
        },
        StatementView::Declaration { ident, expr: Some(e), .. } => {
            let (s1, v) = eval_expression(rules, s, e, depth);
            (
                StateView {
                    scope: s1.scope.bind(ident, ScopeValueView::ConstValue(v)),
                    errors: s1.errors,
                },
                ValueView::empty(),
            )
        },
        StatementView::Declaration { expr: None, .. } => (s, ValueView::empty()),
        StatementView::Expression(e) => eval_expression(rules, s, e, depth),
        StatementView::List(items) => {
            if items.len() == 1 {
                eval_statement(rules, s, items[0], depth)
            } else {
                let (s1, values) = eval_statements(rules, s, items, items.len(), depth);
                (s1, ValueView::tuple(values))
            }
        },
        StatementView::Other => (s, ValueView::empty()),
    }
}

/// Evaluating the first `n` of a run of statements, in order.
pub open spec fn eval_statements(
    rules: Rules,
    s: StateView,
    items: Seq<StatementView>,
    n: nat,
    depth: nat,
) -> (StateView, Seq<ValueView>)
    decreases depth, items, n,
{
    if n == 0 || n > items.len() {
        (s, Seq::empty())
    } else {
        let (s1, values) = eval_statements(rules, s, items, (n - 1) as nat, depth);
        let (s2, v) = eval_statement(rules, s1, items[n - 1], depth);
        (s2, values.push(v))
    }
}

/// Evaluating an expression.
pub open spec fn eval_expression(
    rules: Rules,
    s: StateView,
    expression: ExpressionView,
    depth: nat,
) -> (StateView, ValueView)
    decreases depth, expression, 1nat,
{
    match expression {
        ExpressionView::Integer(bits, _) => (s, ValueView::cinteger(bits)),
        ExpressionView::Float(bits, _) => (s, ValueView::cfloat(bits)),
        ExpressionView::Ident(name, range) => match s.scope.lookup(name) {
            Some(v) => (s, v),
            None => fail(rules, s, ErrorKindView::UnresolvedIdentifier, range),
        },
        ExpressionView::BinaryExpression { left, op, right } => eval_binary(
            rules,
            s,
            *left,
            op,
            *right,
            depth,
        ),
        ExpressionView::FunctionCall { expr, args, range } => {
            let (s1, callee) = eval_expression(rules, s, *expr, depth);
            let (s2, argv) = eval_args(rules, s1, args, args.len(), depth);
            if depth == 0 {
                (record_error(s2, ErrorKindView::CallTooDeep, range), ValueView::empty())
            } else {
                match call_entry(rules, s2, callee, argv, ranges_of(args), range) {
                    CallEntry::Refused { state } => (state, ValueView::empty()),
                    CallEntry::Entered { state, body, return_parameters } => {
                        let (after, _) = eval_statement(rules, state, body, (depth - 1) as nat);
                        call_exit(after, return_parameters)
                    },
                }
            }
        },
        _ => (s, ValueView::empty()),
    }
}

/// Evaluating the first `n` of the arguments of a call, in order.
pub open spec fn eval_args(
    rules: Rules,
    s: StateView,
    args: Seq<ExpressionView>,
    n: nat,
    depth: nat,
) -> (StateView, Seq<ValueView>)
    decreases depth, args, n,
{
    if n == 0 || n > args.len() {
        (s, Seq::empty())
    } else {
        let (s1, values) = eval_args(rules, s, args, (n - 1) as nat, depth);
        let (s2, v) = eval_expression(rules, s1, args[n - 1], depth);
        (s2, values.push(v))
    }
}

/// The binary expression `left op right`.
pub open spec fn binary_node(left: ExpressionView, op: Operator, right: ExpressionView) -> ExpressionView {
    ExpressionView::BinaryExpression { left: Box::new(left), op, right: Box::new(right) }
}

/// Evaluating the binary expression `left op right`.
///
/// An assignment to a name evaluates the right side and binds the name. An
/// assignment to a member access evaluates the right side and writes the
/// member in place; where the access does not resolve, that is a failure and
/// nothing is written. A member access evaluates the left side once and has
/// the value of the member; where the left side is no record or has no such
/// member, or the right side is no name, that is a failure. Every other
/// expression evaluates both operands and combines them by the arithmetic
/// table; operands that do not combine are a failure. A failure has the
/// range of the expression, but for the assignment, where it has the range
/// of the target.
pub open spec fn eval_binary(
    rules: Rules,
    s: StateView,
    left: ExpressionView,
    op: Operator,
    right: ExpressionView,
    depth: nat,
) -> (StateView, ValueView)
    decreases depth, binary_node(left, op, right), 0nat,
    via eval_binary_decreases
{
    match (op, left) {
        (Operator::Equals, ExpressionView::Ident(name, _)) => {
            let (s1, v) = eval_expression(rules, s, right, depth);
            (
                StateView {
                    scope: s1.scope.bind(name, ScopeValueView::ConstValue(v)),
                    errors: s1.errors,
                },
                v,
            )
        },
        (
            Operator::Equals,
            ExpressionView::BinaryExpression { left: target, op: Operator::Dot, right: member },
        ) => {
            let (s1, v) = eval_expression(rules, s, right, depth);
            if s1.scope.member_access_resolves(*target, *member) {
                (
                    StateView {
                        scope: s1.scope.follow_member_access(*target, *member, v),
                        errors: s1.errors,
                    },
                    v,
                )
            } else {
                fail(rules, s1, ErrorKindView::UnrecognizedMemberAccess, left.range())
            }
        },
        _ => {
            if op == Operator::Dot {
                let (s1, record) = eval_expression(rules, s, left, depth);
                let found = match right {
                    ExpressionView::Ident(member, _) => record.member(member),
                    _ => None,
                };
                match found {
                    Some(v) => (s1, v),
                    None => fail(
                        rules,
                        s1,
                        ErrorKindView::UnrecognizedMemberAccess,
                        binary_node(left, op, right).range(),
                    ),
                }
            } else {
                let (s1, l) = eval_expression(rules, s, left, depth);
                let (s2, r) = eval_expression(rules, s1, right, depth);
                let v = arithmetic(rules.floats, op, l, r);
                if v == ValueView::empty() {
                    fail(
                        rules,
                        s2,
                        arithmetic_failure(op, l, r),
                        binary_node(left, op, right).range(),
                    )
                } else {
                    (s2, v)
                }
            }
        },
    }
}

#[via_fn]
proof fn eval_binary_decreases(
    rules: Rules,
    s: StateView,
    left: ExpressionView,
    op: Operator,
    right: ExpressionView,
    depth: nat,
) {
    let node = binary_node(left, op, right);
    assert(decreases_to!(node => node->left));
    assert(decreases_to!(node => node->right));
}

} // verus!
