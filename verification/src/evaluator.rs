//! The evaluator: it walks the syntax tree, drives the scope manager, and
//! records errors without ever stopping the pass.
//!
//! Every function here is tied to the mathematical description of the
//! language: it leaves the state, and returns the value, that the
//! description gives.

use vstd::prelude::*;
use linked_hash_map::LinkedHashMap;
use crate::arithmetic::{integer_operation, is_arithmetic, is_arithmetic_operator};
use crate::ast::{
    expressions_view, parameters_view, statements_view, Expression, Module, Operator, Parameter,
    Range, Statement, StatementView, TypeName,
};
use crate::const_value::{
    find_member, type_fields_view, values_view, ConstValue, ConstValueKind, Type,
};
use crate::error::{errors_view, ErrorView, EvaluationError, EvaluationErrorKind};
use crate::strictness::Strictness;
use crate::wellformed::{
    lemma_binary_sound, lemma_expression_sound, lemma_statement_sound, lemma_statements_sound,
    sound, values_wf,
};
use crate::linked::{
    insert_type, insert_value, lemma_put_types_view, lemma_put_values_view, named_types_view,
    named_values_view, new_type_map, new_value_map, type_entries, value_entries,
};
use crate::scope::{ScopeManager, ScopeRef, ScopeValue};
use crate::semantics::{
    arithmetic, arithmetic_failure, bind_arguments, call_entry, call_exit, coerced,
    collect_returns, eval_args, eval_binary, eval_expression, eval_params, eval_statement,
    eval_statements, eval_type, fail, is_integer_type, ranges_of, returned_value, shorter,
    CallEntry, Rules, StateView,
};

verus! {

/// How deep calls may nest unless the evaluator is told otherwise. A call
/// that would nest deeper is not made: it is empty, and recorded as an error.
pub const DEFAULT_CALL_DEPTH: usize = 128;

/// What an evaluation reads and changes: the scopes, and the errors recorded
/// so far.
pub struct EvaluatorState {
    pub scope: ScopeManager,
    pub errors: Vec<EvaluationError>,
}

impl View for EvaluatorState {
    type V = StateView;

    open spec fn view(&self) -> StateView {
        StateView { scope: self.scope@, errors: errors_view(self.errors@) }
    }
}

/// Whether `unit` can stand for floating-point arithmetic: it takes every
/// arithmetic operator with any two operands, and its result depends on
/// nothing but the operator and the operands.
pub open spec fn float_unit_ok<F: Fn(Operator, u64, u64) -> u64>(unit: F) -> bool {
    &&& forall|op: Operator, a: u64, b: u64|
        is_arithmetic(op) ==> #[trigger] call_requires(unit, (op, a, b))
    &&& forall|op: Operator, a: u64, b: u64, r1: u64, r2: u64|
        #[trigger] call_ensures(unit, (op, a, b), r1) && #[trigger] call_ensures(
            unit,
            (op, a, b),
            r2,
        ) ==> r1 == r2
}

/// The function that `unit` computes.
pub open spec fn float_model<F: Fn(Operator, u64, u64) -> u64>(unit: F) -> spec_fn(
    Operator,
    u64,
    u64,
) -> u64 {
    |op: Operator, a: u64, b: u64| choose|r: u64| call_ensures(unit, (op, a, b), r)
}

/// Whether every scope that was active before is still active at its place.
pub open spec fn stack_kept(before: Seq<ScopeRef>, after: Seq<ScopeRef>) -> bool {
    before.len() <= after.len() && forall|i: int|
        0 <= i < before.len() ==> #[trigger] after[i] == before[i]
}

/// Whether every error that was recorded before is still recorded at its
/// place.
pub open spec fn errors_kept(before: Seq<ErrorView>, after: Seq<ErrorView>) -> bool {
    before.len() <= after.len() && forall|i: int|
        0 <= i < before.len() ==> #[trigger] after[i] == before[i]
}

/// The binary expression `left op right`.
pub open spec fn binary_expression(left: Expression, op: Operator, right: Expression) -> Expression {
    Expression::BinaryExpression { left: Box::new(left), op, right: Box::new(right) }
}

/// The type of the result where two numeric operands meet.
fn coerce(left: &Type, right: &Type) -> (r: Option<Type>)
    ensures
        match r {
            Some(ty) => coerced(left@, right@) == Some(ty@),
            None => coerced(left@, right@) is None,
        },
{
    match (left, right) {
        (Type::CoercibleInteger, Type::CoercibleInteger) => Some(Type::CoercibleInteger),
        (Type::Integer { width, signed }, Type::CoercibleInteger) => Some(
            Type::Integer { width: *width, signed: *signed },
        ),
        (Type::CoercibleInteger, Type::Integer { width, signed }) => Some(
            Type::Integer { width: *width, signed: *signed },
        ),
        (Type::CoercibleFloat, Type::CoercibleFloat) => Some(Type::CoercibleFloat),
        (Type::Float { width }, Type::CoercibleFloat) => Some(Type::Float { width: *width }),
        (Type::CoercibleFloat, Type::Float { width }) => Some(Type::Float { width: *width }),
        _ => None,
    }
}

/// Why `left op right` has no value.
fn failure_of(op: Operator, left: &ConstValue, right: &ConstValue) -> (r: EvaluationErrorKind)
    ensures
        r@ == arithmetic_failure(op, left@, right@),
{
    match (coerce(&left.ty, &right.ty), &left.kind, &right.kind) {
        (Some(ty), ConstValueKind::Integer { .. }, ConstValueKind::Integer { value: divisor }) => {
            let integer = match &ty {
                Type::CoercibleInteger => true,
                Type::Integer { .. } => true,
                _ => false,
            };
            let divides = match op {
                Operator::Divide => true,
                _ => false,
            };
            if integer && divides && *divisor == 0 {
                EvaluationErrorKind::DivisionByZero
            } else {
                EvaluationErrorKind::UnsupportedOperation
            }
        },
        _ => EvaluationErrorKind::UnsupportedOperation,
    }
}

/// A tree-walking evaluator over one module.
///
/// Floating-point arithmetic is done by the unit that the evaluator is made
/// with: it gets the operator and the bits of the two operands and gives the
/// bits of the result.
pub struct Evaluator<F: Fn(Operator, u64, u64) -> u64> {
    module: Module,
    pub state: EvaluatorState,
    float_unit: F,
    depth: usize,
    strictness: Strictness,
}

impl<F: Fn(Operator, u64, u64) -> u64> View for Evaluator<F> {
    type V = StateView;

    /// The state of the evaluation: the scopes, and the errors recorded.
    closed spec fn view(&self) -> StateView {
        self.state@
    }
}

impl<F: Fn(Operator, u64, u64) -> u64> Evaluator<F> {
    /// What the evaluator is made with: the function that its float unit
    /// computes, and its strictness.
    pub closed spec fn rules(&self) -> Rules {
        Rules { floats: float_model(self.float_unit), strictness: self.strictness }
    }

    /// How deep calls may still nest.
    pub closed spec fn depth(&self) -> nat {
        self.depth as nat
    }

    /// The top-level statements of the module.
    pub closed spec fn program(&self) -> Seq<StatementView> {
        statements_view(self.module.stmts@)
    }

    /// Whether the float unit can stand for floating-point arithmetic.
    pub closed spec fn float_unit_fit(&self) -> bool {
        float_unit_ok(self.float_unit)
    }

    /// The scope graph is well-formed and the float unit fit.
    pub open spec fn wf(&self) -> bool {
        self@.scope.wf() && self.float_unit_fit()
    }

    /// Whether the scopes are sound: the graph is well-formed, and no name
    /// occurs twice in a record or a signature that a node holds.
    pub open spec fn sound(&self) -> bool {
        sound(self@.scope)
    }

    /// Whether this evaluator can be what `before` became, but for the
    /// module: the same float unit, strictness and call depth, well-formed, with every
    /// scope that was active still active at its place, no node gone from
    /// the graph, and every error that was recorded still recorded at its
    /// place.
    pub open spec fn keeps(&self, before: &Self) -> bool {
        &&& self.wf()
        &&& self.rules() == before.rules()
        &&& self.depth() == before.depth()
        &&& stack_kept(before@.scope.stack, self@.scope.stack)
        &&& before@.scope.nodes.len() <= self@.scope.nodes.len()
        &&& errors_kept(before@.errors, self@.errors)
    }

    /// Whether this evaluator can be what `before` became: as `keeps`, with
    /// the same module.
    pub open spec fn follows(&self, before: &Self) -> bool {
        self.keeps(before) && self.program() == before.program()
    }

    /// An evaluator for `module` that starts from the scopes of
    /// `scope_manager`, with no errors recorded. It is lenient, and calls
    /// may nest `DEFAULT_CALL_DEPTH` deep.
    pub fn new(module: Module, scope_manager: ScopeManager, float_unit: F) -> (r: Evaluator<F>)
        requires
            scope_manager@.wf(),
            float_unit_ok(float_unit),
        ensures
            r.wf(),
            r@ == (StateView { scope: scope_manager@, errors: Seq::empty() }),
            r.rules() == (Rules {
                floats: float_model(float_unit),
                strictness: Strictness { report_failures: false, release_refused_calls: false },
            }),
            r.depth() == DEFAULT_CALL_DEPTH,
            r.program() == statements_view(module.stmts@),
    {
        let r = Evaluator {
            module,
            state: EvaluatorState { scope: scope_manager, errors: Vec::new() },
            float_unit,
            depth: DEFAULT_CALL_DEPTH,
            strictness: Strictness::lenient(),
        };
        assert(r@.errors =~= Seq::empty());
        r
    }

    /// The errors recorded so far, the first one first.
    pub fn errors(&self) -> (r: &Vec<EvaluationError>)
        ensures
            errors_view(r@) == self@.errors,
    {
        &self.state.errors
    }

    /// The scopes as the evaluation so far has left them.
    pub fn scope(&self) -> (r: &ScopeManager)
        ensures
            r@ == self@.scope,
    {
        &self.state.scope
    }

    /// The same evaluator with another bound on how deep calls may nest.
    pub fn with_call_depth(self, depth: usize) -> (r: Evaluator<F>)
        requires
            self.wf(),
        ensures
            r.wf(),
            r@ == self@,
            r.rules() == self.rules(),
            r.program() == self.program(),
            r.depth() == depth,
    {
        Evaluator {
            module: self.module,
            state: self.state,
            float_unit: self.float_unit,
            depth,
            strictness: self.strictness,
        }
    }

    /// The same evaluator with another strictness.
    pub fn with_strictness(self, strictness: Strictness) -> (r: Evaluator<F>)
        requires
            self.wf(),
        ensures
            r.wf(),
            r@ == self@,
            r.rules() == (Rules { floats: self.rules().floats, strictness }),
            r.program() == self.program(),
            r.depth() == self.depth(),
    {
        Evaluator {
            module: self.module,
            state: self.state,
            float_unit: self.float_unit,
            depth: self.depth,
            strictness,
        }
    }

    /// Gives up on what is being evaluated: returns the empty value, and
    /// records the failure where the evaluator reports failures.
    fn fail(&mut self, kind: EvaluationErrorKind, range: Range) -> (r: ConstValue)
        requires
            old(self).wf(),
        ensures
            final(self).follows(old(self)),
            ({
                let rules = old(self).rules();
                let before = old(self)@;
                (final(self)@, r@) == fail(rules, before, kind@, range)
            }),
    {
        if self.strictness.report_failures {
            self.add_error(EvaluationError { kind, range });
        }
        ConstValue::empty()
    }

    /// Evaluates the top-level statements of the module in source order and
    /// returns their values, one for each.
    pub fn evaluate(&mut self) -> (r: Vec<ConstValue>)
        requires
            old(self).wf(),
        ensures
            final(self).follows(old(self)),
            ({
                let rules = old(self).rules();
                let before = old(self)@;
                let program = old(self).program();
                let depth = old(self).depth();
                (final(self)@, values_view(r@)) == eval_statements(
                    rules,
                    before,
                    program,
                    program.len(),
                    depth,
                )
            }),
            old(self).sound() ==> final(self).sound() && values_wf(values_view(r@)),
    {
        proof {
            if self.sound() {
                lemma_statements_sound(
                    self.rules(),
                    self@,
                    self.program(),
                    self.program().len(),
                    self.depth(),
                );
            }
        }
        let mut module = Module { stmts: Vec::new() };
        std::mem::swap(&mut self.module, &mut module);
        let ghost program = statements_view(module.stmts@);
        let mut values: Vec<ConstValue> = Vec::new();
        let mut i: usize = 0;
        assert(values_view(values@) =~= Seq::empty());
        while i < module.stmts.len()
            invariant
                i <= module.stmts.len(),
                self.keeps(old(self)),
                program == statements_view(module.stmts@),
                program == old(self).program(),
                (self@, values_view(values@)) == eval_statements(
                    old(self).rules(),
                    old(self)@,
                    program,
                    i as nat,
                    old(self).depth(),
                ),
            decreases module.stmts.len() - i,
        {
            let ghost before = values_view(values@);
            let v = self.evaluate_statement(&module.stmts[i]);
            values.push(v);
            assert(values_view(values@) =~= before.push(v@));
            i += 1;
        }
        std::mem::swap(&mut self.module, &mut module);
        values
    }

    /// Evaluates a statement.
    ///
    /// A declaration binds its name: to a record declaration, to a function
    /// value whose calls run in the node reserved for the name, or to the
    /// value of its initializer. An expression statement has the value of the
    /// expression. A list of one statement has that statement's value; any
    /// other list evaluates every item and has the tuple of their values.
    /// Every other statement does nothing. All but expressions and lists
    /// evaluate to the empty value.
    pub fn evaluate_statement(&mut self, statement: &Statement) -> (r: ConstValue)
        requires
            old(self).wf(),
        ensures
            final(self).follows(old(self)),
            ({
                let rules = old(self).rules();
                let before = old(self)@;
                let depth = old(self).depth();
                (final(self)@, r@) == eval_statement(rules, before, statement@, depth)
            }),
            old(self).sound() ==> final(self).sound() && r@.wf(),
        decreases old(self).depth(), statement, 0nat,
    {
        proof {
            if self.sound() {
                lemma_statement_sound(self.rules(), self@, statement@, self.depth());
            }
        }
        reveal_with_fuel(crate::ast::statement_view, 2);
        reveal_with_fuel(crate::ast::expression_view, 2);
        match statement {
            Statement::Declaration { ident, expr: Some(Expression::Record { parameters, .. }), .. } => {
                let members = self.evaluate_params(parameters);
                self.state.scope.update_value(
                    ident.as_str(),
                    ScopeValue::Record { ident: ident.clone(), members },
                );
                ConstValue::empty()
            },
            Statement::Declaration {
                ident,
                expr: Some(
                    Expression::Function { parameters, return_parameters, body: Some(body), .. },
                ),
                ..
            } => {
                let ps = self.evaluate_params(parameters);
                let rs = self.evaluate_params(return_parameters);
                self.state.scope.update_value(
                    ident.as_str(),
                    ScopeValue::ConstValue(ConstValue::empty()),
                );
                match self.state.scope.find_symbol(ident.as_str()) {
                    Some(sym) => {
                        let function = ConstValue::func((**body).clone(), ps, rs, sym);
                        self.state.scope.update_value(
                            ident.as_str(),
                            ScopeValue::ConstValue(function),
                        );
                    },
                    None => {},
                }
                ConstValue::empty()
            },
            Statement::Declaration { ident, expr: Some(expr), .. } => {
                let value = self.evaluate_expression(expr);
                self.state.scope.update_value(ident.as_str(), ScopeValue::ConstValue(value));
                ConstValue::empty()
            },
            Statement::Declaration { expr: None, .. } => ConstValue::empty(),
            Statement::Expression(expr) => self.evaluate_expression(expr),
            Statement::List(items) => {
                if items.len() == 1 {
                    self.evaluate_statement(&items[0])
                } else {
                    let values = self.evaluate_list(items);
                    ConstValue::tuple(values)
                }
            },
            Statement::Other => ConstValue::empty(),
        }
    }

    /// Evaluates the statements of a list, in order.
    fn evaluate_list(&mut self, items: &Vec<Statement>) -> (r: Vec<ConstValue>)
        requires
            old(self).wf(),
        ensures
            final(self).follows(old(self)),
            ({
                let rules = old(self).rules();
                let before = old(self)@;
                let depth = old(self).depth();
                (final(self)@, values_view(r@)) == eval_statements(rules, before, statements_view(items@), items@.len() as nat, depth)
            }),
        decreases old(self).depth(), items, 0nat,
    {
        let ghost rules = self.rules();
        let ghost start = self@;
        let ghost list = statements_view(items@);
        let mut values: Vec<ConstValue> = Vec::new();
        let mut i: usize = 0;
        assert(values_view(values@) =~= Seq::empty());
        while i < items.len()
            invariant
                i <= items.len(),
                self.follows(old(self)),
                self.depth() == old(self).depth(),
                rules == old(self).rules(),
                list == statements_view(items@),
                (self@, values_view(values@)) == eval_statements(
                    rules,
                    start,
                    list,
                    i as nat,
                    old(self).depth(),
                ),
            decreases items.len() - i,
        {
            let ghost before = values_view(values@);
            let v = self.evaluate_statement(&items[i]);
            values.push(v);
            assert(values_view(values@) =~= before.push(v@));
            i += 1;
        }
        values
    }

    /// Evaluates the arguments of a call, in order.
    fn evaluate_args(&mut self, args: &Vec<Expression>) -> (r: Vec<ConstValue>)
        requires
            old(self).wf(),
        ensures
            final(self).follows(old(self)),
            r@.len() == args@.len(),
            ({
                let rules = old(self).rules();
                let before = old(self)@;
                let depth = old(self).depth();
                (final(self)@, values_view(r@)) == eval_args(rules, before, expressions_view(args@), args@.len() as nat, depth)
            }),
        decreases old(self).depth(), args, 0nat,
    {
        let ghost rules = self.rules();
        let ghost start = self@;
        let ghost list = expressions_view(args@);
        let mut values: Vec<ConstValue> = Vec::new();
        let mut i: usize = 0;
        assert(values_view(values@) =~= Seq::empty());
        while i < args.len()
            invariant
                i <= args.len(),
                values@.len() == i,
                self.follows(old(self)),
                self.depth() == old(self).depth(),
                rules == old(self).rules(),
                list == expressions_view(args@),
                (self@, values_view(values@)) == eval_args(
                    rules,
                    start,
                    list,
                    i as nat,
                    old(self).depth(),
                ),
            decreases args.len() - i,
        {
            let ghost before = values_view(values@);
            let v = self.evaluate_expression(&args[i]);
            values.push(v);
            assert(values_view(values@) =~= before.push(v@));
            i += 1;
        }
        values
    }

    /// Evaluates an expression.
    ///
    /// A literal is a value of its literal type. A name has the value it is
    /// bound to, and the empty value where it is bound to none. A call
    /// evaluates the callee and the arguments, enters the call, runs the
    /// body for its effects, and leaves the call with the record instance of
    /// the declared return names; a refused call, and one that would nest
    /// deeper than the evaluator allows, is empty. Function and record
    /// literals are empty. A name that is bound to no value is a failure:
    /// it is recorded where the evaluator reports failures. A call that
    /// would nest too deep is always recorded.
    pub fn evaluate_expression(&mut self, expression: &Expression) -> (r: ConstValue)
        requires
            old(self).wf(),
        ensures
            final(self).follows(old(self)),
            ({
                let rules = old(self).rules();
                let before = old(self)@;
                let depth = old(self).depth();
                (final(self)@, r@) == eval_expression(rules, before, expression@, depth)
            }),
            old(self).sound() ==> final(self).sound() && r@.wf(),
        decreases old(self).depth(), expression, 1nat,
    {
        proof {
            if self.sound() {
                lemma_expression_sound(self.rules(), self@, expression@, self.depth());
            }
        }
        match expression {
            Expression::Integer(bits, _) => ConstValue::cinteger(*bits),
            Expression::Float(bits, _) => ConstValue::cfloat(*bits),
            Expression::Ident(name, range) => {
                let found = match self.state.scope.find_symbol(name.as_str()) {
                    Some(sym) => match self.state.scope.get(sym) {
                        Some(scope) => match &scope.value {
                            ScopeValue::ConstValue(v) => Some(v.clone()),
                            _ => None,
                        },
                        None => None,
                    },
                    None => None,
                };
                match found {
                    Some(v) => v,
                    None => self.fail(EvaluationErrorKind::UnresolvedIdentifier, *range),
                }
            },
            Expression::BinaryExpression { left, op, right } => {
                self.evaluate_binary_expression(left, op, right)
            },
            Expression::FunctionCall { expr, args, range } => {
                let callee = self.evaluate_expression(expr);
                let argv = self.evaluate_args(args);
                if self.depth == 0 {
                    self.add_error(
                        EvaluationError { kind: EvaluationErrorKind::CallTooDeep, range: *range },
                    );
                    return ConstValue::empty();
                }
                match self.enter_call(callee, argv, args, *range) {
                    Some((body, declared)) => {
                        self.depth = self.depth - 1;
                        let _ = self.evaluate_statement(&body);
                        self.depth = self.depth + 1;
                        self.leave_call(&declared)
                    },
                    None => ConstValue::empty(),
                }
            },
            _ => ConstValue::empty(),
        }
    }

    /// Evaluates the binary expression `left op right`.
    ///
    /// An assignment to a name binds the name and has the assigned value. An
    /// assignment to a member access writes the member in place and has the
    /// assigned value; where the access does not resolve, nothing is written
    /// and the value is empty. A member access evaluates the left side once
    /// and has the value of the member, or the empty value where there is
    /// none. Every other expression evaluates both operands and combines
    /// them by the arithmetic table.
    pub fn evaluate_binary_expression(
        &mut self,
        left: &Expression,
        op: &Operator,
        right: &Expression,
    ) -> (r: ConstValue)
        requires
            old(self).wf(),
        ensures
            final(self).follows(old(self)),
            ({
                let rules = old(self).rules();
                let before = old(self)@;
                let depth = old(self).depth();
                (final(self)@, r@) == eval_binary(rules, before, left@, *op, right@, depth)
            }),
            old(self).sound() ==> final(self).sound() && r@.wf(),
        decreases old(self).depth(), binary_expression(*left, *op, *right), 0nat,
    {
        proof {
            if self.sound() {
                lemma_binary_sound(self.rules(), self@, left@, *op, right@, self.depth());
            }
        }
        proof {
            let node = binary_expression(*left, *op, *right);
            assert(decreases_to!(node => node->left));
            assert(decreases_to!(node => node->right));
        }
        match (op, left) {
            (Operator::Equals, Expression::Ident(name, _)) => {
                let value = self.evaluate_expression(right);
                self.state.scope.update_value(
                    name.as_str(),
                    ScopeValue::ConstValue(value.clone()),
                );
                return value;
            },
            (
                Operator::Equals,
                Expression::BinaryExpression { left: target, op: Operator::Dot, right: member },
            ) => {
                let value = self.evaluate_expression(right);
                let updated = self.state.scope.follow_member_access_mut(
                    target,
                    member,
                    value.clone(),
                );
                if !updated {
                    if !self.strictness.report_failures {
                        return ConstValue::empty();
                    }
                    let range = left.get_range();
                    return self.fail(EvaluationErrorKind::UnrecognizedMemberAccess, range);
                }
                return value;
            },
            _ => {},
        }
        match op {
            Operator::Dot => {
                let record = self.evaluate_expression(left);
                match (&record.kind, right) {
                    (ConstValueKind::RecordInstance { members }, Expression::Ident(member, _)) => {
                        match find_member(members, member) {
                            Some(i) => {
                                return members[i].1.clone();
                            },
                            None => {},
                        }
                    },
                    _ => {},
                }
                if !self.strictness.report_failures {
                    return ConstValue::empty();
                }
                let range = Range { start: left.get_range().start, end: right.get_range().end };
                return self.fail(EvaluationErrorKind::UnrecognizedMemberAccess, range);
            },
            _ => {},
        }
        let l = self.evaluate_expression(left);
        let r = self.evaluate_expression(right);
        let value = self.apply_operator(*op, &l, &r);
        if !value.is_empty() {
            return value;
        }
        if !self.strictness.report_failures {
            return value;
        }
        let range = Range { start: left.get_range().start, end: right.get_range().end };
        let kind = failure_of(*op, &l, &r);
        self.fail(kind, range)
    }

    /// The value of `left op right` for two values, by the arithmetic table.
    pub fn apply_operator(&self, op: Operator, left: &ConstValue, right: &ConstValue) -> (r:
        ConstValue)
        requires
            self.wf(),
        ensures
            r@ == arithmetic(self.rules().floats, op, left@, right@),
    {
        match coerce(&left.ty, &right.ty) {
            Some(ty) => {
                let integer = match &ty {
                    Type::CoercibleInteger => true,
                    Type::Integer { .. } => true,
                    _ => false,
                };
                assert(integer == is_integer_type(ty@));
                match (&left.kind, &right.kind) {
                    (ConstValueKind::Integer { value: a }, ConstValueKind::Integer { value: b }) => {
                        if integer {
                            match integer_operation(op, *a, *b) {
                                Some(value) => ConstValue {
                                    ty,
                                    kind: ConstValueKind::Integer { value },
                                },
                                None => ConstValue::empty(),
                            }
                        } else {
                            ConstValue::empty()
                        }
                    },
                    (ConstValueKind::Float { bits: a }, ConstValueKind::Float { bits: b }) => {
                        if !integer && is_arithmetic_operator(op) {
                            let bits = (self.float_unit)(op, *a, *b);
                            assert(call_ensures(self.float_unit, (op, *a, *b), bits));
                            assert(bits == (self.rules().floats)(op, *a, *b));
                            ConstValue { ty, kind: ConstValueKind::Float { bits } }
                        } else {
                            ConstValue::empty()
                        }
                    },
                    _ => ConstValue::empty(),
                }
            },
            None => ConstValue::empty(),
        }
    }

    /// The type that a written type stands for. A name stands for the
    /// declaration it resolves to, and for the empty type where it resolves
    /// to none.
    fn evaluate_type(&self, ty: &TypeName) -> (r: Type)
        requires
            self.wf(),
        ensures
            r@ == eval_type(self@.scope, ty@),
    {
        match ty {
            TypeName::Integer { width, signed } => Type::Integer { width: *width, signed: *signed },
            TypeName::Float { width } => Type::Float { width: *width },
            TypeName::Ident(name) => match self.state.scope.find_symbol(name.as_str()) {
                Some(sym) => Type::Symbol(sym),
                None => Type::Empty,
            },
        }
    }

    /// The named types that a parameter list declares, in the order of the
    /// list. An entry without a name or without a type declares nothing; of
    /// two entries of one name the later one counts, at the later one's
    /// place.
    pub fn evaluate_params(&self, params: &Vec<Parameter>) -> (r: LinkedHashMap<String, Type>)
        requires
            self.wf(),
        ensures
            named_types_view(type_entries(r)) == eval_params(
                self@.scope,
                parameters_view(params@),
                params@.len(),
            ),
    {
        let mut map = new_type_map();
        let mut i: usize = 0;
        assert(named_types_view(type_entries(map)) =~= Seq::empty());
        while i < params.len()
            invariant
                self.wf(),
                i <= params.len(),
                named_types_view(type_entries(map)) == eval_params(
                    self@.scope,
                    parameters_view(params@),
                    i as nat,
                ),
            decreases params.len() - i,
        {
            let ghost before = type_entries(map);
            match (&params[i].name, &params[i].ty) {
                (Some(name), Some(ty)) => {
                    let evaluated = self.evaluate_type(ty);
                    proof {
                        lemma_put_types_view(before, name@, evaluated);
                    }
                    insert_type(&mut map, name.clone(), evaluated);
                },
                _ => {},
            }
            assert(parameters_view(params@)[i as int] == params@[i as int]@);
            i += 1;
        }
        map
    }

    /// Records an error.
    fn add_error(&mut self, error: EvaluationError)
        requires
            old(self).wf(),
        ensures
            final(self).follows(old(self)),
            final(self)@ == (StateView {
                scope: old(self)@.scope,
                errors: old(self)@.errors.push(error@),
            }),
    {
        self.state.errors.push(error);
        assert(self@.errors =~= old(self)@.errors.push(error@));
    }

    /// Enters a call, at `range`, of `callee` with the values `argv` of the
    /// argument expressions `args`. Returns the body to run and the names to
    /// return, or nothing where the call is refused.
    ///
    /// A callee that is no function value, or whose scope is not of this
    /// graph, is refused with the scopes unchanged; that is a failure.
    /// Otherwise the callee's own scope becomes the innermost active scope
    /// and the arguments are bound in it, by position. An argument of another
    /// type than its parameter is recorded as an error, with the range of its
    /// expression, and the call refused; the callee's scope then stays
    /// active, unless the evaluator releases the scopes of refused calls.
    pub fn enter_call(
        &mut self,
        callee: ConstValue,
        argv: Vec<ConstValue>,
        args: &Vec<Expression>,
        range: Range,
    ) -> (r: Option<(Statement, Vec<(String, Type)>)>)
        requires
            old(self).wf(),
            argv@.len() == args@.len(),
        ensures
            final(self).follows(old(self)),
            match call_entry(
                old(self).rules(),
                old(self)@,
                callee@,
                values_view(argv@),
                ranges_of(expressions_view(args@)),
                range,
            ) {
                CallEntry::Refused { state } => r is None && final(self)@ == state,
                CallEntry::Entered { state, body, return_parameters } => {
                    &&& final(self)@ == state
                    &&& final(self)@.scope.stack.len() == old(self)@.scope.stack.len()
                        + 1
                    &&& r matches Some(entered) && entered.0@ == body && type_fields_view(
                        entered.1@,
                    ) == return_parameters
                },
            },
    {
        let ghost called = call_entry(
            self.rules(),
            self@,
            callee@,
            values_view(argv@),
            ranges_of(expressions_view(args@)),
            range,
        );
        let ConstValue { ty, kind } = callee;
        match (ty, kind) {
            (
                Type::Function { parameters, return_parameters },
                ConstValueKind::Function { body, rf },
            ) => {
                if !self.state.scope.contains(rf) {
                    self.fail(EvaluationErrorKind::UnmatchedCallTarget, range);
                    return None;
                }
                let ghost start = self@;
                let ghost values = values_view(argv@);
                let ghost declared = type_fields_view(parameters@);
                let ghost ranges = ranges_of(expressions_view(args@));
                self.state.scope.push_scope(rf);
                let ghost entered = self@;
                assert(entered == (StateView { scope: start.scope.push(rf), errors: start.errors }));
                let n = if argv.len() <= parameters.len() {
                    argv.len()
                } else {
                    parameters.len()
                };
                let mut pending = argv;
                let ghost bound = bind_arguments(entered, values, declared, ranges, n as nat);
                let ghost refused = if self.rules().strictness.release_refused_calls {
                    StateView { scope: bound.0.scope.pop(), errors: bound.0.errors }
                } else {
                    bound.0
                };
                assert(called == if bound.1 {
                    CallEntry::Entered {
                        state: bound.0,
                        body: body@,
                        return_parameters: type_fields_view(return_parameters@),
                    }
                } else {
                    CallEntry::Refused { state: refused }
                });
                let mut i: usize = 0;
                while i < n
                    invariant
                        i <= n,
                        bound == bind_arguments(entered, values, declared, ranges, n as nat),
                        !bound.1 ==> called == (CallEntry::Refused { state: refused }),
                        refused == if old(self).rules().strictness.release_refused_calls {
                            StateView { scope: bound.0.scope.pop(), errors: bound.0.errors }
                        } else {
                            bound.0
                        },
                        entered.scope.stack.len() == old(self)@.scope.stack.len() + 1,
                        entered.scope.stack.len() > 1,
                        stack_kept(old(self)@.scope.stack, entered.scope.stack.drop_last()),
                        called == call_entry(
                            old(self).rules(),
                            old(self)@,
                            callee@,
                            values_view(argv@),
                            ranges_of(expressions_view(args@)),
                            range,
                        ),
                        n == shorter(values.len(), declared.len()),
                        pending@.len() == values.len(),
                        args@.len() == values.len(),
                        declared == type_fields_view(parameters@),
                        ranges == ranges_of(expressions_view(args@)),
                        forall|j: int|
                            i <= j < pending@.len() ==> (#[trigger] pending@[j])@ == values[j],
                        self.follows(old(self)),
                        self@.scope.stack == entered.scope.stack,
                        (self@, true) == bind_arguments(
                            entered,
                            values,
                            declared,
                            ranges,
                            i as nat,
                        ),
                    decreases n - i,
                {
                    let mut arg = ConstValue::empty();
                    let slot = &mut pending[i];
                    std::mem::swap(slot, &mut arg);
                    assert(arg@ == values[i as int]);
                    assert(declared[i as int] == (parameters@[i as int].0@, parameters@[i as int].1@));
                    if !arg.ty.equals(&parameters[i].1) {
                        let at = args[i].get_range();
                        assert(at == ranges[i as int]);
                        let error = EvaluationError {
                            kind: EvaluationErrorKind::TypeMismatch(arg.ty, parameters[i].1.clone()),
                            range: at,
                        };
                        self.add_error(error);
                        assert((self@, false) == bind_arguments(
                            entered,
                            values,
                            declared,
                            ranges,
                            (i + 1) as nat,
                        ));
                        proof {
                            crate::semantics::lemma_bind_arguments_stops(
                                entered,
                                values,
                                declared,
                                ranges,
                                (i + 1) as nat,
                                n as nat,
                            );
                        }
                        if self.strictness.release_refused_calls {
                            self.state.scope.pop_scope();
                        }
                        return None;
                    }
                    self.state.scope.update_value(parameters[i].0.as_str(), ScopeValue::ConstValue(arg));
                    i += 1;
                }
                Some((body, return_parameters))
            },
            _ => {
                self.fail(EvaluationErrorKind::UnmatchedCallTarget, range);
                None
            },
        }
    }

    /// Leaves a call whose body has run: reads the declared return names in
    /// the current state, takes the innermost active scope off the stack, and
    /// returns the record instance of what was read. A name that does not
    /// resolve gives the default of its declared type.
    pub fn leave_call(&mut self, declared: &Vec<(String, Type)>) -> (r: ConstValue)
        requires
            old(self).wf(),
            old(self)@.scope.stack.len() > 1,
        ensures
            final(self).wf(),
            final(self).rules() == old(self).rules(),
            final(self).depth() == old(self).depth(),
            final(self).program() == old(self).program(),
            ({
                let before = old(self)@;
                (final(self)@, r@) == call_exit(before, type_fields_view(declared@))
            }),
    {
        let ghost names = type_fields_view(declared@);
        let mut map = new_value_map();
        let mut i: usize = 0;
        assert(named_values_view(value_entries(map)) =~= Seq::empty());
        while i < declared.len()
            invariant
                i <= declared.len(),
                self.wf(),
                names == type_fields_view(declared@),
                named_values_view(value_entries(map)) == collect_returns(
                    self@.scope,
                    names,
                    i as nat,
                ),
            decreases declared.len() - i,
        {
            let name = &declared[i].0;
            let value = match self.state.scope.find_symbol(name.as_str()) {
                Some(sym) => match self.state.scope.get(sym) {
                    Some(scope) => match &scope.value {
                        ScopeValue::ConstValue(v) => v.clone(),
                        _ => ConstValue::empty(),
                    },
                    None => ConstValue::empty(),
                },
                None => ConstValue::default_for(&declared[i].1),
            };
            assert(names[i as int] == (declared@[i as int].0@, declared@[i as int].1@));
            assert(value@ == returned_value(self@.scope, name@, declared@[i as int].1@));
            proof {
                lemma_put_values_view(value_entries(map), name@, value);
            }
            insert_value(&mut map, name.clone(), value);
            i += 1;
        }
        let r = ConstValue::record_instance(map);
        self.state.scope.pop_scope();
        r
    }
}

} // verus!
