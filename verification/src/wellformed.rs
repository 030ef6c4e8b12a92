//! Evaluation keeps names distinct.
//!
//! A state is sound where the scope graph is well-formed and every value
//! and record declaration that a node holds is well-formed: no name occurs
//! twice among the members of a record or the parameters of a function. The
//! lemmas here show that evaluation, from a sound state, leaves a sound
//! state and gives a well-formed value.

use vstd::prelude::*;
use crate::ast::{ExpressionView, Operator, ParameterView, Range, StatementView};
use crate::const_value::{
    all_types_wf, all_wf, default_fields, distinct_names, field_index, lemma_decimal_injective,
    lemma_field_index, lemma_record_instance_wf, lemma_with_member_wf, decimal, KindView,
    TypeView, ValueView,
};
use crate::evaluator::stack_kept;
use crate::linked::put;
use crate::scope::{
    lemma_bind_wf, lemma_resolve_contained, lemma_write_wf, member_path, MemberPath, ScopeRef,
    ScopeValueView, Scopes,
};
use crate::semantics::{
    arithmetic, bind_arguments, binary_node, call_entry, call_exit, collect_returns, eval_args,
    eval_binary, eval_expression, eval_params, eval_statement, eval_statements, eval_type, fail,
    ranges_of, record_error, returned_value, shorter, CallEntry, Rules, StateView,
};

verus! {

/// Whether what a node holds is well-formed.
pub open spec fn held_wf(value: ScopeValueView) -> bool {
    match value {
        ScopeValueView::ConstValue(v) => v.wf(),
        ScopeValueView::Record { members, .. } => distinct_names(members) && all_types_wf(members),
        ScopeValueView::Module => true,
    }
}

/// Whether the graph is well-formed and every node holds something
/// well-formed.
pub open spec fn sound(s: Scopes) -> bool {
    s.wf() && forall|i: int| 0 <= i < s.nodes.len() ==> held_wf((#[trigger] s.nodes[i]).value)
}

/// Whether every value of a run is well-formed.
pub open spec fn values_wf(values: Seq<ValueView>) -> bool {
    forall|i: int| 0 <= i < values.len() ==> (#[trigger] values[i]).wf()
}

/// Insertion keeps names distinct, and keeps whatever holds of every entry
/// and of the inserted one.
pub proof fn lemma_put_keeps<T>(
    entries: Seq<(Seq<char>, T)>,
    name: Seq<char>,
    value: T,
    holds: spec_fn(T) -> bool,
)
    requires
        distinct_names(entries),
        forall|i: int| 0 <= i < entries.len() ==> holds((#[trigger] entries[i]).1),
        holds(value),
    ensures
        distinct_names(put(entries, name, value)),
        forall|i: int|
            0 <= i < put(entries, name, value).len() ==> holds(
                (#[trigger] put(entries, name, value)[i]).1,
            ),
{
    let after = put(entries, name, value);
    lemma_field_index(entries, name);
    match field_index(entries, name) {
        Some(at) => {
            let rest = entries.remove(at);
            assert forall|i: int| 0 <= i < rest.len() implies holds((#[trigger] rest[i]).1)
                && rest[i].0 != name by {
                if i < at {
                    assert(rest[i] == entries[i]);
                    assert(entries[i].0 != entries[at].0);
                } else {
                    assert(rest[i] == entries[i + 1]);
                    assert(entries[at].0 != entries[i + 1].0);
                }
            }
            assert forall|i: int, j: int| 0 <= i < j < rest.len() implies rest[i].0 != rest[j].0 by {
                let a = if i < at {
                    i
                } else {
                    i + 1
                };
                let b = if j < at {
                    j
                } else {
                    j + 1
                };
                assert(rest[i] == entries[a]);
                assert(rest[j] == entries[b]);
                assert(entries[a].0 != entries[b].0);
            }
            assert forall|i: int| 0 <= i < after.len() implies holds((#[trigger] after[i]).1) by {
                if i < rest.len() {
                    assert(after[i] == rest[i]);
                }
            }
            assert forall|i: int, j: int| 0 <= i < j < after.len() implies after[i].0
                != after[j].0 by {
                assert(after[i] == rest[i]);
                if j < rest.len() {
                    assert(after[j] == rest[j]);
                }
            }
        },
        None => {
            assert forall|i: int| 0 <= i < after.len() implies holds((#[trigger] after[i]).1) by {
                if i < entries.len() {
                    assert(after[i] == entries[i]);
                }
            }
            assert forall|i: int, j: int| 0 <= i < j < after.len() implies after[i].0
                != after[j].0 by {
                assert(after[i] == entries[i]);
                if j < entries.len() {
                    assert(after[j] == entries[j]);
                }
            }
        },
    }
}

/// The named types of a parameter list have distinct names and are
/// well-formed.
pub proof fn lemma_eval_params_wf(scope: Scopes, params: Seq<ParameterView>, n: nat)
    ensures
        distinct_names(eval_params(scope, params, n)),
        all_types_wf(eval_params(scope, params, n)),
    decreases n,
{
    if n != 0 && n <= params.len() {
        lemma_eval_params_wf(scope, params, (n - 1) as nat);
        let before = eval_params(scope, params, (n - 1) as nat);
        match (params[n - 1].name, params[n - 1].ty) {
            (Some(name), Some(ty)) => {
                lemma_put_keeps(before, name, eval_type(scope, ty), |t: TypeView| t.wf());
            },
            _ => {},
        }
    }
}

/// The default value of a well-formed type is well-formed.
pub proof fn lemma_default_value_wf(ty: TypeView)
    requires
        ty.wf(),
    ensures
        ty.default_value().wf(),
    decreases ty,
{
    match ty {
        TypeView::RecordInstance { members } => {
            let fields = default_fields(members);
            assert forall|i: int| 0 <= i < fields.len() implies (#[trigger] fields[i]).1.wf() by {
                assert(members[i].1.wf());
                lemma_default_value_wf(members[i].1);
            }
            assert forall|i: int, j: int| 0 <= i < j < fields.len() implies fields[i].0
                != fields[j].0 by {
                assert(members[i].0 != members[j].0);
            }
            lemma_record_instance_wf(fields);
        },
        _ => {},
    }
}

/// The tuple of well-formed values is well-formed.
pub proof fn lemma_tuple_wf(values: Seq<ValueView>)
    requires
        values_wf(values),
    ensures
        ValueView::tuple(values).wf(),
{
    let fields = Seq::new(values.len(), |i: int| (decimal(i as nat), values[i]));
    assert forall|i: int, j: int| 0 <= i < j < fields.len() implies fields[i].0 != fields[j].0 by {
        if decimal(i as nat) == decimal(j as nat) {
            lemma_decimal_injective(i as nat, j as nat);
        }
    }
    assert forall|i: int| 0 <= i < fields.len() implies (#[trigger] fields[i]).1.wf() by {
        assert(values[i].wf());
    }
    lemma_record_instance_wf(fields);
}

/// A member of a well-formed value is well-formed.
pub proof fn lemma_member_wf(record: ValueView, name: Seq<char>)
    requires
        record.wf(),
    ensures
        record.member(name) matches Some(v) ==> v.wf(),
{
    match record.kind {
        KindView::RecordInstance { members } => {
            lemma_field_index(members, name);
            match field_index(members, name) {
                Some(i) => {
                    assert(members[i].1.wf());
                },
                None => {},
            }
        },
        _ => {},
    }
}

/// Giving a node something well-formed keeps the graph sound.
pub proof fn lemma_set_value_sound(s: Scopes, rf: ScopeRef, value: ScopeValueView)
    requires
        sound(s),
        s.contains(rf),
        held_wf(value),
    ensures
        sound(s.set_value(rf, value)),
{
    crate::scope::lemma_set_value_wf(s, rf, value);
    let t = s.set_value(rf, value);
    assert forall|i: int| 0 <= i < t.nodes.len() implies held_wf((#[trigger] t.nodes[i]).value) by {
        if i != rf.0 {
            assert(held_wf(s.nodes[i].value));
        }
    }
}

/// Binding a name to something well-formed keeps the graph sound.
pub proof fn lemma_bind_sound(s: Scopes, name: Seq<char>, value: ScopeValueView)
    requires
        sound(s),
        held_wf(value),
    ensures
        sound(s.bind(name, value)),
        s.bind(name, value).stack == s.stack,
{
    lemma_bind_wf(s, name, value);
    lemma_resolve_contained(s, name, s.stack.len());
    let t = s.bind(name, value);
    match s.resolve(name) {
        Some(rf) => {
            lemma_set_value_sound(s, rf, value);
        },
        None => {
            assert(s.contains(s.stack[s.stack.len() - 1]));
            assert forall|i: int| 0 <= i < t.nodes.len() implies held_wf(
                (#[trigger] t.nodes[i]).value,
            ) by {
                if i < s.nodes.len() {
                    assert(held_wf(s.nodes[i].value));
                }
            }
        },
    }
}

/// What a name is bound to in a sound graph is well-formed.
pub proof fn lemma_lookup_wf(s: Scopes, name: Seq<char>)
    requires
        sound(s),
    ensures
        s.lookup(name) matches Some(v) ==> v.wf(),
        s.resolve(name) matches Some(rf) ==> s.contains(rf) && s.value_at(rf).wf(),
{
    lemma_resolve_contained(s, name, s.stack.len());
    match s.resolve(name) {
        Some(rf) => {
            assert(held_wf(s.nodes[rf.0 as int].value));
        },
        None => {},
    }
}

/// Writing something well-formed along a path keeps the graph sound.
pub proof fn lemma_write_sound(s: Scopes, path: MemberPath, value: ValueView)
    requires
        sound(s),
        value.wf(),
    ensures
        sound(s.write(path, value)),
        s.write(path, value).stack == s.stack,
{
    lemma_write_wf(s, path, value);
    lemma_lookup_wf(s, path.base());
    match s.record_at(path.base()) {
        Some(rf) => {
            if s.path_resolves(path) {
                let record = s.value_at(rf);
                match path {
                    MemberPath::Direct { member, .. } => {
                        lemma_with_member_wf(record, member, value);
                    },
                    MemberPath::Nested { first, member, .. } => {
                        lemma_member_wf(record, first);
                        let inner = record.member(first)->0;
                        lemma_with_member_wf(inner, member, value);
                        lemma_with_member_wf(record, first, inner.with_member(member, value));
                    },
                }
                lemma_set_value_sound(
                    s,
                    rf,
                    ScopeValueView::ConstValue(Scopes::written(record, path, value)),
                );
            }
        },
        None => {},
    }
}

/// Binding well-formed arguments keeps the graph sound and the stack as it
/// is.
pub proof fn lemma_bind_arguments_sound(
    s: StateView,
    argv: Seq<ValueView>,
    params: Seq<(Seq<char>, TypeView)>,
    ranges: Seq<Range>,
    n: nat,
)
    requires
        sound(s.scope),
        values_wf(argv),
        n <= argv.len(),
    ensures
        sound(bind_arguments(s, argv, params, ranges, n).0.scope),
        bind_arguments(s, argv, params, ranges, n).0.scope.stack == s.scope.stack,
    decreases n,
{
    if n > 0 {
        lemma_bind_arguments_sound(s, argv, params, ranges, (n - 1) as nat);
        let (before, ok) = bind_arguments(s, argv, params, ranges, (n - 1) as nat);
        let i = n - 1;
        if ok && argv[i].ty == params[i].1 {
            assert(argv[i].wf());
            lemma_bind_sound(before.scope, params[i].0, ScopeValueView::ConstValue(argv[i]));
        }
    }
}

/// Entering a call from a sound state with a well-formed callee and
/// well-formed arguments leaves a sound state; where the call is entered,
/// the callee's scope is on top of the stack and the names to return are
/// distinct and of well-formed types.
pub proof fn lemma_call_entry_sound(
    rules: Rules,
    s: StateView,
    callee: ValueView,
    argv: Seq<ValueView>,
    ranges: Seq<Range>,
    range: Range,
)
    requires
        sound(s.scope),
        callee.wf(),
        values_wf(argv),
    ensures
        match call_entry(rules, s, callee, argv, ranges, range) {
            CallEntry::Refused { state } => sound(state.scope) && stack_kept(
                s.scope.stack,
                state.scope.stack,
            ),
            CallEntry::Entered { state, return_parameters, .. } => {
                &&& sound(state.scope)
                &&& state.scope.stack.len() == s.scope.stack.len() + 1
                &&& stack_kept(s.scope.stack, state.scope.stack)
                &&& distinct_names(return_parameters)
                &&& all_types_wf(return_parameters)
            },
        },
{
    match (callee.ty, callee.kind) {
        (
            TypeView::Function { parameters, return_parameters },
            KindView::Function { body, rf },
        ) => {
            if s.scope.contains(rf) {
                let entered = StateView { scope: s.scope.push(rf), errors: s.errors };
                assert(sound(entered.scope)) by {
                    assert forall|i: int| 0 <= i < entered.scope.stack.len() implies entered.scope.contains(
                        #[trigger] entered.scope.stack[i],
                    ) by {
                        if i < s.scope.stack.len() {
                            assert(s.scope.contains(s.scope.stack[i]));
                        }
                    }
                }
                let n = shorter(argv.len(), parameters.len());
                lemma_bind_arguments_sound(entered, argv, parameters, ranges, n);
                let (bound, ok) = bind_arguments(entered, argv, parameters, ranges, n);
                if !ok && rules.strictness.release_refused_calls {
                    let popped = bound.scope.pop();
                    assert(popped.stack =~= s.scope.stack);
                    assert(sound(popped)) by {
                        assert forall|i: int| 0 <= i < popped.stack.len() implies popped.contains(
                            #[trigger] popped.stack[i],
                        ) by {
                            assert(bound.scope.contains(bound.scope.stack[i]));
                        }
                    }
                }
            }
        },
        _ => {},
    }
}

/// What a call returns under distinct names of well-formed types, read in a
/// sound graph, are well-formed members under distinct names.
pub proof fn lemma_collect_returns_wf(scope: Scopes, declared: Seq<(Seq<char>, TypeView)>, n: nat)
    requires
        sound(scope),
        all_types_wf(declared),
    ensures
        distinct_names(collect_returns(scope, declared, n)),
        all_wf(collect_returns(scope, declared, n)),
    decreases n,
{
    if n != 0 && n <= declared.len() {
        lemma_collect_returns_wf(scope, declared, (n - 1) as nat);
        let name = declared[n - 1].0;
        let ty = declared[n - 1].1;
        lemma_lookup_wf(scope, name);
        assert(ty.wf());
        lemma_default_value_wf(ty);
        lemma_put_keeps(
            collect_returns(scope, declared, (n - 1) as nat),
            name,
            returned_value(scope, name, ty),
            |v: ValueView| v.wf(),
        );
    }
}

/// Leaving a call from a sound state above the bottom of the stack leaves a
/// sound state and gives a well-formed record.
pub proof fn lemma_call_exit_sound(after: StateView, declared: Seq<(Seq<char>, TypeView)>)
    requires
        sound(after.scope),
        after.scope.stack.len() > 1,
        all_types_wf(declared),
    ensures
        sound(call_exit(after, declared).0.scope),
        call_exit(after, declared).1.wf(),
        call_exit(after, declared).0.scope.stack == after.scope.stack.drop_last(),
{
    lemma_collect_returns_wf(after.scope, declared, declared.len());
    lemma_record_instance_wf(collect_returns(after.scope, declared, declared.len()));
    let popped = after.scope.pop();
    assert forall|i: int| 0 <= i < popped.stack.len() implies popped.contains(
        #[trigger] popped.stack[i],
    ) by {
        assert(after.scope.contains(after.scope.stack[i]));
    }
}

/// Every statement, evaluated in a sound state, leaves a sound state, keeps
/// the active scopes at their places, and gives a well-formed value.
pub proof fn lemma_statement_sound(rules: Rules, s: StateView, statement: StatementView, depth: nat)
    requires
        sound(s.scope),
    ensures
        sound(eval_statement(rules, s, statement, depth).0.scope),
        stack_kept(s.scope.stack, eval_statement(rules, s, statement, depth).0.scope.stack),
        eval_statement(rules, s, statement, depth).1.wf(),
    decreases depth, statement, 0nat,
{
    match statement {
        StatementView::Declaration { ident, expr: Some(ExpressionView::Record { parameters, .. }), .. } => {
            lemma_eval_params_wf(s.scope, parameters, parameters.len());
            let members = eval_params(s.scope, parameters, parameters.len());
            lemma_bind_sound(s.scope, ident, ScopeValueView::Record { ident, members });
        },
        StatementView::Declaration {
            ident,
            expr: Some(
                ExpressionView::Function { parameters, return_parameters, body: Some(body), .. },
            ),
            ..
        } => {
            lemma_eval_params_wf(s.scope, parameters, parameters.len());
            lemma_eval_params_wf(s.scope, return_parameters, return_parameters.len());
            let ps = eval_params(s.scope, parameters, parameters.len());
            let rs = eval_params(s.scope, return_parameters, return_parameters.len());
            let nothing = ScopeValueView::ConstValue(ValueView::empty());
            lemma_bind_sound(s.scope, ident, nothing);
            let reserved = s.scope.bind(ident, nothing);
            match reserved.resolve(ident) {
                Some(rf) => {
                    let function = ValueView::func(*body, ps, rs, rf);
                    assert(function.wf());
                    lemma_bind_sound(reserved, ident, ScopeValueView::ConstValue(function));
                },
                None => {},
            }
        },
        StatementView::Declaration { ident, expr: Some(e), .. } => {
            lemma_expression_sound(rules, s, e, depth);
            let (s1, v) = eval_expression(rules, s, e, depth);
            lemma_bind_sound(s1.scope, ident, ScopeValueView::ConstValue(v));
        },
        StatementView::Declaration { expr: None, .. } => {},
        StatementView::Expression(e) => {
            lemma_expression_sound(rules, s, e, depth);
        },
        StatementView::List(items) => {
            if items.len() == 1 {
                lemma_statement_sound(rules, s, items[0], depth);
            } else {
                lemma_statements_sound(rules, s, items, items.len(), depth);
                lemma_tuple_wf(eval_statements(rules, s, items, items.len(), depth).1);
            }
        },
        StatementView::Other => {},
    }
}

/// As `lemma_statement_sound`, of a run of statements.
pub proof fn lemma_statements_sound(
    rules: Rules,
    s: StateView,
    items: Seq<StatementView>,
    n: nat,
    depth: nat,
)
    requires
        sound(s.scope),
    ensures
        sound(eval_statements(rules, s, items, n, depth).0.scope),
        stack_kept(s.scope.stack, eval_statements(rules, s, items, n, depth).0.scope.stack),
        values_wf(eval_statements(rules, s, items, n, depth).1),
    decreases depth, items, n,
{
    if n != 0 && n <= items.len() {
        lemma_statements_sound(rules, s, items, (n - 1) as nat, depth);
        let (s1, values) = eval_statements(rules, s, items, (n - 1) as nat, depth);
        lemma_statement_sound(rules, s1, items[n - 1], depth);
        let (s2, v) = eval_statement(rules, s1, items[n - 1], depth);
        assert forall|i: int| 0 <= i < values.push(v).len() implies (#[trigger] values.push(
            v,
        )[i]).wf() by {
            if i < values.len() {
                assert(values[i].wf());
            }
        }
    }
}

/// As `lemma_statement_sound`, of an expression.
pub proof fn lemma_expression_sound(
    rules: Rules,
    s: StateView,
    expression: ExpressionView,
    depth: nat,
)
    requires
        sound(s.scope),
    ensures
        sound(eval_expression(rules, s, expression, depth).0.scope),
        stack_kept(s.scope.stack, eval_expression(rules, s, expression, depth).0.scope.stack),
        eval_expression(rules, s, expression, depth).1.wf(),
    decreases depth, expression, 1nat,
{
    match expression {
        ExpressionView::Ident(name, _) => {
            lemma_lookup_wf(s.scope, name);
        },
        ExpressionView::BinaryExpression { left, op, right } => {
            lemma_binary_sound(rules, s, *left, op, *right, depth);
        },
        ExpressionView::FunctionCall { expr, args, range } => {
            lemma_expression_sound(rules, s, *expr, depth);
            let (s1, callee) = eval_expression(rules, s, *expr, depth);
            lemma_args_sound(rules, s1, args, args.len(), depth);
            let (s2, argv) = eval_args(rules, s1, args, args.len(), depth);
            if depth != 0 {
                lemma_call_entry_sound(rules, s2, callee, argv, ranges_of(args), range);
                match call_entry(rules, s2, callee, argv, ranges_of(args), range) {
                    CallEntry::Refused { state } => {},
                    CallEntry::Entered { state, body, return_parameters } => {
                        lemma_statement_sound(rules, state, body, (depth - 1) as nat);
                        let (after, _) = eval_statement(rules, state, body, (depth - 1) as nat);
                        lemma_call_exit_sound(after, return_parameters);
                    },
                }
            }
        },
        _ => {},
    }
}

/// As `lemma_statement_sound`, of the arguments of a call.
pub proof fn lemma_args_sound(
    rules: Rules,
    s: StateView,
    args: Seq<ExpressionView>,
    n: nat,
    depth: nat,
)
    requires
        sound(s.scope),
    ensures
        sound(eval_args(rules, s, args, n, depth).0.scope),
        stack_kept(s.scope.stack, eval_args(rules, s, args, n, depth).0.scope.stack),
        values_wf(eval_args(rules, s, args, n, depth).1),
    decreases depth, args, n,
{
    if n != 0 && n <= args.len() {
        lemma_args_sound(rules, s, args, (n - 1) as nat, depth);
        let (s1, values) = eval_args(rules, s, args, (n - 1) as nat, depth);
        lemma_expression_sound(rules, s1, args[n - 1], depth);
        let (s2, v) = eval_expression(rules, s1, args[n - 1], depth);
        assert forall|i: int| 0 <= i < values.push(v).len() implies (#[trigger] values.push(
            v,
        )[i]).wf() by {
            if i < values.len() {
                assert(values[i].wf());
            }
        }
    }
}

/// As `lemma_statement_sound`, of a binary expression.
pub proof fn lemma_binary_sound(
    rules: Rules,
    s: StateView,
    left: ExpressionView,
    op: Operator,
    right: ExpressionView,
    depth: nat,
)
    requires
        sound(s.scope),
    ensures
        sound(eval_binary(rules, s, left, op, right, depth).0.scope),
        stack_kept(s.scope.stack, eval_binary(rules, s, left, op, right, depth).0.scope.stack),
        eval_binary(rules, s, left, op, right, depth).1.wf(),
    decreases depth, binary_node(left, op, right), 0nat,
{
    let node = binary_node(left, op, right);
    assert(decreases_to!(node => node->left));
    assert(decreases_to!(node => node->right));
    match (op, left) {
        (Operator::Equals, ExpressionView::Ident(name, _)) => {
            lemma_expression_sound(rules, s, right, depth);
            let (s1, v) = eval_expression(rules, s, right, depth);
            lemma_bind_sound(s1.scope, name, ScopeValueView::ConstValue(v));
        },
        (
            Operator::Equals,
            ExpressionView::BinaryExpression { left: target, op: Operator::Dot, right: member },
        ) => {
            lemma_expression_sound(rules, s, right, depth);
            let (s1, v) = eval_expression(rules, s, right, depth);
            match member_path(*target, *member) {
                Some(path) => {
                    lemma_write_sound(s1.scope, path, v);
                },
                None => {},
            }
        },
        _ => {
            if op == Operator::Dot {
                lemma_expression_sound(rules, s, left, depth);
                let (s1, record) = eval_expression(rules, s, left, depth);
                match right {
                    ExpressionView::Ident(member, _) => {
                        lemma_member_wf(record, member);
                    },
                    _ => {},
                }
            } else {
                lemma_expression_sound(rules, s, left, depth);
                let (s1, l) = eval_expression(rules, s, left, depth);
                lemma_expression_sound(rules, s1, right, depth);
            }
        },
    }
}

} // verus!
