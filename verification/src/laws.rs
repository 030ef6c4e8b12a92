//! Laws of the language: statements that hold of every state and every
//! program, proved from the mathematical description.

use vstd::prelude::*;
use crate::arithmetic::integer_result;
use crate::ast::{ExpressionView, Operator, Range, StatementView};
use crate::const_value::{field_index, lemma_field_index, KindView, TypeView, ValueView};
use crate::error::{ErrorKindView, ErrorView};
use crate::linked::lemma_same_names_same_index;
use crate::scope::{
    lemma_bind_resolves, lemma_bind_wf, lemma_resolve_contained, lemma_resolve_same_frames,
    MemberPath, ScopeRef, ScopeValueView, ScopeView, Scopes,
};
use crate::semantics::{
    arithmetic, bind_arguments, binary_node, call_entry, eval_binary, eval_expression, fail,
    shorter, CallEntry, Rules, StateView,
};

verus! {

/// Binding after a push goes to the pushed scope, and only where it must.
///
/// Let a scope be pushed and a name be bound. If the name resolves through
/// an active scope, the node it resolves to gets the value, no node is made
/// and no scope gets or loses a child. If it does not, exactly one node is
/// made; it becomes the child of that name of the pushed scope, and every
/// other node stays as it was.
pub proof fn law_bind_after_push(s: Scopes, frame: ScopeRef, name: Seq<char>, value: ScopeValueView)
    requires
        s.wf(),
        s.contains(frame),
    ensures
        ({
            let pushed = s.push(frame);
            let after = pushed.bind(name, value);
            &&& after.stack == pushed.stack
            &&& match pushed.resolve(name) {
                Some(rf) => {
                    &&& s.contains(rf)
                    &&& after.nodes.len() == s.nodes.len()
                    &&& after.nodes[rf.0 as int].value == value
                    &&& forall|i: int|
                        0 <= i < s.nodes.len() ==> (#[trigger] after.nodes[i]).children
                            == s.nodes[i].children
                    &&& forall|i: int|
                        0 <= i < s.nodes.len() && i != rf.0 ==> #[trigger] after.nodes[i]
                            == s.nodes[i]
                },
                None => {
                    &&& after.nodes.len() == s.nodes.len() + 1
                    &&& after.nodes[frame.0 as int].children == s.nodes[frame.0 as int].children.insert(
                        name,
                        s.next_ref(),
                    )
                    &&& after.nodes[frame.0 as int].value == s.nodes[frame.0 as int].value
                    &&& after.nodes[s.nodes.len() as int] == (ScopeView {
                        value,
                        children: Map::empty(),
                    })
                    &&& forall|i: int|
                        0 <= i < s.nodes.len() && i != frame.0 ==> #[trigger] after.nodes[i]
                            == s.nodes[i]
                },
            }
        }),
{
    let pushed = s.push(frame);
    assert(pushed.wf()) by {
        assert forall|i: int| 0 <= i < pushed.stack.len() implies pushed.contains(
            #[trigger] pushed.stack[i],
        ) by {
            if i < s.stack.len() {
                assert(s.contains(s.stack[i]));
            }
        }
    }
    lemma_resolve_contained(pushed, name, pushed.stack.len());
    assert(pushed.stack.last() == frame);
}

/// Entering and leaving a scope leaves everything as it was: popping gives
/// back the scope that was pushed last, and destroys no node.
pub proof fn law_push_then_pop(s: Scopes, frame: ScopeRef)
    ensures
        s.push(frame).pop() == s,
        s.push(frame).stack.last() == frame,
        s.push(frame).nodes == s.nodes,
{
    assert(s.push(frame).pop().stack =~= s.stack);
}

/// A name is bound in one node: the first binding makes the node, and every
/// later binding of the name overwrites that node in place.
pub proof fn law_rebinding_overwrites_in_place(
    s: Scopes,
    name: Seq<char>,
    first: ScopeValueView,
    second: ScopeValueView,
)
    requires
        s.wf(),
        s.nodes.len() < usize::MAX,
    ensures
        ({
            let once = s.bind(name, first);
            let twice = once.bind(name, second);
            &&& twice.resolve(name) == once.resolve(name)
            &&& twice.nodes.len() == once.nodes.len()
            &&& once.resolve(name) matches Some(rf) && once.nodes[rf.0 as int].value == first
                && twice == once.set_value(rf, second) && twice.nodes[rf.0 as int].value
                == second
        }),
{
    let once = s.bind(name, first);
    lemma_bind_resolves(s, name, first);
    lemma_bind_wf(s, name, first);
    lemma_resolve_contained(once, name, once.stack.len());
    lemma_bind_resolves(once, name, second);
}

/// A function runs in the node of its own name: after the declaration of a
/// function with a body, the name resolves to a node that holds a function
/// value, and the scope that this value carries is that same node.
pub proof fn law_function_captures_its_own_node(
    rules: Rules,
    s: StateView,
    ident: Seq<char>,
    parameters: Seq<crate::ast::ParameterView>,
    return_parameters: Seq<crate::ast::ParameterView>,
    body: StatementView,
    range: Range,
    depth: nat,
)
    requires
        s.scope.wf(),
        s.scope.nodes.len() < usize::MAX,
    ensures
        ({
            let declaration = StatementView::Declaration {
                ident,
                ty: None,
                expr: Some(
                    ExpressionView::Function {
                        parameters,
                        return_parameters,
                        body: Some(Box::new(body)),
                        range,
                    },
                ),
            };
            let (after, value) = crate::semantics::eval_statement(rules, s, declaration, depth);
            &&& value == ValueView::empty()
            &&& after.errors == s.errors
            &&& after.scope.resolve(ident) matches Some(rf) && after.scope.nodes[rf.0 as int].value
                == ScopeValueView::ConstValue(
                ValueView::func(
                    body,
                    crate::semantics::eval_params(s.scope, parameters, parameters.len()),
                    crate::semantics::eval_params(
                        s.scope,
                        return_parameters,
                        return_parameters.len(),
                    ),
                    rf,
                ),
            )
        }),
{
    let reserved = s.scope.bind(ident, ScopeValueView::ConstValue(ValueView::empty()));
    lemma_bind_resolves(s.scope, ident, ScopeValueView::ConstValue(ValueView::empty()));
    lemma_bind_wf(s.scope, ident, ScopeValueView::ConstValue(ValueView::empty()));
    let rf = reserved.resolve(ident)->0;
    lemma_resolve_contained(reserved, ident, reserved.stack.len());
    let function = ScopeValueView::ConstValue(
        ValueView::func(
            body,
            crate::semantics::eval_params(s.scope, parameters, parameters.len()),
            crate::semantics::eval_params(s.scope, return_parameters, return_parameters.len()),
            rf,
        ),
    );
    lemma_bind_resolves(reserved, ident, function);
}

/// Two literals of one family stay a literal: arithmetic on two integer
/// literals has an integer literal's type, and on two float literals a
/// float literal's.
pub proof fn law_literals_stay_literals(
    fl: spec_fn(Operator, u64, u64) -> u64,
    op: Operator,
    a: u64,
    b: u64,
)
    ensures
        arithmetic(fl, op, ValueView::cinteger(a), ValueView::cinteger(b)) == match integer_result(
            op,
            a,
            b,
        ) {
            Some(value) => ValueView::cinteger(value),
            None => ValueView::empty(),
        },
        crate::arithmetic::is_arithmetic(op) ==> arithmetic(
            fl,
            op,
            ValueView::cfloat(a),
            ValueView::cfloat(b),
        ) == ValueView::cfloat(fl(op, a, b)),
{
}

/// A name that is no child of an active scope is not seen, whatever the
/// rest of the graph holds: it does not resolve, and it evaluates to the
/// empty value. A lenient evaluator leaves the state as it is; one that
/// reports failures records that the name is unresolved, and nothing else.
///
/// So a callee sees the names of its own scope, of the root, and of every
/// other scope that is active while it runs, and never a name that lives
/// only in a scope that is not active.
pub proof fn law_inactive_scopes_are_invisible(
    rules: Rules,
    s: StateView,
    name: Seq<char>,
    range: Range,
    depth: nat,
)
    requires
        forall|i: int|
            0 <= i < s.scope.stack.len() ==> !s.scope.nodes[(#[trigger] s.scope.stack[i]).0 as int].children.contains_key(
                name,
            ),
    ensures
        s.scope.resolve(name) is None,
        eval_expression(rules, s, ExpressionView::Ident(name, range), depth).1
            == ValueView::empty(),
        eval_expression(rules, s, ExpressionView::Ident(name, range), depth).0.scope == s.scope,
        eval_expression(rules, s, ExpressionView::Ident(name, range), depth).0.errors
            == if rules.strictness.report_failures {
            s.errors.push(ErrorView { kind: ErrorKindView::UnresolvedIdentifier, range })
        } else {
            s.errors
        },
{
    lemma_unseen_below(s.scope, name, s.scope.stack.len());
}

/// A name that is no child of the searched scopes does not resolve.
proof fn lemma_unseen_below(s: Scopes, name: Seq<char>, depth: nat)
    requires
        depth <= s.stack.len(),
        forall|i: int|
            0 <= i < s.stack.len() ==> !s.nodes[(#[trigger] s.stack[i]).0 as int].children.contains_key(
                name,
            ),
    ensures
        s.resolve_below(name, depth) is None,
    decreases depth,
{
    if depth > 0 {
        let top = s.stack[depth - 1];
        lemma_unseen_below(s, name, (depth - 1) as nat);
    }
}

/// Arithmetic on two integer literals changes nothing: in every state, and
/// however often it is evaluated, it leaves the state as it was and has the
/// literal of the result; one plus two is three. Where there is no result,
/// for a division by zero and for an operator that is no arithmetic, the
/// value is empty, and only an evaluator that reports failures records
/// something.
pub proof fn law_literal_arithmetic_is_pure(
    rules: Rules,
    s: StateView,
    left: u64,
    op: Operator,
    right: u64,
    left_range: Range,
    right_range: Range,
    depth: nat,
)
    ensures
        ({
            let evaluated = eval_binary(
                rules,
                s,
                ExpressionView::Integer(left, left_range),
                op,
                ExpressionView::Integer(right, right_range),
                depth,
            );
            &&& evaluated.0.scope == s.scope
            &&& match integer_result(op, left, right) {
                Some(value) => evaluated == (s, ValueView::cinteger(value)),
                None => evaluated.1 == ValueView::empty() && (!rules.strictness.report_failures
                    ==> evaluated.0 == s),
            }
        }),
        integer_result(Operator::Plus, 1, 2) == Some(3u64),
{
}

/// Where a sized integer meets an integer literal, the result has the width
/// and signedness of the sized operand, on whichever side that stands; the
/// same holds of floats and their width.
pub proof fn law_sized_operand_decides(
    fl: spec_fn(Operator, u64, u64) -> u64,
    op: Operator,
    a: u64,
    b: u64,
    width: u8,
    signed: bool,
)
    ensures
        arithmetic(fl, op, ValueView::integer(a, width, signed), ValueView::cinteger(b))
            == match integer_result(op, a, b) {
            Some(value) => ValueView::integer(value, width, signed),
            None => ValueView::empty(),
        },
        arithmetic(fl, op, ValueView::cinteger(a), ValueView::integer(b, width, signed))
            == match integer_result(op, a, b) {
            Some(value) => ValueView::integer(value, width, signed),
            None => ValueView::empty(),
        },
        crate::arithmetic::is_arithmetic(op) ==> arithmetic(
            fl,
            op,
            ValueView::float(a, width),
            ValueView::cfloat(b),
        ) == ValueView::float(fl(op, a, b), width) && arithmetic(
            fl,
            op,
            ValueView::cfloat(a),
            ValueView::float(b, width),
        ) == ValueView::float(fl(op, a, b), width),
{
}

/// A member that was assigned is read back from the same binding.
///
/// Let `record` be bound to a record instance that has a member `member`.
/// Then `record.member = n` has the value of the literal `n`, makes no node
/// and rebinds no name, and `record.member` read in the state it leaves has
/// the value of `n` again and leaves that state as it is.
pub proof fn law_member_write_then_read(
    rules: Rules,
    s: StateView,
    record: Seq<char>,
    member: Seq<char>,
    n: u64,
    range: Range,
    depth: nat,
)
    requires
        s.scope.wf(),
        s.scope.record_at(record) matches Some(rf) && s.scope.value_at(rf).member(member) is Some,
    ensures
        ({
            let target = binary_node(
                ExpressionView::Ident(record, range),
                Operator::Dot,
                ExpressionView::Ident(member, range),
            );
            let (s1, written) = eval_binary(
                rules,
                s,
                target,
                Operator::Equals,
                ExpressionView::Integer(n, range),
                depth,
            );
            let (s2, read) = eval_binary(
                rules,
                s1,
                ExpressionView::Ident(record, range),
                Operator::Dot,
                ExpressionView::Ident(member, range),
                depth,
            );
            &&& written == ValueView::cinteger(n)
            &&& read == ValueView::cinteger(n)
            &&& s2 == s1
            &&& s1.errors == s.errors
            &&& s1.scope.nodes.len() == s.scope.nodes.len()
            &&& s1.scope.stack == s.scope.stack
            &&& s1.scope.resolve(record) == s.scope.resolve(record)
        }),
{
    let rf = s.scope.record_at(record)->0;
    let v = ValueView::cinteger(n);
    let path = MemberPath::Direct { base: record, member };
    let before = s.scope.value_at(rf);
    let after = before.with_member(member, v);
    let s1 = StateView { scope: s.scope.write(path, v), errors: s.errors };
    lemma_resolve_contained(s.scope, record, s.scope.stack.len());
    assert forall|i: int| 0 <= i < s.scope.stack.len() implies s1.scope.contains(
        s.scope.stack[i],
    ) && s1.scope.nodes[s.scope.stack[i].0 as int].children
        == s.scope.nodes[s.scope.stack[i].0 as int].children by {
        assert(s.scope.contains(s.scope.stack[i]));
    }
    lemma_resolve_same_frames(s.scope, s1.scope, record, s.scope.stack.len());
    assert(s1.scope.resolve(record) == Some(rf));
    let members = before.kind->RecordInstance_members;
    lemma_field_index(members, member);
    let i = field_index(members, member)->0;
    let updated = members.update(i, (members[i].0, v));
    assert forall|j: int| 0 <= j < members.len() implies members[j].0 == updated[j].0 by {}
    lemma_same_names_same_index(members, updated, member);
    assert(after.member(member) == Some(v));
    assert(s1.scope.lookup(record) == Some(after));
}

/// An assignment to a member that is not there is no assignment.
///
/// Let `record` be bound to a record instance that has no member `member`.
/// Then `record.member = n` has the empty value, writes nothing and makes no
/// member; an evaluator that reports failures records the member access at
/// the range of the target, and a lenient one records nothing.
pub proof fn law_missing_member_is_not_assigned(
    rules: Rules,
    s: StateView,
    record: Seq<char>,
    member: Seq<char>,
    n: u64,
    record_range: Range,
    member_range: Range,
    range: Range,
    depth: nat,
)
    requires
        s.scope.record_at(record) matches Some(rf) && s.scope.value_at(rf).member(member) is None,
    ensures
        ({
            let target = binary_node(
                ExpressionView::Ident(record, record_range),
                Operator::Dot,
                ExpressionView::Ident(member, member_range),
            );
            let (after, value) = eval_binary(
                rules,
                s,
                target,
                Operator::Equals,
                ExpressionView::Integer(n, range),
                depth,
            );
            &&& value == ValueView::empty()
            &&& after.scope == s.scope
            &&& after.errors == if rules.strictness.report_failures {
                s.errors.push(
                    ErrorView {
                        kind: ErrorKindView::UnrecognizedMemberAccess,
                        range: Range { start: record_range.start, end: member_range.end },
                    },
                )
            } else {
                s.errors
            }
        }),
{
    reveal_with_fuel(ExpressionView::range, 2);
    let path = MemberPath::Direct { base: record, member };
    assert(!s.scope.path_resolves(path));
    assert(crate::scope::member_path(
        ExpressionView::Ident(record, record_range),
        ExpressionView::Ident(member, member_range),
    ) == Some(path));
}

/// Binding arguments that all have their parameters' types succeeds; it
/// records nothing and leaves the active scopes as they are.
pub proof fn lemma_bind_arguments_matching(
    s: StateView,
    argv: Seq<ValueView>,
    params: Seq<(Seq<char>, TypeView)>,
    ranges: Seq<Range>,
    n: nat,
)
    requires
        forall|j: int| 0 <= j < n ==> (#[trigger] argv[j]).ty == params[j].1,
    ensures
        bind_arguments(s, argv, params, ranges, n).1,
        bind_arguments(s, argv, params, ranges, n).0.errors == s.errors,
        bind_arguments(s, argv, params, ranges, n).0.scope.stack == s.scope.stack,
    decreases n,
{
    if n > 0 {
        lemma_bind_arguments_matching(s, argv, params, ranges, (n - 1) as nat);
        assert(argv[n - 1].ty == params[n - 1].1);
    }
}

/// A call runs in the callee's own scope: entering a call of a function
/// value makes the scope that the value carries the innermost active one,
/// above the scopes that were active, and records nothing.
pub proof fn law_call_runs_in_captured_scope(
    rules: Rules,
    s: StateView,
    callee: ValueView,
    argv: Seq<ValueView>,
    ranges: Seq<Range>,
    range: Range,
)
    requires
        call_entry(rules, s, callee, argv, ranges, range) is Entered,
    ensures
        callee.kind is Function,
        call_entry(rules, s, callee, argv, ranges, range)->Entered_state.scope.stack
            == s.scope.stack.push(callee.kind->Function_rf),
        call_entry(rules, s, callee, argv, ranges, range)->Entered_state.errors == s.errors,
        call_entry(rules, s, callee, argv, ranges, range)->Entered_body
            == callee.kind->Function_body,
{
    let parameters = callee.ty->Function_parameters;
    let rf = callee.kind->Function_rf;
    let entered = StateView { scope: s.scope.push(rf), errors: s.errors };
    lemma_bind_arguments_ok(
        entered,
        argv,
        parameters,
        ranges,
        shorter(argv.len(), parameters.len()),
    );
}

/// Binding that succeeds records nothing and leaves the active scopes as
/// they are.
proof fn lemma_bind_arguments_ok(
    s: StateView,
    argv: Seq<ValueView>,
    params: Seq<(Seq<char>, TypeView)>,
    ranges: Seq<Range>,
    n: nat,
)
    ensures
        bind_arguments(s, argv, params, ranges, n).0.scope.stack == s.scope.stack,
        bind_arguments(s, argv, params, ranges, n).1 ==> bind_arguments(
            s,
            argv,
            params,
            ranges,
            n,
        ).0.errors == s.errors,
    decreases n,
{
    if n > 0 {
        lemma_bind_arguments_ok(s, argv, params, ranges, (n - 1) as nat);
    }
}

/// The first argument of another type than its parameter is recorded, and
/// nothing else is.
///
/// Let the arguments before position `k` have their parameters' types and
/// the argument at `k` another. Then the call is refused, exactly one error
/// is added to those recorded before, and it is the mismatch of the two
/// types at the range of that argument. The callee's scope stays active
/// above the scopes that were active, unless the strictness asks for its
/// release: then the active scopes are those that were active.
pub proof fn law_mismatch_records_one_error(
    rules: Rules,
    s: StateView,
    body: StatementView,
    parameters: Seq<(Seq<char>, TypeView)>,
    return_parameters: Seq<(Seq<char>, TypeView)>,
    rf: ScopeRef,
    argv: Seq<ValueView>,
    ranges: Seq<Range>,
    range: Range,
    k: nat,
)
    requires
        s.scope.contains(rf),
        k < argv.len(),
        k < parameters.len(),
        forall|j: int| 0 <= j < k ==> (#[trigger] argv[j]).ty == parameters[j].1,
        argv[k as int].ty != parameters[k as int].1,
    ensures
        ({
            let callee = ValueView::func(body, parameters, return_parameters, rf);
            let entry = call_entry(rules, s, callee, argv, ranges, range);
            &&& entry is Refused
            &&& entry->Refused_state.errors == s.errors.push(
                ErrorView {
                    kind: ErrorKindView::TypeMismatch(argv[k as int].ty, parameters[k as int].1),
                    range: ranges[k as int],
                },
            )
            &&& entry->Refused_state.scope.stack == if rules.strictness.release_refused_calls {
                s.scope.stack
            } else {
                s.scope.stack.push(rf)
            }
        }),
{
    let entered = StateView { scope: s.scope.push(rf), errors: s.errors };
    let n = shorter(argv.len(), parameters.len());
    lemma_bind_arguments_matching(entered, argv, parameters, ranges, k);
    let at_k = bind_arguments(entered, argv, parameters, ranges, k);
    let stopped = bind_arguments(entered, argv, parameters, ranges, k + 1);
    assert(!stopped.1);
    assert(stopped.0.errors == at_k.0.errors.push(
        ErrorView {
            kind: ErrorKindView::TypeMismatch(argv[k as int].ty, parameters[k as int].1),
            range: ranges[k as int],
        },
    ));
    crate::semantics::lemma_bind_arguments_stops(entered, argv, parameters, ranges, k + 1, n);
    assert(s.scope.stack.push(rf).drop_last() =~= s.scope.stack);
}

} // verus!
