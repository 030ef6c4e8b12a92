use linked_hash_map::LinkedHashMap;
use xlang_vm::ast::{
    Expression, Module, Operator, Parameter, Position, Range, Statement, TypeName,
};
use xlang_vm::const_value::{ConstValue, ConstValueKind, Type};
use xlang_vm::error::{EvaluationError, EvaluationErrorKind};
use xlang_vm::evaluator::Evaluator;
use xlang_vm::scope::{Scope, ScopeManager, ScopeRef, ScopeValue};
use xlang_vm::strictness::Strictness;

type FloatUnit = fn(Operator, u64, u64) -> u64;

fn float_unit(op: Operator, a: u64, b: u64) -> u64 {
    let (x, y) = (f64::from_bits(a), f64::from_bits(b));
    let r = match op {
        Operator::Plus => x + y,
        Operator::Minus => x - y,
        Operator::Multiply => x * y,
        Operator::Divide => x / y,
        Operator::Exponent => x.powf(y),
        _ => f64::NAN,
    };
    r.to_bits()
}

fn at(line: u32, from: u32, to: u32) -> Range {
    Range { start: Position { line, column: from }, end: Position { line, column: to } }
}

fn here() -> Range {
    at(0, 0, 0)
}

fn lit(bits: u64) -> Expression {
    Expression::Integer(bits, here())
}

fn flit(value: f64) -> Expression {
    Expression::Float(value.to_bits(), here())
}

fn ident(name: &str) -> Expression {
    Expression::Ident(name.to_string(), here())
}

fn binary(left: Expression, op: Operator, right: Expression) -> Expression {
    Expression::BinaryExpression { left: Box::new(left), op, right: Box::new(right) }
}

fn call(callee: Expression, args: Vec<Expression>) -> Expression {
    Expression::FunctionCall { expr: Box::new(callee), args, range: here() }
}

fn i32_type() -> TypeName {
    TypeName::Integer { width: 32, signed: true }
}

fn param(name: &str, ty: TypeName) -> Parameter {
    Parameter { name: Some(name.to_string()), ty: Some(ty) }
}

fn function(
    parameters: Vec<Parameter>,
    return_parameters: Vec<Parameter>,
    body: Vec<Statement>,
) -> Expression {
    Expression::Function {
        parameters,
        return_parameters,
        body: Some(Box::new(Statement::List(body))),
        range: here(),
    }
}

fn declare(name: &str, expr: Expression) -> Statement {
    Statement::Declaration { ident: name.to_string(), ty: None, expr: Some(expr) }
}

fn assign(name: &str, expr: Expression) -> Statement {
    Statement::Expression(binary(ident(name), Operator::Equals, expr))
}

fn evaluator(stmts: Vec<Statement>) -> Evaluator<FloatUnit> {
    let manager = ScopeManager::new(Scope::new(ScopeValue::Module));
    Evaluator::new(Module { stmts }, manager, float_unit as FloatUnit)
}

fn i32_value(value: u64) -> ConstValue {
    ConstValue::integer(value, 32, true)
}

fn bind(e: &mut Evaluator<FloatUnit>, name: &str, value: ConstValue) {
    e.state.scope.update_value(name, ScopeValue::ConstValue(value));
}

fn bound(e: &Evaluator<FloatUnit>, name: &str) -> Option<ConstValue> {
    let rf = e.state.scope.find_symbol(name)?;
    match &e.state.scope.get(rf)?.value {
        ScopeValue::ConstValue(v) => Some(v.clone()),
        _ => None,
    }
}

fn record(members: Vec<(&str, ConstValue)>) -> ConstValue {
    let mut map = LinkedHashMap::new();
    for (name, value) in members {
        map.insert(name.to_string(), value);
    }
    ConstValue::record_instance(map)
}

fn strict(stmts: Vec<Statement>) -> Evaluator<FloatUnit> {
    evaluator(stmts).with_strictness(Strictness::strict())
}

fn failure(kind: EvaluationErrorKind, range: Range) -> EvaluationError {
    EvaluationError { kind, range }
}

#[test]
fn literal_addition_is_repeatable_and_leaves_the_scopes_alone() {
    let mut e = evaluator(vec![]);
    let sum = binary(lit(1), Operator::Plus, lit(2));
    let first = e.evaluate_expression(&sum);
    let second = e.evaluate_expression(&sum);
    assert_eq!(first, ConstValue::cinteger(3));
    assert_eq!(second, ConstValue::cinteger(3));
    assert_eq!(e.state.scope.len(), 1);
    assert_eq!(e.state.scope.depth(), 1);
    assert!(e.state.errors.is_empty());
}

#[test]
fn sized_operand_decides_the_type_in_either_position() {
    let mut e = evaluator(vec![]);
    bind(&mut e, "a", i32_value(5));
    let left = e.evaluate_expression(&binary(ident("a"), Operator::Plus, lit(2)));
    let right = e.evaluate_expression(&binary(lit(2), Operator::Plus, ident("a")));
    assert_eq!(left, i32_value(7));
    assert_eq!(right, i32_value(7));
    let unsigned = ConstValue::integer(9, 8, false);
    bind(&mut e, "b", unsigned);
    let r = e.evaluate_expression(&binary(lit(3), Operator::Multiply, ident("b")));
    assert_eq!(r, ConstValue::integer(27, 8, false));
}

#[test]
fn two_sized_integers_do_not_combine() {
    let mut e = evaluator(vec![]);
    bind(&mut e, "a", i32_value(5));
    bind(&mut e, "b", i32_value(6));
    let r = e.evaluate_expression(&binary(ident("a"), Operator::Plus, ident("b")));
    assert_eq!(r, ConstValue::empty());
}

fn point_program() -> Vec<Statement> {
    vec![
        declare(
            "Point",
            Expression::Record {
                parameters: vec![param("x", i32_type()), param("y", i32_type())],
                range: here(),
            },
        ),
        declare(
            "mk",
            function(
                vec![param("a", i32_type()), param("b", i32_type())],
                vec![param("x", i32_type()), param("y", i32_type())],
                vec![assign("x", ident("a")), assign("y", ident("b"))],
            ),
        ),
    ]
}

#[test]
fn call_returns_a_record_of_the_declared_names() {
    let mut stmts = point_program();
    stmts.push(declare("p", call(ident("mk"), vec![ident("one"), ident("two")])));
    let mut e = evaluator(stmts);
    bind(&mut e, "one", i32_value(1));
    bind(&mut e, "two", i32_value(2));
    let values = e.evaluate();
    assert_eq!(values, vec![ConstValue::empty(), ConstValue::empty(), ConstValue::empty()]);
    assert!(e.state.errors.is_empty());
    assert_eq!(e.state.scope.depth(), 1);
    let p = bound(&e, "p").unwrap();
    assert_eq!(p, record(vec![("x", i32_value(1)), ("y", i32_value(2))]));
    assert_eq!(
        p.ty,
        Type::RecordInstance {
            members: vec![
                ("x".to_string(), Type::Integer { width: 32, signed: true }),
                ("y".to_string(), Type::Integer { width: 32, signed: true }),
            ],
        }
    );
}

#[test]
fn record_declaration_binds_its_fields_in_order() {
    let mut e = evaluator(point_program());
    e.evaluate();
    let rf = e.state.scope.find_symbol("Point").unwrap();
    match &e.state.scope.get(rf).unwrap().value {
        ScopeValue::Record { ident, members } => {
            assert_eq!(ident, "Point");
            let fields: Vec<(String, Type)> =
                members.iter().map(|(k, v)| (k.clone(), v.clone())).collect();
            assert_eq!(
                fields,
                vec![
                    ("x".to_string(), Type::Integer { width: 32, signed: true }),
                    ("y".to_string(), Type::Integer { width: 32, signed: true }),
                ]
            );
        }
        other => panic!("no record declaration: {:?}", other),
    }
}

#[test]
fn literal_argument_for_a_sized_parameter_is_a_mismatch() {
    let mut stmts = point_program();
    stmts.push(declare("p", call(ident("mk"), vec![lit(1), lit(2)])));
    let mut e = evaluator(stmts);
    e.evaluate();
    assert_eq!(bound(&e, "p"), Some(ConstValue::empty()));
    assert_eq!(
        e.state.errors,
        vec![EvaluationError {
            kind: EvaluationErrorKind::TypeMismatch(
                Type::CoercibleInteger,
                Type::Integer { width: 32, signed: true },
            ),
            range: here(),
        }]
    );
}

#[test]
fn member_assignment_changes_the_binding_in_place() {
    let mut e = evaluator(vec![]);
    bind(&mut e, "p", record(vec![("x", i32_value(1)), ("y", i32_value(2))]));
    let nodes = e.state.scope.len();
    let written = e.evaluate_expression(&binary(
        binary(ident("p"), Operator::Dot, ident("x")),
        Operator::Equals,
        lit(10),
    ));
    assert_eq!(written, ConstValue::cinteger(10));
    let read = e.evaluate_expression(&binary(ident("p"), Operator::Dot, ident("x")));
    assert_eq!(read, ConstValue::cinteger(10));
    let other = e.evaluate_expression(&binary(ident("p"), Operator::Dot, ident("y")));
    assert_eq!(other, i32_value(2));
    assert_eq!(e.state.scope.len(), nodes);
}

#[test]
fn nested_member_assignment_reaches_the_inner_record() {
    let mut e = evaluator(vec![]);
    let inner = record(vec![("c", i32_value(1))]);
    bind(&mut e, "a", record(vec![("b", inner), ("d", i32_value(4))]));
    let target = binary(binary(ident("a"), Operator::Dot, ident("b")), Operator::Dot, ident("c"));
    let written = e.evaluate_expression(&binary(target, Operator::Equals, lit(7)));
    assert_eq!(written, ConstValue::cinteger(7));
    let a = bound(&e, "a").unwrap();
    match a.kind {
        ConstValueKind::RecordInstance { members } => {
            assert_eq!(members[0].0, "b");
            match &members[0].1.kind {
                ConstValueKind::RecordInstance { members: inner } => {
                    assert_eq!(inner[0], ("c".to_string(), ConstValue::cinteger(7)));
                }
                other => panic!("no record: {:?}", other),
            }
            assert_eq!(members[1], ("d".to_string(), i32_value(4)));
        }
        other => panic!("no record: {:?}", other),
    }
}

#[test]
fn member_assignment_to_something_unbound_is_empty() {
    let mut e = evaluator(vec![]);
    bind(&mut e, "n", i32_value(1));
    let on_unbound = binary(binary(ident("q"), Operator::Dot, ident("x")), Operator::Equals, lit(1));
    assert_eq!(e.evaluate_expression(&on_unbound), ConstValue::empty());
    let on_number = binary(binary(ident("n"), Operator::Dot, ident("x")), Operator::Equals, lit(1));
    assert_eq!(e.evaluate_expression(&on_number), ConstValue::empty());
    assert_eq!(bound(&e, "n"), Some(i32_value(1)));
    assert!(e.state.errors.is_empty());
}

#[test]
fn member_assignment_to_a_missing_member_is_empty_and_changes_nothing() {
    let mut e = evaluator(vec![]);
    bind(&mut e, "p", record(vec![("x", i32_value(1))]));
    let target = binary(ident("p"), Operator::Dot, ident("z"));
    let r = e.evaluate_expression(&binary(target, Operator::Equals, lit(3)));
    assert_eq!(r, ConstValue::empty());
    assert_eq!(bound(&e, "p"), Some(record(vec![("x", i32_value(1))])));
    assert!(e.state.errors.is_empty());
    let mut careful = strict(vec![]);
    bind(&mut careful, "p", record(vec![("x", i32_value(1))]));
    let target = binary(
        Expression::Ident("p".to_string(), at(1, 0, 1)),
        Operator::Dot,
        Expression::Ident("z".to_string(), at(1, 2, 3)),
    );
    let r = careful.evaluate_expression(&binary(target, Operator::Equals, lit(3)));
    assert_eq!(r, ConstValue::empty());
    assert_eq!(
        careful.state.errors,
        vec![failure(EvaluationErrorKind::UnrecognizedMemberAccess, at(1, 0, 3))]
    );
    assert_eq!(bound(&careful, "p"), Some(record(vec![("x", i32_value(1))])));
}

#[test]
fn member_read_of_a_missing_member_is_empty() {
    let mut e = evaluator(vec![]);
    bind(&mut e, "p", record(vec![("x", i32_value(1))]));
    let r = e.evaluate_expression(&binary(ident("p"), Operator::Dot, ident("z")));
    assert_eq!(r, ConstValue::empty());
    let r = e.evaluate_expression(&binary(lit(1), Operator::Dot, ident("z")));
    assert_eq!(r, ConstValue::empty());
}

#[test]
fn callee_does_not_see_names_of_a_scope_that_is_not_active() {
    let stmts = vec![
        declare("g", function(vec![], vec![], vec![assign("c", lit(1))])),
        Statement::Expression(call(ident("g"), vec![])),
        declare(
            "f",
            function(vec![], vec![param("r", i32_type())], vec![assign("r", ident("c"))]),
        ),
        declare("out", call(ident("f"), vec![])),
    ];
    let mut e = evaluator(stmts);
    e.evaluate();
    assert_eq!(bound(&e, "c"), None);
    let g = e.state.scope.find_symbol("g").unwrap();
    let c = *e.state.scope.get(g).unwrap().children.get("c").unwrap();
    assert_eq!(e.state.scope.get(c).unwrap().value, ScopeValue::ConstValue(ConstValue::cinteger(1)));
    assert_eq!(bound(&e, "out"), Some(record(vec![("r", ConstValue::empty())])));
    assert!(e.state.errors.is_empty());
}

#[test]
fn callee_sees_names_of_every_scope_that_is_still_active() {
    let stmts = vec![
        declare(
            "f",
            function(vec![], vec![param("r", i32_type())], vec![assign("r", ident("c"))]),
        ),
        declare(
            "g",
            function(
                vec![],
                vec![param("got", i32_type())],
                vec![assign("c", lit(1)), assign("got", call(ident("f"), vec![]))],
            ),
        ),
        declare("out", call(ident("g"), vec![])),
    ];
    let mut e = evaluator(stmts);
    e.evaluate();
    let inner = record(vec![("r", ConstValue::cinteger(1))]);
    assert_eq!(bound(&e, "out"), Some(record(vec![("got", inner)])));
}

#[test]
fn mismatched_argument_records_one_error_and_the_call_is_empty() {
    let stmts = vec![declare(
        "f",
        function(vec![param("a", i32_type())], vec![param("r", i32_type())], vec![]),
    )];
    let mut e = evaluator(stmts);
    e.evaluate();
    let argument = Expression::Float(1.5f64.to_bits(), at(3, 2, 5));
    let r = e.evaluate_expression(&call(ident("f"), vec![argument]));
    assert_eq!(r, ConstValue::empty());
    assert_eq!(
        e.state.errors,
        vec![EvaluationError {
            kind: EvaluationErrorKind::TypeMismatch(
                Type::CoercibleFloat,
                Type::Integer { width: 32, signed: true },
            ),
            range: at(3, 2, 5),
        }]
    );
    assert_eq!(bound(&e, "a"), None);
}

#[test]
fn refused_call_leaves_the_scope_of_the_callee_active() {
    let stmts = vec![declare(
        "f",
        function(vec![param("a", i32_type())], vec![param("r", i32_type())], vec![]),
    )];
    let mut e = evaluator(stmts);
    e.evaluate();
    let f = e.state.scope.find_symbol("f").unwrap();
    assert_eq!(e.state.scope.depth(), 1);
    e.evaluate_expression(&call(ident("f"), vec![flit(1.5)]));
    assert_eq!(e.state.scope.depth(), 2);
    assert_eq!(e.state.scope.pop_scope(), f);
    assert_eq!(e.state.scope.depth(), 1);
}

#[test]
fn second_argument_mismatch_keeps_the_first_binding() {
    let stmts = vec![declare(
        "f",
        function(vec![param("a", i32_type()), param("b", i32_type())], vec![], vec![]),
    )];
    let mut e = evaluator(stmts);
    e.evaluate();
    bind(&mut e, "one", i32_value(1));
    let second = Expression::Integer(2, at(1, 8, 9));
    let r = e.evaluate_expression(&call(ident("f"), vec![ident("one"), second]));
    assert_eq!(r, ConstValue::empty());
    assert_eq!(e.state.errors.len(), 1);
    assert_eq!(e.state.errors[0].range, at(1, 8, 9));
    assert_eq!(bound(&e, "a"), Some(i32_value(1)));
    assert_eq!(bound(&e, "b"), None);
}

#[test]
fn unbound_return_name_gets_the_default_of_its_type() {
    let stmts = vec![
        declare(
            "f",
            function(
                vec![],
                vec![
                    param("r", i32_type()),
                    param("x", TypeName::Float { width: 64 }),
                    param("s", TypeName::Ident("Nowhere".to_string())),
                ],
                vec![],
            ),
        ),
        declare("out", call(ident("f"), vec![])),
    ];
    let mut e = evaluator(stmts);
    e.evaluate();
    assert_eq!(
        bound(&e, "out"),
        Some(record(vec![
            ("r", i32_value(0)),
            ("x", ConstValue::float(0, 64)),
            ("s", ConstValue::empty()),
        ]))
    );
}

#[test]
fn calling_what_is_no_function_is_empty_without_an_error() {
    let mut e = evaluator(vec![]);
    bind(&mut e, "n", i32_value(1));
    assert_eq!(e.evaluate_expression(&call(ident("n"), vec![])), ConstValue::empty());
    assert_eq!(e.evaluate_expression(&call(ident("nobody"), vec![lit(1)])), ConstValue::empty());
    assert!(e.state.errors.is_empty());
    assert_eq!(e.state.scope.depth(), 1);
}

#[test]
fn function_with_a_scope_of_another_graph_is_not_called() {
    let mut e = evaluator(vec![]);
    let stray = ConstValue::func(
        Statement::List(vec![]),
        LinkedHashMap::new(),
        LinkedHashMap::new(),
        ScopeRef(40),
    );
    bind(&mut e, "stray", stray);
    assert_eq!(e.evaluate_expression(&call(ident("stray"), vec![])), ConstValue::empty());
    assert_eq!(e.state.scope.depth(), 1);
}

#[test]
fn extra_arguments_and_missing_arguments_are_ignored() {
    let stmts = vec![declare(
        "f",
        function(
            vec![param("a", i32_type()), param("b", i32_type())],
            vec![param("a", i32_type()), param("b", i32_type())],
            vec![],
        ),
    )];
    let mut e = evaluator(stmts);
    e.evaluate();
    bind(&mut e, "one", i32_value(1));
    let r = e.evaluate_expression(&call(ident("f"), vec![ident("one")]));
    assert_eq!(r, record(vec![("a", i32_value(1)), ("b", i32_value(0))]));
    assert!(e.state.errors.is_empty());
}

#[test]
fn function_declaration_reserves_its_own_node_as_call_frame() {
    let stmts = vec![
        declare("f", function(vec![], vec![], vec![assign("local", lit(3))])),
        Statement::Expression(call(ident("f"), vec![])),
    ];
    let mut e = evaluator(stmts);
    let values = e.evaluate();
    assert_eq!(values[1], record(vec![]));
    let f = e.state.scope.find_symbol("f").unwrap();
    match bound(&e, "f").unwrap().kind {
        ConstValueKind::Function { rf, .. } => assert_eq!(rf, f),
        other => panic!("no function: {:?}", other),
    }
    assert!(e.state.scope.get(f).unwrap().children.contains_key("local"));
    assert_eq!(bound(&e, "local"), None);
}

#[test]
fn endless_recursion_ends_at_the_call_depth_and_is_recorded() {
    let again = Expression::FunctionCall {
        expr: Box::new(ident("f")),
        args: vec![],
        range: at(1, 4, 7),
    };
    let stmts = vec![
        declare(
            "f",
            function(vec![], vec![param("n", i32_type())], vec![Statement::Expression(again)]),
        ),
        declare("out", call(ident("f"), vec![])),
    ];
    let mut e = evaluator(stmts).with_call_depth(5);
    e.evaluate();
    assert_eq!(bound(&e, "out"), Some(record(vec![("n", i32_value(0))])));
    assert_eq!(e.state.scope.depth(), 1);
    assert_eq!(e.state.errors, vec![failure(EvaluationErrorKind::CallTooDeep, at(1, 4, 7))]);
}

#[test]
fn call_at_depth_zero_is_empty_and_recorded() {
    let stmts = vec![declare("f", function(vec![], vec![], vec![]))];
    let mut e = evaluator(stmts).with_call_depth(0);
    e.evaluate();
    let refused = Expression::FunctionCall {
        expr: Box::new(ident("f")),
        args: vec![],
        range: at(2, 0, 3),
    };
    assert_eq!(e.evaluate_expression(&refused), ConstValue::empty());
    assert_eq!(e.state.scope.depth(), 1);
    assert_eq!(e.state.errors, vec![failure(EvaluationErrorKind::CallTooDeep, at(2, 0, 3))]);
}

#[test]
fn declaration_binds_the_value_and_is_itself_empty() {
    let mut e = evaluator(vec![declare("a", binary(lit(2), Operator::Multiply, lit(21)))]);
    assert_eq!(e.evaluate(), vec![ConstValue::empty()]);
    assert_eq!(bound(&e, "a"), Some(ConstValue::cinteger(42)));
}

#[test]
fn declaration_ignores_its_annotation() {
    let stmt = Statement::Declaration {
        ident: "a".to_string(),
        ty: Some(i32_type()),
        expr: Some(lit(5)),
    };
    let mut e = evaluator(vec![]);
    assert_eq!(e.evaluate_statement(&stmt), ConstValue::empty());
    assert_eq!(bound(&e, "a"), Some(ConstValue::cinteger(5)));
}

#[test]
fn declaration_without_initializer_and_other_statements_do_nothing() {
    let mut e = evaluator(vec![]);
    let bare = Statement::Declaration { ident: "a".to_string(), ty: Some(i32_type()), expr: None };
    assert_eq!(e.evaluate_statement(&bare), ConstValue::empty());
    assert_eq!(e.evaluate_statement(&Statement::Other), ConstValue::empty());
    assert_eq!(bound(&e, "a"), None);
    assert_eq!(e.state.scope.len(), 1);
}

#[test]
fn function_literal_without_body_binds_the_empty_value() {
    let literal = Expression::Function {
        parameters: vec![],
        return_parameters: vec![],
        body: None,
        range: here(),
    };
    let mut e = evaluator(vec![]);
    e.evaluate_statement(&declare("f", literal));
    assert_eq!(bound(&e, "f"), Some(ConstValue::empty()));
}

#[test]
fn list_of_one_has_the_value_of_its_item() {
    let mut e = evaluator(vec![]);
    let list = Statement::List(vec![Statement::Expression(lit(4))]);
    assert_eq!(e.evaluate_statement(&list), ConstValue::cinteger(4));
}

#[test]
fn list_of_several_is_a_tuple_of_all_values() {
    let mut e = evaluator(vec![]);
    let list = Statement::List(vec![
        Statement::Expression(lit(4)),
        declare("a", lit(1)),
        Statement::Expression(binary(ident("a"), Operator::Plus, lit(1))),
    ]);
    let r = e.evaluate_statement(&list);
    assert_eq!(
        r,
        record(vec![
            ("0", ConstValue::cinteger(4)),
            ("1", ConstValue::empty()),
            ("2", ConstValue::cinteger(2)),
        ])
    );
    assert_eq!(e.evaluate_statement(&Statement::List(vec![])), record(vec![]));
}

#[test]
fn assignment_binds_and_has_the_assigned_value() {
    let mut e = evaluator(vec![]);
    let r = e.evaluate_expression(&binary(ident("a"), Operator::Equals, lit(6)));
    assert_eq!(r, ConstValue::cinteger(6));
    assert_eq!(bound(&e, "a"), Some(ConstValue::cinteger(6)));
    let nodes = e.state.scope.len();
    e.evaluate_expression(&binary(ident("a"), Operator::Equals, lit(7)));
    assert_eq!(bound(&e, "a"), Some(ConstValue::cinteger(7)));
    assert_eq!(e.state.scope.len(), nodes);
}

#[test]
fn identifier_bound_to_a_record_declaration_is_empty() {
    let mut e = evaluator(point_program());
    e.evaluate();
    assert_eq!(e.evaluate_expression(&ident("Point")), ConstValue::empty());
    assert_eq!(e.evaluate_expression(&ident("nobody")), ConstValue::empty());
    assert!(e.state.errors.is_empty());
}

#[test]
fn integer_operators_work_on_the_raw_bits() {
    let mut e = evaluator(vec![]);
    let mut eval = |l: u64, op: Operator, r: u64| e.evaluate_expression(&binary(lit(l), op, lit(r)));
    assert_eq!(eval(7, Operator::Minus, 2), ConstValue::cinteger(5));
    assert_eq!(eval(2, Operator::Minus, 7), ConstValue::cinteger(u64::MAX - 4));
    assert_eq!(eval(u64::MAX, Operator::Plus, 2), ConstValue::cinteger(1));
    assert_eq!(eval(6, Operator::Multiply, 7), ConstValue::cinteger(42));
    assert_eq!(eval(1 << 63, Operator::Multiply, 2), ConstValue::cinteger(0));
    assert_eq!(eval(7, Operator::Divide, 2), ConstValue::cinteger(3));
    assert_eq!(eval(2, Operator::Exponent, 10), ConstValue::cinteger(1024));
    assert_eq!(eval(3, Operator::Exponent, 0), ConstValue::cinteger(1));
    assert_eq!(eval(2, Operator::Exponent, 64), ConstValue::cinteger(0));
    assert_eq!(eval(3, Operator::Exponent, 41), ConstValue::cinteger(3u64.wrapping_pow(41)));
    assert_eq!(eval(2, Operator::Exponent, (1 << 32) + 3), ConstValue::cinteger(8));
}

#[test]
fn division_by_zero_and_other_operators_are_empty() {
    let mut e = evaluator(vec![]);
    let mut eval = |l: u64, op: Operator, r: u64| e.evaluate_expression(&binary(lit(l), op, lit(r)));
    assert_eq!(eval(7, Operator::Divide, 0), ConstValue::empty());
    assert_eq!(eval(7, Operator::Percent, 2), ConstValue::empty());
    assert_eq!(eval(7, Operator::Ampersand, 2), ConstValue::empty());
    assert_eq!(eval(7, Operator::Pipe, 2), ConstValue::empty());
    assert!(e.state.errors.is_empty());
}

#[test]
fn float_operators_go_through_the_float_unit() {
    let mut e = evaluator(vec![]);
    let sum = e.evaluate_expression(&binary(flit(1.5), Operator::Plus, flit(2.25)));
    assert_eq!(sum, ConstValue::cfloat(3.75f64.to_bits()));
    let power = e.evaluate_expression(&binary(flit(2.0), Operator::Exponent, flit(0.5)));
    assert_eq!(power, ConstValue::cfloat(2.0f64.powf(0.5).to_bits()));
    bind(&mut e, "x", ConstValue::float(8.0f64.to_bits(), 32));
    let left = e.evaluate_expression(&binary(ident("x"), Operator::Divide, flit(2.0)));
    assert_eq!(left, ConstValue::float(4.0f64.to_bits(), 32));
    let right = e.evaluate_expression(&binary(flit(2.0), Operator::Divide, ident("x")));
    assert_eq!(right, ConstValue::float(0.25f64.to_bits(), 32));
    let other = e.evaluate_expression(&binary(flit(2.0), Operator::Percent, flit(1.0)));
    assert_eq!(other, ConstValue::empty());
}

#[test]
fn integers_and_floats_do_not_combine() {
    let mut e = evaluator(vec![]);
    let r = e.evaluate_expression(&binary(lit(1), Operator::Plus, flit(2.0)));
    assert_eq!(r, ConstValue::empty());
    bind(&mut e, "a", i32_value(5));
    let r = e.evaluate_expression(&binary(ident("a"), Operator::Plus, flit(2.0)));
    assert_eq!(r, ConstValue::empty());
    assert!(e.state.errors.is_empty());
}

#[test]
fn payload_that_does_not_fit_its_type_is_empty() {
    let e = evaluator(vec![]);
    let odd = ConstValue { ty: Type::CoercibleInteger, kind: ConstValueKind::Float { bits: 1 } };
    let r = e.apply_operator(Operator::Plus, &odd, &ConstValue::cinteger(1));
    assert_eq!(r, ConstValue::empty());
}

#[test]
fn parameters_keep_the_later_of_two_entries_of_one_name() {
    let mut e = evaluator(point_program());
    e.evaluate();
    let point = e.state.scope.find_symbol("Point").unwrap();
    let params = vec![
        param("a", i32_type()),
        param("b", TypeName::Float { width: 64 }),
        Parameter { name: None, ty: Some(i32_type()) },
        Parameter { name: Some("c".to_string()), ty: None },
        param("a", TypeName::Ident("Point".to_string())),
        param("d", TypeName::Ident("Nowhere".to_string())),
    ];
    let map = e.evaluate_params(&params);
    let fields: Vec<(String, Type)> = map.into_iter().collect();
    assert_eq!(
        fields,
        vec![
            ("b".to_string(), Type::Float { width: 64 }),
            ("a".to_string(), Type::Symbol(point)),
            ("d".to_string(), Type::Empty),
        ]
    );
}

#[test]
fn function_value_has_its_signature_in_declaration_order() {
    let mut e = evaluator(point_program());
    e.evaluate();
    let mk = bound(&e, "mk").unwrap();
    let i32_ty = Type::Integer { width: 32, signed: true };
    assert_eq!(
        mk.ty,
        Type::Function {
            parameters: vec![("a".to_string(), i32_ty.clone()), ("b".to_string(), i32_ty.clone())],
            return_parameters: vec![("x".to_string(), i32_ty.clone()), ("y".to_string(), i32_ty)],
        }
    );
}

#[test]
fn enter_and_leave_call_by_hand() {
    let stmts = vec![declare(
        "f",
        function(vec![param("a", i32_type())], vec![param("a", i32_type())], vec![]),
    )];
    let mut e = evaluator(stmts);
    e.evaluate();
    let f = bound(&e, "f").unwrap();
    let args = vec![ident("unused")];
    let entered = e.enter_call(f, vec![i32_value(9)], &args, here());
    let (body, declared) = entered.unwrap();
    assert_eq!(body, Statement::List(vec![]));
    assert_eq!(e.state.scope.depth(), 2);
    assert_eq!(bound(&e, "a"), Some(i32_value(9)));
    let r = e.leave_call(&declared);
    assert_eq!(r, record(vec![("a", i32_value(9))]));
    assert_eq!(e.state.scope.depth(), 1);
    assert_eq!(bound(&e, "a"), None);
}

#[test]
fn evaluate_returns_one_value_for_each_statement() {
    let stmts = vec![
        Statement::Expression(lit(1)),
        declare("a", lit(2)),
        Statement::Expression(binary(ident("a"), Operator::Exponent, lit(3))),
        Statement::Other,
    ];
    let mut e = evaluator(stmts);
    let values = e.evaluate();
    assert_eq!(
        values,
        vec![
            ConstValue::cinteger(1),
            ConstValue::empty(),
            ConstValue::cinteger(8),
            ConstValue::empty(),
        ]
    );
    let again = e.evaluate();
    assert_eq!(again.len(), 4);
}

#[test]
fn strictness_is_lenient_unless_asked_otherwise() {
    assert_eq!(
        Strictness::lenient(),
        Strictness { report_failures: false, release_refused_calls: false }
    );
    assert_eq!(Strictness::default(), Strictness::lenient());
    assert_eq!(
        Strictness::strict(),
        Strictness { report_failures: true, release_refused_calls: true }
    );
}

#[test]
fn strict_evaluator_reports_an_unresolved_identifier() {
    let mut e = strict(point_program());
    e.evaluate();
    let unbound = Expression::Ident("nobody".to_string(), at(2, 1, 7));
    assert_eq!(e.evaluate_expression(&unbound), ConstValue::empty());
    let declaration = Expression::Ident("Point".to_string(), at(3, 1, 6));
    assert_eq!(e.evaluate_expression(&declaration), ConstValue::empty());
    assert_eq!(
        e.state.errors,
        vec![
            failure(EvaluationErrorKind::UnresolvedIdentifier, at(2, 1, 7)),
            failure(EvaluationErrorKind::UnresolvedIdentifier, at(3, 1, 6)),
        ]
    );
}

#[test]
fn strict_evaluator_does_not_report_a_name_bound_to_the_empty_value() {
    let mut e = strict(vec![]);
    bind(&mut e, "nothing", ConstValue::empty());
    assert_eq!(e.evaluate_expression(&ident("nothing")), ConstValue::empty());
    assert!(e.state.errors.is_empty());
}

#[test]
fn strict_evaluator_reports_an_unmatched_call_target() {
    let mut e = strict(vec![]);
    bind(&mut e, "n", i32_value(1));
    let target = Expression::FunctionCall {
        expr: Box::new(ident("n")),
        args: vec![],
        range: at(4, 0, 3),
    };
    assert_eq!(e.evaluate_expression(&target), ConstValue::empty());
    assert_eq!(
        e.state.errors,
        vec![failure(EvaluationErrorKind::UnmatchedCallTarget, at(4, 0, 3))]
    );
    assert_eq!(e.state.scope.depth(), 1);
}

#[test]
fn strict_evaluator_reports_an_assignment_to_an_unrecognized_member_access() {
    let mut e = strict(vec![]);
    bind(&mut e, "n", i32_value(1));
    let target = binary(
        Expression::Ident("n".to_string(), at(1, 0, 1)),
        Operator::Dot,
        Expression::Ident("x".to_string(), at(1, 2, 3)),
    );
    let r = e.evaluate_expression(&binary(target, Operator::Equals, lit(1)));
    assert_eq!(r, ConstValue::empty());
    assert_eq!(
        e.state.errors,
        vec![failure(EvaluationErrorKind::UnrecognizedMemberAccess, at(1, 0, 3))]
    );
}

#[test]
fn strict_evaluator_reports_operands_that_do_not_combine() {
    let mut e = strict(vec![]);
    let mixed = binary(
        Expression::Integer(1, at(1, 0, 1)),
        Operator::Plus,
        Expression::Float(2.0f64.to_bits(), at(1, 4, 7)),
    );
    assert_eq!(e.evaluate_expression(&mixed), ConstValue::empty());
    let odd = binary(
        Expression::Integer(1, at(2, 0, 1)),
        Operator::Pipe,
        Expression::Integer(2, at(2, 4, 5)),
    );
    assert_eq!(e.evaluate_expression(&odd), ConstValue::empty());
    assert_eq!(
        e.state.errors,
        vec![
            failure(EvaluationErrorKind::UnsupportedOperation, at(1, 0, 7)),
            failure(EvaluationErrorKind::UnsupportedOperation, at(2, 0, 5)),
        ]
    );
}

#[test]
fn strict_evaluator_reports_a_division_by_zero() {
    let mut e = strict(vec![]);
    bind(&mut e, "a", i32_value(8));
    let division = binary(
        Expression::Ident("a".to_string(), at(1, 0, 1)),
        Operator::Divide,
        Expression::Integer(0, at(1, 4, 5)),
    );
    assert_eq!(e.evaluate_expression(&division), ConstValue::empty());
    assert_eq!(
        e.state.errors,
        vec![failure(EvaluationErrorKind::DivisionByZero, at(1, 0, 5))]
    );
    let floats = binary(flit(1.0), Operator::Divide, flit(0.0));
    assert_eq!(e.evaluate_expression(&floats), ConstValue::cfloat(f64::INFINITY.to_bits()));
    assert_eq!(e.state.errors.len(), 1);
}

#[test]
fn strict_evaluator_reports_a_member_read_that_finds_no_member() {
    let mut e = strict(vec![]);
    bind(&mut e, "p", record(vec![("x", i32_value(1))]));
    bind(&mut e, "z", i32_value(9));
    let read = binary(
        Expression::Ident("p".to_string(), at(1, 0, 1)),
        Operator::Dot,
        Expression::Ident("z".to_string(), at(1, 2, 3)),
    );
    assert_eq!(e.evaluate_expression(&read), ConstValue::empty());
    let on_number = binary(
        Expression::Integer(1, at(2, 0, 1)),
        Operator::Dot,
        Expression::Ident("x".to_string(), at(2, 2, 3)),
    );
    assert_eq!(e.evaluate_expression(&on_number), ConstValue::empty());
    let by_number = binary(
        Expression::Ident("p".to_string(), at(3, 0, 1)),
        Operator::Dot,
        Expression::Integer(1, at(3, 2, 3)),
    );
    assert_eq!(e.evaluate_expression(&by_number), ConstValue::empty());
    assert_eq!(
        e.state.errors,
        vec![
            failure(EvaluationErrorKind::UnrecognizedMemberAccess, at(1, 0, 3)),
            failure(EvaluationErrorKind::UnrecognizedMemberAccess, at(2, 0, 3)),
            failure(EvaluationErrorKind::UnrecognizedMemberAccess, at(3, 0, 3)),
        ]
    );
}

#[test]
fn member_read_evaluates_its_left_side_once() {
    let stmts = vec![declare(
        "f",
        function(
            vec![],
            vec![param("n", i32_type())],
            vec![assign("count", binary(ident("count"), Operator::Plus, lit(1)))],
        ),
    )];
    let mut e = evaluator(stmts);
    e.evaluate();
    bind(&mut e, "count", ConstValue::cinteger(0));
    let missing = binary(call(ident("f"), vec![]), Operator::Dot, ident("zz"));
    assert_eq!(e.evaluate_expression(&missing), ConstValue::empty());
    assert_eq!(bound(&e, "count"), Some(ConstValue::cinteger(1)));
    let there = binary(call(ident("f"), vec![]), Operator::Dot, ident("n"));
    assert_eq!(e.evaluate_expression(&there), i32_value(0));
    assert_eq!(bound(&e, "count"), Some(ConstValue::cinteger(2)));
}

#[test]
fn strict_evaluator_releases_the_scope_of_a_refused_call() {
    let stmts = vec![declare(
        "f",
        function(vec![param("a", i32_type())], vec![param("r", i32_type())], vec![]),
    )];
    let mut e = strict(stmts);
    e.evaluate();
    let argument = Expression::Float(1.5f64.to_bits(), at(3, 2, 5));
    let r = e.evaluate_expression(&call(ident("f"), vec![argument]));
    assert_eq!(r, ConstValue::empty());
    assert_eq!(e.state.scope.depth(), 1);
    assert_eq!(
        e.state.errors,
        vec![failure(
            EvaluationErrorKind::TypeMismatch(
                Type::CoercibleFloat,
                Type::Integer { width: 32, signed: true },
            ),
            at(3, 2, 5),
        )]
    );
}

#[test]
fn strict_evaluator_reports_a_call_that_nests_too_deep() {
    let again = Expression::FunctionCall {
        expr: Box::new(ident("f")),
        args: vec![],
        range: at(1, 4, 7),
    };
    let stmts = vec![
        declare("f", function(vec![], vec![], vec![Statement::Expression(again)])),
        Statement::Expression(call(ident("f"), vec![])),
    ];
    let mut e = strict(stmts).with_call_depth(3);
    let values = e.evaluate();
    assert_eq!(values[1], record(vec![]));
    assert_eq!(e.state.errors, vec![failure(EvaluationErrorKind::CallTooDeep, at(1, 4, 7))]);
    assert_eq!(e.state.scope.depth(), 1);
}

#[test]
fn strict_evaluator_agrees_with_a_lenient_one_where_nothing_fails() {
    let mut stmts = point_program();
    stmts.push(declare("one", binary(lit(3), Operator::Minus, lit(2))));
    stmts.push(Statement::Expression(binary(flit(1.5), Operator::Multiply, flit(2.0))));
    let mut lenient = evaluator(stmts.clone());
    let mut careful = strict(stmts);
    assert_eq!(lenient.evaluate(), careful.evaluate());
    assert!(careful.state.errors.is_empty());
    assert_eq!(bound(&careful, "one"), Some(ConstValue::cinteger(1)));
}
