use linked_hash_map::LinkedHashMap;
use xlang_vm::arithmetic::{integer_operation, is_arithmetic_operator, wrapping_power};
use xlang_vm::ast::{
    clone_expressions, clone_parameters, clone_statements, Expression, Operator, Parameter,
    Position, Range, Statement, TypeName,
};
use xlang_vm::const_value::{
    assign_member, clone_type_fields, clone_value_fields, find_member, has_distinct_names,
    type_fields_equal, ConstValue, ConstValueKind, Type,
};
use xlang_vm::scope::ScopeRef;

fn span(a: u32, b: u32) -> Range {
    Range { start: Position { line: 1, column: a }, end: Position { line: 1, column: b } }
}

fn i32_ty() -> Type {
    Type::Integer { width: 32, signed: true }
}

fn types(entries: Vec<(&str, Type)>) -> LinkedHashMap<String, Type> {
    let mut map = LinkedHashMap::new();
    for (k, v) in entries {
        map.insert(k.to_string(), v);
    }
    map
}

fn values(entries: Vec<(&str, ConstValue)>) -> LinkedHashMap<String, ConstValue> {
    let mut map = LinkedHashMap::new();
    for (k, v) in entries {
        map.insert(k.to_string(), v);
    }
    map
}

#[test]
fn simple_constructors_tag_their_payload() {
    assert_eq!(
        ConstValue::empty(),
        ConstValue { ty: Type::Empty, kind: ConstValueKind::Empty }
    );
    assert_eq!(
        ConstValue::cinteger(3),
        ConstValue { ty: Type::CoercibleInteger, kind: ConstValueKind::Integer { value: 3 } }
    );
    assert_eq!(
        ConstValue::cfloat(9),
        ConstValue { ty: Type::CoercibleFloat, kind: ConstValueKind::Float { bits: 9 } }
    );
    assert_eq!(
        ConstValue::integer(3, 16, false),
        ConstValue {
            ty: Type::Integer { width: 16, signed: false },
            kind: ConstValueKind::Integer { value: 3 },
        }
    );
    assert_eq!(
        ConstValue::float(9, 32),
        ConstValue { ty: Type::Float { width: 32 }, kind: ConstValueKind::Float { bits: 9 } }
    );
}

#[test]
fn payload_accessors_give_the_bits_of_their_kind_only() {
    assert_eq!(ConstValue::cinteger(3).kind.as_integer(), Some(3));
    assert_eq!(ConstValue::cinteger(3).kind.as_float(), None);
    assert_eq!(ConstValue::cfloat(4).kind.as_float(), Some(4));
    assert_eq!(ConstValue::cfloat(4).kind.as_integer(), None);
    assert_eq!(ConstValue::empty().kind.as_integer(), None);
}

#[test]
fn record_instance_keeps_the_order_of_the_map_and_types_its_members() {
    let r = ConstValue::record_instance(values(vec![
        ("y", ConstValue::integer(2, 32, true)),
        ("x", ConstValue::cfloat(1)),
    ]));
    assert_eq!(
        r.ty,
        Type::RecordInstance {
            members: vec![("y".to_string(), i32_ty()), ("x".to_string(), Type::CoercibleFloat)],
        }
    );
    assert_eq!(
        r.kind,
        ConstValueKind::RecordInstance {
            members: vec![
                ("y".to_string(), ConstValue::integer(2, 32, true)),
                ("x".to_string(), ConstValue::cfloat(1)),
            ],
        }
    );
}

#[test]
fn record_instance_of_a_map_with_a_reinserted_name() {
    let mut map = values(vec![("a", ConstValue::cinteger(1)), ("b", ConstValue::cinteger(2))]);
    map.insert("a".to_string(), ConstValue::cinteger(3));
    let r = ConstValue::record_instance(map);
    assert_eq!(
        r,
        ConstValue::from_members(vec![
            ("b".to_string(), ConstValue::cinteger(2)),
            ("a".to_string(), ConstValue::cinteger(3)),
        ])
        .unwrap()
    );
}

#[test]
fn func_carries_signature_body_and_scope() {
    let body = Statement::List(vec![Statement::Other]);
    let f = ConstValue::func(
        body.clone(),
        types(vec![("b", i32_ty()), ("a", Type::CoercibleInteger)]),
        types(vec![("r", Type::Float { width: 64 })]),
        ScopeRef(7),
    );
    assert_eq!(
        f.ty,
        Type::Function {
            parameters: vec![("b".to_string(), i32_ty()), ("a".to_string(), Type::CoercibleInteger)],
            return_parameters: vec![("r".to_string(), Type::Float { width: 64 })],
        }
    );
    assert_eq!(f.kind, ConstValueKind::Function { body, rf: ScopeRef(7) });
}

#[test]
fn tuple_names_its_members_by_position() {
    let items: Vec<ConstValue> = (0..12).map(ConstValue::cinteger).collect();
    let t = ConstValue::tuple(items);
    match &t.kind {
        ConstValueKind::RecordInstance { members } => {
            let names: Vec<&str> = members.iter().map(|m| m.0.as_str()).collect();
            assert_eq!(names, vec!["0", "1", "2", "3", "4", "5", "6", "7", "8", "9", "10", "11"]);
            for (i, m) in members.iter().enumerate() {
                assert_eq!(m.1, ConstValue::cinteger(i as u64));
            }
        }
        other => panic!("no record: {:?}", other),
    }
    assert_eq!(ConstValue::tuple(vec![]), ConstValue::from_members(vec![]).unwrap());
}

#[test]
fn default_values_by_type() {
    assert_eq!(ConstValue::default_for(&Type::Empty), ConstValue::empty());
    assert_eq!(ConstValue::default_for(&Type::CoercibleInteger), ConstValue::cinteger(0));
    assert_eq!(ConstValue::default_for(&Type::CoercibleFloat), ConstValue::cfloat(0));
    assert_eq!(ConstValue::default_for(&i32_ty()), ConstValue::integer(0, 32, true));
    assert_eq!(ConstValue::default_for(&Type::Float { width: 64 }), ConstValue::float(0, 64));
    assert_eq!(ConstValue::default_for(&Type::Symbol(ScopeRef(1))), ConstValue::empty());
    let function = Type::Function { parameters: vec![], return_parameters: vec![] };
    assert_eq!(ConstValue::default_for(&function), ConstValue::empty());
    let nested = Type::RecordInstance {
        members: vec![
            ("n".to_string(), i32_ty()),
            (
                "inner".to_string(),
                Type::RecordInstance { members: vec![("x".to_string(), Type::Float { width: 32 })] },
            ),
        ],
    };
    assert_eq!(
        ConstValue::default_for(&nested),
        ConstValue::from_members(vec![
            ("n".to_string(), ConstValue::integer(0, 32, true)),
            (
                "inner".to_string(),
                ConstValue::from_members(vec![("x".to_string(), ConstValue::float(0, 32))])
                    .unwrap(),
            ),
        ])
        .unwrap()
    );
}

#[test]
fn type_equality_is_exact() {
    assert!(i32_ty().equals(&i32_ty()));
    assert!(!i32_ty().equals(&Type::Integer { width: 32, signed: false }));
    assert!(!i32_ty().equals(&Type::Integer { width: 64, signed: true }));
    assert!(!i32_ty().equals(&Type::CoercibleInteger));
    assert!(!Type::CoercibleFloat.equals(&Type::Float { width: 64 }));
    assert!(Type::Symbol(ScopeRef(2)).equals(&Type::Symbol(ScopeRef(2))));
    assert!(!Type::Symbol(ScopeRef(2)).equals(&Type::Symbol(ScopeRef(3))));
    assert!(Type::Empty.equals(&Type::Empty));
    let a = Type::RecordInstance {
        members: vec![("x".to_string(), i32_ty()), ("y".to_string(), i32_ty())],
    };
    let swapped = Type::RecordInstance {
        members: vec![("y".to_string(), i32_ty()), ("x".to_string(), i32_ty())],
    };
    let shorter = Type::RecordInstance { members: vec![("x".to_string(), i32_ty())] };
    assert!(a.equals(&a.clone()));
    assert!(!a.equals(&swapped));
    assert!(!a.equals(&shorter));
    let f = Type::Function {
        parameters: vec![("a".to_string(), i32_ty())],
        return_parameters: vec![("r".to_string(), a.clone())],
    };
    let g = Type::Function {
        parameters: vec![("a".to_string(), i32_ty())],
        return_parameters: vec![("r".to_string(), swapped)],
    };
    assert!(f.equals(&f.clone()));
    assert!(!f.equals(&g));
    assert!(!f.equals(&a));
    assert!(type_fields_equal(&vec![], &vec![]));
    assert!(!type_fields_equal(&vec![("a".to_string(), i32_ty())], &vec![]));
}

#[test]
fn clones_are_equal_to_what_they_were_made_from() {
    let body = Statement::List(vec![
        Statement::Declaration {
            ident: "a".to_string(),
            ty: Some(TypeName::Ident("T".to_string())),
            expr: Some(Expression::FunctionCall {
                expr: Box::new(Expression::Ident("f".to_string(), span(0, 1))),
                args: vec![Expression::Float(3, span(2, 3)), Expression::Integer(4, span(4, 5))],
                range: span(0, 6),
            }),
        },
        Statement::Expression(Expression::Function {
            parameters: vec![Parameter { name: Some("p".to_string()), ty: None }],
            return_parameters: vec![Parameter {
                name: None,
                ty: Some(TypeName::Float { width: 32 }),
            }],
            body: Some(Box::new(Statement::Other)),
            range: span(0, 9),
        }),
        Statement::Expression(Expression::Record {
            parameters: vec![Parameter {
                name: Some("x".to_string()),
                ty: Some(TypeName::Integer { width: 8, signed: false }),
            }],
            range: span(1, 2),
        }),
    ]);
    assert_eq!(body.clone(), body);
    assert_eq!(clone_statements(&vec![body.clone(), Statement::Other]), vec![body.clone(), Statement::Other]);
    let exprs = vec![Expression::Integer(1, span(0, 1)), Expression::Ident("q".to_string(), span(1, 2))];
    assert_eq!(clone_expressions(&exprs), exprs);
    let params = vec![Parameter { name: Some("p".to_string()), ty: Some(TypeName::Float { width: 64 }) }];
    assert_eq!(clone_parameters(&params), params);
    let f = ConstValue::func(
        body,
        types(vec![("a", i32_ty())]),
        types(vec![("r", Type::Symbol(ScopeRef(3)))]),
        ScopeRef(1),
    );
    let r = ConstValue::record_instance(values(vec![("f", f), ("n", ConstValue::cinteger(1))]));
    assert_eq!(r.clone(), r);
    assert_eq!(clone_type_fields(&vec![("a".to_string(), r.ty.clone())]), vec![("a".to_string(), r.ty.clone())]);
    assert_eq!(
        clone_value_fields(&vec![("a".to_string(), r.clone())]),
        vec![("a".to_string(), r)]
    );
}

#[test]
fn find_member_gives_the_first_position_of_a_name() {
    let members = vec![
        ("a".to_string(), ConstValue::cinteger(1)),
        ("b".to_string(), ConstValue::cinteger(2)),
        ("a".to_string(), ConstValue::cinteger(3)),
    ];
    assert_eq!(find_member(&members, &"a".to_string()), Some(0));
    assert_eq!(find_member(&members, &"b".to_string()), Some(1));
    assert_eq!(find_member(&members, &"c".to_string()), None);
    assert_eq!(find_member(&vec![], &"a".to_string()), None);
}

#[test]
fn assign_member_replaces_one_member_of_a_record_instance() {
    let mut r = ConstValue::record_instance(values(vec![
        ("a", ConstValue::cinteger(1)),
        ("b", ConstValue::cinteger(2)),
    ]));
    let ty = r.ty.clone();
    assert!(assign_member(&mut r, &"b".to_string(), ConstValue::cfloat(5)));
    assert_eq!(r.ty, ty);
    assert_eq!(
        r.kind,
        ConstValueKind::RecordInstance {
            members: vec![
                ("a".to_string(), ConstValue::cinteger(1)),
                ("b".to_string(), ConstValue::cfloat(5)),
            ],
        }
    );
    let same = r.clone();
    assert!(!assign_member(&mut r, &"zz".to_string(), ConstValue::cinteger(9)));
    assert_eq!(r, same);
    let mut n = ConstValue::cinteger(1);
    assert!(!assign_member(&mut n, &"a".to_string(), ConstValue::cinteger(9)));
    assert_eq!(n, ConstValue::cinteger(1));
    let mut odd = ConstValue { ty: Type::Empty, kind: same.kind.clone() };
    assert!(!assign_member(&mut odd, &"a".to_string(), ConstValue::cinteger(9)));
    assert_eq!(odd.kind, same.kind);
}

#[test]
fn range_of_a_binary_expression_spans_its_operands() {
    let e = Expression::BinaryExpression {
        left: Box::new(Expression::Ident("a".to_string(), span(2, 3))),
        op: Operator::Plus,
        right: Box::new(Expression::BinaryExpression {
            left: Box::new(Expression::Integer(1, span(6, 7))),
            op: Operator::Multiply,
            right: Box::new(Expression::Float(2, span(10, 13))),
        }),
    };
    assert_eq!(e.get_range(), span(2, 13));
    assert_eq!(Expression::Integer(1, span(6, 7)).get_range(), span(6, 7));
    let call = Expression::FunctionCall { expr: Box::new(e), args: vec![], range: span(2, 15) };
    assert_eq!(call.get_range(), span(2, 15));
    let rec = Expression::Record { parameters: vec![], range: span(4, 5) };
    assert_eq!(rec.get_range(), span(4, 5));
}

#[test]
fn wrapping_power_agrees_with_the_machine() {
    let bases = [0u64, 1, 2, 3, 10, 255, 65_537, u64::MAX, 0x8000_0000_0000_0000];
    let exps = [0u32, 1, 2, 3, 7, 31, 63, 64, 65, 1000, u32::MAX];
    for b in bases {
        for e in exps {
            assert_eq!(wrapping_power(b, e), b.wrapping_pow(e), "{} ^ {}", b, e);
        }
    }
    assert_eq!(wrapping_power(2, 10), 1024);
    assert_eq!(wrapping_power(0, 0), 1);
}

#[test]
fn integer_operation_by_operator() {
    assert_eq!(integer_operation(Operator::Plus, 1, 2), Some(3));
    assert_eq!(integer_operation(Operator::Plus, u64::MAX, 1), Some(0));
    assert_eq!(integer_operation(Operator::Minus, 0, 1), Some(u64::MAX));
    assert_eq!(integer_operation(Operator::Multiply, u64::MAX, u64::MAX), Some(1));
    assert_eq!(integer_operation(Operator::Divide, 9, 2), Some(4));
    assert_eq!(integer_operation(Operator::Divide, 9, 0), None);
    assert_eq!(integer_operation(Operator::Exponent, 5, 3), Some(125));
    assert_eq!(integer_operation(Operator::Exponent, 5, 1 << 32), Some(1));
    assert_eq!(integer_operation(Operator::Equals, 5, 3), None);
    assert_eq!(integer_operation(Operator::Dot, 5, 3), None);
    assert_eq!(integer_operation(Operator::Percent, 5, 3), None);
    assert!(is_arithmetic_operator(Operator::Exponent));
    assert!(is_arithmetic_operator(Operator::Divide));
    assert!(!is_arithmetic_operator(Operator::Equals));
    assert!(!is_arithmetic_operator(Operator::Pipe));
}

#[test]
fn from_members_refuses_a_name_twice() {
    let twice = vec![
        ("a".to_string(), ConstValue::cinteger(1)),
        ("b".to_string(), ConstValue::cinteger(2)),
        ("a".to_string(), ConstValue::cinteger(3)),
    ];
    assert!(!has_distinct_names(&twice));
    assert_eq!(ConstValue::from_members(twice), None);
    let once = vec![
        ("a".to_string(), ConstValue::cinteger(1)),
        ("b".to_string(), ConstValue::cinteger(2)),
    ];
    assert!(has_distinct_names(&once));
    assert!(has_distinct_names(&vec![]));
    let made = ConstValue::from_members(once).unwrap();
    assert_eq!(
        made.kind,
        ConstValueKind::RecordInstance {
            members: vec![
                ("a".to_string(), ConstValue::cinteger(1)),
                ("b".to_string(), ConstValue::cinteger(2)),
            ],
        }
    );
}
