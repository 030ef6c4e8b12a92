use linked_hash_map::LinkedHashMap;
use xlang_vm::ast::{Expression, Operator, Position, Range};
use xlang_vm::const_value::{ConstValue, Type};
use xlang_vm::scope::{Scope, ScopeManager, ScopeRef, ScopeValue};

fn manager() -> ScopeManager {
    ScopeManager::new(Scope::new(ScopeValue::Module))
}

fn nowhere() -> Range {
    Range { start: Position { line: 0, column: 0 }, end: Position { line: 0, column: 0 } }
}

fn name(text: &str) -> Expression {
    Expression::Ident(text.to_string(), nowhere())
}

fn dotted(left: Expression, right: Expression) -> Expression {
    Expression::BinaryExpression { left: Box::new(left), op: Operator::Dot, right: Box::new(right) }
}

fn value(n: u64) -> ScopeValue {
    ScopeValue::ConstValue(ConstValue::cinteger(n))
}

fn instance(members: Vec<(&str, ConstValue)>) -> ConstValue {
    let mut map = LinkedHashMap::new();
    for (k, v) in members {
        map.insert(k.to_string(), v);
    }
    ConstValue::record_instance(map)
}

fn value_at(m: &ScopeManager, rf: ScopeRef) -> &ScopeValue {
    &m.get(rf).unwrap().value
}

#[test]
fn new_manager_has_the_root_as_its_one_active_scope() {
    let m = manager();
    assert_eq!(m.root(), ScopeRef(0));
    assert_eq!(m.depth(), 1);
    assert_eq!(m.len(), 1);
    assert!(m.contains(ScopeRef(0)));
    assert!(!m.contains(ScopeRef(1)));
    assert_eq!(*value_at(&m, m.root()), ScopeValue::Module);
    assert!(m.get(ScopeRef(1)).is_none());
    assert_eq!(m.find_symbol("a"), None);
}

#[test]
fn new_scope_has_no_children() {
    let scope = Scope::new(value(1));
    assert_eq!(scope.value, value(1));
    assert!(scope.children.is_empty());
}

#[test]
fn update_value_inserts_then_overwrites_in_place() {
    let mut m = manager();
    assert_eq!(m.update_value("a", value(1)), None);
    let a = m.find_symbol("a").unwrap();
    assert_eq!(a, ScopeRef(1));
    assert_eq!(m.len(), 2);
    assert_eq!(m.update_value("a", value(2)), Some(value(1)));
    assert_eq!(m.find_symbol("a"), Some(a));
    assert_eq!(m.len(), 2);
    assert_eq!(*value_at(&m, a), value(2));
    assert_eq!(m.get(m.root()).unwrap().children.get("a"), Some(&a));
}

#[test]
fn binding_after_a_push_goes_under_the_pushed_scope() {
    let mut m = manager();
    m.update_value("outer", value(1));
    let frame = m.insert_value("frame", ScopeValue::Module);
    let root_children = m.get(m.root()).unwrap().children.len();
    m.push_scope(frame);
    assert_eq!(m.update_value("n", value(5)), None);
    let n = m.find_symbol("n").unwrap();
    assert_eq!(m.get(frame).unwrap().children.get("n"), Some(&n));
    assert!(!m.get(m.root()).unwrap().children.contains_key("n"));
    assert_eq!(m.get(m.root()).unwrap().children.len(), root_children);
    assert_eq!(m.update_value("outer", value(9)), Some(value(1)));
    assert!(!m.get(frame).unwrap().children.contains_key("outer"));
    assert_eq!(m.get(m.root()).unwrap().children.len(), root_children);
    assert_eq!(m.pop_scope(), frame);
    assert_eq!(m.find_symbol("n"), None);
    assert_eq!(*value_at(&m, n), value(5));
    let outer = m.find_symbol("outer").unwrap();
    assert_eq!(*value_at(&m, outer), value(9));
}

#[test]
fn innermost_scope_shadows_the_outer_ones() {
    let mut m = manager();
    m.update_value("x", value(1));
    let outer = m.find_symbol("x").unwrap();
    let frame = m.insert_value("frame", ScopeValue::Module);
    m.push_scope(frame);
    let inner = m.insert_value("x", value(2));
    assert_ne!(inner, outer);
    assert_eq!(m.find_symbol("x"), Some(inner));
    m.update_value("x", value(3));
    assert_eq!(*value_at(&m, inner), value(3));
    assert_eq!(*value_at(&m, outer), value(1));
    m.pop_scope();
    assert_eq!(m.find_symbol("x"), Some(outer));
}

#[test]
fn only_pushed_scopes_are_searched() {
    let mut m = manager();
    let a = m.insert_value("a", ScopeValue::Module);
    m.push_scope(a);
    let b = m.insert_value("b", ScopeValue::Module);
    m.update_value("in_a", value(1));
    m.pop_scope();
    m.push_scope(b);
    assert_eq!(m.find_symbol("in_a"), None);
    assert_eq!(m.find_symbol("b"), None);
    assert_eq!(m.find_symbol("a"), Some(a));
    assert_eq!(m.depth(), 2);
}

#[test]
fn insert_value_always_makes_a_new_node() {
    let mut m = manager();
    let first = m.insert_value("a", value(1));
    let second = m.insert_value("a", value(2));
    assert_ne!(first, second);
    assert_eq!(m.len(), 3);
    assert_eq!(m.find_symbol("a"), Some(second));
    assert_eq!(*value_at(&m, first), value(1));
    assert_eq!(*value_at(&m, second), value(2));
}

#[test]
fn a_scope_may_be_pushed_twice_and_popping_keeps_the_node() {
    let mut m = manager();
    let frame = m.insert_value("frame", ScopeValue::Module);
    m.push_scope(frame);
    m.push_scope(frame);
    m.update_value("n", value(1));
    assert_eq!(m.depth(), 3);
    assert_eq!(m.pop_scope(), frame);
    assert!(m.find_symbol("n").is_some());
    assert_eq!(m.pop_scope(), frame);
    assert_eq!(m.depth(), 1);
    assert!(m.contains(frame));
    assert!(m.get(frame).unwrap().children.contains_key("n"));
}

#[test]
fn fom_writes_a_member_of_a_bound_record() {
    let mut m = manager();
    let p = instance(vec![("x", ConstValue::cinteger(1)), ("y", ConstValue::cinteger(2))]);
    m.update_value("p", ScopeValue::ConstValue(p));
    assert!(m.fom(&name("p"), &name("y"), ConstValue::cinteger(20)));
    let rf = m.find_symbol("p").unwrap();
    let expected = ConstValue {
        ty: Type::RecordInstance {
            members: vec![
                ("x".to_string(), Type::CoercibleInteger),
                ("y".to_string(), Type::CoercibleInteger),
            ],
        },
        kind: instance(vec![("x", ConstValue::cinteger(1)), ("y", ConstValue::cinteger(20))]).kind,
    };
    assert_eq!(*value_at(&m, rf), ScopeValue::ConstValue(expected));
}

#[test]
fn fom_keeps_the_type_of_the_record_as_it_was() {
    let mut m = manager();
    m.update_value("p", ScopeValue::ConstValue(instance(vec![("x", ConstValue::cinteger(1))])));
    assert!(m.fom(&name("p"), &name("x"), ConstValue::cfloat(7)));
    let rf = m.find_symbol("p").unwrap();
    match value_at(&m, rf) {
        ScopeValue::ConstValue(v) => {
            assert_eq!(
                v.ty,
                Type::RecordInstance { members: vec![("x".to_string(), Type::CoercibleInteger)] }
            );
        }
        other => panic!("no value: {:?}", other),
    }
}

#[test]
fn fom_fails_on_what_is_no_bound_record() {
    let mut m = manager();
    m.update_value("n", value(1));
    let members: LinkedHashMap<String, Type> = LinkedHashMap::new();
    m.update_value("R", ScopeValue::Record { ident: "R".to_string(), members });
    assert!(!m.fom(&name("missing"), &name("x"), ConstValue::cinteger(1)));
    assert!(!m.fom(&name("n"), &name("x"), ConstValue::cinteger(1)));
    assert!(!m.fom(&name("R"), &name("x"), ConstValue::cinteger(1)));
    let lit = Expression::Integer(1, nowhere());
    assert!(!m.fom(&lit, &name("x"), ConstValue::cinteger(1)));
    assert!(!m.fom(&name("n"), &lit, ConstValue::cinteger(1)));
    let n = m.find_symbol("n").unwrap();
    assert_eq!(*value_at(&m, n), value(1));
}

#[test]
fn fom_fails_without_a_change_when_the_member_is_missing() {
    let mut m = manager();
    m.update_value("p", ScopeValue::ConstValue(instance(vec![("x", ConstValue::cinteger(1))])));
    assert!(!m.fom(&name("p"), &name("z"), ConstValue::cinteger(5)));
    assert!(!m.follow_member_access_mut(&name("p"), &name("z"), ConstValue::cinteger(5)));
    let rf = m.find_symbol("p").unwrap();
    assert_eq!(
        *value_at(&m, rf),
        ScopeValue::ConstValue(instance(vec![("x", ConstValue::cinteger(1))]))
    );
    assert_eq!(m.len(), 2);
}

#[test]
fn follow_member_access_follows_two_shapes() {
    let mut m = manager();
    let inner = instance(vec![("c", ConstValue::cinteger(1))]);
    m.update_value("a", ScopeValue::ConstValue(instance(vec![("b", inner)])));
    assert!(m.follow_member_access_mut(
        &dotted(name("a"), name("b")),
        &name("c"),
        ConstValue::cinteger(2)
    ));
    let rf = m.find_symbol("a").unwrap();
    let changed = instance(vec![("b", instance(vec![("c", ConstValue::cinteger(2))]))]);
    assert_eq!(*value_at(&m, rf), ScopeValue::ConstValue(changed));
    assert!(m.follow_member_access_mut(&name("a"), &name("b"), ConstValue::cinteger(3)));
    match value_at(&m, rf) {
        ScopeValue::ConstValue(v) => {
            assert_eq!(v.kind, instance(vec![("b", ConstValue::cinteger(3))]).kind);
        }
        other => panic!("no value: {:?}", other),
    }
}

#[test]
fn follow_member_access_refuses_deeper_and_other_shapes() {
    let mut m = manager();
    let deepest = instance(vec![("d", ConstValue::cinteger(1))]);
    let inner = instance(vec![("c", deepest)]);
    let a = instance(vec![("b", inner)]);
    m.update_value("a", ScopeValue::ConstValue(a));
    let rf = m.find_symbol("a").unwrap();
    let three = dotted(dotted(name("a"), name("b")), name("c"));
    assert!(!m.follow_member_access_mut(&three, &name("d"), ConstValue::cinteger(2)));
    let plus = Expression::BinaryExpression {
        left: Box::new(name("a")),
        op: Operator::Plus,
        right: Box::new(name("b")),
    };
    assert!(!m.follow_member_access_mut(&plus, &name("c"), ConstValue::cinteger(2)));
    let lit = Expression::Integer(1, nowhere());
    assert!(!m.follow_member_access_mut(&dotted(name("a"), name("b")), &lit, ConstValue::empty()));
    assert!(!m.follow_member_access_mut(&dotted(lit, name("b")), &name("c"), ConstValue::empty()));
    let same = instance(vec![(
        "b",
        instance(vec![("c", instance(vec![("d", ConstValue::cinteger(1))]))]),
    )]);
    assert_eq!(*value_at(&m, rf), ScopeValue::ConstValue(same));
}

#[test]
fn nested_write_fails_where_a_member_on_the_way_is_missing_or_no_record() {
    let mut m = manager();
    let inner = instance(vec![("c", ConstValue::cinteger(1))]);
    m.update_value(
        "a",
        ScopeValue::ConstValue(instance(vec![("b", ConstValue::cinteger(1)), ("r", inner)])),
    );
    let rf = m.find_symbol("a").unwrap();
    assert!(!m.follow_member_access_mut(
        &dotted(name("a"), name("b")),
        &name("c"),
        ConstValue::cinteger(2)
    ));
    assert!(!m.follow_member_access_mut(
        &dotted(name("a"), name("zz")),
        &name("c"),
        ConstValue::cinteger(2)
    ));
    assert!(!m.follow_member_access_mut(
        &dotted(name("a"), name("r")),
        &name("zz"),
        ConstValue::cinteger(2)
    ));
    assert_eq!(
        *value_at(&m, rf),
        ScopeValue::ConstValue(instance(vec![
            ("b", ConstValue::cinteger(1)),
            ("r", instance(vec![("c", ConstValue::cinteger(1))])),
        ]))
    );
    assert!(m.follow_member_access_mut(
        &dotted(name("a"), name("r")),
        &name("c"),
        ConstValue::cinteger(2)
    ));
}
