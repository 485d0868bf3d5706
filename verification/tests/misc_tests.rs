use rewriting::plat::EdgeFunc;
use rewriting::shunt::Value;
use rewriting::strmap::StrMap;
use rewriting::syntax::Expr;
use rewriting::text::{is_digit, toggle};

#[test]
fn digits() {
    assert!(is_digit('0'));
    assert!(is_digit('9'));
    assert!(!is_digit('a'));
    assert!(!is_digit('/'));
    assert!(!is_digit(':'));
}

#[test]
fn toggling() {
    assert_eq!(toggle(0), 1);
    assert_eq!(toggle(1), 0);
    assert_eq!(toggle(5), 0);
    assert_eq!(toggle(-1), 0);
}

#[test]
fn toggling_twice_restores_zero_and_one() {
    assert_eq!(toggle(toggle(0)), 0);
    assert_eq!(toggle(toggle(1)), 1);
}

#[test]
fn queue_entries_hold_their_expression() {
    let o = Value::Opr(Expr::Var("+".to_string()));
    let v = Value::Val(Expr::Var("a".to_string()));
    assert_eq!(*o.unwrap(), Expr::Var("+".to_string()));
    assert_eq!(*v.unwrap(), Expr::Var("a".to_string()));
}

#[test]
fn string_map_operations() {
    let mut m: StrMap<usize> = StrMap::new();
    assert!(!m.contains_key(&"a".to_string()));
    m.insert("a".to_string(), 1);
    m.insert("b".to_string(), 2);
    m.insert("a".to_string(), 3);
    assert_eq!(m.get(&"a".to_string()), Some(&3));
    assert_eq!(m.get(&"b".to_string()), Some(&2));
    assert_eq!(m.remove(&"a".to_string()), Some(3));
    assert_eq!(m.get(&"a".to_string()), None);
    assert_eq!(m.remove(&"a".to_string()), None);
    let e = m.remove_entry(&"b".to_string()).unwrap();
    assert_eq!(e, ("b".to_string(), 2));
    assert!(!m.contains_key(&"b".to_string()));
}

#[test]
fn edge_kinds() {
    assert_eq!(EdgeFunc::Floor, EdgeFunc::Floor);
    assert_ne!(EdgeFunc::Floor, EdgeFunc::Wall);
    let w = EdgeFunc::Wall;
    let c = w.clone();
    assert_eq!(c, EdgeFunc::Wall);
}
