use rewriting::arena::{
    expr_to_arena, new_earena, new_earenan, new_enodev, pnode, unroll_comma, EArena, ENode, NConst,
    NFun, NValue,
};
use rewriting::eval::{add_v, adelete, aeval, append_expr, asubst, rem_v};
use rewriting::strmap::StrMap;
use rewriting::syntax::{Const, Expr};

fn var(s: &str) -> Expr {
    Expr::Var(s.to_string())
}

fn app(f: Expr, args: Vec<Expr>) -> Expr {
    Expr::App(Box::new(f), Box::new(args))
}

fn leaf(v: NValue) -> ENode {
    ENode { rc: 1, val: v, args: vec![] }
}

fn arena(nodes: Vec<ENode>) -> EArena {
    EArena { emptys: vec![], vars: StrMap::new(), nodes }
}

fn int_(i: i32) -> NValue {
    NValue::C(NConst::I32(i))
}

fn is_int(n: &ENode, i: i32) -> bool {
    matches!(n.val, NValue::C(NConst::I32(x)) if x == i)
}

fn is_err(n: &ENode, msg: &str) -> bool {
    matches!(n.val, NValue::E(ref s) if s == msg)
}

type Bindings = StrMap<Vec<(EArena, usize)>>;

#[test]
fn new_arenas_and_nodes() {
    let a = new_earena();
    assert!(a.nodes.is_empty() && a.emptys.is_empty());
    let b = new_earenan(new_enodev(int_(3)));
    assert_eq!(b.nodes.len(), 1);
    assert!(is_int(&b.nodes[0], 3));
    assert_eq!(b.nodes[0].rc, 1);
    assert!(b.nodes[0].args.is_empty());
}

#[test]
fn pnode_reuses_a_free_slot() {
    let mut a = arena(vec![leaf(int_(1)), leaf(NValue::Unfilled)]);
    a.emptys.push(1);
    let i = pnode(&mut a, leaf(int_(7)));
    assert_eq!(i, 1);
    assert!(a.emptys.is_empty());
    assert!(is_int(&a.nodes[1], 7));
    let j = pnode(&mut a, leaf(int_(8)));
    assert_eq!(j, 2);
    assert!(is_int(&a.nodes[2], 8));
}

#[test]
fn comma_chain_keeps_its_heads() {
    let mut out = vec![];
    unroll_comma(&app(var(","), vec![var("a"), app(var(","), vec![var("b"), var("c")])]), &mut out);
    assert_eq!(out, vec![var("a"), var("b")]);
    let mut none = vec![];
    unroll_comma(&var("a"), &mut none);
    assert!(none.is_empty());
}

#[test]
fn application_with_at_becomes_one_node() {
    let mut a = new_earena();
    let e = app(var("@"), vec![var("f"), app(var(","), vec![var("a"), var("b")])]);
    let r = expr_to_arena(&e, &mut a);
    assert_eq!(r, 2);
    assert!(matches!(a.nodes[0].val, NValue::Var(ref s) if s == "f"));
    assert!(matches!(a.nodes[1].val, NValue::Var(ref s) if s == "a"));
    assert!(matches!(a.nodes[2].val, NValue::App(0)));
    assert_eq!(a.nodes[2].args, vec![1]);
}

#[test]
fn at_with_three_operands_is_an_error() {
    let mut a = new_earena();
    let r = expr_to_arena(&app(var("@"), vec![var("f"), var("x"), var("y")]), &mut a);
    assert!(is_err(&a.nodes[r], "ERROR: non-dyadic '@' not implemented."));
}

#[test]
fn other_application_puts_function_then_arguments() {
    let mut a = new_earena();
    let r = expr_to_arena(&app(var("+"), vec![var("a"), var("b")]), &mut a);
    assert_eq!(r, 3);
    assert!(matches!(a.nodes[3].val, NValue::App(0)));
    assert_eq!(a.nodes[3].args, vec![1, 2]);
}

#[test]
fn lists_and_tokens() {
    let mut a = new_earena();
    let one = expr_to_arena(&Expr::Lst(Box::new(vec![var("x")])), &mut a);
    assert_eq!(one, 0);
    assert!(matches!(a.nodes[0].val, NValue::Var(ref s) if s == "x"));
    let two = expr_to_arena(
        &Expr::Lst(Box::new(vec![Expr::C(Const::I32(1)), Expr::C(Const::I32(2))])),
        &mut a,
    );
    assert!(matches!(a.nodes[two].val, NValue::Lst(ref v) if *v == vec![1, 2]));
    let t = expr_to_arena(&Expr::LParen, &mut a);
    assert!(is_err(&a.nodes[t], "ERROR: expr not recognized: LParen ."));
    let f = expr_to_arena(
        &Expr::C(Const::F(rewriting::syntax::Fun { params: vec!["p".to_string()], body: Box::new(var("p")) })),
        &mut a,
    );
    assert!(matches!(a.nodes[f].val, NValue::C(NConst::F(NFun { body: b, .. })) if b == f - 1));
}

#[test]
fn append_copies_a_subtree() {
    let mut br = arena(vec![leaf(int_(1)), leaf(int_(2)), ENode { rc: 3, val: NValue::App(0), args: vec![0, 1] }]);
    br.emptys = vec![];
    let mut ar = new_earena();
    let r = append_expr(&mut ar, &br, 2);
    assert_eq!(r, 2);
    assert!(is_int(&ar.nodes[0], 1));
    assert!(is_int(&ar.nodes[1], 2));
    assert_eq!(ar.nodes[2].args, vec![0, 1]);
    assert_eq!(ar.nodes[2].rc, 1);
}

#[test]
fn binding_and_unbinding() {
    let mut bvs: Bindings = StrMap::new();
    let a = new_earena();
    add_v(&"x".to_string(), &a, 4, &mut bvs);
    add_v(&"x".to_string(), &a, 5, &mut bvs);
    assert_eq!(bvs.get(&"x".to_string()).unwrap().len(), 2);
    assert_eq!(bvs.get(&"x".to_string()).unwrap()[1].1, 5);
    rem_v(&"x".to_string(), &mut bvs);
    assert_eq!(bvs.get(&"x".to_string()).unwrap().len(), 1);
    assert_eq!(bvs.get(&"x".to_string()).unwrap()[0].1, 4);
    rem_v(&"x".to_string(), &mut bvs);
    assert!(!bvs.contains_key(&"x".to_string()));
    rem_v(&"x".to_string(), &mut bvs);
    assert!(!bvs.contains_key(&"x".to_string()));
}

#[test]
fn unbinding_undoes_binding() {
    let mut bvs: Bindings = StrMap::new();
    let a = new_earena();
    add_v(&"y".to_string(), &a, 1, &mut bvs);
    add_v(&"x".to_string(), &a, 9, &mut bvs);
    rem_v(&"x".to_string(), &mut bvs);
    assert!(!bvs.contains_key(&"x".to_string()));
    assert_eq!(bvs.get(&"y".to_string()).unwrap().len(), 1);
    assert_eq!(bvs.get(&"y".to_string()).unwrap()[0].1, 1);
}

#[test]
fn releasing_nodes() {
    let mut a = arena(vec![ENode { rc: 2, val: int_(1), args: vec![] }]);
    adelete(0, &mut a);
    assert_eq!(a.nodes[0].rc, 1);
    assert!(is_int(&a.nodes[0], 1));
    assert!(a.emptys.is_empty());
    adelete(0, &mut a);
    assert!(matches!(a.nodes[0].val, NValue::Unfilled));
    assert_eq!(a.emptys, vec![0]);
}

#[test]
fn substitution_shares_a_recorded_variable() {
    let mut a = arena(vec![leaf(int_(6)), leaf(NValue::Var("v".to_string()))]);
    a.vars.insert("v".to_string(), 0);
    let mut bvs: Bindings = StrMap::new();
    add_v(&"w".to_string(), &new_earena(), 0, &mut bvs);
    asubst(1, &mut a, &mut bvs);
    assert_eq!(a.nodes[0].rc, 2);
    assert!(is_int(&a.nodes[1], 6));
    assert_eq!(a.nodes[1].rc, 2);
    assert_eq!(bvs.get(&"w".to_string()).unwrap().len(), 1);
}

#[test]
fn substitution_under_a_function_keeps_bindings() {
    let mut a = arena(vec![
        leaf(NValue::Var("q".to_string())),
        leaf(NValue::C(NConst::F(NFun { params: vec!["p".to_string()], body: 0 }))),
    ]);
    let mut bvs: Bindings = StrMap::new();
    add_v(&"p".to_string(), &new_earena(), 0, &mut bvs);
    asubst(1, &mut a, &mut bvs);
    assert!(matches!(a.nodes[0].val, NValue::Var(ref s) if s == "q"));
    assert_eq!(bvs.get(&"p".to_string()).unwrap().len(), 1);
    assert_eq!(bvs.get(&"p".to_string()).unwrap()[0].1, 0);
}

#[test]
fn builtin_addition() {
    let mut a = arena(vec![
        leaf(int_(2)),
        leaf(int_(3)),
        leaf(NValue::Builtin(0)),
        ENode { rc: 1, val: NValue::App(2), args: vec![0, 1] },
    ]);
    let mut bvs: Bindings = StrMap::new();
    let r = aeval(3, &mut a, &mut bvs);
    assert_eq!(r, 3);
    assert!(is_int(&a.nodes[3], 5));
    assert_eq!(a.emptys, vec![0, 1, 2]);
}

#[test]
fn builtin_type_mismatch() {
    let mut a = arena(vec![
        leaf(int_(2)),
        leaf(NValue::E("x".to_string())),
        leaf(NValue::Builtin(0)),
        ENode { rc: 1, val: NValue::App(2), args: vec![0, 1] },
    ]);
    let mut bvs: Bindings = StrMap::new();
    aeval(3, &mut a, &mut bvs);
    assert!(is_err(&a.nodes[3], "ERROR: type mismatch."));
}

#[test]
fn applying_a_constant_is_an_error() {
    let mut a = arena(vec![leaf(int_(2)), ENode { rc: 1, val: NValue::App(0), args: vec![] }]);
    let mut bvs: Bindings = StrMap::new();
    let r = aeval(1, &mut a, &mut bvs);
    assert_eq!(r, 1);
    assert!(is_err(&a.nodes[1], "ERROR: '0' is not a function."));
}

#[test]
fn wrong_arity_is_an_error() {
    let mut a = arena(vec![
        leaf(int_(0)),
        leaf(NValue::C(NConst::F(NFun { params: vec!["p".to_string(), "q".to_string()], body: 0 }))),
        leaf(int_(1)),
        ENode { rc: 1, val: NValue::App(1), args: vec![2] },
    ]);
    let mut bvs: Bindings = StrMap::new();
    aeval(3, &mut a, &mut bvs);
    assert!(is_err(&a.nodes[3], "ERROR: function has arity 2 but only given are 1 parameters."));
    assert!(matches!(a.nodes[1].val, NValue::Unfilled));
    assert_eq!(a.emptys, vec![1]);
}

#[test]
fn applying_a_function_releases_it_and_its_arguments() {
    let mut a = arena(vec![
        leaf(int_(7)),
        leaf(NValue::C(NConst::F(NFun { params: vec!["p".to_string()], body: 0 }))),
        leaf(int_(1)),
        ENode { rc: 1, val: NValue::App(1), args: vec![2] },
    ]);
    let mut bvs: Bindings = StrMap::new();
    let r = aeval(3, &mut a, &mut bvs);
    assert_eq!(r, 3);
    assert!(matches!(a.nodes[3].val, NValue::App(1)));
    assert!(matches!(a.nodes[2].val, NValue::Unfilled));
    assert!(matches!(a.nodes[1].val, NValue::Unfilled));
    assert_eq!(a.emptys, vec![2, 1]);
    assert!(!bvs.contains_key(&"p".to_string()));
}

#[test]
fn unbound_variable_is_an_error() {
    let mut a = arena(vec![leaf(NValue::Var("y".to_string()))]);
    let mut bvs: Bindings = StrMap::new();
    let r = aeval(0, &mut a, &mut bvs);
    assert_eq!(r, 0);
    assert!(is_err(&a.nodes[0], "ERROR: variable '\"y\"' not assigned"));
}

#[test]
fn evaluated_list_loses_its_references() {
    let mut a = arena(vec![leaf(int_(1)), ENode { rc: 4, val: NValue::Lst(vec![0]), args: vec![0] }]);
    let mut bvs: Bindings = StrMap::new();
    aeval(1, &mut a, &mut bvs);
    assert_eq!(a.nodes[1].rc, 1);
    assert!(a.nodes[1].args.is_empty());
    assert!(matches!(a.nodes[1].val, NValue::Lst(ref v) if *v == vec![0]));
}

#[test]
fn evaluation_keeps_earlier_bindings() {
    let mut a = arena(vec![
        leaf(int_(7)),
        leaf(NValue::C(NConst::F(NFun { params: vec!["p".to_string(), "p".to_string()], body: 0 }))),
        leaf(int_(1)),
        leaf(int_(2)),
        ENode { rc: 1, val: NValue::App(1), args: vec![2, 3] },
    ]);
    let mut bvs: Bindings = StrMap::new();
    add_v(&"p".to_string(), &new_earena(), 9, &mut bvs);
    add_v(&"q".to_string(), &new_earena(), 8, &mut bvs);
    aeval(4, &mut a, &mut bvs);
    let p = bvs.get(&"p".to_string()).unwrap();
    assert_eq!(p.len(), 1);
    assert_eq!(p[0].1, 9);
    let q = bvs.get(&"q".to_string()).unwrap();
    assert_eq!(q.len(), 1);
    assert_eq!(q[0].1, 8);
    assert_eq!(a.emptys, vec![2, 3, 1]);
}
