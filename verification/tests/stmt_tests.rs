use rewriting::stmt_eval::{new_pstate, seval, PState};
use rewriting::strmap::StrMap;
use rewriting::syntax::{Const, Expr, SErr, Stmt};

fn prec() -> StrMap<usize> {
    let mut p = StrMap::new();
    p.insert(":".to_string(), 0);
    p.insert("->".to_string(), 100);
    p.insert("@".to_string(), 200);
    p.insert(",".to_string(), 300);
    p
}

fn no_files() -> StrMap<String> {
    StrMap::new()
}

fn top(ps: &PState, name: &str) -> Option<usize> {
    ps.bvs.get(&name.to_string()).map(|v| v[v.len() - 1].1)
}

fn vardef(name: &str, e: Expr) -> Stmt {
    Stmt::VarDef(name.to_string(), e)
}

fn int_(i: i32) -> Expr {
    Expr::C(Const::I32(i))
}

#[test]
fn empty_state() {
    let ps = new_pstate();
    assert!(ps.errs.is_empty());
    assert!(!ps.bvs.contains_key(&"x".to_string()));
    assert!(!ps.mods.contains_key(&"M".to_string()));
}

#[test]
fn definition_binds_the_qualified_name() {
    let mut ps = new_pstate();
    let r = seval(&vardef("x", int_(1)), &mut ps, &"".to_string(), &prec(), &no_files());
    assert_eq!(r, Some("x".to_string()));
    assert_eq!(top(&ps, "x"), Some(0));
    let r = seval(&vardef("y", int_(2)), &mut ps, &"N.".to_string(), &prec(), &no_files());
    assert_eq!(r, Some("y".to_string()));
    assert_eq!(top(&ps, "N.y"), Some(0));
    assert!(!ps.bvs.contains_key(&"y".to_string()));
}

#[test]
fn redefinition_stacks_bindings() {
    let mut ps = new_pstate();
    seval(&vardef("x", int_(1)), &mut ps, &"".to_string(), &prec(), &no_files());
    seval(&vardef("x", Expr::Lst(Box::new(vec![int_(1), int_(2)]))), &mut ps, &"".to_string(), &prec(), &no_files());
    let v = ps.bvs.get(&"x".to_string()).unwrap();
    assert_eq!(v.len(), 2);
    assert_eq!(v[1].1, 2);
    assert!(v[1].0.nodes.is_empty());
}

#[test]
fn expression_statement_changes_no_binding() {
    let mut ps = new_pstate();
    let r = seval(&Stmt::Ex(Expr::Var("z".to_string())), &mut ps, &"".to_string(), &prec(), &no_files());
    assert_eq!(r, None);
    assert!(!ps.bvs.contains_key(&"z".to_string()));
    assert!(ps.errs.is_empty());
}

#[test]
fn other_statements_change_nothing() {
    let mut ps = new_pstate();
    assert_eq!(seval(&Stmt::SetPlat(int_(1)), &mut ps, &"".to_string(), &prec(), &no_files()), None);
    assert_eq!(seval(&Stmt::Type(int_(1), vec![]), &mut ps, &"".to_string(), &prec(), &no_files()), None);
    assert_eq!(seval(&Stmt::E(SErr::ParseError), &mut ps, &"".to_string(), &prec(), &no_files()), None);
    assert!(ps.errs.is_empty());
    assert!(!ps.bvs.contains_key(&"".to_string()));
}

#[test]
fn opening_a_missing_module_is_recorded() {
    let mut ps = new_pstate();
    seval(&Stmt::Open("M".to_string()), &mut ps, &"".to_string(), &prec(), &no_files());
    assert_eq!(ps.errs.len(), 1);
    assert!(matches!(ps.errs[0], SErr::ModuleNotFound(ref n) if n == "M"));
}

#[test]
fn module_then_open() {
    let mut ps = new_pstate();
    let body = vec![vardef("x", int_(1)), Stmt::Ex(int_(2)), vardef("y", int_(3))];
    let m = Stmt::ModuleBegin("M".to_string(), vec![], Box::new(body));
    assert_eq!(seval(&m, &mut ps, &"".to_string(), &prec(), &no_files()), None);
    assert_eq!(top(&ps, "M.x"), Some(0));
    assert_eq!(top(&ps, "M.y"), Some(0));
    assert!(!ps.bvs.contains_key(&"x".to_string()));
    let md = ps.mods.get(&"M".to_string()).unwrap();
    assert_eq!(md.name, "M");
    assert_eq!(md.fields, vec!["x".to_string(), "y".to_string()]);
    seval(&Stmt::Open("M".to_string()), &mut ps, &"".to_string(), &prec(), &no_files());
    assert_eq!(top(&ps, "x"), Some(0));
    assert_eq!(top(&ps, "y"), Some(0));
    assert!(ps.errs.is_empty());
}

#[test]
fn module_errors_stay_in_the_module() {
    let mut ps = new_pstate();
    let body = vec![Stmt::Open("Q".to_string())];
    let m = Stmt::ModuleBegin("M".to_string(), vec![], Box::new(body));
    seval(&m, &mut ps, &"".to_string(), &prec(), &no_files());
    assert!(ps.errs.is_empty());
    assert!(ps.mods.contains_key(&"M".to_string()));
}

#[test]
fn a_module_is_defined_once() {
    let mut ps = new_pstate();
    let m1 = Stmt::ModuleBegin("M".to_string(), vec![], Box::new(vec![vardef("x", int_(1))]));
    let m2 = Stmt::ModuleBegin("M".to_string(), vec![], Box::new(vec![vardef("z", int_(1))]));
    seval(&m1, &mut ps, &"".to_string(), &prec(), &no_files());
    seval(&m2, &mut ps, &"".to_string(), &prec(), &no_files());
    assert!(!ps.bvs.contains_key(&"M.z".to_string()));
    assert_eq!(ps.mods.get(&"M".to_string()).unwrap().fields, vec!["x".to_string()]);
}

#[test]
fn nested_context_has_no_dot() {
    let mut ps = new_pstate();
    let m = Stmt::ModuleBegin("M".to_string(), vec![], Box::new(vec![vardef("x", int_(1))]));
    seval(&m, &mut ps, &"A.".to_string(), &prec(), &no_files());
    assert_eq!(top(&ps, "A.Mx"), Some(0));
}

#[test]
fn import_of_a_missing_file() {
    let mut ps = new_pstate();
    let st = Stmt::Import(vec!["lib".to_string(), "mod".to_string()], vec![]);
    seval(&st, &mut ps, &"".to_string(), &prec(), &no_files());
    assert_eq!(ps.errs.len(), 1);
    assert!(matches!(ps.errs[0], SErr::FileNotFound(ref p) if p == "lib"));
}

#[test]
fn import_reads_and_evaluates_a_file() {
    let mut files = StrMap::new();
    files.insert("lib/sub.iy".to_string(), "var z =: 5; var w =: 6;".to_string());
    let mut ps = new_pstate();
    let st = Stmt::Import(vec!["lib".to_string(), "sub".to_string(), "m".to_string()], vec![]);
    assert_eq!(seval(&st, &mut ps, &"".to_string(), &prec(), &files), None);
    assert!(ps.errs.is_empty());
    assert_eq!(top(&ps, "z"), Some(0));
    assert_eq!(top(&ps, "w"), Some(0));
}

#[test]
fn import_of_a_file_that_does_not_parse() {
    let mut files = StrMap::new();
    files.insert("a.iy".to_string(), "var".to_string());
    let mut ps = new_pstate();
    let st = Stmt::Import(vec!["a".to_string(), "m".to_string()], vec![]);
    seval(&st, &mut ps, &"".to_string(), &prec(), &files);
    assert_eq!(ps.errs.len(), 1);
    assert!(matches!(ps.errs[0], SErr::ParseError));
}

#[test]
fn single_name_import_reads_the_bare_extension() {
    let mut files = StrMap::new();
    files.insert(".iy".to_string(), "var k =: 1;".to_string());
    let mut ps = new_pstate();
    seval(&Stmt::Import(vec!["m".to_string()], vec![]), &mut ps, &"".to_string(), &prec(), &files);
    assert_eq!(top(&ps, "k"), Some(0));
}

#[test]
fn every_variable_keeps_a_binding() {
    let mut ps = new_pstate();
    let body = vec![vardef("x", int_(1))];
    seval(&Stmt::ModuleBegin("M".to_string(), vec![], Box::new(body)), &mut ps, &"".to_string(), &prec(), &no_files());
    seval(&Stmt::Open("M".to_string()), &mut ps, &"".to_string(), &prec(), &no_files());
    seval(&vardef("x", int_(2)), &mut ps, &"".to_string(), &prec(), &no_files());
    seval(&Stmt::Ex(Expr::Var("u".to_string())), &mut ps, &"".to_string(), &prec(), &no_files());
    for k in ["x", "M.x"] {
        assert!(ps.bvs.get(&k.to_string()).unwrap().len() > 0);
    }
    assert_eq!(ps.bvs.get(&"x".to_string()).unwrap().len(), 2);
}
