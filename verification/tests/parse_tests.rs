use rewriting::grammar::{
    exprp, exprp_panics, importp, levelp, levelsp, modbeginp, openp, setplatp, stmtp, stmtsp,
    stmtsp_panics, typep, vardefp,
};
use rewriting::strmap::StrMap;
use rewriting::syntax::{Const, Expr, Stmt};

fn prec() -> StrMap<usize> {
    let mut p = StrMap::new();
    p.insert(":".to_string(), 0);
    p.insert("->".to_string(), 100);
    p.insert("@".to_string(), 200);
    p.insert(",".to_string(), 300);
    p
}

fn var(s: &str) -> Expr {
    Expr::Var(s.to_string())
}

fn app(f: Expr, args: Vec<Expr>) -> Expr {
    Expr::App(Box::new(f), Box::new(args))
}

fn int_(i: i32) -> Expr {
    Expr::C(Const::I32(i))
}

#[test]
fn infix_operator_without_precedence() {
    let (rest, e) = exprp("a + b;", &prec()).unwrap();
    assert_eq!(rest, ";");
    assert_eq!(e, app(var("+"), vec![var("a"), var("b")]));
}

#[test]
fn list_of_integers() {
    let (rest, e) = exprp("1 2 3;", &prec()).unwrap();
    assert_eq!(rest, ";");
    assert_eq!(e, Expr::Lst(Box::new(vec![int_(1), int_(2), int_(3)])));
}

#[test]
fn negative_integer_is_a_one_element_list() {
    let (rest, e) = exprp("-7;", &prec()).unwrap();
    assert_eq!(rest, ";");
    assert_eq!(e, Expr::Lst(Box::new(vec![int_(-7)])));
}

#[test]
fn rising_precedence_nests_to_the_right() {
    let (rest, e) = exprp("a : b -> c;", &prec()).unwrap();
    assert_eq!(rest, ";");
    assert_eq!(e, app(var(":"), vec![var("a"), app(var("->"), vec![var("b"), var("c")])]));
}

#[test]
fn falling_precedence_replaces_the_stacked_operator() {
    let (rest, e) = exprp("a -> b : c;", &prec()).unwrap();
    assert_eq!(rest, ";");
    assert_eq!(e, app(var(":"), vec![var("a"), var("b")]));
}

#[test]
fn parenthesised_value() {
    let (rest, e) = exprp("( a ) ;", &prec()).unwrap();
    assert_eq!(rest, ";");
    assert_eq!(e, var("a"));
}

#[test]
fn parenthesised_operator_position_underflows() {
    let (rest, e) = exprp("f ( x ) ;", &prec()).unwrap();
    assert_eq!(rest, ";");
    assert_eq!(e, Expr::E("ERROR: syntax error caused stack underflow.".to_string()));
}

#[test]
fn expression_ended_by_closing_brace() {
    let (rest, e) = exprp("x y }", &prec()).unwrap();
    assert_eq!(rest, " }");
    assert_eq!(e, Expr::E("ERROR: syntax error caused stack underflow.".to_string()));
    let (rest, e) = exprp("x y z }", &prec()).unwrap();
    assert_eq!(rest, " }");
    assert_eq!(e, app(var("y"), vec![var("x"), var("z")]));
}

#[test]
fn expression_without_end_is_a_variable() {
    let (rest, e) = exprp("x", &prec()).unwrap();
    assert_eq!(rest, "");
    assert_eq!(e, var("x"));
}

#[test]
fn expression_without_end_is_a_constant() {
    let (rest, e) = exprp("42", &prec()).unwrap();
    assert_eq!(rest, "");
    assert_eq!(e, int_(42));
}

#[test]
fn leading_white_space_is_skipped() {
    let (rest1, e1) = exprp("   a + b;", &prec()).unwrap();
    let (rest2, e2) = exprp("a + b;", &prec()).unwrap();
    assert_eq!(rest1, rest2);
    assert_eq!(e1, e2);
}

#[test]
fn empty_input_fails() {
    assert!(!exprp_panics("", &prec()));
    assert!(exprp("", &prec()).is_err());
}

#[test]
fn unmatched_closing_parenthesis_panics() {
    assert!(exprp_panics(") ;", &prec()));
}

#[test]
fn integer_overflow_panics() {
    assert!(exprp_panics("99999999999;", &prec()));
    assert!(!exprp_panics("2147483647;", &prec()));
    assert!(!exprp_panics("-2147483648;", &prec()));
    assert!(exprp_panics("2147483648;", &prec()));
}

#[test]
fn list_in_operator_position_panics() {
    assert!(exprp_panics("a 1;", &prec()));
}

#[test]
fn level_and_levels() {
    let (rest, e) = levelp("a;b;", &prec()).unwrap();
    assert_eq!(rest, "b;");
    assert_eq!(e, var("a"));
    let (rest, es) = levelsp("a; b;", &prec()).unwrap();
    assert_eq!(rest, "");
    assert_eq!(es, vec![var("a"), var("b")]);
    assert!(levelsp("a", &prec()).is_err());
}

#[test]
fn variable_definition() {
    let (rest, st) = vardefp("var x =: 1;", &prec()).unwrap();
    assert_eq!(rest, ";");
    match st {
        Stmt::VarDef(n, e) => {
            assert_eq!(n, "x");
            assert_eq!(e, Expr::Lst(Box::new(vec![int_(1)])));
        },
        _ => panic!("not a definition"),
    }
    assert!(vardefp("varx =: 1;", &prec()).is_err());
}

#[test]
fn platform_statement() {
    let (rest, st) = setplatp("platform p;", &prec()).unwrap();
    assert_eq!(rest, ";");
    assert!(matches!(st, Stmt::SetPlat(Expr::Var(ref s)) if s == "p"));
}

#[test]
fn import_with_prefix_argument() {
    let (rest, st) = importp("import a/b !{ x };", &prec()).unwrap();
    assert_eq!(rest, ";");
    match st {
        Stmt::Import(ns, pre) => {
            assert_eq!(ns, vec!["a".to_string(), "b".to_string()]);
            assert_eq!(pre, vec![var("x")]);
        },
        _ => panic!("not an import"),
    }
}

#[test]
fn open_statement() {
    let (rest, st) = openp("open M;", &prec()).unwrap();
    assert_eq!(rest, ";");
    assert!(matches!(st, Stmt::Open(ref s) if s == "M"));
}

#[test]
fn type_statement() {
    let (rest, st) = typep("type { t } { a; b; };", &prec()).unwrap();
    assert_eq!(rest, ";");
    match st {
        Stmt::Type(n, lst) => {
            assert_eq!(n, var("t"));
            assert_eq!(lst, vec![var("a"), var("b")]);
        },
        _ => panic!("not a type statement"),
    }
}

#[test]
fn module_statement() {
    let (rest, st) = modbeginp("module M { var x =: 1; };", &prec()).unwrap();
    assert_eq!(rest, ";");
    match st {
        Stmt::ModuleBegin(n, pre, body) => {
            assert_eq!(n, "M");
            assert!(pre.is_empty());
            assert_eq!(body.len(), 1);
            assert!(matches!(body[0], Stmt::VarDef(ref x, _) if x == "x"));
        },
        _ => panic!("not a module"),
    }
}

#[test]
fn statements() {
    let (rest, sts) = stmtp("var x =: 1; x;", &prec()).unwrap();
    assert_eq!(rest, "x;");
    assert!(matches!(sts, Stmt::VarDef(_, _)));
    assert!(!stmtsp_panics("var x =: 1; x;", &prec()));
    let (rest, sts) = stmtsp("var x =: 1; x;", &prec()).unwrap();
    assert_eq!(rest, "");
    assert_eq!(sts.len(), 2);
    assert!(matches!(sts[1], Stmt::Ex(Expr::Var(ref s)) if s == "x"));
    assert!(stmtsp("", &prec()).is_err());
}
