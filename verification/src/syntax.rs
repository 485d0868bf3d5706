use vstd::prelude::*;

use crate::arena::EArena;

verus! {

/// A list of expressions.
#[derive(Debug)]
pub struct ExprList {
    stmts: Vec<Expr>,
}

/// Errors that statement evaluation records.
#[derive(Debug)]
pub enum SErr {
    TypeMismatch((EArena, usize), (EArena, usize)),
    FileNotFound(String),
    ParseError,
    ModuleNotFound(String),
}

/// A statement of the language.
#[derive(Debug)]
pub enum Stmt {
    VarDef(String, Expr),
    SetPlat(Expr),
    Import(Vec<String>, Vec<Expr>),
    ModuleBegin(String, Vec<Expr>, Box<Vec<Stmt>>),
    Open(String),
    Type(Expr, Vec<Expr>),
    Ex(Expr),
    E(SErr),
}

/// An expression of the language, and the tokens that the expression parser
/// works with.
#[derive(Debug, PartialEq)]
pub enum Expr {
    Var(String),
    C(Const),
    App(Box<Expr>, Box<Vec<Expr>>),
    Lst(Box<Vec<Expr>>),
    E(String),
    LParen,
    RParen,
    LP(i32),
    RP(i32),
    MetaMkOpr,
    Builtin(String),
    NoOp,
}

/// A constant.  A floating-point literal is kept as the text that stands
/// for its value: the sign and the digits around the dot, without the dot.
#[derive(Debug, PartialEq)]
pub enum Const {
    I32(i32),
    F32(String),
    F(Fun),
    Params(Vec<String>),
}

/// A function: its parameter names and its body.
#[derive(Debug, PartialEq)]
pub struct Fun {
    pub params: Vec<String>,
    pub body: Box<Expr>,
}

/// The mathematical value of an [`Expr`].
pub enum SExpr {
    Var(Seq<char>),
    C(SConst),
    App(Box<SExpr>, Seq<SExpr>),
    Lst(Seq<SExpr>),
    E(Seq<char>),
    LParen,
    RParen,
    LP(i32),
    RP(i32),
    MetaMkOpr,
    Builtin(Seq<char>),
    NoOp,
}

/// The mathematical value of a [`Const`].
pub enum SConst {
    I32(i32),
    F32(Seq<char>),
    F(Seq<Seq<char>>, Box<SExpr>),
    Params(Seq<Seq<char>>),
}

/// The mathematical value of a [`Stmt`]; an error statement keeps no detail.
pub enum SStmt {
    VarDef(Seq<char>, SExpr),
    SetPlat(SExpr),
    Import(Seq<Seq<char>>, Seq<SExpr>),
    ModuleBegin(Seq<char>, Seq<SExpr>, Seq<SStmt>),
    Open(Seq<char>),
    Type(SExpr, Seq<SExpr>),
    Ex(SExpr),
    E,
}

/// The characters of each string.
pub open spec fn strs_view(v: Seq<String>) -> Seq<Seq<char>> {
    Seq::new(v.len(), |i: int| v[i]@)
}

impl Expr {
    /// The mathematical value of the expression.
    pub open spec fn sv(&self) -> SExpr
        decreases self,
    {
        match self {
            Expr::Var(s) => SExpr::Var(s@),
            Expr::C(c) => SExpr::C(
                match c {
                    Const::I32(i) => SConst::I32(*i),
                    Const::F32(t) => SConst::F32(t@),
                    Const::F(f) => SConst::F(strs_view(f.params@), Box::new(f.body.sv())),
                    Const::Params(p) => SConst::Params(strs_view(p@)),
                },
            ),
            Expr::App(f, a) => SExpr::App(
                Box::new(f.sv()),
                Seq::new(
                    a@.len(),
                    |i: int|
                        if 0 <= i < a@.len() {
                            a@[i].sv()
                        } else {
                            SExpr::NoOp
                        },
                ),
            ),
            Expr::Lst(a) => SExpr::Lst(
                Seq::new(
                    a@.len(),
                    |i: int|
                        if 0 <= i < a@.len() {
                            a@[i].sv()
                        } else {
                            SExpr::NoOp
                        },
                ),
            ),
            Expr::E(s) => SExpr::E(s@),
            Expr::LParen => SExpr::LParen,
            Expr::RParen => SExpr::RParen,
            Expr::LP(i) => SExpr::LP(*i),
            Expr::RP(i) => SExpr::RP(*i),
            Expr::MetaMkOpr => SExpr::MetaMkOpr,
            Expr::Builtin(s) => SExpr::Builtin(s@),
            Expr::NoOp => SExpr::NoOp,
        }
    }
}

impl Const {
    pub open spec fn sv(&self) -> SConst {
        match Expr::C(*self).sv() {
            SExpr::C(c) => c,
            _ => SConst::I32(0),
        }
    }
}

/// The mathematical values of expressions.
pub open spec fn exprs_view(v: Seq<Expr>) -> Seq<SExpr> {
    Seq::new(v.len(), |i: int| v[i].sv())
}

impl Stmt {
    /// The mathematical value of the statement.
    pub open spec fn sv(&self) -> SStmt
        decreases self,
    {
        match self {
            Stmt::VarDef(n, e) => SStmt::VarDef(n@, e.sv()),
            Stmt::SetPlat(e) => SStmt::SetPlat(e.sv()),
            Stmt::Import(ns, es) => SStmt::Import(strs_view(ns@), exprs_view(es@)),
            Stmt::ModuleBegin(n, es, fs) => SStmt::ModuleBegin(
                n@,
                exprs_view(es@),
                Seq::new(
                    fs@.len(),
                    |i: int|
                        if 0 <= i < fs@.len() {
                            fs@[i].sv()
                        } else {
                            SStmt::E
                        },
                ),
            ),
            Stmt::Open(n) => SStmt::Open(n@),
            Stmt::Type(e, es) => SStmt::Type(e.sv(), exprs_view(es@)),
            Stmt::Ex(e) => SStmt::Ex(e.sv()),
            Stmt::E(_) => SStmt::E,
        }
    }
}

impl DeepView for Expr {
    type V = SExpr;

    open spec fn deep_view(&self) -> SExpr {
        self.sv()
    }
}

impl DeepView for Const {
    type V = SConst;

    open spec fn deep_view(&self) -> SConst {
        self.sv()
    }
}

impl DeepView for Fun {
    type V = (Seq<Seq<char>>, SExpr);

    open spec fn deep_view(&self) -> (Seq<Seq<char>>, SExpr) {
        (strs_view(self.params@), self.body.sv())
    }
}

impl DeepView for Stmt {
    type V = SStmt;

    open spec fn deep_view(&self) -> SStmt {
        self.sv()
    }
}

/// A copy of a list of strings.
pub fn clone_strings(v: &Vec<String>) -> (r: Vec<String>)
    ensures
        r@.len() == v@.len(),
        forall|i: int| 0 <= i < v@.len() ==> r@[i]@ == v@[i]@,
        strs_view(r@) == strs_view(v@),
{
    let mut r: Vec<String> = Vec::new();
    let mut i: usize = 0;
    while i < v.len()
        invariant
            i <= v@.len(),
            r@.len() == i,
            forall|j: int| 0 <= j < i ==> r@[j]@ == v@[j]@,
        decreases v@.len() - i,
    {
        r.push(v[i].clone());
        i = i + 1;
    }
    assert(strs_view(r@) =~= strs_view(v@));
    r
}

impl Expr {
    /// A deep copy of the expression.
    pub fn copy(&self) -> (r: Expr)
        ensures
            r.sv() == self.sv(),
        decreases self,
    {
        match self {
            Expr::Var(s) => Expr::Var(s.clone()),
            Expr::C(c) => match c {
                Const::I32(i) => Expr::C(Const::I32(*i)),
                Const::F32(t) => Expr::C(Const::F32(t.clone())),
                Const::F(f) => {
                    let b = f.body.copy();
                    Expr::C(Const::F(Fun { params: clone_strings(&f.params), body: Box::new(b) }))
                },
                Const::Params(p) => Expr::C(Const::Params(clone_strings(p))),
            },
            Expr::App(f, a) => {
                let g = f.copy();
                let b = copy_exprs(a);
                let r = Expr::App(Box::new(g), Box::new(b));
                assert(g.sv() == f.sv());
                assert(r.sv() is App);
                assert(self.sv() is App);
                assert(r.sv()->App_1.len() == b@.len());
                assert(self.sv()->App_1.len() == a@.len());
                assert(forall|i: int| 0 <= i < b@.len() ==> r.sv()->App_1[i] == b@[i].sv());
                assert(forall|i: int| 0 <= i < b@.len() ==> self.sv()->App_1[i] == a@[i].sv());
                assert(r.sv()->App_1 =~= self.sv()->App_1);
                assert(r.sv()->App_0 == self.sv()->App_0);
                assert(r.sv() =~~= self.sv()) by {
                    assert(exprs_view(b@) == exprs_view(a@));
                    assert(b@.len() == a@.len());
                    assert forall|i: int| 0 <= i < b@.len() implies b@[i].sv() == a@[i].sv() by {
                        assert(exprs_view(b@)[i] == b@[i].sv());
                        assert(exprs_view(a@)[i] == a@[i].sv());
                    }
                    assert(Seq::new(
                        b@.len(),
                        |i: int|
                            if 0 <= i < b@.len() {
                                b@[i].sv()
                            } else {
                                SExpr::NoOp
                            },
                    ) =~= Seq::new(
                        a@.len(),
                        |i: int|
                            if 0 <= i < a@.len() {
                                a@[i].sv()
                            } else {
                                SExpr::NoOp
                            },
                    ));
                }
                r
            },
            Expr::Lst(a) => {
                let b = copy_exprs(a);
                let r = Expr::Lst(Box::new(b));
                assert(r.sv() is Lst);
                assert(r.sv()->Lst_0.len() == b@.len());
                assert(self.sv()->Lst_0.len() == a@.len());
                assert(forall|i: int| 0 <= i < b@.len() ==> r.sv()->Lst_0[i] == b@[i].sv());
                assert(forall|i: int| 0 <= i < b@.len() ==> self.sv()->Lst_0[i] == a@[i].sv());
                assert(self.sv() is Lst);
                assert(r.sv()->Lst_0 =~= self.sv()->Lst_0);
                assert(r.sv() =~~= self.sv()) by {
                    assert(exprs_view(b@) == exprs_view(a@));
                    assert(b@.len() == a@.len());
                    assert forall|i: int| 0 <= i < b@.len() implies b@[i].sv() == a@[i].sv() by {
                        assert(exprs_view(b@)[i] == b@[i].sv());
                        assert(exprs_view(a@)[i] == a@[i].sv());
                    }
                    assert(Seq::new(
                        b@.len(),
                        |i: int|
                            if 0 <= i < b@.len() {
                                b@[i].sv()
                            } else {
                                SExpr::NoOp
                            },
                    ) =~= Seq::new(
                        a@.len(),
                        |i: int|
                            if 0 <= i < a@.len() {
                                a@[i].sv()
                            } else {
                                SExpr::NoOp
                            },
                    ));
                }
                r
            },
            Expr::E(s) => Expr::E(s.clone()),
            Expr::LParen => Expr::LParen,
            Expr::RParen => Expr::RParen,
            Expr::LP(i) => Expr::LP(*i),
            Expr::RP(i) => Expr::RP(*i),
            Expr::MetaMkOpr => Expr::MetaMkOpr,
            Expr::Builtin(s) => Expr::Builtin(s.clone()),
            Expr::NoOp => Expr::NoOp,
        }
    }
}

/// A deep copy of a list of expressions.
pub fn copy_exprs(v: &Vec<Expr>) -> (r: Vec<Expr>)
    ensures
        r@.len() == v@.len(),
        forall|i: int| 0 <= i < v@.len() ==> #[trigger] r@[i].sv() == v@[i].sv(),
        exprs_view(r@) == exprs_view(v@),
    decreases v,
{
    let mut r: Vec<Expr> = Vec::new();
    let mut i: usize = 0;
    while i < v.len()
        invariant
            i <= v@.len(),
            r@.len() == i,
            forall|j: int| 0 <= j < i ==> r@[j].sv() == v@[j].sv(),
        decreases v@.len() - i,
    {
        proof {
            vstd::std_specs::vec::axiom_vec_index_decreases(*v, i as int);
        }
        r.push(v[i].copy());
        i = i + 1;
    }
    assert(exprs_view(r@) =~= exprs_view(v@));
    r
}

} // verus!
