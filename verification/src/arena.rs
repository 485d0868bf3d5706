use vstd::prelude::*;

use crate::strmap::StrMap;
use crate::syntax::{strs_view, clone_strings, Expr, Const, SExpr, SConst, exprs_view};
use crate::text::{lit, concat, i32_dec, int_dec, debug_string, str_debug};

verus! {

/// A function value in the arena: parameter names and the index of the body.
#[derive(Debug)]
pub struct NFun {
    pub params: Vec<String>,
    pub body: usize,
}

/// A constant value in the arena.
#[derive(Debug)]
pub enum NConst {
    I32(i32),
    F32(String),
    F(NFun),
    Params(Vec<String>),
}

/// The value of an arena node; children are given by index.
#[derive(Debug)]
pub enum NValue {
    Var(String),
    C(NConst),
    Lst(Vec<usize>),
    App(usize),
    E(String),
    Builtin(usize),
    Unfilled,
}

/// An arena node: a reference count, a value and the indices of the
/// arguments of an application.
#[derive(Debug)]
pub struct ENode {
    pub rc: usize,
    pub val: NValue,
    pub args: Vec<usize>,
}

/// An arena of expression nodes, with the slots that are free for reuse and
/// the variables that have been substituted.
#[derive(Debug)]
pub struct EArena {
    pub emptys: Vec<usize>,
    pub vars: StrMap<usize>,
    pub nodes: Vec<ENode>,
}


// ---------------------------------------------------------------------------
// Mathematical values
// ---------------------------------------------------------------------------

/// The mathematical value of an [`NConst`].
pub enum SNConst {
    I32(i32),
    F32(Seq<char>),
    F(Seq<Seq<char>>, usize),
    Params(Seq<Seq<char>>),
}

/// The mathematical value of an [`NValue`].
pub enum SVal {
    Var(Seq<char>),
    C(SNConst),
    Lst(Seq<usize>),
    App(usize),
    E(Seq<char>),
    Builtin(usize),
    Unfilled,
}

/// The mathematical value of an [`ENode`].
pub struct SNode {
    pub rc: usize,
    pub val: SVal,
    pub args: Seq<usize>,
}

/// The mathematical value of an [`EArena`].
pub struct SArena {
    pub emptys: Seq<usize>,
    pub vars: Map<Seq<char>, usize>,
    pub nodes: Seq<SNode>,
}

impl DeepView for NValue {
    type V = SVal;

    open spec fn deep_view(&self) -> SVal {
        match self {
            NValue::Var(s) => SVal::Var(s@),
            NValue::C(c) => SVal::C(
                match c {
                    NConst::I32(i) => SNConst::I32(*i),
                    NConst::F32(t) => SNConst::F32(t@),
                    NConst::F(f) => SNConst::F(strs_view(f.params@), f.body),
                    NConst::Params(p) => SNConst::Params(strs_view(p@)),
                },
            ),
            NValue::Lst(v) => SVal::Lst(v@),
            NValue::App(i) => SVal::App(*i),
            NValue::E(s) => SVal::E(s@),
            NValue::Builtin(i) => SVal::Builtin(*i),
            NValue::Unfilled => SVal::Unfilled,
        }
    }
}

impl DeepView for ENode {
    type V = SNode;

    open spec fn deep_view(&self) -> SNode {
        SNode { rc: self.rc, val: self.val.deep_view(), args: self.args@ }
    }
}

impl DeepView for EArena {
    type V = SArena;

    open spec fn deep_view(&self) -> SArena {
        SArena { emptys: self.emptys@, vars: self.vars@, nodes: self.nodes.deep_view() }
    }
}

/// A node with reference count 1, the value `v` and no arguments.
pub open spec fn leaf(v: SVal) -> SNode {
    SNode { rc: 1, val: v, args: seq![] }
}

/// An arena with no nodes.
pub open spec fn empty_arena() -> SArena {
    SArena { emptys: seq![], vars: Map::empty(), nodes: seq![] }
}

// ---------------------------------------------------------------------------
// Copies
// ---------------------------------------------------------------------------

impl NValue {
    /// A deep copy.
    pub fn copy(&self) -> (r: NValue)
        ensures
            r.deep_view() == self.deep_view(),
    {
        match self {
            NValue::Var(s) => NValue::Var(s.clone()),
            NValue::C(c) => NValue::C(
                match c {
                    NConst::I32(i) => NConst::I32(*i),
                    NConst::F32(t) => NConst::F32(t.clone()),
                    NConst::F(f) => NConst::F(NFun { params: clone_strings(&f.params), body: f.body }),
                    NConst::Params(p) => NConst::Params(clone_strings(p)),
                },
            ),
            NValue::Lst(v) => NValue::Lst(v.clone()),
            NValue::App(i) => NValue::App(*i),
            NValue::E(s) => NValue::E(s.clone()),
            NValue::Builtin(i) => NValue::Builtin(*i),
            NValue::Unfilled => NValue::Unfilled,
        }
    }
}

impl ENode {
    /// A deep copy.
    pub fn copy(&self) -> (r: ENode)
        ensures
            r.deep_view() == self.deep_view(),
    {
        ENode { rc: self.rc, val: self.val.copy(), args: self.args.clone() }
    }
}

fn copy_nodes(v: &Vec<ENode>) -> (r: Vec<ENode>)
    ensures
        r.deep_view() == v.deep_view(),
{
    let mut r: Vec<ENode> = Vec::new();
    let mut i: usize = 0;
    while i < v.len()
        invariant
            i <= v@.len(),
            r@.len() == i,
            forall|j: int| 0 <= j < i ==> r@[j].deep_view() == v@[j].deep_view(),
        decreases v@.len() - i,
    {
        r.push(v[i].copy());
        i = i + 1;
    }
    assert(r.deep_view() =~= v.deep_view());
    r
}

impl EArena {
    /// A deep copy.
    pub fn copy(&self) -> (r: EArena)
        ensures
            r.deep_view() == self.deep_view(),
    {
        let emptys = self.emptys.clone();
        let vars = self.vars.copy_with(|x: &usize| -> (y: usize) ensures y == *x { *x });
        let nodes = copy_nodes(&self.nodes);
        assert(emptys@ =~= self.emptys@);
        assert(vars@ =~= self.vars@);
        EArena { emptys, vars, nodes }
    }
}

// ---------------------------------------------------------------------------
// Building arenas
// ---------------------------------------------------------------------------

/// An empty arena.
pub fn new_earena() -> (r: EArena)
    ensures
        r.deep_view() == empty_arena(),
{
    let r = EArena { emptys: Vec::new(), vars: StrMap::new(), nodes: Vec::new() };
    assert(r.deep_view().nodes =~= seq![]);
    assert(r.deep_view().emptys =~= seq![]);
    r
}

/// An arena that holds the one node `n`.
pub fn new_earenan(n: ENode) -> (r: EArena)
    ensures
        r.deep_view() == (SArena { nodes: seq![n.deep_view()], ..empty_arena() }),
{
    let ghost nv = n.deep_view();
    let mut nodes: Vec<ENode> = Vec::new();
    nodes.push(n);
    let r = EArena { emptys: Vec::new(), vars: StrMap::new(), nodes };
    assert(r.deep_view().nodes =~= seq![nv]);
    assert(r.deep_view().emptys =~= seq![]);
    r
}

/// A node with reference count 1, the value `val` and no arguments.
pub fn new_enodev(val: NValue) -> (r: ENode)
    ensures
        r.deep_view() == leaf(val.deep_view()),
{
    let r = ENode { rc: 1, val, args: Vec::new() };
    assert(r.deep_view().args =~= seq![]);
    r
}

/// What `pnode` does: the node goes into the most recently freed slot, or,
/// where none is free, at the end.  `None` where the free slot is out of
/// range, or where the arena is as long as a vector can be.
pub open spec fn sp_pnode(a: SArena, n: SNode) -> Option<(SArena, usize)> {
    if a.emptys.len() > 0 {
        let i = a.emptys.last();
        if i < a.nodes.len() {
            Some((SArena { emptys: a.emptys.drop_last(), nodes: a.nodes.update(i as int, n), ..a }, i))
        } else {
            None
        }
    } else if a.nodes.len() < usize::MAX {
        Some((SArena { nodes: a.nodes.push(n), ..a }, a.nodes.len() as usize))
    } else {
        None
    }
}

/// Puts the node `n` into the arena and gives back its index.
pub fn pnode(ar: &mut EArena, n: ENode) -> (r: usize)
    requires
        sp_pnode(old(ar).deep_view(), n.deep_view()) is Some,
    ensures
        sp_pnode(old(ar).deep_view(), n.deep_view()) == Some((final(ar).deep_view(), r)),
        r < final(ar).nodes@.len(),
{
    let ghost a = ar.deep_view();
    let ghost nv = n.deep_view();
    match ar.emptys.pop() {
        Some(i) => {
            ar.nodes.set(i, n);
            assert(ar.deep_view().nodes =~= a.nodes.update(i as int, nv));
            i
        },
        None => {
            ar.nodes.push(n);
            assert(ar.deep_view().nodes =~= a.nodes.push(nv));
            ar.nodes.len() - 1
        },
    }
}

/// The node that `pnode` stores is at the index it gives back, and nothing
/// else changes but the slot and the free list.
pub proof fn law_pnode_stores(a: SArena, n: SNode)
    requires
        sp_pnode(a, n) is Some,
    ensures
        ({
            let (b, i) = sp_pnode(a, n).unwrap();
            &&& i < b.nodes.len()
            &&& b.nodes[i as int] == n
            &&& b.nodes.len() >= a.nodes.len()
            &&& b.vars == a.vars
            &&& forall|j: int| 0 <= j < a.nodes.len() && j != i ==> b.nodes[j] == a.nodes[j]
        }),
{
}


// ---------------------------------------------------------------------------
// From expressions to arena nodes
// ---------------------------------------------------------------------------

/// The number of expression nodes in `e`.
pub open spec fn esize(e: SExpr) -> nat
    decreases e,
{
    match e {
        SExpr::App(f, args) => 1 + esize(*f) + esizes(args),
        SExpr::Lst(l) => 1 + esizes(l),
        SExpr::C(SConst::F(_, body)) => 1 + esize(*body),
        _ => 1,
    }
}

/// The number of expression nodes in all of `es`.
pub open spec fn esizes(es: Seq<SExpr>) -> nat
    decreases es,
{
    if es.len() == 0 {
        0
    } else {
        esize(es[0]) + esizes(es.subrange(1, es.len() as int))
    }
}

/// An element of a list is smaller than the whole list.
pub proof fn lemma_esizes_elem(es: Seq<SExpr>, k: int)
    requires
        0 <= k < es.len(),
    ensures
        esize(es[k]) < esizes(es) + 1,
    decreases es.len(),
{
    if k > 0 {
        lemma_esizes_elem(es.subrange(1, es.len() as int), k - 1);
    }
}

/// The size of two lists one after the other is the sum of their sizes.
pub proof fn lemma_esizes_concat(a: Seq<SExpr>, b: Seq<SExpr>)
    ensures
        esizes(a + b) == esizes(a) + esizes(b),
    decreases a.len(),
{
    if a.len() == 0 {
        assert(a + b =~= b);
    } else {
        lemma_esizes_concat(a.subrange(1, a.len() as int), b);
        assert((a + b).subrange(1, (a + b).len() as int) =~= a.subrange(1, a.len() as int) + b);
    }
}

/// Whether `e` is the variable `name`.
pub open spec fn is_var_named(e: SExpr, name: Seq<char>) -> bool {
    e matches SExpr::Var(s) && s == name
}

/// The operands of a chain of comma applications `a , (b , (c , ...))`: the
/// left operand of each, in order.  `None` where a comma application does not
/// have exactly two operands.
pub open spec fn sp_unroll(e: SExpr) -> Option<Seq<SExpr>>
    decreases e,
{
    match e {
        SExpr::App(f, args) => if is_var_named(*f, ","@) {
            if args.len() == 2 {
                match sp_unroll(args[1]) {
                    Some(r) => Some(seq![args[0]] + r),
                    None => None,
                }
            } else {
                None
            }
        } else {
            Some(seq![])
        },
        _ => Some(seq![]),
    }
}

/// The operands of a comma chain are no larger than the chain.
pub proof fn lemma_unroll_size(e: SExpr)
    ensures
        sp_unroll(e) matches Some(r) ==> esizes(r) <= esize(e),
    decreases e,
{
    if let SExpr::App(f, args) = e {
        if is_var_named(*f, ","@) && args.len() == 2 {
            lemma_unroll_size(args[1]);
            if let Some(r) = sp_unroll(args[1]) {
                lemma_esizes_concat(seq![args[0]], r);
                let e0: Seq<SExpr> = seq![];
                assert(esizes(e0) == 0);
                assert(seq![args[0]].subrange(1, 1) =~= e0);
                assert(esizes(seq![args[0]]) == esize(args[0]));
                assert(args.subrange(1, 2) =~= seq![args[1]]);
                assert(seq![args[1]].subrange(1, 1) =~= e0);
                assert(esizes(seq![args[1]]) == esize(args[1]));
                assert(esizes(args) == esize(args[0]) + esize(args[1]));
            }
        } else {
            let e0: Seq<SExpr> = seq![];
            assert(esizes(e0) == 0);
        }
    } else {
        let e0: Seq<SExpr> = seq![];
        assert(esizes(e0) == 0);
    }
}

/// Every expression has at least one node.
pub proof fn lemma_esize_pos(e: SExpr)
    ensures
        esize(e) >= 1,
{
}

/// Appends to `outv` the operands of the comma chain `e` (see `sp_unroll`).
pub fn unroll_comma(e: &Expr, outv: &mut Vec<Expr>)
    requires
        sp_unroll(e.sv()) is Some,
    ensures
        exprs_view(final(outv)@) == exprs_view(old(outv)@) + sp_unroll(e.sv()).unwrap(),
    decreases e,
{
    let ghost o = exprs_view(outv@);
    match e {
        Expr::App(f, args) => {
            let ghost es = e.sv();
            assert(es is App);
            assert(*es->App_0 == f.sv());
            let is_comma = match &**f {
                Expr::Var(s) => *s == lit(","),
                _ => false,
            };
            assert(is_comma == is_var_named(f.sv(), ","@));
            if is_comma {
                assert(args@.len() == 2);
                assert(es->App_1[0] == args@[0].sv());
                assert(es->App_1[1] == args@[1].sv());
                outv.push(args[0].copy());
                proof {
                    vstd::std_specs::vec::axiom_vec_index_decreases(**args, 1);
                }
                unroll_comma(&args[1], outv);
                assert(exprs_view(outv@) =~= o + sp_unroll(es).unwrap());
            } else {
                assert(exprs_view(outv@) =~= o + seq![]);
            }
        },
        _ => {
            assert(exprs_view(outv@) =~= o + seq![]);
        },
    }
}

/// The error text for an application of `@` to other than two operands.
pub open spec fn nondyadic_msg() -> Seq<char> {
    "ERROR: non-dyadic '@' not implemented."@
}

/// What the derived `Debug` prints for the parser tokens.
pub open spec fn token_debug(e: SExpr) -> Seq<char> {
    match e {
        SExpr::LParen => "LParen"@,
        SExpr::RParen => "RParen"@,
        SExpr::LP(i) => "LP("@ + int_dec(i as int) + ")"@,
        SExpr::RP(i) => "RP("@ + int_dec(i as int) + ")"@,
        SExpr::MetaMkOpr => "MetaMkOpr"@,
        SExpr::Builtin(s) => "Builtin("@ + str_debug(s) + ")"@,
        SExpr::NoOp => "NoOp"@,
        _ => seq![],
    }
}

/// The error text for a parser token that is not an expression.
pub open spec fn unrecognized_msg(e: SExpr) -> Seq<char> {
    "ERROR: expr not recognized: "@ + token_debug(e) + " ."@
}

fn token_debug_string(e: &Expr) -> (r: String)
    ensures
        r@ == token_debug(e.sv()),
{
    match e {
        Expr::LParen => lit("LParen"),
        Expr::RParen => lit("RParen"),
        Expr::LP(i) => concat(&concat(&lit("LP("), &i32_dec(*i)), &lit(")")),
        Expr::RP(i) => concat(&concat(&lit("RP("), &i32_dec(*i)), &lit(")")),
        Expr::MetaMkOpr => lit("MetaMkOpr"),
        Expr::Builtin(s) => concat(&concat(&lit("Builtin("), &debug_string(s)), &lit(")")),
        Expr::NoOp => lit("NoOp"),
        _ => String::new(),
    }
}

/// What `expr_to_arena` does: the nodes of `e` go into the arena, children
/// before their parents, and the index of the root is given back.  A
/// one-element list stands for its element; an application of `@` to a
/// function and a comma chain becomes an application of the function to the
/// operands of the chain.
pub open spec fn sp_e2a(e: SExpr, a: SArena) -> Option<(SArena, usize)>
    decreases esize(e), 1int,
{
    match e {
        SExpr::Var(s) => sp_pnode(a, leaf(SVal::Var(s))),
        SExpr::C(c) => match c {
            SConst::I32(i) => sp_pnode(a, leaf(SVal::C(SNConst::I32(i)))),
            SConst::F32(t) => sp_pnode(a, leaf(SVal::C(SNConst::F32(t)))),
            SConst::Params(p) => sp_pnode(a, leaf(SVal::C(SNConst::Params(p)))),
            SConst::F(params, body) => match sp_e2a(*body, a) {
                Some((a1, g)) => sp_pnode(a1, leaf(SVal::C(SNConst::F(params, g)))),
                None => None,
            },
        },
        SExpr::App(f, args) => if is_var_named(*f, "@"@) {
            if args.len() == 2 {
                proof {
                    lemma_esizes_elem(args, 0);
                }
                match sp_e2a(args[0], a) {
                    Some((a1, fe)) => match sp_unroll(args[1]) {
                        Some(argsv) => {
                            proof {
                                lemma_unroll_size(args[1]);
                                lemma_esizes_elem(args, 1);
                                lemma_esizes_concat(seq![args[0]], seq![args[1]]);
                                assert(args =~= seq![args[0]] + seq![args[1]]);
                                assert(seq![args[0]].subrange(1, 1) =~= seq![]);
                            }
                            match sp_e2a_list(argsv, a1) {
                                Some((a2, g)) => sp_pnode(a2, SNode { rc: 1, val: SVal::App(fe), args: g }),
                                None => None,
                            }
                        },
                        None => None,
                    },
                    None => None,
                }
            } else {
                sp_pnode(a, leaf(SVal::E(nondyadic_msg())))
            }
        } else {
            sp_rfc(*f, args, a)
        },
        SExpr::Lst(lst) => if lst.len() == 1 {
            proof {
                lemma_esizes_elem(lst, 0);
            }
            sp_e2a(lst[0], a)
        } else {
            match sp_e2a_list(lst, a) {
                Some((a1, g)) => sp_pnode(a1, leaf(SVal::Lst(g))),
                None => None,
            }
        },
        SExpr::E(s) => sp_pnode(a, leaf(SVal::E(s))),
        q => sp_pnode(a, leaf(SVal::E(unrecognized_msg(q)))),
    }
}

/// `sp_e2a` over a list, in order, threading the arena.
pub open spec fn sp_e2a_list(es: Seq<SExpr>, a: SArena) -> Option<(SArena, Seq<usize>)>
    decreases esizes(es), 2int,
{
    if es.len() == 0 {
        Some((a, seq![]))
    } else {
        proof {
            lemma_esize_pos(es[0]);
        }
        match sp_e2a(es[0], a) {
            Some((a1, x)) => match sp_e2a_list(es.subrange(1, es.len() as int), a1) {
                Some((a2, xs)) => Some((a2, seq![x] + xs)),
                None => None,
            },
            None => None,
        }
    }
}

/// What `rfc_2497` does: the function and then the arguments go into the
/// arena, and an application node over them.
pub open spec fn sp_rfc(f: SExpr, args: Seq<SExpr>, a: SArena) -> Option<(SArena, usize)>
    decreases esize(f) + esizes(args) + 1, 0int,
{
    match sp_e2a(f, a) {
        Some((a1, fe)) => match sp_e2a_list(args, a1) {
            Some((a2, g)) => sp_pnode(a2, SNode { rc: 1, val: SVal::App(fe), args: g }),
            None => None,
        },
        None => None,
    }
}


/// `xs` in front of the indices that `r` gives.
pub open spec fn pre_ids(xs: Seq<usize>, r: Option<(SArena, Seq<usize>)>) -> Option<(SArena, Seq<usize>)> {
    match r {
        Some((a, ys)) => Some((a, xs + ys)),
        None => None,
    }
}

fn e2a_list(es: &Vec<Expr>, ar: &mut EArena) -> (r: Vec<usize>)
    requires
        sp_e2a_list(exprs_view(es@), old(ar).deep_view()) is Some,
    ensures
        sp_e2a_list(exprs_view(es@), old(ar).deep_view()) == Some((final(ar).deep_view(), r@)),
    decreases esizes(exprs_view(es@)), 2int,
{
    let ghost ev = exprs_view(es@);
    let ghost total = sp_e2a_list(ev, ar.deep_view());
    let mut g: Vec<usize> = Vec::new();
    let mut k: usize = 0;
    assert(ev.skip(0) =~= ev);
    assert(g@ + seq![] =~= g@);
    while k < es.len()
        invariant
            k <= es@.len(),
            ev == exprs_view(es@),
            total is Some,
            total == pre_ids(g@, sp_e2a_list(ev.skip(k as int), ar.deep_view())),
        decreases es@.len() - k,
    {
        let ghost rest = ev.skip(k as int);
        proof {
            assert(rest[0] == es@[k as int].sv());
            lemma_esizes_elem(ev, k as int);
            assert(rest.subrange(1, rest.len() as int) =~= ev.skip(k + 1));
        }
        let x = expr_to_arena(&es[k], ar);
        let ghost gv = g@;
        g.push(x);
        proof {
            assert(g@ =~= gv + seq![x]);
            match sp_e2a_list(ev.skip(k + 1), ar.deep_view()) {
                Some((a2, xs)) => {
                    assert(gv + (seq![x] + xs) =~= (gv + seq![x]) + xs);
                },
                None => {},
            }
        }
        k = k + 1;
    }
    assert(ev.skip(k as int) =~= seq![]);
    assert(g@ + seq![] =~= g@);
    g
}

/// Puts the expression `e` into the arena (see `sp_e2a`) and gives back the
/// index of its root.
pub fn expr_to_arena(e: &Expr, ar: &mut EArena) -> (r: usize)
    requires
        sp_e2a(e.sv(), old(ar).deep_view()) is Some,
    ensures
        sp_e2a(e.sv(), old(ar).deep_view()) == Some((final(ar).deep_view(), r)),
    decreases esize(e.sv()), 1int,
{
    let ghost es = e.sv();
    match e {
        Expr::Var(s) => pnode(ar, new_enodev(NValue::Var(s.clone()))),
        Expr::C(c) => match c {
            Const::I32(i) => pnode(ar, new_enodev(NValue::C(NConst::I32(*i)))),
            Const::F32(t) => pnode(ar, new_enodev(NValue::C(NConst::F32(t.clone())))),
            Const::Params(p) => pnode(ar, new_enodev(NValue::C(NConst::Params(clone_strings(p))))),
            Const::F(fun) => {
                let g = expr_to_arena(&fun.body, ar);
                let n = ENode {
                    rc: 1,
                    val: NValue::C(NConst::F(NFun { params: clone_strings(&fun.params), body: g })),
                    args: Vec::new(),
                };
                assert(n.deep_view().args =~= seq![]);
                pnode(ar, n)
            },
        },
        Expr::App(f, args) => {
            assert(es is App);
            assert(*es->App_0 == f.sv());
            assert(es->App_1 =~= exprs_view(args@));
            let is_at = match &**f {
                Expr::Var(s) => *s == lit("@"),
                _ => false,
            };
            assert(is_at == is_var_named(f.sv(), "@"@));
            if is_at {
                if args.len() == 2 {
                    proof {
                        lemma_esizes_elem(exprs_view(args@), 0);
                    }
                    let fe = expr_to_arena(&args[0], ar);
                    let mut argsv: Vec<Expr> = Vec::new();
                    assert(exprs_view(argsv@) =~= seq![]);
                    unroll_comma(&args[1], &mut argsv);
                    assert(exprs_view(argsv@) =~= sp_unroll(args@[1].sv()).unwrap());
                    proof {
                        let av = exprs_view(args@);
                        lemma_unroll_size(av[1]);
                        lemma_esizes_elem(av, 1);
                        lemma_esizes_concat(seq![av[0]], seq![av[1]]);
                        assert(av =~= seq![av[0]] + seq![av[1]]);
                        assert(seq![av[0]].subrange(1, 1) =~= seq![]);
                    }
                    let g = e2a_list(&argsv, ar);
                    pnode(ar, ENode { rc: 1, val: NValue::App(fe), args: g })
                } else {
                    pnode(ar, new_enodev(NValue::E(lit("ERROR: non-dyadic '@' not implemented."))))
                }
            } else {
                rfc_2497(f, args, ar)
            }
        },
        Expr::Lst(lst) => {
            assert(es is Lst);
            assert(es->Lst_0 =~= exprs_view(lst@));
            if lst.len() == 1 {
                proof {
                    lemma_esizes_elem(exprs_view(lst@), 0);
                }
                expr_to_arena(&lst[0], ar)
            } else {
                let g = e2a_list(lst, ar);
                pnode(ar, new_enodev(NValue::Lst(g)))
            }
        },
        Expr::E(s) => pnode(ar, new_enodev(NValue::E(s.clone()))),
        q => {
            let m = concat(&concat(&lit("ERROR: expr not recognized: "), &token_debug_string(q)), &lit(" ."));
            pnode(ar, new_enodev(NValue::E(m)))
        },
    }
}

/// Puts the function `f` and then the arguments `args` into the arena, and
/// an application node over them; gives back the index of that node.
pub fn rfc_2497(f: &Box<Expr>, args: &Box<Vec<Expr>>, ar: &mut EArena) -> (r: usize)
    requires
        sp_rfc(f.sv(), exprs_view(args@), old(ar).deep_view()) is Some,
    ensures
        sp_rfc(f.sv(), exprs_view(args@), old(ar).deep_view()) == Some((final(ar).deep_view(), r)),
    decreases esize(f.sv()) + esizes(exprs_view(args@)) + 1, 0int,
{
    let fe = expr_to_arena(f, ar);
    let g = e2a_list(args, ar);
    pnode(ar, ENode { rc: 1, val: NValue::App(fe), args: g })
}


/// A constant goes into the arena unchanged: the node at the index given
/// back holds the same integer, float text or parameter names (all of them,
/// in order), with one reference and no arguments; a function keeps its
/// parameter names and points at a node of the arena for its body.
pub proof fn law_constant_into_arena(c: SConst, a: SArena)
    requires
        sp_e2a(SExpr::C(c), a) is Some,
    ensures
        ({
            let (a2, r) = sp_e2a(SExpr::C(c), a).unwrap();
            &&& r < a2.nodes.len()
            &&& a2.nodes[r as int].rc == 1
            &&& a2.nodes[r as int].args == Seq::<usize>::empty()
            &&& (c matches SConst::I32(i) ==> a2.nodes[r as int].val == SVal::C(SNConst::I32(i)))
            &&& (c matches SConst::F32(t) ==> a2.nodes[r as int].val == SVal::C(SNConst::F32(t)))
            &&& (c matches SConst::Params(p) ==> a2.nodes[r as int].val == SVal::C(SNConst::Params(p)))
            &&& (c matches SConst::F(ps, _) ==> a2.nodes[r as int].val matches SVal::C(
                SNConst::F(qs, g),
            ) && qs == ps && g < a2.nodes.len())
        }),
{
    match c {
        SConst::F(ps, body) => {
            let (a1, g) = sp_e2a(*body, a).unwrap();
            lemma_e2a_len(*body, a);
        },
        _ => {},
    }
}

/// Putting an expression in the arena never shortens it, and gives an
/// index in it.
pub proof fn lemma_e2a_len(e: SExpr, a: SArena)
    ensures
        sp_e2a(e, a) matches Some((a2, r)) ==> a2.nodes.len() >= a.nodes.len() && r < a2.nodes.len(),
    decreases esize(e), 1int,
{
    match e {
        SExpr::C(SConst::F(params, body)) => {
            lemma_e2a_len(*body, a);
        },
        SExpr::App(f, args) => {
            if is_var_named(*f, "@"@) {
                if args.len() == 2 {
                    lemma_esizes_elem(args, 0);
                    lemma_e2a_len(args[0], a);
                    if let Some((a1, fe)) = sp_e2a(args[0], a) {
                        if let Some(argsv) = sp_unroll(args[1]) {
                            lemma_unroll_size(args[1]);
                            lemma_esizes_elem(args, 1);
                            lemma_esizes_concat(seq![args[0]], seq![args[1]]);
                            assert(args =~= seq![args[0]] + seq![args[1]]);
                            assert(seq![args[0]].subrange(1, 1) =~= seq![]);
                            lemma_e2a_list_len(argsv, a1);
                        }
                    }
                }
            } else {
                lemma_rfc_len(*f, args, a);
            }
        },
        SExpr::Lst(lst) => {
            if lst.len() == 1 {
                lemma_esizes_elem(lst, 0);
                lemma_e2a_len(lst[0], a);
            } else {
                lemma_e2a_list_len(lst, a);
            }
        },
        _ => {},
    }
}

/// Putting a list of expressions in the arena never shortens it.
pub proof fn lemma_e2a_list_len(es: Seq<SExpr>, a: SArena)
    ensures
        sp_e2a_list(es, a) matches Some((a2, _)) ==> a2.nodes.len() >= a.nodes.len(),
    decreases esizes(es), 2int,
{
    if es.len() > 0 {
        lemma_esize_pos(es[0]);
        lemma_e2a_len(es[0], a);
        if let Some((a1, x)) = sp_e2a(es[0], a) {
            lemma_e2a_list_len(es.subrange(1, es.len() as int), a1);
        }
    }
}

/// Putting an application in the arena never shortens it.
pub proof fn lemma_rfc_len(f: SExpr, args: Seq<SExpr>, a: SArena)
    ensures
        sp_rfc(f, args, a) matches Some((a2, r)) ==> a2.nodes.len() >= a.nodes.len() && r < a2.nodes.len(),
    decreases esize(f) + esizes(args) + 1, 0int,
{
    lemma_e2a_len(f, a);
    if let Some((a1, fe)) = sp_e2a(f, a) {
        lemma_e2a_list_len(args, a1);
    }
}

} // verus!
