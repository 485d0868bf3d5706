use vstd::prelude::*;

use crate::arena::{EArena, SArena, empty_arena, new_earena, sp_e2a, expr_to_arena};
use crate::eval::{sp_add_v, add_v, sp_aeval, aeval_f};
use crate::grammar::{sp_stmtsp, stmtsp};
use crate::lexer::PRes;
use crate::strmap::StrMap;
use crate::syntax::{SErr, Stmt, SStmt, SExpr, clone_strings, strs_view};
use crate::text::{lit, concat};

verus! {

/// A module: its name, its arguments and the names it defines.
#[derive(Debug)]
pub struct Module {
    pub name: String,
    pub args: StrMap<(EArena, usize)>,
    pub fields: Vec<String>,
}

/// The state of statement evaluation: the bound variables, each with its
/// stack of bindings, the modules and the errors met.
#[derive(Debug)]
pub struct PState {
    pub bvs: StrMap<Vec<(EArena, usize)>>,
    pub mods: StrMap<Module>,
    pub errs: Vec<SErr>,
}

/// The mathematical value of an [`SErr`].
pub enum SSErr {
    TypeMismatch((SArena, usize), (SArena, usize)),
    FileNotFound(Seq<char>),
    ParseError,
    ModuleNotFound(Seq<char>),
}

/// The mathematical value of a [`Module`].
pub struct SModule {
    pub name: Seq<char>,
    pub args: Map<Seq<char>, (SArena, usize)>,
    pub fields: Seq<Seq<char>>,
}

/// The mathematical value of a [`PState`].
pub struct SPState {
    pub bvs: Map<Seq<char>, Seq<(SArena, usize)>>,
    pub mods: Map<Seq<char>, SModule>,
    pub errs: Seq<SSErr>,
}

impl DeepView for SErr {
    type V = SSErr;

    open spec fn deep_view(&self) -> SSErr {
        match self {
            SErr::TypeMismatch(a, b) => SSErr::TypeMismatch(a.deep_view(), b.deep_view()),
            SErr::FileNotFound(p) => SSErr::FileNotFound(p@),
            SErr::ParseError => SSErr::ParseError,
            SErr::ModuleNotFound(n) => SSErr::ModuleNotFound(n@),
        }
    }
}

impl DeepView for Module {
    type V = SModule;

    open spec fn deep_view(&self) -> SModule {
        SModule { name: self.name@, args: self.args.deep_view(), fields: strs_view(self.fields@) }
    }
}

impl DeepView for PState {
    type V = SPState;

    open spec fn deep_view(&self) -> SPState {
        SPState { bvs: self.bvs.deep_view(), mods: self.mods.deep_view(), errs: self.errs.deep_view() }
    }
}

/// The empty state.
pub open spec fn empty_pstate() -> SPState {
    SPState { bvs: Map::empty(), mods: Map::empty(), errs: seq![] }
}

/// A state with no variables, modules or errors.
pub fn new_pstate() -> (r: PState)
    ensures
        r.deep_view() == empty_pstate(),
{
    let r = PState { bvs: StrMap::new(), mods: StrMap::new(), errs: Vec::new() };
    assert(r.bvs.deep_view() =~= Map::empty());
    assert(r.mods.deep_view() =~= Map::empty());
    assert(r.errs.deep_view() =~= seq![]);
    r
}

// ---------------------------------------------------------------------------
// Copies
// ---------------------------------------------------------------------------

fn copy_pair(p: &(EArena, usize)) -> (r: (EArena, usize))
    ensures
        r.deep_view() == p.deep_view(),
{
    (p.0.copy(), p.1)
}

fn copy_bindings(v: &Vec<(EArena, usize)>) -> (r: Vec<(EArena, usize)>)
    ensures
        r.deep_view() == v.deep_view(),
{
    let mut r: Vec<(EArena, usize)> = Vec::new();
    let mut i: usize = 0;
    while i < v.len()
        invariant
            i <= v@.len(),
            r@.len() == i,
            forall|j: int| 0 <= j < i ==> #[trigger] r@[j].deep_view() == v@[j].deep_view(),
        decreases v@.len() - i,
    {
        r.push(copy_pair(&v[i]));
        i = i + 1;
    }
    assert(r.deep_view() =~= v.deep_view());
    r
}

/// A copy of a map whose values are copied by `f`.
fn copy_map<V: DeepView, F: Fn(&V) -> V>(m: &StrMap<V>, f: F) -> (r: StrMap<V>)
    requires
        forall|v: &V| #[trigger] f.requires((v,)),
        forall|v: &V, w: V| f.ensures((v,), w) ==> w.deep_view() == v.deep_view(),
    ensures
        r.deep_view() == m.deep_view(),
{
    let r = m.copy_with(f);
    assert forall|k: Seq<char>| #[trigger] r@.contains_key(k) implies r@[k].deep_view()
        == m@[k].deep_view() by {
        assert(f.ensures((&m@[k],), r@[k]));
    }
    assert(r.deep_view() =~= m.deep_view());
    r
}

impl SErr {
    /// A deep copy.
    pub fn copy(&self) -> (r: SErr)
        ensures
            r.deep_view() == self.deep_view(),
    {
        match self {
            SErr::TypeMismatch(a, b) => SErr::TypeMismatch(copy_pair(a), copy_pair(b)),
            SErr::FileNotFound(p) => SErr::FileNotFound(p.clone()),
            SErr::ParseError => SErr::ParseError,
            SErr::ModuleNotFound(n) => SErr::ModuleNotFound(n.clone()),
        }
    }
}

impl Module {
    /// A deep copy.
    pub fn copy(&self) -> (r: Module)
        ensures
            r.deep_view() == self.deep_view(),
    {
        let args = copy_map(&self.args, copy_pair);
        Module { name: self.name.clone(), args, fields: clone_strings(&self.fields) }
    }
}

fn copy_module(md: &Module) -> (r: Module)
    ensures
        r.deep_view() == md.deep_view(),
{
    md.copy()
}

impl PState {
    /// A deep copy.
    pub fn copy(&self) -> (r: PState)
        ensures
            r.deep_view() == self.deep_view(),
    {
        let bvs = copy_map(&self.bvs, copy_bindings);
        let mods = copy_map(&self.mods, copy_module);
        let mut errs: Vec<SErr> = Vec::new();
        let mut i: usize = 0;
        while i < self.errs.len()
            invariant
                i <= self.errs@.len(),
                errs@.len() == i,
                forall|j: int| 0 <= j < i ==> #[trigger] errs@[j].deep_view() == self.errs@[j].deep_view(),
            decreases self.errs@.len() - i,
        {
            errs.push(self.errs[i].copy());
            i = i + 1;
        }
        assert(errs.deep_view() =~= self.errs.deep_view());
        PState { bvs, mods, errs }
    }
}


// ---------------------------------------------------------------------------
// Statement evaluation
// ---------------------------------------------------------------------------

/// The names joined by `/`.
pub open spec fn sp_join(ns: Seq<Seq<char>>) -> Seq<char>
    decreases ns.len(),
{
    if ns.len() == 0 {
        seq![]
    } else if ns.len() == 1 {
        ns[0]
    } else {
        sp_join(ns.drop_last()) + seq!['/'] + ns.last()
    }
}

/// The first `n` names joined by `/`.
fn join_prefix(ns: &Vec<String>, n: usize) -> (r: String)
    requires
        n <= ns@.len(),
    ensures
        r@ == sp_join(strs_view(ns@).subrange(0, n as int)),
{
    let ghost nv = strs_view(ns@);
    let mut r = String::new();
    let mut k: usize = 0;
    proof {
        assert(nv.subrange(0, 0) =~= seq![]);
    }
    while k < n
        invariant
            k <= n <= ns@.len(),
            nv == strs_view(ns@),
            r@ == sp_join(nv.subrange(0, k as int)),
        decreases n - k,
    {
        proof {
            assert(nv.subrange(0, k + 1).drop_last() =~= nv.subrange(0, k as int));
            assert(nv.subrange(0, k + 1).last() == ns@[k as int]@);
        }
        if k == 0 {
            r = ns[0].clone();
            proof {
                assert(nv.subrange(0, 1) =~= seq![ns@[0]@]);
            }
        } else {
            let slash = lit("/");
            proof {
                reveal_strlit("/");
            }
            r = concat(&concat(&r, &slash), &ns[k]);
        }
        k = k + 1;
    }
    r
}

/// Copies the values of the variables `m2 + q`, for each name `q` of
/// `qs`, from the bindings `b0` to the bindings `b` under the same names:
/// the topmost binding of each is bound again.  `None` where one has no
/// binding.
pub open spec fn sp_copy_fields(
    b: Map<Seq<char>, Seq<(SArena, usize)>>,
    b0: Map<Seq<char>, Seq<(SArena, usize)>>,
    m2: Seq<char>,
    qs: Seq<Seq<char>>,
) -> Option<Map<Seq<char>, Seq<(SArena, usize)>>>
    decreases qs.len(),
{
    if qs.len() == 0 {
        Some(b)
    } else {
        let qg = m2 + qs[0];
        if !b0.contains_key(qg) || b0[qg].len() == 0 {
            None
        } else {
            sp_copy_fields(sp_add_v(b, qg, b0[qg].last().1), b0, m2, qs.drop_first())
        }
    }
}

/// Binds each field `f` again under its own name, to the topmost binding of
/// `prefix + f`.  `None` where one has no binding.
pub open spec fn sp_open_fields(
    b: Map<Seq<char>, Seq<(SArena, usize)>>,
    prefix: Seq<char>,
    fs: Seq<Seq<char>>,
) -> Option<Map<Seq<char>, Seq<(SArena, usize)>>>
    decreases fs.len(),
{
    if fs.len() == 0 {
        Some(b)
    } else {
        let key = prefix + fs[0];
        if !b.contains_key(key) || b[key].len() == 0 {
            None
        } else {
            sp_open_fields(sp_add_v(b, fs[0], b[key].last().1), prefix, fs.drop_first())
        }
    }
}

/// `ps` with `e` recorded as an error.
pub open spec fn with_err(ps: SPState, e: SSErr) -> SPState {
    SPState { errs: ps.errs.push(e), ..ps }
}

/// A variable definition in module context `m`: the expression is put in a
/// fresh arena and evaluated, and `m + name` is bound to its node.
pub open spec fn sp_seval_vardef(
    name: Seq<char>,
    e: SExpr,
    ps: SPState,
    m: Seq<char>,
    fuel: nat,
) -> Option<(SPState, Option<Seq<char>>)> {
    match sp_e2a(e, empty_arena()) {
        None => None,
        Some((a1, q)) => match sp_aeval(a1, ps.bvs, q, fuel) {
            None => None,
            Some((_a2, b2)) => Some((SPState { bvs: sp_add_v(b2, m + name, q), ..ps }, Some(name))),
        },
    }
}

/// An expression statement: the expression is put in a fresh arena and
/// evaluated.
pub open spec fn sp_seval_ex(e: SExpr, ps: SPState, fuel: nat) -> Option<
    (SPState, Option<Seq<char>>),
> {
    match sp_e2a(e, empty_arena()) {
        None => None,
        Some((a1, q)) => match sp_aeval(a1, ps.bvs, q, fuel) {
            None => None,
            Some((_a2, b2)) => Some((SPState { bvs: b2, ..ps }, None)),
        },
    }
}

/// An open statement: each field of the module is bound under its own
/// name, or a missing module is recorded.
pub open spec fn sp_seval_open(name: Seq<char>, ps: SPState, m: Seq<char>) -> Option<
    (SPState, Option<Seq<char>>),
> {
    if ps.mods.contains_key(name) {
        match sp_open_fields(ps.bvs, m + name + seq!['.'], ps.mods[name].fields) {
            Some(b) => Some((SPState { bvs: b, ..ps }, None)),
            None => None,
        }
    } else {
        Some((with_err(ps, SSErr::ModuleNotFound(name)), None))
    }
}

/// The context in which the statements of module `name` are evaluated.
pub open spec fn module_context(m: Seq<char>, name: Seq<char>) -> Seq<char> {
    if m.len() == 0 {
        name + seq!['.']
    } else {
        m + name
    }
}

/// A module: where it is not there yet, its statements are evaluated in a
/// copy of the state, the variables they define are bound in the state and
/// the module is recorded with them as its fields.
pub open spec fn sp_seval_module(
    name: Seq<char>,
    fs: Seq<SStmt>,
    ps: SPState,
    m: Seq<char>,
    prec: Map<Seq<char>, usize>,
    files: Map<Seq<char>, Seq<char>>,
    fuel: nat,
) -> Option<(SPState, Option<Seq<char>>)>
    decreases fuel, 0int,
{
    if ps.mods.contains_key(name) {
        Some((ps, None))
    } else if fuel == 0 {
        None
    } else {
        let m2 = module_context(m, name);
        match sp_seval_list(fs, ps, m2, prec, files, (fuel - 1) as nat) {
            None => None,
            Some((ps0, qs)) => match sp_copy_fields(ps.bvs, ps0.bvs, m2, qs) {
                None => None,
                Some(b) => Some(
                    (
                        SPState {
                            bvs: b,
                            mods: ps.mods.insert(name, SModule { name, args: Map::empty(), fields: qs }),
                            ..ps
                        },
                        None,
                    ),
                ),
            },
        }
    }
}

/// An import of `a/b/c`: the file `a/b.iy` is read, parsed and its
/// statements evaluated; or a parse error or a missing file is recorded.
pub open spec fn sp_seval_import(
    names: Seq<Seq<char>>,
    ps: SPState,
    m: Seq<char>,
    prec: Map<Seq<char>, usize>,
    files: Map<Seq<char>, Seq<char>>,
    fuel: nat,
) -> Option<(SPState, Option<Seq<char>>)>
    decreases fuel, 0int,
{
    if names.len() == 0 || fuel == 0 {
        None
    } else {
        let path = sp_join(names.drop_last());
        let fname = path + ".iy"@;
        if files.contains_key(fname) {
            match sp_stmtsp(files[fname], prec, 0) {
                PRes::Panic => None,
                PRes::Fail => Some((with_err(ps, SSErr::ParseError), None)),
                PRes::Done(_, stq) => match sp_seval_list(stq, ps, m, prec, files, (fuel - 1) as nat) {
                    Some((ps2, _)) => Some((ps2, None)),
                    None => None,
                },
            }
        } else {
            Some((with_err(ps, SSErr::FileNotFound(path)), None))
        }
    }
}

/// What `seval` does with at most `fuel` nested evaluations, in module
/// context `m`, with the files `files` (name to contents): the new state and
/// the name that a variable definition defines (see the functions for each
/// kind of statement).  Other statements change nothing.  `None` where an
/// expression cannot be put in an arena or evaluated, a binding that a
/// module or an open statement copies is missing, an import names no file,
/// the imported text panics the parser, or the fuel runs out.
pub open spec fn sp_seval(
    st: SStmt,
    ps: SPState,
    m: Seq<char>,
    prec: Map<Seq<char>, usize>,
    files: Map<Seq<char>, Seq<char>>,
    fuel: nat,
) -> Option<(SPState, Option<Seq<char>>)>
    decreases fuel, 1int,
{
    if fuel == 0 {
        None
    } else {
        match st {
            SStmt::VarDef(name, e) => sp_seval_vardef(name, e, ps, m, (fuel - 1) as nat),
            SStmt::Ex(e) => sp_seval_ex(e, ps, (fuel - 1) as nat),
            SStmt::ModuleBegin(name, _args, fs) => sp_seval_module(name, fs, ps, m, prec, files, fuel),
            SStmt::Import(names, _args) => sp_seval_import(names, ps, m, prec, files, fuel),
            SStmt::Open(name) => sp_seval_open(name, ps, m),
            _ => Some((ps, None)),
        }
    }
}

/// `sp_seval` over a list of statements, in order, with the names the
/// definitions among them define.
pub open spec fn sp_seval_list(
    sts: Seq<SStmt>,
    ps: SPState,
    m: Seq<char>,
    prec: Map<Seq<char>, usize>,
    files: Map<Seq<char>, Seq<char>>,
    fuel: nat,
) -> Option<(SPState, Seq<Seq<char>>)>
    decreases fuel, sts.len() + 2,
{
    if sts.len() == 0 {
        Some((ps, seq![]))
    } else {
        match sp_seval(sts[0], ps, m, prec, files, fuel) {
            None => None,
            Some((ps1, r)) => match sp_seval_list(sts.drop_first(), ps1, m, prec, files, fuel) {
                None => None,
                Some((ps2, qs)) => Some(
                    (
                        ps2,
                        match r {
                            Some(q) => seq![q] + qs,
                            None => qs,
                        },
                    ),
                ),
            },
        }
    }
}


/// The name an evaluation gives back, by view.
pub open spec fn opt_view(r: Option<String>) -> Option<Seq<char>> {
    match r {
        Some(s) => Some(s@),
        None => None,
    }
}

/// `xs` in front of the names that `r` gives.
pub open spec fn pre_names(xs: Seq<Seq<char>>, r: Option<(SPState, Seq<Seq<char>>)>) -> Option<
    (SPState, Seq<Seq<char>>),
> {
    match r {
        Some((p, ys)) => Some((p, xs + ys)),
        None => None,
    }
}

fn seval_list_f(
    sts: &Vec<Stmt>,
    ps: &mut PState,
    m: &String,
    prec: &StrMap<usize>,
    files: &StrMap<String>,
    Ghost(fuel): Ghost<nat>,
) -> (r: Vec<String>)
    requires
        sp_seval_list(sts.deep_view(), old(ps).deep_view(), m@, prec@, files.deep_view(), fuel) is Some,
    ensures
        sp_seval_list(sts.deep_view(), old(ps).deep_view(), m@, prec@, files.deep_view(), fuel) == Some(
            (final(ps).deep_view(), r.deep_view()),
        ),
    decreases fuel, sts@.len() + 2,
{
    let ghost sv = sts.deep_view();
    let ghost total = sp_seval_list(sv, ps.deep_view(), m@, prec@, files.deep_view(), fuel);
    let mut qs: Vec<String> = Vec::new();
    let mut k: usize = 0;
    proof {
        assert(sv.skip(0) =~= sv);
        assert(qs.deep_view() =~= seq![]);
        match sp_seval_list(sv, ps.deep_view(), m@, prec@, files.deep_view(), fuel) {
            Some((p, ys)) => {
                assert(seq![] + ys =~= ys);
            },
            None => {},
        }
    }
    while k < sts.len()
        invariant
            k <= sts@.len(),
            sv == sts.deep_view(),
            total is Some,
            total == pre_names(
                qs.deep_view(),
                sp_seval_list(sv.skip(k as int), ps.deep_view(), m@, prec@, files.deep_view(), fuel),
            ),
        decreases sts@.len() - k,
    {
        proof {
            assert(sv.skip(k as int)[0] == sts@[k as int].sv());
            assert(sv.skip(k as int).drop_first() =~= sv.skip(k + 1));
        }
        let ghost qv = qs.deep_view();
        let r = seval_f(&sts[k], ps, m, prec, files, Ghost(fuel));
        match r {
            Some(q) => {
                let ghost q1 = q@;
                qs.push(q);
                proof {
                    assert(qs.deep_view() =~= qv + seq![q1]);
                    match sp_seval_list(sv.skip(k + 1), ps.deep_view(), m@, prec@, files.deep_view(), fuel) {
                        Some((p, ys)) => {
                            assert(qv + (seq![q1] + ys) =~= (qv + seq![q1]) + ys);
                        },
                        None => {},
                    }
                }
            },
            None => {},
        }
        k = k + 1;
    }
    proof {
        assert(sv.skip(k as int) =~= seq![]);
        assert(qs.deep_view() + seq![] =~= qs.deep_view());
    }
    qs
}

fn seval_vardef(
    name: &String,
    e: &crate::syntax::Expr,
    ps: &mut PState,
    m: &String,
    Ghost(fuel): Ghost<nat>,
) -> (r: Option<String>)
    requires
        sp_seval_vardef(name@, e.sv(), old(ps).deep_view(), m@, fuel) is Some,
    ensures
        sp_seval_vardef(name@, e.sv(), old(ps).deep_view(), m@, fuel) == Some(
            (final(ps).deep_view(), opt_view(r)),
        ),
{
    let mut ar = new_earena();
    let q = expr_to_arena(e, &mut ar);
    let g = aeval_f(q, &mut ar, &mut ps.bvs, Ghost(fuel));
    let key = concat(m, name);
    add_v(&key, &ar, g, &mut ps.bvs);
    Some(name.clone())
}

fn seval_ex(e: &crate::syntax::Expr, ps: &mut PState, Ghost(fuel): Ghost<nat>) -> (r: Option<
    String,
>)
    requires
        sp_seval_ex(e.sv(), old(ps).deep_view(), fuel) is Some,
    ensures
        sp_seval_ex(e.sv(), old(ps).deep_view(), fuel) == Some((final(ps).deep_view(), opt_view(r))),
{
    let mut ar = new_earena();
    let q = expr_to_arena(e, &mut ar);
    let _g = aeval_f(q, &mut ar, &mut ps.bvs, Ghost(fuel));
    None
}

fn seval_open(name: &String, ps: &mut PState, m: &String) -> (r: Option<String>)
    requires
        sp_seval_open(name@, old(ps).deep_view(), m@) is Some,
    ensures
        sp_seval_open(name@, old(ps).deep_view(), m@) == Some((final(ps).deep_view(), opt_view(r))),
{
    let ghost p0 = ps.deep_view();
    let fm = match ps.mods.get(name) {
        Some(md) => {
            proof {
                assert(p0.mods[name@] == md.deep_view());
            }
            clone_strings(&md.fields)
        },
        None => {
            let ghost ev = ps.errs.deep_view();
            ps.errs.push(SErr::ModuleNotFound(name.clone()));
            assert(ps.errs.deep_view() =~= ev.push(SSErr::ModuleNotFound(name@)));
            return None;
        },
    };
    proof {
        reveal_strlit(".");
    }
    let prefix = concat(&concat(m, name), &lit("."));
    let ghost fv = strs_view(fm@);
    proof {
        assert("."@ =~= seq!['.']);
        assert(prefix@ == m@ + name@ + seq!['.']);
        assert(p0.mods.contains_key(name@));
        assert(fv == p0.mods[name@].fields);
    }
    let ghost total = sp_open_fields(p0.bvs, prefix@, fv);
    let mut k: usize = 0;
    proof {
        assert(fv.skip(0) =~= fv);
    }
    while k < fm.len()
        invariant
            k <= fm@.len(),
            fv == strs_view(fm@),
            total is Some,
            total == sp_open_fields(ps.bvs.deep_view(), prefix@, fv.skip(k as int)),
            ps.mods.deep_view() == p0.mods,
            ps.errs.deep_view() == p0.errs,
        decreases fm@.len() - k,
    {
        proof {
            assert(fv.skip(k as int)[0] == fm@[k as int]@);
            assert(fv.skip(k as int).drop_first() =~= fv.skip(k + 1));
        }
        let key = concat(&prefix, &fm[k]);
        let (a, idx) = match ps.bvs.get(&key) {
            Some(v) => {
                if v.len() == 0 {
                    return None;
                }
                proof {
                    assert(ps.bvs.deep_view()[key@] == v.deep_view());
                }
                (v[v.len() - 1].0.copy(), v[v.len() - 1].1)
            },
            None => {
                return None;
            },
        };
        add_v(&fm[k], &a, idx, &mut ps.bvs);
        k = k + 1;
    }
    proof {
        assert(fv.skip(k as int) =~= seq![]);
    }
    None
}

fn seval_module(
    name: &String,
    fs: &Vec<Stmt>,
    ps: &mut PState,
    m: &String,
    prec: &StrMap<usize>,
    files: &StrMap<String>,
    Ghost(fuel): Ghost<nat>,
) -> (r: Option<String>)
    requires
        sp_seval_module(name@, fs.deep_view(), old(ps).deep_view(), m@, prec@, files.deep_view(), fuel) is Some,
    ensures
        sp_seval_module(name@, fs.deep_view(), old(ps).deep_view(), m@, prec@, files.deep_view(), fuel)
            == Some((final(ps).deep_view(), opt_view(r))),
    decreases fuel, 0int,
{
    let ghost p0 = ps.deep_view();
    if ps.mods.contains_key(name) {
        return None;
    }
    let empty = String::new();
    let m2 = if *m == empty {
        proof {
            reveal_strlit(".");
        }
        concat(name, &lit("."))
    } else {
        concat(m, name)
    };
    proof {
        reveal_strlit(".");
        assert("."@ =~= seq!['.']);
        if m@.len() == 0 {
            assert(m@ =~= empty@);
        }
        assert(m2@ == module_context(m@, name@));
    }
    let mut ps0 = ps.copy();
    let qs = seval_list_f(fs, &mut ps0, &m2, prec, files, Ghost((fuel - 1) as nat));
    let ghost b0 = ps0.bvs.deep_view();
    let ghost qv = qs.deep_view();
    let ghost total = sp_copy_fields(p0.bvs, b0, m2@, qv);
    let mut k: usize = 0;
    proof {
        assert(qv.skip(0) =~= qv);
    }
    while k < qs.len()
        invariant
            k <= qs@.len(),
            qv == qs.deep_view(),
            b0 == ps0.bvs.deep_view(),
            total is Some,
            total == sp_copy_fields(ps.bvs.deep_view(), b0, m2@, qv.skip(k as int)),
            ps.mods.deep_view() == p0.mods,
            ps.errs.deep_view() == p0.errs,
        decreases qs@.len() - k,
    {
        proof {
            assert(qv.skip(k as int)[0] == qs@[k as int]@);
            assert(qv.skip(k as int).drop_first() =~= qv.skip(k + 1));
        }
        let qg = concat(&m2, &qs[k]);
        match ps0.bvs.get(&qg) {
            Some(v) => {
                if v.len() == 0 {
                    return None;
                }
                proof {
                    assert(b0[qg@] == v.deep_view());
                }
                let el = &v[v.len() - 1];
                add_v(&qg, &el.0, el.1, &mut ps.bvs);
            },
            None => {
                return None;
            },
        }
        k = k + 1;
    }
    proof {
        assert(qv.skip(k as int) =~= seq![]);
    }
    let md = Module { name: name.clone(), args: StrMap::new(), fields: qs };
    proof {
        assert(md.args.deep_view() =~= Map::empty());
        assert(strs_view(md.fields@) =~= qv);
    }
    ps.mods.insert(name.clone(), md);
    proof {
        assert(ps.mods.deep_view() =~= p0.mods.insert(
            name@,
            SModule { name: name@, args: Map::empty(), fields: qv },
        ));
    }
    None
}

fn seval_import(
    names: &Vec<String>,
    ps: &mut PState,
    m: &String,
    prec: &StrMap<usize>,
    files: &StrMap<String>,
    Ghost(fuel): Ghost<nat>,
) -> (r: Option<String>)
    requires
        sp_seval_import(strs_view(names@), old(ps).deep_view(), m@, prec@, files.deep_view(), fuel) is Some,
    ensures
        sp_seval_import(strs_view(names@), old(ps).deep_view(), m@, prec@, files.deep_view(), fuel)
            == Some((final(ps).deep_view(), opt_view(r))),
    decreases fuel, 0int,
{
    if names.len() == 0 {
        return None;
    }
    let path = join_prefix(names, names.len() - 1);
    proof {
        assert(strs_view(names@).subrange(0, names@.len() - 1) =~= strs_view(names@).drop_last());
    }
    let fname = concat(&path, &lit(".iy"));
    match files.get(&fname) {
        Some(text) => {
            match stmtsp(text.as_str(), prec) {
                Ok((_, stq)) => {
                    let _ = seval_list_f(&stq, ps, m, prec, files, Ghost((fuel - 1) as nat));
                },
                Err(_) => {
                    let ghost ev = ps.errs.deep_view();
                    ps.errs.push(SErr::ParseError);
                    assert(ps.errs.deep_view() =~= ev.push(SSErr::ParseError));
                },
            }
            None
        },
        None => {
            let ghost ev = ps.errs.deep_view();
            let ghost pv = path@;
            ps.errs.push(SErr::FileNotFound(path));
            assert(ps.errs.deep_view() =~= ev.push(SSErr::FileNotFound(pv)));
            None
        },
    }
}

pub(crate) fn seval_f(
    s: &Stmt,
    ps: &mut PState,
    m: &String,
    prec: &StrMap<usize>,
    files: &StrMap<String>,
    Ghost(fuel): Ghost<nat>,
) -> (r: Option<String>)
    requires
        sp_seval(s.sv(), old(ps).deep_view(), m@, prec@, files.deep_view(), fuel) is Some,
    ensures
        sp_seval(s.sv(), old(ps).deep_view(), m@, prec@, files.deep_view(), fuel) == Some(
            (final(ps).deep_view(), opt_view(r)),
        ),
    decreases fuel, 1int,
{
    match s {
        Stmt::VarDef(name, e) => seval_vardef(name, e, ps, m, Ghost((fuel - 1) as nat)),
        Stmt::Ex(e) => seval_ex(e, ps, Ghost((fuel - 1) as nat)),
        Stmt::ModuleBegin(name, _args, fs) => {
            let fsv: &Vec<Stmt> = fs;
            proof {
                assert(s.sv()->ModuleBegin_2 =~= fsv.deep_view());
            }
            seval_module(name, fsv, ps, m, prec, files, Ghost(fuel))
        },
        Stmt::Import(names, _args) => seval_import(names, ps, m, prec, files, Ghost(fuel)),
        Stmt::Open(name) => seval_open(name, ps, m),
        _ => None,
    }
}

/// The fuel with which `seval` is described: one with which it finishes,
/// where there is one.
pub open spec fn seval_fuel(
    st: SStmt,
    ps: SPState,
    m: Seq<char>,
    prec: Map<Seq<char>, usize>,
    files: Map<Seq<char>, Seq<char>>,
) -> nat {
    choose|f: nat| sp_seval(st, ps, m, prec, files, f) is Some
}

/// Evaluates the statement `s` in module context `m` (see `sp_seval`).  The
/// files that an import may read are given by `files`, from file name to
/// contents; a name that is not there is a file that cannot be read.
/// Gives back the name that a variable definition defines.
pub fn seval(
    s: &Stmt,
    ps: &mut PState,
    m: &String,
    prec: &StrMap<usize>,
    files: &StrMap<String>,
) -> (r: Option<String>)
    requires
        exists|f: nat| sp_seval(s.sv(), old(ps).deep_view(), m@, prec@, files.deep_view(), f) is Some,
    ensures
        sp_seval(
            s.sv(),
            old(ps).deep_view(),
            m@,
            prec@,
            files.deep_view(),
            seval_fuel(s.sv(), old(ps).deep_view(), m@, prec@, files.deep_view()),
        ) == Some((final(ps).deep_view(), opt_view(r))),
{
    let ghost f = seval_fuel(s.sv(), ps.deep_view(), m@, prec@, files.deep_view());
    seval_f(s, ps, m, prec, files, Ghost(f))
}


// ---------------------------------------------------------------------------
// Fuel
// ---------------------------------------------------------------------------

/// More fuel never changes what `seval` does once it finishes.
pub proof fn law_seval_fuel(
    st: SStmt,
    ps: SPState,
    m: Seq<char>,
    prec: Map<Seq<char>, usize>,
    files: Map<Seq<char>, Seq<char>>,
    f1: nat,
    f2: nat,
)
    requires
        f1 <= f2,
        sp_seval(st, ps, m, prec, files, f1) is Some,
    ensures
        sp_seval(st, ps, m, prec, files, f2) == sp_seval(st, ps, m, prec, files, f1),
    decreases f1, 1int,
{
    match st {
        SStmt::VarDef(name, e) => {
            if let Some((a1, q)) = sp_e2a(e, empty_arena()) {
                crate::eval::law_aeval_fuel(a1, ps.bvs, q, (f1 - 1) as nat, (f2 - 1) as nat);
            }
        },
        SStmt::Ex(e) => {
            if let Some((a1, q)) = sp_e2a(e, empty_arena()) {
                crate::eval::law_aeval_fuel(a1, ps.bvs, q, (f1 - 1) as nat, (f2 - 1) as nat);
            }
        },
        SStmt::ModuleBegin(name, _args, fs) => {
            law_module_fuel(name, fs, ps, m, prec, files, f1, f2);
        },
        SStmt::Import(names, _args) => {
            law_import_fuel(names, ps, m, prec, files, f1, f2);
        },
        _ => {},
    }
}

/// More fuel never changes what evaluating a module does once it finishes.
pub proof fn law_module_fuel(
    name: Seq<char>,
    fs: Seq<SStmt>,
    ps: SPState,
    m: Seq<char>,
    prec: Map<Seq<char>, usize>,
    files: Map<Seq<char>, Seq<char>>,
    f1: nat,
    f2: nat,
)
    requires
        f1 <= f2,
        sp_seval_module(name, fs, ps, m, prec, files, f1) is Some,
    ensures
        sp_seval_module(name, fs, ps, m, prec, files, f2) == sp_seval_module(
            name,
            fs,
            ps,
            m,
            prec,
            files,
            f1,
        ),
    decreases f1, 0int,
{
    if !ps.mods.contains_key(name) {
        law_seval_list_fuel(fs, ps, module_context(m, name), prec, files, (f1 - 1) as nat, (f2 - 1) as nat);
    }
}

/// More fuel never changes what evaluating an import does once it finishes.
pub proof fn law_import_fuel(
    names: Seq<Seq<char>>,
    ps: SPState,
    m: Seq<char>,
    prec: Map<Seq<char>, usize>,
    files: Map<Seq<char>, Seq<char>>,
    f1: nat,
    f2: nat,
)
    requires
        f1 <= f2,
        sp_seval_import(names, ps, m, prec, files, f1) is Some,
    ensures
        sp_seval_import(names, ps, m, prec, files, f2) == sp_seval_import(names, ps, m, prec, files, f1),
    decreases f1, 0int,
{
    let fname = sp_join(names.drop_last()) + ".iy"@;
    if files.contains_key(fname) {
        if let PRes::Done(_, stq) = sp_stmtsp(files[fname], prec, 0) {
            law_seval_list_fuel(stq, ps, m, prec, files, (f1 - 1) as nat, (f2 - 1) as nat);
        }
    }
}

/// More fuel never changes what evaluating a list of statements does once
/// it finishes.
pub proof fn law_seval_list_fuel(
    sts: Seq<SStmt>,
    ps: SPState,
    m: Seq<char>,
    prec: Map<Seq<char>, usize>,
    files: Map<Seq<char>, Seq<char>>,
    f1: nat,
    f2: nat,
)
    requires
        f1 <= f2,
        sp_seval_list(sts, ps, m, prec, files, f1) is Some,
    ensures
        sp_seval_list(sts, ps, m, prec, files, f2) == sp_seval_list(sts, ps, m, prec, files, f1),
    decreases f1, sts.len() + 2,
{
    if sts.len() > 0 {
        law_seval_fuel(sts[0], ps, m, prec, files, f1, f2);
        let (ps1, r) = sp_seval(sts[0], ps, m, prec, files, f1).unwrap();
        law_seval_list_fuel(sts.drop_first(), ps1, m, prec, files, f1, f2);
    }
}


// ---------------------------------------------------------------------------
// Every variable keeps a binding
// ---------------------------------------------------------------------------

proof fn lemma_add_v_all_bound(b: Map<Seq<char>, Seq<(SArena, usize)>>, n: Seq<char>, v: usize)
    requires
        crate::eval::all_bound(b),
    ensures
        crate::eval::all_bound(sp_add_v(b, n, v)),
{
}

proof fn lemma_copy_fields_all_bound(
    b: Map<Seq<char>, Seq<(SArena, usize)>>,
    b0: Map<Seq<char>, Seq<(SArena, usize)>>,
    m2: Seq<char>,
    qs: Seq<Seq<char>>,
)
    requires
        crate::eval::all_bound(b),
        sp_copy_fields(b, b0, m2, qs) is Some,
    ensures
        crate::eval::all_bound(sp_copy_fields(b, b0, m2, qs).unwrap()),
    decreases qs.len(),
{
    if qs.len() > 0 {
        let qg = m2 + qs[0];
        lemma_add_v_all_bound(b, qg, b0[qg].last().1);
        lemma_copy_fields_all_bound(sp_add_v(b, qg, b0[qg].last().1), b0, m2, qs.drop_first());
    }
}

proof fn lemma_open_fields_all_bound(
    b: Map<Seq<char>, Seq<(SArena, usize)>>,
    prefix: Seq<char>,
    fs: Seq<Seq<char>>,
)
    requires
        crate::eval::all_bound(b),
        sp_open_fields(b, prefix, fs) is Some,
    ensures
        crate::eval::all_bound(sp_open_fields(b, prefix, fs).unwrap()),
    decreases fs.len(),
{
    if fs.len() > 0 {
        let key = prefix + fs[0];
        lemma_add_v_all_bound(b, fs[0], b[key].last().1);
        lemma_open_fields_all_bound(sp_add_v(b, fs[0], b[key].last().1), prefix, fs.drop_first());
    }
}

/// Statement evaluation keeps every variable bound to at least one value,
/// as the empty state has it; so evaluating an expression in such a state
/// gives its bound variables back unchanged (`law_aeval_keeps_bindings`).
pub proof fn law_seval_keeps_all_bound(
    st: SStmt,
    ps: SPState,
    m: Seq<char>,
    prec: Map<Seq<char>, usize>,
    files: Map<Seq<char>, Seq<char>>,
    fuel: nat,
)
    requires
        crate::eval::all_bound(ps.bvs),
        sp_seval(st, ps, m, prec, files, fuel) is Some,
    ensures
        crate::eval::all_bound(sp_seval(st, ps, m, prec, files, fuel).unwrap().0.bvs),
    decreases fuel, 1int,
{
    match st {
        SStmt::VarDef(name, e) => {
            let (a1, q) = sp_e2a(e, empty_arena()).unwrap();
            crate::eval::law_aeval_keeps_bindings(a1, ps.bvs, q, (fuel - 1) as nat);
            let (_a2, b2) = sp_aeval(a1, ps.bvs, q, (fuel - 1) as nat).unwrap();
            lemma_add_v_all_bound(b2, m + name, q);
        },
        SStmt::Ex(e) => {
            let (a1, q) = sp_e2a(e, empty_arena()).unwrap();
            crate::eval::law_aeval_keeps_bindings(a1, ps.bvs, q, (fuel - 1) as nat);
        },
        SStmt::ModuleBegin(name, _args, fs) => {
            if !ps.mods.contains_key(name) {
                let m2 = module_context(m, name);
                let (ps0, qs) = sp_seval_list(fs, ps, m2, prec, files, (fuel - 1) as nat).unwrap();
                lemma_copy_fields_all_bound(ps.bvs, ps0.bvs, m2, qs);
            }
        },
        SStmt::Import(names, _args) => {
            let fname = sp_join(names.drop_last()) + ".iy"@;
            if files.contains_key(fname) {
                if let PRes::Done(_, stq) = sp_stmtsp(files[fname], prec, 0) {
                    law_seval_list_keeps_all_bound(stq, ps, m, prec, files, (fuel - 1) as nat);
                }
            }
        },
        SStmt::Open(name) => {
            if ps.mods.contains_key(name) {
                lemma_open_fields_all_bound(ps.bvs, m + name + seq!['.'], ps.mods[name].fields);
            }
        },
        _ => {},
    }
}

/// Evaluating a list of statements keeps every variable bound to at least
/// one value.
pub proof fn law_seval_list_keeps_all_bound(
    sts: Seq<SStmt>,
    ps: SPState,
    m: Seq<char>,
    prec: Map<Seq<char>, usize>,
    files: Map<Seq<char>, Seq<char>>,
    fuel: nat,
)
    requires
        crate::eval::all_bound(ps.bvs),
        sp_seval_list(sts, ps, m, prec, files, fuel) is Some,
    ensures
        crate::eval::all_bound(sp_seval_list(sts, ps, m, prec, files, fuel).unwrap().0.bvs),
    decreases fuel, sts.len() + 2,
{
    if sts.len() > 0 {
        law_seval_keeps_all_bound(sts[0], ps, m, prec, files, fuel);
        let (ps1, r) = sp_seval(sts[0], ps, m, prec, files, fuel).unwrap();
        law_seval_list_keeps_all_bound(sts.drop_first(), ps1, m, prec, files, fuel);
    }
}


// ---------------------------------------------------------------------------
// Opening a module
// ---------------------------------------------------------------------------

proof fn lemma_copy_fields_frame(
    b: Map<Seq<char>, Seq<(SArena, usize)>>,
    b0: Map<Seq<char>, Seq<(SArena, usize)>>,
    m2: Seq<char>,
    qs: Seq<Seq<char>>,
    k: Seq<char>,
)
    requires
        sp_copy_fields(b, b0, m2, qs) is Some,
        forall|q: Seq<char>| #[trigger] qs.contains(q) ==> k != m2 + q,
    ensures
        sp_copy_fields(b, b0, m2, qs).unwrap().contains_key(k) == b.contains_key(k),
        b.contains_key(k) ==> sp_copy_fields(b, b0, m2, qs).unwrap()[k] == b[k],
    decreases qs.len(),
{
    if qs.len() > 0 {
        let qg = m2 + qs[0];
        assert(qs.contains(qs[0]));
        assert forall|q: Seq<char>| #[trigger] qs.drop_first().contains(q) implies k != m2 + q by {
            let j = qs.drop_first().index_of(q);
            assert(qs[j + 1] == q);
            assert(qs.contains(q));
        }
        lemma_copy_fields_frame(sp_add_v(b, qg, b0[qg].last().1), b0, m2, qs.drop_first(), k);
    }
}

proof fn lemma_copy_fields_binds(
    b: Map<Seq<char>, Seq<(SArena, usize)>>,
    b0: Map<Seq<char>, Seq<(SArena, usize)>>,
    m2: Seq<char>,
    qs: Seq<Seq<char>>,
    q: Seq<char>,
)
    requires
        sp_copy_fields(b, b0, m2, qs) is Some,
        qs.contains(q),
    ensures
        ({
            let b1 = sp_copy_fields(b, b0, m2, qs).unwrap();
            &&& b1.contains_key(m2 + q)
            &&& b1[m2 + q].len() > 0
            &&& b1[m2 + q].last() == (empty_arena(), b0[m2 + q].last().1)
        }),
    decreases qs.len(),
{
    let qg = m2 + qs[0];
    let c = sp_add_v(b, qg, b0[qg].last().1);
    if qs.drop_first().contains(q) {
        lemma_copy_fields_binds(c, b0, m2, qs.drop_first(), q);
    } else {
        assert(q == qs[0]) by {
            let j = qs.index_of(q);
            if j > 0 {
                assert(qs.drop_first()[j - 1] == q);
            }
        }
        assert forall|x: Seq<char>| #[trigger] qs.drop_first().contains(x) implies m2 + q != m2 + x by {
            if m2 + q == m2 + x {
                assert((m2 + q).subrange(m2.len() as int, (m2 + q).len() as int) =~= q);
                assert((m2 + x).subrange(m2.len() as int, (m2 + x).len() as int) =~= x);
            }
        }
        lemma_copy_fields_frame(c, b0, m2, qs.drop_first(), m2 + q);
    }
}

proof fn lemma_open_fields(
    b: Map<Seq<char>, Seq<(SArena, usize)>>,
    prefix: Seq<char>,
    fs: Seq<Seq<char>>,
    all: Seq<Seq<char>>,
)
    requires
        forall|f: Seq<char>| #[trigger] fs.contains(f) ==> all.contains(f),
        forall|f: Seq<char>| #[trigger] all.contains(f) ==> b.contains_key(prefix + f) && b[prefix + f].len() > 0,
        forall|f: Seq<char>, g: Seq<char>| #[trigger] all.contains(f) && #[trigger] all.contains(g) ==> f != prefix + g,
    ensures
        sp_open_fields(b, prefix, fs) is Some,
        forall|f: Seq<char>| #[trigger] all.contains(f) ==> sp_open_fields(b, prefix, fs).unwrap()[prefix + f] == b[prefix + f]
            && sp_open_fields(b, prefix, fs).unwrap().contains_key(prefix + f),
        forall|f: Seq<char>|
            #[trigger] fs.contains(f) ==> sp_open_fields(b, prefix, fs).unwrap().contains_key(f)
                && sp_open_fields(b, prefix, fs).unwrap()[f].len() > 0
                && sp_open_fields(b, prefix, fs).unwrap()[f].last() == (empty_arena(), b[prefix + f].last().1),
    decreases fs.len(),
{
    if fs.len() > 0 {
        let f0 = fs[0];
        assert(fs.contains(f0));
        let c = sp_add_v(b, f0, b[prefix + f0].last().1);
        assert forall|f: Seq<char>| #[trigger] all.contains(f) implies c.contains_key(prefix + f) && c[prefix + f]
            == b[prefix + f] by {
            assert(f0 != prefix + f);
        }
        assert forall|f: Seq<char>| #[trigger] fs.drop_first().contains(f) implies all.contains(f) by {
            let j = fs.drop_first().index_of(f);
            assert(fs[j + 1] == f);
            assert(fs.contains(f));
        }
        lemma_open_fields(c, prefix, fs.drop_first(), all);
        let b2 = sp_open_fields(c, prefix, fs.drop_first()).unwrap();
        assert forall|f: Seq<char>|
            #[trigger] fs.contains(f) implies b2.contains_key(f) && b2[f].len() > 0 && b2[f].last() == (
                empty_arena(),
                b[prefix + f].last().1,
            ) by {
            if !fs.drop_first().contains(f) {
                assert(f == f0) by {
                    let j = fs.index_of(f);
                    if j > 0 {
                        assert(fs.drop_first()[j - 1] == f);
                    }
                }
                assert(c.contains_key(f0) && c[f0].last() == (empty_arena(), b[prefix + f0].last().1));
                lemma_open_fields_frame(c, prefix, fs.drop_first(), f0);
            }
        }
    }
}

proof fn lemma_open_fields_frame(
    b: Map<Seq<char>, Seq<(SArena, usize)>>,
    prefix: Seq<char>,
    fs: Seq<Seq<char>>,
    k: Seq<char>,
)
    requires
        sp_open_fields(b, prefix, fs) is Some,
        !fs.contains(k),
    ensures
        sp_open_fields(b, prefix, fs).unwrap().contains_key(k) == b.contains_key(k),
        b.contains_key(k) ==> sp_open_fields(b, prefix, fs).unwrap()[k] == b[k],
    decreases fs.len(),
{
    if fs.len() > 0 {
        assert(fs.contains(fs[0]));
        assert(!fs.drop_first().contains(k)) by {
            if fs.drop_first().contains(k) {
                let j = fs.drop_first().index_of(k);
                assert(fs[j + 1] == k);
            }
        }
        lemma_open_fields_frame(sp_add_v(b, fs[0], b[prefix + fs[0]].last().1), prefix, fs.drop_first(), k);
    }
}

/// A module defined at the top level and then opened there makes each of
/// its fields a variable whose topmost binding is that of the qualified
/// name `name.field`, where no field name is itself the qualified name of
/// a field.
pub proof fn law_open_sees_module_fields(
    name: Seq<char>,
    fs: Seq<SStmt>,
    ps: SPState,
    prec: Map<Seq<char>, usize>,
    files: Map<Seq<char>, Seq<char>>,
    fuel: nat,
)
    requires
        !ps.mods.contains_key(name),
        sp_seval_module(name, fs, ps, seq![], prec, files, fuel) is Some,
        forall|f: Seq<char>, g: Seq<char>|
            #[trigger] sp_seval_module(name, fs, ps, seq![], prec, files, fuel).unwrap().0.mods[name].fields.contains(f)
                && #[trigger] sp_seval_module(name, fs, ps, seq![], prec, files, fuel).unwrap().0.mods[name].fields.contains(g)
                ==> f != name + seq!['.'] + g,
    ensures
        ({
            let ps1 = sp_seval_module(name, fs, ps, seq![], prec, files, fuel).unwrap().0;
            let qs = ps1.mods[name].fields;
            &&& sp_seval_open(name, ps1, seq![]) is Some
            &&& forall|f: Seq<char>|
                #[trigger] qs.contains(f) ==> sp_seval_open(name, ps1, seq![]).unwrap().0.bvs.contains_key(f)
                    && sp_seval_open(name, ps1, seq![]).unwrap().0.bvs[f].last() == ps1.bvs[name + seq!['.'] + f].last()
        }),
{
    let m2 = module_context(seq![], name);
    let (ps0, qs) = sp_seval_list(fs, ps, m2, prec, files, (fuel - 1) as nat).unwrap();
    let ps1 = sp_seval_module(name, fs, ps, seq![], prec, files, fuel).unwrap().0;
    let b1 = sp_copy_fields(ps.bvs, ps0.bvs, m2, qs).unwrap();
    assert(ps1.bvs == b1);
    assert(ps1.mods[name].fields == qs);
    assert(m2 == name + seq!['.']);
    let prefix = seq![] + name + seq!['.'];
    assert(prefix =~= m2);
    assert forall|f: Seq<char>| #[trigger] qs.contains(f) implies b1.contains_key(prefix + f) && b1[prefix + f].len() > 0
        && b1[prefix + f].last() == (empty_arena(), ps0.bvs[m2 + f].last().1) by {
        lemma_copy_fields_binds(ps.bvs, ps0.bvs, m2, qs, f);
    }
    lemma_open_fields(b1, prefix, qs, qs);
}

} // verus!
