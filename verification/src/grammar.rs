use vstd::prelude::*;

use crate::lexer::{PRes, ParseError, PErr, pres_matches, run_end, sp_ws, sp_tag, sp_stag, ws, alnum_end, tag, stag};
use crate::parse::{prepend_res, sp_varp, varp};
use crate::shunt::{sp_exprp, exprp_at};
use crate::syntax::{Expr, SExpr, Stmt, SStmt};
use crate::text::{is_alnum, string_of, chars_of};
use crate::strmap::StrMap;

verus! {

/// `x` in front of `v`.
pub fn cons<T: DeepView>(x: T, v: Vec<T>) -> (r: Vec<T>)
    ensures
        r.deep_view() == seq![x.deep_view()] + v.deep_view(),
{
    let ghost xv = x.deep_view();
    let ghost vv = v.deep_view();
    let mut v = v;
    v.insert(0, x);
    assert(v.deep_view() =~= seq![xv] + vv);
    v
}

/// A keyword after white space, then white space (at least one character
/// of it where `need_space`): the position after that space.
pub open spec fn sp_kw(s: Seq<char>, i: int, k: Seq<char>, need_space: bool) -> Option<int> {
    let a = sp_ws(s, i);
    if !sp_tag(s, a, k) {
        None
    } else {
        let b = sp_ws(s, a + k.len());
        if need_space && b == a + k.len() {
            None
        } else {
            Some(b)
        }
    }
}

fn kw(s: &Vec<char>, i: usize, k: &[char], need_space: bool) -> (r: Option<usize>)
    requires
        i <= s@.len(),
    ensures
        r is Some <==> sp_kw(s@, i as int, k@, need_space) is Some,
        r matches Some(b) ==> sp_kw(s@, i as int, k@, need_space) == Some(b as int) && i
            + k@.len() <= b <= s@.len(),
{
    let a = ws(s, i);
    if !tag(s, a, k) {
        return None;
    }
    let b = ws(s, a + k.len());
    if need_space && b == a + k.len() {
        return None;
    }
    Some(b)
}

/// The end of a nonempty run of ASCII letters and digits.
pub open spec fn sp_alnum1(s: Seq<char>, i: int) -> Option<int> {
    let k = run_end(s, i, |c: char| is_alnum(c));
    if k <= i {
        None
    } else {
        Some(k)
    }
}

fn alnum1(s: &Vec<char>, i: usize) -> (r: Option<(usize, String)>)
    requires
        i <= s@.len(),
    ensures
        match r {
            Some((k, t)) => sp_alnum1(s@, i as int) == Some(k as int) && i < k <= s@.len() && t@
                == s@.subrange(i as int, k as int),
            None => sp_alnum1(s@, i as int) is None,
        },
{
    let k = alnum_end(s, i);
    if k == i {
        None
    } else {
        Some((k, string_of(s, i, k)))
    }
}

// ---------------------------------------------------------------------------
// Levels: expressions each ended by a semicolon
// ---------------------------------------------------------------------------

/// `levelp`: an expression and a semicolon with white space around it.
pub open spec fn sp_levelp(s: Seq<char>, prec: Map<Seq<char>, usize>, i: int) -> PRes<SExpr> {
    match sp_exprp(s, prec, i) {
        PRes::Done(j, e) => match sp_stag(s, j, seq![';']) {
            Some(k) => PRes::Done(k, e),
            None => PRes::Fail,
        },
        PRes::Fail => PRes::Fail,
        PRes::Panic => PRes::Panic,
    }
}

pub(crate) fn levelp_at(s: &Vec<char>, i: usize, prec: &StrMap<usize>) -> (r: Result<
    (usize, Expr),
    PErr,
>)
    requires
        i <= s@.len(),
    ensures
        pres_matches(r, sp_levelp(s@, prec@, i as int)),
        r matches Ok((j, _)) ==> i < j <= s@.len(),
{
    let (j, e) = exprp_at(s, i, prec)?;
    let semi: &[char] = &[';'];
    assert(semi@ =~= seq![';']);
    match stag(s, j, semi) {
        Some(k) => Ok((k, e)),
        None => Err(PErr::Fail),
    }
}

/// The levels after the first: as many as follow, where one that reads
/// nothing is an error.
pub open spec fn sp_levels_more(s: Seq<char>, prec: Map<Seq<char>, usize>, i: int) -> PRes<
    Seq<SExpr>,
>
    decreases s.len() - i,
{
    match sp_levelp(s, prec, i) {
        PRes::Fail => PRes::Done(i, seq![]),
        PRes::Panic => PRes::Panic,
        PRes::Done(j, e) => if !(i < j <= s.len()) {
            PRes::Fail
        } else {
            prepend_res(seq![e], sp_levels_more(s, prec, j))
        },
    }
}

fn levels_more(s: &Vec<char>, i: usize, prec: &StrMap<usize>) -> (r: Result<
    (usize, Vec<Expr>),
    PErr,
>)
    requires
        i <= s@.len(),
    ensures
        pres_matches(r, sp_levels_more(s@, prec@, i as int)),
        r matches Ok((j, _)) ==> i <= j <= s@.len(),
    decreases s@.len() - i,
{
    match levelp_at(s, i, prec) {
        Err(PErr::Panic) => Err(PErr::Panic),
        Err(PErr::Fail) => {
            let v: Vec<Expr> = Vec::new();
            assert(v.deep_view() =~= seq![]);
            Ok((i, v))
        },
        Ok((j, e)) => {
            let (k, rest) = levels_more(s, j, prec)?;
            Ok((k, cons(e, rest)))
        },
    }
}

/// `levelsp`: one level or more.
pub open spec fn sp_levelsp(s: Seq<char>, prec: Map<Seq<char>, usize>, i: int) -> PRes<
    Seq<SExpr>,
> {
    match sp_levelp(s, prec, i) {
        PRes::Done(j, e) => prepend_res(seq![e], sp_levels_more(s, prec, j)),
        PRes::Fail => PRes::Fail,
        PRes::Panic => PRes::Panic,
    }
}

pub(crate) fn levelsp_at(s: &Vec<char>, i: usize, prec: &StrMap<usize>) -> (r: Result<
    (usize, Vec<Expr>),
    PErr,
>)
    requires
        i <= s@.len(),
    ensures
        pres_matches(r, sp_levelsp(s@, prec@, i as int)),
        r matches Ok((j, _)) ==> i < j <= s@.len(),
{
    let (j, e) = levelp_at(s, i, prec)?;
    let (k, rest) = levels_more(s, j, prec)?;
    Ok((k, cons(e, rest)))
}

// ---------------------------------------------------------------------------
// Paths and prefix arguments
// ---------------------------------------------------------------------------

/// The names of a path after the first: `/` and a name, as long as both
/// follow.
pub open spec fn sp_names_more(s: Seq<char>, i: int) -> (int, Seq<Seq<char>>)
    decreases s.len() - i,
{
    if sp_tag(s, i, seq!['/']) {
        match sp_alnum1(s, i + 1) {
            Some(k) => if !(i < k <= s.len()) {
                (i, seq![])
            } else {
                let (e, ns) = sp_names_more(s, k);
                (e, seq![s.subrange(i + 1, k)] + ns)
            },
            None => (i, seq![]),
        }
    } else {
        (i, seq![])
    }
}

fn names_more(s: &Vec<char>, i: usize) -> (r: (usize, Vec<String>))
    requires
        i <= s@.len(),
    ensures
        sp_names_more(s@, i as int) == (r.0 as int, r.1.deep_view()),
        i <= r.0 <= s@.len(),
    decreases s@.len() - i,
{
    let slash: &[char] = &['/'];
    assert(slash@ =~= seq!['/']);
    if tag(s, i, slash) {
        match alnum1(s, i + 1) {
            Some((k, t)) => {
                let (e, ns) = names_more(s, k);
                (e, cons(t, ns))
            },
            None => {
                let v: Vec<String> = Vec::new();
                assert(v.deep_view() =~= seq![]);
                (i, v)
            },
        }
    } else {
        let v: Vec<String> = Vec::new();
        assert(v.deep_view() =~= seq![]);
        (i, v)
    }
}

/// A path: names separated by `/`, at least one.
pub open spec fn sp_names(s: Seq<char>, i: int) -> Option<(int, Seq<Seq<char>>)> {
    match sp_alnum1(s, i) {
        Some(k) => {
            let (e, ns) = sp_names_more(s, k);
            Some((e, seq![s.subrange(i, k)] + ns))
        },
        None => None,
    }
}

fn names(s: &Vec<char>, i: usize) -> (r: Option<(usize, Vec<String>)>)
    requires
        i <= s@.len(),
    ensures
        match r {
            Some((e, ns)) => sp_names(s@, i as int) == Some((e as int, ns.deep_view())) && i < e
                <= s@.len(),
            None => sp_names(s@, i as int) is None,
        },
{
    match alnum1(s, i) {
        Some((k, t)) => {
            let (e, ns) = names_more(s, k);
            Some((e, cons(t, ns)))
        },
        None => None,
    }
}

/// A prefix argument: an expression between `!{` and `}`.
pub open spec fn sp_prefix(s: Seq<char>, prec: Map<Seq<char>, usize>, i: int) -> PRes<SExpr> {
    match sp_stag(s, i, seq!['!', '{']) {
        None => PRes::Fail,
        Some(a) => match sp_exprp(s, prec, a) {
            PRes::Done(j, e) => match sp_stag(s, j, seq!['}']) {
                Some(k) => PRes::Done(k, e),
                None => PRes::Fail,
            },
            PRes::Fail => PRes::Fail,
            PRes::Panic => PRes::Panic,
        },
    }
}

fn prefix(s: &Vec<char>, i: usize, prec: &StrMap<usize>) -> (r: Result<(usize, Expr), PErr>)
    requires
        i <= s@.len(),
    ensures
        pres_matches(r, sp_prefix(s@, prec@, i as int)),
        r matches Ok((j, _)) ==> i < j <= s@.len(),
{
    let open: &[char] = &['!', '{'];
    assert(open@ =~= seq!['!', '{']);
    let close: &[char] = &['}'];
    assert(close@ =~= seq!['}']);
    match stag(s, i, open) {
        None => Err(PErr::Fail),
        Some(a) => {
            let (j, e) = exprp_at(s, a, prec)?;
            match stag(s, j, close) {
                Some(k) => Ok((k, e)),
                None => Err(PErr::Fail),
            }
        },
    }
}

/// Prefix arguments, as many as follow.
pub open spec fn sp_prefixes(s: Seq<char>, prec: Map<Seq<char>, usize>, i: int) -> PRes<
    Seq<SExpr>,
>
    decreases s.len() - i,
{
    match sp_prefix(s, prec, i) {
        PRes::Fail => PRes::Done(i, seq![]),
        PRes::Panic => PRes::Panic,
        PRes::Done(j, e) => if !(i < j <= s.len()) {
            PRes::Fail
        } else {
            prepend_res(seq![e], sp_prefixes(s, prec, j))
        },
    }
}

fn prefixes(s: &Vec<char>, i: usize, prec: &StrMap<usize>) -> (r: Result<
    (usize, Vec<Expr>),
    PErr,
>)
    requires
        i <= s@.len(),
    ensures
        pres_matches(r, sp_prefixes(s@, prec@, i as int)),
        r matches Ok((j, _)) ==> i <= j <= s@.len(),
    decreases s@.len() - i,
{
    match prefix(s, i, prec) {
        Err(PErr::Panic) => Err(PErr::Panic),
        Err(PErr::Fail) => {
            let v: Vec<Expr> = Vec::new();
            assert(v.deep_view() =~= seq![]);
            Ok((i, v))
        },
        Ok((j, e)) => {
            let (k, rest) = prefixes(s, j, prec)?;
            Ok((k, cons(e, rest)))
        },
    }
}


// ---------------------------------------------------------------------------
// Statements
// ---------------------------------------------------------------------------

/// `vardefp`: `var`, white space, a name, `=:` and an expression.
pub open spec fn sp_vardefp(s: Seq<char>, prec: Map<Seq<char>, usize>, i: int) -> PRes<SStmt> {
    match sp_kw(s, i, "var"@, true) {
        None => PRes::Fail,
        Some(b) => match sp_varp(s, b) {
            PRes::Done(c, v) => match sp_stag(s, c, "=:"@) {
                Some(d) => match sp_exprp(s, prec, d) {
                    PRes::Done(e, x) => PRes::Done(e, SStmt::VarDef(v, x)),
                    PRes::Fail => PRes::Fail,
                    PRes::Panic => PRes::Panic,
                },
                None => PRes::Fail,
            },
            _ => PRes::Fail,
        },
    }
}

pub(crate) fn vardefp_at(s: &Vec<char>, i: usize, prec: &StrMap<usize>) -> (r: Result<
    (usize, Stmt),
    PErr,
>)
    requires
        i <= s@.len(),
    ensures
        pres_matches(r, sp_vardefp(s@, prec@, i as int)),
        r matches Ok((j, _)) ==> i < j <= s@.len(),
{
    let k = chars_of("var");
    let b = match kw(s, i, k.as_slice(), true) {
        Some(b) => b,
        None => {
            return Err(PErr::Fail);
        },
    };
    let (c, v) = varp(s, b)?;
    let eq = chars_of("=:");
    let d = match stag(s, c, eq.as_slice()) {
        Some(d) => d,
        None => {
            return Err(PErr::Fail);
        },
    };
    let (e, x) = exprp_at(s, d, prec)?;
    Ok((e, Stmt::VarDef(v, x)))
}

/// `setplatp`: `platform`, white space and an expression.
pub open spec fn sp_setplatp(s: Seq<char>, prec: Map<Seq<char>, usize>, i: int) -> PRes<SStmt> {
    match sp_kw(s, i, "platform"@, true) {
        None => PRes::Fail,
        Some(b) => match sp_exprp(s, prec, b) {
            PRes::Done(e, x) => PRes::Done(e, SStmt::SetPlat(x)),
            PRes::Fail => PRes::Fail,
            PRes::Panic => PRes::Panic,
        },
    }
}

pub(crate) fn setplatp_at(s: &Vec<char>, i: usize, prec: &StrMap<usize>) -> (r: Result<
    (usize, Stmt),
    PErr,
>)
    requires
        i <= s@.len(),
    ensures
        pres_matches(r, sp_setplatp(s@, prec@, i as int)),
        r matches Ok((j, _)) ==> i <= j <= s@.len(),
{
    let k = chars_of("platform");
    let b = match kw(s, i, k.as_slice(), true) {
        Some(b) => b,
        None => {
            return Err(PErr::Fail);
        },
    };
    let (e, x) = exprp_at(s, b, prec)?;
    Ok((e, Stmt::SetPlat(x)))
}

/// `importp`: `import`, white space, a path and prefix arguments.
pub open spec fn sp_importp(s: Seq<char>, prec: Map<Seq<char>, usize>, i: int) -> PRes<SStmt> {
    match sp_kw(s, i, "import"@, true) {
        None => PRes::Fail,
        Some(b) => match sp_names(s, b) {
            None => PRes::Fail,
            Some((c, ns)) => match sp_prefixes(s, prec, c) {
                PRes::Done(d, pre) => PRes::Done(d, SStmt::Import(ns, pre)),
                PRes::Fail => PRes::Fail,
                PRes::Panic => PRes::Panic,
            },
        },
    }
}

pub(crate) fn importp_at(s: &Vec<char>, i: usize, prec: &StrMap<usize>) -> (r: Result<
    (usize, Stmt),
    PErr,
>)
    requires
        i <= s@.len(),
    ensures
        pres_matches(r, sp_importp(s@, prec@, i as int)),
        r matches Ok((j, _)) ==> i < j <= s@.len(),
{
    let k = chars_of("import");
    let b = match kw(s, i, k.as_slice(), true) {
        Some(b) => b,
        None => {
            return Err(PErr::Fail);
        },
    };
    let (c, ns) = match names(s, b) {
        Some(t) => t,
        None => {
            return Err(PErr::Fail);
        },
    };
    let (d, pre) = prefixes(s, c, prec)?;
    let st = Stmt::Import(ns, pre);
    proof {
        assert(crate::syntax::strs_view(ns@) =~= ns.deep_view());
        assert(crate::syntax::exprs_view(pre@) =~= pre.deep_view());
    }
    Ok((d, st))
}

/// `openp`: `open`, white space and a module name.
pub open spec fn sp_openp(s: Seq<char>, i: int) -> PRes<SStmt> {
    match sp_kw(s, i, "open"@, true) {
        None => PRes::Fail,
        Some(b) => match sp_alnum1(s, b) {
            Some(c) => PRes::Done(c, SStmt::Open(s.subrange(b, c))),
            None => PRes::Fail,
        },
    }
}

pub(crate) fn openp_at(s: &Vec<char>, i: usize) -> (r: Result<(usize, Stmt), PErr>)
    requires
        i <= s@.len(),
    ensures
        pres_matches(r, sp_openp(s@, i as int)),
        r matches Ok((j, _)) ==> i < j <= s@.len(),
{
    let k = chars_of("open");
    let b = match kw(s, i, k.as_slice(), true) {
        Some(b) => b,
        None => {
            return Err(PErr::Fail);
        },
    };
    match alnum1(s, b) {
        Some((c, t)) => Ok((c, Stmt::Open(t))),
        None => Err(PErr::Fail),
    }
}

/// `typep`: `type`, an expression between braces and levels between braces.
pub open spec fn sp_typep(s: Seq<char>, prec: Map<Seq<char>, usize>, i: int) -> PRes<SStmt> {
    match sp_kw(s, i, "type"@, false) {
        None => PRes::Fail,
        Some(b) => match sp_stag(s, b, seq!['{']) {
            None => PRes::Fail,
            Some(c) => match sp_exprp(s, prec, c) {
                PRes::Fail => PRes::Fail,
                PRes::Panic => PRes::Panic,
                PRes::Done(d, name) => match sp_stag(s, d, seq!['}']) {
                    None => PRes::Fail,
                    Some(e) => match sp_stag(s, e, seq!['{']) {
                        None => PRes::Fail,
                        Some(f) => match sp_levelsp(s, prec, f) {
                            PRes::Fail => PRes::Fail,
                            PRes::Panic => PRes::Panic,
                            PRes::Done(g, lst) => match sp_stag(s, g, seq!['}']) {
                                None => PRes::Fail,
                                Some(h) => PRes::Done(h, SStmt::Type(name, lst)),
                            },
                        },
                    },
                },
            },
        },
    }
}

pub(crate) fn typep_at(s: &Vec<char>, i: usize, prec: &StrMap<usize>) -> (r: Result<
    (usize, Stmt),
    PErr,
>)
    requires
        i <= s@.len(),
    ensures
        pres_matches(r, sp_typep(s@, prec@, i as int)),
        r matches Ok((j, _)) ==> i < j <= s@.len(),
{
    let k = chars_of("type");
    let open: &[char] = &['{'];
    assert(open@ =~= seq!['{']);
    let close: &[char] = &['}'];
    assert(close@ =~= seq!['}']);
    let b = match kw(s, i, k.as_slice(), false) {
        Some(b) => b,
        None => {
            return Err(PErr::Fail);
        },
    };
    let c = match stag(s, b, open) {
        Some(c) => c,
        None => {
            return Err(PErr::Fail);
        },
    };
    let (d, name) = exprp_at(s, c, prec)?;
    let e = match stag(s, d, close) {
        Some(e) => e,
        None => {
            return Err(PErr::Fail);
        },
    };
    let f = match stag(s, e, open) {
        Some(f) => f,
        None => {
            return Err(PErr::Fail);
        },
    };
    let (g, lst) = levelsp_at(s, f, prec)?;
    let h = match stag(s, g, close) {
        Some(h) => h,
        None => {
            return Err(PErr::Fail);
        },
    };
    let st = Stmt::Type(name, lst);
    proof {
        assert(crate::syntax::exprs_view(lst@) =~= lst.deep_view());
    }
    Ok((h, st))
}


/// `modbeginp`: `module`, white space, a name, prefix arguments and
/// statements between braces.
pub open spec fn sp_modbeginp(s: Seq<char>, prec: Map<Seq<char>, usize>, i: int) -> PRes<SStmt>
    decreases s.len() - i, 0int,
{
    match sp_kw(s, i, "module"@, true) {
        None => PRes::Fail,
        Some(b) => match sp_alnum1(s, b) {
            None => PRes::Fail,
            Some(c) => match sp_prefixes(s, prec, c) {
                PRes::Fail => PRes::Fail,
                PRes::Panic => PRes::Panic,
                PRes::Done(d, pre) => match sp_stag(s, d, seq!['{']) {
                    None => PRes::Fail,
                    Some(e) => if !(i < e <= s.len()) {
                        PRes::Fail
                    } else {
                        match sp_stmtsp(s, prec, e) {
                            PRes::Fail => PRes::Fail,
                            PRes::Panic => PRes::Panic,
                            PRes::Done(f, sts) => match sp_stag(s, f, seq!['}']) {
                                None => PRes::Fail,
                                Some(g) => PRes::Done(
                                    g,
                                    SStmt::ModuleBegin(s.subrange(b, c), pre, sts),
                                ),
                            },
                        }
                    },
                },
            },
        },
    }
}

/// The alternatives of a statement, tried in order; the last is a bare
/// expression.
pub open spec fn sp_stmt_alt(s: Seq<char>, prec: Map<Seq<char>, usize>, i: int) -> PRes<SStmt>
    decreases s.len() - i, 1int,
{
    match sp_vardefp(s, prec, i) {
        PRes::Fail => match sp_setplatp(s, prec, i) {
            PRes::Fail => match sp_importp(s, prec, i) {
                PRes::Fail => match sp_modbeginp(s, prec, i) {
                    PRes::Fail => match sp_openp(s, i) {
                        PRes::Fail => match sp_typep(s, prec, i) {
                            PRes::Fail => match sp_exprp(s, prec, i) {
                                PRes::Done(j, e) => PRes::Done(j, SStmt::Ex(e)),
                                PRes::Fail => PRes::Fail,
                                PRes::Panic => PRes::Panic,
                            },
                            r => r,
                        },
                        r => r,
                    },
                    r => r,
                },
                r => r,
            },
            r => r,
        },
        r => r,
    }
}

/// `stmtp`: a statement and a semicolon with white space around it.
pub open spec fn sp_stmtp(s: Seq<char>, prec: Map<Seq<char>, usize>, i: int) -> PRes<SStmt>
    decreases s.len() - i, 2int,
{
    match sp_stmt_alt(s, prec, i) {
        PRes::Done(j, st) => match sp_stag(s, j, seq![';']) {
            Some(k) => PRes::Done(k, st),
            None => PRes::Fail,
        },
        PRes::Fail => PRes::Fail,
        PRes::Panic => PRes::Panic,
    }
}

/// The statements after the first: as many as follow, where one that reads
/// nothing is an error.
pub open spec fn sp_stmts_more(s: Seq<char>, prec: Map<Seq<char>, usize>, i: int) -> PRes<
    Seq<SStmt>,
>
    decreases s.len() - i, 3int,
{
    match sp_stmtp(s, prec, i) {
        PRes::Fail => PRes::Done(i, seq![]),
        PRes::Panic => PRes::Panic,
        PRes::Done(j, st) => if !(i < j <= s.len()) {
            PRes::Fail
        } else {
            prepend_res(seq![st], sp_stmts_more(s, prec, j))
        },
    }
}

/// `stmtsp`: one statement or more.
pub open spec fn sp_stmtsp(s: Seq<char>, prec: Map<Seq<char>, usize>, i: int) -> PRes<Seq<SStmt>>
    decreases s.len() - i, 4int,
{
    match sp_stmtp(s, prec, i) {
        PRes::Done(j, st) => if !(i < j <= s.len()) {
            PRes::Fail
        } else {
            prepend_res(seq![st], sp_stmts_more(s, prec, j))
        },
        PRes::Fail => PRes::Fail,
        PRes::Panic => PRes::Panic,
    }
}

pub(crate) fn modbeginp_at(s: &Vec<char>, i: usize, prec: &StrMap<usize>) -> (r: Result<
    (usize, Stmt),
    PErr,
>)
    requires
        i <= s@.len(),
    ensures
        pres_matches(r, sp_modbeginp(s@, prec@, i as int)),
        r matches Ok((j, _)) ==> i < j <= s@.len(),
    decreases s@.len() - i, 0int,
{
    let k = chars_of("module");
    let open: &[char] = &['{'];
    assert(open@ =~= seq!['{']);
    let close: &[char] = &['}'];
    assert(close@ =~= seq!['}']);
    let b = match kw(s, i, k.as_slice(), true) {
        Some(b) => b,
        None => {
            return Err(PErr::Fail);
        },
    };
    let (c, name) = match alnum1(s, b) {
        Some(t) => t,
        None => {
            return Err(PErr::Fail);
        },
    };
    let (d, pre) = prefixes(s, c, prec)?;
    let e = match stag(s, d, open) {
        Some(e) => e,
        None => {
            return Err(PErr::Fail);
        },
    };
    let (f, sts) = stmtsp_at(s, e, prec)?;
    let g = match stag(s, f, close) {
        Some(g) => g,
        None => {
            return Err(PErr::Fail);
        },
    };
    let ghost stsv = sts.deep_view();
    let st = Stmt::ModuleBegin(name, pre, Box::new(sts));
    proof {
        assert(crate::syntax::exprs_view(pre@) =~= pre.deep_view());
        assert(st.sv() is ModuleBegin);
        assert(st.sv()->ModuleBegin_2 =~= stsv);
    }
    Ok((g, st))
}

fn stmt_alt(s: &Vec<char>, i: usize, prec: &StrMap<usize>) -> (r: Result<(usize, Stmt), PErr>)
    requires
        i <= s@.len(),
    ensures
        pres_matches(r, sp_stmt_alt(s@, prec@, i as int)),
        r matches Ok((j, _)) ==> i <= j <= s@.len(),
    decreases s@.len() - i, 1int,
{
    match vardefp_at(s, i, prec) {
        Ok(t) => {
            return Ok(t);
        },
        Err(PErr::Panic) => {
            return Err(PErr::Panic);
        },
        Err(PErr::Fail) => {},
    }
    match setplatp_at(s, i, prec) {
        Ok(t) => {
            return Ok(t);
        },
        Err(PErr::Panic) => {
            return Err(PErr::Panic);
        },
        Err(PErr::Fail) => {},
    }
    match importp_at(s, i, prec) {
        Ok(t) => {
            return Ok(t);
        },
        Err(PErr::Panic) => {
            return Err(PErr::Panic);
        },
        Err(PErr::Fail) => {},
    }
    match modbeginp_at(s, i, prec) {
        Ok(t) => {
            return Ok(t);
        },
        Err(PErr::Panic) => {
            return Err(PErr::Panic);
        },
        Err(PErr::Fail) => {},
    }
    match openp_at(s, i) {
        Ok(t) => {
            return Ok(t);
        },
        Err(PErr::Panic) => {
            return Err(PErr::Panic);
        },
        Err(PErr::Fail) => {},
    }
    match typep_at(s, i, prec) {
        Ok(t) => {
            return Ok(t);
        },
        Err(PErr::Panic) => {
            return Err(PErr::Panic);
        },
        Err(PErr::Fail) => {},
    }
    match exprp_at(s, i, prec) {
        Ok((j, e)) => Ok((j, Stmt::Ex(e))),
        Err(e) => Err(e),
    }
}

pub(crate) fn stmtp_at(s: &Vec<char>, i: usize, prec: &StrMap<usize>) -> (r: Result<
    (usize, Stmt),
    PErr,
>)
    requires
        i <= s@.len(),
    ensures
        pres_matches(r, sp_stmtp(s@, prec@, i as int)),
        r matches Ok((j, _)) ==> i < j <= s@.len(),
    decreases s@.len() - i, 2int,
{
    let semi: &[char] = &[';'];
    assert(semi@ =~= seq![';']);
    let (j, st) = stmt_alt(s, i, prec)?;
    match stag(s, j, semi) {
        Some(k) => Ok((k, st)),
        None => Err(PErr::Fail),
    }
}

fn stmts_more(s: &Vec<char>, i: usize, prec: &StrMap<usize>) -> (r: Result<
    (usize, Vec<Stmt>),
    PErr,
>)
    requires
        i <= s@.len(),
    ensures
        pres_matches(r, sp_stmts_more(s@, prec@, i as int)),
        r matches Ok((j, _)) ==> i <= j <= s@.len(),
    decreases s@.len() - i, 3int,
{
    match stmtp_at(s, i, prec) {
        Err(PErr::Panic) => Err(PErr::Panic),
        Err(PErr::Fail) => {
            let v: Vec<Stmt> = Vec::new();
            assert(v.deep_view() =~= seq![]);
            Ok((i, v))
        },
        Ok((j, st)) => {
            let (k, rest) = stmts_more(s, j, prec)?;
            Ok((k, cons(st, rest)))
        },
    }
}

pub(crate) fn stmtsp_at(s: &Vec<char>, i: usize, prec: &StrMap<usize>) -> (r: Result<
    (usize, Vec<Stmt>),
    PErr,
>)
    requires
        i <= s@.len(),
    ensures
        pres_matches(r, sp_stmtsp(s@, prec@, i as int)),
        r matches Ok((j, _)) ==> i < j <= s@.len(),
    decreases s@.len() - i, 4int,
{
    let (j, st) = stmtp_at(s, i, prec)?;
    let (k, rest) = stmts_more(s, j, prec)?;
    Ok((k, cons(st, rest)))
}


/// `r` is what the spec result `p` describes for the text `input`: the rest
/// of the text after the position that `p` gives, and the value.
pub open spec fn str_matches<T: DeepView>(
    input: Seq<char>,
    r: Result<(String, T), ParseError>,
    p: PRes<T::V>,
) -> bool {
    match p {
        PRes::Done(j, v) => r matches Ok((rest, x)) && rest@ == input.subrange(j, input.len() as int)
            && x.deep_view() == v,
        PRes::Fail => r is Err,
        PRes::Panic => false,
    }
}

/// The rest of the text after a position, with the value read.
fn with_rest<T>(s: &Vec<char>, r: Result<(usize, T), PErr>) -> (out: Result<
    (String, T),
    ParseError,
>)
    requires
        r matches Ok((j, _)) ==> j <= s@.len(),
    ensures
        match r {
            Ok((j, x)) => out matches Ok((rest, y)) && rest@ == s@.subrange(j as int, s@.len() as int)
                && y == x,
            Err(_) => out is Err,
        },
{
    match r {
        Ok((j, x)) => Ok((string_of(s, j, s.len()), x)),
        Err(_) => Err(ParseError),
    }
}

/// An expression: one with infix operators, else a constant, else a variable.
/// Gives the rest of the text and what was read.
pub fn exprp(input: &str, prec: &StrMap<usize>) -> (r: Result<(String, Expr), ParseError>)
    requires
        !sp_exprp(input@, prec@, 0).is_panic(),
    ensures
        str_matches(input@, r, sp_exprp(input@, prec@, 0)),
{
    let s = chars_of(input);
    let r = exprp_at(&s, 0, prec);
    with_rest(&s, r)
}

/// An expression ended by a semicolon.
/// Gives the rest of the text and what was read.
pub fn levelp(input: &str, prec: &StrMap<usize>) -> (r: Result<(String, Expr), ParseError>)
    requires
        !sp_levelp(input@, prec@, 0).is_panic(),
    ensures
        str_matches(input@, r, sp_levelp(input@, prec@, 0)),
{
    let s = chars_of(input);
    let r = levelp_at(&s, 0, prec);
    with_rest(&s, r)
}

/// One or more expressions, each ended by a semicolon.
/// Gives the rest of the text and what was read.
pub fn levelsp(input: &str, prec: &StrMap<usize>) -> (r: Result<(String, Vec<Expr>), ParseError>)
    requires
        !sp_levelsp(input@, prec@, 0).is_panic(),
    ensures
        str_matches(input@, r, sp_levelsp(input@, prec@, 0)),
{
    let s = chars_of(input);
    let r = levelsp_at(&s, 0, prec);
    with_rest(&s, r)
}

/// A variable definition: `var name =: expression`.
/// Gives the rest of the text and what was read.
pub fn vardefp(input: &str, prec: &StrMap<usize>) -> (r: Result<(String, Stmt), ParseError>)
    requires
        !sp_vardefp(input@, prec@, 0).is_panic(),
    ensures
        str_matches(input@, r, sp_vardefp(input@, prec@, 0)),
{
    let s = chars_of(input);
    let r = vardefp_at(&s, 0, prec);
    with_rest(&s, r)
}

/// A platform statement: `platform expression`.
/// Gives the rest of the text and what was read.
pub fn setplatp(input: &str, prec: &StrMap<usize>) -> (r: Result<(String, Stmt), ParseError>)
    requires
        !sp_setplatp(input@, prec@, 0).is_panic(),
    ensures
        str_matches(input@, r, sp_setplatp(input@, prec@, 0)),
{
    let s = chars_of(input);
    let r = setplatp_at(&s, 0, prec);
    with_rest(&s, r)
}

/// An import: `import a/b/c` and prefix arguments `!{ expression }`.
/// Gives the rest of the text and what was read.
pub fn importp(input: &str, prec: &StrMap<usize>) -> (r: Result<(String, Stmt), ParseError>)
    requires
        !sp_importp(input@, prec@, 0).is_panic(),
    ensures
        str_matches(input@, r, sp_importp(input@, prec@, 0)),
{
    let s = chars_of(input);
    let r = importp_at(&s, 0, prec);
    with_rest(&s, r)
}

/// A module: `module name`, prefix arguments and statements between braces.
/// Gives the rest of the text and what was read.
pub fn modbeginp(input: &str, prec: &StrMap<usize>) -> (r: Result<(String, Stmt), ParseError>)
    requires
        !sp_modbeginp(input@, prec@, 0).is_panic(),
    ensures
        str_matches(input@, r, sp_modbeginp(input@, prec@, 0)),
{
    let s = chars_of(input);
    let r = modbeginp_at(&s, 0, prec);
    with_rest(&s, r)
}

/// An open statement: `open name`.
/// Gives the rest of the text and what was read.
pub fn openp(input: &str, prec: &StrMap<usize>) -> (r: Result<(String, Stmt), ParseError>)
    requires
        !sp_openp(input@, 0).is_panic(),
    ensures
        str_matches(input@, r, sp_openp(input@, 0)),
{
    let s = chars_of(input);
    let r = openp_at(&s, 0);
    with_rest(&s, r)
}

/// A type statement: `type { expression } { levels }`.
/// Gives the rest of the text and what was read.
pub fn typep(input: &str, prec: &StrMap<usize>) -> (r: Result<(String, Stmt), ParseError>)
    requires
        !sp_typep(input@, prec@, 0).is_panic(),
    ensures
        str_matches(input@, r, sp_typep(input@, prec@, 0)),
{
    let s = chars_of(input);
    let r = typep_at(&s, 0, prec);
    with_rest(&s, r)
}

/// A statement ended by a semicolon.
/// Gives the rest of the text and what was read.
pub fn stmtp(input: &str, prec: &StrMap<usize>) -> (r: Result<(String, Stmt), ParseError>)
    requires
        !sp_stmtp(input@, prec@, 0).is_panic(),
    ensures
        str_matches(input@, r, sp_stmtp(input@, prec@, 0)),
{
    let s = chars_of(input);
    let r = stmtp_at(&s, 0, prec);
    with_rest(&s, r)
}

/// One or more statements.
/// Gives the rest of the text and what was read.
pub fn stmtsp(input: &str, prec: &StrMap<usize>) -> (r: Result<(String, Vec<Stmt>), ParseError>)
    requires
        !sp_stmtsp(input@, prec@, 0).is_panic(),
    ensures
        str_matches(input@, r, sp_stmtsp(input@, prec@, 0)),
{
    let s = chars_of(input);
    let r = stmtsp_at(&s, 0, prec);
    with_rest(&s, r)
}


/// Whether reading an expression from `input` panics (an integer literal
/// that does not fit in `i32`, an
/// unmatched closing parenthesis, a list in operator position, or nothing
/// left to apply after a parenthesised operator).  `exprp` may be called
/// exactly where this is false.
pub fn exprp_panics(input: &str, prec: &StrMap<usize>) -> (r: bool)
    ensures
        r == sp_exprp(input@, prec@, 0).is_panic(),
{
    let s = chars_of(input);
    match exprp_at(&s, 0, prec) {
        Err(PErr::Panic) => true,
        _ => false,
    }
}

/// Whether reading statements from `input` panics.  `stmtsp` may be
/// called exactly where this is false.
pub fn stmtsp_panics(input: &str, prec: &StrMap<usize>) -> (r: bool)
    ensures
        r == sp_stmtsp(input@, prec@, 0).is_panic(),
{
    let s = chars_of(input);
    match stmtsp_at(&s, 0, prec) {
        Err(PErr::Panic) => true,
        _ => false,
    }
}


// ---------------------------------------------------------------------------
// Paths read whole
// ---------------------------------------------------------------------------

/// The text of a path: the names with `/` between them.
pub open spec fn path_text(ns: Seq<Seq<char>>) -> Seq<char>
    decreases ns.len(),
{
    if ns.len() == 0 {
        seq![]
    } else if ns.len() == 1 {
        ns[0]
    } else {
        ns[0] + seq!['/'] + path_text(ns.drop_first())
    }
}

/// A nonempty run of ASCII letters and digits.
pub open spec fn is_alnum_word(w: Seq<char>) -> bool {
    w.len() > 0 && forall|k: int| 0 <= k < w.len() ==> is_alnum(#[trigger] w[k])
}

proof fn lemma_alnum1(s: Seq<char>, i: int)
    requires
        0 <= i <= s.len(),
        sp_alnum1(s, i) is Some,
    ensures
        ({
            let k = sp_alnum1(s, i).unwrap();
            &&& i < k <= s.len()
            &&& is_alnum_word(s.subrange(i, k))
            &&& (k == s.len() || !is_alnum(s[k]))
        }),
{
    crate::lexer::lemma_run_end(s, i, |c: char| is_alnum(c));
    let k = sp_alnum1(s, i).unwrap();
    assert forall|q: int| 0 <= q < k - i implies is_alnum(#[trigger] s.subrange(i, k)[q]) by {
        assert(s.subrange(i, k)[q] == s[i + q]);
        let pr = |c: char| is_alnum(c);
        assert(pr(s[i + q]));
    }
}

proof fn lemma_names_more_whole(s: Seq<char>, i: int)
    requires
        0 <= i <= s.len(),
    ensures
        ({
            let (e, ns) = sp_names_more(s, i);
            &&& i <= e <= s.len()
            &&& (ns.len() == 0 ==> e == i)
            &&& (ns.len() > 0 ==> s.subrange(i, e) == seq!['/'] + path_text(ns) && (e == s.len() || !is_alnum(s[e])))
            &&& forall|k: int| 0 <= k < ns.len() ==> is_alnum_word(#[trigger] ns[k])
            &&& !(e + 1 < s.len() && s[e] == '/' && is_alnum(s[e + 1]))
        }),
    decreases s.len() - i,
{
    if sp_tag(s, i, seq!['/']) {
        assert(s[i] == '/') by {
            assert(s.subrange(i, i + 1)[0] == s[i]);
        }
        crate::lexer::lemma_run_end(s, i + 1, |c: char| is_alnum(c));
        match sp_alnum1(s, i + 1) {
            Some(k) => {
                lemma_alnum1(s, i + 1);
                lemma_names_more_whole(s, k);
                let (e, ns) = sp_names_more(s, k);
                let w = s.subrange(i + 1, k);
                let all = seq![w] + ns;
                assert(all[0] == w);
                assert(all.drop_first() =~= ns);
                if ns.len() == 0 {
                    assert(path_text(all) == w);
                    assert(s.subrange(i, e) =~= seq!['/'] + w);
                } else {
                    assert(path_text(all) == w + seq!['/'] + path_text(ns));
                    assert(s.subrange(i, e) =~= seq!['/'] + w + s.subrange(k, e));
                    assert(s.subrange(i, e) =~= seq!['/'] + path_text(all));
                }
                assert forall|q: int| 0 <= q < all.len() implies is_alnum_word(#[trigger] all[q]) by {
                    if q > 0 {
                        assert(all[q] == ns[q - 1]);
                    }
                }
            },
            None => {
                if i + 1 < s.len() && is_alnum(s[i + 1]) {
                    assert(run_end(s, i + 1, |c: char| is_alnum(c)) > i + 1);
                }
            },
        }
    } else {
        if i + 1 < s.len() && s[i] == '/' {
            assert(s.subrange(i, i + 1) =~= seq!['/']);
        }
    }
}

/// An import path is read whole: the names read are nonempty runs of ASCII
/// letters and digits that, with `/` between them, make up exactly the text
/// read; the last name ends where no letter or digit follows, and what
/// follows the path is never `/` and a letter or digit.
pub proof fn law_names_read_whole_path(s: Seq<char>, i: int)
    requires
        0 <= i <= s.len(),
        sp_names(s, i) is Some,
    ensures
        ({
            let (e, ns) = sp_names(s, i).unwrap();
            &&& i < e <= s.len()
            &&& ns.len() >= 1
            &&& s.subrange(i, e) == path_text(ns)
            &&& forall|k: int| 0 <= k < ns.len() ==> is_alnum_word(#[trigger] ns[k])
            &&& (e == s.len() || !is_alnum(s[e]))
            &&& !(e + 1 < s.len() && s[e] == '/' && is_alnum(s[e + 1]))
        }),
{
    lemma_alnum1(s, i);
    let k = sp_alnum1(s, i).unwrap();
    lemma_names_more_whole(s, k);
    let (e, ns) = sp_names_more(s, k);
    let w = s.subrange(i, k);
    let all = seq![w] + ns;
    assert(all[0] == w);
    assert(all.drop_first() =~= ns);
    if ns.len() == 0 {
        assert(path_text(all) == w);
    } else {
        assert(path_text(all) == w + seq!['/'] + path_text(ns));
        assert(s.subrange(i, e) =~= w + s.subrange(k, e));
        assert(s.subrange(i, e) =~= path_text(all));
    }
    assert forall|q: int| 0 <= q < all.len() implies is_alnum_word(#[trigger] all[q]) by {
        if q > 0 {
            assert(all[q] == ns[q - 1]);
        }
    }
}

} // verus!
