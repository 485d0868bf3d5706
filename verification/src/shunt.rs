use vstd::prelude::*;

use crate::lexer::{PRes, PErr, pres_matches, sp_ws, sp_tag, ws, tag};
use crate::parse::{sp_argp, argp, sp_stmtend, stmtendp, sp_constp, constp, sp_varp, varp};
use crate::syntax::{Expr, SExpr, exprs_view};
use crate::text::{lit, chars_of};
use crate::strmap::StrMap;

verus! {

/// An entry of the output queue of the expression parser: an operator still
/// to be applied, or a value.
#[derive(Debug)]
pub enum Value {
    Opr(Expr),
    Val(Expr),
}

/// The mathematical value of a [`Value`].
pub enum SValue {
    Opr(SExpr),
    Val(SExpr),
}

impl Value {
    pub open spec fn sv(&self) -> SValue {
        match self {
            Value::Opr(e) => SValue::Opr(e.sv()),
            Value::Val(e) => SValue::Val(e.sv()),
        }
    }

    /// The expression that the entry holds, operator or value.
    pub fn unwrap(&self) -> (r: &Expr)
        ensures
            r.sv() == (match self.sv() {
                SValue::Opr(e) => e,
                SValue::Val(e) => e,
            }),
    {
        match self {
            Value::Opr(e) => e,
            Value::Val(e) => e,
        }
    }
}

/// The mathematical values of queue entries.
pub open spec fn vals_view(v: Seq<Value>) -> Seq<SValue> {
    Seq::new(v.len(), |i: int| v[i].sv())
}

/// The mathematical values of operator-stack entries.
pub open spec fn ops_view(v: Seq<(Expr, usize)>) -> Seq<(SExpr, usize)> {
    Seq::new(v.len(), |i: int| (v[i].0.sv(), v[i].1))
}

/// The expression that stands for an operator that found too few operands.
pub open spec fn underflow_msg() -> Seq<char> {
    "ERROR: syntax error caused stack underflow."@
}

/// One step of evaluating an output queue with a stack: a value is pushed;
/// an operator takes the two topmost values `b`, `a` (in the order they were
/// pushed) and pushes its application to `[b, a]`, or, where there are fewer
/// than two, leaves only an error expression.
pub open spec fn fs_step(n: Seq<SExpr>, v: SValue) -> Seq<SExpr> {
    match v {
        SValue::Val(e) => n.push(e),
        SValue::Opr(o) => if n.len() >= 2 {
            n.subrange(0, n.len() - 2).push(
                SExpr::App(Box::new(o), seq![n[n.len() - 2], n[n.len() - 1]]),
            )
        } else {
            seq![SExpr::E(underflow_msg())]
        },
    }
}

/// The stack that evaluating the queue `q` from the front leaves.
pub open spec fn fs_fold(q: Seq<SValue>) -> Seq<SExpr>
    decreases q.len(),
{
    if q.len() == 0 {
        seq![]
    } else {
        fs_step(fs_fold(q.drop_last()), q.last())
    }
}

/// The operators of an operator stack as queue entries, topmost first.
pub open spec fn oprs(ops: Seq<(SExpr, usize)>) -> Seq<SValue> {
    Seq::new(ops.len(), |k: int| SValue::Opr(ops[ops.len() - 1 - k].0))
}

/// `apply_fs`: the operators of the stack, topmost first, go after the
/// queue, and the whole is evaluated.
pub open spec fn sp_apply_fs(outq: Seq<SValue>, ops: Seq<(SExpr, usize)>) -> Seq<SExpr> {
    fs_fold(outq + oprs(ops))
}

/// Moves the operators of `ops`, topmost first, to the end of `outq` and
/// evaluates the queue.
fn apply_fs(outq: &mut Vec<Value>, ops: &Vec<(Expr, usize)>) -> (r: Vec<Expr>)
    ensures
        vals_view(final(outq)@) == vals_view(old(outq)@) + oprs(ops_view(ops@)),
        exprs_view(r@) == sp_apply_fs(vals_view(old(outq)@), ops_view(ops@)),
{
    let ghost q0 = vals_view(outq@);
    let ghost os = oprs(ops_view(ops@));
    let mut k = ops.len();
    proof {
        assert(os.subrange(0, 0) =~= seq![]);
        assert(vals_view(outq@) =~= q0 + os.subrange(0, 0));
    }
    while k > 0
        invariant
            k <= ops@.len(),
            os == oprs(ops_view(ops@)),
            vals_view(outq@) == q0 + os.subrange(0, ops@.len() - k),
        decreases k,
    {
        k = k - 1;
        let ghost before = outq@;
        outq.push(Value::Opr(ops[k].0.copy()));
        proof {
            assert(os[ops@.len() - 1 - k] == SValue::Opr(ops@[k as int].0.sv()));
            assert(vals_view(outq@) =~= vals_view(before).push(os[ops@.len() - 1 - k]));
            assert(os.subrange(0, ops@.len() - k) =~= os.subrange(0, ops@.len() - 1 - k).push(
                os[ops@.len() - 1 - k],
            ));
        }
    }
    proof {
        assert(os.subrange(0, ops@.len() as int) =~= os);
    }
    let ghost q = vals_view(outq@);
    let mut n: Vec<Expr> = Vec::new();
    let mut i: usize = 0;
    proof {
        assert(q.subrange(0, 0) =~= seq![]);
        assert(exprs_view(n@) =~= seq![]);
    }
    while i < outq.len()
        invariant
            i <= outq@.len(),
            q == vals_view(outq@),
            exprs_view(n@) == fs_fold(q.subrange(0, i as int)),
        decreases outq@.len() - i,
    {
        proof {
            assert(q.subrange(0, i + 1).drop_last() =~= q.subrange(0, i as int));
            assert(q.subrange(0, i + 1).last() == outq@[i as int].sv());
        }
        let ghost nv = exprs_view(n@);
        match &outq[i] {
            Value::Opr(o) => {
                let sa = n.pop();
                let sb = n.pop();
                match (sa, sb) {
                    (Some(a), Some(b)) => {
                        let g = o.copy();
                        let args = vec![b, a];
                        let e = Expr::App(Box::new(g), Box::new(args));
                        proof {
                            assert(e.sv() is App);
                            assert(e.sv()->App_1 =~= seq![nv[nv.len() - 2], nv[nv.len() - 1]]);
                        }
                        n.push(e);
                        proof {
                            assert(exprs_view(n@) =~= nv.subrange(0, nv.len() - 2).push(e.sv()));
                        }
                    },
                    _ => {
                        n.push(Expr::E(lit("ERROR: syntax error caused stack underflow.")));
                        proof {
                            assert(nv.len() < 2);
                            assert(n@.len() == 1);
                            assert(exprs_view(n@) =~= seq![SExpr::E(underflow_msg())]);
                        }
                    },
                }
            },
            Value::Val(v) => {
                n.push(v.copy());
                proof {
                    assert(exprs_view(n@) =~= nv.push(v.sv()));
                }
            },
        }
        i = i + 1;
    }
    proof {
        assert(q.subrange(0, outq@.len() as int) =~= q);
    }
    n
}


/// Whether `e` is the mark of an opening parenthesis on the operator stack.
pub open spec fn is_lp01(e: SExpr) -> bool {
    e == SExpr::LP(0) || e == SExpr::LP(1)
}

/// Pops the operator stack down to the nearest parenthesis mark: the
/// entries popped (topmost first), the stack below the mark and the mark's
/// number; `None` where there is no mark.
pub open spec fn sp_pop_lp(ops: Seq<(SExpr, usize)>) -> Option<
    (Seq<(SExpr, usize)>, Seq<(SExpr, usize)>, i32),
>
    decreases ops.len(),
{
    if ops.len() == 0 {
        None
    } else if is_lp01(ops.last().0) {
        Some((seq![], ops.drop_last(), ops.last().0->LP_0))
    } else {
        match sp_pop_lp(ops.drop_last()) {
            Some((stk, rest, lp)) => Some((seq![ops.last()] + stk, rest, lp)),
            None => None,
        }
    }
}

/// `stk` in front of the entries that `r` pops.
pub open spec fn pre_pop(
    stk: Seq<(SExpr, usize)>,
    r: Option<(Seq<(SExpr, usize)>, Seq<(SExpr, usize)>, i32)>,
) -> Option<(Seq<(SExpr, usize)>, Seq<(SExpr, usize)>, i32)> {
    match r {
        Some((s2, rest, lp)) => Some((stk + s2, rest, lp)),
        None => None,
    }
}

/// The precedence of the topmost operator, 0 for an empty stack.
pub open spec fn top_prec(ops: Seq<(SExpr, usize)>) -> int {
    if ops.len() > 0 {
        ops.last().1 as int
    } else {
        0
    }
}

/// The text after which an empty parse still gives an error expression.
pub open spec fn magic_tag() -> Seq<char> {
    "iqojeioqhworwh"@
}

/// What the expression parser gives when the expression ends at `inp`: the
/// first expression that evaluating the queue and the remaining operators
/// leaves; where it leaves none, an error expression if the text
/// `magic_tag()` follows, else a failure.
pub open spec fn sp_finish(
    s: Seq<char>,
    inp: int,
    outq: Seq<SValue>,
    ops: Seq<(SExpr, usize)>,
) -> PRes<SExpr> {
    let n = sp_apply_fs(outq, ops);
    if n.len() > 0 {
        PRes::Done(inp, n[0])
    } else if sp_tag(s, inp, magic_tag()) {
        PRes::Done(inp + magic_tag().len(), SExpr::E("j"@))
    } else {
        PRes::Fail
    }
}

/// The operator-precedence parser from position `inp`, with output queue
/// `outq`, operator stack `ops` (operators with their precedence, and marks
/// of opening parentheses) and `form` 0 where a value is expected, 1 where an
/// operator is.
pub open spec fn sp_shunt(
    s: Seq<char>,
    prec: Map<Seq<char>, usize>,
    inp: int,
    outq: Seq<SValue>,
    ops: Seq<(SExpr, usize)>,
    form: i32,
) -> PRes<SExpr>
    decreases s.len() - inp,
{
    if !(0 <= inp <= s.len()) {
        PRes::Fail
    } else if sp_stmtend(s, inp) {
        sp_finish(s, inp, outq, ops)
    } else {
        match sp_argp(s, inp) {
            PRes::Panic => PRes::Panic,
            PRes::Fail => PRes::Fail,
            PRes::Done(j, t) => if !(inp < j <= s.len()) {
                PRes::Fail
            } else {
                match t {
                    SExpr::LParen => sp_shunt(s, prec, j, outq, ops.push((SExpr::LP(form), 0usize)), 0),
                    SExpr::RParen => match sp_pop_lp(ops) {
                        None => PRes::Panic,
                        Some((stk, rest, lp)) => if lp == 0 {
                            sp_shunt(
                                s,
                                prec,
                                j,
                                outq + Seq::new(stk.len(), |k: int| SValue::Opr(stk[k].0)),
                                rest,
                                1,
                            )
                        } else {
                            let n = sp_apply_fs(outq, stk);
                            if n.len() == 0 {
                                PRes::Panic
                            } else {
                                sp_shunt(
                                    s,
                                    prec,
                                    j,
                                    Seq::new((n.len() - 1) as nat, |k: int| SValue::Val(n[k])),
                                    rest.push((n.last(), 0usize)),
                                    0,
                                )
                            }
                        },
                    },
                    _ => if form == 0 {
                        sp_shunt(s, prec, j, outq.push(SValue::Val(t)), ops, 1)
                    } else {
                        match t {
                            SExpr::Var(name) => if prec.contains_key(name) {
                                if (prec[name] as int) < top_prec(ops) {
                                    sp_shunt(
                                        s,
                                        prec,
                                        j,
                                        outq.push(SValue::Opr(SExpr::Var(name))),
                                        ops.drop_last(),
                                        0,
                                    )
                                } else {
                                    sp_shunt(s, prec, j, outq, ops.push((SExpr::Var(name), prec[name])), 0)
                                }
                            } else {
                                sp_shunt(s, prec, j, outq, ops.push((SExpr::Var(name), usize::MAX)), 0)
                            },
                            _ => PRes::Panic,
                        }
                    },
                }
            },
        }
    }
}

/// `apporlstp`: an expression of values and infix operators up to a
/// semicolon or closing brace.
pub open spec fn sp_apporlstp(s: Seq<char>, prec: Map<Seq<char>, usize>, i: int) -> PRes<SExpr> {
    sp_shunt(s, prec, i, seq![], seq![], 0)
}

/// The end of an expression: evaluates the queue and what is left on the
/// operator stack.
fn finish(s: &Vec<char>, inp: usize, outq: &mut Vec<Value>, ops: &Vec<(Expr, usize)>) -> (r: Result<
    (usize, Expr),
    PErr,
>)
    requires
        inp <= s@.len(),
    ensures
        pres_matches(r, sp_finish(s@, inp as int, vals_view(old(outq)@), ops_view(ops@))),
        r matches Ok((j, _)) ==> inp <= j <= s@.len(),
{
    let n = apply_fs(outq, ops);
    if n.len() > 0 {
        assert(exprs_view(n@)[0] == n@[0].sv());
        return Ok((inp, n[0].copy()));
    }
    let t = chars_of("iqojeioqhworwh");
    if tag(s, inp, t.as_slice()) {
        Ok((inp + t.len(), Expr::E(lit("j"))))
    } else {
        Err(PErr::Fail)
    }
}

/// Whether the topmost entry of the operator stack is a parenthesis mark.
fn top_is_open(ops: &Vec<(Expr, usize)>) -> (r: bool)
    ensures
        r == (ops@.len() > 0 && is_lp01(ops_view(ops@).last().0)),
{
    if ops.len() == 0 {
        return false;
    }
    match &ops[ops.len() - 1].0 {
        Expr::LP(n) => *n == 0 || *n == 1,
        _ => false,
    }
}


/// `apporlstp`: reads values and infix operators up to a semicolon or a
/// closing brace and builds the expression by operator precedence.
pub(crate) fn apporlstp(s: &Vec<char>, i: usize, prec: &StrMap<usize>) -> (r: Result<
    (usize, Expr),
    PErr,
>)
    requires
        i <= s@.len(),
    ensures
        pres_matches(r, sp_apporlstp(s@, prec@, i as int)),
        r matches Ok((j, _)) ==> i <= j <= s@.len(),
{
    let mut outq: Vec<Value> = Vec::new();
    let mut ops: Vec<(Expr, usize)> = Vec::new();
    let mut inp = i;
    let mut form: i32 = 0;
    proof {
        assert(vals_view(outq@) =~= seq![]);
        assert(ops_view(ops@) =~= seq![]);
    }
    loop
        invariant
            i <= inp <= s@.len(),
            form == 0 || form == 1,
            sp_shunt(s@, prec@, inp as int, vals_view(outq@), ops_view(ops@), form)
                == sp_apporlstp(s@, prec@, i as int),
        decreases s@.len() - inp,
    {
        let ghost q0 = vals_view(outq@);
        let ghost o0 = ops_view(ops@);
        if stmtendp(s, inp).is_ok() {
            return finish(s, inp, &mut outq, &ops);
        }
        let (j, t) = match argp(s, inp) {
            Ok(x) => x,
            Err(e) => {
                return Err(e);
            },
        };
        match t {
            Expr::LParen => {
                ops.push((Expr::LP(form), 0));
                proof {
                    assert(ops_view(ops@) =~= o0.push((SExpr::LP(form), 0usize)));
                }
                inp = j;
                form = 0;
            },
            Expr::RParen => {
                let mut stk: Vec<(Expr, usize)> = Vec::new();
                proof {
                    assert(ops_view(stk@) =~= seq![]);
                    assert(pre_pop(seq![], sp_pop_lp(o0)) == sp_pop_lp(o0));
                }
                while !top_is_open(&ops)
                    invariant
                        sp_pop_lp(o0) == pre_pop(ops_view(stk@), sp_pop_lp(ops_view(ops@))),
                        i <= inp < j <= s@.len(),
                        !sp_stmtend(s@, inp as int),
                        sp_argp(s@, inp as int) == PRes::Done(j as int, SExpr::RParen),
                        sp_shunt(s@, prec@, inp as int, q0, o0, form) == sp_apporlstp(s@, prec@, i as int),
                    decreases ops@.len(),
                {
                    let ghost ov = ops_view(ops@);
                    let ghost sv = ops_view(stk@);
                    match ops.pop() {
                        Some(e) => {
                            proof {
                                assert(ov.drop_last() =~= ops_view(ops@));
                                assert(ov.last() == (e.0.sv(), e.1));
                            }
                            stk.push(e);
                            proof {
                                assert(ops_view(stk@) =~= sv.push(ov.last()));
                                match sp_pop_lp(ops_view(ops@)) {
                                    Some((s2, rest, lp)) => {
                                        assert(sv + (seq![ov.last()] + s2) =~= sv.push(ov.last())
                                            + s2);
                                    },
                                    None => {},
                                }
                            }
                        },
                        None => {
                            return Err(PErr::Panic);
                        },
                    }
                }
                let ghost ov = ops_view(ops@);
                let top = ops.pop();
                proof {
                    assert(ov.drop_last() =~= ops_view(ops@));
                    assert(ops_view(stk@) + seq![] =~= ops_view(stk@));
                }
                let lp = match top {
                    Some((Expr::LP(lp), _)) => lp,
                    _ => {
                        return Err(PErr::Panic);
                    },
                };
                if lp == 0 {
                    let ghost sv = ops_view(stk@);
                    let mut k: usize = 0;
                    while k < stk.len()
                        invariant
                            k <= stk@.len(),
                            sv == ops_view(stk@),
                            vals_view(outq@) == q0 + Seq::new(k as nat, |m: int| SValue::Opr(sv[m].0)),
                        decreases stk@.len() - k,
                    {
                        let ghost before = vals_view(outq@);
                        outq.push(Value::Opr(stk[k].0.copy()));
                        proof {
                            assert(vals_view(outq@) =~= before.push(SValue::Opr(sv[k as int].0)));
                            assert(q0 + Seq::new((k + 1) as nat, |m: int| SValue::Opr(sv[m].0)) =~= (q0
                                + Seq::new(k as nat, |m: int| SValue::Opr(sv[m].0))).push(
                                SValue::Opr(sv[k as int].0),
                            ));
                        }
                        k = k + 1;
                    }
                    proof {
                        assert(Seq::new(k as nat, |m: int| SValue::Opr(sv[m].0)) =~= Seq::new(
                            sv.len(),
                            |m: int| SValue::Opr(sv[m].0),
                        ));
                    }
                    inp = j;
                    form = 1;
                } else {
                    let mut n = apply_fs(&mut outq, &stk);
                    let ghost nv = exprs_view(n@);
                    let last = match n.pop() {
                        Some(e) => e,
                        None => {
                            return Err(PErr::Panic);
                        },
                    };
                    let mut nq: Vec<Value> = Vec::new();
                    let mut k: usize = 0;
                    while k < n.len()
                        invariant
                            k <= n@.len(),
                            n@.len() + 1 == nv.len(),
                            forall|m: int| 0 <= m < n@.len() ==> #[trigger] n@[m].sv() == nv[m],
                            vals_view(nq@) == Seq::new(k as nat, |m: int| SValue::Val(nv[m])),
                        decreases n@.len() - k,
                    {
                        let ghost before = vals_view(nq@);
                        nq.push(Value::Val(n[k].copy()));
                        proof {
                            assert(n@[k as int].sv() == nv[k as int]);
                            assert(vals_view(nq@) =~= before.push(SValue::Val(nv[k as int])));
                            assert(vals_view(nq@) =~= Seq::new((k + 1) as nat, |m: int| SValue::Val(nv[m])));
                        }
                        k = k + 1;
                    }
                    outq = nq;
                    let ghost ob = ops_view(ops@);
                    ops.push((last, 0));
                    proof {
                        assert(last.sv() == nv.last());
                        assert(ops_view(ops@) =~= ob.push((nv.last(), 0usize)));
                        assert(vals_view(outq@) =~= Seq::new((nv.len() - 1) as nat, |m: int| SValue::Val(nv[m])));
                    }
                    inp = j;
                    form = 0;
                }
            },
            _ => {
                if form == 0 {
                    outq.push(Value::Val(t));
                    proof {
                        assert(vals_view(outq@) =~= q0.push(SValue::Val(t.sv())));
                    }
                    inp = j;
                    form = 1;
                } else {
                    match t {
                        Expr::Var(name) => {
                            match prec.get(&name) {
                                Some(p) => {
                                    let top: usize = if ops.len() > 0 {
                                        ops[ops.len() - 1].1
                                    } else {
                                        0
                                    };
                                    if *p < top {
                                        add_f(&Expr::Var(name), &mut outq);
                                        let _ = ops.pop();
                                        proof {
                                            assert(vals_view(outq@) =~= q0.push(SValue::Opr(SExpr::Var(name@))));
                                            assert(ops_view(ops@) =~= o0.drop_last());
                                        }
                                    } else {
                                        let pv = *p;
                                        ops.push((Expr::Var(name), pv));
                                        proof {
                                            assert(ops_view(ops@) =~= o0.push((SExpr::Var(name@), pv)));
                                        }
                                    }
                                },
                                None => {
                                    ops.push((Expr::Var(name), usize::MAX));
                                    proof {
                                        assert(ops_view(ops@) =~= o0.push((SExpr::Var(name@), usize::MAX)));
                                    }
                                },
                            }
                            inp = j;
                            form = 0;
                        },
                        _ => {
                            return Err(PErr::Panic);
                        },
                    }
                }
            },
        }
    }
}


/// Puts the operator `z` at the end of the output queue.
fn add_f(z: &Expr, outq: &mut Vec<Value>)
    ensures
        vals_view(final(outq)@) == vals_view(old(outq)@).push(SValue::Opr(z.sv())),
{
    let ghost before = vals_view(outq@);
    outq.push(Value::Opr(z.copy()));
    assert(vals_view(outq@) =~= before.push(SValue::Opr(z.sv())));
}

/// `exprp`: after white space, an expression with operators; else a
/// constant; else a variable.
pub open spec fn sp_exprp(s: Seq<char>, prec: Map<Seq<char>, usize>, i: int) -> PRes<SExpr> {
    let a = sp_ws(s, i);
    match sp_apporlstp(s, prec, a) {
        PRes::Done(j, e) => PRes::Done(j, e),
        PRes::Panic => PRes::Panic,
        PRes::Fail => match sp_constp(s, a) {
            PRes::Done(j, c) => PRes::Done(j, SExpr::C(c)),
            PRes::Panic => PRes::Panic,
            PRes::Fail => match sp_varp(s, a) {
                PRes::Done(j, v) => PRes::Done(j, SExpr::Var(v)),
                _ => PRes::Fail,
            },
        },
    }
}

pub(crate) fn exprp_at(s: &Vec<char>, i: usize, prec: &StrMap<usize>) -> (r: Result<
    (usize, Expr),
    PErr,
>)
    requires
        i <= s@.len(),
    ensures
        pres_matches(r, sp_exprp(s@, prec@, i as int)),
        r matches Ok((j, _)) ==> i <= j <= s@.len(),
{
    let a = ws(s, i);
    match apporlstp(s, a, prec) {
        Ok(t) => Ok(t),
        Err(PErr::Panic) => Err(PErr::Panic),
        Err(PErr::Fail) => match constp(s, a) {
            Ok((j, c)) => Ok((j, Expr::C(c))),
            Err(PErr::Panic) => Err(PErr::Panic),
            Err(PErr::Fail) => match varp(s, a) {
                Ok((j, v)) => Ok((j, Expr::Var(v))),
                Err(_) => Err(PErr::Fail),
            },
        },
    }
}

/// `oprp`: after white space, an expression in parentheses or a variable.
pub open spec fn sp_oprp(s: Seq<char>, prec: Map<Seq<char>, usize>, i: int) -> PRes<SExpr> {
    let a = sp_ws(s, i);
    let inner = if sp_tag(s, a, seq!['(']) {
        match sp_exprp(s, prec, a + 1) {
            PRes::Done(j, e) => if sp_tag(s, j, seq![')']) {
                PRes::Done(j + 1, e)
            } else {
                PRes::Fail
            },
            r => r,
        }
    } else {
        PRes::Fail
    };
    match inner {
        PRes::Fail => match sp_varp(s, a) {
            PRes::Done(j, v) => PRes::Done(j, SExpr::Var(v)),
            _ => PRes::Fail,
        },
        r => r,
    }
}

pub(crate) fn oprp_at(s: &Vec<char>, i: usize, prec: &StrMap<usize>) -> (r: Result<
    (usize, Expr),
    PErr,
>)
    requires
        i <= s@.len(),
    ensures
        pres_matches(r, sp_oprp(s@, prec@, i as int)),
        r matches Ok((j, _)) ==> i <= j <= s@.len(),
{
    let a = ws(s, i);
    if crate::parse::tag1(s, a, '(') {
        match exprp_at(s, a + 1, prec) {
            Ok((j, e)) => {
                if crate::parse::tag1(s, j, ')') {
                    return Ok((j + 1, e));
                }
            },
            Err(PErr::Panic) => {
                return Err(PErr::Panic);
            },
            Err(PErr::Fail) => {},
        }
    }
    match varp(s, a) {
        Ok((j, v)) => Ok((j, Expr::Var(v))),
        Err(_) => Err(PErr::Fail),
    }
}


/// `fnp`: parameter names between braces, white space and the body.
pub open spec fn sp_fnp(s: Seq<char>, prec: Map<Seq<char>, usize>, i: int) -> PRes<
    (Seq<Seq<char>>, SExpr),
> {
    match crate::parse::sp_paramsp(s, i) {
        PRes::Done(j, crate::syntax::SConst::Params(vs)) => match sp_exprp(s, prec, sp_ws(s, j)) {
            PRes::Done(k, e) => PRes::Done(k, (vs, e)),
            PRes::Fail => PRes::Fail,
            PRes::Panic => PRes::Panic,
        },
        _ => PRes::Fail,
    }
}

pub(crate) fn fnp_at(s: &Vec<char>, i: usize, prec: &StrMap<usize>) -> (r: Result<
    (usize, crate::syntax::Fun),
    PErr,
>)
    requires
        i <= s@.len(),
    ensures
        pres_matches(r, sp_fnp(s@, prec@, i as int)),
        r matches Ok((j, _)) ==> i <= j <= s@.len(),
{
    match crate::parse::paramsp(s, i) {
        Ok((j, crate::syntax::Const::Params(vs))) => {
            let a = ws(s, j);
            match exprp_at(s, a, prec) {
                Ok((k, e)) => {
                    let f = crate::syntax::Fun { params: vs, body: Box::new(e) };
                    proof {
                        assert(crate::syntax::strs_view(vs@) =~= vs.deep_view());
                    }
                    Ok((k, f))
                },
                Err(e) => Err(e),
            }
        },
        _ => Err(PErr::Fail),
    }
}


/// White space before an expression does not change what is read: reading
/// from `i` is reading from the end of the white space there.
pub proof fn law_exprp_skips_space(s: Seq<char>, prec: Map<Seq<char>, usize>, i: int)
    requires
        0 <= i <= s.len(),
    ensures
        sp_exprp(s, prec, i) == sp_exprp(s, prec, sp_ws(s, i)),
{
    crate::lexer::lemma_ws_idem(s, i);
}


// ---------------------------------------------------------------------------
// Operators of equal precedence
// ---------------------------------------------------------------------------

/// An operator read where an operator is expected, whose precedence equals
/// that of the topmost stacked operator, goes on top of the operator stack
/// (only a strictly lower precedence takes the topmost one off), and a
/// value is expected next.
pub proof fn law_equal_precedence_is_stacked(
    s: Seq<char>,
    prec: Map<Seq<char>, usize>,
    inp: int,
    outq: Seq<SValue>,
    ops: Seq<(SExpr, usize)>,
    name: Seq<char>,
    j: int,
)
    requires
        0 <= inp < j <= s.len(),
        !sp_stmtend(s, inp),
        sp_argp(s, inp) == PRes::Done(j, SExpr::Var(name)),
        prec.contains_key(name),
        ops.len() > 0,
        ops.last().1 == prec[name],
    ensures
        sp_shunt(s, prec, inp, outq, ops, 1) == sp_shunt(
            s,
            prec,
            j,
            outq,
            ops.push((SExpr::Var(name), prec[name])),
            0,
        ),
{
}

/// After white space, a variable name that is not a number, a comma or a
/// bracket is read as that variable.
proof fn lemma_argp_var(s: Seq<char>, i: int, a: int, k: int)
    requires
        0 <= i <= a < k <= s.len(),
        sp_ws(s, i) == a,
        s[a] != '(' && s[a] != ')' && s[a] != ',' && s[a] != '-' && s[a] != '{',
        !crate::text::is_dec(s[a]),
        crate::text::is_var_char(s[a]),
        crate::lexer::run_end(s, a, |c: char| crate::text::is_var_char(c)) == k,
    ensures
        sp_argp(s, i) == PRes::Done(k, SExpr::Var(s.subrange(a, k))),
{
    crate::lexer::lemma_ws_idem(s, i);
    assert(!sp_tag(s, a, seq!['('])) by {
        assert(s.subrange(a, a + 1)[0] == s[a]);
    }
    assert(!sp_tag(s, a, seq![')'])) by {
        assert(s.subrange(a, a + 1)[0] == s[a]);
    }
    assert(!sp_tag(s, a, seq!['-'])) by {
        assert(s.subrange(a, a + 1)[0] == s[a]);
    }
    assert(!sp_tag(s, a, seq!['{'])) by {
        assert(s.subrange(a, a + 1)[0] == s[a]);
    }
    assert(!sp_tag(s, a, seq![','])) by {
        assert(s.subrange(a, a + 1)[0] == s[a]);
    }
    assert(crate::lexer::run_end(s, a, |c: char| crate::text::is_dec(c)) == a);
    assert(crate::parse::sp_intp(s, a) is Fail);
    assert(crate::parse::sp_floatp(s, a) is Fail);
    assert(crate::parse::sp_paramsp(s, a) is Fail);
    assert(sp_constp(s, a) is Fail);
    assert(crate::parse::sp_lstp(s, a) is Fail);
}

/// After white space, a comma is read as the variable `,`.
proof fn lemma_argp_comma(s: Seq<char>, i: int, a: int)
    requires
        0 <= i <= a < s.len(),
        sp_ws(s, i) == a,
        s[a] == ',',
    ensures
        sp_argp(s, i) == PRes::Done(a + 1, SExpr::Var(seq![','])),
{
    crate::lexer::lemma_ws_idem(s, i);
    assert(!sp_tag(s, a, seq!['('])) by {
        assert(s.subrange(a, a + 1)[0] == s[a]);
    }
    assert(!sp_tag(s, a, seq![')'])) by {
        assert(s.subrange(a, a + 1)[0] == s[a]);
    }
    assert(!sp_tag(s, a, seq!['-'])) by {
        assert(s.subrange(a, a + 1)[0] == s[a]);
    }
    assert(!sp_tag(s, a, seq!['{'])) by {
        assert(s.subrange(a, a + 1)[0] == s[a]);
    }
    assert(sp_tag(s, a, seq![','])) by {
        assert(s.subrange(a, a + 1) =~= seq![',']);
    }
    assert(crate::lexer::run_end(s, a, |c: char| crate::text::is_dec(c)) == a);
    assert(crate::parse::sp_intp(s, a) is Fail);
    assert(crate::parse::sp_floatp(s, a) is Fail);
    assert(crate::parse::sp_paramsp(s, a) is Fail);
    assert(sp_constp(s, a) is Fail);
    assert(crate::parse::sp_lstp(s, a) is Fail);
}

/// The text `a , b , c;`.
pub open spec fn comma_chain_text() -> Seq<char> {
    seq!['a', ' ', ',', ' ', 'b', ' ', ',', ' ', 'c', ';']
}

/// Whatever the precedences, as long as the comma is an operator with some
/// precedence, `a , b , c;` is read as the right-nested chain
/// `a , (b , c)`: no value read is lost.
pub proof fn law_comma_chain_nests_right(prec: Map<Seq<char>, usize>)
    requires
        prec.contains_key(seq![',']),
    ensures
        sp_exprp(comma_chain_text(), prec, 0) == PRes::Done(
            9,
            SExpr::App(
                Box::new(SExpr::Var(seq![','])),
                seq![
                    SExpr::Var(seq!['a']),
                    SExpr::App(
                        Box::new(SExpr::Var(seq![','])),
                        seq![SExpr::Var(seq!['b']), SExpr::Var(seq!['c'])],
                    ),
                ],
            ),
        ),
{
    let s = comma_chain_text();
    let sp = |c: char| crate::text::is_space(c);
    let vp = |c: char| crate::text::is_var_char(c);
    let p = prec[seq![',']];
    let va = SExpr::Var(seq!['a']);
    let vb = SExpr::Var(seq!['b']);
    let vc = SExpr::Var(seq!['c']);
    let co = SExpr::Var(seq![',']);
    // white space
    assert(crate::lexer::run_end(s, 0, sp) == 0);
    assert(crate::lexer::run_end(s, 2, sp) == 2);
    assert(crate::lexer::run_end(s, 1, sp) == 2);
    assert(crate::lexer::run_end(s, 4, sp) == 4);
    assert(crate::lexer::run_end(s, 3, sp) == 4);
    assert(crate::lexer::run_end(s, 6, sp) == 6);
    assert(crate::lexer::run_end(s, 5, sp) == 6);
    assert(crate::lexer::run_end(s, 8, sp) == 8);
    assert(crate::lexer::run_end(s, 7, sp) == 8);
    assert(crate::lexer::run_end(s, 9, sp) == 9);
    // names
    assert(crate::lexer::run_end(s, 1, vp) == 1);
    assert(crate::lexer::run_end(s, 0, vp) == 1);
    assert(crate::lexer::run_end(s, 5, vp) == 5);
    assert(crate::lexer::run_end(s, 4, vp) == 5);
    assert(crate::lexer::run_end(s, 9, vp) == 9);
    assert(crate::lexer::run_end(s, 8, vp) == 9);
    assert(s.subrange(0, 1) =~= seq!['a']);
    assert(s.subrange(4, 5) =~= seq!['b']);
    assert(s.subrange(8, 9) =~= seq!['c']);
    // tokens
    lemma_argp_var(s, 0, 0, 1);
    lemma_argp_comma(s, 1, 2);
    lemma_argp_var(s, 3, 4, 5);
    lemma_argp_comma(s, 5, 6);
    lemma_argp_var(s, 7, 8, 9);
    assert(!sp_stmtend(s, 0));
    assert(!sp_stmtend(s, 1));
    assert(!sp_stmtend(s, 3));
    assert(!sp_stmtend(s, 5));
    assert(!sp_stmtend(s, 7));
    assert(sp_stmtend(s, 9));
    // the parse, step by step
    let q1 = seq![SValue::Val(va)];
    let o1 = seq![(co, p)];
    let q2 = q1.push(SValue::Val(vb));
    let o2 = o1.push((co, p));
    let q3 = q2.push(SValue::Val(vc));
    assert(sp_shunt(s, prec, 0, seq![], seq![], 0) == sp_shunt(s, prec, 1, q1, seq![], 1));
    assert(sp_shunt(s, prec, 1, q1, seq![], 1) == sp_shunt(s, prec, 3, q1, o1, 0));
    assert(sp_shunt(s, prec, 3, q1, o1, 0) == sp_shunt(s, prec, 5, q2, o1, 1));
    law_equal_precedence_is_stacked(s, prec, 5, q2, o1, seq![','], 7);
    assert(sp_shunt(s, prec, 5, q2, o1, 1) == sp_shunt(s, prec, 7, q2, o2, 0));
    assert(sp_shunt(s, prec, 7, q2, o2, 0) == sp_shunt(s, prec, 9, q3, o2, 1));
    // the end: the queue and then the operators, topmost first
    let q = q3 + oprs(o2);
    assert(q =~= seq![SValue::Val(va), SValue::Val(vb), SValue::Val(vc), SValue::Opr(co), SValue::Opr(co)]);
    assert(q.drop_last() =~= seq![SValue::Val(va), SValue::Val(vb), SValue::Val(vc), SValue::Opr(co)]);
    assert(q.drop_last().drop_last() =~= seq![SValue::Val(va), SValue::Val(vb), SValue::Val(vc)]);
    assert(q.drop_last().drop_last().drop_last() =~= seq![SValue::Val(va), SValue::Val(vb)]);
    assert(q.drop_last().drop_last().drop_last().drop_last() =~= seq![SValue::Val(va)]);
    assert(q.drop_last().drop_last().drop_last().drop_last().drop_last() =~= Seq::<SValue>::empty());
    assert(fs_fold(seq![SValue::Val(va)]) =~= seq![va]);
    assert(fs_fold(seq![SValue::Val(va), SValue::Val(vb)]) =~= seq![va, vb]);
    assert(fs_fold(seq![SValue::Val(va), SValue::Val(vb), SValue::Val(vc)]) =~= seq![va, vb, vc]);
    let inner = SExpr::App(Box::new(co), seq![vb, vc]);
    assert(fs_fold(q.drop_last()) =~= seq![va, inner]);
    assert(fs_fold(q) =~= seq![SExpr::App(Box::new(co), seq![va, inner])]);
}

} // verus!
