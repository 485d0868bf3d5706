use vstd::prelude::*;

use crate::lexer::{PRes, PErr, pres_matches, run_end, sp_ws, sp_tag, lemma_run_end, ws, digits_end, var_end, tag};
use crate::syntax::{Expr, Const, SExpr, SConst};
use crate::text::{is_space, is_dec, is_var_char, string_of};

verus! {

/// Whether the character `c` stands at position `i`.
pub(crate) fn tag1(s: &Vec<char>, i: usize, c: char) -> (r: bool)
    requires
        i <= s@.len(),
    ensures
        r == sp_tag(s@, i as int, seq![c]),
        r ==> i < s@.len() && s@[i as int] == c,
        s@.len() <= usize::MAX,
{
    let t: &[char] = &[c];
    assert(t@ =~= seq![c]);
    tag(s, i, t)
}

// ---------------------------------------------------------------------------
// Integer and float literals
// ---------------------------------------------------------------------------

/// The value of a decimal digit character.
pub open spec fn digit_val(c: char) -> nat {
    (c as int - '0' as int) as nat
}

/// The value of a string of decimal digits.
pub open spec fn digits_val(d: Seq<char>) -> nat
    decreases d.len(),
{
    if d.len() == 0 {
        0
    } else {
        digits_val(d.drop_last()) * 10 + digit_val(d.last())
    }
}

/// A longer prefix of a string of digits has a value at least as large.
pub proof fn lemma_digits_prefix(d: Seq<char>, m: int, n: int)
    requires
        0 <= m <= n <= d.len(),
        forall|k: int| 0 <= k < d.len() ==> is_dec(#[trigger] d[k]),
    ensures
        digits_val(d.subrange(0, m)) <= digits_val(d.subrange(0, n)),
    decreases n - m,
{
    if m < n {
        lemma_digits_prefix(d, m, n - 1);
        let t = d.subrange(0, n);
        assert(t.drop_last() =~= d.subrange(0, n - 1));
    }
}

/// `intp`: an optional minus sign and decimal digits, read as an `i32`.
/// Reading panics where the number does not fit.
pub open spec fn sp_intp(s: Seq<char>, i: int) -> PRes<i32> {
    let neg = sp_tag(s, i, seq!['-']);
    let j = if neg {
        i + 1
    } else {
        i
    };
    let k = run_end(s, j, |c: char| is_dec(c));
    if k <= j {
        PRes::Fail
    } else {
        let m = digits_val(s.subrange(j, k)) as int;
        let v = if neg {
            -m
        } else {
            m
        };
        if i32::MIN <= v <= i32::MAX {
            PRes::Done(k, v as i32)
        } else {
            PRes::Panic
        }
    }
}

pub(crate) fn intp(s: &Vec<char>, i: usize) -> (r: Result<(usize, i32), PErr>)
    requires
        i <= s@.len(),
    ensures
        pres_matches(r, sp_intp(s@, i as int)),
        r matches Ok((j, _)) ==> i < j <= s@.len(),
{
    let neg = tag1(s, i, '-');
    let j = if neg {
        i + 1
    } else {
        i
    };
    let k = digits_end(s, j);
    if k == j {
        return Err(PErr::Fail);
    }
    proof {
        lemma_run_end(s@, j as int, |c: char| is_dec(c));
    }
    let ghost d = s@.subrange(j as int, k as int);
    proof {
        assert forall|q: int| 0 <= q < d.len() implies is_dec(#[trigger] d[q]) by {
            assert(s@[j + q] == d[q]);
        }
        assert(d.subrange(0, d.len() as int) =~= d);
    }
    let mut v: i64 = 0;
    let mut m = j;
    while m < k
        invariant
            j <= m <= k <= s@.len(),
            d == s@.subrange(j as int, k as int),
            forall|q: int| 0 <= q < d.len() ==> is_dec(#[trigger] d[q]),
            d.subrange(0, d.len() as int) == d,
            v == digits_val(d.subrange(0, m - j)),
            v <= 2147483648,
            neg == sp_tag(s@, i as int, seq!['-']),
            j == (if neg {
                i + 1
            } else {
                i as int
            }),
            k == run_end(s@, j as int, |c: char| is_dec(c)),
        decreases k - m,
    {
        proof {
            assert(d.subrange(0, m + 1 - j).drop_last() =~= d.subrange(0, m - j));
            assert(d.subrange(0, m + 1 - j).last() == s@[m as int]);
            lemma_digits_prefix(d, m + 1 - j, d.len() as int);
        }
        let c = s[m];
        let dv: i64 = if c == '0' {
            0
        } else if c == '1' {
            1
        } else if c == '2' {
            2
        } else if c == '3' {
            3
        } else if c == '4' {
            4
        } else if c == '5' {
            5
        } else if c == '6' {
            6
        } else if c == '7' {
            7
        } else if c == '8' {
            8
        } else {
            9
        };
        if v * 10 + dv > 2147483648 {
            proof {
                assert(digits_val(d.subrange(0, m + 1 - j)) == v * 10 + dv);
                assert(digits_val(d) >= v * 10 + dv);
            }
            return Err(PErr::Panic);
        }
        v = v * 10 + dv;
        m = m + 1;
    }
    assert(d.subrange(0, k - j) =~= d);
    if neg {
        Ok((k, (-v) as i32))
    } else if v > 2147483647 {
        Err(PErr::Panic)
    } else {
        Ok((k, v as i32))
    }
}

/// `floatp`: an optional minus sign, digits, a dot and digits.  The value is
/// kept as the text of the number it stands for: the sign and both runs of
/// digits, without the dot.
pub open spec fn sp_floatp(s: Seq<char>, i: int) -> PRes<Seq<char>> {
    let neg = sp_tag(s, i, seq!['-']);
    let j = if neg {
        i + 1
    } else {
        i
    };
    let k = run_end(s, j, |c: char| is_dec(c));
    if k <= j {
        PRes::Fail
    } else if !sp_tag(s, k, seq!['.']) {
        PRes::Fail
    } else {
        let l = run_end(s, k + 1, |c: char| is_dec(c));
        if l <= k + 1 {
            PRes::Fail
        } else {
            PRes::Done(
                l,
                (if neg {
                    seq!['-']
                } else {
                    seq![]
                }) + s.subrange(j, k) + s.subrange(k + 1, l),
            )
        }
    }
}

pub(crate) fn floatp(s: &Vec<char>, i: usize) -> (r: Result<(usize, String), PErr>)
    requires
        i <= s@.len(),
    ensures
        pres_matches(r, sp_floatp(s@, i as int)),
        r matches Ok((j, _)) ==> i < j <= s@.len(),
{
    let neg = tag1(s, i, '-');
    let j = if neg {
        i + 1
    } else {
        i
    };
    let k = digits_end(s, j);
    if k == j {
        return Err(PErr::Fail);
    }
    if !tag1(s, k, '.') {
        return Err(PErr::Fail);
    }
    let l = digits_end(s, k + 1);
    if l == k + 1 {
        return Err(PErr::Fail);
    }
    let mut t = if neg {
        string_of(s, i, i + 1)
    } else {
        string_of(s, i, i)
    };
    let a = string_of(s, j, k);
    let b = string_of(s, k + 1, l);
    t = crate::text::concat(&t, &a);
    t = crate::text::concat(&t, &b);
    proof {
        if neg {
            assert(s@.subrange(i as int, i + 1) =~= seq!['-']);
        } else {
            assert(s@.subrange(i as int, i as int) =~= seq![]);
        }
    }
    Ok((l, t))
}

// ---------------------------------------------------------------------------
// Variables and parameter lists
// ---------------------------------------------------------------------------

/// `varp`: a lone comma, or a nonempty run of characters that may stand in a
/// variable name.
pub open spec fn sp_varp(s: Seq<char>, i: int) -> PRes<Seq<char>> {
    if sp_tag(s, i, seq![',']) {
        PRes::Done(i + 1, seq![','])
    } else {
        let k = run_end(s, i, |c: char| is_var_char(c));
        if k <= i {
            PRes::Fail
        } else {
            PRes::Done(k, s.subrange(i, k))
        }
    }
}

pub(crate) fn varp(s: &Vec<char>, i: usize) -> (r: Result<(usize, String), PErr>)
    requires
        i <= s@.len(),
    ensures
        pres_matches(r, sp_varp(s@, i as int)),
        r matches Ok((j, _)) ==> i < j <= s@.len(),
{
    if tag1(s, i, ',') {
        let t = string_of(s, i, i + 1);
        assert(s@.subrange(i as int, i + 1) =~= seq![',']);
        return Ok((i + 1, t));
    }
    let k = var_end(s, i);
    if k == i {
        return Err(PErr::Fail);
    }
    Ok((k, string_of(s, i, k)))
}

/// Names, each with white space around it, as many as follow one another.
pub open spec fn sp_vars(s: Seq<char>, i: int) -> PRes<Seq<Seq<char>>>
    decreases s.len() - i,
{
    let a = sp_ws(s, i);
    match sp_varp(s, a) {
        PRes::Done(b, v) => {
            let c = sp_ws(s, b);
            if !(i < c <= s.len()) {
                PRes::Fail
            } else {
                match sp_vars(s, c) {
                    PRes::Done(e, vs) => PRes::Done(e, seq![v] + vs),
                    _ => PRes::Fail,
                }
            }
        },
        _ => PRes::Done(i, seq![]),
    }
}

proof fn lemma_vars_ok(s: Seq<char>, i: int)
    requires
        0 <= i <= s.len(),
    ensures
        sp_vars(s, i) matches PRes::Done(e, _) && i <= e <= s.len(),
    decreases s.len() - i,
{
    let a = sp_ws(s, i);
    lemma_run_end(s, i, |c: char| is_space(c));
    if let PRes::Done(b, v) = sp_varp(s, a) {
        lemma_run_end(s, a, |c: char| is_var_char(c));
        lemma_run_end(s, b, |c: char| is_space(c));
        let c = sp_ws(s, b);
        lemma_vars_ok(s, c);
    }
}

pub(crate) fn vars(s: &Vec<char>, i: usize) -> (r: (usize, Vec<String>))
    requires
        i <= s@.len(),
    ensures
        sp_vars(s@, i as int) matches PRes::Done(e, vs) && r.0 == e && r.1.deep_view() == vs,
        i <= r.0 <= s@.len(),
    decreases s@.len() - i,
{
    proof {
        lemma_vars_ok(s@, i as int);
    }
    let a = ws(s, i);
    match varp(s, a) {
        Ok((b, v)) => {
            let c = ws(s, b);
            proof {
                lemma_vars_ok(s@, c as int);
            }
            let (e, rest) = vars(s, c);
            let mut r: Vec<String> = Vec::new();
            r.push(v);
            let mut k: usize = 0;
            while k < rest.len()
                invariant
                    k <= rest@.len(),
                    r@.len() == k + 1,
                    r@[0]@ == v@,
                    forall|m: int| 0 <= m < k ==> r@[m + 1]@ == rest@[m]@,
                decreases rest@.len() - k,
            {
                r.push(rest[k].clone());
                k = k + 1;
            }
            proof {
                assert(r.deep_view() =~= seq![v@] + rest.deep_view());
            }
            (e, r)
        },
        Err(_) => (i, Vec::new()),
    }
}

/// `paramsp`: names between braces.
pub open spec fn sp_paramsp(s: Seq<char>, i: int) -> PRes<SConst> {
    if !sp_tag(s, i, seq!['{']) {
        PRes::Fail
    } else {
        match sp_vars(s, i + 1) {
            PRes::Done(e, vs) => if sp_tag(s, e, seq!['}']) {
                PRes::Done(e + 1, SConst::Params(vs))
            } else {
                PRes::Fail
            },
            _ => PRes::Fail,
        }
    }
}

pub(crate) fn paramsp(s: &Vec<char>, i: usize) -> (r: Result<(usize, Const), PErr>)
    requires
        i <= s@.len(),
    ensures
        pres_matches(r, sp_paramsp(s@, i as int)),
        r matches Ok((j, _)) ==> i < j <= s@.len(),
{
    if !tag1(s, i, '{') {
        return Err(PErr::Fail);
    }
    proof {
        lemma_vars_ok(s@, i + 1);
    }
    let (e, vs) = vars(s, i + 1);
    if tag1(s, e, '}') {
        let c = Const::Params(vs);
        proof {
            assert(crate::syntax::strs_view(vs@) =~= vs.deep_view());
        }
        Ok((e + 1, c))
    } else {
        Err(PErr::Fail)
    }
}


// ---------------------------------------------------------------------------
// Constants, lists and argument tokens
// ---------------------------------------------------------------------------

/// `constp`: an integer; else a float; else a parameter list.
pub open spec fn sp_constp(s: Seq<char>, i: int) -> PRes<SConst> {
    match sp_intp(s, i) {
        PRes::Done(j, v) => PRes::Done(j, SConst::I32(v)),
        PRes::Panic => PRes::Panic,
        PRes::Fail => match sp_floatp(s, i) {
            PRes::Done(j, t) => PRes::Done(j, SConst::F32(t)),
            _ => sp_paramsp(s, i),
        },
    }
}

pub(crate) fn constp(s: &Vec<char>, i: usize) -> (r: Result<(usize, Const), PErr>)
    requires
        i <= s@.len(),
    ensures
        pres_matches(r, sp_constp(s@, i as int)),
        r matches Ok((j, _)) ==> i < j <= s@.len(),
{
    match intp(s, i) {
        Ok((j, v)) => Ok((j, Const::I32(v))),
        Err(PErr::Panic) => Err(PErr::Panic),
        Err(PErr::Fail) => match floatp(s, i) {
            Ok((j, t)) => Ok((j, Const::F32(t))),
            Err(_) => paramsp(s, i),
        },
    }
}

/// `xs` in front of the list that `r` gives.
pub open spec fn prepend_res<T>(xs: Seq<T>, r: PRes<Seq<T>>) -> PRes<Seq<T>> {
    match r {
        PRes::Done(e, ys) => PRes::Done(e, xs + ys),
        PRes::Fail => PRes::Fail,
        PRes::Panic => PRes::Panic,
    }
}

/// The rest of a list of constants: white space and another constant, as
/// long as there are such.
pub open spec fn sp_lst_more(s: Seq<char>, j: int) -> PRes<Seq<SExpr>>
    decreases s.len() - j,
{
    let k = sp_ws(s, j);
    if k == j {
        PRes::Done(j, seq![])
    } else if !(j < k <= s.len()) {
        PRes::Fail
    } else {
        match sp_constp(s, k) {
            PRes::Fail => PRes::Done(j, seq![]),
            PRes::Panic => PRes::Panic,
            PRes::Done(l, c) => if !(j < l <= s.len()) {
                PRes::Fail
            } else {
                prepend_res(seq![SExpr::C(c)], sp_lst_more(s, l))
            },
        }
    }
}

/// `lstp`: constants separated by white space, at least one.
pub open spec fn sp_lstp(s: Seq<char>, i: int) -> PRes<Seq<SExpr>> {
    match sp_constp(s, i) {
        PRes::Done(j, c) => prepend_res(seq![SExpr::C(c)], sp_lst_more(s, j)),
        PRes::Fail => PRes::Fail,
        PRes::Panic => PRes::Panic,
    }
}

/// `x` in front of `v`.
pub fn cons_expr(x: Expr, v: Vec<Expr>) -> (r: Vec<Expr>)
    ensures
        r.deep_view() == seq![x.sv()] + v.deep_view(),
{
    let ghost xv = x.sv();
    let ghost vv = v.deep_view();
    let mut v = v;
    v.insert(0, x);
    assert(v.deep_view() =~= seq![xv] + vv);
    v
}

pub(crate) fn lst_more(s: &Vec<char>, j: usize) -> (r: Result<(usize, Vec<Expr>), PErr>)
    requires
        j <= s@.len(),
    ensures
        pres_matches(r, sp_lst_more(s@, j as int)),
        r matches Ok((e, _)) ==> j <= e <= s@.len(),
    decreases s@.len() - j,
{
    let k = ws(s, j);
    if k == j {
        let v: Vec<Expr> = Vec::new();
        assert(v.deep_view() =~= seq![]);
        return Ok((j, v));
    }
    match constp(s, k) {
        Err(PErr::Panic) => Err(PErr::Panic),
        Err(PErr::Fail) => {
            let v: Vec<Expr> = Vec::new();
            assert(v.deep_view() =~= seq![]);
            Ok((j, v))
        },
        Ok((l, c)) => {
            let (e, rest) = lst_more(s, l)?;
            Ok((e, cons_expr(Expr::C(c), rest)))
        },
    }
}

pub(crate) fn lstp(s: &Vec<char>, i: usize) -> (r: Result<(usize, Vec<Expr>), PErr>)
    requires
        i <= s@.len(),
    ensures
        pres_matches(r, sp_lstp(s@, i as int)),
        r matches Ok((j, _)) ==> i < j <= s@.len(),
{
    let (j, c) = constp(s, i)?;
    let (e, rest) = lst_more(s, j)?;
    Ok((e, cons_expr(Expr::C(c), rest)))
}

/// `lparen`: an opening parenthesis with white space around it.
pub open spec fn sp_lparen(s: Seq<char>, i: int) -> PRes<SExpr> {
    let a = sp_ws(s, i);
    if sp_tag(s, a, seq!['(']) {
        PRes::Done(sp_ws(s, a + 1), SExpr::LParen)
    } else {
        PRes::Fail
    }
}

/// `rparen`: a closing parenthesis with white space around it.
pub open spec fn sp_rparen(s: Seq<char>, i: int) -> PRes<SExpr> {
    let a = sp_ws(s, i);
    if sp_tag(s, a, seq![')']) {
        PRes::Done(sp_ws(s, a + 1), SExpr::RParen)
    } else {
        PRes::Fail
    }
}

pub(crate) fn lparen(s: &Vec<char>, i: usize) -> (r: Result<(usize, Expr), PErr>)
    requires
        i <= s@.len(),
    ensures
        pres_matches(r, sp_lparen(s@, i as int)),
        r matches Ok((j, _)) ==> i < j <= s@.len(),
{
    let a = ws(s, i);
    if tag1(s, a, '(') {
        Ok((ws(s, a + 1), Expr::LParen))
    } else {
        Err(PErr::Fail)
    }
}

pub(crate) fn rparen(s: &Vec<char>, i: usize) -> (r: Result<(usize, Expr), PErr>)
    requires
        i <= s@.len(),
    ensures
        pres_matches(r, sp_rparen(s@, i as int)),
        r matches Ok((j, _)) ==> i < j <= s@.len(),
{
    let a = ws(s, i);
    if tag1(s, a, ')') {
        Ok((ws(s, a + 1), Expr::RParen))
    } else {
        Err(PErr::Fail)
    }
}

/// `argp`: after white space, a parenthesis, a list of constants or a
/// variable.
pub open spec fn sp_argp(s: Seq<char>, i: int) -> PRes<SExpr> {
    let a = sp_ws(s, i);
    match sp_lparen(s, a) {
        PRes::Fail => match sp_rparen(s, a) {
            PRes::Fail => match sp_lstp(s, a) {
                PRes::Done(j, es) => PRes::Done(j, SExpr::Lst(es)),
                PRes::Panic => PRes::Panic,
                PRes::Fail => match sp_varp(s, a) {
                    PRes::Done(j, v) => PRes::Done(j, SExpr::Var(v)),
                    _ => PRes::Fail,
                },
            },
            r => r,
        },
        r => r,
    }
}

pub(crate) fn argp(s: &Vec<char>, i: usize) -> (r: Result<(usize, Expr), PErr>)
    requires
        i <= s@.len(),
    ensures
        pres_matches(r, sp_argp(s@, i as int)),
        r matches Ok((j, _)) ==> i < j <= s@.len(),
{
    let a = ws(s, i);
    if let Ok(t) = lparen(s, a) {
        return Ok(t);
    }
    if let Ok(t) = rparen(s, a) {
        return Ok(t);
    }
    match lstp(s, a) {
        Ok((j, es)) => {
            let e = Expr::Lst(Box::new(es));
            proof {
                assert(e.sv() is Lst);
                assert(e.sv()->Lst_0 =~= es.deep_view());
            }
            Ok((j, e))
        },
        Err(PErr::Panic) => Err(PErr::Panic),
        Err(PErr::Fail) => match varp(s, a) {
            Ok((j, v)) => Ok((j, Expr::Var(v))),
            Err(_) => Err(PErr::Fail),
        },
    }
}

/// `stmtendp`: after white space, a semicolon or a closing brace, read as a
/// one-character string.
pub open spec fn sp_stmtendp(s: Seq<char>, i: int) -> PRes<Seq<char>> {
    let a = sp_ws(s, i);
    if 0 <= a < s.len() && (s[a] == ';' || s[a] == '}') {
        PRes::Done(a + 1, seq![s[a]])
    } else {
        PRes::Fail
    }
}

/// Whether an expression ends here: a semicolon or a closing brace follows.
pub open spec fn sp_stmtend(s: Seq<char>, i: int) -> bool {
    sp_stmtendp(s, i) is Done
}

pub(crate) fn stmtendp(s: &Vec<char>, i: usize) -> (r: Result<(usize, String), PErr>)
    requires
        i <= s@.len(),
    ensures
        pres_matches(r, sp_stmtendp(s@, i as int)),
{
    let a = ws(s, i);
    if a < s.len() && (s[a] == ';' || s[a] == '}') {
        let t = string_of(s, a, a + 1);
        assert(s@.subrange(a as int, a + 1) =~= seq![s@[a as int]]);
        Ok((a + 1, t))
    } else {
        Err(PErr::Fail)
    }
}

} // verus!
