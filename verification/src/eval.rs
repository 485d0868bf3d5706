use vstd::prelude::*;

use crate::arena::{EArena, ENode, NValue, NConst, NFun, SArena, SNode, SVal, SNConst, leaf, empty_arena, new_earena, new_enodev, sp_pnode, pnode};
use crate::strmap::StrMap;
use crate::text::{lit, concat, usize_dec, dec, debug_string, str_debug};

verus! {

// ---------------------------------------------------------------------------
// Copying a subtree from another arena
// ---------------------------------------------------------------------------

/// What `append_expr` does with at most `fuel` nested calls: the node `ins`
/// of `b` is copied into `a` after its arguments, each copied in order, with
/// reference count 1.  `None` where an index is out of range or the fuel
/// runs out.
pub open spec fn sp_append(a: SArena, b: SArena, ins: usize, fuel: nat) -> Option<(SArena, usize)>
    decreases fuel, 0int,
{
    if fuel == 0 || ins >= b.nodes.len() {
        None
    } else {
        let n = b.nodes[ins as int];
        match sp_append_list(a, b, n.args, (fuel - 1) as nat) {
            Some((a2, ids)) => sp_pnode(a2, SNode { rc: 1, val: n.val, args: ids }),
            None => None,
        }
    }
}

/// `sp_append` over a list of indices, in order, threading the arena.
pub open spec fn sp_append_list(a: SArena, b: SArena, xs: Seq<usize>, fuel: nat) -> Option<
    (SArena, Seq<usize>),
>
    decreases fuel, xs.len() + 1,
{
    if xs.len() == 0 {
        Some((a, seq![]))
    } else {
        match sp_append(a, b, xs[0], fuel) {
            Some((a1, x)) => match sp_append_list(a1, b, xs.drop_first(), fuel) {
                Some((a2, ys)) => Some((a2, seq![x] + ys)),
                None => None,
            },
            None => None,
        }
    }
}

/// The fuel with which `append_expr` is described: one with which it
/// finishes, where there is one.
pub open spec fn append_fuel(a: SArena, b: SArena, ins: usize) -> nat {
    choose|f: nat| sp_append(a, b, ins, f) is Some
}

fn append_f(ar: &mut EArena, br: &EArena, ins: usize, Ghost(fuel): Ghost<nat>) -> (r: usize)
    requires
        sp_append(old(ar).deep_view(), br.deep_view(), ins, fuel) is Some,
    ensures
        sp_append(old(ar).deep_view(), br.deep_view(), ins, fuel) == Some((final(ar).deep_view(), r)),
    decreases fuel, 0int,
{
    let n = &br.nodes[ins];
    let g = append_list_f(ar, br, &n.args, Ghost((fuel - 1) as nat));
    pnode(ar, ENode { rc: 1, val: n.val.copy(), args: g })
}

fn append_list_f(ar: &mut EArena, br: &EArena, xs: &Vec<usize>, Ghost(fuel): Ghost<nat>) -> (r: Vec<
    usize,
>)
    requires
        sp_append_list(old(ar).deep_view(), br.deep_view(), xs@, fuel) is Some,
    ensures
        sp_append_list(old(ar).deep_view(), br.deep_view(), xs@, fuel) == Some(
            (final(ar).deep_view(), r@),
        ),
    decreases fuel, xs@.len() + 1,
{
    let ghost total = sp_append_list(ar.deep_view(), br.deep_view(), xs@, fuel);
    let mut g: Vec<usize> = Vec::new();
    let mut k: usize = 0;
    assert(xs@.skip(0) =~= xs@);
    assert(g@ + seq![] =~= g@);
    while k < xs.len()
        invariant
            k <= xs@.len(),
            total is Some,
            total == crate::arena::pre_ids(g@, sp_append_list(ar.deep_view(), br.deep_view(), xs@.skip(k as int), fuel)),
        decreases xs@.len() - k,
    {
        proof {
            assert(xs@.skip(k as int)[0] == xs@[k as int]);
            assert(xs@.skip(k as int).drop_first() =~= xs@.skip(k + 1));
        }
        let x = append_f(ar, br, xs[k], Ghost(fuel));
        let ghost gv = g@;
        g.push(x);
        proof {
            assert(g@ =~= gv + seq![x]);
            match sp_append_list(ar.deep_view(), br.deep_view(), xs@.skip(k + 1), fuel) {
                Some((a2, ys)) => {
                    assert(gv + (seq![x] + ys) =~= (gv + seq![x]) + ys);
                },
                None => {},
            }
        }
        k = k + 1;
    }
    assert(xs@.skip(k as int) =~= seq![]);
    assert(g@ + seq![] =~= g@);
    g
}

/// Copies the subtree at `ins` of `br` into `ar` (see `sp_append`) and gives
/// back the index of the copy of its root.
pub fn append_expr(ar: &mut EArena, br: &EArena, ins: usize) -> (r: usize)
    requires
        exists|f: nat| sp_append(old(ar).deep_view(), br.deep_view(), ins, f) is Some,
    ensures
        sp_append(
            old(ar).deep_view(),
            br.deep_view(),
            ins,
            append_fuel(old(ar).deep_view(), br.deep_view(), ins),
        ) == Some((final(ar).deep_view(), r)),
{
    let ghost f = append_fuel(ar.deep_view(), br.deep_view(), ins);
    append_f(ar, br, ins, Ghost(f))
}

// ---------------------------------------------------------------------------
// Bound variables
// ---------------------------------------------------------------------------

/// What `add_v` does to the bound variables: a binding of `n` to the node
/// `v` of an empty arena goes on top of the bindings of `n`.
pub open spec fn sp_add_v(
    bvs: Map<Seq<char>, Seq<(SArena, usize)>>,
    n: Seq<char>,
    v: usize,
) -> Map<Seq<char>, Seq<(SArena, usize)>> {
    if bvs.contains_key(n) {
        bvs.insert(n, bvs[n].push((empty_arena(), v)))
    } else {
        bvs.insert(n, seq![(empty_arena(), v)])
    }
}

/// What `rem_v` does to the bound variables: the topmost binding of `n` goes,
/// and with the last one the name.
pub open spec fn sp_rem_v(bvs: Map<Seq<char>, Seq<(SArena, usize)>>, n: Seq<char>) -> Map<
    Seq<char>,
    Seq<(SArena, usize)>,
> {
    if bvs.contains_key(n) {
        if bvs[n].len() <= 1 {
            bvs.remove(n)
        } else {
            bvs.insert(n, bvs[n].drop_last())
        }
    } else {
        bvs
    }
}

/// Binds the name `n` to the node index `v`, in a fresh empty arena, on top
/// of its earlier bindings.  The arena `ar` is not read.
pub fn add_v(n: &String, ar: &EArena, v: usize, bvs: &mut StrMap<Vec<(EArena, usize)>>)
    ensures
        final(bvs).deep_view() == sp_add_v(old(bvs).deep_view(), n@, v),
{
    let z = new_earena();
    let ghost b0 = bvs.deep_view();
    match bvs.remove(n) {
        Some(q) => {
            let mut q = q;
            let ghost qv = q.deep_view();
            q.push((z, v));
            assert(q.deep_view() =~= qv.push((empty_arena(), v)));
            bvs.insert(n.clone(), q);
        },
        None => {
            let mut q: Vec<(EArena, usize)> = Vec::new();
            q.push((z, v));
            assert(q.deep_view() =~= seq![(empty_arena(), v)]);
            bvs.insert(n.clone(), q);
        },
    }
    assert(bvs.deep_view() =~= sp_add_v(b0, n@, v));
}

/// Drops the topmost binding of the name `n`, and the name with its last
/// binding.
pub fn rem_v(n: &String, bvs: &mut StrMap<Vec<(EArena, usize)>>)
    ensures
        final(bvs).deep_view() == sp_rem_v(old(bvs).deep_view(), n@),
{
    let ghost b0 = bvs.deep_view();
    match bvs.remove(n) {
        Some(q) => {
            if q.len() <= 1 {
                assert(bvs.deep_view() =~= b0.remove(n@));
            } else {
                let mut q = q;
                let ghost qv = q.deep_view();
                let _ = q.pop();
                assert(q.deep_view() =~= qv.drop_last());
                bvs.insert(n.clone(), q);
                assert(bvs.deep_view() =~= b0.insert(n@, qv.drop_last()));
            }
        },
        None => {
            assert(bvs.deep_view() =~= b0);
        },
    }
}

/// Binding a name and then dropping its topmost binding gives back the
/// bindings as they were, where the name had a binding or none at all.
pub proof fn law_rem_v_undoes_add_v(bvs: Map<Seq<char>, Seq<(SArena, usize)>>, n: Seq<char>, v: usize)
    requires
        bvs.contains_key(n) ==> bvs[n].len() > 0,
    ensures
        sp_rem_v(sp_add_v(bvs, n, v), n) == bvs,
{
    if bvs.contains_key(n) {
        assert(bvs[n].push((empty_arena(), v)).drop_last() =~= bvs[n]);
        assert(sp_rem_v(sp_add_v(bvs, n, v), n) =~= bvs);
    } else {
        assert(sp_rem_v(sp_add_v(bvs, n, v), n) =~= bvs);
    }
}

// ---------------------------------------------------------------------------
// Releasing nodes
// ---------------------------------------------------------------------------

/// What `adelete` does: a node with reference count at most 1 is emptied and
/// its slot freed; another loses one reference.  `None` where `q` is out of
/// range.
pub open spec fn sp_adelete(a: SArena, q: usize) -> Option<SArena> {
    if q >= a.nodes.len() {
        None
    } else if a.nodes[q as int].rc <= 1 {
        Some(
            SArena {
                nodes: a.nodes.update(q as int, leaf(SVal::Unfilled)),
                emptys: a.emptys.push(q),
                ..a
            },
        )
    } else {
        Some(
            SArena {
                nodes: a.nodes.update(
                    q as int,
                    SNode { rc: (a.nodes[q as int].rc - 1) as usize, ..a.nodes[q as int] },
                ),
                ..a
            },
        )
    }
}

/// Releases one reference to the node `q` (see `sp_adelete`).
pub fn adelete(q: usize, ar: &mut EArena)
    requires
        sp_adelete(old(ar).deep_view(), q) is Some,
    ensures
        sp_adelete(old(ar).deep_view(), q) == Some(final(ar).deep_view()),
    decreases 0nat,
{
    let ghost a = ar.deep_view();
    if ar.nodes[q].rc <= 1 {
        ar.nodes.set(q, new_enodev(NValue::Unfilled));
        ar.emptys.push(q);
        assert(ar.deep_view().nodes =~= a.nodes.update(q as int, leaf(SVal::Unfilled)));
        assert(ar.deep_view().emptys =~= a.emptys.push(q));
        let ghost done = ar.deep_view();
        let zs = ar.nodes[q].args.clone();
        let mut k: usize = 0;
        while k < zs.len()
            invariant
                zs@.len() == 0,
                k <= zs@.len(),
                ar.deep_view() == done,
            decreases zs@.len() - k,
        {
            adelete(zs[k], ar);
            k = k + 1;
        }
    } else {
        let mut nd = ar.nodes[q].copy();
        nd.rc = nd.rc - 1;
        ar.nodes.set(q, nd);
        assert(ar.deep_view().nodes =~= a.nodes.update(
            q as int,
            SNode { rc: (a.nodes[q as int].rc - 1) as usize, ..a.nodes[q as int] },
        ));
    }
}

/// `sp_adelete` over a list of indices, in order.
pub open spec fn sp_adelete_all(a: SArena, xs: Seq<usize>) -> Option<SArena>
    decreases xs.len(),
{
    if xs.len() == 0 {
        Some(a)
    } else {
        match sp_adelete(a, xs[0]) {
            Some(a1) => sp_adelete_all(a1, xs.drop_first()),
            None => None,
        }
    }
}


// ---------------------------------------------------------------------------
// Growth of the arena
// ---------------------------------------------------------------------------

/// Storing a node never shortens the arena, and gives an index in it.
pub proof fn lemma_pnode_len(a: SArena, n: SNode)
    ensures
        sp_pnode(a, n) matches Some((a2, r)) ==> a2.nodes.len() >= a.nodes.len() && r
            < a2.nodes.len(),
{
}

/// Copying a subtree never shortens the arena, and gives an index in it.
pub proof fn lemma_append_len(a: SArena, b: SArena, ins: usize, fuel: nat)
    ensures
        sp_append(a, b, ins, fuel) matches Some((a2, r)) ==> a2.nodes.len() >= a.nodes.len() && r
            < a2.nodes.len(),
    decreases fuel, 0int,
{
    if fuel > 0 && ins < b.nodes.len() {
        let n = b.nodes[ins as int];
        lemma_append_list_len(a, b, n.args, (fuel - 1) as nat);
        if let Some((a2, ids)) = sp_append_list(a, b, n.args, (fuel - 1) as nat) {
            lemma_pnode_len(a2, SNode { rc: 1, val: n.val, args: ids });
        }
    }
}

/// Copying subtrees never shortens the arena.
pub proof fn lemma_append_list_len(a: SArena, b: SArena, xs: Seq<usize>, fuel: nat)
    ensures
        sp_append_list(a, b, xs, fuel) matches Some((a2, _)) ==> a2.nodes.len() >= a.nodes.len(),
    decreases fuel, xs.len() + 1,
{
    if xs.len() > 0 {
        lemma_append_len(a, b, xs[0], fuel);
        if let Some((a1, x)) = sp_append(a, b, xs[0], fuel) {
            lemma_append_list_len(a1, b, xs.drop_first(), fuel);
        }
    }
}

// ---------------------------------------------------------------------------
// Substitution
// ---------------------------------------------------------------------------

/// The node `n` at index `i` of `a`.
pub open spec fn set_node(a: SArena, i: usize, n: SNode) -> SArena {
    SArena { nodes: a.nodes.update(i as int, n), ..a }
}

/// What `asubst` does with at most `fuel` nested calls: a variable that the
/// arena has substituted before takes a further reference to that node; one
/// bound in `b` is replaced by a copy of its first binding, which the arena
/// then records; a function substitutes in its body with its parameters
/// unbound; an application substitutes in the function and then the
/// arguments; a list in its elements.  `None` where an index is out of
/// range, a binding list is empty, a reference count would overflow or the
/// fuel runs out.
pub open spec fn sp_asubst(
    a: SArena,
    b: Map<Seq<char>, Seq<(SArena, usize)>>,
    ins: usize,
    fuel: nat,
) -> Option<SArena>
    decreases fuel, 0int,
{
    if fuel == 0 || ins >= a.nodes.len() {
        None
    } else {
        let n = a.nodes[ins as int];
        match n.val {
            SVal::Var(s) => if a.vars.contains_key(s) {
                let i = a.vars[s];
                if i >= a.nodes.len() || a.nodes[i as int].rc == usize::MAX {
                    None
                } else {
                    let ni = SNode { rc: (a.nodes[i as int].rc + 1) as usize, ..a.nodes[i as int] };
                    Some(set_node(set_node(a, i, ni), ins, ni))
                }
            } else if b.contains_key(s) {
                if b[s].len() == 0 {
                    None
                } else {
                    match sp_append(a, b[s][0].0, b[s][0].1, (fuel - 1) as nat) {
                        Some((a1, nq)) => Some(
                            SArena {
                                nodes: a1.nodes.update(ins as int, a1.nodes[nq as int]),
                                vars: a1.vars.insert(s, ins),
                                ..a1
                            },
                        ),
                        None => None,
                    }
                }
            } else {
                Some(a)
            },
            SVal::C(SNConst::F(params, body)) => sp_asubst(
                a,
                b.remove_keys(params.to_set()),
                body,
                (fuel - 1) as nat,
            ),
            SVal::App(fe) => match sp_asubst(a, b, fe, (fuel - 1) as nat) {
                Some(a1) => sp_asubst_list(a1, b, n.args, (fuel - 1) as nat),
                None => None,
            },
            SVal::Lst(vs) => sp_asubst_list(a, b, vs, (fuel - 1) as nat),
            _ => Some(a),
        }
    }
}

/// `sp_asubst` over a list of indices, in order.
pub open spec fn sp_asubst_list(
    a: SArena,
    b: Map<Seq<char>, Seq<(SArena, usize)>>,
    xs: Seq<usize>,
    fuel: nat,
) -> Option<SArena>
    decreases fuel, xs.len() + 1,
{
    if xs.len() == 0 {
        Some(a)
    } else {
        match sp_asubst(a, b, xs[0], fuel) {
            Some(a1) => sp_asubst_list(a1, b, xs.drop_first(), fuel),
            None => None,
        }
    }
}

/// Substitution never shortens the arena.
pub proof fn lemma_asubst_len(
    a: SArena,
    b: Map<Seq<char>, Seq<(SArena, usize)>>,
    ins: usize,
    fuel: nat,
)
    ensures
        sp_asubst(a, b, ins, fuel) matches Some(a2) ==> a2.nodes.len() >= a.nodes.len(),
    decreases fuel, 0int,
{
    if fuel > 0 && ins < a.nodes.len() {
        let n = a.nodes[ins as int];
        match n.val {
            SVal::Var(s) => {
                if !a.vars.contains_key(s) && b.contains_key(s) && b[s].len() > 0 {
                    lemma_append_len(a, b[s][0].0, b[s][0].1, (fuel - 1) as nat);
                }
            },
            SVal::C(SNConst::F(params, body)) => {
                lemma_asubst_len(a, b.remove_keys(params.to_set()), body, (fuel - 1) as nat);
            },
            SVal::App(fe) => {
                lemma_asubst_len(a, b, fe, (fuel - 1) as nat);
                if let Some(a1) = sp_asubst(a, b, fe, (fuel - 1) as nat) {
                    lemma_asubst_list_len(a1, b, n.args, (fuel - 1) as nat);
                }
            },
            SVal::Lst(vs) => {
                lemma_asubst_list_len(a, b, vs, (fuel - 1) as nat);
            },
            _ => {},
        }
    }
}

/// Substitution in a list never shortens the arena.
pub proof fn lemma_asubst_list_len(
    a: SArena,
    b: Map<Seq<char>, Seq<(SArena, usize)>>,
    xs: Seq<usize>,
    fuel: nat,
)
    ensures
        sp_asubst_list(a, b, xs, fuel) matches Some(a2) ==> a2.nodes.len() >= a.nodes.len(),
    decreases fuel, xs.len() + 1,
{
    if xs.len() > 0 {
        lemma_asubst_len(a, b, xs[0], fuel);
        if let Some(a1) = sp_asubst(a, b, xs[0], fuel) {
            lemma_asubst_list_len(a1, b, xs.drop_first(), fuel);
        }
    }
}

/// The bindings of a map of bound variables, by view.
pub open spec fn bview(bvs: Map<Seq<char>, Vec<(EArena, usize)>>) -> Map<Seq<char>, Seq<(SArena, usize)>> {
    bvs.map_values(|v: Vec<(EArena, usize)>| v.deep_view())
}

fn asubst_f(
    ins: usize,
    ar: &mut EArena,
    bvs: &mut StrMap<Vec<(EArena, usize)>>,
    Ghost(fuel): Ghost<nat>,
)
    requires
        sp_asubst(old(ar).deep_view(), old(bvs).deep_view(), ins, fuel) is Some,
    ensures
        sp_asubst(old(ar).deep_view(), old(bvs).deep_view(), ins, fuel) == Some(
            final(ar).deep_view(),
        ),
        final(bvs)@ == old(bvs)@,
    decreases fuel, 0int,
{
    let ghost a0 = ar.deep_view();
    let ghost b0 = bvs.deep_view();
    let nd = ar.nodes[ins].copy();
    match nd.val {
        NValue::Var(s) => {
            match ar.vars.get(&s) {
                Some(i) => {
                    let i = *i;
                    let mut ni = ar.nodes[i].copy();
                    ni.rc = ni.rc + 1;
                    ar.nodes.set(i, ni);
                    let c = ar.nodes[i].copy();
                    ar.nodes.set(ins, c);
                    proof {
                        let niv = SNode { rc: (a0.nodes[i as int].rc + 1) as usize, ..a0.nodes[i as int] };
                        assert(ar.deep_view().nodes =~= set_node(set_node(a0, i, niv), ins, niv).nodes);
                    }
                },
                None => {
                    match bvs.get(&s) {
                        Some(x) => {
                            if x.len() == 0 {
                                return;
                            }
                            proof {
                                assert(b0[s@] == x.deep_view());
                                assert(b0[s@][0] == (x@[0].0.deep_view(), x@[0].1));
                            }
                            let nq = append_f(ar, &x[0].0, x[0].1, Ghost((fuel - 1) as nat));
                            proof {
                                lemma_append_len(a0, b0[s@][0].0, b0[s@][0].1, (fuel - 1) as nat);
                            }
                            let ghost a1 = ar.deep_view();
                            let c = ar.nodes[nq].copy();
                            ar.nodes.set(ins, c);
                            ar.vars.insert(s.clone(), ins);
                            proof {
                                assert(ar.deep_view().nodes =~= a1.nodes.update(ins as int, a1.nodes[nq as int]));
                            }
                        },
                        None => {},
                    }
                },
            }
        },
        NValue::C(NConst::F(NFun { params, body })) => {
            let ghost pv = crate::syntax::strs_view(params@);
            let ghost pset = pv.to_set();
            let ghost raw0 = bvs@;
            let ghost mut rs: Set<Seq<char>> = Set::empty();
            let mut removed: Vec<(String, Vec<(EArena, usize)>)> = Vec::new();
            let mut k: usize = 0;
            proof {
                assert(pv.subrange(0, 0).to_set() =~= rs);
                assert(bvs@ =~= raw0.remove_keys(rs));
            }
            while k < params.len()
                invariant
                    k <= params@.len(),
                    pv == crate::syntax::strs_view(params@),
                    rs == pv.subrange(0, k as int).to_set(),
                    bvs@ == raw0.remove_keys(rs),
                    forall|m: int|
                        0 <= m < removed@.len() ==> raw0.contains_key(#[trigger] removed@[m].0@)
                            && removed@[m].1 == raw0[removed@[m].0@] && rs.contains(removed@[m].0@),
                    forall|key: Seq<char>|
                        rs.contains(key) && raw0.contains_key(key) ==> exists|m: int|
                            0 <= m < removed@.len() && #[trigger] removed@[m].0@ == key,
                decreases params@.len() - k,
            {
                let ghost pk = params@[k as int]@;
                let ghost before = removed@;
                let ghost rs1 = rs.insert(pk);
                proof {
                    assert(pv[k as int] == pk);
                    assert(pv.subrange(0, k + 1) =~= pv.subrange(0, k as int).push(pk));
                    pv.subrange(0, k as int).lemma_push_to_set_commute(pk);
                }
                match bvs.remove_entry(&params[k]) {
                    Some(e) => {
                        removed.push(e);
                        proof {
                            assert(removed@[removed@.len() - 1].0@ == pk);
                            assert forall|key: Seq<char>|
                                rs1.contains(key) && raw0.contains_key(key) implies exists|m: int|
                                0 <= m < removed@.len() && #[trigger] removed@[m].0@ == key by {
                                if rs.contains(key) {
                                    let m0 = choose|m: int| 0 <= m < before.len() && #[trigger] before[m].0@ == key;
                                    assert(removed@[m0] == before[m0]);
                                } else {
                                    assert(removed@[removed@.len() - 1].0@ == key);
                                }
                            }
                            assert forall|m: int| 0 <= m < removed@.len() implies raw0.contains_key(
                                #[trigger] removed@[m].0@,
                            ) && removed@[m].1 == raw0[removed@[m].0@] && rs1.contains(removed@[m].0@) by {
                                if m < before.len() {
                                    assert(removed@[m] == before[m]);
                                }
                            }
                        }
                    },
                    None => {
                        proof {
                            assert forall|key: Seq<char>|
                                rs1.contains(key) && raw0.contains_key(key) implies exists|m: int|
                                0 <= m < removed@.len() && #[trigger] removed@[m].0@ == key by {
                                if !rs.contains(key) {
                                    assert(key == pk);
                                    assert(raw0.remove_keys(rs).contains_key(pk));
                                }
                            }
                        }
                    },
                }
                proof {
                    rs = rs1;
                    assert(bvs@ =~= raw0.remove_keys(rs));
                }
                k = k + 1;
            }
            proof {
                assert(pv.subrange(0, params@.len() as int) =~= pv);
                assert(bvs.deep_view() =~= b0.remove_keys(pset));
            }
            asubst_f(body, ar, bvs, Ghost((fuel - 1) as nat));
            let ghost r0 = removed@;
            while removed.len() > 0
                invariant
                    removed@.len() <= r0.len(),
                    removed@ == r0.subrange(0, removed@.len() as int),
                    forall|m: int|
                        0 <= m < r0.len() ==> raw0.contains_key(#[trigger] r0[m].0@) && r0[m].1
                            == raw0[r0[m].0@] && pset.contains(r0[m].0@),
                    forall|key: Seq<char>|
                        pset.contains(key) && raw0.contains_key(key) ==> exists|m: int|
                            0 <= m < r0.len() && #[trigger] r0[m].0@ == key,
                    forall|key: Seq<char>|
                        #[trigger] bvs@.contains_key(key) <==> raw0.contains_key(key) && (!pset.contains(key)
                            || exists|m: int| removed@.len() <= m < r0.len() && r0[m].0@ == key),
                    forall|key: Seq<char>| #[trigger] bvs@.contains_key(key) ==> bvs@[key] == raw0[key],
                decreases removed@.len(),
            {
                let ghost len0 = removed@.len();
                match removed.pop() {
                    Some(e) => {
                        let ghost ek = e.0@;
                        proof {
                            assert(r0.subrange(0, len0 as int)[len0 - 1] == e);
                            assert(removed@ =~= r0.subrange(0, removed@.len() as int));
                        }
                        bvs.insert(e.0, e.1);
                        proof {
                            assert forall|key: Seq<char>|
                                #[trigger] bvs@.contains_key(key) <==> raw0.contains_key(key) && (!pset.contains(key)
                                    || exists|m: int| removed@.len() <= m < r0.len() && r0[m].0@ == key) by {
                                if key == ek {
                                    assert(r0[len0 - 1].0@ == key);
                                }
                            }
                        }
                    },
                    None => {},
                }
            }
            proof {
                assert(bvs@ =~= raw0);
            }
        },
        NValue::App(fe) => {
            asubst_f(fe, ar, bvs, Ghost((fuel - 1) as nat));
            asubst_list_f(&nd.args, ar, bvs, Ghost((fuel - 1) as nat));
        },
        NValue::Lst(vs) => {
            asubst_list_f(&vs, ar, bvs, Ghost((fuel - 1) as nat));
        },
        _ => {},
    }
}

fn asubst_list_f(
    xs: &Vec<usize>,
    ar: &mut EArena,
    bvs: &mut StrMap<Vec<(EArena, usize)>>,
    Ghost(fuel): Ghost<nat>,
)
    requires
        sp_asubst_list(old(ar).deep_view(), old(bvs).deep_view(), xs@, fuel) is Some,
    ensures
        sp_asubst_list(old(ar).deep_view(), old(bvs).deep_view(), xs@, fuel) == Some(
            final(ar).deep_view(),
        ),
        final(bvs)@ == old(bvs)@,
    decreases fuel, xs@.len() + 1,
{
    let ghost total = sp_asubst_list(ar.deep_view(), bvs.deep_view(), xs@, fuel);
    let ghost b0 = bvs@;
    let mut k: usize = 0;
    assert(xs@.skip(0) =~= xs@);
    while k < xs.len()
        invariant
            k <= xs@.len(),
            total is Some,
            bvs@ == b0,
            total == sp_asubst_list(ar.deep_view(), bvs.deep_view(), xs@.skip(k as int), fuel),
        decreases xs@.len() - k,
    {
        proof {
            assert(xs@.skip(k as int)[0] == xs@[k as int]);
            assert(xs@.skip(k as int).drop_first() =~= xs@.skip(k + 1));
        }
        asubst_f(xs[k], ar, bvs, Ghost(fuel));
        k = k + 1;
    }
    assert(xs@.skip(k as int) =~= seq![]);
}


/// The fuel with which `asubst` is described: one with which it finishes,
/// where there is one.
pub open spec fn asubst_fuel(a: SArena, b: Map<Seq<char>, Seq<(SArena, usize)>>, ins: usize) -> nat {
    choose|f: nat| sp_asubst(a, b, ins, f) is Some
}

/// Substitutes in the subtree at `ins` (see `sp_asubst`).  The bound
/// variables are the same afterwards.
pub fn asubst(ins: usize, ar: &mut EArena, bvs: &mut StrMap<Vec<(EArena, usize)>>)
    requires
        exists|f: nat| sp_asubst(old(ar).deep_view(), old(bvs).deep_view(), ins, f) is Some,
    ensures
        sp_asubst(
            old(ar).deep_view(),
            old(bvs).deep_view(),
            ins,
            asubst_fuel(old(ar).deep_view(), old(bvs).deep_view(), ins),
        ) == Some(final(ar).deep_view()),
        final(bvs)@ == old(bvs)@,
{
    let ghost f = asubst_fuel(ar.deep_view(), bvs.deep_view(), ins);
    asubst_f(ins, ar, bvs, Ghost(f))
}

// ---------------------------------------------------------------------------
// Evaluation
// ---------------------------------------------------------------------------

/// The error text for a variable without a binding.
pub open spec fn var_msg(s: Seq<char>) -> Seq<char> {
    "ERROR: variable '"@ + str_debug(s) + "' not assigned"@
}

/// The error text for an application with the wrong number of arguments.
pub open spec fn arity_msg(p: nat, n: nat) -> Seq<char> {
    "ERROR: function has arity "@ + dec(p) + " but only given are "@ + dec(n) + " parameters."@
}

/// The error text for an application of a node that is not a function.
pub open spec fn notfn_msg(i: nat) -> Seq<char> {
    "ERROR: '"@ + dec(i) + "' is not a function."@
}

/// The error text for a built-in applied to values of other types.
pub open spec fn mismatch_msg() -> Seq<char> {
    "ERROR: type mismatch."@
}

/// `sp_add_v` for each parameter with the argument at the same position.
pub open spec fn sp_add_all(
    b: Map<Seq<char>, Seq<(SArena, usize)>>,
    ps: Seq<Seq<char>>,
    vs: Seq<usize>,
) -> Map<Seq<char>, Seq<(SArena, usize)>>
    decreases ps.len(),
{
    if ps.len() == 0 || vs.len() == 0 {
        b
    } else {
        sp_add_all(sp_add_v(b, ps[0], vs[0]), ps.drop_first(), vs.drop_first())
    }
}

/// `sp_rem_v` for each parameter, in order.
pub open spec fn sp_rem_all(b: Map<Seq<char>, Seq<(SArena, usize)>>, ps: Seq<Seq<char>>) -> Map<
    Seq<char>,
    Seq<(SArena, usize)>,
>
    decreases ps.len(),
{
    if ps.len() == 0 {
        b
    } else {
        sp_rem_all(sp_rem_v(b, ps[0]), ps.drop_first())
    }
}

/// The built-in with number `k` applied to the nodes `args`, its result
/// written to the node `out`.  The one built-in, number 0, adds two
/// integers (`None` on overflow); on other values it writes a type-mismatch
/// error.  `None` for another number, too few arguments, an index out of
/// range, and two float constants, whose sum is not described here.
pub open spec fn sp_builtin(k: usize, out: usize, args: Seq<usize>, a: SArena) -> Option<SArena> {
    if k != 0 || args.len() < 2 || args[0] >= a.nodes.len() || args[1] >= a.nodes.len() {
        None
    } else {
        match (a.nodes[args[0] as int].val, a.nodes[args[1] as int].val) {
            (SVal::C(SNConst::I32(x)), SVal::C(SNConst::I32(y))) => if i32::MIN <= x + y
                <= i32::MAX {
                Some(set_node(a, out, leaf(SVal::C(SNConst::I32((x + y) as i32)))))
            } else {
                None
            },
            (SVal::C(SNConst::F32(_)), SVal::C(SNConst::F32(_))) => None,
            _ => Some(set_node(a, out, leaf(SVal::E(mismatch_msg())))),
        }
    }
}

/// What `aeval` does with at most `fuel` nested calls, on the arena and the
/// bound variables.  A bound variable is replaced by a copy of its topmost
/// binding, an unbound one by an error; a list has its elements evaluated
/// and loses its arguments and extra references; an application evaluates
/// the function and the arguments, then: a function of the right arity
/// binds its parameters to the arguments, substitutes in its body, unbinds
/// them and releases the arguments and the function; one of another arity
/// leaves an arity error and releases the function; a built-in is applied
/// and releases the arguments and the function; anything else leaves a
/// "not a function" error.  Other nodes stay as they are.  `None` where an
/// index is out of range, a binding list is empty, a built-in does not
/// apply (see `sp_builtin`), a substitution fails or the fuel runs out.
pub open spec fn sp_aeval(
    a: SArena,
    b: Map<Seq<char>, Seq<(SArena, usize)>>,
    ins: usize,
    fuel: nat,
) -> Option<(SArena, Map<Seq<char>, Seq<(SArena, usize)>>)>
    decreases fuel, 0int,
{
    if fuel == 0 || ins >= a.nodes.len() {
        None
    } else {
        let n = a.nodes[ins as int];
        match n.val {
            SVal::Var(s) => if b.contains_key(s) {
                if b[s].len() == 0 {
                    None
                } else {
                    match sp_append(a, b[s].last().0, b[s].last().1, (fuel - 1) as nat) {
                        Some((a1, g)) => Some(
                            (
                                set_node(set_node(a1, ins, a1.nodes[g as int]), g, leaf(SVal::Unfilled)),
                                b,
                            ),
                        ),
                        None => None,
                    }
                }
            } else {
                Some((set_node(a, ins, leaf(SVal::E(var_msg(s)))), b))
            },
            SVal::Lst(lst) => match sp_aeval_list(a, b, lst, (fuel - 1) as nat) {
                Some((a1, b1)) => Some((set_node(a1, ins, leaf(SVal::Lst(lst))), b1)),
                None => None,
            },
            SVal::App(fe) => match sp_aeval(a, b, fe, (fuel - 1) as nat) {
                None => None,
                Some((a1, b1)) => match sp_aeval_list(a1, b1, n.args, (fuel - 1) as nat) {
                    None => None,
                    Some((a2, b2)) => match a2.nodes[fe as int].val {
                        SVal::C(SNConst::F(params, body)) => if n.args.len() == params.len() {
                            let b3 = sp_add_all(b2, params, n.args);
                            match sp_asubst(a2, b3, body, (fuel - 1) as nat) {
                                None => None,
                                Some(a3) => match sp_adelete_all(a3, n.args) {
                                    None => None,
                                    Some(a4) => match sp_adelete(a4, fe) {
                                        Some(a5) => Some((a5, sp_rem_all(b3, params))),
                                        None => None,
                                    },
                                },
                            }
                        } else {
                            match sp_adelete(
                                set_node(
                                    a2,
                                    ins,
                                    leaf(SVal::E(arity_msg(params.len(), n.args.len()))),
                                ),
                                fe,
                            ) {
                                Some(a3) => Some((a3, b2)),
                                None => None,
                            }
                        },
                        SVal::Builtin(k) => match sp_builtin(k, ins, n.args, a2) {
                            None => None,
                            Some(a3) => match sp_adelete_all(a3, n.args) {
                                None => None,
                                Some(a4) => match sp_adelete(a4, fe) {
                                    Some(a5) => Some((a5, b2)),
                                    None => None,
                                },
                            },
                        },
                        _ => Some((set_node(a2, ins, leaf(SVal::E(notfn_msg(fe as nat)))), b2)),
                    },
                },
            },
            _ => Some((a, b)),
        }
    }
}

/// `sp_aeval` over a list of indices, in order.
pub open spec fn sp_aeval_list(
    a: SArena,
    b: Map<Seq<char>, Seq<(SArena, usize)>>,
    xs: Seq<usize>,
    fuel: nat,
) -> Option<(SArena, Map<Seq<char>, Seq<(SArena, usize)>>)>
    decreases fuel, xs.len() + 1,
{
    if xs.len() == 0 {
        Some((a, b))
    } else {
        match sp_aeval(a, b, xs[0], fuel) {
            Some((a1, b1)) => sp_aeval_list(a1, b1, xs.drop_first(), fuel),
            None => None,
        }
    }
}

/// Releasing nodes keeps the length of the arena.
pub proof fn lemma_adelete_all_len(a: SArena, xs: Seq<usize>)
    ensures
        sp_adelete_all(a, xs) matches Some(a2) ==> a2.nodes.len() == a.nodes.len(),
    decreases xs.len(),
{
    if xs.len() > 0 {
        if let Some(a1) = sp_adelete(a, xs[0]) {
            lemma_adelete_all_len(a1, xs.drop_first());
        }
    }
}

/// Evaluation never shortens the arena.
pub proof fn lemma_aeval_len(
    a: SArena,
    b: Map<Seq<char>, Seq<(SArena, usize)>>,
    ins: usize,
    fuel: nat,
)
    ensures
        sp_aeval(a, b, ins, fuel) matches Some((a2, _)) ==> a2.nodes.len() >= a.nodes.len(),
    decreases fuel, 0int,
{
    if fuel > 0 && ins < a.nodes.len() {
        let n = a.nodes[ins as int];
        match n.val {
            SVal::Var(s) => {
                if b.contains_key(s) && b[s].len() > 0 {
                    lemma_append_len(a, b[s].last().0, b[s].last().1, (fuel - 1) as nat);
                }
            },
            SVal::Lst(lst) => {
                lemma_aeval_list_len(a, b, lst, (fuel - 1) as nat);
            },
            SVal::App(fe) => {
                lemma_aeval_len(a, b, fe, (fuel - 1) as nat);
                if let Some((a1, b1)) = sp_aeval(a, b, fe, (fuel - 1) as nat) {
                    lemma_aeval_list_len(a1, b1, n.args, (fuel - 1) as nat);
                    if let Some((a2, b2)) = sp_aeval_list(a1, b1, n.args, (fuel - 1) as nat) {
                        match a2.nodes[fe as int].val {
                            SVal::C(SNConst::F(params, body)) => {
                                if n.args.len() == params.len() {
                                    let b3 = sp_add_all(b2, params, n.args);
                                    lemma_asubst_len(a2, b3, body, (fuel - 1) as nat);
                                    if let Some(a3) = sp_asubst(a2, b3, body, (fuel - 1) as nat) {
                                        lemma_adelete_all_len(a3, n.args);
                                    }
                                }
                            },
                            SVal::Builtin(k) => {
                                if let Some(a3) = sp_builtin(k, ins, n.args, a2) {
                                    lemma_adelete_all_len(a3, n.args);
                                }
                            },
                            _ => {},
                        }
                    }
                }
            },
            _ => {},
        }
    }
}

/// Evaluating a list never shortens the arena.
pub proof fn lemma_aeval_list_len(
    a: SArena,
    b: Map<Seq<char>, Seq<(SArena, usize)>>,
    xs: Seq<usize>,
    fuel: nat,
)
    ensures
        sp_aeval_list(a, b, xs, fuel) matches Some((a2, _)) ==> a2.nodes.len() >= a.nodes.len(),
    decreases fuel, xs.len() + 1,
{
    if xs.len() > 0 {
        lemma_aeval_len(a, b, xs[0], fuel);
        if let Some((a1, b1)) = sp_aeval(a, b, xs[0], fuel) {
            lemma_aeval_list_len(a1, b1, xs.drop_first(), fuel);
        }
    }
}


fn adelete_all(xs: &Vec<usize>, ar: &mut EArena)
    requires
        sp_adelete_all(old(ar).deep_view(), xs@) is Some,
    ensures
        sp_adelete_all(old(ar).deep_view(), xs@) == Some(final(ar).deep_view()),
{
    let ghost total = sp_adelete_all(ar.deep_view(), xs@);
    let mut k: usize = 0;
    assert(xs@.skip(0) =~= xs@);
    while k < xs.len()
        invariant
            k <= xs@.len(),
            total is Some,
            total == sp_adelete_all(ar.deep_view(), xs@.skip(k as int)),
        decreases xs@.len() - k,
    {
        proof {
            assert(xs@.skip(k as int)[0] == xs@[k as int]);
            assert(xs@.skip(k as int).drop_first() =~= xs@.skip(k + 1));
        }
        adelete(xs[k], ar);
        k = k + 1;
    }
    assert(xs@.skip(k as int) =~= seq![]);
}

/// Applies the built-in with number `k` (see `sp_builtin`).
fn apply_builtin(k: usize, out: usize, args: &Vec<usize>, ar: &mut EArena)
    requires
        sp_builtin(k, out, args@, old(ar).deep_view()) is Some,
        out < old(ar).nodes@.len(),
    ensures
        sp_builtin(k, out, args@, old(ar).deep_view()) == Some(final(ar).deep_view()),
{
    let ghost a = ar.deep_view();
    if k != 0 {
        return;
    }
    let v = match (&ar.nodes[args[0]].val, &ar.nodes[args[1]].val) {
        (NValue::C(NConst::I32(x)), NValue::C(NConst::I32(y))) => NValue::C(NConst::I32(*x + *y)),
        (NValue::C(NConst::F32(_)), NValue::C(NConst::F32(_))) => {
            return;
        },
        _ => NValue::E(lit("ERROR: type mismatch.")),
    };
    let n = new_enodev(v);
    let ghost nv = n.deep_view();
    ar.nodes.set(out, n);
    assert(ar.deep_view().nodes =~= set_node(a, out, nv).nodes);
}

fn aeval_list_f(
    xs: &Vec<usize>,
    ar: &mut EArena,
    bvs: &mut StrMap<Vec<(EArena, usize)>>,
    Ghost(fuel): Ghost<nat>,
) -> (r: Vec<usize>)
    requires
        sp_aeval_list(old(ar).deep_view(), old(bvs).deep_view(), xs@, fuel) is Some,
    ensures
        sp_aeval_list(old(ar).deep_view(), old(bvs).deep_view(), xs@, fuel) == Some(
            (final(ar).deep_view(), final(bvs).deep_view()),
        ),
        r@ == xs@,
    decreases fuel, xs@.len() + 1,
{
    let ghost total = sp_aeval_list(ar.deep_view(), bvs.deep_view(), xs@, fuel);
    let mut out: Vec<usize> = Vec::new();
    let mut k: usize = 0;
    assert(xs@.skip(0) =~= xs@);
    while k < xs.len()
        invariant
            k <= xs@.len(),
            total is Some,
            total == sp_aeval_list(ar.deep_view(), bvs.deep_view(), xs@.skip(k as int), fuel),
            out@ == xs@.subrange(0, k as int),
        decreases xs@.len() - k,
    {
        proof {
            assert(xs@.skip(k as int)[0] == xs@[k as int]);
            assert(xs@.skip(k as int).drop_first() =~= xs@.skip(k + 1));
        }
        let x = aeval_f(xs[k], ar, bvs, Ghost(fuel));
        out.push(x);
        assert(out@ =~= xs@.subrange(0, k + 1));
        k = k + 1;
    }
    assert(xs@.skip(k as int) =~= seq![]);
    assert(out@ =~= xs@);
    out
}

pub(crate) fn aeval_f(
    ins: usize,
    ar: &mut EArena,
    bvs: &mut StrMap<Vec<(EArena, usize)>>,
    Ghost(fuel): Ghost<nat>,
) -> (r: usize)
    requires
        sp_aeval(old(ar).deep_view(), old(bvs).deep_view(), ins, fuel) is Some,
    ensures
        sp_aeval(old(ar).deep_view(), old(bvs).deep_view(), ins, fuel) == Some(
            (final(ar).deep_view(), final(bvs).deep_view()),
        ),
        r == ins,
    decreases fuel, 0int,
{
    let ghost a0 = ar.deep_view();
    let ghost b0 = bvs.deep_view();
    let nd = ar.nodes[ins].copy();
    match nd.val {
        NValue::Var(s) => {
            match bvs.get(&s) {
                Some(se) => {
                    if se.len() == 0 {
                        return ins;
                    }
                    let last = &se[se.len() - 1];
                    proof {
                        assert(b0[s@] == se.deep_view());
                        assert(b0[s@].last() == (last.0.deep_view(), last.1));
                        lemma_append_len(a0, b0[s@].last().0, b0[s@].last().1, (fuel - 1) as nat);
                    }
                    let g = append_f(ar, &last.0, last.1, Ghost((fuel - 1) as nat));
                    let ghost a1 = ar.deep_view();
                    let c = ar.nodes[g].copy();
                    ar.nodes.set(ins, c);
                    ar.nodes.set(g, new_enodev(NValue::Unfilled));
                    assert(ar.deep_view().nodes =~= set_node(
                        set_node(a1, ins, a1.nodes[g as int]),
                        g,
                        leaf(SVal::Unfilled),
                    ).nodes);
                    ins
                },
                None => {
                    let m = concat(
                        &concat(&lit("ERROR: variable '"), &debug_string(&s)),
                        &lit("' not assigned"),
                    );
                    let n = new_enodev(NValue::E(m));
                    let ghost nv = n.deep_view();
                    ar.nodes.set(ins, n);
                    assert(ar.deep_view().nodes =~= set_node(a0, ins, nv).nodes);
                    ins
                },
            }
        },
        NValue::Lst(lst) => {
            proof {
                lemma_aeval_list_len(a0, b0, lst@, (fuel - 1) as nat);
            }
            let na = aeval_list_f(&lst, ar, bvs, Ghost((fuel - 1) as nat));
            let ghost a1 = ar.deep_view();
            let n = new_enodev(NValue::Lst(na));
            let ghost nv = n.deep_view();
            ar.nodes.set(ins, n);
            assert(ar.deep_view().nodes =~= set_node(a1, ins, nv).nodes);
            ins
        },
        NValue::App(fe) => {
            proof {
                lemma_aeval_len(a0, b0, fe, (fuel - 1) as nat);
            }
            let fz = aeval_f(fe, ar, bvs, Ghost((fuel - 1) as nat));
            let ghost a1 = ar.deep_view();
            let ghost b1 = bvs.deep_view();
            proof {
                lemma_aeval_list_len(a1, b1, nd.args@, (fuel - 1) as nat);
            }
            let na = aeval_list_f(&nd.args, ar, bvs, Ghost((fuel - 1) as nat));
            let ghost a2 = ar.deep_view();
            let ghost b2 = bvs.deep_view();
            match ar.nodes[fz].val.copy() {
                NValue::C(NConst::F(NFun { params, body })) => {
                    if na.len() == params.len() {
                        let ghost pv = crate::syntax::strs_view(params@);
                        let ghost b3 = sp_add_all(b2, pv, na@);
                        let mut k: usize = 0;
                        proof {
                            assert(pv.skip(0) =~= pv);
                            assert(na@.skip(0) =~= na@);
                        }
                        while k < params.len()
                            invariant
                                k <= params@.len(),
                                params@.len() == na@.len(),
                                pv == crate::syntax::strs_view(params@),
                                b3 == sp_add_all(bvs.deep_view(), pv.skip(k as int), na@.skip(k as int)),
                            decreases params@.len() - k,
                        {
                            proof {
                                assert(pv.skip(k as int)[0] == params@[k as int]@);
                                assert(na@.skip(k as int)[0] == na@[k as int]);
                                assert(pv.skip(k as int).drop_first() =~= pv.skip(k + 1));
                                assert(na@.skip(k as int).drop_first() =~= na@.skip(k + 1));
                            }
                            add_v(&params[k], ar, na[k], bvs);
                            k = k + 1;
                        }
                        proof {
                            assert(pv.skip(k as int) =~= seq![]);
                            assert(bvs.deep_view() == b3);
                            lemma_asubst_len(a2, b3, body, (fuel - 1) as nat);
                        }
                        asubst_f(body, ar, bvs, Ghost((fuel - 1) as nat));
                        let ghost b4 = sp_rem_all(b3, pv);
                        k = 0;
                        while k < params.len()
                            invariant
                                k <= params@.len(),
                                pv == crate::syntax::strs_view(params@),
                                b4 == sp_rem_all(bvs.deep_view(), pv.skip(k as int)),
                            decreases params@.len() - k,
                        {
                            proof {
                                assert(pv.skip(k as int)[0] == params@[k as int]@);
                                assert(pv.skip(k as int).drop_first() =~= pv.skip(k + 1));
                            }
                            rem_v(&params[k], bvs);
                            k = k + 1;
                        }
                        proof {
                            assert(pv.skip(k as int) =~= seq![]);
                            let a3 = sp_asubst(a2, b3, body, (fuel - 1) as nat).unwrap();
                            lemma_adelete_all_len(a3, nd.args@);
                        }
                        adelete_all(&na, ar);
                        adelete(fe, ar);
                        ins
                    } else {
                        let m = concat(
                            &concat(
                                &concat(&lit("ERROR: function has arity "), &usize_dec(params.len())),
                                &concat(&lit(" but only given are "), &usize_dec(na.len())),
                            ),
                            &lit(" parameters."),
                        );
                        let n = new_enodev(NValue::E(m));
                        let ghost nv = n.deep_view();
                        ar.nodes.set(ins, n);
                        proof {
                            assert(ar.deep_view().nodes =~= set_node(a2, ins, nv).nodes);
                            assert(nv.val == SVal::E(arity_msg(params@.len() as nat, na@.len() as nat))) by {
                                assert(crate::syntax::strs_view(params@).len() == params@.len());
                                assert(("ERROR: function has arity "@ + dec(params@.len() as nat)) + (" but only given are "@
                                    + dec(na@.len() as nat)) + " parameters."@ =~= arity_msg(
                                    params@.len() as nat,
                                    na@.len() as nat,
                                ));
                            }
                        }
                        adelete(fe, ar);
                        ins
                    }
                },
                NValue::Builtin(k) => {
                    apply_builtin(k, ins, &na, ar);
                    proof {
                        lemma_adelete_all_len(sp_builtin(k, ins, na@, a2).unwrap(), na@);
                    }
                    adelete_all(&na, ar);
                    adelete(fe, ar);
                    ins
                },
                _ => {
                    let m = concat(&concat(&lit("ERROR: '"), &usize_dec(fz)), &lit("' is not a function."));
                    let n = new_enodev(NValue::E(m));
                    let ghost nv = n.deep_view();
                    ar.nodes.set(ins, n);
                    proof {
                        assert(ar.deep_view().nodes =~= set_node(a2, ins, nv).nodes);
                        assert(nv.val == SVal::E(notfn_msg(fe as nat))) by {
                            assert(("ERROR: '"@ + dec(fz as nat)) + "' is not a function."@ =~= notfn_msg(fe as nat));
                        }
                    }
                    ins
                },
            }
        },
        _ => ins,
    }
}

/// The fuel with which `aeval` is described: one with which it finishes,
/// where there is one.
pub open spec fn aeval_fuel(a: SArena, b: Map<Seq<char>, Seq<(SArena, usize)>>, ins: usize) -> nat {
    choose|f: nat| sp_aeval(a, b, ins, f) is Some
}

/// Evaluates the subtree at `ins` in place (see `sp_aeval`) and gives back
/// `ins`.
pub fn aeval(ins: usize, ar: &mut EArena, bvs: &mut StrMap<Vec<(EArena, usize)>>) -> (r: usize)
    requires
        exists|f: nat| sp_aeval(old(ar).deep_view(), old(bvs).deep_view(), ins, f) is Some,
    ensures
        sp_aeval(
            old(ar).deep_view(),
            old(bvs).deep_view(),
            ins,
            aeval_fuel(old(ar).deep_view(), old(bvs).deep_view(), ins),
        ) == Some((final(ar).deep_view(), final(bvs).deep_view())),
        r == ins,
{
    let ghost f = aeval_fuel(ar.deep_view(), bvs.deep_view(), ins);
    aeval_f(ins, ar, bvs, Ghost(f))
}


// ---------------------------------------------------------------------------
// Fuel
// ---------------------------------------------------------------------------

/// More fuel never changes what `append_expr` does once it finishes.
pub proof fn law_append_fuel(a: SArena, b: SArena, ins: usize, f1: nat, f2: nat)
    requires
        f1 <= f2,
        sp_append(a, b, ins, f1) is Some,
    ensures
        sp_append(a, b, ins, f2) == sp_append(a, b, ins, f1),
    decreases f1, 0int,
{
    let n = b.nodes[ins as int];
    law_append_list_fuel(a, b, n.args, (f1 - 1) as nat, (f2 - 1) as nat);
}

/// More fuel never changes what copying a list of subtrees does once it
/// finishes.
pub proof fn law_append_list_fuel(a: SArena, b: SArena, xs: Seq<usize>, f1: nat, f2: nat)
    requires
        f1 <= f2,
        sp_append_list(a, b, xs, f1) is Some,
    ensures
        sp_append_list(a, b, xs, f2) == sp_append_list(a, b, xs, f1),
    decreases f1, xs.len() + 1,
{
    if xs.len() > 0 {
        law_append_fuel(a, b, xs[0], f1, f2);
        let (a1, x) = sp_append(a, b, xs[0], f1).unwrap();
        law_append_list_fuel(a1, b, xs.drop_first(), f1, f2);
    }
}

/// More fuel never changes what `asubst` does once it finishes.
pub proof fn law_asubst_fuel(
    a: SArena,
    b: Map<Seq<char>, Seq<(SArena, usize)>>,
    ins: usize,
    f1: nat,
    f2: nat,
)
    requires
        f1 <= f2,
        sp_asubst(a, b, ins, f1) is Some,
    ensures
        sp_asubst(a, b, ins, f2) == sp_asubst(a, b, ins, f1),
    decreases f1, 0int,
{
    let n = a.nodes[ins as int];
    match n.val {
        SVal::Var(s) => {
            if !a.vars.contains_key(s) && b.contains_key(s) {
                law_append_fuel(a, b[s][0].0, b[s][0].1, (f1 - 1) as nat, (f2 - 1) as nat);
            }
        },
        SVal::C(SNConst::F(params, body)) => {
            law_asubst_fuel(a, b.remove_keys(params.to_set()), body, (f1 - 1) as nat, (f2 - 1) as nat);
        },
        SVal::App(fe) => {
            law_asubst_fuel(a, b, fe, (f1 - 1) as nat, (f2 - 1) as nat);
            let a1 = sp_asubst(a, b, fe, (f1 - 1) as nat).unwrap();
            law_asubst_list_fuel(a1, b, n.args, (f1 - 1) as nat, (f2 - 1) as nat);
        },
        SVal::Lst(vs) => {
            law_asubst_list_fuel(a, b, vs, (f1 - 1) as nat, (f2 - 1) as nat);
        },
        _ => {},
    }
}

/// More fuel never changes what substituting in a list does once it
/// finishes.
pub proof fn law_asubst_list_fuel(
    a: SArena,
    b: Map<Seq<char>, Seq<(SArena, usize)>>,
    xs: Seq<usize>,
    f1: nat,
    f2: nat,
)
    requires
        f1 <= f2,
        sp_asubst_list(a, b, xs, f1) is Some,
    ensures
        sp_asubst_list(a, b, xs, f2) == sp_asubst_list(a, b, xs, f1),
    decreases f1, xs.len() + 1,
{
    if xs.len() > 0 {
        law_asubst_fuel(a, b, xs[0], f1, f2);
        let a1 = sp_asubst(a, b, xs[0], f1).unwrap();
        law_asubst_list_fuel(a1, b, xs.drop_first(), f1, f2);
    }
}

/// More fuel never changes what `aeval` does once it finishes.
pub proof fn law_aeval_fuel(
    a: SArena,
    b: Map<Seq<char>, Seq<(SArena, usize)>>,
    ins: usize,
    f1: nat,
    f2: nat,
)
    requires
        f1 <= f2,
        sp_aeval(a, b, ins, f1) is Some,
    ensures
        sp_aeval(a, b, ins, f2) == sp_aeval(a, b, ins, f1),
    decreases f1, 0int,
{
    let n = a.nodes[ins as int];
    match n.val {
        SVal::Var(s) => {
            if b.contains_key(s) {
                law_append_fuel(a, b[s].last().0, b[s].last().1, (f1 - 1) as nat, (f2 - 1) as nat);
            }
        },
        SVal::Lst(lst) => {
            law_aeval_list_fuel(a, b, lst, (f1 - 1) as nat, (f2 - 1) as nat);
        },
        SVal::App(fe) => {
            law_aeval_fuel(a, b, fe, (f1 - 1) as nat, (f2 - 1) as nat);
            let (a1, b1) = sp_aeval(a, b, fe, (f1 - 1) as nat).unwrap();
            law_aeval_list_fuel(a1, b1, n.args, (f1 - 1) as nat, (f2 - 1) as nat);
            let (a2, b2) = sp_aeval_list(a1, b1, n.args, (f1 - 1) as nat).unwrap();
            match a2.nodes[fe as int].val {
                SVal::C(SNConst::F(params, body)) => {
                    if n.args.len() == params.len() {
                        let b3 = sp_add_all(b2, params, n.args);
                        law_asubst_fuel(a2, b3, body, (f1 - 1) as nat, (f2 - 1) as nat);
                    }
                },
                _ => {},
            }
        },
        _ => {},
    }
}

/// More fuel never changes what evaluating a list does once it finishes.
pub proof fn law_aeval_list_fuel(
    a: SArena,
    b: Map<Seq<char>, Seq<(SArena, usize)>>,
    xs: Seq<usize>,
    f1: nat,
    f2: nat,
)
    requires
        f1 <= f2,
        sp_aeval_list(a, b, xs, f1) is Some,
    ensures
        sp_aeval_list(a, b, xs, f2) == sp_aeval_list(a, b, xs, f1),
    decreases f1, xs.len() + 1,
{
    if xs.len() > 0 {
        law_aeval_fuel(a, b, xs[0], f1, f2);
        let (a1, b1) = sp_aeval(a, b, xs[0], f1).unwrap();
        law_aeval_list_fuel(a1, b1, xs.drop_first(), f1, f2);
    }
}


// ---------------------------------------------------------------------------
// Bindings are restored
// ---------------------------------------------------------------------------

/// Every name of `b` has at least one binding.
pub open spec fn all_bound(b: Map<Seq<char>, Seq<(SArena, usize)>>) -> bool {
    forall|k: Seq<char>| #[trigger] b.contains_key(k) ==> b[k].len() > 0
}

/// The bindings of `k` in `b`, none where `k` is absent.
pub open spec fn stack(b: Map<Seq<char>, Seq<(SArena, usize)>>, k: Seq<char>) -> Seq<(SArena, usize)> {
    if b.contains_key(k) {
        b[k]
    } else {
        seq![]
    }
}

/// The bindings that `sp_add_all` puts on `k`, in order.
pub open spec fn added(ps: Seq<Seq<char>>, vs: Seq<usize>, k: Seq<char>) -> Seq<(SArena, usize)>
    decreases ps.len(),
{
    if ps.len() == 0 || vs.len() == 0 {
        seq![]
    } else {
        (if ps[0] == k {
            seq![(empty_arena(), vs[0])]
        } else {
            seq![]
        }) + added(ps.drop_first(), vs.drop_first(), k)
    }
}

/// How often `k` occurs in `ps`.
pub open spec fn occurrences(ps: Seq<Seq<char>>, k: Seq<char>) -> nat
    decreases ps.len(),
{
    if ps.len() == 0 {
        0
    } else {
        (if ps[0] == k {
            1nat
        } else {
            0nat
        }) + occurrences(ps.drop_first(), k)
    }
}

proof fn lemma_added_len(ps: Seq<Seq<char>>, vs: Seq<usize>, k: Seq<char>)
    requires
        ps.len() == vs.len(),
    ensures
        added(ps, vs, k).len() == occurrences(ps, k),
    decreases ps.len(),
{
    if ps.len() > 0 {
        lemma_added_len(ps.drop_first(), vs.drop_first(), k);
    }
}

proof fn lemma_same_stacks(c: Map<Seq<char>, Seq<(SArena, usize)>>, d: Map<Seq<char>, Seq<(SArena, usize)>>)
    requires
        all_bound(c),
        all_bound(d),
        forall|k: Seq<char>| #[trigger] stack(c, k) == stack(d, k),
    ensures
        c == d,
{
    assert forall|k: Seq<char>| c.contains_key(k) <==> d.contains_key(k) by {
        assert(stack(c, k) == stack(d, k));
    }
    assert forall|k: Seq<char>| c.contains_key(k) implies c[k] == d[k] by {
        assert(stack(c, k) == stack(d, k));
    }
    assert(c =~= d);
}

proof fn lemma_add_all_stacks(c: Map<Seq<char>, Seq<(SArena, usize)>>, ps: Seq<Seq<char>>, vs: Seq<usize>)
    requires
        all_bound(c),
        ps.len() == vs.len(),
    ensures
        all_bound(sp_add_all(c, ps, vs)),
        forall|k: Seq<char>| #[trigger] stack(sp_add_all(c, ps, vs), k) == stack(c, k) + added(ps, vs, k),
    decreases ps.len(),
{
    if ps.len() == 0 {
        assert forall|k: Seq<char>| #[trigger] stack(sp_add_all(c, ps, vs), k) == stack(c, k) + added(ps, vs, k) by {
            assert(stack(c, k) + seq![] =~= stack(c, k));
        }
    } else {
        let c1 = sp_add_v(c, ps[0], vs[0]);
        assert(all_bound(c1));
        lemma_add_all_stacks(c1, ps.drop_first(), vs.drop_first());
        assert forall|k: Seq<char>| #[trigger] stack(sp_add_all(c, ps, vs), k) == stack(c, k) + added(ps, vs, k) by {
            let rest = added(ps.drop_first(), vs.drop_first(), k);
            if ps[0] == k {
                assert(stack(c1, k) =~= stack(c, k).push((empty_arena(), vs[0])));
                assert(stack(c1, k) + rest =~= stack(c, k) + (seq![(empty_arena(), vs[0])] + rest));
            } else {
                assert(stack(c1, k) == stack(c, k));
                assert(seq![] + rest =~= rest);
            }
        }
    }
}

proof fn lemma_rem_all_stacks(d: Map<Seq<char>, Seq<(SArena, usize)>>, ps: Seq<Seq<char>>)
    requires
        all_bound(d),
        forall|k: Seq<char>| occurrences(ps, k) <= #[trigger] stack(d, k).len(),
    ensures
        all_bound(sp_rem_all(d, ps)),
        forall|k: Seq<char>|
            #[trigger] stack(sp_rem_all(d, ps), k) == stack(d, k).subrange(
                0,
                stack(d, k).len() - occurrences(ps, k),
            ),
    decreases ps.len(),
{
    if ps.len() == 0 {
        assert forall|k: Seq<char>|
            #[trigger] stack(sp_rem_all(d, ps), k) == stack(d, k).subrange(
                0,
                stack(d, k).len() - occurrences(ps, k),
            ) by {
            assert(stack(d, k).subrange(0, stack(d, k).len() as int) =~= stack(d, k));
        }
    } else {
        let p = ps[0];
        let d1 = sp_rem_v(d, p);
        assert(occurrences(ps, p) >= 1);
        assert(all_bound(d1));
        assert forall|k: Seq<char>| #[trigger] stack(d1, k) == (if k == p {
            stack(d, k).drop_last()
        } else {
            stack(d, k)
        }) by {
            if k == p {
                if d[k].len() <= 1 {
                    assert(stack(d, k).drop_last() =~= seq![]);
                }
            }
        }
        assert forall|k: Seq<char>| occurrences(ps.drop_first(), k) <= #[trigger] stack(d1, k).len() by {
            assert(occurrences(ps, k) <= stack(d, k).len());
            assert(stack(d1, k) == (if k == p {
                stack(d, k).drop_last()
            } else {
                stack(d, k)
            }));
        }
        lemma_rem_all_stacks(d1, ps.drop_first());
        assert forall|k: Seq<char>|
            #[trigger] stack(sp_rem_all(d, ps), k) == stack(d, k).subrange(
                0,
                stack(d, k).len() - occurrences(ps, k),
            ) by {
            assert(occurrences(ps, k) <= stack(d, k).len());
            assert(stack(d1, k) == (if k == p {
                stack(d, k).drop_last()
            } else {
                stack(d, k)
            }));
            if k == p {
                assert(stack(d1, k).subrange(0, stack(d1, k).len() - occurrences(ps.drop_first(), k))
                    =~= stack(d, k).subrange(0, stack(d, k).len() - occurrences(ps, k)));
            }
        }
    }
}

/// Binding each parameter to an argument and then dropping one binding of
/// each parameter gives back the bindings as they were, where every name
/// had a binding.
pub proof fn law_rem_all_undoes_add_all(
    b: Map<Seq<char>, Seq<(SArena, usize)>>,
    ps: Seq<Seq<char>>,
    vs: Seq<usize>,
)
    requires
        all_bound(b),
        ps.len() == vs.len(),
    ensures
        sp_rem_all(sp_add_all(b, ps, vs), ps) == b,
{
    let d = sp_add_all(b, ps, vs);
    lemma_add_all_stacks(b, ps, vs);
    assert forall|k: Seq<char>| occurrences(ps, k) <= #[trigger] stack(d, k).len() by {
        lemma_added_len(ps, vs, k);
        assert(stack(d, k) == stack(b, k) + added(ps, vs, k));
    }
    lemma_rem_all_stacks(d, ps);
    assert forall|k: Seq<char>| #[trigger] stack(sp_rem_all(d, ps), k) == stack(b, k) by {
        lemma_added_len(ps, vs, k);
        assert(stack(d, k) == stack(b, k) + added(ps, vs, k));
        assert((stack(b, k) + added(ps, vs, k)).subrange(0, stack(b, k).len() as int) =~= stack(b, k));
    }
    lemma_same_stacks(sp_rem_all(d, ps), b);
}

/// Evaluation leaves the bound variables as they were, where every name has
/// a binding.
pub proof fn law_aeval_keeps_bindings(
    a: SArena,
    b: Map<Seq<char>, Seq<(SArena, usize)>>,
    ins: usize,
    fuel: nat,
)
    requires
        all_bound(b),
        sp_aeval(a, b, ins, fuel) is Some,
    ensures
        sp_aeval(a, b, ins, fuel).unwrap().1 == b,
    decreases fuel, 0int,
{
    let n = a.nodes[ins as int];
    match n.val {
        SVal::Lst(lst) => {
            law_aeval_list_keeps_bindings(a, b, lst, (fuel - 1) as nat);
        },
        SVal::App(fe) => {
            law_aeval_keeps_bindings(a, b, fe, (fuel - 1) as nat);
            let (a1, b1) = sp_aeval(a, b, fe, (fuel - 1) as nat).unwrap();
            law_aeval_list_keeps_bindings(a1, b1, n.args, (fuel - 1) as nat);
            let (a2, b2) = sp_aeval_list(a1, b1, n.args, (fuel - 1) as nat).unwrap();
            match a2.nodes[fe as int].val {
                SVal::C(SNConst::F(params, body)) => {
                    if n.args.len() == params.len() {
                        law_rem_all_undoes_add_all(b2, params, n.args);
                    }
                },
                _ => {},
            }
        },
        _ => {},
    }
}

/// Evaluating a list leaves the bound variables as they were, where every
/// name has a binding.
pub proof fn law_aeval_list_keeps_bindings(
    a: SArena,
    b: Map<Seq<char>, Seq<(SArena, usize)>>,
    xs: Seq<usize>,
    fuel: nat,
)
    requires
        all_bound(b),
        sp_aeval_list(a, b, xs, fuel) is Some,
    ensures
        sp_aeval_list(a, b, xs, fuel).unwrap().1 == b,
    decreases fuel, xs.len() + 1,
{
    if xs.len() > 0 {
        law_aeval_keeps_bindings(a, b, xs[0], fuel);
        let (a1, b1) = sp_aeval(a, b, xs[0], fuel).unwrap();
        law_aeval_list_keeps_bindings(a1, b1, xs.drop_first(), fuel);
    }
}


/// `add_v` binds a name to a node of an empty arena, and reading a variable
/// copies its binding's node out of that arena: so evaluating a variable
/// whose topmost binding `add_v` made always fails, for any fuel, since
/// the node's index is out of range of the empty arena.
pub proof fn law_added_binding_cannot_be_read(
    a: SArena,
    b: Map<Seq<char>, Seq<(SArena, usize)>>,
    ins: usize,
    fuel: nat,
    s: Seq<char>,
    v: usize,
)
    requires
        ins < a.nodes.len(),
        a.nodes[ins as int].val == SVal::Var(s),
    ensures
        sp_aeval(a, sp_add_v(b, s, v), ins, fuel) is None,
{
}

/// Likewise substituting a variable that the arena has not substituted yet
/// and whose first binding `add_v` made always fails, for any fuel.
pub proof fn law_added_binding_cannot_be_substituted(
    a: SArena,
    b: Map<Seq<char>, Seq<(SArena, usize)>>,
    ins: usize,
    fuel: nat,
    s: Seq<char>,
    v: usize,
)
    requires
        ins < a.nodes.len(),
        a.nodes[ins as int].val == SVal::Var(s),
        !a.vars.contains_key(s),
        !b.contains_key(s),
    ensures
        sp_asubst(a, sp_add_v(b, s, v), ins, fuel) is None,
{
}


/// Evaluating a list node leaves at its index a list node with exactly the
/// same element indices in the same order (each element is evaluated in
/// place), with one reference and no arguments.
pub proof fn law_aeval_list_keeps_elements(
    a: SArena,
    b: Map<Seq<char>, Seq<(SArena, usize)>>,
    ins: usize,
    fuel: nat,
    xs: Seq<usize>,
)
    requires
        ins < a.nodes.len(),
        a.nodes[ins as int].val == SVal::Lst(xs),
        sp_aeval(a, b, ins, fuel) is Some,
    ensures
        ins < sp_aeval(a, b, ins, fuel).unwrap().0.nodes.len(),
        sp_aeval(a, b, ins, fuel).unwrap().0.nodes[ins as int] == (SNode {
            rc: 1,
            val: SVal::Lst(xs),
            args: seq![],
        }),
{
    lemma_aeval_list_len(a, b, xs, (fuel - 1) as nat);
}

/// Substituting in a function node does not depend on the bindings of its
/// parameters: its parameters are bound inside it, so two sets of bindings
/// that agree on every other name give the same result, and an occurrence
/// of a parameter in the body is never replaced by an outer binding.
pub proof fn law_asubst_function_hides_parameters(
    a: SArena,
    b1: Map<Seq<char>, Seq<(SArena, usize)>>,
    b2: Map<Seq<char>, Seq<(SArena, usize)>>,
    ins: usize,
    fuel: nat,
    params: Seq<Seq<char>>,
    body: usize,
)
    requires
        ins < a.nodes.len(),
        a.nodes[ins as int].val == SVal::C(SNConst::F(params, body)),
        forall|k: Seq<char>|
            !params.contains(k) ==> (#[trigger] b1.contains_key(k) == b2.contains_key(k) && (b1.contains_key(k)
                ==> b1[k] == b2[k])),
    ensures
        sp_asubst(a, b1, ins, fuel) == sp_asubst(a, b2, ins, fuel),
{
    assert(b1.remove_keys(params.to_set()) =~= b2.remove_keys(params.to_set()));
}

/// A parameter that occurs as a variable at the root of a function's body
/// stays that variable: substituting in the function leaves the body node
/// as it was, whatever the bindings of the parameter.
pub proof fn law_asubst_keeps_parameter_occurrence(
    a: SArena,
    b: Map<Seq<char>, Seq<(SArena, usize)>>,
    ins: usize,
    fuel: nat,
    params: Seq<Seq<char>>,
    body: usize,
    p: Seq<char>,
)
    requires
        ins < a.nodes.len(),
        body < a.nodes.len(),
        a.nodes[ins as int].val == SVal::C(SNConst::F(params, body)),
        a.nodes[body as int].val == SVal::Var(p),
        params.contains(p),
        !a.vars.contains_key(p),
        sp_asubst(a, b, ins, fuel) is Some,
    ensures
        sp_asubst(a, b, ins, fuel).unwrap() == a,
{
    let b1 = b.remove_keys(params.to_set());
    assert(params.to_set().contains(p));
    assert(!b1.contains_key(p));
    assert(sp_asubst(a, b, ins, fuel) == sp_asubst(a, b1, body, (fuel - 1) as nat));
    assert(sp_asubst(a, b1, body, (fuel - 1) as nat) == Some(a));
}

} // verus!
