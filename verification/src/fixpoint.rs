//! Cross-block propagation: a value consumed across a `Goto`/`Branch` edge
//! (through the successor block's name-to-value mapping) must end up with a
//! type consistent with its type at the point of definition. One sweep
//! unifies, for every edge and every variable name bound on both sides,
//! the two bound values' current types, writing the unification into both
//! arena slots.

use vstd::prelude::*;
use vstd::pervasive::VecAdditionalExecFns;
use crate::err::TypeError;
use crate::ir::{
    Function, arena, edge_apply, edge_has_shared_name, edge_pairs_done, edge_pairs_from,
    edge_stable, edge_writable, edge_writable_at, edges_done, edges_from, edges_stable,
    goto_targets, goto_wf, has_shared_name_edge, lemma_edge_pairs_congruence,
    lemma_edge_pairs_or, lemma_types_refined_self, lemma_types_refined_trans, spec_edges,
    targets_of, types_refined, unify_pair, val_ty, wf,
};
use crate::ty::SpecType;
use crate::ty::{
    lemma_refines_self, lemma_unify_self, lemma_unify_upper_bound, refines, spec_unify,
    superimpose,
    type_clone, type_eq,
};

verus! {

/// Unify the current types of two values, writing the result into both
/// arena slots; reports whether either slot changed.
fn unify_slots(func: &mut Function, va: usize, vb: usize) -> (r: Result<bool, TypeError>)
    requires
        wf(*old(func)),
        va < old(func).values@.len(),
        vb < old(func).values@.len(),
    ensures
        wf(*final(func)),
        final(func).blocks == old(func).blocks,
        final(func).values == old(func).values,
        final(func).type_params == old(func).type_params,
        final(func).types@.len() == old(func).types@.len(),
        r == Ok::<bool, TypeError>(false) ==> *final(func) == *old(func) && val_ty(
            *final(func),
            va as int,
        ) == val_ty(*final(func), vb as int),
        val_ty(*old(func), va as int) == val_ty(*old(func), vb as int) ==> r == Ok::<
            bool,
            TypeError,
        >(false),
        r == Ok::<bool, TypeError>(true) ==> spec_unify(
            val_ty(*old(func), va as int),
            val_ty(*old(func), vb as int),
        ) is Some && val_ty(*final(func), va as int) == spec_unify(
            val_ty(*old(func), va as int),
            val_ty(*old(func), vb as int),
        )->0 && val_ty(*final(func), vb as int) == spec_unify(
            val_ty(*old(func), va as int),
            val_ty(*old(func), vb as int),
        )->0,
        match unify_pair(*old(func), arena(*old(func)), false, va, vb) {
            Ok((ts, c)) => r == Ok::<bool, TypeError>(c) && arena(*final(func)) == ts,
            Err(e) => r == Err::<bool, TypeError>(e),
        },
        types_refined(*old(func), *final(func)),
        forall|i: int|
            0 <= i < old(func).types@.len() && i != old(func).values@[va as int].typ && i != old(
                func,
            ).values@[vb as int].typ ==> (#[trigger] final(func).types@[i])@ == old(
            func,
        ).types@[i]@,
        r is Err ==> r->Err_0 == TypeError::Mismatch,
{
    proof {
        lemma_types_refined_self(*func);
    }
    let ixa = func.values[va].typ;
    let ixb = func.values[vb].typ;
    proof {
        lemma_unify_self(func.types@[ixa as int]@);
        lemma_unify_upper_bound(func.types@[ixa as int]@, func.types@[ixb as int]@);
        assert(arena(*old(func))[ixa as int] == old(func).types@[ixa as int]@);
        assert(arena(*old(func))[ixb as int] == old(func).types@[ixb as int]@);
    }
    let ghost ts0 = arena(*old(func));
    match superimpose(&func.types[ixa], &func.types[ixb]) {
        Ok(u) => {
            let mut changed = false;
            if !type_eq(&u, &func.types[ixa]) {
                let u2 = type_clone(&u);
                let ghost mid = *func;
                func.types.set(ixa, u2);
                proof {
                    assert forall|t: int|
                        0 <= t < mid.types@.len() implies refines(
                        mid.types@[t]@,
                        (#[trigger] func.types@[t])@,
                    ) by {
                        if t != ixa as int {
                            lemma_refines_self(mid.types@[t]@);
                        }
                    }
                    lemma_types_refined_trans(*old(func), mid, *func);
                    assert(arena(*func) =~= ts0.update(ixa as int, u@));
                }
                changed = true;
            }
            let ghost ts1 = arena(*func);
            if !type_eq(&u, &func.types[ixb]) {
                let ghost mid = *func;
                func.types.set(ixb, u);
                proof {
                    assert forall|t: int|
                        0 <= t < mid.types@.len() implies refines(
                        mid.types@[t]@,
                        (#[trigger] func.types@[t])@,
                    ) by {
                        if t != ixb as int {
                            lemma_refines_self(mid.types@[t]@);
                        }
                    }
                    lemma_types_refined_trans(*old(func), mid, *func);
                    assert(arena(*func) =~= ts1.update(ixb as int, u@));
                }
                changed = true;
            }
            proof {
                assert(ts1[ixb as int] == func.types@[ixb as int]@ || arena(*func)
                    == ts1.update(ixb as int, u@));
            }
            Ok(changed)
        },
        Err(e) => Err(e),
    }
}

/// Propagate across one edge: for every variable name bound in both the
/// source and the target block, unify the two bound values' types.
#[verifier::loop_isolation(false)]
fn propagate_edge(func: &mut Function, a: usize, t: usize) -> (r: Result<bool, TypeError>)
    requires
        wf(*old(func)),
        a < old(func).blocks@.len(),
        t < old(func).blocks@.len(),
    ensures
        wf(*final(func)),
        final(func).blocks == old(func).blocks,
        final(func).values == old(func).values,
        final(func).type_params == old(func).type_params,
        final(func).types@.len() == old(func).types@.len(),
        r == Ok::<bool, TypeError>(false) ==> *final(func) == *old(func) && edge_stable(
            *final(func),
            a as int,
            t as int,
        ),
        edge_stable(*old(func), a as int, t as int) ==> r == Ok::<bool, TypeError>(false),
        r == Ok::<bool, TypeError>(true) ==> exists|i: int|
            0 <= i < old(func).types@.len() && edge_writable_at(*old(func), a as int, t as int, i),
        types_refined(*old(func), *final(func)),
        forall|i: int|
            0 <= i < old(func).types@.len() && !edge_writable_at(*old(func), a as int, t as int, i)
                ==> (#[trigger] final(func).types@[i])@ == old(func).types@[i]@,
        match edge_apply(*old(func), a as int, t as int) {
            Ok((ts, c)) => r == Ok::<bool, TypeError>(c) && arena(*final(func)) == ts,
            Err(e) => r == Err::<bool, TypeError>(e),
        },
        r is Err ==> r->Err_0 == TypeError::Mismatch && edge_has_shared_name(
            *old(func),
            a as int,
            t as int,
        ),
{
    proof {
        lemma_types_refined_self(*func);
    }
    let mut changed = false;
    let na = func.blocks[a].vars.len();
    let nb = func.blocks[t].vars.len();
    let mut x: usize = 0;
    while x < na
        invariant
            wf(*func),
            func.blocks == old(func).blocks,
            func.values == old(func).values,
            func.type_params == old(func).type_params,
            func.types@.len() == old(func).types@.len(),
            x <= na,
            na == func.blocks@[a as int].vars@.len(),
            nb == func.blocks@[t as int].vars@.len(),
            types_refined(*old(func), *func),
            changed ==> exists|i: int|
                0 <= i < old(func).types@.len() && edge_writable_at(
                    *old(func),
                    a as int,
                    t as int,
                    i,
                ),
            edge_pairs_from(*old(func), a as int, t as int, x as int, 0, arena(*func), changed)
                == edge_apply(*old(func), a as int, t as int),
            forall|i: int|
                0 <= i < old(func).types@.len() && !edge_writable_at(
                    *old(func),
                    a as int,
                    t as int,
                    i,
                ) ==> (#[trigger] func.types@[i])@ == old(func).types@[i]@,
            !changed ==> *func == *old(func) && edge_pairs_done(
                *func,
                a as int,
                t as int,
                x as int,
                0,
            ),
            edge_stable(*old(func), a as int, t as int) ==> !changed,
        decreases na - x,
    {
        let mut y: usize = 0;
        while y < nb
            invariant
                wf(*func),
                func.blocks == old(func).blocks,
                func.values == old(func).values,
                func.type_params == old(func).type_params,
                func.types@.len() == old(func).types@.len(),
                x < na,
                y <= nb,
                na == func.blocks@[a as int].vars@.len(),
                nb == func.blocks@[t as int].vars@.len(),
                types_refined(*old(func), *func),
                changed ==> exists|i: int|
                    0 <= i < old(func).types@.len() && edge_writable_at(
                        *old(func),
                        a as int,
                        t as int,
                        i,
                    ),
                edge_pairs_from(
                    *old(func),
                    a as int,
                    t as int,
                    x as int,
                    y as int,
                    arena(*func),
                    changed,
                ) == edge_apply(*old(func), a as int, t as int),
                forall|i: int|
                    0 <= i < old(func).types@.len() && !edge_writable_at(
                        *old(func),
                        a as int,
                        t as int,
                        i,
                    ) ==> (#[trigger] func.types@[i])@ == old(func).types@[i]@,
                !changed ==> *func == *old(func) && edge_pairs_done(
                    *func,
                    a as int,
                    t as int,
                    x as int,
                    y as int,
                ),
                edge_stable(*old(func), a as int, t as int) ==> !changed,
            decreases nb - y,
        {
            let names_match = func.blocks[a].vars[x].0 == func.blocks[t].vars[y].0;
            if names_match {
                let va = func.blocks[a].vars[x].1;
                let vb = func.blocks[t].vars[y].1;
                proof {
                    assert(edge_has_shared_name(*old(func), a as int, t as int));
                    assert(edge_writable_at(
                        *old(func),
                        a as int,
                        t as int,
                        old(func).values@[va as int].typ as int,
                    ));
                    assert(edge_writable_at(
                        *old(func),
                        a as int,
                        t as int,
                        old(func).values@[vb as int].typ as int,
                    ));
                }
                let ghost chg0 = changed;
                let ghost mid = *func;
                match unify_slots(func, va, vb) {
                    Ok(step_changed) => {
                        proof {
                            lemma_types_refined_trans(*old(func), mid, *func);
                            assert forall|i: int|
                                0 <= i < old(func).types@.len() && !edge_writable_at(
                                    *old(func),
                                    a as int,
                                    t as int,
                                    i,
                                ) implies (#[trigger] func.types@[i])@ == old(
                                func,
                            ).types@[i]@ by {
                                assert(i != mid.values@[va as int].typ);
                                assert(i != mid.values@[vb as int].typ);
                            }
                            assert(unify_pair(*old(func), arena(mid), chg0, va, vb)
                                == unify_pair(mid, arena(mid), chg0, va, vb));
                            assert(edge_pairs_from(
                                *old(func),
                                a as int,
                                t as int,
                                x as int,
                                y as int + 1,
                                arena(*func),
                                chg0 || step_changed,
                            ) == edge_apply(*old(func), a as int, t as int));
                        }
                        if step_changed {
                            changed = true;
                        }
                    },
                    Err(e) => {
                        proof {
                            lemma_types_refined_trans(*old(func), mid, *func);
                            assert(unify_pair(*old(func), arena(mid), chg0, va, vb)
                                == unify_pair(mid, arena(mid), chg0, va, vb));
                            assert(edge_apply(*old(func), a as int, t as int) == Err::<
                                (Seq<SpecType>, bool),
                                TypeError,
                            >(e));
                        }
                        return Err(e);
                    },
                }
            } else {
                proof {
                    assert(edge_pairs_from(
                        *old(func),
                        a as int,
                        t as int,
                        x as int,
                        y as int + 1,
                        arena(*func),
                        changed,
                    ) == edge_apply(*old(func), a as int, t as int));
                }
            }
            y += 1;
        }
        proof {
            assert(edge_pairs_from(
                *old(func),
                a as int,
                t as int,
                x as int + 1,
                0,
                arena(*func),
                changed,
            ) == edge_apply(*old(func), a as int, t as int));
        }
        x += 1;
    }
    proof {
        if !changed {
            assert(edge_stable(*func, a as int, t as int));
        }
    }
    Ok(changed)
}

/// One propagation sweep over every control-flow edge of the function.
/// Returns whether any arena slot changed; when it returns `Ok(false)`,
/// every edge is stable.
#[verifier::loop_isolation(false)]
pub fn propagate_edges(func: &mut Function) -> (r: Result<bool, TypeError>)
    requires
        wf(*old(func)),
    ensures
        wf(*final(func)),
        final(func).blocks == old(func).blocks,
        final(func).values == old(func).values,
        final(func).type_params == old(func).type_params,
        final(func).types@.len() == old(func).types@.len(),
        r == Ok::<bool, TypeError>(false) ==> *final(func) == *old(func) && edges_stable(
            *final(func),
        ),
        edges_stable(*old(func)) ==> r == Ok::<bool, TypeError>(false),
        r == Ok::<bool, TypeError>(true) ==> exists|i: int|
            0 <= i < old(func).types@.len() && edge_writable(*old(func), i),
        types_refined(*old(func), *final(func)),
        forall|i: int|
            0 <= i < old(func).types@.len() && !edge_writable(*old(func), i) ==> (
            #[trigger] final(func).types@[i])@ == old(func).types@[i]@,
        match spec_edges(*old(func)) {
            Ok((ts, c)) => r == Ok::<bool, TypeError>(c) && arena(*final(func)) == ts,
            Err(e) => r == Err::<bool, TypeError>(e),
        },
        r is Err ==> r->Err_0 == TypeError::Mismatch && has_shared_name_edge(*old(func)),
{
    proof {
        lemma_types_refined_self(*func);
    }
    let mut changed = false;
    let mut a: usize = 0;
    while a < func.blocks.len()
        invariant
            wf(*func),
            func.blocks == old(func).blocks,
            func.values == old(func).values,
            func.type_params == old(func).type_params,
            func.types@.len() == old(func).types@.len(),
            a <= func.blocks@.len(),
            types_refined(*old(func), *func),
            changed ==> exists|i: int|
                0 <= i < old(func).types@.len() && edge_writable(*old(func), i),
            edges_from(*old(func), a as int, 0, arena(*func), changed) == spec_edges(
                *old(func),
            ),
            forall|i: int|
                0 <= i < old(func).types@.len() && !edge_writable(*old(func), i) ==> (
                #[trigger] func.types@[i])@ == old(func).types@[i]@,
            !changed ==> *func == *old(func) && edges_done(*func, a as int, 0),
            edges_stable(*old(func)) ==> !changed,
        decreases func.blocks@.len() - a,
    {
        let ts = targets_of(&func.blocks[a].goto);
        proof {
            assert(goto_wf(func.blocks@[a as int].goto, func.blocks@.len()));
        }
        let mut ti: usize = 0;
        while ti < ts.len()
            invariant
                wf(*func),
                func.blocks == old(func).blocks,
                func.values == old(func).values,
                func.type_params == old(func).type_params,
                func.types@.len() == old(func).types@.len(),
                a < func.blocks@.len(),
                ti <= ts@.len(),
                ts@ == goto_targets(func.blocks@[a as int].goto),
                types_refined(*old(func), *func),
                changed ==> exists|i: int|
                    0 <= i < old(func).types@.len() && edge_writable(*old(func), i),
                edges_from(*old(func), a as int, ti as int, arena(*func), changed)
                    == spec_edges(*old(func)),
                forall|i: int|
                    0 <= i < old(func).types@.len() && !edge_writable(*old(func), i) ==> (
                    #[trigger] func.types@[i])@ == old(func).types@[i]@,
                !changed ==> *func == *old(func) && edges_done(
                    *func,
                    a as int,
                    ti as int,
                ),
                edges_stable(*old(func)) ==> !changed,
            decreases ts@.len() - ti,
        {
            let tgt = ts[ti];
            proof {
                assert(goto_targets(old(func).blocks@[a as int].goto)[ti as int] == tgt);
            }
            let ghost chg0 = changed;
            let ghost mid = *func;
            match propagate_edge(func, a, tgt) {
                Ok(step_changed) => {
                    proof {
                        lemma_edge_pairs_congruence(
                            mid,
                            *old(func),
                            a as int,
                            tgt as int,
                            0,
                            0,
                            arena(mid),
                            false,
                        );
                        lemma_edge_pairs_or(
                            *old(func),
                            a as int,
                            tgt as int,
                            0,
                            0,
                            arena(mid),
                        );
                        assert(edges_from(
                            *old(func),
                            a as int,
                            ti as int + 1,
                            arena(*func),
                            chg0 || step_changed,
                        ) == spec_edges(*old(func)));
                        lemma_types_refined_trans(*old(func), mid, *func);
                        assert forall|i: int|
                            0 <= i < old(func).types@.len() && !edge_writable(
                                *old(func),
                                i,
                            ) implies (#[trigger] func.types@[i])@ == old(func).types@[i]@ by {
                            assert(!edge_writable_at(*old(func), a as int, tgt as int, i));
                        }
                        if step_changed {
                            let wi = choose|i: int|
                                0 <= i < mid.types@.len() && edge_writable_at(
                                    mid,
                                    a as int,
                                    tgt as int,
                                    i,
                                );
                            let (x, y) = choose|x: int, y: int|
                                0 <= x < mid.blocks@[a as int].vars@.len() && 0 <= y
                                    < mid.blocks@[tgt as int].vars@.len() && (
                                #[trigger] mid.blocks@[a as int].vars@[x]).0@ == (
                                #[trigger] mid.blocks@[tgt as int].vars@[y]).0@ && (mid.values@[mid.blocks@[a as int].vars@[x].1 as int].typ
                                    == wi || mid.values@[mid.blocks@[tgt as int].vars@[y].1 as int].typ
                                    == wi);
                            assert(old(func).blocks@[a as int].vars@[x] == mid.blocks@[
                                a as int].vars@[x]);
                            assert(old(func).blocks@[tgt as int].vars@[y] == mid.blocks@[
                                tgt as int].vars@[y]);
                            assert(edge_writable_at(*old(func), a as int, tgt as int, wi));
                            assert(goto_targets(old(func).blocks@[a as int].goto)[ti as int]
                                == tgt);
                            assert((ti as int) < goto_targets(
                                old(func).blocks@[a as int].goto,
                            ).len());
                            assert(edge_writable(*old(func), wi));
                        }
                    }
                    if step_changed {
                        changed = true;
                    }
                },
                Err(e) => {
                    proof {
                        lemma_edge_pairs_congruence(
                            mid,
                            *old(func),
                            a as int,
                            tgt as int,
                            0,
                            0,
                            arena(mid),
                            false,
                        );
                        lemma_edge_pairs_or(
                            *old(func),
                            a as int,
                            tgt as int,
                            0,
                            0,
                            arena(mid),
                        );
                        assert(spec_edges(*old(func)) == Err::<(Seq<SpecType>, bool), TypeError>(
                            e,
                        ));
                        lemma_types_refined_trans(*old(func), mid, *func);
                        assert(edge_has_shared_name(*old(func), a as int, tgt as int));
                        assert(has_shared_name_edge(*old(func)));
                    }
                    return Err(e);
                },
            }
            ti += 1;
        }
        proof {
            assert(edges_from(*old(func), a as int + 1, 0, arena(*func), changed)
                == spec_edges(*old(func)));
            if !changed {
                assert(edges_done(*func, a as int + 1, 0));
            }
        }
        a += 1;
    }
    Ok(changed)
}

} // verus!
