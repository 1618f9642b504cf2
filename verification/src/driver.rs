//! The driver: iterates forward sweeps, edge propagation and backward
//! sweeps over the whole block graph until nothing changes any more — a
//! combined fixpoint — or an error surfaces. The iteration count is
//! bounded by a multiple of the block count, so a graph with no fixpoint
//! is reported as `NonConvergence` rather than looped on forever.

use vstd::prelude::*;
use crate::err::{OpKind, TypeError};
use crate::fixpoint::propagate_edges;
use crate::ir::{
    Function, all_supported, all_tuples_fail_forward, arena, bwd_writable, edge_writable,
    fwd_writable, has_shared_name_edge, has_tuple_op, has_unsupported_of_kind,
    lemma_bwd_blocks_congruence, lemma_edges_congruence, lemma_fwd_blocks_congruence,
    lemma_op_witness_congruence, lemma_types_refined_self, lemma_types_refined_trans,
    lemma_unconstrained_is_stable, lemma_writable_congruence, lemma_writable_implies_witness,
    round_apply, same_shape, spec_fuel, spec_infer, spec_infer_loop, stable, types_refined, wf,
};
use crate::ty::SpecType;
use crate::passes::{infer_backward, infer_forward};

verus! {

/// Run type inference over one function and return it with its type arena
/// refined to a fixpoint, or the first error met.
///
/// On success the result is stable: no forward rule, no backward rule and
/// no edge propagation would change any type any more. Conversely a
/// function that is already stable is returned unchanged — running the
/// driver on its own successful output changes nothing.
#[verifier::loop_isolation(false)]
pub fn infer(func: Function) -> (r: Result<Function, TypeError>)
    requires
        wf(func),
    ensures
        r matches Ok(g) ==> wf(g) && same_shape(func, g) && stable(g) && types_refined(func, g),
        stable(func) ==> (r matches Ok(g) && g == func),
        r matches Ok(g) ==> forall|i: int|
            0 <= i < func.types@.len() && !fwd_writable(func, i) && !bwd_writable(func, i)
                && !edge_writable(func, i) ==> (#[trigger] g.types@[i])@ == func.types@[i]@,
        r matches Err(TypeError::UnsupportedOperation(k)) ==> has_unsupported_of_kind(func, k),
        r == Err::<Function, TypeError>(TypeError::Mismatch) ==> has_tuple_op(func)
            || has_shared_name_edge(func),
        r == Err::<Function, TypeError>(TypeError::MalformedConstraint) ==> has_tuple_op(func),
        all_supported(func) && has_tuple_op(func) && all_tuples_fail_forward(func) ==> r
            == Err::<Function, TypeError>(TypeError::Mismatch),
        all_supported(func) && !has_tuple_op(func) && !has_shared_name_edge(func) ==> (r matches
            Ok(g) && g == func),
        r == Err::<Function, TypeError>(TypeError::NonConvergence) ==> has_tuple_op(func)
            || has_shared_name_edge(func),
        match spec_infer(func) {
            Ok(ts) => r matches Ok(g) && arena(g) == ts,
            Err(e) => r == Err::<Function, TypeError>(e),
        },
{
    let mut f = func;
    proof {
        lemma_types_refined_self(f);
        if all_supported(func) && !has_tuple_op(func) && !has_shared_name_edge(func) {
            lemma_unconstrained_is_stable(func);
        }
    }
    let mut fuel: usize = match f.blocks.len().checked_mul(4) {
        Some(m) => m.saturating_add(4),
        None => usize::MAX,
    };
    let ghost fuel0 = fuel;
    proof {
        assert(fuel as nat == spec_fuel(func));
    }
    while fuel > 0
        invariant
            wf(f),
            f.blocks == func.blocks,
            f.values == func.values,
            f.type_params == func.type_params,
            f.types@.len() == func.types@.len(),
            types_refined(func, f),
            forall|i: int|
                0 <= i < func.types@.len() && !fwd_writable(func, i) && !bwd_writable(func, i)
                    && !edge_writable(func, i) ==> (#[trigger] f.types@[i])@ == func.types@[i]@,
            stable(func) ==> (f == func && fuel >= 1),
            all_supported(func) && has_tuple_op(func) && all_tuples_fail_forward(func) ==> (f
                == func && fuel >= 1),
            fuel <= fuel0,
            fuel0 >= 1,
            fuel < fuel0 ==> has_tuple_op(func) || has_shared_name_edge(func),
            spec_infer_loop(func, arena(f), fuel as nat) == spec_infer(func),
        decreases fuel,
    {
        let ghost before_forward = f;
        let forward_changed = match infer_forward(&mut f) {
            Ok(c) => c,
            Err(e) => {
                proof {
                    lemma_fwd_blocks_congruence(before_forward, func, 0, arena(before_forward), false);
                    assert(spec_infer(func) == Err::<Seq<SpecType>, TypeError>(e));
                    match e {
                        TypeError::UnsupportedOperation(k) => lemma_op_witness_congruence(
                            before_forward,
                            func,
                            k,
                        ),
                        _ => lemma_op_witness_congruence(before_forward, func, OpKind::Return),
                    }
                }
                return Err(e);
            },
        };
        proof {
            lemma_fwd_blocks_congruence(before_forward, func, 0, arena(before_forward), false);
            lemma_types_refined_trans(func, before_forward, f);
            assert forall|i: int|
                0 <= i < func.types@.len() && !fwd_writable(func, i) && !bwd_writable(func, i)
                    && !edge_writable(func, i) implies (#[trigger] f.types@[i])@
                == func.types@[i]@ by {
                lemma_writable_congruence(before_forward, func, i);
            }
        }
        let ghost before_edges = f;
        let edges_changed = match propagate_edges(&mut f) {
            Ok(c) => c,
            Err(e) => {
                proof {
                    lemma_edges_congruence(before_edges, func, 0, 0, arena(before_edges), false);
                    assert(spec_infer(func) == Err::<Seq<SpecType>, TypeError>(e));
                    lemma_op_witness_congruence(before_edges, func, OpKind::Return);
                }
                return Err(e);
            },
        };
        proof {
            lemma_edges_congruence(before_edges, func, 0, 0, arena(before_edges), false);
            lemma_types_refined_trans(func, before_edges, f);
            assert forall|i: int|
                0 <= i < func.types@.len() && !fwd_writable(func, i) && !bwd_writable(func, i)
                    && !edge_writable(func, i) implies (#[trigger] f.types@[i])@
                == func.types@[i]@ by {
                lemma_writable_congruence(before_edges, func, i);
            }
        }
        let ghost before_backward = f;
        let backward_changed = match infer_backward(&mut f) {
            Ok(c) => c,
            Err(e) => {
                proof {
                    lemma_bwd_blocks_congruence(before_backward, func, 0, arena(before_backward), false);
                    assert(spec_infer(func) == Err::<Seq<SpecType>, TypeError>(e));
                    match e {
                        TypeError::UnsupportedOperation(k) => lemma_op_witness_congruence(
                            before_backward,
                            func,
                            k,
                        ),
                        _ => lemma_op_witness_congruence(before_backward, func, OpKind::Return),
                    }
                }
                return Err(e);
            },
        };
        proof {
            lemma_bwd_blocks_congruence(before_backward, func, 0, arena(before_backward), false);
            lemma_types_refined_trans(func, before_backward, f);
            assert forall|i: int|
                0 <= i < func.types@.len() && !fwd_writable(func, i) && !bwd_writable(func, i)
                    && !edge_writable(func, i) implies (#[trigger] f.types@[i])@
                == func.types@[i]@ by {
                lemma_writable_congruence(before_backward, func, i);
            }
        }
        proof {
            assert(round_apply(func, arena(before_forward)) == Ok::<
                (Seq<SpecType>, bool),
                TypeError,
            >((arena(f), forward_changed || edges_changed || backward_changed)));
        }
        if !forward_changed && !edges_changed && !backward_changed {
            proof {
                assert(spec_infer(func) == Ok::<Seq<SpecType>, TypeError>(arena(f)));
            }
            return Ok(f);
        }
        proof {
            if forward_changed {
                let wi = choose|i: int|
                    0 <= i < before_forward.types@.len() && fwd_writable(before_forward, i);
                lemma_writable_congruence(before_forward, func, wi);
                lemma_writable_implies_witness(func, wi);
            }
            if edges_changed {
                let wi = choose|i: int|
                    0 <= i < before_edges.types@.len() && edge_writable(before_edges, i);
                lemma_writable_congruence(before_edges, func, wi);
                lemma_writable_implies_witness(func, wi);
            }
            if backward_changed {
                let wi = choose|i: int|
                    0 <= i < before_backward.types@.len() && bwd_writable(before_backward, i);
                lemma_writable_congruence(before_backward, func, wi);
                lemma_writable_implies_witness(func, wi);
            }
        }
        fuel -= 1;
    }
    Err(TypeError::NonConvergence)
}

} // verus!
