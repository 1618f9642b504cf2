//! The forward and backward sweeps: single passes over a function's blocks
//! that refine an operation's output type from its inputs (forward) or push
//! a refined output type back onto its inputs (backward), failing fast on
//! the first rule failure.

use vstd::prelude::*;
use vstd::pervasive::VecAdditionalExecFns;
use crate::err::{OpKind, TypeError};
use crate::ir::{
    Function, Operation, all_supported, all_tuples_fail_forward, all_tuples_malformed_backward,
    arena, backward_stable, bwd_done, bwd_writable, forward_stable, fwd_cont, fwd_done,
    bwd_cont, bwd_fields_from, bwd_tuple_apply, fwd_writable, has_tuple_op,
    lemma_bwd_fields_congruence,
    has_unsupported_of_kind, lemma_bwd_fields_or, lemma_tuple_ty_in, lemma_types_refined_self,
    lemma_types_refined_trans, no_tuple_before, no_tuple_from, op_inputs, op_supported, op_wf,
    spec_backward, spec_forward, sup_done, tuple_backward_stable, tuple_output_shaped, tuple_ty,
    tuple_ty_in, types_refined, val_ty, wf,
};
use crate::ty::{
    SpecType, Type, lemma_refines_self, lemma_unify_upper_bound, refines, spec_unify, superimpose,
    type_clone, type_eq,
};

verus! {

/// A copy of a list of value indices.
#[verifier::loop_isolation(false)]
fn copy_indices(v: &Vec<usize>) -> (r: Vec<usize>)
    ensures
        r@ == v@,
{
    let mut r: Vec<usize> = Vec::new();
    let mut i: usize = 0;
    while i < v.len()
        invariant
            i <= v@.len(),
            r@.len() == i,
            forall|k: int| 0 <= k < i ==> r@[k] == v@[k],
        decreases v@.len() - i,
    {
        r.push(v[i]);
        i += 1;
    }
    proof {
        assert(r@ =~= v@);
    }
    r
}

/// The consumed indices of a tuple construction, if the operation is one.
fn tuple_content(op: &Operation) -> (r: Option<Vec<usize>>)
    ensures
        op is Tuple ==> (r matches Some(c) && c@ == op->Tuple_0@),
        !(op is Tuple) ==> r is None,
{
    match op {
        Operation::Tuple(c) => Some(copy_indices(c)),
        _ => None,
    }
}

/// The executable anonymous record of the current types of `content`.
#[verifier::loop_isolation(false)]
fn tuple_operand(func: &Function, content: &Vec<usize>) -> (r: Type)
    requires
        wf(*func),
        forall|k: int| 0 <= k < content@.len() ==> content@[k] < func.values@.len(),
    ensures
        r@ == tuple_ty(*func, content@),
{
    let mut tup: Vec<Type> = Vec::new();
    let mut k: usize = 0;
    while k < content.len()
        invariant
            k <= content@.len(),
            tup@.len() == k,
            forall|i: int| 0 <= i < k ==> tup@[i]@ == val_ty(*func, content@[i] as int),
        decreases content@.len() - k,
    {
        let vi = content[k];
        let ix = func.values[vi].typ;
        tup.push(type_clone(&func.types[ix]));
        k += 1;
    }
    let r = Type::Record(None, tup);
    proof {
        assert(r@->Record_1 =~= tuple_ty(*func, content@)->Record_1);
    }
    r
}

/// The forward rule of a tuple construction: the output type is replaced
/// by its unification with the anonymous record of the inputs' current
/// types; reports whether the slot changed.
fn forward_tuple(func: &mut Function, pos: usize, content: &Vec<usize>) -> (r: Result<
    bool,
    TypeError,
>)
    requires
        wf(*old(func)),
        pos < old(func).values@.len(),
        forall|k: int| 0 <= k < content@.len() ==> content@[k] < old(func).values@.len(),
    ensures
        wf(*final(func)),
        final(func).blocks == old(func).blocks,
        final(func).values == old(func).values,
        final(func).type_params == old(func).type_params,
        final(func).types@.len() == old(func).types@.len(),
        r == Ok::<bool, TypeError>(false) ==> *final(func) == *old(func) && spec_unify(
            val_ty(*final(func), pos as int),
            tuple_ty(*final(func), content@),
        ) == Some(val_ty(*final(func), pos as int)),
        spec_unify(val_ty(*old(func), pos as int), tuple_ty(*old(func), content@)) == Some(
            val_ty(*old(func), pos as int),
        ) ==> r == Ok::<bool, TypeError>(false),
        spec_unify(val_ty(*old(func), pos as int), tuple_ty(*old(func), content@)) is None ==> r
            == Err::<bool, TypeError>(TypeError::Mismatch),
        spec_unify(val_ty(*old(func), pos as int), tuple_ty(*old(func), content@)) is Some ==> r
            is Ok,
        r == Ok::<bool, TypeError>(true) ==> spec_unify(
            val_ty(*old(func), pos as int),
            tuple_ty(*old(func), content@),
        ) is Some && val_ty(*final(func), pos as int) == spec_unify(
            val_ty(*old(func), pos as int),
            tuple_ty(*old(func), content@),
        )->0,
        types_refined(*old(func), *final(func)),
        forall|i: int|
            0 <= i < old(func).types@.len() && i != old(func).values@[pos as int].typ ==> (
            #[trigger] final(func).types@[i])@ == old(func).types@[i]@,
        r is Err ==> r->Err_0 == TypeError::Mismatch,
{
    let ix = func.values[pos].typ;
    let operand = tuple_operand(&*func, content);
    match superimpose(&func.types[ix], &operand) {
        Ok(u) => {
            if type_eq(&u, &func.types[ix]) {
                proof {
                    lemma_types_refined_self(*func);
                }
                Ok(false)
            } else {
                proof {
                    lemma_unify_upper_bound(func.types@[ix as int]@, operand@);
                }
                func.types.set(ix, u);
                proof {
                    assert forall|i: int|
                        0 <= i < old(func).types@.len() implies refines(
                        old(func).types@[i]@,
                        (#[trigger] func.types@[i])@,
                    ) by {
                        if i != ix as int {
                            lemma_refines_self(old(func).types@[i]@);
                        }
                    }
                }
                Ok(true)
            }
        },
        Err(e) => {
            proof {
                lemma_types_refined_self(*func);
            }
            Err(e)
        },
    }
}

/// One forward sweep: walks blocks in listed order and, within each block,
/// operations in listed order, applying each operation's forward rule.
/// Only tuple construction and return have rules; any other kind fails
/// with `UnsupportedOperation`. Returns whether any arena slot changed;
/// when it returns `Ok(false)`, every forward constraint already holds.
#[verifier::loop_isolation(false)]
#[verifier::rlimit(100)]
pub fn infer_forward(func: &mut Function) -> (r: Result<bool, TypeError>)
    requires
        wf(*old(func)),
    ensures
        wf(*final(func)),
        final(func).blocks == old(func).blocks,
        final(func).values == old(func).values,
        final(func).type_params == old(func).type_params,
        final(func).types@.len() == old(func).types@.len(),
        r is Ok ==> all_supported(*final(func)),
        r == Ok::<bool, TypeError>(false) ==> *final(func) == *old(func) && forward_stable(
            *final(func),
        ),
        all_supported(*old(func)) && forward_stable(*old(func)) ==> r == Ok::<
            bool,
            TypeError,
        >(false),
        types_refined(*old(func), *final(func)),
        forall|i: int|
            0 <= i < old(func).types@.len() && !fwd_writable(*old(func), i) ==> (
            #[trigger] final(func).types@[i])@ == old(func).types@[i]@,
        r matches Err(TypeError::UnsupportedOperation(k)) ==> has_unsupported_of_kind(
            *old(func),
            k,
        ),
        r == Err::<bool, TypeError>(TypeError::Mismatch) ==> has_tuple_op(*old(func)),
        all_supported(*old(func)) && has_tuple_op(*old(func)) && all_tuples_fail_forward(
            *old(func),
        ) ==> r == Err::<bool, TypeError>(TypeError::Mismatch),
        r == Ok::<bool, TypeError>(true) ==> exists|i: int|
            0 <= i < old(func).types@.len() && fwd_writable(*old(func), i),
        match spec_forward(*old(func)) {
            Ok((ts, c)) => r == Ok::<bool, TypeError>(c) && arena(*final(func)) == ts,
            Err(e) => r == Err::<bool, TypeError>(e),
        },
        r is Err ==> (r->Err_0 is Mismatch || r->Err_0 is UnsupportedOperation),
{
    proof {
        lemma_types_refined_self(*func);
        assert(fwd_cont(*old(func), 0, 0, arena(*func), false) == spec_forward(*old(func)));
    }
    let mut changed = false;
    let mut b: usize = 0;
    while b < func.blocks.len()
        invariant
            wf(*func),
            func.blocks == old(func).blocks,
            func.values == old(func).values,
            func.type_params == old(func).type_params,
            func.types@.len() == old(func).types@.len(),
            b <= func.blocks@.len(),
            sup_done(*func, b as int, 0),
            types_refined(*old(func), *func),
            forall|i: int|
                0 <= i < old(func).types@.len() && !fwd_writable(*old(func), i) ==> (
                #[trigger] func.types@[i])@ == old(func).types@[i]@,
            changed ==> exists|i: int|
                0 <= i < old(func).types@.len() && fwd_writable(*old(func), i),
            fwd_cont(*old(func), b as int, 0, arena(*func), changed) == spec_forward(
                *old(func),
            ),
            !changed ==> *func == *old(func) && fwd_done(*func, b as int, 0),
            all_supported(*old(func)) && forward_stable(*old(func)) ==> !changed,
            all_supported(*old(func)) && all_tuples_fail_forward(*old(func)) ==> (*func == *old(
                func,
            ) && no_tuple_before(*func, b as int, 0)),
        decreases func.blocks@.len() - b,
    {
        let nops = func.blocks[b].ops.len();
        let mut j: usize = 0;
        while j < nops
            invariant
                wf(*func),
                func.blocks == old(func).blocks,
                func.values == old(func).values,
                func.type_params == old(func).type_params,
                func.types@.len() == old(func).types@.len(),
                b < func.blocks@.len(),
                j <= nops,
                nops == func.blocks@[b as int].ops@.len(),
                sup_done(*func, b as int, j as int),
                types_refined(*old(func), *func),
                forall|i: int|
                    0 <= i < old(func).types@.len() && !fwd_writable(*old(func), i) ==> (
                    #[trigger] func.types@[i])@ == old(func).types@[i]@,
                changed ==> exists|i: int|
                    0 <= i < old(func).types@.len() && fwd_writable(*old(func), i),
                fwd_cont(*old(func), b as int, j as int, arena(*func), changed) == spec_forward(
                    *old(func),
                ),
                !changed ==> *func == *old(func) && fwd_done(*func, b as int, j as int),
                all_supported(*old(func)) && forward_stable(*old(func)) ==> !changed,
                all_supported(*old(func)) && all_tuples_fail_forward(*old(func)) ==> (*func
                    == *old(func) && no_tuple_before(*func, b as int, j as int)),
            decreases nops - j,
        {
            let pos = func.blocks[b].ops[j].0;
            proof {
                let opq = func.blocks@[b as int].ops@[j as int];
                assert(op_wf(opq.0, opq.1, func.values@.len()));
            }
            let tc = tuple_content(&func.blocks[b].ops[j].1);
            match tc {
                Some(content) => {
                    proof {
                        let opq = func.blocks@[b as int].ops@[j as int];
                        assert(op_inputs(opq.1) == content@);
                        assert(old(func).blocks@[b as int].ops@[j as int].1 is Tuple);
                        assert(fwd_writable(
                            *old(func),
                            old(func).values@[pos as int].typ as int,
                        ));
                        lemma_tuple_ty_in(*old(func), *func, content@);
                    }
                    let ghost chg0 = changed;
                    let ghost mid = *func;
                    match forward_tuple(func, pos, &content) {
                        Ok(step_changed) => {
                            proof {
                                lemma_types_refined_trans(*old(func), mid, *func);
                                assert forall|i: int|
                                    0 <= i < old(func).types@.len() && !fwd_writable(
                                        *old(func),
                                        i,
                                    ) implies (#[trigger] func.types@[i])@ == old(
                                    func,
                                ).types@[i]@ by {
                                    assert(i != mid.values@[pos as int].typ);
                                }
                                let ts0 = arena(mid);
                                let ix = mid.values@[pos as int].typ as int;
                                assert(ts0[ix] == val_ty(mid, pos as int));
                                assert(tuple_ty_in(*old(func), ts0, content@) == tuple_ty(
                                    mid,
                                    content@,
                                ));
                                let step = spec_unify(
                                    val_ty(mid, pos as int),
                                    tuple_ty(mid, content@),
                                );
                                if step_changed {
                                    assert(step is Some && step->0 != val_ty(mid, pos as int));
                                    assert(val_ty(*func, pos as int) == step->0);
                                    assert forall|i: int|
                                        0 <= i < ts0.len() implies arena(*func)[i]
                                        == ts0.update(ix, step->0)[i] by {
                                        if i != ix {
                                            assert(func.types@[i]@ == mid.types@[i]@);
                                        }
                                    }
                                    assert(arena(*func) =~= ts0.update(ix, step->0));
                                    assert(fwd_cont(
                                        *old(func),
                                        b as int,
                                        j as int + 1,
                                        arena(*func),
                                        true,
                                    ) == spec_forward(*old(func)));
                                } else {
                                    assert(*func == mid);
                                    assert(step == Some(val_ty(mid, pos as int)));
                                    assert(fwd_cont(
                                        *old(func),
                                        b as int,
                                        j as int + 1,
                                        arena(*func),
                                        chg0,
                                    ) == spec_forward(*old(func)));
                                }
                            }
                            if step_changed {
                                changed = true;
                            }
                        },
                        Err(e) => {
                            proof {
                                lemma_types_refined_trans(*old(func), mid, *func);
                                assert forall|i: int|
                                    0 <= i < old(func).types@.len() && !fwd_writable(
                                        *old(func),
                                        i,
                                    ) implies (#[trigger] func.types@[i])@ == old(
                                    func,
                                ).types@[i]@ by {
                                    assert(i != mid.values@[pos as int].typ);
                                }
                                let ts0 = arena(mid);
                                let ix = mid.values@[pos as int].typ as int;
                                assert(ts0[ix] == val_ty(mid, pos as int));
                                assert(tuple_ty_in(*old(func), ts0, content@) == tuple_ty(
                                    mid,
                                    content@,
                                ));
                                assert(spec_unify(
                                    val_ty(mid, pos as int),
                                    tuple_ty(mid, content@),
                                ) is None);
                                assert(spec_forward(*old(func)) == Err::<
                                    (Seq<SpecType>, bool),
                                    TypeError,
                                >(TypeError::Mismatch));
                            }
                            return Err(e);
                        },
                    }
                },
                None => {
                    let k = func.blocks[b].ops[j].1.kind();
                    if !(matches!(k, OpKind::Return)) {
                        proof {
                            assert(!op_supported(old(func).blocks@[b as int].ops@[j as int].1));
                            assert(old(func).blocks@[b as int].ops@[j as int].1.spec_kind()
                                == k);
                            assert(!(old(func).blocks@[b as int].ops@[j as int].1 is Return));
                            assert(spec_forward(*old(func)) == Err::<
                                (Seq<SpecType>, bool),
                                TypeError,
                            >(TypeError::UnsupportedOperation(k)));
                        }
                        return Err(TypeError::UnsupportedOperation(k));
                    }
                    proof {
                        assert(old(func).blocks@[b as int].ops@[j as int].1 is Return);
                        assert(fwd_cont(
                            *old(func),
                            b as int,
                            j as int + 1,
                            arena(*func),
                            changed,
                        ) == spec_forward(*old(func)));
                    }
                },
            }
            j += 1;
        }
        proof {
            assert(sup_done(*func, b as int, nops as int));
            assert(sup_done(*func, b as int + 1, 0));
            assert(fwd_cont(*old(func), b as int + 1, 0, arena(*func), changed)
                == spec_forward(*old(func)));
            if !changed {
                assert(fwd_done(*func, b as int + 1, 0));
            }
        }
        b += 1;
    }
    Ok(changed)
}

/// The backward rule of a tuple construction: the output's current type
/// must already be an anonymous record of the operation's arity — else the
/// constraint is malformed — and each of its fields is unified into the
/// corresponding input's current type; reports whether any slot changed.
#[verifier::loop_isolation(false)]
fn backward_tuple(func: &mut Function, pos: usize, content: &Vec<usize>) -> (r: Result<
    bool,
    TypeError,
>)
    requires
        wf(*old(func)),
        pos < old(func).values@.len(),
        forall|k: int| 0 <= k < content@.len() ==> content@[k] < old(func).values@.len(),
    ensures
        wf(*final(func)),
        final(func).blocks == old(func).blocks,
        final(func).values == old(func).values,
        final(func).type_params == old(func).type_params,
        final(func).types@.len() == old(func).types@.len(),
        r == Ok::<bool, TypeError>(false) ==> *final(func) == *old(func)
            && tuple_backward_stable(*final(func), pos, content@),
        tuple_backward_stable(*old(func), pos, content@) ==> r == Ok::<bool, TypeError>(false),
        !tuple_output_shaped(*old(func), pos, content@) ==> r == Err::<bool, TypeError>(
            TypeError::MalformedConstraint,
        ),
        r == Ok::<bool, TypeError>(true) ==> content@.len() > 0,
        match bwd_tuple_apply(*old(func), pos, content@) {
            Ok((ts, c)) => r == Ok::<bool, TypeError>(c) && arena(*final(func)) == ts,
            Err(e) => r == Err::<bool, TypeError>(e),
        },
        types_refined(*old(func), *final(func)),
        forall|i: int|
            0 <= i < old(func).types@.len() && !(exists|k: int|
                0 <= k < content@.len() && old(func).values@[#[trigger] content@[k] as int].typ
                    == i) ==> (#[trigger] final(func).types@[i])@ == old(func).types@[i]@,
        r is Err ==> (r->Err_0 is Mismatch || r->Err_0 is MalformedConstraint),
{
    proof {
        lemma_types_refined_self(*func);
        assert(arena(*func)[old(func).values@[pos as int].typ as int] == val_ty(
            *old(func),
            pos as int,
        ));
    }
    let ix = func.values[pos].typ;
    let cur = type_clone(&func.types[ix]);
    match cur {
        Type::Record(name, flds) => {
            match name {
                Some(_) => Err(TypeError::MalformedConstraint),
                None => {
                    if flds.len() != content.len() {
                        return Err(TypeError::MalformedConstraint);
                    }
                    let mut changed = false;
                    let mut i: usize = 0;
                    while i < content.len()
                        invariant
                            wf(*func),
                            func.blocks == old(func).blocks,
                            func.values == old(func).values,
                            func.type_params == old(func).type_params,
                            func.types@.len() == old(func).types@.len(),
                            i <= content@.len(),
                            flds@.len() == content@.len(),
                            forall|k: int|
                                0 <= k < flds@.len() ==> flds@[k]@ == val_ty(
                                    *old(func),
                                    pos as int,
                                )->Record_1[k],
                            !changed ==> *func == *old(func) && forall|k: int|
                                0 <= k < i ==> spec_unify(
                                    val_ty(*func, #[trigger] content@[k] as int),
                                    val_ty(*func, pos as int)->Record_1[k],
                                ) == Some(val_ty(*func, content@[k] as int)),
                            tuple_backward_stable(*old(func), pos, content@) ==> !changed,
                            changed ==> content@.len() > 0,
                            bwd_fields_from(
                                *old(func),
                                content@,
                                val_ty(*old(func), pos as int)->Record_1,
                                i as int,
                                arena(*func),
                                changed,
                            ) == bwd_tuple_apply(*old(func), pos, content@),
                            types_refined(*old(func), *func),
                            forall|t: int|
                                0 <= t < old(func).types@.len() && !(exists|k: int|
                                    0 <= k < content@.len() && old(func).values@[
                                        #[trigger] content@[k] as int
                                    ].typ == t) ==> (#[trigger] func.types@[t])@ == old(
                                    func,
                                ).types@[t]@,
                        decreases content@.len() - i,
                    {
                        let vi = content[i];
                        let ixi = func.values[vi].typ;
                        proof {
                            assert(arena(*func)[ixi as int] == func.types@[ixi as int]@);
                            assert(val_ty(*old(func), pos as int)->Record_1[i as int]
                                == flds@[i as int]@);
                        }
                        match superimpose(&func.types[ixi], &flds[i]) {
                            Ok(u) => {
                                if !type_eq(&u, &func.types[ixi]) {
                                    proof {
                                        lemma_unify_upper_bound(
                                            func.types@[ixi as int]@,
                                            flds@[i as int]@,
                                        );
                                    }
                                    let ghost mid = *func;
                                    func.types.set(ixi, u);
                                    proof {
                                        assert forall|t: int|
                                            0 <= t < mid.types@.len() implies refines(
                                            mid.types@[t]@,
                                            (#[trigger] func.types@[t])@,
                                        ) by {
                                            if t != ixi as int {
                                                lemma_refines_self(mid.types@[t]@);
                                            }
                                        }
                                        lemma_types_refined_trans(*old(func), mid, *func);
                                        assert(old(func).values@[content@[i as int] as int].typ
                                            == ixi);
                                        assert(arena(*func) =~= arena(mid).update(
                                            ixi as int,
                                            u@,
                                        ));
                                    }
                                    changed = true;
                                }
                            },
                            Err(e) => {
                                proof {
                                    assert(bwd_tuple_apply(*old(func), pos, content@)
                                        == Err::<(Seq<SpecType>, bool), TypeError>(
                                        TypeError::Mismatch,
                                    ));
                                }
                                return Err(e);
                            },
                        }
                        i += 1;
                    }
                    Ok(changed)
                },
            }
        },
        Type::Unknown(_) => Err(TypeError::MalformedConstraint),
    }
}

/// One backward sweep: walks blocks in listed order and, within each
/// block, operations in *reverse* listed order, applying each operation's
/// backward rule. Same dispatch and fail-fast contract as the forward
/// sweep. Returns whether any arena slot changed; when it returns
/// `Ok(false)`, every backward constraint already holds.
#[verifier::loop_isolation(false)]
#[verifier::rlimit(100)]
pub fn infer_backward(func: &mut Function) -> (r: Result<bool, TypeError>)
    requires
        wf(*old(func)),
    ensures
        wf(*final(func)),
        final(func).blocks == old(func).blocks,
        final(func).values == old(func).values,
        final(func).type_params == old(func).type_params,
        final(func).types@.len() == old(func).types@.len(),
        r is Ok ==> all_supported(*final(func)),
        r == Ok::<bool, TypeError>(false) ==> *final(func) == *old(func) && backward_stable(
            *final(func),
        ),
        all_supported(*old(func)) && backward_stable(*old(func)) ==> r == Ok::<
            bool,
            TypeError,
        >(false),
        types_refined(*old(func), *final(func)),
        forall|i: int|
            0 <= i < old(func).types@.len() && !bwd_writable(*old(func), i) ==> (
            #[trigger] final(func).types@[i])@ == old(func).types@[i]@,
        r matches Err(TypeError::UnsupportedOperation(k)) ==> has_unsupported_of_kind(
            *old(func),
            k,
        ),
        (r == Err::<bool, TypeError>(TypeError::Mismatch) || r == Err::<bool, TypeError>(
            TypeError::MalformedConstraint,
        )) ==> has_tuple_op(*old(func)),
        all_supported(*old(func)) && has_tuple_op(*old(func)) && all_tuples_malformed_backward(
            *old(func),
        ) ==> r == Err::<bool, TypeError>(TypeError::MalformedConstraint),
        r == Ok::<bool, TypeError>(true) ==> exists|i: int|
            0 <= i < old(func).types@.len() && bwd_writable(*old(func), i),
        match spec_backward(*old(func)) {
            Ok((ts, c)) => r == Ok::<bool, TypeError>(c) && arena(*final(func)) == ts,
            Err(e) => r == Err::<bool, TypeError>(e),
        },
        r is Err ==> (r->Err_0 is Mismatch || r->Err_0 is MalformedConstraint
            || r->Err_0 is UnsupportedOperation),
{
    proof {
        lemma_types_refined_self(*func);
        assert(fwd_cont(*old(func), 0, 0, arena(*func), false) == spec_forward(*old(func)));
    }
    let mut changed = false;
    let mut b: usize = 0;
    while b < func.blocks.len()
        invariant
            wf(*func),
            func.blocks == old(func).blocks,
            func.values == old(func).values,
            func.type_params == old(func).type_params,
            func.types@.len() == old(func).types@.len(),
            b <= func.blocks@.len(),
            sup_done(*func, b as int, 0),
            types_refined(*old(func), *func),
            forall|i: int|
                0 <= i < old(func).types@.len() && !bwd_writable(*old(func), i) ==> (
                #[trigger] func.types@[i])@ == old(func).types@[i]@,
            changed ==> exists|i: int|
                0 <= i < old(func).types@.len() && bwd_writable(*old(func), i),
            bwd_cont(
                *old(func),
                b as int,
                func.blocks@[b as int].ops@.len() as int,
                arena(*func),
                changed,
            ) == spec_backward(*old(func)),
            !changed ==> *func == *old(func) && bwd_done(
                *func,
                b as int,
                func.blocks@[b as int].ops@.len() as int,
            ),
            all_supported(*old(func)) && backward_stable(*old(func)) ==> !changed,
            all_supported(*old(func)) && all_tuples_malformed_backward(*old(func)) ==> (*func
                == *old(func) && no_tuple_from(
                *func,
                b as int,
                func.blocks@[b as int].ops@.len() as int,
            )),
        decreases func.blocks@.len() - b,
    {
        let nops = func.blocks[b].ops.len();
        let mut j: usize = nops;
        while j > 0
            invariant
                wf(*func),
                func.blocks == old(func).blocks,
                func.values == old(func).values,
                func.type_params == old(func).type_params,
                func.types@.len() == old(func).types@.len(),
                b < func.blocks@.len(),
                j <= nops,
                nops == func.blocks@[b as int].ops@.len(),
                sup_done(*func, b as int, 0),
                forall|q: int|
                    j <= q < nops ==> op_supported(
                        (#[trigger] func.blocks@[b as int].ops@[q]).1,
                    ),
                types_refined(*old(func), *func),
                forall|i: int|
                    0 <= i < old(func).types@.len() && !bwd_writable(*old(func), i) ==> (
                    #[trigger] func.types@[i])@ == old(func).types@[i]@,
                changed ==> exists|i: int|
                    0 <= i < old(func).types@.len() && bwd_writable(*old(func), i),
                bwd_cont(*old(func), b as int, j as int, arena(*func), changed)
                    == spec_backward(*old(func)),
                !changed ==> *func == *old(func) && bwd_done(*func, b as int, j as int),
                all_supported(*old(func)) && backward_stable(*old(func)) ==> !changed,
                all_supported(*old(func)) && all_tuples_malformed_backward(*old(func)) ==> (
                *func == *old(func) && no_tuple_from(*func, b as int, j as int)),
            decreases j,
        {
            j -= 1;
            let pos = func.blocks[b].ops[j].0;
            proof {
                let opq = func.blocks@[b as int].ops@[j as int];
                assert(op_wf(opq.0, opq.1, func.values@.len()));
            }
            let tc = tuple_content(&func.blocks[b].ops[j].1);
            match tc {
                Some(content) => {
                    proof {
                        let opq = func.blocks@[b as int].ops@[j as int];
                        assert(op_inputs(opq.1) == content@);
                        assert(old(func).blocks@[b as int].ops@[j as int].1 is Tuple);
                    }
                    let ghost chg0 = changed;
                    let ghost mid = *func;
                    match backward_tuple(func, pos, &content) {
                        Ok(step_changed) => {
                            proof {
                                let ts0 = arena(mid);
                                let out = ts0[mid.values@[pos as int].typ as int];
                                assert(out is Record && out->Record_0 is None
                                    && out->Record_1.len() == content@.len());
                                lemma_bwd_fields_congruence(
                                    mid,
                                    *old(func),
                                    content@,
                                    out->Record_1,
                                    0,
                                    ts0,
                                    false,
                                );
                                lemma_bwd_fields_or(
                                    *old(func),
                                    content@,
                                    out->Record_1,
                                    0,
                                    ts0,
                                );
                                assert(bwd_cont(
                                    *old(func),
                                    b as int,
                                    j as int,
                                    arena(*func),
                                    chg0 || step_changed,
                                ) == spec_backward(*old(func)));
                                lemma_types_refined_trans(*old(func), mid, *func);
                                assert forall|i: int|
                                    0 <= i < old(func).types@.len() && !bwd_writable(
                                        *old(func),
                                        i,
                                    ) implies (#[trigger] func.types@[i])@ == old(
                                    func,
                                ).types@[i]@ by {
                                    assert forall|k: int|
                                        0 <= k < content@.len() implies mid.values@[
                                        #[trigger] content@[k] as int].typ != i by {
                                        assert(op_inputs(
                                            old(func).blocks@[b as int].ops@[j as int].1,
                                        )[k] == content@[k]);
                                    }
                                }
                            }
                            if step_changed {
                                proof {
                                    let k = 0int;
                                    assert(op_inputs(
                                        old(func).blocks@[b as int].ops@[j as int].1,
                                    )[k] == content@[k]);
                                    assert(bwd_writable(
                                        *old(func),
                                        old(func).values@[content@[0] as int].typ as int,
                                    ));
                                }
                                changed = true;
                            }
                        },
                        Err(e) => {
                            proof {
                                let ts0 = arena(mid);
                                let out = ts0[mid.values@[pos as int].typ as int];
                                if out is Record && out->Record_0 is None
                                    && out->Record_1.len() == content@.len() {
                                    lemma_bwd_fields_congruence(
                                        mid,
                                        *old(func),
                                        content@,
                                        out->Record_1,
                                        0,
                                        ts0,
                                        false,
                                    );
                                    lemma_bwd_fields_or(
                                        *old(func),
                                        content@,
                                        out->Record_1,
                                        0,
                                        ts0,
                                    );
                                }
                                assert(spec_backward(*old(func)) == Err::<
                                    (Seq<SpecType>, bool),
                                    TypeError,
                                >(e));
                                lemma_types_refined_trans(*old(func), mid, *func);
                                assert forall|i: int|
                                    0 <= i < old(func).types@.len() && !bwd_writable(
                                        *old(func),
                                        i,
                                    ) implies (#[trigger] func.types@[i])@ == old(
                                    func,
                                ).types@[i]@ by {
                                    assert forall|k: int|
                                        0 <= k < content@.len() implies mid.values@[
                                        #[trigger] content@[k] as int].typ != i by {
                                        assert(op_inputs(
                                            old(func).blocks@[b as int].ops@[j as int].1,
                                        )[k] == content@[k]);
                                    }
                                }
                            }
                            return Err(e);
                        },
                    }
                },
                None => {
                    let k = func.blocks[b].ops[j].1.kind();
                    if !(matches!(k, OpKind::Return)) {
                        proof {
                            assert(!op_supported(old(func).blocks@[b as int].ops@[j as int].1));
                            assert(old(func).blocks@[b as int].ops@[j as int].1.spec_kind()
                                == k);
                            assert(!(old(func).blocks@[b as int].ops@[j as int].1 is Return));
                            assert(spec_backward(*old(func)) == Err::<
                                (Seq<SpecType>, bool),
                                TypeError,
                            >(TypeError::UnsupportedOperation(k)));
                        }
                        return Err(TypeError::UnsupportedOperation(k));
                    }
                    proof {
                        assert(old(func).blocks@[b as int].ops@[j as int].1 is Return);
                        assert(bwd_cont(*old(func), b as int, j as int, arena(*func), changed)
                            == spec_backward(*old(func)));
                    }
                },
            }
        }
        proof {
            assert(bwd_cont(
                *old(func),
                b as int + 1,
                func.blocks@[b as int + 1].ops@.len() as int,
                arena(*func),
                changed,
            ) == spec_backward(*old(func)));
            assert(sup_done(*func, b as int + 1, 0));
            if !changed {
                assert(bwd_done(*func, b as int, 0));
                assert(bwd_done(
                    *func,
                    b as int + 1,
                    func.blocks@[b as int + 1].ops@.len() as int,
                ));
            }
            if all_supported(*old(func)) && all_tuples_malformed_backward(*old(func)) {
                assert(no_tuple_from(*func, b as int, 0));
                assert(no_tuple_from(
                    *func,
                    b as int + 1,
                    func.blocks@[b as int + 1].ops@.len() as int,
                ));
            }
        }
        b += 1;
    }
    proof {
        if !changed {
            assert(backward_stable(*func));
        }
    }
    Ok(changed)
}

} // verus!
