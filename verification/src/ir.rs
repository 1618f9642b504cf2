//! The intermediate representation that inference runs over: values, the
//! type arena, operations, basic blocks and whole functions, together with
//! the well-formedness and stability predicates that the passes maintain.

use vstd::prelude::*;
use crate::ty::{SpecType, Type, lemma_refines_self, lemma_refines_trans, refines, spec_unify};
use crate::err::{OpKind, TypeError};

verus! {

/// Opaque dataflow-fact placeholder carried by every value; not consulted
/// by inference.
#[derive(Clone, Debug, PartialEq)]
pub struct ValueKnowledge;

/// Opaque source-position placeholder carried by every value; not
/// consulted by inference.
#[derive(Clone, Debug, PartialEq)]
pub struct CodeReference;

/// A value produced by exactly one operation. It holds an index into the
/// type arena — not an inline type, so several values can share one slot
/// and observe the same refinement — plus opaque provenance.
#[derive(Clone, Debug, PartialEq)]
pub struct Value {
    pub typ: usize,
    pub value: ValueKnowledge,
    pub pos: CodeReference,
}

/// An operation of a basic block; the numbers are indices of the values it
/// consumes.
#[derive(Clone, Debug, PartialEq)]
pub enum Operation {
    Variable(String),
    MethodCall(String, Vec<usize>),
    Call(String, Vec<usize>),
    Tuple(Vec<usize>),
    Ref(usize),
    Unpack(usize),
    Write(usize),
    Read(usize, String),
    Return(usize),
}

impl Operation {
    /// The kind of this operation.
    pub open spec fn spec_kind(&self) -> OpKind {
        match self {
            Operation::Variable(_) => OpKind::Variable,
            Operation::MethodCall(_, _) => OpKind::MethodCall,
            Operation::Call(_, _) => OpKind::Call,
            Operation::Tuple(_) => OpKind::Tuple,
            Operation::Ref(_) => OpKind::Ref,
            Operation::Unpack(_) => OpKind::Unpack,
            Operation::Write(_) => OpKind::Write,
            Operation::Read(_, _) => OpKind::Read,
            Operation::Return(_) => OpKind::Return,
        }
    }

    /// The kind of this operation, for error reports.
    pub fn kind(&self) -> (k: OpKind)
        ensures
            k == self.spec_kind(),
    {
        match self {
            Operation::Variable(_) => OpKind::Variable,
            Operation::MethodCall(_, _) => OpKind::MethodCall,
            Operation::Call(_, _) => OpKind::Call,
            Operation::Tuple(_) => OpKind::Tuple,
            Operation::Ref(_) => OpKind::Ref,
            Operation::Unpack(_) => OpKind::Unpack,
            Operation::Write(_) => OpKind::Write,
            Operation::Read(_, _) => OpKind::Read,
            Operation::Return(_) => OpKind::Return,
        }
    }
}

/// The value indices an operation consumes.
pub open spec fn op_inputs(op: Operation) -> Seq<usize> {
    match op {
        Operation::Variable(_) => Seq::empty(),
        Operation::MethodCall(_, args) => args@,
        Operation::Call(_, args) => args@,
        Operation::Tuple(content) => content@,
        Operation::Ref(v) => seq![v],
        Operation::Unpack(v) => seq![v],
        Operation::Write(v) => seq![v],
        Operation::Read(v, _) => seq![v],
        Operation::Return(v) => seq![v],
    }
}

/// A block's exit transfer: a two-way branch on a discriminator value, an
/// unconditional jump, or a dead end with no successor.
#[derive(Clone, Debug, PartialEq)]
pub enum Goto {
    Branch(usize, usize, usize),
    Goto(usize),
    DeadEnd,
}

/// The successor blocks a terminator can transfer to.
pub open spec fn goto_targets(g: Goto) -> Seq<usize> {
    match g {
        Goto::Branch(_, t1, t2) => seq![t1, t2],
        Goto::Goto(t) => seq![t],
        Goto::DeadEnd => Seq::empty(),
    }
}

/// The successor blocks of a terminator, as a fresh list.
pub fn targets_of(g: &Goto) -> (r: Vec<usize>)
    ensures
        r@ == goto_targets(*g),
{
    let mut r: Vec<usize> = Vec::new();
    match g {
        Goto::Branch(_, t1, t2) => {
            r.push(*t1);
            r.push(*t2);
        },
        Goto::Goto(t) => {
            r.push(*t);
        },
        Goto::DeadEnd => {},
    }
    proof {
        assert(r@ =~= goto_targets(*g));
    }
    r
}

/// A basic block: a mapping from in-scope variable names to value indices,
/// an ordered list of (produced-value-index, operation) pairs, and a
/// terminator.
#[derive(Clone, Debug, PartialEq)]
pub struct BBlock {
    pub vars: Vec<(String, usize)>,
    pub ops: Vec<(usize, Operation)>,
    pub goto: Goto,
}

/// A function body: its basic blocks (block 0 is entry), its value table,
/// its type arena, and its named type parameters (opaque to inference).
#[derive(Debug, PartialEq)]
pub struct Function {
    pub blocks: Vec<BBlock>,
    pub values: Vec<Value>,
    pub types: Vec<Type>,
    pub type_params: Vec<String>,
}

/// Every index of an operation stays inside the value table. The
/// produced-value position is only meaningful — and only required in
/// range — for an operation whose rule produces a value (here: tuple
/// construction).
pub open spec fn op_wf(pos: usize, op: Operation, n_values: nat) -> bool {
    &&& (op is Tuple ==> pos < n_values)
    &&& forall|k: int| 0 <= k < op_inputs(op).len() ==> op_inputs(op)[k] < n_values
}

/// Every target of a terminator stays inside the block list.
pub open spec fn goto_wf(g: Goto, n_blocks: nat) -> bool {
    forall|t: int| 0 <= t < goto_targets(g).len() ==> goto_targets(g)[t] < n_blocks
}

/// A block's operations, bindings and terminator all stay in range, and
/// its bindings are a mapping: no variable name is bound twice.
pub open spec fn block_wf(blk: BBlock, n_values: nat, n_blocks: nat) -> bool {
    &&& forall|j: int| 0 <= j < blk.ops@.len() ==> op_wf(
        (#[trigger] blk.ops@[j]).0,
        blk.ops@[j].1,
        n_values,
    )
    &&& forall|k: int| 0 <= k < blk.vars@.len() ==> (#[trigger] blk.vars@[k]).1 < n_values
    &&& forall|k1: int, k2: int|
        0 <= k1 < k2 < blk.vars@.len() ==> (#[trigger] blk.vars@[k1]).0@ != (
        #[trigger] blk.vars@[k2]).0@
    &&& goto_wf(blk.goto, n_blocks)
}

/// Well-formedness of a function: every value points into the type arena
/// and every block is in range.
pub open spec fn wf(f: Function) -> bool {
    &&& forall|v: int| 0 <= v < f.values@.len() ==> (#[trigger] f.values@[v]).typ
        < f.types@.len()
    &&& forall|b: int| 0 <= b < f.blocks@.len() ==> block_wf(
        #[trigger] f.blocks@[b],
        f.values@.len(),
        f.blocks@.len(),
    )
}

/// Append every element of `src` to `dst`.
#[verifier::loop_isolation(false)]
fn push_all(dst: &mut Vec<usize>, src: &Vec<usize>)
    ensures
        final(dst)@ == old(dst)@ + src@,
{
    let mut i: usize = 0;
    while i < src.len()
        invariant
            i <= src@.len(),
            dst@ == old(dst)@ + src@.take(i as int),
        decreases src@.len() - i,
    {
        dst.push(src[i]);
        proof {
            assert(old(dst)@ + src@.take(i as int) + seq![src@[i as int]] =~= old(dst)@
                + src@.take(i as int + 1));
        }
        i += 1;
    }
    proof {
        assert(src@.take(src@.len() as int) =~= src@);
    }
}

/// The value indices an operation consumes, as a fresh list.
pub fn inputs_of(op: &Operation) -> (r: Vec<usize>)
    ensures
        r@ == op_inputs(*op),
{
    let mut r: Vec<usize> = Vec::new();
    match op {
        Operation::Variable(_) => {},
        Operation::MethodCall(_, args) => push_all(&mut r, args),
        Operation::Call(_, args) => push_all(&mut r, args),
        Operation::Tuple(content) => push_all(&mut r, content),
        Operation::Ref(v) => r.push(*v),
        Operation::Unpack(v) => r.push(*v),
        Operation::Write(v) => r.push(*v),
        Operation::Read(v, _) => r.push(*v),
        Operation::Return(v) => r.push(*v),
    }
    proof {
        assert(r@ =~= op_inputs(*op));
    }
    r
}

/// Whether one block is in range: the executable counterpart of
/// `block_wf`.
#[verifier::loop_isolation(false)]
fn check_block_wf(blk: &BBlock, n_values: usize, n_blocks: usize) -> (r: bool)
    ensures
        r == block_wf(*blk, n_values as nat, n_blocks as nat),
{
    let mut j: usize = 0;
    while j < blk.ops.len()
        invariant
            j <= blk.ops@.len(),
            forall|q: int|
                0 <= q < j ==> op_wf((#[trigger] blk.ops@[q]).0, blk.ops@[q].1, n_values as nat),
        decreases blk.ops@.len() - j,
    {
        let is_tuple = matches!(&blk.ops[j].1, Operation::Tuple(_));
        if is_tuple && blk.ops[j].0 >= n_values {
            return false;
        }
        let ins = inputs_of(&blk.ops[j].1);
        let mut k: usize = 0;
        while k < ins.len()
            invariant
                k <= ins@.len(),
                j < blk.ops@.len(),
                ins@ == op_inputs(blk.ops@[j as int].1),
                forall|t: int| 0 <= t < k ==> ins@[t] < n_values,
            decreases ins@.len() - k,
        {
            if ins[k] >= n_values {
                return false;
            }
            k += 1;
        }
        j += 1;
    }
    let mut x: usize = 0;
    while x < blk.vars.len()
        invariant
            x <= blk.vars@.len(),
            forall|q: int|
                0 <= q < blk.ops@.len() ==> op_wf(
                    (#[trigger] blk.ops@[q]).0,
                    blk.ops@[q].1,
                    n_values as nat,
                ),
            forall|q: int| 0 <= q < x ==> (#[trigger] blk.vars@[q]).1 < n_values,
        decreases blk.vars@.len() - x,
    {
        if blk.vars[x].1 >= n_values {
            return false;
        }
        x += 1;
    }
    let mut u: usize = 0;
    while u < blk.vars.len()
        invariant
            u <= blk.vars@.len(),
            forall|q: int|
                0 <= q < blk.ops@.len() ==> op_wf(
                    (#[trigger] blk.ops@[q]).0,
                    blk.ops@[q].1,
                    n_values as nat,
                ),
            forall|q: int| 0 <= q < blk.vars@.len() ==> (#[trigger] blk.vars@[q]).1 < n_values,
            forall|k1: int, k2: int|
                0 <= k1 < u && k1 < k2 < blk.vars@.len() ==> (#[trigger] blk.vars@[k1]).0@ != (
                #[trigger] blk.vars@[k2]).0@,
        decreases blk.vars@.len() - u,
    {
        let mut w: usize = u + 1;
        while w < blk.vars.len()
            invariant
                u < w <= blk.vars@.len(),
                u < blk.vars@.len(),
                forall|k2: int|
                    u < k2 < w ==> (#[trigger] blk.vars@[k2]).0@ != blk.vars@[u as int].0@,
            decreases blk.vars@.len() - w,
        {
            if blk.vars[u].0 == blk.vars[w].0 {
                return false;
            }
            w += 1;
        }
        u += 1;
    }
    let ts = targets_of(&blk.goto);
    let mut t: usize = 0;
    while t < ts.len()
        invariant
            t <= ts@.len(),
            ts@ == goto_targets(blk.goto),
            forall|q: int|
                0 <= q < blk.ops@.len() ==> op_wf(
                    (#[trigger] blk.ops@[q]).0,
                    blk.ops@[q].1,
                    n_values as nat,
                ),
            forall|q: int| 0 <= q < blk.vars@.len() ==> (#[trigger] blk.vars@[q]).1 < n_values,
            forall|k1: int, k2: int|
                0 <= k1 < k2 < blk.vars@.len() ==> (#[trigger] blk.vars@[k1]).0@ != (
                #[trigger] blk.vars@[k2]).0@,
            forall|q: int| 0 <= q < t ==> goto_targets(blk.goto)[q] < n_blocks,
        decreases ts@.len() - t,
    {
        if ts[t] >= n_blocks {
            return false;
        }
        t += 1;
    }
    true
}

/// Whether a function is well-formed: the executable counterpart of `wf`,
/// for a caller that receives a function from an unchecked source and must
/// establish the passes' precondition before calling them.
#[verifier::loop_isolation(false)]
pub fn check_wf(func: &Function) -> (r: bool)
    ensures
        r == wf(*func),
{
    let mut v: usize = 0;
    while v < func.values.len()
        invariant
            v <= func.values@.len(),
            forall|k: int| 0 <= k < v ==> (#[trigger] func.values@[k]).typ < func.types@.len(),
        decreases func.values@.len() - v,
    {
        if func.values[v].typ >= func.types.len() {
            return false;
        }
        v += 1;
    }
    let mut b: usize = 0;
    while b < func.blocks.len()
        invariant
            b <= func.blocks@.len(),
            forall|k: int|
                0 <= k < func.values@.len() ==> (#[trigger] func.values@[k]).typ
                    < func.types@.len(),
            forall|p: int|
                0 <= p < b ==> block_wf(
                    #[trigger] func.blocks@[p],
                    func.values@.len(),
                    func.blocks@.len(),
                ),
        decreases func.blocks@.len() - b,
    {
        if !check_block_wf(&func.blocks[b], func.values.len(), func.blocks.len()) {
            return false;
        }
        b += 1;
    }
    true
}

/// The current type of value `v`: the content of its arena slot.
pub open spec fn val_ty(f: Function, v: int) -> SpecType {
    f.types@[f.values@[v].typ as int]@
}

/// The anonymous record made of the current types of the given values.
pub open spec fn tuple_ty(f: Function, content: Seq<usize>) -> SpecType {
    SpecType::Record(
        None,
        Seq::new(
            content.len(),
            |i: int|
                if 0 <= i < content.len() {
                    val_ty(f, content[i] as int)
                } else {
                    SpecType::Unknown(0)
                },
        ),
    )
}

/// The operation kinds with a defined constraint rule.
pub open spec fn op_supported(op: Operation) -> bool {
    op is Tuple || op is Return
}

/// All operations of blocks before `b`, and of block `b` before `j`, have
/// a defined rule.
pub open spec fn sup_done(f: Function, b: int, j: int) -> bool {
    forall|p: int, q: int|
        0 <= p < f.blocks@.len() && 0 <= q < f.blocks@[p].ops@.len() && (p < b || (p == b && q
            < j)) ==> op_supported((#[trigger] f.blocks@[p].ops@[q]).1)
}

/// Every operation has a defined rule.
pub open spec fn all_supported(f: Function) -> bool {
    sup_done(f, f.blocks@.len() as int, 0)
}

/// An operation's forward constraint is satisfied: running its forward
/// rule once more would change nothing. Only a tuple construction
/// constrains anything — its output must already be the unification of
/// itself with the anonymous record of its input types.
pub open spec fn op_forward_stable(f: Function, pos: usize, op: Operation) -> bool {
    match op {
        Operation::Tuple(content) => spec_unify(val_ty(f, pos as int), tuple_ty(f, content@))
            == Some(val_ty(f, pos as int)),
        _ => true,
    }
}

/// The forward constraints of all operations before position (`b`, `j`)
/// hold.
pub open spec fn fwd_done(f: Function, b: int, j: int) -> bool {
    forall|p: int, q: int|
        0 <= p < f.blocks@.len() && 0 <= q < f.blocks@[p].ops@.len() && (p < b || (p == b && q
            < j)) ==> op_forward_stable(
            f,
            (#[trigger] f.blocks@[p].ops@[q]).0,
            f.blocks@[p].ops@[q].1,
        )
}

/// Every operation's forward constraint holds.
pub open spec fn forward_stable(f: Function) -> bool {
    fwd_done(f, f.blocks@.len() as int, 0)
}

/// An operation's backward constraint is satisfied: its output is an
/// anonymous record of its arity, and pushing each field back onto the
/// corresponding input would change nothing.
pub open spec fn tuple_backward_stable(f: Function, pos: usize, content: Seq<usize>) -> bool {
    &&& val_ty(f, pos as int) is Record
    &&& val_ty(f, pos as int)->Record_0 is None
    &&& val_ty(f, pos as int)->Record_1.len() == content.len()
    &&& forall|i: int|
        0 <= i < content.len() ==> spec_unify(
            val_ty(f, #[trigger] content[i] as int),
            val_ty(f, pos as int)->Record_1[i],
        ) == Some(val_ty(f, content[i] as int))
}

/// An operation's backward constraint is satisfied; only a tuple
/// construction constrains anything.
pub open spec fn op_backward_stable(f: Function, pos: usize, op: Operation) -> bool {
    match op {
        Operation::Tuple(content) => tuple_backward_stable(f, pos, content@),
        _ => true,
    }
}

/// The backward constraints of all operations of blocks before `b`, and of
/// block `b` at position `j` or later, hold.
pub open spec fn bwd_done(f: Function, b: int, j: int) -> bool {
    forall|p: int, q: int|
        0 <= p < f.blocks@.len() && 0 <= q < f.blocks@[p].ops@.len() && (p < b || (p == b && q
            >= j)) ==> op_backward_stable(
            f,
            (#[trigger] f.blocks@[p].ops@[q]).0,
            f.blocks@[p].ops@[q].1,
        )
}

/// Every operation's backward constraint holds.
pub open spec fn backward_stable(f: Function) -> bool {
    bwd_done(f, f.blocks@.len() as int, 0)
}

/// The edge from block `a` to block `b` is stable: any variable name bound
/// in both blocks binds values of the same current type.
pub open spec fn edge_stable(f: Function, a: int, b: int) -> bool {
    forall|x: int, y: int|
        0 <= x < f.blocks@[a].vars@.len() && 0 <= y < f.blocks@[b].vars@.len()
            && (#[trigger] f.blocks@[a].vars@[x]).0@ == (#[trigger] f.blocks@[b].vars@[y]).0@
            ==> val_ty(f, f.blocks@[a].vars@[x].1 as int) == val_ty(
            f,
            f.blocks@[b].vars@[y].1 as int,
        )
}

/// The pairs of bindings of blocks `a` and `b` before pair (`x`, `y`) are
/// stable.
pub open spec fn edge_pairs_done(f: Function, a: int, b: int, x: int, y: int) -> bool {
    forall|p: int, q: int|
        0 <= p < f.blocks@[a].vars@.len() && 0 <= q < f.blocks@[b].vars@.len() && (p < x || (p
            == x && q < y)) && (#[trigger] f.blocks@[a].vars@[p]).0@ == (#[trigger] f.blocks@[b].vars@[q]).0@
            ==> val_ty(f, f.blocks@[a].vars@[p].1 as int) == val_ty(
            f,
            f.blocks@[b].vars@[q].1 as int,
        )
}

/// The edges of all blocks before `a`, and of block `a` to targets before
/// `t`, are stable.
pub open spec fn edges_done(f: Function, a: int, t: int) -> bool {
    forall|p: int, q: int|
        0 <= p < f.blocks@.len() && 0 <= q < goto_targets(f.blocks@[p].goto).len() && (p < a
            || (p == a && q < t)) ==> edge_stable(
            f,
            p,
            #[trigger] goto_targets(f.blocks@[p].goto)[q] as int,
        )
}

/// Every control-flow edge is stable.
pub open spec fn edges_stable(f: Function) -> bool {
    edges_done(f, f.blocks@.len() as int, 0)
}

/// A fixpoint: no rule and no edge propagation would change anything, and
/// every operation has a defined rule.
pub open spec fn stable(f: Function) -> bool {
    &&& all_supported(f)
    &&& forward_stable(f)
    &&& backward_stable(f)
    &&& edges_stable(f)
}

/// Arena slot `i` is constrained by the forward rule: some tuple
/// operation's output value points at it. The forward sweep writes no
/// other slot.
pub open spec fn fwd_writable(f: Function, i: int) -> bool {
    exists|p: int, q: int|
        0 <= p < f.blocks@.len() && 0 <= q < f.blocks@[p].ops@.len() && (#[trigger] f.blocks@[p].ops@[q]).1
            is Tuple && f.values@[f.blocks@[p].ops@[q].0 as int].typ == i
}

/// Arena slot `i` is constrained by the backward rule: some tuple
/// operation consumes a value that points at it. The backward sweep
/// writes no other slot.
pub open spec fn bwd_writable(f: Function, i: int) -> bool {
    exists|p: int, q: int, k: int|
        0 <= p < f.blocks@.len() && 0 <= q < f.blocks@[p].ops@.len() && f.blocks@[p].ops@[q].1
            is Tuple && 0 <= k < op_inputs(f.blocks@[p].ops@[q].1).len() && f.values@[#[trigger] op_inputs(
            f.blocks@[p].ops@[q].1,
        )[k] as int].typ == i
}

/// Arena slot `i` is bound, under a variable name shared across the edge
/// from block `a` to block `b`, on either side. Edge propagation over
/// that edge writes no other slot.
pub open spec fn edge_writable_at(f: Function, a: int, b: int, i: int) -> bool {
    exists|x: int, y: int|
        0 <= x < f.blocks@[a].vars@.len() && 0 <= y < f.blocks@[b].vars@.len()
            && (#[trigger] f.blocks@[a].vars@[x]).0@ == (#[trigger] f.blocks@[b].vars@[y]).0@
            && (f.values@[f.blocks@[a].vars@[x].1 as int].typ == i || f.values@[f.blocks@[b].vars@[y].1 as int].typ
            == i)
}

/// Blocks `a` and `b` bind at least one common variable name.
pub open spec fn edge_has_shared_name(f: Function, a: int, b: int) -> bool {
    exists|x: int, y: int|
        0 <= x < f.blocks@[a].vars@.len() && 0 <= y < f.blocks@[b].vars@.len()
            && (#[trigger] f.blocks@[a].vars@[x]).0@ == (#[trigger] f.blocks@[b].vars@[y]).0@
}

/// Arena slot `i` is constrained by some control-flow edge. Edge
/// propagation writes no other slot.
pub open spec fn edge_writable(f: Function, i: int) -> bool {
    exists|p: int, q: int|
        0 <= p < f.blocks@.len() && 0 <= q < goto_targets(f.blocks@[p].goto).len()
            && edge_writable_at(
            f,
            p,
            #[trigger] goto_targets(f.blocks@[p].goto)[q] as int,
            i,
        )
}

/// No operation strictly before position (`b`, `j`) is a tuple
/// construction.
pub open spec fn no_tuple_before(f: Function, b: int, j: int) -> bool {
    forall|p: int, q: int|
        0 <= p < f.blocks@.len() && 0 <= q < f.blocks@[p].ops@.len() && (p < b || (p == b && q
            < j)) ==> !((#[trigger] f.blocks@[p].ops@[q]).1 is Tuple)
}

/// No operation of a block before `b`, nor of block `b` at position `j`
/// or later, is a tuple construction.
pub open spec fn no_tuple_from(f: Function, b: int, j: int) -> bool {
    forall|p: int, q: int|
        0 <= p < f.blocks@.len() && 0 <= q < f.blocks@[p].ops@.len() && (p < b || (p == b && q
            >= j)) ==> !((#[trigger] f.blocks@[p].ops@[q]).1 is Tuple)
}

/// The output of a tuple construction has the shape its backward rule
/// requires: an anonymous record of the operation's arity.
pub open spec fn tuple_output_shaped(f: Function, pos: usize, content: Seq<usize>) -> bool {
    &&& val_ty(f, pos as int) is Record
    &&& val_ty(f, pos as int)->Record_0 is None
    &&& val_ty(f, pos as int)->Record_1.len() == content.len()
}

/// Every tuple construction's forward constraint is already contradictory:
/// its output type cannot be unified with the anonymous record of its
/// inputs' current types.
pub open spec fn all_tuples_fail_forward(f: Function) -> bool {
    forall|p: int, q: int|
        0 <= p < f.blocks@.len() && 0 <= q < f.blocks@[p].ops@.len() && (#[trigger] f.blocks@[p].ops@[q]).1
            is Tuple ==> spec_unify(
            val_ty(f, f.blocks@[p].ops@[q].0 as int),
            tuple_ty(f, f.blocks@[p].ops@[q].1->Tuple_0@),
        ) is None
}

/// Every tuple construction's output lacks the shape the backward rule
/// requires.
pub open spec fn all_tuples_malformed_backward(f: Function) -> bool {
    forall|p: int, q: int|
        0 <= p < f.blocks@.len() && 0 <= q < f.blocks@[p].ops@.len() && (#[trigger] f.blocks@[p].ops@[q]).1
            is Tuple ==> !tuple_output_shaped(
            f,
            f.blocks@[p].ops@[q].0,
            f.blocks@[p].ops@[q].1->Tuple_0@,
        )
}

/// Some operation is a tuple construction — the only source of a
/// `Mismatch` or `MalformedConstraint` inside a sweep.
pub open spec fn has_tuple_op(f: Function) -> bool {
    exists|p: int, q: int|
        0 <= p < f.blocks@.len() && 0 <= q < f.blocks@[p].ops@.len() && (#[trigger] f.blocks@[p].ops@[q]).1
            is Tuple
}

/// Some operation has no rule, and its kind is `k`.
pub open spec fn has_unsupported_of_kind(f: Function, k: OpKind) -> bool {
    exists|p: int, q: int|
        0 <= p < f.blocks@.len() && 0 <= q < f.blocks@[p].ops@.len() && !op_supported(
            (#[trigger] f.blocks@[p].ops@[q]).1,
        ) && f.blocks@[p].ops@[q].1.spec_kind() == k
}

/// Some control-flow edge has a variable name bound on both sides — the
/// only source of a `Mismatch` during edge propagation.
pub open spec fn has_shared_name_edge(f: Function) -> bool {
    exists|p: int, q: int|
        0 <= p < f.blocks@.len() && 0 <= q < goto_targets(f.blocks@[p].goto).len()
            && edge_has_shared_name(f, p, #[trigger] goto_targets(f.blocks@[p].goto)[q] as int)
}

/// The type arena of a function, as the sequence of its slots' models.
pub open spec fn arena(f: Function) -> Seq<SpecType> {
    Seq::new(f.types@.len(), |i: int| f.types@[i]@)
}

/// The anonymous record of the types the arena `ts` currently gives to
/// the values `content`, with the value table of `f`.
pub open spec fn tuple_ty_in(f: Function, ts: Seq<SpecType>, content: Seq<usize>) -> SpecType {
    SpecType::Record(
        None,
        Seq::new(
            content.len(),
            |i: int|
                if 0 <= i < content.len() {
                    ts[f.values@[content[i] as int].typ as int]
                } else {
                    SpecType::Unknown(0)
                },
        ),
    )
}

/// Reading the record of input types from a function's own arena is the
/// same through the threaded arena as through the function.
pub proof fn lemma_tuple_ty_in(f: Function, g: Function, content: Seq<usize>)
    requires
        f.values == g.values,
        forall|k: int| 0 <= k < content.len() ==> content[k] < g.values@.len(),
        forall|v: int|
            0 <= v < g.values@.len() ==> (#[trigger] g.values@[v]).typ < g.types@.len(),
    ensures
        tuple_ty_in(f, arena(g), content) == tuple_ty(g, content),
{
    assert forall|i: int|
        0 <= i < content.len() implies tuple_ty_in(f, arena(g), content)->Record_1[i]
        == tuple_ty(g, content)->Record_1[i] by {
        assert(g.values@[content[i] as int].typ < g.types@.len());
    }
    assert(tuple_ty_in(f, arena(g), content)->Record_1 =~= tuple_ty(g, content)->Record_1);
}

/// One application of the forward rule, on the threaded arena: a tuple
/// construction replaces its output slot by the slot's unification with
/// the record of its inputs' current types, or fails with `Mismatch`; a
/// return contributes nothing; any other kind has no rule.
pub open spec fn fwd_op_step(
    f: Function,
    ts: Seq<SpecType>,
    chg: bool,
    pos: usize,
    op: Operation,
) -> Result<(Seq<SpecType>, bool), TypeError> {
    match op {
        Operation::Tuple(content) => {
            let ix = f.values@[pos as int].typ as int;
            match spec_unify(ts[ix], tuple_ty_in(f, ts, content@)) {
                Some(u) => if u == ts[ix] {
                    Ok((ts, chg))
                } else {
                    Ok((ts.update(ix, u), true))
                },
                None => Err(TypeError::Mismatch),
            }
        },
        Operation::Return(_) => Ok((ts, chg)),
        _ => Err(TypeError::UnsupportedOperation(op.spec_kind())),
    }
}

/// The forward rules of block `b` from operation `j` on, in listed order,
/// folded over the arena; the first failure aborts the fold.
pub open spec fn fwd_ops_from(f: Function, b: int, j: int, ts: Seq<SpecType>, chg: bool) -> Result<
    (Seq<SpecType>, bool),
    TypeError,
>
    decreases f.blocks@[b].ops@.len() - j,
{
    if 0 <= b < f.blocks@.len() && 0 <= j < f.blocks@[b].ops@.len() {
        match fwd_op_step(f, ts, chg, f.blocks@[b].ops@[j].0, f.blocks@[b].ops@[j].1) {
            Ok((ts2, c2)) => fwd_ops_from(f, b, j + 1, ts2, c2),
            Err(e) => Err(e),
        }
    } else {
        Ok((ts, chg))
    }
}

/// The forward rules of the blocks from `b` on, in listed order.
pub open spec fn fwd_blocks_from(f: Function, b: int, ts: Seq<SpecType>, chg: bool) -> Result<
    (Seq<SpecType>, bool),
    TypeError,
>
    decreases f.blocks@.len() - b,
{
    if 0 <= b < f.blocks@.len() {
        match fwd_ops_from(f, b, 0, ts, chg) {
            Ok((ts2, c2)) => fwd_blocks_from(f, b + 1, ts2, c2),
            Err(e) => Err(e),
        }
    } else {
        Ok((ts, chg))
    }
}

/// What one forward sweep computes over a function: the final arena and
/// whether anything changed, or the first rule failure in program order.
pub open spec fn spec_forward(f: Function) -> Result<(Seq<SpecType>, bool), TypeError> {
    fwd_blocks_from(f, 0, arena(f), false)
}

/// The rest of a forward sweep from the middle of block `b`: the ops of
/// `b` from `j` on, then the remaining blocks.
pub open spec fn fwd_cont(f: Function, b: int, j: int, ts: Seq<SpecType>, chg: bool) -> Result<
    (Seq<SpecType>, bool),
    TypeError,
> {
    match fwd_ops_from(f, b, j, ts, chg) {
        Ok((ts2, c2)) => fwd_blocks_from(f, b + 1, ts2, c2),
        Err(e) => Err(e),
    }
}

/// One backward field push: the given field type of a tuple's output is
/// unified into the arena slot of the consuming value `vi`.
pub open spec fn bwd_field_step(
    f: Function,
    ts: Seq<SpecType>,
    chg: bool,
    vi: usize,
    fld: SpecType,
) -> Result<(Seq<SpecType>, bool), TypeError> {
    let ix = f.values@[vi as int].typ as int;
    match spec_unify(ts[ix], fld) {
        Some(u) => if u == ts[ix] {
            Ok((ts, chg))
        } else {
            Ok((ts.update(ix, u), true))
        },
        None => Err(TypeError::Mismatch),
    }
}

/// The backward field pushes of one tuple construction from position `k`
/// on, in field order.
pub open spec fn bwd_fields_from(
    f: Function,
    content: Seq<usize>,
    flds: Seq<SpecType>,
    k: int,
    ts: Seq<SpecType>,
    chg: bool,
) -> Result<(Seq<SpecType>, bool), TypeError>
    decreases content.len() - k,
{
    if 0 <= k < content.len() {
        match bwd_field_step(f, ts, chg, content[k], flds[k]) {
            Ok((ts2, c2)) => bwd_fields_from(f, content, flds, k + 1, ts2, c2),
            Err(e) => Err(e),
        }
    } else {
        Ok((ts, chg))
    }
}

/// Threading a raised change flag through the field pushes only raises
/// the resulting flag; the arena and the error are unaffected.
pub proof fn lemma_bwd_fields_or(
    f: Function,
    content: Seq<usize>,
    flds: Seq<SpecType>,
    k: int,
    ts: Seq<SpecType>,
)
    ensures
        match (
            bwd_fields_from(f, content, flds, k, ts, false),
            bwd_fields_from(f, content, flds, k, ts, true),
        ) {
            (Ok((t0, c0)), Ok((t1, c1))) => t1 == t0 && c1 == true,
            (Err(e0), Err(e1)) => e0 == e1,
            _ => false,
        },
    decreases content.len() - k,
{
    if 0 <= k < content.len() {
        let ix = f.values@[content[k] as int].typ as int;
        match spec_unify(ts[ix], flds[k]) {
            Some(u) => {
                if u == ts[ix] {
                    lemma_bwd_fields_or(f, content, flds, k + 1, ts);
                } else {
                    lemma_bwd_fields_or(f, content, flds, k + 1, ts.update(ix, u));
                    assert(bwd_fields_from(f, content, flds, k, ts, false) == bwd_fields_from(
                        f,
                        content,
                        flds,
                        k + 1,
                        ts.update(ix, u),
                        true,
                    ));
                }
            },
            None => {},
        }
    }
}

/// The field pushes read the function only through its value table, so
/// they agree on two functions that differ only in their arenas.
pub proof fn lemma_bwd_fields_congruence(
    f: Function,
    g: Function,
    content: Seq<usize>,
    flds: Seq<SpecType>,
    k: int,
    ts: Seq<SpecType>,
    chg: bool,
)
    requires
        f.values == g.values,
    ensures
        bwd_fields_from(f, content, flds, k, ts, chg) == bwd_fields_from(
            g,
            content,
            flds,
            k,
            ts,
            chg,
        ),
    decreases content.len() - k,
{
    if 0 <= k < content.len() {
        let ix = f.values@[content[k] as int].typ as int;
        match spec_unify(ts[ix], flds[k]) {
            Some(u) => {
                if u == ts[ix] {
                    lemma_bwd_fields_congruence(f, g, content, flds, k + 1, ts, chg);
                } else {
                    lemma_bwd_fields_congruence(f, g, content, flds, k + 1, ts.update(ix, u), true);
                }
            },
            None => {},
        }
    }
}

/// What the backward rule of one tuple construction computes from a given
/// arena: `MalformedConstraint` unless the output is an anonymous record
/// of the operation's arity, else its fields pushed onto the inputs.
pub open spec fn bwd_tuple_apply(f: Function, pos: usize, content: Seq<usize>) -> Result<
    (Seq<SpecType>, bool),
    TypeError,
> {
    let ts = arena(f);
    let out = ts[f.values@[pos as int].typ as int];
    if out is Record && out->Record_0 is None && out->Record_1.len() == content.len() {
        bwd_fields_from(f, content, out->Record_1, 0, ts, false)
    } else {
        Err(TypeError::MalformedConstraint)
    }
}

/// One application of the backward rule on the threaded arena.
pub open spec fn bwd_op_step(
    f: Function,
    ts: Seq<SpecType>,
    chg: bool,
    pos: usize,
    op: Operation,
) -> Result<(Seq<SpecType>, bool), TypeError> {
    match op {
        Operation::Tuple(content) => {
            let out = ts[f.values@[pos as int].typ as int];
            if out is Record && out->Record_0 is None && out->Record_1.len() == content@.len() {
                bwd_fields_from(f, content@, out->Record_1, 0, ts, chg)
            } else {
                Err(TypeError::MalformedConstraint)
            }
        },
        Operation::Return(_) => Ok((ts, chg)),
        _ => Err(TypeError::UnsupportedOperation(op.spec_kind())),
    }
}

/// The backward rules of block `b` for the operations before position
/// `j`, in reverse listed order.
pub open spec fn bwd_ops_from(f: Function, b: int, j: int, ts: Seq<SpecType>, chg: bool) -> Result<
    (Seq<SpecType>, bool),
    TypeError,
>
    decreases j,
{
    if 0 <= b < f.blocks@.len() && 0 < j <= f.blocks@[b].ops@.len() {
        match bwd_op_step(f, ts, chg, f.blocks@[b].ops@[j - 1].0, f.blocks@[b].ops@[j - 1].1) {
            Ok((ts2, c2)) => bwd_ops_from(f, b, j - 1, ts2, c2),
            Err(e) => Err(e),
        }
    } else {
        Ok((ts, chg))
    }
}

/// The backward rules of the blocks from `b` on: blocks in listed order,
/// each block's operations in reverse listed order.
pub open spec fn bwd_blocks_from(f: Function, b: int, ts: Seq<SpecType>, chg: bool) -> Result<
    (Seq<SpecType>, bool),
    TypeError,
>
    decreases f.blocks@.len() - b,
{
    if 0 <= b < f.blocks@.len() {
        match bwd_ops_from(f, b, f.blocks@[b].ops@.len() as int, ts, chg) {
            Ok((ts2, c2)) => bwd_blocks_from(f, b + 1, ts2, c2),
            Err(e) => Err(e),
        }
    } else {
        Ok((ts, chg))
    }
}

/// What one backward sweep computes over a function: the final arena and
/// whether anything changed, or the first rule failure in sweep order.
pub open spec fn spec_backward(f: Function) -> Result<(Seq<SpecType>, bool), TypeError> {
    bwd_blocks_from(f, 0, arena(f), false)
}

/// The rest of a backward sweep from the middle of block `b`.
pub open spec fn bwd_cont(f: Function, b: int, j: int, ts: Seq<SpecType>, chg: bool) -> Result<
    (Seq<SpecType>, bool),
    TypeError,
> {
    match bwd_ops_from(f, b, j, ts, chg) {
        Ok((ts2, c2)) => bwd_blocks_from(f, b + 1, ts2, c2),
        Err(e) => Err(e),
    }
}

/// One edge pair: if the two bindings carry the same variable name, their
/// values' types are unified and the result written into both slots.
pub open spec fn unify_pair(
    f: Function,
    ts: Seq<SpecType>,
    chg: bool,
    va: usize,
    vb: usize,
) -> Result<(Seq<SpecType>, bool), TypeError> {
    let ia = f.values@[va as int].typ as int;
    let ib = f.values@[vb as int].typ as int;
    match spec_unify(ts[ia], ts[ib]) {
        Some(u) => {
            let ts1 = if u == ts[ia] {
                ts
            } else {
                ts.update(ia, u)
            };
            let c1 = if u == ts[ia] {
                chg
            } else {
                true
            };
            let ts2 = if u == ts1[ib] {
                ts1
            } else {
                ts1.update(ib, u)
            };
            let c2 = if u == ts1[ib] {
                c1
            } else {
                true
            };
            Ok((ts2, c2))
        },
        None => Err(TypeError::Mismatch),
    }
}

/// The binding pairs of the edge from block `a` to block `t`, from pair
/// (`x`, `y`) on: `y` runs over the target's bindings, then `x` advances.
pub open spec fn edge_pairs_from(
    f: Function,
    a: int,
    t: int,
    x: int,
    y: int,
    ts: Seq<SpecType>,
    chg: bool,
) -> Result<(Seq<SpecType>, bool), TypeError>
    decreases f.blocks@[a].vars@.len() - x, f.blocks@[t].vars@.len() - y,
{
    if 0 <= a < f.blocks@.len() && 0 <= t < f.blocks@.len() && 0 <= x < f.blocks@[a].vars@.len() {
        if 0 <= y < f.blocks@[t].vars@.len() {
            if f.blocks@[a].vars@[x].0@ == f.blocks@[t].vars@[y].0@ {
                match unify_pair(f, ts, chg, f.blocks@[a].vars@[x].1, f.blocks@[t].vars@[y].1) {
                    Ok((ts2, c2)) => edge_pairs_from(f, a, t, x, y + 1, ts2, c2),
                    Err(e) => Err(e),
                }
            } else {
                edge_pairs_from(f, a, t, x, y + 1, ts, chg)
            }
        } else {
            edge_pairs_from(f, a, t, x + 1, 0, ts, chg)
        }
    } else {
        Ok((ts, chg))
    }
}

/// What propagating one edge computes from a given arena.
pub open spec fn edge_apply(f: Function, a: int, t: int) -> Result<(Seq<SpecType>, bool), TypeError> {
    edge_pairs_from(f, a, t, 0, 0, arena(f), false)
}

/// The edge pairs read the function only through its block list and value
/// table, so they agree on two functions that differ only in their arenas.
pub proof fn lemma_edge_pairs_congruence(
    f: Function,
    g: Function,
    a: int,
    t: int,
    x: int,
    y: int,
    ts: Seq<SpecType>,
    chg: bool,
)
    requires
        f.blocks == g.blocks,
        f.values == g.values,
    ensures
        edge_pairs_from(f, a, t, x, y, ts, chg) == edge_pairs_from(g, a, t, x, y, ts, chg),
    decreases f.blocks@[a].vars@.len() - x, f.blocks@[t].vars@.len() - y,
{
    assert(f.blocks@ == g.blocks@);
    if 0 <= a < f.blocks@.len() && 0 <= t < f.blocks@.len() && 0 <= x < f.blocks@[a].vars@.len() {
        if 0 <= y < f.blocks@[t].vars@.len() {
            if f.blocks@[a].vars@[x].0@ == f.blocks@[t].vars@[y].0@ {
                match unify_pair(f, ts, chg, f.blocks@[a].vars@[x].1, f.blocks@[t].vars@[y].1) {
                    Ok((ts2, c2)) => lemma_edge_pairs_congruence(f, g, a, t, x, y + 1, ts2, c2),
                    Err(_) => {},
                }
            } else {
                lemma_edge_pairs_congruence(f, g, a, t, x, y + 1, ts, chg);
            }
        } else {
            lemma_edge_pairs_congruence(f, g, a, t, x + 1, 0, ts, chg);
        }
    }
}

/// Threading a raised change flag through the edge pairs only raises the
/// resulting flag; the arena and the error are unaffected.
pub proof fn lemma_edge_pairs_or(f: Function, a: int, t: int, x: int, y: int, ts: Seq<SpecType>)
    ensures
        match (edge_pairs_from(f, a, t, x, y, ts, false), edge_pairs_from(f, a, t, x, y, ts, true)) {
            (Ok((t0, c0)), Ok((t1, c1))) => t1 == t0 && c1 == true,
            (Err(e0), Err(e1)) => e0 == e1,
            _ => false,
        },
    decreases f.blocks@[a].vars@.len() - x, f.blocks@[t].vars@.len() - y,
{
    if 0 <= a < f.blocks@.len() && 0 <= t < f.blocks@.len() && 0 <= x < f.blocks@[a].vars@.len() {
        if 0 <= y < f.blocks@[t].vars@.len() {
            if f.blocks@[a].vars@[x].0@ == f.blocks@[t].vars@[y].0@ {
                let va = f.blocks@[a].vars@[x].1;
                let vb = f.blocks@[t].vars@[y].1;
                match unify_pair(f, ts, false, va, vb) {
                    Ok((ts2, c2)) => {
                        if c2 {
                            lemma_edge_pairs_or(f, a, t, x, y + 1, ts2);
                            assert(unify_pair(f, ts, true, va, vb) == Ok::<
                                (Seq<SpecType>, bool),
                                TypeError,
                            >((ts2, true)));
                        } else {
                            lemma_edge_pairs_or(f, a, t, x, y + 1, ts2);
                        }
                    },
                    Err(_) => {},
                }
            } else {
                lemma_edge_pairs_or(f, a, t, x, y + 1, ts);
            }
        } else {
            lemma_edge_pairs_or(f, a, t, x + 1, 0, ts);
        }
    }
}

/// The edges of the blocks from (`a`, target `ti`) on, in listed order.
pub open spec fn edges_from(f: Function, a: int, ti: int, ts: Seq<SpecType>, chg: bool) -> Result<
    (Seq<SpecType>, bool),
    TypeError,
>
    decreases f.blocks@.len() - a, goto_targets(f.blocks@[a].goto).len() - ti,
{
    if 0 <= a < f.blocks@.len() {
        if 0 <= ti < goto_targets(f.blocks@[a].goto).len() {
            match edge_pairs_from(
                f,
                a,
                goto_targets(f.blocks@[a].goto)[ti] as int,
                0,
                0,
                ts,
                chg,
            ) {
                Ok((ts2, c2)) => edges_from(f, a, ti + 1, ts2, c2),
                Err(e) => Err(e),
            }
        } else {
            edges_from(f, a + 1, 0, ts, chg)
        }
    } else {
        Ok((ts, chg))
    }
}

/// What one edge-propagation sweep computes over a function: the final
/// arena and whether anything changed, or the first failing edge pair in
/// sweep order.
pub open spec fn spec_edges(f: Function) -> Result<(Seq<SpecType>, bool), TypeError> {
    edges_from(f, 0, 0, arena(f), false)
}

/// The forward fold reads the function only through its block list and
/// value table.
pub proof fn lemma_fwd_ops_congruence(
    f: Function,
    g: Function,
    b: int,
    j: int,
    ts: Seq<SpecType>,
    chg: bool,
)
    requires
        f.blocks == g.blocks,
        f.values == g.values,
    ensures
        fwd_ops_from(f, b, j, ts, chg) == fwd_ops_from(g, b, j, ts, chg),
    decreases f.blocks@[b].ops@.len() - j,
{
    assert(f.blocks@ == g.blocks@);
    if 0 <= b < f.blocks@.len() && 0 <= j < f.blocks@[b].ops@.len() {
        match f.blocks@[b].ops@[j].1 {
            Operation::Tuple(content) => {
                assert(tuple_ty_in(f, ts, content@) == tuple_ty_in(g, ts, content@)) by {
                    assert(tuple_ty_in(f, ts, content@)->Record_1 =~= tuple_ty_in(
                        g,
                        ts,
                        content@,
                    )->Record_1);
                }
            },
            _ => {},
        }
        match fwd_op_step(f, ts, chg, f.blocks@[b].ops@[j].0, f.blocks@[b].ops@[j].1) {
            Ok((ts2, c2)) => lemma_fwd_ops_congruence(f, g, b, j + 1, ts2, c2),
            Err(_) => {},
        }
    }
}

/// As above, for whole blocks.
pub proof fn lemma_fwd_blocks_congruence(
    f: Function,
    g: Function,
    b: int,
    ts: Seq<SpecType>,
    chg: bool,
)
    requires
        f.blocks == g.blocks,
        f.values == g.values,
    ensures
        fwd_blocks_from(f, b, ts, chg) == fwd_blocks_from(g, b, ts, chg),
    decreases f.blocks@.len() - b,
{
    if 0 <= b < f.blocks@.len() {
        lemma_fwd_ops_congruence(f, g, b, 0, ts, chg);
        match fwd_ops_from(f, b, 0, ts, chg) {
            Ok((ts2, c2)) => lemma_fwd_blocks_congruence(f, g, b + 1, ts2, c2),
            Err(_) => {},
        }
    }
}

/// The backward fold reads the function only through its block list and
/// value table.
pub proof fn lemma_bwd_ops_congruence(
    f: Function,
    g: Function,
    b: int,
    j: int,
    ts: Seq<SpecType>,
    chg: bool,
)
    requires
        f.blocks == g.blocks,
        f.values == g.values,
    ensures
        bwd_ops_from(f, b, j, ts, chg) == bwd_ops_from(g, b, j, ts, chg),
    decreases j,
{
    assert(f.blocks@ == g.blocks@);
    if 0 <= b < f.blocks@.len() && 0 < j <= f.blocks@[b].ops@.len() {
        match f.blocks@[b].ops@[j - 1].1 {
            Operation::Tuple(content) => {
                let out = ts[f.values@[f.blocks@[b].ops@[j - 1].0 as int].typ as int];
                if out is Record && out->Record_0 is None && out->Record_1.len()
                    == content@.len() {
                    lemma_bwd_fields_congruence(f, g, content@, out->Record_1, 0, ts, chg);
                }
            },
            _ => {},
        }
        match bwd_op_step(f, ts, chg, f.blocks@[b].ops@[j - 1].0, f.blocks@[b].ops@[j - 1].1) {
            Ok((ts2, c2)) => lemma_bwd_ops_congruence(f, g, b, j - 1, ts2, c2),
            Err(_) => {},
        }
    }
}

/// As above, for whole blocks.
pub proof fn lemma_bwd_blocks_congruence(
    f: Function,
    g: Function,
    b: int,
    ts: Seq<SpecType>,
    chg: bool,
)
    requires
        f.blocks == g.blocks,
        f.values == g.values,
    ensures
        bwd_blocks_from(f, b, ts, chg) == bwd_blocks_from(g, b, ts, chg),
    decreases f.blocks@.len() - b,
{
    assert(f.blocks@ == g.blocks@);
    if 0 <= b < f.blocks@.len() {
        lemma_bwd_ops_congruence(f, g, b, f.blocks@[b].ops@.len() as int, ts, chg);
        match bwd_ops_from(f, b, f.blocks@[b].ops@.len() as int, ts, chg) {
            Ok((ts2, c2)) => lemma_bwd_blocks_congruence(f, g, b + 1, ts2, c2),
            Err(_) => {},
        }
    }
}

/// The edge fold reads the function only through its block list and value
/// table.
pub proof fn lemma_edges_congruence(
    f: Function,
    g: Function,
    a: int,
    ti: int,
    ts: Seq<SpecType>,
    chg: bool,
)
    requires
        f.blocks == g.blocks,
        f.values == g.values,
    ensures
        edges_from(f, a, ti, ts, chg) == edges_from(g, a, ti, ts, chg),
    decreases f.blocks@.len() - a, goto_targets(f.blocks@[a].goto).len() - ti,
{
    assert(f.blocks@ == g.blocks@);
    if 0 <= a < f.blocks@.len() {
        if 0 <= ti < goto_targets(f.blocks@[a].goto).len() {
            let t = goto_targets(f.blocks@[a].goto)[ti] as int;
            lemma_edge_pairs_congruence(f, g, a, t, 0, 0, ts, chg);
            match edge_pairs_from(f, a, t, 0, 0, ts, chg) {
                Ok((ts2, c2)) => lemma_edges_congruence(f, g, a, ti + 1, ts2, c2),
                Err(_) => {},
            }
        } else {
            lemma_edges_congruence(f, g, a + 1, 0, ts, chg);
        }
    }
}

/// One combined round of the driver: a forward sweep, an edge-propagation
/// sweep, then a backward sweep, each threading the arena on.
pub open spec fn round_apply(f: Function, ts: Seq<SpecType>) -> Result<
    (Seq<SpecType>, bool),
    TypeError,
> {
    match fwd_blocks_from(f, 0, ts, false) {
        Ok((ts1, c1)) => match edges_from(f, 0, 0, ts1, false) {
            Ok((ts2, c2)) => match bwd_blocks_from(f, 0, ts2, false) {
                Ok((ts3, c3)) => Ok((ts3, c1 || c2 || c3)),
                Err(e) => Err(e),
            },
            Err(e) => Err(e),
        },
        Err(e) => Err(e),
    }
}

/// The driver's bounded iteration: rounds until one changes nothing, the
/// first error, or `NonConvergence` when the fuel runs out.
pub open spec fn spec_infer_loop(f: Function, ts: Seq<SpecType>, fuel: nat) -> Result<
    Seq<SpecType>,
    TypeError,
>
    decreases fuel,
{
    if fuel == 0 {
        Err(TypeError::NonConvergence)
    } else {
        match round_apply(f, ts) {
            Ok((ts2, c)) => if !c {
                Ok(ts2)
            } else {
                spec_infer_loop(f, ts2, (fuel - 1) as nat)
            },
            Err(e) => Err(e),
        }
    }
}

/// The driver's iteration bound: four rounds per block and four more,
/// saturating at the machine limit.
pub open spec fn spec_fuel(f: Function) -> nat {
    if 4 * f.blocks@.len() + 4 <= usize::MAX {
        (4 * f.blocks@.len() + 4) as nat
    } else {
        usize::MAX as nat
    }
}

/// What the driver computes over a function: the arena at the combined
/// fixpoint, or the first error of the round that met it.
pub open spec fn spec_infer(f: Function) -> Result<Seq<SpecType>, TypeError> {
    spec_infer_loop(f, arena(f), spec_fuel(f))
}

/// A function with no tuple construction and no name shared across an
/// edge constrains nothing: every stability condition holds vacuously.
pub proof fn lemma_unconstrained_is_stable(f: Function)
    requires
        all_supported(f),
        !has_tuple_op(f),
        !has_shared_name_edge(f),
    ensures
        stable(f),
{
    assert forall|p: int, q: int|
        0 <= p < f.blocks@.len() && 0 <= q < f.blocks@[p].ops@.len() implies !((
    #[trigger] f.blocks@[p].ops@[q]).1 is Tuple) by {
        if f.blocks@[p].ops@[q].1 is Tuple {
            assert(has_tuple_op(f));
        }
    }
    assert forall|p: int, q: int|
        0 <= p < f.blocks@.len() && 0 <= q < goto_targets(f.blocks@[p].goto).len() implies
        edge_stable(f, p, #[trigger] goto_targets(f.blocks@[p].goto)[q] as int) by {
        let b = goto_targets(f.blocks@[p].goto)[q] as int;
        assert forall|x: int, y: int|
            0 <= x < f.blocks@[p].vars@.len() && 0 <= y < f.blocks@[b].vars@.len() && (
            #[trigger] f.blocks@[p].vars@[x]).0@ == (#[trigger] f.blocks@[b].vars@[y]).0@
            implies val_ty(f, f.blocks@[p].vars@[x].1 as int) == val_ty(
            f,
            f.blocks@[b].vars@[y].1 as int,
        ) by {
            assert(edge_has_shared_name(f, p, b));
            assert(has_shared_name_edge(f));
        }
    }
}

/// A writable arena slot certifies the construct that constrains it: a
/// tuple operation, or an edge with a shared variable name.
pub proof fn lemma_writable_implies_witness(f: Function, i: int)
    ensures
        fwd_writable(f, i) ==> has_tuple_op(f),
        bwd_writable(f, i) ==> has_tuple_op(f),
        edge_writable(f, i) ==> has_shared_name_edge(f),
{
    if fwd_writable(f, i) {
        let (p, q) = choose|p: int, q: int|
            0 <= p < f.blocks@.len() && 0 <= q < f.blocks@[p].ops@.len()
                && (#[trigger] f.blocks@[p].ops@[q]).1 is Tuple && f.values@[f.blocks@[p].ops@[q].0 as int].typ
                == i;
        assert(has_tuple_op(f));
    }
    if bwd_writable(f, i) {
        let (p, q, m) = choose|p: int, q: int, m: int|
            0 <= p < f.blocks@.len() && 0 <= q < f.blocks@[p].ops@.len() && f.blocks@[p].ops@[q].1
                is Tuple && 0 <= m < op_inputs(f.blocks@[p].ops@[q].1).len() && f.values@[
                #[trigger] op_inputs(f.blocks@[p].ops@[q].1)[m] as int
            ].typ == i;
        assert((f.blocks@[p].ops@[q]).1 is Tuple);
        assert(has_tuple_op(f));
    }
    if edge_writable(f, i) {
        let (p, q) = choose|p: int, q: int|
            0 <= p < f.blocks@.len() && 0 <= q < goto_targets(f.blocks@[p].goto).len()
                && edge_writable_at(
                f,
                p,
                #[trigger] goto_targets(f.blocks@[p].goto)[q] as int,
                i,
            );
        let b = goto_targets(f.blocks@[p].goto)[q] as int;
        let (x, y) = choose|x: int, y: int|
            0 <= x < f.blocks@[p].vars@.len() && 0 <= y < f.blocks@[b].vars@.len()
                && (#[trigger] f.blocks@[p].vars@[x]).0@ == (#[trigger] f.blocks@[b].vars@[y]).0@
                && (f.values@[f.blocks@[p].vars@[x].1 as int].typ == i || f.values@[f.blocks@[b].vars@[y].1 as int].typ
                == i);
        assert(edge_has_shared_name(f, p, b));
        assert(has_shared_name_edge(f));
    }
}

/// The witness predicates read only the block list and the value table,
/// so they agree on two functions that differ only in their arenas.
pub proof fn lemma_op_witness_congruence(f: Function, g: Function, k: OpKind)
    requires
        f.blocks == g.blocks,
        f.values == g.values,
    ensures
        has_tuple_op(f) == has_tuple_op(g),
        has_unsupported_of_kind(f, k) == has_unsupported_of_kind(g, k),
        has_shared_name_edge(f) == has_shared_name_edge(g),
{
    assert(f.blocks@ == g.blocks@);
    if has_tuple_op(f) {
        let (p, q) = choose|p: int, q: int|
            0 <= p < f.blocks@.len() && 0 <= q < f.blocks@[p].ops@.len()
                && (#[trigger] f.blocks@[p].ops@[q]).1 is Tuple;
        assert(g.blocks@[p].ops@[q] == f.blocks@[p].ops@[q]);
        assert(has_tuple_op(g));
    }
    if has_tuple_op(g) {
        let (p, q) = choose|p: int, q: int|
            0 <= p < g.blocks@.len() && 0 <= q < g.blocks@[p].ops@.len()
                && (#[trigger] g.blocks@[p].ops@[q]).1 is Tuple;
        assert(f.blocks@[p].ops@[q] == g.blocks@[p].ops@[q]);
        assert(has_tuple_op(f));
    }
    if has_unsupported_of_kind(f, k) {
        let (p, q) = choose|p: int, q: int|
            0 <= p < f.blocks@.len() && 0 <= q < f.blocks@[p].ops@.len() && !op_supported(
                (#[trigger] f.blocks@[p].ops@[q]).1,
            ) && f.blocks@[p].ops@[q].1.spec_kind() == k;
        assert(g.blocks@[p].ops@[q] == f.blocks@[p].ops@[q]);
        assert(has_unsupported_of_kind(g, k));
    }
    if has_unsupported_of_kind(g, k) {
        let (p, q) = choose|p: int, q: int|
            0 <= p < g.blocks@.len() && 0 <= q < g.blocks@[p].ops@.len() && !op_supported(
                (#[trigger] g.blocks@[p].ops@[q]).1,
            ) && g.blocks@[p].ops@[q].1.spec_kind() == k;
        assert(f.blocks@[p].ops@[q] == g.blocks@[p].ops@[q]);
        assert(has_unsupported_of_kind(f, k));
    }
    if has_shared_name_edge(f) {
        let (p, q) = choose|p: int, q: int|
            0 <= p < f.blocks@.len() && 0 <= q < goto_targets(f.blocks@[p].goto).len()
                && edge_has_shared_name(
                f,
                p,
                #[trigger] goto_targets(f.blocks@[p].goto)[q] as int,
            );
        let b = goto_targets(f.blocks@[p].goto)[q] as int;
        let (x, y) = choose|x: int, y: int|
            0 <= x < f.blocks@[p].vars@.len() && 0 <= y < f.blocks@[b].vars@.len()
                && (#[trigger] f.blocks@[p].vars@[x]).0@ == (#[trigger] f.blocks@[b].vars@[y]).0@;
        assert(g.blocks@[p].vars@[x] == f.blocks@[p].vars@[x]);
        assert(g.blocks@[b].vars@[y] == f.blocks@[b].vars@[y]);
        assert(edge_has_shared_name(g, p, b));
        assert(has_shared_name_edge(g));
    }
    if has_shared_name_edge(g) {
        let (p, q) = choose|p: int, q: int|
            0 <= p < g.blocks@.len() && 0 <= q < goto_targets(g.blocks@[p].goto).len()
                && edge_has_shared_name(
                g,
                p,
                #[trigger] goto_targets(g.blocks@[p].goto)[q] as int,
            );
        let b = goto_targets(g.blocks@[p].goto)[q] as int;
        let (x, y) = choose|x: int, y: int|
            0 <= x < g.blocks@[p].vars@.len() && 0 <= y < g.blocks@[b].vars@.len()
                && (#[trigger] g.blocks@[p].vars@[x]).0@ == (#[trigger] g.blocks@[b].vars@[y]).0@;
        assert(f.blocks@[p].vars@[x] == g.blocks@[p].vars@[x]);
        assert(f.blocks@[b].vars@[y] == g.blocks@[b].vars@[y]);
        assert(edge_has_shared_name(f, p, b));
        assert(has_shared_name_edge(f));
    }
}

/// The writability of an arena slot reads only the block list and the
/// value table, so it agrees on two functions that differ only in their
/// arenas.
pub proof fn lemma_writable_congruence(f: Function, g: Function, i: int)
    requires
        f.blocks == g.blocks,
        f.values == g.values,
    ensures
        fwd_writable(f, i) == fwd_writable(g, i),
        bwd_writable(f, i) == bwd_writable(g, i),
        edge_writable(f, i) == edge_writable(g, i),
{
    assert(f.blocks@ == g.blocks@);
    assert(f.values@ == g.values@);
    if fwd_writable(f, i) {
        let (p, q) = choose|p: int, q: int|
            0 <= p < f.blocks@.len() && 0 <= q < f.blocks@[p].ops@.len()
                && (#[trigger] f.blocks@[p].ops@[q]).1 is Tuple && f.values@[f.blocks@[p].ops@[q].0 as int].typ
                == i;
        assert(g.blocks@[p].ops@[q] == f.blocks@[p].ops@[q]);
        assert(fwd_writable(g, i));
    }
    if fwd_writable(g, i) {
        let (p, q) = choose|p: int, q: int|
            0 <= p < g.blocks@.len() && 0 <= q < g.blocks@[p].ops@.len()
                && (#[trigger] g.blocks@[p].ops@[q]).1 is Tuple && g.values@[g.blocks@[p].ops@[q].0 as int].typ
                == i;
        assert(f.blocks@[p].ops@[q] == g.blocks@[p].ops@[q]);
        assert(fwd_writable(f, i));
    }
    if bwd_writable(f, i) {
        let (p, q, m) = choose|p: int, q: int, m: int|
            0 <= p < f.blocks@.len() && 0 <= q < f.blocks@[p].ops@.len() && f.blocks@[p].ops@[q].1
                is Tuple && 0 <= m < op_inputs(f.blocks@[p].ops@[q].1).len() && f.values@[
                #[trigger] op_inputs(f.blocks@[p].ops@[q].1)[m] as int
            ].typ == i;
        assert(g.blocks@[p].ops@[q] == f.blocks@[p].ops@[q]);
        assert(g.values@[op_inputs(g.blocks@[p].ops@[q].1)[m] as int].typ == i);
        assert(bwd_writable(g, i));
    }
    if bwd_writable(g, i) {
        let (p, q, m) = choose|p: int, q: int, m: int|
            0 <= p < g.blocks@.len() && 0 <= q < g.blocks@[p].ops@.len() && g.blocks@[p].ops@[q].1
                is Tuple && 0 <= m < op_inputs(g.blocks@[p].ops@[q].1).len() && g.values@[
                #[trigger] op_inputs(g.blocks@[p].ops@[q].1)[m] as int
            ].typ == i;
        assert(f.blocks@[p].ops@[q] == g.blocks@[p].ops@[q]);
        assert(f.values@[op_inputs(f.blocks@[p].ops@[q].1)[m] as int].typ == i);
        assert(bwd_writable(f, i));
    }
    if edge_writable(f, i) {
        let (p, q) = choose|p: int, q: int|
            0 <= p < f.blocks@.len() && 0 <= q < goto_targets(f.blocks@[p].goto).len()
                && edge_writable_at(
                f,
                p,
                #[trigger] goto_targets(f.blocks@[p].goto)[q] as int,
                i,
            );
        let b = goto_targets(f.blocks@[p].goto)[q] as int;
        let (x, y) = choose|x: int, y: int|
            0 <= x < f.blocks@[p].vars@.len() && 0 <= y < f.blocks@[b].vars@.len()
                && (#[trigger] f.blocks@[p].vars@[x]).0@ == (#[trigger] f.blocks@[b].vars@[y]).0@
                && (f.values@[f.blocks@[p].vars@[x].1 as int].typ == i || f.values@[f.blocks@[b].vars@[y].1 as int].typ
                == i);
        assert(g.blocks@[p].vars@[x] == f.blocks@[p].vars@[x]);
        assert(g.blocks@[b].vars@[y] == f.blocks@[b].vars@[y]);
        assert(edge_writable_at(g, p, b, i));
        assert(edge_writable(g, i));
    }
    if edge_writable(g, i) {
        let (p, q) = choose|p: int, q: int|
            0 <= p < g.blocks@.len() && 0 <= q < goto_targets(g.blocks@[p].goto).len()
                && edge_writable_at(
                g,
                p,
                #[trigger] goto_targets(g.blocks@[p].goto)[q] as int,
                i,
            );
        let b = goto_targets(g.blocks@[p].goto)[q] as int;
        let (x, y) = choose|x: int, y: int|
            0 <= x < g.blocks@[p].vars@.len() && 0 <= y < g.blocks@[b].vars@.len()
                && (#[trigger] g.blocks@[p].vars@[x]).0@ == (#[trigger] g.blocks@[b].vars@[y]).0@
                && (g.values@[g.blocks@[p].vars@[x].1 as int].typ == i || g.values@[g.blocks@[b].vars@[y].1 as int].typ
                == i);
        assert(f.blocks@[p].vars@[x] == g.blocks@[p].vars@[x]);
        assert(f.blocks@[b].vars@[y] == g.blocks@[b].vars@[y]);
        assert(edge_writable_at(f, p, b, i));
        assert(edge_writable(f, i));
    }
}

/// Every arena slot of `g` refines the corresponding slot of `f`:
/// inference only ever adds information to a type, it never weakens or
/// replaces one.
pub open spec fn types_refined(f: Function, g: Function) -> bool {
    forall|i: int| 0 <= i < f.types@.len() ==> refines(f.types@[i]@, (#[trigger] g.types@[i])@)
}

/// Slot-wise refinement is reflexive.
pub proof fn lemma_types_refined_self(f: Function)
    ensures
        types_refined(f, f),
{
    assert forall|i: int|
        0 <= i < f.types@.len() implies refines(f.types@[i]@, (#[trigger] f.types@[i])@) by {
        lemma_refines_self(f.types@[i]@);
    }
}

/// Slot-wise refinement is transitive.
pub proof fn lemma_types_refined_trans(f: Function, g: Function, h: Function)
    requires
        types_refined(f, g),
        types_refined(g, h),
        f.types@.len() == g.types@.len(),
    ensures
        types_refined(f, h),
{
    assert forall|i: int|
        0 <= i < f.types@.len() implies refines(f.types@[i]@, (#[trigger] h.types@[i])@) by {
        assert(refines(f.types@[i]@, g.types@[i]@));
        assert(refines(g.types@[i]@, h.types@[i]@));
        lemma_refines_trans(f.types@[i]@, g.types@[i]@, h.types@[i]@);
    }
}

/// Everything except the content of the arena slots is untouched by
/// inference.
pub open spec fn same_shape(f: Function, g: Function) -> bool {
    &&& g.blocks == f.blocks
    &&& g.values == f.values
    &&& g.type_params == f.type_params
    &&& g.types@.len() == f.types@.len()
}

} // verus!
