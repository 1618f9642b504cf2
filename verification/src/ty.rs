//! The type representation and the pairwise unification primitive
//! ("superimpose"): combining two types into their most specific common
//! type, or failing with a mismatch.

use vstd::prelude::*;
use crate::err::TypeError;

verus! {

/// A type in the intermediate representation: either `Unknown`, an
/// unresolved type variable carrying an opaque identifier that unification
/// never consults, or `Record`, a structurally-typed aggregate — an
/// anonymous tuple when the name is absent, a named structure otherwise —
/// with an ordered list of field types. Field order is significant and
/// fixed at creation.
#[derive(Debug, PartialEq)]
pub enum Type {
    Unknown(u32),
    Record(Option<String>, Vec<Type>),
}

/// The mathematical model of a `Type`: identifiers become `nat`, names
/// become character sequences, field lists become sequences.
pub enum SpecType {
    Unknown(nat),
    Record(Option<Seq<char>>, Seq<SpecType>),
}

/// The model of a record name: the characters, if one is present.
pub open spec fn spec_name(n: Option<String>) -> Option<Seq<char>> {
    match n {
        Some(s) => Some(s@),
        None => None,
    }
}

/// The model of a type: what `t@` stands for.
pub open spec fn ty_model(t: Type) -> SpecType
    decreases t,
{
    match t {
        Type::Unknown(id) => SpecType::Unknown(id as nat),
        Type::Record(name, fields) => SpecType::Record(
            spec_name(name),
            Seq::new(
                fields@.len(),
                |i: int|
                    if 0 <= i < fields@.len() {
                        ty_model(fields@[i])
                    } else {
                        SpecType::Unknown(0)
                    },
            ),
        ),
    }
}

impl View for Type {
    type V = SpecType;

    open spec fn view(&self) -> SpecType {
        ty_model(*self)
    }
}

/// Unification: an `Unknown` is the least-informative type, so unifying it
/// with anything yields that thing; two records unify field by field when
/// their names and arities agree; everything else is a mismatch.
pub open spec fn spec_unify(a: SpecType, b: SpecType) -> Option<SpecType>
    decreases a, b,
{
    match (a, b) {
        (SpecType::Unknown(_), _) => Some(b),
        (_, SpecType::Unknown(_)) => Some(a),
        (SpecType::Record(n1, f1), SpecType::Record(n2, f2)) => {
            if n1 == n2 {
                match spec_unify_fields(f1, f2) {
                    Some(fs) => Some(SpecType::Record(n1, fs)),
                    None => None,
                }
            } else {
                None
            }
        },
    }
}

/// Position-by-position unification of two field lists; fails when the
/// arities differ or any position fails.
pub open spec fn spec_unify_fields(fa: Seq<SpecType>, fb: Seq<SpecType>) -> Option<Seq<SpecType>>
    decreases fa, fb,
{
    if fa.len() != fb.len() {
        None
    } else if fa.len() == 0 {
        Some(Seq::empty())
    } else {
        match (spec_unify(fa[0], fb[0]), spec_unify_fields(fa.drop_first(), fb.drop_first())) {
            (Some(t), Some(rest)) => Some(seq![t] + rest),
            _ => None,
        }
    }
}

/// Field-list unification succeeds exactly when the arities agree and every
/// position unifies, and then its result is the position-wise unification.
pub proof fn lemma_unify_fields_pointwise(fa: Seq<SpecType>, fb: Seq<SpecType>)
    ensures
        spec_unify_fields(fa, fb) is Some <==> (fa.len() == fb.len() && forall|i: int|
            0 <= i < fa.len() ==> (#[trigger] spec_unify(fa[i], fb[i])) is Some),
        spec_unify_fields(fa, fb) matches Some(fs) ==> fs.len() == fa.len() && forall|i: int|
            0 <= i < fa.len() ==> fs[i] == (#[trigger] spec_unify(fa[i], fb[i]))->0,
    decreases fa.len(),
{
    if fa.len() == fb.len() && fa.len() > 0 {
        let fa1 = fa.drop_first();
        let fb1 = fb.drop_first();
        lemma_unify_fields_pointwise(fa1, fb1);
        if spec_unify(fa[0], fb[0]) is Some && spec_unify_fields(fa1, fb1) is Some {
            let t = spec_unify(fa[0], fb[0])->0;
            let rest = spec_unify_fields(fa1, fb1)->0;
            let fs = seq![t] + rest;
            assert(spec_unify_fields(fa, fb) == Some(fs));
            assert(fs.len() == fa.len());
            assert forall|i: int| 0 <= i < fa.len() implies (#[trigger] spec_unify(fa[i], fb[i]))
                is Some && fs[i] == spec_unify(fa[i], fb[i])->0 by {
                if i == 0 {
                    assert(fs[0] == t);
                } else {
                    assert(fa1[i - 1] == fa[i]);
                    assert(fb1[i - 1] == fb[i]);
                    assert(spec_unify(fa1[i - 1], fb1[i - 1]) is Some);
                    assert(rest[i - 1] == spec_unify(fa1[i - 1], fb1[i - 1])->0);
                    assert(fs[i] == rest[i - 1]);
                }
            }
        } else {
            assert(spec_unify_fields(fa, fb) is None);
            if spec_unify(fa[0], fb[0]) is Some {
                assert(spec_unify_fields(fa1, fb1) is None);
                let j = choose|j: int|
                    0 <= j < fa1.len() && !((#[trigger] spec_unify(fa1[j], fb1[j])) is Some);
                assert(fa1[j] == fa[j + 1]);
                assert(fb1[j] == fb[j + 1]);
                assert(!(spec_unify(fa[j + 1], fb[j + 1]) is Some));
            }
        }
    }
}

/// A type with no unresolved variable anywhere inside it.
pub open spec fn concrete(t: SpecType) -> bool
    decreases t,
{
    match t {
        SpecType::Unknown(_) => false,
        SpecType::Record(_, f) => forall|i: int| 0 <= i < f.len() ==> concrete(#[trigger] f[i]),
    }
}

/// A type with every variable identifier erased: what remains of a type
/// when the opaque debug metadata of its unknowns is disregarded.
pub open spec fn shape(t: SpecType) -> SpecType
    decreases t,
{
    match t {
        SpecType::Unknown(_) => SpecType::Unknown(0),
        SpecType::Record(n, f) => SpecType::Record(
            n,
            Seq::new(
                f.len(),
                |i: int|
                    if 0 <= i < f.len() {
                        shape(f[i])
                    } else {
                        SpecType::Unknown(0)
                    },
            ),
        ),
    }
}

/// Unifying an unknown with any type yields that type; in the other
/// operand order the same holds as long as that type is not itself an
/// unknown (two unknowns unify to the second operand, so the variable
/// identifier of the result may then differ from the first operand's).
pub proof fn lemma_unify_unknown(id: nat, x: SpecType)
    ensures
        spec_unify(SpecType::Unknown(id), x) == Some(x),
        !(x is Unknown) ==> spec_unify(x, SpecType::Unknown(id)) == Some(x),
{
}

/// Unification is idempotent: every type unifies with itself, to itself.
pub proof fn lemma_unify_self(x: SpecType)
    ensures
        spec_unify(x, x) == Some(x),
    decreases x,
{
    match x {
        SpecType::Unknown(_) => {},
        SpecType::Record(n, f) => {
            assert forall|i: int| 0 <= i < f.len() implies (#[trigger] spec_unify(f[i], f[i]))
                == Some(f[i]) by {
                lemma_unify_self(f[i]);
            }
            lemma_unify_fields_pointwise(f, f);
            assert(spec_unify_fields(f, f) is Some);
            let fs = spec_unify_fields(f, f)->0;
            assert forall|k: int| 0 <= k < f.len() implies fs[k] == f[k] by {
                assert(spec_unify(f[k], f[k]) == Some(f[k]));
            }
            assert(fs =~= f);
        },
    }
}

/// Two distinct types with no unknown anywhere inside either cannot be
/// unified: nothing is left to refine, so any difference is a mismatch.
pub proof fn lemma_unify_concrete(a: SpecType, b: SpecType)
    requires
        concrete(a),
        concrete(b),
        a != b,
    ensures
        spec_unify(a, b) is None,
    decreases a,
{
    match (a, b) {
        (SpecType::Record(n1, f1), SpecType::Record(n2, f2)) => {
            if n1 == n2 && spec_unify_fields(f1, f2) is Some {
                lemma_unify_fields_pointwise(f1, f2);
                assert(f1.len() == f2.len());
                assert forall|i: int| 0 <= i < f1.len() implies f1[i] == f2[i] by {
                    assert(concrete(f1[i]));
                    assert(concrete(f2[i]));
                    if f1[i] != f2[i] {
                        lemma_unify_concrete(f1[i], f2[i]);
                        assert(spec_unify(f1[i], f2[i]) is Some);
                    }
                }
                assert(f1 =~= f2);
            }
        },
        _ => {
            assert(!concrete(SpecType::Unknown(0nat)));
        },
    }
}

/// When at least one operand holds no unknown at all, swapping the
/// operands does not change the result in any way.
pub proof fn lemma_unify_commutative_concrete(a: SpecType, b: SpecType)
    requires
        concrete(a) || concrete(b),
    ensures
        spec_unify(a, b) == spec_unify(b, a),
    decreases a, b,
{
    match (a, b) {
        (SpecType::Unknown(_), SpecType::Unknown(_)) => {},
        (SpecType::Unknown(_), _) => {},
        (_, SpecType::Unknown(_)) => {},
        (SpecType::Record(n1, f1), SpecType::Record(n2, f2)) => {
            if n1 == n2 && f1.len() == f2.len() {
                assert forall|i: int|
                    0 <= i < f1.len() implies (#[trigger] spec_unify(f1[i], f2[i]))
                    == spec_unify(f2[i], f1[i]) by {
                    assert(concrete(f1[i]) || concrete(f2[i]));
                    lemma_unify_commutative_concrete(f1[i], f2[i]);
                }
                lemma_unify_fields_pointwise(f1, f2);
                lemma_unify_fields_pointwise(f2, f1);
                assert forall|i: int|
                    0 <= i < f2.len() implies ((#[trigger] spec_unify(f2[i], f1[i]))
                    is Some <==> spec_unify(f1[i], f2[i]) is Some) by {
                    assert(spec_unify(f1[i], f2[i]) == spec_unify(f2[i], f1[i]));
                }
                if spec_unify_fields(f1, f2) is Some {
                    assert(spec_unify_fields(f2, f1) is Some);
                    assert forall|i: int|
                        0 <= i < f1.len() implies spec_unify_fields(f1, f2)->0[i]
                        == spec_unify_fields(f2, f1)->0[i] by {
                        assert(spec_unify_fields(f1, f2)->0[i] == spec_unify(f1[i], f2[i])->0);
                        assert(spec_unify_fields(f2, f1)->0[i] == spec_unify(f2[i], f1[i])->0);
                    }
                    assert(spec_unify_fields(f1, f2)->0 =~= spec_unify_fields(f2, f1)->0);
                } else {
                    assert(spec_unify_fields(f2, f1) is None);
                }
            }
        },
    }
}

/// Unification is commutative: swapping the operands never changes whether
/// it succeeds, and a successful result is the same type up to the
/// identifiers of unknowns (which carry no meaning for unification).
pub proof fn lemma_unify_commutative(a: SpecType, b: SpecType)
    ensures
        spec_unify(a, b) is Some <==> spec_unify(b, a) is Some,
        spec_unify(a, b) is Some ==> shape(spec_unify(a, b)->0) == shape(spec_unify(b, a)->0),
    decreases a, b,
{
    match (a, b) {
        (SpecType::Unknown(_), SpecType::Unknown(_)) => {},
        (SpecType::Unknown(_), _) => {},
        (_, SpecType::Unknown(_)) => {},
        (SpecType::Record(n1, f1), SpecType::Record(n2, f2)) => {
            assert forall|i: int|
                0 <= i < f1.len() && i < f2.len() implies ((#[trigger] spec_unify(f1[i], f2[i]))
                is Some <==> spec_unify(f2[i], f1[i]) is Some) && (spec_unify(f1[i], f2[i])
                is Some ==> shape(spec_unify(f1[i], f2[i])->0) == shape(
                spec_unify(f2[i], f1[i])->0,
            )) by {
                lemma_unify_commutative(f1[i], f2[i]);
            }
            lemma_unify_fields_pointwise(f1, f2);
            lemma_unify_fields_pointwise(f2, f1);
            if n1 == n2 && spec_unify_fields(f1, f2) is Some {
                let fs12 = spec_unify_fields(f1, f2)->0;
                assert(f1.len() == f2.len());
                assert forall|i: int|
                    0 <= i < f2.len() implies (#[trigger] spec_unify(f2[i], f1[i])) is Some by {
                    assert(spec_unify(f1[i], f2[i]) is Some);
                }
                assert(spec_unify_fields(f2, f1) is Some);
                let fs21 = spec_unify_fields(f2, f1)->0;
                assert forall|k: int|
                    0 <= k < fs12.len() implies shape(fs12[k]) == shape(fs21[k]) by {
                    assert(fs12[k] == spec_unify(f1[k], f2[k])->0);
                    assert(fs21[k] == spec_unify(f2[k], f1[k])->0);
                }
                let s12 = shape(SpecType::Record(n1, fs12));
                let s21 = shape(SpecType::Record(n2, fs21));
                assert forall|k: int|
                    0 <= k < fs12.len() implies s12->Record_1[k] == s21->Record_1[k] by {
                    assert(s12->Record_1[k] == shape(fs12[k]));
                    assert(s21->Record_1[k] == shape(fs21[k]));
                }
                assert(s12->Record_1 =~= s21->Record_1);
                assert(s12 == s21);
            }
        },
    }
}

/// `b` refines `a`: `b` carries at least the information of `a`, so that
/// unifying `a` into `b` changes nothing.
pub open spec fn refines(a: SpecType, b: SpecType) -> bool {
    spec_unify(a, b) == Some(b)
}

/// A successful unification is a common refinement of both operands.
pub proof fn lemma_unify_upper_bound(a: SpecType, b: SpecType)
    ensures
        spec_unify(a, b) matches Some(r) ==> refines(a, r) && refines(b, r),
    decreases a, b,
{
    match (a, b) {
        (SpecType::Unknown(_), _) => {
            lemma_unify_self(b);
        },
        (_, SpecType::Unknown(_)) => {
            lemma_unify_self(a);
        },
        (SpecType::Record(n1, f1), SpecType::Record(n2, f2)) => {
            if n1 == n2 && spec_unify_fields(f1, f2) is Some {
                lemma_unify_fields_pointwise(f1, f2);
                let fs = spec_unify_fields(f1, f2)->0;
                assert forall|i: int|
                    0 <= i < f1.len() implies (#[trigger] spec_unify(f1[i], fs[i])) == Some(
                    fs[i],
                ) && spec_unify(f2[i], fs[i]) == Some(fs[i]) by {
                    lemma_unify_upper_bound(f1[i], f2[i]);
                    assert(fs[i] == spec_unify(f1[i], f2[i])->0);
                }
                lemma_unify_fields_pointwise(f1, fs);
                lemma_unify_fields_pointwise(f2, fs);
                assert(spec_unify_fields(f1, fs) is Some);
                assert forall|i: int|
                    0 <= i < f2.len() implies (#[trigger] spec_unify(f2[i], fs[i])) is Some by {
                    assert(spec_unify(f1[i], fs[i]) == Some(fs[i]));
                }
                assert(spec_unify_fields(f2, fs) is Some);
                assert forall|i: int|
                    0 <= i < fs.len() implies spec_unify_fields(f1, fs)->0[i] == fs[i]
                    && spec_unify_fields(f2, fs)->0[i] == fs[i] by {
                    assert(spec_unify(f1[i], fs[i]) == Some(fs[i]));
                    assert(spec_unify(f2[i], fs[i]) == Some(fs[i]));
                }
                assert(spec_unify_fields(f1, fs)->0 =~= fs);
                assert(spec_unify_fields(f2, fs)->0 =~= fs);
            }
        },
    }
}

/// Refinement is reflexive: no type carries less information than itself.
pub proof fn lemma_refines_self(a: SpecType)
    ensures
        refines(a, a),
{
    lemma_unify_self(a);
}

/// Refinement is transitive: information only ever accumulates.
pub proof fn lemma_refines_trans(a: SpecType, b: SpecType, c: SpecType)
    requires
        refines(a, b),
        refines(b, c),
    ensures
        refines(a, c),
    decreases a, b, c,
{
    match (a, b, c) {
        (SpecType::Record(n1, f1), SpecType::Record(n2, f2), SpecType::Record(n3, f3)) => {
            lemma_unify_fields_pointwise(f1, f2);
            lemma_unify_fields_pointwise(f2, f3);
            assert(spec_unify_fields(f1, f2)->0 == f2);
            assert(spec_unify_fields(f2, f3)->0 == f3);
            assert forall|i: int|
                0 <= i < f1.len() implies (#[trigger] spec_unify(f1[i], f3[i])) == Some(
                f3[i],
            ) by {
                assert(spec_unify(f1[i], f2[i]) == Some(f2[i]));
                assert(spec_unify(f2[i], f3[i]) == Some(f3[i]));
                lemma_refines_trans(f1[i], f2[i], f3[i]);
            }
            lemma_unify_fields_pointwise(f1, f3);
            assert(spec_unify_fields(f1, f3) is Some);
            assert forall|i: int|
                0 <= i < f1.len() implies spec_unify_fields(f1, f3)->0[i] == f3[i] by {
                assert(spec_unify(f1[i], f3[i]) == Some(f3[i]));
            }
            assert(spec_unify_fields(f1, f3)->0 =~= f3);
        },
        _ => {},
    }
}

/// A successful unification is the *most specific* common type: any type
/// that refines both operands also refines their unification — and when a
/// common refinement exists at all, unification succeeds.
pub proof fn lemma_unify_most_specific(a: SpecType, b: SpecType, c: SpecType)
    requires
        refines(a, c),
        refines(b, c),
    ensures
        spec_unify(a, b) is Some,
        refines(spec_unify(a, b)->0, c),
    decreases a, b,
{
    match (a, b) {
        (SpecType::Unknown(_), _) => {},
        (_, SpecType::Unknown(_)) => {},
        (SpecType::Record(n1, f1), SpecType::Record(n2, f2)) => {
            match c {
                SpecType::Unknown(_) => {
                    assert(spec_unify(a, c) == Some(a));
                },
                SpecType::Record(nc, fc) => {
                    lemma_unify_fields_pointwise(f1, fc);
                    lemma_unify_fields_pointwise(f2, fc);
                    assert(n1 == nc && n2 == nc);
                    assert(f1.len() == fc.len() && f2.len() == fc.len());
                    assert(spec_unify_fields(f1, fc)->0 == fc);
                    assert(spec_unify_fields(f2, fc)->0 == fc);
                    assert forall|i: int|
                        0 <= i < f1.len() implies (#[trigger] spec_unify(f1[i], f2[i]))
                        is Some && spec_unify(spec_unify(f1[i], f2[i])->0, fc[i]) == Some(
                        fc[i],
                    ) by {
                        assert(spec_unify(f1[i], fc[i]) == Some(fc[i]));
                        assert(spec_unify(f2[i], fc[i]) == Some(fc[i]));
                        lemma_unify_most_specific(f1[i], f2[i], fc[i]);
                    }
                    lemma_unify_fields_pointwise(f1, f2);
                    assert(spec_unify(a, b) is Some);
                    let fs = spec_unify_fields(f1, f2)->0;
                    lemma_unify_fields_pointwise(fs, fc);
                    assert forall|i: int|
                        0 <= i < fs.len() implies (#[trigger] spec_unify(fs[i], fc[i])) == Some(
                        fc[i],
                    ) by {
                        assert(fs[i] == spec_unify(f1[i], f2[i])->0);
                    }
                    assert(spec_unify_fields(fs, fc) is Some);
                    assert forall|i: int|
                        0 <= i < fc.len() implies spec_unify_fields(fs, fc)->0[i] == fc[i] by {
                        assert(spec_unify(fs[i], fc[i]) == Some(fc[i]));
                    }
                    assert(spec_unify_fields(fs, fc)->0 =~= fc);
                },
            }
        },
    }
}

/// Whether two record names are the same.
pub fn name_eq(a: &Option<String>, b: &Option<String>) -> (r: bool)
    ensures
        r == (spec_name(*a) == spec_name(*b)),
{
    match (a, b) {
        (None, None) => true,
        (Some(x), Some(y)) => *x == *y,
        _ => false,
    }
}

/// A copy of a record name with the same characters.
pub fn name_clone(n: &Option<String>) -> (r: Option<String>)
    ensures
        spec_name(r) == spec_name(*n),
{
    match n {
        Some(s) => Some(s.clone()),
        None => None,
    }
}

/// Structural equality of two types, identifiers of unknowns included.
#[verifier::loop_isolation(false)]
pub fn type_eq(a: &Type, b: &Type) -> (r: bool)
    ensures
        r == (a@ == b@),
    decreases *a,
{
    match (a, b) {
        (Type::Unknown(i), Type::Unknown(j)) => *i == *j,
        (Type::Record(n1, f1), Type::Record(n2, f2)) => {
            if !name_eq(n1, n2) || f1.len() != f2.len() {
                proof {
                    assert(a@->Record_0 == spec_name(*n1));
                    assert(b@->Record_0 == spec_name(*n2));
                    assert(a@->Record_1.len() == f1@.len());
                    assert(b@->Record_1.len() == f2@.len());
                }
                return false;
            }
            let mut i: usize = 0;
            while i < f1.len()
                invariant
                    i <= f1@.len(),
                    forall|k: int| 0 <= k < i ==> f1@[k]@ == f2@[k]@,
                decreases f1@.len() - i,
            {
                if !type_eq(&f1[i], &f2[i]) {
                    assert(a@->Record_1[i as int] != b@->Record_1[i as int]);
                    return false;
                }
                i += 1;
            }
            proof {
                assert(a@->Record_1 =~= b@->Record_1);
            }
            true
        },
        (Type::Unknown(_), Type::Record(_, _)) => false,
        (Type::Record(_, _), Type::Unknown(_)) => false,
    }
}

/// A copy of a type with the same model.
#[verifier::loop_isolation(false)]
pub fn type_clone(t: &Type) -> (r: Type)
    ensures
        r@ == t@,
    decreases *t,
{
    match t {
        Type::Unknown(id) => Type::Unknown(*id),
        Type::Record(name, fields) => {
            let mut fs: Vec<Type> = Vec::new();
            let mut i: usize = 0;
            while i < fields.len()
                invariant
                    i <= fields@.len(),
                    fs@.len() == i,
                    forall|k: int| 0 <= k < i ==> fs@[k]@ == fields@[k]@,
                decreases fields@.len() - i,
            {
                fs.push(type_clone(&fields[i]));
                i += 1;
            }
            let r = Type::Record(name_clone(name), fs);
            proof {
                assert(r@->Record_1 =~= t@->Record_1);
            }
            r
        },
    }
}

/// Combine two types into their most specific common type, per
/// `spec_unify`, or report a mismatch.
#[verifier::loop_isolation(false)]
pub fn superimpose(a: &Type, b: &Type) -> (r: Result<Type, TypeError>)
    ensures
        spec_unify(a@, b@) is Some ==> r is Ok && r->Ok_0@ == spec_unify(a@, b@)->0,
        spec_unify(a@, b@) is None ==> r is Err && r->Err_0 == TypeError::Mismatch,
    decreases *a,
{
    match (a, b) {
        (Type::Unknown(_), _) => Ok(type_clone(b)),
        (_, Type::Unknown(_)) => Ok(type_clone(a)),
        (Type::Record(n1, f1), Type::Record(n2, f2)) => {
            if !name_eq(n1, n2) {
                return Err(TypeError::Mismatch);
            }
            if f1.len() != f2.len() {
                return Err(TypeError::Mismatch);
            }
            let mut fields: Vec<Type> = Vec::new();
            let mut i: usize = 0;
            while i < f1.len()
                invariant
                    i <= f1@.len(),
                    fields@.len() == i,
                    forall|k: int| 0 <= k < i ==> (#[trigger] spec_unify(
                        a@->Record_1[k],
                        b@->Record_1[k],
                    )) is Some && fields@[k]@ == spec_unify(
                        a@->Record_1[k],
                        b@->Record_1[k],
                    )->0,
                decreases f1@.len() - i,
            {
                match superimpose(&f1[i], &f2[i]) {
                    Ok(t) => {
                        fields.push(t);
                    },
                    Err(e) => {
                        proof {
                            assert(!(spec_unify(a@->Record_1[i as int], b@->Record_1[i as int])
                                is Some));
                            lemma_unify_fields_pointwise(a@->Record_1, b@->Record_1);
                        }
                        return Err(e);
                    },
                }
                i += 1;
            }
            let r = Type::Record(name_clone(n1), fields);
            proof {
                lemma_unify_fields_pointwise(a@->Record_1, b@->Record_1);
                assert(a@->Record_1.len() == f1@.len());
                assert(b@->Record_1.len() == f2@.len());
                assert(spec_unify_fields(a@->Record_1, b@->Record_1) is Some);
                let fs = spec_unify_fields(a@->Record_1, b@->Record_1)->0;
                assert forall|k: int| 0 <= k < fields@.len() implies r@->Record_1[k] == fs[k] by {
                    assert(spec_unify(a@->Record_1[k], b@->Record_1[k]) is Some);
                    assert(fs[k] == spec_unify(a@->Record_1[k], b@->Record_1[k])->0);
                    assert(r@->Record_1[k] == ty_model(fields@[k]));
                }
                assert(r@->Record_1.len() == fs.len());
                assert(r@->Record_1 =~= fs);
            }
            Ok(r)
        },
    }
}

} // verus!
