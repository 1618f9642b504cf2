//! Behaviour of the pairwise unification primitive.

use typeinfer::err::TypeError;
use typeinfer::ty::{superimpose, Type};

fn named(name: &str, fields: Vec<Type>) -> Type {
    Type::Record(Some(name.to_string()), fields)
}

fn tuple(fields: Vec<Type>) -> Type {
    Type::Record(None, fields)
}

#[test]
fn unknown_left_yields_other() {
    let x = named("point", vec![Type::Unknown(7)]);
    assert_eq!(superimpose(&Type::Unknown(1), &x), Ok(named("point", vec![Type::Unknown(7)])));
}

#[test]
fn unknown_right_yields_other() {
    let x = tuple(vec![]);
    assert_eq!(superimpose(&x, &Type::Unknown(9)), Ok(tuple(vec![])));
}

#[test]
fn unify_with_self_is_identity() {
    let x = named("pair", vec![named("int", vec![]), Type::Unknown(3)]);
    let same = named("pair", vec![named("int", vec![]), Type::Unknown(3)]);
    assert_eq!(superimpose(&x, &x), Ok(same));
}

#[test]
fn distinct_concrete_types_mismatch() {
    let a = named("apple", vec![]);
    let b = named("pear", vec![]);
    assert_eq!(superimpose(&a, &b), Err(TypeError::Mismatch));
}

#[test]
fn named_against_anonymous_mismatch() {
    let a = named("apple", vec![]);
    let b = tuple(vec![]);
    assert_eq!(superimpose(&a, &b), Err(TypeError::Mismatch));
}

#[test]
fn arity_mismatch() {
    let a = tuple(vec![Type::Unknown(1)]);
    let b = tuple(vec![]);
    assert_eq!(superimpose(&a, &b), Err(TypeError::Mismatch));
}

#[test]
fn fieldwise_unification_fills_unknowns() {
    let a = tuple(vec![Type::Unknown(1), named("int", vec![])]);
    let b = tuple(vec![named("str", vec![]), Type::Unknown(2)]);
    let expected = tuple(vec![named("str", vec![]), named("int", vec![])]);
    assert_eq!(superimpose(&a, &b), Ok(expected));
}

#[test]
fn nested_fields_unify() {
    let a = tuple(vec![tuple(vec![Type::Unknown(1)])]);
    let b = tuple(vec![tuple(vec![named("bool", vec![])])]);
    let expected = tuple(vec![tuple(vec![named("bool", vec![])])]);
    assert_eq!(superimpose(&a, &b), Ok(expected));
}

#[test]
fn nested_field_mismatch_fails_whole_call() {
    let a = named("wrap", vec![named("left", vec![])]);
    let b = named("wrap", vec![named("right", vec![])]);
    assert_eq!(superimpose(&a, &b), Err(TypeError::Mismatch));
}

#[test]
fn commutative_when_both_succeed() {
    let a = tuple(vec![Type::Unknown(1), named("int", vec![])]);
    let b = tuple(vec![named("str", vec![]), Type::Unknown(2)]);
    assert_eq!(superimpose(&a, &b), superimpose(&b, &a));
}

#[test]
fn commutative_failure_too() {
    let a = named("apple", vec![]);
    let b = named("pear", vec![]);
    assert_eq!(superimpose(&a, &b), superimpose(&b, &a));
}
