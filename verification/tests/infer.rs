//! Behaviour of the passes and of the driver over whole functions.

use typeinfer::driver::infer;
use typeinfer::err::{OpKind, TypeError};
use typeinfer::ir::{
    check_wf, BBlock, CodeReference, Function, Goto, Operation, Value, ValueKnowledge,
};
use typeinfer::passes::{infer_backward, infer_forward};
use typeinfer::ty::Type;

fn val(slot: usize) -> Value {
    Value { typ: slot, value: ValueKnowledge, pos: CodeReference }
}

fn named(name: &str) -> Type {
    Type::Record(Some(name.to_string()), vec![])
}

fn unit_func(vars: Vec<(String, usize)>, seed: Type, type_params: Vec<String>) -> Function {
    Function {
        blocks: vec![BBlock {
            vars,
            ops: vec![(0, Operation::Tuple(Vec::new())), (1, Operation::Return(0))],
            goto: Goto::DeadEnd,
        }],
        values: vec![val(0)],
        types: vec![seed],
        type_params,
    }
}

// single basic block functions
#[test]
fn emptyfunc() {
    assert_eq!(
        infer(unit_func(Vec::new(), Type::Unknown(1), Vec::new())),
        Ok(unit_func(Vec::new(), Type::Record(None, vec![]), Vec::new()))
    );
}

#[test]
fn dropfunc() {
    let param = vec![("param".to_string(), 0)];
    assert_eq!(
        infer(unit_func(param.clone(), Type::Unknown(2), vec!["Drop".to_string()])),
        Ok(unit_func(param, Type::Record(None, Vec::new()), vec!["Drop".to_string()]))
    );
}

#[test]
fn forward_pass_refines_output() {
    let mut func = unit_func(Vec::new(), Type::Unknown(1), Vec::new());
    assert_eq!(infer_forward(&mut func), Ok(true));
    assert_eq!(func.types[0], Type::Record(None, vec![]));
    // a second sweep finds everything already satisfied
    assert_eq!(infer_forward(&mut func), Ok(false));
}

#[test]
fn backward_non_record_output_is_malformed() {
    // the tuple's output slot holds a concrete non-tuple type
    let mut func = unit_func(Vec::new(), named("int"), Vec::new());
    assert_eq!(infer_backward(&mut func), Err(TypeError::MalformedConstraint));
}

#[test]
fn backward_unknown_output_is_malformed() {
    let mut func = unit_func(Vec::new(), Type::Unknown(1), Vec::new());
    assert_eq!(infer_backward(&mut func), Err(TypeError::MalformedConstraint));
}

#[test]
fn driver_rejects_non_tuple_seed() {
    // the forward rule meets the contradiction first and reports it
    assert_eq!(
        infer(unit_func(Vec::new(), named("int"), Vec::new())),
        Err(TypeError::Mismatch)
    );
}

#[test]
fn unsupported_operation_is_reported() {
    let func = Function {
        blocks: vec![BBlock {
            vars: Vec::new(),
            ops: vec![(0, Operation::Variable("v".to_string()))],
            goto: Goto::DeadEnd,
        }],
        values: vec![val(0)],
        types: vec![Type::Unknown(1)],
        type_params: Vec::new(),
    };
    assert_eq!(infer(func), Err(TypeError::UnsupportedOperation(OpKind::Variable)));
}

fn cross_block_func() -> Function {
    // block 0 defines a value for "x" and jumps to block 1, whose own
    // binding for "x" is fixed through a tuple whose output is pre-seeded
    Function {
        blocks: vec![
            BBlock {
                vars: vec![("x".to_string(), 0)],
                ops: Vec::new(),
                goto: Goto::Goto(1),
            },
            BBlock {
                vars: vec![("x".to_string(), 1)],
                ops: vec![(2, Operation::Tuple(vec![1])), (3, Operation::Return(2))],
                goto: Goto::DeadEnd,
            },
        ],
        values: vec![val(0), val(1), val(2)],
        types: vec![
            Type::Unknown(1),
            Type::Unknown(2),
            Type::Record(None, vec![named("i32")]),
        ],
        type_params: Vec::new(),
    }
}

#[test]
fn cross_block_binding_propagates_back() {
    let result = infer(cross_block_func()).unwrap();
    assert_eq!(result.types[0], named("i32"));
    assert_eq!(result.types[1], named("i32"));
    assert_eq!(result.types[2], Type::Record(None, vec![named("i32")]));
}

#[test]
fn rerunning_on_output_changes_nothing() {
    let once = infer(cross_block_func()).unwrap();
    let again = Function {
        blocks: once.blocks,
        values: once.values,
        types: once.types,
        type_params: once.type_params,
    };
    let expected = infer(cross_block_func()).unwrap();
    assert_eq!(infer(again), Ok(expected));
}

#[test]
fn incompatible_loop_rejoin_is_mismatch() {
    // a loop through a branch whose rejoining binding carries an
    // incompatible type must be reported, not iterated forever
    let func = Function {
        blocks: vec![
            BBlock {
                vars: vec![("x".to_string(), 0)],
                ops: Vec::new(),
                goto: Goto::Branch(0, 1, 0),
            },
            BBlock {
                vars: vec![("x".to_string(), 1)],
                ops: Vec::new(),
                goto: Goto::Goto(0),
            },
        ],
        values: vec![val(0), val(1)],
        types: vec![named("headervalue"), named("latchvalue")],
        type_params: Vec::new(),
    };
    assert_eq!(infer(func), Err(TypeError::Mismatch));
}

#[test]
fn function_without_blocks_is_already_stable() {
    let func = Function {
        blocks: Vec::new(),
        values: Vec::new(),
        types: Vec::new(),
        type_params: Vec::new(),
    };
    let result = infer(func).unwrap();
    assert_eq!(result.blocks.len(), 0);
    assert_eq!(result.types.len(), 0);
}

#[test]
fn shared_arena_slot_updates_all_values() {
    // v0 and v2 share one arena slot; fixing v0 through the tuple's
    // backward rule is observed by v2 without any copy
    let func = Function {
        blocks: vec![BBlock {
            vars: Vec::new(),
            ops: vec![(1, Operation::Tuple(vec![0])), (2, Operation::Return(1))],
            goto: Goto::DeadEnd,
        }],
        values: vec![val(0), val(1), val(0)],
        types: vec![Type::Unknown(1), Type::Record(None, vec![named("i32")])],
        type_params: Vec::new(),
    };
    let result = infer(func).unwrap();
    assert_eq!(result.types[result.values[2].typ], named("i32"));
}

#[test]
fn check_wf_accepts_good_functions() {
    assert!(check_wf(&unit_func(Vec::new(), Type::Unknown(1), Vec::new())));
    assert!(check_wf(&cross_block_func()));
}

#[test]
fn check_wf_rejects_out_of_range_indices() {
    // arena index past the end
    let f1 = Function {
        blocks: Vec::new(),
        values: vec![val(3)],
        types: vec![Type::Unknown(1)],
        type_params: Vec::new(),
    };
    assert!(!check_wf(&f1));
    // consumed value index past the end
    let f2 = Function {
        blocks: vec![BBlock {
            vars: Vec::new(),
            ops: vec![(0, Operation::Tuple(vec![9]))],
            goto: Goto::DeadEnd,
        }],
        values: vec![val(0)],
        types: vec![Type::Unknown(1)],
        type_params: Vec::new(),
    };
    assert!(!check_wf(&f2));
    // jump target past the end
    let f3 = Function {
        blocks: vec![BBlock { vars: Vec::new(), ops: Vec::new(), goto: Goto::Goto(7) }],
        values: Vec::new(),
        types: Vec::new(),
        type_params: Vec::new(),
    };
    assert!(!check_wf(&f3));
    // binding past the end of the value table
    let f4 = Function {
        blocks: vec![BBlock {
            vars: vec![("x".to_string(), 5)],
            ops: Vec::new(),
            goto: Goto::DeadEnd,
        }],
        values: Vec::new(),
        types: Vec::new(),
        type_params: Vec::new(),
    };
    assert!(!check_wf(&f4));
    // one name bound twice in a block
    let f5 = Function {
        blocks: vec![BBlock {
            vars: vec![("x".to_string(), 0), ("x".to_string(), 1)],
            ops: Vec::new(),
            goto: Goto::DeadEnd,
        }],
        values: vec![val(0), val(0)],
        types: vec![Type::Unknown(1)],
        type_params: Vec::new(),
    };
    assert!(!check_wf(&f5));
}

#[test]
fn unconstrained_slots_stay_unknown() {
    let func = Function {
        blocks: vec![BBlock {
            vars: Vec::new(),
            ops: vec![(1, Operation::Return(0))],
            goto: Goto::DeadEnd,
        }],
        values: vec![val(0)],
        types: vec![Type::Unknown(5)],
        type_params: Vec::new(),
    };
    let result = infer(func).unwrap();
    assert_eq!(result.types[0], Type::Unknown(5));
}
