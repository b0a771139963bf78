use lox_vm::chunk::{Chunk, OpCode};
use lox_vm::value::{value_negate, Value};
use lox_vm::vm::{InterpretResult, VM};

fn val(x: f64) -> Value {
    Value { bits: x.to_bits() }
}

fn emitted_f64(vm: &VM) -> f64 {
    f64::from_bits(vm.last_emitted().unwrap().bits)
}

#[test]
fn arithmetic_scenario_emits_the_folded_result() {
    // constants 1.2 and 3.4 pushed, added; 5.6 pushed, divided; negated.
    let mut c = Chunk::new();
    let k1 = c.add_constant(val(1.2)).unwrap();
    c.write_opcode(OpCode::Constant, 123);
    c.write(k1, 123);
    let k2 = c.add_constant(val(3.4)).unwrap();
    c.write_opcode(OpCode::Constant, 123);
    c.write(k2, 123);
    c.write_opcode(OpCode::Add, 123);
    let k3 = c.add_constant(val(5.6)).unwrap();
    c.write_opcode(OpCode::Constant, 123);
    c.write(k3, 123);
    c.write_opcode(OpCode::Divide, 123);
    c.write_opcode(OpCode::Negate, 123);
    c.write_opcode(OpCode::Return, 123);

    let mut vm = VM::new();
    let r = vm.interpret(&c);
    assert_eq!(r, InterpretResult::OK);
    let expected = -((1.2f64 + 3.4f64) / 5.6f64);
    assert_eq!(emitted_f64(&vm).to_bits(), expected.to_bits());
    assert!((emitted_f64(&vm) - (-0.8214285714285714f64)).abs() < 1e-15);
}

#[test]
fn stack_is_empty_after_a_successful_run() {
    let mut c = Chunk::new();
    let k = c.add_constant(val(2.0)).unwrap();
    c.write_opcode(OpCode::Constant, 1);
    c.write(k, 1);
    c.write_opcode(OpCode::Negate, 1);
    c.write_opcode(OpCode::Return, 1);
    let mut vm = VM::new();
    assert_eq!(vm.stack_top(), 0);
    assert_eq!(vm.interpret(&c), InterpretResult::OK);
    assert_eq!(vm.stack_top(), 0);
    assert_eq!(vm.last_error(), None);
}

#[test]
fn pushes_then_pairwise_ops_evaluate_like_the_expression() {
    // push 2, 3, 4; Multiply combines 3 and 4; Add combines 2 and 12.
    let mut c = Chunk::new();
    for x in [2.0f64, 3.0, 4.0] {
        let k = c.add_constant(val(x)).unwrap();
        c.write_opcode(OpCode::Constant, 1);
        c.write(k, 1);
    }
    c.write_opcode(OpCode::Multiply, 1);
    c.write_opcode(OpCode::Add, 1);
    c.write_opcode(OpCode::Return, 1);
    let mut vm = VM::new();
    assert_eq!(vm.interpret(&c), InterpretResult::OK);
    assert_eq!(emitted_f64(&vm).to_bits(), (2.0f64 + (3.0f64 * 4.0f64)).to_bits());
    assert_eq!(vm.stack_top(), 0);
}

#[test]
fn subtraction_order_is_left_minus_right() {
    let mut c = Chunk::new();
    for x in [10.0f64, 4.0] {
        let k = c.add_constant(val(x)).unwrap();
        c.write_opcode(OpCode::Constant, 1);
        c.write(k, 1);
    }
    c.write_opcode(OpCode::Subtract, 1);
    c.write_opcode(OpCode::Return, 1);
    let mut vm = VM::new();
    assert_eq!(vm.interpret(&c), InterpretResult::OK);
    assert_eq!(emitted_f64(&vm).to_bits(), (6.0f64).to_bits());
}

#[test]
fn division_by_zero_follows_ieee_semantics() {
    let mut c = Chunk::new();
    for x in [1.0f64, 0.0] {
        let k = c.add_constant(val(x)).unwrap();
        c.write_opcode(OpCode::Constant, 1);
        c.write(k, 1);
    }
    c.write_opcode(OpCode::Divide, 1);
    c.write_opcode(OpCode::Return, 1);
    let mut vm = VM::new();
    assert_eq!(vm.interpret(&c), InterpretResult::OK);
    assert_eq!(emitted_f64(&vm).to_bits(), f64::INFINITY.to_bits());
}

#[test]
fn return_on_an_empty_stack_is_a_runtime_error() {
    // a chunk holding only the Return opcode byte, run on an empty stack
    let mut c = Chunk::new();
    c.write_opcode(OpCode::Return, 9);
    let mut vm = VM::new();
    assert_eq!(vm.interpret(&c), InterpretResult::RuntimeError);
    assert_eq!(vm.last_emitted(), None);
    assert_eq!(vm.last_error(), Some((0, 9)));
    assert_eq!(vm.stack_top(), 0);
}

#[test]
fn malformed_opcode_byte_is_a_runtime_error() {
    let mut c = Chunk::new();
    c.write(42, 5);
    let mut vm = VM::new();
    assert_eq!(vm.interpret(&c), InterpretResult::RuntimeError);
    assert_eq!(vm.last_error(), Some((0, 5)));
}

#[test]
fn running_off_the_end_is_a_runtime_error() {
    let mut c = Chunk::new();
    let k = c.add_constant(val(1.0)).unwrap();
    c.write_opcode(OpCode::Constant, 2);
    c.write(k, 2);
    // no Return: the stream just ends
    let mut vm = VM::new();
    assert_eq!(vm.interpret(&c), InterpretResult::RuntimeError);
    assert_eq!(vm.last_error(), Some((2, 0)));
}

#[test]
fn constant_index_outside_the_pool_is_a_runtime_error() {
    let mut c = Chunk::new();
    c.write_opcode(OpCode::Constant, 4);
    c.write(3, 4);
    c.write_opcode(OpCode::Return, 4);
    let mut vm = VM::new();
    assert_eq!(vm.interpret(&c), InterpretResult::RuntimeError);
    assert_eq!(vm.last_error(), Some((0, 4)));
}

#[test]
fn truncated_constant_is_a_runtime_error() {
    let mut c = Chunk::new();
    c.add_constant(val(1.0));
    c.write_opcode(OpCode::Constant, 4);
    // operand byte missing
    let mut vm = VM::new();
    assert_eq!(vm.interpret(&c), InterpretResult::RuntimeError);
    assert_eq!(vm.last_error(), Some((0, 4)));
}

#[test]
fn binary_op_underflow_is_a_runtime_error() {
    let mut c = Chunk::new();
    let k = c.add_constant(val(1.0)).unwrap();
    c.write_opcode(OpCode::Constant, 1);
    c.write(k, 1);
    c.write_opcode(OpCode::Add, 2);
    c.write_opcode(OpCode::Return, 2);
    let mut vm = VM::new();
    assert_eq!(vm.interpret(&c), InterpretResult::RuntimeError);
    // one operand is on the stack, two are needed; Add sits at offset 2
    assert_eq!(vm.last_error(), Some((2, 2)));
    assert_eq!(vm.stack_top(), 1);
}

#[test]
fn stack_overflow_is_a_runtime_error() {
    let mut c = Chunk::new();
    let k = c.add_constant(val(1.0)).unwrap();
    for _ in 0..257 {
        c.write_opcode(OpCode::Constant, 1);
        c.write(k, 1);
    }
    c.write_opcode(OpCode::Return, 1);
    let mut vm = VM::new();
    assert_eq!(vm.interpret(&c), InterpretResult::RuntimeError);
    // the 257th load, at byte offset 512, overflows the 256-slot stack
    assert_eq!(vm.last_error(), Some((512, 1)));
    assert_eq!(vm.stack_top(), 256);
}

#[test]
fn push_and_pop_respect_the_stack_discipline() {
    let mut vm = VM::new();
    assert_eq!(vm.pop(), None);
    assert!(vm.push(val(1.5)));
    assert!(vm.push(val(2.5)));
    assert_eq!(vm.stack_top(), 2);
    assert_eq!(vm.pop(), Some(val(2.5)));
    assert_eq!(vm.pop(), Some(val(1.5)));
    assert_eq!(vm.pop(), None);
    for i in 0..256 {
        assert!(vm.push(val(i as f64)));
    }
    // the 257th push is rejected
    assert!(!vm.push(val(0.0)));
    assert_eq!(vm.stack_top(), 256);
}

#[test]
fn do_binary_op_combines_the_top_two_values() {
    let mut vm = VM::new();
    assert!(vm.push(val(7.0)));
    assert!(vm.push(val(2.0)));
    assert!(vm.do_binary_op(OpCode::Divide));
    assert_eq!(vm.pop(), Some(val(3.5)));
    // with fewer than two operands it reports failure
    assert!(vm.push(val(1.0)));
    assert!(!vm.do_binary_op(OpCode::Add));
}

#[test]
fn negation_flips_the_sign_bit() {
    assert_eq!(value_negate(val(1.5)), val(-1.5));
    assert_eq!(value_negate(val(-0.25)), val(0.25));
    assert_eq!(value_negate(val(0.0)), val(-0.0));
    assert_eq!(value_negate(val(f64::INFINITY)), val(f64::NEG_INFINITY));
}

#[test]
fn free_keeps_the_machine_as_it_is() {
    let mut vm = VM::new();
    assert!(vm.push(val(1.0)));
    vm.free();
    assert_eq!(vm.stack_top(), 1);
}

#[test]
fn empty_chunk_runs_off_the_end_immediately() {
    let c = Chunk::new();
    let mut vm = VM::new();
    assert_eq!(vm.interpret(&c), InterpretResult::RuntimeError);
    assert_eq!(vm.last_error(), Some((0, 0)));
}
