use lox_vm::chunk::{Chunk, OpCode};
use lox_vm::value::Value;

fn val(x: f64) -> Value {
    Value { bits: x.to_bits() }
}

#[test]
fn x() {
    let mut c = Chunk::new();
    let constant = c.add_constant(val(1.2));
    c.write_opcode(OpCode::Constant, 1);

    assert_eq!(constant, Some(0));
}

#[test]
fn add_constant_returns_indices_in_order() {
    let mut c = Chunk::new();
    for k in 0..256u32 {
        let idx = c.add_constant(val(k as f64));
        assert_eq!(idx, Some(k as u8));
    }
    // the 257th insertion is rejected and the pool is left as it was
    assert_eq!(c.add_constant(val(999.0)), None);
    assert_eq!(c.constants().len(), 256);
    assert_eq!(c.constants().get(7), val(7.0));
}

#[test]
fn opcode_bytes_round_trip() {
    let ops = [
        OpCode::Constant,
        OpCode::Add,
        OpCode::Subtract,
        OpCode::Multiply,
        OpCode::Divide,
        OpCode::Negate,
        OpCode::Return,
    ];
    for (i, op) in ops.iter().enumerate() {
        assert_eq!(op.to_byte(), i as u8);
        assert_eq!(OpCode::from_byte(i as u8), Some(*op));
    }
    assert_eq!(OpCode::from_byte(7), None);
    assert_eq!(OpCode::from_byte(255), None);
}

#[test]
fn disassembly_compresses_repeated_lines() {
    let mut c = Chunk::new();
    c.write_opcode(OpCode::Add, 123);
    c.write_opcode(OpCode::Return, 123);
    let (first, next) = c.disassemble_instruction(0);
    assert_eq!(first, "0000 0123 OP_ADD\n");
    assert_eq!(next, 1);
    let (second, next) = c.disassemble_instruction(1);
    assert_eq!(second, "0001    | OP_RETURN\n");
    assert_eq!(next, 2);
}

#[test]
fn disassembly_prints_a_changed_line_again() {
    let mut c = Chunk::new();
    c.write_opcode(OpCode::Negate, 1);
    c.write_opcode(OpCode::Return, 2);
    let (first, _) = c.disassemble_instruction(0);
    let (second, _) = c.disassemble_instruction(1);
    assert_eq!(first, "0000 0001 OP_NEGATE\n");
    assert_eq!(second, "0001 0002 OP_RETURN\n");
}

#[test]
fn constant_instruction_round_trips_through_disassembly() {
    let mut c = Chunk::new();
    let idx = c.add_constant(val(1.2)).unwrap();
    c.write_opcode(OpCode::Constant, 1);
    c.write(idx, 1);
    let rendered = c.constants().print_value(idx);
    let (line, next) = c.disassemble_instruction(0);
    assert_eq!(next, 2);
    assert_eq!(line, format!("0000 0001 OP_CONSTANT         0 '{rendered}'\n"));
}

#[test]
fn rendered_constant_parses_back_to_the_same_value() {
    let mut c = Chunk::new();
    for (i, x) in [1.2f64, 0.5, 3.0, -7.25].iter().enumerate() {
        let idx = c.add_constant(val(*x)).unwrap();
        assert_eq!(idx as usize, i);
        let rendered = c.constants().print_value(idx);
        let parsed: f64 = rendered.parse().unwrap();
        assert_eq!(parsed.to_bits(), x.to_bits());
    }
}

#[test]
fn whole_listing_is_labeled_and_in_order() {
    let mut c = Chunk::new();
    let idx = c.add_constant(val(0.5)).unwrap();
    c.write_opcode(OpCode::Constant, 7);
    c.write(idx, 7);
    c.write_opcode(OpCode::Return, 7);
    let rendered = c.constants().print_value(idx);
    let listing = c.disassemble("test chunk");
    let expected = format!(
        "== test chunk ==\n0000 0007 OP_CONSTANT         0 '{rendered}'\n0002    | OP_RETURN\n"
    );
    assert_eq!(listing, expected);
}

#[test]
fn unknown_opcode_bytes_are_listed_not_fatal() {
    let mut c = Chunk::new();
    c.write(42, 3);
    let (line, next) = c.disassemble_instruction(0);
    assert_eq!(line, "0000 0003 Unknown opcode 42\n");
    assert_eq!(next, 1);
}

#[test]
fn free_clears_everything() {
    let mut c = Chunk::new();
    c.add_constant(val(1.0));
    c.write_opcode(OpCode::Return, 1);
    c.free();
    assert_eq!(c.code_len(), 0);
    assert_eq!(c.constants().len(), 0);
}

#[test]
fn empty_chunk_lists_only_the_header() {
    let c = Chunk::new();
    assert_eq!(c.disassemble("empty"), "== empty ==\n");
}
