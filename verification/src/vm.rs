//! The stack machine: a bounded operand stack, an instruction pointer, and a
//! dispatch loop that decodes and executes a chunk.
//!
//! The meaning of a run is given by `run_model`, a step-by-step mathematical
//! interpreter over the chunk's view; `interpret` is proved to return, leave
//! the stack, and report results and errors exactly as that model says.

use vstd::prelude::*;

use crate::chunk::{
    byte_opcode, lemma_opcode_byte_roundtrip, line_at, opcode_byte, Chunk, ChunkView, OpCode,
};
use crate::value::{
    add_bits, decimal_of, div_bits, mul_bits, neg_bits, render_bits, sub_bits, value_add,
    value_div, value_mul, value_negate, value_sub, Value,
};
use crate::STACK_MAX;

verus! {

/// What a run of the interpreter reports.
#[derive(Clone, Copy, Debug, PartialEq, Eq, Structural)]
pub enum InterpretResult {
    OK,
    CompileError,
    RuntimeError,
}

/// The bit pattern that the binary opcode `op` computes from left operand
/// bits `a` and right operand bits `b`.
pub open spec fn binop_bits(op: OpCode, a: u64, b: u64) -> u64
    recommends
        op == OpCode::Add || op == OpCode::Subtract || op == OpCode::Multiply || op
            == OpCode::Divide,
{
    match op {
        OpCode::Add => add_bits(a, b),
        OpCode::Subtract => sub_bits(a, b),
        OpCode::Multiply => mul_bits(a, b),
        OpCode::Divide => div_bits(a, b),
        _ => arbitrary(),
    }
}

/// How a run of the dispatch loop ends: with the emitted result and the
/// operand stack left behind, or with a fault at the offset of the offending
/// instruction (the code length itself when the stream ran out), leaving the
/// stack as it stood there.
pub enum RunOutcome {
    Success { emitted: Value, stack: Seq<Value> },
    Fault { offset: nat, stack: Seq<Value> },
}

/// The mathematical dispatch loop: decodes and executes the instructions of
/// `c` from byte offset `ip` onwards, on operand stack `stack`.  A byte that
/// is no opcode, a missing operand byte, an operand index outside the
/// constant pool, popping from an empty stack and pushing past `STACK_MAX`
/// all fault at the current instruction.
pub open spec fn run_model(c: ChunkView, ip: nat, stack: Seq<Value>) -> RunOutcome
    decreases c.code.len() - ip,
{
    if ip >= c.code.len() {
        RunOutcome::Fault { offset: ip, stack }
    } else {
        match byte_opcode(c.code[ip as int]) {
            None => RunOutcome::Fault { offset: ip, stack },
            Some(op) => match op {
                OpCode::Return => if stack.len() >= 1 {
                    RunOutcome::Success { emitted: stack.last(), stack: stack.drop_last() }
                } else {
                    RunOutcome::Fault { offset: ip, stack }
                },
                OpCode::Negate => if stack.len() >= 1 {
                    run_model(
                        c,
                        ip + 1,
                        stack.drop_last().push((Value { bits: neg_bits(stack.last().bits) })),
                    )
                } else {
                    RunOutcome::Fault { offset: ip, stack }
                },
                OpCode::Add | OpCode::Subtract | OpCode::Multiply | OpCode::Divide => if stack.len()
                    >= 2 {
                    run_model(
                        c,
                        ip + 1,
                        stack.drop_last().drop_last().push(
                            (Value {
                                bits: binop_bits(
                                    op,
                                    stack[stack.len() - 2].bits,
                                    stack.last().bits,
                                ),
                            }),
                        ),
                    )
                } else {
                    RunOutcome::Fault { offset: ip, stack }
                },
                OpCode::Constant => if ip + 1 < c.code.len() {
                    let idx = c.code[ip as int + 1];
                    if (idx as int) < c.constants.len() && stack.len() < STACK_MAX {
                        run_model(c, ip + 2, stack.push(c.constants[idx as int]))
                    } else {
                        RunOutcome::Fault { offset: ip, stack }
                    }
                } else {
                    RunOutcome::Fault { offset: ip, stack }
                },
            },
        }
    }
}

/// The code bytes that load constants `0..n` onto the stack, in order: a
/// `Constant` opcode and an operand byte for each.
pub open spec fn load_code(n: nat) -> Seq<u8> {
    Seq::new(2 * n, |i: int| if i % 2 == 0 { 0u8 } else { (i / 2) as u8 })
}

/// The pairwise evaluation of `ops` over the operand stack `vals`: each
/// opcode in turn combines the two topmost values, the more recently pushed
/// one as its right operand, until the one value left is the result.
pub open spec fn pairwise_fold(vals: Seq<Value>, ops: Seq<OpCode>) -> Value
    recommends
        vals.len() == ops.len() + 1,
    decreases ops.len(),
{
    if ops.len() == 0 {
        vals.last()
    } else {
        pairwise_fold(
            vals.drop_last().drop_last().push(
                (Value {
                    bits: binop_bits(ops.first(), vals[vals.len() - 2].bits, vals.last().bits),
                }),
            ),
            ops.drop_first(),
        )
    }
}

/// Running the dispatch loop over a tail of binary opcodes followed by
/// `Return` consumes the operand values pairwise and emits their fold,
/// leaving the stack below them untouched.
proof fn lemma_run_ops(c: ChunkView, ip: nat, base: Seq<Value>, vals: Seq<Value>, ops: Seq<OpCode>)
    requires
        ip + ops.len() + 1 <= c.code.len(),
        forall|k: int|
            0 <= k < ops.len() ==> c.code[ip + k] == opcode_byte(#[trigger] ops[k]),
        c.code[ip as int + ops.len()] == 6u8,
        forall|k: int|
            0 <= k < ops.len() ==> (#[trigger] ops[k] == OpCode::Add || ops[k] == OpCode::Subtract
                || ops[k] == OpCode::Multiply || ops[k] == OpCode::Divide),
        vals.len() == ops.len() + 1,
    ensures
        run_model(c, ip, base + vals) == (RunOutcome::Success {
            emitted: pairwise_fold(vals, ops),
            stack: base,
        }),
    decreases ops.len(),
{
    if ops.len() == 0 {
        assert(c.code[ip as int] == 6u8);
        assert((base + vals).len() >= 1);
        assert((base + vals).last() == vals.last());
        assert((base + vals).drop_last() =~= base);
    } else {
        let op = ops.first();
        assert(c.code[ip as int] == opcode_byte(op));
        lemma_opcode_byte_roundtrip(op);
        let stack = base + vals;
        assert(stack.len() >= 2);
        assert(stack[stack.len() - 2] == vals[vals.len() - 2]);
        assert(stack.last() == vals.last());
        let comb = Value { bits: binop_bits(op, vals[vals.len() - 2].bits, vals.last().bits) };
        let merged = vals.drop_last().drop_last().push(comb);
        assert(stack.drop_last().drop_last().push(comb) =~= base + merged);
        assert(run_model(c, ip, stack) == run_model(c, ip + 1, base + merged));
        assert forall|k: int| 0 <= k < ops.drop_first().len() implies c.code[ip + 1 + k]
            == opcode_byte(#[trigger] ops.drop_first()[k]) by {
            assert(ops.drop_first()[k] == ops[k + 1]);
        }
        assert forall|k: int| 0 <= k < ops.drop_first().len() implies (#[trigger] ops.drop_first()[k]
            == OpCode::Add || ops.drop_first()[k] == OpCode::Subtract || ops.drop_first()[k]
            == OpCode::Multiply || ops.drop_first()[k] == OpCode::Divide) by {
            assert(ops.drop_first()[k] == ops[k + 1]);
        }
        lemma_run_ops(c, ip + 1, base, merged, ops.drop_first());
    }
}

/// Running the dispatch loop over the encodings of `m` constant loads pushes
/// the pool values `j..j + m` onto the stack, in order, and continues behind
/// them.
proof fn lemma_run_loads(c: ChunkView, ip: nat, stack: Seq<Value>, j: nat, m: nat)
    requires
        ip + 2 * m <= c.code.len(),
        forall|k: int| 0 <= k < m ==> #[trigger] c.code[ip + 2 * k] == 0u8,
        forall|k: int| 0 <= k < m ==> #[trigger] c.code[ip + 2 * k + 1] == (j + k) as u8,
        j + m <= c.constants.len(),
        c.constants.len() <= 256,
        stack.len() + m <= STACK_MAX,
    ensures
        run_model(c, ip, stack) == run_model(
            c,
            ip + 2 * m,
            stack + c.constants.subrange(j as int, (j + m) as int),
        ),
    decreases m,
{
    if m == 0 {
        assert(stack + c.constants.subrange(j as int, j as int) =~= stack);
    } else {
        let k0: int = 0;
        assert(c.code[ip + 2 * k0] == 0u8);
        assert(c.code[ip + 2 * k0 + 1] == (j + k0) as u8);
        assert(c.code[ip as int] == 0u8);
        assert(c.code[ip as int + 1] == j as u8);
        assert(j < 256);
        assert((j as u8) as int == j);
        assert(run_model(c, ip, stack) == run_model(
            c,
            ip + 2,
            stack.push(c.constants[j as int]),
        ));
        let ip2 = ip + 2;
        let j2 = j + 1;
        assert forall|k: int| 0 <= k < m - 1 implies #[trigger] c.code[ip2 + 2 * k] == 0u8 by {
            let k1 = k + 1;
            assert(c.code[ip + 2 * k1] == 0u8);
            assert(ip + 2 * k1 == ip2 + 2 * k);
        }
        assert forall|k: int| 0 <= k < m - 1 implies #[trigger] c.code[ip2 + 2 * k + 1] == (j2
            + k) as u8 by {
            let k1 = k + 1;
            assert(c.code[ip + 2 * k1 + 1] == (j + k1) as u8);
            assert(ip + 2 * k1 + 1 == ip2 + 2 * k + 1);
        }
        lemma_run_loads(c, ip2, stack.push(c.constants[j as int]), j2, (m - 1) as nat);
        assert(stack.push(c.constants[j as int]) + c.constants.subrange(
            j as int + 1,
            (j + m) as int,
        ) =~= stack + c.constants.subrange(j as int, (j + m) as int));
    }
}

/// For any values `v_1 .. v_n` and binary opcodes `o_1 .. o_(n-1)`: a chunk
/// whose pool holds the values and whose code loads them all in order, then
/// applies the opcodes pairwise in source order, then returns, runs to
/// completion and emits `pairwise_fold(vals, ops)` — each opcode combining
/// the two topmost values, the more recently pushed one on the right — with
/// nothing left on the stack.
pub proof fn lemma_chain_program(c: ChunkView, vals: Seq<Value>, ops: Seq<OpCode>)
    requires
        1 <= vals.len() <= 256,
        ops.len() == vals.len() - 1,
        forall|k: int|
            0 <= k < ops.len() ==> (#[trigger] ops[k] == OpCode::Add || ops[k] == OpCode::Subtract
                || ops[k] == OpCode::Multiply || ops[k] == OpCode::Divide),
        c.constants == vals,
        c.code == load_code(vals.len()) + ops.map_values(|op: OpCode| opcode_byte(op)) + seq![6u8],
    ensures
        run_model(c, 0, Seq::<Value>::empty()) == (RunOutcome::Success {
            emitted: pairwise_fold(vals, ops),
            stack: Seq::<Value>::empty(),
        }),
{
    let n = vals.len();
    let loads = load_code(n);
    let opbytes = ops.map_values(|op: OpCode| opcode_byte(op));
    assert(c.code.len() == 2 * n + ops.len() + 1);
    let ip0: nat = 0;
    let j0: nat = 0;
    assert forall|k: int| 0 <= k < n implies #[trigger] c.code[ip0 + 2 * k] == 0u8 by {
        assert(c.code[ip0 + 2 * k] == loads[2 * k]);
    }
    assert forall|k: int| 0 <= k < n implies #[trigger] c.code[ip0 + 2 * k + 1] == (j0 + k) as u8 by {
        assert(c.code[ip0 + 2 * k + 1] == loads[2 * k + 1]);
    }
    lemma_run_loads(c, ip0, Seq::<Value>::empty(), j0, n);
    assert(Seq::<Value>::empty() + c.constants.subrange(0, n as int) =~= vals);
    assert forall|k: int| 0 <= k < ops.len() implies c.code[2 * n + k] == opcode_byte(
        #[trigger] ops[k],
    ) by {
        assert(c.code[2 * n + k] == opbytes[k]);
    }
    assert(c.code[2 * (n as int) + ops.len()] == seq![6u8][0]);
    lemma_run_ops(c, 2 * n, Seq::<Value>::empty(), vals, ops);
    assert(Seq::<Value>::empty() + vals =~= vals);
}

/// The code bytes that, for each opcode in `ops` in turn, load the constant
/// `j + k` and apply the opcode: three bytes per step.
pub open spec fn chain_tail_code(ops: Seq<OpCode>, j: nat) -> Seq<u8> {
    Seq::new(
        3 * ops.len(),
        |i: int|
            if i % 3 == 0 {
                0u8
            } else if i % 3 == 1 {
                (j + i / 3) as u8
            } else {
                opcode_byte(ops[i / 3])
            },
    )
}

/// Left-to-right evaluation: starting from `acc`, each opcode in turn
/// combines the accumulator on the left with the next value on the right.
pub open spec fn chain_eval(acc: Value, vals: Seq<Value>, ops: Seq<OpCode>) -> Value
    recommends
        vals.len() == ops.len(),
    decreases ops.len(),
{
    if ops.len() == 0 {
        acc
    } else {
        chain_eval(
            (Value { bits: binop_bits(ops.first(), acc.bits, vals.first().bits) }),
            vals.drop_first(),
            ops.drop_first(),
        )
    }
}

/// Running the dispatch loop over load-apply steps folds the loaded values
/// into the accumulator on top of the stack, left to right, and the
/// `Return` behind them emits the result.
proof fn lemma_run_chain(
    c: ChunkView,
    ip: nat,
    base: Seq<Value>,
    acc: Value,
    j: nat,
    ops: Seq<OpCode>,
)
    requires
        ip + 3 * ops.len() + 1 <= c.code.len(),
        forall|k: int| 0 <= k < ops.len() ==> #[trigger] c.code[ip + 3 * k] == 0u8,
        forall|k: int| 0 <= k < ops.len() ==> #[trigger] c.code[ip + 3 * k + 1] == (j + k) as u8,
        forall|k: int|
            0 <= k < ops.len() ==> #[trigger] c.code[ip + 3 * k + 2] == opcode_byte(ops[k]),
        forall|k: int|
            0 <= k < ops.len() ==> (#[trigger] ops[k] == OpCode::Add || ops[k] == OpCode::Subtract
                || ops[k] == OpCode::Multiply || ops[k] == OpCode::Divide),
        c.code[ip as int + 3 * ops.len()] == 6u8,
        j + ops.len() <= c.constants.len(),
        c.constants.len() <= 256,
        base.len() + 2 <= STACK_MAX,
    ensures
        run_model(c, ip, base.push(acc)) == (RunOutcome::Success {
            emitted: chain_eval(acc, c.constants.subrange(j as int, (j + ops.len()) as int), ops),
            stack: base,
        }),
    decreases ops.len(),
{
    if ops.len() == 0 {
        assert(c.code[ip as int] == 6u8);
        assert(base.push(acc).last() == acc);
        assert(base.push(acc).drop_last() =~= base);
        assert(c.constants.subrange(j as int, j as int) =~= Seq::<Value>::empty());
    } else {
        let k0: int = 0;
        assert(c.code[ip + 3 * k0] == 0u8);
        assert(c.code[ip + 3 * k0 + 1] == (j + k0) as u8);
        assert(c.code[ip + 3 * k0 + 2] == opcode_byte(ops[k0]));
        let op = ops.first();
        lemma_opcode_byte_roundtrip(op);
        assert(j < 256);
        assert((j as u8) as int == j);
        let vj = c.constants[j as int];
        // the load pushes the constant onto the accumulator
        assert(run_model(c, ip, base.push(acc)) == run_model(
            c,
            ip + 2,
            base.push(acc).push(vj),
        ));
        // the opcode combines accumulator and loaded value
        let stack2 = base.push(acc).push(vj);
        let comb = Value { bits: binop_bits(op, acc.bits, vj.bits) };
        assert(stack2[stack2.len() - 2] == acc);
        assert(stack2.last() == vj);
        assert(stack2.drop_last().drop_last().push(comb) =~= base.push(comb));
        assert(run_model(c, ip + 2, stack2) == run_model(c, ip + 3, base.push(comb)));
        let ip3 = ip + 3;
        let j2 = j + 1;
        assert forall|k: int| 0 <= k < ops.len() - 1 implies #[trigger] c.code[ip3 + 3 * k]
            == 0u8 by {
            let k1 = k + 1;
            assert(c.code[ip + 3 * k1] == 0u8);
            assert(ip + 3 * k1 == ip3 + 3 * k);
        }
        assert forall|k: int| 0 <= k < ops.len() - 1 implies #[trigger] c.code[ip3 + 3 * k + 1]
            == (j2 + k) as u8 by {
            let k1 = k + 1;
            assert(c.code[ip + 3 * k1 + 1] == (j + k1) as u8);
            assert(ip + 3 * k1 + 1 == ip3 + 3 * k + 1);
        }
        assert forall|k: int| 0 <= k < ops.len() - 1 implies #[trigger] c.code[ip3 + 3 * k + 2]
            == opcode_byte(ops.drop_first()[k]) by {
            let k1 = k + 1;
            assert(c.code[ip + 3 * k1 + 2] == opcode_byte(ops[k1]));
            assert(ip + 3 * k1 + 2 == ip3 + 3 * k + 2);
            assert(ops.drop_first()[k] == ops[k1]);
        }
        assert forall|k: int| 0 <= k < ops.drop_first().len() implies (#[trigger] ops.drop_first()[k]
            == OpCode::Add || ops.drop_first()[k] == OpCode::Subtract || ops.drop_first()[k]
            == OpCode::Multiply || ops.drop_first()[k] == OpCode::Divide) by {
            assert(ops.drop_first()[k] == ops[k + 1]);
        }
        assert(c.code[ip3 as int + 3 * ops.drop_first().len()] == 6u8);
        lemma_run_chain(c, ip3, base, comb, j2, ops.drop_first());
        assert(c.constants.subrange(j as int, (j + ops.len()) as int).drop_first()
            =~= c.constants.subrange(j2 as int, (j2 + ops.drop_first().len()) as int));
        assert(c.constants.subrange(j as int, (j + ops.len()) as int).first() == vj);
    }
}

/// For any values `v_1 .. v_n` and binary opcodes `o_1 .. o_(n-1)`: a chunk
/// whose pool holds the values and whose code loads `v_1`, then for each
/// opcode in source order loads the next value and applies it, then
/// returns, evaluates the left-to-right expression
/// `(..((v_1 o_1 v_2) o_2 v_3)..)` and emits it, with nothing left on the
/// stack.
pub proof fn lemma_expression_chain(c: ChunkView, vals: Seq<Value>, ops: Seq<OpCode>)
    requires
        1 <= vals.len() <= 256,
        ops.len() == vals.len() - 1,
        forall|k: int|
            0 <= k < ops.len() ==> (#[trigger] ops[k] == OpCode::Add || ops[k] == OpCode::Subtract
                || ops[k] == OpCode::Multiply || ops[k] == OpCode::Divide),
        c.constants == vals,
        c.code == seq![0u8, 0u8] + chain_tail_code(ops, 1) + seq![6u8],
    ensures
        run_model(c, 0, Seq::<Value>::empty()) == (RunOutcome::Success {
            emitted: chain_eval(vals.first(), vals.skip(1), ops),
            stack: Seq::<Value>::empty(),
        }),
{
    let tail = chain_tail_code(ops, 1);
    assert(c.code.len() == 3 + 3 * ops.len());
    assert(c.code[0] == 0u8);
    assert(c.code[1] == 0u8);
    // the first load pushes the first value
    assert(run_model(c, 0, Seq::<Value>::empty()) == run_model(
        c,
        2,
        Seq::<Value>::empty().push(vals.first()),
    ));
    let ip2: nat = 2;
    let j1: nat = 1;
    assert forall|k: int| 0 <= k < ops.len() implies #[trigger] c.code[ip2 + 3 * k] == 0u8 by {
        assert(c.code[ip2 + 3 * k] == tail[3 * k]);
    }
    assert forall|k: int| 0 <= k < ops.len() implies #[trigger] c.code[ip2 + 3 * k + 1] == (j1
        + k) as u8 by {
        assert(c.code[ip2 + 3 * k + 1] == tail[3 * k + 1]);
    }
    assert forall|k: int| 0 <= k < ops.len() implies #[trigger] c.code[ip2 + 3 * k + 2]
        == opcode_byte(ops[k]) by {
        assert(c.code[ip2 + 3 * k + 2] == tail[3 * k + 2]);
    }
    assert(c.code[ip2 as int + 3 * ops.len()] == seq![6u8][0]);
    lemma_run_chain(c, ip2, Seq::<Value>::empty(), vals.first(), j1, ops);
    assert(c.constants.subrange(j1 as int, (j1 + ops.len()) as int) =~= vals.skip(1));
}

/// Stack discipline: a run of a load-then-fold-then-return chunk that ends
/// in its `Return` leaves the operand stack exactly as empty as it began —
/// no operands leak.
pub proof fn lemma_stack_discipline(c: ChunkView, vals: Seq<Value>, ops: Seq<OpCode>)
    requires
        1 <= vals.len() <= 256,
        ops.len() == vals.len() - 1,
        forall|k: int|
            0 <= k < ops.len() ==> (#[trigger] ops[k] == OpCode::Add || ops[k] == OpCode::Subtract
                || ops[k] == OpCode::Multiply || ops[k] == OpCode::Divide),
        c.constants == vals,
        c.code == load_code(vals.len()) + ops.map_values(|op: OpCode| opcode_byte(op)) + seq![6u8],
    ensures
        (run_model(c, 0, Seq::<Value>::empty()) matches RunOutcome::Success { emitted: _, stack }
            && stack.len() == 0),
{
    lemma_chain_program(c, vals, ops);
}

/// The operand stack as trace text: each value bracketed, bottom first.
pub open spec fn stack_text(stack: Seq<Value>) -> Seq<char>
    decreases stack.len(),
{
    if stack.len() == 0 {
        Seq::<char>::empty()
    } else {
        stack_text(stack.drop_last()) + "["@ + decimal_of(stack.last().bits) + "]"@
    }
}

/// The observable state of the machine.
pub struct VmView {
    pub ip: usize,
    pub stack: Seq<Value>,
    pub emitted: Option<Value>,
    pub error: Option<(usize, usize)>,
}

/// The virtual machine: an instruction pointer, an operand stack of capacity
/// `STACK_MAX`, the value the last successful run emitted, and the offset
/// and source line of the last runtime fault.
pub struct VM {
    ip: usize,
    stack: Vec<Value>,
    emitted: Option<Value>,
    error: Option<(usize, usize)>,
}

impl View for VM {
    type V = VmView;

    closed spec fn view(&self) -> VmView {
        VmView { ip: self.ip, stack: self.stack@, emitted: self.emitted, error: self.error }
    }
}

impl VM {
    /// The machine's invariant: the operand stack never outgrows its
    /// capacity.
    pub open spec fn wf(self) -> bool {
        self@.stack.len() <= STACK_MAX
    }

    /// A fresh machine: empty stack, nothing emitted, no error.
    pub fn new() -> (r: Self)
        ensures
            r@.ip == 0,
            r@.stack == Seq::<Value>::empty(),
            r@.emitted == None::<Value>,
            r@.error == None::<(usize, usize)>,
            r.wf(),
    {
        Self { ip: 0, stack: Vec::new(), emitted: None, error: None }
    }

    /// Releases nothing: the machine owns no resources beyond its stack.
    pub fn free(&mut self)
        ensures
            *final(self) == *old(self),
    {
    }

    /// How many operands the stack holds.
    pub fn stack_top(&self) -> (n: usize)
        ensures
            n == self@.stack.len(),
    {
        self.stack.len()
    }

    /// The value the last successful run emitted.
    pub fn last_emitted(&self) -> (r: Option<Value>)
        ensures
            r == self@.emitted,
    {
        self.emitted
    }

    /// The code offset and source line of the last runtime fault.
    pub fn last_error(&self) -> (r: Option<(usize, usize)>)
        ensures
            r == self@.error,
    {
        self.error
    }

    /// The operand stack rendered for tracing: each value bracketed, in
    /// bottom-to-top order.  Diagnostic only; a host prints it, together
    /// with the disassembly of the next instruction, when it traces a run.
    pub fn stack_contents(&self) -> (r: String)
        ensures
            r@ == stack_text(self@.stack),
    {
        let mut out = String::new();
        let n = self.stack.len();
        let mut i: usize = 0;
        while i < n
            invariant
                n == self@.stack.len(),
                i <= n,
                out@ == stack_text(self@.stack.take(i as int)),
            decreases n - i,
        {
            out.append("[");
            let v = render_bits(self.stack[i].bits);
            out.append(v.as_str());
            out.append("]");
            proof {
                let taken = self@.stack.take(i + 1);
                assert(taken.drop_last() =~= self@.stack.take(i as int));
                assert(taken.last() == self@.stack[i as int]);
                assert(out@ =~= stack_text(taken));
            }
            i = i + 1;
        }
        proof {
            assert(self@.stack.take(n as int) =~= self@.stack);
        }
        out
    }

    /// Pushes `value`; reports `false`, leaving the stack alone, when the
    /// stack is full.
    pub fn push(&mut self, value: Value) -> (ok: bool)
        ensures
            ok == (old(self)@.stack.len() < STACK_MAX),
            ok ==> final(self)@.stack == old(self)@.stack.push(value),
            !ok ==> final(self)@.stack == old(self)@.stack,
            final(self)@.ip == old(self)@.ip,
            final(self)@.emitted == old(self)@.emitted,
            final(self)@.error == old(self)@.error,
    {
        if self.stack.len() < STACK_MAX {
            self.stack.push(value);
            true
        } else {
            false
        }
    }

    /// Pops the top value; reports `None`, leaving the stack alone, when the
    /// stack is empty.
    pub fn pop(&mut self) -> (r: Option<Value>)
        ensures
            old(self)@.stack.len() == 0 ==> r == None::<Value> && final(self)@.stack == old(self)@.stack,
            old(self)@.stack.len() > 0 ==> r == Some(old(self)@.stack.last()) && final(self)@.stack == old(self)@.stack.drop_last(),
            final(self)@.ip == old(self)@.ip,
            final(self)@.emitted == old(self)@.emitted,
            final(self)@.error == old(self)@.error,
    {
        let r = self.stack.pop();
        proof {
            if old(self)@.stack.len() > 0 {
                assert(self@.stack =~= old(self)@.stack.drop_last());
            }
        }
        r
    }

    /// Pops the two topmost values, applies the binary opcode — the more
    /// recently pushed value is the right operand — and pushes the result.
    /// Reports `false`, leaving the stack alone, when fewer than two
    /// operands are on it.
    pub fn do_binary_op(&mut self, opcode: OpCode) -> (ok: bool)
        requires
            old(self).wf(),
            opcode == OpCode::Add || opcode == OpCode::Subtract || opcode == OpCode::Multiply
                || opcode == OpCode::Divide,
        ensures
            ok == (old(self)@.stack.len() >= 2),
            ok ==> final(self)@.stack == old(self)@.stack.drop_last().drop_last().push(
                (Value {
                    bits: binop_bits(
                        opcode,
                        old(self)@.stack[old(self)@.stack.len() - 2].bits,
                        old(self)@.stack.last().bits,
                    ),
                }),
            ),
            !ok ==> final(self)@.stack == old(self)@.stack,
            final(self)@.ip == old(self)@.ip,
            final(self)@.emitted == old(self)@.emitted,
            final(self)@.error == old(self)@.error,
    {
        if self.stack.len() < 2 {
            return false;
        }
        let b = match self.pop() {
            Some(v) => v,
            None => unreached(),
        };
        let a = match self.pop() {
            Some(v) => v,
            None => unreached(),
        };
        let v = match opcode {
            OpCode::Add => value_add(a, b),
            OpCode::Subtract => value_sub(a, b),
            OpCode::Multiply => value_mul(a, b),
            OpCode::Divide => value_div(a, b),
            _ => unreached(),
        };
        let ok = self.push(v);
        assert(ok);
        true
    }

    /// Records a runtime fault at `offset` and reports `RuntimeError`.
    fn fail(&mut self, chunk: &Chunk, offset: usize) -> (r: InterpretResult)
        ensures
            r == InterpretResult::RuntimeError,
            final(self)@.stack == old(self)@.stack,
            final(self)@.ip == old(self)@.ip,
            final(self)@.emitted == None::<Value>,
            final(self)@.error == Some((offset, line_at(chunk@, offset as nat))),
    {
        self.error = Some((offset, chunk.line_of(offset)));
        self.emitted = None;
        InterpretResult::RuntimeError
    }

    /// The dispatch loop, from the current instruction pointer onwards.
    fn run(&mut self, chunk: &Chunk) -> (r: InterpretResult)
        requires
            old(self).wf(),
            old(self)@.ip <= chunk@.code.len(),
        ensures
            final(self).wf(),
            match run_model(chunk@, old(self)@.ip as nat, old(self)@.stack) {
                RunOutcome::Success { emitted, stack } => {
                    &&& r == InterpretResult::OK
                    &&& final(self)@.stack == stack
                    &&& final(self)@.emitted == Some(emitted)
                    &&& final(self)@.error == None::<(usize, usize)>
                },
                RunOutcome::Fault { offset, stack } => {
                    &&& r == InterpretResult::RuntimeError
                    &&& final(self)@.stack == stack
                    &&& final(self)@.emitted == None::<Value>
                    &&& final(self)@.error == Some(
                        ((offset as usize), line_at(chunk@, offset)),
                    )
                },
            },
    {
        loop
            invariant
                self.wf(),
                self@.ip <= chunk@.code.len(),
                run_model(chunk@, self@.ip as nat, self@.stack) == run_model(
                    chunk@,
                    old(self)@.ip as nat,
                    old(self)@.stack,
                ),
            decreases chunk@.code.len() - self@.ip,
        {
            let ip = self.ip;
            let code_len = chunk.code_len();
            if ip >= code_len {
                return self.fail(chunk, ip);
            }
            let b = chunk.code_at(ip);
            match OpCode::from_byte(b) {
                None => {
                    return self.fail(chunk, ip);
                },
                Some(op) => match op {
                    OpCode::Return => {
                        match self.pop() {
                            Some(v) => {
                                self.ip = ip + 1;
                                self.emitted = Some(v);
                                self.error = None;
                                return InterpretResult::OK;
                            },
                            None => {
                                return self.fail(chunk, ip);
                            },
                        }
                    },
                    OpCode::Negate => {
                        match self.pop() {
                            Some(v) => {
                                let ok = self.push(value_negate(v));
                                assert(ok);
                                self.ip = ip + 1;
                            },
                            None => {
                                return self.fail(chunk, ip);
                            },
                        }
                    },
                    OpCode::Add | OpCode::Subtract | OpCode::Multiply | OpCode::Divide => {
                        if self.do_binary_op(op) {
                            self.ip = ip + 1;
                        } else {
                            return self.fail(chunk, ip);
                        }
                    },
                    OpCode::Constant => {
                        if ip + 1 >= code_len {
                            return self.fail(chunk, ip);
                        }
                        let idx = chunk.code_at(ip + 1);
                        if (idx as usize) >= chunk.constants().len() {
                            return self.fail(chunk, ip);
                        }
                        let v = chunk.constants().get(idx);
                        if !self.push(v) {
                            return self.fail(chunk, ip);
                        }
                        self.ip = ip + 2;
                    },
                },
            }
        }
    }

    /// Resets the instruction pointer and executes `chunk` from its start:
    /// `OK` with the emitted value recorded when the run reaches a completed
    /// `Return`, `RuntimeError` with the offending offset and line recorded
    /// when it faults — exactly as `run_model` prescribes.  `CompileError` is
    /// never produced here: it is reserved for the producer of the chunk.
    pub fn interpret(&mut self, chunk: &Chunk) -> (r: InterpretResult)
        requires
            old(self).wf(),
        ensures
            final(self).wf(),
            match run_model(chunk@, 0, old(self)@.stack) {
                RunOutcome::Success { emitted, stack } => {
                    &&& r == InterpretResult::OK
                    &&& final(self)@.stack == stack
                    &&& final(self)@.emitted == Some(emitted)
                    &&& final(self)@.error == None::<(usize, usize)>
                },
                RunOutcome::Fault { offset, stack } => {
                    &&& r == InterpretResult::RuntimeError
                    &&& final(self)@.stack == stack
                    &&& final(self)@.emitted == None::<Value>
                    &&& final(self)@.error == Some(
                        ((offset as usize), line_at(chunk@, offset)),
                    )
                },
            },
    {
        self.ip = 0;
        self.run(chunk)
    }
}

} // verus!
