//! Runtime values of the virtual machine.
//!
//! A value is an IEEE-754 binary64 number, carried by its 64-bit pattern so
//! that the interpreter's state stays in plain integers.  The arithmetic on
//! values is software floating point from `rustc_apfloat`, reached through a
//! few trusted wrappers; negation is a sign-bit flip and is implemented and
//! verified here directly.

use vstd::prelude::*;

use rustc_apfloat::Float;
use rustc_apfloat::ieee::Double;

verus! {

/// A numeric value, held as the bit pattern of an IEEE-754 binary64 number.
#[derive(Clone, Copy, Debug, PartialEq, Eq, Structural)]
pub struct Value {
    pub bits: u64,
}

/// The bit pattern of the IEEE-754 sum of the two values with these bit
/// patterns, rounded to nearest, ties to even.
pub uninterp spec fn add_bits(a: u64, b: u64) -> u64;

/// The bit pattern of the IEEE-754 difference of the two values with these
/// bit patterns, rounded to nearest, ties to even.
pub uninterp spec fn sub_bits(a: u64, b: u64) -> u64;

/// The bit pattern of the IEEE-754 product of the two values with these bit
/// patterns, rounded to nearest, ties to even.
pub uninterp spec fn mul_bits(a: u64, b: u64) -> u64;

/// The bit pattern of the IEEE-754 quotient of the two values with these bit
/// patterns, rounded to nearest, ties to even.
pub uninterp spec fn div_bits(a: u64, b: u64) -> u64;

/// The decimal text that the value with this bit pattern renders as.
pub uninterp spec fn decimal_of(bits: u64) -> Seq<char>;

/// The bit pattern of the IEEE-754 negation of the value with this bit
/// pattern: the sign bit flipped, all other bits kept, NaN included.
pub open spec fn neg_bits(b: u64) -> u64 {
    b ^ 0x8000_0000_0000_0000
}

/// Relies on `rustc_apfloat`: the `Add` operator on `ieee::Double` is
/// `Float::add_r` with round-to-nearest-even, a function of the two operand
/// bit patterns alone.
#[verifier::external_body]
pub(crate) fn value_add(a: Value, b: Value) -> (r: Value)
    ensures
        r.bits == add_bits(a.bits, b.bits),
{
    let s = Double::from_bits(a.bits as u128) + Double::from_bits(b.bits as u128);
    Value { bits: s.value.to_bits() as u64 }
}

/// Relies on `rustc_apfloat`: the `Sub` operator on `ieee::Double` is
/// `Float::sub_r` with round-to-nearest-even, a function of the two operand
/// bit patterns alone.
#[verifier::external_body]
pub(crate) fn value_sub(a: Value, b: Value) -> (r: Value)
    ensures
        r.bits == sub_bits(a.bits, b.bits),
{
    let s = Double::from_bits(a.bits as u128) - Double::from_bits(b.bits as u128);
    Value { bits: s.value.to_bits() as u64 }
}

/// Relies on `rustc_apfloat`: the `Mul` operator on `ieee::Double` is
/// `Float::mul_r` with round-to-nearest-even, a function of the two operand
/// bit patterns alone.
#[verifier::external_body]
pub(crate) fn value_mul(a: Value, b: Value) -> (r: Value)
    ensures
        r.bits == mul_bits(a.bits, b.bits),
{
    let s = Double::from_bits(a.bits as u128) * Double::from_bits(b.bits as u128);
    Value { bits: s.value.to_bits() as u64 }
}

/// Relies on `rustc_apfloat`: the `Div` operator on `ieee::Double` is
/// `Float::div_r` with round-to-nearest-even, a function of the two operand
/// bit patterns alone.  Division by zero yields an infinity or NaN, as
/// IEEE-754 prescribes; it does not fail.
#[verifier::external_body]
pub(crate) fn value_div(a: Value, b: Value) -> (r: Value)
    ensures
        r.bits == div_bits(a.bits, b.bits),
{
    let s = Double::from_bits(a.bits as u128) / Double::from_bits(b.bits as u128);
    Value { bits: s.value.to_bits() as u64 }
}

/// Relies on `rustc_apfloat`: `fmt::Display` for `ieee::Double` renders the
/// decimal text of the value, a function of its bit pattern alone.
#[verifier::external_body]
pub(crate) fn render_bits(bits: u64) -> (r: String)
    ensures
        r@ == decimal_of(bits),
{
    format!("{}", Double::from_bits(bits as u128))
}

/// Negation of a value: the sign bit is flipped and every other bit is kept,
/// which is IEEE-754 negation (NaN included).
pub fn value_negate(v: Value) -> (r: Value)
    ensures
        r.bits == neg_bits(v.bits),
{
    Value { bits: v.bits ^ 0x8000_0000_0000_0000 }
}

/// The constant pool: an append-only sequence of values.
pub struct ValueArray {
    values: Vec<Value>,
}

impl View for ValueArray {
    type V = Seq<Value>;

    closed spec fn view(&self) -> Seq<Value> {
        self.values@
    }
}

impl ValueArray {
    /// An empty pool.
    pub fn new() -> (r: Self)
        ensures
            r@ == Seq::<Value>::empty(),
    {
        Self { values: Vec::new() }
    }

    /// Appends a value at the end of the pool.
    pub fn write(&mut self, value: Value)
        ensures
            final(self)@ == old(self)@.push(value),
    {
        self.values.push(value);
    }

    /// Empties the pool.
    pub fn free(&mut self)
        ensures
            final(self)@ == Seq::<Value>::empty(),
    {
        self.values = Vec::new();
    }

    /// How many values the pool holds.
    pub fn len(&self) -> (n: usize)
        ensures
            n == self@.len(),
    {
        self.values.len()
    }

    /// The value at `index`.
    pub fn get(&self, index: u8) -> (r: Value)
        requires
            (index as int) < self@.len(),
        ensures
            r == self@[index as int],
    {
        self.values[index as usize]
    }

    /// The decimal text of the value at `index`.
    pub fn print_value(&self, index: u8) -> (r: String)
        requires
            (index as int) < self@.len(),
        ensures
            r@ == decimal_of(self@[index as int].bits),
    {
        render_bits(self.values[index as usize].bits)
    }
}

} // verus!
