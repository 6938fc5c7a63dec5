use vstd::prelude::*;

verus! {

/// The boolean operation a gate applies to its two inputs.
#[derive(Clone, Copy, Debug, PartialEq, Eq, Structural)]
pub enum GateOp {
    And,
    Or,
    Xor,
}

/// What a gate with operation `op` produces from `a` and `b`.
pub open spec fn op_spec(op: GateOp, a: bool, b: bool) -> bool {
    match op {
        GateOp::And => a && b,
        GateOp::Or => a || b,
        GateOp::Xor => a != b,
    }
}

impl GateOp {
    pub fn apply(self, a: bool, b: bool) -> (r: bool)
        ensures
            r == op_spec(self, a, b),
    {
        match self {
            GateOp::And => a && b,
            GateOp::Or => a || b,
            GateOp::Xor => a != b,
        }
    }
}

/// A signal is named by three ASCII bytes, packed big-endian into a `u32`
/// (`"x00"` is `b'x' * 65536 + b'0' * 256 + b'0'`), so that names compare and
/// sort as the text does.
pub open spec fn name_code(b0: u8, b1: u8, b2: u8) -> u32 {
    (b0 as int * 65536 + b1 as int * 256 + b2 as int) as u32
}

pub fn make_name(b0: u8, b1: u8, b2: u8) -> (r: u32)
    ensures
        r == name_code(b0, b1, b2),
{
    b0 as u32 * 65536 + b1 as u32 * 256 + b2 as u32
}

pub open spec fn name_byte(n: u32, i: int) -> u8 {
    if i == 0 {
        ((n / 65536) % 256) as u8
    } else if i == 1 {
        ((n / 256) % 256) as u8
    } else {
        (n % 256) as u8
    }
}

pub open spec fn is_digit(b: u8) -> bool {
    48 <= b && b <= 57
}

/// The bit index `k` of a name `<tag>NN` with two decimal digits, for `k < 64`.
pub open spec fn indexed_name(n: u32, tag: u8) -> Option<nat> {
    if n / 65536 == tag as u32 && is_digit(name_byte(n, 1)) && is_digit(name_byte(n, 2)) {
        let k = (name_byte(n, 1) - 48) * 10 + (name_byte(n, 2) - 48);
        if k < 64 {
            Some(k as nat)
        } else {
            None
        }
    } else {
        None
    }
}

/// The output bit that a signal named `zNN` stands for.
pub open spec fn output_bit(n: u32) -> Option<nat> {
    indexed_name(n, 122)
}

/// Reads the bit index out of a name `<tag>NN`.
pub fn name_index(n: u32, tag: u8) -> (r: Option<u32>)
    ensures
        r matches Some(k) ==> indexed_name(n, tag) == Some(k as nat),
        r is None ==> indexed_name(n, tag) is None,
{
    let b1 = ((n / 256) % 256) as u8;
    let b2 = (n % 256) as u8;
    if n / 65536 == tag as u32 && 48 <= b1 && b1 <= 57 && 48 <= b2 && b2 <= 57 {
        let k = (b1 - 48) as u32 * 10 + (b2 - 48) as u32;
        if k < 64 {
            Some(k)
        } else {
            None
        }
    } else {
        None
    }
}

pub fn make_indexed_name(tag: u8, k: u32) -> (r: u32)
    requires
        k < 64,
    ensures
        indexed_name(r, tag) == Some(k as nat),
        r == name_code(tag, (48 + k / 10) as u8, (48 + k % 10) as u8),
{
    let d1 = k / 10;
    let d2 = k % 10;
    assert(d1 < 7 && d2 < 10 && d1 * 10 + d2 == k) by (nonlinear_arith)
        requires
            k < 64,
            d1 == k / 10,
            d2 == k % 10,
    ;
    let r = make_name(tag, (48 + d1) as u8, (48 + d2) as u8);
    assert(r / 65536 == tag as u32 && (r / 256) % 256 == 48 + d1 && r % 256 == 48 + d2)
        by (nonlinear_arith)
        requires
            r == tag as u32 * 65536 + (48 + d1) * 256 + (48 + d2),
            d1 < 7,
            d2 < 10,
    ;
    r
}

/// One gate: `out = op(a, b)`.
#[derive(Clone, Copy, Debug, PartialEq, Eq, Structural)]
pub struct GateSpec {
    pub a: u32,
    pub b: u32,
    pub op: GateOp,
    pub out: u32,
}

} // verus!
