use crate::circuit::{driver, lemma_first_gate};
use crate::gate::{make_indexed_name, name_code, GateOp, GateSpec};
use crate::sim::find_gate;
use vstd::prelude::*;

verus! {

/// The signals that play each role in one bit of a ripple-carry adder:
/// `xori = x XOR y`, `andi = x AND y`, `z = xori XOR cin`,
/// `andc = cin AND xori` and `cout = andi OR andc`. A role that the circuit
/// does not fill is `None`.
#[derive(Clone, Copy, Debug, PartialEq, Eq, Structural)]
pub struct Adder {
    pub x: u32,
    pub y: u32,
    pub z: u32,
    pub cin: Option<u32>,
    pub xori: Option<u32>,
    pub andi: Option<u32>,
    pub andc: Option<u32>,
    pub cout: Option<u32>,
}

impl Adder {
    pub fn new(x: u32, y: u32, z: u32) -> (r: Adder)
        ensures
            r == (Adder {
                x,
                y,
                z,
                cin: None,
                xori: None,
                andi: None,
                andc: None,
                cout: None,
            }),
    {
        Adder { x, y, z, cin: None, xori: None, andi: None, andc: None, cout: None }
    }
}

/// The first gate at or after `i` that computes `op` of `a` and `b`, in that order.
pub open spec fn first_with_inputs(gates: Seq<GateSpec>, a: u32, b: u32, op: GateOp, i: int) -> int
    decreases gates.len() - i,
{
    if i < 0 || i >= gates.len() {
        -1
    } else if gates[i].a == a && gates[i].b == b && gates[i].op == op {
        i
    } else {
        first_with_inputs(gates, a, b, op, i + 1)
    }
}

/// The output of a gate computing `op` of `x` and `y`, in either order
/// (the given order first).
pub open spec fn gate_of(gates: Seq<GateSpec>, x: u32, y: u32, op: GateOp) -> Option<u32> {
    let k = first_with_inputs(gates, x, y, op, 0);
    let l = first_with_inputs(gates, y, x, op, 0);
    if k >= 0 {
        Some(gates[k].out)
    } else if l >= 0 {
        Some(gates[l].out)
    } else {
        None
    }
}

proof fn lemma_first_with_inputs(gates: Seq<GateSpec>, a: u32, b: u32, op: GateOp, i: int)
    requires
        0 <= i,
    ensures
        first_with_inputs(gates, a, b, op, i) == -1 || (i <= first_with_inputs(gates, a, b, op, i)
            < gates.len()),
    decreases gates.len() - i,
{
    if i < gates.len() && !(gates[i].a == a && gates[i].b == b && gates[i].op == op) {
        lemma_first_with_inputs(gates, a, b, op, i + 1);
    }
}

fn find_with_inputs(gates: &Vec<GateSpec>, a: u32, b: u32, op: GateOp) -> (r: Option<u32>)
    ensures
        first_with_inputs(gates@, a, b, op, 0) >= 0 ==> r == Some(
            gates@[first_with_inputs(gates@, a, b, op, 0)].out,
        ),
        first_with_inputs(gates@, a, b, op, 0) < 0 ==> r is None,
{
    let mut i: usize = 0;
    while i < gates.len()
        invariant
            i <= gates.len(),
            first_with_inputs(gates@, a, b, op, 0) == first_with_inputs(gates@, a, b, op, i as int),
        decreases gates.len() - i,
    {
        let g = gates[i];
        if g.a == a && g.b == b && g.op == op {
            return Some(g.out);
        }
        i = i + 1;
    }
    None
}

/// The output of a gate computing `op` of `x` and `y`, in either order.
pub fn gate(gates: &Vec<GateSpec>, x: u32, y: u32, op: GateOp) -> (r: Option<u32>)
    ensures
        r == gate_of(gates@, x, y, op),
{
    proof {
        lemma_first_with_inputs(gates@, x, y, op, 0);
        lemma_first_with_inputs(gates@, y, x, op, 0);
    }
    match find_with_inputs(gates, x, y, op) {
        Some(o) => Some(o),
        None => find_with_inputs(gates, y, x, op),
    }
}

pub open spec fn bit_name(tag: u8, i: nat) -> u32 {
    name_code(tag, (48 + i / 10) as u8, (48 + i % 10) as u8)
}

/// The roles that the circuit gives to bit `i` of the adder.
pub open spec fn roles(gates: Seq<GateSpec>, i: nat) -> Adder {
    let (x, y, z) = (bit_name(120, i), bit_name(121, i), bit_name(122, i));
    let base = Adder { x, y, z, cin: None, xori: None, andi: None, andc: None, cout: None };
    let d = driver(gates, z);
    if i == 0 {
        Adder { cout: gate_of(gates, x, y, GateOp::And), ..base }
    } else if d < 0 {
        base
    } else {
        let (zx, zy) = (gates[d].a, gates[d].b);
        match gate_of(gates, x, y, GateOp::Xor) {
            None => base,
            Some(xori) => {
                let c = if xori == zx {
                    zy
                } else {
                    zx
                };
                let andi = gate_of(gates, x, y, GateOp::And);
                let andc = gate_of(gates, c, xori, GateOp::And);
                let cout = match (andi, andc) {
                    (Some(a), Some(b)) => gate_of(gates, a, b, GateOp::Or),
                    _ => None,
                };
                Adder { cin: Some(c), xori: Some(xori), andi, andc, cout, ..base }
            },
        }
    }
}

/// Bit `i` does not have the shape of a textbook adder bit: its output is
/// not the XOR of the input XOR and a carry, or a role is missing.
pub open spec fn misshapen(gates: Seq<GateSpec>, i: nat) -> bool {
    let r = roles(gates, i);
    let d = driver(gates, r.z);
    if i == 0 {
        gate_of(gates, r.x, r.y, GateOp::Xor) != Some(r.z) || r.cout is None
    } else {
        ||| d < 0
        ||| gates[d].op != GateOp::Xor
        ||| r.xori is None
        ||| (r.xori != Some(gates[d].a) && r.xori != Some(gates[d].b))
        ||| r.andi is None
        ||| r.andc is None
        ||| r.cout is None
    }
}

/// Reads the roles of bit `i` off the circuit.
pub fn adder_roles(gates: &Vec<GateSpec>, i: u32) -> (r: Adder)
    requires
        i < 64,
    ensures
        r == roles(gates@, i as nat),
{
    let x = make_indexed_name(120, i);
    let y = make_indexed_name(121, i);
    let z = make_indexed_name(122, i);
    let mut adder = Adder::new(x, y, z);
    if i == 0 {
        adder.cout = gate(gates, x, y, GateOp::And);
        return adder;
    }
    let d = match find_gate(gates, z) {
        Some(d) => d,
        None => {
            return adder;
        },
    };
    proof {
        lemma_first_gate(gates@, z, 0);
        assert(gates@.len() == gates.len());
        assert(driver(gates@, z) == d as int);
    }
    let zx = gates[d].a;
    let zy = gates[d].b;
    let xori = match gate(gates, x, y, GateOp::Xor) {
        Some(v) => v,
        None => {
            return adder;
        },
    };
    let c = if xori == zx {
        zy
    } else {
        zx
    };
    adder.cin = Some(c);
    adder.xori = Some(xori);
    adder.andi = gate(gates, x, y, GateOp::And);
    adder.andc = gate(gates, c, xori, GateOp::And);
    adder.cout = match (adder.andi, adder.andc) {
        (Some(a), Some(b)) => gate(gates, a, b, GateOp::Or),
        _ => None,
    };
    adder
}

/// The bits below `width` whose wiring departs from a textbook ripple-carry
/// adder, lowest first: the same fault positions that the search by
/// simulation finds, read off the structure alone.
pub fn structural_faults(gates: &Vec<GateSpec>, width: u32) -> (r: Vec<u32>)
    requires
        width <= 64,
    ensures
        forall|k: int| 0 <= k < r.len() ==> r[k] < width && misshapen(gates@, #[trigger] r[k] as nat),
        forall|i: int| 0 <= i < width && #[trigger] misshapen(gates@, i as nat) ==> r@.contains(i as u32),
        forall|k: int, l: int| 0 <= k < l < r.len() ==> r[k] < r[l],
{
    let mut r: Vec<u32> = Vec::new();
    for i in 0..width
        invariant
            width <= 64,
            forall|k: int| 0 <= k < r.len() ==> r[k] < i && misshapen(gates@, #[trigger] r[k] as nat),
            forall|j: int| 0 <= j < i && #[trigger] misshapen(gates@, j as nat) ==> r@.contains(j as u32),
            forall|k: int, l: int| 0 <= k < l < r.len() ==> r[k] < r[l],
    {
        let a = adder_roles(gates, i);
        let bad = if i == 0 {
            let wrong_sum = match gate(gates, a.x, a.y, GateOp::Xor) {
                Some(o) => o != a.z,
                None => true,
            };
            wrong_sum || a.cout.is_none()
        } else {
            match find_gate(gates, a.z) {
                None => true,
                Some(d) => {
                    proof {
                        lemma_first_gate(gates@, a.z, 0);
                        assert(gates@.len() == gates.len());
                        assert(driver(gates@, a.z) == d as int);
                    }
                    let g = gates[d];
                    let stray = match a.xori {
                        None => true,
                        Some(v) => v != g.a && v != g.b,
                    };
                    g.op != GateOp::Xor || stray || a.andi.is_none() || a.andc.is_none()
                        || a.cout.is_none()
                },
            }
        };
        proof {
            lemma_first_gate(gates@, a.z, 0);
        }
        assert(bad == misshapen(gates@, i as nat));
        if bad {
            let ghost old_r = r@;
            r.push(i);
            proof {
                assert forall|j: int| 0 <= j < i + 1 && #[trigger] misshapen(gates@, j as nat) implies r@.contains(j as u32) by {
                    if j < i {
                        assert(old_r.contains(j as u32));
                        let k = choose|k: int| 0 <= k < old_r.len() && old_r[k] == j as u32;
                        assert(r@[k] == j as u32);
                    } else {
                        assert(r@[r.len() - 1] == i);
                    }
                }
            }
        }
    }
    r
}

/// The signals in the adder roles of a bit, in order: output, carry in,
/// input XOR, input AND, carry AND, carry out.
pub open spec fn role_names(a: Adder) -> Seq<Option<u32>> {
    seq![Some(a.z), a.cin, a.xori, a.andi, a.andc, a.cout]
}

/// The drivers of the first `k` filled roles that some gate drives, in order.
pub open spec fn role_drivers(gates: Seq<GateSpec>, names: Seq<Option<u32>>, k: int) -> Seq<usize>
    decreases k,
{
    if k <= 0 {
        Seq::empty()
    } else {
        let prev = role_drivers(gates, names, k - 1);
        match names[k - 1] {
            Some(nm) => if driver(gates, nm) >= 0 {
                prev.push(driver(gates, nm) as usize)
            } else {
                prev
            },
            None => prev,
        }
    }
}

/// The gates that fill the adder roles of bit `i` (its output, carry in,
/// input XOR and AND, carry AND and carry out), by gate index, in that
/// order: the suspects that the structure of the adder points to.
pub fn role_suspects(gates: &Vec<GateSpec>, i: u64) -> (r: Vec<usize>)
    requires
        i < 64,
    ensures
        r@ == role_drivers(gates@, role_names(roles(gates@, i as nat)), 6),
        forall|k: int| 0 <= k < r.len() ==> #[trigger] r@[k] < gates.len(),
{
    let a = adder_roles(gates, i as u32);
    let names: Vec<Option<u32>> = vec![Some(a.z), a.cin, a.xori, a.andi, a.andc, a.cout];
    assert(names@ =~= role_names(roles(gates@, i as nat)));
    let mut r: Vec<usize> = Vec::new();
    for k in 0..names.len()
        invariant
            names@ == role_names(roles(gates@, i as nat)),
            r@ == role_drivers(gates@, names@, k as int),
            forall|q: int| 0 <= q < r.len() ==> #[trigger] r@[q] < gates.len(),
    {
        match names[k] {
            Some(nm) => {
                proof {
                    lemma_first_gate(gates@, nm, 0);
                    assert(gates@.len() == gates.len());
                }
                match find_gate(gates, nm) {
                    Some(g) => {
                        r.push(g);
                    },
                    None => {},
                }
            },
            None => {},
        }
    }
    r
}

} // verus!
