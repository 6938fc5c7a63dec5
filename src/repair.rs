use crate::adder::role_suspects;
use crate::circuit::{driver, lemma_first_gate, simulate};
use crate::gate::{indexed_name, make_indexed_name, name_code, name_index, GateSpec};
use crate::parse::CircuitSpec;
use crate::sim::{driver_index, find_gate, Sim};
use vstd::prelude::*;

verus! {

/// A primary-input assignment together with the two addends it encodes.
pub struct TestCase {
    pub inputs: Vec<(u32, bool)>,
    pub x: u64,
    pub y: u64,
}

/// The bit that an input name `xNN` or `yNN` stands for.
pub open spec fn operand_bit(name: u32) -> Option<nat> {
    match indexed_name(name, 120) {
        Some(k) => Some(k),
        None => indexed_name(name, 121),
    }
}

/// The integer that the entries `<tag>NN` among the first `n` entries of an
/// assignment encode: bit `k` is set when `<tag>k` is true.
pub open spec fn operand(ins: Seq<(u32, bool)>, tag: u8, n: int) -> u64
    decreases n,
{
    if n <= 0 {
        0
    } else {
        let prev = operand(ins, tag, n - 1);
        match indexed_name(ins[n - 1].0, tag) {
            Some(k) => if ins[n - 1].1 {
                prev | (1u64 << (k as u64))
            } else {
                prev
            },
            None => prev,
        }
    }
}

/// The value that test pattern `p` gives to an input `name` that the puzzle
/// assigned `v`: `0` keeps the assignment, `1` sets every input, `2` sets the
/// odd bits of both addends and `3` the even ones.
pub open spec fn pattern_value(p: int, name: u32, v: bool) -> bool {
    if p == 0 {
        v
    } else if p == 1 {
        true
    } else {
        match operand_bit(name) {
            Some(k) => if p == 2 {
                k % 2 == 1
            } else {
                k % 2 == 0
            },
            None => v,
        }
    }
}

pub open spec fn pattern_inputs(ins: Seq<(u32, bool)>, p: int) -> Seq<(u32, bool)> {
    ins.map_values(|e: (u32, bool)| (e.0, pattern_value(p, e.0, e.1)))
}

/// The suite of test vectors is the four patterns, in order, each with the
/// addends its assignment encodes.
pub open spec fn is_suite(ins: Seq<(u32, bool)>, suite: Seq<TestCase>) -> bool {
    &&& suite.len() == 4
    &&& forall|p: int|
        0 <= p < 4 ==> {
            &&& (#[trigger] suite[p]).inputs@ == pattern_inputs(ins, p)
            &&& suite[p].x == operand(suite[p].inputs@, 120, suite[p].inputs@.len() as int)
            &&& suite[p].y == operand(suite[p].inputs@, 121, suite[p].inputs@.len() as int)
        }
}

fn pattern_assignment(inputs: &Vec<(u32, bool)>, p: u32) -> (r: Vec<(u32, bool)>)
    requires
        p < 4,
    ensures
        r@ == pattern_inputs(inputs@, p as int),
{
    let mut r: Vec<(u32, bool)> = Vec::new();
    for i in 0..inputs.len()
        invariant
            p < 4,
            r@.len() == i,
            forall|k: int|
                0 <= k < i ==> #[trigger] r@[k] == (inputs@[k].0, pattern_value(
                    p as int,
                    inputs@[k].0,
                    inputs@[k].1,
                )),
    {
        let (name, v) = inputs[i];
        let bit = match name_index(name, 120) {
            Some(k) => Some(k),
            None => name_index(name, 121),
        };
        let value = if p == 0 {
            v
        } else if p == 1 {
            true
        } else {
            match bit {
                Some(k) => if p == 2 {
                    k % 2 == 1
                } else {
                    k % 2 == 0
                },
                None => v,
            }
        };
        r.push((name, value));
    }
    assert(r@ =~= pattern_inputs(inputs@, p as int));
    r
}

/// The integer that the `<tag>NN` entries of an assignment encode.
pub fn operand_value(inputs: &Vec<(u32, bool)>, tag: u8) -> (r: u64)
    ensures
        r == operand(inputs@, tag, inputs@.len() as int),
{
    let mut acc: u64 = 0;
    for i in 0..inputs.len()
        invariant
            acc == operand(inputs@, tag, i as int),
    {
        let (name, v) = inputs[i];
        match name_index(name, tag) {
            Some(k) => {
                if v {
                    acc = acc | (1u64 << (k as u64));
                }
            },
            None => {},
        }
    }
    acc
}

/// Builds the suite of adder test vectors from a puzzle assignment: the
/// assignment itself, every input set, and the alternating bit pattern and
/// its complement.
pub fn generate_test_cases(inputs: &Vec<(u32, bool)>) -> (r: Vec<TestCase>)
    ensures
        is_suite(inputs@, r@),
        vectors(r@) == test_suite(inputs@),
{
    let mut r: Vec<TestCase> = Vec::new();
    for p in 0..4u32
        invariant
            r@.len() == p,
            forall|q: int|
                0 <= q < p ==> {
                    &&& (#[trigger] r@[q]).inputs@ == pattern_inputs(inputs@, q)
                    &&& r@[q].x == operand(r@[q].inputs@, 120, r@[q].inputs@.len() as int)
                    &&& r@[q].y == operand(r@[q].inputs@, 121, r@[q].inputs@.len() as int)
                },
    {
        let ins = pattern_assignment(inputs, p);
        let x = operand_value(&ins, 120);
        let y = operand_value(&ins, 121);
        r.push(TestCase { inputs: ins, x, y });
    }
    assert(vectors(r@) =~= test_suite(inputs@));
    r
}

/// A test case as values: the assignment and the two addends.
pub type TestVector = (Seq<(u32, bool)>, u64, u64);

pub open spec fn vectors(suite: Seq<TestCase>) -> Seq<TestVector> {
    suite.map_values(|t: TestCase| (t.inputs@, t.x, t.y))
}

/// The suite of adder test vectors for a puzzle assignment.
pub open spec fn test_suite(ins: Seq<(u32, bool)>) -> Seq<TestVector> {
    Seq::new(
        4,
        |p: int|
            (
                pattern_inputs(ins, p),
                operand(pattern_inputs(ins, p), 120, ins.len() as int),
                operand(pattern_inputs(ins, p), 121, ins.len() as int),
            ),
    )
}

/// The bits on which a run of `gates` on test case `t` differs from `x + y`;
/// every bit where the run yields no result or the sum does not fit.
pub open spec fn mismatch(gates: Seq<GateSpec>, t: TestVector) -> u64 {
    match simulate(gates, t.0) {
        Some(a) => if t.1 as int + t.2 as int <= u64::MAX {
            a ^ ((t.1 + t.2) as u64)
        } else {
            u64::MAX
        },
        None => u64::MAX,
    }
}

/// The bits on which some of the first `n` test cases goes wrong.
pub open spec fn fault_mask(gates: Seq<GateSpec>, suite: Seq<TestVector>, n: int) -> u64
    decreases n,
{
    if n <= 0 {
        0
    } else {
        fault_mask(gates, suite, n - 1) | mismatch(gates, suite[n - 1])
    }
}

pub open spec fn all_faults(gates: Seq<GateSpec>, suite: Seq<TestVector>) -> u64 {
    fault_mask(gates, suite, suite.len() as int)
}

/// The lowest set bit of `m` at or above `k` and below `w`.
pub open spec fn lowest_bit_from(m: u64, k: nat, w: nat) -> Option<nat>
    decreases w - k,
{
    if k >= w || k >= 64 {
        None
    } else if m & (1u64 << (k as u64)) != 0 {
        Some(k)
    } else {
        lowest_bit_from(m, k + 1, w)
    }
}

/// The bits on which a run of `gates` on `t` goes wrong.
pub fn test_mismatch(sim: &Sim, t: &TestCase) -> (r: u64)
    requires
        sim.wf(),
    ensures
        r == mismatch(sim.circuitry@, (t.inputs@, t.x, t.y)),
{
    match sim.run(&t.inputs) {
        Some(a) => {
            if t.y <= u64::MAX - t.x {
                a ^ (t.x + t.y)
            } else {
                u64::MAX
            }
        },
        None => u64::MAX,
    }
}

/// The bits on which some test case of the suite goes wrong, for `gates`.
pub fn faults(gates: &Vec<GateSpec>, suite: &Vec<TestCase>) -> (r: u64)
    ensures
        r == all_faults(gates@, vectors(suite@)),
{
    let sim = Sim::from(gates.clone());
    let mut m: u64 = 0;
    for i in 0..suite.len()
        invariant
            sim.wf(),
            sim.circuitry@ == gates@,
            m == fault_mask(gates@, vectors(suite@), i as int),
    {
        m = m | test_mismatch(&sim, &suite[i]);
    }
    m
}

/// The lowest set bit of `m` at or above `k` and below `w`.
pub fn lowest_bit(m: u64, k: u64, w: u64) -> (r: Option<u64>)
    ensures
        r matches Some(b) ==> lowest_bit_from(m, k as nat, w as nat) == Some(b as nat),
        r is None ==> lowest_bit_from(m, k as nat, w as nat) is None,
{
    let mut j = k;
    while j < w && j < 64
        invariant
            k <= j,
            lowest_bit_from(m, k as nat, w as nat) == lowest_bit_from(m, j as nat, w as nat),
        decreases w - j,
    {
        if m & (1u64 << j) != 0 {
            return Some(j);
        }
        j = j + 1;
    }
    None
}

} // verus!

verus! {

/// Signal `s` is computed, within `depth` gates, from some signal of `dest`.
pub open spec fn reaches(gates: Seq<GateSpec>, dest: Seq<u32>, s: u32, depth: nat) -> bool
    decreases depth,
{
    if dest.contains(s) {
        true
    } else if depth == 0 || driver(gates, s) < 0 {
        false
    } else {
        let g = gates[driver(gates, s)];
        reaches(gates, dest, g.a, (depth - 1) as nat) || reaches(gates, dest, g.b, (depth - 1) as nat)
    }
}

/// The outputs of gates on the paths from `s` back to a signal of `dest`
/// within `depth` gates: `s` itself when it reaches `dest`, and those found
/// behind both inputs of its driver.
pub open spec fn on_paths(gates: Seq<GateSpec>, dest: Seq<u32>, s: u32, depth: nat) -> Set<u32>
    decreases depth,
{
    if dest.contains(s) || depth == 0 || driver(gates, s) < 0 {
        Set::empty()
    } else {
        let g = gates[driver(gates, s)];
        let inner = on_paths(gates, dest, g.a, (depth - 1) as nat).union(
            on_paths(gates, dest, g.b, (depth - 1) as nat),
        );
        if reaches(gates, dest, s, depth) {
            inner.insert(s)
        } else {
            inner
        }
    }
}

/// The addend inputs near bit `i`: `x` and `y` of bits `i - below` to
/// `i + above`, within bits 0 to 63.
pub open spec fn window(i: nat, below: nat, above: nat) -> Seq<u32> {
    let lo = if i >= below {
        i - below
    } else {
        0
    };
    let hi = if i + above <= 63 {
        i + above
    } else {
        63
    };
    Seq::new(
        (2 * (hi - lo + 1)) as nat,
        |k: int|
            if k % 2 == 0 {
                name_code(120, (48 + (lo + k / 2) / 10) as u8, (48 + (lo + k / 2) % 10) as u8)
            } else {
                name_code(121, (48 + (lo + k / 2) / 10) as u8, (48 + (lo + k / 2) % 10) as u8)
            },
    )
}

/// Gate `g` is a suspect for a fault at output bit `i`: its output lies on
/// a path from `zi` back to the addend inputs near bit `i`.
pub open spec fn is_suspect(gates: Seq<GateSpec>, i: nat, below: nat, above: nat, g: int) -> bool {
    &&& 0 <= g < gates.len()
    &&& driver(gates, gates[g].out) == g
    &&& on_paths(gates, window(i, below, above), name_code(122, (48 + i / 10) as u8, (48 + i % 10) as u8), gates.len() + 1).contains(gates[g].out)
}

fn contains_name(names: &Vec<u32>, s: u32) -> (r: bool)
    ensures
        r == names@.contains(s),
{
    for i in 0..names.len()
        invariant
            forall|k: int| 0 <= k < i ==> names@[k] != s,
    {
        if names[i] == s {
            return true;
        }
    }
    false
}

fn add_name(names: &mut Vec<u32>, x: u32)
    ensures
        forall|y: u32| #[trigger] final(names)@.contains(y) <==> old(names)@.contains(y) || y == x,
{
    if !contains_name(names, x) {
        let ghost before = names@;
        names.push(x);
        proof {
            assert forall|y: u32| #[trigger] names@.contains(y) <==> before.contains(y) || y == x by {
                if names@.contains(y) {
                    let k = choose|k: int| 0 <= k < names@.len() && names@[k] == y;
                    if k < before.len() {
                        assert(before[k] == y);
                    }
                }
                if before.contains(y) {
                    let k = choose|k: int| 0 <= k < before.len() && before[k] == y;
                    assert(names@[k] == y);
                }
                if y == x {
                    assert(names@[names@.len() - 1] == x);
                }
            }
        }
    }
}

/// Whether `s` is computed, within `depth` gates, from a signal of `dest`;
/// the outputs of gates on the paths from `s` back to `dest` are added to `out`.
pub fn get_gates(gates: &Vec<GateSpec>, dest: &Vec<u32>, s: u32, out: &mut Vec<u32>, depth: u64) -> (r: bool)
    ensures
        r == reaches(gates@, dest@, s, depth as nat),
        forall|x: u32| #[trigger] final(out)@.contains(x) <==> old(out)@.contains(x) || on_paths(
            gates@,
            dest@,
            s,
            depth as nat,
        ).contains(x),
    decreases depth,
{
    if contains_name(dest, s) {
        return true;
    }
    if depth == 0 {
        return false;
    }
    match find_gate(gates, s) {
        Some(g) => {
            proof {
                lemma_first_gate(gates@, s, 0);
            }
            let gate = gates[g];
            assert(gates@.len() == gates.len());
            assert(driver(gates@, s) == g as int);
            let ra = get_gates(gates, dest, gate.a, out, depth - 1);
            let rb = get_gates(gates, dest, gate.b, out, depth - 1);
            if ra || rb {
                add_name(out, s);
            }
            ra || rb
        },
        None => false,
    }
}

fn window_names(i: u64, below: u64, above: u64) -> (r: Vec<u32>)
    requires
        i < 64,
    ensures
        r@ == window(i as nat, below as nat, above as nat),
{
    let lo: u64 = if i >= below {
        i - below
    } else {
        0
    };
    let hi: u64 = if above <= 63 - i {
        i + above
    } else {
        63
    };
    let mut r: Vec<u32> = Vec::new();
    let mut k: u64 = lo;
    while k <= hi
        invariant
            lo <= k <= hi + 1,
            hi <= 63,
            i < 64,
            lo == (if i >= below { i - below } else { 0 }),
            hi == (if i + above <= 63 { i + above } else { 63 }),
            r@.len() == 2 * (k - lo),
            forall|j: int| 0 <= j < r@.len() ==> #[trigger] r@[j] == window(i as nat, below as nat, above as nat)[j],
        decreases hi + 1 - k,
    {
        let ghost j = 2 * (k - lo);
        let xn = make_indexed_name(120, k as u32);
        let yn = make_indexed_name(121, k as u32);
        r.push(xn);
        r.push(yn);
        proof {
            assert((j + 1) / 2 == k - lo);
            assert(j / 2 == k - lo);
            assert((k as u32) / 10 == k / 10 && (k as u32) % 10 == k % 10);
            assert(r@[j] == window(i as nat, below as nat, above as nat)[j]);
            assert(r@[j + 1] == window(i as nat, below as nat, above as nat)[j + 1]);
        }
        k = k + 1;
    }
    assert(r@ =~= window(i as nat, below as nat, above as nat));
    r
}

/// The suspects for a fault at output bit `i`, by gate index, with the
/// window of addend inputs at bits `i - 2` to `i + 1`.
pub fn suspects(gates: &Vec<GateSpec>, i: u64) -> (r: Vec<usize>)
    requires
        i < 64,
        gates.len() < u64::MAX,
    ensures
        forall|k: int| 0 <= k < r.len() ==> is_suspect(gates@, i as nat, 2, 1, #[trigger] r[k] as int),
        forall|g: int| is_suspect(gates@, i as nat, 2, 1, g) ==> r@.contains(g as usize),
{
    suspects_within(gates, i, 2, 1)
}

/// The suspects for a fault at output bit `i`, by gate index, with the
/// window of addend inputs at bits `i - below` to `i + above`.
pub fn suspects_within(gates: &Vec<GateSpec>, i: u64, below: u64, above: u64) -> (r: Vec<usize>)
    requires
        i < 64,
        gates.len() < u64::MAX,
    ensures
        forall|k: int| 0 <= k < r.len() ==> is_suspect(gates@, i as nat, below as nat, above as nat, #[trigger] r[k] as int),
        forall|g: int| is_suspect(gates@, i as nat, below as nat, above as nat, g) ==> r@.contains(g as usize),
{
    let dest = window_names(i, below, above);
    let z = make_indexed_name(122, i as u32);
    assert((i as u32) / 10 == i / 10 && (i as u32) % 10 == i % 10);
    let depth = gates.len() as u64 + 1;
    let mut names: Vec<u32> = Vec::new();
    get_gates(gates, &dest, z, &mut names, depth);
    let mut r: Vec<usize> = Vec::new();
    for g in 0..gates.len()
        invariant
            forall|x: u32| #[trigger] names@.contains(x) <==> on_paths(gates@, window(i as nat, below as nat, above as nat), z, depth as nat).contains(x),
            depth == gates.len() + 1,
            z == name_code(122, (48 + i / 10) as u8, (48 + i % 10) as u8),
            forall|k: int| 0 <= k < r.len() ==> is_suspect(gates@, i as nat, below as nat, above as nat, #[trigger] r[k] as int),
            forall|h: int| 0 <= h < g && is_suspect(gates@, i as nat, below as nat, above as nat, h) ==> r@.contains(h as usize),
    {
        let out = gates[g].out;
        let own = match find_gate(gates, out) {
            Some(d) => d == g,
            None => false,
        };
        proof {
            lemma_first_gate(gates@, out, 0);
        }
        if own && contains_name(&names, out) {
            assert(is_suspect(gates@, i as nat, below as nat, above as nat, g as int));
            let ghost old_r = r@;
            r.push(g);
            proof {
                assert(r@[r.len() - 1] == g);
                assert forall|h: int| 0 <= h < g + 1 && is_suspect(gates@, i as nat, below as nat, above as nat, h) implies r@.contains(h as usize) by {
                    if h < g {
                        assert(old_r.contains(h as usize));
                        let k = choose|k: int| 0 <= k < old_r.len() && old_r[k] == h as usize;
                        assert(r@[k] == h as usize);
                    }
                }
            }
        }
    }
    r
}

} // verus!

verus! {

/// Exchanges the outputs of the gates that drive `n1` and `n2`: what drove
/// `n1` now drives `n2`, and the other way round.
pub open spec fn swap_outputs(gates: Seq<GateSpec>, n1: u32, n2: u32) -> Seq<GateSpec> {
    gates.map_values(
        |g: GateSpec|
            if g.out == n1 {
                GateSpec { out: n2, ..g }
            } else if g.out == n2 {
                GateSpec { out: n1, ..g }
            } else {
                g
            },
    )
}

/// The gates after each swap of output names in `swaps`, in order.
pub open spec fn apply_swaps(gates: Seq<GateSpec>, swaps: Seq<(u32, u32)>) -> Seq<GateSpec>
    decreases swaps.len(),
{
    if swaps.len() == 0 {
        gates
    } else {
        swap_outputs(apply_swaps(gates, swaps.drop_last()), swaps.last().0, swaps.last().1)
    }
}

/// Every test vector is right on output bits `0..=i`.
pub open spec fn fixes(gates: Seq<GateSpec>, suite: Seq<TestVector>, i: nat) -> bool {
    lowest_bit_from(all_faults(gates, suite), 0, i + 1) is None
}

/// No swap of the outputs of two distinct gates makes every test vector
/// right on bits `0..=i`.
pub open spec fn no_swap_fixes(gates: Seq<GateSpec>, suite: Seq<TestVector>, i: nat) -> bool {
    forall|g1: int, g2: int|
        #![trigger gates[g1], gates[g2]]
        0 <= g1 < gates.len() && 0 <= g2 < gates.len() && g1 != g2 ==> !fixes(
            swap_outputs(gates, gates[g1].out, gates[g2].out),
            suite,
            i,
        )
}

/// `sw` names the outputs of two distinct gates, and swapping them makes
/// every test vector right on bits `0..=i`.
pub open spec fn fixing_swap(gates: Seq<GateSpec>, suite: Seq<TestVector>, i: nat, sw: (u32, u32)) -> bool {
    &&& exists|g1: int, g2: int|
        0 <= g1 < gates.len() && 0 <= g2 < gates.len() && g1 != g2 && sw == (
        gates[g1].out,
        gates[g2].out,
    )
    &&& fixes(swap_outputs(gates, sw.0, sw.1), suite, i)
}

/// Each recorded swap mended the lowest faulty bit (below `width`) of the
/// circuit that the swaps before it had made.
pub open spec fn repair_trace(
    gates: Seq<GateSpec>,
    suite: Seq<TestVector>,
    width: nat,
    swaps: Seq<(u32, u32)>,
) -> bool {
    forall|k: int|
        0 <= k < swaps.len() ==> {
            let b = #[trigger] apply_swaps(gates, swaps.subrange(0, k));
            &&& lowest_bit_from(all_faults(b, suite), 0, width) is Some
            &&& fixing_swap(b, suite, lowest_bit_from(all_faults(b, suite), 0, width)->Some_0, swaps[k])
        }
}

proof fn lemma_swap_symmetric(gates: Seq<GateSpec>, n1: u32, n2: u32)
    ensures
        swap_outputs(gates, n1, n2) == swap_outputs(gates, n2, n1),
{
    assert(swap_outputs(gates, n1, n2) =~= swap_outputs(gates, n2, n1));
}

/// A circuit whose test vectors are all right on bits `0..=i` has its lowest
/// faulty bit above `i`.
proof fn lemma_lowest_above(m: u64, k: nat, i: nat, w: nat)
    requires
        k <= i + 1,
        i + 1 <= w,
        lowest_bit_from(m, k, i + 1) is None,
    ensures
        lowest_bit_from(m, k, w) == lowest_bit_from(m, i + 1, w),
    decreases i + 1 - k,
{
    if k < i + 1 {
        lemma_lowest_above(m, k + 1, i, w);
    }
}

/// A repaired circuit and the output-name swaps that made it.
pub struct RepairedSpec {
    pub circuitry: Vec<GateSpec>,
    pub swaps: Vec<(u32, u32)>,
}

/// The search found no swap that mends the fault at output bit `bit`.
#[derive(Clone, Copy, Debug, PartialEq, Eq, Structural)]
pub struct UnresolvedFault {
    pub bit: u64,
}

/// The gates with the outputs `n1` and `n2` exchanged.
pub fn swap_gate_outputs(gates: &Vec<GateSpec>, n1: u32, n2: u32) -> (r: Vec<GateSpec>)
    ensures
        r@ == swap_outputs(gates@, n1, n2),
{
    let mut r: Vec<GateSpec> = Vec::new();
    for i in 0..gates.len()
        invariant
            r@.len() == i,
            forall|k: int| 0 <= k < i ==> #[trigger] r@[k] == swap_outputs(gates@, n1, n2)[k],
    {
        let g = gates[i];
        let ng = if g.out == n1 {
            GateSpec { out: n2, ..g }
        } else if g.out == n2 {
            GateSpec { out: n1, ..g }
        } else {
            g
        };
        r.push(ng);
    }
    assert(r@ =~= swap_outputs(gates@, n1, n2));
    r
}

fn copy_gates(gates: &Vec<GateSpec>) -> (r: Vec<GateSpec>)
    ensures
        r@ == gates@,
{
    let mut r: Vec<GateSpec> = Vec::new();
    for i in 0..gates.len()
        invariant
            r@ == gates@.subrange(0, i as int),
    {
        r.push(gates[i]);
        assert(r@ =~= gates@.subrange(0, i + 1));
    }
    assert(r@ =~= gates@);
    r
}

/// Searches for two gates whose output swap makes every test vector right
/// on bits `0..=i`: first each suspect against every other gate, then, where
/// that fails, every pair of gates.
fn find_fix(gates: &Vec<GateSpec>, suite: &Vec<TestCase>, i: u64, by: Localizer) -> (r: Option<(u32, u32)>)
    requires
        i < 64,
        gates.len() < u64::MAX,
    ensures
        r matches Some(sw) ==> fixing_swap(gates@, vectors(suite@), i as nat, sw),
        r is None ==> no_swap_fixes(gates@, vectors(suite@), i as nat),
{
    let cands = match by {
        Localizer::Window => suspects(gates, i),
        Localizer::Span { below, above } => suspects_within(gates, i, below, above),
        Localizer::Structure => role_suspects(gates, i),
    };
    let n = cands.len();
    let m = gates.len();
    for p in 0..n
        invariant
            m == gates.len(),
            n == cands.len(),
            i < 64,
    {
        let g1 = cands[p];
        if g1 < m {
            for q in 0..m
                invariant
                    m == gates.len(),
                    g1 < m,
                    i < 64,
            {
                if q != g1 {
                    let n1 = gates[g1].out;
                    let n2 = gates[q].out;
                    let mask = faults(&swap_gate_outputs(gates, n1, n2), suite);
                    if lowest_bit(mask, 0, i + 1).is_none() {
                        assert(fixing_swap(gates@, vectors(suite@), i as nat, (n1, n2)));
                        return Some((n1, n2));
                    }
                }
            }
        }
    }
    for g1 in 0..m
        invariant
            m == gates.len(),
            i < 64,
            forall|k1: int, k2: int|
                0 <= k1 < g1 && k1 < k2 < m ==> !fixes(
                    #[trigger] swap_outputs(gates@, gates@[k1].out, gates@[k2].out),
                    vectors(suite@),
                    i as nat,
                ),
    {
        for g2 in g1 + 1..m
            invariant
                m == gates.len(),
                i < 64,
                g1 < m,
                forall|k1: int, k2: int|
                    0 <= k1 < g1 && k1 < k2 < m ==> !fixes(
                        #[trigger] swap_outputs(gates@, gates@[k1].out, gates@[k2].out),
                        vectors(suite@),
                        i as nat,
                    ),
                forall|k2: int|
                    g1 < k2 < g2 ==> !fixes(
                        #[trigger] swap_outputs(gates@, gates@[g1 as int].out, gates@[k2].out),
                        vectors(suite@),
                        i as nat,
                    ),
        {
            let n1 = gates[g1].out;
            let n2 = gates[g2].out;
            let mask = faults(&swap_gate_outputs(gates, n1, n2), suite);
            if lowest_bit(mask, 0, i + 1).is_none() {
                assert(fixing_swap(gates@, vectors(suite@), i as nat, (n1, n2)));
                return Some((n1, n2));
            }
        }
    }
    proof {
        assert forall|g1: int, g2: int|
            #![trigger gates@[g1], gates@[g2]]
            0 <= g1 < gates@.len() && 0 <= g2 < gates@.len() && g1 != g2 implies !fixes(
                swap_outputs(gates@, gates@[g1].out, gates@[g2].out),
                vectors(suite@),
                i as nat,
            ) by {
            if g2 < g1 {
                lemma_swap_symmetric(gates@, gates@[g1].out, gates@[g2].out);
                assert(!fixes(swap_outputs(gates@, gates@[g2].out, gates@[g1].out), vectors(suite@), i as nat));
            } else {
                assert(!fixes(swap_outputs(gates@, gates@[g1].out, gates@[g2].out), vectors(suite@), i as nat));
            }
        }
    }
    None
}

/// Where the swap search looks first for a fault at bit `i`: the gates on
/// the paths from `zi` back to the addends of bits `i - 2` to `i + 1`, or of
/// bits `i - below` to `i + above`, or the gates that fill the adder roles
/// of bit `i`.
#[derive(Clone, Copy, Debug, PartialEq, Eq, Structural)]
pub enum Localizer {
    Window,
    Span { below: u64, above: u64 },
    Structure,
}

/// Repairs a circuit meant to add the `x` and `y` addends into `z`, with
/// suspects found near each faulty bit by the window of addend inputs.
pub fn repair(spec: &CircuitSpec, width: u64) -> (r: Result<RepairedSpec, UnresolvedFault>)
    requires
        width <= 64,
        spec.circuitry.len() < u64::MAX,
    ensures
        r matches Ok(fixed) ==> {
            &&& fixed.circuitry@ == apply_swaps(spec.circuitry@, fixed.swaps@)
            &&& repair_trace(spec.circuitry@, test_suite(spec.inputs@), width as nat, fixed.swaps@)
            &&& lowest_bit_from(all_faults(fixed.circuitry@, test_suite(spec.inputs@)), 0, width as nat) is None
        },
        r matches Err(e) ==> e.bit < width && exists|swaps: Seq<(u32, u32)>|
            {
                let b = #[trigger] apply_swaps(spec.circuitry@, swaps);
                &&& repair_trace(spec.circuitry@, test_suite(spec.inputs@), width as nat, swaps)
                &&& lowest_bit_from(all_faults(b, test_suite(spec.inputs@)), 0, width as nat) == Some(e.bit as nat)
                &&& no_swap_fixes(b, test_suite(spec.inputs@), e.bit as nat)
            },
{
    repair_with(spec, width, Localizer::Window)
}

/// Repairs a circuit meant to add the `x` and `y` addends into `z`: runs the
/// test vectors, takes the lowest output bit below `width` that some vector
/// gets wrong, and swaps the outputs of the first pair of gates whose swap
/// makes every vector right up to that bit, searching the suspects that `by`
/// gives first and the whole circuit after; then goes on from there. Fails
/// on the first fault for which no swap of two gates helps.
pub fn repair_with(spec: &CircuitSpec, width: u64, by: Localizer) -> (r: Result<RepairedSpec, UnresolvedFault>)
    requires
        width <= 64,
        spec.circuitry.len() < u64::MAX,
    ensures
        r matches Ok(fixed) ==> {
            &&& fixed.circuitry@ == apply_swaps(spec.circuitry@, fixed.swaps@)
            &&& repair_trace(spec.circuitry@, test_suite(spec.inputs@), width as nat, fixed.swaps@)
            &&& lowest_bit_from(all_faults(fixed.circuitry@, test_suite(spec.inputs@)), 0, width as nat) is None
        },
        r matches Err(e) ==> e.bit < width && exists|swaps: Seq<(u32, u32)>|
            {
                let b = #[trigger] apply_swaps(spec.circuitry@, swaps);
                &&& repair_trace(spec.circuitry@, test_suite(spec.inputs@), width as nat, swaps)
                &&& lowest_bit_from(all_faults(b, test_suite(spec.inputs@)), 0, width as nat) == Some(e.bit as nat)
                &&& no_swap_fixes(b, test_suite(spec.inputs@), e.bit as nat)
            },
{
    let suite = generate_test_cases(&spec.inputs);
    let ghost ts = test_suite(spec.inputs@);
    let mut cur = copy_gates(&spec.circuitry);
    let mut swaps: Vec<(u32, u32)> = Vec::new();
    let mut start: u64 = 0;
    loop
        invariant
            width <= 64,
            vectors(suite@) == ts,
            ts == test_suite(spec.inputs@),
            cur@ == apply_swaps(spec.circuitry@, swaps@),
            repair_trace(spec.circuitry@, ts, width as nat, swaps@),
            cur.len() == spec.circuitry.len(),
            spec.circuitry.len() < u64::MAX,
            start <= width,
            lowest_bit_from(all_faults(cur@, ts), 0, width as nat) == lowest_bit_from(
                all_faults(cur@, ts),
                start as nat,
                width as nat,
            ),
        decreases width - start,
    {
        let m = faults(&cur, &suite);
        match lowest_bit(m, start, width) {
            None => {
                return Ok(RepairedSpec { circuitry: cur, swaps });
            },
            Some(i) => {
                proof {
                    lemma_lowest_bit_range(m, start as nat, width as nat);
                }
                match find_fix(&cur, &suite, i, by) {
                    Some(sw) => {
                        let next = swap_gate_outputs(&cur, sw.0, sw.1);
                        let ghost old_swaps = swaps@;
                        swaps.push(sw);
                        proof {
                            assert(swaps@.drop_last() == old_swaps);
                            assert(swaps@.subrange(0, old_swaps.len() as int) =~= old_swaps);
                            assert forall|k: int| 0 <= k < swaps@.len() implies {
                                let b = #[trigger] apply_swaps(spec.circuitry@, swaps@.subrange(0, k));
                                &&& lowest_bit_from(all_faults(b, ts), 0, width as nat) is Some
                                &&& fixing_swap(b, ts, lowest_bit_from(all_faults(b, ts), 0, width as nat)->Some_0, swaps@[k])
                            } by {
                                if k < old_swaps.len() {
                                    assert(swaps@.subrange(0, k) =~= old_swaps.subrange(0, k));
                                    assert(swaps@[k] == old_swaps[k]);
                                } else {
                                    assert(lowest_bit_from(all_faults(cur@, ts), 0, width as nat) == Some(i as nat));
                                }
                            }
                            lemma_lowest_above(all_faults(next@, ts), 0, i as nat, width as nat);
                        }
                        cur = next;
                        start = i + 1;
                    },
                    None => {
                        return Err(UnresolvedFault { bit: i });
                    },
                }
            },
        }
    }
}

proof fn lemma_lowest_bit_range(m: u64, k: nat, w: nat)
    ensures
        lowest_bit_from(m, k, w) matches Some(b) ==> k <= b < w,
    decreases w - k,
{
    if k < w && k < 64 && m & (1u64 << (k as u64)) == 0 {
        lemma_lowest_bit_range(m, k + 1, w);
    }
}

} // verus!
