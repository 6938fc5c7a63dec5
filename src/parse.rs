use crate::circuit::{first_gate, first_input, lemma_first_gate, simulate};
use crate::gate::{make_name, name_code, GateOp, GateSpec};
use crate::sim::{find_gate, lemma_first_input, Sim};
use vstd::prelude::*;
use vstd::string::StringSliceAdditionalSpecFns;

verus! {

/// A circuit as its text gives it: the primary-input assignment and the gates.
pub struct CircuitSpec {
    pub inputs: Vec<(u32, bool)>,
    pub circuitry: Vec<GateSpec>,
}

pub open spec fn is_word_byte(b: u8) -> bool {
    (48 <= b && b <= 57) || (65 <= b && b <= 90) || (97 <= b && b <= 122) || b == 95
}

/// Three word bytes (letters, digits, `_`) at `i`.
pub open spec fn word_at(l: Seq<u8>, i: int) -> bool {
    is_word_byte(l[i]) && is_word_byte(l[i + 1]) && is_word_byte(l[i + 2])
}

pub open spec fn name_at(l: Seq<u8>, i: int) -> u32 {
    name_code(l[i], l[i + 1], l[i + 2])
}

/// The operation spelled at `i` with `len` letters: `AND`, `OR` or `XOR`.
pub open spec fn op_at(l: Seq<u8>, i: int, len: int) -> Option<GateOp> {
    if len == 3 && l[i] == 65 && l[i + 1] == 78 && l[i + 2] == 68 {
        Some(GateOp::And)
    } else if len == 3 && l[i] == 88 && l[i + 1] == 79 && l[i + 2] == 82 {
        Some(GateOp::Xor)
    } else if len == 2 && l[i] == 79 && l[i + 1] == 82 {
        Some(GateOp::Or)
    } else {
        None
    }
}

/// A gate line: `aaa OP bbb -> ccc`.
pub open spec fn gate_line(l: Seq<u8>) -> Option<GateSpec> {
    let k = l.len() - 15;
    if (k == 2 || k == 3) && word_at(l, 0) && l[3] == 32 && op_at(l, 4, k) is Some && l[4 + k]
        == 32 && word_at(l, 5 + k) && l[8 + k] == 32 && l[9 + k] == 45 && l[10 + k] == 62 && l[11
        + k] == 32 && word_at(l, 12 + k) {
        Some(
            GateSpec {
                a: name_at(l, 0),
                b: name_at(l, 5 + k),
                op: op_at(l, 4, k)->Some_0,
                out: name_at(l, 12 + k),
            },
        )
    } else {
        None
    }
}

/// An input line: `aaa: 0` or `aaa: 1`.
pub open spec fn input_line(l: Seq<u8>) -> Option<(u32, bool)> {
    if l.len() == 6 && word_at(l, 0) && l[3] == 58 && l[4] == 32 && (l[5] == 48 || l[5] == 49) {
        Some((name_at(l, 0), l[5] == 49))
    } else {
        None
    }
}

/// The end of the line that starts at `i`: the next `\n`, or the end of text.
pub open spec fn line_end(t: Seq<u8>, i: int) -> int
    decreases t.len() - i,
{
    if i < 0 || i >= t.len() || t[i] == 10 {
        i
    } else {
        line_end(t, i + 1)
    }
}

/// Gives `s` the value `v`; a later line for the same name replaces an earlier one.
pub open spec fn set_input(ins: Seq<(u32, bool)>, e: (u32, bool)) -> Seq<(u32, bool)> {
    let k = first_input(ins, e.0, 0);
    if k >= 0 {
        ins.update(k, e)
    } else {
        ins.push(e)
    }
}

/// Adds gate `g`; a later gate with the same output replaces an earlier one.
pub open spec fn set_gate(gates: Seq<GateSpec>, g: GateSpec) -> Seq<GateSpec> {
    let k = first_gate(gates, g.out, 0);
    if k >= 0 {
        gates.update(k, g)
    } else {
        gates.push(g)
    }
}

/// The circuit that the lines from `i` on add to `ins` and `gates`: each
/// line is empty, an input line or a gate line; any other line makes the
/// text invalid.
pub open spec fn parse_from(
    t: Seq<u8>,
    i: int,
    ins: Seq<(u32, bool)>,
    gates: Seq<GateSpec>,
) -> Option<(Seq<(u32, bool)>, Seq<GateSpec>)>
    decreases t.len() + 1 - i,
{
    if i < 0 || i >= t.len() {
        Some((ins, gates))
    } else {
        let e = line_end(t, i);
        let l = t.subrange(i, e);
        if e < i || e > t.len() {
            None
        } else if l.len() == 0 {
            parse_from(t, e + 1, ins, gates)
        } else if input_line(l) is Some {
            parse_from(t, e + 1, set_input(ins, input_line(l)->Some_0), gates)
        } else if gate_line(l) is Some {
            parse_from(t, e + 1, ins, set_gate(gates, gate_line(l)->Some_0))
        } else {
            None
        }
    }
}

/// No two gates drive the same signal.
pub open spec fn unique_outputs(gates: Seq<GateSpec>) -> bool {
    forall|i: int, j: int| 0 <= i < j < gates.len() ==> gates[i].out != gates[j].out
}

/// No signal is assigned twice.
pub open spec fn unique_inputs(ins: Seq<(u32, bool)>) -> bool {
    forall|i: int, j: int| 0 <= i < j < ins.len() ==> ins[i].0 != ins[j].0
}

proof fn lemma_set_gate_unique(gates: Seq<GateSpec>, g: GateSpec)
    requires
        unique_outputs(gates),
    ensures
        unique_outputs(set_gate(gates, g)),
{
    lemma_first_gate(gates, g.out, 0);
}

proof fn lemma_set_input_unique(ins: Seq<(u32, bool)>, e: (u32, bool))
    requires
        unique_inputs(ins),
    ensures
        unique_inputs(set_input(ins, e)),
{
    lemma_first_input(ins, e.0, 0);
}


/// The circuit that a text describes.
pub open spec fn parse_spec(t: Seq<u8>) -> Option<(Seq<(u32, bool)>, Seq<GateSpec>)> {
    parse_from(t, 0, Seq::empty(), Seq::empty())
}

fn is_word(b: u8) -> (r: bool)
    ensures
        r == is_word_byte(b),
{
    (48 <= b && b <= 57) || (65 <= b && b <= 90) || (97 <= b && b <= 122) || b == 95
}

fn word(t: &[u8], i: usize) -> (r: bool)
    requires
        i + 3 <= t@.len(),
    ensures
        r == word_at(t@, i as int),
{
    is_word(t[i]) && is_word(t[i + 1]) && is_word(t[i + 2])
}

fn name(t: &[u8], i: usize) -> (r: u32)
    requires
        i + 3 <= t@.len(),
    ensures
        r == name_at(t@, i as int),
{
    make_name(t[i], t[i + 1], t[i + 2])
}

/// Reads the input line `t[s..e]`.
pub fn parse_input_line(t: &[u8], s: usize, e: usize) -> (r: Option<(u32, bool)>)
    requires
        s <= e <= t@.len(),
    ensures
        r == input_line(t@.subrange(s as int, e as int)),
{
    let ghost l = t@.subrange(s as int, e as int);
    if e - s == 6 && word(t, s) && t[s + 3] == 58 && t[s + 4] == 32 && (t[s + 5] == 48 || t[s + 5]
        == 49) {
        assert(word_at(l, 0) == word_at(t@, s as int));
        Some((name(t, s), t[s + 5] == 49))
    } else {
        assert(e - s == 6 ==> word_at(l, 0) == word_at(t@, s as int));
        None
    }
}

fn parse_op(t: &[u8], i: usize, len: usize) -> (r: Option<GateOp>)
    requires
        i + len <= t@.len(),
        len == 2 || len == 3,
    ensures
        r == op_at(t@, i as int, len as int),
{
    if len == 3 && t[i] == 65 && t[i + 1] == 78 && t[i + 2] == 68 {
        Some(GateOp::And)
    } else if len == 3 && t[i] == 88 && t[i + 1] == 79 && t[i + 2] == 82 {
        Some(GateOp::Xor)
    } else if len == 2 && t[i] == 79 && t[i + 1] == 82 {
        Some(GateOp::Or)
    } else {
        None
    }
}

/// Reads a gate line `t[s..e]`.
pub fn parse_gate_line(t: &[u8], s: usize, e: usize) -> (r: Option<GateSpec>)
    requires
        s <= e <= t@.len(),
    ensures
        r == gate_line(t@.subrange(s as int, e as int)),
{
    let ghost l = t@.subrange(s as int, e as int);
    if e - s != 17 && e - s != 18 {
        return None;
    }
    let k = e - s - 15;
    assert(word_at(l, 0) == word_at(t@, s as int));
    assert(word_at(l, 5 + k) == word_at(t@, s + 5 + k));
    assert(word_at(l, 12 + k) == word_at(t@, s + 12 + k));
    assert(op_at(l, 4, k as int) == op_at(t@, s + 4, k as int));
    if !(word(t, s) && t[s + 3] == 32) {
        return None;
    }
    let op = match parse_op(t, s + 4, k) {
        Some(op) => op,
        None => {
            return None;
        },
    };
    if t[s + 4 + k] == 32 && word(t, s + 5 + k) && t[s + 8 + k] == 32 && t[s + 9 + k] == 45 && t[s
        + 10 + k] == 62 && t[s + 11 + k] == 32 && word(t, s + 12 + k) {
        Some(GateSpec { a: name(t, s), b: name(t, s + 5 + k), op, out: name(t, s + 12 + k) })
    } else {
        None
    }
}

/// Parses a circuit text: lines `aaa: 0|1` assign primary inputs, lines
/// `aaa OP bbb -> ccc` declare gates, empty lines are skipped. Names are
/// unique in the result: a later line for a name replaces an earlier one.
/// `None` where a line is neither.
pub fn parse(input: &str) -> (r: Option<CircuitSpec>)
    ensures
        r matches Some(c) ==> parse_spec(input.spec_bytes()) == Some((c.inputs@, c.circuitry@)),
        r matches Some(c) ==> unique_outputs(c.circuitry@) && unique_inputs(c.inputs@),
        r is None ==> parse_spec(input.spec_bytes()) is None,
{
    let t = input.as_bytes();
    let ghost tv = t@;
    let mut inputs: Vec<(u32, bool)> = Vec::new();
    let mut circuitry: Vec<GateSpec> = Vec::new();
    let mut i: usize = 0;
    while i < t.len()
        invariant
            tv == t@,
            tv == input.spec_bytes(),
            i <= t@.len(),
            parse_spec(tv) == parse_from(tv, i as int, inputs@, circuitry@),
            unique_outputs(circuitry@),
            unique_inputs(inputs@),
        decreases t@.len() - i,
    {
        let mut e = i;
        while e < t.len() && t[e] != 10
            invariant
                i <= e <= t@.len(),
                line_end(tv, i as int) == line_end(tv, e as int),
                tv == t@,
            decreases t@.len() - e,
        {
            e = e + 1;
        }
        let ghost ins0 = inputs@;
        let ghost gates0 = circuitry@;
        assert(line_end(tv, i as int) == e);
        if e > i {
            match parse_input_line(t, i, e) {
                Some(entry) => {
                    put_input(&mut inputs, entry);
                },
                None => {
                    match parse_gate_line(t, i, e) {
                        Some(g) => {
                            put_gate(&mut circuitry, g);
                        },
                        None => {
                            return None;
                        },
                    }
                },
            }
        }
        assert(parse_from(tv, i as int, ins0, gates0) == parse_from(tv, e + 1, inputs@, circuitry@));
        if e >= t.len() {
            assert(parse_from(tv, e + 1, inputs@, circuitry@) == Some((inputs@, circuitry@)));
            return Some(CircuitSpec { inputs, circuitry });
        }
        i = e + 1;
    }
    Some(CircuitSpec { inputs, circuitry })
}

/// Adds gate `g`, replacing a gate with the same output.
fn put_gate(circuitry: &mut Vec<GateSpec>, g: GateSpec)
    requires
        unique_outputs(old(circuitry)@),
    ensures
        final(circuitry)@ == set_gate(old(circuitry)@, g),
        unique_outputs(final(circuitry)@),
{
    let ghost old_gates = circuitry@;
    proof {
        lemma_first_gate(old_gates, g.out, 0);
        lemma_set_gate_unique(old_gates, g);
    }
    assert(old_gates.len() == circuitry.len());
    match find_gate(circuitry, g.out) {
        Some(k) => {
            circuitry.set(k, g);
        },
        None => {
            circuitry.push(g);
        },
    }
    assert(circuitry@ == set_gate(old_gates, g));
}

/// Assigns a primary input, replacing an earlier value for the same name.
fn put_input(inputs: &mut Vec<(u32, bool)>, entry: (u32, bool))
    requires
        unique_inputs(old(inputs)@),
    ensures
        final(inputs)@ == set_input(old(inputs)@, entry),
        unique_inputs(final(inputs)@),
{
    let ghost old_ins = inputs@;
    proof {
        lemma_set_input_unique(old_ins, entry);
    }
    match find_input_index(inputs, entry.0) {
        Some(k) => {
            inputs.set(k, entry);
        },
        None => {
            inputs.push(entry);
        },
    }
    assert(inputs@ == set_input(old_ins, entry));
}

/// The position of the first entry for `s`.
fn find_input_index(inputs: &Vec<(u32, bool)>, s: u32) -> (r: Option<usize>)
    ensures
        r matches Some(k) ==> k as int == first_input(inputs@, s, 0) && k < inputs.len(),
        r is None ==> first_input(inputs@, s, 0) == -1,
{
    let mut i: usize = 0;
    while i < inputs.len()
        invariant
            i <= inputs.len(),
            first_input(inputs@, s, 0) == first_input(inputs@, s, i as int),
        decreases inputs.len() - i,
    {
        if inputs[i].0 == s {
            return Some(i);
        }
        i = i + 1;
    }
    None
}

/// Parses a circuit text and runs it on the assignment it gives. No result
/// where the text is not a circuit, or where an output does not settle.
pub fn handle_puzzle1(input: &str) -> (r: Option<u64>)
    ensures
        r == match parse_spec(input.spec_bytes()) {
            Some((ins, gates)) => simulate(gates, ins),
            None => None,
        },
{
    match parse(input) {
        Some(c) => {
            let sim = Sim::from(c.circuitry);
            sim.run(&c.inputs)
        },
        None => None,
    }
}

} // verus!
