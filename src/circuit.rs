use crate::gate::{op_spec, output_bit, GateOp, GateSpec};
use vstd::prelude::*;

verus! {

/// The first position at or after `i` where `inputs` assigns a value to `s`,
/// or `-1` where none does.
pub open spec fn first_input(inputs: Seq<(u32, bool)>, s: u32, i: int) -> int
    decreases inputs.len() - i,
{
    if i < 0 || i >= inputs.len() {
        -1
    } else if inputs[i].0 == s {
        i
    } else {
        first_input(inputs, s, i + 1)
    }
}

/// The first gate at or after `i` that drives `s`, or `-1` where none does.
pub open spec fn first_gate(gates: Seq<GateSpec>, s: u32, i: int) -> int
    decreases gates.len() - i,
{
    if i < 0 || i >= gates.len() {
        -1
    } else if gates[i].out == s {
        i
    } else {
        first_gate(gates, s, i + 1)
    }
}

/// The driver of `s`, or `-1` where `s` is not the output of any gate.
pub open spec fn driver(gates: Seq<GateSpec>, s: u32) -> int {
    first_gate(gates, s, 0)
}

/// The value of the primary input `s`, if the assignment gives one.
pub open spec fn input_value(inputs: Seq<(u32, bool)>, s: u32) -> Option<bool> {
    let k = first_input(inputs, s, 0);
    if k >= 0 {
        Some(inputs[k].1)
    } else {
        None
    }
}

pub open spec fn combine(op: GateOp, x: Option<bool>, y: Option<bool>) -> Option<bool> {
    match (x, y) {
        (Some(x), Some(y)) => Some(op_spec(op, x, y)),
        _ => None,
    }
}

/// The value that signal `s` settles to through at most `depth` gates: a
/// signal that a gate drives takes that gate's operation on its two input
/// signals; any other signal is a primary input. `None` where no derivation
/// of that depth exists: the signal sits on or behind a cycle, or behind a
/// signal that nothing drives.
pub open spec fn signal_value(
    gates: Seq<GateSpec>,
    inputs: Seq<(u32, bool)>,
    s: u32,
    depth: nat,
) -> Option<bool>
    decreases depth, 0nat,
{
    let g = driver(gates, s);
    if g >= 0 && g < gates.len() {
        if depth == 0 {
            None
        } else {
            gate_value(gates, inputs, g, (depth - 1) as nat)
        }
    } else {
        input_value(inputs, s)
    }
}

/// What gate `g` produces when each of its inputs settles within `depth`.
pub open spec fn gate_value(
    gates: Seq<GateSpec>,
    inputs: Seq<(u32, bool)>,
    g: int,
    depth: nat,
) -> Option<bool>
    decreases depth, 1nat,
{
    if 0 <= g < gates.len() {
        combine(
            gates[g].op,
            signal_value(gates, inputs, gates[g].a, depth),
            signal_value(gates, inputs, gates[g].b, depth),
        )
    } else {
        None
    }
}

/// A path through the gates never meets the same gate twice, so a signal that
/// settles at all settles through at most one more than the number of gates.
pub open spec fn settle_depth(gates: Seq<GateSpec>) -> nat {
    gates.len() + 1
}

/// The settled value of `s`.
pub open spec fn settled(gates: Seq<GateSpec>, inputs: Seq<(u32, bool)>, s: u32) -> Option<bool> {
    signal_value(gates, inputs, s, settle_depth(gates))
}

/// Every output signal (`zNN`) among the first `n` gates settles.
pub open spec fn outputs_settle(gates: Seq<GateSpec>, inputs: Seq<(u32, bool)>, n: int) -> bool {
    forall|i: int|
        0 <= i < n && (#[trigger] output_bit(gates[i].out)) is Some ==> settled(
            gates,
            inputs,
            gates[i].out,
        ) is Some
}

/// The integer assembled from the output signals among the first `n` gates:
/// bit `k` is set when `zk` settles to `true`.
pub open spec fn assemble(gates: Seq<GateSpec>, inputs: Seq<(u32, bool)>, n: int) -> u64
    decreases n,
{
    if n <= 0 {
        0
    } else {
        let prev = assemble(gates, inputs, n - 1);
        match output_bit(gates[n - 1].out) {
            Some(k) => if settled(gates, inputs, gates[n - 1].out) == Some(true) {
                prev | (1u64 << (k as u64))
            } else {
                prev
            },
            None => prev,
        }
    }
}

/// What a run of the circuit yields: the assembled outputs when every output
/// settles, and no result when one does not.
pub open spec fn simulate(gates: Seq<GateSpec>, inputs: Seq<(u32, bool)>) -> Option<u64> {
    if outputs_settle(gates, inputs, gates.len() as int) {
        Some(assemble(gates, inputs, gates.len() as int))
    } else {
        None
    }
}

pub proof fn lemma_first_gate(gates: Seq<GateSpec>, s: u32, j: int)
    requires
        0 <= j,
    ensures
        first_gate(gates, s, j) == -1 || (j <= first_gate(gates, s, j) < gates.len()
            && gates[first_gate(gates, s, j)].out == s),
        first_gate(gates, s, j) == -1 ==> forall|k: int| j <= k < gates.len() ==> gates[k].out != s,
        forall|k: int| j <= k < gates.len() && gates[k].out == s ==> first_gate(gates, s, j) <= k,
    decreases gates.len() - j,
{
    if j < gates.len() && gates[j].out != s {
        lemma_first_gate(gates, s, j + 1);
    }
}

/// Every signal of `cone` that a gate drives has both inputs of that gate
/// fed in rank, and those inputs that a gate drives lie in `cone` too: the
/// gates behind the signals of `cone` are ranked.
pub open spec fn ranked_cone(
    gates: Seq<GateSpec>,
    inputs: Seq<(u32, bool)>,
    rank: spec_fn(u32) -> nat,
    cone: Set<u32>,
) -> bool {
    forall|s: u32|
        #[trigger] cone.contains(s) && driver(gates, s) >= 0 ==> {
            let g = gates[driver(gates, s)];
            &&& fed_in_rank(gates, inputs, rank, g.a, s)
            &&& fed_in_rank(gates, inputs, rank, g.b, s)
            &&& (driver(gates, g.a) >= 0 ==> cone.contains(g.a))
            &&& (driver(gates, g.b) >= 0 ==> cone.contains(g.b))
        }
}

proof fn lemma_ranked_settles(
    gates: Seq<GateSpec>,
    inputs: Seq<(u32, bool)>,
    rank: spec_fn(u32) -> nat,
    cone: Set<u32>,
    depth: nat,
)
    requires
        ranked_cone(gates, inputs, rank, cone),
    ensures
        forall|s: u32|
            cone.contains(s) && driver(gates, s) >= 0 && rank(s) < depth ==> (#[trigger] signal_value(
                gates,
                inputs,
                s,
                depth,
            )) is Some,
    decreases depth,
{
    if depth > 0 {
        lemma_ranked_settles(gates, inputs, rank, cone, (depth - 1) as nat);
        assert forall|s: u32|
            cone.contains(s) && driver(gates, s) >= 0 && rank(s) < depth implies (#[trigger] signal_value(
                gates,
                inputs,
                s,
                depth,
            )) is Some by {
            lemma_first_gate(gates, s, 0);
            let g = driver(gates, s);
            let d = (depth - 1) as nat;
            if driver(gates, gates[g].a) >= 0 {
                assert(signal_value(gates, inputs, gates[g].a, d) is Some);
            }
            if driver(gates, gates[g].b) >= 0 {
                assert(signal_value(gates, inputs, gates[g].b, d) is Some);
            }
        }
    }
}

/// Input `s` of a gate with output `out` is either driven by a gate of lower
/// rank, or is a primary input that the assignment gives a value.
pub open spec fn fed_in_rank(
    gates: Seq<GateSpec>,
    inputs: Seq<(u32, bool)>,
    rank: spec_fn(u32) -> nat,
    s: u32,
    out: u32,
) -> bool {
    ||| (driver(gates, s) >= 0 && rank(s) < rank(out) && rank(out) <= gates.len())
    ||| (driver(gates, s) < 0 && input_value(inputs, s) is Some)
}

/// A circuit whose outputs depend on no cycle, run on an assignment that
/// covers every signal that no gate drives and that the outputs depend on,
/// yields a result. The gates the outputs depend on are those behind the
/// signals of `cone`, which holds every output; "no cycle" means these
/// signals can be ranked so that each gate's output outranks the signals it
/// reads from other gates, with ranks no greater than the number of gates.
/// Gates the outputs do not depend on may be wired in any way.
pub proof fn lemma_acyclic_complete_yields_result(
    gates: Seq<GateSpec>,
    inputs: Seq<(u32, bool)>,
    rank: spec_fn(u32) -> nat,
    cone: Set<u32>,
)
    requires
        ranked_cone(gates, inputs, rank, cone),
        forall|i: int|
            0 <= i < gates.len() && (#[trigger] output_bit(gates[i].out)) is Some ==> cone.contains(
                gates[i].out,
            ),
        forall|s: u32| #[trigger] cone.contains(s) ==> rank(s) <= gates.len(),
    ensures
        simulate(gates, inputs) is Some,
{
    lemma_ranked_settles(gates, inputs, rank, cone, settle_depth(gates));
    assert forall|i: int|
        0 <= i < gates.len() && (#[trigger] output_bit(gates[i].out)) is Some implies settled(
        gates,
        inputs,
        gates[i].out,
    ) is Some by {
        lemma_first_gate(gates, gates[i].out, 0);
        assert(cone.contains(gates[i].out));
    }
}

/// Every signal of `cycle` is driven by a gate that reads a signal of `cycle`.
pub open spec fn closed_cycle(gates: Seq<GateSpec>, cycle: Set<u32>) -> bool {
    forall|s: u32|
        #[trigger] cycle.contains(s) ==> driver(gates, s) >= 0 && (cycle.contains(
            gates[driver(gates, s)].a,
        ) || cycle.contains(gates[driver(gates, s)].b))
}

proof fn lemma_cycle_has_no_value(
    gates: Seq<GateSpec>,
    inputs: Seq<(u32, bool)>,
    cycle: Set<u32>,
    depth: nat,
)
    requires
        closed_cycle(gates, cycle),
    ensures
        forall|s: u32| cycle.contains(s) ==> (#[trigger] signal_value(gates, inputs, s, depth)) is None,
    decreases depth,
{
    if depth > 0 {
        lemma_cycle_has_no_value(gates, inputs, cycle, (depth - 1) as nat);
        assert forall|s: u32| cycle.contains(s) implies (#[trigger] signal_value(gates, inputs, s, depth)) is None by {
            lemma_first_gate(gates, s, 0);
            let g = driver(gates, s);
            let d = (depth - 1) as nat;
            if cycle.contains(gates[g].a) {
                assert(signal_value(gates, inputs, gates[g].a, d) is None);
            } else {
                assert(signal_value(gates, inputs, gates[g].b, d) is None);
            }
        }
    } else {
        assert forall|s: u32| cycle.contains(s) implies (#[trigger] signal_value(gates, inputs, s, depth)) is None by {
            lemma_first_gate(gates, s, 0);
        }
    }
}

/// A circuit in which an output signal lies on a cycle (a set of signals each
/// driven by a gate that reads one of them) yields no result, whatever the
/// assignment.
pub proof fn lemma_cycle_yields_no_result(
    gates: Seq<GateSpec>,
    inputs: Seq<(u32, bool)>,
    cycle: Set<u32>,
    z: int,
)
    requires
        closed_cycle(gates, cycle),
        0 <= z < gates.len(),
        output_bit(gates[z].out) is Some,
        cycle.contains(gates[z].out),
    ensures
        simulate(gates, inputs) is None,
{
    lemma_cycle_has_no_value(gates, inputs, cycle, settle_depth(gates));
    assert(settled(gates, inputs, gates[z].out) is None);
}

/// Every signal of `behind` is driven by a gate that reads a signal of
/// `behind` or of `cycle`.
pub open spec fn behind_cycle(gates: Seq<GateSpec>, cycle: Set<u32>, behind: Set<u32>) -> bool {
    forall|s: u32|
        #[trigger] behind.contains(s) ==> driver(gates, s) >= 0 && (cycle.union(behind).contains(
            gates[driver(gates, s)].a,
        ) || cycle.union(behind).contains(gates[driver(gates, s)].b))
}

/// A circuit in which an output lies behind a cycle (computed, through a
/// chain of gates, from a signal on the cycle) yields no result, whatever
/// the assignment.
pub proof fn lemma_behind_cycle_yields_no_result(
    gates: Seq<GateSpec>,
    inputs: Seq<(u32, bool)>,
    cycle: Set<u32>,
    behind: Set<u32>,
    z: int,
)
    requires
        closed_cycle(gates, cycle),
        behind_cycle(gates, cycle, behind),
        0 <= z < gates.len(),
        output_bit(gates[z].out) is Some,
        behind.contains(gates[z].out),
    ensures
        simulate(gates, inputs) is None,
{
    let all = cycle.union(behind);
    assert(closed_cycle(gates, all)) by {
        assert forall|s: u32| #[trigger] all.contains(s) implies driver(gates, s) >= 0 && (all.contains(
            gates[driver(gates, s)].a,
        ) || all.contains(gates[driver(gates, s)].b)) by {
            if cycle.contains(s) {
                assert(closed_cycle(gates, cycle));
            } else {
                assert(behind.contains(s));
            }
        }
    }
    lemma_cycle_yields_no_result(gates, inputs, all, z);
}

} // verus!
