use crate::circuit::{
    assemble, combine, driver, first_gate, first_input, lemma_first_gate, gate_value, input_value, outputs_settle,
    settle_depth, settled, signal_value, simulate,
};
use crate::gate::{name_index, output_bit, GateSpec};
use crate::graph::{lemma_output_needs_input, needs, output_needs, reaches_gate, resolve_outputs};
use vstd::prelude::*;
use vstd::set_lib::{lemma_int_range, lemma_len_subset, set_int_range};

verus! {

/// The driver of `s`, as an index.
pub open spec fn driver_index(gates: Seq<GateSpec>, s: u32) -> Option<usize> {
    let g = driver(gates, s);
    if g >= 0 {
        Some(g as usize)
    } else {
        None
    }
}

/// For one gate, the gates that drive its two inputs and its output.
#[derive(Clone, Copy, Debug, PartialEq, Eq, Structural)]
pub struct Wiring {
    pub a: Option<usize>,
    pub b: Option<usize>,
    pub out: usize,
}

/// Gate `j` cannot be scheduled while the gates in `order` are: one of its
/// inputs is driven by a gate that is not there.
pub open spec fn blocked(gates: Seq<GateSpec>, order: Seq<usize>, j: int) -> bool {
    ||| (driver(gates, gates[j].a) >= 0 && !order.contains(driver(gates, gates[j].a) as usize))
    ||| (driver(gates, gates[j].b) >= 0 && !order.contains(driver(gates, gates[j].b) as usize))
}

/// Each input of gate `order[p]`, at position `p` of `order` is a primary input or is
/// driven by a gate at an earlier position.
pub open spec fn inputs_ready(gates: Seq<GateSpec>, order: Seq<usize>, p: int) -> bool {
    &&& (driver(gates, gates[order[p] as int].a) >= 0 ==> exists|q: int|
        0 <= q < p && order[q] == driver(gates, gates[order[p] as int].a))
    &&& (driver(gates, gates[order[p] as int].b) >= 0 ==> exists|q: int|
        0 <= q < p && order[q] == driver(gates, gates[order[p] as int].b))
}

/// An evaluation order of the gates that the outputs need: each such gate
/// at most once and no other gate, each after the gates it reads from, and
/// every needed gate left out blocked by another left out. So the order
/// holds exactly the needed gates that are not blocked.
pub open spec fn is_schedule(gates: Seq<GateSpec>, order: Seq<usize>) -> bool {
    &&& order.no_duplicates()
    &&& forall|p: int| 0 <= p < order.len() ==> #[trigger] order[p] < gates.len()
    &&& forall|p: int| 0 <= p < order.len() ==> output_needs(gates, #[trigger] order[p] as int)
    &&& forall|p: int| 0 <= p < order.len() ==> #[trigger] inputs_ready(gates, order, p)
    &&& forall|j: int|
        0 <= j < gates.len() && output_needs(gates, j) && !order.contains(j as usize) ==> #[trigger] blocked(
            gates,
            order,
            j,
        )
}

/// A circuit resolved for evaluation: its gates, how they are wired to each
/// other, and the order in which they settle. Only the gates that some
/// output needs enter the order, and of those not the ones on or behind a
/// cycle.
pub struct Sim {
    pub circuitry: Vec<GateSpec>,
    pub wiring: Vec<Wiring>,
    pub order: Vec<usize>,
}

pub proof fn lemma_first_input(inputs: Seq<(u32, bool)>, s: u32, j: int)
    requires
        0 <= j,
    ensures
        first_input(inputs, s, j) == -1 || (j <= first_input(inputs, s, j) < inputs.len()
            && inputs[first_input(inputs, s, j)].0 == s),
        first_input(inputs, s, j) == -1 ==> forall|k: int| j <= k < inputs.len() ==> inputs[k].0 != s,
    decreases inputs.len() - j,
{
    if j < inputs.len() && inputs[j].0 != s {
        lemma_first_input(inputs, s, j + 1);
    }
}

/// A sequence of distinct indices below `n` holds at most `n` of them.
proof fn lemma_distinct_below(s: Seq<usize>, n: usize)
    requires
        s.no_duplicates(),
        forall|p: int| 0 <= p < s.len() ==> #[trigger] s[p] < n,
    ensures
        s.len() <= n,
{
    let t = s.map_values(|x: usize| x as int);
    assert(t.no_duplicates()) by {
        assert forall|i: int, k: int| 0 <= i < t.len() && 0 <= k < t.len() && i != k implies t[i]
            != t[k] by {
            assert(s[i] != s[k]);
        }
    }
    t.unique_seq_to_set();
    lemma_int_range(0, n as int);
    assert(t.to_set().subset_of(set_int_range(0, n as int))) by {
        assert forall|x: int| t.to_set().contains(x) implies set_int_range(0, n as int).contains(
            x,
        ) by {
            let i = choose|i: int| 0 <= i < t.len() && t[i] == x;
            assert(s[i] < n);
        }
    }
    lemma_len_subset(t.to_set(), set_int_range(0, n as int));
}

/// Gates that are blocked by one another never produce a value.
proof fn lemma_blocked_never_settles(
    gates: Seq<GateSpec>,
    inputs: Seq<(u32, bool)>,
    order: Seq<usize>,
    depth: nat,
)
    requires
        is_schedule(gates, order),
    ensures
        forall|j: int|
            0 <= j < gates.len() && output_needs(gates, j) && !order.contains(j as usize) ==> #[trigger] gate_value(
                gates,
                inputs,
                j,
                depth,
            ) is None,
    decreases depth,
{
    if depth > 0 {
        lemma_blocked_never_settles(gates, inputs, order, (depth - 1) as nat);
    }
    assert forall|j: int| 0 <= j < gates.len() && output_needs(gates, j) && !order.contains(j as usize) implies #[trigger] gate_value(
        gates,
        inputs,
        j,
        depth,
    ) is None by {
        assert(blocked(gates, order, j));
        lemma_first_gate(gates, gates[j].a, 0);
        lemma_first_gate(gates, gates[j].b, 0);
        let ga = driver(gates, gates[j].a);
        let gb = driver(gates, gates[j].b);
        if ga >= 0 {
            lemma_output_needs_input(gates, j, ga);
        }
        if gb >= 0 {
            lemma_output_needs_input(gates, j, gb);
        }
        if ga >= 0 && !order.contains(ga as usize) {
            if depth > 0 {
                assert(gate_value(gates, inputs, ga, (depth - 1) as nat) is None);
            }
            assert(signal_value(gates, inputs, gates[j].a, depth) is None);
        } else {
            if depth > 0 {
                assert(gate_value(gates, inputs, gb, (depth - 1) as nat) is None);
            }
            assert(signal_value(gates, inputs, gates[j].b, depth) is None);
        }
    }
}

impl Sim {
    pub open spec fn wf(&self) -> bool {
        let gates = self.circuitry@;
        &&& self.wiring.len() == gates.len()
        &&& forall|i: int|
            0 <= i < gates.len() ==> {
                &&& (#[trigger] self.wiring[i]).a == driver_index(gates, gates[i].a)
                &&& self.wiring[i].b == driver_index(gates, gates[i].b)
                &&& self.wiring[i].out as int == driver(gates, gates[i].out)
            }
        &&& is_schedule(gates, self.order@)
    }

    /// Resolves a gate list: finds which gate drives each signal, takes the
    /// gates that the outputs `zNN` need, and orders them so that each comes
    /// after the gates it reads from. The order holds exactly the needed
    /// gates that are not blocked, each once (see `is_schedule`).
    pub fn from(circuitry: Vec<GateSpec>) -> (r: Sim)
        ensures
            r.wf(),
            r.circuitry@ == circuitry@,
    {
        let n = circuitry.len();
        let ghost gates = circuitry@;
        let mut wiring: Vec<Wiring> = Vec::new();
        for i in 0..n
            invariant
                n == circuitry.len(),
                gates == circuitry@,
                wiring.len() == i,
                forall|k: int|
                    0 <= k < i ==> {
                        &&& (#[trigger] wiring[k]).a == driver_index(gates, gates[k].a)
                        &&& wiring[k].b == driver_index(gates, gates[k].b)
                        &&& wiring[k].out as int == driver(gates, gates[k].out)
                    },
        {
            let g = circuitry[i];
            let a = find_gate(&circuitry, g.a);
            let b = find_gate(&circuitry, g.b);
            proof {
                lemma_first_gate(gates, g.out, 0);
            }
            let out = match find_gate(&circuitry, g.out) {
                Some(o) => o,
                None => i,
            };
            wiring.push(Wiring { a, b, out });
        }
        let mut scheduled: Vec<bool> = Vec::new();
        for i in 0..n
            invariant
                scheduled.len() == i,
                forall|k: int| 0 <= k < i ==> !(#[trigger] scheduled[k]),
        {
            scheduled.push(false);
        }
        let outs = resolve_outputs(&circuitry);
        let mut needed: Vec<bool> = Vec::new();
        for i in 0..n
            invariant
                needed.len() == i,
                forall|k: int| 0 <= k < i ==> !(#[trigger] needed[k]),
        {
            needed.push(false);
        }
        for p in 0..outs.len()
            invariant
                n == circuitry.len(),
                needed.len() == n,
                forall|q: int| 0 <= q < outs.len() ==> #[trigger] outs@[q] < n,
                forall|k: int| 0 <= k < n ==> (#[trigger] needed[k] <==> exists|q: int| 0 <= q < p && outs@[q] == k),
        {
            let g = outs[p];
            needed.set(g, true);
            proof {
                assert forall|k: int| 0 <= k < n implies (#[trigger] needed[k] <==> exists|q: int|
                    0 <= q < p + 1 && outs@[q] == k) by {
                    if k == g {
                        assert(outs@[p as int] == k);
                    }
                }
            }
        }
        proof {
            assert forall|k: int| 0 <= k < n implies (#[trigger] needed[k] <==> output_needs(gates, k)) by {
                if needed[k] {
                    let q = choose|q: int| 0 <= q < outs.len() && outs@[q] == k;
                    assert(output_needs(gates, outs@[q] as int));
                }
                if output_needs(gates, k) {
                    let i = choose|i: int|
                        0 <= i < gates.len() && output_bit(gates[i].out) is Some && #[trigger] needs(gates, gates[i].out, k);
                    assert(outs@.contains(k as usize));
                    let q = choose|q: int| 0 <= q < outs.len() && outs@[q] == k as usize;
                    assert(outs@[q] == k);
                }
            }
        }
        let mut order: Vec<usize> = Vec::new();
        loop
            invariant
                n == circuitry.len(),
                gates == circuitry@,
                wiring.len() == n,
                forall|k: int|
                    0 <= k < n ==> {
                        &&& (#[trigger] wiring[k]).a == driver_index(gates, gates[k].a)
                        &&& wiring[k].b == driver_index(gates, gates[k].b)
                        &&& wiring[k].out as int == driver(gates, gates[k].out)
                    },
                scheduled.len() == n,
                forall|k: int| 0 <= k < n ==> (#[trigger] scheduled[k] <==> order@.contains(k as usize)),
                order@.no_duplicates(),
                order.len() <= n,
                forall|p: int| 0 <= p < order.len() ==> #[trigger] order[p] < n,
                forall|p: int| 0 <= p < order.len() ==> #[trigger] inputs_ready(gates, order@, p),
                needed.len() == n,
                forall|k: int| 0 <= k < n ==> (#[trigger] needed[k] <==> output_needs(gates, k)),
                forall|p: int| 0 <= p < order.len() ==> output_needs(gates, #[trigger] order[p] as int),
            ensures
                forall|k: int|
                    0 <= k < n && output_needs(gates, k) && !order@.contains(k as usize) ==> #[trigger] blocked(gates, order@, k),
            decreases n - order.len(),
        {
            let mut progress = false;
            let ghost start = order.len();
            for j in 0..n
                invariant
                    n == circuitry.len(),
                    gates == circuitry@,
                    wiring.len() == n,
                    forall|k: int|
                        0 <= k < n ==> {
                            &&& (#[trigger] wiring[k]).a == driver_index(gates, gates[k].a)
                            &&& wiring[k].b == driver_index(gates, gates[k].b)
                            &&& wiring[k].out as int == driver(gates, gates[k].out)
                        },
                    scheduled.len() == n,
                    forall|k: int|
                        0 <= k < n ==> (#[trigger] scheduled[k] <==> order@.contains(k as usize)),
                    order@.no_duplicates(),
                    order.len() <= n,
                    forall|p: int| 0 <= p < order.len() ==> #[trigger] order[p] < n,
                    forall|p: int|
                        0 <= p < order.len() ==> #[trigger] inputs_ready(gates, order@, p),
                    progress ==> order.len() > start,
                    !progress ==> order.len() == start,
                    needed.len() == n,
                    forall|k: int| 0 <= k < n ==> (#[trigger] needed[k] <==> output_needs(gates, k)),
                    forall|p: int| 0 <= p < order.len() ==> output_needs(gates, #[trigger] order[p] as int),
                    !progress ==> forall|k: int|
                        0 <= k < j && output_needs(gates, k) && !order@.contains(k as usize) ==> #[trigger] blocked(
                            gates,
                            order@,
                            k,
                        ),
            {
                proof {
                    lemma_first_gate(gates, gates[j as int].a, 0);
                    lemma_first_gate(gates, gates[j as int].b, 0);
                }
                if needed[j] && !scheduled[j] {
                    let w = wiring[j];
                    let ready_a = match w.a {
                        None => true,
                        Some(g) => scheduled[g],
                    };
                    let ready_b = match w.b {
                        None => true,
                        Some(g) => scheduled[g],
                    };
                    proof {
                        lemma_first_gate(gates, gates[j as int].a, 0);
                        lemma_first_gate(gates, gates[j as int].b, 0);
                    }
                    if ready_a && ready_b {
                        let ghost old_order = order@;
                        scheduled.set(j, true);
                        order.push(j);
                        proof {
                            assert(old_order.push(j) == order@);
                            assert forall|k: int| 0 <= k < n implies (#[trigger] scheduled[k]
                                <==> order@.contains(k as usize)) by {
                                if k != j {
                                    if order@.contains(k as usize) {
                                        let q = choose|q: int|
                                            0 <= q < order.len() && order[q] == k as usize;
                                        assert(q < old_order.len());
                                        assert(old_order.contains(k as usize));
                                    }
                                    if old_order.contains(k as usize) {
                                        let q = choose|q: int|
                                            0 <= q < old_order.len() && old_order[q] == k as usize;
                                        assert(order[q] == k as usize);
                                    }
                                } else {
                                    assert(order[order.len() - 1] == j);
                                }
                            }
                            assert(order@.no_duplicates()) by {
                                assert forall|p: int, q: int|
                                    0 <= p < order.len() && 0 <= q < order.len() && p != q implies order[p]
                                    != order[q] by {
                                    if p < old_order.len() && q < old_order.len() {
                                        assert(old_order[p] != old_order[q]);
                                    } else if p < old_order.len() {
                                        assert(old_order.contains(old_order[p]));
                                    } else {
                                        assert(old_order.contains(old_order[q]));
                                    }
                                }
                            }
                            lemma_distinct_below(order@, n);
                            assert forall|p: int| 0 <= p < order.len() implies output_needs(gates, #[trigger] order[p] as int) by {
                                if p < old_order.len() {
                                    assert(order[p] == old_order[p]);
                                }
                            }
                            assert forall|p: int| 0 <= p < order.len() implies #[trigger] inputs_ready(
                                gates,
                                order@,
                                p,
                            ) by {
                                if p < old_order.len() {
                                    assert(inputs_ready(gates, old_order, p));
                                    let ga = driver(gates, gates[order[p] as int].a);
                                    let gb = driver(gates, gates[order[p] as int].b);
                                    if ga >= 0 {
                                        let q = choose|q: int| 0 <= q < p && old_order[q] == ga;
                                        assert(order[q] == ga);
                                    }
                                    if gb >= 0 {
                                        let q = choose|q: int| 0 <= q < p && old_order[q] == gb;
                                        assert(order[q] == gb);
                                    }
                                } else {
                                    let ga = driver(gates, gates[j as int].a);
                                    let gb = driver(gates, gates[j as int].b);
                                    if ga >= 0 {
                                        assert(scheduled[ga]);
                                        let q = choose|q: int|
                                            0 <= q < old_order.len() && old_order[q] == ga as usize;
                                        assert(order[q] == ga);
                                    }
                                    if gb >= 0 {
                                        assert(scheduled[gb]);
                                        let q = choose|q: int|
                                            0 <= q < old_order.len() && old_order[q] == gb as usize;
                                        assert(order[q] == gb);
                                    }
                                }
                            }
                        }
                        progress = true;
                    } else {
                        proof {
                            if !progress {
                                assert(blocked(gates, order@, j as int));
                            }
                        }
                    }
                }
            }
            if !progress {
                break;
            }
        }
        let r = Sim { circuitry, wiring, order };
        assert(is_schedule(gates, r.order@));
        r
    }
}

impl Sim {
    /// The value of a gate input: the value of its driving gate, or the
    /// primary input's value where no gate does.
    fn input_of(&self, drv: Option<usize>, s: u32, inputs: &Vec<(u32, bool)>, vals: &Vec<Option<bool>>) -> (r: Option<bool>)
        requires
            vals.len() == self.circuitry.len(),
            drv matches Some(g) ==> g < vals.len(),
        ensures
            drv matches Some(g) ==> r == vals[g as int],
            drv is None ==> r == input_value(inputs@, s),
    {
        match drv {
            Some(g) => vals[g],
            None => find_input(inputs, s),
        }
    }

    /// Runs the circuit on a primary-input assignment: every gate in the
    /// order is evaluated once, then the outputs `zNN` are read into an
    /// integer (bit `k` from `zk`). No result when some output does not
    /// settle: it sits on or behind a cycle, or behind a signal that neither a
    /// gate nor the assignment drives.
    pub fn run(&self, inputs: &Vec<(u32, bool)>) -> (r: Option<u64>)
        requires
            self.wf(),
        ensures
            r == simulate(self.circuitry@, inputs@),
    {
        let ghost gates = self.circuitry@;
        let ghost ins = inputs@;
        let n = self.circuitry.len();
        let mut vals: Vec<Option<bool>> = Vec::new();
        for i in 0..n
            invariant
                vals.len() == i,
                forall|k: int| 0 <= k < i ==> (#[trigger] vals[k]) is None,
        {
            vals.push(None);
        }
        let m = self.order.len();
        proof {
            lemma_distinct_below(self.order@, n);
        }
        for p in 0..m
            invariant
                self.wf(),
                gates == self.circuitry@,
                ins == inputs@,
                n == gates.len(),
                m == self.order.len(),
                m <= n,
                vals.len() == n,
                forall|q: int, f: nat|
                    0 <= q < p && f >= q ==> #[trigger] gate_value(gates, ins, self.order[q] as int, f)
                        == vals[self.order[q] as int],
                forall|k: int|
                    0 <= k < n && (forall|q: int| 0 <= q < p ==> self.order[q] != k) ==> (
                    #[trigger] vals[k]) is None,
        {
            let j = self.order[p];
            let w = self.wiring[j];
            let g = self.circuitry[j];
            assert(inputs_ready(gates, self.order@, p as int));
            proof {
                lemma_first_gate(gates, g.a, 0);
                lemma_first_gate(gates, g.b, 0);
            }
            let va = self.input_of(w.a, g.a, inputs, &vals);
            let vb = self.input_of(w.b, g.b, inputs, &vals);
            let v = match (va, vb) {
                (Some(x), Some(y)) => Some(g.op.apply(x, y)),
                _ => None,
            };
            proof {
                assert forall|f: nat| f >= p implies #[trigger] signal_value(gates, ins, g.a, f) == va by {
                    let ga = driver(gates, g.a);
                    if ga >= 0 {
                        let q = choose|q: int| 0 <= q < p && self.order[q] == ga;
                        assert(gate_value(gates, ins, self.order[q] as int, (f - 1) as nat) == vals[self.order[q] as int]);
                    }
                }
                assert forall|f: nat| f >= p implies #[trigger] signal_value(gates, ins, g.b, f) == vb by {
                    let gb = driver(gates, g.b);
                    if gb >= 0 {
                        let q = choose|q: int| 0 <= q < p && self.order[q] == gb;
                        assert(gate_value(gates, ins, self.order[q] as int, (f - 1) as nat) == vals[self.order[q] as int]);
                    }
                }
                assert forall|f: nat| f >= p implies #[trigger] gate_value(gates, ins, j as int, f) == v by {
                    assert(signal_value(gates, ins, g.a, f) == va);
                    assert(signal_value(gates, ins, g.b, f) == vb);
                }
            }
            let ghost old_vals = vals@;
            vals.set(j, v);
            proof {
                assert forall|q: int, f: nat|
                    0 <= q < p + 1 && f >= q implies #[trigger] gate_value(gates, ins, self.order[q] as int, f)
                        == vals[self.order[q] as int] by {
                    if q < p {
                        assert(self.order[q] != self.order[p as int]);
                        assert(gate_value(gates, ins, self.order[q] as int, f) == old_vals[self.order[q] as int]);
                    }
                }
            }
        }
        proof {
            lemma_blocked_never_settles(gates, ins, self.order@, n as nat);
        }
        let mut acc: u64 = 0;
        for i in 0..n
            invariant
                self.wf(),
                gates == self.circuitry@,
                ins == inputs@,
                n == gates.len(),
                m == self.order.len(),
                m <= n,
                vals.len() == n,
                forall|q: int, f: nat|
                    0 <= q < m && f >= q ==> #[trigger] gate_value(gates, ins, self.order[q] as int, f)
                        == vals[self.order[q] as int],
                forall|k: int|
                    0 <= k < n && (forall|q: int| 0 <= q < m ==> self.order[q] != k) ==> (
                    #[trigger] vals[k]) is None,
                forall|j: int|
                    0 <= j < n && output_needs(gates, j) && !self.order@.contains(j as usize) ==> #[trigger] gate_value(
                        gates,
                        ins,
                        j,
                        n as nat,
                    ) is None,
                acc == assemble(gates, ins, i as int),
                outputs_settle(gates, ins, i as int),
        {
            let g = self.circuitry[i];
            let o = self.wiring[i].out;
            proof {
                lemma_first_gate(gates, g.out, 0);
            }
            let v = vals[o];
            proof {
                assert(settled(gates, ins, g.out) == gate_value(gates, ins, o as int, n as nat));
                if output_bit(g.out) is Some {
                    if self.order@.contains(o) {
                        let q = choose|q: int| 0 <= q < m && self.order[q] == o;
                        assert(gate_value(gates, ins, self.order[q] as int, n as nat) == vals[self.order[q] as int]);
                    } else {
                        assert(reaches_gate(gates, o as int, g.out, 0));
                        assert(needs(gates, gates[i as int].out, o as int));
                        assert(output_needs(gates, o as int));
                        assert(gate_value(gates, ins, o as int, n as nat) is None);
                        assert forall|q: int| 0 <= q < m implies self.order[q] != o by {
                            if self.order[q] == o {
                                assert(self.order@.contains(o));
                            }
                        }
                    }
                    assert(settled(gates, ins, g.out) == v);
                }
            }
            match name_index(g.out, 122) {
                Some(k) => {
                    match v {
                        Some(bit) => {
                            if bit {
                                acc = acc | (1u64 << (k as u64));
                            }
                        },
                        None => {
                            assert(output_bit(gates[i as int].out) is Some);
                            assert(!outputs_settle(gates, ins, n as int));
                            return None;
                        },
                    }
                },
                None => {},
            }
            assert(outputs_settle(gates, ins, i + 1));
        }
        Some(acc)
    }
}

/// A run evaluates each gate at most once: the evaluation order never holds
/// a gate twice. So a signal that several gates read, as the shared middle of
/// a diamond of gates, is produced by one evaluation that all its readers
/// share.
pub proof fn lemma_each_gate_evaluated_once(sim: &Sim)
    requires
        sim.wf(),
    ensures
        forall|p: int, q: int|
            0 <= p < sim.order.len() && 0 <= q < sim.order.len() && sim.order[p] == sim.order[q]
                ==> p == q,
{
}

/// Signal `s` is read by some gate but neither a gate nor the assignment drives it.
pub open spec fn undriven(gates: Seq<GateSpec>, inputs: Seq<(u32, bool)>, s: u32) -> bool {
    driver(gates, s) < 0 && input_value(inputs, s) is None
}

impl Sim {
    /// The first gate input, in gate order, that neither a gate nor the
    /// assignment drives: a missing driver, which no run can settle.
    pub fn missing_driver(&self, inputs: &Vec<(u32, bool)>) -> (r: Option<u32>)
        requires
            self.wf(),
        ensures
            r matches Some(s) ==> undriven(self.circuitry@, inputs@, s) && exists|k: int|
                0 <= k < self.circuitry.len() && (self.circuitry@[k].a == s || self.circuitry@[k].b
                    == s),
            r is None ==> forall|k: int|
                0 <= k < self.circuitry.len() ==> !undriven(self.circuitry@, inputs@, (#[trigger] self.circuitry@[k]).a)
                    && !undriven(self.circuitry@, inputs@, self.circuitry@[k].b),
    {
        for k in 0..self.circuitry.len()
            invariant
                self.wf(),
                forall|j: int|
                    0 <= j < k ==> !undriven(self.circuitry@, inputs@, (#[trigger] self.circuitry@[j]).a)
                        && !undriven(self.circuitry@, inputs@, self.circuitry@[j].b),
        {
            let g = self.circuitry[k];
            let w = self.wiring[k];
            if w.a.is_none() && find_input(inputs, g.a).is_none() {
                return Some(g.a);
            }
            if w.b.is_none() && find_input(inputs, g.b).is_none() {
                return Some(g.b);
            }
        }
        None
    }
}

/// The first gate that drives `s`.
pub fn find_gate(gates: &Vec<GateSpec>, s: u32) -> (r: Option<usize>)
    ensures
        r == driver_index(gates@, s),
{
    let mut i: usize = 0;
    while i < gates.len()
        invariant
            i <= gates.len(),
            first_gate(gates@, s, 0) == first_gate(gates@, s, i as int),
        decreases gates.len() - i,
    {
        if gates[i].out == s {
            return Some(i);
        }
        i = i + 1;
    }
    None
}

/// The value that `inputs` gives to `s`, the first where it gives several.
pub fn find_input(inputs: &Vec<(u32, bool)>, s: u32) -> (r: Option<bool>)
    ensures
        r == input_value(inputs@, s),
{
    let mut i: usize = 0;
    while i < inputs.len()
        invariant
            i <= inputs.len(),
            first_input(inputs@, s, 0) == first_input(inputs@, s, i as int),
        decreases inputs.len() - i,
    {
        if inputs[i].0 == s {
            return Some(inputs[i].1);
        }
        i = i + 1;
    }
    None
}

} // verus!
