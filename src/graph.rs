use crate::circuit::{driver, lemma_first_gate};
use crate::gate::{name_index, output_bit, GateSpec};
use crate::sim::{find_gate, Sim};
use vstd::prelude::*;

verus! {

/// Gate `j` is reached from signal `s` through at most `d` further gates:
/// `j` drives `s`, or is reached from an input of the driver of `s`.
pub open spec fn reaches_gate(gates: Seq<GateSpec>, j: int, s: u32, d: nat) -> bool
    decreases d,
{
    let g = driver(gates, s);
    &&& g >= 0
    &&& (g == j || (d > 0 && (reaches_gate(gates, j, gates[g].a, (d - 1) as nat)
        || reaches_gate(gates, j, gates[g].b, (d - 1) as nat))))
}

/// Output `s` needs gate `j`: some chain of gates leads from `j` to `s`.
pub open spec fn needs(gates: Seq<GateSpec>, s: u32, j: int) -> bool {
    exists|d: nat| reaches_gate(gates, j, s, d)
}

/// Some output `zNN` needs gate `j`.
pub open spec fn output_needs(gates: Seq<GateSpec>, j: int) -> bool {
    exists|i: int|
        0 <= i < gates.len() && output_bit(gates[i].out) is Some && #[trigger] needs(gates, gates[i].out, j)
}

/// A gate that `s` needs through gate `j` also needs the drivers of `j`'s inputs.
pub proof fn lemma_reaches_input(gates: Seq<GateSpec>, j: int, s: u32, k: nat, d: int)
    requires
        reaches_gate(gates, j, s, k),
        0 <= j < gates.len(),
        d >= 0,
        d == driver(gates, gates[j].a) || d == driver(gates, gates[j].b),
    ensures
        reaches_gate(gates, d, s, k + 1),
    decreases k,
{
    let g = driver(gates, s);
    if g == j {
        if d == driver(gates, gates[j].a) {
            assert(reaches_gate(gates, d, gates[j].a, k));
        } else {
            assert(reaches_gate(gates, d, gates[j].b, k));
        }
    } else if reaches_gate(gates, j, gates[g].a, (k - 1) as nat) {
        lemma_reaches_input(gates, j, gates[g].a, (k - 1) as nat, d);
    } else {
        lemma_reaches_input(gates, j, gates[g].b, (k - 1) as nat, d);
    }
}

/// An output that needs gate `j` also needs the drivers of `j`'s inputs.
pub proof fn lemma_output_needs_input(gates: Seq<GateSpec>, j: int, d: int)
    requires
        output_needs(gates, j),
        0 <= j < gates.len(),
        d >= 0,
        d == driver(gates, gates[j].a) || d == driver(gates, gates[j].b),
    ensures
        output_needs(gates, d),
{
    let i = choose|i: int|
        0 <= i < gates.len() && output_bit(gates[i].out) is Some && #[trigger] needs(gates, gates[i].out, j);
    let k = choose|k: nat| reaches_gate(gates, j, gates[i].out, k);
    lemma_reaches_input(gates, j, gates[i].out, k, d);
    assert(needs(gates, gates[i].out, d));
}

/// Both inputs of gate `j` that some gate drives have their driver registered.
pub open spec fn inputs_registered(gates: Seq<GateSpec>, reg: Seq<bool>, j: int) -> bool {
    &&& (driver(gates, gates[j].a) >= 0 ==> reg[driver(gates, gates[j].a)])
    &&& (driver(gates, gates[j].b) >= 0 ==> reg[driver(gates, gates[j].b)])
}

/// A partial resolution: `list` holds distinct registered gates, each of
/// which has the drivers of its inputs registered.
pub open spec fn resolved(gates: Seq<GateSpec>, reg: Seq<bool>, list: Seq<usize>) -> bool {
    &&& reg.len() == gates.len()
    &&& list.no_duplicates()
    &&& forall|p: int|
        0 <= p < list.len() ==> #[trigger] list[p] < gates.len() && reg[list[p] as int]
            && inputs_registered(gates, reg, list[p] as int)
}

/// A finished resolution: besides, every registered gate is in the list.
pub open spec fn complete(gates: Seq<GateSpec>, reg: Seq<bool>, list: Seq<usize>) -> bool {
    &&& resolved(gates, reg, list)
    &&& forall|j: int| 0 <= j < gates.len() && #[trigger] reg[j] ==> list.contains(j as usize)
}

/// Gate `list[p]` comes after the driver `d` of one of its inputs, or the
/// two lie on a cycle: `d` comes no earlier and `list[p]` is needed by an
/// input of `d`.
pub open spec fn after_input(gates: Seq<GateSpec>, list: Seq<usize>, p: int, d: int) -> bool {
    ||| exists|q: int| 0 <= q < p && list[q] == d
    ||| exists|q: int|
        p <= q < list.len() && list[q] == d && (needs(gates, gates[d].a, list[p] as int) || needs(
            gates,
            gates[d].b,
            list[p] as int,
        ))
}

/// The number of gates not yet registered.
pub open spec fn unregistered(reg: Seq<bool>) -> nat
    decreases reg.len(),
{
    if reg.len() == 0 {
        0
    } else {
        unregistered(reg.drop_last()) + if reg.last() {
            0nat
        } else {
            1nat
        }
    }
}

proof fn lemma_unregistered_mono(a: Seq<bool>, b: Seq<bool>)
    requires
        a.len() == b.len(),
        forall|i: int| 0 <= i < a.len() && a[i] ==> b[i],
    ensures
        unregistered(b) <= unregistered(a),
    decreases a.len(),
{
    if a.len() > 0 {
        lemma_unregistered_mono(a.drop_last(), b.drop_last());
    }
}

proof fn lemma_unregistered_set(a: Seq<bool>, g: int)
    requires
        0 <= g < a.len(),
        !a[g],
    ensures
        unregistered(a.update(g, true)) + 1 == unregistered(a),
    decreases a.len(),
{
    if g < a.len() - 1 {
        assert(a.update(g, true).drop_last() =~= a.drop_last().update(g, true));
        lemma_unregistered_set(a.drop_last(), g);
    } else {
        assert(a.update(g, true).drop_last() =~= a.drop_last());
    }
}

proof fn lemma_reaches_step(gates: Seq<GateSpec>, j: int, z: u32, s: u32, d: nat)
    requires
        driver(gates, z) >= 0,
        s == gates[driver(gates, z)].a || s == gates[driver(gates, z)].b,
        reaches_gate(gates, j, s, d),
    ensures
        reaches_gate(gates, j, z, d + 1),
{
}

/// In a finished resolution where the driver of `s` is registered, every
/// gate that `s` needs is registered too.
proof fn lemma_needed_registered(gates: Seq<GateSpec>, reg: Seq<bool>, list: Seq<usize>, s: u32, j: int, d: nat)
    requires
        complete(gates, reg, list),
        gates.len() <= usize::MAX,
        driver(gates, s) >= 0 ==> reg[driver(gates, s)],
        reaches_gate(gates, j, s, d),
    ensures
        0 <= j < gates.len() && reg[j],
    decreases d,
{
    lemma_first_gate(gates, s, 0);
    let g = driver(gates, s);
    if g != j {
        assert(0 <= g < gates.len());
        assert(reg[g]);
        assert(list.contains(g as usize));
        let p = choose|p: int| 0 <= p < list.len() && list[p] == g as usize;
        assert(inputs_registered(gates, reg, list[p] as int));
        assert(list[p] as int == g);
        if reaches_gate(gates, j, gates[g].a, (d - 1) as nat) {
            lemma_needed_registered(gates, reg, list, gates[g].a, j, (d - 1) as nat);
        } else {
            lemma_needed_registered(gates, reg, list, gates[g].b, j, (d - 1) as nat);
        }
    }
}

/// The recursive step of resolution, where gates registered but not yet
/// listed are the ones in progress further up.
fn resolve_inner(z: u32, circuitry: &Vec<GateSpec>, registered: &mut Vec<bool>, gates: &mut Vec<usize>)
    requires
        resolved(circuitry@, old(registered)@, old(gates)@),
    ensures
        resolved(circuitry@, final(registered)@, final(gates)@),
        final(gates).len() >= old(gates).len(),
        final(gates)@.subrange(0, old(gates).len() as int) == old(gates)@,
        forall|j: int| 0 <= j < circuitry.len() && old(registered)@[j] ==> #[trigger] final(registered)@[j],
        forall|p: int|
            old(gates).len() <= p < final(gates).len() ==> !old(registered)@[#[trigger] final(gates)@[p] as int]
                && needs(circuitry@, z, final(gates)@[p] as int),
        forall|j: int|
            0 <= j < circuitry.len() && !old(registered)@[j] && #[trigger] final(registered)@[j]
                ==> final(gates)@.contains(j as usize),
        driver(circuitry@, z) >= 0 ==> final(registered)@[driver(circuitry@, z)],
        driver(circuitry@, z) < 0 || old(registered)@[driver(circuitry@, z)] ==> final(registered)@
            == old(registered)@ && final(gates)@ == old(gates)@,
        forall|p: int, d: int|
            old(gates).len() <= p < final(gates).len() && 0 <= d < circuitry.len() && (d == driver(
                circuitry@,
                circuitry@[final(gates)@[p] as int].a,
            ) || d == driver(circuitry@, circuitry@[final(gates)@[p] as int].b)) ==> after_input(
                circuitry@,
                final(gates)@,
                p,
                d,
            ) || (old(registered)@[d] && !old(gates)@.contains(d as usize)),
    decreases unregistered(old(registered)@),
{
    let ghost n = circuitry.len();
    let g = match find_gate(circuitry, z) {
        Some(g) => g,
        None => {
            return;
        },
    };
    proof {
        lemma_first_gate(circuitry@, z, 0);
        assert(circuitry@.len() == circuitry.len());
    }
    if registered[g] {
        return;
    }
    let ghost reg0 = registered@;
    let ghost list0 = gates@;
    registered.set(g, true);
    proof {
        assert(registered@ == reg0.update(g as int, true));
        lemma_unregistered_set(reg0, g as int);
        assert forall|p: int| 0 <= p < list0.len() implies inputs_registered(circuitry@, registered@, list0[p] as int) by {
            let x = list0[p] as int;
            assert(inputs_registered(circuitry@, reg0, x));
            let da = driver(circuitry@, circuitry@[x].a);
            let db = driver(circuitry@, circuitry@[x].b);
            lemma_first_gate(circuitry@, circuitry@[x].a, 0);
            lemma_first_gate(circuitry@, circuitry@[x].b, 0);
            if da >= 0 {
                assert(reg0[da]);
                assert(registered@[da]);
            }
            if db >= 0 {
                assert(reg0[db]);
                assert(registered@[db]);
            }
        }
    }
    let ghost reg_g = registered@;
    let gate = circuitry[g];
    resolve_inner(gate.a, circuitry, registered, gates);
    let ghost reg1 = registered@;
    let ghost list1 = gates@;
    proof {
        lemma_unregistered_mono(reg_g, reg1);
    }
    resolve_inner(gate.b, circuitry, registered, gates);
    let ghost reg2 = registered@;
    let ghost list2 = gates@;
    proof {
        assert forall|p: int| 0 <= p < list1.len() implies list2[p] == list1[p] by {
            assert(list2.subrange(0, list1.len() as int)[p] == list1[p]);
        }
        assert forall|p: int| 0 <= p < list0.len() implies list1[p] == list0[p] by {
            assert(list1.subrange(0, list0.len() as int)[p] == list0[p]);
        }
        assert forall|p: int| 0 <= p < list2.len() implies list2[p] != g by {
            if p < list0.len() {
                assert(list1[p] == list0[p]);
                assert(reg0[list0[p] as int]);
            } else if p < list1.len() {
                assert(list2[p] == list1[p]);
                assert(!reg_g[list1[p] as int]);
            } else {
                assert(!reg1[list2[p] as int]);
            }
        }
    }
    gates.push(g);
    proof {
        let list3 = gates@;
        assert(list3[list2.len() as int] == g);
        assert forall|p: int| 0 <= p < list2.len() implies list3[p] == list2[p] by {}
        assert(list3.subrange(0, list0.len() as int) =~= list0);
        assert(list3.no_duplicates()) by {
            assert forall|p: int, q: int| 0 <= p < q < list3.len() implies list3[p] != list3[q] by {
                if q < list2.len() {
                    assert(list2[p] != list2[q]);
                }
            }
        }
        // the driver of z is needed by z
        assert(reaches_gate(circuitry@, g as int, z, 0));
        assert forall|p: int| list0.len() <= p < list3.len() implies !reg0[#[trigger] list3[p] as int]
            && needs(circuitry@, z, list3[p] as int) by {
            if p < list1.len() {
                assert(list3[p] == list1[p]);
                assert(needs(circuitry@, gate.a, list1[p] as int));
                let d = choose|d: nat| reaches_gate(circuitry@, list1[p] as int, gate.a, d);
                lemma_reaches_step(circuitry@, list1[p] as int, z, gate.a, d);
            } else if p < list2.len() {
                assert(list3[p] == list2[p]);
                assert(needs(circuitry@, gate.b, list2[p] as int));
                let d = choose|d: nat| reaches_gate(circuitry@, list2[p] as int, gate.b, d);
                lemma_reaches_step(circuitry@, list2[p] as int, z, gate.b, d);
            } else {
                assert(list3[p] == g);
            }
        }
        assert forall|j: int|
            0 <= j < circuitry.len() && !reg0[j] && #[trigger] registered@[j] implies list3.contains(j as usize) by {
            if j == g {
                assert(list3[list2.len() as int] == g);
            } else if !reg1[j] {
                assert(list2.contains(j as usize));
                let q = choose|q: int| 0 <= q < list2.len() && list2[q] == j as usize;
                assert(list3[q] == j as usize);
            } else {
                assert(list1.contains(j as usize));
                let q = choose|q: int| 0 <= q < list1.len() && list1[q] == j as usize;
                assert(list3[q] == j as usize);
            }
        }
        assert forall|p: int| 0 <= p < list3.len() implies #[trigger] list3[p] < circuitry.len()
            && registered@[list3[p] as int] && inputs_registered(circuitry@, registered@, list3[p] as int) by {
            if p < list2.len() {
                assert(list3[p] == list2[p]);
            } else {
                lemma_first_gate(circuitry@, gate.a, 0);
                lemma_first_gate(circuitry@, gate.b, 0);
            }
        }
        assert forall|p: int, d: int|
            list0.len() <= p < list3.len() && 0 <= d < circuitry.len() && (d == driver(
                circuitry@,
                circuitry@[list3[p] as int].a,
            ) || d == driver(circuitry@, circuitry@[list3[p] as int].b)) implies after_input(
                circuitry@,
                list3,
                p,
                d,
            ) || (reg0[d] && !list0.contains(d as usize)) by {
            let last = list2.len() as int;
            if p < list2.len() {
                let (lo, hi, lst, regc, inp) = if p < list1.len() {
                    (list0.len() as int, list1.len() as int, list1, reg_g, gate.a)
                } else {
                    (list1.len() as int, list2.len() as int, list2, reg1, gate.b)
                };
                assert(list3[p] == lst[p]);
                if after_input(circuitry@, lst, p, d) {
                    if exists|q: int| 0 <= q < p && lst[q] == d {
                        let q = choose|q: int| 0 <= q < p && lst[q] == d;
                        assert(list3[q] == d);
                    } else {
                        let q = choose|q: int|
                            p <= q < lst.len() && lst[q] == d && (needs(circuitry@, circuitry@[d].a, lst[p] as int)
                                || needs(circuitry@, circuitry@[d].b, lst[p] as int));
                        assert(list3[q] == d);
                    }
                } else {
                    // d was in progress when the child call began
                    assert(regc[d] && !lst.subrange(0, lo).contains(d as usize));
                    if d == g {
                        assert(list3[last] == d);
                        assert(needs(circuitry@, inp, lst[p] as int));
                    } else if p < list1.len() {
                        assert(reg0[d]);
                        assert(!list0.contains(d as usize));
                    } else {
                        assert(list1.subrange(0, list1.len() as int) =~= list1);
                        if !reg_g[d] {
                            assert(list1.contains(d as usize));
                        }
                        assert(reg0[d]);
                        if list0.contains(d as usize) {
                            let q = choose|q: int| 0 <= q < list0.len() && list0[q] == d as usize;
                            assert(list1[q] == d as usize);
                        }
                    }
                }
            } else {
                assert(list3[p] == g);
                assert(p == last);
                lemma_first_gate(circuitry@, gate.a, 0);
                lemma_first_gate(circuitry@, gate.b, 0);
                assert(reg2[d]);
                if list2.contains(d as usize) {
                    let q = choose|q: int| 0 <= q < list2.len() && list2[q] == d as usize;
                    assert(list3[q] == d);
                } else if d == g {
                    if d == driver(circuitry@, gate.a) {
                        assert(reaches_gate(circuitry@, g as int, gate.a, 0));
                    } else {
                        assert(reaches_gate(circuitry@, g as int, gate.b, 0));
                    }
                } else {
                    if !reg1[d] {
                        assert(list2.contains(d as usize));
                    }
                    if !reg_g[d] {
                        assert(list1.contains(d as usize));
                        let q = choose|q: int| 0 <= q < list1.len() && list1[q] == d as usize;
                        assert(list2[q] == d as usize);
                    }
                    assert(reg0[d]);
                    if list0.contains(d as usize) {
                        let q = choose|q: int| 0 <= q < list0.len() && list0[q] == d as usize;
                        assert(list2[q] == d as usize);
                    }
                }
            }
        }
    }
}

impl Sim {
    /// Resolves the gates that output `z` needs, starting from a finished
    /// resolution: each needed gate not yet listed is appended once, after
    /// the gates that drive its inputs except where the two lie on a cycle.
    /// A gate already registered is not visited again, so a gate that several
    /// others share is resolved once, and a second call for the same output
    /// changes nothing.
    pub fn resolve_circuitry(
        z: u32,
        circuitry: &Vec<GateSpec>,
        registered: &mut Vec<bool>,
        gates: &mut Vec<usize>,
    )
        requires
            complete(circuitry@, old(registered)@, old(gates)@),
        ensures
            complete(circuitry@, final(registered)@, final(gates)@),
            final(gates).len() >= old(gates).len(),
            final(gates)@.subrange(0, old(gates).len() as int) == old(gates)@,
            forall|p: int|
                old(gates).len() <= p < final(gates).len() ==> !old(registered)@[
                    #[trigger] final(gates)@[p] as int] && needs(circuitry@, z, final(gates)@[p] as int),
            forall|j: int| #[trigger] needs(circuitry@, z, j) ==> 0 <= j < circuitry.len() && final(registered)@[j]
                && final(gates)@.contains(j as usize),
            driver(circuitry@, z) < 0 || old(registered)@[driver(circuitry@, z)] ==> final(registered)@
                == old(registered)@ && final(gates)@ == old(gates)@,
            forall|p: int, d: int|
                old(gates).len() <= p < final(gates).len() && 0 <= d < circuitry.len() && (d == driver(
                    circuitry@,
                    circuitry@[final(gates)@[p] as int].a,
                ) || d == driver(circuitry@, circuitry@[final(gates)@[p] as int].b)) ==> after_input(
                    circuitry@,
                    final(gates)@,
                    p,
                    d,
                ),
    {
        let ghost reg0 = registered@;
        let ghost list0 = gates@;
        resolve_inner(z, circuitry, registered, gates);
        proof {
            let reg1 = registered@;
            let list1 = gates@;
            assert forall|j: int| 0 <= j < circuitry.len() && #[trigger] reg1[j] implies list1.contains(j as usize) by {
                if reg0[j] {
                    assert(list0.contains(j as usize));
                    let q = choose|q: int| 0 <= q < list0.len() && list0[q] == j as usize;
                    assert(list1.subrange(0, list0.len() as int)[q] == list0[q]);
                    assert(list1[q] == j as usize);
                }
            }
            assert forall|j: int| #[trigger] needs(circuitry@, z, j) implies 0 <= j < circuitry.len() && reg1[j]
                && list1.contains(j as usize) by {
                let d = choose|d: nat| reaches_gate(circuitry@, j, z, d);
                lemma_first_gate(circuitry@, z, 0);
                assert(circuitry@.len() == circuitry.len());
                lemma_needed_registered(circuitry@, reg1, list1, z, j, d);
            }
            assert forall|p: int, d: int|
                list0.len() <= p < list1.len() && 0 <= d < circuitry.len() && (d == driver(
                    circuitry@,
                    circuitry@[list1[p] as int].a,
                ) || d == driver(circuitry@, circuitry@[list1[p] as int].b)) implies after_input(
                    circuitry@,
                    list1,
                    p,
                    d,
                ) by {
                if reg0[d] && !list0.contains(d as usize) {
                    assert(list0.contains(d as usize));
                }
            }
        }
    }
}

/// The gates that the outputs `zNN` need, each once, in resolution order:
/// the network of workers that a run of the circuit has to start.
pub fn resolve_outputs(circuitry: &Vec<GateSpec>) -> (r: Vec<usize>)
    ensures
        r@.no_duplicates(),
        forall|p: int| 0 <= p < r.len() ==> output_needs(circuitry@, #[trigger] r@[p] as int),
        forall|p: int| 0 <= p < r.len() ==> #[trigger] r@[p] < circuitry.len(),
        forall|i: int, j: int|
            0 <= i < circuitry.len() && output_bit(circuitry@[i].out) is Some && #[trigger] needs(
                circuitry@,
                circuitry@[i].out,
                j,
            ) ==> r@.contains(j as usize),
{
    let n = circuitry.len();
    let mut registered: Vec<bool> = Vec::new();
    for k in 0..n
        invariant
            registered.len() == k,
            forall|q: int| 0 <= q < k ==> !(#[trigger] registered@[q]),
    {
        registered.push(false);
    }
    let mut gates: Vec<usize> = Vec::new();
    for i in 0..n
        invariant
            n == circuitry.len(),
            complete(circuitry@, registered@, gates@),
            forall|p: int| 0 <= p < gates.len() ==> output_needs(circuitry@, #[trigger] gates@[p] as int),
            forall|i2: int, j: int|
                0 <= i2 < i && output_bit(circuitry@[i2].out) is Some && #[trigger] needs(
                    circuitry@,
                    circuitry@[i2].out,
                    j,
                ) ==> gates@.contains(j as usize),
    {
        let out = circuitry[i].out;
        if name_index(out, 122).is_some() {
            let ghost before = gates@;
            Sim::resolve_circuitry(out, circuitry, &mut registered, &mut gates);
            proof {
                assert(output_bit(out) is Some);
                assert forall|p: int| 0 <= p < gates.len() implies output_needs(circuitry@, #[trigger] gates@[p] as int) by {
                    if p < before.len() {
                        assert(gates@.subrange(0, before.len() as int)[p] == before[p]);
                    } else {
                        assert(needs(circuitry@, circuitry@[i as int].out, gates@[p] as int));
                    }
                }
                assert forall|i2: int, j: int|
                    0 <= i2 < i + 1 && output_bit(circuitry@[i2].out) is Some && #[trigger] needs(
                        circuitry@,
                        circuitry@[i2].out,
                        j,
                    ) implies gates@.contains(j as usize) by {
                    if i2 < i {
                        let q = choose|q: int| 0 <= q < before.len() && before[q] == j as usize;
                        assert(gates@.subrange(0, before.len() as int)[q] == before[q]);
                        assert(gates@[q] == j as usize);
                    }
                }
            }
        }
    }
    gates
}

} // verus!
