use circuit_sim::gate::{make_name, GateOp, GateSpec};
use circuit_sim::parse::{handle_puzzle1, parse, parse_gate_line, parse_input_line, CircuitSpec};
use circuit_sim::repair::{generate_test_cases, operand_value, repair, repair_with, Localizer, UnresolvedFault};
use circuit_sim::sim::Sim;

fn name(s: &str) -> u32 {
    let b = s.as_bytes();
    make_name(b[0], b[1], b[2])
}

/// The text of an `n`-bit ripple-carry adder with the given addends.
fn adder_text(n: usize, x: u64, y: u64) -> String {
    let mut t = String::new();
    for i in 0..n {
        t.push_str(&format!("x{:02}: {}\n", i, (x >> i) & 1));
    }
    for i in 0..n {
        t.push_str(&format!("y{:02}: {}\n", i, (y >> i) & 1));
    }
    t.push('\n');
    t.push_str("x00 XOR y00 -> z00\n");
    t.push_str("x00 AND y00 -> c00\n");
    for i in 1..n {
        let carry = if i + 1 == n { format!("z{:02}", n) } else { format!("c{:02}", i) };
        t.push_str(&format!("x{i:02} XOR y{i:02} -> a{i:02}\n"));
        t.push_str(&format!("y{i:02} AND x{i:02} -> b{i:02}\n"));
        t.push_str(&format!("a{i:02} XOR c{:02} -> z{i:02}\n", i - 1));
        t.push_str(&format!("c{:02} AND a{i:02} -> d{i:02}\n", i - 1));
        t.push_str(&format!("b{i:02} OR d{i:02} -> {carry}\n"));
    }
    t
}

fn with_inputs(c: &CircuitSpec, n: usize, x: u64, y: u64) -> Vec<(u32, bool)> {
    let mut ins = vec![];
    for i in 0..n {
        ins.push((name(&format!("x{:02}", i)), (x >> i) & 1 == 1));
        ins.push((name(&format!("y{:02}", i)), (y >> i) & 1 == 1));
    }
    assert_eq!(ins.len(), c.inputs.len());
    ins
}

fn swap_in_text(t: &str, a: &str, b: &str) -> String {
    t.lines()
        .map(|l| {
            if l.ends_with(&format!("-> {a}")) {
                format!("{}{b}", &l[..l.len() - 3])
            } else if l.ends_with(&format!("-> {b}")) {
                format!("{}{a}", &l[..l.len() - 3])
            } else {
                l.to_string()
            }
        })
        .collect::<Vec<_>>()
        .join("\n")
}

#[test]
fn dec_24_test_puzzle1() {
    let input = r#"x00: 1
x01: 1
x02: 1
y00: 0
y01: 1
y02: 0

x00 AND y00 -> abq
x01 XOR y01 -> lbc
x02 OR y02 -> dba
dba AND lbc -> z00
lbc AND abq -> z01
x01 OR lbc -> z02
"#;

    assert_eq!(handle_puzzle1(input), Some(0b100_u64));
}

#[test]
fn small_gate_set_yields_four() {
    let input = "x00: 1\nx01: 1\nx02: 1\ny00: 0\ny01: 1\ny02: 0\n\nx00 AND y00 -> aba\nx01 AND x02 -> gbs\naba AND gbs -> z00\nx01 XOR y01 -> z01\nx02 OR y02 -> z02\n";
    assert_eq!(handle_puzzle1(input), Some(0b100));
}

#[test]
fn cyclic_wiring_yields_no_result() {
    let input = "x00: 1\ny00: 0\n\nx00 AND bbb -> aaa\naaa OR y00 -> bbb\naaa XOR x00 -> z00\n";
    assert_eq!(handle_puzzle1(input), None);
    let input = "x00: 1\n\nbbb OR x00 -> aaa\naaa OR x00 -> bbb\naaa XOR x00 -> z00\n";
    assert_eq!(handle_puzzle1(input), None);
}

#[test]
fn missing_driver_yields_no_result() {
    let input = "x00: 1\n\nx00 AND qqq -> z00\n";
    assert_eq!(handle_puzzle1(input), None);
}

#[test]
fn cycle_away_from_outputs_is_harmless() {
    let input = "x00: 1\ny00: 1\n\nbbb OR x00 -> aaa\naaa OR x00 -> bbb\nx00 AND y00 -> z00\n";
    assert_eq!(handle_puzzle1(input), Some(1));
}

#[test]
fn malformed_text_is_rejected() {
    assert!(parse("x00: 1\n\nx00 NAND y00 -> z00\n").is_none());
    assert!(parse("x00 = 1\n").is_none());
    assert_eq!(handle_puzzle1("x00: 1\nx00 OR y0 -> z00\n"), None);
}

#[test]
fn lines_parse_to_gates_and_inputs() {
    let t = b"ab1 XOR c_d -> z07";
    let g = parse_gate_line(t, 0, t.len()).unwrap();
    assert_eq!(g, GateSpec { a: name("ab1"), b: name("c_d"), op: GateOp::Xor, out: name("z07") });
    let t = b"x01 OR y01 -> q00";
    assert_eq!(parse_gate_line(t, 0, t.len()).unwrap().op, GateOp::Or);
    let t = b"x05: 1";
    assert_eq!(parse_input_line(t, 0, t.len()), Some((name("x05"), true)));
    let t = b"x05: 0";
    assert_eq!(parse_input_line(t, 0, t.len()), Some((name("x05"), false)));
    let t = b"x05: 2";
    assert_eq!(parse_input_line(t, 0, t.len()), None);
}

#[test]
fn later_lines_replace_earlier_ones() {
    let c = parse("x00: 0\nx00: 1\n\nx00 AND x00 -> z00\nx00 XOR x00 -> z00\n").unwrap();
    assert_eq!(c.inputs, vec![(name("x00"), true)]);
    assert_eq!(c.circuitry.len(), 1);
    assert_eq!(c.circuitry[0].op, GateOp::Xor);
}

#[test]
fn running_twice_gives_the_same_result() {
    let c = parse(&adder_text(8, 200, 99)).unwrap();
    let sim = Sim::from(c.circuitry);
    let first = sim.run(&c.inputs);
    let second = sim.run(&c.inputs);
    assert_eq!(first, Some(299));
    assert_eq!(first, second);
}

#[test]
fn shared_signal_is_evaluated_once() {
    let input = "x00: 1\ny00: 1\nx01: 0\ny01: 1\n\nx00 AND y00 -> sss\nsss OR x01 -> z00\nsss XOR y01 -> z01\n";
    let c = parse(input).unwrap();
    let sim = Sim::from(c.circuitry);
    assert_eq!(sim.order.len(), 3);
    let shared = sim.order.iter().filter(|&&g| sim.circuitry[g].out == name("sss")).count();
    assert_eq!(shared, 1);
    assert_eq!(sim.order[0], 0);
    assert_eq!(sim.run(&c.inputs), Some(0b01));
}

#[test]
fn acyclic_adder_always_yields_the_sum() {
    let c = parse(&adder_text(10, 0, 0)).unwrap();
    let sim = Sim::from(c.circuitry.clone());
    assert_eq!(sim.order.len(), c.circuitry.len());
    let mut seed: u64 = 12345;
    for _ in 0..50 {
        seed = seed.wrapping_mul(6364136223846793005).wrapping_add(1442695040888963407);
        let x = (seed >> 20) & 0x3ff;
        let y = (seed >> 40) & 0x3ff;
        assert_eq!(sim.run(&with_inputs(&c, 10, x, y)), Some(x + y));
    }
    assert_eq!(sim.run(&with_inputs(&c, 10, 1023, 1023)), Some(2046));
    assert_eq!(sim.run(&with_inputs(&c, 10, 0, 0)), Some(0));
}

#[test]
fn test_vectors_follow_the_patterns() {
    let c = parse(&adder_text(4, 0b0101, 0b0011)).unwrap();
    let suite = generate_test_cases(&c.inputs);
    assert_eq!(suite.len(), 4);
    assert_eq!((suite[0].x, suite[0].y), (0b0101, 0b0011));
    assert_eq!((suite[1].x, suite[1].y), (0b1111, 0b1111));
    assert_eq!((suite[2].x, suite[2].y), (0b1010, 0b1010));
    assert_eq!((suite[3].x, suite[3].y), (0b0101, 0b0101));
    assert_eq!(operand_value(&suite[0].inputs, b'x'), 5);
}

#[test]
fn repair_finds_the_swapped_pair() {
    let n = 8;
    let good = adder_text(n, 0b1011_0110, 0b0110_1101);
    let bad = swap_in_text(&good, "z05", "d05");
    let c = parse(&bad).unwrap();
    assert_ne!(handle_puzzle1(&bad), handle_puzzle1(&good));
    let fixed = repair(&c, n as u64 + 1).unwrap();
    assert_eq!(fixed.swaps.len(), 1);
    let (a, b) = fixed.swaps[0];
    assert!((a, b) == (name("z05"), name("d05")) || (a, b) == (name("d05"), name("z05")));
    let sim = Sim::from(fixed.circuitry);
    let mut seed: u64 = 7;
    for _ in 0..40 {
        seed = seed.wrapping_mul(6364136223846793005).wrapping_add(1442695040888963407);
        let x = (seed >> 20) & 0xff;
        let y = (seed >> 40) & 0xff;
        assert_eq!(sim.run(&with_inputs(&c, n, x, y)), Some(x + y));
    }
    assert_eq!(sim.run(&with_inputs(&c, n, 255, 255)), Some(510));
    assert_eq!(sim.run(&with_inputs(&c, n, 255, 1)), Some(256));
}

#[test]
fn repair_leaves_a_correct_adder_alone() {
    let c = parse(&adder_text(6, 3, 5)).unwrap();
    let fixed = repair(&c, 7).unwrap();
    assert!(fixed.swaps.is_empty());
    assert_eq!(fixed.circuitry, c.circuitry);
}

#[test]
fn repair_reports_an_unresolved_fault() {
    // z02 reads a signal that nothing drives: no run settles, so every bit
    // is wrong from bit 0 on, and no swap with a gate feeding z00 mends it
    let good = adder_text(6, 3, 5);
    let bad = good.replace("a02 XOR c01 -> z02", "a02 XOR qqq -> z02");
    let c = parse(&bad).unwrap();
    assert_eq!(handle_puzzle1(&bad), None);
    assert_eq!(repair(&c, 7).err(), Some(UnresolvedFault { bit: 0 }));
}

#[test]
fn missing_driver_is_named() {
    let c = parse("x00: 1\n\nx00 AND qqq -> z00\n").unwrap();
    let sim = Sim::from(c.circuitry);
    assert_eq!(sim.missing_driver(&c.inputs), Some(name("qqq")));
    let c = parse(&adder_text(3, 1, 2)).unwrap();
    let sim = Sim::from(c.circuitry);
    assert_eq!(sim.missing_driver(&c.inputs), None);
}

#[test]
fn resolution_registers_a_shared_gate_once() {
    let input = "x00: 1\ny00: 1\nx01: 0\ny01: 1\n\nsss OR x01 -> z00\nsss XOR y01 -> z01\nx00 AND y00 -> sss\n";
    let c = parse(input).unwrap();
    let n = c.circuitry.len();
    let mut registered = vec![false; n];
    let mut gates = vec![];
    Sim::resolve_circuitry(name("z00"), &c.circuitry, &mut registered, &mut gates);
    Sim::resolve_circuitry(name("z01"), &c.circuitry, &mut registered, &mut gates);
    // the shared gate comes first, once; then each output gate
    assert_eq!(gates, vec![2, 0, 1]);
    assert!(registered.iter().all(|r| *r));
    let mut again = gates.clone();
    Sim::resolve_circuitry(name("z01"), &c.circuitry, &mut registered, &mut again);
    assert_eq!(again, gates);
}

#[test]
fn outputs_resolve_to_the_gates_they_need() {
    // qqq feeds no output, so it is left out
    let input = "x00: 1\ny00: 1\n\nx00 AND y00 -> sss\nsss OR x00 -> z00\nx00 XOR y00 -> qqq\n";
    let c = parse(input).unwrap();
    assert_eq!(circuit_sim::graph::resolve_outputs(&c.circuitry), vec![0, 1]);
}

#[test]
fn paths_back_to_the_window_are_collected() {
    let c = parse(&adder_text(4, 0, 0)).unwrap();
    let dest = vec![name("x01"), name("y01")];
    let mut out = vec![];
    assert!(circuit_sim::repair::get_gates(&c.circuitry, &dest, name("z02"), &mut out, 20));
    // z02 = a02 XOR c01, and c01 = b01 OR d01 reads x01 and y01 through b01 and a01
    for s in ["z02", "c01", "b01", "d01", "a01"] {
        assert!(out.contains(&name(s)), "{s}");
    }
    assert!(!out.contains(&name("a02")));
    let mut none = vec![];
    assert!(!circuit_sim::repair::get_gates(&c.circuitry, &dest, name("z00"), &mut none, 20));
    assert!(none.is_empty());
}

#[test]
fn repair_by_structure_finds_the_swapped_pair() {
    let n = 8;
    let good = adder_text(n, 0b1011_0110, 0b0110_1101);
    let bad = swap_in_text(&good, "z03", "b03");
    let c = parse(&bad).unwrap();
    let fixed = repair_with(&c, n as u64 + 1, Localizer::Structure).unwrap();
    assert_eq!(fixed.swaps.len(), 1);
    let (a, b) = fixed.swaps[0];
    assert!((a, b) == (name("z03"), name("b03")) || (a, b) == (name("b03"), name("z03")));
    let sim = Sim::from(fixed.circuitry);
    for (x, y) in [(0, 0), (255, 255), (170, 85), (1, 255), (99, 156)] {
        assert_eq!(sim.run(&with_inputs(&c, n, x, y)), Some(x + y));
    }
}

#[test]
fn repair_with_a_wider_window() {
    let n = 8;
    let good = adder_text(n, 0b1011_0110, 0b0110_1101);
    let bad = swap_in_text(&good, "z05", "d05");
    let c = parse(&bad).unwrap();
    let fixed = repair_with(&c, 64, Localizer::Span { below: 4, above: 2 }).unwrap();
    assert_eq!(fixed.swaps.len(), 1);
    let sim = Sim::from(fixed.circuitry);
    assert_eq!(sim.run(&with_inputs(&c, n, 200, 100)), Some(300));
}

#[test]
fn only_needed_gates_are_scheduled() {
    let input = "x00: 1\ny00: 1\n\nx00 AND y00 -> sss\nsss OR x00 -> z00\nx00 XOR y00 -> qqq\n";
    let c = parse(input).unwrap();
    let sim = Sim::from(c.circuitry);
    assert_eq!(sim.order, vec![0, 1]);
    assert_eq!(sim.run(&c.inputs), Some(1));
}
