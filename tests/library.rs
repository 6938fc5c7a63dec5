use circuit_sim::adder::{adder_roles, gate, structural_faults, Adder};
use circuit_sim::dec_01;
use circuit_sim::dec_02::is_safe;
use circuit_sim::dec_05::{Constraints, TopologicalSort};
use circuit_sim::dec_09::Block;
use circuit_sim::dec_11::Stone;
use circuit_sim::dec_16::{Dir, Point};
use circuit_sim::dec_17_part1::{Instr, Vm};
use circuit_sim::dec_17_part2::{Bit, Space};
use circuit_sim::dec_21::{ClickChain, ClickMatrixv2};
use circuit_sim::dec_23::{is_maximal_clique, neighbours};
use circuit_sim::gate::{make_name, GateOp};
use circuit_sim::parse::parse;

fn name(s: &str) -> u32 {
    let b = s.as_bytes();
    make_name(b[0], b[1], b[2])
}

fn adder_text(n: usize) -> String {
    let mut t = String::new();
    for i in 0..n {
        t.push_str(&format!("x{i:02}: 1\ny{i:02}: 0\n"));
    }
    t.push('\n');
    t.push_str("x00 XOR y00 -> z00\nx00 AND y00 -> c00\n");
    for i in 1..n {
        let carry = if i + 1 == n { format!("z{:02}", n) } else { format!("c{:02}", i) };
        t.push_str(&format!("x{i:02} XOR y{i:02} -> a{i:02}\n"));
        t.push_str(&format!("y{i:02} AND x{i:02} -> b{i:02}\n"));
        t.push_str(&format!("a{i:02} XOR c{:02} -> z{i:02}\n", i - 1));
        t.push_str(&format!("c{:02} AND a{i:02} -> d{i:02}\n", i - 1));
        t.push_str(&format!("b{i:02} OR d{i:02} -> {carry}\n"));
    }
    t
}

#[test]
fn distance_pairs_the_sorted_lists() {
    assert_eq!(dec_01::puzzle1(vec![3, 4, 2, 1, 3, 3], vec![4, 3, 5, 3, 9, 3]), Some(11));
    assert_eq!(dec_01::puzzle1(vec![], vec![1]), Some(0));
    assert_eq!(dec_01::puzzle1(vec![0], vec![u32::MAX]), Some(u32::MAX));
    assert_eq!(dec_01::puzzle1(vec![0, 0], vec![u32::MAX, u32::MAX]), None);
}

#[test]
fn similarity_counts_occurrences() {
    assert_eq!(dec_01::puzzle2(vec![3, 4, 2, 1, 3, 3], vec![4, 3, 5, 3, 9, 3]), Some(31));
    assert_eq!(dec_01::puzzle2(vec![u32::MAX], vec![u32::MAX, u32::MAX]), None);
}

#[test]
fn reports_safe_or_not() {
    assert!(is_safe(&vec![7, 6, 4, 2, 1]));
    assert!(!is_safe(&vec![1, 2, 7, 8, 9]));
    assert!(!is_safe(&vec![8, 6, 4, 4, 1]));
    assert!(is_safe(&vec![5]));
    assert!(is_safe(&vec![]));
}

#[test]
fn headings_turn_round() {
    assert_eq!(Dir::N.turn(1), Dir::E);
    assert_eq!(Dir::N.turn(-1), Dir::W);
    assert_eq!(Dir::W.turn(1), Dir::N);
    assert_eq!(Dir::S.turn(0), Dir::S);
    assert_eq!(Dir::E.turn(-128), Dir::E);
    let p = Point::new((5, 5), Dir::E).move_turn(-1);
    assert_eq!((p.pt, p.dir), ((4, 5), Dir::N));
    let q = Point::new((5, 5), Dir::E).turn(1);
    assert_eq!((q.pt, q.dir), ((5, 5), Dir::S));
}

#[test]
fn free_block_takes_what_fits() {
    let mut free = Block::Free(3);
    let mut file = Block::File(5, 9);
    assert_eq!(free.frag(&mut file), Some(Block::File(3, 9)));
    assert_eq!((free, file), (Block::Free(0), Block::File(2, 9)));
    let mut other = Block::File(1, 1);
    let mut file2 = Block::File(1, 2);
    assert_eq!(other.frag(&mut file2), None);
    assert_eq!(Block::File(4, 0).size(), 4);
}

#[test]
fn stones_blink() {
    let mut s = Stone::new(0);
    assert!(s.roll().is_none());
    assert_eq!(s.data, 1);
    let mut s = Stone::new(1000);
    let t = s.roll().unwrap();
    assert_eq!((s.data, t.data), (10, 0));
    let mut s = Stone::new(1);
    assert!(s.roll().is_none());
    assert_eq!(s.data, 2024);
}

#[test]
fn symbolic_bits() {
    let x = Bit::header("a0".to_string());
    assert_eq!(x.try_name().ok().map(|s| s.as_str()), Some("a0"));
    let c = Bit::constant(1);
    assert!(c.try_name().is_err());
    match x.xor(&c) {
        Bit::Xor(a, b) => {
            assert!(matches!(*a, Bit::Named(_)));
            assert!(matches!(*b, Bit::Const(1)));
        }
        _ => panic!("not an exclusive or"),
    }
    let mut u = Bit::unknown();
    u.set(0);
    assert!(matches!(u, Bit::Const(0)));
    let mut space = Space::new();
    assert_eq!(space.finalized(), 0);
    space.state[63] = Some(true);
    space.state[62] = Some(false);
    assert_eq!(space.finalized(), 2);
}

#[test]
fn computer_steps() {
    let mut vm = Vm::new(vec![Instr::Adv(1), Instr::Out(4), Instr::Jnz(0)], vec![8, 0, 0]);
    assert!(vm.exec());
    assert_eq!(vm.registers, vec![4, 0, 0]);
    assert!(vm.exec());
    assert_eq!(vm.output, vec![4]);
    assert!(vm.exec());
    assert_eq!(vm.ip, 0);
    vm.reset();
    assert_eq!((vm.registers.clone(), vm.ip, vm.output.len()), (vec![0, 0, 0], 0, 0));
}

#[test]
fn page_rules() {
    let c = Constraints::new(vec![(47, 53), (97, 13)]);
    assert!(c.is_correct(&vec![47, 1, 53]));
    assert!(!c.is_correct(&vec![53, 47]));
    assert!(c.is_correct(&vec![53]));
    let mut u = vec![13, 97];
    assert_eq!(c.reorder(&mut u), vec![97, 13]);
    let t = TopologicalSort::from_constraints(vec![(1, 2), (2, 3)]);
    assert_eq!(t.sort(&vec![3, 2, 1]), vec![1, 2, 3]);
}

#[test]
fn cliques() {
    let edges = vec![(1u16, 2u16), (2, 3), (1, 3), (3, 4)];
    assert_eq!(neighbours(&edges, 3).len(), 3);
    assert!(is_maximal_clique(&edges, &vec![1, 2, 3]) == false);
    assert!(is_maximal_clique(&edges, &vec![1, 2, 3, 4]));
}

#[test]
fn adder_roles_of_a_textbook_adder() {
    let c = parse(&adder_text(5)).unwrap();
    assert!(structural_faults(&c.circuitry, 5).is_empty());
    let r = adder_roles(&c.circuitry, 2);
    assert_eq!(r.xori, Some(name("a02")));
    assert_eq!(r.cin, Some(name("c01")));
    assert_eq!(r.andi, Some(name("b02")));
    assert_eq!(r.andc, Some(name("d02")));
    assert_eq!(r.cout, Some(name("c02")));
    assert_eq!(gate(&c.circuitry, name("y03"), name("x03"), GateOp::Xor), Some(name("a03")));
    assert_eq!(gate(&c.circuitry, name("x03"), name("y03"), GateOp::Or), None);
    let fresh = Adder::new(1, 2, 3);
    assert_eq!((fresh.x, fresh.cout), (1, None));
}

#[test]
fn swapped_outputs_show_in_the_structure() {
    let bad = adder_text(5)
        .replace("-> z03", "-> tmp")
        .replace("-> d03", "-> z03")
        .replace("-> tmp", "-> d03");
    let c = parse(&bad).unwrap();
    let faults = structural_faults(&c.circuitry, 5);
    assert!(faults.contains(&3));
    assert!(!faults.contains(&1));
}

#[test]
fn keypad_routes() {
    let num = ClickMatrixv2::numpad();
    let routes = num.get(b'A', b'7').unwrap();
    // up three, left two, never through the gap at the bottom left
    assert!(routes.iter().all(|r| r.len() == 6 && r.last() == Some(&b'A')));
    assert!(!routes.iter().any(|r| r.starts_with(b"<<")));
    assert!(num.get(b'A', b'x').is_none());
    let chain = ClickChain::from(vec![ClickMatrixv2::numpad(), ClickMatrixv2::dpad(), ClickMatrixv2::dpad()]);
    assert_eq!(chain.find_shortest_len(&b"029A".to_vec()), 68);
}

#[test]
fn keypad_route_to_itself_is_a_press() {
    let pad = ClickMatrixv2::dpad();
    assert_eq!(pad.get(b'^', b'^').unwrap(), &vec![vec![b'A']]);
    for r in pad.get(b'<', b'A').unwrap() {
        assert_eq!(r.len(), 4);
    }
}

#[test]
fn rules_in_a_cycle_stay_at_the_end() {
    let t = TopologicalSort::from_constraints(vec![(1, 2), (2, 1), (3, 1)]);
    let r = t.sort(&vec![1, 2, 3]);
    assert_eq!(r[0], 3);
    let mut s = r.clone();
    s.sort();
    assert_eq!(s, vec![1, 2, 3]);
}

#[test]
fn a_neighbour_wholly_inside_makes_a_clique_growable() {
    let edges = vec![(1u16, 2u16), (2, 3), (1, 3), (3, 4), (4, 1), (4, 2)];
    assert!(!is_maximal_clique(&edges, &vec![1, 2, 3]));
    assert!(is_maximal_clique(&edges, &vec![1, 2, 3, 4]));
    assert!(is_maximal_clique(&vec![(1u16, 2u16), (2, 5), (5, 6)], &vec![1, 2]));
}

#[test]
fn one_keypad_costs_its_distances() {
    let chain = ClickChain::from(vec![ClickMatrixv2::numpad()]);
    // A to 0, 0 to 2, 2 to 9, 9 to A: 1, 1, 3 and 3 moves, each then pressed
    assert_eq!(chain.find_shortest_len(&b"029A".to_vec()), 12);
    let none = ClickChain::from(vec![]);
    assert_eq!(none.find_shortest_len(&b"029A".to_vec()), 4);
}

#[test]
fn grown_cliques_are_one_larger_and_distinct() {
    let edges = vec![(1u16, 2u16), (2, 3), (1, 3), (3, 4), (4, 1), (4, 2)];
    let grown = circuit_sim::dec_23::extend_cliques(&edges, &vec![vec![1, 2, 3], vec![1, 2, 4]]);
    assert_eq!(grown, vec![vec![1, 2, 3, 4]]);
}

#[test]
fn role_suspects_follow_the_roles() {
    let c = parse(&adder_text(5)).unwrap();
    let r = circuit_sim::adder::role_suspects(&c.circuitry, 2);
    let outs: Vec<u32> = r.iter().map(|g| c.circuitry[*g].out).collect();
    assert_eq!(outs, vec![name("z02"), name("c01"), name("a02"), name("b02"), name("d02"), name("c02")]);
}

#[test]
fn pages_under_no_rule_go_last_in_order() {
    let t = TopologicalSort::from_constraints(vec![(3, 1)]);
    assert_eq!(t.sort(&vec![9, 1, 7, 3]), vec![3, 1, 9, 7]);
}
