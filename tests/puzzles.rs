use circuit_sim::dec_02::{compute_safe_total, compute_safe_total_with_dampening_lazy};
use circuit_sim::dec_03::{do_dont_preproc_tokenize, evaluate_sum, parse, tokenize};
use circuit_sim::dec_05;
use std::collections::HashMap;

#[test]
fn test_compute_unsafe_total() {
    let expected = 2;
    let actual = compute_safe_total(vec![
        vec![7, 6, 4, 2, 1],
        vec![1, 2, 7, 8, 9],
        vec![9, 7, 6, 2, 1],
        vec![1, 3, 2, 4, 5],
        vec![8, 6, 4, 4, 1],
        vec![1, 3, 6, 7, 9],
    ]);
    assert_eq!(expected, actual);
}

#[test]
fn test_with_dampener() {
    let expected = 4;
    let actual = compute_safe_total_with_dampening_lazy(vec![
        vec![7, 6, 4, 2, 1],
        vec![1, 2, 7, 8, 9],
        vec![9, 7, 6, 2, 1],
        vec![1, 3, 2, 4, 5],
        vec![8, 6, 4, 4, 1],
        vec![1, 3, 6, 7, 9],
    ]);
    assert_eq!(expected, actual);
}

#[test]
fn test_parser() {
    let test_input = "xmul(2,4)%&mul[3,7]!@^do_not_mul(5,5)+mul(32,64]then(mul(11,8)mul(8,5))";
    let tokens = tokenize(test_input.as_bytes());
    let expressions = parse(tokens);
    assert_eq!(evaluate_sum(expressions), 161);
}

#[test]
fn test_parse_do_dont() {
    let test_input = "xmul(2,4)&mul[3,7]!^don't()_mul(5,5)+mul(32,64](mul(11,8)undo()?mul(8,5))";
    let tokens = do_dont_preproc_tokenize(test_input.as_bytes());
    let expressions = parse(tokens);
    assert_eq!(evaluate_sum(expressions), 48);
}

const DEC_05_INPUT: &str = r#"47|53
97|13
97|61
97|47
75|29
61|13
75|53
29|13
97|29
53|29
61|53
97|53
61|29
47|13
75|47
97|75
47|61
75|61
47|29
75|13
53|13

75,47,61,53,29
97,61,53,29,13
75,29,13
75,97,47,61,53
61,13,29
97,13,75,29,47"#;

#[test]
fn dec_05_test_puzzle1() {
    assert_eq!(dec_05::handle_puzzle1(DEC_05_INPUT).unwrap(), 143);
}

#[test]
fn dec_05_test_puzzle2() {
    assert_eq!(dec_05::handle_puzzle2(DEC_05_INPUT).unwrap(), 123);
}

#[test]
fn dec_23_test_puzzle1() {
    let input = r#"kh-tc
qp-kh
de-cg
ka-co
yn-aq
qp-ub
cg-tb
vc-aq
tb-ka
wh-tc
yn-cg
kh-ub
ta-co
de-co
tc-td
tb-wq
wh-td
ta-ka
td-qp
aq-cg
wq-ub
ub-vc
de-ta
wq-aq
wq-vc
wh-yn
ka-de
kh-ta
co-tc
wh-qp
tb-vc
td-yn"#;

    assert_eq!(circuit_sim::dec_23::handle_puzzle1(input), Some(7));
}

#[test]
fn dec_23_test_puzzle2() {
    let input = r#"ka-co
ta-co
de-co
ta-ka
de-ta
ka-de"#;

    assert_eq!(circuit_sim::dec_23::handle_puzzle2(input), String::from("codekata"));
}

#[test]
fn dec_17_part1_test_puzzle1() {
    let input = r#"Register A: 729
Register B: 0
Register C: 0

Program: 0,1,5,4,3,0"#;

    assert_eq!(circuit_sim::dec_17_part1::handle_puzzle1(input).unwrap(), "4,6,3,5,6,3,5,2,1,0");
}

#[test]
fn dec_25_test_puzzle1() {
    let input = r#"#####
.####
.####
.####
.#.#.
.#...
.....

#####
##.##
.#.##
...##
...#.
...#.
.....

.....
#....
#....
#...#
#.#.#
#.###
#####

.....
.....
#.#..
###..
###.#
###.#
#####

.....
.....
.....
#....
#.#..
#.#.#
#####"#;

    assert_eq!(circuit_sim::dec_25::handle_puzzle1(input), Some(3));
}

#[test]
fn dec_09_test_puzzle1() {
    let input = r#"2333133121414131402"#;

    assert_eq!(circuit_sim::dec_09::handle_puzzle1(input).unwrap(), 1928);
}

#[test]
fn dec_09_test_puzzle2() {
    let input = r#"2333133121414131402"#;

    assert_eq!(circuit_sim::dec_09::handle_puzzle2(input).unwrap(), 2858);
}

const DEC_08_MAP: &str = r#"............
........0...
.....0......
.......0....
....0.......
......A.....
............
............
........A...
.........A..
............
............"#;

#[test]
fn dec_08_test_puzzle1() {
    assert_eq!(circuit_sim::dec_08::handle_puzzle1(DEC_08_MAP).unwrap(), 14);
}

#[test]
fn dec_08_test_puzzle2() {
    assert_eq!(circuit_sim::dec_08::handle_puzzle2(DEC_08_MAP).unwrap(), 34);

    let input = r#"T.........
...T......
.T........
..........
..........
..........
..........
..........
..........
.........."#;

    assert_eq!(circuit_sim::dec_08::handle_puzzle2(input).unwrap(), 9);
}

#[test]
fn dec_10_test_puzzle1() {
    let input = r#"0123
1234
8765
9876"#;

    assert_eq!(circuit_sim::dec_10::handle_puzzle1(input).unwrap(), 1);

    let input = r#"...0...
...1...
...2...
6543456
7.....7
8.....8
9.....9"#;

    assert_eq!(circuit_sim::dec_10::handle_puzzle1(input).unwrap(), 2);

    let input = r#"..90..9
...1.98
...2..7
6543456
765.987
876....
987...."#;

    assert_eq!(circuit_sim::dec_10::handle_puzzle1(input).unwrap(), 4);

    let input = r#"10..9..
2...8..
3...7..
4567654
...8..3
...9..2
.....01"#;

    assert_eq!(circuit_sim::dec_10::handle_puzzle1(input).unwrap(), 3);

    let input = r#"89010123
78121874
87430965
96549874
45678903
32019012
01329801
10456732"#;

    assert_eq!(circuit_sim::dec_10::handle_puzzle1(input).unwrap(), 36);

}

#[test]
fn dec_10_test_puzzle2() {
    let input = r#".....0.
..4321.
..5..2.
..6543.
..7..4.
..8765.
..9...."#;

    assert_eq!(circuit_sim::dec_10::handle_puzzle2(input).unwrap(), 3);
    let input = r#"..90..9
...1.98
...2..7
6543456
765.987
876....
987...."#;

    assert_eq!(circuit_sim::dec_10::handle_puzzle2(input).unwrap(), 13);

    let input = r#"012345
123456
234567
345678
4.6789
56789."#;

    assert_eq!(circuit_sim::dec_10::handle_puzzle2(input).unwrap(), 227);

    let input = r#"89010123
78121874
87430965
96549874
45678903
32019012
01329801
10456732"#;

    assert_eq!(circuit_sim::dec_10::handle_puzzle2(input).unwrap(), 81);

}

const DEC_19_INPUT: &str = r#"r, wr, b, g, bwu, rb, gb, br

brwrr
bggr
gbbr
rrbgbr
ubwu
bwurrg
brgr
bbrgwb"#;

#[test]
fn dec_19_test_puzzle1() {
    assert_eq!(circuit_sim::dec_19::handle_puzzle1(DEC_19_INPUT), Some(6));
}

#[test]
fn dec_19_test_puzzle2() {
    assert_eq!(circuit_sim::dec_19::handle_puzzle2(DEC_19_INPUT), Some(16));
}

const DEC_18_INPUT: &str = r#"5,4
4,2
4,5
3,0
2,1
6,3
2,4
1,5
0,6
3,3
2,6
5,1
1,2
5,5
2,5
6,5
1,4
0,4
6,4
1,1
6,1
1,0
0,5
1,6
2,0"#;

#[test]
fn dec_18_test_puzzle1() {
    assert_eq!(circuit_sim::dec_18::handle_puzzle1(DEC_18_INPUT, 12, 7, 7), Some(22));
}

#[test]
fn dec_18_test_puzzle2() {
    assert_eq!(circuit_sim::dec_18::handle_puzzle2(DEC_18_INPUT, 7, 7), Some((6, 1)));
}

#[test]
fn dec_22_test_sequence() {
    let mut iter = circuit_sim::dec_22::Monke { seed: 123 };
    let expectation = vec![
        15887950, 16495136, 527345, 704524, 1553684, 12683156, 11100544, 12249484, 7753432, 5908254,
    ];
    for expectation in expectation {
        assert_eq!(iter.next(), Some(expectation));
    }
}

#[test]
fn dec_22_test_puzzle1() {
    let input = r#"1
10
100
2024"#;

    assert_eq!(circuit_sim::dec_22::handle_puzzle1(input), Some(37327623));
}

#[test]
fn dec_11_test_puzzle1() {
    let input = r#"0 1 10 99 999"#;

    assert_eq!(circuit_sim::dec_11::handle_puzzle1(input, 1), Some(7));

    let input = r#"125 17"#;

    assert_eq!(circuit_sim::dec_11::handle_puzzle1(input, 6), Some(22));
    assert_eq!(circuit_sim::dec_11::handle_puzzle1(input, 25), Some(55312));
}

const DEC_04_GRID: &str = r#"MMMSXXMASM
MSAMXMSMSA
AMXSXMAAMM
MSAMASMSMX
XMASAMXAMM
XXAMMXXAMA
SMSMSASXSS
SAXAMASAAA
MAMMMXMMMM
MXMXAXMASX"#;

#[test]
fn dec_04_test_puzzle1() {
    assert_eq!(circuit_sim::dec_04::handle_puzzle1(DEC_04_GRID.to_string()).unwrap(), 18);
}

#[test]
fn dec_04_test_puzzle2() {
    assert_eq!(circuit_sim::dec_04::handle_puzzle2(DEC_04_GRID.to_string()).unwrap(), 9);
}

#[test]
fn test() {
    let matrix = vec![
        vec![1, 2, 3, 4, 5],
        vec![6, 7, 8, 9, 10],
        vec![11, 12, 13, 14, 15],
        vec![16, 17, 18, 19, 20],
        vec![21, 22, 23, 24, 25],
    ];

    let mut iterator = circuit_sim::dec_04::WindowIterator::new(&matrix);

    // the 3x3 windows, row by row
    let mut count = 0;
    while let Some(window) = iterator.next() {
        for row in &window {
            println!("{:?}", row);
        }
        println!("---");
        count += 1;
    }
    assert_eq!(count, 9);
}

#[test]
fn dec_21_test_puzzle1() {
    let input = r#"029A
980A
179A
456A
379A"#;

    assert_eq!(circuit_sim::dec_21::handle_puzzle1(input), Some(126384));
}

const DEC_14_INPUT: &str = r#"p=0,4 v=3,-3
p=6,3 v=-1,-3
p=10,3 v=-1,2
p=2,0 v=2,-1
p=0,0 v=1,3
p=3,0 v=-2,-2
p=7,6 v=-1,-3
p=3,0 v=-1,-2
p=9,3 v=2,3
p=7,3 v=-1,2
p=2,4 v=2,-3
p=9,5 v=-3,-3"#;

#[test]
fn dec_14_test_parse() {
    let result = circuit_sim::dec_14::parse(DEC_14_INPUT).unwrap();
    assert_eq!(result[0].0 .0, 0);
    assert_eq!(result[2].0 .1, 3);
}

#[test]
fn dec_14_test_puzzle1() {
    assert_eq!(circuit_sim::dec_14::handle_puzzle1(DEC_14_INPUT, 11, 7, 100), Some(12));
}

#[test]
fn dec_16_test_puzzle1() {
    let input = r#"###############
#.......#....E#
#.#.###.#.###.#
#.....#.#...#.#
#.###.#####.#.#
#.#.#.......#.#
#.#.#####.###.#
#...........#.#
###.#.#####.#.#
#...#.....#.#.#
#.#.#.###.#.#.#
#.....#...#.#.#
#.###.#.#.#.#.#
#S..#.....#...#
###############"#;

    assert_eq!(circuit_sim::dec_16::handle_puzzle1(input), Some(7036));

    let input = r#"#################
#...#...#...#..E#
#.#.#.#.#.#.#.#.#
#.#.#.#...#...#.#
#.#.#.#.###.#.#.#
#...#.#.#.....#.#
#.#.#.#.#.#####.#
#.#...#.#.#.....#
#.#.#####.#.###.#
#.#.#.......#...#
#.#.###.#####.###
#.#.#...#.....#.#
#.#.#.#####.###.#
#.#.#.........#.#
#.#.#.#########.#
#S#.............#
#################"#;

    assert_eq!(circuit_sim::dec_16::handle_puzzle1(input), Some(11048));

}

#[test]
fn dec_16_test_puzzle2() {
    let input = r#"###############
#.......#....E#
#.#.###.#.###.#
#.....#.#...#.#
#.###.#####.#.#
#.#.#.......#.#
#.#.#####.###.#
#...........#.#
###.#.#####.#.#
#...#.....#.#.#
#.#.#.###.#.#.#
#.....#...#.#.#
#.###.#.#.#.#.#
#S..#.....#...#
###############"#;

    assert_eq!(circuit_sim::dec_16::handle_puzzle2(input), Some(45));

    let input = r#"#################
#...#...#...#..E#
#.#.#.#.#.#.#.#.#
#.#.#.#...#...#.#
#.#.#.#.###.#.#.#
#...#.#.#.....#.#
#.#.#.#.#.#####.#
#.#...#.#.#.....#
#.#.#####.#.###.#
#.#.#.......#...#
#.#.###.#####.###
#.#.#...#.....#.#
#.#.#.#####.###.#
#.#.#.........#.#
#.#.#.#########.#
#S#.............#
#################"#;

    assert_eq!(circuit_sim::dec_16::handle_puzzle2(input), Some(64));

}

#[test]
fn dec_12_test_puzzle1() {
    let input = r#"RRRRIICCFF
RRRRIICCCF
VVRRRCCFFF
VVRCCCJFFF
VVVVCJJCFE
VVIVCCJJEE
VVIIICJJEE
MIIIIIJJEE
MIIISIJEEE
MMMISSJEEE"#;

    assert_eq!(circuit_sim::dec_12::handle_puzzle1(input).unwrap(), 1930);
}

#[test]
fn dec_12_test_puzzle2() {
    let input = r#"AAAA
BBCD
BBCC
EEEC"#;

    assert_eq!(circuit_sim::dec_12::handle_puzzle2(input).unwrap(), 80);

    let input = r#"EEEEE
EXXXX
EEEEE
EXXXX
EEEEE"#;

    assert_eq!(circuit_sim::dec_12::handle_puzzle2(input).unwrap(), 236);

    let input = r#"AAAAAA
AAABBA
AAABBA
ABBAAA
ABBAAA
AAAAAA"#;

    assert_eq!(circuit_sim::dec_12::handle_puzzle2(input).unwrap(), 368);

    let input = r#"RRRRIICCFF
RRRRIICCCF
VVRRRCCFFF
VVRCCCJFFF
VVVVCJJCFE
VVIVCCJJEE
VVIIICJJEE
MIIIIIJJEE
MIIISIJEEE
MMMISSJEEE"#;

    assert_eq!(circuit_sim::dec_12::handle_puzzle2(input).unwrap(), 1206);
}

fn sides_of(input: &HashMap<(i64, i64), bool>) -> u64 {
    circuit_sim::dec_12::get_num_sides(&input.keys().copied().collect()).unwrap()
}

#[test]
fn test_get_num_sides() {
    let mut input = HashMap::new();
    input.insert((10, 10), true);
    assert_eq!(sides_of(&input), 4);

    input.insert((11, 10), true);
    input.insert((10, 11), true);
    assert_eq!(sides_of(&input), 6);
    input.insert((11, 11), true);
    assert_eq!(sides_of(&input), 4);

    input.insert((11, 12), true);
    input.insert((12, 11), true);
    assert_eq!(sides_of(&input), 10);

    input.insert((11, 9), true);
    assert_eq!(sides_of(&input), 12);
    input.insert((11, 8), true);
    assert_eq!(sides_of(&input), 12);
    input.insert((11, 7), true);
    assert_eq!(sides_of(&input), 12);

    input.insert((12, 10), true);
    input.insert((12, 9), true);
    input.insert((12, 8), true);
    input.insert((12, 7), true);
    assert_eq!(sides_of(&input), 10);
}

#[test]
fn dec_20_test_puzzle1() {
    let input = r#"###############
#...#...#.....#
#.#.#.#.#.###.#
#S#...#.#.#...#
#######.#.#.###
#######.#.#...#
#######.#.###.#
###..E#...#...#
###.#######.###
#...###...#...#
#.#####.#.###.#
#.#...#.#.#...#
#.#.#.#.#.#.###
#...#...#...###
###############"#;

    let res = circuit_sim::dec_20::handle_puzzle1(input).unwrap();
    assert_eq!(res.get(2), Some(&14));
    assert_eq!(res.get(4), Some(&14));
    assert_eq!(res.get(6), Some(&2));
    assert_eq!(res.get(8), Some(&4));
    assert_eq!(res.get(10), Some(&2));
    assert_eq!(res.get(12), Some(&3));
    assert_eq!(res.get(20), Some(&1));
    assert_eq!(res.get(36), Some(&1));
    assert_eq!(res.get(38), Some(&1));
    assert_eq!(res.get(40), Some(&1));
    assert_eq!(res.get(64), Some(&1));

}

#[test]
fn dec_20_test_puzzle2() {
    let input = r#"###############
#...#...#.....#
#.#.#.#.#.###.#
#S#...#.#.#...#
#######.#.#.###
#######.#.#...#
#######.#.###.#
###..E#...#...#
###.#######.###
#...###...#...#
#.#####.#.###.#
#.#...#.#.#...#
#.#.#.#.#.#.###
#...#...#...###
###############"#;

    let res = circuit_sim::dec_20::handle_puzzle2(input).unwrap();

    assert_eq!(res.get(50), Some(&32));
    assert_eq!(res.get(52), Some(&31));
    assert_eq!(res.get(54), Some(&29));
    assert_eq!(res.get(56), Some(&39));
    assert_eq!(res.get(58), Some(&25));
    assert_eq!(res.get(60), Some(&23));
    assert_eq!(res.get(62), Some(&20));
    assert_eq!(res.get(64), Some(&19));
    assert_eq!(res.get(66), Some(&12));
    assert_eq!(res.get(68), Some(&14));
    assert_eq!(res.get(70), Some(&12));
    assert_eq!(res.get(72), Some(&22));
    assert_eq!(res.get(74), Some(&4));
    assert_eq!(res.get(76), Some(&3));

}


#[test]
fn dec_15_test_puzzle1() {
    let input = r#"##########
#.O.O.OOO#
#........#
#OO......#
#OO@.....#
#O#.....O#
#O.....OO#
#O.....OO#
#OO....OO#
##########

"#;

    assert_eq!(circuit_sim::dec_15::handle_puzzle1(input).unwrap(), 10_092);

    let input = r#"########
#..O.O.#
##@.O..#
#...O..#
#.#.O..#
#...O..#
#......#
########

<^^>>>vv<v>>v<<"#;

    assert_eq!(circuit_sim::dec_15::handle_puzzle1(input).unwrap(), 2_028);

    let input = r#"##########
#..O..O.O#
#......O.#
#.OO..O.O#
#..O@..O.#
#O#..O...#
#O..O..O.#
#.OO.O.OO#
#....O...#
##########

<vv>^<v^>v>^vv^v>v<>v^v<v<^vv<<<^><<><>>v<vvv<>^v^>^<<<><<v<<<v^vv^v>^
vvv<<^>^v^^><<>>><>^<<><^vv^^<>vvv<>><^^v>^>vv<>v<<<<v<^v>^<^^>>>^<v<v
><>vv>v^v^<>><>>>><^^>vv>v<^^^>>v^v^<^^>v^^>v^<^v>v<>>v^v^<v>v^^<^^vv<
<<v<^>>^^^^>>>v^<>vvv^><v<<<>^^^vv^<vvv>^>v<^^^^v<>^>vvvv><>>v^<<^^^^^
^><^><>>><>^^<<^^v>>><^<v>^<vv>>v>>>^v><>^v><<<<v>>v<v<v>vvv>^<><<>^><
^>><>^v<><^vvv<^^<><v<<<<<><^v<<<><<<^^<v<^^^><^>>^<v^><<<^>>^v<v^v<v^
>^>>^v>vv>^<<^v<>><<><<v<<v><>v<^vv<<<>^^v^>^^>>><<^v>>v^v><^^>>^<>vv^
<><^^>^^^<><vvvvv^v<v<<>^v<v>v<<^><<><<><<<^^<<<^<<>><<><^^^>^^<>^>v<>
^^>vv<^v^v<vv>^<><v<^v>^^^>>>^^vvv^>vvv<>>>^<^>>>>>^<<^v>^vvv<>^<><<v>
v^^>>><<^^<>>^v^<v^vv<>v^<<>^<^v^v><^<<<><<^<v><v<>vv>>v><v^<vv<>v^<<^"#;

    assert_eq!(circuit_sim::dec_15::handle_puzzle1(input).unwrap(), 10_092);

}

#[test]
fn dec_15_test_puzzle2() {
    let input = r#"#######
#...#.#
#.....#
#..OO@#
#..O..#
#.....#
#######

<vv<<^^<<^^"#;

    let binding = circuit_sim::dec_15::transform(input).unwrap();
    let input = binding.as_str();

    assert_eq!(circuit_sim::dec_15::handle_puzzle2(input).unwrap(), 618);

    let input = r#"##########
#..O..O.O#
#......O.#
#.OO..O.O#
#..O@..O.#
#O#..O...#
#O..O..O.#
#.OO.O.OO#
#....O...#
##########

<vv>^<v^>v>^vv^v>v<>v^v<v<^vv<<<^><<><>>v<vvv<>^v^>^<<<><<v<<<v^vv^v>^
vvv<<^>^v^^><<>>><>^<<><^vv^^<>vvv<>><^^v>^>vv<>v<<<<v<^v>^<^^>>>^<v<v
><>vv>v^v^<>><>>>><^^>vv>v<^^^>>v^v^<^^>v^^>v^<^v>v<>>v^v^<v>v^^<^^vv<
<<v<^>>^^^^>>>v^<>vvv^><v<<<>^^^vv^<vvv>^>v<^^^^v<>^>vvvv><>>v^<<^^^^^
^><^><>>><>^^<<^^v>>><^<v>^<vv>>v>>>^v><>^v><<<<v>>v<v<v>vvv>^<><<>^><
^>><>^v<><^vvv<^^<><v<<<<<><^v<<<><<<^^<v<^^^><^>>^<v^><<<^>>^v<v^v<v^
>^>>^v>vv>^<<^v<>><<><<v<<v><>v<^vv<<<>^^v^>^^>>><<^v>>v^v><^^>>^<>vv^
<><^^>^^^<><vvvvv^v<v<<>^v<v>v<<^><<><<><<<^^<<<^<<>><<><^^^>^^<>^>v<>
^^>vv<^v^v<vv>^<><v<^v>^^^>>>^^vvv^>vvv<>>>^<^>>>>>^<<^v>^vvv<>^<><<v>
v^^>>><<^^<>>^v^<v^vv<>v^<<>^<^v^v><^<<<><<^<v><v<>vv>>v><v^<vv<>v^<<^"#;

    let binding = circuit_sim::dec_15::transform(input).unwrap();
    let input = binding.as_str();

    assert_eq!(circuit_sim::dec_15::handle_puzzle2(input).unwrap(), 9_021);

}
