// A combinational-logic circuit simulator with a verified wiring-repair
// search (`gate`, `circuit`, `parse`, `sim`, `repair`, `adder`), together
// with the solvers of the other daily puzzles of the same collection
// (`dec_NN`).
use vstd::prelude::*;

pub mod adder;
pub mod circuit;
pub mod dec_01;
pub mod dec_02;
pub mod dec_03;
pub mod dec_04;
pub mod dec_05;
pub mod dec_08;
pub mod dec_09;
pub mod dec_10;
pub mod dec_11;
pub mod dec_12;
pub mod dec_14;
pub mod dec_15;
pub mod dec_16;
pub mod dec_17_part1;
pub mod dec_17_part2;
pub mod dec_18;
pub mod dec_19;
pub mod dec_20;
pub mod dec_21;
pub mod dec_22;
pub mod dec_23;
pub mod dec_25;
pub mod gate;
pub mod graph;
pub mod parse;
pub mod repair;
pub mod sim;

verus! {

} // verus!
