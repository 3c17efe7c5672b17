use vstd::prelude::*;

pub mod counting;
pub mod grid;
pub mod minesweeper;
pub mod point;
pub mod solver;

verus! {

} // verus!
