//! A finite, non-wrapping board of cells that evolves by the birth/survival rule
//! of the Game of Life.
use vstd::prelude::*;

pub mod board;
pub mod cell;
pub mod error;

verus! {

/// The greeting announced for `name`: `hello ` followed by the name.
pub fn greeting(name: &str) -> (r: String)
    ensures
        r@ == "hello "@ + name@,
{
    let mut s = String::from_str("hello ");
    s.append(name);
    s
}

} // verus!
