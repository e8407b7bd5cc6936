//! A toroidal grid running Conway's Game of Life (birth on three live
//! neighbours, survival on two or three), with a text rendering.
use vstd::prelude::*;

pub mod laws;
pub mod universe;

verus! {

} // verus!
