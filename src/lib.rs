//! A two-band Haar filter bank: stateful rate samplers, two-tap filters and
//! the recursive analysis / synthesis tree built from them.
use vstd::prelude::*;

pub mod sampling;
pub mod tree;

verus! {

} // verus!
