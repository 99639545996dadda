use vstd::prelude::*;

pub mod button;
pub mod constraint;
pub mod sequence;
pub mod set_of;
pub mod switch;
pub mod u16;
pub mod u8;
pub mod union;

verus! {
} // verus!
