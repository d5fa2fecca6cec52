use vstd::prelude::*;

pub mod cpu;
pub mod isa;
pub mod laws;
pub mod model;

verus! {

/// Number of pixel columns in the framebuffer.
pub const WIDTH: usize = 64;

/// Number of pixel rows in the framebuffer.
pub const HEIGHT: usize = 32;

} // verus!
