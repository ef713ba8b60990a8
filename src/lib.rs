//! A small handheld-style engine core: bump arenas with three lifetimes, a
//! fixed-capacity swap-remove pool, a 160x144 framebuffer of 2-bit pixels with
//! text and sprite drawing, and the planar 2bpp tile format of its sprites.
use vstd::prelude::*;

pub mod debug;
pub mod draw;
pub mod fixed_pool;
pub mod font;
pub mod framebuffer;
pub mod game;
pub mod memory;
pub mod sprite;

verus! {

} // verus!
