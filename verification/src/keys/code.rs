//! Virtual key codes of the keys the table binds.

use vstd::prelude::*;

verus! {

pub const LEFT: u16 = 0x7B;
pub const RIGHT: u16 = 0x7C;
pub const TAB: u16 = 0x30;
/// Backtick.
pub const GRAVE: u16 = 0x32;
pub const ESCAPE: u16 = 0x35;
pub const O: u16 = 0x1F;
pub const R: u16 = 0x0F;
pub const S: u16 = 0x01;
pub const END: u16 = 0x77;
pub const J: u16 = 0x26;
pub const K: u16 = 0x28;
pub const V: u16 = 0x09;

} // verus!
