//! The ASCII bytes that the byte formats of this crate are made of.
use vstd::prelude::*;

verus! {

/// Line feed.
pub const LF: u8 = 0x0a;

/// Escape.
pub const ESC: u8 = 0x1b;

/// `,`
pub const COMMA: u8 = 0x2c;

/// `1`
pub const DIGIT_1: u8 = 0x31;

/// `;`
pub const SEMICOLON: u8 = 0x3b;

/// `=`
pub const EQUALS: u8 = 0x3d;

/// `A`
pub const UPPER_A: u8 = 0x41;

/// `G`
pub const UPPER_G: u8 = 0x47;

/// `T`
pub const UPPER_T: u8 = 0x54;

/// `\`
pub const BACKSLASH: u8 = 0x5c;

/// `_`
pub const UNDERSCORE: u8 = 0x5f;

/// `a`
pub const LOWER_A: u8 = 0x61;

/// `d`
pub const LOWER_D: u8 = 0x64;

/// `p`
pub const LOWER_P: u8 = 0x70;

/// `z`
pub const LOWER_Z: u8 = 0x7a;

} // verus!
