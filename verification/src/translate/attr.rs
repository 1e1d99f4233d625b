//! Windows file-attribute bits.
//!
//! Named rather than passed as literals: the values are Windows constants that
//! a reader can check against the SDK.

use vstd::prelude::*;

verus! {

pub const READONLY: u32 = 0x0000_0001;

pub const DIRECTORY: u32 = 0x0000_0010;

pub const ARCHIVE: u32 = 0x0000_0020;

pub const NORMAL: u32 = 0x0000_0080;

pub const REPARSE_POINT: u32 = 0x0000_0400;

} // verus!
