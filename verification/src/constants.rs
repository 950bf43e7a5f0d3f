//! The option bits of a flag declaration, combinable by bitwise or.

use vstd::prelude::*;

verus! {

/// No options: an optional, single-occurrence, bare presence flag.
pub const ARG_DEFAULT: u8 = 0x00;

/// The flag must be matched at least once for the parse to succeed.
pub const ARG_REQUIRED: u8 = 0x01;

/// The flag may appear more than once.
pub const ARG_MULTIPLE: u8 = 0x02;

/// The flag consumes the following token as its value.
pub const ARG_REQUIRES_NEXT: u8 = 0x04;

} // verus!
