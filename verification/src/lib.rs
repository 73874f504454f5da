//! Extended-number arithmetic over arbitrary-precision payloads.
//!
//! Three numeric domains augment exact values with NaN, signed zero and
//! signed infinity: extended naturals (`MpnExt`), extended integers
//! (`MpzExt`) and extended rationals (`MpqExt`). A generic text parser
//! reads plain, fractional and repeating-decimal notation into any of the
//! three, and a layout formatter renders extended rationals back to text.

pub mod bignum;
pub mod ext;
pub mod digits;
pub mod int_ext;
pub mod nat_ext;
pub mod rat_ext;
pub mod laws;
pub mod layout;
pub mod parsing;
pub mod traits;

use vstd::prelude::*;

verus! {

/// The recoverable failures of this crate: malformed numeric text, and an
/// attempt to narrow an infinite or NaN value into a plain one.
#[derive(Clone, Copy, PartialEq, Eq, Structural, Debug)]
pub enum NumError {
    InvalidFormat,
    NotConvertible,
}

} // verus!
