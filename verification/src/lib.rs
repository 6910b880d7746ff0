//! High-precision time arithmetic with attosecond resolution, verified with Verus.
//!
//! - [`dt::Dt`]: a signed attosecond count tagged with a time scale, with
//!   saturating arithmetic, rounding, unit readings, Julian days, the
//!   proleptic Gregorian calendar, duration parsers, a wire format and the
//!   CCSDS unsegmented time code.
//! - [`delta::Delta`]: a duration of whole seconds plus attoseconds.
//! - [`dt_big::DtBig`]: a 320-bit two's-complement integer.
//! - [`scale`]: time scales and weekdays; [`error`]: parse errors;
//!   [`arith`]: exact integer helpers.
use vstd::prelude::*;

pub mod arith;
pub mod dt_big;
pub mod scale;
pub mod dt;
pub mod delta;
pub mod error;
pub mod time_units;

verus! {

} // verus!
