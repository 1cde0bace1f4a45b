//! Value model, binary encoder, and text renderer for the two
//! variable-precision scalar types of the Ion data format: arbitrary-precision
//! decimals and variable-precision timestamps.

use vstd::prelude::*;

pub mod bignum;
pub mod binary;
pub mod coefficient;
pub mod decimal;
pub mod digits;
pub mod text;
pub mod timestamp;

verus! {

/// The error type of every fallible operation of this crate.
#[derive(Clone, Copy, Debug, PartialEq, Eq)]
pub enum IonError {
    /// An operation was given values that cannot form a legal Ion value.
    IllegalOperation(&'static str),
    /// An encoder's bounded scratch buffer cannot hold the encoded content.
    IoError(&'static str),
}

pub type IonResult<T> = Result<T, IonError>;

} // verus!
