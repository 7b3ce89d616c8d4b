//! What can go wrong while a message is framed and its records are decoded.

use vstd::prelude::*;

verus! {

/// Why a message or one of its records was refused. Every one of these ends
/// the stream: there is no recovery inside a message.
#[derive(Copy, Clone, PartialEq, Eq, Debug, Structural)]
pub enum DecodeError {
    /// The message ends before the window that would hold the type tag and
    /// the quote after it.
    MessageTooShort,
    /// The message ends before the payload that its type tag announces.
    PayloadOutOfBounds,
    /// A price or quantity is not a decimal numeral.
    MalformedNumber,
    /// A price or quantity is a decimal numeral that `Decimal` cannot hold:
    /// it is too large or has too many fractional digits.
    NumberOutOfRange,
}

} // verus!
