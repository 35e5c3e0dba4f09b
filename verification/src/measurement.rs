//! Measurements: 32-bit floating-point numbers, each held by its bit pattern.
//!
//! The library never computes with a measurement. It reads one from a field of
//! text, carries it unchanged, and renders it as text again; reading and
//! rendering are left to arrow's number parser and to std.

use datafusion::arrow::compute::kernels::cast_utils::Parser;
use datafusion::arrow::datatypes::{ArrowPrimitiveType, Float32Type};
use vstd::prelude::*;

verus! {

/// What the number parser makes of a field: the bit pattern of the 32-bit
/// number that it reads there, or `None` where it reads no number.
pub uninterp spec fn parsed_bits(field: Seq<char>) -> Option<u32>;

/// The default decimal text of the 32-bit number with the given bit pattern.
pub uninterp spec fn decimal_text(bits: u32) -> Seq<char>;

/// Trusted. Calls arrow's `Float32Type::parse`, the parser that arrow's reader
/// of delimited text applies to each field of a 32-bit float column, and hands
/// back the bits of the number it read. The contract claims one thing: what
/// comes back depends on the characters of the field alone.
#[verifier::external_body]
fn parse_bits(field: &str) -> (r: Option<u32>)
    ensures
        r == parsed_bits(field@),
{
    match Float32Type::parse(field) {
        Some(number) => Some(number.to_bits()),
        None => None,
    }
}

/// Trusted. Takes the bits as a 32-bit number of arrow's `Float32Type` and
/// calls std's `to_string` on it. The contract claims one thing: the text
/// depends on the bits alone.
#[verifier::external_body]
fn render_bits(bits: u32) -> (r: String)
    ensures
        r@ == decimal_text(bits),
{
    <Float32Type as ArrowPrimitiveType>::Native::from_bits(bits).to_string()
}

/// One measured value. Two measurements are equal when their bits are.
#[derive(Clone, Copy, Debug, PartialEq, Eq, Structural)]
pub struct Measurement {
    /// The bit pattern of the number.
    pub bits: u32,
}

impl Measurement {
    /// The measurement that a field of text stands for, if it stands for one.
    pub open spec fn parsed(field: Seq<char>) -> Option<Measurement> {
        match parsed_bits(field) {
            Some(bits) => Some(Measurement { bits }),
            None => None,
        }
    }

    /// The text of the measurement.
    pub open spec fn text(self) -> Seq<char> {
        decimal_text(self.bits)
    }

    /// The measurement with the given bit pattern.
    pub fn from_bits(bits: u32) -> (r: Measurement)
        ensures
            r == (Measurement { bits }),
    {
        Measurement { bits }
    }

    /// The bit pattern of the measurement.
    pub fn to_bits(&self) -> (r: u32)
        ensures
            r == self.bits,
    {
        self.bits
    }

    /// Reads a field of text as a measurement.
    pub fn parse(field: &str) -> (r: Option<Measurement>)
        ensures
            r == Measurement::parsed(field@),
    {
        match parse_bits(field) {
            Some(bits) => Some(Measurement { bits }),
            None => None,
        }
    }

    /// Renders the measurement in its default decimal form.
    pub fn to_text(&self) -> (r: String)
        ensures
            r@ == self.text(),
    {
        render_bits(self.bits)
    }
}

} // verus!
