//! Amounts of a resource, with an optional unit.
use vstd::prelude::*;

verus! {

/// The unit an amount is measured in.
#[derive(Clone, Copy, Debug, PartialEq, Eq, Structural)]
pub enum Unit {
    Foot,
    Gram,
    Liter,
    Meter,
    USDollar,
}

/// The IEEE-754 single-precision encoding of `1.0`.
pub const ONE_BITS: u32 = 0x3f80_0000;

/// `Quantity` measures the amount of a resource (Input or Output).
///
/// The amount is a single-precision float. The library never does
/// arithmetic on it and keeps it as its IEEE-754 bit pattern
/// (`f32::to_bits`); exactly one bit pattern, `ONE_BITS`, compares equal to
/// `1.0`.
#[derive(Clone, Copy, Debug)]
pub struct Quantity {
    pub amount_bits: u32,
    pub unit: Option<Unit>,
}

impl Default for Quantity {
    /// One of something, with no unit.
    fn default() -> (r: Self)
        ensures
            r.amount_bits == ONE_BITS,
            r.unit is None,
    {
        Quantity { amount_bits: ONE_BITS, unit: None }
    }
}

impl Quantity {
    /// Whether this is exactly one, with no unit: the quantity that needs
    /// no label on an edge of a build graph.
    pub open spec fn spec_is_plain_one(self) -> bool {
        self.unit is None && self.amount_bits == ONE_BITS
    }

    /// Whether this is exactly one, with no unit.
    pub fn is_plain_one(&self) -> (r: bool)
        ensures
            r == self.spec_is_plain_one(),
    {
        self.unit.is_none() && self.amount_bits == ONE_BITS
    }

    /// Whether the unit is US dollars.
    pub fn is_dollars(&self) -> (r: bool)
        ensures
            r == (self.unit == Some(Unit::USDollar)),
    {
        match self.unit {
            Some(Unit::USDollar) => true,
            _ => false,
        }
    }
}

} // verus!
