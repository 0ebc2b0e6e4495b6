//! Size units for display: how many bytes one unit holds, and its label.
//!
//! Unit information is not carried through the data model; a byte total is
//! converted at formatting time, by a plain division.

use vstd::prelude::*;

verus! {

/// A display unit for byte totals.
#[derive(Clone, Copy, PartialEq, Eq, Structural, Debug)]
pub enum SizeUnit {
    Bytes,
    Kilobytes,
}

impl SizeUnit {
    /// How many bytes one unit holds.
    pub open spec fn spec_num_byte_in_unit(self) -> u64 {
        match self {
            SizeUnit::Bytes => 1,
            SizeUnit::Kilobytes => 1024,
        }
    }

    /// How many bytes one unit holds.
    pub fn num_byte_in_unit(self) -> (r: u64)
        ensures
            r == self.spec_num_byte_in_unit(),
            r >= 1,
    {
        match self {
            SizeUnit::Bytes => 1,
            SizeUnit::Kilobytes => 1024,
        }
    }

    /// The unit's label, singular.
    pub fn singular_name(self) -> (r: &'static str)
        ensures
            self is Bytes ==> r@ == "B"@,
            self is Kilobytes ==> r@ == "KB"@,
    {
        match self {
            SizeUnit::Bytes => "B",
            SizeUnit::Kilobytes => "KB",
        }
    }
}

/// A count of units, as bytes.
pub fn from_units(n: u64, unit: SizeUnit) -> (r: u64)
    requires
        n * unit.spec_num_byte_in_unit() <= u64::MAX,
    ensures
        r == n * unit.spec_num_byte_in_unit(),
{
    n * unit.num_byte_in_unit()
}

/// A byte count, in whole units (rounded toward zero).
pub fn to_units(bytes: u64, unit: SizeUnit) -> (r: u64)
    ensures
        r == bytes as int / unit.spec_num_byte_in_unit() as int,
{
    bytes / unit.num_byte_in_unit()
}

} // verus!
