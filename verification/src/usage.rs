//! Resource usage flags.
use vstd::prelude::*;

verus! {

/// Flag bit: the resource is read.
pub const USAGE_READ: u8 = 1u8;

/// Flag bit: the resource is written.
pub const USAGE_WRITE: u8 = 2u8;

/// Flag bit: previous contents must be kept.
pub const USAGE_NO_DISCARD: u8 = 4u8;

/// All flag bits that carry a meaning.
pub const USAGE_KNOWN_BITS: u8 = 7u8;

/// A set of resource usage flags; only known bits are ever set.
#[derive(Clone, Copy, Debug, PartialEq, Eq, Hash, Structural)]
pub struct ResourceUsage {
    bits: u8,
}

impl View for ResourceUsage {
    type V = u8;

    closed spec fn view(&self) -> u8 {
        self.bits
    }
}

impl ResourceUsage {
    /// No usage.
    pub fn none() -> (r: Self)
        ensures
            r@ == 0,
    {
        ResourceUsage { bits: 0 }
    }

    /// Read usage.
    pub fn read() -> (r: Self)
        ensures
            r@ == USAGE_READ,
    {
        ResourceUsage { bits: USAGE_READ }
    }

    /// Write usage.
    pub fn write() -> (r: Self)
        ensures
            r@ == USAGE_WRITE,
    {
        ResourceUsage { bits: USAGE_WRITE }
    }

    /// Keep-previous-contents usage.
    pub fn no_discard() -> (r: Self)
        ensures
            r@ == USAGE_NO_DISCARD,
    {
        ResourceUsage { bits: USAGE_NO_DISCARD }
    }

    /// Accepts `bits` only when every set bit is a known flag.
    pub fn from_bits(bits: u8) -> (r: Option<Self>)
        ensures
            r is Some <==> bits & !USAGE_KNOWN_BITS == 0,
            r is Some ==> r->0@ == bits,
    {
        if bits & !USAGE_KNOWN_BITS == 0 {
            Some(ResourceUsage { bits })
        } else {
            None
        }
    }

    /// Keeps the known flags of `bits` and drops the rest.
    pub fn from_bits_truncate(bits: u8) -> (r: Self)
        ensures
            r@ == bits & USAGE_KNOWN_BITS,
    {
        ResourceUsage { bits: bits & USAGE_KNOWN_BITS }
    }

    pub fn bits(self) -> (r: u8)
        ensures
            r == self@,
    {
        self.bits
    }

    pub fn is_empty(self) -> (r: bool)
        ensures
            r == (self@ == 0),
    {
        self.bits == 0
    }

    /// Whether every flag of `other` is set here.
    pub fn contains(self, other: Self) -> (r: bool)
        ensures
            r == (self@ & other@ == other@),
    {
        self.bits & other.bits == other.bits
    }

    /// Whether some flag is set in both.
    pub fn intersects(self, other: Self) -> (r: bool)
        ensures
            r == (self@ & other@ != 0),
    {
        self.bits & other.bits != 0
    }

    /// The flags set in either.
    pub fn union(self, other: Self) -> (r: Self)
        ensures
            r@ == self@ | other@,
    {
        ResourceUsage { bits: self.bits | other.bits }
    }

    /// The flags set in both.
    pub fn intersection(self, other: Self) -> (r: Self)
        ensures
            r@ == self@ & other@,
    {
        ResourceUsage { bits: self.bits & other.bits }
    }
}

impl Default for ResourceUsage {
    fn default() -> (r: Self)
        ensures
            r@ == 0,
    {
        ResourceUsage { bits: 0 }
    }
}

/// A union contains both of its operands.
pub proof fn lemma_union_contains_operands(a: u8, b: u8)
    ensures
        (a | b) & a == a,
        (a | b) & b == b,
{
    assert((a | b) & a == a) by (bit_vector);
    assert((a | b) & b == b) by (bit_vector);
}

/// Truncation keeps exactly the bits that `from_bits` accepts.
pub proof fn lemma_truncate_is_accepted(bits: u8)
    ensures
        (bits & USAGE_KNOWN_BITS) & !USAGE_KNOWN_BITS == 0,
        bits & !USAGE_KNOWN_BITS == 0 ==> bits & USAGE_KNOWN_BITS == bits,
{
    assert((bits & 7u8) & !7u8 == 0) by (bit_vector);
    assert(bits & !7u8 == 0 ==> bits & 7u8 == bits) by (bit_vector);
}

} // verus!
