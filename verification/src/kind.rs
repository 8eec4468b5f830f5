//! Bit-set classification of the runtime shapes a `Value` may take.
//!
//! One bit per `Value` variant; a `Kind` with several bits set means the
//! expression could produce any of those shapes at run time. Kinds compose
//! by bitwise union.

use vstd::prelude::*;

verus! {

/// Bit for the `Null` shape.
pub const NULL: u16 = 1u16;
/// Bit for the `Boolean` shape.
pub const BOOLEAN: u16 = 2u16;
/// Bit for the `Integer` shape.
pub const INTEGER: u16 = 4u16;
/// Bit for the `Float` shape.
pub const FLOAT: u16 = 8u16;
/// Bit for the `Bytes` shape.
pub const BYTES: u16 = 16u16;
/// Bit for the `Timestamp` shape.
pub const TIMESTAMP: u16 = 32u16;
/// Bit for the `Regex` shape.
pub const REGEX: u16 = 64u16;
/// Bit for the `Array` shape.
pub const ARRAY: u16 = 128u16;
/// Bit for the `Object` shape.
pub const OBJECT: u16 = 256u16;
/// Union of all shape bits: the expression could produce anything.
pub const ANY: u16 = NULL | BOOLEAN | INTEGER | FLOAT | BYTES | TIMESTAMP
    | REGEX | ARRAY | OBJECT;

/// A set of possible runtime shapes, one bit per `Value` variant.
///
/// A `Kind` is never zero for a reachable expression; composition only
/// widens the set, so static kinds are always a superset of what can occur
/// at run time.
#[derive(Clone, Copy, PartialEq, Eq, Structural, Debug)]
pub struct Kind {
    pub bits: u16,
}

/// Union of two kind sets, as a specification-level value.
pub open spec fn spec_union(a: Kind, b: Kind) -> Kind {
    Kind { bits: a.bits | b.bits }
}

impl Kind {
    /// The kind set with exactly the given bits.
    pub fn new(bits: u16) -> (r: Kind)
        ensures
            r.bits == bits,
    {
        Kind { bits }
    }

    /// The kind set admitting every runtime shape.
    pub fn any() -> (r: Kind)
        ensures
            r.bits == ANY,
    {
        Kind { bits: ANY }
    }

    /// Bitwise union: a value of the result kind may have any shape
    /// admitted by either operand.
    pub fn union(self, other: Kind) -> (r: Kind)
        ensures
            r == spec_union(self, other),
    {
        Kind { bits: self.bits | other.bits }
    }

    /// Bitwise intersection: the shapes admitted by both operands.
    pub fn intersect(self, other: Kind) -> (r: Kind)
        ensures
            r.bits == (self.bits & other.bits),
    {
        Kind { bits: self.bits & other.bits }
    }

    /// Whether the two kind sets share at least one shape.
    pub fn intersects(self, other: Kind) -> (r: bool)
        ensures
            r == ((self.bits & other.bits) != 0),
    {
        (self.bits & other.bits) != 0
    }

    /// Whether every shape of `other` is also admitted by `self`.
    pub fn contains(self, other: Kind) -> (r: bool)
        ensures
            r == ((self.bits & other.bits) == other.bits),
    {
        (self.bits & other.bits) == other.bits
    }

    /// Whether this kind set admits the shapes in `bits`.
    pub open spec fn spec_contains_bits(self, bits: u16) -> bool {
        (self.bits & bits) == bits
    }
}

/// Kind union is commutative.
pub proof fn lemma_union_commutative(a: Kind, b: Kind)
    ensures
        spec_union(a, b) == spec_union(b, a),
{
    let x = a.bits;
    let y = b.bits;
    assert(x | y == y | x) by (bit_vector);
}

/// Kind union is associative.
pub proof fn lemma_union_associative(a: Kind, b: Kind, c: Kind)
    ensures
        spec_union(spec_union(a, b), c) == spec_union(a, spec_union(b, c)),
{
    let x = a.bits;
    let y = b.bits;
    let z = c.bits;
    assert((x | y) | z == x | (y | z)) by (bit_vector);
}

/// Union never loses shapes: each operand's bits survive in the result.
pub proof fn lemma_union_widens(a: Kind, b: Kind, bits: u16)
    ensures
        a.spec_contains_bits(bits) ==> spec_union(a, b).spec_contains_bits(bits),
        b.spec_contains_bits(bits) ==> spec_union(a, b).spec_contains_bits(bits),
{
    let x = a.bits;
    let y = b.bits;
    assert((x & bits) == bits ==> ((x | y) & bits) == bits) by (bit_vector);
    assert((y & bits) == bits ==> ((x | y) & bits) == bits) by (bit_vector);
}

} // verus!
