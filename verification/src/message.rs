//! The message type and its status-flag payload.

use vstd::prelude::*;

verus! {

/// Bit 0 of a flag byte: the peer saw a frame whose checksum did not match.
pub const WRONG_CRC_BIT: u8 = 0b0000_0001;

/// Bit 1 of a flag byte: the peer waited for a frame that never arrived.
pub const TIMEOUT_BIT: u8 = 0b0000_0010;

/// The bits of a flag byte that carry a name today.
pub const NAMED_BITS: u8 = 0b0000_0011;

/// A set of status conditions, one per bit of a single byte.
///
/// Two bits carry a name: `WRONG_CRC_BIT` and `TIMEOUT_BIT`. The remaining
/// six have no assigned meaning yet, but every bit pattern is a valid
/// value: `from_bits_retain` keeps all eight bits of its argument, so
/// unrecognised bits survive a round trip through any codec that stores
/// the raw byte.
#[derive(Clone, Copy, Debug, PartialEq, Eq, Structural)]
pub struct Issue {
    /// The raw bit pattern. Any byte is a valid flag set.
    pub bits: u8,
}

impl Issue {
    /// The empty flag set.
    pub fn empty() -> (r: Issue)
        ensures
            r.bits == 0,
    {
        Issue { bits: 0 }
    }

    /// The flag set holding only the checksum-mismatch condition.
    pub fn wrong_crc() -> (r: Issue)
        ensures
            r.bits == WRONG_CRC_BIT,
    {
        Issue { bits: WRONG_CRC_BIT }
    }

    /// The flag set holding only the timeout condition.
    pub fn timeout() -> (r: Issue)
        ensures
            r.bits == TIMEOUT_BIT,
    {
        Issue { bits: TIMEOUT_BIT }
    }

    /// Builds a flag set from a raw byte, retaining every bit, named or
    /// not. Total: it never rejects an input.
    pub fn from_bits_retain(b: u8) -> (r: Issue)
        ensures
            r.bits == b,
    {
        Issue { bits: b }
    }

    /// The stricter construction policy: accepts a byte only when every
    /// set bit carries a name, and rejects it otherwise.
    pub fn from_bits_checked(b: u8) -> (r: Option<Issue>)
        ensures
            b & !NAMED_BITS == 0 ==> r == Some(Issue { bits: b }),
            b & !NAMED_BITS != 0 ==> r is None,
    {
        if b & !NAMED_BITS == 0 {
            Some(Issue { bits: b })
        } else {
            None
        }
    }

    /// The raw bit pattern of the set.
    pub fn bits(&self) -> (r: u8)
        ensures
            r == self.bits,
    {
        self.bits
    }

    /// Set union: the bitwise OR of the two bit patterns.
    pub fn union(self, other: Issue) -> (r: Issue)
        ensures
            r.bits == self.bits | other.bits,
    {
        Issue { bits: self.bits | other.bits }
    }

    /// Membership test: whether every bit of `flag` is set in `self`.
    pub fn contains(&self, flag: Issue) -> (r: bool)
        ensures
            r == (self.bits & flag.bits == flag.bits),
    {
        self.bits & flag.bits == flag.bits
    }
}

/// Raw-byte retention: a flag set built from any byte — including one
/// whose bits carry no name — reports exactly that byte as its bit
/// pattern, as `from_bits_retain` and `bits` promise.
pub proof fn lemma_from_bits_retain_bits(b: u8)
    ensures
        (Issue { bits: b }).bits == b,
{
}

/// Union is commutative.
pub proof fn lemma_union_commutative(a: Issue, b: Issue)
    ensures
        a.bits | b.bits == b.bits | a.bits,
{
    let x = a.bits;
    let y = b.bits;
    assert(x | y == y | x) by (bit_vector);
}

/// Union is idempotent.
pub proof fn lemma_union_idempotent(a: Issue)
    ensures
        a.bits | a.bits == a.bits,
{
    let x = a.bits;
    assert(x | x == x) by (bit_vector);
}

/// The empty set is the identity of union.
pub proof fn lemma_union_identity(a: Issue)
    ensures
        a.bits | 0 == a.bits,
{
    let x = a.bits;
    assert(x | 0 == x) by (bit_vector);
}

/// One control message. `Start` and `Stop` carry no payload; `Issue`
/// reports a set of status conditions.
///
/// The variant tag and the payload travel together through every codec:
/// a decoder either rebuilds a whole variant, payload included, or fails.
#[derive(Clone, Copy, Debug, PartialEq, Eq, Structural)]
pub enum Message {
    Start,
    Stop,
    Issue(Issue),
}

} // verus!
