//! What the two binary codecs share: the error taxonomy and the
//! fixed-capacity output buffer.

use vstd::prelude::*;

verus! {

/// Why a decoder rejected its input.
#[derive(Clone, Copy, Debug, PartialEq, Eq, Structural)]
pub enum DecodeError {
    /// The input ends before the shape announced by its first bytes is
    /// complete.
    Truncated,
    /// The first byte names no known message variant.
    UnknownDiscriminant,
    /// The payload bytes, or the text, do not follow the grammar.
    Malformed,
}

/// Why an encoder could fail: the value's encoding would overrun the
/// buffer's fixed capacity. The contracts of the encoders in this crate
/// prove that this never happens for any representable value.
#[derive(Clone, Copy, Debug, PartialEq, Eq, Structural)]
pub enum EncodeError {
    BufferFull,
}

/// A stack-resident output buffer: a fixed-size byte array paired with a
/// length. The binary encoders write into one of these and never touch
/// the heap.
///
/// Its view is the sequence of the `len` bytes written so far.
pub struct WireBuf<const N: usize> {
    bytes: [u8; N],
    len: usize,
}

impl<const N: usize> View for WireBuf<N> {
    type V = Seq<u8>;

    closed spec fn view(&self) -> Seq<u8> {
        self.bytes@.take(self.len as int)
    }
}

impl<const N: usize> WireBuf<N> {
    #[verifier::type_invariant]
    closed spec fn inv(self) -> bool {
        self.len <= N
    }

    /// An empty buffer.
    pub fn new() -> (r: WireBuf<N>)
        ensures
            r@ == Seq::<u8>::empty(),
    {
        let r = WireBuf { bytes: [0u8; N], len: 0 };
        proof {
            assert(r@ =~= Seq::<u8>::empty());
        }
        r
    }

    /// Appends one byte.
    pub fn push(&mut self, v: u8)
        requires
            old(self)@.len() < N,
        ensures
            final(self)@ == old(self)@.push(v),
    {
        proof {
            use_type_invariant(&*self);
        }
        self.bytes[self.len] = v;
        self.len = self.len + 1;
        proof {
            assert(self@ =~= old(self)@.push(v));
        }
    }

    /// How many bytes have been written.
    pub fn len(&self) -> (r: usize)
        ensures
            r == self@.len(),
    {
        proof {
            use_type_invariant(self);
        }
        self.len
    }

    /// The byte at position `i`.
    pub fn byte_at(&self, i: usize) -> (r: u8)
        requires
            i < self@.len(),
        ensures
            r == self@[i as int],
    {
        proof {
            use_type_invariant(self);
        }
        self.bytes[i]
    }

    /// The written bytes, as a borrowed slice.
    pub fn as_slice(&self) -> (r: &[u8])
        ensures
            r@ == self@,
    {
        proof {
            use_type_invariant(self);
        }
        vstd::slice::slice_subrange(self.bytes.as_slice(), 0, self.len)
    }
}

} // verus!
