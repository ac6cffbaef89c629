//! The compact binary codec with raw-byte flags.
//!
//! Wire layout: byte 0 is the variant discriminant (0 = `Start`,
//! 1 = `Stop`, 2 = `Issue`); an `Issue` is followed by exactly one byte
//! holding the raw flag bitmask. A flag set is rebuilt with
//! `from_bits_retain`, so every bit pattern, named or not, survives a
//! round trip unchanged. This is the encoding for the tightest size
//! budget: one byte for `Start` or `Stop`, two for `Issue`.

use vstd::prelude::*;

use crate::message::{Issue, Message};
use crate::wire::{DecodeError, EncodeError, WireBuf};

verus! {

/// The largest number of bytes an encoded `Message` can occupy: one
/// discriminant byte plus the one-byte flag payload of the largest
/// variant.
pub const MESSAGE_MAX_SIZE: usize = 2;

/// The largest number of bytes an encoded flag set alone can occupy.
pub const ISSUE_MAX_SIZE: usize = 1;

/// The bytes of a flag set on the wire: its raw bit pattern, as is.
pub open spec fn spec_issue_bytes(f: Issue) -> Seq<u8> {
    seq![f.bits]
}

/// The bytes of a message on the wire.
pub open spec fn spec_message_bytes(m: Message) -> Seq<u8> {
    match m {
        Message::Start => seq![0u8],
        Message::Stop => seq![1u8],
        Message::Issue(f) => seq![2u8] + spec_issue_bytes(f),
    }
}

/// What decoding a flag set from `s` yields: the first byte, retained
/// bit for bit, and the unconsumed suffix; or an error on empty input.
pub open spec fn spec_take_issue(s: Seq<u8>) -> Result<(Issue, Seq<u8>), DecodeError> {
    if s.len() < 1 {
        Err(DecodeError::Truncated)
    } else {
        Ok((Issue { bits: s[0] }, s.skip(1)))
    }
}

/// What decoding a message from `s` yields: one whole message and the
/// unconsumed suffix, or the error naming what is wrong with the prefix.
pub open spec fn spec_take_message(s: Seq<u8>) -> Result<(Message, Seq<u8>), DecodeError> {
    if s.len() < 1 {
        Err(DecodeError::Truncated)
    } else if s[0] == 0 {
        Ok((Message::Start, s.skip(1)))
    } else if s[0] == 1 {
        Ok((Message::Stop, s.skip(1)))
    } else if s[0] == 2 {
        match spec_take_issue(s.skip(1)) {
            Ok((f, rest)) => Ok((Message::Issue(f), rest)),
            Err(e) => Err(e),
        }
    } else {
        Err(DecodeError::UnknownDiscriminant)
    }
}

/// Encodes a flag set into a fixed one-byte buffer. Never fails: the
/// encoding of any flag set fits the declared capacity.
pub fn issue_to_vec(f: Issue) -> (r: Result<WireBuf<ISSUE_MAX_SIZE>, EncodeError>)
    ensures
        r matches Ok(b) && b@ == spec_issue_bytes(f),
{
    let mut buf = WireBuf::<ISSUE_MAX_SIZE>::new();
    buf.push(f.bits());
    proof {
        assert(buf@ =~= spec_issue_bytes(f));
    }
    Ok(buf)
}

/// Encodes a message into a fixed two-byte buffer. Never fails: the
/// encoding of any message fits the declared capacity.
pub fn message_to_vec(m: Message) -> (r: Result<WireBuf<MESSAGE_MAX_SIZE>, EncodeError>)
    ensures
        r matches Ok(b) && b@ == spec_message_bytes(m),
{
    let mut buf = WireBuf::<MESSAGE_MAX_SIZE>::new();
    match m {
        Message::Start => buf.push(0),
        Message::Stop => buf.push(1),
        Message::Issue(f) => {
            buf.push(2);
            buf.push(f.bits());
        },
    }
    proof {
        assert(buf@ =~= spec_message_bytes(m));
    }
    Ok(buf)
}

/// Decodes one flag set from the front of `value` and returns it with
/// the unconsumed suffix.
pub fn issue_take_from_bytes<'a>(value: &'a [u8]) -> (r: Result<(Issue, &'a [u8]), DecodeError>)
    ensures
        spec_take_issue(value@) matches Ok(p) ==> (r matches Ok(q) && q.0 == p.0 && q.1@ == p.1),
        spec_take_issue(value@) matches Err(e) ==> (r matches Err(e2) && e2 == e),
{
    if value.len() < 1 {
        return Err(DecodeError::Truncated);
    }
    let b = *vstd::slice::slice_index_get(value, 0);
    let rest = vstd::slice::slice_subrange(value, 1, value.len());
    proof {
        assert(rest@ =~= value@.skip(1));
    }
    Ok((Issue::from_bits_retain(b), rest))
}

/// Decodes one message from the front of `value` and returns it with
/// the unconsumed suffix, unmodified, for the caller to handle.
pub fn message_take_from_bytes<'a>(value: &'a [u8]) -> (r: Result<
    (Message, &'a [u8]),
    DecodeError,
>)
    ensures
        spec_take_message(value@) matches Ok(p) ==> (r matches Ok(q) && q.0 == p.0 && q.1@
            == p.1),
        spec_take_message(value@) matches Err(e) ==> (r matches Err(e2) && e2 == e),
{
    if value.len() < 1 {
        return Err(DecodeError::Truncated);
    }
    let d = *vstd::slice::slice_index_get(value, 0);
    if d == 0 {
        let rest = vstd::slice::slice_subrange(value, 1, value.len());
        proof {
            assert(rest@ =~= value@.skip(1));
        }
        Ok((Message::Start, rest))
    } else if d == 1 {
        let rest = vstd::slice::slice_subrange(value, 1, value.len());
        proof {
            assert(rest@ =~= value@.skip(1));
        }
        Ok((Message::Stop, rest))
    } else if d == 2 {
        if value.len() < 2 {
            proof {
                assert(value@.skip(1).len() < 1);
            }
            return Err(DecodeError::Truncated);
        }
        let b = *vstd::slice::slice_index_get(value, 1);
        let rest = vstd::slice::slice_subrange(value, 2, value.len());
        proof {
            assert(value@.skip(1)[0] == value@[1]);
            assert(rest@ =~= value@.skip(1).skip(1));
        }
        Ok((Message::Issue(Issue::from_bits_retain(b)), rest))
    } else {
        Err(DecodeError::UnknownDiscriminant)
    }
}

/// Round trip with leftovers: decoding a buffer that starts with the
/// encoding of `m` consumes exactly the bytes the encoder produced and
/// returns the rest unchanged.
pub proof fn lemma_message_round_trip(m: Message, extra: Seq<u8>)
    ensures
        spec_take_message(spec_message_bytes(m) + extra) == Ok::<(Message, Seq<u8>), DecodeError>(
            (m, extra),
        ),
{
    let s = spec_message_bytes(m) + extra;
    match m {
        Message::Start => {
            assert(s.skip(1) =~= extra);
        },
        Message::Stop => {
            assert(s.skip(1) =~= extra);
        },
        Message::Issue(f) => {
            assert(s.skip(1) =~= seq![f.bits] + extra);
            assert((seq![f.bits] + extra).skip(1) =~= extra);
        },
    }
}

/// Exact consumption: decoding the encoding of `m`, alone in the buffer,
/// yields `m` and zero trailing bytes.
pub proof fn lemma_message_round_trip_exact(m: Message)
    ensures
        spec_take_message(spec_message_bytes(m)) == Ok::<(Message, Seq<u8>), DecodeError>(
            (m, Seq::empty()),
        ),
{
    lemma_message_round_trip(m, Seq::empty());
    assert(spec_message_bytes(m) + Seq::<u8>::empty() =~= spec_message_bytes(m));
}

/// Round trip for a flag set alone: every byte pattern survives.
pub proof fn lemma_issue_round_trip(f: Issue, extra: Seq<u8>)
    ensures
        spec_take_issue(spec_issue_bytes(f) + extra) == Ok::<(Issue, Seq<u8>), DecodeError>(
            (f, extra),
        ),
{
    assert((spec_issue_bytes(f) + extra).skip(1) =~= extra);
}

/// Size bound: no message encodes to more than two bytes, and two bytes
/// is the declared compile-time maximum.
pub proof fn lemma_message_size_bound(m: Message)
    ensures
        spec_message_bytes(m).len() <= 2,
        spec_message_bytes(m).len() <= MESSAGE_MAX_SIZE,
{
}

/// Truncation failure: an empty buffer, or a lone `Issue` discriminant
/// with no flag byte behind it, is rejected as truncated.
pub proof fn lemma_truncated_rejected(s: Seq<u8>)
    requires
        s.len() == 0 || (s[0] == 2 && s.len() < 2),
    ensures
        spec_take_message(s) == Err::<(Message, Seq<u8>), DecodeError>(DecodeError::Truncated),
{
    if s.len() != 0 {
        assert(s.skip(1).len() < 1);
    }
}

/// Unknown-discriminant failure: a first byte other than 0, 1 or 2 is
/// rejected, whatever follows it.
pub proof fn lemma_unknown_discriminant_rejected(s: Seq<u8>)
    requires
        s.len() >= 1,
        s[0] != 0,
        s[0] != 1,
        s[0] != 2,
    ensures
        spec_take_message(s) == Err::<(Message, Seq<u8>), DecodeError>(
            DecodeError::UnknownDiscriminant,
        ),
{
}

} // verus!
