//! The compact binary codec with structured flags.
//!
//! Wire layout: byte 0 is the variant discriminant (0 = `Start`,
//! 1 = `Stop`, 2 = `Issue`); an `Issue` is followed by a self-describing
//! sub-encoding of its flag set: one count byte, then one byte per set
//! bit naming that bit's position, in ascending order. Naming positions
//! rather than storing the raw byte keeps the sub-encoding uniform with
//! how any other set-valued payload would be written, at the price of
//! compactness.
//!
//! Unknown bits are retained: a position with no assigned meaning is
//! listed like a named one, so every bit pattern survives a round trip.
//! A decoder accepts positions in any order and rejects a position
//! above 7 as malformed.

use vstd::prelude::*;

use crate::message::{Issue, Message};
use crate::wire::{DecodeError, EncodeError, WireBuf};

verus! {

/// The largest number of bytes an encoded `Message` can occupy: one
/// discriminant byte, one count byte, and at most eight position bytes.
pub const MESSAGE_MAX_SIZE: usize = 10;

/// The largest number of bytes an encoded flag set alone can occupy:
/// one count byte and at most eight position bytes.
pub const ISSUE_MAX_SIZE: usize = 9;

/// The positions of the set bits of `b` at or above position `k`, in
/// ascending order.
pub open spec fn spec_flag_entries(b: u8, k: nat) -> Seq<u8>
    decreases 8 - k,
{
    if k >= 8 {
        Seq::empty()
    } else if b & (1u8 << k as u8) != 0 {
        seq![k as u8] + spec_flag_entries(b, k + 1)
    } else {
        spec_flag_entries(b, k + 1)
    }
}

/// The byte whose set bits are exactly the listed positions.
pub open spec fn spec_entries_mask(entries: Seq<u8>) -> u8
    decreases entries.len(),
{
    if entries.len() == 0 {
        0u8
    } else {
        (1u8 << entries[0]) | spec_entries_mask(entries.skip(1))
    }
}

/// Whether every listed position fits a byte's eight bits.
pub open spec fn spec_entries_valid(entries: Seq<u8>) -> bool {
    forall|i: int| 0 <= i < entries.len() ==> entries[i] < 8
}

/// The sub-encoding of a flag byte: a count, then the set positions.
pub open spec fn spec_flags_block(b: u8) -> Seq<u8> {
    seq![spec_flag_entries(b, 0).len() as u8] + spec_flag_entries(b, 0)
}

/// The bytes of a flag set on the wire.
pub open spec fn spec_issue_bytes(f: Issue) -> Seq<u8> {
    spec_flags_block(f.bits)
}

/// The bytes of a message on the wire.
pub open spec fn spec_message_bytes(m: Message) -> Seq<u8> {
    match m {
        Message::Start => seq![0u8],
        Message::Stop => seq![1u8],
        Message::Issue(f) => seq![2u8] + spec_issue_bytes(f),
    }
}

/// What decoding a flag set from `s` yields: the union of the listed
/// positions and the unconsumed suffix, or the error naming what is
/// wrong with the prefix.
pub open spec fn spec_take_issue(s: Seq<u8>) -> Result<(Issue, Seq<u8>), DecodeError> {
    if s.len() < 1 {
        Err(DecodeError::Truncated)
    } else {
        let n = s[0] as int;
        if s.len() < 1 + n {
            Err(DecodeError::Truncated)
        } else if !spec_entries_valid(s.subrange(1, 1 + n)) {
            Err(DecodeError::Malformed)
        } else {
            Ok((Issue { bits: spec_entries_mask(s.subrange(1, 1 + n)) }, s.skip(1 + n)))
        }
    }
}

/// What decoding a message from `s` yields.
pub open spec fn spec_take_message(s: Seq<u8>) -> Result<(Message, Seq<u8>), DecodeError> {
    if s.len() < 1 {
        Err(DecodeError::Truncated)
    } else if s[0] == 0 {
        Ok((Message::Start, s.skip(1)))
    } else if s[0] == 1 {
        Ok((Message::Stop, s.skip(1)))
    } else if s[0] == 2 {
        match spec_take_issue(s.skip(1)) {
            Ok((f, rest)) => Ok((Message::Issue(f), rest)),
            Err(e) => Err(e),
        }
    } else {
        Err(DecodeError::UnknownDiscriminant)
    }
}

/// The position list of a byte holds at most `8 - k` entries, each one
/// a position between `k` and 7.
pub proof fn lemma_flag_entries_wf(b: u8, k: nat)
    requires
        k <= 8,
    ensures
        spec_flag_entries(b, k).len() <= 8 - k,
        forall|i: int|
            0 <= i < spec_flag_entries(b, k).len() ==> k <= #[trigger] spec_flag_entries(b, k)[i]
                < 8,
    decreases 8 - k,
{
    if k < 8 {
        lemma_flag_entries_wf(b, k + 1);
    }
}

/// The union of the positions of the set bits of `b` at or above `k`
/// recovers exactly those bits of `b`.
pub proof fn lemma_flag_entries_mask(b: u8, k: nat)
    requires
        k <= 8,
    ensures
        spec_entries_mask(spec_flag_entries(b, k)) == b & (0xFFu8 << k as u8),
    decreases 8 - k,
{
    let kk = k as u8;
    if k == 8 {
        assert(b & (0xFFu8 << kk) == 0) by (bit_vector)
            requires
                kk == 8,
        ;
    } else {
        lemma_flag_entries_mask(b, k + 1);
        let rest = spec_flag_entries(b, k + 1);
        if b & (1u8 << kk) != 0 {
            let e = spec_flag_entries(b, k);
            assert(e == seq![kk] + rest);
            assert(e.skip(1) =~= rest);
            assert((1u8 << kk) | (b & (0xFFu8 << (kk + 1) as u8)) == b & (0xFFu8 << kk))
                by (bit_vector)
                requires
                    kk < 8,
                    b & (1u8 << kk) != 0,
            ;
        } else {
            assert(b & (0xFFu8 << (kk + 1) as u8) == b & (0xFFu8 << kk)) by (bit_vector)
                requires
                    kk < 8,
                    b & (1u8 << kk) == 0,
            ;
        }
    }
}

/// The whole position list of a byte recovers the byte.
pub proof fn lemma_flag_entries_mask_full(b: u8)
    ensures
        spec_entries_mask(spec_flag_entries(b, 0)) == b,
{
    lemma_flag_entries_mask(b, 0);
    assert(b & (0xFFu8 << 0u8) == b) by (bit_vector);
}

/// Appending one position to a list ORs one more bit into its mask.
pub proof fn lemma_mask_push(s: Seq<u8>, x: u8)
    ensures
        spec_entries_mask(s.push(x)) == spec_entries_mask(s) | (1u8 << x),
    decreases s.len(),
{
    reveal_with_fuel(spec_entries_mask, 3);
    if s.len() == 0 {
        assert(s.push(x).skip(1) =~= Seq::<u8>::empty());
        assert(s.push(x)[0] == x);
        let v = (1u8 << x);
        assert(v | 0 == v && 0u8 | v == v) by (bit_vector);
    } else {
        assert(s.push(x).skip(1) =~= s.skip(1).push(x));
        lemma_mask_push(s.skip(1), x);
        let a = (1u8 << s[0]);
        let m = spec_entries_mask(s.skip(1));
        let v = (1u8 << x);
        assert(a | (m | v) == (a | m) | v) by (bit_vector);
        assert(s.push(x)[0] == s[0]);
    }
}

/// How many bits of `b` are set.
fn flag_entry_count(b: u8) -> (n: u8)
    ensures
        n as int == spec_flag_entries(b, 0).len(),
{
    let mut n: u8 = 0;
    let mut k: u8 = 0;
    while k < 8
        invariant
            k <= 8,
            n <= k,
            n as int + spec_flag_entries(b, k as nat).len() == spec_flag_entries(b, 0).len(),
        decreases 8 - k,
    {
        if b & (1u8 << k) != 0 {
            n = n + 1;
        }
        k = k + 1;
    }
    n
}

/// Appends the positions of the set bits of `b`, ascending.
fn push_flag_entries<const N: usize>(buf: &mut WireBuf<N>, b: u8)
    requires
        old(buf)@.len() + 8 <= N,
    ensures
        final(buf)@ == old(buf)@ + spec_flag_entries(b, 0),
{
    let mut k: u8 = 0;
    while k < 8
        invariant
            k <= 8,
            buf@.len() <= old(buf)@.len() + k,
            old(buf)@.len() + 8 <= N,
            old(buf)@ + spec_flag_entries(b, 0) == buf@ + spec_flag_entries(b, k as nat),
        decreases 8 - k,
    {
        if b & (1u8 << k) != 0 {
            let ghost before = buf@;
            buf.push(k);
            proof {
                assert(buf@ =~= before + seq![k]);
                assert(before + (seq![k] + spec_flag_entries(b, k as nat + 1)) =~= (before
                    + seq![k]) + spec_flag_entries(b, k as nat + 1));
            }
        }
        k = k + 1;
    }
    proof {
        assert(buf@ + spec_flag_entries(b, 8) =~= buf@);
    }
}

/// Appends the whole flag sub-encoding of `b`: count, then positions.
fn push_flag_block<const N: usize>(buf: &mut WireBuf<N>, b: u8)
    requires
        old(buf)@.len() + 9 <= N,
    ensures
        final(buf)@ == old(buf)@ + spec_flags_block(b),
{
    let n = flag_entry_count(b);
    let ghost before = buf@;
    buf.push(n);
    push_flag_entries(buf, b);
    proof {
        lemma_flag_entries_wf(b, 0);
        assert(buf@ =~= before + spec_flags_block(b));
    }
}

/// Encodes a flag set into a fixed nine-byte buffer. Never fails: the
/// encoding of any flag set fits the declared capacity.
pub fn issue_to_vec(f: Issue) -> (r: Result<WireBuf<ISSUE_MAX_SIZE>, EncodeError>)
    ensures
        r matches Ok(b) && b@ == spec_issue_bytes(f),
{
    let mut buf = WireBuf::<ISSUE_MAX_SIZE>::new();
    push_flag_block(&mut buf, f.bits());
    proof {
        assert(buf@ =~= spec_issue_bytes(f));
    }
    Ok(buf)
}

/// Encodes a message into a fixed ten-byte buffer. Never fails: the
/// encoding of any message fits the declared capacity.
pub fn message_to_vec(m: Message) -> (r: Result<WireBuf<MESSAGE_MAX_SIZE>, EncodeError>)
    ensures
        r matches Ok(b) && b@ == spec_message_bytes(m),
{
    let mut buf = WireBuf::<MESSAGE_MAX_SIZE>::new();
    match m {
        Message::Start => buf.push(0),
        Message::Stop => buf.push(1),
        Message::Issue(f) => {
            buf.push(2);
            push_flag_block(&mut buf, f.bits());
        },
    }
    proof {
        assert(buf@ =~= spec_message_bytes(m));
    }
    Ok(buf)
}

/// Decodes one flag set from the front of `value` and returns it with
/// the unconsumed suffix.
pub fn issue_take_from_bytes<'a>(value: &'a [u8]) -> (r: Result<(Issue, &'a [u8]), DecodeError>)
    ensures
        spec_take_issue(value@) matches Ok(p) ==> (r matches Ok(q) && q.0 == p.0 && q.1@ == p.1),
        spec_take_issue(value@) matches Err(e) ==> (r matches Err(e2) && e2 == e),
{
    if value.len() < 1 {
        return Err(DecodeError::Truncated);
    }
    let n = *vstd::slice::slice_index_get(value, 0) as usize;
    if value.len() < 1 + n {
        return Err(DecodeError::Truncated);
    }
    let ghost entries = value@.subrange(1, 1 + n as int);
    let mut acc: u8 = 0;
    let mut i: usize = 0;
    while i < n
        invariant
            i <= n,
            n < 256,
            n as int == value@[0] as int,
            value@.len() >= 1 + n,
            entries == value@.subrange(1, 1 + n as int),
            forall|j: int| 0 <= j < i ==> entries[j] < 8,
            acc == spec_entries_mask(entries.take(i as int)),
        decreases n - i,
    {
        let e = *vstd::slice::slice_index_get(value, 1 + i);
        proof {
            assert(entries[i as int] == value@[1 + i as int]);
        }
        if e >= 8 {
            return Err(DecodeError::Malformed);
        }
        proof {
            lemma_mask_push(entries.take(i as int), e);
            assert(entries.take(i as int + 1) =~= entries.take(i as int).push(e));
        }
        acc = acc | (1u8 << e);
        i = i + 1;
    }
    proof {
        assert(entries.take(n as int) =~= entries);
    }
    let rest = vstd::slice::slice_subrange(value, 1 + n, value.len());
    proof {
        assert(rest@ =~= value@.skip(1 + n as int));
    }
    Ok((Issue::from_bits_retain(acc), rest))
}

/// Decodes one message from the front of `value` and returns it with
/// the unconsumed suffix, unmodified, for the caller to handle.
pub fn message_take_from_bytes<'a>(value: &'a [u8]) -> (r: Result<
    (Message, &'a [u8]),
    DecodeError,
>)
    ensures
        spec_take_message(value@) matches Ok(p) ==> (r matches Ok(q) && q.0 == p.0 && q.1@
            == p.1),
        spec_take_message(value@) matches Err(e) ==> (r matches Err(e2) && e2 == e),
{
    if value.len() < 1 {
        return Err(DecodeError::Truncated);
    }
    let d = *vstd::slice::slice_index_get(value, 0);
    if d == 0 {
        let rest = vstd::slice::slice_subrange(value, 1, value.len());
        proof {
            assert(rest@ =~= value@.skip(1));
        }
        Ok((Message::Start, rest))
    } else if d == 1 {
        let rest = vstd::slice::slice_subrange(value, 1, value.len());
        proof {
            assert(rest@ =~= value@.skip(1));
        }
        Ok((Message::Stop, rest))
    } else if d == 2 {
        let tail = vstd::slice::slice_subrange(value, 1, value.len());
        proof {
            assert(tail@ =~= value@.skip(1));
        }
        match issue_take_from_bytes(tail) {
            Ok((f, rest)) => Ok((Message::Issue(f), rest)),
            Err(e) => Err(e),
        }
    } else {
        Err(DecodeError::UnknownDiscriminant)
    }
}

/// Round trip for a flag set with leftovers: decoding a buffer that
/// starts with the sub-encoding of `f` recovers `f`, unknown bits
/// included, and returns the rest unchanged.
pub proof fn lemma_issue_round_trip(f: Issue, extra: Seq<u8>)
    ensures
        spec_take_issue(spec_issue_bytes(f) + extra) == Ok::<(Issue, Seq<u8>), DecodeError>(
            (f, extra),
        ),
{
    let entries = spec_flag_entries(f.bits, 0);
    let len = entries.len();
    let s = spec_issue_bytes(f) + extra;
    lemma_flag_entries_wf(f.bits, 0);
    assert(s[0] == len as u8);
    assert(s.len() >= 1 + len);
    assert(s.subrange(1, 1 + len as int) =~= entries);
    lemma_flag_entries_mask_full(f.bits);
    assert(s.skip(1 + len as int) =~= extra);
}

/// Round trip with leftovers: decoding a buffer that starts with the
/// encoding of `m` consumes exactly the bytes the encoder produced and
/// returns the rest unchanged.
pub proof fn lemma_message_round_trip(m: Message, extra: Seq<u8>)
    ensures
        spec_take_message(spec_message_bytes(m) + extra) == Ok::<(Message, Seq<u8>), DecodeError>(
            (m, extra),
        ),
{
    let s = spec_message_bytes(m) + extra;
    match m {
        Message::Start => {
            assert(s.skip(1) =~= extra);
        },
        Message::Stop => {
            assert(s.skip(1) =~= extra);
        },
        Message::Issue(f) => {
            assert(s.skip(1) =~= spec_issue_bytes(f) + extra);
            lemma_issue_round_trip(f, extra);
        },
    }
}

/// Exact consumption: decoding the encoding of `m`, alone in the buffer,
/// yields `m` and zero trailing bytes.
pub proof fn lemma_message_round_trip_exact(m: Message)
    ensures
        spec_take_message(spec_message_bytes(m)) == Ok::<(Message, Seq<u8>), DecodeError>(
            (m, Seq::empty()),
        ),
{
    lemma_message_round_trip(m, Seq::empty());
    assert(spec_message_bytes(m) + Seq::<u8>::empty() =~= spec_message_bytes(m));
}

/// Size bound: no message encodes to more bytes than the declared
/// compile-time maximum.
pub proof fn lemma_message_size_bound(m: Message)
    ensures
        spec_message_bytes(m).len() <= MESSAGE_MAX_SIZE,
{
    match m {
        Message::Issue(f) => {
            lemma_flag_entries_wf(f.bits, 0);
        },
        _ => {},
    }
}

/// Truncation failure: an empty buffer, or a lone `Issue` discriminant
/// with no count byte behind it, is rejected as truncated.
pub proof fn lemma_truncated_rejected(s: Seq<u8>)
    requires
        s.len() == 0 || (s[0] == 2 && s.len() < 2),
    ensures
        spec_take_message(s) == Err::<(Message, Seq<u8>), DecodeError>(DecodeError::Truncated),
{
    if s.len() != 0 {
        assert(s.skip(1).len() < 1);
    }
}

/// Unknown-discriminant failure: a first byte other than 0, 1 or 2 is
/// rejected, whatever follows it.
pub proof fn lemma_unknown_discriminant_rejected(s: Seq<u8>)
    requires
        s.len() >= 1,
        s[0] != 0,
        s[0] != 1,
        s[0] != 2,
    ensures
        spec_take_message(s) == Err::<(Message, Seq<u8>), DecodeError>(
            DecodeError::UnknownDiscriminant,
        ),
{
}

} // verus!
