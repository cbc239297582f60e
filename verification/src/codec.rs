//! The wire codec: a fixed-width, big-endian binary encoding of
//! transactions.
//!
//! A mint is 17 bytes (`tag to:u32 amount:u64 gas:u32` with tag `0x00`), a
//! transfer 21 bytes (`tag from:u32 to:u32 amount:u64 gas:u32` with tag
//! `0x01`). `deserialize` consumes exactly the bytes of one transaction,
//! reports how many, and leaves any remainder to the caller; a buffer too
//! short or a tag out of range is a recoverable decode error, never a
//! panic.

use vstd::prelude::*;

use crate::tx::Mint;
use crate::tx::Transaction;
use crate::tx::Transfer;

verus! {

/// First wire byte of a mint.
pub const MINT_TAG: u8 = 0;

/// First wire byte of a transfer.
pub const TRANSFER_TAG: u8 = 1;

/// Encoded length of a mint: tag, recipient, amount, gas.
pub const MINT_WIRE_LEN: usize = 17;

/// Encoded length of a transfer: tag, sender, recipient, amount, gas.
pub const TRANSFER_WIRE_LEN: usize = 21;

/// Why a byte buffer failed to decode as a transaction.
#[derive(Debug, Clone, Copy, PartialEq, Eq, Structural)]
pub enum DecodeError {
    /// The first byte is not a known transaction tag.
    UnknownTag,
    /// The buffer ends before the transaction it announces is complete.
    UnexpectedEnd,
}

/// The four big-endian bytes of `v`.
pub open spec fn be32(v: u32) -> Seq<u8> {
    seq![(v >> 24) as u8, (v >> 16) as u8, (v >> 8) as u8, v as u8]
}

/// The eight big-endian bytes of `v`.
pub open spec fn be64(v: u64) -> Seq<u8> {
    seq![
        (v >> 56) as u8,
        (v >> 48) as u8,
        (v >> 40) as u8,
        (v >> 32) as u8,
        (v >> 24) as u8,
        (v >> 16) as u8,
        (v >> 8) as u8,
        v as u8,
    ]
}

/// The `u32` read big-endian from `s` at offset `i`.
pub open spec fn be32_at(s: Seq<u8>, i: int) -> u32 {
    ((s[i] as u32) << 24) | ((s[i + 1] as u32) << 16) | ((s[i + 2] as u32) << 8) | (s[i + 3] as u32)
}

/// The `u64` read big-endian from `s` at offset `i`.
pub open spec fn be64_at(s: Seq<u8>, i: int) -> u64 {
    ((s[i] as u64) << 56) | ((s[i + 1] as u64) << 48) | ((s[i + 2] as u64) << 40) | ((s[i + 3]
        as u64) << 32) | ((s[i + 4] as u64) << 24) | ((s[i + 5] as u64) << 16) | ((s[i + 6] as u64)
        << 8) | (s[i + 7] as u64)
}

/// The canonical encoding of `tx`.
pub open spec fn spec_serialize(tx: Transaction) -> Seq<u8> {
    match tx {
        Transaction::Mint(m) => seq![MINT_TAG] + be32(m.to) + be64(m.amount) + be32(m.gas),
        Transaction::Transfer(t) => seq![TRANSFER_TAG] + be32(t.from) + be32(t.to) + be64(t.amount)
            + be32(t.gas),
    }
}

/// What decoding a buffer yields: the transaction encoded at its front and
/// the number of bytes it occupies, or the reason the buffer is malformed.
pub open spec fn spec_deserialize(s: Seq<u8>) -> Result<(Transaction, int), DecodeError> {
    if s.len() < 1 {
        Err(DecodeError::UnexpectedEnd)
    } else if s[0] == MINT_TAG {
        if s.len() < MINT_WIRE_LEN {
            Err(DecodeError::UnexpectedEnd)
        } else {
            Ok(
                (
                    Transaction::Mint(
                        Mint { to: be32_at(s, 1), amount: be64_at(s, 5), gas: be32_at(s, 13) },
                    ),
                    MINT_WIRE_LEN as int,
                ),
            )
        }
    } else if s[0] == TRANSFER_TAG {
        if s.len() < TRANSFER_WIRE_LEN {
            Err(DecodeError::UnexpectedEnd)
        } else {
            Ok(
                (
                    Transaction::Transfer(
                        Transfer {
                            from: be32_at(s, 1),
                            to: be32_at(s, 5),
                            amount: be64_at(s, 9),
                            gas: be32_at(s, 17),
                        },
                    ),
                    TRANSFER_WIRE_LEN as int,
                ),
            )
        }
    } else {
        Err(DecodeError::UnknownTag)
    }
}

/// Appends the four big-endian bytes of `v`.
pub(crate) fn push_be32(out: &mut Vec<u8>, v: u32)
    ensures
        final(out)@ == old(out)@ + be32(v),
{
    out.push((v >> 24) as u8);
    out.push((v >> 16) as u8);
    out.push((v >> 8) as u8);
    out.push(v as u8);
    proof {
        assert(out@ =~= old(out)@ + be32(v));
    }
}

/// Appends the eight big-endian bytes of `v`.
pub(crate) fn push_be64(out: &mut Vec<u8>, v: u64)
    ensures
        final(out)@ == old(out)@ + be64(v),
{
    out.push((v >> 56) as u8);
    out.push((v >> 48) as u8);
    out.push((v >> 40) as u8);
    out.push((v >> 32) as u8);
    out.push((v >> 24) as u8);
    out.push((v >> 16) as u8);
    out.push((v >> 8) as u8);
    out.push(v as u8);
    proof {
        assert(out@ =~= old(out)@ + be64(v));
    }
}

/// Reads a big-endian `u32` from `data` at offset `i`.
fn read_be32(data: &[u8], i: usize) -> (v: u32)
    requires
        i + 4 <= data@.len(),
    ensures
        v == be32_at(data@, i as int),
{
    ((data[i] as u32) << 24) | ((data[i + 1] as u32) << 16) | ((data[i + 2] as u32) << 8) | (data[i
        + 3] as u32)
}

/// Reads a big-endian `u64` from `data` at offset `i`.
fn read_be64(data: &[u8], i: usize) -> (v: u64)
    requires
        i + 8 <= data@.len(),
    ensures
        v == be64_at(data@, i as int),
{
    ((data[i] as u64) << 56) | ((data[i + 1] as u64) << 48) | ((data[i + 2] as u64) << 40) | ((
    data[i + 3] as u64) << 32) | ((data[i + 4] as u64) << 24) | ((data[i + 5] as u64) << 16) | ((
    data[i + 6] as u64) << 8) | (data[i + 7] as u64)
}

impl Transaction {
    /// Encodes the transaction into its fixed-length wire form.
    pub fn serialize(&self) -> (out: Vec<u8>)
        ensures
            out@ == spec_serialize(*self),
            out@.len() == (match *self {
                Transaction::Mint(_) => MINT_WIRE_LEN as int,
                Transaction::Transfer(_) => TRANSFER_WIRE_LEN as int,
            }),
    {
        let mut out: Vec<u8> = Vec::new();
        match self {
            Transaction::Mint(m) => {
                out.push(MINT_TAG);
                push_be32(&mut out, m.to);
                push_be64(&mut out, m.amount);
                push_be32(&mut out, m.gas);
            },
            Transaction::Transfer(t) => {
                out.push(TRANSFER_TAG);
                push_be32(&mut out, t.from);
                push_be32(&mut out, t.to);
                push_be64(&mut out, t.amount);
                push_be32(&mut out, t.gas);
            },
        }
        proof {
            assert(out@ =~= spec_serialize(*self));
        }
        out
    }

    /// Decodes the transaction at the front of `data`, returning it with
    /// the number of bytes consumed; the remainder of the buffer is left to
    /// the caller. Fails with `UnknownTag` on an unrecognized first byte
    /// and with `UnexpectedEnd` on a buffer shorter than the transaction it
    /// announces.
    pub fn deserialize(data: &[u8]) -> (r: Result<(Transaction, usize), DecodeError>)
        ensures
            (match r {
                Ok((tx, n)) => spec_deserialize(data@) == Ok::<(Transaction, int), DecodeError>(
                    (tx, n as int),
                ),
                Err(e) => spec_deserialize(data@) == Err::<(Transaction, int), DecodeError>(e),
            }),
    {
        let n = data.len();
        if n < 1 {
            return Err(DecodeError::UnexpectedEnd);
        }
        let tag = data[0];
        if tag == MINT_TAG {
            if n < MINT_WIRE_LEN {
                return Err(DecodeError::UnexpectedEnd);
            }
            let to = read_be32(data, 1);
            let amount = read_be64(data, 5);
            let gas = read_be32(data, 13);
            Ok((Transaction::Mint(Mint { to, amount, gas }), MINT_WIRE_LEN))
        } else if tag == TRANSFER_TAG {
            if n < TRANSFER_WIRE_LEN {
                return Err(DecodeError::UnexpectedEnd);
            }
            let from = read_be32(data, 1);
            let to = read_be32(data, 5);
            let amount = read_be64(data, 9);
            let gas = read_be32(data, 17);
            Ok((Transaction::Transfer(Transfer { from, to, amount, gas }), TRANSFER_WIRE_LEN))
        } else {
            Err(DecodeError::UnknownTag)
        }
    }
}

/// Reassembling the big-endian bytes of a `u32` gives the value back.
proof fn lemma_be32_reassemble(v: u32)
    by (bit_vector)
    ensures
        ((((v >> 24) as u8) as u32) << 24) | ((((v >> 16) as u8) as u32) << 16) | ((((v >> 8)
            as u8) as u32) << 8) | ((v as u8) as u32) == v,
{
}

/// Reassembling the big-endian bytes of a `u64` gives the value back.
proof fn lemma_be64_reassemble(v: u64)
    by (bit_vector)
    ensures
        ((((v >> 56) as u8) as u64) << 56) | ((((v >> 48) as u8) as u64) << 48) | ((((v >> 40)
            as u8) as u64) << 40) | ((((v >> 32) as u8) as u64) << 32) | ((((v >> 24) as u8) as u64)
            << 24) | ((((v >> 16) as u8) as u64) << 16) | ((((v >> 8) as u8) as u64) << 8) | ((
        v as u8) as u64) == v,
{
}

/// Round-trip law: decoding an encoded transaction, with any remainder
/// appended, yields the transaction itself and consumes exactly its
/// encoding.
pub proof fn lemma_round_trip_prefix(tx: Transaction, rest: Seq<u8>)
    ensures
        spec_deserialize(spec_serialize(tx) + rest) == Ok::<(Transaction, int), DecodeError>(
            (tx, spec_serialize(tx).len() as int),
        ),
{
    let s = spec_serialize(tx) + rest;
    match tx {
        Transaction::Mint(m) => {
            assert(s[0] == MINT_TAG);
            assert(be32_at(s, 1) == m.to) by {
                lemma_be32_reassemble(m.to);
            }
            assert(be64_at(s, 5) == m.amount) by {
                lemma_be64_reassemble(m.amount);
            }
            assert(be32_at(s, 13) == m.gas) by {
                lemma_be32_reassemble(m.gas);
            }
        },
        Transaction::Transfer(t) => {
            assert(s[0] == TRANSFER_TAG);
            assert(be32_at(s, 1) == t.from) by {
                lemma_be32_reassemble(t.from);
            }
            assert(be32_at(s, 5) == t.to) by {
                lemma_be32_reassemble(t.to);
            }
            assert(be64_at(s, 9) == t.amount) by {
                lemma_be64_reassemble(t.amount);
            }
            assert(be32_at(s, 17) == t.gas) by {
                lemma_be32_reassemble(t.gas);
            }
        },
    }
}

/// Round-trip law on exactly the encoded bytes.
pub proof fn lemma_round_trip(tx: Transaction)
    ensures
        spec_deserialize(spec_serialize(tx)) == Ok::<(Transaction, int), DecodeError>(
            (tx, spec_serialize(tx).len() as int),
        ),
{
    assert(spec_serialize(tx) + Seq::<u8>::empty() =~= spec_serialize(tx));
    lemma_round_trip_prefix(tx, Seq::<u8>::empty());
}

} // verus!
