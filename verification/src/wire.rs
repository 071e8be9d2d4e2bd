//! Big-endian integer primitives shared by every codec level.
//!
//! A decoder walks a shared byte buffer with an explicit position; a reader
//! returns the value together with the position just past it, or
//! `Error::IoError` when the buffer ends too early. An encoder appends to a
//! growing byte vector.
use vstd::prelude::*;

use crate::Error;

verus! {

/// The big-endian bytes of a 16-bit value, most significant first.
pub open spec fn be16_bytes(v: u16) -> Seq<u8> {
    seq![(v / 256) as u8, (v % 256) as u8]
}

/// The big-endian bytes of a 32-bit value, most significant first.
pub open spec fn be32_bytes(v: u32) -> Seq<u8> {
    seq![
        (v / 0x1000000) as u8,
        ((v / 0x10000) % 256) as u8,
        ((v / 256) % 256) as u8,
        (v % 256) as u8,
    ]
}

/// The 16-bit value read big-endian from two bytes.
pub open spec fn be16_val(b0: u8, b1: u8) -> u16 {
    (b0 as u16 * 256 + b1 as u16) as u16
}

/// The 32-bit value read big-endian from four bytes.
pub open spec fn be32_val(b0: u8, b1: u8, b2: u8, b3: u8) -> u32 {
    (b0 as u32 * 0x1000000 + b1 as u32 * 0x10000 + b2 as u32 * 256 + b3 as u32) as u32
}

/// Reading back the two big-endian bytes of a 16-bit value restores it.
pub proof fn lemma_be16_roundtrip(v: u16)
    ensures
        be16_val((v / 256) as u8, (v % 256) as u8) == v,
        be16_bytes(v).len() == 2,
        be16_val(be16_bytes(v)[0], be16_bytes(v)[1]) == v,
{
}

/// Reading back the four big-endian bytes of a 32-bit value restores it.
pub proof fn lemma_be32_roundtrip(v: u32)
    ensures
        be32_bytes(v).len() == 4,
        be32_val(be32_bytes(v)[0], be32_bytes(v)[1], be32_bytes(v)[2], be32_bytes(v)[3]) == v,
{
    assert(v == (v / 0x1000000) * 0x1000000 + ((v / 0x10000) % 256) * 0x10000 + ((v / 256) % 256)
        * 256 + v % 256) by (nonlinear_arith);
}

pub fn read_u8(data: &[u8], pos: usize) -> (r: Result<(u8, usize), Error>)
    ensures
        match r {
            Ok(t) => pos < data@.len() && t.0 == data@[pos as int] && t.1 == pos + 1,
            Err(e) => pos >= data@.len() && e == Error::IoError,
        },
{
    if pos < data.len() {
        Ok((data[pos], pos + 1))
    } else {
        Err(Error::IoError)
    }
}

pub fn read_u16(data: &[u8], pos: usize) -> (r: Result<(u16, usize), Error>)
    ensures
        match r {
            Ok(t) => pos + 2 <= data@.len() && t.0 == be16_val(
                data@[pos as int],
                data@[pos + 1],
            ) && t.1 == pos + 2,
            Err(e) => pos + 2 > data@.len() && e == Error::IoError,
        },
{
    if data.len() >= 2 && pos <= data.len() - 2 {
        let b0 = data[pos];
        let b1 = data[pos + 1];
        Ok(((b0 as u16) * 256 + (b1 as u16), pos + 2))
    } else {
        Err(Error::IoError)
    }
}

pub fn read_u32(data: &[u8], pos: usize) -> (r: Result<(u32, usize), Error>)
    ensures
        match r {
            Ok(t) => pos + 4 <= data@.len() && t.0 == be32_val(
                data@[pos as int],
                data@[pos + 1],
                data@[pos + 2],
                data@[pos + 3],
            ) && t.1 == pos + 4,
            Err(e) => pos + 4 > data@.len() && e == Error::IoError,
        },
{
    if data.len() >= 4 && pos <= data.len() - 4 {
        let b0 = data[pos];
        let b1 = data[pos + 1];
        let b2 = data[pos + 2];
        let b3 = data[pos + 3];
        Ok(
            ((b0 as u32) * 0x1000000 + (b1 as u32) * 0x10000 + (b2 as u32) * 256 + (b3 as u32),
            pos + 4),
        )
    } else {
        Err(Error::IoError)
    }
}

/// The decimal digits of a number, most significant first, as ASCII bytes.
pub open spec fn dec_bytes(n: nat) -> Seq<u8>
    decreases n,
{
    if n < 10 {
        seq![(48 + n) as u8]
    } else {
        dec_bytes(n / 10).push((48 + n % 10) as u8)
    }
}

/// Appends the decimal digits of a value.
pub fn push_dec(out: &mut Vec<u8>, v: u16)
    ensures
        final(out)@ == old(out)@ + dec_bytes(v as nat),
    decreases v,
{
    if v >= 10 {
        push_dec(out, v / 10);
    }
    out.push(48 + (v % 10) as u8);
    proof {
        assert(out@ =~= old(out)@ + dec_bytes(v as nat));
    }
}

/// Decimal digits are always ASCII.
pub proof fn lemma_dec_bytes_ascii(n: nat)
    ensures
        forall|i: int| 0 <= i < dec_bytes(n).len() ==> #[trigger] dec_bytes(n)[i] < 128,
    decreases n,
{
    if n < 10 {
        assert(dec_bytes(n)[0] == (48 + n) as u8);
    } else {
        lemma_dec_bytes_ascii(n / 10);
        let prev = dec_bytes(n / 10);
        assert forall|i: int| 0 <= i < dec_bytes(n).len() implies #[trigger] dec_bytes(n)[i]
            < 128 by {
            if i < prev.len() {
                assert(dec_bytes(n)[i] == prev[i]);
            } else {
                assert(dec_bytes(n)[i] == (48 + n % 10) as u8);
            }
        }
    }
}

pub fn push_u8(out: &mut Vec<u8>, v: u8)
    ensures
        final(out)@ == old(out)@ + seq![v],
{
    out.push(v);
    proof {
        assert(out@ =~= old(out)@ + seq![v]);
    }
}

pub fn push_u16(out: &mut Vec<u8>, v: u16)
    ensures
        final(out)@ == old(out)@ + be16_bytes(v),
{
    out.push((v / 256) as u8);
    out.push((v % 256) as u8);
    proof {
        assert(out@ =~= old(out)@ + be16_bytes(v));
    }
}

pub fn push_u32(out: &mut Vec<u8>, v: u32)
    ensures
        final(out)@ == old(out)@ + be32_bytes(v),
{
    out.push((v / 0x1000000) as u8);
    out.push(((v / 0x10000) % 256) as u8);
    out.push(((v / 256) % 256) as u8);
    out.push((v % 256) as u8);
    proof {
        assert(out@ =~= old(out)@ + be32_bytes(v));
    }
}

} // verus!
