//! Reading XDR-encoded values: big-endian numbers, and byte strings padded to a
//! multiple of four.

use vstd::prelude::*;

use crate::compound::{be32, be64};
use crate::path::copy_bytes;

verus! {

/// The 32-bit number at `off`.
pub open spec fn u32_at(buf: Seq<u8>, off: int) -> u32 {
    (buf[off] * 0x100_0000 + buf[off + 1] * 0x1_0000 + buf[off + 2] * 0x100 + buf[off + 3]) as u32
}

/// The 64-bit number at `off`.
pub open spec fn u64_at(buf: Seq<u8>, off: int) -> u64 {
    (u32_at(buf, off) * 0x1_0000_0000 + u32_at(buf, off + 4)) as u64
}

/// Reads a 32-bit number and moves on; nothing happens where the bytes end.
pub fn read_u32(buf: &[u8], off: &mut usize) -> (r: Option<u32>)
    ensures
        r is Some <==> *old(off) + 4 <= buf@.len(),
        r is Some ==> r->0 == u32_at(buf@, *old(off) as int) && *final(off) == *old(off) + 4,
        r is None ==> *final(off) == *old(off),
{
    let at: usize = *off;
    if buf.len() < 4 || at > buf.len() - 4 {
        return None;
    }
    let v: u32 = buf[at] as u32 * 0x100_0000 + buf[at + 1] as u32 * 0x1_0000 + buf[at + 2] as u32
        * 0x100 + buf[at + 3] as u32;
    *off = at + 4;
    Some(v)
}

/// Reads a 64-bit number and moves on; nothing happens where the bytes end.
pub fn read_u64(buf: &[u8], off: &mut usize) -> (r: Option<u64>)
    ensures
        r is Some <==> *old(off) + 8 <= buf@.len(),
        r is Some ==> r->0 == u64_at(buf@, *old(off) as int) && *final(off) == *old(off) + 8,
        r is None ==> *final(off) == *old(off),
{
    let at: usize = *off;
    if buf.len() < 8 || at > buf.len() - 8 {
        return None;
    }
    let mut here: usize = at;
    let hi: u32 = match read_u32(buf, &mut here) {
        Some(v) => v,
        None => 0,
    };
    let lo: u32 = match read_u32(buf, &mut here) {
        Some(v) => v,
        None => 0,
    };
    *off = here;
    Some(hi as u64 * 0x1_0000_0000 + lo as u64)
}

/// The number of bytes that a string of `len` takes with its padding.
pub open spec fn padded(len: int) -> int {
    (len + 3) / 4 * 4
}

/// A position limited to what a `usize` holds; beyond the end either way.
pub open spec fn position(v: int) -> int {
    if v > usize::MAX {
        usize::MAX as int
    } else {
        v
    }
}

/// Reads a byte string with its length, and moves on past its padding. The
/// padding of a last string may be cut off. Nothing happens where the bytes
/// end before the string does.
pub fn read_opaque(buf: &[u8], off: &mut usize) -> (r: Option<Vec<u8>>)
    ensures
        r is Some <==> *old(off) + 4 <= buf@.len() && *old(off) + 4 + u32_at(
            buf@,
            *old(off) as int,
        ) <= buf@.len(),
        r is Some ==> {
            let len = u32_at(buf@, *old(off) as int) as int;
            &&& r->0@ == buf@.subrange(*old(off) + 4, *old(off) + 4 + len)
            &&& *final(off) == position(*old(off) + 4 + padded(len))
        },
        r is None ==> *final(off) == *old(off),
{
    let at: usize = *off;
    let mut here: usize = at;
    let len: u32 = match read_u32(buf, &mut here) {
        Some(v) => v,
        None => {
            return None;
        },
    };
    if len as usize > buf.len() - here {
        return None;
    }
    let data = copy_bytes(&buf[here..here + len as usize]);
    let fill: usize = if len % 4 == 0 {
        0
    } else {
        (4 - len % 4) as usize
    };
    *off = (here + len as usize).saturating_add(fill);
    Some(data)
}

/// Reading gives back the 32-bit number that was encoded.
pub proof fn law_be32_reads_back(v: u32)
    ensures
        u32_at(be32(v), 0) == v,
        be32(v).len() == 4,
{
    let a = v / 0x100_0000;
    let b = (v / 0x1_0000) % 0x100;
    let c = (v / 0x100) % 0x100;
    let d = v % 0x100;
    assert(v == a * 0x100_0000 + b * 0x1_0000 + c * 0x100 + d);
}

/// Reading gives back the 64-bit number that was encoded.
pub proof fn law_be64_reads_back(v: u64)
    ensures
        u64_at(be64(v), 0) == v,
        be64(v).len() == 8,
{
    let hi = (v / 0x1_0000_0000) as u32;
    let lo = (v % 0x1_0000_0000) as u32;
    law_be32_reads_back(hi);
    law_be32_reads_back(lo);
    let s = be64(v);
    assert(s[0] == be32(hi)[0] && s[1] == be32(hi)[1] && s[2] == be32(hi)[2] && s[3] == be32(
        hi,
    )[3]);
    assert(s[4] == be32(lo)[0] && s[5] == be32(lo)[1] && s[6] == be32(lo)[2] && s[7] == be32(
        lo,
    )[3]);
    assert(u32_at(s, 0) == u32_at(be32(hi), 0));
    assert(u32_at(s, 4) == u32_at(be32(lo), 0));
}

} // verus!
