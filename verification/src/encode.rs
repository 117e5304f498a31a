use vstd::prelude::*;

use crate::wire::opt_seq;

verus! {

/// The 32-bit pattern of a signed number.
pub open spec fn unsigned32(v: i32) -> int {
    if v < 0 {
        v + 0x1_0000_0000
    } else {
        v as int
    }
}

/// The four big-endian bytes of a 32-bit pattern.
pub open spec fn be_bytes32(v: int) -> Seq<u8> {
    seq![
        ((v / 0x100_0000) % 256) as u8,
        ((v / 0x1_0000) % 256) as u8,
        ((v / 0x100) % 256) as u8,
        (v % 256) as u8,
    ]
}

/// A byte as it is sent inside an id: the escape byte is followed by the escaped-escape byte.
pub open spec fn escaped(b: u8) -> Seq<u8> {
    if b == 0xdf {
        seq![b, 0xde]
    } else {
        seq![b]
    }
}

/// An id as it is sent: a command byte, the id's four bytes, each escaped, and an optional
/// command byte after them.
pub open spec fn id_message(id: i32, prefix: u8, suffix: Option<u8>) -> Seq<u8> {
    let b = be_bytes32(unsigned32(id));
    seq![prefix] + escaped(b[0]) + escaped(b[1]) + escaped(b[2]) + escaped(b[3]) + opt_seq(suffix)
}

pub fn unsigned_bits(v: i32) -> (u: u32)
    ensures
        u as int == unsigned32(v),
{
    if v < 0 {
        (v as i64 + 0x1_0000_0000) as u32
    } else {
        v as u32
    }
}

/// The four big-endian bytes of `v`.
pub fn be_bytes(v: u32) -> (b: [u8; 4])
    ensures
        b@ == be_bytes32(v as int),
{
    let b = [
        ((v / 0x100_0000) % 256) as u8,
        ((v / 0x1_0000) % 256) as u8,
        ((v / 0x100) % 256) as u8,
        (v % 256) as u8,
    ];
    assert(b@ =~= be_bytes32(v as int));
    b
}

fn push_escaped(buf: &mut Vec<u8>, b: u8)
    ensures
        final(buf)@ == old(buf)@ + escaped(b),
{
    buf.push(b);
    if b == 0xdf {
        buf.push(0xde);
    }
    assert(final(buf)@ =~= old(buf)@ + escaped(b));
}

fn push_opt(buf: &mut Vec<u8>, b: Option<u8>)
    ensures
        final(buf)@ == old(buf)@ + opt_seq(b),
{
    if let Some(x) = b {
        buf.push(x);
    }
    assert(final(buf)@ =~= old(buf)@ + opt_seq(b));
}

/// Appends an id as it is sent (see [`id_message`]).
pub fn push_id(buf: &mut Vec<u8>, id: i32, prefix: u8, suffix: Option<u8>)
    ensures
        final(buf)@ == old(buf)@ + id_message(id, prefix, suffix),
{
    let b = be_bytes(unsigned_bits(id));
    let ghost start = buf@;
    buf.push(prefix);
    push_escaped(buf, b[0]);
    push_escaped(buf, b[1]);
    push_escaped(buf, b[2]);
    push_escaped(buf, b[3]);
    push_opt(buf, suffix);
    assert(buf@ =~= start + id_message(id, prefix, suffix));
}

/// Appends the bytes of `src` to `buf`.
pub fn push_all(buf: &mut Vec<u8>, src: &[u8])
    ensures
        final(buf)@ == old(buf)@ + src@,
{
    let ghost start = buf@;
    let mut k: usize = 0;
    while k < src.len()
        invariant
            k <= src@.len(),
            buf@ == start + src@.subrange(0, k as int),
        decreases src@.len() - k,
    {
        buf.push(src[k]);
        k += 1;
        assert(buf@ =~= start + src@.subrange(0, k as int));
    }
    assert(src@.subrange(0, src@.len() as int) =~= src@);
}

} // verus!
