use vstd::prelude::*;
use vstd::utf8::{decode_utf8, valid_utf8};

verus! {

/// The big-endian 16-bit number at offset `i`.
pub open spec fn be16(raw: Seq<u8>, i: int) -> int {
    raw[i] as int * 256 + raw[i + 1] as int
}

/// The big-endian 32-bit number at offset `i`.
pub open spec fn be32(raw: Seq<u8>, i: int) -> int {
    be16(raw, i) * 65536 + be16(raw, i + 2)
}

/// Two's-complement reading of a 32-bit pattern.
pub open spec fn signed32(v: int) -> i32 {
    if v < 0x8000_0000 {
        v as i32
    } else {
        (v - 0x1_0000_0000) as i32
    }
}

/// Two's-complement reading of a 16-bit pattern.
pub open spec fn signed16(v: int) -> i16 {
    if v < 0x8000 {
        v as i16
    } else {
        (v - 0x1_0000) as i16
    }
}

pub fn read_be16(raw: &[u8], i: usize) -> (v: u16)
    requires
        i + 2 <= raw@.len(),
    ensures
        v as int == be16(raw@, i as int),
{
    (raw[i] as u16) * 256 + (raw[i + 1] as u16)
}

pub fn read_be32(raw: &[u8], i: usize) -> (v: u32)
    requires
        i + 4 <= raw@.len(),
    ensures
        v as int == be32(raw@, i as int),
{
    assert(raw@.len() == raw.len());
    let hi = read_be16(raw, i) as u32;
    let lo = read_be16(raw, i + 2) as u32;
    hi * 65536 + lo
}

pub fn to_signed32(v: u32) -> (r: i32)
    ensures
        r == signed32(v as int),
{
    if v < 0x8000_0000 {
        v as i32
    } else {
        (v as i64 - 0x1_0000_0000) as i32
    }
}

pub fn to_signed16(v: u16) -> (r: i16)
    ensures
        r == signed16(v as int),
{
    if v < 0x8000 {
        v as i16
    } else {
        (v as i32 - 0x1_0000) as i16
    }
}

/// `String::from_utf8`: the text that the bytes encode, or `None` where they are not UTF-8.
#[verifier::external_body]
pub fn string_from_utf8(bytes: Vec<u8>) -> (r: Option<String>)
    ensures
        r is Some <==> valid_utf8(bytes@),
        r matches Some(s) ==> s@ == decode_utf8(bytes@),
{
    String::from_utf8(bytes).ok()
}

} // verus!
