//! Byte-level model of the wire format: big-endian integer encodings and the
//! framing rule (tag byte, 4-byte big-endian length that counts itself but
//! not the tag, then the payload).

use vstd::prelude::*;

verus! {

/// Two's-complement bit pattern of a signed 32-bit value, as an unsigned one.
pub open spec fn u32_of_i32(x: i32) -> u32 {
    if x >= 0 {
        x as u32
    } else {
        (x + 0x1_0000_0000) as u32
    }
}

/// Inverse of [`u32_of_i32`].
pub open spec fn i32_of_u32(x: u32) -> i32 {
    if x <= 0x7fff_ffff {
        x as i32
    } else {
        (x - 0x1_0000_0000) as i32
    }
}

/// Two's-complement bit pattern of a signed 16-bit value, as an unsigned one.
pub open spec fn u16_of_i16(x: i16) -> u16 {
    if x >= 0 {
        x as u16
    } else {
        (x + 0x1_0000) as u16
    }
}

/// Inverse of [`u16_of_i16`].
pub open spec fn i16_of_u16(x: u16) -> i16 {
    if x <= 0x7fff {
        x as i16
    } else {
        (x - 0x1_0000) as i16
    }
}

/// The four bytes of an unsigned 32-bit value, most significant first.
pub open spec fn u32_be_bytes(x: u32) -> Seq<u8> {
    seq![
        ((x >> 24) & 0xff) as u8,
        ((x >> 16) & 0xff) as u8,
        ((x >> 8) & 0xff) as u8,
        (x & 0xff) as u8,
    ]
}

/// The unsigned 32-bit value read from four bytes, most significant first.
pub open spec fn u32_from_be(b0: u8, b1: u8, b2: u8, b3: u8) -> u32 {
    ((b0 as u32) << 24) | ((b1 as u32) << 16) | ((b2 as u32) << 8) | (b3 as u32)
}

/// The four bytes of a signed 32-bit value, most significant first.
pub open spec fn i32_be_bytes(x: i32) -> Seq<u8> {
    u32_be_bytes(u32_of_i32(x))
}

/// The signed 32-bit value read from four bytes, most significant first.
pub open spec fn i32_from_be(b0: u8, b1: u8, b2: u8, b3: u8) -> i32 {
    i32_of_u32(u32_from_be(b0, b1, b2, b3))
}

/// The two bytes of a signed 16-bit value, most significant first.
pub open spec fn i16_be_bytes(x: i16) -> Seq<u8> {
    seq![((u16_of_i16(x) >> 8) & 0xff) as u8, (u16_of_i16(x) & 0xff) as u8]
}

/// The signed 16-bit value read from two bytes, most significant first.
pub open spec fn i16_from_be(b0: u8, b1: u8) -> i16 {
    i16_of_u16(((b0 as u16) << 8) | (b1 as u16))
}

pub proof fn lemma_u32_be_round_trip(x: u32)
    ensures
        u32_from_be(
            u32_be_bytes(x)[0],
            u32_be_bytes(x)[1],
            u32_be_bytes(x)[2],
            u32_be_bytes(x)[3],
        ) == x,
{
    assert((((((x >> 24) & 0xff) as u8) as u32) << 24) | (((((x >> 16) & 0xff) as u8) as u32)
        << 16) | (((((x >> 8) & 0xff) as u8) as u32) << 8) | (((x & 0xff) as u8) as u32) == x)
        by (bit_vector);
}

pub proof fn lemma_i32_be_round_trip(x: i32)
    ensures
        i32_from_be(
            i32_be_bytes(x)[0],
            i32_be_bytes(x)[1],
            i32_be_bytes(x)[2],
            i32_be_bytes(x)[3],
        ) == x,
{
    let u = u32_of_i32(x);
    lemma_u32_be_round_trip(u);
    assert(i32_of_u32(u) == x);
}

/// One complete protocol message: tag byte, big-endian length counting
/// itself and the payload but not the tag, then the payload.
pub open spec fn frame_bytes(tag: u8, payload: Seq<u8>) -> Seq<u8> {
    seq![tag] + i32_be_bytes((payload.len() + 4) as i32) + payload
}

/// Reading one frame back from a byte sequence: the tag, then as many
/// payload bytes as the declared length promises.  Fails on a truncated
/// buffer or a nonsensical length.
pub open spec fn decode_frame(b: Seq<u8>) -> Option<(u8, Seq<u8>)> {
    if b.len() >= 5 {
        let n = i32_from_be(b[1], b[2], b[3], b[4]);
        if 4 <= n && n - 4 <= b.len() - 5 {
            Some((b[0], b.subrange(5, 5 + (n - 4))))
        } else {
            None
        }
    } else {
        None
    }
}

/// Frame round trip: decoding an encoded frame reproduces the exact tag and
/// payload bytes that were encoded.
pub proof fn lemma_frame_round_trip(tag: u8, payload: Seq<u8>)
    requires
        payload.len() + 4 <= 0x7fff_ffff,
    ensures
        decode_frame(frame_bytes(tag, payload)) == Some((tag, payload)),
{
    let b = frame_bytes(tag, payload);
    let n: i32 = (payload.len() + 4) as i32;
    let len_bytes = i32_be_bytes(n);
    assert(b.len() == 5 + payload.len());
    assert(b[0] == tag);
    assert(b[1] == len_bytes[0]);
    assert(b[2] == len_bytes[1]);
    assert(b[3] == len_bytes[2]);
    assert(b[4] == len_bytes[3]);
    lemma_i32_be_round_trip(n);
    assert(i32_from_be(b[1], b[2], b[3], b[4]) == n);
    assert(b.subrange(5, 5 + (n - 4)) =~= payload);
}

} // verus!
