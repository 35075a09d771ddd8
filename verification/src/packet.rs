//! Frame codec: a bounds-checked reader over one inbound buffer, and a
//! builder that accumulates a payload for one tagged outbound frame.
//!
//! Every read is checked against the bytes that are actually buffered; a
//! read past the end is a framing failure reported as an error value, never
//! a short read and never a panic.

use vstd::prelude::*;

use crate::wire::{frame_bytes, i16_be_bytes, i16_from_be, i32_be_bytes, i32_from_be, u16_of_i16,
    u32_of_i32, u32_from_be};

verus! {

/// Failures of the framing layer and of the startup handshake.
#[derive(Clone, Copy, Debug, PartialEq, Eq, Structural)]
pub enum WireError {
    /// A read asked for more bytes than the buffer holds.
    FrameTooShort,
    /// The startup packet is malformed: too short, or its declared length
    /// does not match the bytes available.
    ProtocolViolation,
    /// The startup packet asks for a protocol major version other than 3.
    UnsupportedProtocolVersion,
}

/// Cursor over one received buffer.
pub struct PacketReader {
    index: usize,
    buffer: Vec<u8>,
}

/// Accumulates the payload of one outbound frame, finalized by [`PacketBuilder::build`].
pub struct PacketBuilder {
    prefix: u8,
    buffer: Vec<u8>,
}

impl PacketReader {
    /// The buffered bytes.
    pub closed spec fn bytes(self) -> Seq<u8> {
        self.buffer@
    }

    /// The cursor position.
    pub closed spec fn pos(self) -> int {
        self.index as int
    }

    pub open spec fn wf(self) -> bool {
        0 <= self.pos() <= self.bytes().len() <= 0x7fff_ffff
    }

    pub fn new(buf: &[u8]) -> (r: PacketReader)
        requires
            buf@.len() <= 0x7fff_ffff,
        ensures
            r.wf(),
            r.bytes() == buf@,
            r.pos() == 0,
    {
        let mut v: Vec<u8> = Vec::new();
        push_bytes(&mut v, buf);
        PacketReader { index: 0, buffer: v }
    }

    /// Advance the cursor by `i` bytes without producing a value.
    pub fn shift(&mut self, i: i32)
        requires
            old(self).wf(),
            0 <= i,
            old(self).pos() + i <= old(self).bytes().len(),
        ensures
            final(self).wf(),
            final(self).bytes() == old(self).bytes(),
            final(self).pos() == old(self).pos() + i,
    {
        self.index = self.index + (i as usize);
    }

    /// The next `length` bytes, verbatim, without advancing the cursor;
    /// `FrameTooShort` if fewer remain.
    pub fn read(&self, length: i32) -> (r: Result<Vec<u8>, WireError>)
        requires
            self.wf(),
            0 <= length,
        ensures
            r is Ok <==> self.pos() + length <= self.bytes().len(),
            match r {
                Ok(bytes) => bytes@ == self.bytes().subrange(self.pos(), self.pos() + length),
                Err(e) => e is FrameTooShort,
            },
    {
        let len_u: usize = length as usize;
        if len_u <= self.buffer.len() - self.index {
            let mut out: Vec<u8> = Vec::new();
            let mut j: usize = 0;
            while j < len_u
                invariant
                    self.wf(),
                    self.index + len_u <= self.bytes().len(),
                    j <= len_u,
                    out@ == self.bytes().subrange(self.pos(), self.pos() + j),
                decreases len_u - j,
            {
                out.push(self.buffer[self.index + j]);
                proof {
                    assert(self.bytes().subrange(self.pos(), self.pos() + j + 1) =~= self.bytes()
                        .subrange(self.pos(), self.pos() + j)
                        .push(self.bytes()[self.pos() + j]));
                }
                j = j + 1;
            }
            Ok(out)
        } else {
            Err(WireError::FrameTooShort)
        }
    }

    /// [`PacketReader::read`], then advance past what was read.
    pub fn read_shift(&mut self, length: i32) -> (r: Result<Vec<u8>, WireError>)
        requires
            old(self).wf(),
            0 <= length,
        ensures
            final(self).wf(),
            final(self).bytes() == old(self).bytes(),
            r is Ok <==> old(self).pos() + length <= old(self).bytes().len(),
            match r {
                Ok(bytes) => bytes@ == old(self).bytes().subrange(
                    old(self).pos(),
                    old(self).pos() + length,
                ) && final(self).pos() == old(self).pos() + length,
                Err(e) => e is FrameTooShort && final(self).pos() == old(self).pos(),
            },
    {
        match self.read(length) {
            Ok(bytes) => {
                self.shift(length);
                Ok(bytes)
            },
            Err(e) => Err(e),
        }
    }

    /// The next four bytes as a signed big-endian integer, without
    /// advancing the cursor.
    pub fn read_i32_be(&self) -> (r: Result<i32, WireError>)
        requires
            self.wf(),
        ensures
            r is Ok <==> self.pos() + 4 <= self.bytes().len(),
            match r {
                Ok(v) => v == i32_from_be(
                    self.bytes()[self.pos()],
                    self.bytes()[self.pos() + 1],
                    self.bytes()[self.pos() + 2],
                    self.bytes()[self.pos() + 3],
                ),
                Err(e) => e is FrameTooShort,
            },
    {
        if self.buffer.len() - self.index >= 4 {
            let i: usize = self.index;
            let b0: u8 = self.buffer[i];
            let b1: u8 = self.buffer[i + 1];
            let b2: u8 = self.buffer[i + 2];
            let b3: u8 = self.buffer[i + 3];
            let u: u32 = ((b0 as u32) << 24) | ((b1 as u32) << 16) | ((b2 as u32) << 8) | (
            b3 as u32);
            let v: i32 = if u <= 0x7fff_ffff {
                u as i32
            } else {
                ((u as i64) - 0x1_0000_0000i64) as i32
            };
            Ok(v)
        } else {
            Err(WireError::FrameTooShort)
        }
    }

    /// The next two bytes as a signed big-endian integer, without advancing
    /// the cursor.
    pub fn read_i16_be(&self) -> (r: Result<i16, WireError>)
        requires
            self.wf(),
        ensures
            r is Ok <==> self.pos() + 2 <= self.bytes().len(),
            match r {
                Ok(v) => v == i16_from_be(self.bytes()[self.pos()], self.bytes()[self.pos() + 1]),
                Err(e) => e is FrameTooShort,
            },
    {
        if self.buffer.len() - self.index >= 2 {
            let i: usize = self.index;
            let b0: u8 = self.buffer[i];
            let b1: u8 = self.buffer[i + 1];
            let u: u16 = ((b0 as u16) << 8) | (b1 as u16);
            let v: i16 = if u <= 0x7fff {
                u as i16
            } else {
                ((u as i32) - 0x1_0000i32) as i16
            };
            Ok(v)
        } else {
            Err(WireError::FrameTooShort)
        }
    }

    /// [`PacketReader::read_i32_be`], then advance past the four bytes.
    pub fn read_i32_shift(&mut self) -> (r: Result<i32, WireError>)
        requires
            old(self).wf(),
        ensures
            final(self).wf(),
            final(self).bytes() == old(self).bytes(),
            r is Ok <==> old(self).pos() + 4 <= old(self).bytes().len(),
            match r {
                Ok(v) => v == i32_from_be(
                    old(self).bytes()[old(self).pos()],
                    old(self).bytes()[old(self).pos() + 1],
                    old(self).bytes()[old(self).pos() + 2],
                    old(self).bytes()[old(self).pos() + 3],
                ) && final(self).pos() == old(self).pos() + 4,
                Err(e) => e is FrameTooShort && final(self).pos() == old(self).pos(),
            },
    {
        match self.read_i32_be() {
            Ok(v) => {
                self.shift(4);
                Ok(v)
            },
            Err(e) => Err(e),
        }
    }

    /// [`PacketReader::read_i16_be`], then advance past the two bytes.
    pub fn read_i16_shift(&mut self) -> (r: Result<i16, WireError>)
        requires
            old(self).wf(),
        ensures
            final(self).wf(),
            final(self).bytes() == old(self).bytes(),
            r is Ok <==> old(self).pos() + 2 <= old(self).bytes().len(),
            match r {
                Ok(v) => v == i16_from_be(
                    old(self).bytes()[old(self).pos()],
                    old(self).bytes()[old(self).pos() + 1],
                ) && final(self).pos() == old(self).pos() + 2,
                Err(e) => e is FrameTooShort && final(self).pos() == old(self).pos(),
            },
    {
        match self.read_i16_be() {
            Ok(v) => {
                self.shift(2);
                Ok(v)
            },
            Err(e) => Err(e),
        }
    }

    /// The total number of buffered bytes.
    pub fn len(&self) -> (r: i32)
        requires
            self.wf(),
        ensures
            r == self.bytes().len(),
    {
        self.buffer.len() as i32
    }
}

/// Append every byte of `src` to `dst`.
pub(crate) fn push_bytes(dst: &mut Vec<u8>, src: &[u8])
    ensures
        final(dst)@ == old(dst)@ + src@,
{
    let ghost dst0: Seq<u8> = dst@;
    let mut j: usize = 0;
    while j < src.len()
        invariant
            j <= src@.len(),
            dst@ == dst0 + src@.subrange(0, j as int),
        decreases src@.len() - j,
    {
        dst.push(src[j]);
        proof {
            assert(dst0 + src@.subrange(0, j + 1) =~= (dst0 + src@.subrange(0, j as int)).push(
                src@[j as int],
            ));
        }
        j = j + 1;
    }
    proof {
        assert(dst0 + src@.subrange(0, src@.len() as int) =~= dst0 + src@);
    }
}

/// The four big-endian bytes of a signed 32-bit value.
fn i32_to_4u8(i: i32) -> (r: Vec<u8>)
    ensures
        r@ == i32_be_bytes(i),
{
    let u: u32 = if i >= 0 {
        i as u32
    } else {
        ((i as i64) + 0x1_0000_0000i64) as u32
    };
    proof {
        assert(u == u32_of_i32(i));
        assert((u >> 24) & 0xff < 256 && (u >> 16) & 0xff < 256 && (u >> 8) & 0xff < 256 && u & 0xff
            < 256) by (bit_vector);
    }
    let mut r: Vec<u8> = Vec::new();
    r.push(((u >> 24) & 0xff) as u8);
    r.push(((u >> 16) & 0xff) as u8);
    r.push(((u >> 8) & 0xff) as u8);
    r.push((u & 0xff) as u8);
    proof {
        assert(r@ =~= i32_be_bytes(i));
    }
    r
}

/// The two big-endian bytes of a signed 16-bit value.
fn i16_to_2u8(i: i16) -> (r: Vec<u8>)
    ensures
        r@ == i16_be_bytes(i),
{
    let u: u16 = if i >= 0 {
        i as u16
    } else {
        ((i as i32) + 0x1_0000i32) as u16
    };
    proof {
        assert(u == u16_of_i16(i));
        assert((u >> 8) & 0xff < 256 && u & 0xff < 256) by (bit_vector);
    }
    let mut r: Vec<u8> = Vec::new();
    r.push(((u >> 8) & 0xff) as u8);
    r.push((u & 0xff) as u8);
    proof {
        assert(r@ =~= i16_be_bytes(i));
    }
    r
}

impl PacketBuilder {
    /// The message tag the frame will carry.
    pub closed spec fn tag(self) -> u8 {
        self.prefix
    }

    /// The payload accumulated so far.
    pub closed spec fn payload(self) -> Seq<u8> {
        self.buffer@
    }

    /// The payload, together with the length field, must fit the signed
    /// 32-bit length encoding.
    pub open spec fn wf(self) -> bool {
        self.payload().len() + 4 <= 0x7fff_ffff
    }

    pub fn new(prefix: u8) -> (r: PacketBuilder)
        ensures
            r.tag() == prefix,
            r.payload() == Seq::<u8>::empty(),
            r.wf(),
    {
        PacketBuilder { prefix, buffer: Vec::new() }
    }

    /// Append a big-endian signed 32-bit value.
    pub fn add_i32(&mut self, i: i32)
        requires
            old(self).payload().len() + 8 <= 0x7fff_ffff,
        ensures
            final(self).tag() == old(self).tag(),
            final(self).payload() == old(self).payload() + i32_be_bytes(i),
            final(self).wf(),
    {
        let mut b = i32_to_4u8(i);
        self.buffer.append(&mut b);
    }

    /// Append a big-endian signed 16-bit value.
    pub fn add_i16(&mut self, i: i16)
        requires
            old(self).payload().len() + 6 <= 0x7fff_ffff,
        ensures
            final(self).tag() == old(self).tag(),
            final(self).payload() == old(self).payload() + i16_be_bytes(i),
            final(self).wf(),
    {
        let mut b = i16_to_2u8(i);
        self.buffer.append(&mut b);
    }

    /// Append a single raw byte.
    pub fn add_i1(&mut self, i: u8)
        requires
            old(self).payload().len() + 5 <= 0x7fff_ffff,
        ensures
            final(self).tag() == old(self).tag(),
            final(self).payload() == old(self).payload().push(i),
            final(self).wf(),
    {
        self.buffer.push(i);
    }

    /// Append a byte string with no terminator.
    pub fn add_string(&mut self, string: &[u8])
        requires
            old(self).payload().len() + string@.len() + 4 <= 0x7fff_ffff,
        ensures
            final(self).tag() == old(self).tag(),
            final(self).payload() == old(self).payload() + string@,
            final(self).wf(),
    {
        push_bytes(&mut self.buffer, string);
    }

    /// Append a null-terminated byte string.
    pub fn add_string_zero(&mut self, string: &[u8])
        requires
            old(self).payload().len() + string@.len() + 5 <= 0x7fff_ffff,
        ensures
            final(self).tag() == old(self).tag(),
            final(self).payload() == old(self).payload() + string@ + seq![0u8],
            final(self).wf(),
    {
        push_bytes(&mut self.buffer, string);
        self.buffer.push(0);
        proof {
            assert(old(self).payload() + string@ + seq![0u8] =~= (old(self).payload()
                + string@).push(0u8));
        }
    }

    /// Emit the complete frame: tag, big-endian length equal to four plus
    /// the payload length, then the payload.
    pub fn build(&mut self) -> (r: Vec<u8>)
        requires
            old(self).wf(),
        ensures
            r@ == frame_bytes(old(self).tag(), old(self).payload()),
    {
        let mut out: Vec<u8> = Vec::new();
        out.push(self.prefix);
        let n: i32 = (self.buffer.len() + 4) as i32;
        let mut lenb = i32_to_4u8(n);
        out.append(&mut lenb);
        out.append(&mut self.buffer);
        proof {
            assert(out@ =~= frame_bytes(old(self).tag(), old(self).payload()));
        }
        out
    }
}

/// Does the buffer hold a startup packet whose declared length matches the
/// bytes available?
pub open spec fn startup_len_ok(b: Seq<u8>) -> bool {
    b.len() >= 8 && i32_from_be(b[0], b[1], b[2], b[3]) as int == b.len() as int
}

/// Does the startup packet ask for protocol major version 3?
pub open spec fn startup_version_ok(b: Seq<u8>) -> bool {
    b.len() >= 6 && i16_from_be(b[4], b[5]) as int == 3
}

/// A startup packet the gateway accepts: well-framed and major version 3.
pub open spec fn startup_accepts(b: Seq<u8>) -> bool {
    startup_len_ok(b) && startup_version_ok(b)
}

/// Decode the untagged startup message: total length, protocol major and
/// minor version.  Trailing key/value parameters are ignored.  Fails with
/// `ProtocolViolation` when the declared length does not match the bytes
/// available, and with `UnsupportedProtocolVersion` when the major version
/// is not 3; either failure is fatal to the connection.
pub fn read_start_up_packet(reader: &mut PacketReader) -> (r: Result<(), WireError>)
    requires
        old(reader).wf(),
        old(reader).pos() == 0,
    ensures
        final(reader).wf(),
        final(reader).bytes() == old(reader).bytes(),
        r is Ok <==> startup_accepts(old(reader).bytes()),
        r is Ok ==> final(reader).pos() == 8,
        !startup_len_ok(old(reader).bytes()) ==> r == Err::<(), WireError>(
            WireError::ProtocolViolation,
        ),
        startup_len_ok(old(reader).bytes()) && !startup_version_ok(old(reader).bytes()) ==> r
            == Err::<(), WireError>(WireError::UnsupportedProtocolVersion),
    {
    let total: i32 = reader.len();
    if total < 8 {
        return Err(WireError::ProtocolViolation);
    }
    let declared: i32 = match reader.read_i32_shift() {
        Ok(v) => v,
        Err(_) => {
            return Err(WireError::ProtocolViolation);
        },
    };
    let major: i16 = match reader.read_i16_shift() {
        Ok(v) => v,
        Err(_) => {
            return Err(WireError::ProtocolViolation);
        },
    };
    let _minor: i16 = match reader.read_i16_shift() {
        Ok(v) => v,
        Err(_) => {
            return Err(WireError::ProtocolViolation);
        },
    };
    if declared != total {
        return Err(WireError::ProtocolViolation);
    }
    if major != 3 {
        return Err(WireError::UnsupportedProtocolVersion);
    }
    Ok(())
}

/// Read the one-byte message tag.
pub fn read_header(reader: &mut PacketReader) -> (r: Result<u8, WireError>)
    requires
        old(reader).wf(),
    ensures
        final(reader).wf(),
        final(reader).bytes() == old(reader).bytes(),
        r is Ok <==> old(reader).pos() + 1 <= old(reader).bytes().len(),
        match r {
            Ok(t) => t == old(reader).bytes()[old(reader).pos()] && final(reader).pos() == old(
                reader).pos() + 1,
            Err(e) => e is FrameTooShort && final(reader).pos() == old(reader).pos(),
        },
{
    match reader.read_shift(1) {
        Ok(bytes) => Ok(bytes[0]),
        Err(e) => Err(e),
    }
}

/// Can a query body be read at position `p`: four length bytes must be
/// buffered, and the query text the length promises must be too.
pub open spec fn query_read_ok(b: Seq<u8>, p: int) -> bool {
    &&& p + 4 <= b.len()
    &&& {
        let l = i32_from_be(b[p], b[p + 1], b[p + 2], b[p + 3]);
        l < 5 || p + 4 + (l - 5) <= b.len()
    }
}

/// The query text: the payload bytes the declared length promises, up to
/// (not including) the terminating null counted by that length.
pub open spec fn query_bytes(b: Seq<u8>, p: int) -> Seq<u8> {
    let l = i32_from_be(b[p], b[p + 1], b[p + 2], b[p + 3]);
    if l < 5 {
        Seq::empty()
    } else {
        b.subrange(p + 4, p + 4 + (l - 5))
    }
}

/// Read the declared length of a query message, then its text.
pub fn read_query(reader: &mut PacketReader) -> (r: Result<Vec<u8>, WireError>)
    requires
        old(reader).wf(),
    ensures
        final(reader).wf(),
        final(reader).bytes() == old(reader).bytes(),
        r is Ok <==> query_read_ok(old(reader).bytes(), old(reader).pos()),
        match r {
            Ok(q) => q@ == query_bytes(old(reader).bytes(), old(reader).pos()) && final(
                reader).pos() == old(reader).pos() + 4,
            Err(e) => e is FrameTooShort,
        },
{
    let l: i32 = match reader.read_i32_shift() {
        Ok(v) => v,
        Err(e) => {
            return Err(e);
        },
    };
    if l < 5 {
        return Ok(Vec::new());
    }
    reader.read(l - 5)
}

} // verus!
