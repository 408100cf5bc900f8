//! The wire layer: a bounds-checked sequential byte reader, the closed set of
//! decode errors, and the contract every record-type decoder implements.

use vstd::prelude::*;

verus! {

/// Why decoding a record failed.
///
/// The set is closed: every internal failure of a decoder maps onto one of
/// these variants, and no partially-decoded value is ever returned beside one.
#[derive(PartialEq, Eq, Structural, Debug)]
pub enum WireError {
    /// Fewer bytes remained in the buffer than a read required.
    IO,

    /// The number of bytes a decoder consumed disagrees with the length
    /// declared in the record header; both values are kept for diagnostics.
    WrongLabelLength { expected: u16, got: u16 },
}

/// A read-only byte buffer together with a current read offset.
///
/// Every decoder reads through a cursor and never indexes the buffer itself,
/// so this type is the single place where bounds are checked.  The offset
/// never exceeds the buffer length; a successful read advances it by exactly
/// the number of bytes consumed, and a failed read leaves it where it was.
pub struct Cursor<'a> {
    buf: &'a [u8],
    pos: usize,
}

impl<'a> Cursor<'a> {
    /// The backing bytes, as a mathematical sequence.
    pub closed spec fn spec_bytes(self) -> Seq<u8> {
        self.buf@
    }

    /// The current read offset.
    pub closed spec fn spec_pos(self) -> int {
        self.pos as int
    }

    /// The offset stays within the buffer.
    pub open spec fn wf(self) -> bool {
        0 <= self.spec_pos() <= self.spec_bytes().len()
    }

    /// A cursor positioned at the start of `buf`.
    pub fn new(buf: &'a [u8]) -> (c: Cursor<'a>)
        ensures
            c.wf(),
            c.spec_bytes() == buf@,
            c.spec_pos() == 0,
    {
        Cursor { buf, pos: 0 }
    }

    /// Reads the next byte, advancing the offset by one; fails with
    /// [`WireError::IO`] exactly when no byte remains.
    pub fn read_u8(&mut self) -> (r: Result<u8, WireError>)
        requires
            old(self).wf(),
        ensures
            final(self).wf(),
            final(self).spec_bytes() == old(self).spec_bytes(),
            match r {
                Ok(b) => old(self).spec_pos() < old(self).spec_bytes().len()
                    && b == old(self).spec_bytes()[old(self).spec_pos()]
                    && final(self).spec_pos() == old(self).spec_pos() + 1,
                Err(e) => old(self).spec_pos() == old(self).spec_bytes().len()
                    && e == WireError::IO
                    && final(self).spec_pos() == old(self).spec_pos(),
            },
    {
        if self.pos < self.buf.len() {
            let b = self.buf[self.pos];
            self.pos = self.pos + 1;
            Ok(b)
        } else {
            Err(WireError::IO)
        }
    }

    /// Reads the next two bytes as a big-endian unsigned integer; fails with
    /// [`WireError::IO`] exactly when fewer than two bytes remain, leaving the
    /// offset unchanged.
    pub fn read_u16_be(&mut self) -> (r: Result<u16, WireError>)
        requires
            old(self).wf(),
        ensures
            final(self).wf(),
            final(self).spec_bytes() == old(self).spec_bytes(),
            match r {
                Ok(v) => old(self).spec_pos() + 2 <= old(self).spec_bytes().len()
                    && v == old(self).spec_bytes()[old(self).spec_pos()] * 256
                        + old(self).spec_bytes()[old(self).spec_pos() + 1]
                    && final(self).spec_pos() == old(self).spec_pos() + 2,
                Err(e) => old(self).spec_bytes().len() < old(self).spec_pos() + 2
                    && e == WireError::IO
                    && final(self).spec_pos() == old(self).spec_pos(),
            },
    {
        if self.pos < self.buf.len() && self.buf.len() - self.pos >= 2 {
            let hi = self.buf[self.pos];
            let lo = self.buf[self.pos + 1];
            self.pos = self.pos + 2;
            Ok((hi as u16) * 256 + (lo as u16))
        } else {
            Err(WireError::IO)
        }
    }

    /// Reads the next four bytes as a big-endian unsigned integer; fails with
    /// [`WireError::IO`] exactly when fewer than four bytes remain, leaving
    /// the offset unchanged.
    pub fn read_u32_be(&mut self) -> (r: Result<u32, WireError>)
        requires
            old(self).wf(),
        ensures
            final(self).wf(),
            final(self).spec_bytes() == old(self).spec_bytes(),
            match r {
                Ok(v) => old(self).spec_pos() + 4 <= old(self).spec_bytes().len()
                    && v == old(self).spec_bytes()[old(self).spec_pos()] * 0x1000000
                        + old(self).spec_bytes()[old(self).spec_pos() + 1] * 0x10000
                        + old(self).spec_bytes()[old(self).spec_pos() + 2] * 0x100
                        + old(self).spec_bytes()[old(self).spec_pos() + 3]
                    && final(self).spec_pos() == old(self).spec_pos() + 4,
                Err(e) => old(self).spec_bytes().len() < old(self).spec_pos() + 4
                    && e == WireError::IO
                    && final(self).spec_pos() == old(self).spec_pos(),
            },
    {
        if self.pos < self.buf.len() && self.buf.len() - self.pos >= 4 {
            let b0 = self.buf[self.pos];
            let b1 = self.buf[self.pos + 1];
            let b2 = self.buf[self.pos + 2];
            let b3 = self.buf[self.pos + 3];
            self.pos = self.pos + 4;
            Ok((b0 as u32) * 0x1000000 + (b1 as u32) * 0x10000 + (b2 as u32) * 0x100
                + (b3 as u32))
        } else {
            Err(WireError::IO)
        }
    }
}

/// The decode contract implemented once per resource-record type.
///
/// An external dispatcher routes a record's payload bytes to the implementer
/// whose type code matches the record header, then calls [`Wire::read`] with
/// the length the header declared and a cursor positioned at the start of the
/// payload.  Each implementer fixes the meaning of its decode through two
/// specification functions: [`Wire::read_req`] names the inputs on which the
/// decode is defined, and [`Wire::read_spec`] relates the inputs to the
/// result and to the final cursor offset.
pub trait Wire: Sized {
    /// The record type's display name, for diagnostics only.
    const NAME: &'static str;

    /// The numeric DNS type code an external dispatcher routes by.
    const RR_TYPE: u16;

    /// The inputs on which the decode is defined.
    spec fn read_req(len: u16, bytes: Seq<u8>, pos: int) -> bool;

    /// The full relation between the declared length, the buffer, the start
    /// offset, the result, and the offset after the call.
    spec fn read_spec(
        len: u16,
        bytes: Seq<u8>,
        pos: int,
        r: Result<Self, WireError>,
        end: int,
    ) -> bool;

    /// Decodes one record payload.  The declared length is not trusted: the
    /// decoder compares the bytes it actually consumed against it and reports
    /// a mismatch rather than accepting trailing or missing data.
    fn read(len: u16, c: &mut Cursor<'_>) -> (r: Result<Self, WireError>)
        requires
            old(c).wf(),
            Self::read_req(len, old(c).spec_bytes(), old(c).spec_pos()),
        ensures
            final(c).wf(),
            final(c).spec_bytes() == old(c).spec_bytes(),
            Self::read_spec(len, old(c).spec_bytes(), old(c).spec_pos(), r, final(c).spec_pos()),
    ;
}

} // verus!
