//! The text-record decoder.
//!
//! A text record's payload is a sequence of length-prefixed segments: one
//! length byte, then exactly that many content bytes.  A length byte below
//! 255 ends the sequence; a length byte of exactly 255 announces that another
//! segment follows.  The contents of all segments are concatenated and read
//! as UTF-8, with invalid sequences replaced, and the number of payload bytes
//! consumed must equal the length the record header declared.

use vstd::prelude::*;

use crate::wire::{Cursor, Wire, WireError};

verus! {

/// What one pass of the segment loop yields, starting at `pos`: the
/// concatenated content bytes of the segments and the offset just past the
/// final one, or `None` when the buffer runs out before the loop ends.
pub open spec fn seg_scan(bytes: Seq<u8>, pos: int) -> Option<(Seq<u8>, int)>
    decreases bytes.len() - pos,
{
    if pos < 0 || pos >= bytes.len() {
        None
    } else {
        let n = bytes[pos] as int;
        if pos + 1 + n > bytes.len() {
            None
        } else {
            let content = bytes.subrange(pos + 1, pos + 1 + n);
            if n < 255 {
                Some((content, pos + 1 + n))
            } else {
                match seg_scan(bytes, pos + 1 + n) {
                    None => None,
                    Some((rest, end)) => Some((content + rest, end)),
                }
            }
        }
    }
}

/// The running total the segment loop reaches before it stops, counting one
/// for each length byte it reads plus the length that byte declares, whether
/// or not the declared content is actually there to read.
pub open spec fn seg_scan_total(bytes: Seq<u8>, pos: int) -> int
    decreases bytes.len() - pos,
{
    if pos < 0 || pos >= bytes.len() {
        0
    } else {
        let n = bytes[pos] as int;
        if pos + 1 + n > bytes.len() {
            n + 1
        } else if n < 255 {
            n + 1
        } else {
            n + 1 + seg_scan_total(bytes, pos + 1 + n)
        }
    }
}

/// A scan with the content bytes gathered so far put in front of it.
pub open spec fn seg_prepend(
    prefix: Seq<u8>,
    scanned: Option<(Seq<u8>, int)>,
) -> Option<(Seq<u8>, int)> {
    match scanned {
        None => None,
        Some((content, end)) => Some((prefix + content, end)),
    }
}

/// The running total never goes negative.
pub proof fn lemma_seg_scan_total_nonneg(bytes: Seq<u8>, pos: int)
    ensures
        seg_scan_total(bytes, pos) >= 0,
    decreases bytes.len() - pos,
{
    if 0 <= pos < bytes.len() {
        let n = bytes[pos] as int;
        if pos + 1 + n <= bytes.len() && n >= 255 {
            lemma_seg_scan_total_nonneg(bytes, pos + 1 + n);
        }
    }
}

/// When the segment loop completes, the total it reaches is exactly the
/// number of bytes it consumed, and it stops within the buffer.
pub proof fn lemma_seg_scan_consumed(bytes: Seq<u8>, pos: int)
    requires
        seg_scan(bytes, pos) is Some,
    ensures
        pos < seg_scan(bytes, pos)->Some_0.1 <= bytes.len(),
        seg_scan_total(bytes, pos) == seg_scan(bytes, pos)->Some_0.1 - pos,
    decreases bytes.len() - pos,
{
    let n = bytes[pos] as int;
    if pos + 1 + n <= bytes.len() && n >= 255 {
        lemma_seg_scan_consumed(bytes, pos + 1 + n);
    }
}

/// One character-string segment on the wire: a length byte, then exactly
/// that many content bytes.
pub open spec fn seg_encode(content: Seq<u8>) -> Seq<u8>
    recommends
        content.len() <= 255,
{
    seq![content.len() as u8] + content
}

/// A sequence of contents, each encoded as one segment, laid out one after
/// another.
pub open spec fn segs_encode(contents: Seq<Seq<u8>>) -> Seq<u8>
    decreases contents.len(),
{
    if contents.len() == 0 {
        Seq::empty()
    } else {
        seg_encode(contents.first()) + segs_encode(contents.drop_first())
    }
}

/// Scanning a well-formed chain of segments — every segment but the last
/// filled to exactly 255 content bytes, the last one shorter — completes,
/// consumes exactly the encoded bytes, and gathers the concatenated
/// contents, whatever follows in the buffer.
pub proof fn lemma_seg_scan_encoded(bytes: Seq<u8>, pos: int, contents: Seq<Seq<u8>>)
    requires
        contents.len() >= 1,
        forall|i: int| 0 <= i < contents.len() - 1 ==> (#[trigger] contents[i]).len() == 255,
        contents.last().len() <= 254,
        0 <= pos,
        pos + segs_encode(contents).len() <= bytes.len(),
        bytes.subrange(pos, pos + segs_encode(contents).len()) == segs_encode(contents),
    ensures
        seg_scan(bytes, pos) == (Some((contents.flatten(), pos + segs_encode(contents).len()))),
    decreases contents.len(),
{
    let c0 = contents.first();
    let rest = contents.drop_first();
    let enc = segs_encode(contents);
    let enc_rest = segs_encode(rest);
    let n = c0.len() as int;
    assert(enc == seg_encode(c0) + enc_rest);
    assert(n <= 255);
    assert(enc.len() == 1 + n + enc_rest.len());
    assert(bytes[pos] == enc[0]) by {
        assert(bytes.subrange(pos, pos + enc.len())[0] == bytes[pos]);
    }
    assert(enc[0] == c0.len() as u8);
    assert(bytes[pos] as int == n);
    assert forall|k: int| 0 <= k < n implies bytes[pos + 1 + k] == c0[k] by {
        assert(bytes.subrange(pos, pos + enc.len())[1 + k] == bytes[pos + 1 + k]);
        assert(enc[1 + k] == seg_encode(c0)[1 + k]);
    }
    assert(bytes.subrange(pos + 1, pos + 1 + n) =~= c0);
    assert(contents.flatten() == c0 + rest.flatten());
    if contents.len() == 1 {
        assert(rest.len() == 0);
        assert(enc_rest.len() == 0);
        assert(n <= 254);
        assert(seg_scan(bytes, pos) == (Some((bytes.subrange(pos + 1, pos + 1 + n), pos + 1 + n))));
        assert(rest.flatten() == Seq::<u8>::empty());
        assert(c0 + rest.flatten() =~= c0);
    } else {
        assert(c0 == contents[0]);
        assert(n == 255);
        assert forall|i: int| 0 <= i < rest.len() - 1 implies (#[trigger] rest[i]).len() == 255 by {
            assert(rest[i] == contents[i + 1]);
        }
        assert(rest.last() == contents.last());
        assert forall|k: int| 0 <= k < enc_rest.len() implies bytes[pos + 256 + k] == enc_rest[k] by {
            assert(bytes.subrange(pos, pos + enc.len())[256 + k] == bytes[pos + 256 + k]);
            assert(enc[256 + k] == enc_rest[k]);
        }
        assert(bytes.subrange(pos + 256, pos + 256 + enc_rest.len()) =~= enc_rest);
        lemma_seg_scan_encoded(bytes, pos + 256, rest);
        assert(seg_scan(bytes, pos + 256) == (Some((rest.flatten(), pos + 256 + enc_rest.len()))));
        assert(seg_scan(bytes, pos) == (Some((bytes.subrange(pos + 1, pos + 256) + rest.flatten(), pos + 256 + enc_rest.len()))));
        assert(pos + 256 + enc_rest.len() == pos + enc.len());
    }
}

/// What `String::from_utf8_lossy` returns for the given bytes.  The exact
/// value is fixed by the UTF-8 format and is not restated here; naming it
/// lets contracts say that equal byte sequences decode to equal text.
pub uninterp spec fn utf8_lossy_of(bytes: Seq<u8>) -> Seq<char>;

/// Relies on `String::from_utf8_lossy`: it decodes the bytes as UTF-8,
/// substituting U+FFFD for invalid sequences, and its result is a function
/// of the bytes alone.
#[verifier::external_body]
fn utf8_lossy(bytes: &Vec<u8>) -> (r: String)
    ensures
        r@ == utf8_lossy_of(bytes@),
{
    String::from_utf8_lossy(bytes).into_owned()
}

/// A **TXT** record, which holds arbitrary descriptive text.
///
/// The text encoding is not specified by the record format; this crate
/// treats it as UTF-8 and turns invalid bytes into the replacement
/// character.
#[derive(Debug)]
pub struct TXT {
    /// The message contained in the record.
    pub message: String,
}

impl PartialEq for TXT {
    fn eq(&self, other: &TXT) -> (r: bool) {
        self.message == other.message
    }
}

impl vstd::std_specs::cmp::PartialEqSpecImpl for TXT {
    open spec fn obeys_eq_spec() -> bool {
        true
    }

    open spec fn eq_spec(&self, other: &TXT) -> bool {
        self.message@ == other.message@
    }
}

impl Wire for TXT {
    const NAME: &'static str = "TXT";

    const RR_TYPE: u16 = 16;

    /// The running total is kept in a 16-bit counter, as the declared length
    /// it is compared against is 16-bit; the loop's total must fit in it.
    open spec fn read_req(len: u16, bytes: Seq<u8>, pos: int) -> bool {
        seg_scan_total(bytes, pos) <= u16::MAX
    }

    open spec fn read_spec(
        len: u16,
        bytes: Seq<u8>,
        pos: int,
        r: Result<TXT, WireError>,
        end: int,
    ) -> bool {
        match seg_scan(bytes, pos) {
            None => r == Err::<TXT, WireError>(WireError::IO),
            Some((content, stop)) => {
                &&& end == stop
                &&& if stop - pos == len {
                    r matches Ok(t) && t.message@ == utf8_lossy_of(content)
                } else {
                    r == Err::<TXT, WireError>(
                        WireError::WrongLabelLength { expected: len, got: (stop - pos) as u16 },
                    )
                }
            },
        }
    }

    #[verifier::loop_isolation(false)]
    fn read(len: u16, c: &mut Cursor<'_>) -> (r: Result<Self, WireError>) {
        let ghost bytes = c.spec_bytes();
        let ghost start = c.spec_pos();
        let mut buf: Vec<u8> = Vec::new();
        let mut total_len: u16 = 0;

        loop
            invariant
                c.wf(),
                c.spec_bytes() == bytes,
                start <= c.spec_pos() <= bytes.len(),
                total_len == c.spec_pos() - start,
                seg_scan_total(bytes, start) == total_len + seg_scan_total(bytes, c.spec_pos()),
                seg_scan(bytes, start) == seg_prepend(buf@, seg_scan(bytes, c.spec_pos())),
            decreases bytes.len() - c.spec_pos(),
        {
            let ghost seg_start = c.spec_pos();
            let ghost buf0 = buf@;

            let next_len = match c.read_u8() {
                Ok(b) => b,
                Err(e) => {
                    return Err(e);
                },
            };

            proof {
                lemma_seg_scan_total_nonneg(bytes, seg_start + 1 + next_len as int);
                assert(total_len + next_len + 1 <= u16::MAX);
            }
            total_len = total_len + next_len as u16 + 1;

            let mut i: u16 = 0;
            while i < next_len as u16
                invariant
                    c.wf(),
                    c.spec_bytes() == bytes,
                    0 <= i <= next_len as u16,
                    c.spec_pos() == seg_start + 1 + i,
                    buf@ == buf0 + bytes.subrange(seg_start + 1, seg_start + 1 + i),
                decreases next_len as int - i,
            {
                let b = match c.read_u8() {
                    Ok(b) => b,
                    Err(e) => {
                        return Err(e);
                    },
                };
                buf.push(b);
                i = i + 1;
                proof {
                    assert(buf@ =~= buf0 + bytes.subrange(seg_start + 1, seg_start + 1 + i));
                }
            }

            if next_len < 255 {
                let message = utf8_lossy(&buf);
                if len == total_len {
                    return Ok(TXT { message });
                } else {
                    return Err(WireError::WrongLabelLength { expected: len, got: total_len });
                }
            }

            proof {
                let content = bytes.subrange(seg_start + 1, seg_start + 1 + next_len as int);
                match seg_scan(bytes, c.spec_pos()) {
                    None => {},
                    Some((rest, _end)) => {
                        assert(buf0 + (content + rest) =~= (buf0 + content) + rest);
                    },
                }
            }
        }
    }
}

/// Round-trip framing: laying out content byte strings as one segment each
/// and decoding the result with the exact declared length succeeds and
/// reconstructs the concatenated content, read as lossy UTF-8 text.
///
/// The decoder stops at the first segment shorter than 255 bytes, so every
/// content but the last must fill its segment to exactly 255 bytes for the
/// chain to be read as one record.
pub proof fn lemma_round_trip(
    contents: Seq<Seq<u8>>,
    len: u16,
    r: Result<TXT, WireError>,
    end: int,
)
    requires
        contents.len() >= 1,
        forall|i: int| 0 <= i < contents.len() - 1 ==> (#[trigger] contents[i]).len() == 255,
        contents.last().len() <= 254,
        len == segs_encode(contents).len(),
        TXT::read_spec(len, segs_encode(contents), 0, r, end),
    ensures
        TXT::read_req(len, segs_encode(contents), 0),
        r matches Ok(t) && t.message@ == utf8_lossy_of(contents.flatten()),
        end == len,
{
    let enc = segs_encode(contents);
    assert(enc.subrange(0, enc.len() as int) =~= enc);
    lemma_seg_scan_encoded(enc, 0, contents);
    lemma_seg_scan_consumed(enc, 0);
}

/// Continuation invariant: after a segment whose length byte is 255, a
/// successful scan always finds another length byte; a buffer that ends
/// right after such a segment makes the decode fail with insufficient
/// input, never succeed truncated.
pub proof fn lemma_continuation(
    len: u16,
    bytes: Seq<u8>,
    pos: int,
    r: Result<TXT, WireError>,
    end: int,
)
    requires
        0 <= pos < bytes.len(),
        bytes[pos] == 255,
        TXT::read_spec(len, bytes, pos, r, end),
    ensures
        seg_scan(bytes, pos) is Some ==> pos + 256 < bytes.len() && seg_scan(
            bytes,
            pos + 256,
        ) is Some,
        bytes.len() <= pos + 256 ==> r == Err::<TXT, WireError>(WireError::IO),
{
    if pos + 256 <= bytes.len() {
        assert(seg_scan(bytes, pos + 256) is Some ==> pos + 256 < bytes.len());
    }
}

/// Length-mismatch reporting: once the segment loop completes, the decode
/// succeeds exactly when the bytes consumed equal the declared length, and
/// any disagreement is reported with both the declared and the observed
/// totals; a value is never returned beside a mismatched length.
pub proof fn lemma_length_mismatch(
    len: u16,
    bytes: Seq<u8>,
    pos: int,
    r: Result<TXT, WireError>,
    end: int,
)
    requires
        TXT::read_req(len, bytes, pos),
        TXT::read_spec(len, bytes, pos, r, end),
        seg_scan(bytes, pos) is Some,
    ensures
        r is Ok <==> end - pos == len,
        pos < end && end - pos <= u16::MAX,
        end - pos != len ==> r == Err::<TXT, WireError>(
            (WireError::WrongLabelLength { expected: len, got: (end - pos) as u16 }),
        ),
{
    lemma_seg_scan_consumed(bytes, pos);
}

/// Idempotent lossy decoding: the outcome is a pure function of the buffer,
/// the start offset, and the declared length, so two decodes of the same
/// well-formed input yield identical results — in particular, invalid byte
/// sequences always map to the same replacement pattern.
pub proof fn lemma_read_deterministic(
    len: u16,
    bytes: Seq<u8>,
    pos: int,
    r1: Result<TXT, WireError>,
    end1: int,
    r2: Result<TXT, WireError>,
    end2: int,
)
    requires
        TXT::read_spec(len, bytes, pos, r1, end1),
        TXT::read_spec(len, bytes, pos, r2, end2),
    ensures
        match (r1, r2) {
            (Ok(a), Ok(b)) => a.message@ == b.message@ && end1 == end2,
            (Err(x), Err(y)) => x == y,
            _ => false,
        },
{
}

} // verus!
