use vstd::prelude::*;

use crate::error::HttpError;
use crate::error::BAD_REQUEST;

verus! {

/// The little-endian 32-bit number starting at one position of a byte
/// sequence.
pub open spec fn spec_le32(b: Seq<u8>, i: int) -> int {
    b[i] + b[i + 1] * 0x100 + b[i + 2] * 0x10000 + b[i + 3] * 0x1000000
}

/// Whether a fully buffered publish body is well-framed: a length-prefixed
/// metadata block, then a length-prefixed archive blob, with neither
/// declared length exceeding the bytes that remain.
pub open spec fn spec_envelope_ok(b: Seq<u8>) -> bool {
    &&& b.len() >= 4
    &&& 4 + spec_le32(b, 0) <= b.len()
    &&& 8 + spec_le32(b, 0) <= b.len()
    &&& (8 + spec_le32(b, 0)) + spec_le32(b, 4 + spec_le32(b, 0)) <= b.len()
}

/// The metadata block of a well-framed publish body.
pub open spec fn spec_envelope_index(b: Seq<u8>) -> Seq<u8> {
    b.subrange(4, 4 + spec_le32(b, 0))
}

/// The archive blob of a well-framed publish body.
pub open spec fn spec_envelope_archive(b: Seq<u8>) -> Seq<u8> {
    b.subrange(8 + spec_le32(b, 0), (8 + spec_le32(b, 0)) + spec_le32(b, 4 + spec_le32(b, 0)))
}

/// A decoded publish request body: the raw metadata bytes and the raw
/// archive bytes. Turning the metadata into a structured request is the
/// caller's step.
#[derive(Debug)]
pub struct PublishEnvelope {
    pub index: Vec<u8>,
    pub archive: Vec<u8>,
}

/// Reads the little-endian 32-bit number at one position.
fn read_le32(b: &[u8], pos: usize) -> (r: u32)
    requires
        pos + 4 <= b@.len(),
    ensures
        r == spec_le32(b@, pos as int),
{
    (b[pos] as u32) + (b[pos + 1] as u32) * 0x100 + (b[pos + 2] as u32) * 0x10000 + (b[pos + 3]
        as u32) * 0x1000000
}

/// Copies one range of a byte slice.
fn bytes_range(b: &[u8], from: usize, to: usize) -> (r: Vec<u8>)
    requires
        from <= to <= b@.len(),
    ensures
        r@ == b@.subrange(from as int, to as int),
{
    let mut r: Vec<u8> = Vec::new();
    let mut i: usize = from;
    while i < to
        invariant
            from <= i <= to <= b@.len(),
            r@ == b@.subrange(from as int, i as int),
        decreases to - i,
    {
        r.push(b[i]);
        proof {
            assert(r@ =~= b@.subrange(from as int, i + 1));
        }
        i += 1;
    }
    r
}

/// Decodes a fully buffered publish body.
///
/// Succeeds exactly when the body is well-framed, handing back the exact
/// metadata and archive byte ranges; a truncated body or a declared length
/// that exceeds the remaining bytes is rejected as a bad request, and
/// nothing is partially produced. Bytes after the archive blob are
/// ignored.
pub fn decode_envelope(body: &[u8]) -> (r: Result<PublishEnvelope, HttpError>)
    ensures
        r is Ok <==> spec_envelope_ok(body@),
        r matches Ok(env) ==> env.index@ == spec_envelope_index(body@) && env.archive@
            == spec_envelope_archive(body@),
        r matches Err(e) ==> e.error_type == BAD_REQUEST,
{
    let len = body.len();
    if len < 4 {
        return Err(HttpError::new(BAD_REQUEST, "truncated publish body"));
    }
    let index_len = read_le32(body, 0) as usize;
    if index_len > len - 4 {
        return Err(HttpError::new(BAD_REQUEST, "declared index length exceeds body"));
    }
    if len - 4 - index_len < 4 {
        return Err(HttpError::new(BAD_REQUEST, "truncated publish body"));
    }
    let archive_len = read_le32(body, 4 + index_len) as usize;
    if archive_len > len - 8 - index_len {
        return Err(HttpError::new(BAD_REQUEST, "declared archive length exceeds body"));
    }
    let index = bytes_range(body, 4, 4 + index_len);
    let archive = bytes_range(body, 8 + index_len, 8 + index_len + archive_len);
    Ok(PublishEnvelope { index, archive })
}

} // verus!
