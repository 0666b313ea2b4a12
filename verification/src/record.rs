//! Versioned records: a version byte followed by a JSON payload.

use crate::blob::{bytes_from_vec, bytes_seq};
use crate::encoding::push_all;
use bytes::Bytes;
use vstd::prelude::*;
use vstd::slice::slice_subrange;

verus! {

/// Version byte preceding the payload of every record. Durable data: never
/// reuse a lower number with a different layout.
pub const RECORD_VERSION: u8 = 1;

/// Why stored bytes are not a record of the known version.
#[derive(Clone, Copy, Debug, PartialEq, Eq, Structural)]
pub enum RecordError {
    Empty,
    UnsupportedVersion(u8),
    /// A version byte with nothing behind it, which is no JSON.
    NoPayload,
}

/// The stored form of a payload.
pub open spec fn record_bytes(payload: Seq<u8>) -> Seq<u8> {
    seq![RECORD_VERSION] + payload
}

/// The payload of stored bytes, or why there is none. Unknown versions are
/// rejected rather than misread.
pub open spec fn record_payload(data: Seq<u8>) -> Result<Seq<u8>, RecordError> {
    if data.len() == 0 {
        Err(RecordError::Empty)
    } else if data[0] != RECORD_VERSION {
        Err(RecordError::UnsupportedVersion(data[0]))
    } else if data.len() == 1 {
        Err(RecordError::NoPayload)
    } else {
        Ok(data.subrange(1, data.len() as int))
    }
}

/// The result over the contents of its slice.
pub open spec fn payload_seq(payload: Result<&[u8], RecordError>) -> Result<Seq<u8>, RecordError> {
    match payload {
        Ok(p) => Ok(p@),
        Err(e) => Err(e),
    }
}

/// Puts the version byte before a payload.
pub fn frame_record(payload: &[u8]) -> (data: Bytes)
    ensures
        bytes_seq(data) == record_bytes(payload@),
{
    let mut out: Vec<u8> = Vec::new();
    out.push(RECORD_VERSION);
    push_all(&mut out, payload);
    assert(out@ =~= record_bytes(payload@));
    bytes_from_vec(out)
}

/// Checks the version byte and gives the payload after it.
pub fn unframe_record(data: &[u8]) -> (payload: Result<&[u8], RecordError>)
    ensures
        payload_seq(payload) == record_payload(data@),
{
    if data.len() == 0 {
        return Err(RecordError::Empty);
    }
    if data[0] != RECORD_VERSION {
        return Err(RecordError::UnsupportedVersion(data[0]));
    }
    if data.len() == 1 {
        return Err(RecordError::NoPayload);
    }
    Ok(slice_subrange(data, 1, data.len()))
}

/// A stored payload reads back as it was written.
pub proof fn law_record_round_trip(payload: Seq<u8>)
    requires
        payload.len() > 0,
    ensures
        record_payload(record_bytes(payload)) == Ok::<Seq<u8>, RecordError>(payload),
{
    assert(record_bytes(payload).subrange(1, record_bytes(payload).len() as int) =~= payload);
}

/// A record is the byte 1 and a payload of at least one byte, and nothing else
/// is read as one. What is refused is refused for the first thing wrong with
/// it.
pub proof fn law_record_is_version_and_payload(data: Seq<u8>, payload: Seq<u8>, version: u8)
    ensures
        record_bytes(payload) == seq![1u8] + payload,
        record_payload(data) == Ok::<Seq<u8>, RecordError>(payload) <==> payload.len() > 0 && data
            == seq![1u8] + payload,
        record_payload(data) == Err::<Seq<u8>, RecordError>(RecordError::Empty) <==> data.len()
            == 0,
        record_payload(data) == Err::<Seq<u8>, RecordError>(
            RecordError::UnsupportedVersion(version),
        ) <==> data.len() > 0 && data[0] == version && version != 1,
        record_payload(data) == Err::<Seq<u8>, RecordError>(RecordError::NoPayload) <==> data
            == seq![1u8],
{
    let framed = seq![1u8] + payload;
    assert(framed.subrange(1, framed.len() as int) =~= payload);
    if data.len() > 0 {
        assert(data =~= seq![data[0]] + data.subrange(1, data.len() as int));
    }
    if data.len() == 1 {
        assert(data =~= seq![data[0]]);
    }
}

} // verus!
