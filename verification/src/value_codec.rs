//! Layout of the values stored under the fixed-width keys.

use crate::blob::{bytes_from_vec, bytes_seq};
use crate::encoding::{
    le32, le32_value, le64, le64_value, lemma_le32_round_trip, lemma_le64_round_trip, push_le32,
    push_le64, read_le32, read_le64,
};
use crate::errors::FsError;
use crate::key_codec::{InodeId, KeyCodec, FLUSH_TIME_RECORD_VERSION};
use crate::replication::{seqno_or_zero, HaStamp, ShipSeqno, SoloHistory, StampFields, WriterEpoch};
use bytes::Bytes;
use vstd::prelude::*;

verus! {

/// A value that holds one number.
pub open spec fn u64_of(data: Seq<u8>) -> Option<u64> {
    if data.len() == 8 {
        Some(le64_value(data))
    } else {
        None
    }
}

/// A flush-time row: version, epoch seconds, sub-second nanoseconds.
pub open spec fn flush_time_bytes(secs: u64, nanos: u32) -> Seq<u8> {
    seq![FLUSH_TIME_RECORD_VERSION] + le64(secs) + le32(nanos)
}

/// The time in a flush-time row of the known version.
pub open spec fn flush_time_of(data: Seq<u8>) -> Option<(u64, u32)> {
    if data.len() == 13 && data[0] == FLUSH_TIME_RECORD_VERSION {
        Some((le64_value(data.subrange(1, 9)), le32_value(data.subrange(9, 13))))
    } else {
        None
    }
}

/// `(live, total)` of a segment counter. A value of eight bytes holds `live`
/// alone and counts the whole segment as live.
pub open spec fn segcount_of(data: Seq<u8>) -> Option<(u64, u64)> {
    if data.len() == 16 {
        Some((le64_value(data.subrange(0, 8)), le64_value(data.subrange(8, 16))))
    } else if data.len() == 8 {
        Some((le64_value(data), le64_value(data)))
    } else {
        None
    }
}

/// `(inode, cookie)` in the first sixteen bytes of a directory entry.
pub open spec fn dir_entry_of(data: Seq<u8>) -> Option<(u64, u64)> {
    if data.len() >= 16 {
        Some((le64_value(data.subrange(0, 8)), le64_value(data.subrange(8, 16))))
    } else {
        None
    }
}

/// The stored form of a stamp: five numbers.
pub open spec fn ha_stamp_bytes(stamp: StampFields) -> Seq<u8> {
    le64(stamp.epoch) + le64(stamp.last_shipped) + le64(stamp.solo_commits) + le64(
        stamp.applied_through,
    ) + le64(
        if stamp.ran_solo {
            1
        } else {
            0
        },
    )
}

/// The `i`-th number of a value.
pub open spec fn le64_field(data: Seq<u8>, i: int) -> u64 {
    le64_value(data.subrange(8 * i, 8 * i + 8))
}

/// The fields of a stored stamp. The layouts with two and with three numbers
/// lack the applied frontier and the Solo latch: what was acknowledged is
/// taken as applied, and the term as one that ran Solo.
pub open spec fn ha_stamp_fields(data: Seq<u8>) -> Option<StampFields> {
    if data.len() == 16 || data.len() == 24 {
        Some(
            StampFields {
                epoch: le64_field(data, 0),
                last_shipped: le64_field(data, 1),
                solo_commits: if data.len() == 16 {
                    0
                } else {
                    le64_field(data, 2)
                },
                applied_through: le64_field(data, 1),
                ran_solo: true,
            },
        )
    } else if data.len() == 40 && le64_field(data, 4) <= 1 {
        Some(
            StampFields {
                epoch: le64_field(data, 0),
                last_shipped: le64_field(data, 1),
                solo_commits: le64_field(data, 2),
                applied_through: le64_field(data, 3),
                ran_solo: le64_field(data, 4) == 1,
            },
        )
    } else {
        None
    }
}

/// The stamp that a stored value stands for, if it is a valid one.
pub open spec fn ha_stamp_of(data: Seq<u8>) -> Option<StampFields> {
    match ha_stamp_fields(data) {
        Some(fields) => if fields.valid() {
            Some(fields)
        } else {
            None
        },
        None => None,
    }
}

/// Two numbers, little-endian, one after the other.
fn pair_value(a: u64, b: u64) -> (value: Bytes)
    ensures
        bytes_seq(value) == le64(a) + le64(b),
{
    let mut v: Vec<u8> = Vec::new();
    push_le64(&mut v, a);
    push_le64(&mut v, b);
    assert(v@ =~= le64(a) + le64(b));
    bytes_from_vec(v)
}

impl KeyCodec {
    pub fn encode_u64(value: u64) -> (data: Bytes)
        ensures
            bytes_seq(data) == le64(value),
    {
        let mut v: Vec<u8> = Vec::new();
        push_le64(&mut v, value);
        assert(v@ =~= le64(value));
        bytes_from_vec(v)
    }

    pub fn decode_u64(data: &[u8]) -> (value: Option<u64>)
        ensures
            value == u64_of(data@),
    {
        if data.len() != 8 {
            return None;
        }
        assert(data@.subrange(0, 8) =~= data@);
        Some(read_le64(data, 0))
    }

    pub fn encode_counter(value: u64) -> (data: Bytes)
        ensures
            bytes_seq(data) == le64(value),
    {
        KeyCodec::encode_u64(value)
    }

    pub fn decode_counter(data: &[u8]) -> (value: Result<u64, FsError>)
        ensures
            match value {
                Ok(v) => u64_of(data@) == Some(v),
                Err(e) => u64_of(data@) is None && e == FsError::InvalidData,
            },
    {
        match KeyCodec::decode_u64(data) {
            Some(v) => Ok(v),
            None => Err(FsError::InvalidData),
        }
    }

    pub fn encode_tombstone_size(size: u64) -> (data: Bytes)
        ensures
            bytes_seq(data) == le64(size),
    {
        KeyCodec::encode_u64(size)
    }

    pub fn decode_tombstone_size(data: &[u8]) -> (size: Result<u64, FsError>)
        ensures
            match size {
                Ok(v) => u64_of(data@) == Some(v),
                Err(e) => u64_of(data@) is None && e == FsError::InvalidData,
            },
    {
        KeyCodec::decode_counter(data)
    }

    /// Version byte, epoch seconds and sub-second nanoseconds. A target can
    /// fall within the same second as a later flush, so seconds alone would
    /// not tell them apart.
    pub fn encode_flush_time(epoch_seconds: u64, subsec_nanos: u32) -> (data: Bytes)
        ensures
            bytes_seq(data) == flush_time_bytes(epoch_seconds, subsec_nanos),
    {
        let mut v: Vec<u8> = Vec::new();
        v.push(FLUSH_TIME_RECORD_VERSION);
        push_le64(&mut v, epoch_seconds);
        push_le32(&mut v, subsec_nanos);
        assert(v@ =~= flush_time_bytes(epoch_seconds, subsec_nanos));
        bytes_from_vec(v)
    }

    /// `(epoch seconds, sub-second nanos)`; an unknown version is rejected.
    pub fn decode_flush_time(data: &[u8]) -> (time: Option<(u64, u32)>)
        ensures
            time == flush_time_of(data@),
    {
        if data.len() != 13 || data[0] != FLUSH_TIME_RECORD_VERSION {
            return None;
        }
        Some((read_le64(data, 1), read_le32(data, 9)))
    }

    /// `live` bytes, which decrease as frames die, and `total` bytes ever
    /// appended.
    pub fn encode_segcount(live: u64, total: u64) -> (data: Bytes)
        ensures
            bytes_seq(data) == le64(live) + le64(total),
    {
        pair_value(live, total)
    }

    pub fn decode_segcount(data: &[u8]) -> (counts: Option<(u64, u64)>)
        ensures
            counts == segcount_of(data@),
    {
        if data.len() == 16 {
            Some((read_le64(data, 0), read_le64(data, 8)))
        } else if data.len() == 8 {
            assert(data@.subrange(0, 8) =~= data@);
            let live: u64 = read_le64(data, 0);
            Some((live, live))
        } else {
            None
        }
    }

    pub fn encode_dir_entry(inode_id: InodeId, cookie: u64) -> (data: Bytes)
        ensures
            bytes_seq(data) == le64(inode_id) + le64(cookie),
    {
        pair_value(inode_id, cookie)
    }

    pub fn decode_dir_entry(data: &[u8]) -> (entry: Result<(InodeId, u64), FsError>)
        ensures
            match entry {
                Ok(e) => dir_entry_of(data@) == Some(e),
                Err(e) => dir_entry_of(data@) is None && e == FsError::InvalidData,
            },
    {
        if data.len() < 16 {
            return Err(FsError::InvalidData);
        }
        Ok((read_le64(data, 0), read_le64(data, 8)))
    }

    pub fn encode_ha_stamp(stamp: &HaStamp) -> (data: Bytes)
        ensures
            bytes_seq(data) == ha_stamp_bytes(stamp@),
    {
        let mut v: Vec<u8> = Vec::new();
        push_le64(&mut v, stamp.writer_epoch().get());
        push_le64(&mut v, seqno_or_zero(stamp.last_shipped()));
        push_le64(&mut v, stamp.solo_history().commits_since_last_ship());
        push_le64(&mut v, seqno_or_zero(stamp.applied_through()));
        let ran: u64 = if stamp.solo_history().ran_solo() {
            1
        } else {
            0
        };
        push_le64(&mut v, ran);
        assert(v@ =~= ha_stamp_bytes(stamp@));
        bytes_from_vec(v)
    }

    /// Decodes and validates a stored stamp.
    pub fn decode_ha_stamp(data: &[u8]) -> (stamp: Option<HaStamp>)
        ensures
            match stamp {
                Some(s) => ha_stamp_of(data@) == Some(s@),
                None => ha_stamp_of(data@) is None,
            },
    {
        if data.len() != 16 && data.len() != 24 && data.len() != 40 {
            return None;
        }
        let writer_epoch = match WriterEpoch::new(read_le64(data, 0)) {
            Some(epoch) => epoch,
            None => return None,
        };
        let last_shipped = ShipSeqno::new(read_le64(data, 8));
        if data.len() == 16 {
            return HaStamp::new(writer_epoch, last_shipped, SoloHistory::ever(0), last_shipped).ok();
        }
        let solo: u64 = read_le64(data, 16);
        if data.len() == 24 {
            return HaStamp::new(
                writer_epoch,
                last_shipped,
                SoloHistory::ever(solo),
                last_shipped,
            ).ok();
        }
        let applied_through = ShipSeqno::new(read_le64(data, 24));
        let solo_ever: u64 = read_le64(data, 32);
        if solo_ever > 1 {
            return None;
        }
        match SoloHistory::from_parts(solo, solo_ever == 1) {
            Some(history) => HaStamp::new(
                writer_epoch,
                last_shipped,
                history,
                applied_through,
            ).ok(),
            None => None,
        }
    }
}

/// A stored number reads back as the number that was written.
pub proof fn law_u64_round_trip(value: u64)
    ensures
        u64_of(le64(value)) == Some(value),
{
    lemma_le64_round_trip(value);
}

/// A stored flush time reads back as the time that was written.
pub proof fn law_flush_time_round_trip(secs: u64, nanos: u32)
    ensures
        flush_time_of(flush_time_bytes(secs, nanos)) == Some((secs, nanos)),
{
    let data = flush_time_bytes(secs, nanos);
    lemma_le64_round_trip(secs);
    lemma_le32_round_trip(nanos);
    assert(data.subrange(1, 9) =~= le64(secs));
    assert(data.subrange(9, 13) =~= le32(nanos));
}

/// A stored pair of segment counters, or a stored directory entry, reads back
/// as the pair that was written.
pub proof fn law_pair_round_trip(a: u64, b: u64)
    ensures
        segcount_of(le64(a) + le64(b)) == Some((a, b)),
        dir_entry_of(le64(a) + le64(b)) == Some((a, b)),
{
    let data = le64(a) + le64(b);
    lemma_le64_round_trip(a);
    lemma_le64_round_trip(b);
    assert(data.subrange(0, 8) =~= le64(a));
    assert(data.subrange(8, 16) =~= le64(b));
}

/// A stored stamp reads back as the stamp that was written.
pub proof fn law_ha_stamp_round_trip(stamp: StampFields)
    requires
        stamp.valid(),
    ensures
        ha_stamp_of(ha_stamp_bytes(stamp)) == Some(stamp),
{
    let data = ha_stamp_bytes(stamp);
    let ran: u64 = if stamp.ran_solo {
        1
    } else {
        0
    };
    lemma_le64_round_trip(stamp.epoch);
    lemma_le64_round_trip(stamp.last_shipped);
    lemma_le64_round_trip(stamp.solo_commits);
    lemma_le64_round_trip(stamp.applied_through);
    lemma_le64_round_trip(ran);
    assert(data.subrange(0, 8) =~= le64(stamp.epoch));
    assert(data.subrange(8, 16) =~= le64(stamp.last_shipped));
    assert(data.subrange(16, 24) =~= le64(stamp.solo_commits));
    assert(data.subrange(24, 32) =~= le64(stamp.applied_through));
    assert(data.subrange(32, 40) =~= le64(ran));
}

} // verus!
