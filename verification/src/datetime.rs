//! The timestamp codec.
//!
//! A point in time is encoded as its signed 64-bit count of non-leap
//! seconds since the Unix epoch, followed by its unsigned 32-bit count of
//! nanoseconds since the last whole second, each in the fixed-width wire
//! format.  Decoding rebuilds the point in time and fails when the two
//! well-formed fields do not compose into a representable one.
//!
//! The point in time itself is kept by the `chrono` crate inside
//! [`Timestamp`]; `chrono`'s generic date type cannot be named in verified
//! signatures, because its time-zone parameter is bounded by a trait the
//! verifier has no knowledge of.  The codec reads and writes nothing of a
//! timestamp but its two wire fields, so to the verifier a timestamp is
//! that pair.

use crate::WireView;
use crate::decode::{DecodeIter, IncompleteDecodeError, PacketDecode};
use crate::encode::{EncodeBuf, PacketEncode};
use crate::laws::Codec;
use vstd::prelude::*;

verus! {

/// A point in time: a count of non-leap seconds since the Unix epoch and
/// a count of nanoseconds since the last whole second.
///
/// The inner value is `chrono`'s, so construction goes through `chrono`'s
/// own validity check: a [`Timestamp`] always holds a representable pair.
#[verifier::external_body]
pub struct Timestamp {
    inner: chrono::DateTime<chrono::Utc>,
}

/// The seconds field that `chrono::DateTime::timestamp` returns for a
/// point in time: a function of the value alone.
pub uninterp spec fn ts_secs(t: Timestamp) -> i64;

/// The nanoseconds field that `chrono::DateTime::timestamp_subsec_nanos`
/// returns for a point in time: a function of the value alone.
pub uninterp spec fn ts_nanos(t: Timestamp) -> u32;

/// Whether `chrono::DateTime::from_timestamp` accepts the pair: a
/// function of the two fields alone.
pub uninterp spec fn timestamp_in_range(secs: i64, nsecs: u32) -> bool;

impl Timestamp {
    /// Builds the point in time with the given wire fields, when they are
    /// representable.
    ///
    /// Relies on `chrono::DateTime::from_timestamp`: it yields a value
    /// exactly when the pair is representable, and its documentation
    /// guarantees that the value round-trips through `timestamp` and
    /// `timestamp_subsec_nanos`.
    #[verifier::external_body]
    pub fn from_parts(secs: i64, nsecs: u32) -> (r: Option<Timestamp>)
        ensures
            (r is Some) == timestamp_in_range(secs, nsecs),
            r matches Some(t) ==> ts_secs(t) == secs && ts_nanos(t) == nsecs,
    {
        match chrono::DateTime::from_timestamp(secs, nsecs) {
            Some(inner) => Some(Timestamp { inner }),
            None => None,
        }
    }

    /// The seconds field.
    ///
    /// Relies on `chrono::DateTime::timestamp`, whose documentation
    /// guarantees that the returned seconds, together with the value's
    /// nanoseconds field, round-trip through `from_timestamp`.
    #[verifier::external_body]
    pub fn secs(&self) -> (r: i64)
        ensures
            r == ts_secs(*self),
            timestamp_in_range(r, ts_nanos(*self)),
    {
        self.inner.timestamp()
    }

    /// The nanoseconds field.
    ///
    /// Relies on `chrono::DateTime::timestamp_subsec_nanos`.
    #[verifier::external_body]
    pub fn subsec_nanos(&self) -> (r: u32)
        ensures
            r == ts_nanos(*self),
    {
        self.inner.timestamp_subsec_nanos()
    }

    /// The two wire fields of this point in time; the pair is always
    /// representable, so it is encodable.
    pub fn wire_parts(&self) -> (r: (i64, u32))
        ensures
            r == self.wire_view(),
            <Timestamp as PacketEncode>::encodable(self.wire_view()),
    {
        let secs = self.secs();
        let nsecs = self.subsec_nanos();
        (secs, nsecs)
    }
}

/// Returned by packet decoders when a point in time was not decoded
/// successfully.
#[derive(Clone, Copy, PartialEq, Eq, Debug)]
pub enum DateTimeDecodeError {
    /// The seconds field could not be read.
    Secs(IncompleteDecodeError),
    /// The nanoseconds field could not be read.
    Nanos(IncompleteDecodeError),
    /// The two fields do not compose into a representable point in time.
    Invalid,
}

impl WireView for Timestamp {
    type V = (i64, u32);

    open spec fn wire_view(&self) -> (i64, u32) {
        (ts_secs(*self), ts_nanos(*self))
    }
}

impl PacketDecode for Timestamp {
    type Error = DateTimeDecodeError;

    type ErrV = DateTimeDecodeError;

    open spec fn err_view(e: &DateTimeDecodeError) -> DateTimeDecodeError {
        *e
    }

    open spec fn is_incomplete(e: DateTimeDecodeError) -> bool {
        e is Secs || e is Nanos
    }

    open spec fn dec_spec(s: Seq<u8>) -> (Result<(i64, u32), DateTimeDecodeError>, nat) {
        let d1 = <i64 as PacketDecode>::dec_spec(s);
        match d1.0 {
            Err(e) => (Err(DateTimeDecodeError::Secs(e)), d1.1),
            Ok(sv) => {
                let d2 = <u32 as PacketDecode>::dec_spec(s.skip(d1.1 as int));
                match d2.0 {
                    Err(e) => (Err(DateTimeDecodeError::Nanos(e)), d1.1 + d2.1),
                    Ok(nv) => if timestamp_in_range(sv, nv) {
                        (Ok((sv, nv)), d1.1 + d2.1)
                    } else {
                        (Err(DateTimeDecodeError::Invalid), d1.1 + d2.1)
                    },
                }
            },
        }
    }

    fn decode(iter: &mut DecodeIter) -> (r: Result<Timestamp, DateTimeDecodeError>) {
        let secs = match i64::decode(iter) {
            Ok(v) => v,
            Err(e) => {
                return Err(DateTimeDecodeError::Secs(e));
            },
        };
        proof {
            let d1 = <i64 as PacketDecode>::dec_spec(old(iter).remaining());
            assert(iter.remaining() =~= old(iter).remaining().skip(d1.1 as int));
        }
        let nsecs = match u32::decode(iter) {
            Ok(v) => v,
            Err(e) => {
                return Err(DateTimeDecodeError::Nanos(e));
            },
        };
        match Timestamp::from_parts(secs, nsecs) {
            Some(t) => Ok(t),
            None => Err(DateTimeDecodeError::Invalid),
        }
    }
}

impl PacketEncode for Timestamp {
    open spec fn enc_spec(v: (i64, u32)) -> Seq<u8> {
        <i64 as PacketEncode>::enc_spec(v.0) + <u32 as PacketEncode>::enc_spec(v.1)
    }

    open spec fn encodable(v: (i64, u32)) -> bool {
        timestamp_in_range(v.0, v.1)
    }

    fn encode_len(&self) -> (r: usize) {
        let ghost v = self.wire_view();
        proof {
            crate::num::lemma_be_bytes_len(
                crate::num::bits_of_sig(v.0 as int, 0x1_0000_0000_0000_0000nat),
                8,
            );
            crate::num::lemma_be_bytes_len(v.1 as nat, 4);
        }
        12
    }

    fn encode(&self, buf: &mut EncodeBuf) {
        let secs = self.secs();
        let nsecs = self.subsec_nanos();
        secs.encode(buf);
        nsecs.encode(buf);
        proof {
            assert(buf.bytes() =~= old(buf).bytes() + Self::enc_spec(self.wire_view()));
        }
    }
}

impl Codec for Timestamp {
    proof fn lemma_roundtrip(v: (i64, u32), rest: Seq<u8>) {
        let e1 = <i64 as PacketEncode>::enc_spec(v.0);
        let e2 = <u32 as PacketEncode>::enc_spec(v.1);
        <i64 as Codec>::lemma_roundtrip(v.0, e2 + rest);
        assert(Self::enc_spec(v) + rest =~= e1 + (e2 + rest));
        assert((e1 + (e2 + rest)).skip(e1.len() as int) =~= e2 + rest);
        <u32 as Codec>::lemma_roundtrip(v.1, rest);
    }

    proof fn lemma_truncation(v: (i64, u32)) {
        let e1 = <i64 as PacketEncode>::enc_spec(v.0);
        let e2 = <u32 as PacketEncode>::enc_spec(v.1);
        let e = Self::enc_spec(v);
        <u32 as Codec>::lemma_truncation(v.1);
        let cut = e2.take(e2.len() - 1);
        <i64 as Codec>::lemma_roundtrip(v.0, cut);
        assert(e.take(e.len() - 1) =~= e1 + cut);
        assert((e1 + cut).skip(e1.len() as int) =~= cut);
    }
}

/// Encodes a point in time into a buffer with room for its twelve bytes.
///
/// Every [`Timestamp`] carries representable fields, so unlike the codec
/// methods this function asks nothing of the value.
pub fn encode_timestamp(t: &Timestamp, buf: &mut EncodeBuf)
    requires
        old(buf).wf(),
        old(buf).spec_written() + 12 <= old(buf).cap(),
    ensures
        final (buf).wf(),
        final (buf).cap() == old(buf).cap(),
        final (buf).bytes() == old(buf).bytes() + <Timestamp as PacketEncode>::enc_spec(
            t.wire_view(),
        ),
{
    let _parts = t.wire_parts();
    proof {
        crate::num::lemma_be_bytes_len(
            crate::num::bits_of_sig(t.wire_view().0 as int, 0x1_0000_0000_0000_0000nat),
            8,
        );
        crate::num::lemma_be_bytes_len(t.wire_view().1 as nat, 4);
    }
    t.encode(buf);
}

/// The number of bytes [`encode_timestamp`] writes.
pub fn timestamp_encode_len(t: &Timestamp) -> (r: usize)
    ensures
        r == <Timestamp as PacketEncode>::enc_spec(t.wire_view()).len(),
{
    let _parts = t.wire_parts();
    t.encode_len()
}

} // verus!
