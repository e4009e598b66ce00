//! The 128-bit identifier codec.
//!
//! An identifier is encoded as its big-endian 128-bit integer form, the
//! same sixteen bytes the fixed-width numeric codec writes for the value.
//! The identifier type itself belongs to the `uuid` crate; the codec reads
//! and writes nothing of it but that one value.

use crate::WireView;
use crate::decode::{DecodeIter, IncompleteDecodeError, PacketDecode};
use crate::encode::{EncodeBuf, PacketEncode};
use crate::laws::Codec;
use crate::num::lemma_be_bytes_len;
use vstd::prelude::*;

verus! {

#[verifier::external_type_specification]
#[verifier::external_body]
pub struct ExUuid(uuid::Uuid);

/// The big-endian 128-bit value that `uuid::Uuid::as_u128` returns for an
/// identifier: a function of the value alone.
pub uninterp spec fn uuid_bits(u: uuid::Uuid) -> u128;

/// Relies on `uuid::Uuid::as_u128`: returns the identifier's bytes as one
/// big-endian 128-bit value.
#[verifier::external_body]
fn uuid_to_u128(u: &uuid::Uuid) -> (r: u128)
    ensures
        r == uuid_bits(*u),
{
    u.as_u128()
}

/// Relies on `uuid::Uuid::from_u128`: builds the identifier whose bytes
/// are the big-endian bytes of the value, so reading them back with
/// `as_u128` yields the value again.
#[verifier::external_body]
fn uuid_from_u128(v: u128) -> (r: uuid::Uuid)
    ensures
        uuid_bits(r) == v,
{
    uuid::Uuid::from_u128(v)
}

impl WireView for uuid::Uuid {
    type V = u128;

    open spec fn wire_view(&self) -> u128 {
        uuid_bits(*self)
    }
}

impl PacketDecode for uuid::Uuid {
    type Error = IncompleteDecodeError;

    type ErrV = IncompleteDecodeError;

    open spec fn err_view(e: &IncompleteDecodeError) -> IncompleteDecodeError {
        *e
    }

    open spec fn is_incomplete(e: IncompleteDecodeError) -> bool {
        true
    }

    open spec fn dec_spec(s: Seq<u8>) -> (Result<u128, IncompleteDecodeError>, nat) {
        <u128 as PacketDecode>::dec_spec(s)
    }

    fn decode(iter: &mut DecodeIter) -> (r: Result<uuid::Uuid, IncompleteDecodeError>) {
        match u128::decode(iter) {
            Ok(v) => Ok(uuid_from_u128(v)),
            Err(e) => Err(e),
        }
    }
}

impl PacketEncode for uuid::Uuid {
    open spec fn enc_spec(v: u128) -> Seq<u8> {
        <u128 as PacketEncode>::enc_spec(v)
    }

    open spec fn encodable(v: u128) -> bool {
        true
    }

    fn encode_len(&self) -> (r: usize) {
        proof {
            lemma_be_bytes_len(uuid_bits(*self) as nat, 16);
        }
        16
    }

    fn encode(&self, buf: &mut EncodeBuf) {
        let v = uuid_to_u128(self);
        v.encode(buf);
    }
}

impl Codec for uuid::Uuid {
    proof fn lemma_roundtrip(v: u128, rest: Seq<u8>) {
        <u128 as Codec>::lemma_roundtrip(v, rest);
    }

    proof fn lemma_truncation(v: u128) {
        <u128 as Codec>::lemma_truncation(v);
    }
}

} // verus!
