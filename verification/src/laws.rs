//! The laws every full codec obeys.
//!
//! A type that both decodes and encodes implements [`Codec`], whose proof
//! obligations state the two format-level guarantees of the protocol: a
//! round trip through the wire restores the value exactly and consumes
//! exactly the encoding, and an encoding with its final byte removed fails
//! as incomplete rather than yielding any value.

use crate::decode::{PacketDecode, PrefixedDecodeError, PrefixedPacketDecode};
use crate::encode::{PacketEncode, PrefixedPacketEncode};
use crate::meta::PacketMeta;
use vstd::prelude::*;

verus! {

/// A data structure whose decode specification inverts its wire format.
pub trait Codec: PacketDecode + PacketEncode {
    /// Round trip: decoding an encoding, followed by any further bytes,
    /// yields the encoded view and consumes exactly the encoding.  Together
    /// with the exec contracts this carries to the functions themselves:
    /// `decode` after `encode` returns the original value, and `encode_len`
    /// equals the length of what `encode` wrote.
    proof fn lemma_roundtrip(v: Self::V, rest: Seq<u8>)
        requires
            Self::encodable(v),
        ensures
            ({
                let e = Self::enc_spec(v);
                Self::dec_spec(e + rest) == (
                    Result::<Self::V, Self::ErrV>::Ok(v),
                    e.len() as nat,
                )
            }),
    ;

    /// Truncation: an encoding is never empty, and decoding it with its
    /// final byte removed fails with an incomplete error, never partially
    /// returning a value.
    proof fn lemma_truncation(v: Self::V)
        requires
            Self::encodable(v),
        ensures
            Self::enc_spec(v).len() >= 1,
            ({
                let e = Self::enc_spec(v);
                let d = Self::dec_spec(e.take(e.len() - 1));
                d.0 matches Err(er) && Self::is_incomplete(er)
            }),
    ;
}

/// Round trip through the framing layer: decoding a prefixed encoding,
/// followed by any further bytes, yields the encoded view and consumes
/// exactly the encoding, identifier byte included.
pub proof fn lemma_prefixed_roundtrip<P: Codec + PacketMeta>(v: P::V, rest: Seq<u8>)
    requires
        P::encodable(v),
    ensures
        ({
            let e = <P as PrefixedPacketEncode>::enc_prefixed_spec(v);
            <P as PrefixedPacketDecode>::dec_prefixed_spec(e + rest) == (
                Result::<P::V, <P as PrefixedPacketDecode>::ErrV>::Ok(v),
                e.len() as nat,
            )
        }),
{
    let e = <P as PrefixedPacketEncode>::enc_prefixed_spec(v);
    let body = P::enc_spec(v);
    let s = e + rest;
    assert(s[0] == P::spec_prefix());
    assert(s.skip(1) =~= body + rest);
    P::lemma_roundtrip(v, rest);
}

/// Truncation through the framing layer: a prefixed encoding with its
/// final byte removed decodes to an incomplete payload error, never to a
/// value and never to an unknown-identifier error.
pub proof fn lemma_prefixed_truncation<P: Codec + PacketMeta>(v: P::V)
    requires
        P::encodable(v),
    ensures
        ({
            let e = <P as PrefixedPacketEncode>::enc_prefixed_spec(v);
            let d = <P as PrefixedPacketDecode>::dec_prefixed_spec(e.take(e.len() - 1));
            d.0 matches Err(er) && (er matches PrefixedDecodeError::Error(inner)
                && P::is_incomplete(inner))
        }),
{
    let e = <P as PrefixedPacketEncode>::enc_prefixed_spec(v);
    let body = P::enc_spec(v);
    P::lemma_truncation(v);
    let cut = body.take(body.len() - 1);
    let t = e.take(e.len() - 1);
    assert(t[0] == P::spec_prefix());
    assert(t.skip(1) =~= cut);
}

} // verus!
