//! A minimal concrete packet, showing how a packet type ties its payload
//! codec to its static metadata.
//!
//! The framing layer derives the prefixed forms from these two pieces: a
//! packet type implements the payload codec and declares its metadata, and
//! the blanket implementations add the one-byte identifier in front.

use crate::WireView;
use crate::decode::{DecodeIter, IncompleteDecodeError, PacketDecode};
use crate::encode::{EncodeBuf, PacketEncode};
use crate::laws::Codec;
use crate::meta::{PacketBound, PacketMeta, PacketState};
use vstd::prelude::*;

verus! {

/// A status-state ping: the client sends an arbitrary payload and expects
/// it echoed back unchanged.
#[derive(Clone, Copy, PartialEq, Eq, Structural, Debug)]
pub struct Ping {
    /// The payload echoed by the server.
    pub payload: i64,
}

impl WireView for Ping {
    type V = i64;

    open spec fn wire_view(&self) -> i64 {
        self.payload
    }
}

impl PacketMeta for Ping {
    open spec fn spec_state() -> PacketState {
        PacketState::Status
    }

    open spec fn spec_bound() -> PacketBound {
        PacketBound::C2S
    }

    open spec fn spec_prefix() -> u8 {
        0x01
    }

    open spec fn spec_kick() -> bool {
        false
    }

    fn state() -> PacketState {
        PacketState::Status
    }

    fn bound() -> PacketBound {
        PacketBound::C2S
    }

    fn prefix() -> u8 {
        0x01
    }

    fn kick() -> bool {
        false
    }
}

impl PacketDecode for Ping {
    type Error = IncompleteDecodeError;

    type ErrV = IncompleteDecodeError;

    open spec fn err_view(e: &IncompleteDecodeError) -> IncompleteDecodeError {
        *e
    }

    open spec fn is_incomplete(e: IncompleteDecodeError) -> bool {
        true
    }

    open spec fn dec_spec(s: Seq<u8>) -> (Result<i64, IncompleteDecodeError>, nat) {
        <i64 as PacketDecode>::dec_spec(s)
    }

    fn decode(iter: &mut DecodeIter) -> (r: Result<Ping, IncompleteDecodeError>) {
        match i64::decode(iter) {
            Ok(payload) => Ok(Ping { payload }),
            Err(e) => Err(e),
        }
    }
}

impl PacketEncode for Ping {
    open spec fn enc_spec(v: i64) -> Seq<u8> {
        <i64 as PacketEncode>::enc_spec(v)
    }

    open spec fn encodable(v: i64) -> bool {
        true
    }

    fn encode_len(&self) -> (r: usize) {
        self.payload.encode_len()
    }

    fn encode(&self, buf: &mut EncodeBuf) {
        self.payload.encode(buf);
    }
}

impl Codec for Ping {
    proof fn lemma_roundtrip(v: i64, rest: Seq<u8>) {
        <i64 as Codec>::lemma_roundtrip(v, rest);
    }

    proof fn lemma_truncation(v: i64) {
        <i64 as Codec>::lemma_truncation(v);
    }
}

} // verus!
