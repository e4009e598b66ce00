//! The UTF-8 string codec.
//!
//! A string is encoded as a variable-length byte count followed by its raw
//! UTF-8 bytes.  Decoding reads exactly that many bytes and then validates
//! them: a count that fails to decode, a source too short for the count,
//! and bytes that are not valid UTF-8 each produce their own error, with
//! the offending byte sequence preserved for diagnostics.

use crate::WireView;
use crate::decode::{DecodeIter, IncompleteDecodeError, PacketDecode};
use crate::encode::{EncodeBuf, PacketEncode};
use crate::laws::Codec;
use crate::varint::{VarInt, VarIntDecodeError};
use vstd::prelude::*;
use vstd::utf8::{decode_utf8, encode_utf8, encode_utf8_decode_utf8, encode_utf8_valid_utf8,
    valid_utf8};

verus! {

/// Returned by packet decoders when a `String` was not decoded
/// successfully.
#[derive(Clone, PartialEq, Eq, Debug)]
pub enum StringDecodeError {
    /// The byte count failed to decode.
    Length(VarIntDecodeError),
    /// There were not enough bytes.
    Incomplete(IncompleteDecodeError),
    /// The decoded bytes were not valid UTF-8; they are carried here.
    Utf8(Vec<u8>),
}

/// The mathematical view of [`StringDecodeError`].
pub enum StringDecodeErrorView {
    /// The byte count failed to decode.
    Length(VarIntDecodeError),
    /// There were not enough bytes.
    Incomplete(IncompleteDecodeError),
    /// The decoded bytes were not valid UTF-8.
    Utf8(Seq<u8>),
}

/// A character never takes more than four bytes, so a string of at most a
/// quarter of the count limit is always encodable; callers use this to
/// discharge [`PacketEncode::encodable`] for strings whose length they
/// know.
pub proof fn lemma_utf8_len_bound(v: Seq<char>)
    ensures
        encode_utf8(v).len() <= 4 * v.len(),
    decreases v.len(),
{
    if v.len() > 0 {
        vstd::utf8::char_is_scalar(v[0]);
        lemma_utf8_len_bound(v.drop_first());
    }
}

/// Relies on `String::from_utf8`: yields the string whose UTF-8 encoding is
/// exactly the given bytes when they are valid UTF-8, and otherwise hands
/// the bytes back unchanged.
#[verifier::external_body]
fn string_from_utf8(bytes: Vec<u8>) -> (r: Result<String, Vec<u8>>)
    ensures
        match r {
            Ok(s) => valid_utf8(bytes@) && s@ == decode_utf8(bytes@),
            Err(b) => !valid_utf8(bytes@) && b@ == bytes@,
        },
{
    match String::from_utf8(bytes) {
        Ok(s) => Ok(s),
        Err(e) => Err(e.into_bytes()),
    }
}

impl WireView for String {
    type V = Seq<char>;

    open spec fn wire_view(&self) -> Seq<char> {
        self@
    }
}

impl PacketDecode for String {
    type Error = StringDecodeError;

    type ErrV = StringDecodeErrorView;

    open spec fn err_view(e: &StringDecodeError) -> StringDecodeErrorView {
        match e {
            StringDecodeError::Length(le) => StringDecodeErrorView::Length(*le),
            StringDecodeError::Incomplete(ie) => StringDecodeErrorView::Incomplete(*ie),
            StringDecodeError::Utf8(b) => StringDecodeErrorView::Utf8(b@),
        }
    }

    open spec fn is_incomplete(e: StringDecodeErrorView) -> bool {
        match e {
            StringDecodeErrorView::Length(le) => le is Incomplete,
            StringDecodeErrorView::Incomplete(ie) => true,
            StringDecodeErrorView::Utf8(b) => false,
        }
    }

    open spec fn dec_spec(s: Seq<u8>) -> (Result<Seq<char>, StringDecodeErrorView>, nat) {
        let d = <VarInt<u32> as PacketDecode>::dec_spec(s);
        match d.0 {
            Err(e) => (Err(StringDecodeErrorView::Length(e)), d.1),
            Ok(n32) => {
                let rest = s.skip(d.1 as int);
                if rest.len() < n32 as nat {
                    (Err(StringDecodeErrorView::Incomplete(IncompleteDecodeError)), s.len())
                } else {
                    let bytes = rest.take(n32 as int);
                    if valid_utf8(bytes) {
                        (Ok(decode_utf8(bytes)), d.1 + n32 as nat)
                    } else {
                        (Err(StringDecodeErrorView::Utf8(bytes)), d.1 + n32 as nat)
                    }
                }
            },
        }
    }

    fn decode(iter: &mut DecodeIter) -> (r: Result<String, StringDecodeError>) {
        let n32 = match VarInt::<u32>::decode(iter) {
            Ok(v) => v.0,
            Err(e) => {
                return Err(StringDecodeError::Length(e));
            },
        };
        proof {
            let vd = <VarInt<u32> as PacketDecode>::dec_spec(old(iter).remaining());
            assert(iter.remaining() =~= old(iter).remaining().skip(vd.1 as int));
        }
        let bytes = match iter.read_vec(n32 as usize) {
            Ok(b) => b,
            Err(e) => {
                return Err(StringDecodeError::Incomplete(e));
            },
        };
        match string_from_utf8(bytes) {
            Ok(s) => Ok(s),
            Err(b) => Err(StringDecodeError::Utf8(b)),
        }
    }
}

impl PacketEncode for String {
    open spec fn enc_spec(v: Seq<char>) -> Seq<u8> {
        <VarInt<u32> as PacketEncode>::enc_spec(encode_utf8(v).len() as u32) + encode_utf8(v)
    }

    open spec fn encodable(v: Seq<char>) -> bool {
        &&& encode_utf8(v).len() <= u32::MAX
        &&& (<VarInt<u32> as PacketEncode>::enc_spec(encode_utf8(v).len() as u32) + encode_utf8(
            v,
        )).len() <= usize::MAX
    }

    fn encode_len(&self) -> (r: usize) {
        let bytes = self.as_str().as_bytes();
        let n = bytes.len();
        let prefix = VarInt::<u32>(n as u32).encode_len();
        prefix + n
    }

    fn encode(&self, buf: &mut EncodeBuf) {
        let bytes = self.as_str().as_bytes();
        let n = bytes.len();
        VarInt::<u32>(n as u32).encode(buf);
        buf.write_slice(bytes);
    }
}

impl Codec for String {
    proof fn lemma_roundtrip(v: Seq<char>, rest: Seq<u8>) {
        let ub = encode_utf8(v);
        let lp = <VarInt<u32> as PacketEncode>::enc_spec(ub.len() as u32);
        <VarInt<u32> as Codec>::lemma_roundtrip(ub.len() as u32, ub + rest);
        assert(Self::enc_spec(v) + rest =~= lp + (ub + rest));
        assert((lp + (ub + rest)).skip(lp.len() as int) =~= ub + rest);
        assert((ub + rest).take(ub.len() as int) =~= ub);
        encode_utf8_valid_utf8(v);
        encode_utf8_decode_utf8(v);
    }

    proof fn lemma_truncation(v: Seq<char>) {
        let ub = encode_utf8(v);
        let lp = <VarInt<u32> as PacketEncode>::enc_spec(ub.len() as u32);
        let e = Self::enc_spec(v);
        <VarInt<u32> as Codec>::lemma_truncation(ub.len() as u32);
        if ub.len() == 0 {
            assert(e =~= lp);
            assert(e.take(e.len() - 1) =~= lp.take(lp.len() - 1));
        } else {
            let cut = ub.take(ub.len() - 1);
            <VarInt<u32> as Codec>::lemma_roundtrip(ub.len() as u32, cut);
            assert(e.take(e.len() - 1) =~= lp + cut);
            assert((lp + cut).skip(lp.len() as int) =~= cut);
        }
    }
}

} // verus!
