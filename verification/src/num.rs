//! Fixed-width primitive codecs.
//!
//! Integers and booleans are encoded as raw big-endian bytes, one byte per
//! eight bits of the type's width.  A signed value is carried as its
//! unsigned bit pattern.  Booleans occupy a single byte: encoding emits one
//! or zero, decoding accepts any nonzero byte as true.

use crate::WireView;
use crate::decode::{DecodeIter, IncompleteDecodeError, PacketDecode};
use crate::encode::{EncodeBuf, PacketEncode};
use crate::laws::Codec;
use vstd::arithmetic::div_mod::lemma_fundamental_div_mod;
use vstd::prelude::*;

verus! {

/// 256 raised to the power `w`: the number of values `w` bytes can hold.
pub open spec fn pow256(w: nat) -> nat
    decreases w,
{
    if w == 0 {
        1
    } else {
        256 * pow256((w - 1) as nat)
    }
}

/// The `w` big-endian bytes of the value `v`.
pub open spec fn be_bytes(v: nat, w: nat) -> Seq<u8>
    decreases w,
{
    if w == 0 {
        seq![]
    } else {
        be_bytes(v / 256, (w - 1) as nat) + seq![(v % 256) as u8]
    }
}

/// The value of a big-endian byte sequence.
pub open spec fn from_be(s: Seq<u8>) -> nat
    decreases s.len(),
{
    if s.len() == 0 {
        0
    } else {
        from_be(s.drop_last()) * 256 + (s.last() as nat)
    }
}

/// A big-endian encoding is exactly as long as it was asked to be.
pub proof fn lemma_be_bytes_len(v: nat, w: nat)
    ensures
        be_bytes(v, w).len() == w,
    decreases w,
{
    if w > 0 {
        lemma_be_bytes_len(v / 256, (w - 1) as nat);
    }
}

/// Reading back the big-endian bytes of a value within range restores it.
pub proof fn lemma_be_roundtrip(v: nat, w: nat)
    requires
        v < pow256(w),
    ensures
        from_be(be_bytes(v, w)) == v,
    decreases w,
{
    if w > 0 {
        let s = be_bytes(v, w);
        lemma_be_bytes_len(v / 256, (w - 1) as nat);
        assert(s.drop_last() =~= be_bytes(v / 256, (w - 1) as nat));
        assert(v / 256 < pow256((w - 1) as nat)) by {
            lemma_fundamental_div_mod(v as int, 256);
        }
        lemma_be_roundtrip(v / 256, (w - 1) as nat);
        lemma_fundamental_div_mod(v as int, 256);
    }
}

/// The value of a byte sequence is bounded by the count of its bytes.
pub proof fn lemma_from_be_bound(s: Seq<u8>)
    ensures
        from_be(s) < pow256(s.len()),
    decreases s.len(),
{
    if s.len() > 0 {
        lemma_from_be_bound(s.drop_last());
    }
}

/// The signed value whose unsigned bit pattern is `b`, for a width holding
/// `m` patterns.
pub open spec fn sig_of_bits(b: nat, m: nat) -> int {
    if b < m / 2 {
        b as int
    } else {
        b - m
    }
}

/// The unsigned bit pattern of the signed value `v`, for a width holding
/// `m` patterns.
pub open spec fn bits_of_sig(v: int, m: nat) -> nat {
    if v >= 0 {
        v as nat
    } else {
        (v + m) as nat
    }
}

/// Reads `w` big-endian bytes into a value.
///
/// On failure the cursor has pulled every byte the source still had.
fn read_be(iter: &mut DecodeIter, w: usize) -> (r: Result<u128, IncompleteDecodeError>)
    requires
        old(iter).wf(),
        w <= 16,
    ensures
        final (iter).wf(),
        final (iter).source() == old(iter).source(),
        match r {
            Ok(x) => {
                &&& old(iter).remaining().len() >= w
                &&& x as nat == from_be(old(iter).remaining().take(w as int))
                &&& final (iter).spec_consumed() == old(iter).spec_consumed() + w
            },
            Err(_) => {
                &&& old(iter).remaining().len() < w
                &&& final (iter).spec_consumed() == old(iter).source().len()
            },
        },
{
    let ghost s = old(iter).remaining();
    let mut acc: u128 = 0;
    let mut i: usize = 0;
    while i < w
        invariant
            iter.wf(),
            iter.source() == old(iter).source(),
            w <= 16,
            i <= w,
            old(iter).remaining().len() >= i,
            iter.spec_consumed() == old(iter).spec_consumed() + i,
            acc as nat == from_be(s.take(i as int)),
            s == old(iter).remaining(),
        decreases w - i,
    {
        proof {
            lemma_from_be_bound(s.take(i as int));
            reveal_with_fuel(pow256, 17);
            assert(pow256(i as nat) <= pow256(16nat)) by {
                lemma_pow256_increases(i as nat, 16nat);
            }
        }
        let b = match iter.read() {
            Ok(b) => b,
            Err(e) => {
                return Err(e);
            },
        };
        proof {
            assert(s.take(i + 1).drop_last() =~= s.take(i as int));
            assert(s.take(i + 1).last() == s[i as int]);
        }
        acc = acc * 256 + (b as u128);
        i = i + 1;
    }
    proof {
        assert(s.take(w as int) == s.take(i as int));
    }
    Ok(acc)
}

/// `pow256` grows with its exponent.
proof fn lemma_pow256_increases(a: nat, b: nat)
    requires
        a <= b,
    ensures
        pow256(a) <= pow256(b),
    decreases b,
{
    if a < b && b > 0 {
        lemma_pow256_increases(a, (b - 1) as nat);
    }
}

/// Writes the `w` big-endian bytes of `v` to the buffer.
fn write_be(buf: &mut EncodeBuf, v: u128, w: usize)
    requires
        old(buf).wf(),
        (v as nat) < pow256(w as nat),
        old(buf).spec_written() + w <= old(buf).cap(),
    ensures
        final (buf).wf(),
        final (buf).cap() == old(buf).cap(),
        final (buf).spec_written() == old(buf).spec_written() + w,
        final (buf).bytes() == old(buf).bytes() + be_bytes(v as nat, w as nat),
    decreases w,
{
    if w == 0 {
        proof {
            assert(buf.bytes() =~= old(buf).bytes() + be_bytes(v as nat, 0));
        }
    } else {
        proof {
            lemma_be_bytes_len((v as nat) / 256, (w - 1) as nat);
            assert((v as nat) / 256 < pow256((w - 1) as nat)) by {
                lemma_fundamental_div_mod(v as int, 256);
            }
        }
        write_be(buf, v / 256, w - 1);
        buf.write((v % 256) as u8);
        proof {
            assert(buf.bytes() =~= old(buf).bytes() + be_bytes(v as nat, w as nat));
        }
    }
}

impl WireView for u8 {
    type V = u8;

    open spec fn wire_view(&self) -> u8 {
        *self
    }
}

impl PacketDecode for u8 {
    type Error = IncompleteDecodeError;

    type ErrV = IncompleteDecodeError;

    open spec fn err_view(e: &IncompleteDecodeError) -> IncompleteDecodeError {
        *e
    }

    open spec fn is_incomplete(e: IncompleteDecodeError) -> bool {
        true
    }

    open spec fn dec_spec(s: Seq<u8>) -> (Result<u8, IncompleteDecodeError>, nat) {
        if s.len() >= 1 {
            (Ok(from_be(s.take(1)) as u8), 1)
        } else {
            (Err(IncompleteDecodeError), s.len())
        }
    }

    fn decode(iter: &mut DecodeIter) -> (r: Result<u8, IncompleteDecodeError>) {
        match read_be(iter, 1) {
            Ok(x) => {
                proof {
                    lemma_from_be_bound(old(iter).remaining().take(1));
                    reveal_with_fuel(pow256, 2);
                }
                Ok(x as u8)
            },
            Err(e) => Err(e),
        }
    }
}

impl PacketEncode for u8 {
    open spec fn enc_spec(v: u8) -> Seq<u8> {
        be_bytes(v as nat, 1)
    }

    open spec fn encodable(v: u8) -> bool {
        true
    }

    fn encode_len(&self) -> (r: usize) {
        proof {
            lemma_be_bytes_len(*self as nat, 1);
        }
        1
    }

    fn encode(&self, buf: &mut EncodeBuf) {
        proof {
            lemma_be_bytes_len(*self as nat, 1);
            reveal_with_fuel(pow256, 2);
        }
        write_be(buf, *self as u128, 1);
    }
}

impl Codec for u8 {
    proof fn lemma_roundtrip(v: u8, rest: Seq<u8>) {
        lemma_be_bytes_len(v as nat, 1);
        reveal_with_fuel(pow256, 2);
        lemma_be_roundtrip(v as nat, 1);
        assert((be_bytes(v as nat, 1) + rest).take(1) =~= be_bytes(v as nat, 1));
    }

    proof fn lemma_truncation(v: u8) {
        lemma_be_bytes_len(v as nat, 1);
    }
}

impl WireView for u16 {
    type V = u16;

    open spec fn wire_view(&self) -> u16 {
        *self
    }
}

impl PacketDecode for u16 {
    type Error = IncompleteDecodeError;

    type ErrV = IncompleteDecodeError;

    open spec fn err_view(e: &IncompleteDecodeError) -> IncompleteDecodeError {
        *e
    }

    open spec fn is_incomplete(e: IncompleteDecodeError) -> bool {
        true
    }

    open spec fn dec_spec(s: Seq<u8>) -> (Result<u16, IncompleteDecodeError>, nat) {
        if s.len() >= 2 {
            (Ok(from_be(s.take(2)) as u16), 2)
        } else {
            (Err(IncompleteDecodeError), s.len())
        }
    }

    fn decode(iter: &mut DecodeIter) -> (r: Result<u16, IncompleteDecodeError>) {
        match read_be(iter, 2) {
            Ok(x) => {
                proof {
                    lemma_from_be_bound(old(iter).remaining().take(2));
                    reveal_with_fuel(pow256, 3);
                }
                Ok(x as u16)
            },
            Err(e) => Err(e),
        }
    }
}

impl PacketEncode for u16 {
    open spec fn enc_spec(v: u16) -> Seq<u8> {
        be_bytes(v as nat, 2)
    }

    open spec fn encodable(v: u16) -> bool {
        true
    }

    fn encode_len(&self) -> (r: usize) {
        proof {
            lemma_be_bytes_len(*self as nat, 2);
        }
        2
    }

    fn encode(&self, buf: &mut EncodeBuf) {
        proof {
            lemma_be_bytes_len(*self as nat, 2);
            reveal_with_fuel(pow256, 3);
        }
        write_be(buf, *self as u128, 2);
    }
}

impl Codec for u16 {
    proof fn lemma_roundtrip(v: u16, rest: Seq<u8>) {
        lemma_be_bytes_len(v as nat, 2);
        reveal_with_fuel(pow256, 3);
        lemma_be_roundtrip(v as nat, 2);
        assert((be_bytes(v as nat, 2) + rest).take(2) =~= be_bytes(v as nat, 2));
    }

    proof fn lemma_truncation(v: u16) {
        lemma_be_bytes_len(v as nat, 2);
    }
}

impl WireView for u32 {
    type V = u32;

    open spec fn wire_view(&self) -> u32 {
        *self
    }
}

impl PacketDecode for u32 {
    type Error = IncompleteDecodeError;

    type ErrV = IncompleteDecodeError;

    open spec fn err_view(e: &IncompleteDecodeError) -> IncompleteDecodeError {
        *e
    }

    open spec fn is_incomplete(e: IncompleteDecodeError) -> bool {
        true
    }

    open spec fn dec_spec(s: Seq<u8>) -> (Result<u32, IncompleteDecodeError>, nat) {
        if s.len() >= 4 {
            (Ok(from_be(s.take(4)) as u32), 4)
        } else {
            (Err(IncompleteDecodeError), s.len())
        }
    }

    fn decode(iter: &mut DecodeIter) -> (r: Result<u32, IncompleteDecodeError>) {
        match read_be(iter, 4) {
            Ok(x) => {
                proof {
                    lemma_from_be_bound(old(iter).remaining().take(4));
                    reveal_with_fuel(pow256, 5);
                }
                Ok(x as u32)
            },
            Err(e) => Err(e),
        }
    }
}

impl PacketEncode for u32 {
    open spec fn enc_spec(v: u32) -> Seq<u8> {
        be_bytes(v as nat, 4)
    }

    open spec fn encodable(v: u32) -> bool {
        true
    }

    fn encode_len(&self) -> (r: usize) {
        proof {
            lemma_be_bytes_len(*self as nat, 4);
        }
        4
    }

    fn encode(&self, buf: &mut EncodeBuf) {
        proof {
            lemma_be_bytes_len(*self as nat, 4);
            reveal_with_fuel(pow256, 5);
        }
        write_be(buf, *self as u128, 4);
    }
}

impl Codec for u32 {
    proof fn lemma_roundtrip(v: u32, rest: Seq<u8>) {
        lemma_be_bytes_len(v as nat, 4);
        reveal_with_fuel(pow256, 5);
        lemma_be_roundtrip(v as nat, 4);
        assert((be_bytes(v as nat, 4) + rest).take(4) =~= be_bytes(v as nat, 4));
    }

    proof fn lemma_truncation(v: u32) {
        lemma_be_bytes_len(v as nat, 4);
    }
}

impl WireView for u64 {
    type V = u64;

    open spec fn wire_view(&self) -> u64 {
        *self
    }
}

impl PacketDecode for u64 {
    type Error = IncompleteDecodeError;

    type ErrV = IncompleteDecodeError;

    open spec fn err_view(e: &IncompleteDecodeError) -> IncompleteDecodeError {
        *e
    }

    open spec fn is_incomplete(e: IncompleteDecodeError) -> bool {
        true
    }

    open spec fn dec_spec(s: Seq<u8>) -> (Result<u64, IncompleteDecodeError>, nat) {
        if s.len() >= 8 {
            (Ok(from_be(s.take(8)) as u64), 8)
        } else {
            (Err(IncompleteDecodeError), s.len())
        }
    }

    fn decode(iter: &mut DecodeIter) -> (r: Result<u64, IncompleteDecodeError>) {
        match read_be(iter, 8) {
            Ok(x) => {
                proof {
                    lemma_from_be_bound(old(iter).remaining().take(8));
                    reveal_with_fuel(pow256, 9);
                }
                Ok(x as u64)
            },
            Err(e) => Err(e),
        }
    }
}

impl PacketEncode for u64 {
    open spec fn enc_spec(v: u64) -> Seq<u8> {
        be_bytes(v as nat, 8)
    }

    open spec fn encodable(v: u64) -> bool {
        true
    }

    fn encode_len(&self) -> (r: usize) {
        proof {
            lemma_be_bytes_len(*self as nat, 8);
        }
        8
    }

    fn encode(&self, buf: &mut EncodeBuf) {
        proof {
            lemma_be_bytes_len(*self as nat, 8);
            reveal_with_fuel(pow256, 9);
        }
        write_be(buf, *self as u128, 8);
    }
}

impl Codec for u64 {
    proof fn lemma_roundtrip(v: u64, rest: Seq<u8>) {
        lemma_be_bytes_len(v as nat, 8);
        reveal_with_fuel(pow256, 9);
        lemma_be_roundtrip(v as nat, 8);
        assert((be_bytes(v as nat, 8) + rest).take(8) =~= be_bytes(v as nat, 8));
    }

    proof fn lemma_truncation(v: u64) {
        lemma_be_bytes_len(v as nat, 8);
    }
}

impl WireView for u128 {
    type V = u128;

    open spec fn wire_view(&self) -> u128 {
        *self
    }
}

impl PacketDecode for u128 {
    type Error = IncompleteDecodeError;

    type ErrV = IncompleteDecodeError;

    open spec fn err_view(e: &IncompleteDecodeError) -> IncompleteDecodeError {
        *e
    }

    open spec fn is_incomplete(e: IncompleteDecodeError) -> bool {
        true
    }

    open spec fn dec_spec(s: Seq<u8>) -> (Result<u128, IncompleteDecodeError>, nat) {
        if s.len() >= 16 {
            (Ok(from_be(s.take(16)) as u128), 16)
        } else {
            (Err(IncompleteDecodeError), s.len())
        }
    }

    fn decode(iter: &mut DecodeIter) -> (r: Result<u128, IncompleteDecodeError>) {
        match read_be(iter, 16) {
            Ok(x) => {
                proof {
                    lemma_from_be_bound(old(iter).remaining().take(16));
                    reveal_with_fuel(pow256, 17);
                }
                Ok(x)
            },
            Err(e) => Err(e),
        }
    }
}

impl PacketEncode for u128 {
    open spec fn enc_spec(v: u128) -> Seq<u8> {
        be_bytes(v as nat, 16)
    }

    open spec fn encodable(v: u128) -> bool {
        true
    }

    fn encode_len(&self) -> (r: usize) {
        proof {
            lemma_be_bytes_len(*self as nat, 16);
        }
        16
    }

    fn encode(&self, buf: &mut EncodeBuf) {
        proof {
            lemma_be_bytes_len(*self as nat, 16);
            reveal_with_fuel(pow256, 17);
        }
        write_be(buf, *self, 16);
    }
}

impl Codec for u128 {
    proof fn lemma_roundtrip(v: u128, rest: Seq<u8>) {
        lemma_be_bytes_len(v as nat, 16);
        reveal_with_fuel(pow256, 17);
        lemma_be_roundtrip(v as nat, 16);
        assert((be_bytes(v as nat, 16) + rest).take(16) =~= be_bytes(v as nat, 16));
    }

    proof fn lemma_truncation(v: u128) {
        lemma_be_bytes_len(v as nat, 16);
    }
}

impl WireView for i8 {
    type V = i8;

    open spec fn wire_view(&self) -> i8 {
        *self
    }
}

impl PacketDecode for i8 {
    type Error = IncompleteDecodeError;

    type ErrV = IncompleteDecodeError;

    open spec fn err_view(e: &IncompleteDecodeError) -> IncompleteDecodeError {
        *e
    }

    open spec fn is_incomplete(e: IncompleteDecodeError) -> bool {
        true
    }

    open spec fn dec_spec(s: Seq<u8>) -> (Result<i8, IncompleteDecodeError>, nat) {
        if s.len() >= 1 {
            (Ok(sig_of_bits(from_be(s.take(1)), 0x100nat) as i8), 1)
        } else {
            (Err(IncompleteDecodeError), s.len())
        }
    }

    fn decode(iter: &mut DecodeIter) -> (r: Result<i8, IncompleteDecodeError>) {
        match read_be(iter, 1) {
            Ok(x) => {
                proof {
                    lemma_from_be_bound(old(iter).remaining().take(1));
                    reveal_with_fuel(pow256, 2);
                }
                Ok(0i8.wrapping_add_unsigned(x as u8))
            },
            Err(e) => Err(e),
        }
    }
}

impl PacketEncode for i8 {
    open spec fn enc_spec(v: i8) -> Seq<u8> {
        be_bytes(bits_of_sig(v as int, 0x100nat), 1)
    }

    open spec fn encodable(v: i8) -> bool {
        true
    }

    fn encode_len(&self) -> (r: usize) {
        proof {
            lemma_be_bytes_len(bits_of_sig(*self as int, 0x100nat), 1);
        }
        1
    }

    fn encode(&self, buf: &mut EncodeBuf) {
        proof {
            lemma_be_bytes_len(bits_of_sig(*self as int, 0x100nat), 1);
            reveal_with_fuel(pow256, 2);
        }
        let bits = 0u8.wrapping_add_signed(*self);
        write_be(buf, bits as u128, 1);
    }
}

impl Codec for i8 {
    proof fn lemma_roundtrip(v: i8, rest: Seq<u8>) {
        let b = bits_of_sig(v as int, 0x100nat);
        lemma_be_bytes_len(b, 1);
        reveal_with_fuel(pow256, 2);
        lemma_be_roundtrip(b, 1);
        assert((be_bytes(b, 1) + rest).take(1) =~= be_bytes(b, 1));
    }

    proof fn lemma_truncation(v: i8) {
        lemma_be_bytes_len(bits_of_sig(v as int, 0x100nat), 1);
    }
}

impl WireView for i16 {
    type V = i16;

    open spec fn wire_view(&self) -> i16 {
        *self
    }
}

impl PacketDecode for i16 {
    type Error = IncompleteDecodeError;

    type ErrV = IncompleteDecodeError;

    open spec fn err_view(e: &IncompleteDecodeError) -> IncompleteDecodeError {
        *e
    }

    open spec fn is_incomplete(e: IncompleteDecodeError) -> bool {
        true
    }

    open spec fn dec_spec(s: Seq<u8>) -> (Result<i16, IncompleteDecodeError>, nat) {
        if s.len() >= 2 {
            (Ok(sig_of_bits(from_be(s.take(2)), 0x1_0000nat) as i16), 2)
        } else {
            (Err(IncompleteDecodeError), s.len())
        }
    }

    fn decode(iter: &mut DecodeIter) -> (r: Result<i16, IncompleteDecodeError>) {
        match read_be(iter, 2) {
            Ok(x) => {
                proof {
                    lemma_from_be_bound(old(iter).remaining().take(2));
                    reveal_with_fuel(pow256, 3);
                }
                Ok(0i16.wrapping_add_unsigned(x as u16))
            },
            Err(e) => Err(e),
        }
    }
}

impl PacketEncode for i16 {
    open spec fn enc_spec(v: i16) -> Seq<u8> {
        be_bytes(bits_of_sig(v as int, 0x1_0000nat), 2)
    }

    open spec fn encodable(v: i16) -> bool {
        true
    }

    fn encode_len(&self) -> (r: usize) {
        proof {
            lemma_be_bytes_len(bits_of_sig(*self as int, 0x1_0000nat), 2);
        }
        2
    }

    fn encode(&self, buf: &mut EncodeBuf) {
        proof {
            lemma_be_bytes_len(bits_of_sig(*self as int, 0x1_0000nat), 2);
            reveal_with_fuel(pow256, 3);
        }
        let bits = 0u16.wrapping_add_signed(*self);
        write_be(buf, bits as u128, 2);
    }
}

impl Codec for i16 {
    proof fn lemma_roundtrip(v: i16, rest: Seq<u8>) {
        let b = bits_of_sig(v as int, 0x1_0000nat);
        lemma_be_bytes_len(b, 2);
        reveal_with_fuel(pow256, 3);
        lemma_be_roundtrip(b, 2);
        assert((be_bytes(b, 2) + rest).take(2) =~= be_bytes(b, 2));
    }

    proof fn lemma_truncation(v: i16) {
        lemma_be_bytes_len(bits_of_sig(v as int, 0x1_0000nat), 2);
    }
}

impl WireView for i32 {
    type V = i32;

    open spec fn wire_view(&self) -> i32 {
        *self
    }
}

impl PacketDecode for i32 {
    type Error = IncompleteDecodeError;

    type ErrV = IncompleteDecodeError;

    open spec fn err_view(e: &IncompleteDecodeError) -> IncompleteDecodeError {
        *e
    }

    open spec fn is_incomplete(e: IncompleteDecodeError) -> bool {
        true
    }

    open spec fn dec_spec(s: Seq<u8>) -> (Result<i32, IncompleteDecodeError>, nat) {
        if s.len() >= 4 {
            (Ok(sig_of_bits(from_be(s.take(4)), 0x1_0000_0000nat) as i32), 4)
        } else {
            (Err(IncompleteDecodeError), s.len())
        }
    }

    fn decode(iter: &mut DecodeIter) -> (r: Result<i32, IncompleteDecodeError>) {
        match read_be(iter, 4) {
            Ok(x) => {
                proof {
                    lemma_from_be_bound(old(iter).remaining().take(4));
                    reveal_with_fuel(pow256, 5);
                }
                Ok(0i32.wrapping_add_unsigned(x as u32))
            },
            Err(e) => Err(e),
        }
    }
}

impl PacketEncode for i32 {
    open spec fn enc_spec(v: i32) -> Seq<u8> {
        be_bytes(bits_of_sig(v as int, 0x1_0000_0000nat), 4)
    }

    open spec fn encodable(v: i32) -> bool {
        true
    }

    fn encode_len(&self) -> (r: usize) {
        proof {
            lemma_be_bytes_len(bits_of_sig(*self as int, 0x1_0000_0000nat), 4);
        }
        4
    }

    fn encode(&self, buf: &mut EncodeBuf) {
        proof {
            lemma_be_bytes_len(bits_of_sig(*self as int, 0x1_0000_0000nat), 4);
            reveal_with_fuel(pow256, 5);
        }
        let bits = 0u32.wrapping_add_signed(*self);
        write_be(buf, bits as u128, 4);
    }
}

impl Codec for i32 {
    proof fn lemma_roundtrip(v: i32, rest: Seq<u8>) {
        let b = bits_of_sig(v as int, 0x1_0000_0000nat);
        lemma_be_bytes_len(b, 4);
        reveal_with_fuel(pow256, 5);
        lemma_be_roundtrip(b, 4);
        assert((be_bytes(b, 4) + rest).take(4) =~= be_bytes(b, 4));
    }

    proof fn lemma_truncation(v: i32) {
        lemma_be_bytes_len(bits_of_sig(v as int, 0x1_0000_0000nat), 4);
    }
}

impl WireView for i64 {
    type V = i64;

    open spec fn wire_view(&self) -> i64 {
        *self
    }
}

impl PacketDecode for i64 {
    type Error = IncompleteDecodeError;

    type ErrV = IncompleteDecodeError;

    open spec fn err_view(e: &IncompleteDecodeError) -> IncompleteDecodeError {
        *e
    }

    open spec fn is_incomplete(e: IncompleteDecodeError) -> bool {
        true
    }

    open spec fn dec_spec(s: Seq<u8>) -> (Result<i64, IncompleteDecodeError>, nat) {
        if s.len() >= 8 {
            (Ok(sig_of_bits(from_be(s.take(8)), 0x1_0000_0000_0000_0000nat) as i64), 8)
        } else {
            (Err(IncompleteDecodeError), s.len())
        }
    }

    fn decode(iter: &mut DecodeIter) -> (r: Result<i64, IncompleteDecodeError>) {
        match read_be(iter, 8) {
            Ok(x) => {
                proof {
                    lemma_from_be_bound(old(iter).remaining().take(8));
                    reveal_with_fuel(pow256, 9);
                }
                Ok(0i64.wrapping_add_unsigned(x as u64))
            },
            Err(e) => Err(e),
        }
    }
}

impl PacketEncode for i64 {
    open spec fn enc_spec(v: i64) -> Seq<u8> {
        be_bytes(bits_of_sig(v as int, 0x1_0000_0000_0000_0000nat), 8)
    }

    open spec fn encodable(v: i64) -> bool {
        true
    }

    fn encode_len(&self) -> (r: usize) {
        proof {
            lemma_be_bytes_len(bits_of_sig(*self as int, 0x1_0000_0000_0000_0000nat), 8);
        }
        8
    }

    fn encode(&self, buf: &mut EncodeBuf) {
        proof {
            lemma_be_bytes_len(bits_of_sig(*self as int, 0x1_0000_0000_0000_0000nat), 8);
            reveal_with_fuel(pow256, 9);
        }
        let bits = 0u64.wrapping_add_signed(*self);
        write_be(buf, bits as u128, 8);
    }
}

impl Codec for i64 {
    proof fn lemma_roundtrip(v: i64, rest: Seq<u8>) {
        let b = bits_of_sig(v as int, 0x1_0000_0000_0000_0000nat);
        lemma_be_bytes_len(b, 8);
        reveal_with_fuel(pow256, 9);
        lemma_be_roundtrip(b, 8);
        assert((be_bytes(b, 8) + rest).take(8) =~= be_bytes(b, 8));
    }

    proof fn lemma_truncation(v: i64) {
        lemma_be_bytes_len(bits_of_sig(v as int, 0x1_0000_0000_0000_0000nat), 8);
    }
}

impl WireView for i128 {
    type V = i128;

    open spec fn wire_view(&self) -> i128 {
        *self
    }
}

impl PacketDecode for i128 {
    type Error = IncompleteDecodeError;

    type ErrV = IncompleteDecodeError;

    open spec fn err_view(e: &IncompleteDecodeError) -> IncompleteDecodeError {
        *e
    }

    open spec fn is_incomplete(e: IncompleteDecodeError) -> bool {
        true
    }

    open spec fn dec_spec(s: Seq<u8>) -> (Result<i128, IncompleteDecodeError>, nat) {
        if s.len() >= 16 {
            (
                Ok(
                    sig_of_bits(
                        from_be(s.take(16)),
                        0x1_0000_0000_0000_0000_0000_0000_0000_0000nat,
                    ) as i128,
                ),
                16,
            )
        } else {
            (Err(IncompleteDecodeError), s.len())
        }
    }

    fn decode(iter: &mut DecodeIter) -> (r: Result<i128, IncompleteDecodeError>) {
        match read_be(iter, 16) {
            Ok(x) => {
                proof {
                    lemma_from_be_bound(old(iter).remaining().take(16));
                    reveal_with_fuel(pow256, 17);
                }
                Ok(0i128.wrapping_add_unsigned(x))
            },
            Err(e) => Err(e),
        }
    }
}

impl PacketEncode for i128 {
    open spec fn enc_spec(v: i128) -> Seq<u8> {
        be_bytes(bits_of_sig(v as int, 0x1_0000_0000_0000_0000_0000_0000_0000_0000nat), 16)
    }

    open spec fn encodable(v: i128) -> bool {
        true
    }

    fn encode_len(&self) -> (r: usize) {
        proof {
            lemma_be_bytes_len(
                bits_of_sig(*self as int, 0x1_0000_0000_0000_0000_0000_0000_0000_0000nat),
                16,
            );
        }
        16
    }

    fn encode(&self, buf: &mut EncodeBuf) {
        proof {
            lemma_be_bytes_len(
                bits_of_sig(*self as int, 0x1_0000_0000_0000_0000_0000_0000_0000_0000nat),
                16,
            );
            reveal_with_fuel(pow256, 17);
        }
        let bits = 0u128.wrapping_add_signed(*self);
        write_be(buf, bits, 16);
    }
}

impl Codec for i128 {
    proof fn lemma_roundtrip(v: i128, rest: Seq<u8>) {
        let b = bits_of_sig(v as int, 0x1_0000_0000_0000_0000_0000_0000_0000_0000nat);
        lemma_be_bytes_len(b, 16);
        reveal_with_fuel(pow256, 17);
        lemma_be_roundtrip(b, 16);
        assert((be_bytes(b, 16) + rest).take(16) =~= be_bytes(b, 16));
    }

    proof fn lemma_truncation(v: i128) {
        lemma_be_bytes_len(
            bits_of_sig(v as int, 0x1_0000_0000_0000_0000_0000_0000_0000_0000nat),
            16,
        );
    }
}

impl WireView for bool {
    type V = bool;

    open spec fn wire_view(&self) -> bool {
        *self
    }
}

impl PacketDecode for bool {
    type Error = IncompleteDecodeError;

    type ErrV = IncompleteDecodeError;

    open spec fn err_view(e: &IncompleteDecodeError) -> IncompleteDecodeError {
        *e
    }

    open spec fn is_incomplete(e: IncompleteDecodeError) -> bool {
        true
    }

    open spec fn dec_spec(s: Seq<u8>) -> (Result<bool, IncompleteDecodeError>, nat) {
        if s.len() >= 1 {
            (Ok(s[0] != 0), 1)
        } else {
            (Err(IncompleteDecodeError), s.len())
        }
    }

    fn decode(iter: &mut DecodeIter) -> (r: Result<bool, IncompleteDecodeError>) {
        match iter.read() {
            Ok(b) => Ok(b != 0),
            Err(e) => Err(e),
        }
    }
}

impl PacketEncode for bool {
    open spec fn enc_spec(v: bool) -> Seq<u8> {
        seq![
            if v {
                1u8
            } else {
                0u8
            },
        ]
    }

    open spec fn encodable(v: bool) -> bool {
        true
    }

    fn encode_len(&self) -> (r: usize) {
        1
    }

    fn encode(&self, buf: &mut EncodeBuf) {
        let b: u8 = if *self {
            1
        } else {
            0
        };
        buf.write(b);
        proof {
            assert(buf.bytes() =~= old(buf).bytes() + Self::enc_spec(*self));
        }
    }
}

impl Codec for bool {
    proof fn lemma_roundtrip(v: bool, rest: Seq<u8>) {
    }

    proof fn lemma_truncation(v: bool) {
    }
}

} // verus!
