//! The variable-length integer type.
//!
//! An integer is encoded as a sequence of 7-bit groups, least significant
//! group first; the top bit of every byte is a continuation flag, set on
//! every byte but the last.  Decoding stops at the first byte whose
//! continuation flag is clear, and rejects encodings that run past the
//! greatest length the decoded type allows.
//!
//! Though this structure is called *"VarInt"*, it handles both the 32-bit
//! and the 64-bit wire formats, as `VarInt<i32>`/`VarInt<u32>` and
//! `VarInt<i64>`/`VarInt<u64>` respectively.  The signed and the unsigned
//! view of a given width share one encoding: a signed value is
//! reinterpreted as its unsigned bit pattern, with no range narrowing.

use crate::WireView;
use crate::decode::{DecodeIter, IncompleteDecodeError, PacketDecode};
use crate::encode::{EncodeBuf, PacketEncode};
use vstd::arithmetic::div_mod::{
    lemma_add_mod_noop_right, lemma_fundamental_div_mod, lemma_mod_mod, lemma_mod_multiples_vanish,
    lemma_mul_mod_noop_left, lemma_small_mod,
};
use vstd::prelude::*;

verus! {

/// 128 raised to the power `k`: the number of values that `k` seven-bit
/// groups can hold.
pub open spec fn pow128(k: nat) -> nat
    decreases k,
{
    if k == 0 {
        1
    } else {
        128 * pow128((k - 1) as nat)
    }
}

/// The byte sequence that the variable-length integer encoding assigns to
/// the value `v`.
pub open spec fn varint_bytes(v: nat) -> Seq<u8>
    decreases v,
{
    if v < 128 {
        seq![v as u8]
    } else {
        seq![(128 + (v % 128)) as u8] + varint_bytes(v / 128)
    }
}

/// The number of bytes in the encoding of `v`.
pub open spec fn varint_len(v: nat) -> nat {
    varint_bytes(v).len()
}

/// The decode specification of the variable-length integer format.
///
/// `max` is the greatest number of bytes an encoding for the target width
/// may occupy.  The result pairs the decoded value (exact, before any
/// truncation to the target width) or the error with the number of bytes
/// consumed: every byte up to and including the first terminator, every
/// byte of a too-short source, and exactly `max` bytes of an encoding whose
/// continuation flags run past the allowed length.
pub open spec fn varint_dec(s: Seq<u8>, max: nat) -> (Result<nat, VarIntDecodeError>, nat)
    decreases max,
{
    if s.len() == 0 {
        (Err(VarIntDecodeError::Incomplete(IncompleteDecodeError)), 0)
    } else if s[0] < 128 {
        (Ok(s[0] as nat), 1)
    } else if max <= 1 {
        (Err(VarIntDecodeError::TooLong), 1)
    } else {
        let sub = varint_dec(s.skip(1), (max - 1) as nat);
        (
            match sub.0 {
                Ok(v) => Ok(((s[0] - 128) + 128 * v) as nat),
                Err(e) => Err(e),
            },
            sub.1 + 1,
        )
    }
}

/// The encoding of a value is never empty, carries a continuation flag on
/// every byte but the last, and none on the last.
pub proof fn lemma_varint_bytes_shape(v: nat)
    ensures
        varint_len(v) >= 1,
        varint_bytes(v).last() < 128,
        forall|i: int| 0 <= i < varint_len(v) - 1 ==> varint_bytes(v)[i] >= 128,
    decreases v,
{
    if v >= 128 {
        lemma_varint_bytes_shape(v / 128);
        let b = varint_bytes(v);
        let sub = varint_bytes(v / 128);
        assert(b.last() == sub.last());
        assert forall|i: int| 0 <= i < varint_len(v) - 1 implies b[i] >= 128 by {
            if i > 0 {
                assert(b[i] == sub[i - 1]);
            }
        }
    }
}

/// A value below `pow128(k)` encodes in at most `k` bytes.
pub proof fn lemma_varint_len_bound(v: nat, k: nat)
    requires
        k >= 1,
        v < pow128(k),
    ensures
        varint_len(v) <= k,
    decreases k,
{
    if v >= 128 {
        assert(pow128(k) == 128 * pow128((k - 1) as nat));
        assert(k >= 2) by {
            if k == 1 {
                assert(pow128(1nat) == 128 * pow128(0nat));
                assert(pow128(0nat) == 1);
            }
        }
        assert(v / 128 < pow128((k - 1) as nat)) by {
            lemma_fundamental_div_mod(v as int, 128);
        }
        lemma_varint_len_bound(v / 128, (k - 1) as nat);
    }
}

/// Round trip at the byte level: decoding an encoding followed by anything
/// yields exactly the encoded value and consumes exactly the encoding.
pub proof fn lemma_varint_roundtrip(v: nat, rest: Seq<u8>, max: nat)
    requires
        varint_len(v) <= max,
    ensures
        varint_dec(varint_bytes(v) + rest, max) == (
            Result::<nat, VarIntDecodeError>::Ok(v),
            varint_len(v),
        ),
    decreases v,
{
    let s = varint_bytes(v) + rest;
    if v < 128 {
        assert(s[0] == v as u8);
    } else {
        assert(s[0] == (128 + (v % 128)) as u8);
        assert(varint_len(v) == 1 + varint_len(v / 128)) by {
            assert(varint_bytes(v).len() == 1 + varint_bytes(v / 128).len());
        }
        lemma_varint_bytes_shape(v / 128);
        assert(s.skip(1) =~= varint_bytes(v / 128) + rest);
        lemma_varint_roundtrip(v / 128, rest, (max - 1) as nat);
        let sub = varint_dec(s.skip(1), (max - 1) as nat);
        assert(sub.0 == Result::<nat, VarIntDecodeError>::Ok(v / 128));
        assert((s[0] - 128) + 128 * (v / 128) == v as int) by {
            lemma_fundamental_div_mod(v as int, 128);
        }
    }
}

/// A source made only of continuation bytes, shorter than the greatest
/// allowed length, exhausts before a terminator: the decode is incomplete
/// and consumes the whole source.
pub proof fn lemma_varint_dec_incomplete(s: Seq<u8>, max: nat)
    requires
        s.len() < max,
        forall|i: int| 0 <= i < s.len() ==> s[i] >= 128,
    ensures
        varint_dec(s, max) == (
            Result::<nat, VarIntDecodeError>::Err(
                VarIntDecodeError::Incomplete(IncompleteDecodeError),
            ),
            s.len(),
        ),
    decreases s.len(),
{
    if s.len() > 0 {
        assert(s[0] >= 128);
        assert(forall|i: int| 0 <= i < s.skip(1).len() ==> s.skip(1)[i] >= 128);
        lemma_varint_dec_incomplete(s.skip(1), (max - 1) as nat);
    }
}

/// Returned by packet decoders when a `VarInt<T>` was not decoded
/// successfully.
#[derive(Clone, Copy, PartialEq, Eq, Debug)]
pub enum VarIntDecodeError {
    /// There were not enough bytes.
    Incomplete(IncompleteDecodeError),
    /// The encoding was longer than the greatest number of bytes the
    /// decoded type allows.
    TooLong,
}

/// Reads one variable-length integer of at most `max` bytes.
///
/// The result is the decoded value reduced modulo two to the sixty-fourth:
/// bit groups shifted past the top of the accumulator are discarded, as the
/// wire format's truncation rule demands.
fn varint_read_core(iter: &mut DecodeIter, max: usize) -> (r: Result<u64, VarIntDecodeError>)
    requires
        old(iter).wf(),
        max >= 1,
    ensures
        final (iter).wf(),
        final (iter).source() == old(iter).source(),
        ({
            let d = varint_dec(old(iter).remaining(), max as nat);
            &&& final (iter).spec_consumed() == old(iter).spec_consumed() + d.1
            &&& match r {
                Ok(x) => d.0 matches Ok(v) && x as nat == v % 0x1_0000_0000_0000_0000nat,
                Err(e) => d.0 matches Err(se) && e == se,
            }
        }),
    decreases max,
{
    let ghost m: nat = 0x1_0000_0000_0000_0000nat;
    let b = match iter.read() {
        Ok(b) => b,
        Err(e) => {
            return Err(VarIntDecodeError::Incomplete(e));
        },
    };
    if b < 128 {
        proof {
            lemma_small_mod(b as nat, m);
        }
        Ok(b as u64)
    } else if max == 1 {
        Err(VarIntDecodeError::TooLong)
    } else {
        proof {
            assert(old(iter).remaining().skip(1) =~= iter.remaining());
        }
        match varint_read_core(iter, max - 1) {
            Ok(x) => {
                let a = (b - 128) as u64;
                let r = a.wrapping_add(x.wrapping_mul(128));
                proof {
                    let s = old(iter).remaining();
                    let sub = varint_dec(s.skip(1), (max - 1) as nat);
                    let v = sub.0->Ok_0;
                    assert(x.wrapping_mul(128) as nat == (128 * v) % m) by {
                        lemma_mul_mod_noop_left(v as int, 128, m as int);
                    }
                    let w = x.wrapping_mul(128);
                    assert(a.wrapping_add(w) as nat == ((a + w) as nat) % m) by {
                        if a + w > u64::MAX {
                            lemma_mod_multiples_vanish(1, (a + w - m) as int, m as int);
                            lemma_small_mod((a + w - m) as nat, m);
                        } else {
                            lemma_small_mod((a + w) as nat, m);
                        }
                    }
                    assert(((a as nat + (128 * v) % m) % m) == ((a + 128 * v) as nat) % m) by {
                        lemma_add_mod_noop_right(a as int, (128 * v) as int, m as int);
                    }
                }
                Ok(r)
            },
            Err(e) => Err(e),
        }
    }
}

/// Writes the encoding of `x` to the buffer.
fn varint_write_core(buf: &mut EncodeBuf, x: u64)
    requires
        old(buf).wf(),
        old(buf).spec_written() + varint_len(x as nat) <= old(buf).cap(),
    ensures
        final (buf).wf(),
        final (buf).cap() == old(buf).cap(),
        final (buf).spec_written() == old(buf).spec_written() + varint_len(x as nat),
        final (buf).bytes() == old(buf).bytes() + varint_bytes(x as nat),
    decreases x,
{
    if x < 128 {
        buf.write(x as u8);
        proof {
            assert(buf.bytes() =~= old(buf).bytes() + varint_bytes(x as nat));
        }
    } else {
        let b = (128 + (x % 128)) as u8;
        proof {
            assert(varint_len(x as nat) == 1 + varint_len((x as nat) / 128));
        }
        buf.write(b);
        varint_write_core(buf, x / 128);
        proof {
            assert(buf.bytes() =~= old(buf).bytes() + varint_bytes(x as nat));
        }
    }
}

/// Returns the number of bytes the encoding of `x` occupies.
fn varint_len_core(x: u64) -> (r: usize)
    ensures
        r == varint_len(x as nat),
        r <= 10,
    decreases x,
{
    proof {
        reveal_with_fuel(pow128, 11);
        lemma_varint_len_bound(x as nat, 10);
    }
    if x < 128 {
        1
    } else {
        1 + varint_len_core(x / 128)
    }
}

/// An integer type that the variable-length format can carry.
///
/// A value is carried as its unsigned bit pattern, `to_bits`; signed types
/// reinterpret their bits, with no change of range.  `modulus` is two to
/// the type's bit width and `max_len` the greatest number of bytes an
/// encoding for that width may occupy.
pub trait VarIntType: Copy + Sized {
    /// Two to the bit width of this type.
    spec fn modulus() -> nat;

    /// The greatest number of encoded bytes this width allows.
    spec fn max_len() -> nat;

    /// The unsigned bit pattern of this value.
    spec fn to_bits(self) -> nat;

    /// The value whose unsigned bit pattern is `b % Self::modulus()`.
    spec fn from_bits(b: nat) -> Self;

    /// The facts the codec relies on: the bit pattern is within the width,
    /// reinterpreting it restores the value, and every value of this width
    /// encodes within `max_len` bytes.
    proof fn lemma_type_props(self)
        ensures
            Self::max_len() >= 1,
            Self::modulus() <= pow128(Self::max_len()),
            Self::modulus() == 0x1_0000_0000nat || Self::modulus() == 0x1_0000_0000_0000_0000nat,
            self.to_bits() < Self::modulus(),
            Self::from_bits(self.to_bits()) == self,
    ;

    /// The greatest number of encoded bytes this width allows.
    fn max_len_exec() -> (r: usize)
        ensures
            r as nat == Self::max_len(),
            r >= 1,
    ;

    /// The unsigned bit pattern of this value.
    fn to_bits_exec(self) -> (r: u64)
        ensures
            r as nat == self.to_bits(),
    ;

    /// The value whose unsigned bit pattern is `b`, reduced to this width.
    fn from_bits_exec(b: u64) -> (r: Self)
        ensures
            r == Self::from_bits(b as nat % Self::modulus()),
    ;
}

impl VarIntType for u32 {
    open spec fn modulus() -> nat {
        0x1_0000_0000nat
    }

    open spec fn max_len() -> nat {
        5
    }

    open spec fn to_bits(self) -> nat {
        self as nat
    }

    open spec fn from_bits(b: nat) -> u32 {
        (b % 0x1_0000_0000nat) as u32
    }

    proof fn lemma_type_props(self) {
        reveal_with_fuel(pow128, 6);
        lemma_small_mod(self as nat, 0x1_0000_0000nat);
    }

    fn max_len_exec() -> usize {
        5
    }

    fn to_bits_exec(self) -> u64 {
        self as u64
    }

    fn from_bits_exec(b: u64) -> (r: u32) {
        let c = b % 0x1_0000_0000u64;
        proof {
            lemma_small_mod(c as nat, 0x1_0000_0000nat);
        }
        c as u32
    }
}

impl VarIntType for u64 {
    open spec fn modulus() -> nat {
        0x1_0000_0000_0000_0000nat
    }

    open spec fn max_len() -> nat {
        10
    }

    open spec fn to_bits(self) -> nat {
        self as nat
    }

    open spec fn from_bits(b: nat) -> u64 {
        (b % 0x1_0000_0000_0000_0000nat) as u64
    }

    proof fn lemma_type_props(self) {
        reveal_with_fuel(pow128, 11);
        lemma_small_mod(self as nat, 0x1_0000_0000_0000_0000nat);
    }

    fn max_len_exec() -> usize {
        10
    }

    fn to_bits_exec(self) -> u64 {
        self
    }

    fn from_bits_exec(b: u64) -> (r: u64) {
        proof {
            lemma_small_mod(b as nat, 0x1_0000_0000_0000_0000nat);
            lemma_small_mod(b as nat % 0x1_0000_0000_0000_0000nat, 0x1_0000_0000_0000_0000nat);
        }
        b
    }
}

impl VarIntType for i32 {
    open spec fn modulus() -> nat {
        0x1_0000_0000nat
    }

    open spec fn max_len() -> nat {
        5
    }

    open spec fn to_bits(self) -> nat {
        if self >= 0 {
            self as nat
        } else {
            (self + 0x1_0000_0000) as nat
        }
    }

    open spec fn from_bits(b: nat) -> i32 {
        let c = b % 0x1_0000_0000nat;
        if c < 0x8000_0000nat {
            c as i32
        } else {
            (c - 0x1_0000_0000) as i32
        }
    }

    proof fn lemma_type_props(self) {
        reveal_with_fuel(pow128, 6);
        lemma_small_mod(self.to_bits(), 0x1_0000_0000nat);
    }

    fn max_len_exec() -> usize {
        5
    }

    fn to_bits_exec(self) -> (r: u64) {
        0u32.wrapping_add_signed(self) as u64
    }

    fn from_bits_exec(b: u64) -> (r: i32) {
        let c = (b % 0x1_0000_0000u64) as u32;
        proof {
            lemma_small_mod(c as nat, 0x1_0000_0000nat);
        }
        0i32.wrapping_add_unsigned(c)
    }
}

impl VarIntType for i64 {
    open spec fn modulus() -> nat {
        0x1_0000_0000_0000_0000nat
    }

    open spec fn max_len() -> nat {
        10
    }

    open spec fn to_bits(self) -> nat {
        if self >= 0 {
            self as nat
        } else {
            (self + 0x1_0000_0000_0000_0000) as nat
        }
    }

    open spec fn from_bits(b: nat) -> i64 {
        let c = b % 0x1_0000_0000_0000_0000nat;
        if c < 0x8000_0000_0000_0000nat {
            c as i64
        } else {
            (c - 0x1_0000_0000_0000_0000) as i64
        }
    }

    proof fn lemma_type_props(self) {
        reveal_with_fuel(pow128, 11);
        lemma_small_mod(self.to_bits(), 0x1_0000_0000_0000_0000nat);
    }

    fn max_len_exec() -> usize {
        10
    }

    fn to_bits_exec(self) -> (r: u64) {
        0u64.wrapping_add_signed(self)
    }

    fn from_bits_exec(b: u64) -> (r: i64) {
        proof {
            lemma_small_mod(b as nat, 0x1_0000_0000_0000_0000nat);
        }
        0i64.wrapping_add_unsigned(b)
    }
}

/// A variable-length integer, wrapping the logical value it carries.
///
/// The stored value is the integer itself, never the encoded bytes.
#[derive(Clone, Copy, PartialEq, Eq, PartialOrd, Ord, Hash, Debug)]
pub struct VarInt<T>(pub T) where T: VarIntType;

impl<T: VarIntType> WireView for VarInt<T> {
    type V = T;

    open spec fn wire_view(&self) -> T {
        self.0
    }
}

impl<T: VarIntType> PacketDecode for VarInt<T> {
    type Error = VarIntDecodeError;

    type ErrV = VarIntDecodeError;

    open spec fn err_view(e: &VarIntDecodeError) -> VarIntDecodeError {
        *e
    }

    open spec fn is_incomplete(e: VarIntDecodeError) -> bool {
        e is Incomplete
    }

    open spec fn dec_spec(s: Seq<u8>) -> (Result<T, VarIntDecodeError>, nat) {
        let d = varint_dec(s, T::max_len());
        (
            match d.0 {
                Ok(v) => Ok(T::from_bits(v % T::modulus())),
                Err(e) => Err(e),
            },
            d.1,
        )
    }

    fn decode(iter: &mut DecodeIter) -> (r: Result<VarInt<T>, VarIntDecodeError>) {
        let max = T::max_len_exec();
        match varint_read_core(iter, max) {
            Ok(x) => {
                let v = T::from_bits_exec(x);
                proof {
                    let d = varint_dec(old(iter).remaining(), T::max_len());
                    let full = d.0->Ok_0;
                    v.lemma_type_props();
                    assert((full % 0x1_0000_0000_0000_0000nat) % T::modulus() == full
                        % T::modulus()) by {
                        if T::modulus() == 0x1_0000_0000nat {
                            lemma_mod_mod(full as int, 0x1_0000_0000, 0x1_0000_0000);
                        }
                    }
                }
                Ok(VarInt(v))
            },
            Err(e) => Err(e),
        }
    }
}

impl<T: VarIntType> crate::laws::Codec for VarInt<T> {
    proof fn lemma_roundtrip(v: T, rest: Seq<u8>) {
        v.lemma_type_props();
        lemma_varint_len_bound(v.to_bits(), T::max_len());
        lemma_varint_roundtrip(v.to_bits(), rest, T::max_len());
        lemma_small_mod(v.to_bits(), T::modulus());
    }

    proof fn lemma_truncation(v: T) {
        v.lemma_type_props();
        lemma_varint_bytes_shape(v.to_bits());
        lemma_varint_len_bound(v.to_bits(), T::max_len());
        let e = varint_bytes(v.to_bits());
        let t = e.take(e.len() - 1);
        assert(forall|i: int| 0 <= i < t.len() ==> t[i] >= 128);
        lemma_varint_dec_incomplete(t, T::max_len());
    }
}

impl<T: VarIntType> PacketEncode for VarInt<T> {
    open spec fn enc_spec(v: T) -> Seq<u8> {
        varint_bytes(v.to_bits())
    }

    open spec fn encodable(v: T) -> bool {
        true
    }

    fn encode_len(&self) -> (r: usize) {
        varint_len_core(self.0.to_bits_exec())
    }

    fn encode(&self, buf: &mut EncodeBuf) {
        varint_write_core(buf, self.0.to_bits_exec());
    }
}

} // verus!
