//! Container codecs: dynamic sequences, fixed-size arrays, and the
//! length-unprefixed slice wrapper.
//!
//! A dynamic sequence is encoded as a variable-length count followed by the
//! concatenated element encodings.  A fixed-size array carries the same
//! redundant count on the wire, which must equal the array's static length
//! exactly.  The unprefixed wrapper writes only the concatenated elements;
//! whoever decodes it must learn the count from context.

use crate::WireView;
use crate::decode::{DecodeIter, PacketDecode, vec_into_array};
use crate::encode::{EncodeBuf, PacketEncode};
use crate::laws::Codec;
use crate::varint::{VarInt, VarIntDecodeError};
use vstd::prelude::*;

verus! {

/// The views of the elements of a sequence.
pub open spec fn view_seq<T: WireView>(s: Seq<T>) -> Seq<T::V> {
    s.map_values(|t: T| t.wire_view())
}

/// The concatenated encodings of a sequence of element views.
pub open spec fn enc_elems<T: PacketEncode>(v: Seq<T::V>) -> Seq<u8>
    decreases v.len(),
{
    if v.len() == 0 {
        seq![]
    } else {
        T::enc_spec(v.first()) + enc_elems::<T>(v.drop_first())
    }
}

/// Every element of a sequence of views is encodable.
pub open spec fn all_encodable<T: PacketEncode>(v: Seq<T::V>) -> bool {
    forall|i: int| 0 <= i < v.len() ==> T::encodable(#[trigger] v[i])
}

/// The decode specification for `n` consecutive elements: the element views
/// in order, or the index of the first failing element with its error,
/// together with the bytes consumed.
pub open spec fn dec_elems<T: PacketDecode>(s: Seq<u8>, n: nat) -> (
    Result<Seq<T::V>, (nat, T::ErrV)>,
    nat,
)
    decreases n,
{
    if n == 0 {
        (Ok(seq![]), 0)
    } else {
        let d = T::dec_spec(s);
        match d.0 {
            Err(e) => (Err((0nat, e)), d.1),
            Ok(v) => {
                let rest = dec_elems::<T>(s.skip(d.1 as int), (n - 1) as nat);
                (
                    match rest.0 {
                        Ok(vs) => Ok(seq![v] + vs),
                        Err(ie) => Err((ie.0 + 1, ie.1)),
                    },
                    d.1 + rest.1,
                )
            },
        }
    }
}

/// Appending one view extends the concatenated encoding by its encoding.
pub proof fn lemma_enc_elems_snoc<T: PacketEncode>(v: Seq<T::V>, x: T::V)
    ensures
        enc_elems::<T>(v.push(x)) == enc_elems::<T>(v) + T::enc_spec(x),
    decreases v.len(),
{
    let w = v.push(x);
    if v.len() == 0 {
        assert(w.first() == x);
        assert(w.drop_first() =~= Seq::<T::V>::empty());
        assert(enc_elems::<T>(w) == T::enc_spec(x) + enc_elems::<T>(Seq::<T::V>::empty()));
        assert(enc_elems::<T>(v) + T::enc_spec(x) =~= T::enc_spec(x) + enc_elems::<T>(
            Seq::<T::V>::empty(),
        ));
    } else {
        assert(w.first() == v.first());
        assert(w.drop_first() =~= v.drop_first().push(x));
        lemma_enc_elems_snoc::<T>(v.drop_first(), x);
        assert(enc_elems::<T>(w) == T::enc_spec(v.first()) + (enc_elems::<T>(v.drop_first())
            + T::enc_spec(x)));
        assert(T::enc_spec(v.first()) + (enc_elems::<T>(v.drop_first()) + T::enc_spec(x)) =~= (
        T::enc_spec(v.first()) + enc_elems::<T>(v.drop_first())) + T::enc_spec(x));
    }
}

/// The concatenated encoding of a prefix is a prefix of the whole.
pub proof fn lemma_enc_elems_split<T: PacketEncode>(v: Seq<T::V>, i: int)
    requires
        0 <= i <= v.len(),
    ensures
        enc_elems::<T>(v) == enc_elems::<T>(v.take(i)) + enc_elems::<T>(v.skip(i)),
    decreases i,
{
    if i == 0 {
        assert(v.take(0) =~= Seq::<T::V>::empty());
        assert(v.skip(0) =~= v);
        assert(enc_elems::<T>(v.take(0)) + enc_elems::<T>(v.skip(0)) =~= enc_elems::<T>(v));
    } else {
        lemma_enc_elems_split::<T>(v, i - 1);
        assert(v.take(i) =~= v.take(i - 1).push(v[i - 1]));
        lemma_enc_elems_snoc::<T>(v.take(i - 1), v[i - 1]);
        assert(enc_elems::<T>(v.skip(i - 1)) == T::enc_spec(v[i - 1]) + enc_elems::<T>(v.skip(i)))
            by {
            assert(v.skip(i - 1).len() > 0);
            assert(v.skip(i - 1).first() == v[i - 1]);
            assert(v.skip(i - 1).drop_first() =~= v.skip(i));
        }
        assert((enc_elems::<T>(v.take(i - 1)) + T::enc_spec(v[i - 1])) + enc_elems::<T>(v.skip(i))
            =~= enc_elems::<T>(v.take(i - 1)) + (T::enc_spec(v[i - 1]) + enc_elems::<T>(
            v.skip(i),
        )));
    }
}

/// Returned by packet decoders when a `Vec<T>` was not decoded
/// successfully.
#[derive(Clone, PartialEq, Eq, Debug)]
pub enum VecDecodeError<E> {
    /// The element count failed to decode.
    Length(VarIntDecodeError),
    /// An element could not be decoded.
    Item {
        /// The index of the element that was not decoded.
        index: usize,
        /// The error the element decoder returned.
        err: E,
    },
}

impl<T: WireView> WireView for Vec<T> {
    type V = Seq<T::V>;

    open spec fn wire_view(&self) -> Seq<T::V> {
        view_seq(self@)
    }
}

impl<T: PacketDecode> PacketDecode for Vec<T> {
    type Error = VecDecodeError<T::Error>;

    type ErrV = VecDecodeError<T::ErrV>;

    open spec fn err_view(e: &VecDecodeError<T::Error>) -> VecDecodeError<T::ErrV> {
        match e {
            VecDecodeError::Length(le) => VecDecodeError::Length(*le),
            VecDecodeError::Item { index, err } => VecDecodeError::Item {
                index: *index,
                err: T::err_view(err),
            },
        }
    }

    open spec fn is_incomplete(e: VecDecodeError<T::ErrV>) -> bool {
        match e {
            VecDecodeError::Length(le) => le is Incomplete,
            VecDecodeError::Item { index, err } => T::is_incomplete(err),
        }
    }

    open spec fn dec_spec(s: Seq<u8>) -> (Result<Seq<T::V>, VecDecodeError<T::ErrV>>, nat) {
        let d = <VarInt<u32> as PacketDecode>::dec_spec(s);
        match d.0 {
            Err(e) => (Err(VecDecodeError::Length(e)), d.1),
            Ok(n32) => {
                let sub = dec_elems::<T>(s.skip(d.1 as int), n32 as nat);
                (
                    match sub.0 {
                        Ok(vs) => Ok(vs),
                        Err(ie) => Err(VecDecodeError::Item { index: ie.0 as usize, err: ie.1 }),
                    },
                    d.1 + sub.1,
                )
            },
        }
    }

    fn decode(iter: &mut DecodeIter) -> (r: Result<Vec<T>, VecDecodeError<T::Error>>) {
        let n32 = match VarInt::<u32>::decode(iter) {
            Ok(v) => v.0,
            Err(e) => {
                return Err(VecDecodeError::Length(e));
            },
        };
        proof {
            let vd = <VarInt<u32> as PacketDecode>::dec_spec(old(iter).remaining());
            assert(iter.remaining() =~= old(iter).remaining().skip(vd.1 as int));
        }
        match decode_elems::<T>(iter, n32 as usize) {
            Ok(out) => Ok(out),
            Err((index, err)) => Err(VecDecodeError::Item { index, err }),
        }
    }
}

/// Decodes `k` consecutive elements, or reports the index of the first
/// element whose decoder failed together with its error.
fn decode_elems<T: PacketDecode>(iter: &mut DecodeIter, k: usize) -> (r: Result<
    Vec<T>,
    (usize, T::Error),
>)
    requires
        old(iter).wf(),
    ensures
        final (iter).wf(),
        final (iter).source() == old(iter).source(),
        ({
            let d = dec_elems::<T>(old(iter).remaining(), k as nat);
            &&& final (iter).spec_consumed() == old(iter).spec_consumed() + d.1
            &&& match r {
                Ok(out) => d.0 matches Ok(vs) && view_seq(out@) == vs && out@.len() == k,
                Err(ie) => d.0 matches Err(se) && ie.0 as nat == se.0 && T::err_view(&ie.1)
                    == se.1,
            }
        }),
{
    let ghost s1 = old(iter).remaining();
    let ghost whole = dec_elems::<T>(s1, k as nat);
    let mut out: Vec<T> = Vec::new();
    let mut i: usize = 0;
    proof {
        assert(view_seq(out@) =~= Seq::<T::V>::empty());
        assert(s1.skip(0) =~= s1);
        if whole.0 is Ok {
            assert(view_seq(out@) + whole.0->Ok_0 =~= whole.0->Ok_0);
        }
    }
    while i < k
        invariant
            iter.wf(),
            s1 == old(iter).remaining(),
            whole == dec_elems::<T>(s1, k as nat),
            iter.source() == old(iter).source(),
            iter.spec_consumed() >= old(iter).spec_consumed(),
            iter.remaining() == s1.skip((iter.spec_consumed() - old(iter).spec_consumed()) as int),
            i <= k,
            out@.len() == i,
            ({
                let fut = dec_elems::<T>(iter.remaining(), (k - i) as nat);
                &&& whole.1 == (iter.spec_consumed() - old(iter).spec_consumed()) + fut.1
                &&& whole.0 == match fut.0 {
                    Ok(vs) => Ok::<Seq<T::V>, (nat, T::ErrV)>(view_seq(out@) + vs),
                    Err(ie) => Err::<Seq<T::V>, (nat, T::ErrV)>(((i + ie.0) as nat, ie.1)),
                }
            }),
        decreases k - i,
    {
        let ghost pre = *iter;
        let item = match T::decode(iter) {
            Ok(t) => t,
            Err(e) => {
                proof {
                    let d = T::dec_spec(pre.remaining());
                    let fut = dec_elems::<T>(pre.remaining(), (k - i) as nat);
                    assert(fut.0 == Err::<Seq<T::V>, (nat, T::ErrV)>((0nat, d.0->Err_0)));
                }
                return Err((i, e));
            },
        };
        let ghost out0 = out@;
        out.push(item);
        i = i + 1;
        proof {
            let d = T::dec_spec(pre.remaining());
            let iv = d.0->Ok_0;
            assert(iter.remaining() =~= pre.remaining().skip(d.1 as int));
            assert(iter.remaining() =~= s1.skip(
                (iter.spec_consumed() - old(iter).spec_consumed()) as int,
            ));
            let futpre = dec_elems::<T>(pre.remaining(), (k - (i - 1)) as nat);
            let fut = dec_elems::<T>(iter.remaining(), (k - i) as nat);
            assert(futpre.1 == d.1 + fut.1);
            assert(futpre.0 == match fut.0 {
                Ok(vs) => Ok::<Seq<T::V>, (nat, T::ErrV)>(seq![iv] + vs),
                Err(ie) => Err::<Seq<T::V>, (nat, T::ErrV)>((ie.0 + 1, ie.1)),
            });
            assert(view_seq(out@) =~= view_seq(out0).push(iv));
            if fut.0 is Ok {
                let vs = fut.0->Ok_0;
                assert(view_seq(out0) + (seq![iv] + vs) =~= view_seq(out@) + vs);
            }
        }
    }
    proof {
        let fut = dec_elems::<T>(iter.remaining(), 0);
        assert(view_seq(out@) + fut.0->Ok_0 =~= view_seq(out@));
    }
    Ok(out)
}

impl<T: PacketEncode> PacketEncode for Vec<T> {
    open spec fn enc_spec(v: Seq<T::V>) -> Seq<u8> {
        <VarInt<u32> as PacketEncode>::enc_spec(v.len() as u32) + enc_elems::<T>(v)
    }

    open spec fn encodable(v: Seq<T::V>) -> bool {
        &&& v.len() <= u32::MAX
        &&& all_encodable::<T>(v)
        &&& (<VarInt<u32> as PacketEncode>::enc_spec(v.len() as u32) + enc_elems::<T>(v)).len()
            <= usize::MAX
    }

    fn encode_len(&self) -> (r: usize) {
        let ghost v = view_seq(self@);
        let n = self.len();
        let mut total: usize = VarInt::<u32>(n as u32).encode_len();
        let ghost lenpart = <VarInt<u32> as PacketEncode>::enc_spec(n as u32).len();
        let mut i: usize = 0;
        proof {
            assert(enc_elems::<T>(v.take(0)) =~= Seq::<u8>::empty()) by {
                assert(v.take(0) =~= Seq::<T::V>::empty());
            }
        }
        while i < n
            invariant
                n == self@.len(),
                v == view_seq(self@),
                Self::encodable(v),
                lenpart == <VarInt<u32> as PacketEncode>::enc_spec(n as u32).len(),
                i <= n,
                total == lenpart + enc_elems::<T>(v.take(i as int)).len(),
            decreases n - i,
        {
            proof {
                assert(v[i as int] == self@[i as int].wire_view());
                lemma_enc_elems_split::<T>(v, i + 1);
                assert(v.take(i + 1) =~= v.take(i as int).push(v[i as int]));
                lemma_enc_elems_snoc::<T>(v.take(i as int), v[i as int]);
            }
            let e = self[i].encode_len();
            total = total + e;
            i = i + 1;
        }
        proof {
            assert(v.take(n as int) =~= v);
        }
        total
    }

    fn encode(&self, buf: &mut EncodeBuf) {
        let ghost v = view_seq(self@);
        let n = self.len();
        proof {
            assert(Self::enc_spec(v).len() >= <VarInt<u32> as PacketEncode>::enc_spec(
                n as u32,
            ).len());
        }
        VarInt::<u32>(n as u32).encode(buf);
        let ghost base = old(buf).bytes() + <VarInt<u32> as PacketEncode>::enc_spec(n as u32);
        let mut i: usize = 0;
        proof {
            assert(enc_elems::<T>(v.take(0)) =~= Seq::<u8>::empty()) by {
                assert(v.take(0) =~= Seq::<T::V>::empty());
            }
            assert(buf.bytes() =~= base + enc_elems::<T>(v.take(0)));
        }
        while i < n
            invariant
                n == self@.len(),
                v == view_seq(self@),
                Self::encodable(v),
                base == old(buf).bytes() + <VarInt<u32> as PacketEncode>::enc_spec(n as u32),
                old(buf).wf(),
                old(buf).spec_written() + Self::enc_spec(v).len() <= old(buf).cap(),
                i <= n,
                buf.wf(),
                buf.cap() == old(buf).cap(),
                buf.spec_written() == old(buf).spec_written() + <VarInt<
                    u32,
                > as PacketEncode>::enc_spec(n as u32).len() + enc_elems::<T>(
                    v.take(i as int),
                ).len(),
                buf.bytes() == base + enc_elems::<T>(v.take(i as int)),
            decreases n - i,
        {
            proof {
                assert(v[i as int] == self@[i as int].wire_view());
                lemma_enc_elems_split::<T>(v, i + 1);
                assert(v.take(i + 1) =~= v.take(i as int).push(v[i as int]));
                lemma_enc_elems_snoc::<T>(v.take(i as int), v[i as int]);
            }
            self[i].encode(buf);
            proof {
                assert(buf.bytes() =~= base + enc_elems::<T>(v.take(i + 1)));
            }
            i = i + 1;
        }
        proof {
            assert(v.take(n as int) =~= v);
            assert(buf.bytes() =~= old(buf).bytes() + Self::enc_spec(v));
        }
    }
}

/// Returned by packet decoders when a `[T; N]` was not decoded
/// successfully.
#[derive(Clone, PartialEq, Eq, Debug)]
pub enum ArrayDecodeError<E> {
    /// The element count failed to decode.
    Length(VarIntDecodeError),
    /// The count on the wire does not match the expected static length.
    BadLength {
        /// The count carried on the wire.
        len: usize,
        /// The array's static length.
        expected: usize,
    },
    /// An element could not be decoded.
    Item {
        /// The index of the element that was not decoded.
        index: usize,
        /// The error the element decoder returned.
        err: E,
    },
}

impl<T: WireView, const N: usize> WireView for [T; N] {
    type V = Seq<T::V>;

    open spec fn wire_view(&self) -> Seq<T::V> {
        view_seq(self@)
    }
}

impl<T: PacketDecode, const N: usize> PacketDecode for [T; N] {
    type Error = ArrayDecodeError<T::Error>;

    type ErrV = ArrayDecodeError<T::ErrV>;

    open spec fn err_view(e: &ArrayDecodeError<T::Error>) -> ArrayDecodeError<T::ErrV> {
        match e {
            ArrayDecodeError::Length(le) => ArrayDecodeError::Length(*le),
            ArrayDecodeError::BadLength { len, expected } => ArrayDecodeError::BadLength {
                len: *len,
                expected: *expected,
            },
            ArrayDecodeError::Item { index, err } => ArrayDecodeError::Item {
                index: *index,
                err: T::err_view(err),
            },
        }
    }

    open spec fn is_incomplete(e: ArrayDecodeError<T::ErrV>) -> bool {
        match e {
            ArrayDecodeError::Length(le) => le is Incomplete,
            ArrayDecodeError::BadLength { len, expected } => false,
            ArrayDecodeError::Item { index, err } => T::is_incomplete(err),
        }
    }

    open spec fn dec_spec(s: Seq<u8>) -> (Result<Seq<T::V>, ArrayDecodeError<T::ErrV>>, nat) {
        let d = <VarInt<u32> as PacketDecode>::dec_spec(s);
        match d.0 {
            Err(e) => (Err(ArrayDecodeError::Length(e)), d.1),
            Ok(n32) => {
                let k = if n32 as nat <= N as nat {
                    n32 as nat
                } else {
                    N as nat
                };
                let sub = dec_elems::<T>(s.skip(d.1 as int), k);
                (
                    match sub.0 {
                        Err(ie) => Err(ArrayDecodeError::Item { index: ie.0 as usize, err: ie.1 }),
                        Ok(vs) => if n32 as nat == N as nat {
                            Ok(vs)
                        } else {
                            Err(ArrayDecodeError::BadLength { len: n32 as usize, expected: N })
                        },
                    },
                    d.1 + sub.1,
                )
            },
        }
    }

    fn decode(iter: &mut DecodeIter) -> (r: Result<[T; N], ArrayDecodeError<T::Error>>) {
        let n32 = match VarInt::<u32>::decode(iter) {
            Ok(v) => v.0,
            Err(e) => {
                return Err(ArrayDecodeError::Length(e));
            },
        };
        proof {
            let vd = <VarInt<u32> as PacketDecode>::dec_spec(old(iter).remaining());
            assert(iter.remaining() =~= old(iter).remaining().skip(vd.1 as int));
        }
        let n = n32 as usize;
        let k = if n <= N {
            n
        } else {
            N
        };
        let out = match decode_elems::<T>(iter, k) {
            Ok(out) => out,
            Err((index, err)) => {
                return Err(ArrayDecodeError::Item { index, err });
            },
        };
        if n != N {
            return Err(ArrayDecodeError::BadLength { len: n, expected: N });
        }
        match vec_into_array::<T, N>(out) {
            Some(arr) => Ok(arr),
            None => vstd::pervasive::unreached(),
        }
    }
}

impl<T: PacketEncode, const N: usize> PacketEncode for [T; N] {
    open spec fn enc_spec(v: Seq<T::V>) -> Seq<u8> {
        <VarInt<u32> as PacketEncode>::enc_spec(v.len() as u32) + enc_elems::<T>(v)
    }

    open spec fn encodable(v: Seq<T::V>) -> bool {
        &&& v.len() == N
        &&& v.len() <= u32::MAX
        &&& all_encodable::<T>(v)
        &&& (<VarInt<u32> as PacketEncode>::enc_spec(v.len() as u32) + enc_elems::<T>(v)).len()
            <= usize::MAX
    }

    fn encode_len(&self) -> (r: usize) {
        let ghost v = view_seq(self@);
        let mut total: usize = VarInt::<u32>(N as u32).encode_len();
        let mut i: usize = 0;
        proof {
            assert(enc_elems::<T>(v.take(0)) =~= Seq::<u8>::empty()) by {
                assert(v.take(0) =~= Seq::<T::V>::empty());
            }
        }
        while i < N
            invariant
                v == view_seq(self@),
                v.len() == N,
                Self::encodable(v),
                i <= N,
                total == <VarInt<u32> as PacketEncode>::enc_spec(N as u32).len() + enc_elems::<T>(
                    v.take(i as int),
                ).len(),
            decreases N - i,
        {
            proof {
                assert(v[i as int] == self@[i as int].wire_view());
                lemma_enc_elems_split::<T>(v, i + 1);
                assert(v.take(i + 1) =~= v.take(i as int).push(v[i as int]));
                lemma_enc_elems_snoc::<T>(v.take(i as int), v[i as int]);
            }
            let e = vstd::array::array_index_get(self, i).encode_len();
            total = total + e;
            i = i + 1;
        }
        proof {
            assert(v.take(N as int) =~= v);
        }
        total
    }

    fn encode(&self, buf: &mut EncodeBuf) {
        let ghost v = view_seq(self@);
        proof {
            assert(Self::enc_spec(v).len() >= <VarInt<u32> as PacketEncode>::enc_spec(
                N as u32,
            ).len());
        }
        VarInt::<u32>(N as u32).encode(buf);
        let ghost base = old(buf).bytes() + <VarInt<u32> as PacketEncode>::enc_spec(N as u32);
        let mut i: usize = 0;
        proof {
            assert(enc_elems::<T>(v.take(0)) =~= Seq::<u8>::empty()) by {
                assert(v.take(0) =~= Seq::<T::V>::empty());
            }
            assert(buf.bytes() =~= base + enc_elems::<T>(v.take(0)));
        }
        while i < N
            invariant
                v == view_seq(self@),
                v.len() == N,
                Self::encodable(v),
                base == old(buf).bytes() + <VarInt<u32> as PacketEncode>::enc_spec(N as u32),
                old(buf).wf(),
                old(buf).spec_written() + Self::enc_spec(v).len() <= old(buf).cap(),
                i <= N,
                buf.wf(),
                buf.cap() == old(buf).cap(),
                buf.spec_written() == old(buf).spec_written() + <VarInt<
                    u32,
                > as PacketEncode>::enc_spec(N as u32).len() + enc_elems::<T>(
                    v.take(i as int),
                ).len(),
                buf.bytes() == base + enc_elems::<T>(v.take(i as int)),
            decreases N - i,
        {
            proof {
                assert(v[i as int] == self@[i as int].wire_view());
                lemma_enc_elems_split::<T>(v, i + 1);
                assert(v.take(i + 1) =~= v.take(i as int).push(v[i as int]));
                lemma_enc_elems_snoc::<T>(v.take(i as int), v[i as int]);
            }
            vstd::array::array_index_get(self, i).encode(buf);
            proof {
                assert(buf.bytes() =~= base + enc_elems::<T>(v.take(i + 1)));
            }
            i = i + 1;
        }
        proof {
            assert(v.take(N as int) =~= v);
            assert(buf.bytes() =~= old(buf).bytes() + Self::enc_spec(v));
        }
    }
}

impl<T: Codec, const N: usize> Codec for [T; N] {
    proof fn lemma_roundtrip(v: Seq<T::V>, rest: Seq<u8>) {
        let lp = <VarInt<u32> as PacketEncode>::enc_spec(v.len() as u32);
        let es = enc_elems::<T>(v);
        <VarInt<u32> as Codec>::lemma_roundtrip(v.len() as u32, es + rest);
        assert(Self::enc_spec(v) + rest =~= lp + (es + rest));
        assert((lp + (es + rest)).skip(lp.len() as int) =~= es + rest);
        lemma_dec_elems_roundtrip::<T>(v, rest);
    }

    proof fn lemma_truncation(v: Seq<T::V>) {
        let lp = <VarInt<u32> as PacketEncode>::enc_spec(v.len() as u32);
        let es = enc_elems::<T>(v);
        let e = Self::enc_spec(v);
        <VarInt<u32> as Codec>::lemma_truncation(v.len() as u32);
        if v.len() == 0 {
            assert(es =~= Seq::<u8>::empty());
            assert(e =~= lp);
            assert(e.take(e.len() - 1) =~= lp.take(lp.len() - 1));
        } else {
            lemma_dec_elems_truncation::<T>(v);
            let cut = es.take(es.len() - 1);
            <VarInt<u32> as Codec>::lemma_roundtrip(v.len() as u32, cut);
            assert(e.take(e.len() - 1) =~= lp + cut);
            assert((lp + cut).skip(lp.len() as int) =~= cut);
        }
    }
}

/// Decoding the concatenated encodings of a sequence of views, followed by
/// anything, yields the views and consumes exactly the concatenation.
pub proof fn lemma_dec_elems_roundtrip<T: Codec>(v: Seq<T::V>, rest: Seq<u8>)
    requires
        all_encodable::<T>(v),
    ensures
        dec_elems::<T>(enc_elems::<T>(v) + rest, v.len()) == (
            Result::<Seq<T::V>, (nat, T::ErrV)>::Ok(v),
            enc_elems::<T>(v).len(),
        ),
    decreases v.len(),
{
    if v.len() == 0 {
        assert(v =~= Seq::<T::V>::empty());
        assert(dec_elems::<T>(enc_elems::<T>(v) + rest, 0).0->Ok_0 =~= v);
    } else {
        let e0 = T::enc_spec(v.first());
        let tail = enc_elems::<T>(v.drop_first());
        let s = enc_elems::<T>(v) + rest;
        assert(s =~= e0 + (tail + rest));
        assert(T::encodable(v.first())) by {
            assert(v[0] == v.first());
        }
        T::lemma_roundtrip(v.first(), tail + rest);
        assert(s.skip(e0.len() as int) =~= tail + rest);
        assert(all_encodable::<T>(v.drop_first())) by {
            assert(forall|i: int|
                0 <= i < v.drop_first().len() ==> v.drop_first()[i] == v[i + 1]);
        }
        lemma_dec_elems_roundtrip::<T>(v.drop_first(), rest);
        assert(seq![v.first()] + v.drop_first() =~= v);
    }
}

/// Decoding the concatenated encodings with the final byte removed fails on
/// the last element with an incomplete error.
pub proof fn lemma_dec_elems_truncation<T: Codec>(v: Seq<T::V>)
    requires
        all_encodable::<T>(v),
        v.len() >= 1,
    ensures
        enc_elems::<T>(v).len() >= 1,
        ({
            let e = enc_elems::<T>(v);
            let d = dec_elems::<T>(e.take(e.len() - 1), v.len());
            d.0 matches Err(ie) && T::is_incomplete(ie.1)
        }),
    decreases v.len(),
{
    let e = enc_elems::<T>(v);
    let e0 = T::enc_spec(v.first());
    let tail = enc_elems::<T>(v.drop_first());
    assert(T::encodable(v.first())) by {
        assert(v[0] == v.first());
    }
    T::lemma_truncation(v.first());
    assert(e == e0 + tail);
    if v.len() == 1 {
        assert(tail =~= Seq::<u8>::empty()) by {
            assert(v.drop_first() =~= Seq::<T::V>::empty());
        }
        assert(e.take(e.len() - 1) =~= e0.take(e0.len() - 1));
    } else {
        assert(all_encodable::<T>(v.drop_first())) by {
            assert(forall|i: int|
                0 <= i < v.drop_first().len() ==> v.drop_first()[i] == v[i + 1]);
        }
        lemma_dec_elems_truncation::<T>(v.drop_first());
        let cut = tail.take(tail.len() - 1);
        assert(e.take(e.len() - 1) =~= e0 + cut);
        T::lemma_roundtrip(v.first(), cut);
        assert((e0 + cut).skip(e0.len() as int) =~= cut);
    }
}

impl<T: Codec> Codec for Vec<T> {
    proof fn lemma_roundtrip(v: Seq<T::V>, rest: Seq<u8>) {
        let lp = <VarInt<u32> as PacketEncode>::enc_spec(v.len() as u32);
        let es = enc_elems::<T>(v);
        <VarInt<u32> as Codec>::lemma_roundtrip(v.len() as u32, es + rest);
        assert(Self::enc_spec(v) + rest =~= lp + (es + rest));
        assert((lp + (es + rest)).skip(lp.len() as int) =~= es + rest);
        lemma_dec_elems_roundtrip::<T>(v, rest);
    }

    proof fn lemma_truncation(v: Seq<T::V>) {
        let lp = <VarInt<u32> as PacketEncode>::enc_spec(v.len() as u32);
        let es = enc_elems::<T>(v);
        let e = Self::enc_spec(v);
        <VarInt<u32> as Codec>::lemma_truncation(v.len() as u32);
        if v.len() == 0 {
            assert(es =~= Seq::<u8>::empty());
            assert(e =~= lp);
            assert(e.take(e.len() - 1) =~= lp.take(lp.len() - 1));
        } else {
            lemma_dec_elems_truncation::<T>(v);
            let cut = es.take(es.len() - 1);
            <VarInt<u32> as Codec>::lemma_roundtrip(v.len() as u32, cut);
            assert(e.take(e.len() - 1) =~= lp + cut);
            assert((lp + cut).skip(lp.len() as int) =~= cut);
        }
    }
}

/// A sequence which is encoded without a leading count.
///
/// Whoever decodes one must know the element count from context: a field
/// whose length another field implies, or one that runs to the end of the
/// packet.  The count's absence is part of the type, because it changes the
/// wire bytes.
#[derive(Clone, Debug)]
pub struct UnprefixedSlice<T>(pub Vec<T>);

impl<T: WireView> WireView for UnprefixedSlice<T> {
    type V = Seq<T::V>;

    open spec fn wire_view(&self) -> Seq<T::V> {
        view_seq(self.0@)
    }
}

impl<T> From<Vec<T>> for UnprefixedSlice<T> {
    fn from(v: Vec<T>) -> (r: UnprefixedSlice<T>) {
        UnprefixedSlice(v)
    }
}

impl<T> vstd::std_specs::convert::FromSpecImpl<Vec<T>> for UnprefixedSlice<T> {
    open spec fn obeys_from_spec() -> bool {
        true
    }

    open spec fn from_spec(v: Vec<T>) -> UnprefixedSlice<T> {
        UnprefixedSlice(v)
    }
}

impl<T: PacketEncode> PacketEncode for UnprefixedSlice<T> {
    open spec fn enc_spec(v: Seq<T::V>) -> Seq<u8> {
        enc_elems::<T>(v)
    }

    open spec fn encodable(v: Seq<T::V>) -> bool {
        &&& all_encodable::<T>(v)
        &&& enc_elems::<T>(v).len() <= usize::MAX
    }

    fn encode_len(&self) -> (r: usize) {
        let ghost v = view_seq(self.0@);
        let n = self.0.len();
        let mut total: usize = 0;
        let mut i: usize = 0;
        proof {
            assert(enc_elems::<T>(v.take(0)) =~= Seq::<u8>::empty()) by {
                assert(v.take(0) =~= Seq::<T::V>::empty());
            }
        }
        while i < n
            invariant
                n == self.0@.len(),
                v == view_seq(self.0@),
                Self::encodable(v),
                i <= n,
                total == enc_elems::<T>(v.take(i as int)).len(),
            decreases n - i,
        {
            proof {
                assert(v[i as int] == self.0@[i as int].wire_view());
                lemma_enc_elems_split::<T>(v, i + 1);
                assert(v.take(i + 1) =~= v.take(i as int).push(v[i as int]));
                lemma_enc_elems_snoc::<T>(v.take(i as int), v[i as int]);
            }
            let e = self.0[i].encode_len();
            total = total + e;
            i = i + 1;
        }
        proof {
            assert(v.take(n as int) =~= v);
        }
        total
    }

    fn encode(&self, buf: &mut EncodeBuf) {
        let ghost v = view_seq(self.0@);
        let n = self.0.len();
        let mut i: usize = 0;
        proof {
            assert(enc_elems::<T>(v.take(0)) =~= Seq::<u8>::empty()) by {
                assert(v.take(0) =~= Seq::<T::V>::empty());
            }
            assert(buf.bytes() =~= old(buf).bytes() + enc_elems::<T>(v.take(0)));
        }
        while i < n
            invariant
                n == self.0@.len(),
                v == view_seq(self.0@),
                Self::encodable(v),
                old(buf).wf(),
                old(buf).spec_written() + Self::enc_spec(v).len() <= old(buf).cap(),
                i <= n,
                buf.wf(),
                buf.cap() == old(buf).cap(),
                buf.spec_written() == old(buf).spec_written() + enc_elems::<T>(
                    v.take(i as int),
                ).len(),
                buf.bytes() == old(buf).bytes() + enc_elems::<T>(v.take(i as int)),
            decreases n - i,
        {
            proof {
                assert(v[i as int] == self.0@[i as int].wire_view());
                lemma_enc_elems_split::<T>(v, i + 1);
                assert(v.take(i + 1) =~= v.take(i as int).push(v[i as int]));
                lemma_enc_elems_snoc::<T>(v.take(i as int), v[i as int]);
            }
            self.0[i].encode(buf);
            proof {
                assert(buf.bytes() =~= old(buf).bytes() + enc_elems::<T>(v.take(i + 1)));
            }
            i = i + 1;
        }
        proof {
            assert(v.take(n as int) =~= v);
        }
    }
}

} // verus!
