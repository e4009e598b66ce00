//! The encode buffer and the encoding traits.
//!
//! An [`EncodeBuf`] is a pre-sized output buffer with an exact-capacity
//! contract: the capacity is computed up front from a length query, every
//! write must fit in the remaining space, and the buffer may only be
//! consumed as an owned byte sequence once the write head has reached the
//! capacity exactly.  What unchecked writers usually take on a caller's
//! promise is enforced here by `requires` clauses that every caller
//! discharges statically.

use crate::WireView;
use crate::meta::PacketMeta;
use crate::varint::{VarInt, varint_bytes, varint_len};
use vstd::prelude::*;

verus! {

/// A buffer of bytes that will form one encoded packet.
pub struct EncodeBuf {
    buf: Vec<u8>,
    head: usize,
}

impl EncodeBuf {
    /// The total number of bytes this buffer was sized for.
    pub closed spec fn cap(&self) -> nat {
        self.buf@.len()
    }

    /// The number of bytes written so far.
    pub closed spec fn spec_written(&self) -> nat {
        self.head as nat
    }

    /// The bytes written so far, in order.
    pub closed spec fn bytes(&self) -> Seq<u8> {
        self.buf@.take(self.head as int)
    }

    /// The write head never exceeds the capacity, and the written bytes are
    /// exactly as many as the head has advanced.
    pub open spec fn wf(&self) -> bool {
        &&& self.spec_written() <= self.cap()
        &&& self.bytes().len() == self.spec_written()
    }

    /// Creates a new empty buffer with space for exactly `len` bytes.
    pub fn new(len: usize) -> (r: EncodeBuf)
        ensures
            r.wf(),
            r.cap() == len,
            r.spec_written() == 0,
            r.bytes() == Seq::<u8>::empty(),
    {
        let mut buf: Vec<u8> = Vec::with_capacity(len);
        let mut i: usize = 0;
        while i < len
            invariant
                i <= len,
                buf@.len() == i,
            decreases len - i,
        {
            buf.push(0);
            i = i + 1;
        }
        proof {
            assert(buf@.take(0) =~= Seq::<u8>::empty());
        }
        EncodeBuf { buf, head: 0 }
    }

    /// Returns the number of bytes written to this buffer.
    pub fn written(&self) -> (r: usize)
        ensures
            r == self.spec_written(),
    {
        self.head
    }

    /// Returns the total length of this buffer.
    pub fn len(&self) -> (r: usize)
        ensures
            r == self.cap(),
    {
        self.buf.len()
    }

    /// Writes a byte to this buffer.
    ///
    /// The caller must have sized the buffer so that this byte fits.
    pub fn write(&mut self, b: u8)
        requires
            old(self).wf(),
            old(self).spec_written() < old(self).cap(),
        ensures
            final(self).wf(),
            final(self).cap() == old(self).cap(),
            final(self).spec_written() == old(self).spec_written() + 1,
            final(self).bytes() == old(self).bytes().push(b),
    {
        proof {
            vstd::std_specs::vec::axiom_spec_len(&self.buf);
        }
        self.buf[self.head] = b;
        self.head = self.head + 1;
        proof {
            assert(self.buf@.take(self.head as int) =~= old(self).bytes().push(b));
        }
    }

    /// Writes a slice of bytes to this buffer.
    ///
    /// The caller must have sized the buffer so that the whole slice fits.
    pub fn write_slice(&mut self, slice: &[u8])
        requires
            old(self).wf(),
            old(self).spec_written() + slice@.len() <= old(self).cap(),
        ensures
            final(self).wf(),
            final(self).cap() == old(self).cap(),
            final(self).spec_written() == old(self).spec_written() + slice@.len(),
            final(self).bytes() == old(self).bytes() + slice@,
    {
        let count = slice.len();
        let mut i: usize = 0;
        while i < count
            invariant
                old(self).wf(),
                count == slice@.len(),
                old(self).spec_written() + count <= old(self).cap(),
                i <= count,
                self.head == old(self).head + i,
                self.buf@.len() == old(self).buf@.len(),
                self.bytes() == old(self).bytes() + slice@.take(i as int),
            decreases count - i,
        {
            proof {
                vstd::std_specs::vec::axiom_spec_len(&self.buf);
            }
            let ghost prev = self.bytes();
            let b = slice[i];
            self.buf[self.head] = b;
            self.head = self.head + 1;
            proof {
                assert(self.bytes() =~= prev.push(b));
                assert(slice@.take(i + 1) =~= slice@.take(i as int).push(slice@[i as int]));
                assert(self.bytes() =~= old(self).bytes() + slice@.take(i + 1));
            }
            i = i + 1;
        }
        proof {
            assert(slice@.take(count as int) =~= slice@);
        }
    }

    /// Returns the bytes written so far as a slice.
    pub fn as_slice(&self) -> (r: &[u8])
        requires
            self.wf(),
        ensures
            r@ == self.bytes(),
    {
        proof {
            assert(self.buf@.subrange(0, self.head as int) =~= self.bytes());
        }
        vstd::slice::slice_subrange(self.buf.as_slice(), 0, self.head)
    }

    /// Returns the written bytes as a fresh vector.
    ///
    /// Using the returned bytes will not affect `self`.
    pub fn iter(&self) -> (r: Vec<u8>)
        requires
            self.wf(),
        ensures
            r@ == self.bytes(),
    {
        vstd::slice::slice_to_vec(self.as_slice())
    }

    /// Creates a new empty buffer with space for `len` more bytes after a
    /// variable-length encoding of `len` itself, already written.
    ///
    /// The size prefix lets a transport frame the packet that the rest of
    /// the buffer will carry.
    pub fn new_len_prefixed(len: usize) -> (r: EncodeBuf)
        requires
            len <= u32::MAX,
            varint_len(len as nat) + len <= usize::MAX,
        ensures
            r.wf(),
            r.cap() == varint_len(len as nat) + len,
            r.spec_written() == varint_len(len as nat),
            r.bytes() == varint_bytes(len as nat),
    {
        let len_varint = VarInt::<u32>(len as u32);
        let prefix = len_varint.encode_len();
        let mut buf = EncodeBuf::new(prefix + len);
        len_varint.encode(&mut buf);
        proof {
            assert(buf.bytes() =~= varint_bytes(len as nat));
        }
        buf
    }

    /// Returns the inner storage, converted into a vector without copying.
    ///
    /// The buffer must have been completely filled; the exact-capacity
    /// contract makes the whole allocation valid encoded data.
    pub fn into_inner_as_vec(self) -> (r: Vec<u8>)
        requires
            self.wf(),
            self.spec_written() == self.cap(),
        ensures
            r@ == self.bytes(),
    {
        proof {
            assert(self.buf@.take(self.head as int) =~= self.buf@);
        }
        self.buf
    }
}

/// A data structure which can be encoded into bytes.
///
/// `enc_spec` is the type's wire format: the exact byte sequence a view
/// encodes to.  `encode_len` returns precisely the length of that sequence
/// before a single byte is written, and `encode` appends exactly that
/// sequence to the buffer; the exact-capacity contract of [`EncodeBuf`]
/// rests on this agreement.
pub trait PacketEncode: WireView {
    /// The byte sequence this view encodes to.
    spec fn enc_spec(v: Self::V) -> Seq<u8>;

    /// True of the views this codec can encode on this machine.
    ///
    /// Containers bound their element count by the length field's range and
    /// their total encoding by what a `usize` length query can return.
    spec fn encodable(v: Self::V) -> bool;

    /// Returns the exact number of bytes that `self.encode()` will write.
    fn encode_len(&self) -> (r: usize)
        requires
            Self::encodable(self.wire_view()),
        ensures
            r == Self::enc_spec(self.wire_view()).len(),
    ;

    /// Encode this value into a byte buffer sized to hold it.
    fn encode(&self, buf: &mut EncodeBuf)
        requires
            old(buf).wf(),
            Self::encodable(self.wire_view()),
            old(buf).spec_written() + Self::enc_spec(self.wire_view()).len() <= old(buf).cap(),
        ensures
            final (buf).wf(),
            final (buf).cap() == old(buf).cap(),
            final (buf).spec_written() == old(buf).spec_written() + Self::enc_spec(
                self.wire_view(),
            ).len(),
            final (buf).bytes() == old(buf).bytes() + Self::enc_spec(self.wire_view()),
    ;
}

/// A data structure which can be encoded into bytes, ID byte included.
///
/// Unlike [`PacketEncode`], the encoding carries the one-byte packet ID
/// before the payload.
pub trait PrefixedPacketEncode: WireView {
    /// The byte sequence this view encodes to, ID byte included.
    spec fn enc_prefixed_spec(v: Self::V) -> Seq<u8>;

    /// True of the views this codec can encode on this machine.
    spec fn prefixed_encodable(v: Self::V) -> bool;

    /// Returns the exact number of bytes that `self.encode_prefixed()`
    /// will write.
    fn encode_prefixed_len(&self) -> (r: usize)
        requires
            Self::prefixed_encodable(self.wire_view()),
        ensures
            r == Self::enc_prefixed_spec(self.wire_view()).len(),
    ;

    /// Encode this value, ID byte first, into a buffer sized to hold it.
    fn encode_prefixed(&self, buf: &mut EncodeBuf)
        requires
            old(buf).wf(),
            Self::prefixed_encodable(self.wire_view()),
            old(buf).spec_written() + Self::enc_prefixed_spec(self.wire_view()).len() <= old(
                buf,
            ).cap(),
        ensures
            final (buf).wf(),
            final (buf).cap() == old(buf).cap(),
            final (buf).spec_written() == old(buf).spec_written() + Self::enc_prefixed_spec(
                self.wire_view(),
            ).len(),
            final (buf).bytes() == old(buf).bytes() + Self::enc_prefixed_spec(self.wire_view()),
    ;
}

impl<P: PacketEncode + PacketMeta> PrefixedPacketEncode for P {
    open spec fn enc_prefixed_spec(v: Self::V) -> Seq<u8> {
        seq![P::spec_prefix()] + P::enc_spec(v)
    }

    open spec fn prefixed_encodable(v: Self::V) -> bool {
        &&& P::encodable(v)
        &&& 1 + P::enc_spec(v).len() <= usize::MAX
    }

    fn encode_prefixed_len(&self) -> (r: usize) {
        1 + self.encode_len()
    }

    fn encode_prefixed(&self, buf: &mut EncodeBuf) {
        buf.write(P::prefix());
        self.encode(buf);
        proof {
            assert(old(buf).bytes().push(P::spec_prefix()) + P::enc_spec(self.wire_view()) =~= old(
                buf,
            ).bytes() + Self::enc_prefixed_spec(self.wire_view()));
        }
    }
}

} // verus!
