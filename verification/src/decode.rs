//! The decode cursor and the decoding traits.
//!
//! A [`DecodeIter`] is a bounded, position-tracking view over a finite byte
//! source.  Every read operation either fully succeeds, consuming exactly the
//! requested bytes, or fails with [`IncompleteDecodeError`] after pulling the
//! bytes that were still available; a failed decode attempt is terminal.

use crate::WireView;
use crate::meta::PacketMeta;
use vstd::prelude::*;

verus! {

/// The byte source did not provide enough data to fully decode a value.
#[derive(Clone, Copy, PartialEq, Eq, Structural, Debug)]
pub struct IncompleteDecodeError;

/// A container for a finite byte source that packet decoders consume.
///
/// The cursor tracks how many bytes have been consumed; no operation ever
/// rolls it backward, and the underlying source is never modified.
pub struct DecodeIter {
    bytes: Vec<u8>,
    head: usize,
}

impl DecodeIter {
    /// The whole byte source this cursor was created from.
    pub closed spec fn source(&self) -> Seq<u8> {
        self.bytes@
    }

    /// The number of bytes consumed so far.
    pub closed spec fn spec_consumed(&self) -> nat {
        self.head as nat
    }

    /// The bytes not yet consumed.
    pub open spec fn remaining(&self) -> Seq<u8> {
        self.source().skip(self.spec_consumed() as int)
    }

    /// The cursor never points past the end of its source.
    pub open spec fn wf(&self) -> bool {
        self.spec_consumed() <= self.source().len()
    }

    /// Creates a cursor over the given byte source.
    pub fn new(bytes: Vec<u8>) -> (r: DecodeIter)
        ensures
            r.wf(),
            r.source() == bytes@,
            r.spec_consumed() == 0,
    {
        DecodeIter { bytes, head: 0 }
    }

    /// Returns the number of bytes which have been consumed.
    pub fn consumed(&self) -> (r: usize)
        ensures
            r == self.spec_consumed(),
    {
        self.head
    }

    /// Returns the number of bytes which have not yet been consumed.
    pub fn remaining_len(&self) -> (r: usize)
        requires
            self.wf(),
        ensures
            r == self.remaining().len(),
    {
        self.bytes.len() - self.head
    }

    /// Reads a single byte from the source.
    pub fn read(&mut self) -> (r: Result<u8, IncompleteDecodeError>)
        requires
            old(self).wf(),
        ensures
            final(self).wf(),
            final(self).source() == old(self).source(),
            match r {
                Ok(b) => {
                    &&& old(self).remaining().len() > 0
                    &&& b == old(self).remaining()[0]
                    &&& final(self).spec_consumed() == old(self).spec_consumed() + 1
                },
                Err(_) => {
                    &&& old(self).remaining().len() == 0
                    &&& final(self).spec_consumed() == old(self).spec_consumed()
                },
            },
    {
        if self.head < self.bytes.len() {
            let b = self.bytes[self.head];
            self.head = self.head + 1;
            Ok(b)
        } else {
            Err(IncompleteDecodeError)
        }
    }

    /// Reads `count` bytes from the source into a vector.
    ///
    /// On failure the cursor has pulled every byte the source still had.
    pub fn read_vec(&mut self, count: usize) -> (r: Result<Vec<u8>, IncompleteDecodeError>)
        requires
            old(self).wf(),
        ensures
            final(self).wf(),
            final(self).source() == old(self).source(),
            match r {
                Ok(v) => {
                    &&& old(self).remaining().len() >= count
                    &&& v@ == old(self).remaining().take(count as int)
                    &&& final(self).spec_consumed() == old(self).spec_consumed() + count
                },
                Err(_) => {
                    &&& old(self).remaining().len() < count
                    &&& final(self).spec_consumed() == old(self).source().len()
                },
            },
    {
        let n = self.bytes.len();
        if n - self.head < count {
            self.head = n;
            return Err(IncompleteDecodeError);
        }
        let mut v: Vec<u8> = Vec::new();
        let mut i: usize = 0;
        while i < count
            invariant
                self.bytes == old(self).bytes,
                self.head == old(self).head,
                i <= count,
                n == self.bytes@.len(),
                self.head + count <= n,
                v@ == old(self).remaining().take(i as int),
            decreases count - i,
        {
            v.push(self.bytes[self.head + i]);
            proof {
                assert(v@ =~= old(self).remaining().take(i + 1));
            }
            i = i + 1;
        }
        self.head = self.head + count;
        Ok(v)
    }

    /// Reads `N` bytes from the source into an array.
    ///
    /// On failure the cursor has pulled every byte the source still had.
    pub fn read_arr<const N: usize>(&mut self) -> (r: Result<[u8; N], IncompleteDecodeError>)
        requires
            old(self).wf(),
        ensures
            final (self).wf(),
            final (self).source() == old(self).source(),
            match r {
                Ok(a) => {
                    &&& old(self).remaining().len() >= N
                    &&& a@ == old(self).remaining().take(N as int)
                    &&& final (self).spec_consumed() == old(self).spec_consumed() + N
                },
                Err(_) => {
                    &&& old(self).remaining().len() < N
                    &&& final (self).spec_consumed() == old(self).source().len()
                },
            },
    {
        match self.read_vec(N) {
            Ok(v) => match vec_into_array::<u8, N>(v) {
                Some(a) => Ok(a),
                None => vstd::pervasive::unreached(),
            },
            Err(e) => Err(e),
        }
    }

    /// Reads enough bytes from the source to fill the buffer.
    ///
    /// On failure the cursor has pulled every byte the source still had
    /// and the buffer is untouched.
    pub fn read_buf(&mut self, buf: &mut [u8]) -> (r: Result<(), IncompleteDecodeError>)
        requires
            old(self).wf(),
        ensures
            final (self).wf(),
            final (self).source() == old(self).source(),
            final (buf)@.len() == old(buf)@.len(),
            match r {
                Ok(_) => {
                    &&& old(self).remaining().len() >= old(buf)@.len()
                    &&& final (buf)@ == old(self).remaining().take(old(buf)@.len() as int)
                    &&& final (self).spec_consumed() == old(self).spec_consumed() + old(
                        buf,
                    )@.len()
                },
                Err(_) => {
                    &&& old(self).remaining().len() < old(buf)@.len()
                    &&& final (self).spec_consumed() == old(self).source().len()
                    &&& final (buf)@ == old(buf)@
                },
            },
    {
        let count = buf.len();
        let n = self.bytes.len();
        if n - self.head < count {
            self.head = n;
            return Err(IncompleteDecodeError);
        }
        let mut i: usize = 0;
        while i < count
            invariant
                self.bytes == old(self).bytes,
                self.head == old(self).head,
                i <= count,
                n == self.bytes@.len(),
                self.head + count <= n,
                buf@.len() == count,
                forall|j: int| 0 <= j < i ==> buf@[j] == old(self).remaining()[j],
                forall|j: int| i <= j < count ==> buf@[j] == old(buf)@[j],
            decreases count - i,
        {
            buf[i] = self.bytes[self.head + i];
            i = i + 1;
        }
        self.head = self.head + count;
        proof {
            assert(buf@ =~= old(self).remaining().take(count as int));
        }
        Ok(())
    }

    /// Skips the next `count` bytes of the source.
    ///
    /// On failure the cursor has pulled every byte the source still had.
    pub fn skip(&mut self, count: usize) -> (r: Result<(), IncompleteDecodeError>)
        requires
            old(self).wf(),
        ensures
            final(self).wf(),
            final(self).source() == old(self).source(),
            match r {
                Ok(_) => {
                    &&& old(self).remaining().len() >= count
                    &&& final(self).spec_consumed() == old(self).spec_consumed() + count
                },
                Err(_) => {
                    &&& old(self).remaining().len() < count
                    &&& final(self).spec_consumed() == old(self).source().len()
                },
            },
    {
        if self.bytes.len() - self.head < count {
            self.head = self.bytes.len();
            Err(IncompleteDecodeError)
        } else {
            self.head = self.head + count;
            Ok(())
        }
    }
}

/// A data structure which can be decoded from bytes.
///
/// `dec_spec` is the type's decode specification: a total function from a
/// byte sequence to the decoded view or error view, together with the number
/// of bytes consumed.  The exec `decode` is proved to agree with it exactly:
/// the cursor advances by precisely the consumed count the specification
/// gives, and the returned value or error views as the specification says.
pub trait PacketDecode: WireView + Sized {
    /// The error type returned when decoding fails.
    type Error;

    /// The mathematical view of the error type.
    type ErrV;

    /// The view of a returned error.
    spec fn err_view(e: &Self::Error) -> Self::ErrV;

    /// True of the error views whose ultimate cause is an exhausted source.
    spec fn is_incomplete(e: Self::ErrV) -> bool;

    /// The decode specification: result and consumed byte count on `s`.
    spec fn dec_spec(s: Seq<u8>) -> (Result<Self::V, Self::ErrV>, nat);

    /// Decode a value of this type from a byte cursor.
    fn decode(iter: &mut DecodeIter) -> (r: Result<Self, Self::Error>)
        requires
            old(iter).wf(),
        ensures
            final (iter).wf(),
            final (iter).source() == old(iter).source(),
            final (iter).spec_consumed() == old(iter).spec_consumed() + Self::dec_spec(
                old(iter).remaining(),
            ).1,
            match r {
                Ok(v) => Self::dec_spec(old(iter).remaining()).0 matches Ok(sv)
                    && v.wire_view() == sv,
                Err(e) => Self::dec_spec(old(iter).remaining()).0 matches Err(se)
                    && Self::err_view(&e) == se,
            },
    ;
}

/// Relies on std's `TryFrom<Vec<T>>` for `[T; N]`: yields the array of the
/// vector's elements exactly when the vector's length is `N`.
#[verifier::external_body]
pub(crate) fn vec_into_array<T, const N: usize>(v: Vec<T>) -> (r: Option<[T; N]>)
    ensures
        match r {
            Some(a) => a@ == v@,
            None => v@.len() != N,
        },
{
    v.try_into().ok()
}

/// A packet ID was not recognised, or some other error occurred.
///
/// Used by the blanket implementation of [`PrefixedPacketDecode`] for
/// types implementing [`PacketDecode`] and [`PacketMeta`].
#[derive(Clone, PartialEq, Eq, Debug)]
pub enum PrefixedDecodeError<E> {
    /// The packet ID is not recognised.
    UnknownPrefix {
        /// The ID found on the wire.
        found: u8,
        /// The supported packet ID, when a single one is expected.
        expected: Option<u8>,
    },
    /// The source was exhausted before the ID byte could be read.
    Incomplete(IncompleteDecodeError),
    /// The packet body could not be decoded.
    Error(E),
}

/// A data structure which can be decoded from bytes, ID byte included.
///
/// Unlike [`PacketDecode`], the decode consumes the one-byte packet ID
/// before the payload.
pub trait PrefixedPacketDecode: WireView + Sized {
    /// The error type returned when decoding fails.
    type Error;

    /// The mathematical view of the error type.
    type ErrV;

    /// The view of a returned error.
    spec fn prefixed_err_view(e: &Self::Error) -> Self::ErrV;

    /// The decode specification: result and consumed byte count on `s`.
    spec fn dec_prefixed_spec(s: Seq<u8>) -> (Result<Self::V, Self::ErrV>, nat);

    /// Decode a value of this type, ID byte first, from a byte cursor.
    fn decode_prefixed(iter: &mut DecodeIter) -> (r: Result<Self, Self::Error>)
        requires
            old(iter).wf(),
        ensures
            final (iter).wf(),
            final (iter).source() == old(iter).source(),
            final (iter).spec_consumed() == old(iter).spec_consumed() + Self::dec_prefixed_spec(
                old(iter).remaining(),
            ).1,
            match r {
                Ok(v) => Self::dec_prefixed_spec(old(iter).remaining()).0 matches Ok(sv)
                    && v.wire_view() == sv,
                Err(e) => Self::dec_prefixed_spec(old(iter).remaining()).0 matches Err(se)
                    && Self::prefixed_err_view(&e) == se,
            },
    ;
}

impl<P: PacketDecode + PacketMeta> PrefixedPacketDecode for P {
    type Error = PrefixedDecodeError<<P as PacketDecode>::Error>;

    type ErrV = PrefixedDecodeError<<P as PacketDecode>::ErrV>;

    open spec fn prefixed_err_view(e: &PrefixedDecodeError<<P as PacketDecode>::Error>) -> Self::ErrV {
        match e {
            PrefixedDecodeError::UnknownPrefix { found, expected } => {
                PrefixedDecodeError::UnknownPrefix { found: *found, expected: *expected }
            },
            PrefixedDecodeError::Incomplete(ie) => PrefixedDecodeError::Incomplete(*ie),
            PrefixedDecodeError::Error(inner) => PrefixedDecodeError::Error(P::err_view(inner)),
        }
    }

    open spec fn dec_prefixed_spec(s: Seq<u8>) -> (Result<Self::V, Self::ErrV>, nat) {
        if s.len() == 0 {
            (Err(PrefixedDecodeError::Incomplete(IncompleteDecodeError)), 0)
        } else if s[0] == P::spec_prefix() {
            let d = P::dec_spec(s.skip(1));
            (
                match d.0 {
                    Ok(v) => Ok(v),
                    Err(e) => Err(PrefixedDecodeError::Error(e)),
                },
                1 + d.1,
            )
        } else {
            (
                Err(
                    PrefixedDecodeError::UnknownPrefix {
                        found: s[0],
                        expected: Some(P::spec_prefix()),
                    },
                ),
                1,
            )
        }
    }

    fn decode_prefixed(iter: &mut DecodeIter) -> (r: Result<P, Self::Error>) {
        let found = match iter.read() {
            Ok(b) => b,
            Err(e) => {
                return Err(PrefixedDecodeError::Incomplete(e));
            },
        };
        let expected = P::prefix();
        if found == expected {
            proof {
                assert(iter.remaining() =~= old(iter).remaining().skip(1));
            }
            match P::decode(iter) {
                Ok(v) => Ok(v),
                Err(e) => Err(PrefixedDecodeError::Error(e)),
            }
        } else {
            Err(PrefixedDecodeError::UnknownPrefix { found, expected: Some(expected) })
        }
    }
}

} // verus!
