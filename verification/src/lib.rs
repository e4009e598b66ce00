//! A binary codec for a length-prefixed, packet-oriented wire protocol.
//!
//! Values are encoded into a pre-sized byte buffer whose exact capacity is
//! computed before a single byte is written, and decoded from a bounded,
//! position-tracking cursor over a finite byte source.  Every codec states
//! its wire format as a specification over byte sequences, and the encode
//! and decode operations are proved against those specifications.

use vstd::prelude::*;

pub mod containers;
pub mod datetime;
pub mod decode;
pub mod encode;
pub mod ident;
pub mod laws;
pub mod meta;
pub mod num;
pub mod ping;
pub mod string;
pub mod varint;

verus! {

/// The mathematical view of a type as it appears on the wire.
///
/// Every codec states its byte format over this view: plain integers view as
/// themselves, strings as character sequences, containers as sequences of
/// their elements' views.  Types whose values Verus cannot inspect (such as
/// ones owned by outside crates) view as the plain data the codec reads.
pub trait WireView {
    /// The view type.
    type V;

    /// The view of this value.
    spec fn wire_view(&self) -> Self::V;
}

} // verus!
