//! Packet metadata and the shared protocol-state cell.
//!
//! Each packet type declares, as static configuration, the protocol state
//! it belongs to, the direction it travels, its one-byte identifier, and
//! whether it terminates the connection.  The protocol state of a live
//! connection is held in an [`AtomicPacketState`], a lock-free cell shared
//! between the reading and the writing side; every state is stored as a
//! small ordinal and every ordinal read back converts to a valid state.

use vstd::prelude::*;

verus! {

/// The state in which a packet will be sent.
#[derive(Clone, Copy, PartialEq, Eq, Structural, Hash, Debug)]
pub enum PacketState {
    /// Handshaking.
    Handshake,
    /// Status.
    Status,
    /// Login.
    Login,
    /// Configuration.
    Config,
    /// Play.
    Play,
}

/// The direction that a packet will be sent.
#[derive(Clone, Copy, PartialEq, Eq, Structural, Hash, Debug)]
pub enum PacketBound {
    /// Server to client (clientbound).
    S2C,
    /// Client to server (serverbound).
    C2S,
}

/// A memory-ordering choice for operations on the protocol-state cell.
#[derive(Clone, Copy, PartialEq, Eq, Structural, Debug)]
pub enum MemoryOrder {
    /// No ordering constraints, only atomicity.
    Relaxed,
    /// All previous operations become visible before the load.
    Acquire,
    /// All previous operations stay visible after the store.
    Release,
    /// Acquire for the load half, release for the store half.
    AcqRel,
    /// Sequentially consistent.
    SeqCst,
}

/// The ordinal a state is stored as.
pub open spec fn spec_state_byte(s: PacketState) -> u8 {
    match s {
        PacketState::Handshake => 0,
        PacketState::Status => 1,
        PacketState::Login => 2,
        PacketState::Config => 3,
        PacketState::Play => 4,
    }
}

/// The state a stored ordinal converts back to.
///
/// Total on purpose: every byte converts to some valid state, so no read
/// of the cell can yield an out-of-range value.  Only ordinals produced by
/// [`spec_state_byte`] are ever stored.
pub open spec fn spec_state_of(b: u8) -> PacketState {
    if b == 1 {
        PacketState::Status
    } else if b == 2 {
        PacketState::Login
    } else if b == 3 {
        PacketState::Config
    } else if b == 4 {
        PacketState::Play
    } else {
        PacketState::Handshake
    }
}

/// Converting a state to its ordinal and back restores the state.
pub proof fn lemma_state_byte_roundtrip(s: PacketState)
    ensures
        spec_state_of(spec_state_byte(s)) == s,
        spec_state_byte(s) <= 4,
{
}

/// The ordinal a state is stored as.
pub fn state_to_byte(s: PacketState) -> (r: u8)
    ensures
        r == spec_state_byte(s),
{
    match s {
        PacketState::Handshake => 0,
        PacketState::Status => 1,
        PacketState::Login => 2,
        PacketState::Config => 3,
        PacketState::Play => 4,
    }
}

/// The state a stored ordinal converts back to.
pub fn state_of_ordinal(b: u8) -> (r: PacketState)
    ensures
        r == spec_state_of(b),
{
    if b == 1 {
        PacketState::Status
    } else if b == 2 {
        PacketState::Login
    } else if b == 3 {
        PacketState::Config
    } else if b == 4 {
        PacketState::Play
    } else {
        PacketState::Handshake
    }
}

/// Packet metadata: static configuration attached to a packet type.
pub trait PacketMeta {
    /// The state in which this packet will be sent.
    spec fn spec_state() -> PacketState;

    /// The direction that this packet will be sent.
    spec fn spec_bound() -> PacketBound;

    /// The one-byte identifier of this packet.
    spec fn spec_prefix() -> u8;

    /// Whether this packet terminates the connection.
    spec fn spec_kick() -> bool;

    /// The state in which this packet will be sent.
    fn state() -> (r: PacketState)
        ensures
            r == Self::spec_state(),
    ;

    /// The direction that this packet will be sent.
    fn bound() -> (r: PacketBound)
        ensures
            r == Self::spec_bound(),
    ;

    /// The one-byte identifier of this packet.
    fn prefix() -> (r: u8)
        ensures
            r == Self::spec_prefix(),
    ;

    /// Whether this packet terminates the connection.
    fn kick() -> (r: bool)
        ensures
            r == Self::spec_kick(),
    ;
}

/// A protocol state which can be shared between execution contexts.
///
/// Every operation is lock-free; the memory ordering is the caller's
/// choice.  The cell stores a state's ordinal and only ordinals written by
/// these methods ever reach the inner atomic, so every value read back
/// converts to a valid state.
#[derive(Debug)]
pub struct AtomicPacketState {
    cell: core::sync::atomic::AtomicU8,
}

/// Relies on the identity of the five memory orderings: each ordering
/// choice converts to the `core::sync::atomic` ordering of the same name.
#[verifier::external_body]
fn to_order(order: MemoryOrder) -> core::sync::atomic::Ordering {
    match order {
        MemoryOrder::Relaxed => core::sync::atomic::Ordering::Relaxed,
        MemoryOrder::Acquire => core::sync::atomic::Ordering::Acquire,
        MemoryOrder::Release => core::sync::atomic::Ordering::Release,
        MemoryOrder::AcqRel => core::sync::atomic::Ordering::AcqRel,
        MemoryOrder::SeqCst => core::sync::atomic::Ordering::SeqCst,
    }
}

/// Relies on `AtomicU8::into_inner`: returns the byte the atomic held.
#[verifier::external_body]
fn atomic_into_inner(cell: core::sync::atomic::AtomicU8) -> u8 {
    cell.into_inner()
}

/// Relies on `AtomicU8::compare_exchange`: on success the returned byte is
/// guaranteed to equal `current`.  The failure ordering may not be release
/// or acquire-release, which would panic.
#[verifier::external_body]
fn atomic_compare_exchange(
    cell: &core::sync::atomic::AtomicU8,
    current: u8,
    new: u8,
    success: MemoryOrder,
    failure: MemoryOrder,
) -> (r: Result<u8, u8>)
    requires
        !(failure is Release),
        !(failure is AcqRel),
    ensures
        r matches Ok(b) ==> b == current,
{
    cell.compare_exchange(current, new, to_order(success), to_order(failure))
}

/// Relies on `AtomicU8::compare_exchange_weak`: on success the returned
/// byte is guaranteed to equal `current`.  The failure ordering may not be
/// release or acquire-release, which would panic.
#[verifier::external_body]
fn atomic_compare_exchange_weak(
    cell: &core::sync::atomic::AtomicU8,
    current: u8,
    new: u8,
    success: MemoryOrder,
    failure: MemoryOrder,
) -> (r: Result<u8, u8>)
    requires
        !(failure is Release),
        !(failure is AcqRel),
    ensures
        r matches Ok(b) ==> b == current,
{
    cell.compare_exchange_weak(current, new, to_order(success), to_order(failure))
}

impl AtomicPacketState {
    /// Creates a new atomic packet state.
    pub fn new(state: PacketState) -> AtomicPacketState {
        AtomicPacketState { cell: core::sync::atomic::AtomicU8::new(state_to_byte(state)) }
    }

    /// Consumes the atomic and returns the contained state.
    pub fn into_inner(self) -> PacketState {
        let AtomicPacketState { cell } = self;
        state_of_ordinal(atomic_into_inner(cell))
    }

    /// Loads the current state.
    ///
    /// `AtomicU8::load` panics on a release or acquire-release ordering;
    /// those are excluded here.
    pub fn load(&self, order: MemoryOrder) -> PacketState
        requires
            !(order is Release),
            !(order is AcqRel),
    {
        state_of_ordinal(self.cell.load(to_order(order)))
    }

    /// Stores a state.
    ///
    /// `AtomicU8::store` panics on an acquire or acquire-release ordering;
    /// those are excluded here.
    pub fn store(&self, val: PacketState, order: MemoryOrder)
        requires
            !(order is Acquire),
            !(order is AcqRel),
    {
        self.cell.store(state_to_byte(val), to_order(order));
    }

    /// Stores a state, returning the state that was held before.
    pub fn swap(&self, val: PacketState, order: MemoryOrder) -> PacketState {
        state_of_ordinal(self.cell.swap(state_to_byte(val), to_order(order)))
    }

    /// Stores `new` exactly when the held state equals `current`, returning
    /// the previously held state either way.
    ///
    /// The failure ordering may not be release or acquire-release, which
    /// would panic.
    pub fn compare_exchange(
        &self,
        current: PacketState,
        new: PacketState,
        success: MemoryOrder,
        failure: MemoryOrder,
    ) -> (r: Result<PacketState, PacketState>)
        requires
            !(failure is Release),
            !(failure is AcqRel),
        ensures
            r matches Ok(prev) ==> prev == current,
    {
        proof {
            lemma_state_byte_roundtrip(current);
        }
        let target = atomic_compare_exchange(
            &self.cell,
            state_to_byte(current),
            state_to_byte(new),
            success,
            failure,
        );
        match target {
            Ok(b) => Ok(state_of_ordinal(b)),
            Err(b) => Err(state_of_ordinal(b)),
        }
    }

    /// Like [`Self::compare_exchange`], but allowed to fail spuriously even
    /// when the held state equals `current`, which can be more efficient on
    /// some platforms.
    ///
    /// The failure ordering may not be release or acquire-release, which
    /// would panic.
    pub fn compare_exchange_weak(
        &self,
        current: PacketState,
        new: PacketState,
        success: MemoryOrder,
        failure: MemoryOrder,
    ) -> (r: Result<PacketState, PacketState>)
        requires
            !(failure is Release),
            !(failure is AcqRel),
        ensures
            r matches Ok(prev) ==> prev == current,
    {
        proof {
            lemma_state_byte_roundtrip(current);
        }
        let target = atomic_compare_exchange_weak(
            &self.cell,
            state_to_byte(current),
            state_to_byte(new),
            success,
            failure,
        );
        match target {
            Ok(b) => Ok(state_of_ordinal(b)),
            Err(b) => Err(state_of_ordinal(b)),
        }
    }

    /// Fetches the state and applies a function that proposes an optional
    /// new state, retrying while other contexts interfere; returns the
    /// previous state, as the success or the failure value according to
    /// whether the function proposed a replacement.
    ///
    /// The function must accept every state: the cell may hold any of the
    /// five when it is read.
    ///
    /// Relies on `AtomicU8::fetch_update`, which panics on a release or
    /// acquire-release fetch ordering; those are excluded here.
    #[verifier::external_body]
    pub fn fetch_update<F: FnMut(PacketState) -> Option<PacketState>>(
        &self,
        set_order: MemoryOrder,
        fetch_order: MemoryOrder,
        f: F,
    ) -> Result<PacketState, PacketState>
        requires
            !(fetch_order is Release),
            !(fetch_order is AcqRel),
            forall|s: PacketState| #[trigger] f.requires((s,)),
    {
        let mut g = f;
        let step = |b: u8| g(state_of_ordinal(b)).map(state_to_byte);
        match self.cell.fetch_update(to_order(set_order), to_order(fetch_order), step) {
            Ok(b) => Ok(state_of_ordinal(b)),
            Err(b) => Err(state_of_ordinal(b)),
        }
    }
}

} // verus!
