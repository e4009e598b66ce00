use packetcodec::meta::{
    AtomicPacketState, MemoryOrder, PacketBound, PacketMeta, PacketState, state_of_ordinal,
    state_to_byte,
};
use packetcodec::ping::Ping;

#[test]
fn state_ordinals_roundtrip() {
    let all = [
        PacketState::Handshake,
        PacketState::Status,
        PacketState::Login,
        PacketState::Config,
        PacketState::Play,
    ];
    for s in all {
        let b = state_to_byte(s);
        assert!(b <= 4);
        assert_eq!(state_of_ordinal(b), s);
    }
}

#[test]
fn every_byte_converts_to_a_valid_state() {
    for b in 0..=255u8 {
        let s = state_of_ordinal(b);
        assert!(state_to_byte(s) <= 4);
    }
}

#[test]
fn cell_load_and_store() {
    let cell = AtomicPacketState::new(PacketState::Handshake);
    assert_eq!(cell.load(MemoryOrder::SeqCst), PacketState::Handshake);
    cell.store(PacketState::Login, MemoryOrder::SeqCst);
    assert_eq!(cell.load(MemoryOrder::Acquire), PacketState::Login);
    assert_eq!(cell.into_inner(), PacketState::Login);
}

#[test]
fn cell_swap_returns_previous() {
    let cell = AtomicPacketState::new(PacketState::Status);
    let prev = cell.swap(PacketState::Play, MemoryOrder::SeqCst);
    assert_eq!(prev, PacketState::Status);
    assert_eq!(cell.load(MemoryOrder::SeqCst), PacketState::Play);
}

#[test]
fn cell_compare_exchange_single_winner() {
    // Two exchanges race for the same transition: the first observes the
    // prior state and wins, the second observes the new state and loses.
    let cell = AtomicPacketState::new(PacketState::Handshake);
    let first = cell.compare_exchange(
        PacketState::Handshake,
        PacketState::Login,
        MemoryOrder::SeqCst,
        MemoryOrder::SeqCst,
    );
    assert_eq!(first, Ok(PacketState::Handshake));
    let second = cell.compare_exchange(
        PacketState::Handshake,
        PacketState::Status,
        MemoryOrder::SeqCst,
        MemoryOrder::SeqCst,
    );
    assert_eq!(second, Err(PacketState::Login));
    assert_eq!(cell.load(MemoryOrder::SeqCst), PacketState::Login);
}

#[test]
fn cell_compare_exchange_weak_retry_loop() {
    let cell = AtomicPacketState::new(PacketState::Config);
    loop {
        match cell.compare_exchange_weak(
            PacketState::Config,
            PacketState::Play,
            MemoryOrder::AcqRel,
            MemoryOrder::Acquire,
        ) {
            Ok(prev) => {
                assert_eq!(prev, PacketState::Config);
                break;
            },
            Err(prev) => assert_eq!(prev, PacketState::Config),
        }
    }
    assert_eq!(cell.load(MemoryOrder::SeqCst), PacketState::Play);
}

#[test]
fn cell_fetch_update() {
    let cell = AtomicPacketState::new(PacketState::Handshake);
    let got = cell.fetch_update(MemoryOrder::SeqCst, MemoryOrder::SeqCst, |s| {
        if s == PacketState::Handshake {
            Some(PacketState::Status)
        } else {
            None
        }
    });
    assert_eq!(got, Ok(PacketState::Handshake));
    let got = cell.fetch_update(MemoryOrder::SeqCst, MemoryOrder::SeqCst, |s| {
        if s == PacketState::Handshake {
            Some(PacketState::Login)
        } else {
            None
        }
    });
    assert_eq!(got, Err(PacketState::Status));
}

#[test]
fn ping_metadata() {
    assert_eq!(Ping::state(), PacketState::Status);
    assert_eq!(Ping::bound(), PacketBound::C2S);
    assert_eq!(Ping::prefix(), 0x01);
    assert_eq!(Ping::kick(), false);
}
