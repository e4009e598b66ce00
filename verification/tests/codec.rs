use packetcodec::containers::{ArrayDecodeError, UnprefixedSlice, VecDecodeError};
use packetcodec::datetime::{DateTimeDecodeError, Timestamp};
use packetcodec::decode::{
    DecodeIter, IncompleteDecodeError, PacketDecode, PrefixedDecodeError, PrefixedPacketDecode,
};
use packetcodec::encode::{EncodeBuf, PacketEncode, PrefixedPacketEncode};
use packetcodec::ping::Ping;
use packetcodec::string::StringDecodeError;
use packetcodec::varint::{VarInt, VarIntDecodeError};

fn enc<T: PacketEncode>(v: &T) -> Vec<u8> {
    let n = v.encode_len();
    let mut buf = EncodeBuf::new(n);
    v.encode(&mut buf);
    assert_eq!(buf.written(), buf.len());
    buf.into_inner_as_vec()
}

fn enc_prefixed<T: PrefixedPacketEncode>(v: &T) -> Vec<u8> {
    let n = v.encode_prefixed_len();
    let mut buf = EncodeBuf::new(n);
    v.encode_prefixed(&mut buf);
    assert_eq!(buf.written(), buf.len());
    buf.into_inner_as_vec()
}

fn dec<T: PacketDecode>(bytes: Vec<u8>) -> Result<T, T::Error> {
    let mut iter = DecodeIter::new(bytes);
    T::decode(&mut iter)
}

#[test]
fn varint_boundary_zero() {
    assert_eq!(enc(&VarInt::<u32>(0)), vec![0x00]);
    assert_eq!(VarInt::<u32>(0).encode_len(), 1);
}

#[test]
fn varint_boundary_127() {
    assert_eq!(enc(&VarInt::<u32>(127)), vec![0x7F]);
    assert_eq!(VarInt::<u32>(127).encode_len(), 1);
}

#[test]
fn varint_boundary_128() {
    assert_eq!(enc(&VarInt::<u32>(128)), vec![0x80, 0x01]);
    assert_eq!(VarInt::<u32>(128).encode_len(), 2);
}

#[test]
fn varint_boundary_negative_one() {
    assert_eq!(enc(&VarInt::<i32>(-1)), vec![0xFF, 0xFF, 0xFF, 0xFF, 0x0F]);
    assert_eq!(VarInt::<i32>(-1).encode_len(), 5);
}

#[test]
fn varint_roundtrip_u32() {
    for v in [0u32, 1, 127, 128, 300, 25565, u32::MAX] {
        let bytes = enc(&VarInt::<u32>(v));
        let got: VarInt<u32> = dec(bytes).unwrap();
        assert_eq!(got.0, v);
    }
}

#[test]
fn varint_roundtrip_i64() {
    for v in [0i64, 1, -1, i64::MIN, i64::MAX, -123456789] {
        let bytes = enc(&VarInt::<i64>(v));
        let got: VarInt<i64> = dec(bytes).unwrap();
        assert_eq!(got.0, v);
    }
}

#[test]
fn varint_roundtrip_u64_max() {
    let bytes = enc(&VarInt::<u64>(u64::MAX));
    assert_eq!(bytes.len(), 10);
    let got: VarInt<u64> = dec(bytes).unwrap();
    assert_eq!(got.0, u64::MAX);
}

#[test]
fn varint_truncated_is_incomplete() {
    let mut bytes = enc(&VarInt::<u32>(300));
    bytes.pop();
    let got: Result<VarInt<u32>, _> = dec(bytes);
    assert!(matches!(got, Err(VarIntDecodeError::Incomplete(_))));
}

#[test]
fn varint_too_long_u32() {
    let got: Result<VarInt<u32>, _> = dec(vec![0x80, 0x80, 0x80, 0x80, 0x80, 0x01]);
    assert!(matches!(got, Err(VarIntDecodeError::TooLong)));
}

#[test]
fn varint_too_long_consumes_five_bytes() {
    let mut iter = DecodeIter::new(vec![0x80, 0x80, 0x80, 0x80, 0x80, 0x01]);
    let got = VarInt::<u32>::decode(&mut iter);
    assert!(matches!(got, Err(VarIntDecodeError::TooLong)));
    assert_eq!(iter.consumed(), 5);
}

#[test]
fn varint_too_long_u64() {
    let bytes = vec![0x80, 0x80, 0x80, 0x80, 0x80, 0x80, 0x80, 0x80, 0x80, 0x80, 0x01];
    let got: Result<VarInt<u64>, _> = dec(bytes);
    assert!(matches!(got, Err(VarIntDecodeError::TooLong)));
}

#[test]
fn empty_array_roundtrip() {
    let a: [u16; 0] = [];
    let bytes = enc(&a);
    assert_eq!(bytes, vec![0]);
    let got: [u16; 0] = dec(bytes).unwrap();
    assert_eq!(got, a);
}

#[test]
fn array_truncated_is_incomplete() {
    let a: [u32; 2] = [7, 8];
    let mut bytes = enc(&a);
    bytes.pop();
    let got: Result<[u32; 2], _> = dec(bytes);
    assert!(matches!(
        got,
        Err(ArrayDecodeError::Item { index: 1, err: IncompleteDecodeError })
    ));
}

#[test]
fn primitive_exact_bytes() {
    assert_eq!(enc(&0x12u8), vec![0x12]);
    assert_eq!(enc(&0x1234u16), vec![0x12, 0x34]);
    assert_eq!(enc(&0x12345678u32), vec![0x12, 0x34, 0x56, 0x78]);
    assert_eq!(enc(&1u64), vec![0, 0, 0, 0, 0, 0, 0, 1]);
    assert_eq!(enc(&(-1i16)), vec![0xFF, 0xFF]);
    assert_eq!(enc(&(-2i8)), vec![0xFE]);
    assert_eq!(enc(&true), vec![1]);
    assert_eq!(enc(&false), vec![0]);
}

#[test]
fn primitive_roundtrips() {
    assert_eq!(dec::<u8>(enc(&0xABu8)).unwrap(), 0xAB);
    assert_eq!(dec::<i8>(enc(&-100i8)).unwrap(), -100);
    assert_eq!(dec::<u16>(enc(&54321u16)).unwrap(), 54321);
    assert_eq!(dec::<i16>(enc(&-12345i16)).unwrap(), -12345);
    assert_eq!(dec::<u32>(enc(&0xDEADBEEFu32)).unwrap(), 0xDEADBEEF);
    assert_eq!(dec::<i32>(enc(&i32::MIN)).unwrap(), i32::MIN);
    assert_eq!(dec::<u64>(enc(&u64::MAX)).unwrap(), u64::MAX);
    assert_eq!(dec::<i64>(enc(&i64::MIN)).unwrap(), i64::MIN);
    assert_eq!(dec::<u128>(enc(&u128::MAX)).unwrap(), u128::MAX);
    assert_eq!(dec::<i128>(enc(&i128::MIN)).unwrap(), i128::MIN);
    assert_eq!(dec::<bool>(enc(&true)).unwrap(), true);
    assert_eq!(dec::<bool>(enc(&false)).unwrap(), false);
}

#[test]
fn bool_decodes_any_nonzero_as_true() {
    assert_eq!(dec::<bool>(vec![7]).unwrap(), true);
    assert_eq!(dec::<bool>(vec![0]).unwrap(), false);
}

#[test]
fn primitive_truncated_is_incomplete() {
    let mut bytes = enc(&0x12345678u32);
    bytes.pop();
    assert!(matches!(dec::<u32>(bytes), Err(IncompleteDecodeError)));
    let mut bytes = enc(&1u8);
    bytes.pop();
    assert!(matches!(dec::<u8>(bytes), Err(IncompleteDecodeError)));
}

#[test]
fn string_exact_bytes() {
    assert_eq!(enc(&String::from("hi")), vec![2, b'h', b'i']);
    assert_eq!(enc(&String::from("")), vec![0]);
}

#[test]
fn string_roundtrip() {
    for s in ["", "hello", "caf\u{e9} \u{1F600}"] {
        let v = String::from(s);
        let got: String = dec(enc(&v)).unwrap();
        assert_eq!(got, v);
    }
}

#[test]
fn string_utf8_rejection() {
    let got: Result<String, _> = dec(vec![3, 0xFF, 0xFE, 0xFD]);
    match got {
        Err(StringDecodeError::Utf8(bytes)) => assert_eq!(bytes, vec![0xFF, 0xFE, 0xFD]),
        other => panic!("expected a utf8 error, got {:?}", other),
    }
}

#[test]
fn string_truncated_is_incomplete() {
    let got: Result<String, _> = dec(vec![3, b'a', b'b']);
    assert!(matches!(got, Err(StringDecodeError::Incomplete(_))));
}

#[test]
fn string_length_error() {
    let got: Result<String, _> = dec(vec![0x80]);
    assert!(matches!(
        got,
        Err(StringDecodeError::Length(VarIntDecodeError::Incomplete(_)))
    ));
}

#[test]
fn vec_exact_bytes() {
    let v: Vec<u16> = vec![0x1234, 0x5678];
    assert_eq!(enc(&v), vec![2, 0x12, 0x34, 0x56, 0x78]);
}

#[test]
fn vec_roundtrip() {
    let v: Vec<u32> = vec![1, 2, 3, 0xFFFF_FFFF];
    let got: Vec<u32> = dec(enc(&v)).unwrap();
    assert_eq!(got, v);
    let empty: Vec<u32> = vec![];
    let got: Vec<u32> = dec(enc(&empty)).unwrap();
    assert_eq!(got, empty);
}

#[test]
fn vec_of_strings_roundtrip() {
    let v: Vec<String> = vec![String::from("a"), String::from(""), String::from("bc")];
    let got: Vec<String> = dec(enc(&v)).unwrap();
    assert_eq!(got, v);
}

#[test]
fn vec_item_error_keeps_index() {
    // Count of three, but the second element is truncated.
    let got: Result<Vec<u16>, _> = dec(vec![3, 0x00, 0x01, 0x00]);
    match got {
        Err(VecDecodeError::Item { index, err: IncompleteDecodeError }) => assert_eq!(index, 1),
        other => panic!("expected an item error, got {:?}", other),
    }
}

#[test]
fn vec_length_error() {
    let got: Result<Vec<u16>, _> = dec(vec![]);
    assert!(matches!(
        got,
        Err(VecDecodeError::Length(VarIntDecodeError::Incomplete(_)))
    ));
}

#[test]
fn vec_truncated_is_incomplete() {
    let v: Vec<u16> = vec![1, 2];
    let mut bytes = enc(&v);
    bytes.pop();
    let got: Result<Vec<u16>, _> = dec(bytes);
    assert!(matches!(
        got,
        Err(VecDecodeError::Item { index: 1, err: IncompleteDecodeError })
    ));
}

#[test]
fn array_exact_bytes_and_roundtrip() {
    let a: [u16; 3] = [1, 2, 3];
    let bytes = enc(&a);
    assert_eq!(bytes, vec![3, 0, 1, 0, 2, 0, 3]);
    let got: [u16; 3] = dec(bytes).unwrap();
    assert_eq!(got, a);
}

#[test]
fn array_length_mismatch() {
    // A fixed-size-3 target decoded from a count of two plus two elements:
    // the error reports both lengths and the cursor holds the count field
    // plus the two present elements.
    let mut iter = DecodeIter::new(vec![2, 0, 1, 0, 2]);
    let got = <[u16; 3]>::decode(&mut iter);
    match got {
        Err(ArrayDecodeError::BadLength { len, expected }) => {
            assert_eq!(len, 2);
            assert_eq!(expected, 3);
        },
        other => panic!("expected a bad-length error, got {:?}", other),
    }
    assert_eq!(iter.consumed(), 5);
}

#[test]
fn array_partial_failure_leaves_no_residue() {
    // A fixed array of four strings whose element at index two is invalid:
    // the two elements decoded before it are dropped with the attempt, and
    // the error names the failing index and cause.
    let mut bytes = vec![4];
    bytes.extend(enc(&String::from("ab")));
    bytes.extend(enc(&String::from("cd")));
    bytes.extend(vec![1, 0xFF]);
    bytes.extend(enc(&String::from("ef")));
    let got: Result<[String; 4], _> = dec(bytes);
    match got {
        Err(ArrayDecodeError::Item { index, err: StringDecodeError::Utf8(cause) }) => {
            assert_eq!(index, 2);
            assert_eq!(cause, vec![0xFF]);
        },
        other => panic!("expected an item error, got {:?}", other),
    }
}

#[test]
fn array_length_error() {
    let got: Result<[u16; 3], _> = dec(vec![]);
    assert!(matches!(
        got,
        Err(ArrayDecodeError::Length(VarIntDecodeError::Incomplete(_)))
    ));
}

#[test]
fn unprefixed_slice_has_no_count() {
    let s: UnprefixedSlice<u16> = UnprefixedSlice::from(vec![0x1234u16, 0x5678]);
    assert_eq!(s.encode_len(), 4);
    assert_eq!(enc(&s), vec![0x12, 0x34, 0x56, 0x78]);
}

#[test]
fn unprefixed_slice_empty() {
    let s: UnprefixedSlice<u16> = UnprefixedSlice(vec![]);
    assert_eq!(s.encode_len(), 0);
    assert_eq!(enc(&s), Vec::<u8>::new());
}

#[test]
fn timestamp_roundtrip() {
    let t = Timestamp::from_parts(1431648000, 500).unwrap();
    let bytes = enc(&t);
    assert_eq!(bytes.len(), 12);
    let got: Timestamp = dec(bytes).unwrap();
    assert_eq!(got.secs(), 1431648000);
    assert_eq!(got.subsec_nanos(), 500);
}

#[test]
fn timestamp_exact_bytes() {
    let t = Timestamp::from_parts(1, 2).unwrap();
    assert_eq!(enc(&t), vec![0, 0, 0, 0, 0, 0, 0, 1, 0, 0, 0, 2]);
}

#[test]
fn timestamp_invalid() {
    // A nanosecond count no calendar time accepts.
    let mut bytes = enc(&0i64);
    bytes.extend(enc(&u32::MAX));
    let got: Result<Timestamp, _> = dec(bytes);
    assert!(matches!(got, Err(DateTimeDecodeError::Invalid)));
}

#[test]
fn timestamp_truncated() {
    let t = Timestamp::from_parts(5, 6).unwrap();
    let mut bytes = enc(&t);
    bytes.pop();
    let got: Result<Timestamp, _> = dec(bytes);
    assert!(matches!(got, Err(DateTimeDecodeError::Nanos(_))));
    let got: Result<Timestamp, _> = dec(vec![0, 0, 0]);
    assert!(matches!(got, Err(DateTimeDecodeError::Secs(_))));
}

#[test]
fn timestamp_rejects_out_of_range_parts() {
    assert!(Timestamp::from_parts(0, 2_000_000_000).is_none());
    assert!(Timestamp::from_parts(i64::MAX, 0).is_none());
}

#[test]
fn uuid_exact_bytes_and_roundtrip() {
    let v = 0xa1a2a3a4b1b2c1c2d1d2d3d4d5d6d7d8u128;
    let u = uuid::Uuid::from_u128(v);
    let bytes = enc(&u);
    assert_eq!(bytes, v.to_be_bytes().to_vec());
    let got: uuid::Uuid = dec(bytes).unwrap();
    assert_eq!(got, u);
    assert_eq!(got.as_u128(), v);
}

#[test]
fn uuid_truncated_is_incomplete() {
    let u = uuid::Uuid::from_u128(7);
    let mut bytes = enc(&u);
    bytes.pop();
    assert!(matches!(dec::<uuid::Uuid>(bytes), Err(IncompleteDecodeError)));
}

#[test]
fn ping_prefixed_roundtrip() {
    let p = Ping { payload: -12345678901234 };
    let bytes = enc_prefixed(&p);
    assert_eq!(bytes.len(), 9);
    assert_eq!(bytes[0], 0x01);
    let mut iter = DecodeIter::new(bytes);
    let got = Ping::decode_prefixed(&mut iter).unwrap();
    assert_eq!(got, p);
    assert_eq!(iter.consumed(), 9);
}

#[test]
fn unknown_prefix_consumes_one_byte() {
    let mut iter = DecodeIter::new(vec![0x37, 0, 0, 0, 0, 0, 0, 0, 1]);
    let got = Ping::decode_prefixed(&mut iter);
    match got {
        Err(PrefixedDecodeError::UnknownPrefix { found, expected }) => {
            assert_eq!(found, 0x37);
            assert_eq!(expected, Some(0x01));
        },
        other => panic!("expected an unknown-prefix error, got {:?}", other),
    }
    assert_eq!(iter.consumed(), 1);
}

#[test]
fn prefixed_empty_source_is_incomplete() {
    let mut iter = DecodeIter::new(vec![]);
    let got = Ping::decode_prefixed(&mut iter);
    assert!(matches!(got, Err(PrefixedDecodeError::Incomplete(_))));
}

#[test]
fn prefixed_truncated_body() {
    let p = Ping { payload: 99 };
    let mut bytes = enc_prefixed(&p);
    bytes.pop();
    let mut iter = DecodeIter::new(bytes);
    let got = Ping::decode_prefixed(&mut iter);
    assert!(matches!(got, Err(PrefixedDecodeError::Error(IncompleteDecodeError))));
}
