use packetcodec::decode::DecodeIter;
use packetcodec::encode::EncodeBuf;

#[test]
fn cursor_read_and_consumed() {
    let mut iter = DecodeIter::new(vec![10, 20, 30]);
    assert_eq!(iter.consumed(), 0);
    assert_eq!(iter.remaining_len(), 3);
    assert_eq!(iter.read(), Ok(10));
    assert_eq!(iter.read(), Ok(20));
    assert_eq!(iter.consumed(), 2);
    assert_eq!(iter.remaining_len(), 1);
    assert_eq!(iter.read(), Ok(30));
    assert!(iter.read().is_err());
    assert_eq!(iter.consumed(), 3);
}

#[test]
fn cursor_read_vec() {
    let mut iter = DecodeIter::new(vec![1, 2, 3, 4, 5]);
    assert_eq!(iter.read_vec(3), Ok(vec![1, 2, 3]));
    assert_eq!(iter.consumed(), 3);
    assert!(iter.read_vec(3).is_err());
    // The failed pull drained what the source still had.
    assert_eq!(iter.consumed(), 5);
}

#[test]
fn cursor_read_arr() {
    let mut iter = DecodeIter::new(vec![1, 2, 3, 4]);
    let a: [u8; 3] = iter.read_arr().unwrap();
    assert_eq!(a, [1, 2, 3]);
    assert_eq!(iter.consumed(), 3);
    let short: Result<[u8; 4], _> = iter.read_arr();
    assert!(short.is_err());
}

#[test]
fn cursor_skip() {
    let mut iter = DecodeIter::new(vec![1, 2, 3, 4]);
    assert!(iter.skip(2).is_ok());
    assert_eq!(iter.consumed(), 2);
    assert_eq!(iter.read(), Ok(3));
    assert!(iter.skip(2).is_err());
    assert_eq!(iter.consumed(), 4);
}

#[test]
fn buffer_write_and_inspect() {
    let mut buf = EncodeBuf::new(3);
    assert_eq!(buf.len(), 3);
    assert_eq!(buf.written(), 0);
    buf.write(7);
    buf.write_slice(&[8, 9]);
    assert_eq!(buf.written(), 3);
    assert_eq!(buf.iter(), vec![7, 8, 9]);
    assert_eq!(buf.into_inner_as_vec(), vec![7, 8, 9]);
}

#[test]
fn buffer_iter_shows_partial_writes() {
    let mut buf = EncodeBuf::new(4);
    buf.write(1);
    buf.write(2);
    assert_eq!(buf.iter(), vec![1, 2]);
    assert_eq!(buf.written(), 2);
    assert_eq!(buf.len(), 4);
}

#[test]
fn buffer_len_prefixed_writes_the_size_first() {
    let buf = EncodeBuf::new_len_prefixed(300);
    // Three hundred encodes as a two-byte variable-length integer.
    assert_eq!(buf.iter(), vec![0xAC, 0x02]);
    assert_eq!(buf.len(), 302);
    assert_eq!(buf.written(), 2);
}

#[test]
fn buffer_len_prefixed_small() {
    let buf = EncodeBuf::new_len_prefixed(5);
    assert_eq!(buf.iter(), vec![5]);
    assert_eq!(buf.len(), 6);
}
