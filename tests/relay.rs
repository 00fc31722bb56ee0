use ssh_server::relay::RelayBuffer;

#[test]
fn relay_keeps_byte_order_across_chunks() {
    let mut b = RelayBuffer::new(8);
    let mut out: Vec<u8> = Vec::new();
    assert_eq!(b.accept(b"hello"), 5);
    out.extend(b.take(2));
    assert_eq!(b.accept(b" world"), 5);
    assert_eq!(b.pending_len(), 8);
    assert_eq!(b.room(), 0);
    assert_eq!(b.accept(b"x"), 0);
    out.extend(b.take(100));
    assert_eq!(b.accept(b"d!"), 2);
    out.extend(b.take(1));
    out.extend(b.take(1));
    assert_eq!(out, b"hello world!".to_vec());
    assert_eq!(b.pending_len(), 0);
}

#[test]
fn relay_drains_after_end_of_stream() {
    let mut b = RelayBuffer::new(4);
    assert_eq!(b.accept(b"abc"), 3);
    b.end_source();
    assert!(!b.is_drained());
    assert_eq!(b.accept(b"z"), 0);
    assert_eq!(b.take(3), b"abc".to_vec());
    assert!(b.is_drained());
    assert!(b.take(3).is_empty());
}

#[test]
fn relay_passes_chunks_whole_whatever_their_size() {
    let data: Vec<u8> = (0..50u8).collect();
    let mut small = RelayBuffer::new(3);
    let mut large = RelayBuffer::new(64);
    let mut out_small: Vec<u8> = Vec::new();
    let mut out_large: Vec<u8> = Vec::new();
    for piece in data.chunks(7) {
        let got = small.pass_through(piece);
        assert_eq!(got, piece.to_vec());
        out_small.extend(got);
    }
    for piece in data.chunks(20) {
        out_large.extend(large.pass_through(piece));
    }
    assert_eq!(out_small, data);
    assert_eq!(out_large, data);
    assert_eq!(small.pending_len(), 0);
}
