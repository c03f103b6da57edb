use ledger_frames::wire::{push_be32, push_be64, read_be32, read_be64};

#[test]
fn be32_layout_is_network_byte_order() {
    let mut v: Vec<u8> = Vec::new();
    push_be32(&mut v, 0x01020304);
    assert_eq!(v, vec![1, 2, 3, 4]);
}

#[test]
fn be64_layout_is_network_byte_order() {
    let mut v: Vec<u8> = Vec::new();
    push_be64(&mut v, 0x0102030405060708);
    assert_eq!(v, vec![1, 2, 3, 4, 5, 6, 7, 8]);
}

#[test]
fn be32_round_trips_at_an_offset() {
    let mut v: Vec<u8> = vec![0xff];
    push_be32(&mut v, 0xdeadbeef);
    assert_eq!(read_be32(&v, 1), 0xdeadbeef);
}

#[test]
fn be64_round_trips_extremes() {
    for n in [0u64, 1, u64::MAX, 0x8000000000000000] {
        let mut v: Vec<u8> = Vec::new();
        push_be64(&mut v, n);
        assert_eq!(read_be64(&v, 0), n);
    }
}
