use block_resync::block_id::{BlockId, encode_queue_key, decode_queue_key};
use block_resync::bytes::{u64_to_be_bytes, u64_from_be_bytes};

fn id_of(first: u8) -> BlockId {
    let mut bytes = [0u8; 32];
    bytes[0] = first;
    BlockId::from_bytes(bytes)
}

#[test]
fn u64_big_endian_round_trip() {
    for x in [0u64, 1, 255, 256, 0xDEAD_BEEF, u64::MAX] {
        let bytes = u64_to_be_bytes(x);
        assert_eq!(bytes.len(), 8);
        assert_eq!(u64_from_be_bytes(&bytes, 0), x);
    }
    assert_eq!(u64_to_be_bytes(0x0102_0304_0506_0708), vec![1, 2, 3, 4, 5, 6, 7, 8]);
}

#[test]
fn queue_key_layout() {
    let id = id_of(0xAB);
    let key = encode_queue_key(0x0102_0304_0506_0708, &id);
    assert_eq!(key.len(), 40);
    assert_eq!(&key[0..8], &[1, 2, 3, 4, 5, 6, 7, 8]);
    assert_eq!(key[8], 0xAB);
    assert_eq!(&key[9..40], &[0u8; 31]);
}

#[test]
fn queue_key_round_trip() {
    let id = id_of(0x7F);
    let key = encode_queue_key(123_456_789, &id);
    let (when, back) = decode_queue_key(&key).unwrap();
    assert_eq!(when, 123_456_789);
    assert!(back.same(&id));
}

#[test]
fn queue_key_rejects_wrong_length() {
    assert!(decode_queue_key(&vec![0u8; 39]).is_none());
    assert!(decode_queue_key(&vec![0u8; 41]).is_none());
    assert!(decode_queue_key(&Vec::new()).is_none());
}

#[test]
fn byte_order_of_keys_is_pair_order() {
    // Time decides first, even when the earlier time has the larger id.
    let a = encode_queue_key(100, &id_of(0xFF));
    let b = encode_queue_key(101, &id_of(0x00));
    assert!(a < b);
    // Equal times fall back to the id's byte order.
    let c = encode_queue_key(100, &id_of(0x01));
    let d = encode_queue_key(100, &id_of(0x02));
    assert!(c < d);
    // A time that only differs in a low byte still orders correctly.
    let e = encode_queue_key(255, &id_of(0xFF));
    let f = encode_queue_key(256, &id_of(0x00));
    assert!(e < f);
    assert_eq!(
        encode_queue_key(100, &id_of(7)),
        encode_queue_key(100, &id_of(7))
    );
}

#[test]
fn id_comparisons() {
    let small = id_of(1);
    let big = id_of(2);
    assert!(small.lex_before(&big));
    assert!(!big.lex_before(&small));
    assert!(!small.lex_before(&small));
    assert!(small.same(&small));
    assert!(!small.same(&big));
    let mut tail = [0u8; 32];
    tail[31] = 1;
    let tail_id = BlockId::from_bytes(tail);
    assert!(id_of(0).lex_before(&tail_id));
}
