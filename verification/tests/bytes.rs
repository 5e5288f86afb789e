use ulidgen::{decode, from_bytes, to_bytes, BYTES_LEN};

#[test]
fn to_bytes_known_values() {
    assert_eq!(to_bytes(0), [0u8; 16]);
    assert_eq!(to_bytes(u128::MAX), [0xffu8; 16]);
    assert_eq!(to_bytes(1), [0, 0, 0, 0, 0, 0, 0, 0, 0, 0, 0, 0, 0, 0, 0, 1]);
    assert_eq!(to_bytes(1 << 120), [1, 0, 0, 0, 0, 0, 0, 0, 0, 0, 0, 0, 0, 0, 0, 0]);
    assert_eq!(
        to_bytes(0x0102030405060708090a0b0c0d0e0f10),
        [1, 2, 3, 4, 5, 6, 7, 8, 9, 10, 11, 12, 13, 14, 15, 16]
    );
}

#[test]
fn from_bytes_known_values() {
    assert_eq!(from_bytes([0u8; 16]), 0);
    assert_eq!(from_bytes([0xffu8; 16]), u128::MAX);
    assert_eq!(
        from_bytes([1, 2, 3, 4, 5, 6, 7, 8, 9, 10, 11, 12, 13, 14, 15, 16]),
        0x0102030405060708090a0b0c0d0e0f10
    );
    assert_eq!(decode("7ZZZZZZZZZZZZZZZZZZZZZZZZZ"), Ok(from_bytes([0xff; 16])));
}

#[test]
fn binary_form_has_sixteen_bytes() {
    assert_eq!(BYTES_LEN, 16);
    assert_eq!(to_bytes(12345).len(), BYTES_LEN);
}

#[test]
fn bytes_round_trip_and_agree_with_std() {
    let mut x: u128 = 0x9e3779b97f4a7c15f39cc0605cedc834;
    for _ in 0..200 {
        x = x.wrapping_mul(0x2360ed051fc65da44385df649fccf645).wrapping_add(0x5851f42d4c957f2d);
        let bytes = to_bytes(x);
        assert_eq!(bytes, x.to_be_bytes());
        assert_eq!(from_bytes(bytes), x);
        assert_eq!(bytes, ulid::Ulid(x).to_bytes());
        assert_eq!(from_bytes(bytes), ulid::Ulid::from_bytes(bytes).0);
    }
}

#[test]
fn byte_order_is_value_order() {
    let a = to_bytes((1000 << 80) | 5);
    let b = to_bytes((1001 << 80) | 1);
    assert!(a < b);
}
