use ulidgen::{describe, inspect_ulid, join, random_hex, Inspection, UlidError, MAX_RANDOM};

#[test]
fn inspect_known_identifier() {
    let shown = inspect_ulid("01ARZ3NDEKTSV4RRFFQ69G5FAV").unwrap();
    assert_eq!(
        shown,
        Inspection {
            value: 1777027686520646174104517696511196507,
            canonical: "01ARZ3NDEKTSV4RRFFQ69G5FAV".to_string(),
            datetime: "2016-07-30T23:54:10.259+00:00".to_string(),
            timestamp_ms: 1469922850259,
            random: 1012768647078601740696923,
            random_hex: "d6764c61efb99302bd5b".to_string(),
        }
    );
}

#[test]
fn inspect_second_known_identifier() {
    let shown = inspect_ulid("01D39ZY06FGSCTVN4T2V9PKHFZ").unwrap();
    assert_eq!(shown.timestamp_ms, 1549744931023);
    assert_eq!(shown.datetime, "2019-02-09T20:42:11.023+00:00");
    assert_eq!(shown.random_hex, "8659add49a16d369c5ff");
}

#[test]
fn inspect_lowercase_input_shows_canonical_text() {
    let lower = inspect_ulid("01arz3ndektsv4rrffq69g5fav").unwrap();
    let upper = inspect_ulid("01ARZ3NDEKTSV4RRFFQ69G5FAV").unwrap();
    assert_eq!(lower, upper);
    assert_eq!(lower.canonical, "01ARZ3NDEKTSV4RRFFQ69G5FAV");
}

#[test]
fn inspect_the_epoch() {
    let shown = inspect_ulid("00000000000000000000000000").unwrap();
    assert_eq!(shown.value, 0);
    assert_eq!(shown.timestamp_ms, 0);
    assert_eq!(shown.datetime, "1970-01-01T00:00:00+00:00");
    assert_eq!(shown.random, 0);
    assert_eq!(shown.random_hex, "00000000000000000000");
}

#[test]
fn inspect_whole_seconds_have_no_fraction() {
    let text = ulidgen::encode(join(1000, 1).unwrap());
    let shown = inspect_ulid(&text).unwrap();
    assert_eq!(shown.datetime, "1970-01-01T00:00:01+00:00");
    assert_eq!(shown.random_hex, "00000000000000000001");
}

#[test]
fn inspect_the_largest_identifier() {
    let shown = inspect_ulid("7ZZZZZZZZZZZZZZZZZZZZZZZZZ").unwrap();
    assert_eq!(shown.value, u128::MAX);
    assert_eq!(shown.timestamp_ms, 281474976710655);
    assert_eq!(shown.random, MAX_RANDOM);
    assert_eq!(shown.random_hex, "ffffffffffffffffffff");
    let theirs = chrono::DateTime::from_timestamp_millis(281474976710655).unwrap().to_rfc3339();
    assert_eq!(shown.datetime, theirs);
    assert_eq!(shown.datetime, "+10889-08-02T05:31:50.655+00:00");
}

#[test]
fn inspect_fails_as_decode_does() {
    assert_eq!(inspect_ulid(""), Err(UlidError::InvalidLength));
    assert_eq!(inspect_ulid("01ARZ3NDEKTSV4RRFFQ69G5FA"), Err(UlidError::InvalidLength));
    assert_eq!(
        inspect_ulid("IIIIIIIIIIIIIIIIIIIIIIIIII"),
        Err(UlidError::InvalidCharacter)
    );
    assert_eq!(inspect_ulid("80000000000000000000000000"), Err(UlidError::Overflow));
}

#[test]
fn describe_takes_the_instant_as_given() {
    let shown = describe(1208925819614629174706176005, "some instant".to_string());
    assert_eq!(
        shown,
        Inspection {
            value: 1208925819614629174706176005,
            canonical: "00000000Z80000000000000005".to_string(),
            datetime: "some instant".to_string(),
            timestamp_ms: 1000,
            random: 5,
            random_hex: "00000000000000000005".to_string(),
        }
    );
}

#[test]
fn random_hex_known_values() {
    assert_eq!(random_hex(0), "00000000000000000000");
    assert_eq!(random_hex(1), "00000000000000000001");
    assert_eq!(random_hex(0xabcdef), "00000000000000abcdef");
    assert_eq!(random_hex(MAX_RANDOM), "ffffffffffffffffffff");
    assert_eq!(random_hex(0x0123_4567_89ab_cdef_0123), "0123456789abcdef0123");
}

#[test]
fn random_hex_agrees_with_std_formatting() {
    let mut x: u128 = 0x9e3779b97f4a7c15f39cc0605cedc834;
    for _ in 0..200 {
        x = x.wrapping_mul(0x2360ed051fc65da44385df649fccf645).wrapping_add(0x5851f42d4c957f2d);
        let random = x & MAX_RANDOM;
        assert_eq!(random_hex(random), format!("{:020x}", random));
    }
}

#[test]
fn random_hex_takes_the_low_80_bits() {
    assert_eq!(random_hex(MAX_RANDOM + 1), "00000000000000000000");
    assert_eq!(random_hex(u128::MAX), "ffffffffffffffffffff");
}
