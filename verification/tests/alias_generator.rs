use shortenurl::generator::{alias_of_millis, unique_id};

fn is_base62(s: &str) -> bool {
    s.chars()
        .all(|c| c.is_ascii_digit() || c.is_ascii_uppercase() || c.is_ascii_lowercase())
}

// Shortlex: shorter strings first, equal lengths byte by byte. On base-62
// encodings this is the numeric order of the encoded values.
fn shortlex_less(a: &str, b: &str) -> bool {
    a.len() < b.len() || (a.len() == b.len() && a < b)
}

#[test]
fn known_encodings() {
    assert_eq!(alias_of_millis(0), "0");
    assert_eq!(alias_of_millis(9), "9");
    assert_eq!(alias_of_millis(10), "A");
    assert_eq!(alias_of_millis(35), "Z");
    assert_eq!(alias_of_millis(36), "a");
    assert_eq!(alias_of_millis(61), "z");
    assert_eq!(alias_of_millis(62), "10");
    assert_eq!(alias_of_millis(1337), "LZ");
    assert_eq!(alias_of_millis(12345), "3D7");
}

#[test]
fn aliases_are_base62_strings() {
    let samples: [u128; 6] = [0, 7, 61, 62, 123_456_789, 1_700_000_000_000];
    for millis in samples {
        assert!(is_base62(&alias_of_millis(millis)));
    }
}

#[test]
fn increasing_timestamps_encode_in_order() {
    let timestamps: [u128; 10] = [
        0,
        1,
        9,
        61,
        62,
        100,
        3_843,
        3_844,
        1_700_000_000_000,
        u128::MAX,
    ];
    for pair in timestamps.windows(2) {
        let a = alias_of_millis(pair[0]);
        let b = alias_of_millis(pair[1]);
        assert!(shortlex_less(&a, &b), "{a} should come before {b}");
    }
}

#[test]
fn unique_id_mints_a_base62_token() {
    let token = unique_id().expect("the clock should read after the epoch");
    assert!(!token.is_empty());
    assert!(is_base62(&token));
}
