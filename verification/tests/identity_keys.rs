use true_cyber::hexcode::{hex, parse_hex32};
use true_cyber::identity::key32;

#[test]
fn hex_is_lower_case_two_digits_per_byte() {
    assert_eq!(hex(&[0x00, 0x0f, 0xa0, 0xff]), "000fa0ff");
    assert_eq!(hex(&[]), "");
}

#[test]
fn parse_hex32_pads_on_the_left() {
    let p = parse_hex32("01").expect("hex");
    let mut want = [0u8; 32];
    want[31] = 1;
    assert_eq!(p, want);
    let q = parse_hex32("0xAbC").expect("hex");
    want[31] = 0xbc;
    want[30] = 0x0a;
    assert_eq!(q, want);
}

#[test]
fn parse_hex32_rejects() {
    assert!(parse_hex32("").is_none());
    assert!(parse_hex32("0x").is_none());
    assert!(parse_hex32("g1").is_none());
    assert!(parse_hex32(&"1".repeat(65)).is_none());
    assert!(parse_hex32("é1").is_none());
}

#[test]
fn hex_roundtrip() {
    let mut b = [0u8; 32];
    for i in 0..32 {
        b[i] = (i as u8).wrapping_mul(37).wrapping_add(5);
    }
    assert_eq!(parse_hex32(&hex(&b)), Some(b));
    assert_eq!(parse_hex32(&format!("0x{}", hex(&b))), Some(b));
}

#[test]
fn key32_of_hex_is_the_particle() {
    let mut b = [7u8; 32];
    b[0] = 0xde;
    assert_eq!(key32(&hex(&b)).unwrap(), b);
}

#[test]
fn key32_of_label_is_a_hash() {
    let a = key32("alice").unwrap();
    let b = key32("bob").unwrap();
    assert_ne!(a, b);
    assert_eq!(a, key32("alice").unwrap());
    let mut raw = [0u8; 32];
    raw[..5].copy_from_slice(b"alice");
    assert_ne!(a, raw);
    assert_ne!(a, [0u8; 32]);
    assert_eq!(a, *cyber_hemera::hash(b"alice").as_bytes());
}
