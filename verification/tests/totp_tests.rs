//! Tests for the time-based code derivation.

use rustotpony::code_at;

/// The RFC 6238 test secret: the ASCII bytes of `12345678901234567890`
/// (Base32 `GEZDGNBVGY3TQOJQGEZDGNBVGY3TQOJQ`).
fn rfc_secret() -> Vec<u8> {
    b"12345678901234567890".to_vec()
}

/// The decoding of Base32 `JBSWY3DPEHPK3PXP`.
fn demo_secret() -> Vec<u8> {
    vec![72, 101, 108, 108, 111, 33, 222, 173, 190, 239]
}

#[test]
fn rfc6238_reference_vectors() {
    let s = rfc_secret();
    assert_eq!(code_at(&s, 59), "287082");
    assert_eq!(code_at(&s, 1111111109), "081804");
    assert_eq!(code_at(&s, 1111111111), "050471");
    assert_eq!(code_at(&s, 1234567890), "005924");
    assert_eq!(code_at(&s, 2000000000), "279037");
    assert_eq!(code_at(&s, 20000000000), "353130");
}

#[test]
fn code_is_deterministic() {
    let s = rfc_secret();
    for _ in 0..5 {
        assert_eq!(code_at(&s, 1234567890), "005924");
    }
}

#[test]
fn same_step_same_code() {
    // 30 and 59 fall in the same 30-second window.
    let s = rfc_secret();
    assert_eq!(code_at(&s, 30), code_at(&s, 59));
    assert_eq!(code_at(&s, 30), "287082");
}

#[test]
fn next_step_differs() {
    // 59 and 60 fall in consecutive windows; the moving factor increments.
    let s = rfc_secret();
    assert_ne!(code_at(&s, 59), code_at(&s, 60));
    assert_eq!(code_at(&s, 60), "359152");
}

#[test]
fn code_is_six_zero_padded_digits() {
    let code = code_at(&rfc_secret(), 1234567890);
    assert_eq!(code.len(), 6);
    assert!(code.chars().all(|c| c.is_ascii_digit()));
    // This vector has leading zeros, which must not be dropped.
    assert_eq!(code, "005924");
}

#[test]
fn demo_secret_vectors() {
    let s = demo_secret();
    assert_eq!(code_at(&s, 0), "282760");
    assert_eq!(code_at(&s, 59), "996554");
    assert_eq!(code_at(&s, 1111111109), "071271");
}

#[test]
fn code_now_shape() {
    let code = rustotpony::code_now(&rfc_secret());
    assert_eq!(code.len(), 6);
    assert!(code.chars().all(|c| c.is_ascii_digit()));
}
