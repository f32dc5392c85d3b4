use jingle::totp::decode_seed;
use jingle::totp::{code_at, code_now, hotp, normalize_seed};

#[test]
fn hotp_rfc4226_vectors() {
    let key = b"12345678901234567890";
    let expected = [
        "755224", "287082", "359152", "969429", "338314", "254676", "287922", "162583",
        "399871", "520489",
    ];
    for (counter, want) in expected.iter().enumerate() {
        assert_eq!(hotp(key, counter as u64, 6), *want);
    }
}

#[test]
fn totp_rfc6238_vectors() {
    let key = b"12345678901234567890";
    let cases: &[(u64, &str)] = &[
        (59, "94287082"),
        (1111111109, "07081804"),
        (1111111111, "14050471"),
        (1234567890, "89005924"),
        (2000000000, "69279037"),
        (20000000000, "65353130"),
    ];
    for &(t, want) in cases {
        assert_eq!(code_at(key, t, 8), want);
    }
}

#[test]
fn normalize_accepts_variants() {
    // "12345678901234567890" in base32
    let canonical = "GEZDGNBVGY3TQOJQGEZDGNBVGY3TQOJQ";
    for input in [
        canonical,
        "gezdgnbvgy3tqojqgezdgnbvgy3tqojq",
        "GEZD GNBV GY3T QOJQ GEZD GNBV GY3T QOJQ",
        "gezd-gnbv-gy3t-qojq-gezd-gnbv-gy3t-qojq",
        "otpauth://totp/Example:bot?secret=GEZDGNBVGY3TQOJQGEZDGNBVGY3TQOJQ&issuer=Example",
    ] {
        assert_eq!(normalize_seed(input).unwrap().expose(), canonical);
    }
}

#[test]
fn normalize_rejects_garbage() {
    assert!(normalize_seed("").is_err());
    assert!(normalize_seed("not!base32").is_err());
    assert!(normalize_seed("otpauth://totp/x").is_err());
    assert!(normalize_seed("otpauth://totp/x?issuer=y").is_err());
}

#[test]
fn code_now_shape() {
    let seed = normalize_seed("GEZDGNBVGY3TQOJQGEZDGNBVGY3TQOJQ").unwrap();
    let (code, remaining) = code_now(&seed).unwrap();
    assert_eq!(code.len(), 6);
    assert!(code.chars().all(|c| c.is_ascii_digit()));
    assert!((1..=30).contains(&remaining));
}

fn tag(hex: &str) -> [u8; 20] {
    let mut t = [0u8; 20];
    for (i, b) in t.iter_mut().enumerate() {
        *b = u8::from_str_radix(&hex[2 * i..2 * i + 2], 16).unwrap();
    }
    t
}

#[test]
fn hotp_truncation_rfc4226_appendix_d() {
    // The HMAC-SHA-1 values of RFC 4226 appendix D and their 6-digit codes.
    let cases = [
        ("cc93cf18508d94934c64b65d8ba7667fb7cde4b0", "755224"),
        ("75a48a19d4cbe100644e8ac1397eea747a2d33ab", "287082"),
        ("0bacb7fa082fef30782211938bc1c5e70416ff44", "359152"),
        ("66c28227d03a2d5529262ff016a1e6ef76557ece", "969429"),
        ("a904c900a64b35909874b33e61c5938a8e15ed1c", "338314"),
        ("a37e783d7b7233c083d4f62926c7a25f238d0316", "254676"),
        ("bc9cd28561042c83f219324d3c607256c03272ae", "287922"),
        ("a4fb960c0bc06e1eabb804e5b397cdc4b45596fa", "162583"),
        ("1b3c89f65e6c9e883012052823443f048b4332db", "399871"),
        ("1637409809a679dc698207310c8c7fc07290d9e5", "520489"),
    ];
    for (hex, want) in cases {
        assert_eq!(jingle::totp::hotp_truncate(&tag(hex), 6), want);
    }
    assert_eq!(jingle::totp::hotp_truncate(&tag("cc93cf18508d94934c64b65d8ba7667fb7cde4b0"), 0), "");
    assert_eq!(jingle::totp::hotp_truncate(&tag("cc93cf18508d94934c64b65d8ba7667fb7cde4b0"), 9), "284755224");
}

#[test]
fn code_and_remaining_at_fixed_times() {
    let key = b"12345678901234567890";
    let (code, remaining) = jingle::totp::code_and_remaining(key, 59);
    assert_eq!(code, "287082");
    assert_eq!(remaining, 1);
    let (code, remaining) = jingle::totp::code_and_remaining(key, 60);
    assert_eq!(code, "359152");
    assert_eq!(remaining, 30);
}

#[test]
fn decode_seed_packs_five_bit_symbols() {
    assert_eq!(decode_seed("ME").unwrap(), vec![0x61]);
    assert_eq!(decode_seed("MFRGG").unwrap(), b"abc".to_vec());
    assert_eq!(decode_seed("GEZDGNBVGY3TQOJQGEZDGNBVGY3TQOJQ").unwrap(), b"12345678901234567890".to_vec());
    assert!(decode_seed("M").is_err());
    assert!(decode_seed("me").is_err());
}
