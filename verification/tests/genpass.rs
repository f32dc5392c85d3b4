use std::collections::HashSet;

use jingle::genpass::{draw_chars, generate, Charset, MAX_LENGTH, MIN_LENGTH};
use jingle::error::JingleError;

#[test]
fn respects_length_and_charset() {
    for cs in [Charset::Full, Charset::Alnum, Charset::Digits] {
        let p = generate(32, cs).unwrap();
        assert_eq!(p.expose().len(), 32);
        let alphabet: HashSet<char> = cs.alphabet().iter().map(|&b| b as char).collect();
        assert!(p.expose().chars().all(|c| alphabet.contains(&c)));
    }
}

#[test]
fn rejects_bad_lengths() {
    assert!(generate(0, Charset::Full).is_err());
    assert!(generate(3, Charset::Full).is_err());
    assert!(generate(MAX_LENGTH + 1, Charset::Full).is_err());
}

#[test]
fn outputs_differ() {
    let a = generate(24, Charset::Full).unwrap();
    let b = generate(24, Charset::Full).unwrap();
    assert_ne!(a.expose(), b.expose());
}

#[test]
fn no_shell_hostile_characters_in_full() {
    let p = generate(512, Charset::Full).unwrap();
    for bad in ['\'', '"', '\\', '`', ' ', ';'] {
        assert!(!p.expose().contains(bad), "found {bad:?}");
    }
}

#[test]
fn draws_by_rejection_sampling() {
    // Digits: bytes 250..=255 are discarded, the rest pick by remainder.
    assert_eq!(draw_chars(&[0, 1, 255, 10, 249, 250], Charset::Digits, 10), "0109");
    assert_eq!(draw_chars(&[0, 1, 255, 10], Charset::Digits, 2), "01");
    // Alnum has 62 symbols: bytes from 248 on are discarded.
    assert_eq!(draw_chars(&[61, 62, 248, 25, 26], Charset::Alnum, 8), "9AZa");
    assert_eq!(draw_chars(&[84, 85], Charset::Full, 8), "~A");
    assert_eq!(draw_chars(&[], Charset::Full, 8), "");
}

#[test]
fn length_bounds_are_inclusive() {
    assert_eq!(generate(MIN_LENGTH, Charset::Digits).unwrap().expose().len(), MIN_LENGTH);
    assert_eq!(generate(MAX_LENGTH, Charset::Alnum).unwrap().expose().len(), MAX_LENGTH);
    assert_eq!(
        generate(MIN_LENGTH - 1, Charset::Digits).map(|s| s.expose().to_string()),
        Err(JingleError::Usage("length must be between 4 and 1024".into()))
    );
}
