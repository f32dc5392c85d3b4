//! RFC 6238 TOTP (HMAC-SHA-1, 30-second period, 6 digits) with base32 and
//! `otpauth://` seed parsing.

use hmac::Mac;
use vstd::prelude::*;

use crate::clock::unix_seconds_now;
use crate::error::{JingleError, Result};
use crate::model::SecretString;
use crate::text::{
    chars_of, eq_ignore_case, eq_ignore_case_str, find_char, first_index, is_digit, is_space, is_space_char, is_upper,
    lower, lower_char, padded_decimal, padded_decimal_string, string_of, string_of_range, upper,
    upper_char,
};

verus! {

broadcast use vstd::string::group_string_axioms;

pub const PERIOD: u64 = 30;

pub const DIGITS: u32 = 6;

// ---------------------------------------------------------------------------
// Outside functions
// ---------------------------------------------------------------------------

/// A symbol of the RFC 4648 base32 alphabet (upper case, no padding).
pub open spec fn base32_symbol(c: char) -> bool {
    is_upper(c) || ('2' <= c && c <= '7')
}

/// The 5-bit value of a base32 symbol: `A`-`Z` are 0-25, `2`-`7` are 26-31.
pub open spec fn symbol_value(c: char) -> int {
    if is_upper(c) {
        (c as int) - 65
    } else {
        (c as int) - 24
    }
}

/// The weight of bit `k` (0 the most significant) of a 5-bit value.
pub open spec fn five_bit_weight(k: int) -> int {
    if k == 0 {
        16
    } else if k == 1 {
        8
    } else if k == 2 {
        4
    } else if k == 3 {
        2
    } else {
        1
    }
}

/// Bit `i` of the symbols' 5-bit values written one after the other, most
/// significant bit first.
pub open spec fn b32_bit(s: Seq<char>, i: int) -> int {
    (symbol_value(s[i / 5]) / five_bit_weight(i % 5)) % 2
}

/// Byte `k` of the decoded text: bits `8k` to `8k + 7`, big-endian.
pub open spec fn b32_byte(s: Seq<char>, k: int) -> u8 {
    let b = 8 * k;
    (128 * b32_bit(s, b) + 64 * b32_bit(s, b + 1) + 32 * b32_bit(s, b + 2) + 16 * b32_bit(s, b + 3) + 8
        * b32_bit(s, b + 4) + 4 * b32_bit(s, b + 5) + 2 * b32_bit(s, b + 6) + b32_bit(s, b + 7)) as u8
}

/// The bytes that RFC 4648 base32 text `s` (all symbols, no padding)
/// decodes to: the symbols' 5-bit values packed big-endian, and the
/// trailing bits that do not fill a byte dropped.
pub open spec fn base32_bytes(s: Seq<char>) -> Seq<u8> {
    Seq::new(s.len() * 5 / 8, |k: int| b32_byte(s, k))
}

/// `base32::decode(Alphabet::Rfc4648 { padding: false }, s)`: `None` unless
/// every character is one of `A-Z 2-7` (so `=`, lower case and anything
/// non-ASCII are refused); otherwise the `s.len() * 5 / 8` bytes that the
/// symbols encode (`base32_bytes`).
#[verifier::external_body]
fn base32_decode(s: &str) -> (r: Option<Vec<u8>>)
    ensures
        r is Some == (forall|i: int| 0 <= i < s@.len() ==> base32_symbol(#[trigger] s@[i])),
        r matches Some(v) ==> v@ == base32_bytes(s@) && v@.len() == s@.len() * 5 / 8,
{
    base32::decode(base32::Alphabet::Rfc4648 { padding: false }, s)
}

/// The HMAC-SHA-1 tag of `msg` under `key`.
pub uninterp spec fn hmac_sha1(key: Seq<u8>, msg: Seq<u8>) -> Seq<u8>;

/// `Hmac::<Sha1>::new_from_slice(key)`, `update(msg)`, `finalize()`: the
/// 20-byte tag. HMAC accepts keys of any length, so the constructor never
/// fails.
#[verifier::external_body]
fn hmac_sha1_tag(key: &[u8], msg: &[u8]) -> (tag: [u8; 20])
    ensures
        tag@ == hmac_sha1(key@, msg@),
{
    let mut mac = hmac::Hmac::<sha1::Sha1>::new_from_slice(key).expect("HMAC accepts any key length");
    mac.update(msg);
    mac.finalize().into_bytes().into()
}

// ---------------------------------------------------------------------------
// HOTP / TOTP
// ---------------------------------------------------------------------------

/// The 8-byte big-endian encoding of a counter.
pub open spec fn be_bytes(c: u64) -> Seq<u8> {
    seq![
        (c >> 56u64) as u8,
        (c >> 48u64) as u8,
        (c >> 40u64) as u8,
        (c >> 32u64) as u8,
        (c >> 24u64) as u8,
        (c >> 16u64) as u8,
        (c >> 8u64) as u8,
        c as u8,
    ]
}

/// RFC 4226 dynamic truncation of a 20-byte HMAC-SHA-1 tag: the low nibble
/// of the last byte picks an offset, and the 31 low bits of the four bytes
/// there, big-endian, are the result.
pub open spec fn truncated(d: Seq<u8>) -> u32 {
    let off = (d[19] & 0x0fu8) as int;
    ((((d[off] & 0x7fu8) as u32) << 24u32) | ((d[off + 1] as u32) << 16u32) | ((d[off + 2] as u32)
        << 8u32) | (d[off + 3] as u32)) as u32
}

pub open spec fn pow10(n: nat) -> nat
    decreases n,
{
    if n == 0 {
        1
    } else {
        10 * pow10((n - 1) as nat)
    }
}

/// The HOTP code (RFC 4226) for `key` at `counter`: `digits` decimal digits.
pub open spec fn hotp_code(key: Seq<u8>, counter: u64, digits: nat) -> Seq<char> {
    padded_decimal(truncated(hmac_sha1(key, be_bytes(counter))) as nat % pow10(digits), digits)
}

/// The TOTP code (RFC 6238) at Unix time `t`: HOTP at `t / 30`.
pub open spec fn totp_code(key: Seq<u8>, t: u64, digits: nat) -> Seq<char> {
    hotp_code(key, t / PERIOD, digits)
}

proof fn lemma_pow10_small(k: nat)
    requires
        k <= 9,
    ensures
        1 <= pow10(k) <= 1000000000,
{
    reveal_with_fuel(pow10, 10);
    if k == 0 {
    } else if k == 1 {
    } else if k == 2 {
    } else if k == 3 {
    } else if k == 4 {
    } else if k == 5 {
    } else if k == 6 {
    } else if k == 7 {
    } else if k == 8 {
    } else {
    }
}

/// `padded_decimal(n, w)` has `w` characters, all decimal digits.
pub proof fn lemma_padded_decimal_digits(n: nat, w: nat)
    ensures
        padded_decimal(n, w).len() == w,
        forall|i: int| 0 <= i < w ==> is_digit(#[trigger] padded_decimal(n, w)[i]),
    decreases w,
{
    if w > 0 {
        lemma_padded_decimal_digits(n / 10, (w - 1) as nat);
        let p = padded_decimal(n / 10, (w - 1) as nat);
        assert forall|i: int| 0 <= i < w implies is_digit(#[trigger] padded_decimal(n, w)[i]) by {
            if i < w - 1 {
                assert(padded_decimal(n, w)[i] == p[i]);
            }
        }
    }
}

/// RFC 4226 dynamic truncation of a 20-byte HMAC-SHA-1 tag, rendered as
/// `digits` zero-padded decimal digits.
pub fn hotp_truncate(tag: &[u8; 20], digits: u32) -> (code: String)
    requires
        digits <= 9,
    ensures
        code@ == padded_decimal(truncated(tag@) as nat % pow10(digits as nat), digits as nat),
        code@.len() == digits,
        forall|i: int| 0 <= i < code@.len() ==> is_digit(#[trigger] code@[i]),
{
    let last = tag[19];
    assert(last & 0x0fu8 <= 15) by (bit_vector);
    let off = (last & 0x0fu8) as usize;
    let bin: u32 = (((tag[off] & 0x7fu8) as u32) << 24u32) | ((tag[off + 1] as u32) << 16u32) | ((tag[off
        + 2] as u32) << 8u32) | (tag[off + 3] as u32);
    assert(bin == truncated(tag@));
    let mut m: u32 = 1;
    let mut i: u32 = 0;
    while i < digits
        invariant
            i <= digits <= 9,
            m == pow10(i as nat),
        decreases digits - i,
    {
        proof {
            lemma_pow10_small((i + 1) as nat);
        }
        m = m * 10;
        i = i + 1;
    }
    proof {
        lemma_pow10_small(digits as nat);
    }
    let value = bin % m;
    let code = padded_decimal_string(value as u64, digits);
    proof {
        lemma_padded_decimal_digits(value as nat, digits as nat);
    }
    code
}

/// HOTP (RFC 4226) dynamic truncation of HMAC-SHA-1 over the big-endian
/// counter, rendered as `digits` zero-padded decimal digits.
pub fn hotp(key: &[u8], counter: u64, digits: u32) -> (code: String)
    requires
        digits <= 9,
    ensures
        code@ == hotp_code(key@, counter, digits as nat),
        code@.len() == digits,
        forall|i: int| 0 <= i < code@.len() ==> is_digit(#[trigger] code@[i]),
{
    let msg: [u8; 8] = [
        (counter >> 56u64) as u8,
        (counter >> 48u64) as u8,
        (counter >> 40u64) as u8,
        (counter >> 32u64) as u8,
        (counter >> 24u64) as u8,
        (counter >> 16u64) as u8,
        (counter >> 8u64) as u8,
        counter as u8,
    ];
    assert(msg@ =~= be_bytes(counter));
    let d = hmac_sha1_tag(key, &msg);
    hotp_truncate(&d, digits)
}

/// The TOTP code at Unix time `unix_time`: HOTP at counter `unix_time / 30`.
pub fn code_at(seed: &[u8], unix_time: u64, digits: u32) -> (code: String)
    requires
        digits <= 9,
    ensures
        code@ == totp_code(seed@, unix_time, digits as nat),
        code@.len() == digits,
        forall|i: int| 0 <= i < code@.len() ==> is_digit(#[trigger] code@[i]),
{
    hotp(seed, unix_time / PERIOD, digits)
}

// ---------------------------------------------------------------------------
// Seeds
// ---------------------------------------------------------------------------

/// Canonical base32 text that decodes to at least one byte.
pub open spec fn seed_ok(s: Seq<char>) -> bool {
    &&& forall|i: int| 0 <= i < s.len() ==> base32_symbol(#[trigger] s[i])
    &&& s.len() * 5 / 8 > 0
}

/// Decode a canonical base32 seed; it must decode to at least one byte.
pub fn decode_seed(b32: &str) -> (r: Result<Vec<u8>>)
    ensures
        r is Ok == seed_ok(b32@),
        r matches Ok(v) ==> v@ == base32_bytes(b32@) && v@.len() == b32@.len() * 5 / 8 && v@.len() > 0,
        r matches Err(e) ==> (e matches JingleError::Usage(m) && m@
            == "TOTP seed is not valid base32"@),
{
    match base32_decode(b32) {
        Some(v) => {
            if v.len() == 0 {
                Err(JingleError::Usage("TOTP seed is not valid base32".to_owned()))
            } else {
                Ok(v)
            }
        },
        None => Err(JingleError::Usage("TOTP seed is not valid base32".to_owned())),
    }
}

/// `s` without leading whitespace (`str::trim_start`).
pub open spec fn trim_start(s: Seq<char>) -> Seq<char>
    decreases s.len(),
{
    if s.len() > 0 && is_space(s[0]) {
        trim_start(s.drop_first())
    } else {
        s
    }
}

/// `s` without trailing whitespace (`str::trim_end`).
pub open spec fn trim_end(s: Seq<char>) -> Seq<char>
    decreases s.len(),
{
    if s.len() > 0 && is_space(s.last()) {
        trim_end(s.drop_last())
    } else {
        s
    }
}

pub open spec fn trimmed(s: Seq<char>) -> Seq<char> {
    trim_end(trim_start(s))
}

/// `s`, lower-cased in ASCII, starts with `otpauth://`.
pub open spec fn is_otpauth(s: Seq<char>) -> bool {
    &&& s.len() >= 10
    &&& forall|i: int| 0 <= i < 10 ==> lower(#[trigger] s[i]) == "otpauth://"@[i]
}

/// `s` split at every `sep` (`str::split`): always at least one piece.
pub open spec fn split(s: Seq<char>, sep: char) -> Seq<Seq<char>>
    decreases s.len(),
{
    if s.len() == 0 {
        seq![Seq::empty()]
    } else {
        let p = split(s.drop_last(), sep);
        if s.last() == sep {
            p.push(Seq::empty())
        } else {
            p.update(p.len() - 1, p.last().push(s.last()))
        }
    }
}

/// The key and value of a `key=value` query pair (`split_once('=')`, or the
/// whole pair and an empty value).
pub open spec fn pair_key(p: Seq<char>) -> Seq<char> {
    match first_index(p, '=') {
        Some(i) => p.take(i),
        None => p,
    }
}

pub open spec fn pair_value(p: Seq<char>) -> Seq<char> {
    match first_index(p, '=') {
        Some(i) => p.skip(i + 1),
        None => Seq::empty(),
    }
}

/// The `secret` parameter among query pairs: the first pair whose key is
/// `secret` in any ASCII case decides.
pub open spec fn secret_among(pairs: Seq<Seq<char>>) -> std::result::Result<Seq<char>, Seq<char>>
    decreases pairs.len(),
{
    if pairs.len() == 0 {
        Err("otpauth URI has no secret parameter"@)
    } else if eq_ignore_case(pair_key(pairs[0]), "secret"@) {
        if pair_value(pairs[0]).len() == 0 {
            Err("otpauth URI has an empty secret"@)
        } else {
            Ok(pair_value(pairs[0]))
        }
    } else {
        secret_among(pairs.drop_first())
    }
}

/// The secret of an `otpauth://` URI, or the usage message when it has none.
pub open spec fn uri_secret(uri: Seq<char>) -> std::result::Result<Seq<char>, Seq<char>> {
    match first_index(uri, '?') {
        None => Err("otpauth URI has no query string"@),
        Some(q) => secret_among(split(uri.skip(q + 1), '&')),
    }
}

/// `raw` without spaces, dashes and `=`, upper-cased in ASCII.
pub open spec fn cleaned(raw: Seq<char>) -> Seq<char>
    decreases raw.len(),
{
    if raw.len() == 0 {
        Seq::empty()
    } else {
        let c = raw.last();
        if c == ' ' || c == '-' || c == '=' {
            cleaned(raw.drop_last())
        } else {
            cleaned(raw.drop_last()).push(upper(c))
        }
    }
}

/// What `normalize_seed` makes of `input`: the canonical seed, or the usage
/// message it refuses the input with.
pub open spec fn normalized_seed(input: Seq<char>) -> std::result::Result<Seq<char>, Seq<char>> {
    let t = trimmed(input);
    let raw = if is_otpauth(t) {
        uri_secret(t)
    } else {
        Ok(t)
    };
    match raw {
        Err(m) => Err(m),
        Ok(r) => {
            let c = cleaned(r);
            if c.len() == 0 {
                Err("TOTP seed is empty"@)
            } else if !seed_ok(c) {
                Err("TOTP seed is not valid base32"@)
            } else {
                Ok(c)
            }
        },
    }
}

/// A `Result` of the library agrees with a spec outcome whose error side is
/// a usage message.
pub open spec fn usage_outcome<T>(r: Result<T>, v: spec_fn(T) -> Seq<char>, s: std::result::Result<Seq<char>, Seq<char>>) -> bool {
    match (r, s) {
        (Ok(x), Ok(y)) => v(x) == y,
        (Err(JingleError::Usage(m)), Err(y)) => m@ == y,
        _ => false,
    }
}

/// Split `cs[from..]` at every `sep`.
fn split_chars(cs: &Vec<char>, from: usize, sep: char) -> (r: Vec<Vec<char>>)
    requires
        from <= cs.len(),
    ensures
        r@.map_values(|v: Vec<char>| v@) == split(cs@.skip(from as int), sep),
{
    let mut done: Vec<Vec<char>> = Vec::new();
    let mut cur: Vec<char> = Vec::new();
    let mut i = from;
    assert(cs@.subrange(from as int, from as int).len() == 0);
    assert(done@.map_values(|v: Vec<char>| v@).push(cur@) =~= split(cs@.subrange(from as int, i as int), sep));
    while i < cs.len()
        invariant
            from <= i <= cs.len(),
            done@.map_values(|v: Vec<char>| v@).push(cur@) == split(cs@.subrange(from as int, i as int), sep),
        decreases cs.len() - i,
    {
        let c = cs[i];
        let ghost prev = split(cs@.subrange(from as int, i as int), sep);
        assert(cs@.subrange(from as int, i + 1).drop_last() =~= cs@.subrange(from as int, i as int));
        if c == sep {
            let mut finished: Vec<char> = Vec::new();
            std::mem::swap(&mut finished, &mut cur);
            done.push(finished);
            assert(done@.map_values(|v: Vec<char>| v@).push(cur@) =~= prev.push(Seq::empty()));
        } else {
            let ghost before = done@.map_values(|v: Vec<char>| v@);
            cur.push(c);
            assert(done@.map_values(|v: Vec<char>| v@).push(cur@) =~= prev.update(prev.len() - 1, prev.last().push(c)));
        }
        i = i + 1;
    }
    assert(cs@.subrange(from as int, cs.len() as int) =~= cs@.skip(from as int));
    let ghost before = done@.map_values(|v: Vec<char>| v@);
    done.push(cur);
    assert(done@.map_values(|v: Vec<char>| v@) =~= before.push(done@.last()@));
    done
}

/// The secret parameter of an `otpauth://` URI.
pub fn extract_uri_secret(uri: &str) -> (r: Result<String>)
    ensures
        usage_outcome(r, |s: String| s@, uri_secret(uri@)),
{
    let cs = chars_of(uri);
    let q = match find_char(&cs, 0, '?') {
        Some(q) => q,
        None => {
            assert(cs@.skip(0) =~= cs@);
            return Err(JingleError::Usage("otpauth URI has no query string".to_owned()));
        },
    };
    assert(cs@.skip(0) =~= cs@);
    let pairs = split_chars(&cs, q + 1, '&');
    let ghost segs = pairs@.map_values(|v: Vec<char>| v@);
    let mut k: usize = 0;
    assert(segs.skip(0) =~= segs);
    while k < pairs.len()
        invariant
            k <= pairs.len(),
            segs == pairs@.map_values(|v: Vec<char>| v@),
            secret_among(segs) == secret_among(segs.skip(k as int)),
            uri_secret(uri@) == secret_among(segs),
        decreases pairs.len() - k,
    {
        let pair = &pairs[k];
        assert(pair@ == segs[k as int]);
        let eq = find_char(pair, 0, '=');
        assert(pair@.skip(0) =~= pair@);
        let (key_end, value_start) = match eq {
            Some(e) => (e, e + 1),
            None => (pair.len(), pair.len()),
        };
        let key = string_of_range(pair, 0, key_end);
        assert(key@ =~= pair_key(pair@));
        let is_secret = eq_ignore_case_str(key.as_str(), "secret");
        assert(segs.skip(k as int)[0] == segs[k as int]);
        if is_secret {
            let value = string_of_range(pair, value_start, pair.len());
            assert(value@ =~= pair_value(pair@));
            if value_start == pair.len() {
                return Err(JingleError::Usage("otpauth URI has an empty secret".to_owned()));
            }
            return Ok(value);
        }
        assert(segs.skip(k as int).drop_first() =~= segs.skip(k + 1));
        k = k + 1;
    }
    Err(JingleError::Usage("otpauth URI has no secret parameter".to_owned()))
}

/// The characters of `cs` with leading and trailing whitespace removed.
fn trim_chars(cs: &Vec<char>) -> (r: (usize, usize))
    ensures
        r.0 <= r.1 <= cs.len(),
        cs@.subrange(r.0 as int, r.1 as int) == trimmed(cs@),
{
    let n = cs.len();
    let mut a: usize = 0;
    assert(cs@.subrange(0, n as int) =~= cs@);
    while a < n && is_space_char(cs[a])
        invariant
            a <= n == cs.len(),
            trim_start(cs@) == trim_start(cs@.subrange(a as int, n as int)),
        decreases n - a,
    {
        assert(cs@.subrange(a as int, n as int).drop_first() =~= cs@.subrange(a + 1, n as int));
        a = a + 1;
    }
    let mut b: usize = n;
    assert(trim_start(cs@.subrange(a as int, n as int)) == cs@.subrange(a as int, n as int));
    while b > a && is_space_char(cs[b - 1])
        invariant
            a <= b <= n == cs.len(),
            trimmed(cs@) == trim_end(cs@.subrange(a as int, b as int)),
        decreases b - a,
    {
        assert(cs@.subrange(a as int, b as int).drop_last() =~= cs@.subrange(a as int, b - 1));
        b = b - 1;
    }
    (a, b)
}

/// Accepts a raw base32 seed (case-insensitive; spaces, dashes and padding
/// tolerated) or a full `otpauth://totp/...?secret=...` URI, and returns the
/// canonical base32 seed (upper case, unpadded).
pub fn normalize_seed(input: &str) -> (r: Result<SecretString>)
    ensures
        usage_outcome(r, |s: SecretString| s@, normalized_seed(input@)),
{
    let cs = chars_of(input);
    let (a, b) = trim_chars(&cs);
    let t = string_of_range(&cs, a, b);
    let tc = chars_of(t.as_str());
    let mut otp = tc.len() >= 10;
    let prefix = chars_of("otpauth://");
    proof {
        reveal_strlit("otpauth://");
    }
    let mut i: usize = 0;
    while otp && i < 10
        invariant
            tc@ == t@,
            prefix@ == "otpauth://"@,
            prefix@.len() == 10,
            i <= 10,
            otp ==> tc.len() >= 10,
            otp ==> forall|j: int| 0 <= j < i ==> lower(#[trigger] tc@[j]) == "otpauth://"@[j],
            !otp ==> !is_otpauth(t@),
        decreases 10 - i,
    {
        if lower_char(tc[i]) != prefix[i] {
            otp = false;
        }
        i = i + 1;
    }
    let raw = if otp {
        extract_uri_secret(t.as_str())?
    } else {
        t
    };
    let rc = chars_of(raw.as_str());
    let mut out: Vec<char> = Vec::new();
    let mut k: usize = 0;
    while k < rc.len()
        invariant
            rc@ == raw@,
            k <= rc.len(),
            out@ == cleaned(rc@.take(k as int)),
        decreases rc.len() - k,
    {
        let c = rc[k];
        assert(rc@.take(k + 1).drop_last() =~= rc@.take(k as int));
        if !(c == ' ' || c == '-' || c == '=') {
            out.push(upper_char(c));
        }
        k = k + 1;
    }
    assert(rc@.take(rc.len() as int) =~= rc@);
    if out.len() == 0 {
        return Err(JingleError::Usage("TOTP seed is empty".to_owned()));
    }
    let seed = string_of(&out);
    decode_seed(seed.as_str())?;
    Ok(SecretString::new(seed))
}

/// Normalizing a seed that is already canonical gives it back: the result
/// of `normalize_seed` is a fixed point. It is also a seed that `code_now`
/// accepts.
pub proof fn lemma_normalize_idempotent(input: Seq<char>, seed: Seq<char>)
    requires
        normalized_seed(input) == Ok::<Seq<char>, Seq<char>>(seed),
    ensures
        normalized_seed(seed) == Ok::<Seq<char>, Seq<char>>(seed),
        seed_ok(seed),
{
    assert(seed_ok(seed));
    assert(seed.len() > 0 && !is_space(seed[0])) by {
        assert(base32_symbol(seed[0]));
    }
    assert(trim_start(seed) == seed);
    assert(!is_space(seed.last())) by {
        assert(base32_symbol(seed[seed.len() - 1]));
    }
    assert(trim_end(seed) == seed);
    if is_otpauth(seed) {
        assert(base32_symbol(seed[7]));
        assert(lower(seed[7]) == "otpauth://"@[7]);
        reveal_strlit("otpauth://");
        assert(false);
    }
    lemma_cleaned_symbols(seed);
}

proof fn lemma_cleaned_symbols(s: Seq<char>)
    requires
        forall|i: int| 0 <= i < s.len() ==> base32_symbol(#[trigger] s[i]),
    ensures
        cleaned(s) == s,
    decreases s.len(),
{
    if s.len() > 0 {
        assert(base32_symbol(s.last()));
        assert forall|i: int| 0 <= i < s.drop_last().len() implies base32_symbol(#[trigger] s.drop_last()[i]) by {
            assert(base32_symbol(s[i]));
        }
        lemma_cleaned_symbols(s.drop_last());
        assert(s.drop_last().push(s.last()) =~= s);
    }
}

/// The code at Unix time `t` and the seconds until it expires.
pub fn code_and_remaining(seed: &[u8], t: u64) -> (r: (String, u64))
    ensures
        r.0@ == totp_code(seed@, t, DIGITS as nat),
        r.1 == PERIOD - t % PERIOD,
        r.0@.len() == DIGITS,
        forall|i: int| 0 <= i < r.0@.len() ==> is_digit(#[trigger] r.0@[i]),
        1 <= r.1 <= PERIOD,
{
    let remaining = PERIOD - (t % PERIOD);
    (code_at(seed, t, DIGITS), remaining)
}

/// A code is good for exactly the seconds it is said to remain: from the
/// reading `t` until the next multiple of 30, every reading gives the same
/// code, and the expiry lands on a window boundary.
pub proof fn law_code_valid_until_expiry(seed: Seq<u8>, t: u64)
    ensures
        ({
            let remaining = PERIOD - t % PERIOD;
            &&& 1 <= remaining <= PERIOD
            &&& (t + remaining) % (PERIOD as int) == 0
            &&& forall|u: u64| t <= u < t + remaining ==> #[trigger] totp_code(seed, u, DIGITS as nat) == totp_code(seed, t, DIGITS as nat)
        }),
{
    let remaining = PERIOD - t % PERIOD;
    assert((t + remaining) % 30 == 0) by (nonlinear_arith)
        requires remaining == 30 - t % 30;
    assert forall|u: u64| t <= u < t + remaining implies #[trigger] totp_code(seed, u, DIGITS as nat) == totp_code(seed, t, DIGITS as nat) by {
        assert(u / 30 == t / 30) by (nonlinear_arith)
            requires t <= u, u < t + remaining, remaining == 30 - t % 30;
    }
}

/// The current code and the seconds until it expires.
pub fn code_now(seed_b32: &SecretString) -> (r: Result<(String, u64)>)
    ensures
        !seed_ok(seed_b32@) ==> (r matches Err(JingleError::Usage(m)) && m@
            == "TOTP seed is not valid base32"@),
        seed_ok(seed_b32@) && r is Err ==> (r matches Err(JingleError::Other(m)) && m@
            == "system clock is before the Unix epoch"@),
        r matches Ok((code, remaining)) ==> {
            &&& seed_ok(seed_b32@)
            &&& exists|t: u64|
                code@ == totp_code(base32_bytes(seed_b32@), t, DIGITS as nat) && remaining == PERIOD
                    - t % PERIOD
            &&& code@.len() == DIGITS
            &&& forall|i: int| 0 <= i < code@.len() ==> is_digit(#[trigger] code@[i])
            &&& 1 <= remaining <= PERIOD
        },
{
    let seed = decode_seed(seed_b32.expose())?;
    let now = match unix_seconds_now() {
        Some(t) => t,
        None => {
            return Err(JingleError::Other("system clock is before the Unix epoch".to_owned()));
        },
    };
    Ok(code_and_remaining(seed.as_slice(), now))
}

} // verus!
