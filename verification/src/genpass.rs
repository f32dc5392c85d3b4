//! Password generation with unbiased (rejection-sampled) character selection.

use vstd::prelude::*;

use crate::error::{JingleError, Result};
use crate::model::SecretString;
use crate::random::{fill_random, random_error_text};
use crate::text::concat;

verus! {

broadcast use vstd::string::group_string_axioms;

/// The characters a generated password is drawn from.
#[derive(Debug, Clone, Copy, PartialEq, Eq)]
pub enum Charset {
    /// Letters, digits, and shell-safe symbols.
    Full,
    /// Letters and digits.
    Alnum,
    /// Digits only (PINs).
    Digits,
}

/// The alphabet of each charset, as ASCII bytes: letters `A-Z a-z`, digits
/// `0-9` and, for `Full`, the symbols `!@#$%^&*()-_=+[]{}:,.?~`.
pub open spec fn alphabet_bytes(cs: Charset) -> Seq<u8> {
    match cs {
        Charset::Full => seq![65u8, 66u8, 67u8, 68u8, 69u8, 70u8, 71u8, 72u8, 73u8, 74u8, 75u8, 76u8, 77u8, 78u8, 79u8, 80u8, 81u8, 82u8, 83u8, 84u8, 85u8, 86u8, 87u8, 88u8, 89u8, 90u8, 97u8, 98u8, 99u8, 100u8, 101u8, 102u8, 103u8, 104u8, 105u8, 106u8, 107u8, 108u8, 109u8, 110u8, 111u8, 112u8, 113u8, 114u8, 115u8, 116u8, 117u8, 118u8, 119u8, 120u8, 121u8, 122u8, 48u8, 49u8, 50u8, 51u8, 52u8, 53u8, 54u8, 55u8, 56u8, 57u8, 33u8, 64u8, 35u8, 36u8, 37u8, 94u8, 38u8, 42u8, 40u8, 41u8, 45u8, 95u8, 61u8, 43u8, 91u8, 93u8, 123u8, 125u8, 58u8, 44u8, 46u8, 63u8, 126u8],
        Charset::Alnum => seq![65u8, 66u8, 67u8, 68u8, 69u8, 70u8, 71u8, 72u8, 73u8, 74u8, 75u8, 76u8, 77u8, 78u8, 79u8, 80u8, 81u8, 82u8, 83u8, 84u8, 85u8, 86u8, 87u8, 88u8, 89u8, 90u8, 97u8, 98u8, 99u8, 100u8, 101u8, 102u8, 103u8, 104u8, 105u8, 106u8, 107u8, 108u8, 109u8, 110u8, 111u8, 112u8, 113u8, 114u8, 115u8, 116u8, 117u8, 118u8, 119u8, 120u8, 121u8, 122u8, 48u8, 49u8, 50u8, 51u8, 52u8, 53u8, 54u8, 55u8, 56u8, 57u8],
        Charset::Digits => seq![48u8, 49u8, 50u8, 51u8, 52u8, 53u8, 54u8, 55u8, 56u8, 57u8],
    }
}

impl Charset {
    /// The symbols avoid quotes, backslash and backtick so generated values
    /// survive careless shell interpolation in agent scripts.
    pub fn alphabet(self) -> (a: &'static [u8])
        ensures
            a@ == alphabet_bytes(self),
    {
        match self {
            Charset::Full => {
                let a: &'static [u8] = &[65u8, 66u8, 67u8, 68u8, 69u8, 70u8, 71u8, 72u8, 73u8, 74u8, 75u8, 76u8, 77u8, 78u8, 79u8, 80u8, 81u8, 82u8, 83u8, 84u8, 85u8, 86u8, 87u8, 88u8, 89u8, 90u8, 97u8, 98u8, 99u8, 100u8, 101u8, 102u8, 103u8, 104u8, 105u8, 106u8, 107u8, 108u8, 109u8, 110u8, 111u8, 112u8, 113u8, 114u8, 115u8, 116u8, 117u8, 118u8, 119u8, 120u8, 121u8, 122u8, 48u8, 49u8, 50u8, 51u8, 52u8, 53u8, 54u8, 55u8, 56u8, 57u8, 33u8, 64u8, 35u8, 36u8, 37u8, 94u8, 38u8, 42u8, 40u8, 41u8, 45u8, 95u8, 61u8, 43u8, 91u8, 93u8, 123u8, 125u8, 58u8, 44u8, 46u8, 63u8, 126u8];
                assert(a@ =~= alphabet_bytes(self));
                a
            },
            Charset::Alnum => {
                let a: &'static [u8] = &[65u8, 66u8, 67u8, 68u8, 69u8, 70u8, 71u8, 72u8, 73u8, 74u8, 75u8, 76u8, 77u8, 78u8, 79u8, 80u8, 81u8, 82u8, 83u8, 84u8, 85u8, 86u8, 87u8, 88u8, 89u8, 90u8, 97u8, 98u8, 99u8, 100u8, 101u8, 102u8, 103u8, 104u8, 105u8, 106u8, 107u8, 108u8, 109u8, 110u8, 111u8, 112u8, 113u8, 114u8, 115u8, 116u8, 117u8, 118u8, 119u8, 120u8, 121u8, 122u8, 48u8, 49u8, 50u8, 51u8, 52u8, 53u8, 54u8, 55u8, 56u8, 57u8];
                assert(a@ =~= alphabet_bytes(self));
                a
            },
            Charset::Digits => {
                let a: &'static [u8] = &[48u8, 49u8, 50u8, 51u8, 52u8, 53u8, 54u8, 55u8, 56u8, 57u8];
                assert(a@ =~= alphabet_bytes(self));
                a
            },
        }
    }
}

/// Every alphabet is printable ASCII (no space, no control character), and
/// none holds a quote, backslash, backtick or semicolon.
pub proof fn lemma_alphabets_shell_safe(cs: Charset)
    ensures
        forall|i: int|
            0 <= i < alphabet_bytes(cs).len() ==> {
                let b = #[trigger] alphabet_bytes(cs)[i];
                &&& 33 <= b <= 126
                &&& b != 39 && b != 34 && b != 92 && b != 96 && b != 59
            },
        2 <= alphabet_bytes(cs).len() <= 256,
{
}

pub const MIN_LENGTH: usize = 4;

pub const MAX_LENGTH: usize = 1024;

/// `c` is one of the characters of charset `cs`.
pub open spec fn in_alphabet(cs: Charset, c: char) -> bool {
    exists|k: int| 0 <= k < alphabet_bytes(cs).len() && c == (#[trigger] alphabet_bytes(cs)[k]) as char
}

/// Bytes at or above this bound are discarded when drawing from an
/// alphabet of `n` symbols: it is the largest multiple of `n` not above 256,
/// so every symbol is picked by equally many byte values.
pub open spec fn accept_limit(n: nat) -> nat {
    (256int - 256int % (n as int)) as nat
}

/// The characters that the bytes `bytes`, taken in order, pick from
/// charset `cs`: a byte below the bound picks the symbol at its remainder
/// modulo the alphabet's size; any other byte is discarded.
pub open spec fn drawn(cs: Charset, bytes: Seq<u8>) -> Seq<char>
    decreases bytes.len(),
{
    if bytes.len() == 0 {
        Seq::empty()
    } else {
        let prev = drawn(cs, bytes.drop_last());
        let b = bytes.last();
        let n = alphabet_bytes(cs).len();
        if (b as nat) < accept_limit(n) {
            prev.push(alphabet_bytes(cs)[(b as int) % (n as int)] as char)
        } else {
            prev
        }
    }
}

/// Drawing is unbiased: a byte is kept exactly when it lies below a bound
/// that is a multiple of the alphabet's size and the largest such multiple
/// not above 256, and a kept byte picks the symbol at its remainder. So the
/// kept byte values split into equally many for every symbol.
pub proof fn law_draw_unbiased(cs: Charset, b: u8)
    ensures
        ({
            let n = alphabet_bytes(cs).len();
            let limit = accept_limit(n);
            &&& (limit as int) % (n as int) == 0
            &&& 256 - n < limit <= 256
            &&& (b as nat) < limit ==> drawn(cs, seq![b]) == seq![alphabet_bytes(cs)[(b as int) % (n as int)] as char]
            &&& (b as nat) >= limit ==> drawn(cs, seq![b]).len() == 0
        }),
{
    let s = seq![b];
    assert(s.drop_last() =~= Seq::<u8>::empty());
    assert(s.last() == b);
    assert(drawn(cs, Seq::<u8>::empty()) == Seq::<char>::empty());
    match cs {
        Charset::Full => {
            assert(alphabet_bytes(cs).len() == 85);
            assert(256int % 85int == 1);
            assert(accept_limit(85) == 255);
            assert(255int % 85int == 0);
        },
        Charset::Alnum => {
            assert(alphabet_bytes(cs).len() == 62);
            assert(accept_limit(62) == 248);
        },
        Charset::Digits => {
            assert(alphabet_bytes(cs).len() == 10);
            assert(accept_limit(10) == 250);
        },
    }
}

/// Every character drawn from a charset is in its alphabet.
pub proof fn lemma_drawn_in_alphabet(cs: Charset, bytes: Seq<u8>)
    ensures
        forall|i: int| 0 <= i < drawn(cs, bytes).len() ==> in_alphabet(cs, #[trigger] drawn(cs, bytes)[i]),
    decreases bytes.len(),
{
    lemma_alphabets_shell_safe(cs);
    if bytes.len() > 0 {
        lemma_drawn_in_alphabet(cs, bytes.drop_last());
        let prev = drawn(cs, bytes.drop_last());
        let n = alphabet_bytes(cs).len();
        let b = bytes.last();
        if (b as nat) < accept_limit(n) {
            let k = (b as int) % (n as int);
            assert(0 <= k < n);
            assert forall|i: int| 0 <= i < drawn(cs, bytes).len() implies in_alphabet(cs, #[trigger] drawn(cs, bytes)[i]) by {
                if i < prev.len() {
                    assert(drawn(cs, bytes)[i] == prev[i]);
                } else {
                    assert(drawn(cs, bytes)[i] == alphabet_bytes(cs)[k] as char);
                }
            }
        }
    }
}

/// Drawing from two runs of bytes one after the other draws from each in turn.
pub proof fn lemma_drawn_append(cs: Charset, a: Seq<u8>, b: Seq<u8>)
    ensures
        drawn(cs, a + b) == drawn(cs, a) + drawn(cs, b),
    decreases b.len(),
{
    if b.len() == 0 {
        assert(a + b =~= a);
        assert(drawn(cs, a) + drawn(cs, b) =~= drawn(cs, a));
    } else {
        lemma_drawn_append(cs, a, b.drop_last());
        assert((a + b).drop_last() =~= a + b.drop_last());
        assert((a + b).last() == b.last());
        let n = alphabet_bytes(cs).len();
        if (b.last() as nat) < accept_limit(n) {
            let c = alphabet_bytes(cs)[(b.last() as int) % (n as int)] as char;
            assert(drawn(cs, a) + drawn(cs, b.drop_last()).push(c) =~= (drawn(cs, a) + drawn(cs, b.drop_last())).push(c));
        }
    }
}

/// Any first `k` drawn characters are what some first bytes draw.
pub proof fn lemma_drawn_prefix(cs: Charset, b: Seq<u8>, k: nat)
    requires
        k <= drawn(cs, b).len(),
    ensures
        exists|j: int| 0 <= j <= b.len() && #[trigger] drawn(cs, b.take(j)) == drawn(cs, b).take(k as int),
    decreases b.len(),
{
    if k == drawn(cs, b).len() {
        assert(b.take(b.len() as int) =~= b);
        assert(drawn(cs, b).take(k as int) =~= drawn(cs, b));
        assert(drawn(cs, b.take(b.len() as int)) == drawn(cs, b).take(k as int));
    } else {
        let p = b.drop_last();
        assert(drawn(cs, b).take(k as int) =~= drawn(cs, p).take(k as int));
        lemma_drawn_prefix(cs, p, k);
        let j = choose|j: int| 0 <= j <= p.len() && #[trigger] drawn(cs, p.take(j)) == drawn(cs, p).take(k as int);
        assert(b.take(j) =~= p.take(j));
        assert(drawn(cs, b.take(j)) == drawn(cs, b).take(k as int));
    }
}

/// The characters that the random bytes `bytes` pick from `charset`, at
/// most `want` of them: the first `want` characters of `drawn`, or all of
/// them if there are fewer.
pub fn draw_chars(bytes: &[u8], charset: Charset, want: usize) -> (s: String)
    ensures
        s@ == drawn(charset, bytes@).take(
            if drawn(charset, bytes@).len() < want {
                drawn(charset, bytes@).len() as int
            } else {
                want as int
            },
        ),
{
    let alphabet = charset.alphabet();
    proof {
        lemma_alphabets_shell_safe(charset);
    }
    let n = alphabet.len();
    let limit = 256 - (256 % n);
    let mut out = String::new();
    let mut count: usize = 0;
    let mut j: usize = 0;
    while j < bytes.len()
        invariant
            alphabet@ == alphabet_bytes(charset),
            n == alphabet@.len(),
            2 <= n <= 256,
            limit == accept_limit(n as nat),
            j <= bytes@.len(),
            out@.len() == count,
            out@ == drawn(charset, bytes@.take(j as int)).take(
                if drawn(charset, bytes@.take(j as int)).len() < want {
                    drawn(charset, bytes@.take(j as int)).len() as int
                } else {
                    want as int
                },
            ),
        decreases bytes.len() - j,
    {
        let b = bytes[j];
        let ghost pre = bytes@.take(j as int);
        assert(bytes@.take(j + 1).drop_last() =~= pre);
        assert(bytes@.take(j + 1).last() == b);
        if (b as usize) < limit {
            let c = alphabet[(b as usize) % n] as char;
            assert(drawn(charset, bytes@.take(j + 1)) == drawn(charset, pre).push(c));
            if count < want {
                out.push(c);
                count = count + 1;
                assert(out@ =~= drawn(charset, bytes@.take(j + 1)).take(count as int));
            } else {
                assert(out@ =~= drawn(charset, bytes@.take(j + 1)).take(want as int));
            }
        } else {
            assert(drawn(charset, bytes@.take(j + 1)) == drawn(charset, pre));
        }
        j = j + 1;
    }
    assert(bytes@.take(bytes@.len() as int) =~= bytes@);
    out
}

/// A password of `length` characters drawn uniformly from the charset's
/// alphabet: random bytes at or above the largest multiple of the alphabet
/// size are discarded, the rest are reduced modulo that size. The password
/// is what some run of bytes from the OS random source draws.
pub fn generate(length: usize, charset: Charset) -> (r: Result<SecretString>)
    ensures
        (length < MIN_LENGTH || length > MAX_LENGTH) ==> (r matches Err(JingleError::Usage(m)) && m@
            == "length must be between 4 and 1024"@),
        MIN_LENGTH <= length <= MAX_LENGTH && r is Err ==> r matches Err(JingleError::Other(_)),
        r matches Ok(s) ==> {
            &&& MIN_LENGTH <= length <= MAX_LENGTH
            &&& s@.len() == length
            &&& exists|bytes: Seq<u8>| s@ == #[trigger] drawn(charset, bytes)
            &&& forall|i: int| 0 <= i < length ==> in_alphabet(charset, #[trigger] s@[i])
        },
{
    if length < MIN_LENGTH || length > MAX_LENGTH {
        return Err(JingleError::Usage("length must be between 4 and 1024".to_owned()));
    }
    let mut out = String::new();
    let mut count: usize = 0;
    let mut rounds: u64 = 0;
    let ghost mut used: Seq<u8> = Seq::empty();
    while count < length
        invariant
            MIN_LENGTH <= length <= MAX_LENGTH,
            count <= length,
            out@.len() == count,
            out@ == drawn(charset, used),
        decreases u64::MAX - rounds,
    {
        if rounds == u64::MAX {
            return Err(JingleError::Other("OS randomness produced no usable bytes".to_owned()));
        }
        rounds = rounds + 1;
        let mut buf: Vec<u8> = Vec::new();
        let mut z: usize = 0;
        while z < 64
            invariant
                buf@.len() == z,
                z <= 64,
            decreases 64 - z,
        {
            buf.push(0u8);
            z = z + 1;
        }
        match fill_random(&mut buf) {
            Ok(()) => {},
            Err(e) => {
                let m = concat("failed to gather OS randomness: ", random_error_text(&e).as_str());
                return Err(JingleError::Other(m));
            },
        }
        let piece = draw_chars(buf.as_slice(), charset, length - count);
        let got = crate::text::chars_of(piece.as_str()).len();
        proof {
            lemma_drawn_prefix(charset, buf@, got as nat);
            let j = choose|j: int| 0 <= j <= buf@.len() && #[trigger] drawn(charset, buf@.take(j)) == drawn(charset, buf@).take(got as int);
            lemma_drawn_append(charset, used, buf@.take(j));
            used = used + buf@.take(j);
        }
        out = concat(out.as_str(), piece.as_str());
        count = count + got;
    }
    proof {
        lemma_drawn_in_alphabet(charset, used);
    }
    Ok(SecretString::new(out))
}

} // verus!
