//! Digests, their hexadecimal text, and the decimal text of counters.

use vstd::prelude::*;
use vstd::string::*;
use vstd::utf8::{encode_utf8, is_ascii_chars, is_ascii_chars_encode_utf8};

verus! {

/// Number of bytes in a SHA-256 digest.
pub const DIGEST_BYTES: usize = 32;

/// Number of characters in the hexadecimal text of a SHA-256 digest.
pub const HASH_CHARS: usize = 64;

/// The digest routine accepts strictly fewer bytes than this: the bit length
/// of its input has to fit in 64 bits.
pub const DIGEST_INPUT_LIMIT: u64 = 0x2000_0000_0000_0000;

/// The SHA-256 digest of `data`, as computed by `ring::digest::digest`.
pub uninterp spec fn sha256(data: Seq<u8>) -> Seq<u8>;

/// The character that stands for the decimal digit `d`.
pub open spec fn digit_char(d: nat) -> char {
    if d == 0 {
        '0'
    } else if d == 1 {
        '1'
    } else if d == 2 {
        '2'
    } else if d == 3 {
        '3'
    } else if d == 4 {
        '4'
    } else if d == 5 {
        '5'
    } else if d == 6 {
        '6'
    } else if d == 7 {
        '7'
    } else if d == 8 {
        '8'
    } else {
        '9'
    }
}

/// The character that stands for the four-bit value `v` in lowercase
/// hexadecimal.
pub open spec fn hex_char(v: nat) -> char {
    if v < 10 {
        digit_char(v)
    } else if v == 10 {
        'a'
    } else if v == 11 {
        'b'
    } else if v == 12 {
        'c'
    } else if v == 13 {
        'd'
    } else if v == 14 {
        'e'
    } else {
        'f'
    }
}

/// Lowercase hexadecimal text of `bytes`: two characters for each byte, the
/// high four bits first.
pub open spec fn hex_lower(bytes: Seq<u8>) -> Seq<char> {
    Seq::new(
        2 * bytes.len(),
        |i: int|
            if i % 2 == 0 {
                hex_char((bytes[i / 2] / 16) as nat)
            } else {
                hex_char((bytes[i / 2] % 16) as nat)
            },
    )
}

/// Decimal text of `n`, without sign or leading zeros.
pub open spec fn decimal(n: nat) -> Seq<char>
    decreases n,
{
    if n < 10 {
        seq![digit_char(n)]
    } else {
        decimal(n / 10).push(digit_char(n % 10))
    }
}

/// Whether the text `s` is short enough for the digest routine.
pub open spec fn digestible(s: Seq<char>) -> bool {
    encode_utf8(s).len() < DIGEST_INPUT_LIMIT
}

/// The hash of the text `s`: the lowercase hexadecimal text of the SHA-256
/// digest of its UTF-8 bytes.
pub open spec fn hash_text(s: Seq<char>) -> Seq<char> {
    hex_lower(sha256(encode_utf8(s)))
}

/// Whether `hash` begins with `difficulty` characters `'0'`. A text shorter
/// than `difficulty` does not.
pub open spec fn has_zero_prefix(hash: Seq<char>, difficulty: nat) -> bool {
    &&& difficulty <= hash.len()
    &&& forall|i: int| 0 <= i < difficulty ==> hash[i] == '0'
}

/// The UTF-8 bytes of two texts joined are the bytes of the first followed
/// by the bytes of the second.
pub proof fn lemma_encode_utf8_concat(a: Seq<char>, b: Seq<char>)
    ensures
        encode_utf8(a + b) == encode_utf8(a) + encode_utf8(b),
    decreases a.len(),
{
    if a.len() == 0 {
        assert(a + b =~= b);
        assert(encode_utf8(a) + encode_utf8(b) =~= encode_utf8(b));
    } else {
        assert((a + b).drop_first() =~= a.drop_first() + b);
        lemma_encode_utf8_concat(a.drop_first(), b);
        assert(encode_utf8(a + b) =~= encode_utf8(a) + encode_utf8(b));
    }
}

/// Ten to the power `k`.
pub open spec fn pow10(k: nat) -> nat
    decreases k,
{
    if k == 0 {
        1
    } else {
        10 * pow10((k - 1) as nat)
    }
}

/// A number below ten to the power `k` has at most `k` decimal digits.
pub proof fn lemma_decimal_len(n: nat, k: nat)
    requires
        k >= 1,
        n < pow10(k),
    ensures
        decimal(n).len() <= k,
    decreases k,
{
    reveal_with_fuel(pow10, 2);
    if n >= 10 {
        lemma_decimal_len(n / 10, (k - 1) as nat);
    }
}

/// Decimal text is ASCII text.
pub proof fn lemma_decimal_ascii(n: nat)
    ensures
        is_ascii_chars(decimal(n)),
    decreases n,
{
    if n >= 10 {
        lemma_decimal_ascii(n / 10);
    }
}

/// The decimal text of a number that the machine can hold takes at most 20
/// bytes.
pub proof fn lemma_decimal_bytes(n: nat)
    requires
        n <= usize::MAX,
    ensures
        encode_utf8(decimal(n)).len() <= 20,
{
    reveal_with_fuel(pow10, 21);
    assert(pow10(20) == 100_000_000_000_000_000_000);
    lemma_decimal_len(n, 20);
    lemma_decimal_ascii(n);
    is_ascii_chars_encode_utf8(decimal(n));
}

/// Hexadecimal text is ASCII text, so it takes two bytes for each byte that
/// it stands for.
pub proof fn lemma_hex_lower_bytes(bytes: Seq<u8>)
    ensures
        is_ascii_chars(hex_lower(bytes)),
        encode_utf8(hex_lower(bytes)).len() == 2 * bytes.len(),
{
    assert(is_ascii_chars(hex_lower(bytes)));
    is_ascii_chars_encode_utf8(hex_lower(bytes));
}

/// Calls `ring::digest::digest` with the `SHA256` algorithm and copies the
/// digest out. Trusted: the result is the SHA-256 digest of `data`, which is
/// 32 bytes long. The routine panics on an input whose bit length does not
/// fit in 64 bits, so such an input is not admitted.
#[verifier::external_body]
pub(crate) fn sha256_bytes(data: &[u8]) -> (digest: Vec<u8>)
    requires
        data@.len() < DIGEST_INPUT_LIMIT,
    ensures
        digest@ == sha256(data@),
        digest@.len() == DIGEST_BYTES,
{
    ring::digest::digest(&ring::digest::SHA256, data).as_ref().to_vec()
}

/// Calls `data_encoding::HEXLOWER.encode`. Trusted: the result is the
/// base-16 text of `bytes` over the symbols `0123456789abcdef`, the high
/// four bits of each byte first.
#[verifier::external_body]
pub(crate) fn hex_lower_string(bytes: &[u8]) -> (text: String)
    requires
        bytes@.len() <= DIGEST_BYTES,
    ensures
        text@ == hex_lower(bytes@),
{
    data_encoding::HEXLOWER.encode(bytes)
}

/// One-character text of a decimal digit.
fn digit_str(d: usize) -> (text: &'static str)
    requires
        d < 10,
    ensures
        text@ =~= seq![digit_char(d as nat)],
{
    proof {
        reveal_strlit("0");
        reveal_strlit("1");
        reveal_strlit("2");
        reveal_strlit("3");
        reveal_strlit("4");
        reveal_strlit("5");
        reveal_strlit("6");
        reveal_strlit("7");
        reveal_strlit("8");
        reveal_strlit("9");
    }
    if d == 0 {
        "0"
    } else if d == 1 {
        "1"
    } else if d == 2 {
        "2"
    } else if d == 3 {
        "3"
    } else if d == 4 {
        "4"
    } else if d == 5 {
        "5"
    } else if d == 6 {
        "6"
    } else if d == 7 {
        "7"
    } else if d == 8 {
        "8"
    } else {
        "9"
    }
}

/// Decimal text of `n`, as `n.to_string()` gives it.
pub fn decimal_string(n: usize) -> (text: String)
    ensures
        text@ == decimal(n as nat),
    decreases n,
{
    if n < 10 {
        String::from_str(digit_str(n))
    } else {
        let mut text = decimal_string(n / 10);
        text.append(digit_str(n % 10));
        text
    }
}

/// Whether `text` is short enough to be digested.
pub fn is_digestible(text: &str) -> (ok: bool)
    ensures
        ok == digestible(text@),
{
    (text.as_bytes().len() as u64) < DIGEST_INPUT_LIMIT
}

} // verus!
