//! Fingerprints: the 64-bit keys of the filter, read from the leading
//! sixteen hexadecimal digits of a hash string.

use vstd::prelude::*;
use vstd::utf8::{encode_utf8, has_width_1_encoding, is_ascii_chars, is_ascii_chars_encode_utf8};

verus! {

/// Number of leading hexadecimal digits that make up a fingerprint.
pub const FINGERPRINT_DIGITS: usize = 16;

/// Why a hash string yields no fingerprint.
#[derive(Clone, Copy, Debug, PartialEq, Eq, Structural)]
pub enum InputFormatError {
    /// The string holds fewer than sixteen bytes.
    TooShort,
    /// One of the leading sixteen bytes is no hexadecimal digit.
    NotHexadecimal,
}

impl InputFormatError {
    /// What the error says, for the log.
    pub open spec fn spec_message(self) -> Seq<char> {
        match self {
            InputFormatError::TooShort => "Given hash string too short (< 16 chars)"@,
            InputFormatError::NotHexadecimal => "invalid digit found in string"@,
        }
    }

    /// What the error says, for the log.
    pub fn message(&self) -> (r: String)
        ensures
            r@ == self.spec_message(),
    {
        match self {
            InputFormatError::TooShort => "Given hash string too short (< 16 chars)".to_owned(),
            InputFormatError::NotHexadecimal => "invalid digit found in string".to_owned(),
        }
    }
}

/// Whether `b` is an ASCII hexadecimal digit, in either case.
pub open spec fn is_hex_digit(b: u8) -> bool {
    (0x30 <= b <= 0x39) || (0x41 <= b <= 0x46) || (0x61 <= b <= 0x66)
}

/// The number that the hexadecimal digit `b` stands for.
pub open spec fn hex_digit_value(b: u8) -> nat
    recommends
        is_hex_digit(b),
{
    if 0x30 <= b <= 0x39 {
        (b - 0x30) as nat
    } else if 0x41 <= b <= 0x46 {
        (b - 0x41 + 10) as nat
    } else {
        (b - 0x61 + 10) as nat
    }
}

/// Whether every byte of `digits` is a hexadecimal digit.
pub open spec fn all_hex(digits: Seq<u8>) -> bool {
    forall|i: int| 0 <= i < digits.len() ==> is_hex_digit(#[trigger] digits[i])
}

/// The number written by `digits`, most significant digit first.
pub open spec fn hex_value(digits: Seq<u8>) -> nat
    decreases digits.len(),
{
    if digits.len() == 0 {
        0
    } else {
        16 * hex_value(digits.drop_last()) + hex_digit_value(digits.last())
    }
}

/// Sixteen to the power `n`.
pub open spec fn pow16(n: nat) -> nat
    decreases n,
{
    if n == 0 {
        1
    } else {
        16 * pow16((n - 1) as nat)
    }
}

/// The fingerprint of a hash text given as bytes: the value of its leading
/// sixteen hexadecimal digits. What follows them is ignored.
pub open spec fn parse_fingerprint(text: Seq<u8>) -> Result<u64, InputFormatError> {
    if text.len() < 16 {
        Err(InputFormatError::TooShort)
    } else if !all_hex(text.subrange(0, 16)) {
        Err(InputFormatError::NotHexadecimal)
    } else {
        Ok(hex_value(text.subrange(0, 16)) as u64)
    }
}

/// The fingerprint of a hash string, read from its UTF-8 bytes.
pub open spec fn fingerprint_of(hash: Seq<char>) -> Result<u64, InputFormatError> {
    parse_fingerprint(encode_utf8(hash))
}

/// Sixteen digits fit a `u64` exactly.
pub proof fn lemma_pow16_sixteen()
    ensures
        pow16(16) == 0x1_0000_0000_0000_0000,
{
    reveal_with_fuel(pow16, 17);
}

/// The value of one hexadecimal digit, or `None` for any other byte.
pub fn hex_digit(b: u8) -> (r: Option<u8>)
    ensures
        r.is_some() == is_hex_digit(b),
        r.is_some() ==> r.unwrap() as nat == hex_digit_value(b),
{
    if 0x30 <= b && b <= 0x39 {
        Some(b - 0x30)
    } else if 0x41 <= b && b <= 0x46 {
        Some(b - 0x41 + 10)
    } else if 0x61 <= b && b <= 0x66 {
        Some(b - 0x61 + 10)
    } else {
        None
    }
}

/// Reads the fingerprint of a hash string: the value of its leading sixteen
/// hexadecimal digits. Anything after them is ignored; a string that is
/// shorter, or that has another character among the sixteen, is refused.
pub fn hash_string_to_filter_item(input: &String) -> (r: Result<u64, InputFormatError>)
    ensures
        r == fingerprint_of(input@),
{
    let bytes = input.as_str().as_bytes();
    if bytes.len() < FINGERPRINT_DIGITS {
        return Err(InputFormatError::TooShort);
    }
    let ghost head = bytes@.subrange(0, 16);
    let mut acc: u64 = 0;
    let mut i: usize = 0;
    while i < FINGERPRINT_DIGITS
        invariant
            i <= 16,
            bytes@.len() >= 16,
            bytes@ == encode_utf8(input@),
            head == bytes@.subrange(0, 16),
            all_hex(head.subrange(0, i as int)),
            acc as nat == hex_value(head.subrange(0, i as int)),
            acc < pow16(i as nat),
        decreases 16 - i,
    {
        let ghost before = head.subrange(0, i as int);
        let ghost after = head.subrange(0, i + 1);
        proof {
            assert(after.drop_last() =~= before);
            assert(after.last() == bytes@[i as int]);
        }
        match hex_digit(bytes[i]) {
            None => {
                proof {
                    assert(head[i as int] == bytes@[i as int]);
                    assert(!is_hex_digit(head[i as int]));
                }
                return Err(InputFormatError::NotHexadecimal);
            },
            Some(d) => {
                proof {
                    lemma_pow16_sixteen();
                    lemma_pow16_monotonic((i + 1) as nat, 16);
                    assert forall|j: int| 0 <= j < after.len() implies is_hex_digit(
                        #[trigger] after[j],
                    ) by {
                        if j < i {
                            assert(after[j] == before[j]);
                        }
                    }
                }
                acc = acc * 16 + d as u64;
                i = i + 1;
            },
        }
    }
    proof {
        assert(head.subrange(0, 16) =~= head);
    }
    Ok(acc)
}

/// `pow16` grows with its exponent.
pub proof fn lemma_pow16_monotonic(a: nat, b: nat)
    requires
        a <= b,
    ensures
        pow16(a) <= pow16(b),
    decreases b,
{
    if a < b {
        lemma_pow16_monotonic(a, (b - 1) as nat);
    }
}

/// The UTF-8 form of two texts joined is their two forms joined.
pub proof fn lemma_encode_concat(a: Seq<char>, b: Seq<char>)
    ensures
        encode_utf8(a + b) == encode_utf8(a) + encode_utf8(b),
    decreases a.len(),
{
    if a.len() == 0 {
        assert(a + b =~= b);
        assert(encode_utf8(a) + encode_utf8(b) =~= encode_utf8(b));
    } else {
        assert((a + b).drop_first() =~= a.drop_first() + b);
        assert((a + b)[0] == a[0]);
        lemma_encode_concat(a.drop_first(), b);
        assert(encode_utf8(a + b) =~= encode_utf8(a) + encode_utf8(b));
    }
}

/// Anything after the leading sixteen bytes is ignored: a hash that is long
/// enough has the same fingerprint, or none for the same reason, whatever
/// is appended to it.
pub proof fn lemma_suffix_ignored(hash: Seq<char>, suffix: Seq<char>)
    requires
        encode_utf8(hash).len() >= 16,
    ensures
        fingerprint_of(hash + suffix) == fingerprint_of(hash),
{
    lemma_encode_concat(hash, suffix);
    assert((encode_utf8(hash) + encode_utf8(suffix)).subrange(0, 16) =~= encode_utf8(
        hash,
    ).subrange(0, 16));
}

/// Where the first `n` bytes of a text are ASCII, they are its first `n`
/// characters.
pub proof fn lemma_ascii_head(text: Seq<char>, n: nat)
    requires
        encode_utf8(text).len() >= n,
        forall|i: int| 0 <= i < n ==> encode_utf8(text)[i] < 0x80,
    ensures
        text.len() >= n,
    decreases n,
{
    if n > 0 {
        let bytes = encode_utf8(text);
        assert(text.len() > 0);
        let c = text[0] as u32;
        let rest = text.drop_first();
        assert(bytes[0] < 0x80);
        if has_width_1_encoding(c) {
            assert forall|i: int| 0 <= i < n - 1 implies encode_utf8(rest)[i] < 0x80 by {
                assert(encode_utf8(rest)[i] == bytes[i + 1]);
            }
            lemma_ascii_head(rest, (n - 1) as nat);
        } else {
            assert((0xC0u8 | (((c >> 6) & 0x1F) as u8)) >= 0x80) by (bit_vector);
            assert((0xE0u8 | (((c >> 12) & 0x0F) as u8)) >= 0x80) by (bit_vector);
            assert((0xF0u8 | (((c >> 18) & 0x7) as u8)) >= 0x80) by (bit_vector);
            assert(false);
        }
    }
}

/// A hash of fewer than sixteen characters has no fingerprint.
pub proof fn lemma_short_refused(hash: Seq<char>)
    requires
        hash.len() < 16,
    ensures
        fingerprint_of(hash) is Err,
{
    let bytes = encode_utf8(hash);
    if bytes.len() >= 16 && all_hex(bytes.subrange(0, 16)) {
        assert forall|i: int| 0 <= i < 16 implies bytes[i] < 0x80 by {
            assert(is_hex_digit(bytes.subrange(0, 16)[i]));
        }
        lemma_ascii_head(hash, 16);
    }
}

/// One more digit at the end: sixteen times the value so far, plus the
/// digit.
pub proof fn lemma_hex_value_step(digits: Seq<u8>, k: int)
    requires
        0 <= k < digits.len(),
    ensures
        hex_value(digits.subrange(0, k + 1)) == 16 * hex_value(digits.subrange(0, k))
            + hex_digit_value(digits[k]),
{
    assert(digits.subrange(0, k + 1).drop_last() =~= digits.subrange(0, k));
}

/// Sixteen digits decide: whatever follows `ABCDEF0123456789`, the
/// fingerprint is the number that these digits write.
pub proof fn lemma_leading_digits_decide(suffix: Seq<char>)
    ensures
        fingerprint_of("ABCDEF0123456789"@ + suffix) == Ok::<u64, InputFormatError>(
            0xABCDEF0123456789,
        ),
{
    let head = "ABCDEF0123456789"@;
    reveal_strlit("ABCDEF0123456789");
    assert(head.len() == 16);
    assert(is_ascii_chars(head));
    is_ascii_chars_encode_utf8(head);
    let digits = encode_utf8(head);
    assert(digits.len() == 16);
    assert(digits[0] == 0x41 && digits[1] == 0x42 && digits[2] == 0x43 && digits[3] == 0x44) by {
        assert(head[0] as u8 == digits[0]);
        assert(head[1] as u8 == digits[1]);
        assert(head[2] as u8 == digits[2]);
        assert(head[3] as u8 == digits[3]);
    }
    assert(digits[4] == 0x45 && digits[5] == 0x46 && digits[6] == 0x30 && digits[7] == 0x31) by {
        assert(head[4] as u8 == digits[4]);
        assert(head[5] as u8 == digits[5]);
        assert(head[6] as u8 == digits[6]);
        assert(head[7] as u8 == digits[7]);
    }
    assert(digits[8] == 0x32 && digits[9] == 0x33 && digits[10] == 0x34 && digits[11] == 0x35)
        by {
        assert(head[8] as u8 == digits[8]);
        assert(head[9] as u8 == digits[9]);
        assert(head[10] as u8 == digits[10]);
        assert(head[11] as u8 == digits[11]);
    }
    assert(digits[12] == 0x36 && digits[13] == 0x37 && digits[14] == 0x38 && digits[15] == 0x39)
        by {
        assert(head[12] as u8 == digits[12]);
        assert(head[13] as u8 == digits[13]);
        assert(head[14] as u8 == digits[14]);
        assert(head[15] as u8 == digits[15]);
    }
    assert(hex_value(digits.subrange(0, 0)) == 0);
    lemma_hex_value_step(digits, 0);
    lemma_hex_value_step(digits, 1);
    lemma_hex_value_step(digits, 2);
    lemma_hex_value_step(digits, 3);
    assert(hex_value(digits.subrange(0, 4)) == 0xABCD);
    lemma_hex_value_step(digits, 4);
    lemma_hex_value_step(digits, 5);
    lemma_hex_value_step(digits, 6);
    lemma_hex_value_step(digits, 7);
    assert(hex_value(digits.subrange(0, 8)) == 0xABCDEF01);
    lemma_hex_value_step(digits, 8);
    lemma_hex_value_step(digits, 9);
    lemma_hex_value_step(digits, 10);
    lemma_hex_value_step(digits, 11);
    assert(hex_value(digits.subrange(0, 12)) == 0xABCDEF012345);
    lemma_hex_value_step(digits, 12);
    lemma_hex_value_step(digits, 13);
    lemma_hex_value_step(digits, 14);
    lemma_hex_value_step(digits, 15);
    assert(hex_value(digits.subrange(0, 16)) == 0xABCDEF0123456789);
    assert(all_hex(digits.subrange(0, 16)));
    lemma_suffix_ignored(head, suffix);
}

} // verus!
