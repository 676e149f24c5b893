//! Base64 and hexadecimal text for bytes.

use base64::Engine;
use vstd::prelude::*;

use crate::taptap::optional_bytes;

verus! {

/// The byte at index `i`, or zero past the end.
pub open spec fn byte_or_zero(bytes: Seq<u8>, i: int) -> int {
    if i < bytes.len() {
        bytes[i] as int
    } else {
        0
    }
}

/// The `i`-th group of six bits of `bytes`, which is continued by zero bits.
pub open spec fn sextet(bytes: Seq<u8>, i: int) -> int {
    let k = 3 * (i / 4);
    let word = byte_or_zero(bytes, k) * 65536 + byte_or_zero(bytes, k + 1) * 256 + byte_or_zero(
        bytes,
        k + 2,
    );
    if i % 4 == 0 {
        word / 262144
    } else if i % 4 == 1 {
        (word / 4096) % 64
    } else if i % 4 == 2 {
        (word / 64) % 64
    } else {
        word % 64
    }
}

/// The letter for a group of six bits; the two alphabets of RFC 4648 differ in the last two.
pub open spec fn base64_letter(n: int, url_safe: bool) -> char {
    if n < 26 {
        (65 + n) as u8 as char
    } else if n < 52 {
        (71 + n) as u8 as char
    } else if n < 62 {
        (n - 4) as u8 as char
    } else if n == 62 {
        if url_safe { '-' } else { '+' }
    } else {
        if url_safe { '_' } else { '/' }
    }
}

/// Base64 text of `bytes` without padding: one letter for each group of six bits.
pub open spec fn base64_letters(bytes: Seq<u8>, url_safe: bool) -> Seq<char> {
    Seq::new(((4 * bytes.len() + 2) / 3) as nat, |i: int| base64_letter(sextet(bytes, i), url_safe))
}

/// Base64 text in the standard alphabet, filled up with `=` to a multiple of four letters.
pub open spec fn base64_padded(bytes: Seq<u8>) -> Seq<char> {
    base64_letters(bytes, false) + Seq::new(((3 - bytes.len() % 3) % 3) as nat, |i: int| '=')
}

/// Base64 text in the URL-safe alphabet, without padding.
pub open spec fn base64_url(bytes: Seq<u8>) -> Seq<char> {
    base64_letters(bytes, true)
}

/// The bytes that URL-safe Base64 text without padding stands for; `None` where it stands for none.
pub open spec fn base64_url_bytes(text: Seq<char>) -> Option<Seq<u8>> {
    if exists|bytes: Seq<u8>| #[trigger] base64_url(bytes) == text {
        Some(choose|bytes: Seq<u8>| #[trigger] base64_url(bytes) == text)
    } else {
        None
    }
}

/// The lower-case hexadecimal digit for `n`.
pub open spec fn hex_digit(n: int) -> char {
    if n < 10 {
        (48 + n) as u8 as char
    } else {
        (87 + n) as u8 as char
    }
}

/// Two lower-case hexadecimal digits for each byte, the high half first.
pub open spec fn hex_text(bytes: Seq<u8>) -> Seq<char> {
    Seq::new(
        2 * bytes.len(),
        |i: int|
            if i % 2 == 0 {
                hex_digit(bytes[i / 2] as int / 16)
            } else {
                hex_digit(bytes[i / 2] as int % 16)
            },
    )
}

/// Calls `base64::engine::general_purpose::STANDARD.encode`: RFC 4648 text with padding.
#[verifier::external_body]
pub(crate) fn encode_standard(bytes: &[u8]) -> (res: String)
    ensures
        res@ == base64_padded(bytes@),
{
    base64::engine::general_purpose::STANDARD.encode(bytes)
}

/// Calls `base64::engine::general_purpose::URL_SAFE_NO_PAD.encode`: RFC 4648 text in the URL-safe
/// alphabet, without padding.
#[verifier::external_body]
pub(crate) fn encode_url_safe(bytes: &[u8]) -> (res: String)
    ensures
        res@ == base64_url(bytes@),
{
    base64::engine::general_purpose::URL_SAFE_NO_PAD.encode(bytes)
}

/// Calls `base64::engine::general_purpose::URL_SAFE_NO_PAD.decode`, which takes the text that the
/// bytes are written as and no other.
#[verifier::external_body]
pub(crate) fn decode_url_safe(text: &str) -> (res: Option<Vec<u8>>)
    ensures
        res matches Some(bytes) ==> text@ == base64_url(bytes@),
        res is None ==> forall|bytes: Seq<u8>| text@ != #[trigger] base64_url(bytes),
{
    base64::engine::general_purpose::URL_SAFE_NO_PAD.decode(text).ok()
}

/// Reads URL-safe Base64 text without padding.
pub fn read_url_safe(text: &str) -> (res: Option<Vec<u8>>)
    ensures
        optional_bytes(res) == base64_url_bytes(text@),
{
    let res = decode_url_safe(text);
    proof {
        if res is Some {
            law_base64_url_is_read_back(res->0@);
        }
    }
    res
}

/// The lower-case hexadecimal digit for `n`.
fn hex_char(n: u8) -> (res: char)
    requires
        n < 16,
    ensures
        res == hex_digit(n as int),
{
    if n < 10 {
        (48 + n) as char
    } else {
        (87 + n) as char
    }
}

/// Writes bytes in lower-case hexadecimal.
pub fn hex_lower(bytes: &[u8]) -> (res: String)
    ensures
        res@ == hex_text(bytes@),
{
    let mut output = String::new();
    for i in 0..bytes.len()
        invariant
            output@ == hex_text(bytes@.take(i as int)),
    {
        let b: u8 = bytes[i];
        output.push(hex_char(b / 16));
        output.push(hex_char(b % 16));
        assert(output@ =~= hex_text(bytes@.take(i + 1)));
    }
    assert(bytes@.take(bytes@.len() as int) == bytes@);
    output
}

/// The digits of one byte tell which byte it is.
proof fn lemma_hex_digit_injective(a: int, b: int)
    requires
        0 <= a < 16,
        0 <= b < 16,
        hex_digit(a) == hex_digit(b),
    ensures
        a == b,
{
}

/// Hexadecimal text tells which bytes it stands for.
pub proof fn law_hex_text_is_injective(a: Seq<u8>, b: Seq<u8>)
    requires
        hex_text(a) == hex_text(b),
    ensures
        a == b,
{
    assert(hex_text(a).len() == 2 * a.len());
    assert(hex_text(b).len() == 2 * b.len());
    assert forall|i: int| 0 <= i < a.len() implies a[i] == b[i] by {
        assert(hex_text(a)[2 * i] == hex_digit(a[i] as int / 16));
        assert(hex_text(b)[2 * i] == hex_digit(b[i] as int / 16));
        assert(hex_text(a)[2 * i + 1] == hex_digit(a[i] as int % 16));
        assert(hex_text(b)[2 * i + 1] == hex_digit(b[i] as int % 16));
        lemma_hex_digit_injective(a[i] as int / 16, b[i] as int / 16);
        lemma_hex_digit_injective(a[i] as int % 16, b[i] as int % 16);
    }
    assert(a =~= b);
}

proof fn lemma_base64_letter_injective(a: int, b: int, url_safe: bool)
    requires
        0 <= a < 64,
        0 <= b < 64,
        base64_letter(a, url_safe) == base64_letter(b, url_safe),
    ensures
        a == b,
{
}

/// A group of six bits is a number below 64.
pub proof fn lemma_sextet_range(bytes: Seq<u8>, i: int)
    requires
        0 <= i,
    ensures
        0 <= sextet(bytes, i) < 64,
{
}

/// The four groups of six bits in a word of three bytes.
proof fn lemma_word_sextets(x: u8, y: u8, z: u8)
    ensures
        (x * 65536 + y * 256 + z) / 262144 == x / 4,
        ((x * 65536 + y * 256 + z) / 4096) % 64 == (x % 4) * 16 + y / 16,
        ((x * 65536 + y * 256 + z) / 64) % 64 == (y % 16) * 4 + z / 64,
        (x * 65536 + y * 256 + z) % 64 == z % 64,
{
    let w: u32 = (x * 65536 + y * 256 + z) as u32;
    let p: u32 = x as u32;
    let q: u32 = y as u32;
    let r: u32 = z as u32;
    assert(w / 262144 == p / 4 && (w / 4096) % 64 == (p % 4) * 16 + q / 16 && (w / 64) % 64 == (q
        % 16) * 4 + r / 64 && w % 64 == r % 64) by (bit_vector)
        requires
            w == p * 65536 + q * 256 + r,
            p < 256,
            q < 256,
            r < 256,
    ;
}

/// The bytes of one group of three, read off its groups of six bits.
proof fn lemma_byte_from_sextets(bytes: Seq<u8>, g: int)
    requires
        0 <= g,
    ensures
        byte_or_zero(bytes, 3 * g) == sextet(bytes, 4 * g) * 4 + sextet(bytes, 4 * g + 1) / 16,
        byte_or_zero(bytes, 3 * g + 1) == (sextet(bytes, 4 * g + 1) % 16) * 16 + sextet(
            bytes,
            4 * g + 2,
        ) / 4,
        byte_or_zero(bytes, 3 * g + 2) == (sextet(bytes, 4 * g + 2) % 4) * 64 + sextet(
            bytes,
            4 * g + 3,
        ),
{
    let x = byte_or_zero(bytes, 3 * g) as u8;
    let y = byte_or_zero(bytes, 3 * g + 1) as u8;
    let z = byte_or_zero(bytes, 3 * g + 2) as u8;
    lemma_word_sextets(x, y, z);
    assert(sextet(bytes, 4 * g) == x / 4);
    assert(sextet(bytes, 4 * g + 1) == (x % 4) * 16 + y / 16);
    assert(sextet(bytes, 4 * g + 2) == (y % 16) * 4 + z / 64);
    assert(sextet(bytes, 4 * g + 3) == z % 64);
}

/// URL-safe Base64 text tells which bytes it stands for, so that two flows drawn from different
/// random bytes have different names.
pub proof fn law_base64_url_is_injective(a: Seq<u8>, b: Seq<u8>)
    requires
        base64_url(a) == base64_url(b),
    ensures
        a == b,
{
    let n = base64_url(a).len();
    assert(n == (4 * a.len() + 2) / 3);
    assert(n == (4 * b.len() + 2) / 3);
    assert(a.len() == b.len());
    assert forall|i: int| 0 <= i < n implies #[trigger] sextet(a, i) == sextet(b, i) by {
        assert(base64_url(a)[i] == base64_letter(sextet(a, i), true));
        assert(base64_url(b)[i] == base64_letter(sextet(b, i), true));
        lemma_sextet_range(a, i);
        lemma_sextet_range(b, i);
        lemma_base64_letter_injective(sextet(a, i), sextet(b, i), true);
    }
    assert forall|j: int| 0 <= j < a.len() implies a[j] == b[j] by {
        let g = j / 3;
        lemma_byte_from_sextets(a, g);
        lemma_byte_from_sextets(b, g);
        assert(4 * g + 1 < n);
        assert(sextet(a, 4 * g) == sextet(b, 4 * g));
        assert(sextet(a, 4 * g + 1) == sextet(b, 4 * g + 1));
        if j % 3 == 1 {
            assert(4 * g + 2 < n);
            assert(sextet(a, 4 * g + 2) == sextet(b, 4 * g + 2));
        }
        if j % 3 == 2 {
            assert(4 * g + 3 < n);
            assert(sextet(a, 4 * g + 2) == sextet(b, 4 * g + 2));
            assert(sextet(a, 4 * g + 3) == sextet(b, 4 * g + 3));
        }
    }
    assert(a =~= b);
}

/// URL-safe Base64 text gives back the bytes that it was made of.
pub proof fn law_base64_url_is_read_back(bytes: Seq<u8>)
    ensures
        base64_url_bytes(base64_url(bytes)) == Some(bytes),
{
    let text = base64_url(bytes);
    let read = choose|other: Seq<u8>| #[trigger] base64_url(other) == text;
    law_base64_url_is_injective(read, bytes);
}

/// Hexadecimal text spells the bytes: two digits for each, `0` to `9` and `a` to `f`, the more
/// significant one first.
pub proof fn law_hex_text_spells_the_bytes(bytes: Seq<u8>, i: int)
    requires
        0 <= i < bytes.len(),
    ensures
        hex_text(bytes).len() == 2 * bytes.len(),
        ({
            let high = hex_text(bytes)[2 * i] as int;
            let low = hex_text(bytes)[2 * i + 1] as int;
            let h = if high <= 0x39 {
                high - 0x30
            } else {
                high - 0x61 + 10
            };
            let l = if low <= 0x39 {
                low - 0x30
            } else {
                low - 0x61 + 10
            };
            &&& 0x30 <= high <= 0x39 || 0x61 <= high <= 0x66
            &&& 0x30 <= low <= 0x39 || 0x61 <= low <= 0x66
            &&& bytes[i] as int == 16 * h + l
        }),
{
}

/// Base64 text is made group by group: three bytes give four letters whatever stands around them, and
/// the letters spell the bits of the bytes, six at a time and the most significant ones first.
pub proof fn law_base64_spells_the_bytes(bytes: Seq<u8>, g: int)
    requires
        0 <= g,
        3 * g + 2 < bytes.len(),
    ensures
        ({
            let word = bytes[3 * g] * 65536 + bytes[3 * g + 1] * 256 + bytes[3 * g + 2];
            let text = base64_url(bytes);
            &&& 4 * g + 3 < text.len()
            &&& word == letter_value(text[4 * g]) * 262144 + letter_value(text[4 * g + 1]) * 4096
                + letter_value(text[4 * g + 2]) * 64 + letter_value(text[4 * g + 3])
        }),
        ({
            let word = bytes[3 * g] * 65536 + bytes[3 * g + 1] * 256 + bytes[3 * g + 2];
            let text = base64_padded(bytes);
            &&& 4 * g + 3 < text.len()
            &&& word == standard_value(text[4 * g]) * 262144 + standard_value(text[4 * g + 1]) * 4096
                + standard_value(text[4 * g + 2]) * 64 + standard_value(text[4 * g + 3])
        }),
{
    lemma_byte_from_sextets(bytes, g);
    let s0 = sextet(bytes, 4 * g);
    let s1 = sextet(bytes, 4 * g + 1);
    let s2 = sextet(bytes, 4 * g + 2);
    let s3 = sextet(bytes, 4 * g + 3);
    lemma_sextet_range(bytes, 4 * g);
    lemma_sextet_range(bytes, 4 * g + 1);
    lemma_sextet_range(bytes, 4 * g + 2);
    lemma_sextet_range(bytes, 4 * g + 3);
    let url = base64_url(bytes);
    let padded = base64_padded(bytes);
    assert(url[4 * g] == base64_letter(s0, true) && url[4 * g + 1] == base64_letter(s1, true)
        && url[4 * g + 2] == base64_letter(s2, true) && url[4 * g + 3] == base64_letter(s3, true));
    assert(padded[4 * g] == base64_letter(s0, false) && padded[4 * g + 1] == base64_letter(s1, false)
        && padded[4 * g + 2] == base64_letter(s2, false) && padded[4 * g + 3] == base64_letter(
        s3,
        false,
    ));
    assert(letter_value(url[4 * g]) == s0 && letter_value(url[4 * g + 1]) == s1 && letter_value(
        url[4 * g + 2],
    ) == s2 && letter_value(url[4 * g + 3]) == s3);
    assert(standard_value(padded[4 * g]) == s0 && standard_value(padded[4 * g + 1]) == s1
        && standard_value(padded[4 * g + 2]) == s2 && standard_value(padded[4 * g + 3]) == s3);
}

/// The six bits that a letter or digit of Base64 text stands for.
pub open spec fn common_value(c: int) -> int {
    if 0x41 <= c <= 0x5a {
        c - 0x41
    } else if 0x61 <= c <= 0x7a {
        c - 0x61 + 26
    } else {
        c - 0x30 + 52
    }
}

/// The six bits that a character of URL-safe Base64 text stands for.
pub open spec fn letter_value(c: char) -> int {
    if c as int == 0x2d {
        62
    } else if c as int == 0x5f {
        63
    } else {
        common_value(c as int)
    }
}

/// The six bits that a character of standard Base64 text stands for.
pub open spec fn standard_value(c: char) -> int {
    if c as int == 0x2b {
        62
    } else if c as int == 0x2f {
        63
    } else {
        common_value(c as int)
    }
}

/// How long Base64 text is: four letters for three bytes, and for what is left over one letter more
/// than bytes, filled up to four with `=` in the standard form.
pub proof fn law_base64_lengths(bytes: Seq<u8>)
    ensures
        ({
            let groups = bytes.len() as int / 3;
            let left = bytes.len() as int % 3;
            &&& base64_url(bytes).len() == 4 * groups + if left == 0 {
                0
            } else {
                left + 1
            }
            &&& base64_padded(bytes).len() == 4 * groups + if left == 0 {
                0int
            } else {
                4
            }
            &&& left > 0 ==> base64_padded(bytes).last() as int == 0x3d
            &&& left == 1 ==> base64_padded(bytes)[4 * groups + 2] as int == 0x3d
        }),
{
}

/// Nothing but the text of bytes is read as URL-safe Base64: what is read makes that text again.
pub proof fn law_nothing_else_is_base64_url(text: Seq<char>)
    ensures
        base64_url_bytes(text) matches Some(bytes) ==> base64_url(bytes) == text,
        (forall|bytes: Seq<u8>| #[trigger] base64_url(bytes) != text) ==> base64_url_bytes(text) is None,
{
}

} // verus!
