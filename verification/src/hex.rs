//! Keys as hexadecimal text.

use vstd::prelude::*;
use vstd::string::*;
use vstd::utf8::*;
use crate::text;

verus! {

/// The lower-case digit of a number below 16.
pub open spec fn hex_digit(d: int) -> char {
    if d < 10 {
        (48 + d) as char
    } else {
        (87 + d) as char
    }
}

/// Two lower-case digits for each byte.
pub open spec fn hexed(bytes: Seq<u8>) -> Seq<char> {
    Seq::new(
        2 * bytes.len(),
        |i: int|
            hex_digit(
                if i % 2 == 0 {
                    bytes[i / 2] as int / 16
                } else {
                    bytes[i / 2] as int % 16
                },
            ),
    )
}

/// The number that a digit, of either case, stands for.
pub open spec fn digit_value(c: u8) -> Option<u8> {
    if 48 <= c <= 57 {
        Some((c - 48) as u8)
    } else if 97 <= c <= 102 {
        Some((c - 87) as u8)
    } else if 65 <= c <= 70 {
        Some((c - 55) as u8)
    } else {
        None
    }
}

/// The byte that two digits stand for.
pub open spec fn pair_value(a: u8, b: u8) -> Option<u8> {
    match (digit_value(a), digit_value(b)) {
        (Some(x), Some(y)) => Some((16 * x + y) as u8),
        _ => None,
    }
}

/// The `k`-th pair of a text, as a byte.
pub open spec fn pair_at(text: Seq<u8>, k: int) -> Option<u8> {
    pair_value(text[2 * k], text[2 * k + 1])
}

/// The bytes that a text stands for, if it is nothing but pairs of digits.
pub open spec fn unhexed(text: Seq<u8>) -> Option<Seq<u8>> {
    if text.len() % 2 == 0 && forall|k: int|
        0 <= k < text.len() / 2 ==> #[trigger] pair_at(text, k) is Some {
        Some(Seq::new(text.len() / 2, |k: int| pair_at(text, k)->0))
    } else {
        None
    }
}

/// The text of some bytes, in lower-case digits.
pub fn to_hex(bytes: &[u8]) -> (s: String)
    ensures
        s@ == hexed(bytes@),
{
    let mut s = String::new();
    let mut i: usize = 0;
    while i < bytes.len()
        invariant
            i <= bytes@.len(),
            s@ =~= hexed(bytes@).take(2 * i as int),
        decreases bytes@.len() - i,
    {
        let b: u8 = bytes[i];
        s.push(digit_char(b / 16));
        s.push(digit_char(b % 16));
        proof {
            let h = hexed(bytes@);
            assert(h[2 * i as int] == hex_digit(b as int / 16));
            assert(h[2 * i as int + 1] == hex_digit(b as int % 16));
        }
        i = i + 1;
    }
    s
}

fn digit_char(d: u8) -> (c: char)
    requires
        d < 16,
    ensures
        c == hex_digit(d as int),
{
    if d < 10 {
        (48 + d) as char
    } else {
        (87 + d) as char
    }
}

fn digit_of(c: u8) -> (r: Option<u8>)
    ensures
        r == digit_value(c),
{
    if 48 <= c && c <= 57 {
        Some(c - 48)
    } else if 97 <= c && c <= 102 {
        Some(c - 87)
    } else if 65 <= c && c <= 70 {
        Some(c - 55)
    } else {
        None
    }
}

fn pair_of(a: u8, b: u8) -> (r: Option<u8>)
    ensures
        r == pair_value(a, b),
{
    match (digit_of(a), digit_of(b)) {
        (Some(x), Some(y)) => Some(16 * x + y),
        _ => None,
    }
}

/// The bytes that a text stands for, if it is nothing but pairs of digits.
pub fn from_hex(s: &str) -> (r: Option<Vec<u8>>)
    ensures
        match r {
            Some(v) => unhexed(encode_utf8(s@)) == Some(v@),
            None => unhexed(encode_utf8(s@)) is None,
        },
{
    let b = s.as_bytes();
    let ghost t = encode_utf8(s@);
    if b.len() % 2 != 0 {
        return None;
    }
    let n: usize = b.len() / 2;
    let mut out: Vec<u8> = Vec::with_capacity(n);
    let mut k: usize = 0;
    while k < n
        invariant
            t == encode_utf8(s@),
            b@ == t,
            n == t.len() / 2,
            t.len() % 2 == 0,
            t.len() <= usize::MAX,
            k <= n,
            forall|j: int| 0 <= j < k ==> #[trigger] pair_at(t, j) is Some,
            out@ =~= Seq::new(k as nat, |j: int| pair_at(t, j)->0),
        decreases n - k,
    {
        match pair_of(b[2 * k], b[2 * k + 1]) {
            Some(byte) => {
                assert(pair_at(t, k as int) == Some(byte));
                out.push(byte);
            },
            None => {
                assert(pair_at(t, k as int) is None);
                return None;
            },
        }
        k = k + 1;
    }
    assert(out@ =~= Seq::new(t.len() / 2, |j: int| pair_at(t, j)->0));
    Some(out)
}

/// The text of some bytes is plain ASCII, byte for character.
pub proof fn lemma_hexed_is_ascii(bytes: Seq<u8>)
    ensures
        is_ascii_chars(hexed(bytes)),
        encode_utf8(hexed(bytes)) == Seq::new(2 * bytes.len(), |i: int| hexed(bytes)[i] as u8),
{
    assert forall|i: int| 0 <= i < hexed(bytes).len() implies '\0' <= #[trigger] hexed(bytes)[i]
        <= '\u{7f}' by {
        let d = if i % 2 == 0 {
            bytes[i / 2] as int / 16
        } else {
            bytes[i / 2] as int % 16
        };
        assert(0 <= d < 16);
    }
    is_ascii_chars_encode_utf8(hexed(bytes));
    assert(encode_utf8(hexed(bytes)) =~= Seq::new(
        2 * bytes.len(),
        |i: int| hexed(bytes)[i] as u8,
    ));
}

/// Reading a text of some bytes gives those bytes back.
pub proof fn law_from_hex_inverts_to_hex(bytes: Seq<u8>)
    ensures
        unhexed(encode_utf8(hexed(bytes))) == Some(bytes),
{
    lemma_hexed_is_ascii(bytes);
    let t = encode_utf8(hexed(bytes));
    assert forall|k: int| 0 <= k < bytes.len() implies #[trigger] pair_at(t, k) == Some(
        bytes[k],
    ) by {
        let b = bytes[k];
        assert((2 * k) / 2 == k && (2 * k) % 2 == 0);
        assert((2 * k + 1) / 2 == k && (2 * k + 1) % 2 == 1);
        assert(hexed(bytes)[2 * k] == hex_digit(b as int / 16));
        assert(hexed(bytes)[2 * k + 1] == hex_digit(b as int % 16));
        assert(digit_value(t[2 * k]) == Some((b / 16) as u8));
        assert(digit_value(t[2 * k + 1]) == Some((b % 16) as u8));
    }
    assert(Seq::new(t.len() / 2, |k: int| pair_at(t, k)->0) =~= bytes);
}

/// Different bytes have different texts.
pub proof fn law_to_hex_is_injective(a: Seq<u8>, b: Seq<u8>)
    requires
        hexed(a) == hexed(b),
    ensures
        a == b,
{
    law_from_hex_inverts_to_hex(a);
    law_from_hex_inverts_to_hex(b);
}

/// The case of the letters in a plain ASCII text does not matter.
pub proof fn law_case_does_not_matter(s: Seq<char>)
    requires
        is_ascii_chars(s),
    ensures
        is_ascii_chars(text::lowered(s)),
        unhexed(encode_utf8(text::lowered(s))) == unhexed(encode_utf8(s)),
{
    let low = text::lowered(s);
    assert forall|i: int| 0 <= i < low.len() implies '\0' <= #[trigger] low[i] <= '\u{7f}' by {
        assert(low[i] == text::lower(s[i]));
    }
    is_ascii_chars_encode_utf8(s);
    is_ascii_chars_encode_utf8(low);
    let t = encode_utf8(s);
    let u = encode_utf8(low);
    assert forall|k: int| 0 <= k < t.len() / 2 implies #[trigger] pair_at(t, k) == pair_at(u, k) by {
        lemma_lower_digit(s[2 * k]);
        lemma_lower_digit(s[2 * k + 1]);
        assert(low[2 * k] == text::lower(s[2 * k]));
        assert(low[2 * k + 1] == text::lower(s[2 * k + 1]));
    }
    if unhexed(t) is Some {
        assert(Seq::new(t.len() / 2, |k: int| pair_at(t, k)->0) =~= Seq::new(
            u.len() / 2,
            |k: int| pair_at(u, k)->0,
        ));
        assert forall|k: int| 0 <= k < u.len() / 2 implies #[trigger] pair_at(u, k) is Some by {
            assert(pair_at(t, k) is Some);
        }
    } else if t.len() % 2 == 0 {
        let k = choose|k: int| 0 <= k < t.len() / 2 && !(#[trigger] pair_at(t, k) is Some);
        assert(!(pair_at(u, k) is Some));
    }
}

/// Whether a character is a hexadecimal digit, of either case.
pub open spec fn is_digit(c: char) -> bool {
    '0' <= c <= '9' || 'a' <= c <= 'f' || 'A' <= c <= 'F'
}

/// What is read as bytes is nothing but digits, two to a byte, and is the text of those bytes up
/// to the case of its letters.
pub proof fn law_only_digits_are_read(s: Seq<char>)
    ensures
        unhexed(encode_utf8(s)) is Some <==> s.len() % 2 == 0 && forall|i: int|
            0 <= i < s.len() ==> is_digit(#[trigger] s[i]),
        unhexed(encode_utf8(s)) matches Some(bytes) ==> s.len() == 2 * bytes.len()
            && text::lowered(s) == hexed(bytes),
{
    let t = encode_utf8(s);
    if unhexed(t) is Some {
        assert forall|i: int| 0 <= i < t.len() implies #[trigger] t[i] < 128 by {
            assert(pair_at(t, i / 2) is Some);
            assert(i == 2 * (i / 2) || i == 2 * (i / 2) + 1);
        }
        lemma_ascii_bytes(s);
        is_ascii_chars_encode_utf8(s);
        assert forall|i: int| 0 <= i < s.len() implies is_digit(#[trigger] s[i]) by {
            assert(pair_at(t, i / 2) is Some);
            assert(i == 2 * (i / 2) || i == 2 * (i / 2) + 1);
            assert(s[i] as u8 == t[i]);
        }
        let bytes = unhexed(t)->0;
        assert forall|i: int| 0 <= i < s.len() implies #[trigger] text::lowered(s)[i] == hexed(
            bytes,
        )[i] by {
            let k = i / 2;
            assert(pair_at(t, k) is Some);
            assert(bytes[k] == pair_at(t, k)->0);
            assert(i == 2 * k || i == 2 * k + 1);
            assert(s[i] as u8 == t[i]);
            assert(is_digit(s[i]));
            lemma_digit_back(s[i]);
            assert(0 <= digit_value(t[2 * k])->0 < 16 && 0 <= digit_value(t[2 * k + 1])->0 < 16);
        }
        assert(text::lowered(s) =~= hexed(bytes));
    } else if s.len() % 2 == 0 && forall|i: int| 0 <= i < s.len() ==> is_digit(#[trigger] s[i]) {
        assert(is_ascii_chars(s)) by {
            assert forall|i: int| 0 <= i < s.len() implies '\0' <= #[trigger] s[i] <= '\u{7f}' by {
                assert(is_digit(s[i]));
            }
        }
        is_ascii_chars_encode_utf8(s);
        assert forall|k: int| 0 <= k < t.len() / 2 implies #[trigger] pair_at(t, k) is Some by {
            assert(is_digit(s[2 * k]) && is_digit(s[2 * k + 1]));
        }
    }
}

/// The digit of a digit's number is that digit in lower case.
proof fn lemma_digit_back(c: char)
    requires
        is_digit(c),
    ensures
        digit_value(c as u8) is Some,
        hex_digit(digit_value(c as u8)->0 as int) == text::lower(c),
{
}

/// A text whose bytes are all ASCII is ASCII.
proof fn lemma_ascii_bytes(s: Seq<char>)
    requires
        forall|i: int| 0 <= i < encode_utf8(s).len() ==> #[trigger] encode_utf8(s)[i] < 128,
    ensures
        is_ascii_chars(s),
    decreases s.len(),
{
    if s.len() > 0 {
        let t = encode_utf8(s);
        let rest = s.drop_first();
        encode_utf8_first_scalar(s);
        let b = t[0];
        assert(b & 0x7f <= 0x7f) by (bit_vector);
        let c = s[0];
        assert(c as u32 == (b & 0x7f) as u32);
        char_u32_cast(c, c as u32);
        assert(c <= '\u{7f}');
        assert(encode_scalar(s[0] as u32).len() == 1);
        assert forall|i: int| 0 <= i < encode_utf8(rest).len() implies #[trigger] encode_utf8(
            rest,
        )[i] < 128 by {
            assert(encode_utf8(rest)[i] == t[i + 1]);
        }
        lemma_ascii_bytes(rest);
        assert forall|i: int| 0 <= i < s.len() implies '\0' <= #[trigger] s[i] <= '\u{7f}' by {
            if i > 0 {
                assert(s[i] == rest[i - 1]);
            }
        }
    }
}

/// A letter and its lower case are the same digit, or none.
proof fn lemma_lower_digit(c: char)
    requires
        c <= '\u{7f}',
    ensures
        digit_value(text::lower(c) as u8) == digit_value(c as u8),
{
}

/// Each byte becomes two characters, that of its higher half first, out of the sixteen digits.
pub proof fn law_text_of_a_byte(b: u8)
    ensures
        hexed(seq![b]) == seq!["0123456789abcdef"@[b as int / 16], "0123456789abcdef"@[b as int
            % 16]],
{
    reveal_strlit("0123456789abcdef");
    let d = "0123456789abcdef"@;
    assert forall|v: int| 0 <= v < 16 implies #[trigger] hex_digit(v) == d[v] by {}
    let h = hexed(seq![b]);
    assert(0 <= b as int / 16 < 16 && 0 <= b as int % 16 < 16);
    assert(h.len() == 2);
    assert(h[0] == hex_digit(b as int / 16));
    assert(h[1] == hex_digit(b as int % 16));
    assert(h =~= seq![d[b as int / 16], d[b as int % 16]]);
}

/// The text of some bytes followed by others is their texts in the same order.
pub proof fn law_texts_follow_the_bytes(a: Seq<u8>, b: Seq<u8>)
    ensures
        hexed(Seq::<u8>::empty()) == Seq::<char>::empty(),
        hexed(a + b) == hexed(a) + hexed(b),
{
    assert(hexed(Seq::<u8>::empty()) =~= Seq::<char>::empty());
    assert forall|i: int| 0 <= i < hexed(a + b).len() implies #[trigger] hexed(a + b)[i] == (hexed(a)
        + hexed(b))[i] by {
        let n = 2 * a.len();
        if i >= n {
            assert((i - n) / 2 == i / 2 - a.len() && (i - n) % 2 == i % 2);
        }
    }
    assert(hexed(a + b) =~= hexed(a) + hexed(b));
}

/// The hexadecimal digits are these characters and no others.
pub proof fn law_digit_characters(c: char)
    ensures
        is_digit(c) <==> "0123456789abcdefABCDEF"@.contains(c),
{
    reveal_strlit("0123456789abcdefABCDEF");
    let d = "0123456789abcdefABCDEF"@;
    if is_digit(c) {
        assert(d[0] == c || d[1] == c || d[2] == c || d[3] == c || d[4] == c || d[5] == c || d[6]
            == c || d[7] == c || d[8] == c || d[9] == c || d[10] == c || d[11] == c || d[12] == c
            || d[13] == c || d[14] == c || d[15] == c || d[16] == c || d[17] == c || d[18] == c
            || d[19] == c || d[20] == c || d[21] == c);
    }
}

} // verus!
