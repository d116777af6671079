//! Bytes as text: hexadecimal digits, and bytes taken as characters.

use vstd::prelude::*;

verus! {

/// The characters with the codes `bytes`.
pub open spec fn ascii_text(bytes: Seq<u8>) -> Seq<char> {
    Seq::new(bytes.len(), |i: int| bytes[i] as char)
}

/// Whether every byte is the code of an ASCII character.
pub open spec fn all_ascii(bytes: Seq<u8>) -> bool {
    forall|i: int| 0 <= i < bytes.len() ==> #[trigger] bytes[i] < 0x80
}

/// Calls `String::push` with the character that has the code `byte`.
/// The function appends the character to the text.
#[verifier::external_body]
fn push_char(text: &mut String, byte: u8)
    ensures
        final(text)@ == old(text)@.push(byte as char),
{
    text.push(byte as char)
}

/// The text of the characters with the codes `bytes`.
pub fn text_of(bytes: &[u8]) -> (text: String)
    ensures
        text@ == ascii_text(bytes@),
{
    let mut text = String::new();
    let mut i: usize = 0;
    while i < bytes.len()
        invariant
            i <= bytes@.len(),
            text@ == ascii_text(bytes@.take(i as int)),
        decreases bytes@.len() - i,
    {
        push_char(&mut text, bytes[i]);
        i = i + 1;
        assert(text@ =~= ascii_text(bytes@.take(i as int)));
    }
    assert(bytes@.take(bytes@.len() as int) =~= bytes@);
    text
}

/// The hexadecimal digit of a number below 16, in lower case.
pub open spec fn hex_digit(n: u8) -> u8 {
    if n < 10 {
        (0x30 + n) as u8
    } else {
        (0x61 + n - 10) as u8
    }
}

/// The number that a hexadecimal digit of either case stands for.
pub open spec fn hex_digit_value(c: u8) -> Option<u8> {
    if 0x30 <= c <= 0x39 {
        Some((c - 0x30) as u8)
    } else if 0x61 <= c <= 0x66 {
        Some((c - 0x61 + 10) as u8)
    } else if 0x41 <= c <= 0x46 {
        Some((c - 0x41 + 10) as u8)
    } else {
        None
    }
}

/// The bytes in hexadecimal digits, two for each byte, in lower case.
pub open spec fn hex_of(bytes: Seq<u8>) -> Seq<u8> {
    Seq::new(
        2 * bytes.len(),
        |i: int|
            if i % 2 == 0 {
                hex_digit(bytes[i / 2] / 16)
            } else {
                hex_digit(bytes[i / 2] % 16)
            },
    )
}

/// Whether the text is made of pairs of hexadecimal digits.
pub open spec fn is_hex(text: Seq<u8>) -> bool {
    &&& text.len() % 2 == 0
    &&& forall|i: int| 0 <= i < text.len() ==> hex_digit_value(#[trigger] text[i]) is Some
}

/// The bytes that text in hexadecimal digits stands for; `None` where it
/// is not made of pairs of such digits.
pub open spec fn bytes_of_hex(text: Seq<u8>) -> Option<Seq<u8>> {
    if is_hex(text) {
        Some(
            Seq::new(
                text.len() / 2,
                |i: int|
                    (hex_digit_value(text[2 * i])->Some_0 * 16 + hex_digit_value(
                        text[2 * i + 1],
                    )->Some_0) as u8,
            ),
        )
    } else {
        None
    }
}

/// Bytes are read back from their hexadecimal digits.
pub proof fn lemma_hex_round_trip(bytes: Seq<u8>)
    ensures
        all_ascii(hex_of(bytes)),
        bytes_of_hex(hex_of(bytes)) == Some(bytes),
{
    let text = hex_of(bytes);
    assert forall|i: int| 0 <= i < text.len() implies hex_digit_value(#[trigger] text[i])
        is Some && text[i] < 0x80 by {
        let b = bytes[i / 2];
        assert(b / 16 < 16 && b % 16 < 16);
    }
    assert(is_hex(text));
    let back = bytes_of_hex(text)->Some_0;
    assert forall|k: int| 0 <= k < bytes.len() implies back[k] == bytes[k] by {
        let b = bytes[k];
        assert((2 * k) % 2 == 0 && (2 * k) / 2 == k);
        assert((2 * k + 1) % 2 == 1 && (2 * k + 1) / 2 == k);
        assert(text[2 * k] == hex_digit(b / 16));
        assert(text[2 * k + 1] == hex_digit(b % 16));
        assert(hex_digit_value(hex_digit(b / 16)) == Some((b / 16) as u8));
        assert(hex_digit_value(hex_digit(b % 16)) == Some((b % 16) as u8));
        assert(b == (b / 16) * 16 + b % 16);
    }
    assert(back =~= bytes);
}

/// The hexadecimal digit of a number below 16.
fn digit_of(n: u8) -> (c: u8)
    requires
        n < 16,
    ensures
        c == hex_digit(n),
        c < 0x80,
{
    if n < 10 {
        0x30 + n
    } else {
        0x61 + (n - 10)
    }
}

/// The number that a hexadecimal digit stands for.
fn value_of_digit(c: u8) -> (value: Option<u8>)
    ensures
        value == hex_digit_value(c),
        value matches Some(v) ==> v < 16,
{
    if 0x30 <= c && c <= 0x39 {
        Some(c - 0x30)
    } else if 0x61 <= c && c <= 0x66 {
        Some(c - 0x61 + 10)
    } else if 0x41 <= c && c <= 0x46 {
        Some(c - 0x41 + 10)
    } else {
        None
    }
}

/// Writes bytes in hexadecimal digits.
pub fn hex_encode(bytes: &[u8]) -> (text: Vec<u8>)
    ensures
        text@ == hex_of(bytes@),
        all_ascii(text@),
{
    let mut text: Vec<u8> = Vec::new();
    let mut i: usize = 0;
    while i < bytes.len()
        invariant
            i <= bytes@.len(),
            text@.len() == 2 * i,
            forall|k: int| 0 <= k < 2 * i ==> #[trigger] text@[k] == hex_of(bytes@)[k],
            all_ascii(text@),
        decreases bytes@.len() - i,
    {
        let b: u8 = bytes[i];
        assert((2 * i) % 2 == 0 && (2 * i) / 2 == i);
        assert((2 * i + 1) % 2 == 1 && (2 * i + 1) / 2 == i);
        text.push(digit_of(b / 16));
        text.push(digit_of(b % 16));
        i = i + 1;
    }
    assert(text@ =~= hex_of(bytes@));
    text
}

/// Reads bytes from hexadecimal digits of either case.
pub fn hex_decode(text: &[u8]) -> (bytes: Option<Vec<u8>>)
    ensures
        match bytes {
            Some(b) => bytes_of_hex(text@) == Some(b@),
            None => bytes_of_hex(text@).is_none(),
        },
{
    if text.len() % 2 != 0 {
        return None;
    }
    let mut bytes: Vec<u8> = Vec::new();
    let mut i: usize = 0;
    while i < text.len() / 2
        invariant
            text@.len() % 2 == 0,
            i <= text@.len() / 2,
            bytes@.len() == i,
            forall|k: int| 0 <= k < 2 * i ==> hex_digit_value(#[trigger] text@[k]) is Some,
            forall|k: int|
                0 <= k < i ==> #[trigger] bytes@[k] == (hex_digit_value(text@[2 * k])->Some_0 * 16
                    + hex_digit_value(text@[2 * k + 1])->Some_0) as u8,
        decreases text@.len() / 2 - i,
    {
        let high = value_of_digit(text[2 * i]);
        let low = value_of_digit(text[2 * i + 1]);
        match (high, low) {
            (Some(h), Some(l)) => {
                bytes.push(h * 16 + l);
            },
            _ => {
                return None;
            },
        }
        i = i + 1;
    }
    proof {
        assert(is_hex(text@));
        assert(bytes@ =~= bytes_of_hex(text@)->Some_0);
    }
    Some(bytes)
}

} // verus!
