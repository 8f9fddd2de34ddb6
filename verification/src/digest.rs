//! The MD5 digest of a passphrase and its lower-case hexadecimal text.

use vstd::prelude::*;
use vstd::string::*;
use vstd::utf8::{encode_utf8, is_ascii_chars, is_ascii_chars_encode_utf8};

verus! {

/// The MD5 digest of `data`, as `md5::compute` gives it.
pub uninterp spec fn md5_digest(data: Seq<u8>) -> Seq<u8>;

/// Calls `md5::compute` on `data` and hands out the sixteen bytes of the
/// digest. Trusted: that the digest is a function of the bytes alone, which
/// `md5_digest` names. Nothing else is claimed of its value.
#[verifier::external_body]
fn md5_compute(data: &[u8]) -> (digest: [u8; 16])
    ensures
        digest@ == md5_digest(data@),
{
    md5::compute(data).0
}

/// The lower-case hexadecimal digit of a value below sixteen.
pub open spec fn hex_char(nibble: u8) -> char
    recommends
        nibble < 16,
{
    if nibble < 10 {
        ((48 + nibble) as u8) as char
    } else {
        ((87 + nibble) as u8) as char
    }
}

/// The character at offset `i` of the hexadecimal text of `bytes`: the high
/// half of a byte comes first, then its low half.
pub open spec fn hex_text_at(bytes: Seq<u8>, i: int) -> char
    recommends
        0 <= i < 2 * bytes.len(),
{
    if i % 2 == 0 {
        hex_char(bytes[i / 2] >> 4)
    } else {
        hex_char(bytes[i / 2] & 0x0f)
    }
}

/// The lower-case hexadecimal text of `bytes`: two digits for every byte, in
/// the order of the bytes.
pub open spec fn hex_text(bytes: Seq<u8>) -> Seq<char> {
    Seq::new(2 * bytes.len(), |i: int| hex_text_at(bytes, i))
}

/// The ASCII code of the lower-case hexadecimal digit of a value below
/// sixteen.
pub open spec fn hex_byte(nibble: u8) -> u8
    recommends
        nibble < 16,
{
    if nibble < 10 {
        (48 + nibble) as u8
    } else {
        (87 + nibble) as u8
    }
}

/// Hexadecimal text is plain ASCII: as bytes it is as long as it has digits,
/// two for every byte written, and every byte of it is the code of the digit
/// at its place.
pub proof fn lemma_hex_text_bytes(bytes: Seq<u8>)
    ensures
        is_ascii_chars(hex_text(bytes)),
        encode_utf8(hex_text(bytes)).len() == 2 * bytes.len(),
        forall|i: int|
            0 <= i < 2 * bytes.len() ==> #[trigger] encode_utf8(hex_text(bytes))[i] == hex_byte(
                if i % 2 == 0 {
                    bytes[i / 2] >> 4
                } else {
                    bytes[i / 2] & 0x0f
                },
            ),
{
    let text = hex_text(bytes);
    assert forall|i: int| 0 <= i < text.len() implies '\0' <= #[trigger] text[i] <= '\u{7f}' by {
        let byte: u8 = bytes[i / 2];
        assert(byte >> 4 < 16 && byte & 0x0f < 16) by (bit_vector);
    }
    is_ascii_chars_encode_utf8(text);
    assert forall|i: int| 0 <= i < 2 * bytes.len() implies #[trigger] encode_utf8(text)[i]
        == hex_byte(
        if i % 2 == 0 {
            bytes[i / 2] >> 4
        } else {
            bytes[i / 2] & 0x0f
        },
    ) by {
        let byte: u8 = bytes[i / 2];
        assert(byte >> 4 < 16 && byte & 0x0f < 16) by (bit_vector);
        assert(text[i] as u8 == encode_utf8(text)[i]);
    }
}

fn hex_digit(nibble: u8) -> (digit: &'static str)
    requires
        nibble < 16,
    ensures
        digit@ == seq![hex_char(nibble)],
{
    proof {
        reveal_strlit("0");
        reveal_strlit("1");
        reveal_strlit("2");
        reveal_strlit("3");
        reveal_strlit("4");
        reveal_strlit("5");
        reveal_strlit("6");
        reveal_strlit("7");
        reveal_strlit("8");
        reveal_strlit("9");
        reveal_strlit("a");
        reveal_strlit("b");
        reveal_strlit("c");
        reveal_strlit("d");
        reveal_strlit("e");
        reveal_strlit("f");
    }
    let digit: &'static str = match nibble {
        0 => "0",
        1 => "1",
        2 => "2",
        3 => "3",
        4 => "4",
        5 => "5",
        6 => "6",
        7 => "7",
        8 => "8",
        9 => "9",
        10 => "a",
        11 => "b",
        12 => "c",
        13 => "d",
        14 => "e",
        _ => "f",
    };
    assert(digit@ =~= seq![hex_char(nibble)]);
    digit
}

/// Writes `bytes` as lower-case hexadecimal text.
pub fn to_hex(bytes: &[u8]) -> (text: String)
    ensures
        text@ == hex_text(bytes@),
{
    let mut text = String::new();
    let mut i: usize = 0;
    while i < bytes.len()
        invariant
            i <= bytes@.len(),
            text@.len() == 2 * i,
            forall|j: int| 0 <= j < 2 * i ==> text@[j] == hex_text_at(bytes@, j),
        decreases bytes@.len() - i,
    {
        let byte: u8 = bytes[i];
        let high: u8 = byte >> 4;
        let low: u8 = byte & 0x0f;
        assert(byte >> 4 < 16 && byte & 0x0f < 16) by (bit_vector);
        let ghost before = text@;
        text.append(hex_digit(high));
        text.append(hex_digit(low));
        proof {
            assert(text@ =~= before.push(hex_char(high)).push(hex_char(low)));
            assert forall|j: int| 0 <= j < 2 * (i + 1) implies text@[j] == hex_text_at(
                bytes@,
                j,
            ) by {
                if j == 2 * i {
                    assert(j / 2 == i && j % 2 == 0);
                } else if j == 2 * i + 1 {
                    assert(j / 2 == i && j % 2 == 1);
                }
            }
        }
        i += 1;
    }
    assert(text@ =~= hex_text(bytes@));
    text
}

/// The MD5 digest of `data` as thirty-two lower-case hexadecimal digits.
pub fn md5_hex(data: &[u8]) -> (text: String)
    ensures
        text@ == hex_text(md5_digest(data@)),
        text@.len() == 32,
{
    let digest: [u8; 16] = md5_compute(data);
    to_hex(digest.as_slice())
}

} // verus!
