//! Bytes as hexadecimal text and back.
use crate::text::decimal;
use vstd::prelude::*;
use vstd::string::StrSliceExecFns;
use vstd::utf8::{encode_utf8, is_ascii_chars, is_ascii_chars_encode_utf8};

verus! {

/// The lower-case digit of value `v`, below 16.
pub open spec fn hex_digit(v: int) -> char {
    if v < 10 {
        (v + 0x30) as char
    } else {
        (v + 0x57) as char
    }
}

/// The text of `bytes`: two lower-case digits for each byte, the high half
/// first.
pub open spec fn hex_text(bytes: Seq<u8>) -> Seq<char> {
    Seq::new(
        2 * bytes.len(),
        |i: int|
            if i % 2 == 0 {
                hex_digit(bytes[i / 2] as int / 16)
            } else {
                hex_digit(bytes[i / 2] as int % 16)
            },
    )
}

/// The value of the ASCII digit `c`, in either case; `None` for another byte.
pub open spec fn hex_value(c: u8) -> Option<int> {
    if 0x30 <= c <= 0x39 {
        Some(c - 0x30)
    } else if 0x41 <= c <= 0x46 {
        Some(c - 0x41 + 10)
    } else if 0x61 <= c <= 0x66 {
        Some(c - 0x61 + 10)
    } else {
        None
    }
}

/// The index of the first byte that is no digit, or the length where all are.
pub open spec fn first_non_digit(text: Seq<u8>) -> nat
    decreases text.len(),
{
    if text.len() == 0 || hex_value(text[0]) is None {
        0
    } else {
        1 + first_non_digit(text.drop_first())
    }
}

/// Why a text is not the hexadecimal form of bytes.
#[derive(Clone, Copy, Debug, PartialEq, Eq, Structural)]
pub enum HexError {
    /// A byte that is no digit, taken as a Latin-1 character, and its index.
    InvalidHexCharacter { c: char, index: usize },
    /// The number of digits is odd.
    OddLength,
    /// The text does not have the length of a container of fixed size.
    InvalidStringLength,
}

/// What the bytes of `text` stand for, read as pairs of digits.
pub open spec fn decoded(text: Seq<u8>) -> Result<Seq<u8>, HexError> {
    let bad = first_non_digit(text);
    if text.len() % 2 != 0 {
        Err(HexError::OddLength)
    } else if bad < text.len() {
        Err(HexError::InvalidHexCharacter { c: text[bad as int] as char, index: bad as usize })
    } else {
        Ok(
            Seq::new(
                text.len() / 2,
                |i: int|
                    (16 * hex_value(text[2 * i])->0 + hex_value(text[2 * i + 1])->0) as u8,
            ),
        )
    }
}

/// Calls `hex::encode`. Claimed of it: the text has two lower-case digits for
/// each byte, the high half first.
#[verifier::external_body]
fn encode(bytes: &[u8]) -> (text: String)
    ensures
        text@ == hex_text(bytes@),
{
    hex::encode(bytes)
}

/// Calls `hex::decode`. Claimed of it: an odd number of bytes is refused, then
/// the first byte that is no digit; otherwise each pair of digits gives one
/// byte. Digits of both cases count.
#[verifier::external_body]
fn decode(text: &str) -> (bytes: Result<Vec<u8>, HexError>)
    ensures
        match bytes {
            Ok(v) => decoded(encode_utf8(text@)) == Ok::<Seq<u8>, HexError>(v@),
            Err(e) => decoded(encode_utf8(text@)) == Err::<Seq<u8>, HexError>(e),
        },
{
    hex::decode(text).map_err(
        |e| match e {
            hex::FromHexError::InvalidHexCharacter { c, index } => {
                HexError::InvalidHexCharacter { c, index }
            },
            hex::FromHexError::OddLength => HexError::OddLength,
            hex::FromHexError::InvalidStringLength => HexError::InvalidStringLength,
        },
    )
}

/// What std's `Debug` writes for a character: in single quotes, escaped where
/// it is not printable.
pub uninterp spec fn char_debug(c: char) -> Seq<char>;

/// The message of a [`HexError`], where `shown` is how its character is shown.
pub open spec fn hex_error_message(e: HexError, shown: Seq<char>) -> Seq<char> {
    match e {
        HexError::InvalidHexCharacter { c: _, index } => {
            "Invalid character "@ + shown + " at position "@ + decimal(index as nat)
        },
        HexError::OddLength => "Odd number of digits"@,
        HexError::InvalidStringLength => "Invalid string length"@,
    }
}

/// Calls `to_string` on `hex::FromHexError`. Claimed of it: the message for
/// each kind of error. How the character is written is left to std's `Debug`.
#[verifier::external_body]
pub(crate) fn hex_error_text(e: HexError) -> (text: String)
    ensures
        text@ == hex_error_message(e, char_debug(e->c)),
{
    match e {
        HexError::InvalidHexCharacter { c, index } => {
            hex::FromHexError::InvalidHexCharacter { c, index }.to_string()
        },
        HexError::OddLength => hex::FromHexError::OddLength.to_string(),
        HexError::InvalidStringLength => hex::FromHexError::InvalidStringLength.to_string(),
    }
}

/// The hexadecimal text of a digest.
pub fn digest_hex(hash: &[u8; 32]) -> (text: String)
    ensures
        text@ == hex_text(hash@),
{
    encode(hash)
}

/// The digest whose hexadecimal text, in either case, is `text`; the 32 bytes
/// of it.
pub fn digest_from_hex(text: &str) -> (hash: Result<[u8; 32], HexError>)
    requires
        encode_utf8(text@).len() == 64,
    ensures
        match hash {
            Ok(h) => decoded(encode_utf8(text@)) == Ok::<Seq<u8>, HexError>(h@),
            Err(e) => decoded(encode_utf8(text@)) == Err::<Seq<u8>, HexError>(e),
        },
{
    match decode(text) {
        Ok(bytes) => {
            let mut arr: [u8; 32] = [0u8; 32];
            let mut i: usize = 0;
            while i < 32
                invariant
                    i <= 32,
                    bytes@.len() == 32,
                    forall|j: int| 0 <= j < i ==> arr@[j] == bytes@[j],
                decreases 32 - i,
            {
                arr[i] = bytes[i];
                i += 1;
            }
            assert(arr@ =~= bytes@);
            Ok(arr)
        },
        Err(e) => Err(e),
    }
}

/// The first `label_len` digits of the text of a digest, or the whole text
/// where it has no more.
pub open spec fn short_hex_text(hash: Seq<u8>, label_len: nat) -> Seq<char> {
    if label_len >= hex_text(hash).len() {
        hex_text(hash)
    } else {
        hex_text(hash).take(label_len as int)
    }
}

/// The first `label_len` hexadecimal digits of `hash`, or all 64.
pub fn short_hex(hash: &[u8; 32], label_len: usize) -> (text: String)
    ensures
        text@ == short_hex_text(hash@, label_len as nat),
{
    let h = digest_hex(hash);
    if label_len >= 64 {
        h
    } else {
        proof {
            lemma_hex_text_is_ascii(hash@);
        }
        h.as_str().substring_ascii(0, label_len).to_owned()
    }
}

proof fn lemma_hex_text_is_ascii(bytes: Seq<u8>)
    ensures
        is_ascii_chars(hex_text(bytes)),
{
}

/// The UTF-8 form of a hexadecimal text has one byte for each digit, and its
/// digits are those of the text.
pub proof fn lemma_hex_text_bytes(bytes: Seq<u8>)
    ensures
        encode_utf8(hex_text(bytes)).len() == 2 * bytes.len(),
        forall|i: int|
            0 <= i < 2 * bytes.len() ==> #[trigger] encode_utf8(hex_text(bytes))[i]
                == hex_text(bytes)[i] as u8,
{
    lemma_hex_text_is_ascii(bytes);
    is_ascii_chars_encode_utf8(hex_text(bytes));
}

proof fn lemma_all_digits(text: Seq<u8>)
    requires
        forall|i: int| 0 <= i < text.len() ==> hex_value(#[trigger] text[i]) is Some,
    ensures
        first_non_digit(text) == text.len(),
    decreases text.len(),
{
    if text.len() > 0 {
        assert forall|i: int| 0 <= i < text.drop_first().len() implies hex_value(
            #[trigger] text.drop_first()[i],
        ) is Some by {
            assert(text.drop_first()[i] == text[i + 1]);
        }
        lemma_all_digits(text.drop_first());
    }
}

/// Reading the hexadecimal text of bytes gives the bytes back.
pub proof fn law_hex_round_trip(bytes: Seq<u8>)
    ensures
        decoded(encode_utf8(hex_text(bytes))) == Ok::<Seq<u8>, HexError>(bytes),
{
    let text = encode_utf8(hex_text(bytes));
    lemma_hex_text_bytes(bytes);
    assert forall|i: int| 0 <= i < text.len() implies hex_value(#[trigger] text[i]) == Some(
        if i % 2 == 0 {
            bytes[i / 2] as int / 16
        } else {
            bytes[i / 2] as int % 16
        },
    ) by {
        assert(text[i] == hex_text(bytes)[i] as u8);
    }
    lemma_all_digits(text);
    let back = decoded(text)->Ok_0;
    assert forall|i: int| 0 <= i < bytes.len() implies #[trigger] back[i] == bytes[i] by {
        assert((2 * i) / 2 == i && (2 * i + 1) / 2 == i);
        assert(hex_value(text[2 * i]) == Some(bytes[i] as int / 16));
        assert(hex_value(text[2 * i + 1]) == Some(bytes[i] as int % 16));
    }
    assert(back =~= bytes);
}

/// Each byte gives two of the sixteen digits, that of its high half before that of
/// its low half.
pub proof fn law_each_byte_gives_two_digits(bytes: Seq<u8>, i: int)
    requires
        0 <= i < bytes.len(),
    ensures
        hex_text(bytes).len() == 2 * bytes.len(),
        hex_text(bytes)[2 * i] == "0123456789abcdef"@[bytes[i] as int / 16],
        hex_text(bytes)[2 * i + 1] == "0123456789abcdef"@[bytes[i] as int % 16],
{
    reveal_strlit("0123456789abcdef");
    assert((2 * i) / 2 == i && (2 * i + 1) / 2 == i);
}

proof fn lemma_first_non_digit(text: Seq<u8>)
    ensures
        first_non_digit(text) <= text.len(),
        forall|j: int|
            0 <= j < first_non_digit(text) ==> hex_value(#[trigger] text[j]) is Some,
        first_non_digit(text) < text.len() ==> hex_value(text[first_non_digit(text) as int])
            is None,
    decreases text.len(),
{
    if text.len() > 0 && hex_value(text[0]) is Some {
        let rest = text.drop_first();
        lemma_first_non_digit(rest);
        assert forall|j: int| 0 <= j < first_non_digit(text) implies hex_value(
            #[trigger] text[j],
        ) is Some by {
            if j > 0 {
                assert(rest[j - 1] == text[j]);
            }
        }
    }
}

/// What is read from hexadecimal text has this text, but for the case of its
/// digits. Text of odd length is refused, and otherwise the first byte that is no
/// digit; nothing else is.
pub proof fn law_hexadecimal_text_is_read(text: Seq<u8>)
    requires
        text.len() <= usize::MAX,
    ensures
        decoded(text) matches Ok(bytes) ==> {
            &&& text.len() == 2 * bytes.len()
            &&& forall|j: int|
                0 <= j < text.len() ==> {
                    ||| #[trigger] text[j] == hex_text(bytes)[j] as int
                    ||| 0x41 <= text[j] <= 0x46 && text[j] + 0x20 == hex_text(bytes)[j] as int
                }
        },
        decoded(text) matches Err(HexError::InvalidHexCharacter { c, index }) ==> {
            &&& text.len() % 2 == 0
            &&& index < text.len()
            &&& c as int == text[index as int]
            &&& !(0x30 <= c as int <= 0x39 || 0x41 <= c as int <= 0x46 || 0x61 <= c as int
                <= 0x66)
            &&& forall|j: int|
                0 <= j < index ==> (0x30 <= #[trigger] text[j] <= 0x39 || 0x41 <= text[j] <= 0x46
                    || 0x61 <= text[j] <= 0x66)
        },
        decoded(text) == Err::<Seq<u8>, HexError>(HexError::OddLength) <==> text.len() % 2 == 1,
        decoded(text) != Err::<Seq<u8>, HexError>(HexError::InvalidStringLength),
        decoded(text) is Ok <==> text.len() % 2 == 0 && forall|j: int|
            0 <= j < text.len() ==> (0x30 <= #[trigger] text[j] <= 0x39 || 0x41 <= text[j] <= 0x46
                || 0x61 <= text[j] <= 0x66),
{
    lemma_first_non_digit(text);
    if decoded(text) is Ok {
        let bytes = decoded(text)->Ok_0;
        assert forall|j: int| 0 <= j < text.len() implies {
            ||| #[trigger] text[j] == hex_text(bytes)[j] as int
            ||| 0x41 <= text[j] <= 0x46 && text[j] + 0x20 == hex_text(bytes)[j] as int
        } by {
            let i = j / 2;
            let high = text[2 * i];
            let low = text[2 * i + 1];
            assert(hex_value(high) is Some && hex_value(low) is Some);
            assert(bytes[i] == 16 * hex_value(high)->0 + hex_value(low)->0);
        }
    }
}

/// A label is the start of the text of a digest, of as many digits as are asked
/// for, or the whole text where it has no more.
pub proof fn law_label_starts_the_text(hash: Seq<u8>, label_len: nat)
    ensures
        label_len <= 2 * hash.len() ==> short_hex_text(hash, label_len).len() == label_len,
        label_len >= 2 * hash.len() ==> short_hex_text(hash, label_len).len() == 2 * hash.len(),
        forall|j: int|
            0 <= j < short_hex_text(hash, label_len).len() ==> #[trigger] short_hex_text(
                hash,
                label_len,
            )[j] == hex_text(hash)[j],
{
}

} // verus!
