//! Byte strings in hexadecimal.

use vstd::prelude::*;
use vstd::utf8::encode_utf8;

verus! {

/// The lower case digit of a number below 16, as a character code.
pub open spec fn digit(n: int) -> u8 {
    if n < 10 {
        (48 + n) as u8
    } else {
        (87 + n) as u8
    }
}

/// The number that a digit of either case stands for.
pub open spec fn digit_value(code: u8) -> Option<int> {
    if 48 <= code <= 57 {
        Some(code - 48)
    } else if 65 <= code <= 70 {
        Some(code - 55)
    } else if 97 <= code <= 102 {
        Some(code - 87)
    } else {
        None
    }
}

/// The codes of the digits of a byte string, the higher digit of each byte
/// first.
pub open spec fn hex_codes(data: Seq<u8>) -> Seq<u8> {
    Seq::new(
        2 * data.len(),
        |i: int|
            if i % 2 == 0 {
                digit(data[i / 2] as int / 16)
            } else {
                digit(data[i / 2] as int % 16)
            },
    )
}

/// The digits of a byte string.
pub open spec fn hex_text(data: Seq<u8>) -> Seq<char> {
    hex_codes(data).map_values(|code: u8| code as char)
}

/// What is left of a text after a prefix of `0x` or `0X`.
pub open spec fn without_prefix(codes: Seq<u8>) -> Seq<u8> {
    if codes.len() >= 2 && codes[0] == 48 && (codes[1] == 120 || codes[1] == 88) {
        codes.skip(2)
    } else {
        codes
    }
}

/// Whether all codes are those of digits.
pub open spec fn all_digits(codes: Seq<u8>) -> bool {
    forall|i: int| 0 <= i < codes.len() ==> digit_value(#[trigger] codes[i]) is Some
}

/// The byte string that a text of digits stands for.
pub open spec fn decoded(codes: Seq<u8>) -> Seq<u8> {
    Seq::new(
        codes.len() / 2,
        |i: int|
            (16 * digit_value(codes[2 * i])->Some_0 + digit_value(codes[2 * i + 1])->Some_0) as u8,
    )
}

/// Why a text is not hexadecimal.
#[derive(Clone, Copy, Debug, PartialEq, Eq, Structural)]
pub enum FromHexError {
    /// The text has an odd number of bytes.
    OddLength,
    /// The first byte that is not a digit, and its place after the prefix.
    InvalidHexCharacter { c: char, index: usize },
    /// The text does not have the expected length.
    InvalidStringLength,
}

/// What comes of decoding a text.
pub open spec fn decodes_to(codes: Seq<u8>, res: Result<Seq<u8>, FromHexError>) -> bool {
    let digits = without_prefix(codes);
    if codes.len() % 2 != 0 {
        res == Err::<Seq<u8>, FromHexError>(FromHexError::OddLength)
    } else if all_digits(digits) {
        res == Ok::<Seq<u8>, FromHexError>(decoded(digits))
    } else {
        res matches Err(FromHexError::InvalidHexCharacter { c, index }) && {
            &&& index < digits.len()
            &&& digit_value(digits[index as int]) is None
            &&& all_digits(digits.take(index as int))
            &&& c == digits[index as int] as char
        }
    }
}

/// The result of decoding, the bytes as a list.
pub open spec fn decoded_view(res: Result<Vec<u8>, FromHexError>) -> Result<
    Seq<u8>,
    FromHexError,
> {
    match res {
        Ok(bytes) => Ok(bytes@),
        Err(err) => Err(err),
    }
}

/// Calls `const_hex::encode`, and claims that the text holds the two lower case
/// digits of each byte, without a prefix.
#[verifier::external_body]
pub(crate) fn hex_encode(data: &[u8]) -> (text: String)
    ensures
        text@ == hex_text(data@),
{
    const_hex::encode(data)
}

/// Calls `const_hex::decode`, and claims that a text of an even number of bytes,
/// which may start with `0x` or `0X`, decodes if the rest of it consists of
/// digits of either case; otherwise the error tells an odd number of bytes from
/// the first byte that is not a digit.
#[verifier::external_body]
pub(crate) fn hex_decode(text: &[u8]) -> (res: Result<Vec<u8>, FromHexError>)
    ensures
        decodes_to(text@, decoded_view(res)),
{
    match const_hex::decode(text) {
        Ok(bytes) => Ok(bytes),
        Err(const_hex::FromHexError::OddLength) => Err(FromHexError::OddLength),
        Err(const_hex::FromHexError::InvalidHexCharacter { c, index }) => {
            Err(FromHexError::InvalidHexCharacter { c, index })
        },
        Err(const_hex::FromHexError::InvalidStringLength) => Err(FromHexError::InvalidStringLength),
    }
}

/// The hexadecimal text of a message.
pub fn encode_msg(msg: &Vec<u8>) -> (text: String)
    ensures
        text@ == hex_text(msg@),
{
    hex_encode(msg.as_slice())
}

/// The bytes of a message that is given in hexadecimal.
pub fn decode_msg(msg: &String) -> (res: Result<Vec<u8>, FromHexError>)
    ensures
        decodes_to(encode_utf8(msg@), decoded_view(res)),
{
    hex_decode(msg.as_str().as_bytes())
}

/// The bytes of a memo, if there is one.
pub fn decode_memo(memo: Option<String>) -> (res: Result<Option<Vec<u8>>, FromHexError>)
    ensures
        match memo {
            None => res == Ok::<Option<Vec<u8>>, FromHexError>(None),
            Some(memo) => match res {
                Ok(bytes) => bytes matches Some(bytes) && decodes_to(
                    encode_utf8(memo@),
                    Ok(bytes@),
                ),
                Err(err) => decodes_to(encode_utf8(memo@), Err(err)),
            },
        },
{
    match memo {
        None => Ok(None),
        Some(memo) => match decode_msg(&memo) {
            Ok(bytes) => Ok(Some(bytes)),
            Err(err) => Err(err),
        },
    }
}

/// The hexadecimal text of a byte string decodes to the byte string.
pub proof fn law_hex_round_trip(data: Seq<u8>)
    ensures
        decodes_to(hex_codes(data), Ok(data)),
{
    let codes = hex_codes(data);
    assert forall|i: int| 0 <= i < codes.len() implies digit_value(#[trigger] codes[i]) is Some by {
        let byte = data[i / 2] as int;
        assert(0 <= byte / 16 < 16 && 0 <= byte % 16 < 16);
    }
    if codes.len() >= 2 {
        let byte = data[0] as int;
        assert(codes[1] == digit(byte % 16));
        assert(0 <= byte % 16 < 16);
    }
    assert(without_prefix(codes) == codes);
    assert forall|i: int| 0 <= i < data.len() implies decoded(codes)[i] == data[i] by {
        let byte = data[i] as int;
        assert((2 * i) / 2 == i && (2 * i) % 2 == 0);
        assert((2 * i + 1) / 2 == i && (2 * i + 1) % 2 == 1);
        assert(codes[2 * i] == digit(byte / 16));
        assert(codes[2 * i + 1] == digit(byte % 16));
        assert(0 <= byte / 16 < 16 && 0 <= byte % 16 < 16);
        assert(16 * (byte / 16) + byte % 16 == byte);
    }
    assert(decoded(codes) =~= data);
}

} // verus!
