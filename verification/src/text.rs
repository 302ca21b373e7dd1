//! Text out of bytes: UTF-8 decoding and decimal numerals.

use vstd::prelude::*;
use vstd::utf8::*;

verus! {

/// Trusted: the error of `String::from_utf8`, carried and never looked into.
#[verifier::external_type_specification]
#[verifier::external_body]
pub struct ExFromUtf8Error(std::string::FromUtf8Error);

/// Decodes `bytes` as UTF-8 text.
///
/// Trusted: this is `String::from_utf8` of the standard library. The
/// contract claims that it succeeds exactly on well-formed UTF-8, and that
/// the text it then returns is the decoding of the bytes.
#[verifier::external_body]
pub(crate) fn string_from_utf8(bytes: &[u8]) -> (text: Result<String, std::string::FromUtf8Error>)
    ensures
        text is Ok <==> valid_utf8(bytes@),
        text is Ok ==> text.unwrap()@ == decode_utf8(bytes@),
{
    String::from_utf8(bytes.to_vec())
}

/// Whether every byte of `bytes` is an ASCII code.
pub open spec fn is_ascii_bytes(bytes: Seq<u8>) -> bool {
    forall|i: int| 0 <= i < bytes.len() ==> #[trigger] bytes[i] < 128
}

/// The characters whose codes are `bytes`.
pub open spec fn ascii_chars(bytes: Seq<u8>) -> Seq<char> {
    Seq::new(bytes.len(), |i: int| bytes[i] as char)
}

/// ASCII bytes are well-formed UTF-8 and decode one byte to one character.
pub proof fn lemma_ascii_decodes(bytes: Seq<u8>)
    requires
        is_ascii_bytes(bytes),
    ensures
        valid_utf8(bytes),
        decode_utf8(bytes) == ascii_chars(bytes),
{
    let chars = ascii_chars(bytes);
    assert forall|i: int| 0 <= i < chars.len() implies '\0' <= #[trigger] chars[i] <= '\u{7f}' by {
        assert(bytes[i] < 128);
    }
    is_ascii_chars_encode_utf8(chars);
    assert(encode_utf8(chars) =~= bytes) by {
        assert forall|i: int| 0 <= i < bytes.len() implies encode_utf8(chars)[i] == bytes[i] by {
            assert(bytes[i] < 128);
            assert(chars[i] as u8 == bytes[i]);
        }
    }
    encode_utf8_valid_utf8(chars);
    encode_utf8_decode_utf8(chars);
}

/// The character of the decimal digit `d`.
pub open spec fn digit(d: nat) -> char
    recommends
        d < 10,
{
    ((48 + d) as u8) as char
}

/// The decimal numeral of `n`, without leading zeros.
pub open spec fn decimal(n: nat) -> Seq<char>
    decreases n,
{
    if n < 10 {
        seq![digit(n)]
    } else {
        decimal(n / 10).push(digit(n % 10))
    }
}

/// Appends the ASCII codes of the decimal numeral of `n` to `out`.
fn push_decimal(out: &mut Vec<u8>, n: u32)
    requires
        is_ascii_bytes(old(out)@),
    ensures
        is_ascii_bytes(final(out)@),
        ascii_chars(final(out)@) == ascii_chars(old(out)@) + decimal(n as nat),
    decreases n,
{
    if n >= 10 {
        push_decimal(out, n / 10);
    }
    let ghost before = out@;
    let code: u8 = 48 + (n % 10) as u8;
    out.push(code);
    assert(ascii_chars(out@) =~= ascii_chars(before).push(digit((n % 10) as nat)));
    assert(ascii_chars(out@) =~= ascii_chars(old(out)@) + decimal(n as nat));
}

/// Writes `n` as a decimal numeral.
pub fn decimal_string(n: u32) -> (text: String)
    ensures
        text@ == decimal(n as nat),
{
    let mut codes: Vec<u8> = Vec::new();
    push_decimal(&mut codes, n);
    proof {
        lemma_ascii_decodes(codes@);
        assert(ascii_chars(codes@) =~= decimal(n as nat));
    }
    match string_from_utf8(codes.as_slice()) {
        Ok(text) => text,
        // digits are ASCII, so this arm is never taken
        Err(_) => String::new(),
    }
}

} // verus!
