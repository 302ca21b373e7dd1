//! The four-byte chunk type code and the properties encoded in its bits.

use crate::endian::{
    be_bytes, be_word, lemma_be_bytes_injective, lemma_bytes_of_word, lemma_word_of_bytes,
    word_from_be, word_to_be,
};
use crate::error::PngError;
use crate::text::string_from_utf8;
use std::str::FromStr;
use vstd::prelude::*;
use vstd::std_specs::convert::TryFromSpecImpl;
use vstd::string::*;
use vstd::utf8::*;

verus! {

/// The mask of the property bit of a type byte.
pub const PROPERTY_BIT: u8 = 0x20;

/// Whether the property bit of `byte` is set.
pub open spec fn fifth_bit(byte: u8) -> bool {
    byte & PROPERTY_BIT != 0
}

/// Whether `byte` is the code of an ASCII letter.
pub open spec fn is_letter(byte: u8) -> bool {
    (65 <= byte <= 90) || (97 <= byte <= 122)
}

/// Whether `byte` is the code of an upper-case ASCII letter.
pub open spec fn is_uppercase(byte: u8) -> bool {
    65 <= byte <= 90
}

/// Whether `c` is an ASCII letter.
pub open spec fn is_letter_char(c: char) -> bool {
    ('A' <= c <= 'Z') || ('a' <= c <= 'z')
}

/// Whether `text` can name a chunk type: four ASCII letters.
pub open spec fn is_type_text(text: Seq<char>) -> bool {
    text.len() == 4 && forall|i: int| 0 <= i < 4 ==> is_letter_char(#[trigger] text[i])
}

/// The codes of the characters of `text`.
pub open spec fn char_codes(text: Seq<char>) -> Seq<u8> {
    Seq::new(text.len(), |i: int| text[i] as u8)
}

/// Tests the property bit of `byte` against the expected state `set`.
pub fn fifth_bit_check(byte: u8, set: bool) -> (ok: bool)
    ensures
        ok == (fifth_bit(byte) == set),
{
    (byte & PROPERTY_BIT != 0) == set
}

/// Tests whether `byte` is the code of an ASCII letter.
pub fn is_letter_byte(byte: u8) -> (ok: bool)
    ensures
        ok == is_letter(byte),
{
    (65 <= byte && byte <= 90) || (97 <= byte && byte <= 122)
}

/// A chunk type code: four bytes, kept as one big-endian word.
#[derive(Debug, Clone, Copy, PartialEq, Eq, Structural)]
pub struct ChunkType {
    inner: u32,
}

impl View for ChunkType {
    type V = Seq<u8>;

    /// The four bytes of the code, in order.
    open spec fn view(&self) -> Seq<u8> {
        be_bytes(self.code())
    }
}

impl ChunkType {
    /// The code as one big-endian word.
    pub closed spec fn code(self) -> u32 {
        self.inner
    }

    /// The chunk type whose bytes are the first four of `bytes`.
    pub closed spec fn spec_from_bytes(bytes: Seq<u8>) -> ChunkType {
        ChunkType { inner: be_word(bytes) }
    }

    /// The chunk type that `text` names, where it is four ASCII letters.
    pub open spec fn spec_from_text(text: Seq<char>) -> ChunkType {
        ChunkType::spec_from_bytes(char_codes(text))
    }

    /// Whether the chunk is critical: bit 5 of the first byte is clear.
    pub open spec fn spec_is_critical(self) -> bool {
        !fifth_bit(self@[0])
    }

    /// Whether the chunk is public: bit 5 of the second byte is clear.
    pub open spec fn spec_is_public(self) -> bool {
        !fifth_bit(self@[1])
    }

    /// Whether the reserved bit, bit 5 of the third byte, is clear.
    pub open spec fn spec_is_reserved_bit_valid(self) -> bool {
        !fifth_bit(self@[2])
    }

    /// Whether the chunk is safe to copy: bit 5 of the fourth byte is set.
    pub open spec fn spec_is_safe_to_copy(self) -> bool {
        fifth_bit(self@[3])
    }

    /// Whether all four bytes are ASCII letters.
    pub open spec fn spec_is_alphabetic(self) -> bool {
        forall|i: int| 0 <= i < 4 ==> is_letter(#[trigger] self@[i])
    }

    /// Whether the code is valid: four ASCII letters, reserved bit clear.
    pub open spec fn spec_is_valid(self) -> bool {
        self.spec_is_alphabetic() && self.spec_is_reserved_bit_valid()
    }

    /// A chunk type is fixed by its four bytes.
    pub proof fn lemma_equal_by_bytes(self, other: ChunkType)
        ensures
            (self@ == other@) <==> (self == other),
    {
        if self@ == other@ {
            lemma_be_bytes_injective(self.inner, other.inner);
        }
    }

    /// Four bytes make the chunk type that has them as its bytes.
    pub proof fn lemma_from_bytes(bytes: Seq<u8>)
        requires
            bytes.len() == 4,
        ensures
            ChunkType::spec_from_bytes(bytes)@ == bytes,
    {
        lemma_bytes_of_word(bytes[0], bytes[1], bytes[2], bytes[3]);
        assert(seq![bytes[0], bytes[1], bytes[2], bytes[3]] =~= bytes);
    }

    /// A chunk type is the one that its own bytes make.
    pub proof fn lemma_from_own_bytes(self)
        ensures
            ChunkType::spec_from_bytes(self@) == self,
    {
        lemma_word_of_bytes(self.inner);
    }

    /// For a code of four ASCII letters, being valid, having the reserved
    /// bit clear, and having an upper-case third letter are one and the same.
    pub proof fn lemma_valid_iff_third_uppercase(self)
        requires
            self.spec_is_alphabetic(),
        ensures
            self.spec_is_valid() == self.spec_is_reserved_bit_valid(),
            self.spec_is_reserved_bit_valid() == is_uppercase(self@[2]),
    {
        let b = self@[2];
        assert(is_letter(b));
        assert(((65 <= b && b <= 90) || (97 <= b && b <= 122)) ==> ((b & 0x20 == 0) <==> (65 <= b
            && b <= 90))) by (bit_vector);
    }

    /// Makes the chunk type with the given four bytes. Any bytes will do.
    pub fn from_bytes(value: [u8; 4]) -> (chunk_type: ChunkType)
        ensures
            chunk_type@ == value@,
            chunk_type == ChunkType::spec_from_bytes(value@),
    {
        let inner = word_from_be(value[0], value[1], value[2], value[3]);
        proof {
            lemma_bytes_of_word(value[0], value[1], value[2], value[3]);
            assert(seq![value[0], value[1], value[2], value[3]] =~= value@);
        }
        ChunkType { inner }
    }

    /// Makes the chunk type that `text` names, if it is four ASCII letters.
    pub fn from_text(text: &str) -> (made: Result<ChunkType, PngError>)
        ensures
            match made {
                Ok(chunk_type) => is_type_text(text@) && chunk_type@ == char_codes(text@)
                    && chunk_type == ChunkType::spec_from_text(text@),
                Err(e) => !is_type_text(text@) && e == PngError::InvalidChunkTypeChars,
            },
    {
        broadcast use is_ascii_spec_bytes;

        if !text.is_ascii() {
            return Err(PngError::InvalidChunkTypeChars);
        }
        let codes = text.as_bytes();
        assert(codes@ =~= char_codes(text@));
        if codes.len() != 4 {
            return Err(PngError::InvalidChunkTypeChars);
        }
        let mut i: usize = 0;
        while i < 4
            invariant
                i <= 4,
                codes@.len() == 4,
                codes@ == char_codes(text@),
                is_ascii_chars(text@),
                forall|j: int| 0 <= j < i ==> is_letter_char(#[trigger] text@[j]),
            decreases 4 - i,
        {
            if !is_letter_byte(codes[i]) {
                assert(!is_letter_char(text@[i as int])) by {
                    lemma_letter_code(text@[i as int]);
                }
                return Err(PngError::InvalidChunkTypeChars);
            }
            proof {
                lemma_letter_code(text@[i as int]);
            }
            i = i + 1;
        }
        Ok(ChunkType::from_bytes([codes[0], codes[1], codes[2], codes[3]]))
    }

    /// The four bytes of the code, in order.
    pub fn bytes(&self) -> (bytes: [u8; 4])
        ensures
            bytes@ == self@,
    {
        word_to_be(self.inner)
    }

    /// Whether every byte of the code is an ASCII letter.
    pub fn is_alphabetic(&self) -> (ok: bool)
        ensures
            ok == self.spec_is_alphabetic(),
    {
        let bytes = self.bytes();
        is_letter_byte(bytes[0]) && is_letter_byte(bytes[1]) && is_letter_byte(bytes[2])
            && is_letter_byte(bytes[3])
    }

    /// Whether the code is valid: four ASCII letters, reserved bit clear.
    pub fn is_valid(&self) -> (ok: bool)
        ensures
            ok == self.spec_is_valid(),
    {
        self.is_alphabetic() && self.is_reserved_bit_valid()
    }

    /// Whether the chunk is critical: bit 5 of the first byte is clear.
    pub fn is_critical(&self) -> (ok: bool)
        ensures
            ok == self.spec_is_critical(),
    {
        fifth_bit_check(self.bytes()[0], false)
    }

    /// Whether the chunk is public: bit 5 of the second byte is clear.
    pub fn is_public(&self) -> (ok: bool)
        ensures
            ok == self.spec_is_public(),
    {
        fifth_bit_check(self.bytes()[1], false)
    }

    /// Whether the reserved bit, bit 5 of the third byte, is clear.
    pub fn is_reserved_bit_valid(&self) -> (ok: bool)
        ensures
            ok == self.spec_is_reserved_bit_valid(),
    {
        fifth_bit_check(self.bytes()[2], false)
    }

    /// Whether the chunk is safe to copy: bit 5 of the fourth byte is set.
    pub fn is_safe_to_copy(&self) -> (ok: bool)
        ensures
            ok == self.spec_is_safe_to_copy(),
    {
        fifth_bit_check(self.bytes()[3], true)
    }

    /// The code as text, if its four bytes are UTF-8.
    pub fn to_string(&self) -> (text: Result<String, PngError>)
        ensures
            match text {
                Ok(s) => valid_utf8(self@) && s@ == decode_utf8(self@),
                Err(e) => !valid_utf8(self@) && e == PngError::NotTextRepresentable,
            },
    {
        let bytes = self.bytes();
        match string_from_utf8(bytes.as_slice()) {
            Ok(s) => Ok(s),
            Err(_) => Err(PngError::NotTextRepresentable),
        }
    }
}

/// A character is an ASCII letter exactly if its code is one.
pub proof fn lemma_letter_code(c: char)
    requires
        '\0' <= c <= '\u{7f}',
    ensures
        is_letter_char(c) == is_letter(c as u8),
{
}

impl TryFrom<[u8; 4]> for ChunkType {
    type Error = ();

    /// Makes the chunk type with the given four bytes; this never fails.
    fn try_from(value: [u8; 4]) -> (made: Result<Self, Self::Error>)
        ensures
            made matches Ok(chunk_type) && chunk_type@ == value@,
    {
        Ok(ChunkType::from_bytes(value))
    }
}

impl TryFromSpecImpl<[u8; 4]> for ChunkType {
    open spec fn obeys_try_from_spec() -> bool {
        true
    }

    open spec fn try_from_spec(value: [u8; 4]) -> Result<Self, ()> {
        Ok(ChunkType::spec_from_bytes(value@))
    }
}

impl FromStr for ChunkType {
    type Err = PngError;

    /// Makes the chunk type that `text` names, if it is four ASCII letters.
    fn from_str(text: &str) -> (made: Result<Self, Self::Err>)
        ensures
            match made {
                Ok(chunk_type) => is_type_text(text@) && chunk_type@ == char_codes(text@)
                    && chunk_type == ChunkType::spec_from_text(text@),
                Err(e) => !is_type_text(text@) && e == PngError::InvalidChunkTypeChars,
            },
    {
        ChunkType::from_text(text)
    }
}

} // verus!
