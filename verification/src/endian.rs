//! Big-endian encoding of 32-bit words, as the frame fields use it.

use vstd::prelude::*;

verus! {

/// The word whose big-endian bytes are `b0`, `b1`, `b2`, `b3`.
pub open spec fn word_of(b0: u8, b1: u8, b2: u8, b3: u8) -> u32 {
    ((b0 as u32) << 24) | ((b1 as u32) << 16) | ((b2 as u32) << 8) | (b3 as u32)
}

/// Byte `i` of `word`, counted from the most significant one.
pub open spec fn byte_of(word: u32, i: int) -> u8 {
    if i == 0 {
        (word >> 24) as u8
    } else if i == 1 {
        ((word >> 16) & 0xff) as u8
    } else if i == 2 {
        ((word >> 8) & 0xff) as u8
    } else {
        (word & 0xff) as u8
    }
}

/// The four big-endian bytes of `word`.
pub open spec fn be_bytes(word: u32) -> Seq<u8> {
    seq![byte_of(word, 0), byte_of(word, 1), byte_of(word, 2), byte_of(word, 3)]
}

/// The word that the first four bytes of `bytes` encode, big-endian.
pub open spec fn be_word(bytes: Seq<u8>) -> u32
    recommends
        bytes.len() >= 4,
{
    word_of(bytes[0], bytes[1], bytes[2], bytes[3])
}

/// Decoding the encoding of a word gives the word back.
pub proof fn lemma_word_of_bytes(word: u32)
    ensures
        be_bytes(word).len() == 4,
        be_word(be_bytes(word)) == word,
{
    let b0 = byte_of(word, 0);
    let b1 = byte_of(word, 1);
    let b2 = byte_of(word, 2);
    let b3 = byte_of(word, 3);
    assert(((((word >> 24) as u8) as u32) << 24) | (((((word >> 16) & 0xff) as u8) as u32) << 16)
        | (((((word >> 8) & 0xff) as u8) as u32) << 8) | (((word & 0xff) as u8) as u32) == word)
        by (bit_vector);
}

/// Encoding the word that four bytes decode to gives the four bytes back.
pub proof fn lemma_bytes_of_word(b0: u8, b1: u8, b2: u8, b3: u8)
    ensures
        be_bytes(word_of(b0, b1, b2, b3)) == seq![b0, b1, b2, b3],
{
    let w = word_of(b0, b1, b2, b3);
    assert((w >> 24) as u8 == b0 && ((w >> 16) & 0xff) as u8 == b1 && ((w >> 8) & 0xff) as u8 == b2
        && (w & 0xff) as u8 == b3) by (bit_vector)
        requires
            w == ((b0 as u32) << 24) | ((b1 as u32) << 16) | ((b2 as u32) << 8) | (b3 as u32),
    ;
    assert(be_bytes(w) =~= seq![b0, b1, b2, b3]);
}

/// Two words with the same encoding are the same word.
pub proof fn lemma_be_bytes_injective(a: u32, b: u32)
    requires
        be_bytes(a) == be_bytes(b),
    ensures
        a == b,
{
    lemma_word_of_bytes(a);
    lemma_word_of_bytes(b);
}

/// Computes the word that four big-endian bytes encode.
pub fn word_from_be(b0: u8, b1: u8, b2: u8, b3: u8) -> (word: u32)
    ensures
        word == word_of(b0, b1, b2, b3),
{
    ((b0 as u32) << 24) | ((b1 as u32) << 16) | ((b2 as u32) << 8) | (b3 as u32)
}

/// Reads the big-endian word that starts at `pos` in `bytes`.
pub fn read_word(bytes: &[u8], pos: usize) -> (word: u32)
    requires
        pos + 4 <= bytes@.len(),
    ensures
        word == be_word(bytes@.subrange(pos as int, pos + 4)),
{
    word_from_be(bytes[pos], bytes[pos + 1], bytes[pos + 2], bytes[pos + 3])
}

/// Computes the four big-endian bytes of `word`.
pub fn word_to_be(word: u32) -> (bytes: [u8; 4])
    ensures
        bytes@ == be_bytes(word),
{
    let bytes: [u8; 4] = [
        (word >> 24) as u8,
        ((word >> 16) & 0xff) as u8,
        ((word >> 8) & 0xff) as u8,
        (word & 0xff) as u8,
    ];
    assert(bytes@ =~= be_bytes(word));
    bytes
}

/// Appends the four big-endian bytes of `word` to `out`.
pub fn push_word(out: &mut Vec<u8>, word: u32)
    ensures
        final(out)@ == old(out)@ + be_bytes(word),
{
    let bytes = word_to_be(word);
    out.push(bytes[0]);
    out.push(bytes[1]);
    out.push(bytes[2]);
    out.push(bytes[3]);
    assert(out@ =~= old(out)@ + be_bytes(word));
}

} // verus!
