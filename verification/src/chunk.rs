//! A chunk and its wire frame: a four-byte length, the type, the payload,
//! and the CRC-32 of type and payload, the two words big-endian.

use crate::buffer::{append, copy_range};
use crate::chunk_type::ChunkType;
use crate::crc::{crc32, feed_bytes, lemma_crc32_detects_byte_change, lemma_run_concat, PRESET};
use crate::endian::{
    be_bytes, be_word, lemma_bytes_of_word, lemma_word_of_bytes, push_word, read_word,
};
use crate::error::PngError;
use crate::text::{decimal, decimal_string, string_from_utf8};
use vstd::prelude::*;
use vstd::std_specs::convert::TryFromSpecImpl;
use vstd::string::*;
use vstd::utf8::*;

verus! {

/// The bytes of a frame around its payload: length, type and checksum.
pub const FRAME_OVERHEAD: usize = 12;

/// What a chunk is: its type and its payload.
pub struct ChunkView {
    pub chunk_type: ChunkType,
    pub data: Seq<u8>,
}

impl ChunkView {
    /// Whether the payload length fits the frame's length field.
    pub open spec fn wf(self) -> bool {
        self.data.len() <= u32::MAX
    }

    /// The bytes that the checksum covers: the type, then the payload.
    pub open spec fn checked_bytes(self) -> Seq<u8> {
        self.chunk_type@ + self.data
    }

    /// The checksum of the chunk.
    pub open spec fn crc(self) -> u32 {
        crc32(self.checked_bytes())
    }

    /// The wire frame of the chunk.
    #[verifier::opaque]
    pub open spec fn frame(self) -> Seq<u8> {
        be_bytes(self.data.len() as u32) + self.chunk_type@ + self.data + be_bytes(self.crc())
    }

    /// The number of bytes of the wire frame.
    pub open spec fn frame_len(self) -> int {
        12 + (self.data.len() as int)
    }

    /// What showing the chunk prints: its length, type, size and checksum,
    /// a line each.
    pub open spec fn display(self) -> Seq<char> {
        "Length: "@ + decimal(self.data.len()) + "\n"@ + "Type: "@ + decode_utf8(self.chunk_type@)
            + "\n"@ + "Data: "@ + decimal(self.data.len()) + " bytes\n"@ + "CRC: "@ + decimal(
            self.crc() as nat,
        ) + "\n"@
    }
}

/// The payload length that the frame at the start of `bytes` declares.
pub open spec fn declared_len(bytes: Seq<u8>) -> int {
    be_word(bytes) as int
}

/// The chunk that the frame at the start of `bytes` holds, checksum aside.
pub open spec fn framed_chunk(bytes: Seq<u8>) -> ChunkView {
    ChunkView {
        chunk_type: ChunkType::spec_from_bytes(bytes.subrange(4, 8)),
        data: bytes.subrange(8, 8 + declared_len(bytes)),
    }
}

/// The checksum that the frame at the start of `bytes` stores.
pub open spec fn stored_crc(bytes: Seq<u8>) -> u32 {
    be_word(bytes.subrange(8 + declared_len(bytes), 12 + declared_len(bytes)))
}

/// Reading one frame from the start of `bytes`: the chunk it holds, or why
/// there is none. Bytes after the frame are not looked at.
pub open spec fn parse_frame(bytes: Seq<u8>) -> Result<ChunkView, PngError> {
    if bytes.len() < 12 || bytes.len() - 12 < declared_len(bytes) {
        Err(PngError::TruncatedFrame)
    } else if stored_crc(bytes) != framed_chunk(bytes).crc() {
        Err(
            PngError::CrcMismatch {
                stored: stored_crc(bytes),
                computed: framed_chunk(bytes).crc(),
            },
        )
    } else {
        Ok(framed_chunk(bytes))
    }
}

/// Whether `got` is the chunk, or the failure, that `expected` describes.
pub open spec fn parsed_as(got: Result<Chunk, PngError>, expected: Result<ChunkView, PngError>) -> bool {
    match got {
        Ok(chunk) => expected == Ok::<ChunkView, PngError>(chunk@),
        Err(e) => expected == Err::<ChunkView, PngError>(e),
    }
}

/// Reading the frame of a chunk, whatever follows it, gives the chunk.
pub proof fn lemma_parse_frame_prefix(chunk: ChunkView, rest: Seq<u8>)
    requires
        chunk.wf(),
    ensures
        parse_frame(chunk.frame() + rest) == Ok::<ChunkView, PngError>(chunk),
        chunk.frame().len() == chunk.frame_len(),
{
    reveal(ChunkView::frame);
    let len = chunk.data.len() as u32;
    let frame = chunk.frame();
    let bytes = frame + rest;
    lemma_word_of_bytes(len);
    lemma_word_of_bytes(chunk.crc());
    chunk.chunk_type.lemma_from_own_bytes();
    assert(chunk.chunk_type@.len() == 4);
    assert(frame.len() == 12 + chunk.data.len());
    assert(be_word(bytes) == be_word(be_bytes(len)));
    assert(bytes.subrange(4, 8) =~= chunk.chunk_type@);
    assert(bytes.subrange(8, 8 + len) =~= chunk.data);
    assert(bytes.subrange(8 + len, 12 + len) =~= be_bytes(chunk.crc()));
    assert(framed_chunk(bytes) == chunk);
}

/// Serializing a chunk and reading the frame back gives the same type and
/// the same payload.
pub proof fn lemma_parse_frame_of(chunk: ChunkView)
    requires
        chunk.wf(),
    ensures
        parse_frame(chunk.frame()) == Ok::<ChunkView, PngError>(chunk),
{
    lemma_parse_frame_prefix(chunk, Seq::<u8>::empty());
    assert(chunk.frame() + Seq::<u8>::empty() =~= chunk.frame());
}

/// A frame that reads well is, byte for byte, the frame of the chunk read
/// from it.
pub proof fn lemma_frame_of_parsed(bytes: Seq<u8>)
    requires
        parse_frame(bytes) is Ok,
    ensures
        parse_frame(bytes).unwrap().wf(),
        parse_frame(bytes).unwrap().frame_len() <= bytes.len(),
        parse_frame(bytes).unwrap().frame() == bytes.subrange(
            0,
            parse_frame(bytes).unwrap().frame_len(),
        ),
{
    reveal(ChunkView::frame);
    let chunk = parse_frame(bytes).unwrap();
    let len = declared_len(bytes);
    assert(chunk == framed_chunk(bytes));
    assert(chunk.data.len() == len);
    lemma_bytes_of_word(bytes[0], bytes[1], bytes[2], bytes[3]);
    let stored = bytes.subrange(8 + len, 12 + len);
    lemma_bytes_of_word(stored[0], stored[1], stored[2], stored[3]);
    ChunkType::lemma_from_bytes(bytes.subrange(4, 8));
    assert(be_bytes(chunk.data.len() as u32) =~= bytes.subrange(0, 4));
    assert(be_bytes(chunk.crc()) =~= stored);
    assert(chunk.frame() =~= bytes.subrange(0, 12 + len));
}

/// `byte` with bit `bit` inverted.
pub open spec fn flip_bit(byte: u8, bit: u8) -> u8 {
    byte ^ (1u8 << bit)
}

/// A frame that differs from the frame of a chunk in one byte of its type
/// or payload, and nowhere else, fails its checksum.
pub proof fn lemma_byte_change_detected(chunk: ChunkView, i: int, byte: u8)
    requires
        chunk.wf(),
        4 <= i < 8 + chunk.data.len(),
        byte != chunk.frame()[i],
    ensures
        parse_frame(chunk.frame().update(i, byte)) matches Err(PngError::CrcMismatch { stored, computed })
            && stored == chunk.crc() && computed != stored,
{
    reveal(ChunkView::frame);
    let len = chunk.data.len() as u32;
    let frame = chunk.frame();
    let bytes = frame.update(i, byte);
    let covered = chunk.checked_bytes();
    lemma_word_of_bytes(len);
    lemma_word_of_bytes(chunk.crc());
    assert(chunk.chunk_type@.len() == 4);
    assert(frame.len() == 12 + chunk.data.len());
    assert(be_word(bytes) == be_word(be_bytes(len)));
    assert(bytes.subrange(8 + len, 12 + len) =~= be_bytes(chunk.crc()));
    assert(frame[i] == covered[i - 4]);
    let changed = covered.update(i - 4, byte);
    assert(bytes.subrange(4, 8) + bytes.subrange(8, 8 + len) =~= changed);
    ChunkType::lemma_from_bytes(bytes.subrange(4, 8));
    assert(framed_chunk(bytes).checked_bytes() == changed);
    lemma_crc32_detects_byte_change(covered, i - 4, byte);
}

/// Inverting any one bit of the type or payload of a frame, the stored
/// checksum left as it is, makes the frame fail its checksum.
pub proof fn lemma_bit_flip_detected(chunk: ChunkView, i: int, bit: u8)
    requires
        chunk.wf(),
        4 <= i < 8 + chunk.data.len(),
        bit < 8,
    ensures
        parse_frame(chunk.frame().update(i, flip_bit(chunk.frame()[i], bit))) matches Err(
            PngError::CrcMismatch { stored, computed },
        ) && stored == chunk.crc() && computed != stored,
{
    let byte = chunk.frame()[i];
    assert(byte ^ (1u8 << bit) != byte) by (bit_vector)
        requires
            bit < 8,
    ;
    lemma_byte_change_detected(chunk, i, flip_bit(byte, bit));
}

/// A chunk: a type and a payload of at most `u32::MAX` bytes.
#[derive(Debug)]
pub struct Chunk {
    ctype: ChunkType,
    cdata: Vec<u8>,
}

impl View for Chunk {
    type V = ChunkView;

    closed spec fn view(&self) -> ChunkView {
        ChunkView { chunk_type: self.ctype, data: self.cdata@ }
    }
}

impl Chunk {
    #[verifier::type_invariant]
    spec fn fits(&self) -> bool {
        self.cdata@.len() <= u32::MAX
    }

    /// Makes a chunk of the given type and payload.
    pub fn new(ctype: ChunkType, cdata: Vec<u8>) -> (chunk: Chunk)
        requires
            cdata@.len() <= u32::MAX,
        ensures
            chunk@ == (ChunkView { chunk_type: ctype, data: cdata@ }),
            chunk@.wf(),
    {
        Chunk { ctype, cdata }
    }

    /// The number of payload bytes.
    pub fn length(&self) -> (len: u32)
        ensures
            len == self@.data.len(),
            self@.wf(),
    {
        proof {
            use_type_invariant(self);
        }
        self.cdata.len() as u32
    }

    /// The type of the chunk.
    pub fn chunk_type(&self) -> (ctype: &ChunkType)
        ensures
            *ctype == self@.chunk_type,
    {
        &self.ctype
    }

    /// The payload.
    pub fn data(&self) -> (data: &[u8])
        ensures
            data@ == self@.data,
    {
        self.cdata.as_slice()
    }

    /// The CRC-32 of the type bytes followed by the payload.
    pub fn crc(&self) -> (crc: u32)
        ensures
            crc == self@.crc(),
    {
        let type_bytes = self.ctype.bytes();
        let reg = feed_bytes(PRESET, type_bytes.as_slice());
        let reg = feed_bytes(reg, self.cdata.as_slice());
        proof {
            lemma_run_concat(PRESET, self.ctype@, self.cdata@);
        }
        reg ^ 0xFFFF_FFFF
    }

    /// The payload as text, if it is UTF-8.
    pub fn data_as_string(&self) -> (text: Result<String, PngError>)
        ensures
            match text {
                Ok(s) => valid_utf8(self@.data) && s@ == decode_utf8(self@.data),
                Err(e) => !valid_utf8(self@.data) && e == PngError::Utf8DecodeError,
            },
    {
        match string_from_utf8(self.cdata.as_slice()) {
            Ok(s) => Ok(s),
            Err(_) => Err(PngError::Utf8DecodeError),
        }
    }

    /// The wire frame of the chunk, length and checksum computed afresh.
    pub fn as_bytes(&self) -> (frame: Vec<u8>)
        ensures
            frame@ == self@.frame(),
            self@.wf(),
            parse_frame(frame@) == Ok::<ChunkView, PngError>(self@),
    {
        proof {
            reveal(ChunkView::frame);
            use_type_invariant(self);
            lemma_parse_frame_of(self@);
        }
        let mut frame: Vec<u8> = Vec::new();
        let type_bytes = self.ctype.bytes();
        push_word(&mut frame, self.length());
        append(&mut frame, type_bytes.as_slice());
        append(&mut frame, self.cdata.as_slice());
        push_word(&mut frame, self.crc());
        assert(frame@ =~= self@.frame());
        frame
    }

    /// Reads the frame that starts at index `pos` of `bytes`.
    pub fn parse_at(bytes: &[u8], pos: usize) -> (parsed: Result<Chunk, PngError>)
        requires
            pos <= bytes@.len(),
        ensures
            parsed_as(parsed, parse_frame(bytes@.skip(pos as int))),
    {
        let ghost rest = bytes@.skip(pos as int);
        let left = bytes.len() - pos;
        if left < FRAME_OVERHEAD {
            return Err(PngError::TruncatedFrame);
        }
        let len = read_word(bytes, pos);
        assert(bytes@.subrange(pos as int, pos + 4) =~= rest.subrange(0, 4));
        assert(len == declared_len(rest));
        if left - FRAME_OVERHEAD < len as usize {
            return Err(PngError::TruncatedFrame);
        }
        let body = pos + 8;
        let end = body + len as usize;
        let ctype = ChunkType::from_bytes(
            [bytes[pos + 4], bytes[pos + 5], bytes[pos + 6], bytes[pos + 7]],
        );
        assert(rest.subrange(4, 8) =~= seq![
            bytes@[pos + 4],
            bytes@[pos + 5],
            bytes@[pos + 6],
            bytes@[pos + 7],
        ]);
        let cdata = copy_range(bytes, body, end);
        assert(cdata@ =~= rest.subrange(8, 8 + len));
        let stored = read_word(bytes, end);
        assert(bytes@.subrange(end as int, end + 4) =~= rest.subrange(8 + len, 12 + len));
        let chunk = Chunk { ctype, cdata };
        assert(chunk@ == framed_chunk(rest));
        let computed = chunk.crc();
        if stored != computed {
            return Err(PngError::CrcMismatch { stored, computed });
        }
        Ok(chunk)
    }

    /// Reads the frame at the start of `value`. The frame of the chunk read
    /// is that start of `value`, byte for byte.
    pub fn parse(value: &[u8]) -> (parsed: Result<Chunk, PngError>)
        ensures
            parsed_as(parsed, parse_frame(value@)),
            parsed matches Ok(chunk) ==> chunk@.frame() == value@.subrange(0, chunk@.frame_len()),
    {
        assert(value@.skip(0) =~= value@);
        proof {
            if parse_frame(value@) is Ok {
                lemma_frame_of_parsed(value@);
            }
        }
        Chunk::parse_at(value, 0)
    }

    /// The chunk as shown to a person, if its type is text.
    pub fn to_string(&self) -> (text: Result<String, PngError>)
        ensures
            match text {
                Ok(s) => valid_utf8(self@.chunk_type@) && s@ == self@.display(),
                Err(e) => !valid_utf8(self@.chunk_type@) && e == PngError::NotTextRepresentable,
            },
    {
        let type_text = match self.ctype.to_string() {
            Ok(s) => s,
            Err(e) => {
                return Err(e);
            },
        };
        let length = decimal_string(self.length());
        let crc = decimal_string(self.crc());
        let mut text = String::new();
        text.append("Length: ");
        text.append(length.as_str());
        text.append("\n");
        text.append("Type: ");
        text.append(type_text.as_str());
        text.append("\n");
        text.append("Data: ");
        text.append(length.as_str());
        text.append(" bytes\n");
        text.append("CRC: ");
        text.append(crc.as_str());
        text.append("\n");
        assert(text@ =~= self@.display());
        Ok(text)
    }
}

impl<'a> TryFrom<&'a [u8]> for Chunk {
    type Error = PngError;

    /// Reads the frame at the start of `value`.
    fn try_from(value: &'a [u8]) -> (parsed: Result<Self, Self::Error>)
        ensures
            parsed_as(parsed, parse_frame(value@)),
            parsed matches Ok(chunk) ==> chunk@.frame() == value@.subrange(0, chunk@.frame_len()),
    {
        Chunk::parse(value)
    }
}

/// A chunk is not fixed by its view, so no spec function can name the one
/// that `try_from` makes: what it returns is stated on `try_from` itself.
impl<'a> TryFromSpecImpl<&'a [u8]> for Chunk {
    open spec fn obeys_try_from_spec() -> bool {
        false
    }

    open spec fn try_from_spec(value: &'a [u8]) -> Result<Self, PngError> {
        arbitrary()
    }
}

} // verus!
