//! The whole file: the signature, then chunk frames back to back.

use crate::buffer::append;
use crate::chunk::{
    lemma_frame_of_parsed, lemma_parse_frame_prefix, parse_frame, Chunk, ChunkView,
};
use crate::chunk_type::{char_codes, is_type_text, ChunkType};
use crate::error::PngError;
use vstd::prelude::*;
use vstd::std_specs::convert::TryFromSpecImpl;

verus! {

/// The number of signature bytes.
pub const HEADER_LEN: usize = 8;

/// The eight bytes that every file starts with.
pub open spec fn signature() -> Seq<u8> {
    seq![137u8, 80u8, 78u8, 71u8, 13u8, 10u8, 26u8, 10u8]
}

/// What each of `chunks` is.
pub open spec fn views(chunks: Seq<Chunk>) -> Seq<ChunkView> {
    chunks.map_values(|chunk: Chunk| chunk@)
}

/// Whether every one of `chunks` has a payload that fits its length field.
pub open spec fn all_wf(chunks: Seq<ChunkView>) -> bool {
    forall|i: int| 0 <= i < chunks.len() ==> (#[trigger] chunks[i]).wf()
}

/// The frames of `chunks`, back to back, in order.
pub open spec fn frames(chunks: Seq<ChunkView>) -> Seq<u8>
    decreases chunks.len(),
{
    if chunks.len() == 0 {
        Seq::empty()
    } else {
        chunks[0].frame() + frames(chunks.drop_first())
    }
}

/// The file that holds `chunks`: the signature, then their frames.
pub open spec fn file_of(chunks: Seq<ChunkView>) -> Seq<u8> {
    signature() + frames(chunks)
}

/// Reading frames from `bytes` until none are left: the chunks in order, or
/// the failure of the first frame that cannot be read.
pub open spec fn parse_frames(bytes: Seq<u8>) -> Result<Seq<ChunkView>, PngError>
    decreases bytes.len(),
{
    if bytes.len() == 0 {
        Ok(Seq::empty())
    } else {
        match parse_frame(bytes) {
            Err(e) => Err(e),
            Ok(first) => match parse_frames(bytes.skip(first.frame_len())) {
                Err(e) => Err(e),
                Ok(others) => Ok(seq![first] + others),
            },
        }
    }
}

/// Reading a whole file: the chunks in order, or why it is no such file.
pub open spec fn parse_file(bytes: Seq<u8>) -> Result<Seq<ChunkView>, PngError> {
    if bytes.len() < 8 || bytes.subrange(0, 8) != signature() {
        Err(PngError::InvalidSignature)
    } else {
        parse_frames(bytes.skip(8))
    }
}

/// The outcome of reading on after `done` has been read.
pub open spec fn after(done: Seq<ChunkView>, rest: Result<Seq<ChunkView>, PngError>) -> Result<
    Seq<ChunkView>,
    PngError,
> {
    match rest {
        Ok(others) => Ok(done + others),
        Err(e) => Err(e),
    }
}

/// Whether `i` is the place of the first of `chunks` whose type has the
/// bytes `wanted`.
pub open spec fn is_first_of_type(chunks: Seq<ChunkView>, wanted: Seq<u8>, i: int) -> bool {
    &&& 0 <= i < chunks.len()
    &&& chunks[i].chunk_type@ == wanted
    &&& forall|j: int| 0 <= j < i ==> (#[trigger] chunks[j]).chunk_type@ != wanted
}

/// Whether none of `chunks` has a type with the bytes `wanted`.
pub open spec fn has_none_of_type(chunks: Seq<ChunkView>, wanted: Seq<u8>) -> bool {
    forall|j: int| 0 <= j < chunks.len() ==> (#[trigger] chunks[j]).chunk_type@ != wanted
}

/// The place of the first of `chunks` whose type has the bytes `wanted`.
pub open spec fn first_of_type(chunks: Seq<ChunkView>, wanted: Seq<u8>) -> Option<int> {
    if has_none_of_type(chunks, wanted) {
        None
    } else {
        Some(choose|i: int| is_first_of_type(chunks, wanted, i))
    }
}

/// There is one first place at most.
pub proof fn lemma_first_of_type(chunks: Seq<ChunkView>, wanted: Seq<u8>, i: int)
    requires
        is_first_of_type(chunks, wanted, i),
    ensures
        first_of_type(chunks, wanted) == Some(i),
{
    assert(chunks[i].chunk_type@ == wanted);
    let k = choose|k: int| is_first_of_type(chunks, wanted, k);
    assert(is_first_of_type(chunks, wanted, k));
    if k < i {
        assert(chunks[k].chunk_type@ != wanted);
    }
    if i < k {
        assert(chunks[i].chunk_type@ != wanted);
    }
}

/// The frames of a sequence with one more chunk are the frames of the
/// sequence, then the frame of that chunk.
pub proof fn lemma_frames_push(chunks: Seq<ChunkView>, last: ChunkView)
    ensures
        frames(chunks.push(last)) == frames(chunks) + last.frame(),
    decreases chunks.len(),
{
    let longer = chunks.push(last);
    if chunks.len() == 0 {
        assert(longer.drop_first() =~= Seq::<ChunkView>::empty());
        assert(frames(longer.drop_first()) =~= Seq::<u8>::empty());
        assert(frames(longer) =~= last.frame());
        assert(frames(chunks) + last.frame() =~= last.frame());
    } else {
        assert(longer.drop_first() =~= chunks.drop_first().push(last));
        lemma_frames_push(chunks.drop_first(), last);
        assert(frames(longer) =~= frames(chunks) + last.frame());
    }
}

/// Reading the frames of chunks back gives the chunks, in their order.
pub proof fn lemma_parse_frames_of(chunks: Seq<ChunkView>)
    requires
        all_wf(chunks),
    ensures
        parse_frames(frames(chunks)) == Ok::<Seq<ChunkView>, PngError>(chunks),
    decreases chunks.len(),
{
    if chunks.len() > 0 {
        let first = chunks[0];
        let others = chunks.drop_first();
        let bytes = frames(chunks);
        assert(first.wf());
        assert(all_wf(others)) by {
            assert forall|i: int| 0 <= i < others.len() implies (#[trigger] others[i]).wf() by {
                assert(chunks[i + 1].wf());
            }
        }
        lemma_parse_frame_prefix(first, frames(others));
        lemma_parse_frames_of(others);
        assert(bytes == first.frame() + frames(others));
        assert(bytes.len() > 0);
        assert(parse_frame(bytes) == Ok::<ChunkView, PngError>(first));
        assert(bytes.skip(first.frame_len()) =~= frames(others));
        assert(seq![first] + others =~= chunks);
    } else {
        assert(chunks =~= Seq::<ChunkView>::empty());
    }
}

/// Serializing a container and reading the file back gives the same chunks
/// in the same order.
pub proof fn lemma_parse_file_of(chunks: Seq<ChunkView>)
    requires
        all_wf(chunks),
    ensures
        parse_file(file_of(chunks)) == Ok::<Seq<ChunkView>, PngError>(chunks),
{
    let bytes = file_of(chunks);
    lemma_parse_frames_of(chunks);
    assert(bytes.subrange(0, 8) =~= signature());
    assert(bytes.skip(8) =~= frames(chunks));
}

/// Frames that read well to the last byte are, byte for byte, the frames of
/// the chunks read from them.
pub proof fn lemma_frames_of_parsed(bytes: Seq<u8>)
    requires
        parse_frames(bytes) is Ok,
    ensures
        all_wf(parse_frames(bytes).unwrap()),
        frames(parse_frames(bytes).unwrap()) == bytes,
    decreases bytes.len(),
{
    let chunks = parse_frames(bytes).unwrap();
    if bytes.len() == 0 {
        assert(frames(chunks) =~= bytes);
    } else {
        let first = parse_frame(bytes).unwrap();
        let rest = bytes.skip(first.frame_len());
        let others = parse_frames(rest).unwrap();
        lemma_frame_of_parsed(bytes);
        lemma_frames_of_parsed(rest);
        assert(chunks == seq![first] + others);
        assert(chunks.drop_first() =~= others);
        assert(frames(chunks) == first.frame() + frames(others));
        assert(bytes.subrange(0, first.frame_len()) + rest =~= bytes);
        assert forall|i: int| 0 <= i < chunks.len() implies (#[trigger] chunks[i]).wf() by {
            if i > 0 {
                assert(others[i - 1].wf());
            }
        }
    }
}

/// A file that reads well is, byte for byte, the file of the chunks read
/// from it: no byte is left out of account.
pub proof fn lemma_file_of_parsed(bytes: Seq<u8>)
    requires
        parse_file(bytes) is Ok,
    ensures
        all_wf(parse_file(bytes).unwrap()),
        file_of(parse_file(bytes).unwrap()) == bytes,
{
    lemma_frames_of_parsed(bytes.skip(8));
    assert(bytes.subrange(0, 8) + bytes.skip(8) =~= bytes);
}

/// Reading on is the same whether the chunks read so far are put in front
/// all at once or one after the other.
pub proof fn lemma_after_push(done: Seq<ChunkView>, next: ChunkView, rest: Result<Seq<ChunkView>, PngError>)
    ensures
        after(done, after(seq![next], rest)) == after(done.push(next), rest),
{
    if let Ok(others) = rest {
        assert(done + (seq![next] + others) =~= done.push(next) + others);
    }
}

/// A container: the chunks of a file, in their order.
#[derive(Debug)]
pub struct Png {
    chunks: Vec<Chunk>,
}

impl View for Png {
    type V = Seq<ChunkView>;

    closed spec fn view(&self) -> Seq<ChunkView> {
        views(self.chunks@)
    }
}

impl Png {
    /// The eight bytes that every file starts with.
    pub const STANDARD_HEADER: [u8; 8] = [137, 80, 78, 71, 13, 10, 26, 10];

    /// A container without chunks.
    pub fn new() -> (png: Png)
        ensures
            png@ == Seq::<ChunkView>::empty(),
    {
        let png = Png { chunks: Vec::new() };
        assert(png@ =~= Seq::<ChunkView>::empty());
        png
    }

    /// Whether `bytes` starts with the signature.
    pub fn has_header(bytes: &[u8]) -> (ok: bool)
        ensures
            ok == (bytes@.len() >= 8 && bytes@.subrange(0, 8) == signature()),
    {
        if bytes.len() < HEADER_LEN {
            return false;
        }
        let header = Png::STANDARD_HEADER;
        let mut i: usize = 0;
        while i < HEADER_LEN
            invariant
                i <= 8 <= bytes@.len(),
                header@ == signature(),
                forall|j: int| 0 <= j < i ==> bytes@[j] == signature()[j],
            decreases 8 - i,
        {
            if bytes[i] != header[i] {
                assert(bytes@.subrange(0, 8)[i as int] != signature()[i as int]);
                return false;
            }
            i = i + 1;
        }
        assert(bytes@.subrange(0, 8) =~= signature());
        true
    }

    /// Reads a whole file. Either every byte after the signature belongs to
    /// a frame that reads well, or there is no container.
    pub fn parse(bytes: &[u8]) -> (parsed: Result<Png, PngError>)
        ensures
            match parsed {
                Ok(png) => parse_file(bytes@) == Ok::<Seq<ChunkView>, PngError>(png@) && file_of(
                    png@,
                ) == bytes@,
                Err(e) => parse_file(bytes@) == Err::<Seq<ChunkView>, PngError>(e),
            },
    {
        if !Png::has_header(bytes) {
            return Err(PngError::InvalidSignature);
        }
        let mut chunks: Vec<Chunk> = Vec::new();
        let mut pos: usize = HEADER_LEN;
        assert(after(views(chunks@), parse_frames(bytes@.skip(8))) == parse_frames(
            bytes@.skip(8),
        )) by {
            if let Ok(all) = parse_frames(bytes@.skip(8)) {
                assert(views(chunks@) + all =~= all);
            }
        }
        while pos < bytes.len()
            invariant
                8 <= pos <= bytes@.len(),
                parse_file(bytes@) == after(views(chunks@), parse_frames(bytes@.skip(pos as int))),
            decreases bytes@.len() - pos,
        {
            let ghost rest = bytes@.skip(pos as int);
            let ghost done = views(chunks@);
            match Chunk::parse_at(bytes, pos) {
                Err(e) => {
                    return Err(e);
                },
                Ok(chunk) => {
                    let len = chunk.length();
                    proof {
                        lemma_after_push(
                            done,
                            chunk@,
                            parse_frames(rest.skip(chunk@.frame_len())),
                        );
                        assert(rest.skip(12 + len) =~= bytes@.skip(pos + 12 + len));
                    }
                    pos = pos + 12 + len as usize;
                    chunks.push(chunk);
                    assert(views(chunks@) =~= done.push(chunk@));
                },
            }
        }
        assert(views(chunks@) + Seq::<ChunkView>::empty() =~= views(chunks@));
        proof {
            lemma_file_of_parsed(bytes@);
        }
        Ok(Png { chunks })
    }

    /// The chunks, in their order.
    pub fn chunks(&self) -> (chunks: &[Chunk])
        ensures
            views(chunks@) == self@,
    {
        self.chunks.as_slice()
    }

    /// Puts `chunk` after the chunks that are there.
    pub fn append_chunk(&mut self, chunk: Chunk)
        ensures
            final(self)@ == old(self)@.push(chunk@),
    {
        self.chunks.push(chunk);
        assert(views(self.chunks@) =~= views(old(self).chunks@).push(chunk@));
    }

    /// The place of the first chunk of type `wanted`, if there is one.
    pub fn position(&self, wanted: &ChunkType) -> (place: Option<usize>)
        ensures
            match place {
                Some(i) => is_first_of_type(self@, wanted@, i as int),
                None => has_none_of_type(self@, wanted@),
            },
    {
        let mut i: usize = 0;
        while i < self.chunks.len()
            invariant
                i <= self.chunks@.len(),
                forall|j: int| 0 <= j < i ==> (#[trigger] self@[j]).chunk_type@ != wanted@,
            decreases self.chunks@.len() - i,
        {
            proof {
                self@[i as int].chunk_type.lemma_equal_by_bytes(*wanted);
            }
            if *self.chunks[i].chunk_type() == *wanted {
                return Some(i);
            }
            i = i + 1;
        }
        None
    }

    /// Takes out the first chunk of the type that `chunk_type` names and
    /// returns it; the others keep their order. Where the text names no
    /// type, or no chunk has the type, the container stays as it is.
    pub fn remove_chunk(&mut self, chunk_type: &str) -> (removed: Result<Chunk, PngError>)
        ensures
            match removed {
                Ok(chunk) => is_type_text(chunk_type@) && exists|i: int|
                    is_first_of_type(old(self)@, char_codes(chunk_type@), i) && chunk@ == old(
                        self,
                    )@[i] && final(self)@ == old(self)@.remove(i),
                Err(e) => final(self)@ == old(self)@ && if is_type_text(chunk_type@) {
                    e == PngError::ChunkNotFound && has_none_of_type(
                        old(self)@,
                        char_codes(chunk_type@),
                    )
                } else {
                    e == PngError::InvalidChunkTypeChars
                },
            },
    {
        let wanted = match ChunkType::from_text(chunk_type) {
            Ok(wanted) => wanted,
            Err(e) => {
                return Err(e);
            },
        };
        match self.position(&wanted) {
            Some(i) => {
                let chunk = self.chunks.remove(i);
                assert(views(self.chunks@) =~= views(old(self).chunks@).remove(i as int));
                Ok(chunk)
            },
            None => Err(PngError::ChunkNotFound),
        }
    }

    /// The file: the signature, then the frame of every chunk, in order.
    pub fn as_bytes(&self) -> (file: Vec<u8>)
        ensures
            file@ == file_of(self@),
            all_wf(self@),
            parse_file(file@) == Ok::<Seq<ChunkView>, PngError>(self@),
    {
        let mut file: Vec<u8> = Vec::new();
        let header = Png::STANDARD_HEADER;
        append(&mut file, header.as_slice());
        assert(file@ =~= signature() + frames(self@.subrange(0, 0)));
        let mut i: usize = 0;
        while i < self.chunks.len()
            invariant
                i <= self.chunks@.len(),
                file@ == signature() + frames(self@.subrange(0, i as int)),
                forall|j: int| 0 <= j < i ==> (#[trigger] self@[j]).wf(),
            decreases self.chunks@.len() - i,
        {
            let frame = self.chunks[i].as_bytes();
            proof {
                lemma_frames_push(self@.subrange(0, i as int), self@[i as int]);
                assert(self@.subrange(0, i as int).push(self@[i as int]) =~= self@.subrange(
                    0,
                    i + 1,
                ));
            }
            append(&mut file, frame.as_slice());
            assert(file@ =~= signature() + frames(self@.subrange(0, i + 1)));
            i = i + 1;
        }
        assert(self@.subrange(0, i as int) =~= self@);
        proof {
            lemma_parse_file_of(self@);
        }
        file
    }
}

impl<'a> TryFrom<&'a [u8]> for Png {
    type Error = PngError;

    /// Reads a whole file.
    fn try_from(bytes: &'a [u8]) -> (parsed: Result<Self, Self::Error>)
        ensures
            match parsed {
                Ok(png) => parse_file(bytes@) == Ok::<Seq<ChunkView>, PngError>(png@) && file_of(
                    png@,
                ) == bytes@,
                Err(e) => parse_file(bytes@) == Err::<Seq<ChunkView>, PngError>(e),
            },
    {
        Png::parse(bytes)
    }
}

/// A container is not fixed by its view, so no spec function can name the
/// one that `try_from` makes: what it returns is stated on `try_from` itself.
impl<'a> TryFromSpecImpl<&'a [u8]> for Png {
    open spec fn obeys_try_from_spec() -> bool {
        false
    }

    open spec fn try_from_spec(bytes: &'a [u8]) -> Result<Self, PngError> {
        arbitrary()
    }
}

} // verus!
