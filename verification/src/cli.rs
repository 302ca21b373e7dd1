//! The four commands, from the bytes of the file to what is written or
//! shown. Reading the file and writing the result is the caller's part.

use crate::args::{Cli, DecodeArgs, EncodeArgs, PrintArgs, RemoveArgs, Subcommand};
use crate::buffer::copy_range;
use crate::chunk::{Chunk, ChunkView};
use crate::chunk_type::{char_codes, is_type_text, ChunkType};
use crate::error::PngError;
use crate::png::{file_of, first_of_type, is_first_of_type, lemma_first_of_type, parse_file, Png};
use vstd::prelude::*;
use vstd::string::*;
use vstd::utf8::*;

verus! {

/// What `encode` makes of a file: the file with one more chunk at its end,
/// of the type that `chunk_type` names, holding `message` as UTF-8.
pub open spec fn encoded(chunk_type: Seq<char>, message: Seq<char>, file: Seq<u8>) -> Result<
    Seq<u8>,
    PngError,
> {
    match parse_file(file) {
        Err(e) => Err(e),
        Ok(chunks) => if is_type_text(chunk_type) {
            Ok(
                file_of(
                    chunks.push(
                        ChunkView {
                            chunk_type: ChunkType::spec_from_text(chunk_type),
                            data: encode_utf8(message),
                        },
                    ),
                ),
            )
        } else {
            Err(PngError::InvalidChunkTypeChars)
        },
    }
}

/// What `decode` finds in a file: the payload, as text, of the first chunk
/// whose type bytes are `chunk_type` in UTF-8.
pub open spec fn decoded(chunk_type: Seq<char>, file: Seq<u8>) -> Result<Seq<char>, PngError> {
    match parse_file(file) {
        Err(e) => Err(e),
        Ok(chunks) => match first_of_type(chunks, encode_utf8(chunk_type)) {
            None => Err(PngError::ChunkNotFound),
            Some(i) => if valid_utf8(chunks[i].data) {
                Ok(decode_utf8(chunks[i].data))
            } else {
                Err(PngError::Utf8DecodeError)
            },
        },
    }
}

/// What `remove` takes out of a file: the first chunk of the type that
/// `chunk_type` names.
pub open spec fn removed(chunk_type: Seq<char>, file: Seq<u8>) -> Result<ChunkView, PngError> {
    match parse_file(file) {
        Err(e) => Err(e),
        Ok(chunks) => if !is_type_text(chunk_type) {
            Err(PngError::InvalidChunkTypeChars)
        } else {
            match first_of_type(chunks, char_codes(chunk_type)) {
                None => Err(PngError::ChunkNotFound),
                Some(i) => Ok(chunks[i]),
            }
        },
    }
}

/// Whether the type of every one of `chunks` is text.
pub open spec fn all_types_text(chunks: Seq<ChunkView>) -> bool {
    forall|i: int| 0 <= i < chunks.len() ==> valid_utf8((#[trigger] chunks[i]).chunk_type@)
}

/// What `print` shows of a file: every chunk, in order.
pub open spec fn printed(file: Seq<u8>) -> Result<Seq<Seq<char>>, PngError> {
    match parse_file(file) {
        Err(e) => Err(e),
        Ok(chunks) => if all_types_text(chunks) {
            Ok(chunks.map_values(|chunk: ChunkView| chunk.display()))
        } else {
            Err(PngError::NotTextRepresentable)
        },
    }
}

/// The texts of `lines`.
pub open spec fn texts(lines: Seq<String>) -> Seq<Seq<char>> {
    lines.map_values(|line: String| line@)
}

/// Adds the message to the file as one more chunk, and returns the file to
/// write where an output path was given.
pub fn encode(args: &EncodeArgs, png_bytes: &[u8]) -> (out: Result<Vec<u8>, PngError>)
    requires
        encode_utf8(args.message@).len() <= u32::MAX,
    ensures
        match out {
            Ok(file) => encoded(args.chunk_type@, args.message@, png_bytes@) == Ok::<
                Seq<u8>,
                PngError,
            >(file@),
            Err(e) => encoded(args.chunk_type@, args.message@, png_bytes@) == Err::<
                Seq<u8>,
                PngError,
            >(e),
        },
{
    let mut png = match Png::parse(png_bytes) {
        Ok(png) => png,
        Err(e) => {
            return Err(e);
        },
    };
    let chunk_type = match ChunkType::from_text(args.chunk_type.as_str()) {
        Ok(chunk_type) => chunk_type,
        Err(e) => {
            return Err(e);
        },
    };
    let message = args.message.as_str().as_bytes();
    let chunk = Chunk::new(chunk_type, copy_range(message, 0, message.len()));
    assert(message@.subrange(0, message@.len() as int) =~= message@);
    png.append_chunk(chunk);
    Ok(png.as_bytes())
}

/// Searches the file for the first chunk of the given type and returns its
/// payload as text.
pub fn decode(args: &DecodeArgs, png_bytes: &[u8]) -> (out: Result<String, PngError>)
    ensures
        match out {
            Ok(message) => decoded(args.chunk_type@, png_bytes@) == Ok::<Seq<char>, PngError>(
                message@,
            ),
            Err(e) => decoded(args.chunk_type@, png_bytes@) == Err::<Seq<char>, PngError>(e),
        },
{
    let png = match Png::parse(png_bytes) {
        Ok(png) => png,
        Err(e) => {
            return Err(e);
        },
    };
    let wanted = args.chunk_type.as_str().as_bytes();
    if wanted.len() != 4 {
        assert(first_of_type(png@, wanted@) is None) by {
            assert forall|j: int| 0 <= j < png@.len() implies (#[trigger] png@[j]).chunk_type@
                != wanted@ by {
                assert(png@[j].chunk_type@.len() == 4);
            }
        }
        return Err(PngError::ChunkNotFound);
    }
    let wanted_type = ChunkType::from_bytes([wanted[0], wanted[1], wanted[2], wanted[3]]);
    assert(wanted_type@ =~= wanted@);
    match png.position(&wanted_type) {
        None => Err(PngError::ChunkNotFound),
        Some(i) => {
            proof {
                lemma_first_of_type(png@, wanted@, i as int);
            }
            png.chunks()[i].data_as_string()
        },
    }
}

/// Takes the first chunk of the given type out of the file and returns it.
pub fn remove(args: &RemoveArgs, png_bytes: &[u8]) -> (out: Result<Chunk, PngError>)
    ensures
        match out {
            Ok(chunk) => removed(args.chunk_type@, png_bytes@) == Ok::<ChunkView, PngError>(chunk@),
            Err(e) => removed(args.chunk_type@, png_bytes@) == Err::<ChunkView, PngError>(e),
        },
{
    let mut png = match Png::parse(png_bytes) {
        Ok(png) => png,
        Err(e) => {
            return Err(e);
        },
    };
    let ghost chunks = png@;
    let out = png.remove_chunk(args.chunk_type.as_str());
    proof {
        if out is Ok {
            let wanted = char_codes(args.chunk_type@);
            let i = choose|i: int|
                is_first_of_type(chunks, wanted, i) && out.unwrap()@ == chunks[i];
            lemma_first_of_type(chunks, wanted, i);
        }
    }
    out
}

/// Shows every chunk of the file, in order.
pub fn print(args: &PrintArgs, png_bytes: &[u8]) -> (out: Result<Vec<String>, PngError>)
    ensures
        match out {
            Ok(lines) => printed(png_bytes@) == Ok::<Seq<Seq<char>>, PngError>(texts(lines@)),
            Err(e) => printed(png_bytes@) == Err::<Seq<Seq<char>>, PngError>(e),
        },
{
    let png = match Png::parse(png_bytes) {
        Ok(png) => png,
        Err(e) => {
            return Err(e);
        },
    };
    let chunks = png.chunks();
    let mut lines: Vec<String> = Vec::new();
    let mut i: usize = 0;
    while i < chunks.len()
        invariant
            i <= chunks@.len(),
            parse_file(png_bytes@) == Ok::<Seq<ChunkView>, PngError>(png@),
            png@.len() == chunks@.len(),
            forall|j: int| 0 <= j < chunks@.len() ==> png@[j] == (#[trigger] chunks@[j])@,
            lines@.len() == i,
            forall|j: int| 0 <= j < i ==> valid_utf8((#[trigger] png@[j]).chunk_type@),
            forall|j: int| 0 <= j < i ==> (#[trigger] lines@[j])@ == png@[j].display(),
        decreases chunks@.len() - i,
    {
        match chunks[i].to_string() {
            Ok(line) => {
                lines.push(line);
            },
            Err(e) => {
                assert(!valid_utf8(png@[i as int].chunk_type@));
                return Err(e);
            },
        }
        i = i + 1;
    }
    assert(texts(lines@) =~= png@.map_values(|chunk: ChunkView| chunk.display()));
    Ok(lines)
}

/// What a command leaves for the caller to do.
pub enum Outcome {
    /// Write `file` to `output`, where there is one.
    Encoded { output: Option<String>, file: Vec<u8> },
    /// Show the message.
    Decoded { message: String },
    /// Nothing: the chunk was taken out.
    Removed { chunk: Chunk },
    /// Show the lines, one after the other.
    Printed { lines: Vec<String> },
}

/// Whether `out` is what the command of `cli` makes of the file `png_bytes`.
pub open spec fn is_outcome(cli: Cli, png_bytes: Seq<u8>, out: Result<Outcome, PngError>) -> bool {
    match cli.subcommand {
        Subcommand::Encode(args) => match out {
            Ok(Outcome::Encoded { output, file }) => output == args.output && encoded(
                args.chunk_type@,
                args.message@,
                png_bytes,
            ) == Ok::<Seq<u8>, PngError>(file@),
            Ok(_) => false,
            Err(e) => encoded(args.chunk_type@, args.message@, png_bytes) == Err::<
                Seq<u8>,
                PngError,
            >(e),
        },
        Subcommand::Decode(args) => match out {
            Ok(Outcome::Decoded { message }) => decoded(args.chunk_type@, png_bytes) == Ok::<
                Seq<char>,
                PngError,
            >(message@),
            Ok(_) => false,
            Err(e) => decoded(args.chunk_type@, png_bytes) == Err::<Seq<char>, PngError>(e),
        },
        Subcommand::Remove(args) => match out {
            Ok(Outcome::Removed { chunk }) => removed(args.chunk_type@, png_bytes) == Ok::<
                ChunkView,
                PngError,
            >(chunk@),
            Ok(_) => false,
            Err(e) => removed(args.chunk_type@, png_bytes) == Err::<ChunkView, PngError>(e),
        },
        Subcommand::Print(_) => match out {
            Ok(Outcome::Printed { lines }) => printed(png_bytes) == Ok::<
                Seq<Seq<char>>,
                PngError,
            >(texts(lines@)),
            Ok(_) => false,
            Err(e) => printed(png_bytes) == Err::<Seq<Seq<char>>, PngError>(e),
        },
    }
}

/// Whether the command of `cli` can be run: a message to encode must fit
/// the length field of a frame.
pub open spec fn can_run(cli: Cli) -> bool {
    match cli.subcommand {
        Subcommand::Encode(args) => encode_utf8(args.message@).len() <= u32::MAX,
        _ => true,
    }
}

/// Runs the command of `cli` on the bytes of the file that it names.
pub fn run(cli: &Cli, png_bytes: &[u8]) -> (out: Result<Outcome, PngError>)
    requires
        can_run(*cli),
    ensures
        is_outcome(*cli, png_bytes@, out),
{
    match &cli.subcommand {
        Subcommand::Encode(args) => match encode(args, png_bytes) {
            Ok(file) => {
                let output = match &args.output {
                    Some(path) => Some(path.clone()),
                    None => None,
                };
                Ok(Outcome::Encoded { output, file })
            },
            Err(e) => Err(e),
        },
        Subcommand::Decode(args) => match decode(args, png_bytes) {
            Ok(message) => Ok(Outcome::Decoded { message }),
            Err(e) => Err(e),
        },
        Subcommand::Remove(args) => match remove(args, png_bytes) {
            Ok(chunk) => Ok(Outcome::Removed { chunk }),
            Err(e) => Err(e),
        },
        Subcommand::Print(args) => match print(args, png_bytes) {
            Ok(lines) => Ok(Outcome::Printed { lines }),
            Err(e) => Err(e),
        },
    }
}

} // verus!
