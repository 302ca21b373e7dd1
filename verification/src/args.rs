//! What the command line asks for, as plain values.

use vstd::prelude::*;

verus! {

/// A parsed command line.
pub struct Cli {
    pub subcommand: Subcommand,
}

/// The four commands.
pub enum Subcommand {
    Encode(EncodeArgs),
    Decode(DecodeArgs),
    Remove(RemoveArgs),
    Print(PrintArgs),
}

/// Encodes a secret message into the PNG file.
pub struct EncodeArgs {
    /// Path to PNG file
    pub png_path: String,
    /// PNG chunk type
    pub chunk_type: String,
    /// Message to encode
    pub message: String,
    /// Optional path to a file where the result will be outputted
    pub output: Option<String>,
}

/// Searches a PNG file for a secret message.
pub struct DecodeArgs {
    /// Path to PNG file
    pub png_path: String,
    /// PNG chunk type
    pub chunk_type: String,
}

/// Removes a chunk from a PNG file.
pub struct RemoveArgs {
    /// Path to PNG file
    pub png_path: String,
    /// PNG chunk type
    pub chunk_type: String,
}

/// Print out all of the chunks in a PNG file.
pub struct PrintArgs {
    /// Path to PNG file
    pub png_path: String,
}

impl Subcommand {
    /// The path of the file that the command reads.
    pub fn png_path(&self) -> (path: &String)
        ensures
            *path == match *self {
                Subcommand::Encode(args) => args.png_path,
                Subcommand::Decode(args) => args.png_path,
                Subcommand::Remove(args) => args.png_path,
                Subcommand::Print(args) => args.png_path,
            },
    {
        match self {
            Subcommand::Encode(args) => &args.png_path,
            Subcommand::Decode(args) => &args.png_path,
            Subcommand::Remove(args) => &args.png_path,
            Subcommand::Print(args) => &args.png_path,
        }
    }
}

} // verus!
