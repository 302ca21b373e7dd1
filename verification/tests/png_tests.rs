use pngme::chunk::Chunk;
use pngme::chunk_type::ChunkType;
use pngme::error::PngError;
use pngme::png::Png;
use std::convert::TryFrom;

fn chunk_of(chunk_type: &str, data: &str) -> Chunk {
    Chunk::new(ChunkType::from_text(chunk_type).unwrap(), data.as_bytes().to_vec())
}

fn sample_chunks() -> Vec<Chunk> {
    vec![
        chunk_of("FrSt", "I am the first chunk"),
        chunk_of("miDl", "I am another chunk"),
        chunk_of("LASt", "I am the last chunk"),
    ]
}

fn sample_png() -> Png {
    let mut png = Png::new();
    for chunk in sample_chunks() {
        png.append_chunk(chunk);
    }
    png
}

fn types_of(png: &Png) -> Vec<String> {
    png.chunks().iter().map(|c| c.chunk_type().to_string().unwrap()).collect()
}

#[test]
fn standard_header_is_the_png_signature() {
    assert_eq!(Png::STANDARD_HEADER, [0x89, 0x50, 0x4E, 0x47, 0x0D, 0x0A, 0x1A, 0x0A]);
    assert_eq!(&Png::new().as_bytes()[..8], &Png::STANDARD_HEADER);
}

#[test]
fn empty_container_is_the_signature_alone() {
    let png = Png::new();
    assert_eq!(png.chunks().len(), 0);
    assert_eq!(png.as_bytes(), vec![137, 80, 78, 71, 13, 10, 26, 10]);
    let back = Png::parse(&png.as_bytes()).unwrap();
    assert_eq!(back.chunks().len(), 0);
}

#[test]
fn as_bytes_is_signature_then_frames() {
    let png = sample_png();
    let mut expected = Png::STANDARD_HEADER.to_vec();
    for chunk in sample_chunks() {
        expected.extend_from_slice(&chunk.as_bytes());
    }
    assert_eq!(png.as_bytes(), expected);
}

#[test]
fn appended_chunks_come_back_in_order() {
    let mut png = Png::new();
    png.append_chunk(chunk_of("FrSt", "one"));
    png.append_chunk(chunk_of("miDl", "two"));
    png.append_chunk(chunk_of("LASt", "three"));
    let back = Png::parse(&png.as_bytes()).unwrap();
    assert_eq!(types_of(&back), vec!["FrSt", "miDl", "LASt"]);
    let data: Vec<String> = back.chunks().iter().map(|c| c.data_as_string().unwrap()).collect();
    assert_eq!(data, vec!["one", "two", "three"]);
    assert_eq!(back.as_bytes(), png.as_bytes());
}

#[test]
fn append_puts_the_chunk_last() {
    let mut png = sample_png();
    png.append_chunk(chunk_of("TeSt", "Message"));
    assert_eq!(types_of(&png), vec!["FrSt", "miDl", "LASt", "TeSt"]);
    assert_eq!(png.chunks()[3].data_as_string().unwrap(), "Message");
}

#[test]
fn parse_rejects_a_wrong_signature() {
    let mut bytes = sample_png().as_bytes();
    bytes[0] = 13;
    assert_eq!(Png::parse(&bytes).err(), Some(PngError::InvalidSignature));
    let mut bytes = sample_png().as_bytes();
    bytes[7] = 11;
    assert_eq!(Png::parse(&bytes).err(), Some(PngError::InvalidSignature));
}

#[test]
fn parse_rejects_a_short_signature() {
    assert_eq!(Png::parse(&[]).err(), Some(PngError::InvalidSignature));
    assert_eq!(
        Png::parse(&[137, 80, 78, 71, 13, 10, 26]).err(),
        Some(PngError::InvalidSignature)
    );
}

#[test]
fn parse_is_all_or_nothing() {
    let mut bytes = sample_png().as_bytes();
    // the last byte of the last frame is part of its checksum
    let last = bytes.len() - 1;
    bytes[last] ^= 1;
    match Png::parse(&bytes) {
        Err(PngError::CrcMismatch { .. }) => {}
        other => panic!("{:?}", other),
    }
}

#[test]
fn parse_reports_the_first_failure() {
    let mut bytes = Png::STANDARD_HEADER.to_vec();
    let mut bad = chunk_of("FrSt", "abc").as_bytes();
    bad[9] ^= 0x10;
    bytes.extend_from_slice(&bad);
    bytes.extend_from_slice(&[1, 2, 3]);
    match Png::parse(&bytes) {
        Err(PngError::CrcMismatch { stored, computed }) => {
            assert_eq!(stored, chunk_of("FrSt", "abc").crc());
            assert_ne!(stored, computed);
        }
        other => panic!("{:?}", other),
    }
}

#[test]
fn trailing_bytes_are_a_truncated_frame() {
    let mut bytes = sample_png().as_bytes();
    bytes.extend_from_slice(&[0, 0, 0]);
    assert_eq!(Png::parse(&bytes).err(), Some(PngError::TruncatedFrame));
    let whole = sample_png().as_bytes();
    for cut in 9..whole.len() {
        if Png::parse(&whole[..cut]).is_ok() {
            // a cut between two frames leaves a shorter file
            assert!(cut == 8 + 32 || cut == 8 + 32 + 30, "cut {}", cut);
        } else {
            assert_eq!(Png::parse(&whole[..cut]).err(), Some(PngError::TruncatedFrame));
        }
    }
}

#[test]
fn png_try_from_and_parse_agree() {
    let bytes = sample_png().as_bytes();
    let a = Png::try_from(bytes.as_slice()).unwrap();
    assert_eq!(a.as_bytes(), bytes);
    assert_eq!(Png::try_from(&bytes[..3]).err(), Some(PngError::InvalidSignature));
}

#[test]
fn remove_takes_the_first_of_the_type() {
    let mut png = Png::new();
    png.append_chunk(chunk_of("FrSt", "one"));
    png.append_chunk(chunk_of("miDl", "two"));
    png.append_chunk(chunk_of("FrSt", "three"));
    png.append_chunk(chunk_of("LASt", "four"));
    let removed = png.remove_chunk("FrSt").unwrap();
    assert_eq!(removed.data_as_string().unwrap(), "one");
    assert_eq!(types_of(&png), vec!["miDl", "FrSt", "LASt"]);
    let removed = png.remove_chunk("FrSt").unwrap();
    assert_eq!(removed.data_as_string().unwrap(), "three");
    assert_eq!(types_of(&png), vec!["miDl", "LASt"]);
    assert_eq!(png.remove_chunk("FrSt").err(), Some(PngError::ChunkNotFound));
}

#[test]
fn remove_of_an_absent_type_changes_nothing() {
    let mut png = sample_png();
    let before = png.as_bytes();
    assert_eq!(png.remove_chunk("TeSt").err(), Some(PngError::ChunkNotFound));
    assert_eq!(png.as_bytes(), before);
    assert_eq!(types_of(&png), vec!["FrSt", "miDl", "LASt"]);
}

#[test]
fn remove_of_a_bad_type_text_changes_nothing() {
    let mut png = sample_png();
    let before = png.as_bytes();
    assert_eq!(png.remove_chunk("Fr1t").err(), Some(PngError::InvalidChunkTypeChars));
    assert_eq!(png.remove_chunk("").err(), Some(PngError::InvalidChunkTypeChars));
    assert_eq!(png.remove_chunk("FrStX").err(), Some(PngError::InvalidChunkTypeChars));
    assert_eq!(png.as_bytes(), before);
}

#[test]
fn remove_from_an_empty_container() {
    let mut png = Png::new();
    assert_eq!(png.remove_chunk("FrSt").err(), Some(PngError::ChunkNotFound));
    assert_eq!(png.chunks().len(), 0);
}

#[test]
fn type_match_is_case_sensitive() {
    let mut png = sample_png();
    assert_eq!(png.remove_chunk("frst").err(), Some(PngError::ChunkNotFound));
    assert_eq!(png.position(&ChunkType::from_bytes(*b"FRST")), None);
    assert_eq!(png.position(&ChunkType::from_bytes(*b"FrSt")), Some(0));
}

#[test]
fn position_finds_the_first_place() {
    let mut png = sample_png();
    png.append_chunk(chunk_of("miDl", "again"));
    assert_eq!(png.position(&ChunkType::from_bytes(*b"FrSt")), Some(0));
    assert_eq!(png.position(&ChunkType::from_bytes(*b"miDl")), Some(1));
    assert_eq!(png.position(&ChunkType::from_bytes(*b"LASt")), Some(2));
    assert_eq!(png.position(&ChunkType::from_bytes(*b"NoNe")), None);
}

#[test]
fn has_header_needs_all_eight_bytes() {
    assert!(Png::has_header(&[137, 80, 78, 71, 13, 10, 26, 10]));
    assert!(Png::has_header(&[137, 80, 78, 71, 13, 10, 26, 10, 0]));
    assert!(!Png::has_header(&[137, 80, 78, 71, 13, 10, 26]));
    assert!(!Png::has_header(&[137, 80, 78, 71, 13, 10, 26, 11]));
    assert!(!Png::has_header(&[]));
}

#[test]
fn chunks_with_any_type_bytes_are_read() {
    let mut png = Png::new();
    png.append_chunk(Chunk::new(ChunkType::from_bytes([0, 1, 2, 3]), vec![4, 5]));
    let back = Png::parse(&png.as_bytes()).unwrap();
    assert_eq!(back.chunks()[0].chunk_type().bytes(), [0, 1, 2, 3]);
    assert_eq!(back.chunks()[0].data(), &[4, 5]);
}
