use pngme::chunk::Chunk;
use pngme::chunk_type::ChunkType;
use pngme::error::PngError;
use std::convert::TryFrom;
use std::str::FromStr;

fn testing_chunk() -> Chunk {
    let data_length: u32 = 42;
    let chunk_type = "RuSt".as_bytes();
    let message_bytes = "This is where your secret message will be!".as_bytes();
    let crc: u32 = 2882656334;

    let chunk_data: Vec<u8> = data_length
        .to_be_bytes()
        .iter()
        .chain(chunk_type.iter())
        .chain(message_bytes.iter())
        .chain(crc.to_be_bytes().iter())
        .copied()
        .collect();

    Chunk::try_from(chunk_data.as_slice()).unwrap()
}

fn frame(length: u32, chunk_type: &[u8], data: &[u8], crc: u32) -> Vec<u8> {
    length
        .to_be_bytes()
        .iter()
        .chain(chunk_type.iter())
        .chain(data.iter())
        .chain(crc.to_be_bytes().iter())
        .copied()
        .collect()
}

#[test]
fn test_new_chunk() {
    let chunk_type = ChunkType::from_str("RuSt").unwrap();
    let data = "This is where your secret message will be!"
        .as_bytes()
        .to_vec();
    let chunk = Chunk::new(chunk_type, data);
    assert_eq!(chunk.length(), 42);
    assert_eq!(chunk.crc(), 2882656334);
}

#[test]
fn test_chunk_length() {
    let chunk = testing_chunk();
    assert_eq!(chunk.length(), 42);
}

#[test]
fn test_chunk_type() {
    let chunk = testing_chunk();
    assert_eq!(chunk.chunk_type().to_string().unwrap(), String::from("RuSt"));
}

#[test]
fn test_chunk_string() {
    let chunk = testing_chunk();
    let chunk_string = chunk.data_as_string().unwrap();
    let expected_chunk_string = String::from("This is where your secret message will be!");
    assert_eq!(chunk_string, expected_chunk_string);
}

#[test]
fn test_chunk_crc() {
    let chunk = testing_chunk();
    assert_eq!(chunk.crc(), 2882656334);
}

#[test]
fn test_valid_chunk_from_bytes() {
    let data_length: u32 = 42;
    let chunk_type = "RuSt".as_bytes();
    let message_bytes = "This is where your secret message will be!".as_bytes();
    let crc: u32 = 2882656334;

    let chunk_data: Vec<u8> = data_length
        .to_be_bytes()
        .iter()
        .chain(chunk_type.iter())
        .chain(message_bytes.iter())
        .chain(crc.to_be_bytes().iter())
        .copied()
        .collect();

    let chunk = Chunk::try_from(chunk_data.as_slice()).unwrap();

    let chunk_string = chunk.data_as_string().unwrap();
    let expected_chunk_string = String::from("This is where your secret message will be!");

    assert_eq!(chunk.length(), 42);
    assert_eq!(chunk.chunk_type().to_string().unwrap(), String::from("RuSt"));
    assert_eq!(chunk_string, expected_chunk_string);
    assert_eq!(chunk.crc(), 2882656334);
}

#[test]
fn test_invalid_chunk_from_bytes() {
    let data_length: u32 = 42;
    let chunk_type = "RuSt".as_bytes();
    let message_bytes = "This is where your secret message will be!".as_bytes();
    let crc: u32 = 2882656333;

    let chunk_data: Vec<u8> = data_length
        .to_be_bytes()
        .iter()
        .chain(chunk_type.iter())
        .chain(message_bytes.iter())
        .chain(crc.to_be_bytes().iter())
        .copied()
        .collect();

    let chunk = Chunk::try_from(chunk_data.as_slice());

    assert!(chunk.is_err());
}

#[test]
pub fn test_chunk_trait_impls() {
    let data_length: u32 = 42;
    let chunk_type = "RuSt".as_bytes();
    let message_bytes = "This is where your secret message will be!".as_bytes();
    let crc: u32 = 2882656334;

    let chunk_data: Vec<u8> = data_length
        .to_be_bytes()
        .iter()
        .chain(chunk_type.iter())
        .chain(message_bytes.iter())
        .chain(crc.to_be_bytes().iter())
        .copied()
        .collect();

    let chunk: Chunk = TryFrom::try_from(chunk_data.as_slice()).unwrap();

    let _chunk_string = format!("{}", chunk.to_string().unwrap());
}

#[test]
fn secret_message_frame_round_trips() {
    let message = "This is where your secret message will be!".as_bytes();
    let bytes = frame(message.len() as u32, b"RuSt", message, 2882656334);
    let chunk = Chunk::parse(&bytes).unwrap();
    assert_eq!(chunk.length() as usize, message.len());
    assert_eq!(chunk.length(), 42);
    assert_eq!(chunk.data(), message);
    assert_eq!(chunk.as_bytes(), bytes);
}

#[test]
fn wrong_checksum_is_reported_with_both_values() {
    let message = "This is where your secret message will be!".as_bytes();
    let bytes = frame(42, b"RuSt", message, 2882656333);
    assert_eq!(
        Chunk::parse(&bytes).err(),
        Some(PngError::CrcMismatch { stored: 2882656333, computed: 2882656334 })
    );
}

#[test]
fn new_keeps_type_and_payload() {
    let chunk_type = ChunkType::from_bytes(*b"teXt");
    let chunk = Chunk::new(chunk_type, vec![1, 2, 3]);
    assert_eq!(*chunk.chunk_type(), chunk_type);
    assert_eq!(chunk.data(), &[1, 2, 3]);
    assert_eq!(chunk.length(), 3);
}

#[test]
fn empty_payload_frame() {
    let chunk = Chunk::new(ChunkType::from_bytes(*b"IEND"), Vec::new());
    assert_eq!(chunk.length(), 0);
    assert_eq!(chunk.crc(), 0xAE42_6082);
    let bytes = chunk.as_bytes();
    assert_eq!(bytes, vec![0, 0, 0, 0, 73, 69, 78, 68, 0xAE, 0x42, 0x60, 0x82]);
    let back = Chunk::parse(&bytes).unwrap();
    assert_eq!(back.length(), 0);
    assert_eq!(*back.chunk_type(), ChunkType::from_bytes(*b"IEND"));
}

#[test]
fn frame_layout_is_length_type_payload_checksum() {
    let chunk = Chunk::new(ChunkType::from_bytes(*b"abCd"), vec![9; 258]);
    let bytes = chunk.as_bytes();
    assert_eq!(bytes.len(), 12 + 258);
    assert_eq!(&bytes[0..4], &[0, 0, 1, 2]);
    assert_eq!(&bytes[4..8], b"abCd");
    assert_eq!(&bytes[8..266], &[9u8; 258][..]);
    assert_eq!(&bytes[266..270], &chunk.crc().to_be_bytes());
}

#[test]
fn round_trip_keeps_type_and_payload() {
    let payloads: Vec<Vec<u8>> = vec![
        Vec::new(),
        vec![0],
        vec![255; 7],
        (0..=255u8).collect(),
        "h\u{e9}llo".as_bytes().to_vec(),
    ];
    let types = [*b"RuSt", *b"IHDR", [0, 0, 0, 0], [255, 254, 253, 252]];
    for payload in &payloads {
        for code in &types {
            let chunk_type = ChunkType::from_bytes(*code);
            let chunk = Chunk::new(chunk_type, payload.clone());
            let back = Chunk::parse(&chunk.as_bytes()).unwrap();
            assert_eq!(*back.chunk_type(), chunk_type);
            assert_eq!(back.data(), payload.as_slice());
            assert_eq!(back.as_bytes(), chunk.as_bytes());
        }
    }
}

#[test]
fn flipping_any_covered_bit_fails_the_checksum() {
    let chunk = Chunk::new(ChunkType::from_bytes(*b"RuSt"), b"secret".to_vec());
    let bytes = chunk.as_bytes();
    let stored = chunk.crc();
    for i in 4..(8 + 6) {
        for bit in 0..8 {
            let mut changed = bytes.clone();
            changed[i] ^= 1 << bit;
            match Chunk::parse(&changed) {
                Err(PngError::CrcMismatch { stored: s, computed }) => {
                    assert_eq!(s, stored);
                    assert_ne!(computed, stored);
                }
                other => panic!("byte {} bit {}: {:?}", i, bit, other),
            }
        }
    }
}

#[test]
fn short_buffers_are_truncated_frames() {
    let bytes = Chunk::new(ChunkType::from_bytes(*b"RuSt"), b"abc".to_vec()).as_bytes();
    for cut in 0..bytes.len() {
        assert_eq!(Chunk::parse(&bytes[..cut]).err(), Some(PngError::TruncatedFrame));
    }
    assert!(Chunk::parse(&bytes).is_ok());
}

#[test]
fn declared_length_beyond_the_buffer_is_a_truncated_frame() {
    let bytes = frame(5, b"RuSt", b"abcd", 0);
    assert_eq!(Chunk::parse(&bytes).err(), Some(PngError::TruncatedFrame));
    let bytes = frame(u32::MAX, b"RuSt", b"abcd", 0);
    assert_eq!(Chunk::parse(&bytes).err(), Some(PngError::TruncatedFrame));
}

#[test]
fn bytes_after_the_frame_are_not_read() {
    let chunk = Chunk::new(ChunkType::from_bytes(*b"RuSt"), b"abc".to_vec());
    let mut bytes = chunk.as_bytes();
    bytes.extend_from_slice(&[1, 2, 3, 4, 5]);
    let back = Chunk::parse(&bytes).unwrap();
    assert_eq!(back.data(), b"abc");
}

#[test]
fn parse_at_reads_from_the_given_place() {
    let first = Chunk::new(ChunkType::from_bytes(*b"RuSt"), b"abc".to_vec());
    let second = Chunk::new(ChunkType::from_bytes(*b"teXt"), b"defgh".to_vec());
    let mut bytes = vec![7, 7];
    bytes.extend_from_slice(&first.as_bytes());
    bytes.extend_from_slice(&second.as_bytes());
    let a = Chunk::parse_at(&bytes, 2).unwrap();
    assert_eq!(a.data(), b"abc");
    let b = Chunk::parse_at(&bytes, 2 + 15).unwrap();
    assert_eq!(b.data(), b"defgh");
    assert_eq!(*b.chunk_type(), ChunkType::from_bytes(*b"teXt"));
    assert_eq!(Chunk::parse_at(&bytes, bytes.len()).err(), Some(PngError::TruncatedFrame));
}

#[test]
fn chunk_try_from_and_parse_agree() {
    let bytes = Chunk::new(ChunkType::from_bytes(*b"RuSt"), b"abc".to_vec()).as_bytes();
    let a = Chunk::try_from(bytes.as_slice()).unwrap();
    let b = Chunk::parse(&bytes).unwrap();
    assert_eq!(a.as_bytes(), b.as_bytes());
    assert_eq!(Chunk::try_from(&bytes[..5]).err(), Chunk::parse(&bytes[..5]).err());
}

#[test]
fn data_as_string_decodes_utf8() {
    let chunk = Chunk::new(ChunkType::from_bytes(*b"RuSt"), "h\u{e9}llo \u{1f600}".as_bytes().to_vec());
    assert_eq!(chunk.data_as_string().unwrap(), "h\u{e9}llo \u{1f600}");
    let chunk = Chunk::new(ChunkType::from_bytes(*b"RuSt"), Vec::new());
    assert_eq!(chunk.data_as_string().unwrap(), "");
}

#[test]
fn data_as_string_fails_on_bytes_that_are_not_text() {
    let chunk = Chunk::new(ChunkType::from_bytes(*b"RuSt"), vec![0x66, 0xff, 0x67]);
    assert_eq!(chunk.data_as_string(), Err(PngError::Utf8DecodeError));
    // an overlong encoding and a surrogate
    let chunk = Chunk::new(ChunkType::from_bytes(*b"RuSt"), vec![0xc0, 0x80]);
    assert_eq!(chunk.data_as_string(), Err(PngError::Utf8DecodeError));
    let chunk = Chunk::new(ChunkType::from_bytes(*b"RuSt"), vec![0xed, 0xa0, 0x80]);
    assert_eq!(chunk.data_as_string(), Err(PngError::Utf8DecodeError));
}

#[test]
fn to_string_shows_length_type_size_and_checksum() {
    let chunk = testing_chunk();
    assert_eq!(
        chunk.to_string().unwrap(),
        "Length: 42\nType: RuSt\nData: 42 bytes\nCRC: 2882656334\n"
    );
    let chunk = Chunk::new(ChunkType::from_bytes(*b"IEND"), Vec::new());
    assert_eq!(
        chunk.to_string().unwrap(),
        "Length: 0\nType: IEND\nData: 0 bytes\nCRC: 2923585666\n"
    );
}

#[test]
fn to_string_fails_where_the_type_is_not_text() {
    let chunk = Chunk::new(ChunkType::from_bytes([0xff, 0, 0, 0]), Vec::new());
    assert_eq!(chunk.to_string(), Err(PngError::NotTextRepresentable));
}
