use pngme::chunk::Chunk;
use pngme::chunk_type::ChunkType;
use pngme::error::PngError;
use pngme::png::Png;

const MAGIC: [u8; 8] = [137, 80, 78, 71, 13, 10, 26, 10];

fn chunk_from(chunk_type: &str, payload: &str) -> Chunk {
    Chunk::new(
        ChunkType::from_str(chunk_type).unwrap(),
        payload.as_bytes().to_vec(),
    )
}

fn file_bytes(chunks: &[Chunk]) -> Vec<u8> {
    let mut out = MAGIC.to_vec();
    for chunk in chunks {
        out.extend(chunk.as_bytes());
    }
    out
}

#[test]
fn test_chunk_round_trip() {
    let built = chunk_from("RuSt", "hello world");
    let parsed = Chunk::try_from(built.as_bytes().as_ref()).unwrap();
    assert_eq!(parsed, built);

    let empty = chunk_from("ruSt", "");
    let parsed_empty = Chunk::try_from(empty.as_bytes().as_ref()).unwrap();
    assert_eq!(parsed_empty, empty);
}

#[test]
fn test_chunk_byte_layout() {
    let chunk = chunk_from("RuSt", "ab");
    let bytes = chunk.as_bytes();
    assert_eq!(bytes.len(), 14);
    assert_eq!(&bytes[0..4], &[0, 0, 0, 2]);
    assert_eq!(&bytes[4..8], "RuSt".as_bytes());
    assert_eq!(&bytes[8..10], "ab".as_bytes());
    assert_eq!(&bytes[10..14], &chunk.crc().to_be_bytes());
}

#[test]
fn test_png_serialization_is_inverse_of_parse() {
    let bytes = file_bytes(&[chunk_from("FrSt", "first"), chunk_from("ruSt", "second")]);
    let png = Png::try_from(bytes.as_ref()).unwrap();
    assert_eq!(png.as_bytes(), bytes);

    let just_magic = file_bytes(&[]);
    let empty_png = Png::try_from(just_magic.as_ref()).unwrap();
    assert_eq!(empty_png.as_bytes(), just_magic);
}

#[test]
fn test_flipping_any_crc_bit_is_caught() {
    let built = chunk_from("RuSt", "payload");
    let bytes = built.as_bytes();
    let crc_start = bytes.len() - 4;
    for byte_index in crc_start..bytes.len() {
        for bit in 0..8 {
            let mut corrupt = bytes.clone();
            corrupt[byte_index] ^= 1 << bit;
            assert_eq!(
                Chunk::try_from(corrupt.as_ref()),
                Err(PngError::CrcMismatch)
            );
        }
    }
}

#[test]
fn test_flipping_any_payload_bit_is_caught() {
    let built = chunk_from("RuSt", "payload");
    let bytes = built.as_bytes();
    for byte_index in 8..bytes.len() - 4 {
        for bit in 0..8 {
            let mut corrupt = bytes.clone();
            corrupt[byte_index] ^= 1 << bit;
            assert_eq!(
                Chunk::try_from(corrupt.as_ref()),
                Err(PngError::CrcMismatch)
            );
        }
    }
}

#[test]
fn test_invalid_signature_bytes_are_rejected() {
    assert_eq!(
        ChunkType::try_from([82, 117, 49, 116]),
        Err(PngError::InvalidChunkType)
    );
    assert_eq!(ChunkType::from_str("Ru1t"), Err(PngError::InvalidChunkType));
    assert_eq!(ChunkType::from_str("Ru!t"), Err(PngError::InvalidChunkType));
    assert_eq!(ChunkType::from_str("Rus"), Err(PngError::InvalidChunkType));
    assert_eq!(ChunkType::from_str("Rusty"), Err(PngError::InvalidChunkType));
    assert_eq!(ChunkType::from_str(""), Err(PngError::InvalidChunkType));
}

#[test]
fn test_signature_flags_follow_byte_case() {
    let rust_mixed = ChunkType::from_str("RuSt").unwrap();
    assert!(rust_mixed.is_critical());
    assert!(!rust_mixed.is_public());
    assert!(rust_mixed.is_reserved_bit_valid());
    assert!(rust_mixed.is_safe_to_copy());
    assert!(rust_mixed.is_valid());

    let rust_lower = ChunkType::from_str("Rust").unwrap();
    assert!(!rust_lower.is_reserved_bit_valid());
    assert!(!rust_lower.is_valid());
}

#[test]
fn test_appended_chunk_survives_round_trip() {
    let bytes = file_bytes(&[chunk_from("FrSt", "base")]);
    let mut png = Png::try_from(bytes.as_ref()).unwrap();
    png.append_chunk(chunk_from("ruSt", "hello"));
    let serialized = png.as_bytes();
    let reparsed = Png::try_from(serialized.as_ref()).unwrap();
    let found = reparsed.chunk_by_type("ruSt").unwrap();
    assert_eq!(found.data_as_string().unwrap(), "hello");
}

#[test]
fn test_remove_first_of_two_keeps_the_second() {
    let bytes = file_bytes(&[
        chunk_from("TeSt", "one"),
        chunk_from("miDl", "between"),
        chunk_from("TeSt", "two"),
    ]);
    let mut png = Png::try_from(bytes.as_ref()).unwrap();
    let removed = png.remove_first_chunk("TeSt").unwrap();
    assert_eq!(removed.data_as_string().unwrap(), "one");

    let remaining: Vec<String> = png
        .chunks()
        .iter()
        .map(|c| c.chunk_type().to_string())
        .collect();
    assert_eq!(remaining, vec!["miDl".to_string(), "TeSt".to_string()]);
    let found = png.chunk_by_type("TeSt").unwrap();
    assert_eq!(found.data_as_string().unwrap(), "two");
}

#[test]
fn test_absent_type_lookup_and_removal() {
    let bytes = file_bytes(&[chunk_from("FrSt", "base")]);
    let mut png = Png::try_from(bytes.as_ref()).unwrap();
    assert!(png.chunk_by_type("AbCd").is_none());
    assert_eq!(png.remove_first_chunk("AbCd"), Err(PngError::ChunkNotFound));
    assert_eq!(png.chunks().len(), 1);
}

#[test]
fn test_parse_error_kinds() {
    let mut wrong_magic = file_bytes(&[]);
    wrong_magic[0] = 0;
    assert_eq!(
        Png::try_from(wrong_magic.as_ref()),
        Err(PngError::InvalidSignature)
    );

    let short: Vec<u8> = vec![137, 80, 78];
    assert_eq!(Png::try_from(short.as_ref()), Err(PngError::TruncatedInput));

    let mut truncated = file_bytes(&[chunk_from("RuSt", "hello")]);
    truncated.truncate(truncated.len() - 1);
    assert_eq!(
        Png::try_from(truncated.as_ref()),
        Err(PngError::TruncatedInput)
    );

    let mut bad_type = file_bytes(&[chunk_from("RuSt", "hello")]);
    bad_type[12] = b'1';
    assert_eq!(
        Png::try_from(bad_type.as_ref()),
        Err(PngError::InvalidChunkType)
    );

    let mut bad_crc = file_bytes(&[chunk_from("RuSt", "hello")]);
    let last = bad_crc.len() - 1;
    bad_crc[last] ^= 0xff;
    assert_eq!(Png::try_from(bad_crc.as_ref()), Err(PngError::CrcMismatch));
}

#[test]
fn test_bad_type_takes_precedence_over_length_mismatch() {
    // 13 bytes: the frame is readable, the type field holds a digit, and the
    // declared length (2) disagrees with the buffer. The type check decides.
    let mut bytes = chunk_from("RuSt", "ab").as_bytes();
    bytes[4] = b'1';
    bytes.truncate(bytes.len() - 1);
    assert!(bytes.len() >= 12);
    assert_eq!(
        Chunk::try_from(bytes.as_ref()),
        Err(PngError::InvalidChunkType)
    );

    // With a valid type field the same length mismatch is a truncation.
    let mut short = chunk_from("RuSt", "ab").as_bytes();
    short.truncate(short.len() - 1);
    assert_eq!(Chunk::try_from(short.as_ref()), Err(PngError::TruncatedInput));

    // Under twelve bytes nothing can be read at all, type field or not.
    let tiny: Vec<u8> = vec![0, 0, 0, 2, b'1', b'u', b'S', b't', 0, 0, 0];
    assert_eq!(Chunk::try_from(tiny.as_ref()), Err(PngError::TruncatedInput));
}

#[test]
fn test_non_utf8_payload_is_reported() {
    let chunk_type = ChunkType::from_str("RuSt").unwrap();
    let chunk = Chunk::new(chunk_type, vec![0xff, 0xfe, 0x00]);
    assert_eq!(chunk.data_as_string(), Err(PngError::InvalidUtf8));
}
