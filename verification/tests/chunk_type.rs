use pngme::chunk_type::ChunkType;
use pngme::Error;
use std::convert::TryFrom;
use std::str::FromStr;

#[test]
pub fn test_chunk_type_from_bytes() {
    let expected = [82, 117, 83, 116];
    let actual = ChunkType::try_from([82, 117, 83, 116]).unwrap();

    assert_eq!(expected, actual.bytes());
}

#[test]
pub fn test_chunk_type_from_str() {
    let expected = ChunkType::try_from([82, 117, 83, 116]).unwrap();
    let actual = ChunkType::from_str("RuSt").unwrap();
    assert_eq!(expected, actual);
}

#[test]
pub fn test_chunk_type_is_critical() {
    let chunk = ChunkType::from_str("RuSt").unwrap();
    assert!(chunk.is_critical());
}

#[test]
pub fn test_chunk_type_is_not_critical() {
    let chunk = ChunkType::from_str("ruSt").unwrap();
    assert!(!chunk.is_critical());
}

#[test]
pub fn test_chunk_type_is_public() {
    let chunk = ChunkType::from_str("RUSt").unwrap();
    assert!(chunk.is_public());
}

#[test]
pub fn test_chunk_type_is_not_public() {
    let chunk = ChunkType::from_str("RuSt").unwrap();
    assert!(!chunk.is_public());
}

#[test]
pub fn test_chunk_type_is_reserved_bit_valid() {
    let chunk = ChunkType::from_str("RuSt").unwrap();
    assert!(chunk.is_reserved_bit_valid());
}

#[test]
pub fn test_chunk_type_is_reserved_bit_invalid() {
    let chunk = ChunkType::from_str("Rust").unwrap();
    assert!(!chunk.is_reserved_bit_valid());
}

#[test]
pub fn test_chunk_type_is_safe_to_copy() {
    let chunk = ChunkType::from_str("RuSt").unwrap();
    assert!(chunk.is_safe_to_copy());
}

#[test]
pub fn test_chunk_type_is_unsafe_to_copy() {
    let chunk = ChunkType::from_str("RuST").unwrap();
    assert!(!chunk.is_safe_to_copy());
}

#[test]
pub fn test_valid_chunk_is_valid() {
    let chunk = ChunkType::from_str("RuSt").unwrap();
    assert!(chunk.is_valid());
}

#[test]
pub fn test_invalid_chunk_is_valid() {
    let chunk = ChunkType::from_str("Rust").unwrap();
    assert!(!chunk.is_valid());

    let chunk = ChunkType::from_str("Ru1t");
    assert!(chunk.is_err());
}

#[test]
pub fn test_chunk_type_string() {
    let chunk = ChunkType::from_str("RuSt").unwrap();
    assert_eq!(&chunk.to_string(), "RuSt");
}

#[test]
pub fn test_chunk_type_trait_impls() {
    let chunk_type_1: ChunkType = TryFrom::try_from([82, 117, 83, 116]).unwrap();
    let chunk_type_2: ChunkType = FromStr::from_str("RuSt").unwrap();
    let _chunk_string = chunk_type_1.to_string();
    let _are_chunks_equal = chunk_type_1 == chunk_type_2;
}

#[test]
fn chunk_type_bytes_round_trip() {
    for code in [*b"IHDR", *b"IEND", *b"tEXt", *b"azAZ", *b"ZZZZ", *b"aaaa"] {
        let chunk_type = ChunkType::try_from(code).unwrap();
        assert_eq!(chunk_type.bytes(), code);
    }
}

#[test]
fn chunk_type_from_bytes_rejects_every_non_letter() {
    for b in 0u8..=255 {
        let is_letter = b.is_ascii_uppercase() || b.is_ascii_lowercase();
        assert_eq!(ChunkType::byte_is_valid(b), is_letter);
        for at in 0..4 {
            let mut code = *b"RuSt";
            code[at] = b;
            let made = ChunkType::try_from(code);
            if is_letter {
                assert_eq!(made.unwrap().bytes(), code);
            } else {
                assert_eq!(made, Err(Error::InvalidByte));
            }
        }
    }
}

#[test]
fn chunk_type_letter_range_edges() {
    assert!(!ChunkType::byte_is_valid(b'@'));
    assert!(ChunkType::byte_is_valid(b'A'));
    assert!(ChunkType::byte_is_valid(b'Z'));
    assert!(!ChunkType::byte_is_valid(b'['));
    assert!(!ChunkType::byte_is_valid(b'`'));
    assert!(ChunkType::byte_is_valid(b'a'));
    assert!(ChunkType::byte_is_valid(b'z'));
    assert!(!ChunkType::byte_is_valid(b'{'));
}

#[test]
fn chunk_type_from_str_wrong_length() {
    assert_eq!(ChunkType::from_str(""), Err(Error::InvalidLength));
    assert_eq!(ChunkType::from_str("RuS"), Err(Error::InvalidLength));
    assert_eq!(ChunkType::from_str("RuStx"), Err(Error::InvalidLength));
    assert_eq!(ChunkType::from_str("1"), Err(Error::InvalidLength));
}

#[test]
fn chunk_type_from_str_invalid_byte() {
    assert_eq!(ChunkType::from_str("Ru1t"), Err(Error::InvalidByte));
    assert_eq!(ChunkType::from_str("Ru t"), Err(Error::InvalidByte));
    assert_eq!(ChunkType::from_str("RuS_"), Err(Error::InvalidByte));
}

#[test]
fn chunk_type_from_str_counts_bytes_not_characters() {
    // Two bytes for the first character, so four bytes in all.
    assert_eq!("\u{e9}ab".len(), 4);
    assert_eq!(ChunkType::from_str("\u{e9}ab"), Err(Error::InvalidByte));
    // Four characters, five bytes.
    assert_eq!(ChunkType::from_str("\u{e9}abc"), Err(Error::InvalidLength));
}

#[test]
fn chunk_type_properties_follow_letter_case() {
    for code in [*b"RuSt", *b"rust", *b"RUST", *b"rUsT", *b"IDAT", *b"tEXt", *b"bLOb"] {
        let chunk_type = ChunkType::try_from(code).unwrap();
        assert_eq!(chunk_type.is_critical(), code[0].is_ascii_uppercase());
        assert_eq!(chunk_type.is_public(), code[1].is_ascii_uppercase());
        assert_eq!(chunk_type.is_reserved_bit_valid(), code[2].is_ascii_uppercase());
        assert_eq!(chunk_type.is_safe_to_copy(), code[3].is_ascii_lowercase());
        assert_eq!(chunk_type.is_valid(), chunk_type.is_reserved_bit_valid());
    }
}

#[test]
fn chunk_type_rust_properties() {
    let chunk_type = ChunkType::from_str("RuSt").unwrap();
    assert!(chunk_type.is_critical());
    assert!(!chunk_type.is_public());
    assert!(chunk_type.is_reserved_bit_valid());
    assert!(chunk_type.is_safe_to_copy());
    assert!(chunk_type.is_valid());
}

#[test]
fn chunk_type_is_spelled() {
    let chunk_type = ChunkType::from_str("RuSt").unwrap();
    assert!(chunk_type.is_spelled("RuSt"));
    assert!(!chunk_type.is_spelled("Rust"));
    assert!(!chunk_type.is_spelled("RuS"));
    assert!(!chunk_type.is_spelled("RuStt"));
    assert!(!chunk_type.is_spelled(""));
    assert!(!chunk_type.is_spelled("\u{e9}ab"));
}

#[test]
fn chunk_type_to_string_is_the_four_letters() {
    for text in ["IHDR", "IEND", "tEXt", "azAZ"] {
        let chunk_type = ChunkType::from_str(text).unwrap();
        assert_eq!(chunk_type.to_string(), text);
        assert_eq!(chunk_type.to_string().chars().count(), 4);
    }
}

#[test]
fn chunk_type_equality_is_by_bytes() {
    let a = ChunkType::from_str("RuSt").unwrap();
    let b = ChunkType::try_from(*b"RuSt").unwrap();
    let c = ChunkType::from_str("RuST").unwrap();
    assert_eq!(a, b);
    assert_ne!(a, c);
}
