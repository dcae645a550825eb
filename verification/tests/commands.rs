use pngme::chunk::Chunk;
use pngme::chunk_type::ChunkType;
use pngme::commands::{decode, encode, print, remove};
use pngme::png::Png;
use pngme::Error;
use std::convert::TryFrom;
use std::str::FromStr;

const SIGNATURE: [u8; 8] = [0x89, 0x50, 0x4e, 0x47, 0x0d, 0x0a, 0x1a, 0x0a];
const MESSAGE: &str = "This is where your secret message will be!";

fn chunk_from_strings(chunk_type: &str, data: &str) -> Chunk {
    Chunk::new(ChunkType::from_str(chunk_type).unwrap(), data.as_bytes().to_vec())
}

fn small_file() -> Vec<u8> {
    Png::from_chunks(vec![
        chunk_from_strings("IHDR", "head"),
        chunk_from_strings("IDAT", "pixels"),
        chunk_from_strings("IEND", ""),
    ])
    .as_bytes()
}

#[test]
fn encode_then_decode_gives_the_message() {
    let empty = Png::from_chunks(Vec::new()).as_bytes();
    let file = encode(&empty, "RuSt", MESSAGE).unwrap();
    let png = Png::try_from(file.as_slice()).unwrap();
    assert_eq!(png.chunks().len(), 1);
    assert_eq!(png.chunks()[0].crc(), 2882656334);
    assert_eq!(decode(&file, "RuSt"), Ok(String::from(MESSAGE)));
    assert_eq!(decode(&file, "xxXX"), Err(Error::NotFound));
}

#[test]
fn encode_appends_one_chunk_and_keeps_the_rest() {
    let input = small_file();
    let output = encode(&input, "RuSt", "hello").unwrap();
    let mut expected = input.clone();
    expected.extend_from_slice(&chunk_from_strings("RuSt", "hello").as_bytes());
    assert_eq!(output, expected);
    assert_eq!(output.len(), input.len() + 12 + 5);
}

#[test]
fn encode_writes_the_utf8_bytes_of_the_message() {
    let output = encode(&SIGNATURE, "RuSt", "\u{e9}").unwrap();
    let png = Png::try_from(output.as_slice()).unwrap();
    assert_eq!(png.chunks()[0].data(), &[0xc3, 0xa9]);
}

#[test]
fn encode_rejects_a_bad_file() {
    assert_eq!(encode(&[], "RuSt", "hello"), Err(Error::BadSignature));
    assert_eq!(encode(&[1, 2, 3, 4, 5, 6, 7, 8], "RuSt", "hello"), Err(Error::BadSignature));
    let mut input = small_file();
    input.push(0);
    assert_eq!(encode(&input, "RuSt", "hello"), Err(Error::Truncated));
    let mut input = small_file();
    input[8 + 9] ^= 0x01;
    assert_eq!(encode(&input, "RuSt", "hello"), Err(Error::CrcMismatch));
    let mut input = small_file();
    input[8 + 4] = b'1';
    assert_eq!(encode(&input, "RuSt", "hello"), Err(Error::InvalidChunkType));
}

#[test]
fn encode_rejects_a_bad_chunk_type() {
    let input = small_file();
    assert_eq!(encode(&input, "RuS", "hello"), Err(Error::InvalidLength));
    assert_eq!(encode(&input, "RuStt", "hello"), Err(Error::InvalidLength));
    assert_eq!(encode(&input, "Ru1t", "hello"), Err(Error::InvalidByte));
}

#[test]
fn encode_reads_the_file_before_the_chunk_type() {
    assert_eq!(encode(&[0; 8], "Ru1t", "hello"), Err(Error::BadSignature));
    assert_eq!(encode(&[0; 8], "toolong", "hello"), Err(Error::BadSignature));
}

#[test]
fn decode_reads_the_first_chunk_of_the_type() {
    let file = encode(&small_file(), "RuSt", "first").unwrap();
    let file = encode(&file, "RuSt", "second").unwrap();
    assert_eq!(decode(&file, "RuSt"), Ok(String::from("first")));
    assert_eq!(decode(&file, "IDAT"), Ok(String::from("pixels")));
    assert_eq!(decode(&file, "IEND"), Ok(String::new()));
}

#[test]
fn decode_failures() {
    let file = small_file();
    assert_eq!(decode(&file, "RuSt"), Err(Error::NotFound));
    assert_eq!(decode(&file, "idat"), Err(Error::NotFound));
    assert_eq!(decode(&file, "not a type"), Err(Error::NotFound));
    assert_eq!(decode(&file[..file.len() - 1], "IDAT"), Err(Error::Truncated));
    assert_eq!(decode(&file[1..], "IDAT"), Err(Error::BadSignature));
}

#[test]
fn decode_shows_each_byte_as_one_character() {
    let file = encode(&SIGNATURE, "RuSt", "\u{e9}").unwrap();
    assert_eq!(decode(&file, "RuSt"), Ok(String::from("\u{c3}\u{a9}")));
}

#[test]
fn remove_undoes_encode() {
    let input = small_file();
    let with_message = encode(&input, "RuSt", MESSAGE).unwrap();
    assert_eq!(remove(&with_message, "RuSt"), Ok(input));
}

#[test]
fn remove_takes_out_only_the_first_chunk_of_the_type() {
    let file = Png::from_chunks(vec![
        chunk_from_strings("ABcd", "one"),
        chunk_from_strings("ABcd", "two"),
        chunk_from_strings("EFgh", "three"),
    ])
    .as_bytes();
    let expected = Png::from_chunks(vec![
        chunk_from_strings("ABcd", "two"),
        chunk_from_strings("EFgh", "three"),
    ])
    .as_bytes();
    assert_eq!(remove(&file, "ABcd"), Ok(expected));
}

#[test]
fn remove_failures() {
    let file = small_file();
    assert_eq!(remove(&file, "RuSt"), Err(Error::NotFound));
    assert_eq!(remove(&file, ""), Err(Error::NotFound));
    assert_eq!(remove(&file[..10], "IDAT"), Err(Error::Truncated));
    assert_eq!(remove(&file[..7], "IDAT"), Err(Error::BadSignature));
}

#[test]
fn print_shows_the_chunk_texts() {
    assert_eq!(print(&small_file()), Ok(String::from("headpixels")));
    assert_eq!(print(&SIGNATURE), Ok(String::new()));
    let file = encode(&small_file(), "RuSt", MESSAGE).unwrap();
    assert_eq!(print(&file), Ok(format!("headpixels{}", MESSAGE)));
}

#[test]
fn print_failures() {
    assert_eq!(print(&[]), Err(Error::BadSignature));
    let mut file = small_file();
    let last = file.len() - 1;
    file[last] ^= 0x80;
    assert_eq!(print(&file), Err(Error::CrcMismatch));
}
