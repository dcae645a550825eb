//! The four things to do with a PNG file, each from the bytes of the file to
//! the bytes or text that result: hide a message in a chunk, read it, take
//! it out again, and show what the file holds.

use crate::chunk::{Chunk, ChunkView};
use crate::chunk_type::{parse_code, valid_code, ChunkType};
use crate::error::Error;
use crate::png::{
    chunks_text, lemma_bytes_of_parsed_png, lemma_parse_png_bytes, lemma_position_found,
    none_of_type, parse_png, png_bytes, position_of_type, Png,
};
use crate::text::latin1;
use std::convert::TryFrom;
use std::str::FromStr;
use vstd::prelude::*;
use vstd::slice::slice_to_vec;
use vstd::string::StringSliceAdditionalSpecFns;

verus! {

/// What `encode` gives for a file, the bytes of a type text and the bytes of
/// a message. The file is read first, then the type; where both are good the
/// result is the file with one more chunk at its end.
pub open spec fn encoded(input: Seq<u8>, code: Seq<u8>, message: Seq<u8>) -> Result<
    Seq<u8>,
    Error,
> {
    match parse_png(input) {
        Err(e) => Err(e),
        Ok(_) => match parse_code(code) {
            Err(e) => Err(e),
            Ok(code) => Ok(input + (ChunkView { chunk_type: code, data: message }).bytes()),
        },
    }
}

/// A file to which a chunk was added holds the chunks it held and, after
/// them, the new one.
pub proof fn lemma_encoded_holds_message(
    input: Seq<u8>,
    chunks: Seq<ChunkView>,
    chunk: ChunkView,
)
    requires
        parse_png(input) == Ok::<Seq<ChunkView>, Error>(chunks),
    ensures
        input + chunk.bytes() == png_bytes(chunks.push(chunk)),
{
    lemma_bytes_of_parsed_png(input, chunks);
    assert(chunks.push(chunk).drop_last() =~= chunks);
    assert(input + chunk.bytes() =~= png_bytes(chunks.push(chunk)));
}

/// Adds a chunk of type `chunk_type` that holds the bytes of `msg` at the
/// end of the file `input`, and gives the new file. The message must fit a
/// chunk: at most 2^32 - 1 bytes.
pub fn encode(input: &[u8], chunk_type: &str, msg: &str) -> (output: Result<Vec<u8>, Error>)
    requires
        msg.spec_bytes().len() <= u32::MAX,
    ensures
        match output {
            Ok(bytes) => encoded(input@, chunk_type.spec_bytes(), msg.spec_bytes()) == Ok::<
                Seq<u8>,
                Error,
            >(bytes@),
            Err(e) => encoded(input@, chunk_type.spec_bytes(), msg.spec_bytes()) == Err::<
                Seq<u8>,
                Error,
            >(e),
        },
{
    let mut png = match Png::try_from(input) {
        Ok(png) => png,
        Err(e) => return Err(e),
    };
    let chunk_type = match ChunkType::from_str(chunk_type) {
        Ok(c) => c,
        Err(e) => return Err(e),
    };
    let chunk = Chunk::new(chunk_type, slice_to_vec(msg.as_bytes()));
    proof {
        lemma_encoded_holds_message(input@, png@, chunk@);
    }
    png.append_chunk(chunk);
    Ok(png.as_bytes())
}

/// What `decode` gives for a file and a type text: the data of the first
/// chunk of that type, as text.
pub open spec fn decoded(input: Seq<u8>, type_text: Seq<char>) -> Result<Seq<char>, Error> {
    match parse_png(input) {
        Err(e) => Err(e),
        Ok(chunks) => match position_of_type(chunks, type_text) {
            Some(at) => Ok(latin1(chunks[at].data)),
            None => Err(Error::NotFound),
        },
    }
}

/// What `remove` gives for a file and a type text: the file without the
/// first chunk of that type.
pub open spec fn removed(input: Seq<u8>, type_text: Seq<char>) -> Result<Seq<u8>, Error> {
    match parse_png(input) {
        Err(e) => Err(e),
        Ok(chunks) => match position_of_type(chunks, type_text) {
            Some(at) => Ok(png_bytes(chunks.remove(at))),
            None => Err(Error::NotFound),
        },
    }
}

/// What `print` gives for a file: the data of its chunks as text, one after
/// the other.
pub open spec fn printed(input: Seq<u8>) -> Result<Seq<char>, Error> {
    match parse_png(input) {
        Err(e) => Err(e),
        Ok(chunks) => Ok(chunks_text(chunks)),
    }
}

/// A message hidden in a file that held no chunk of its type is the message
/// that `decode` then reads, and `remove` then gives the file as it was.
pub proof fn lemma_encoded_message_is_found(input: Seq<u8>, code: Seq<u8>, message: Seq<u8>)
    requires
        parse_png(input) is Ok,
        none_of_type(parse_png(input)->Ok_0, latin1(code)),
        valid_code(code),
        message.len() <= u32::MAX,
    ensures
        encoded(input, code, message) is Ok,
        decoded(encoded(input, code, message)->Ok_0, latin1(code)) == Ok::<Seq<char>, Error>(
            latin1(message),
        ),
        removed(encoded(input, code, message)->Ok_0, latin1(code)) == Ok::<Seq<u8>, Error>(input),
{
    let chunks = parse_png(input)->Ok_0;
    let chunk = ChunkView { chunk_type: code, data: message };
    let output = input + chunk.bytes();
    let held = chunks.push(chunk);
    let at = chunks.len() as int;
    lemma_encoded_holds_message(input, chunks, chunk);
    lemma_bytes_of_parsed_png(input, chunks);
    lemma_parse_png_bytes(held);
    assert(held.take(at) =~= chunks);
    lemma_position_found(held, latin1(code), at);
    assert(held.remove(at) =~= chunks);
}

/// The message in the first chunk of type `chunk_type` of the file `input`,
/// one character for each byte. `NotFound` where the file has no such chunk.
pub fn decode(input: &[u8], chunk_type: &str) -> (message: Result<String, Error>)
    ensures
        match message {
            Ok(text) => decoded(input@, chunk_type@) == Ok::<Seq<char>, Error>(text@),
            Err(e) => decoded(input@, chunk_type@) == Err::<Seq<char>, Error>(e),
        },
{
    let png = match Png::try_from(input) {
        Ok(png) => png,
        Err(e) => return Err(e),
    };
    let chunk = match png.chunk_by_type(chunk_type) {
        Some(c) => c,
        None => return Err(Error::NotFound),
    };
    chunk.data_as_string()
}

/// The file `input` without its first chunk of type `chunk_type`; all else
/// stays as it is. `NotFound` where the file has no such chunk.
pub fn remove(input: &[u8], chunk_type: &str) -> (output: Result<Vec<u8>, Error>)
    ensures
        match output {
            Ok(bytes) => removed(input@, chunk_type@) == Ok::<Seq<u8>, Error>(bytes@),
            Err(e) => removed(input@, chunk_type@) == Err::<Seq<u8>, Error>(e),
        },
{
    let mut png = match Png::try_from(input) {
        Ok(png) => png,
        Err(e) => return Err(e),
    };
    match png.remove_chunk(chunk_type) {
        Ok(_) => {},
        Err(e) => return Err(e),
    }
    Ok(png.as_bytes())
}

/// What the file `input` holds, as text: the data of its chunks, one after
/// the other.
pub fn print(input: &[u8]) -> (shown: Result<String, Error>)
    ensures
        match shown {
            Ok(text) => printed(input@) == Ok::<Seq<char>, Error>(text@),
            Err(e) => printed(input@) == Err::<Seq<char>, Error>(e),
        },
{
    let png = match Png::try_from(input) {
        Ok(png) => png,
        Err(e) => return Err(e),
    };
    Ok(png.to_string())
}

} // verus!
