//! One chunk of a PNG file: its type, its data, and the length and checksum
//! that frame them in the byte stream.

use crate::checksum::{
    checksum_ieee, crc32_ieee, differ_only_at, lemma_one_byte_changes_checksum,
};
use crate::chunk_type::{valid_code, ChunkType};
use crate::endian::{
    be32, be32_bytes, lemma_be32_of_bytes, lemma_bytes_of_be32, read_be32, write_be32,
};
use crate::error::Error;
use crate::text::{latin1, latin1_string};
use std::convert::TryFrom;
use vstd::prelude::*;
use vstd::slice::slice_to_vec;
use vstd::std_specs::convert::TryFromSpecImpl;

verus! {

/// What a chunk is: its type code and its data. The length and the checksum
/// follow from these two.
pub struct ChunkView {
    pub chunk_type: Seq<u8>,
    pub data: Seq<u8>,
}

impl ChunkView {
    /// Whether a chunk can hold this: a type of four letters, and data whose
    /// length fits 32 bits.
    pub open spec fn valid(self) -> bool {
        valid_code(self.chunk_type) && self.data.len() <= u32::MAX
    }

    /// What the checksum covers: the type, then the data.
    pub open spec fn body(self) -> Seq<u8> {
        self.chunk_type + self.data
    }

    /// The checksum of the chunk.
    pub open spec fn crc(self) -> u32 {
        crc32_ieee(self.body())
    }

    /// The chunk in a byte stream: the length of the data, the type, the
    /// data, and the checksum, the two numbers most significant byte first.
    pub open spec fn bytes(self) -> Seq<u8> {
        be32_bytes(self.data.len() as u32) + self.chunk_type + self.data + be32_bytes(self.crc())
    }
}

/// What reading one chunk from the start of `bytes` gives. The length and the
/// type are read first and the type is checked; then the data and the
/// checksum are read, and the checksum is compared with that of the type and
/// data. Bytes after the chunk are left alone.
pub open spec fn parse_chunk(bytes: Seq<u8>) -> Result<ChunkView, Error> {
    if bytes.len() < 8 {
        Err(Error::Truncated)
    } else if !valid_code(bytes.subrange(4, 8)) {
        Err(Error::InvalidChunkType)
    } else {
        let length = be32(bytes.subrange(0, 4));
        if bytes.len() < 12 + length {
            Err(Error::Truncated)
        } else if crc32_ieee(bytes.subrange(4, 8 + length)) != be32(
            bytes.subrange(8 + length, 12 + length),
        ) {
            Err(Error::CrcMismatch)
        } else {
            Ok(ChunkView { chunk_type: bytes.subrange(4, 8), data: bytes.subrange(8, 8 + length) })
        }
    }
}

/// `bytes` with one bit of the byte at `at` inverted: bit 0 is the lowest.
pub open spec fn flip_bit(bytes: Seq<u8>, at: int, bit: u8) -> Seq<u8> {
    bytes.update(at, bytes[at] ^ (1u8 << bit))
}

/// A chunk written to bytes takes twelve bytes more than its data.
pub proof fn lemma_bytes_len(chunk: ChunkView)
    requires
        chunk.valid(),
    ensures
        chunk.bytes().len() == 12 + chunk.data.len(),
{
}

/// Reading a written chunk gives the chunk back, whatever follows it in the
/// byte stream.
pub proof fn lemma_parse_bytes(chunk: ChunkView, rest: Seq<u8>)
    requires
        chunk.valid(),
    ensures
        parse_chunk(chunk.bytes() + rest) == Ok::<ChunkView, Error>(chunk),
{
    let length = chunk.data.len() as u32;
    let bytes = chunk.bytes() + rest;
    lemma_be32_of_bytes(length);
    lemma_be32_of_bytes(chunk.crc());
    assert(bytes.subrange(0, 4) =~= be32_bytes(length));
    assert(bytes.subrange(4, 8) =~= chunk.chunk_type);
    assert(bytes.subrange(8, 8 + length) =~= chunk.data);
    assert(bytes.subrange(4, 8 + length) =~= chunk.body());
    assert(bytes.subrange(8 + length, 12 + length) =~= be32_bytes(chunk.crc()));
}

/// A chunk that was read is valid, and writing it gives the very bytes it was
/// read from.
pub proof fn lemma_bytes_of_parsed(bytes: Seq<u8>, chunk: ChunkView)
    requires
        parse_chunk(bytes) == Ok::<ChunkView, Error>(chunk),
    ensures
        chunk.valid(),
        12 + chunk.data.len() <= bytes.len(),
        chunk.bytes() == bytes.subrange(0, 12 + chunk.data.len() as int),
{
    let length = be32(bytes.subrange(0, 4));
    lemma_bytes_of_be32(bytes.subrange(0, 4));
    lemma_bytes_of_be32(bytes.subrange(8 + length, 12 + length));
    assert(bytes.subrange(4, 8 + length) =~= chunk.body());
    assert(chunk.bytes() =~= bytes.subrange(0, 12 + length));
}

/// A single inverted bit in the type or data of a written chunk is caught:
/// with the length and checksum left as they were, reading fails with
/// `CrcMismatch`. `at` counts the bytes of the type and data together. Where
/// the bit turns a letter of the type into something else, reading fails
/// earlier, with `InvalidChunkType`, so those flips are left out.
pub proof fn lemma_bit_flip_is_caught(chunk: ChunkView, at: int, bit: u8, rest: Seq<u8>)
    requires
        chunk.valid(),
        0 <= at < chunk.body().len(),
        bit < 8,
        valid_code(flip_bit(chunk.body(), at, bit).subrange(0, 4)),
    ensures
        parse_chunk(
            be32_bytes(chunk.data.len() as u32) + flip_bit(chunk.body(), at, bit) + be32_bytes(
                chunk.crc(),
            ) + rest,
        ) == Err::<ChunkView, Error>(Error::CrcMismatch),
{
    let length = chunk.data.len() as u32;
    let body = chunk.body();
    let flipped = flip_bit(body, at, bit);
    let bytes = be32_bytes(length) + flipped + be32_bytes(chunk.crc()) + rest;
    let byte = body[at];
    assert(byte ^ (1u8 << bit) != byte) by (bit_vector)
        requires
            bit < 8,
    ;
    assert(differ_only_at(flipped, body, at));
    lemma_one_byte_changes_checksum(flipped, body, at);
    lemma_be32_of_bytes(length);
    lemma_be32_of_bytes(chunk.crc());
    assert(bytes.subrange(0, 4) =~= be32_bytes(length));
    assert(bytes.subrange(4, 8) =~= flipped.subrange(0, 4));
    assert(bytes.subrange(4, 8 + length) =~= flipped);
    assert(bytes.subrange(8 + length, 12 + length) =~= be32_bytes(chunk.crc()));
}

/// No single inverted bit in the type or data of a written chunk goes
/// unnoticed: reading fails with `InvalidChunkType` where the type is no
/// longer four letters, and with `CrcMismatch` otherwise.
pub proof fn lemma_bit_flip_is_refused(chunk: ChunkView, at: int, bit: u8, rest: Seq<u8>)
    requires
        chunk.valid(),
        0 <= at < chunk.body().len(),
        bit < 8,
    ensures
        parse_chunk(
            be32_bytes(chunk.data.len() as u32) + flip_bit(chunk.body(), at, bit) + be32_bytes(
                chunk.crc(),
            ) + rest,
        ) == Err::<ChunkView, Error>(
            if valid_code(flip_bit(chunk.body(), at, bit).subrange(0, 4)) {
                Error::CrcMismatch
            } else {
                Error::InvalidChunkType
            },
        ),
{
    let flipped = flip_bit(chunk.body(), at, bit);
    if valid_code(flipped.subrange(0, 4)) {
        lemma_bit_flip_is_caught(chunk, at, bit, rest);
    } else {
        let bytes = be32_bytes(chunk.data.len() as u32) + flipped + be32_bytes(chunk.crc()) + rest;
        assert(bytes.subrange(4, 8) =~= flipped.subrange(0, 4));
    }
}

/// A chunk of a PNG file. Its length is always that of its data, and its
/// checksum always that of its type and data.
#[derive(Debug)]
pub struct Chunk {
    length: u32,
    chunk_type: ChunkType,
    data: Vec<u8>,
    crc: u32,
}

impl View for Chunk {
    type V = ChunkView;

    closed spec fn view(&self) -> ChunkView {
        ChunkView { chunk_type: self.chunk_type@, data: self.data@ }
    }
}

impl Chunk {
    /// The length and the checksum agree with the type and data.
    #[verifier::type_invariant]
    pub closed spec fn inv(self) -> bool {
        &&& self.chunk_type.inv()
        &&& self.length == self.data@.len()
        &&& self.crc == crc32_ieee(self.chunk_type@ + self.data@)
    }

    /// Some well-formed chunk whose view is `view`.
    pub closed spec fn of(view: ChunkView) -> Chunk {
        choose|chunk: Chunk| chunk@ == view && chunk.inv()
    }

    /// A well-formed chunk holds a type of four letters and data whose
    /// length fits 32 bits.
    pub proof fn lemma_valid(self)
        requires
            self.inv(),
        ensures
            self@.valid(),
    {
        self.chunk_type.lemma_view();
    }

    /// A chunk of the given type that holds `data`.
    pub fn new(chunk_type: ChunkType, data: Vec<u8>) -> (chunk: Chunk)
        requires
            data@.len() <= u32::MAX,
        ensures
            chunk@ == (ChunkView { chunk_type: chunk_type@, data: data@ }),
            chunk@.valid(),
    {
        proof {
            use_type_invariant(&chunk_type);
            chunk_type.lemma_view();
        }
        let crc = Chunk::calc_crc(&chunk_type, data.as_slice());
        Chunk { length: data.len() as u32, chunk_type, data, crc }
    }

    /// The number of bytes of data.
    pub fn length(&self) -> (length: u32)
        ensures
            length == self@.data.len(),
    {
        proof {
            use_type_invariant(self);
        }
        self.length
    }

    /// The type of the chunk.
    pub fn chunk_type(&self) -> (chunk_type: &ChunkType)
        ensures
            chunk_type@ == self@.chunk_type,
            valid_code(chunk_type@),
    {
        proof {
            use_type_invariant(self);
            self.chunk_type.lemma_view();
        }
        &self.chunk_type
    }

    /// The data of the chunk.
    pub fn data(&self) -> (data: &[u8])
        ensures
            data@ == self@.data,
    {
        self.data.as_slice()
    }

    /// The checksum of the type and data.
    pub fn crc(&self) -> (crc: u32)
        ensures
            crc == self@.crc(),
    {
        proof {
            use_type_invariant(self);
        }
        self.crc
    }

    /// The data as text, one character for each byte. Every chunk has one.
    pub fn data_as_string(&self) -> (text: Result<String, Error>)
        ensures
            text is Ok,
            text.unwrap()@ == latin1(self@.data),
    {
        Ok(latin1_string(self.data.as_slice()))
    }

    /// The data as text, as `data_as_string` gives it.
    pub fn to_string(&self) -> (text: String)
        ensures
            text@ == latin1(self@.data),
    {
        latin1_string(self.data.as_slice())
    }

    /// The chunk as it stands in a file.
    pub fn as_bytes(&self) -> (bytes: Vec<u8>)
        ensures
            bytes@ == self@.bytes(),
            self@.valid(),
    {
        proof {
            use_type_invariant(self);
            self.lemma_valid();
        }
        let length = write_be32(self.length);
        let code = self.chunk_type.bytes();
        let crc = write_be32(self.crc);
        let mut bytes: Vec<u8> = Vec::new();
        bytes.extend_from_slice(length.as_slice());
        bytes.extend_from_slice(code.as_slice());
        bytes.extend_from_slice(self.data.as_slice());
        bytes.extend_from_slice(crc.as_slice());
        assert(bytes@ =~= self@.bytes());
        bytes
    }

    /// The number of bytes that the chunk at the start of `arr` takes in all,
    /// going by the length it begins with: twelve more than that length.
    /// `Truncated` where `arr` is too short to hold a length. The sum must
    /// fit 32 bits.
    pub fn get_total_length_from_bytes(arr: &[u8]) -> (total: Result<u32, Error>)
        requires
            arr@.len() >= 4 ==> 12 + be32(arr@.subrange(0, 4)) <= u32::MAX,
        ensures
            match total {
                Ok(n) => arr@.len() >= 4 && n == 12 + be32(arr@.subrange(0, 4)),
                Err(e) => arr@.len() < 4 && e == Error::Truncated,
            },
    {
        let overhead: u32 = 12;
        if arr.len() < 4 {
            return Err(Error::Truncated);
        }
        let len = read_be32(arr, 0);
        Ok(overhead + len)
    }

    fn calc_crc(chunk_type: &ChunkType, data: &[u8]) -> (crc: u32)
        ensures
            crc == crc32_ieee(chunk_type@ + data@),
    {
        let code = chunk_type.bytes();
        let mut check_me: Vec<u8> = Vec::new();
        check_me.extend_from_slice(code.as_slice());
        check_me.extend_from_slice(data);
        assert(check_me@ =~= chunk_type@ + data@);
        checksum_ieee(check_me.as_slice())
    }
}

/// Two chunks with one view need not be one value, so `try_from` states its
/// result over the view, in its own contract, and not through `try_from_spec`.
impl<'a> TryFromSpecImpl<&'a [u8]> for Chunk {
    open spec fn obeys_try_from_spec() -> bool {
        false
    }

    open spec fn try_from_spec(arr: &'a [u8]) -> Result<Self, Error> {
        match parse_chunk(arr@) {
            Ok(view) => Ok(Chunk::of(view)),
            Err(e) => Err(e),
        }
    }
}

impl<'a> TryFrom<&'a [u8]> for Chunk {
    type Error = Error;

    /// Reads the chunk that `arr` starts with, as `parse_chunk` says. The
    /// chunk takes the first `12 + length` bytes of `arr`, and written again
    /// it gives those very bytes.
    fn try_from(arr: &'a [u8]) -> (parsed: Result<Self, Error>)
        ensures
            match parsed {
                Ok(chunk) => {
                    &&& parse_chunk(arr@) == Ok::<ChunkView, Error>(chunk@)
                    &&& 12 + chunk@.data.len() <= arr@.len()
                    &&& chunk@.bytes() == arr@.take(12 + chunk@.data.len() as int)
                },
                Err(e) => parse_chunk(arr@) == Err::<ChunkView, Error>(e),
            },
    {
        if arr.len() < 8 {
            return Err(Error::Truncated);
        }
        let len = read_be32(arr, 0);
        let type_arr: [u8; 4] = [arr[4], arr[5], arr[6], arr[7]];
        assert(type_arr@ =~= arr@.subrange(4, 8));
        let chunk_type = match ChunkType::try_from(type_arr) {
            Ok(c) => c,
            Err(_) => return Err(Error::InvalidChunkType),
        };
        if arr.len() - 8 < len as usize || arr.len() - 8 - (len as usize) < 4 {
            return Err(Error::Truncated);
        }
        let data_end = 8 + len as usize;
        let data = slice_to_vec(&arr[8..data_end]);
        let crc = read_be32(arr, data_end);
        assert(arr@.subrange(4, 8 + len) =~= chunk_type@ + data@);
        if Chunk::calc_crc(&chunk_type, data.as_slice()) != crc {
            return Err(Error::CrcMismatch);
        }
        proof {
            use_type_invariant(&chunk_type);
        }
        let chunk = Chunk { length: len, chunk_type, data, crc };
        proof {
            lemma_bytes_of_parsed(arr@, chunk@);
        }
        Ok(chunk)
    }
}

} // verus!
