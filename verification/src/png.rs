//! A whole PNG file: the signature and the chunks that follow it, in order.

use crate::chunk::{
    lemma_bytes_len, lemma_bytes_of_parsed, lemma_parse_bytes, parse_chunk, Chunk, ChunkView,
};
use crate::error::Error;
use crate::text::latin1;
use std::convert::TryFrom;
use vstd::prelude::*;
use vstd::std_specs::convert::TryFromSpecImpl;
use vstd::string::StringExecFns;

verus! {

/// The eight bytes that every PNG file starts with.
pub open spec fn signature() -> Seq<u8> {
    seq![137u8, 80u8, 78u8, 71u8, 13u8, 10u8, 26u8, 10u8]
}

/// Whether all of `chunks` are valid.
pub open spec fn all_valid(chunks: Seq<ChunkView>) -> bool {
    forall|i: int| 0 <= i < chunks.len() ==> (#[trigger] chunks[i]).valid()
}

/// The chunks written one after the other.
pub open spec fn chunks_bytes(chunks: Seq<ChunkView>) -> Seq<u8>
    decreases chunks.len(),
{
    if chunks.len() == 0 {
        Seq::empty()
    } else {
        chunks_bytes(chunks.drop_last()) + chunks.last().bytes()
    }
}

/// The file that holds `chunks`: the signature, then the chunks.
pub open spec fn png_bytes(chunks: Seq<ChunkView>) -> Seq<u8> {
    signature() + chunks_bytes(chunks)
}

/// What reading chunks from `bytes` until none are left gives: all the
/// chunks, or the error of the first chunk that cannot be read.
pub open spec fn parse_chunks(bytes: Seq<u8>) -> Result<Seq<ChunkView>, Error>
    decreases bytes.len(),
{
    if bytes.len() == 0 {
        Ok(Seq::empty())
    } else {
        match parse_chunk(bytes) {
            Err(e) => Err(e),
            Ok(first) => match parse_chunks(bytes.skip(12 + first.data.len() as int)) {
                Err(e) => Err(e),
                Ok(rest) => Ok(seq![first] + rest),
            },
        }
    }
}

/// What reading a file from `bytes` gives: `BadSignature` unless `bytes`
/// starts with the signature, and else what reading chunks from the rest
/// gives.
pub open spec fn parse_png(bytes: Seq<u8>) -> Result<Seq<ChunkView>, Error> {
    if bytes.len() < 8 || bytes.subrange(0, 8) != signature() {
        Err(Error::BadSignature)
    } else {
        parse_chunks(bytes.skip(8))
    }
}

/// Whether the type of `chunk` is spelled `type_text`.
pub open spec fn has_type(chunk: ChunkView, type_text: Seq<char>) -> bool {
    latin1(chunk.chunk_type) == type_text
}

/// Whether no chunk of `chunks` has the type `type_text`.
pub open spec fn none_of_type(chunks: Seq<ChunkView>, type_text: Seq<char>) -> bool {
    forall|i: int| 0 <= i < chunks.len() ==> !has_type(#[trigger] chunks[i], type_text)
}

/// Whether the chunk at `at` is the first of `chunks` with the type
/// `type_text`.
pub open spec fn first_of_type(chunks: Seq<ChunkView>, type_text: Seq<char>, at: int) -> bool {
    &&& 0 <= at < chunks.len()
    &&& has_type(chunks[at], type_text)
    &&& none_of_type(chunks.take(at), type_text)
}

/// The index of the first chunk of `chunks` with the type `type_text`, where
/// one has it.
pub open spec fn position_of_type(chunks: Seq<ChunkView>, type_text: Seq<char>) -> Option<int> {
    if exists|at: int| first_of_type(chunks, type_text, at) {
        Some(choose|at: int| first_of_type(chunks, type_text, at))
    } else {
        None
    }
}

/// The data of all the chunks as text, one after the other.
pub open spec fn chunks_text(chunks: Seq<ChunkView>) -> Seq<char>
    decreases chunks.len(),
{
    if chunks.len() == 0 {
        Seq::empty()
    } else {
        chunks_text(chunks.drop_last()) + latin1(chunks.last().data)
    }
}

/// Writing chunks after others writes their bytes after the others' bytes.
pub proof fn lemma_chunks_bytes_concat(front: Seq<ChunkView>, back: Seq<ChunkView>)
    ensures
        chunks_bytes(front + back) == chunks_bytes(front) + chunks_bytes(back),
    decreases back.len(),
{
    if back.len() == 0 {
        assert(front + back =~= front);
        assert(chunks_bytes(front) + chunks_bytes(back) =~= chunks_bytes(front));
    } else {
        lemma_chunks_bytes_concat(front, back.drop_last());
        assert((front + back).drop_last() =~= front + back.drop_last());
        assert(chunks_bytes(front + back) =~= chunks_bytes(front) + chunks_bytes(back));
    }
}

/// One chunk alone is written as its own bytes.
pub proof fn lemma_chunks_bytes_single(chunk: ChunkView)
    ensures
        chunks_bytes(seq![chunk]) == chunk.bytes(),
{
    reveal_with_fuel(chunks_bytes, 2);
    assert(seq![chunk].drop_last() =~= Seq::<ChunkView>::empty());
    assert(chunks_bytes(seq![chunk]) =~= chunk.bytes());
}

/// Chunks that were read are valid, and writing them gives the very bytes
/// they were read from.
pub proof fn lemma_bytes_of_parsed_chunks(bytes: Seq<u8>, chunks: Seq<ChunkView>)
    requires
        parse_chunks(bytes) == Ok::<Seq<ChunkView>, Error>(chunks),
    ensures
        all_valid(chunks),
        chunks_bytes(chunks) == bytes,
    decreases bytes.len(),
{
    if bytes.len() == 0 {
        assert(chunks_bytes(chunks) =~= bytes);
    } else {
        let first = parse_chunk(bytes)->Ok_0;
        let used = 12 + first.data.len() as int;
        let rest = parse_chunks(bytes.skip(used))->Ok_0;
        lemma_bytes_of_parsed(bytes, first);
        lemma_bytes_of_parsed_chunks(bytes.skip(used), rest);
        lemma_chunks_bytes_concat(seq![first], rest);
        lemma_chunks_bytes_single(first);
        assert(bytes =~= bytes.subrange(0, used) + bytes.skip(used));
    }
}

/// Reading written chunks gives the chunks back.
pub proof fn lemma_parse_chunks_bytes(chunks: Seq<ChunkView>)
    requires
        all_valid(chunks),
    ensures
        parse_chunks(chunks_bytes(chunks)) == Ok::<Seq<ChunkView>, Error>(chunks),
    decreases chunks.len(),
{
    if chunks.len() == 0 {
        assert(chunks =~= Seq::<ChunkView>::empty());
    } else {
        let first = chunks.first();
        let rest = chunks.drop_first();
        let bytes = chunks_bytes(chunks);
        let tail = chunks_bytes(rest);
        let used = 12 + first.data.len() as int;
        assert(chunks =~= seq![first] + rest);
        assert(all_valid(rest)) by {
            assert forall|i: int| 0 <= i < rest.len() implies (#[trigger] rest[i]).valid() by {
                assert(rest[i] == chunks[i + 1]);
            }
        }
        assert(bytes == first.bytes() + tail) by {
            lemma_chunks_bytes_concat(seq![first], rest);
            lemma_chunks_bytes_single(first);
        }
        assert(parse_chunk(bytes) == Ok::<ChunkView, Error>(first)) by {
            lemma_parse_bytes(first, tail);
        }
        assert(first.bytes().len() == used) by {
            lemma_bytes_len(first);
        }
        assert(bytes.skip(used) =~= tail);
        lemma_parse_chunks_bytes(rest);
        assert(parse_chunks(bytes) == Ok::<Seq<ChunkView>, Error>(seq![first] + rest));
    }
}

/// A file that was read holds valid chunks, and writing it gives the very
/// bytes it was read from.
pub proof fn lemma_bytes_of_parsed_png(bytes: Seq<u8>, chunks: Seq<ChunkView>)
    requires
        parse_png(bytes) == Ok::<Seq<ChunkView>, Error>(chunks),
    ensures
        all_valid(chunks),
        png_bytes(chunks) == bytes,
{
    lemma_bytes_of_parsed_chunks(bytes.skip(8), chunks);
    assert(bytes =~= bytes.subrange(0, 8) + bytes.skip(8));
}

/// Reading a written file gives its chunks back.
pub proof fn lemma_parse_png_bytes(chunks: Seq<ChunkView>)
    requires
        all_valid(chunks),
    ensures
        parse_png(png_bytes(chunks)) == Ok::<Seq<ChunkView>, Error>(chunks),
{
    let bytes = png_bytes(chunks);
    lemma_parse_chunks_bytes(chunks);
    assert(bytes.subrange(0, 8) =~= signature());
    assert(bytes.skip(8) =~= chunks_bytes(chunks));
}

/// Bytes that do not start with the signature are never read as a file,
/// whatever follows.
pub proof fn lemma_signature_is_checked(bytes: Seq<u8>)
    requires
        bytes.len() < 8 || bytes.subrange(0, 8) != signature(),
    ensures
        parse_png(bytes) == Err::<Seq<ChunkView>, Error>(Error::BadSignature),
{
}

/// At most one chunk is the first of its type.
pub proof fn lemma_first_of_type_is_unique(
    chunks: Seq<ChunkView>,
    type_text: Seq<char>,
    a: int,
    b: int,
)
    requires
        first_of_type(chunks, type_text, a),
        first_of_type(chunks, type_text, b),
    ensures
        a == b,
{
    if a < b {
        assert(chunks.take(b)[a] == chunks[a]);
    } else if b < a {
        assert(chunks.take(a)[b] == chunks[b]);
    }
}

/// The first chunk of a type is where `position_of_type` says.
pub proof fn lemma_position_found(chunks: Seq<ChunkView>, type_text: Seq<char>, at: int)
    requires
        first_of_type(chunks, type_text, at),
    ensures
        position_of_type(chunks, type_text) == Some(at),
{
    let chosen = choose|at: int| first_of_type(chunks, type_text, at);
    lemma_first_of_type_is_unique(chunks, type_text, at, chosen);
}

/// `position_of_type` finds a chunk exactly when some chunk has the type,
/// and the chunk it finds is the first of them.
pub proof fn lemma_position_of_type(chunks: Seq<ChunkView>, type_text: Seq<char>)
    ensures
        match position_of_type(chunks, type_text) {
            Some(at) => first_of_type(chunks, type_text, at),
            None => none_of_type(chunks, type_text),
        },
{
    if position_of_type(chunks, type_text) is None {
        assert forall|i: int| 0 <= i < chunks.len() implies !has_type(
            #[trigger] chunks[i],
            type_text,
        ) by {
            if has_type(chunks[i], type_text) {
                lemma_some_chunk_is_first(chunks, type_text, i);
            }
        }
    }
}

proof fn lemma_none_of_type_grows(chunks: Seq<ChunkView>, type_text: Seq<char>, i: int)
    requires
        0 <= i < chunks.len(),
        none_of_type(chunks.take(i), type_text),
        !has_type(chunks[i], type_text),
    ensures
        none_of_type(chunks.take(i + 1), type_text),
{
    assert forall|j: int| 0 <= j < i + 1 implies !has_type(
        #[trigger] chunks.take(i + 1)[j],
        type_text,
    ) by {
        if j < i {
            assert(chunks.take(i)[j] == chunks.take(i + 1)[j]);
        }
    }
}

proof fn lemma_some_chunk_is_first(chunks: Seq<ChunkView>, type_text: Seq<char>, i: int)
    requires
        0 <= i < chunks.len(),
        has_type(chunks[i], type_text),
    ensures
        exists|at: int| first_of_type(chunks, type_text, at),
    decreases i,
{
    if none_of_type(chunks.take(i), type_text) {
        assert(first_of_type(chunks, type_text, i));
    } else {
        let j = choose|j: int|
            0 <= j < chunks.take(i).len() && has_type(#[trigger] chunks.take(i)[j], type_text);
        lemma_some_chunk_is_first(chunks, type_text, j);
    }
}

/// A PNG file in memory: its chunks, in the order of the file.
#[derive(Debug)]
pub struct Png {
    chunks: Vec<Chunk>,
}

impl View for Png {
    type V = Seq<ChunkView>;

    closed spec fn view(&self) -> Seq<ChunkView> {
        self.chunks@.map_values(|chunk: Chunk| chunk@)
    }
}

impl Png {
    /// The eight bytes that every PNG file starts with.
    pub const STANDARD_HEADER: [u8; 8] = [137, 80, 78, 71, 13, 10, 26, 10];

    /// Some file whose view is `view`.
    pub closed spec fn of(view: Seq<ChunkView>) -> Png {
        choose|png: Png| png@ == view
    }

    /// The file that holds `chunks`, in their order.
    pub fn from_chunks(chunks: Vec<Chunk>) -> (png: Png)
        ensures
            png@ == chunks@.map_values(|chunk: Chunk| chunk@),
    {
        Png { chunks }
    }

    /// The signature that the file starts with.
    pub fn header(&self) -> (header: [u8; 8])
        ensures
            header@ == signature(),
    {
        let header = Png::STANDARD_HEADER;
        assert(header@ =~= signature());
        header
    }

    /// The chunks of the file, in order.
    pub fn chunks(&self) -> (chunks: &[Chunk])
        ensures
            chunks@.map_values(|chunk: Chunk| chunk@) == self@,
    {
        self.chunks.as_slice()
    }

    /// Puts `chunk` at the end of the file.
    pub fn append_chunk(&mut self, chunk: Chunk)
        ensures
            final(self)@ == old(self)@.push(chunk@),
    {
        self.chunks.push(chunk);
        assert(self@ =~= old(self)@.push(chunk@));
    }

    /// The first chunk whose type is spelled `chunk_type`, if there is one.
    pub fn chunk_by_type(&self, chunk_type: &str) -> (found: Option<&Chunk>)
        ensures
            match position_of_type(self@, chunk_type@) {
                Some(at) => found is Some && found.unwrap()@ == self@[at],
                None => found is None,
            },
    {
        match self.find(chunk_type) {
            Some(at) => {
                assert(self@[at as int] == self.chunks@[at as int]@);
                Some(&self.chunks[at])
            },
            None => None,
        }
    }

    /// Takes the first chunk whose type is spelled `chunk_type` out of the
    /// file; the others keep their order. `NotFound` where no chunk has that
    /// type, and the file is then as it was.
    pub fn remove_chunk(&mut self, chunk_type: &str) -> (removed: Result<(), Error>)
        ensures
            match position_of_type(old(self)@, chunk_type@) {
                Some(at) => removed == Ok::<(), Error>(()) && final(self)@ == old(self)@.remove(at),
                None => removed == Err::<(), Error>(Error::NotFound) && final(self)@ == old(self)@,
            },
    {
        match self.find(chunk_type) {
            Some(at) => {
                self.chunks.remove(at);
                assert(self@ =~= old(self)@.remove(at as int));
                Ok(())
            },
            None => Err(Error::NotFound),
        }
    }

    /// Where the first chunk whose type is spelled `chunk_type` stands.
    fn find(&self, chunk_type: &str) -> (found: Option<usize>)
        ensures
            match position_of_type(self@, chunk_type@) {
                Some(at) => found is Some && found.unwrap() == at < self.chunks@.len(),
                None => found is None,
            },
    {
        let mut i: usize = 0;
        while i < self.chunks.len()
            invariant
                i <= self.chunks@.len(),
                none_of_type(self@.take(i as int), chunk_type@),
            decreases self.chunks@.len() - i,
        {
            if self.chunks[i].chunk_type().is_spelled(chunk_type) {
                proof {
                    lemma_position_found(self@, chunk_type@, i as int);
                }
                return Some(i);
            }
            proof {
                lemma_none_of_type_grows(self@, chunk_type@, i as int);
            }
            i += 1;
        }
        proof {
            assert(self@.take(i as int) =~= self@);
            lemma_position_of_type(self@, chunk_type@);
        }
        None
    }

    /// The file as bytes: the signature, then each chunk as it stands in a
    /// file.
    pub fn as_bytes(&self) -> (bytes: Vec<u8>)
        ensures
            bytes@ == png_bytes(self@),
            all_valid(self@),
    {
        let header = Png::STANDARD_HEADER;
        let mut bytes: Vec<u8> = Vec::new();
        bytes.extend_from_slice(header.as_slice());
        assert(bytes@ =~= signature());
        let mut i: usize = 0;
        while i < self.chunks.len()
            invariant
                i <= self.chunks@.len(),
                bytes@ == signature() + chunks_bytes(self@.take(i as int)),
                all_valid(self@.take(i as int)),
            decreases self.chunks@.len() - i,
        {
            let chunk_bytes = self.chunks[i].as_bytes();
            bytes.extend_from_slice(chunk_bytes.as_slice());
            proof {
                assert(self@.take(i + 1).drop_last() =~= self@.take(i as int));
                assert(bytes@ =~= signature() + chunks_bytes(self@.take(i + 1)));
            }
            i += 1;
        }
        assert(self@.take(i as int) =~= self@);
        bytes
    }

    /// The data of all the chunks as text, one after the other.
    pub fn to_string(&self) -> (text: String)
        ensures
            text@ == chunks_text(self@),
    {
        let mut text = String::new();
        let mut i: usize = 0;
        while i < self.chunks.len()
            invariant
                i <= self.chunks@.len(),
                text@ == chunks_text(self@.take(i as int)),
            decreases self.chunks@.len() - i,
        {
            let chunk_text = self.chunks[i].to_string();
            text.append(chunk_text.as_str());
            proof {
                assert(self@.take(i + 1).drop_last() =~= self@.take(i as int));
            }
            i += 1;
        }
        assert(self@.take(i as int) =~= self@);
        text
    }
}

/// Two files with one view need not be one value, so `try_from` states its
/// result over the view, in its own contract, and not through `try_from_spec`.
impl<'a> TryFromSpecImpl<&'a [u8]> for Png {
    open spec fn obeys_try_from_spec() -> bool {
        false
    }

    open spec fn try_from_spec(bytes: &'a [u8]) -> Result<Self, Error> {
        match parse_png(bytes@) {
            Ok(view) => Ok(Png::of(view)),
            Err(e) => Err(e),
        }
    }
}

impl<'a> TryFrom<&'a [u8]> for Png {
    type Error = Error;

    /// Reads a whole file, as `parse_png` says: all of `bytes` is read, and
    /// one chunk that cannot be read fails the whole. A file that was read
    /// gives, written again, the very bytes it was read from.
    fn try_from(bytes: &'a [u8]) -> (parsed: Result<Self, Error>)
        ensures
            match parsed {
                Ok(png) => {
                    &&& parse_png(bytes@) == Ok::<Seq<ChunkView>, Error>(png@)
                    &&& png_bytes(png@) == bytes@
                },
                Err(e) => parse_png(bytes@) == Err::<Seq<ChunkView>, Error>(e),
            },
    {
        let header = Png::STANDARD_HEADER;
        if bytes.len() < 8 {
            return Err(Error::BadSignature);
        }
        let mut k: usize = 0;
        while k < 8
            invariant
                k <= 8,
                8 <= bytes@.len(),
                header@ == signature(),
                forall|j: int| 0 <= j < k ==> bytes@[j] == signature()[j],
            decreases 8 - k,
        {
            if bytes[k] != header[k] {
                assert(bytes@.subrange(0, 8)[k as int] != signature()[k as int]);
                return Err(Error::BadSignature);
            }
            k += 1;
        }
        assert(bytes@.subrange(0, 8) =~= signature());
        let mut chunks: Vec<Chunk> = Vec::new();
        let mut at: usize = 8;
        while at < bytes.len()
            invariant
                8 <= at <= bytes@.len(),
                bytes@.subrange(0, 8) == signature(),
                parse_chunks(bytes@.skip(8)) == prepend(
                    chunks@.map_values(|chunk: Chunk| chunk@),
                    parse_chunks(bytes@.skip(at as int)),
                ),
            decreases bytes@.len() - at,
        {
            let ghost before = chunks@.map_values(|chunk: Chunk| chunk@);
            let chunk = match Chunk::try_from(&bytes[at..bytes.len()]) {
                Ok(chunk) => chunk,
                Err(e) => {
                    assert(bytes@.subrange(at as int, bytes@.len() as int) =~= bytes@.skip(
                        at as int,
                    ));
                    assert(parse_chunks(bytes@.skip(at as int)) == Err::<Seq<ChunkView>, Error>(e));
                    return Err(e);
                },
            };
            proof {
                assert(bytes@.subrange(at as int, bytes@.len() as int) =~= bytes@.skip(at as int));
                lemma_bytes_of_parsed(bytes@.skip(at as int), chunk@);
                let used = 12 + chunk@.data.len() as int;
                assert(bytes@.skip(at as int).skip(used) =~= bytes@.skip(at + used));
            }
            let used = 12 + chunk.length() as usize;
            chunks.push(chunk);
            at = at + used;
            proof {
                let after = chunks@.map_values(|chunk: Chunk| chunk@);
                assert(after =~= before.push(chunk@));
                lemma_prepend_push(before, chunk@, parse_chunks(bytes@.skip(at as int)));
            }
        }
        assert(bytes@.skip(at as int) =~= Seq::<u8>::empty());
        assert(chunks@.map_values(|chunk: Chunk| chunk@) + Seq::<ChunkView>::empty()
            =~= chunks@.map_values(|chunk: Chunk| chunk@));
        let png = Png { chunks };
        proof {
            lemma_bytes_of_parsed_png(bytes@, png@);
        }
        Ok(png)
    }
}

/// `read` after the chunks `front`, where reading went on after them.
spec fn prepend(front: Seq<ChunkView>, read: Result<Seq<ChunkView>, Error>) -> Result<
    Seq<ChunkView>,
    Error,
> {
    match read {
        Ok(rest) => Ok(front + rest),
        Err(e) => Err(e),
    }
}

proof fn lemma_prepend_push(
    front: Seq<ChunkView>,
    chunk: ChunkView,
    read: Result<Seq<ChunkView>, Error>,
)
    ensures
        prepend(front, prepend(seq![chunk], read)) == prepend(front.push(chunk), read),
{
    if let Ok(rest) = read {
        assert(front + (seq![chunk] + rest) =~= front.push(chunk) + rest);
    }
}

} // verus!
