//! The four-letter code that names a chunk's kind and carries its property
//! bits.

use crate::error::Error;
use crate::text::{latin1, latin1_string};
use std::convert::TryFrom;
use std::str::FromStr;
use vstd::prelude::*;
use vstd::std_specs::convert::TryFromSpecImpl;
use vstd::string::StringSliceAdditionalSpecFns;
use vstd::utf8::{encode_utf8, encode_utf8_decode_utf8, is_ascii_chars, is_ascii_chars_encode_utf8};

verus! {

/// The bit of each type byte that carries a property: it tells a lower-case
/// letter from an upper-case one.
pub const FIFTH_BIT: u8 = 0x20;

/// Whether `b` is an ASCII letter, `A`-`Z` or `a`-`z`.
pub open spec fn is_letter(b: u8) -> bool {
    ('A' as u8 <= b <= 'Z' as u8) || ('a' as u8 <= b <= 'z' as u8)
}

/// Whether `code` can be a chunk type: four bytes, each a letter.
pub open spec fn valid_code(code: Seq<u8>) -> bool {
    &&& code.len() == 4
    &&& forall|i: int| 0 <= i < 4 ==> is_letter(#[trigger] code[i])
}

/// Whether the property bit of `b` is set.
pub open spec fn property_bit(b: u8) -> bool {
    b & FIFTH_BIT != 0
}

/// What reading a chunk type from the bytes of a text gives: the bytes
/// themselves where they are four letters, and else the reason why not.
pub open spec fn parse_code(bytes: Seq<u8>) -> Result<Seq<u8>, Error> {
    if bytes.len() != 4 {
        Err(Error::InvalidLength)
    } else if !valid_code(bytes) {
        Err(Error::InvalidByte)
    } else {
        Ok(bytes)
    }
}

/// Among letters, the property bit is what tells the cases apart: it is set
/// in the lower-case letters and in no upper-case one.
pub proof fn lemma_property_bit_is_case(b: u8)
    requires
        is_letter(b),
    ensures
        property_bit(b) <==> 'a' as u8 <= b <= 'z' as u8,
{
    assert((0x41 <= b <= 0x5a) ==> b & 0x20 == 0) by (bit_vector);
    assert((0x61 <= b <= 0x7a) ==> b & 0x20 != 0) by (bit_vector);
}

/// A text spells a code of four letters exactly when the bytes of the text
/// are the code.
pub proof fn lemma_spelling(code: Seq<u8>, text: Seq<char>)
    requires
        valid_code(code),
    ensures
        latin1(code) == text <==> code == encode_utf8(text),
{
    let spelled = latin1(code);
    assert(is_ascii_chars(spelled));
    is_ascii_chars_encode_utf8(spelled);
    assert(encode_utf8(spelled) =~= code);
    encode_utf8_decode_utf8(spelled);
    encode_utf8_decode_utf8(text);
}

/// A validated chunk type: four ASCII letters.
#[derive(Debug, Clone, Copy, PartialEq, Eq, Structural)]
pub struct ChunkType(u8, u8, u8, u8);

impl View for ChunkType {
    type V = Seq<u8>;

    closed spec fn view(&self) -> Seq<u8> {
        seq![self.0, self.1, self.2, self.3]
    }
}

impl ChunkType {
    /// Every chunk type is made of four letters.
    #[verifier::type_invariant]
    pub closed spec fn inv(self) -> bool {
        is_letter(self.0) && is_letter(self.1) && is_letter(self.2) && is_letter(self.3)
    }

    /// The chunk type with the four bytes of `code`.
    pub closed spec fn of(code: Seq<u8>) -> ChunkType {
        ChunkType(code[0], code[1], code[2], code[3])
    }

    /// `of` and the view undo each other, and a chunk type is well formed
    /// exactly when its code is valid.
    pub proof fn lemma_of_view(code: Seq<u8>)
        requires
            code.len() == 4,
        ensures
            ChunkType::of(code)@ == code,
            ChunkType::of(code).inv() <==> valid_code(code),
    {
        assert(ChunkType::of(code)@ =~= code);
    }

    /// A chunk type has four bytes and is what `of` makes of them, and it is
    /// well formed exactly when the four are letters.
    pub proof fn lemma_view(self)
        ensures
            self@.len() == 4,
            self.inv() <==> valid_code(self@),
            ChunkType::of(self@) == self,
    {
    }

    /// Two chunk types are equal exactly when their bytes are.
    pub proof fn lemma_equal_by_bytes(self, other: ChunkType)
        ensures
            self == other <==> self@ == other@,
    {
        self.lemma_view();
        other.lemma_view();
    }

    /// The four bytes of the code.
    pub fn bytes(&self) -> (code: [u8; 4])
        ensures
            code@ == self@,
            valid_code(self@),
    {
        proof {
            use_type_invariant(self);
        }
        let code = [self.0, self.1, self.2, self.3];
        assert(code@ =~= self@);
        code
    }

    /// Whether the chunk type may appear in a conforming file: the same as
    /// `is_reserved_bit_valid`.
    pub fn is_valid(&self) -> (valid: bool)
        ensures
            valid == !property_bit(self@[2]),
    {
        self.is_reserved_bit_valid()
    }

    /// Whether the chunk is critical rather than ancillary.
    pub fn is_critical(&self) -> (critical: bool)
        ensures
            critical == !property_bit(self@[0]),
    {
        self.0 & FIFTH_BIT == 0
    }

    /// Whether the chunk is public rather than private.
    pub fn is_public(&self) -> (public: bool)
        ensures
            public == !property_bit(self@[1]),
    {
        self.1 & FIFTH_BIT == 0
    }

    /// Whether the reserved bit is clear, as the PNG format asks.
    pub fn is_reserved_bit_valid(&self) -> (valid: bool)
        ensures
            valid == !property_bit(self@[2]),
    {
        self.2 & FIFTH_BIT == 0
    }

    /// Whether an editor that does not know the chunk may copy it.
    pub fn is_safe_to_copy(&self) -> (safe: bool)
        ensures
            safe == property_bit(self@[3]),
    {
        self.3 & FIFTH_BIT != 0
    }

    /// The four letters as text.
    pub fn to_string(&self) -> (text: String)
        ensures
            text@ == latin1(self@),
    {
        let code = self.bytes();
        latin1_string(code.as_slice())
    }

    /// Whether `text` spells this chunk type.
    pub fn is_spelled(&self, text: &str) -> (same: bool)
        ensures
            same == (latin1(self@) == text@),
    {
        let code = self.bytes();
        let bytes = text.as_bytes();
        proof {
            lemma_spelling(self@, text@);
        }
        if bytes.len() != 4 {
            return false;
        }
        let same = code[0] == bytes[0] && code[1] == bytes[1] && code[2] == bytes[2] && code[3]
            == bytes[3];
        assert(same == (self@ =~= bytes@));
        same
    }

    /// Whether `b` is an ASCII letter.
    pub fn byte_is_valid(b: u8) -> (valid: bool)
        ensures
            valid == is_letter(b),
    {
        (b >= 'a' as u8 && b <= 'z' as u8) || (b >= 'A' as u8 && b <= 'Z' as u8)
    }

    fn from_arr(arr: [u8; 4]) -> (made: Result<ChunkType, Error>)
        ensures
            match made {
                Ok(chunk_type) => valid_code(arr@) && chunk_type@ == arr@,
                Err(e) => !valid_code(arr@) && e == Error::InvalidByte,
            },
    {
        if !(ChunkType::byte_is_valid(arr[0]) && ChunkType::byte_is_valid(arr[1])
            && ChunkType::byte_is_valid(arr[2]) && ChunkType::byte_is_valid(arr[3])) {
            return Err(Error::InvalidByte);
        }
        let chunk_type = ChunkType(arr[0], arr[1], arr[2], arr[3]);
        assert(chunk_type@ =~= arr@);
        Ok(chunk_type)
    }
}

impl TryFromSpecImpl<[u8; 4]> for ChunkType {
    open spec fn obeys_try_from_spec() -> bool {
        true
    }

    open spec fn try_from_spec(arr: [u8; 4]) -> Result<Self, Error> {
        if valid_code(arr@) {
            Ok(ChunkType::of(arr@))
        } else {
            Err(Error::InvalidByte)
        }
    }
}

impl TryFrom<[u8; 4]> for ChunkType {
    type Error = Error;

    /// The chunk type with the bytes of `arr`, or `InvalidByte` where one of
    /// them is not a letter.
    fn try_from(arr: [u8; 4]) -> (made: Result<Self, Error>)
        ensures
            match made {
                Ok(chunk_type) => valid_code(arr@) && chunk_type@ == arr@,
                Err(e) => !valid_code(arr@) && e == Error::InvalidByte,
            },
    {
        let made = ChunkType::from_arr(arr);
        proof {
            if let Ok(chunk_type) = made {
                chunk_type.lemma_view();
            }
        }
        made
    }
}

impl FromStr for ChunkType {
    type Err = Error;

    /// The chunk type that `s` spells: `s` must be four bytes long
    /// (`InvalidLength`), each of them a letter (`InvalidByte`). The chunk
    /// type as text is then `s` again.
    fn from_str(s: &str) -> (made: Result<Self, Error>)
        ensures
            match made {
                Ok(chunk_type) => {
                    &&& parse_code(s.spec_bytes()) == Ok::<Seq<u8>, Error>(chunk_type@)
                    &&& latin1(chunk_type@) == s@
                },
                Err(e) => parse_code(s.spec_bytes()) == Err::<Seq<u8>, Error>(e),
            },
    {
        let arr = s.as_bytes();
        if arr.len() != 4 {
            return Err(Error::InvalidLength);
        }
        let b: [u8; 4] = [arr[0], arr[1], arr[2], arr[3]];
        proof {
            assert(b@ =~= arr@);
            if valid_code(b@) {
                lemma_spelling(b@, s@);
            }
        }
        ChunkType::from_arr(b)
    }
}

} // verus!
