use vstd::prelude::*;
use vstd::string::StringSliceAdditionalSpecFns;
use vstd::utf8::{encode_utf8_decode_utf8, is_ascii_chars, is_ascii_chars_encode_utf8};

use crate::error::PngError;
use crate::text::{ascii_chars, lemma_ascii_decode, utf8_to_string};

verus! {

/// True of a character that is an ASCII letter, upper or lower case.
pub open spec fn is_alpha_char(c: char) -> bool {
    ('A' <= c && c <= 'Z') || ('a' <= c && c <= 'z')
}

/// True of a byte that is an ASCII letter, upper or lower case.
pub open spec fn is_ascii_alpha(b: u8) -> bool {
    is_ascii_upper(b) || is_ascii_lower(b)
}

/// True of a byte that is an upper-case ASCII letter.
pub open spec fn is_ascii_upper(b: u8) -> bool {
    65 <= b <= 90
}

/// True of a byte that is a lower-case ASCII letter.
pub open spec fn is_ascii_lower(b: u8) -> bool {
    97 <= b <= 122
}

/// A four-byte chunk-type signature. Each byte must be an ASCII letter; the
/// case of each of the four positions carries one semantic flag.
#[derive(Debug, Clone, PartialEq, Eq)]
pub struct ChunkType {
    signature: [u8; 4],
}

impl View for ChunkType {
    type V = Seq<u8>;

    closed spec fn view(&self) -> Seq<u8> {
        self.signature@
    }
}

impl ChunkType {
    /// The signature's invariant: all four bytes are ASCII letters. Both
    /// constructors establish it and nothing can break it afterwards.
    pub open spec fn wf(&self) -> bool {
        self@.len() == 4 && (forall|i: int| 0 <= i < 4 ==> is_ascii_alpha(#[trigger] self@[i]))
    }

    /// The signature's textual form: its four bytes read as characters.
    pub open spec fn chars(&self) -> Seq<char> {
        Seq::new(4, |i: int| self@[i] as char)
    }

    /// Builds a signature from four raw bytes; rejects any byte that is not
    /// an ASCII letter.
    pub fn try_from(value: [u8; 4]) -> (r: Result<ChunkType, PngError>)
        ensures
            r is Ok <==> (forall|i: int| 0 <= i < 4 ==> is_ascii_alpha(#[trigger] value@[i])),
            r is Ok ==> r.unwrap()@ == value@ && r.unwrap().wf(),
            r is Err ==> r == Err::<ChunkType, PngError>(PngError::InvalidChunkType),
    {
        let mut i: usize = 0;
        while i < 4
            invariant
                i <= 4,
                forall|j: int| 0 <= j < i ==> is_ascii_alpha(#[trigger] value@[j]),
            decreases 4 - i,
        {
            let b = value[i];
            if !((65 <= b && b <= 90) || (97 <= b && b <= 122)) {
                return Err(PngError::InvalidChunkType);
            }
            i += 1;
        }
        Ok(ChunkType { signature: value })
    }

    /// Parses a signature from its textual form; rejects a string that is
    /// not exactly four characters long or holds anything but ASCII letters.
    pub fn from_str(s: &str) -> (r: Result<ChunkType, PngError>)
        ensures
            r is Ok <==> (s@.len() == 4 && (forall|i: int|
                0 <= i < s@.len() ==> is_alpha_char(#[trigger] s@[i]))),
            r is Ok ==> r.unwrap().wf() && r.unwrap().chars() == s@,
            r is Err ==> r == Err::<ChunkType, PngError>(PngError::InvalidChunkType),
    {
        let bytes = s.as_bytes();
        let ghost ok: bool = s@.len() == 4 && (forall|i: int|
            0 <= i < s@.len() ==> is_alpha_char(#[trigger] s@[i]));
        proof {
            if ok {
                assert forall|i: int| 0 <= i < s@.len() implies '\0' <= #[trigger] s@[i]
                    <= '\u{7f}' by {
                    assert(is_alpha_char(s@[i]));
                }
                assert(is_ascii_chars(s@));
                is_ascii_chars_encode_utf8(s@);
            }
        }
        let mut i: usize = 0;
        while i < bytes.len()
            invariant
                i <= bytes@.len(),
                bytes@ == s.spec_bytes(),
                ok == (s@.len() == 4 && (forall|j: int|
                    0 <= j < s@.len() ==> is_alpha_char(#[trigger] s@[j]))),
                ok ==> bytes@.len() == 4 && (forall|j: int|
                    0 <= j < 4 ==> bytes@[j] == #[trigger] s@[j] as u8),
                forall|j: int| 0 <= j < i ==> is_ascii_alpha(#[trigger] bytes@[j]),
            decreases bytes@.len() - i,
        {
            let b = bytes[i];
            if !((65 <= b && b <= 90) || (97 <= b && b <= 122)) {
                proof {
                    if ok {
                        assert(bytes@[i as int] == s@[i as int] as u8);
                        assert(is_alpha_char(s@[i as int]));
                        assert(false);
                    }
                }
                return Err(PngError::InvalidChunkType);
            }
            i += 1;
        }
        if bytes.len() != 4 {
            proof {
                if ok {
                    assert(false);
                }
            }
            return Err(PngError::InvalidChunkType);
        }
        let sig = [bytes[0], bytes[1], bytes[2], bytes[3]];
        let t = ChunkType { signature: sig };
        proof {
            assert(t@ =~= bytes@);
            lemma_ascii_decode(bytes@);
            encode_utf8_decode_utf8(s@);
            assert(s@ == ascii_chars(bytes@));
            assert(t.chars() =~= s@);
            assert forall|i: int| 0 <= i < s@.len() implies is_alpha_char(
                #[trigger] s@[i],
            ) by {
                assert(s@[i] == ascii_chars(bytes@)[i]);
                assert(is_ascii_alpha(bytes@[i]));
            }
        }
        Ok(t)
    }

    /// The canonical four-character textual form, case preserved.
    pub fn to_string(&self) -> (r: String)
        requires
            self.wf(),
        ensures
            r@ == self.chars(),
    {
        let mut v: Vec<u8> = Vec::new();
        v.push(self.signature[0]);
        v.push(self.signature[1]);
        v.push(self.signature[2]);
        v.push(self.signature[3]);
        proof {
            assert(v@ =~= self@);
            lemma_ascii_decode(v@);
            assert(ascii_chars(v@) =~= self.chars());
        }
        match utf8_to_string(v) {
            Some(s) => s,
            None => {
                proof {
                    assert(false);
                }
                String::new()
            },
        }
    }

    /// True when the two signatures hold the same four bytes, which is also
    /// when their textual forms are equal.
    pub fn same_signature(&self, other: &ChunkType) -> (r: bool)
        ensures
            r == (self@ == other@),
    {
        let r = self.signature[0] == other.signature[0] && self.signature[1]
            == other.signature[1] && self.signature[2] == other.signature[2] && self.signature[3]
            == other.signature[3];
        proof {
            if r {
                assert(self@ =~= other@);
            }
        }
        r
    }

    /// The four signature bytes, by value.
    pub fn bytes(&self) -> (r: [u8; 4])
        ensures
            r@ == self@,
    {
        self.signature
    }

    /// True when all four bytes are ASCII letters and the reserved-bit
    /// position is upper case. A constructed signature always meets the
    /// first half, so only the reserved bit can make this false.
    pub fn is_valid(&self) -> (r: bool)
        ensures
            r == ((forall|i: int| 0 <= i < 4 ==> is_ascii_alpha(#[trigger] self@[i]))
                && is_ascii_upper(self@[2])),
    {
        let mut i: usize = 0;
        while i < 4
            invariant
                i <= 4,
                forall|j: int| 0 <= j < i ==> is_ascii_alpha(#[trigger] self@[j]),
            decreases 4 - i,
        {
            let b = self.signature[i];
            if !((65 <= b && b <= 90) || (97 <= b && b <= 122)) {
                return false;
            }
            i += 1;
        }
        let b2 = self.signature[2];
        65 <= b2 && b2 <= 90
    }

    /// Upper case in position 0: the chunk is critical to correct display.
    pub fn is_critical(&self) -> (r: bool)
        ensures
            r == is_ascii_upper(self@[0]),
    {
        let b = self.signature[0];
        65 <= b && b <= 90
    }

    /// Upper case in position 1: the chunk type is publicly standardized.
    pub fn is_public(&self) -> (r: bool)
        ensures
            r == is_ascii_upper(self@[1]),
    {
        let b = self.signature[1];
        65 <= b && b <= 90
    }

    /// Upper case in position 2: the signature conforms to the current
    /// format revision.
    pub fn is_reserved_bit_valid(&self) -> (r: bool)
        ensures
            r == is_ascii_upper(self@[2]),
    {
        let b = self.signature[2];
        65 <= b && b <= 90
    }

    /// Lower case in position 3: editors unaware of the chunk's meaning may
    /// copy it unmodified.
    pub fn is_safe_to_copy(&self) -> (r: bool)
        ensures
            r == is_ascii_lower(self@[3]),
    {
        let b = self.signature[3];
        97 <= b && b <= 122
    }
}

/// The textual form of a well-formed signature is four ASCII letters.
pub proof fn lemma_wf_chars(t: ChunkType)
    requires
        t.wf(),
    ensures
        forall|i: int| 0 <= i < 4 ==> is_alpha_char(#[trigger] t.chars()[i]),
{
    assert forall|i: int| 0 <= i < 4 implies is_alpha_char(#[trigger] t.chars()[i]) by {
        assert(is_ascii_alpha(t@[i]));
    }
}

/// Two well-formed signatures have the same textual form exactly when they
/// hold the same four bytes.
pub proof fn lemma_chars_injective(a: ChunkType, b: ChunkType)
    requires
        a.wf(),
        b.wf(),
    ensures
        (a.chars() == b.chars()) <==> (a@ == b@),
{
    if a.chars() == b.chars() {
        assert forall|i: int| 0 <= i < 4 implies a@[i] == b@[i] by {
            assert(a.chars()[i] == b.chars()[i]);
            assert(is_ascii_alpha(a@[i]) && is_ascii_alpha(b@[i]));
        }
        assert(a@ =~= b@);
    }
    if a@ == b@ {
        assert(a.chars() =~= b.chars());
    }
}

} // verus!

