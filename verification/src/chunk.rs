use vstd::prelude::*;
use vstd::utf8::{decode_utf8, valid_utf8};

use crate::chunk_type::{is_ascii_alpha, ChunkType};
use crate::crc32::{crc32, crc32_of};
use crate::encoding::{
    be32_bytes, be32_decode, be32_encode, be32_value, lemma_be32_bytes_of_value,
    lemma_be32_value_of_bytes,
};
use crate::error::PngError;
use crate::text::utf8_to_string;

verus! {

/// One chunk of a container file: a declared payload length, a four-byte
/// type signature, the payload, and a CRC-32/ISO-HDLC checksum over the
/// type and payload bytes.
#[derive(Debug, Clone, PartialEq, Eq)]
pub struct Chunk {
    data_length: u32,
    chunk_type: ChunkType,
    data: Vec<u8>,
    crc: u32,
}

/// The size in bytes that the length field of the chunk at the head of `b`
/// declares: a twelve-byte frame plus the payload length.
pub open spec fn spec_chunk_size(b: Seq<u8>) -> int
    recommends
        b.len() >= 4,
{
    12 + be32_value(b.subrange(0, 4))
}

/// True when the four type bytes of the chunk at the head of `b` are all
/// ASCII letters.
pub open spec fn head_type_ok(b: Seq<u8>) -> bool {
    forall|i: int| 4 <= i < 8 ==> is_ascii_alpha(#[trigger] b[i])
}

/// True when the stored checksum of the chunk at the head of `b` equals the
/// checksum computed over its type and payload bytes.
pub open spec fn head_crc_ok(b: Seq<u8>) -> bool
    recommends
        b.len() >= 12,
        spec_chunk_size(b) <= b.len(),
{
    be32_value(b.subrange(spec_chunk_size(b) - 4, spec_chunk_size(b))) == crc32_of(
        b.subrange(4, spec_chunk_size(b) - 4),
    )
}

/// True when `b` begins with one complete chunk: the declared size fits, the
/// type is alphabetic and the stored checksum matches the computed one.
pub open spec fn head_chunk_ok(b: Seq<u8>) -> bool {
    &&& b.len() >= 12
    &&& spec_chunk_size(b) <= b.len()
    &&& head_type_ok(b)
    &&& head_crc_ok(b)
}

/// The error reported for the chunk at the head of `b` when it is not well
/// formed. The twelve-byte frame must be present before anything else can
/// be read; after that the type field is validated first, then the declared
/// length is held against the buffer, then the checksum.
pub open spec fn head_chunk_err(b: Seq<u8>) -> PngError
    recommends
        !head_chunk_ok(b),
{
    if b.len() < 12 {
        PngError::TruncatedInput
    } else if !head_type_ok(b) {
        PngError::InvalidChunkType
    } else if spec_chunk_size(b) > b.len() {
        PngError::TruncatedInput
    } else {
        PngError::CrcMismatch
    }
}

/// True when `b` is exactly one well-formed chunk, with nothing after it.
pub open spec fn spec_chunk_parse_ok(b: Seq<u8>) -> bool {
    head_chunk_ok(b) && b.len() == spec_chunk_size(b)
}

/// The error `Chunk::try_from` reports when `b` is not exactly one
/// well-formed chunk: a missing frame first, then the type check, then any
/// disagreement between the declared length and the buffer, then the
/// checksum.
pub open spec fn spec_chunk_parse_err(b: Seq<u8>) -> PngError
    recommends
        !spec_chunk_parse_ok(b),
{
    if b.len() < 12 {
        PngError::TruncatedInput
    } else if !head_type_ok(b) {
        PngError::InvalidChunkType
    } else if b.len() != spec_chunk_size(b) {
        PngError::TruncatedInput
    } else {
        PngError::CrcMismatch
    }
}

impl Chunk {
    /// The chunk's type signature, as a mathematical value.
    pub closed spec fn spec_chunk_type(&self) -> ChunkType {
        self.chunk_type
    }

    /// The four bytes of the chunk's type signature.
    pub open spec fn type_bytes(&self) -> Seq<u8> {
        self.spec_chunk_type()@
    }

    /// The chunk's payload bytes.
    pub closed spec fn spec_data(&self) -> Seq<u8> {
        self.data@
    }

    /// The chunk's stored payload length.
    pub closed spec fn spec_length(&self) -> u32 {
        self.data_length
    }

    /// The chunk's stored checksum.
    pub closed spec fn spec_crc(&self) -> u32 {
        self.crc
    }

    /// The chunk's invariant: the type is four ASCII letters, the stored
    /// length is the payload length, and the stored checksum is the checksum
    /// of the type and payload bytes. Both constructors establish it.
    pub open spec fn wf(&self) -> bool {
        &&& self.spec_chunk_type().wf()
        &&& self.spec_length() == self.spec_data().len()
        &&& self.spec_crc() == crc32_of(self.type_bytes() + self.spec_data())
    }

    /// The chunk's serialized form: big-endian length, type bytes, payload,
    /// big-endian checksum.
    pub open spec fn spec_bytes(&self) -> Seq<u8> {
        be32_bytes(self.spec_length()) + self.type_bytes() + self.spec_data() + be32_bytes(
            self.spec_crc(),
        )
    }

    /// Builds a fresh chunk from a type signature and a payload; the length
    /// is the payload's length and the checksum is computed, so the result
    /// is always well formed.
    pub fn new(chunk_type: ChunkType, data: Vec<u8>) -> (r: Chunk)
        requires
            chunk_type.wf(),
            data@.len() <= u32::MAX,
        ensures
            r.wf(),
            r.spec_chunk_type() == chunk_type,
            r.spec_data() == data@,
            r.spec_length() == data@.len(),
            r.spec_crc() == crc32_of(chunk_type@ + data@),
    {
        let data_length = data.len() as u32;
        let type_bytes = chunk_type.bytes();
        let mut joined: Vec<u8> = Vec::new();
        joined.push(type_bytes[0]);
        joined.push(type_bytes[1]);
        joined.push(type_bytes[2]);
        joined.push(type_bytes[3]);
        proof {
            assert(joined@ =~= chunk_type@);
        }
        let mut i: usize = 0;
        while i < data.len()
            invariant
                i <= data@.len(),
                joined@ == chunk_type@ + data@.subrange(0, i as int),
            decreases data@.len() - i,
        {
            joined.push(data[i]);
            i += 1;
            proof {
                assert(joined@ =~= chunk_type@ + data@.subrange(0, i as int));
            }
        }
        proof {
            assert(data@.subrange(0, data@.len() as int) =~= data@);
        }
        let crc = crc32(joined.as_slice());
        Chunk { data_length, chunk_type, data, crc }
    }

    /// The stored payload length.
    pub fn length(&self) -> (r: u32)
        ensures
            r == self.spec_length(),
    {
        self.data_length
    }

    /// The chunk's type signature.
    pub fn chunk_type(&self) -> (r: &ChunkType)
        ensures
            *r == self.spec_chunk_type(),
    {
        &self.chunk_type
    }

    /// The payload bytes.
    pub fn data(&self) -> (r: &[u8])
        ensures
            r@ == self.spec_data(),
    {
        self.data.as_slice()
    }

    /// The stored checksum.
    pub fn crc(&self) -> (r: u32)
        ensures
            r == self.spec_crc(),
    {
        self.crc
    }

    /// Decodes the payload as UTF-8 text; fails exactly when the payload is
    /// not valid UTF-8.
    pub fn data_as_string(&self) -> (r: Result<String, PngError>)
        ensures
            r is Ok <==> valid_utf8(self.spec_data()),
            r is Ok ==> r.unwrap()@ == decode_utf8(self.spec_data()),
            r is Err ==> r == Err::<String, PngError>(PngError::InvalidUtf8),
    {
        let mut copy: Vec<u8> = Vec::new();
        let mut i: usize = 0;
        while i < self.data.len()
            invariant
                i <= self.spec_data().len(),
                copy@ == self.spec_data().subrange(0, i as int),
            decreases self.spec_data().len() - i,
        {
            copy.push(self.data[i]);
            i += 1;
            proof {
                assert(copy@ =~= self.spec_data().subrange(0, i as int));
            }
        }
        proof {
            assert(copy@ =~= self.spec_data());
        }
        match utf8_to_string(copy) {
            Some(s) => Ok(s),
            None => Err(PngError::InvalidUtf8),
        }
    }

    /// Serializes the chunk: big-endian length, type bytes, payload,
    /// big-endian checksum, in that order.
    pub fn as_bytes(&self) -> (r: Vec<u8>)
        ensures
            r@ == self.spec_bytes(),
    {
        let mut out = be32_encode(self.data_length);
        let type_bytes = self.chunk_type.bytes();
        out.push(type_bytes[0]);
        out.push(type_bytes[1]);
        out.push(type_bytes[2]);
        out.push(type_bytes[3]);
        proof {
            assert(out@ =~= be32_bytes(self.spec_length()) + self.type_bytes());
        }
        let mut i: usize = 0;
        while i < self.data.len()
            invariant
                i <= self.spec_data().len(),
                out@ == be32_bytes(self.spec_length()) + self.type_bytes()
                    + self.spec_data().subrange(0, i as int),
            decreases self.spec_data().len() - i,
        {
            out.push(self.data[i]);
            i += 1;
            proof {
                assert(out@ =~= be32_bytes(self.spec_length()) + self.type_bytes()
                    + self.spec_data().subrange(0, i as int));
            }
        }
        let crc_bytes = be32_encode(self.crc);
        out.push(crc_bytes[0]);
        out.push(crc_bytes[1]);
        out.push(crc_bytes[2]);
        out.push(crc_bytes[3]);
        proof {
            assert(self.spec_data().subrange(0, self.spec_data().len() as int)
                =~= self.spec_data());
            assert(out@ =~= self.spec_bytes());
        }
        out
    }

    /// Parses exactly one chunk from a buffer: big-endian length, type,
    /// payload, big-endian checksum. A non-alphabetic type field is rejected
    /// as soon as the twelve-byte frame is readable; after that a buffer
    /// whose size is not exactly what the length field declares, and then a
    /// stored checksum that differs from the computed one, are rejected.
    pub fn try_from(bytes: &[u8]) -> (r: Result<Chunk, PngError>)
        ensures
            r is Ok <==> spec_chunk_parse_ok(bytes@),
            r is Ok ==> r.unwrap().wf() && r.unwrap().spec_bytes() == bytes@,
            r is Ok ==> ({
                &&& r.unwrap().spec_length() == be32_value(bytes@.subrange(0, 4))
                &&& r.unwrap().type_bytes() == bytes@.subrange(4, 8)
                &&& r.unwrap().spec_data() == bytes@.subrange(8, bytes@.len() - 4)
                &&& r.unwrap().spec_crc() == be32_value(
                    bytes@.subrange(bytes@.len() - 4, bytes@.len() as int),
                )
            }),
            r is Err ==> r == Err::<Chunk, PngError>(spec_chunk_parse_err(bytes@)),
    {
        if bytes.len() < 12 {
            return Err(PngError::TruncatedInput);
        }
        let type_array = [bytes[4], bytes[5], bytes[6], bytes[7]];
        match ChunkType::try_from(type_array) {
            Ok(_) => {},
            Err(e) => {
                proof {
                    assert(type_array@ =~= bytes@.subrange(4, 8));
                    if head_type_ok(bytes@) {
                        assert forall|i: int| 0 <= i < 4 implies is_ascii_alpha(
                            #[trigger] type_array@[i],
                        ) by {
                            assert(type_array@[i] == bytes@[i + 4]);
                        }
                        assert(false);
                    }
                }
                return Err(e);
            },
        }
        proof {
            assert(type_array@ =~= bytes@.subrange(4, 8));
            assert forall|i: int| 4 <= i < 8 implies is_ascii_alpha(#[trigger] bytes@[i]) by {
                assert(bytes@[i] == type_array@[i - 4]);
            }
        }
        let n = be32_decode(bytes[0], bytes[1], bytes[2], bytes[3]);
        proof {
            assert(seq![bytes@[0], bytes@[1], bytes@[2], bytes@[3]] =~= bytes@.subrange(0, 4));
        }
        if n as usize != bytes.len() - 12 {
            return Err(PngError::TruncatedInput);
        }
        match parse_chunk_at(bytes, 0) {
            Ok((c, _end)) => {
                proof {
                    assert(bytes@.skip(0) =~= bytes@);
                    assert(c.spec_bytes() =~= bytes@);
                    assert(bytes@.subrange(0, 4) =~= be32_bytes(c.spec_length()));
                    lemma_be32_value_of_bytes(c.spec_length());
                    assert(c.type_bytes() =~= bytes@.subrange(4, 8));
                    assert(c.spec_data() =~= bytes@.subrange(8, bytes@.len() - 4));
                    assert(bytes@.subrange(bytes@.len() - 4, bytes@.len() as int) =~= be32_bytes(
                        c.spec_crc(),
                    ));
                    lemma_be32_value_of_bytes(c.spec_crc());
                }
                Ok(c)
            },
            Err(e) => {
                proof {
                    assert(bytes@.skip(0) =~= bytes@);
                }
                Err(e)
            },
        }
    }
}

/// Round trip, first half: the serialized form of a well-formed chunk is
/// accepted by the chunk parser. Together with `lemma_chunk_bytes_injective`
/// and the contract of `Chunk::try_from`, parsing the serialization of a
/// freshly built chunk gives that chunk back.
pub proof fn lemma_chunk_round_trip(c: Chunk)
    requires
        c.wf(),
    ensures
        spec_chunk_parse_ok(c.spec_bytes()),
{
    let b = c.spec_bytes();
    lemma_be32_value_of_bytes(c.spec_length());
    lemma_be32_value_of_bytes(c.spec_crc());
    assert(b.subrange(0, 4) =~= be32_bytes(c.spec_length()));
    assert(b.len() == 12 + c.spec_data().len());
    assert(spec_chunk_size(b) == b.len());
    assert forall|i: int| 4 <= i < 8 implies is_ascii_alpha(#[trigger] b[i]) by {
        assert(b[i] == c.type_bytes()[i - 4]);
    }
    assert(b.subrange(4, spec_chunk_size(b) - 4) =~= c.type_bytes() + c.spec_data());
    assert(b.subrange(spec_chunk_size(b) - 4, spec_chunk_size(b)) =~= be32_bytes(c.spec_crc()));
}

/// Round trip, second half: two well-formed chunks with the same serialized
/// form agree on every field, so the serialized form determines the chunk.
pub proof fn lemma_chunk_bytes_injective(c: Chunk, d: Chunk)
    requires
        c.wf(),
        d.wf(),
        c.spec_bytes() == d.spec_bytes(),
    ensures
        c.spec_length() == d.spec_length(),
        c.type_bytes() == d.type_bytes(),
        c.spec_data() == d.spec_data(),
        c.spec_crc() == d.spec_crc(),
{
    let b = c.spec_bytes();
    lemma_be32_value_of_bytes(c.spec_length());
    lemma_be32_value_of_bytes(d.spec_length());
    lemma_be32_value_of_bytes(c.spec_crc());
    lemma_be32_value_of_bytes(d.spec_crc());
    assert(b.subrange(0, 4) =~= be32_bytes(c.spec_length()));
    assert(b.subrange(0, 4) =~= be32_bytes(d.spec_length()));
    assert(c.spec_length() == be32_value(b.subrange(0, 4)));
    assert(c.spec_data().len() == d.spec_data().len());
    assert forall|i: int| 0 <= i < 4 implies c.type_bytes()[i] == d.type_bytes()[i] by {
        assert(c.spec_bytes()[4 + i] == c.type_bytes()[i]);
        assert(d.spec_bytes()[4 + i] == d.type_bytes()[i]);
    }
    assert(c.type_bytes() =~= d.type_bytes());
    assert forall|i: int| 0 <= i < c.spec_data().len() implies c.spec_data()[i]
        == d.spec_data()[i] by {
        assert(c.spec_bytes()[8 + i] == c.spec_data()[i]);
        assert(d.spec_bytes()[8 + i] == d.spec_data()[i]);
    }
    assert(c.spec_data() =~= d.spec_data());
    assert(b.subrange(b.len() - 4, b.len() as int) =~= be32_bytes(c.spec_crc()));
    assert(b.subrange(b.len() - 4, b.len() as int) =~= be32_bytes(d.spec_crc()));
    assert(c.spec_crc() == be32_value(b.subrange(b.len() - 4, b.len() as int)));
}

/// Corrupting the stored checksum is always caught: flipping any bit of the
/// four checksum bytes of a parseable chunk makes the parse fail with
/// `CrcMismatch`.
pub proof fn lemma_crc_corruption(b: Seq<u8>, b2: Seq<u8>, j: int)
    requires
        spec_chunk_parse_ok(b),
        b2.len() == b.len(),
        b.len() - 4 <= j < b.len(),
        b2[j] != b[j],
        forall|i: int| 0 <= i < b.len() && i != j ==> b2[i] == b[i],
    ensures
        !spec_chunk_parse_ok(b2),
        spec_chunk_parse_err(b2) == PngError::CrcMismatch,
{
    assert(b2.subrange(0, 4) =~= b.subrange(0, 4));
    assert(spec_chunk_size(b2) == spec_chunk_size(b));
    assert forall|i: int| 4 <= i < 8 implies is_ascii_alpha(#[trigger] b2[i]) by {
        assert(b2[i] == b[i]);
    }
    assert(b2.subrange(4, spec_chunk_size(b2) - 4) =~= b.subrange(4, spec_chunk_size(b) - 4));
    let stored = b.subrange(spec_chunk_size(b) - 4, spec_chunk_size(b));
    let stored2 = b2.subrange(spec_chunk_size(b2) - 4, spec_chunk_size(b2));
    assert(stored2[j - (spec_chunk_size(b) - 4)] != stored[j - (spec_chunk_size(b) - 4)]);
    crate::encoding::lemma_be32_value_injective(stored, stored2);
}

/// Parses the chunk that starts at `off`, leaving anything after it
/// untouched; on success also returns the offset just past the chunk.
pub(crate) fn parse_chunk_at(bytes: &[u8], off: usize) -> (r: Result<(Chunk, usize), PngError>)
    requires
        off <= bytes@.len(),
    ensures
        r is Ok <==> head_chunk_ok(bytes@.skip(off as int)),
        r is Ok ==> ({
            &&& r.unwrap().0.wf()
            &&& off < r.unwrap().1 <= bytes@.len()
            &&& r.unwrap().1 == off + spec_chunk_size(bytes@.skip(off as int))
            &&& r.unwrap().0.spec_bytes() == bytes@.subrange(off as int, r.unwrap().1 as int)
        }),
        r is Err ==> r == Err::<(Chunk, usize), PngError>(
            head_chunk_err(bytes@.skip(off as int)),
        ),
{
    let ghost rest = bytes@.skip(off as int);
    if bytes.len() - off < 12 {
        return Err(PngError::TruncatedInput);
    }
    let type_array = [bytes[off + 4], bytes[off + 5], bytes[off + 6], bytes[off + 7]];
    let chunk_type = match ChunkType::try_from(type_array) {
        Ok(t) => t,
        Err(e) => {
            proof {
                assert(type_array@ =~= rest.subrange(4, 8));
                assert(!head_type_ok(rest));
                assert(forall|i: int| 4 <= i < 8 ==> rest[i] == type_array@[i - 4]);
            }
            return Err(e);
        },
    };
    proof {
        assert(type_array@ =~= rest.subrange(4, 8));
        assert forall|i: int| 4 <= i < 8 implies is_ascii_alpha(#[trigger] rest[i]) by {
            assert(rest[i] == type_array@[i - 4]);
        }
    }
    let n = be32_decode(bytes[off], bytes[off + 1], bytes[off + 2], bytes[off + 3]);
    proof {
        assert(seq![bytes@[off as int], bytes@[off as int + 1], bytes@[off as int + 2], bytes@[off
            as int + 3]] =~= rest.subrange(0, 4));
    }
    let n_us = n as usize;
    if bytes.len() - off - 12 < n_us {
        return Err(PngError::TruncatedInput);
    }
    let mut joined: Vec<u8> = Vec::new();
    joined.push(bytes[off + 4]);
    joined.push(bytes[off + 5]);
    joined.push(bytes[off + 6]);
    joined.push(bytes[off + 7]);
    let mut i: usize = 0;
    while i < n_us
        invariant
            i <= n_us,
            off + 12 + n_us <= bytes@.len(),
            off + 12 + n_us <= usize::MAX,
            joined@ == bytes@.subrange(off as int + 4, off as int + 8 + i as int),
        decreases n_us - i,
    {
        joined.push(bytes[off + 8 + i]);
        i += 1;
        proof {
            assert(joined@ =~= bytes@.subrange(off as int + 4, off as int + 8 + i as int));
        }
    }
    let computed = crc32(joined.as_slice());
    let stored = be32_decode(
        bytes[off + 8 + n_us],
        bytes[off + 9 + n_us],
        bytes[off + 10 + n_us],
        bytes[off + 11 + n_us],
    );
    proof {
        assert(rest.subrange(4, spec_chunk_size(rest) - 4) =~= bytes@.subrange(
            off as int + 4,
            off as int + 8 + n_us as int,
        ));
        assert(rest.subrange(spec_chunk_size(rest) - 4, spec_chunk_size(rest)) =~= seq![
            bytes@[off as int + 8 + n_us as int],
            bytes@[off as int + 9 + n_us as int],
            bytes@[off as int + 10 + n_us as int],
            bytes@[off as int + 11 + n_us as int],
        ]);
    }
    if stored != computed {
        return Err(PngError::CrcMismatch);
    }
    let mut data = joined;
    let payload = data.split_off(4);
    let end = off + 12 + n_us;
    let chunk = Chunk { data_length: n, chunk_type, data: payload, crc: stored };
    proof {
        assert(chunk.spec_data() =~= bytes@.subrange(off as int + 8, off as int + 8 + n_us as int));
        assert(chunk.type_bytes() + chunk.spec_data() =~= rest.subrange(
            4,
            spec_chunk_size(rest) - 4,
        ));
        lemma_be32_bytes_of_value(rest.subrange(0, 4));
        lemma_be32_bytes_of_value(rest.subrange(spec_chunk_size(rest) - 4, spec_chunk_size(rest)));
        assert(chunk.spec_bytes() =~= bytes@.subrange(off as int, end as int));
    }
    Ok((chunk, end))
}

} // verus!
