use vstd::prelude::*;

use crate::chunk::{
    head_chunk_err, head_chunk_ok, parse_chunk_at, spec_chunk_size, Chunk,
};
use crate::chunk_type::{is_alpha_char, lemma_chars_injective, lemma_wf_chars, ChunkType};
use crate::error::PngError;

verus! {

/// The fixed eight magic bytes that begin every file.
pub open spec fn spec_magic() -> Seq<u8> {
    seq![137u8, 80u8, 78u8, 71u8, 13u8, 10u8, 26u8, 10u8]
}

/// The serialized bytes of a sequence of chunks, in order.
pub open spec fn concat_chunk_bytes(cs: Seq<Chunk>) -> Seq<u8>
    decreases cs.len(),
{
    if cs.len() == 0 {
        Seq::empty()
    } else {
        cs[0].spec_bytes() + concat_chunk_bytes(cs.drop_first())
    }
}

/// Appending one chunk to a sequence appends its bytes to the serialization.
pub proof fn lemma_concat_push(cs: Seq<Chunk>, c: Chunk)
    ensures
        concat_chunk_bytes(cs.push(c)) == concat_chunk_bytes(cs) + c.spec_bytes(),
    decreases cs.len(),
{
    if cs.len() == 0 {
        assert(cs.push(c)[0] == c);
        assert(cs.push(c).drop_first() =~= Seq::<Chunk>::empty());
        assert(concat_chunk_bytes(cs.push(c).drop_first()) == Seq::<u8>::empty());
        assert(concat_chunk_bytes(cs.push(c)) == c.spec_bytes() + Seq::<u8>::empty());
        assert(concat_chunk_bytes(cs.push(c)) =~= concat_chunk_bytes(cs) + c.spec_bytes());
    } else {
        assert(cs.push(c).drop_first() =~= cs.drop_first().push(c));
        lemma_concat_push(cs.drop_first(), c);
        assert(cs.push(c)[0] == cs[0]);
        assert(concat_chunk_bytes(cs.push(c)) =~= concat_chunk_bytes(cs) + c.spec_bytes());
    }
}

/// The serialization of a sequence of well-formed chunks splits back into
/// exactly one chunk per element.
pub proof fn lemma_chunks_round_trip(cs: Seq<Chunk>)
    requires
        forall|i: int| 0 <= i < cs.len() ==> (#[trigger] cs[i]).wf(),
    ensures
        spec_chunks_ok(concat_chunk_bytes(cs)),
    decreases cs.len(),
{
    if cs.len() > 0 {
        let c = cs[0];
        let b = concat_chunk_bytes(cs);
        let cb = c.spec_bytes();
        let rest = concat_chunk_bytes(cs.drop_first());
        assert(b == cb + rest);
        crate::chunk::lemma_chunk_round_trip(c);
        assert(b.subrange(0, 4) =~= cb.subrange(0, 4));
        assert(spec_chunk_size(b) == cb.len());
        assert forall|i: int| 4 <= i < 8 implies crate::chunk_type::is_ascii_alpha(
            #[trigger] b[i],
        ) by {
            assert(b[i] == cb[i]);
        }
        assert(b.subrange(4, spec_chunk_size(b) - 4) =~= cb.subrange(4, cb.len() - 4));
        assert(b.subrange(spec_chunk_size(b) - 4, spec_chunk_size(b)) =~= cb.subrange(
            cb.len() - 4,
            cb.len() as int,
        ));
        assert(head_chunk_ok(b));
        assert(b.skip(spec_chunk_size(b)) =~= rest);
        lemma_chunks_round_trip(cs.drop_first());
    }
}

/// Round trip, first half, for whole files: the serialized form of a
/// well-formed container is accepted by the file parser. Together with
/// `lemma_png_bytes_injective` and the contract of `Png::try_from`,
/// serializing a container and parsing the result gives its chunks back.
pub proof fn lemma_png_round_trip(p: Png)
    requires
        p.wf(),
    ensures
        spec_png_parse_ok(p.spec_bytes()),
{
    lemma_chunks_round_trip(p.chunks_seq());
    assert(p.spec_bytes().subrange(0, 8) =~= spec_magic());
    assert(p.spec_bytes().skip(8) =~= concat_chunk_bytes(p.chunks_seq()));
}

/// Two sequences of well-formed chunks with the same serialization are the
/// same sequence, chunk field by chunk field.
pub proof fn lemma_chunks_bytes_injective(cs: Seq<Chunk>, ds: Seq<Chunk>)
    requires
        forall|i: int| 0 <= i < cs.len() ==> (#[trigger] cs[i]).wf(),
        forall|i: int| 0 <= i < ds.len() ==> (#[trigger] ds[i]).wf(),
        concat_chunk_bytes(cs) == concat_chunk_bytes(ds),
    ensures
        cs.len() == ds.len(),
        forall|i: int|
            #![auto]
            0 <= i < cs.len() ==> {
                &&& cs[i].spec_length() == ds[i].spec_length()
                &&& cs[i].type_bytes() == ds[i].type_bytes()
                &&& cs[i].spec_data() == ds[i].spec_data()
                &&& cs[i].spec_crc() == ds[i].spec_crc()
            },
    decreases cs.len(),
{
    if cs.len() == 0 {
        if ds.len() > 0 {
            assert(concat_chunk_bytes(ds).len() >= ds[0].spec_bytes().len());
            assert(ds[0].spec_bytes().len() >= 12);
        }
    } else if ds.len() == 0 {
        assert(concat_chunk_bytes(cs).len() >= cs[0].spec_bytes().len());
        assert(cs[0].spec_bytes().len() >= 12);
    } else {
        let b = concat_chunk_bytes(cs);
        let cb = cs[0].spec_bytes();
        let db = ds[0].spec_bytes();
        crate::chunk::lemma_chunk_round_trip(cs[0]);
        crate::chunk::lemma_chunk_round_trip(ds[0]);
        assert(b == cb + concat_chunk_bytes(cs.drop_first()));
        assert(b == db + concat_chunk_bytes(ds.drop_first()));
        assert(b.subrange(0, 4) =~= cb.subrange(0, 4));
        assert(b.subrange(0, 4) =~= db.subrange(0, 4));
        assert(cb.len() == spec_chunk_size(cb) == spec_chunk_size(b));
        assert(db.len() == spec_chunk_size(db) == spec_chunk_size(b));
        assert(cb =~= b.subrange(0, cb.len() as int));
        assert(db =~= b.subrange(0, db.len() as int));
        crate::chunk::lemma_chunk_bytes_injective(cs[0], ds[0]);
        assert(concat_chunk_bytes(cs.drop_first()) =~= b.skip(cb.len() as int));
        assert(concat_chunk_bytes(ds.drop_first()) =~= b.skip(db.len() as int));
        lemma_chunks_bytes_injective(cs.drop_first(), ds.drop_first());
        assert forall|i: int|
            #![auto]
            0 <= i < cs.len() implies {
            &&& cs[i].spec_length() == ds[i].spec_length()
            &&& cs[i].type_bytes() == ds[i].type_bytes()
            &&& cs[i].spec_data() == ds[i].spec_data()
            &&& cs[i].spec_crc() == ds[i].spec_crc()
        } by {
            if i > 0 {
                assert(cs[i] == cs.drop_first()[i - 1]);
                assert(ds[i] == ds.drop_first()[i - 1]);
            }
        }
    }
}

/// Round trip, second half, for whole files: two well-formed containers
/// with the same serialized form hold the same chunks, field for field.
pub proof fn lemma_png_bytes_injective(p: Png, q: Png)
    requires
        p.wf(),
        q.wf(),
        p.spec_bytes() == q.spec_bytes(),
    ensures
        p.chunks_seq().len() == q.chunks_seq().len(),
        forall|i: int|
            #![auto]
            0 <= i < p.chunks_seq().len() ==> {
                &&& p.chunks_seq()[i].spec_length() == q.chunks_seq()[i].spec_length()
                &&& p.chunks_seq()[i].type_bytes() == q.chunks_seq()[i].type_bytes()
                &&& p.chunks_seq()[i].spec_data() == q.chunks_seq()[i].spec_data()
                &&& p.chunks_seq()[i].spec_crc() == q.chunks_seq()[i].spec_crc()
            },
{
    assert(concat_chunk_bytes(p.chunks_seq()) =~= p.spec_bytes().skip(8));
    assert(concat_chunk_bytes(q.chunks_seq()) =~= q.spec_bytes().skip(8));
    lemma_chunks_bytes_injective(p.chunks_seq(), q.chunks_seq());
}

/// True when the chunk's type signature has the textual form `name`.
pub open spec fn matches_type(c: Chunk, name: Seq<char>) -> bool {
    c.spec_chunk_type().chars() == name
}

/// True when `b` splits exactly into a sequence of well-formed chunks.
pub open spec fn spec_chunks_ok(b: Seq<u8>) -> bool
    decreases b.len(),
{
    if b.len() == 0 {
        true
    } else if head_chunk_ok(b) {
        spec_chunks_ok(b.skip(spec_chunk_size(b)))
    } else {
        false
    }
}

/// The error reported for the first ill-formed chunk in `b`.
pub open spec fn spec_chunks_err(b: Seq<u8>) -> PngError
    recommends
        !spec_chunks_ok(b),
    decreases b.len(),
{
    if b.len() == 0 {
        PngError::TruncatedInput
    } else if head_chunk_ok(b) {
        spec_chunks_err(b.skip(spec_chunk_size(b)))
    } else {
        head_chunk_err(b)
    }
}

/// True when `b` is a parseable file: the magic signature followed by a
/// sequence of well-formed chunks.
pub open spec fn spec_png_parse_ok(b: Seq<u8>) -> bool {
    b.len() >= 8 && b.subrange(0, 8) == spec_magic() && spec_chunks_ok(b.skip(8))
}

/// A container file: the fixed magic signature followed by an ordered
/// sequence of chunks. Multiple chunks may share a type; order is
/// significant, and lookup and removal use first-match semantics.
#[derive(Debug, PartialEq, Eq)]
pub struct Png {
    chunks: Vec<Chunk>,
}

impl Png {
    /// The ordered chunk sequence.
    pub closed spec fn chunks_seq(&self) -> Seq<Chunk> {
        self.chunks@
    }

    /// The container's invariant: every chunk in the sequence is well
    /// formed. Parsing establishes it, and appending a well-formed chunk or
    /// removing one preserves it.
    pub open spec fn wf(&self) -> bool {
        forall|i: int| 0 <= i < self.chunks_seq().len() ==> (#[trigger] self.chunks_seq()[i]).wf()
    }

    /// The container's serialized form: the magic signature followed by each
    /// chunk's bytes in sequence order.
    pub open spec fn spec_bytes(&self) -> Seq<u8> {
        spec_magic() + concat_chunk_bytes(self.chunks_seq())
    }

    /// Parses a whole file: the eight magic bytes, then chunks back to back
    /// until the buffer is exhausted. Any failure aborts the whole parse.
    /// On success the parsed container serializes back to the input, byte
    /// for byte.
    pub fn try_from(bytes: &[u8]) -> (r: Result<Png, PngError>)
        ensures
            r is Ok <==> spec_png_parse_ok(bytes@),
            r is Ok ==> r.unwrap().wf() && r.unwrap().spec_bytes() == bytes@,
            bytes@.len() < 8 ==> r == Err::<Png, PngError>(PngError::TruncatedInput),
            bytes@.len() >= 8 && bytes@.subrange(0, 8) != spec_magic() ==> r == Err::<
                Png,
                PngError,
            >(PngError::InvalidSignature),
            bytes@.len() >= 8 && bytes@.subrange(0, 8) == spec_magic() && !spec_chunks_ok(
                bytes@.skip(8),
            ) ==> r == Err::<Png, PngError>(spec_chunks_err(bytes@.skip(8))),
    {
        if bytes.len() < 8 {
            return Err(PngError::TruncatedInput);
        }
        let magic_ok = bytes[0] == 137 && bytes[1] == 80 && bytes[2] == 78 && bytes[3] == 71
            && bytes[4] == 13 && bytes[5] == 10 && bytes[6] == 26 && bytes[7] == 10;
        proof {
            if magic_ok {
                assert(bytes@.subrange(0, 8) =~= spec_magic());
            } else {
                if bytes@.subrange(0, 8) == spec_magic() {
                    assert(forall|k: int|
                        0 <= k < 8 ==> bytes@[k] == #[trigger] bytes@.subrange(0, 8)[k]);
                    assert(false);
                }
            }
        }
        if !magic_ok {
            return Err(PngError::InvalidSignature);
        }
        let mut chunks: Vec<Chunk> = Vec::new();
        let mut off: usize = 8;
        proof {
            assert(concat_chunk_bytes(chunks@) =~= bytes@.subrange(8, 8));
        }
        while off < bytes.len()
            invariant
                8 <= off <= bytes@.len(),
                bytes@.subrange(0, 8) == spec_magic(),
                forall|i: int| 0 <= i < chunks@.len() ==> (#[trigger] chunks@[i]).wf(),
                concat_chunk_bytes(chunks@) == bytes@.subrange(8, off as int),
                spec_chunks_ok(bytes@.skip(8)) <==> spec_chunks_ok(bytes@.skip(off as int)),
                !spec_chunks_ok(bytes@.skip(off as int)) ==> spec_chunks_err(bytes@.skip(8))
                    == spec_chunks_err(bytes@.skip(off as int)),
            decreases bytes@.len() - off,
        {
            let ghost rest = bytes@.skip(off as int);
            match parse_chunk_at(bytes, off) {
                Err(e) => {
                    proof {
                        assert(rest.len() > 0);
                        assert(!head_chunk_ok(rest));
                        assert(!spec_chunks_ok(rest));
                        assert(spec_chunks_err(rest) == head_chunk_err(rest));
                    }
                    return Err(e);
                },
                Ok((c, end)) => {
                    proof {
                        assert(head_chunk_ok(rest));
                        assert(rest.skip(spec_chunk_size(rest)) =~= bytes@.skip(end as int));
                        lemma_concat_push(chunks@, c);
                        assert(bytes@.subrange(8, end as int) =~= bytes@.subrange(8, off as int)
                            + bytes@.subrange(off as int, end as int));
                        assert(concat_chunk_bytes(chunks@.push(c)) =~= bytes@.subrange(
                            8,
                            end as int,
                        ));
                    }
                    chunks.push(c);
                    off = end;
                },
            }
        }
        let png = Png { chunks };
        proof {
            assert(bytes@.skip(off as int).len() == 0);
            assert(png.spec_bytes() =~= bytes@.subrange(0, 8) + bytes@.subrange(
                8,
                bytes@.len() as int,
            ));
            assert(png.spec_bytes() =~= bytes@);
        }
        Ok(png)
    }

    /// Adds a chunk at the end of the sequence. Always succeeds; nothing is
    /// deduplicated.
    pub fn append_chunk(&mut self, chunk: Chunk)
        ensures
            final(self).chunks_seq() == old(self).chunks_seq().push(chunk),
    {
        self.chunks.push(chunk);
    }

    /// The ordered chunk sequence, for callers that walk every chunk.
    pub fn chunks(&self) -> (r: &Vec<Chunk>)
        ensures
            r@ == self.chunks_seq(),
    {
        &self.chunks
    }

    /// Looks up the first chunk, in sequence order, whose type's textual
    /// form equals the given string; reports absence as `None`, never as an
    /// error.
    pub fn chunk_by_type(&self, chunk_type: &str) -> (r: Option<&Chunk>)
        requires
            self.wf(),
        ensures
            match r {
                None => forall|i: int|
                    0 <= i < self.chunks_seq().len() ==> !matches_type(
                        #[trigger] self.chunks_seq()[i],
                        chunk_type@,
                    ),
                Some(c) => exists|j: int|
                    #![auto]
                    0 <= j < self.chunks_seq().len() && matches_type(
                        self.chunks_seq()[j],
                        chunk_type@,
                    ) && *c == self.chunks_seq()[j] && (forall|i: int|
                        0 <= i < j ==> !matches_type(
                            #[trigger] self.chunks_seq()[i],
                            chunk_type@,
                        )),
            },
    {
        let target = match ChunkType::from_str(chunk_type) {
            Ok(t) => t,
            Err(_) => {
                proof {
                    assert forall|i: int| 0 <= i < self.chunks_seq().len() implies !matches_type(
                        #[trigger] self.chunks_seq()[i],
                        chunk_type@,
                    ) by {
                        let t = self.chunks_seq()[i].spec_chunk_type();
                        lemma_wf_chars(t);
                        if matches_type(self.chunks_seq()[i], chunk_type@) {
                            assert(chunk_type@.len() == 4);
                            assert(forall|k: int|
                                0 <= k < 4 ==> is_alpha_char(#[trigger] t.chars()[k]));
                            assert(forall|k: int|
                                0 <= k < chunk_type@.len() ==> is_alpha_char(
                                    #[trigger] chunk_type@[k],
                                ));
                            assert(false);
                        }
                    }
                }
                return None;
            },
        };
        let mut i: usize = 0;
        while i < self.chunks.len()
            invariant
                self.wf(),
                target.wf(),
                target.chars() == chunk_type@,
                i <= self.chunks_seq().len(),
                forall|k: int|
                    0 <= k < i ==> !matches_type(#[trigger] self.chunks_seq()[k], chunk_type@),
            decreases self.chunks_seq().len() - i,
        {
            let c = &self.chunks[i];
            proof {
                lemma_chars_injective(self.chunks_seq()[i as int].spec_chunk_type(), target);
            }
            if c.chunk_type().same_signature(&target) {
                return Some(c);
            }
            i += 1;
        }
        None
    }

    /// Removes the first chunk, in sequence order, whose type's textual form
    /// equals the given string, and returns it; fails with `ChunkNotFound`
    /// when no chunk matches, leaving the sequence unchanged.
    pub fn remove_first_chunk(&mut self, chunk_type: &str) -> (r: Result<Chunk, PngError>)
        requires
            old(self).wf(),
        ensures
            final(self).wf(),
            (exists|i: int|
                0 <= i < old(self).chunks_seq().len() && matches_type(
                    #[trigger] old(self).chunks_seq()[i],
                    chunk_type@,
                )) <==> r is Ok,
            r is Ok ==> exists|j: int|
                #![auto]
                0 <= j < old(self).chunks_seq().len() && matches_type(
                    old(self).chunks_seq()[j],
                    chunk_type@,
                ) && (forall|i: int|
                    0 <= i < j ==> !matches_type(
                        #[trigger] old(self).chunks_seq()[i],
                        chunk_type@,
                    )) && r.unwrap() == old(self).chunks_seq()[j] && final(self).chunks_seq()
                    == old(self).chunks_seq().remove(j),
            r is Err ==> r == Err::<Chunk, PngError>(PngError::ChunkNotFound)
                && final(self).chunks_seq() == old(self).chunks_seq(),
    {
        let target = match ChunkType::from_str(chunk_type) {
            Ok(t) => t,
            Err(_) => {
                proof {
                    assert forall|i: int| 0 <= i < self.chunks_seq().len() implies !matches_type(
                        #[trigger] self.chunks_seq()[i],
                        chunk_type@,
                    ) by {
                        let t = self.chunks_seq()[i].spec_chunk_type();
                        lemma_wf_chars(t);
                        if matches_type(self.chunks_seq()[i], chunk_type@) {
                            assert(chunk_type@.len() == 4);
                            assert(forall|k: int|
                                0 <= k < 4 ==> is_alpha_char(#[trigger] t.chars()[k]));
                            assert(forall|k: int|
                                0 <= k < chunk_type@.len() ==> is_alpha_char(
                                    #[trigger] chunk_type@[k],
                                ));
                            assert(false);
                        }
                    }
                }
                return Err(PngError::ChunkNotFound);
            },
        };
        let mut i: usize = 0;
        while i < self.chunks.len()
            invariant
                self.wf(),
                self.chunks_seq() == old(self).chunks_seq(),
                target.wf(),
                target.chars() == chunk_type@,
                i <= self.chunks_seq().len(),
                forall|k: int|
                    0 <= k < i ==> !matches_type(#[trigger] self.chunks_seq()[k], chunk_type@),
            decreases self.chunks_seq().len() - i,
        {
            proof {
                lemma_chars_injective(self.chunks_seq()[i as int].spec_chunk_type(), target);
            }
            let is_match = self.chunks[i].chunk_type().same_signature(&target);
            if is_match {
                let removed = self.chunks.remove(i);
                proof {
                    old(self).chunks_seq().remove_ensures(i as int);
                }
                return Ok(removed);
            }
            i += 1;
        }
        Err(PngError::ChunkNotFound)
    }

    /// Serializes the whole container: the eight magic bytes followed by
    /// each chunk's serialized form, in sequence order.
    pub fn as_bytes(&self) -> (r: Vec<u8>)
        ensures
            r@ == self.spec_bytes(),
    {
        let mut out: Vec<u8> = Vec::new();
        out.push(137);
        out.push(80);
        out.push(78);
        out.push(71);
        out.push(13);
        out.push(10);
        out.push(26);
        out.push(10);
        proof {
            assert(out@ =~= spec_magic() + concat_chunk_bytes(self.chunks_seq().take(0)));
        }
        let mut i: usize = 0;
        while i < self.chunks.len()
            invariant
                i <= self.chunks_seq().len(),
                out@ == spec_magic() + concat_chunk_bytes(self.chunks_seq().take(i as int)),
            decreases self.chunks_seq().len() - i,
        {
            let chunk_bytes = self.chunks[i].as_bytes();
            let mut j: usize = 0;
            while j < chunk_bytes.len()
                invariant
                    j <= chunk_bytes@.len(),
                    out@ == spec_magic() + concat_chunk_bytes(self.chunks_seq().take(i as int))
                        + chunk_bytes@.subrange(0, j as int),
                decreases chunk_bytes@.len() - j,
            {
                out.push(chunk_bytes[j]);
                j += 1;
                proof {
                    assert(out@ =~= spec_magic() + concat_chunk_bytes(
                        self.chunks_seq().take(i as int),
                    ) + chunk_bytes@.subrange(0, j as int));
                }
            }
            proof {
                assert(chunk_bytes@.subrange(0, chunk_bytes@.len() as int) =~= chunk_bytes@);
                assert(self.chunks_seq().take(i as int).push(self.chunks_seq()[i as int])
                    =~= self.chunks_seq().take(i as int + 1));
                lemma_concat_push(self.chunks_seq().take(i as int), self.chunks_seq()[i as int]);
                assert(out@ =~= spec_magic() + concat_chunk_bytes(
                    self.chunks_seq().take(i as int + 1),
                ));
            }
            i += 1;
        }
        proof {
            assert(self.chunks_seq().take(self.chunks_seq().len() as int) =~= self.chunks_seq());
        }
        out
    }
}

} // verus!
