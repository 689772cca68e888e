//! The digest component: a fixed 32-byte SHA-256 value, an incremental
//! accumulator backed by the `ring` crate, and reading/writing digests on
//! the manifest byte stream.

use vstd::prelude::*;
use vstd::slice::slice_subrange;
use crate::error::{PvkrError, PvkrResult};
use crate::stream::ByteReader;

verus! {

/// The SHA-256 digest of a byte sequence, as the `ring` crate computes it.
/// The digest is a function of the bytes alone; beyond its 32-byte length,
/// nothing is assumed about its value.
pub uninterp spec fn sha256_of(bytes: Seq<u8>) -> Seq<u8>;

/// The longest input SHA-256 is defined for: 2^64 - 1 bits, in whole bytes.
pub const MAX_INPUT_LEN: u64 = 0x1fffffffffffffff;

/// Declares ring::digest::Context, ring's streaming digest state, so that a
/// field can hold one; the value is opaque here.
#[verifier::external_type_specification]
#[verifier::external_body]
pub struct ExContext(ring::digest::Context);

/// A fixed 32-byte digest value identifying a byte sequence.
pub struct Sha256 {
    inner: Vec<u8>,
}

impl View for Sha256 {
    type V = Seq<u8>;

    closed spec fn view(&self) -> Seq<u8> {
        self.inner@
    }
}

impl Sha256 {
    pub open spec fn wf(&self) -> bool {
        self@.len() == 32
    }

    /// Reads the next 32 bytes as a digest; fewer available bytes mark the
    /// stream as a malformed package.
    pub fn read_from(reader: &mut ByteReader) -> (r: PvkrResult<Sha256>)
        ensures
            r is Ok <==> old(reader)@.len() >= 32,
            r matches Ok(d) ==> d.wf() && d@ == old(reader)@.take(32)
                && final(reader)@ == old(reader)@.skip(32),
            r matches Err(e) ==> e is InvalidPvkrPackage && final(reader)@ == old(reader)@,
    {
        match reader.read_bytes(32) {
            Some(buf) => Ok(Sha256 { inner: buf }),
            None => PvkrError::invalid_pvkr_package("failed to read a full 32-byte digest"),
        }
    }

    /// Reads one more digest from a stream that holds a whole number of
    /// digests: a clean end of stream means no further digest is present,
    /// while a partial record marks the stream as a malformed package.
    pub fn maybe_read_from(reader: &mut ByteReader) -> (r: PvkrResult<Option<Sha256>>)
        ensures
            old(reader)@.len() == 0 ==> (r matches Ok(None) && final(reader)@ == old(reader)@),
            old(reader)@.len() >= 32 ==> (r matches Ok(Some(d)) && d.wf()
                && d@ == old(reader)@.take(32) && final(reader)@ == old(reader)@.skip(32)),
            0 < old(reader)@.len() < 32 ==> (r matches Err(e) && e is InvalidPvkrPackage
                && final(reader)@ == old(reader)@),
    {
        if reader.remaining() == 0 {
            return Ok(None);
        }
        match reader.read_bytes(32) {
            Some(buf) => Ok(Some(Sha256 { inner: buf })),
            None => PvkrError::invalid_pvkr_package("partial digest at end of stream"),
        }
    }

    /// Appends the 32 bytes of the digest to the stream.
    pub fn write_to(&self, out: &mut Vec<u8>) -> (r: PvkrResult<()>)
        ensures
            r is Ok,
            final(out)@ == old(out)@ + self@,
    {
        crate::stream::extend_from(out, &self.inner);
        Ok(())
    }

    /// Compares two digests byte for byte.
    pub fn equals(&self, other: &Sha256) -> (r: bool)
        ensures
            r == (self@ == other@),
    {
        if self.inner.len() != other.inner.len() {
            proof {
                assert(self@ != other@);
            }
            return false;
        }
        let mut i: usize = 0;
        while i < self.inner.len()
            invariant
                i <= self.inner.len(),
                self.inner.len() == other.inner.len(),
                forall|j: int| 0 <= j < i ==> self@[j] == other@[j],
            decreases self.inner.len() - i,
        {
            if self.inner[i] != other.inner[i] {
                proof {
                    assert(self@[i as int] != other@[i as int]);
                }
                return false;
            }
            i += 1;
        }
        proof {
            assert(self@ =~= other@);
        }
        true
    }

    /// The digest of a whole buffer, computed by streaming it through the
    /// accumulator in bounded blocks; the block size does not affect the
    /// result, which is the digest of the full byte sequence.
    pub fn of_bytes(data: &Vec<u8>) -> (r: Sha256)
        requires
            data@.len() <= MAX_INPUT_LEN,
        ensures
            r@ == sha256_of(data@),
            r.wf(),
    {
        let mut builder = Sha256Builder::new();
        let mut i: usize = 0;
        while i < data.len()
            invariant
                i <= data.len(),
                builder@ == data@.take(i as int),
            decreases data.len() - i,
        {
            let end = if data.len() - i < 1024 {
                data.len()
            } else {
                i + 1024
            };
            builder.update(slice_subrange(data.as_slice(), i, end));
            proof {
                assert(data@.take(i as int) + data@.subrange(i as int, end as int)
                    =~= data@.take(end as int));
            }
            i = end;
        }
        proof {
            assert(data@.take(data@.len() as int) =~= data@);
        }
        builder.finish()
    }
}

/// Incremental SHA-256 accumulator. Its view is the sequence of all bytes
/// fed so far; the digest that `finish` yields depends on that sequence
/// alone, however the caller partitioned it across `update` calls.
pub struct Sha256Builder {
    context: ring::digest::Context,
    bytes_fed: Ghost<Seq<u8>>,
}

impl View for Sha256Builder {
    type V = Seq<u8>;

    closed spec fn view(&self) -> Seq<u8> {
        self.bytes_fed@
    }
}

/// Relies on ring::digest::Context::new with the SHA256 algorithm: a fresh
/// streaming context, which has hashed nothing yet.
#[verifier::external_body]
fn new_sha256_context() -> ring::digest::Context {
    ring::digest::Context::new(&ring::digest::SHA256)
}

impl Sha256Builder {
    /// A fresh accumulator, which has been fed no bytes.
    pub fn new() -> (r: Sha256Builder)
        ensures
            r@ == Seq::<u8>::empty(),
    {
        Sha256Builder { context: new_sha256_context(), bytes_fed: Ghost(Seq::empty()) }
    }

    /// Relies on ring::digest::Context::update: feeds further bytes into the
    /// running digest state, after all bytes fed before.
    #[verifier::external_body]
    pub fn update(&mut self, data: &[u8])
        ensures
            final(self)@ == old(self)@ + data@,
    {
        self.context.update(data);
    }

    /// Relies on ring::digest::Context::finish: yields the SHA-256 digest of
    /// the concatenation of all bytes fed, which is 32 bytes long. Streams
    /// past SHA-256's input limit are excluded: on those, ring's finish does
    /// not return a digest.
    #[verifier::external_body]
    pub fn finish(self) -> (r: Sha256)
        requires
            self@.len() <= MAX_INPUT_LEN,
        ensures
            r@ == sha256_of(self@),
            r.wf(),
    {
        Sha256 { inner: self.context.finish().as_ref().to_vec() }
    }
}

/// The digest that an accumulator run yields when its `update` calls feed
/// `parts` in order: the digest of their concatenation.
pub open spec fn digest_of_parts(parts: Seq<Seq<u8>>) -> Seq<u8> {
    sha256_of(parts.flatten())
}

/// Digest determinism: however a byte stream is partitioned into `update`
/// calls, the digest is that of the whole stream, so two partitions with the
/// same concatenation yield the same digest.
pub proof fn lemma_digest_determinism(parts1: Seq<Seq<u8>>, parts2: Seq<Seq<u8>>)
    requires
        parts1.flatten() == parts2.flatten(),
    ensures
        digest_of_parts(parts1) == digest_of_parts(parts2),
        digest_of_parts(parts1) == sha256_of(parts1.flatten()),
{
}

} // verus!
