//! The welder: validates every chunk of a package against its manifest,
//! concatenates the chunks in index order, and validates the reconstructed
//! file against the recorded whole-file digest.

use vstd::prelude::*;
use crate::error::PvkrError;
use crate::manifest::{Manifest, ManifestView};
use crate::sha256::{sha256_of, Sha256};
use crate::split::{chunks_of, split_manifest, views_of};

verus! {

/// How a weld ends: the reconstructed bytes, or the first failed check.
pub enum WeldOutcome {
    Welded(Seq<u8>),
    ChunkMismatch(int),
    WholeFileMismatch,
}

/// The verification step on which a weld failed: a chunk whose recomputed
/// digest differs from the manifest's record, or a reconstructed file whose
/// digest differs from the recorded whole-file digest.
#[derive(Debug, Clone, Copy, PartialEq, Eq, Structural)]
pub enum WeldFailure {
    ChunkMismatch(usize),
    WholeFileMismatch,
}

impl WeldFailure {
    /// The failure as the package error taxonomy reports it.
    pub fn to_error(&self) -> (e: PvkrError)
        ensures
            e is ValidationError,
    {
        match self {
            WeldFailure::ChunkMismatch(_) => PvkrError::ValidationError(
                "chunk sha256 mismatch, file corrupted".to_owned(),
            ),
            WeldFailure::WholeFileMismatch => PvkrError::ValidationError(
                "output file sha256 mismatch, file corrupted".to_owned(),
            ),
        }
    }
}

/// The first chunk index at or after `i` whose digest does not match the
/// manifest's recorded digest for that index.
pub open spec fn first_mismatch_from(
    digests: Seq<Seq<u8>>,
    chunks: Seq<Seq<u8>>,
    i: int,
) -> Option<int>
    decreases digests.len() - i,
{
    if i < 0 || i >= digests.len() {
        None
    } else if digests[i] != sha256_of(chunks[i]) {
        Some(i)
    } else {
        first_mismatch_from(digests, chunks, i + 1)
    }
}

pub open spec fn first_mismatch(m: ManifestView, chunks: Seq<Seq<u8>>) -> Option<int> {
    first_mismatch_from(m.chunk_digests, chunks, 0)
}

/// What welding decides for a manifest and chunk contents: the first chunk
/// whose digest check fails, else a whole-file digest failure, else the
/// chunks concatenated in index order.
pub open spec fn weld_spec(m: ManifestView, chunks: Seq<Seq<u8>>) -> WeldOutcome {
    match first_mismatch(m, chunks) {
        Some(i) => WeldOutcome::ChunkMismatch(i),
        None => if m.whole_file_digest != sha256_of(chunks.flatten()) {
            WeldOutcome::WholeFileMismatch
        } else {
            WeldOutcome::Welded(chunks.flatten())
        },
    }
}

/// Welds a package back into a file, exactly as `weld_spec` decides: every
/// chunk is validated against the manifest in index order and the first
/// mismatch is reported; then the chunks are concatenated verbatim and the
/// result is validated against the recorded whole-file digest.
#[verifier::loop_isolation(false)]
pub fn weld(manifest: &Manifest, chunks: &Vec<Vec<u8>>) -> (r: Result<Vec<u8>, WeldFailure>)
    requires
        chunks@.len() == manifest@.chunk_digests.len(),
        views_of(chunks@).flatten().len() <= crate::sha256::MAX_INPUT_LEN,
    ensures
        r matches Ok(out) ==> weld_spec(manifest@, views_of(chunks@))
            == WeldOutcome::Welded(out@),
        r matches Err(f) ==> (f matches WeldFailure::ChunkMismatch(i)
            && weld_spec(manifest@, views_of(chunks@)) == WeldOutcome::ChunkMismatch(i as int))
            || (f is WholeFileMismatch
            && weld_spec(manifest@, views_of(chunks@)) == WeldOutcome::WholeFileMismatch),
{
    let ghost m = manifest@;
    let ghost cvs = views_of(chunks@);
    let n = chunks.len();
    let mut i: usize = 0;
    while i < n
        invariant
            i <= n,
            first_mismatch_from(m.chunk_digests, cvs, 0)
                == first_mismatch_from(m.chunk_digests, cvs, i as int),
        decreases n - i,
    {
        proof {
            lemma_flatten_len_ge_element(cvs, i as int);
        }
        let d = Sha256::of_bytes(&chunks[i]);
        if !d.equals(&manifest.chunk_digests[i]) {
            proof {
                assert(m.chunk_digests[i as int] != sha256_of(cvs[i as int]));
            }
            return Err(WeldFailure::ChunkMismatch(i));
        }
        proof {
            assert(m.chunk_digests[i as int] == sha256_of(cvs[i as int]));
            assert(first_mismatch_from(m.chunk_digests, cvs, i as int)
                == first_mismatch_from(m.chunk_digests, cvs, i + 1));
        }
        i += 1;
    }
    let mut out: Vec<u8> = Vec::new();
    let mut k: usize = 0;
    proof {
        assert(cvs.take(0) =~~= Seq::<Seq<u8>>::empty());
    }
    while k < n
        invariant
            k <= n,
            out@ == cvs.take(k as int).flatten(),
        decreases n - k,
    {
        crate::stream::extend_from(&mut out, &chunks[k]);
        proof {
            assert(cvs.take(k + 1 as int) =~~= cvs.take(k as int).push(cvs[k as int]));
            cvs.take(k as int).lemma_flatten_push(cvs[k as int]);
        }
        k += 1;
    }
    proof {
        assert(cvs.take(n as int) =~~= cvs);
    }
    let out_digest = Sha256::of_bytes(&out);
    if !out_digest.equals(&manifest.whole_file_digest) {
        return Err(WeldFailure::WholeFileMismatch);
    }
    Ok(out)
}

proof fn lemma_flatten_len_ge_element(chunks: Seq<Seq<u8>>, i: int)
    requires
        0 <= i < chunks.len(),
    ensures
        chunks.flatten().len() >= chunks[i].len(),
    decreases chunks.len(),
{
    if i > 0 {
        lemma_flatten_len_ge_element(chunks.drop_first(), i - 1);
    }
}

proof fn lemma_no_mismatch(digests: Seq<Seq<u8>>, chunks: Seq<Seq<u8>>, i: int)
    requires
        0 <= i,
        forall|j: int| 0 <= j < digests.len() ==> digests[j] == sha256_of(chunks[j]),
    ensures
        first_mismatch_from(digests, chunks, i) == None::<int>,
    decreases digests.len() - i,
{
    if i < digests.len() {
        lemma_no_mismatch(digests, chunks, i + 1);
    }
}

proof fn lemma_match_until(digests: Seq<Seq<u8>>, chunks: Seq<Seq<u8>>, j: int, i: int)
    requires
        0 <= j <= i < digests.len(),
        forall|k: int| 0 <= k < i ==> digests[k] == sha256_of(chunks[k]),
        digests[i] != sha256_of(chunks[i]),
    ensures
        first_mismatch_from(digests, chunks, j) == Some(i),
    decreases i - j,
{
    if j < i {
        lemma_match_until(digests, chunks, j + 1, i);
    }
}

/// The chunks of a file concatenate back to the file itself.
pub proof fn lemma_flatten_chunks(f: Seq<u8>, s: nat)
    requires
        s >= 1,
    ensures
        chunks_of(f, s).flatten() == f,
    decreases f.len(),
{
    if f.len() <= s {
        let cs = chunks_of(f, s);
        assert(cs == seq![f]);
        assert(cs.len() == 1);
        assert(cs.first() == f);
        assert(cs.drop_first() =~~= Seq::<Seq<u8>>::empty());
        assert(cs.drop_first().flatten() == Seq::<u8>::empty());
        assert(cs.flatten() == cs.first() + cs.drop_first().flatten());
        assert(cs.flatten() =~= f);
    } else {
        lemma_flatten_chunks(f.skip(s as int), s);
        let cs = chunks_of(f, s);
        let rest = chunks_of(f.skip(s as int), s);
        assert(cs == seq![f.take(s as int)] + rest);
        assert(cs.len() == 1 + rest.len());
        assert(cs.first() == f.take(s as int));
        assert(cs.drop_first() =~~= rest);
        assert(cs.flatten() == cs.first() + cs.drop_first().flatten());
        assert(cs.flatten() == f.take(s as int) + f.skip(s as int));
        assert(f.take(s as int) + f.skip(s as int) =~= f);
    }
}

/// Round trip: welding what splitting produced succeeds and reconstructs
/// the original file exactly — every chunk digest matches, the whole-file
/// digest matches, and the chunks concatenate back to the file.
pub proof fn lemma_round_trip(f: Seq<u8>, base_name: Seq<u8>, s: nat)
    requires
        s >= 1,
    ensures
        weld_spec(split_manifest(f, base_name, s), chunks_of(f, s)) == WeldOutcome::Welded(f),
{
    let m = split_manifest(f, base_name, s);
    let cs = chunks_of(f, s);
    assert(forall|j: int| 0 <= j < m.chunk_digests.len()
        ==> m.chunk_digests[j] == sha256_of(cs[j]));
    lemma_no_mismatch(m.chunk_digests, cs, 0);
    lemma_flatten_chunks(f, s);
}

/// Corruption detection: after a split, replacing the contents of any one
/// chunk with bytes whose digest differs makes welding fail naming exactly
/// that chunk. (A replacement that leaves the SHA-256 digest unchanged — a
/// collision — is outside this statement.)
pub proof fn lemma_corruption_detected(
    f: Seq<u8>,
    base_name: Seq<u8>,
    s: nat,
    i: int,
    bad: Seq<u8>,
)
    requires
        s >= 1,
        0 <= i < chunks_of(f, s).len(),
        sha256_of(bad) != sha256_of(chunks_of(f, s)[i]),
    ensures
        weld_spec(split_manifest(f, base_name, s), chunks_of(f, s).update(i, bad))
            == WeldOutcome::ChunkMismatch(i),
{
    let m = split_manifest(f, base_name, s);
    let cs = chunks_of(f, s).update(i, bad);
    assert(forall|k: int| 0 <= k < i ==> m.chunk_digests[k] == sha256_of(cs[k]));
    assert(m.chunk_digests[i] != sha256_of(cs[i]));
    lemma_match_until(m.chunk_digests, cs, 0, i);
}

/// Manifest tamper detection: replacing the recorded whole-file digest with
/// any incorrect value, while leaving every chunk intact, passes every
/// per-chunk check and still fails the final whole-file check.
pub proof fn lemma_tamper_detected(f: Seq<u8>, base_name: Seq<u8>, s: nat, bad: Seq<u8>)
    requires
        s >= 1,
        bad != sha256_of(f),
    ensures
        weld_spec(
            ManifestView {
                whole_file_digest: bad,
                base_name: base_name,
                chunk_digests: split_manifest(f, base_name, s).chunk_digests,
            },
            chunks_of(f, s),
        ) == WeldOutcome::WholeFileMismatch,
{
    let m0 = split_manifest(f, base_name, s);
    let cs = chunks_of(f, s);
    assert(forall|j: int| 0 <= j < m0.chunk_digests.len()
        ==> m0.chunk_digests[j] == sha256_of(cs[j]));
    lemma_no_mismatch(m0.chunk_digests, cs, 0);
    lemma_flatten_chunks(f, s);
}

} // verus!
