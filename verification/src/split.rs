//! The splitter: cuts a file into fixed-size chunks and records a manifest
//! with the whole-file digest and one digest per chunk.

use vstd::prelude::*;
use vstd::arithmetic::div_mod::{lemma_fundamental_div_mod, lemma_fundamental_div_mod_converse};
use crate::error::{PvkrError, PvkrResult};
use crate::manifest::{Manifest, ManifestView};
use crate::sha256::{sha256_of, Sha256};

verus! {

/// The chunking of a file: consecutive windows of `s` bytes in order, the
/// last window shorter when the file size is not an exact multiple; an empty
/// file still yields a single empty chunk.
pub open spec fn chunks_of(f: Seq<u8>, s: nat) -> Seq<Seq<u8>>
    recommends
        s >= 1,
    decreases f.len(),
{
    if s == 0 || f.len() <= s {
        seq![f]
    } else {
        seq![f.take(s as int)] + chunks_of(f.skip(s as int), s)
    }
}

/// The views of a vector of byte chunks.
pub open spec fn views_of(chunks: Seq<Vec<u8>>) -> Seq<Seq<u8>> {
    chunks.map_values(|c: Vec<u8>| c@)
}

/// The manifest that splitting a file produces.
pub open spec fn split_manifest(f: Seq<u8>, base_name: Seq<u8>, s: nat) -> ManifestView {
    ManifestView {
        whole_file_digest: sha256_of(f),
        base_name: base_name,
        chunk_digests: chunks_of(f, s).map_values(|c: Seq<u8>| sha256_of(c)),
    }
}

/// Everything a split produces: the manifest and the chunk contents, in
/// chunk-index order.
pub struct Package {
    pub manifest: Manifest,
    pub chunks: Vec<Vec<u8>>,
}

/// The output-directory policy: an empty or absent directory is used as is;
/// a non-empty one is only cleared when overwriting was permitted, and is
/// refused otherwise.
pub fn check_output_dir(dir_nonempty: bool, overwrite: bool) -> (r: PvkrResult<()>)
    ensures
        r is Ok <==> (!dir_nonempty || overwrite),
        r matches Err(e) ==> e is ValidationError,
{
    if dir_nonempty && !overwrite {
        PvkrError::validation_error("Output directory is not empty")
    } else {
        Ok(())
    }
}

/// Cuts the file into consecutive windows of `chunk_size` bytes.
#[verifier::loop_isolation(false)]
pub fn split_chunks(file: &Vec<u8>, chunk_size: usize) -> (r: Vec<Vec<u8>>)
    requires
        chunk_size >= 1,
    ensures
        views_of(r@) == chunks_of(file@, chunk_size as nat),
{
    let ghost s = chunk_size as nat;
    let mut chunks: Vec<Vec<u8>> = Vec::new();
    if file.len() == 0 {
        chunks.push(Vec::new());
        proof {
            assert(views_of(chunks@) =~~= chunks_of(file@, s));
        }
        return chunks;
    }
    let mut pos: usize = 0;
    proof {
        assert(file@.skip(0) =~= file@);
        assert(views_of(chunks@) + chunks_of(file@, s) =~~= chunks_of(file@, s));
    }
    while pos < file.len()
        invariant
            pos <= file@.len(),
            pos < file@.len() ==> views_of(chunks@) + chunks_of(file@.skip(pos as int), s)
                == chunks_of(file@, s),
            pos == file@.len() ==> views_of(chunks@) == chunks_of(file@, s),
        decreases file@.len() - pos,
    {
        let end = if file.len() - pos < chunk_size {
            file.len()
        } else {
            pos + chunk_size
        };
        let mut c: Vec<u8> = Vec::new();
        let mut j: usize = pos;
        while j < end
            invariant
                pos <= j <= end <= file@.len(),
                c@ == file@.subrange(pos as int, j as int),
            decreases end - j,
        {
            c.push(file[j]);
            proof {
                assert(c@ =~= file@.subrange(pos as int, j + 1 as int));
            }
            j += 1;
        }
        let ghost prev = views_of(chunks@);
        let ghost tail = file@.skip(pos as int);
        chunks.push(c);
        proof {
            assert(views_of(chunks@) =~~= prev.push(c@));
            if file@.len() - pos <= chunk_size {
                assert(c@ =~= tail);
                assert(chunks_of(tail, s) == seq![tail]);
                assert(prev.push(c@) =~~= prev + seq![tail]);
            } else {
                assert(c@ =~= tail.take(chunk_size as int));
                assert(file@.skip(end as int) =~= tail.skip(chunk_size as int));
                assert(chunks_of(tail, s) == seq![tail.take(chunk_size as int)]
                    + chunks_of(tail.skip(chunk_size as int), s));
                assert(prev.push(c@) + chunks_of(file@.skip(end as int), s)
                    =~~= prev + chunks_of(tail, s));
                assert(views_of(chunks@) + chunks_of(file@.skip(end as int), s)
                    == chunks_of(file@, s));
            }
        }
        pos = end;
    }
    chunks
}

/// Splits a file: the chunking of its bytes, together with the manifest
/// recording the whole-file digest, the base name, and the digest of every
/// chunk, in chunk-index order.
#[verifier::loop_isolation(false)]
pub fn split(file: &Vec<u8>, base_name: Vec<u8>, chunk_size: usize) -> (r: Package)
    requires
        chunk_size >= 1,
        file@.len() <= crate::sha256::MAX_INPUT_LEN,
    ensures
        r.manifest.wf(),
        r.manifest@ == split_manifest(file@, base_name@, chunk_size as nat),
        views_of(r.chunks@) == chunks_of(file@, chunk_size as nat),
{
    let whole_file_digest = Sha256::of_bytes(file);
    let chunks = split_chunks(file, chunk_size);
    let mut chunk_digests: Vec<Sha256> = Vec::new();
    let mut i: usize = 0;
    while i < chunks.len()
        invariant
            i <= chunks@.len(),
            chunk_digests@.len() == i,
            forall|j: int| 0 <= j < i ==> (#[trigger] chunk_digests@[j]).wf()
                && chunk_digests@[j]@ == sha256_of(chunks@[j]@),
        decreases chunks@.len() - i,
    {
        proof {
            lemma_chunk_len_bounded(file@, chunk_size as nat, i as int);
        }
        chunk_digests.push(Sha256::of_bytes(&chunks[i]));
        i += 1;
    }
    let manifest = Manifest { whole_file_digest, base_name, chunk_digests };
    let r = Package { manifest, chunks };
    proof {
        assert(r.manifest@.chunk_digests
            =~~= split_manifest(file@, r.manifest@.base_name, chunk_size as nat).chunk_digests);
    }
    r
}

/// No chunk is longer than the file it was cut from.
pub proof fn lemma_chunk_len_bounded(f: Seq<u8>, s: nat, i: int)
    requires
        s >= 1,
        0 <= i < chunks_of(f, s).len(),
    ensures
        chunks_of(f, s)[i].len() <= f.len(),
    decreases f.len(),
{
    if f.len() <= s {
    } else if i > 0 {
        lemma_chunk_len_bounded(f.skip(s as int), s, i - 1);
    }
}

/// Chunk count: a file of length `L > 0` splits into exactly
/// `(L + s - 1) / s` chunks — the division rounded up — and an empty file
/// into exactly one (empty) chunk.
pub proof fn lemma_chunk_count(f: Seq<u8>, s: nat)
    requires
        s >= 1,
    ensures
        f.len() == 0 ==> chunks_of(f, s).len() == 1,
        f.len() > 0 ==> chunks_of(f, s).len() == (f.len() + s - 1) / (s as int),
    decreases f.len(),
{
    let len = f.len() as int;
    let si = s as int;
    if f.len() <= s {
        if f.len() > 0 {
            lemma_fundamental_div_mod_converse(len + si - 1, si, 1, len - 1);
        }
    } else {
        lemma_chunk_count(f.skip(si), s);
        lemma_fundamental_div_mod(len - 1, si);
        let q = (len - 1) / si;
        let rem = (len - 1) % si;
        assert(len + si - 1 == (q + 1) * si + rem) by (nonlinear_arith)
            requires
                len - 1 == si * q + rem,
        ;
        lemma_fundamental_div_mod_converse(len + si - 1, si, q + 1, rem);
    }
}

/// Boundary behaviour: every chunk but the last is exactly `s` bytes; a
/// non-empty file whose size is an exact multiple of `s` gets a full last
/// chunk too (never a trailing empty chunk); a file no larger than one chunk
/// is kept whole as a single chunk.
pub proof fn lemma_chunk_boundary(f: Seq<u8>, s: nat)
    requires
        s >= 1,
    ensures
        forall|i: int| 0 <= i < chunks_of(f, s).len() - 1
            ==> (#[trigger] chunks_of(f, s)[i]).len() == s,
        f.len() > 0 ==> 1 <= chunks_of(f, s).last().len() <= s,
        f.len() > 0 && f.len() % s == 0 ==> chunks_of(f, s).last().len() == s,
        0 < f.len() <= s ==> chunks_of(f, s) == seq![f],
    decreases f.len(),
{
    let si = s as int;
    let len = f.len() as int;
    if f.len() <= s {
        if 0 < f.len() < s {
            vstd::arithmetic::div_mod::lemma_small_mod(f.len(), s);
        }
    } else {
        lemma_chunk_boundary(f.skip(si), s);
        let cs = chunks_of(f, s);
        let rest = chunks_of(f.skip(si), s);
        assert(cs == seq![f.take(si)] + rest);
        assert(rest.len() >= 1);
        assert(forall|i: int| 1 <= i < cs.len() ==> cs[i] == rest[i - 1]);
        assert(cs.last() == rest.last());
        if f.len() % s == 0 {
            lemma_fundamental_div_mod(len, si);
            let q = len / si;
            assert(len - si == (q - 1) * si) by (nonlinear_arith)
                requires
                    len == si * q,
            ;
            lemma_fundamental_div_mod_converse(len - si, si, q - 1, 0);
            assert(f.skip(si).len() % s == 0);
        }
    }
}

} // verus!

