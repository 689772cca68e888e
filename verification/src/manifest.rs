//! The manifest: the on-disk record of a split package. Its binary layout
//! is, in order, the 32-byte whole-file digest, the base-name length as a
//! 16-byte big-endian integer, the base-name bytes, and one 32-byte digest
//! per chunk, repeated until the end of the stream.

use vstd::prelude::*;
use vstd::utf8::{encode_utf8, valid_utf8};
use crate::error::{PvkrError, PvkrResult};
use crate::sha256::Sha256;
use crate::stream::{be_bytes, be_value, lemma_be_bytes_len, lemma_be_value_of_be_bytes,
    pow256, ByteReader, Streamable};

verus! {

/// The mathematical content of a manifest.
pub struct ManifestView {
    pub whole_file_digest: Seq<u8>,
    pub base_name: Seq<u8>,
    pub chunk_digests: Seq<Seq<u8>>,
}

impl ManifestView {
    pub open spec fn wf(self) -> bool {
        &&& self.whole_file_digest.len() == 32
        &&& self.base_name.len() < pow256(16)
        &&& forall|i: int| 0 <= i < self.chunk_digests.len() ==> self.chunk_digests[i].len() == 32
    }
}

/// The package record: the whole-file digest, the base name that chunk file
/// names derive from, and one digest per chunk in chunk-index order.
pub struct Manifest {
    pub whole_file_digest: Sha256,
    pub base_name: Vec<u8>,
    pub chunk_digests: Vec<Sha256>,
}

impl View for Manifest {
    type V = ManifestView;

    open spec fn view(&self) -> ManifestView {
        ManifestView {
            whole_file_digest: self.whole_file_digest@,
            base_name: self.base_name@,
            chunk_digests: self.chunk_digests@.map_values(|d: Sha256| d@),
        }
    }
}

/// The binary layout of a manifest.
pub open spec fn manifest_bytes(m: ManifestView) -> Seq<u8> {
    m.whole_file_digest + be_bytes(m.base_name.len(), 16) + m.base_name
        + m.chunk_digests.flatten()
}

/// Parses a trailing stream of 32-byte digests, delimited by stream
/// exhaustion; a trailing partial record is a malformed stream.
pub open spec fn parse_digests(bytes: Seq<u8>) -> Option<Seq<Seq<u8>>>
    decreases bytes.len(),
{
    if bytes.len() == 0 {
        Some(Seq::empty())
    } else if bytes.len() < 32 {
        None
    } else {
        match parse_digests(bytes.skip(32)) {
            Some(rest) => Some(seq![bytes.take(32)] + rest),
            None => None,
        }
    }
}

/// Parses a whole manifest; `None` marks a malformed stream.
pub open spec fn manifest_parse(bytes: Seq<u8>) -> Option<ManifestView> {
    if bytes.len() < 48 {
        None
    } else {
        let l = be_value(bytes.subrange(32, 48)) as int;
        if bytes.len() - 48 < l {
            None
        } else {
            match parse_digests(bytes.skip(48 + l)) {
                Some(ds) => Some(
                    ManifestView {
                        whole_file_digest: bytes.take(32),
                        base_name: bytes.subrange(48, 48 + l),
                        chunk_digests: ds,
                    },
                ),
                None => None,
            }
        }
    }
}

/// Relies on String::from_utf8: it succeeds exactly on valid UTF-8 input
/// and returns the string made of exactly those bytes.
#[verifier::external_body]
fn utf8_to_string(bytes: &Vec<u8>) -> (r: Option<String>)
    ensures
        r is Some <==> valid_utf8(bytes@),
        r matches Some(s) ==> encode_utf8(s@) == bytes@,
{
    String::from_utf8(bytes.clone()).ok()
}

impl Manifest {
    pub open spec fn wf(&self) -> bool {
        &&& self.whole_file_digest.wf()
        &&& forall|i: int| 0 <= i < self.chunk_digests@.len() ==> self.chunk_digests@[i].wf()
    }

    pub proof fn lemma_wf_view(&self)
        requires
            self.wf(),
        ensures
            self@.wf(),
    {
        vstd::std_specs::vec::axiom_spec_len(&self.base_name);
        assert(self.base_name@.len() <= usize::MAX);
        assert(pow256(8) == 0x10000000000000000) by {
            reveal_with_fuel(pow256, 9);
        };
        crate::stream::lemma_pow256_le(8, 16);
        assert(forall|i: int| 0 <= i < self@.chunk_digests.len()
            ==> self@.chunk_digests[i].len() == 32);
    }

    /// The chunk base name as text; bytes that are not valid UTF-8 mark the
    /// package as malformed.
    pub fn base_name_string(&self) -> (r: PvkrResult<String>)
        ensures
            r is Ok <==> valid_utf8(self@.base_name),
            r matches Ok(s) ==> encode_utf8(s@) == self@.base_name,
            r matches Err(e) ==> e is InvalidPvkrPackage,
    {
        match utf8_to_string(&self.base_name) {
            Some(s) => Ok(s),
            None => PvkrError::invalid_pvkr_package("base name is not valid utf-8"),
        }
    }

    /// Serializes the manifest into its binary layout.
    pub fn encode(&self) -> (r: Vec<u8>)
        ensures
            r@ == manifest_bytes(self@),
    {
        let mut out: Vec<u8> = Vec::new();
        let _ = self.whole_file_digest.write_to(&mut out);
        let len128: u128 = self.base_name.len() as u128;
        let _ = len128.write_to(&mut out);
        crate::stream::extend_from(&mut out, &self.base_name);
        let ghost prefix = self.whole_file_digest@ + be_bytes(self@.base_name.len(), 16)
            + self@.base_name;
        proof {
            assert(out@ =~= prefix);
            assert(self@.chunk_digests.take(0) =~= Seq::<Seq<u8>>::empty());
        }
        let mut i: usize = 0;
        while i < self.chunk_digests.len()
            invariant
                i <= self.chunk_digests@.len(),
                self@.chunk_digests.len() == self.chunk_digests@.len(),
                out@ == prefix + self@.chunk_digests.take(i as int).flatten(),
            decreases self.chunk_digests@.len() - i,
        {
            let _ = self.chunk_digests[i].write_to(&mut out);
            proof {
                assert(self@.chunk_digests.take(i + 1 as int)
                    =~= self@.chunk_digests.take(i as int).push(self@.chunk_digests[i as int]));
                self@.chunk_digests.take(i as int).lemma_flatten_push(
                    self@.chunk_digests[i as int],
                );
                assert(out@ =~= prefix + self@.chunk_digests.take(i + 1 as int).flatten());
            }
            i += 1;
        }
        proof {
            assert(self@.chunk_digests.take(self.chunk_digests@.len() as int)
                =~= self@.chunk_digests);
            assert(out@ =~= manifest_bytes(self@));
        }
        out
    }

    /// Parses a manifest from its binary layout; succeeds exactly on the
    /// streams that `manifest_parse` accepts, and any malformed stream is an
    /// invalid package.
    #[verifier::loop_isolation(false)]
    pub fn decode(bytes: Vec<u8>) -> (r: PvkrResult<Manifest>)
        ensures
            r is Ok <==> manifest_parse(bytes@) is Some,
            r matches Ok(m) ==> m.wf() && manifest_parse(bytes@) == Some(m@),
            r matches Err(e) ==> e is InvalidPvkrPackage,
    {
        let ghost all = bytes@;
        let mut reader = ByteReader::new(bytes);
        let whole_file_digest = match Sha256::read_from(&mut reader) {
            Ok(d) => d,
            Err(e) => {
                return Err(e);
            },
        };
        let base_name_len = match u128::read_from(&mut reader) {
            Ok(l) => l,
            Err(e) => {
                return Err(e);
            },
        };
        proof {
            assert(reader@ =~= all.skip(48));
            assert(all.subrange(32, 48) =~= all.skip(32).take(16));
            assert(pow256(16) == 0x100000000000000000000000000000000) by {
                reveal_with_fuel(pow256, 17);
            };
            lemma_be_value_of_be_bytes(base_name_len as nat, 16);
            assert(be_value(all.subrange(32, 48)) == base_name_len as nat);
        }
        if (reader.remaining() as u128) < base_name_len {
            return PvkrError::invalid_pvkr_package("base name is longer than the stream");
        }
        let bn_len = base_name_len as usize;
        let base_name = match reader.read_bytes(bn_len) {
            Some(v) => v,
            None => {
                return PvkrError::invalid_pvkr_package("base name is longer than the stream");
            },
        };
        let ghost l = base_name_len as int;
        proof {
            assert(base_name@ =~= all.subrange(48, 48 + l));
            assert(reader@ =~= all.skip(48 + l));
        }
        let ghost tail = reader@;
        let mut chunk_digests: Vec<Sha256> = Vec::new();
        proof {
            assert(chunk_digests@.map_values(|d: Sha256| d@) =~= Seq::<Seq<u8>>::empty());
        }
        while reader.remaining() > 0
            invariant
                forall|j: int| 0 <= j < chunk_digests@.len() ==> chunk_digests@[j].wf(),
                parse_digests(tail) == match parse_digests(reader@) {
                    Some(rest) => Some(chunk_digests@.map_values(|d: Sha256| d@) + rest),
                    None => None::<Seq<Seq<u8>>>,
                },
            decreases reader@.len(),
        {
            let ghost before = reader@;
            let ghost parsed = chunk_digests@.map_values(|d: Sha256| d@);
            match Sha256::maybe_read_from(&mut reader) {
                Ok(Some(d)) => {
                    chunk_digests.push(d);
                    proof {
                        assert(chunk_digests@.map_values(|x: Sha256| x@)
                            =~= parsed.push(d@));
                        let pd = parse_digests(before.skip(32));
                        if pd is Some {
                            let rest = pd->Some_0;
                            assert(parsed.push(d@) + rest
                                =~= parsed + (seq![before.take(32)] + rest));
                        }
                    }
                },
                Ok(None) => {
                    return PvkrError::invalid_pvkr_package("partial digest at end of stream");
                },
                Err(e) => {
                    return Err(e);
                },
            }
        }
        proof {
            assert(reader@.len() == 0);
            assert(parse_digests(tail)
                == Some(chunk_digests@.map_values(|d: Sha256| d@) + Seq::<Seq<u8>>::empty()));
            assert(chunk_digests@.map_values(|d: Sha256| d@) + Seq::<Seq<u8>>::empty()
                =~= chunk_digests@.map_values(|d: Sha256| d@));
        }
        let m = Manifest { whole_file_digest, base_name, chunk_digests };
        proof {
            assert(manifest_parse(all) == Some(m@));
        }
        Ok(m)
    }
}

pub proof fn lemma_parse_digests_of_flatten(ds: Seq<Seq<u8>>)
    requires
        forall|i: int| 0 <= i < ds.len() ==> ds[i].len() == 32,
    ensures
        parse_digests(ds.flatten()) == Some(ds),
    decreases ds.len(),
{
    if ds.len() == 0 {
        assert(ds.flatten() =~= Seq::<u8>::empty());
        assert(ds =~~= Seq::<Seq<u8>>::empty());
    } else {
        let rest = ds.drop_first();
        let b = ds.flatten();
        assert(b == ds.first() + rest.flatten());
        lemma_parse_digests_of_flatten(rest);
        assert(b.take(32) =~= ds.first());
        assert(b.skip(32) =~= rest.flatten());
        assert(seq![b.take(32)] + rest =~~= ds);
    }
}

/// The codec round trip: a well-formed manifest parses back from its own
/// binary layout, unchanged.
pub proof fn lemma_manifest_round_trip(m: ManifestView)
    requires
        m.wf(),
    ensures
        manifest_parse(manifest_bytes(m)) == Some(m),
{
    let b = manifest_bytes(m);
    let l = m.base_name.len() as int;
    lemma_be_bytes_len(m.base_name.len(), 16);
    assert(b.len() >= 48 + l);
    assert(b.subrange(32, 48) =~= be_bytes(m.base_name.len(), 16));
    lemma_be_value_of_be_bytes(m.base_name.len(), 16);
    assert(b.take(32) =~= m.whole_file_digest);
    assert(b.subrange(48, 48 + l) =~= m.base_name);
    assert(b.skip(48 + l) =~= m.chunk_digests.flatten());
    lemma_parse_digests_of_flatten(m.chunk_digests);
}

} // verus!
