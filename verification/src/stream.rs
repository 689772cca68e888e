//! The binary codec primitives of the manifest format: a cursor over an
//! in-memory byte stream, and fixed-width big-endian integer encoding.

use vstd::prelude::*;
use vstd::arithmetic::div_mod::{lemma_fundamental_div_mod, lemma_fundamental_div_mod_converse};
use crate::error::{PvkrError, PvkrResult};

verus! {

/// 256 raised to the power `n`: the number of values that `n` bytes can hold.
pub open spec fn pow256(n: nat) -> nat
    decreases n,
{
    if n == 0 {
        1
    } else {
        256 * pow256((n - 1) as nat)
    }
}

pub proof fn lemma_pow256_pos(n: nat)
    ensures
        pow256(n) >= 1,
    decreases n,
{
    if n > 0 {
        lemma_pow256_pos((n - 1) as nat);
    }
}

pub proof fn lemma_pow256_le(a: nat, b: nat)
    requires
        a <= b,
    ensures
        pow256(a) <= pow256(b),
    decreases b,
{
    if a < b {
        let c = (b - 1) as nat;
        lemma_pow256_le(a, c);
        lemma_pow256_pos(c);
        assert(pow256(c) <= 256 * pow256(c)) by (nonlinear_arith)
            requires
                pow256(c) >= 0,
        ;
    }
}

/// The big-endian encoding of `v` in exactly `n` bytes (the value is taken
/// modulo 256^n: high bits beyond `n` bytes are dropped).
pub open spec fn be_bytes(v: nat, n: nat) -> Seq<u8>
    decreases n,
{
    if n == 0 {
        Seq::empty()
    } else {
        be_bytes(v / 256, (n - 1) as nat) + seq![(v % 256) as u8]
    }
}

/// The value that a big-endian byte sequence denotes.
pub open spec fn be_value(s: Seq<u8>) -> nat
    decreases s.len(),
{
    if s.len() == 0 {
        0
    } else {
        be_value(s.drop_last()) * 256 + s.last() as nat
    }
}

pub proof fn lemma_be_bytes_len(v: nat, n: nat)
    ensures
        be_bytes(v, n).len() == n,
    decreases n,
{
    if n > 0 {
        lemma_be_bytes_len(v / 256, (n - 1) as nat);
    }
}

pub proof fn lemma_be_value_bound(s: Seq<u8>)
    ensures
        be_value(s) < pow256(s.len() as nat),
    decreases s.len(),
{
    if s.len() > 0 {
        let d = s.drop_last();
        lemma_be_value_bound(d);
        assert(pow256(s.len() as nat) == 256 * pow256(d.len() as nat));
        assert(be_value(d) * 256 + (s.last() as nat) < 256 * pow256(d.len() as nat))
            by (nonlinear_arith)
            requires
                be_value(d) < pow256(d.len() as nat),
                (s.last() as nat) < 256,
        ;
    }
}

/// Decoding inverts encoding: reading back the `n`-byte big-endian form of a
/// value below 256^n yields that value.
pub proof fn lemma_be_value_of_be_bytes(v: nat, n: nat)
    requires
        v < pow256(n),
    ensures
        be_value(be_bytes(v, n)) == v,
    decreases n,
{
    if n == 0 {
    } else {
        let m = (n - 1) as nat;
        let s = be_bytes(v, n);
        lemma_be_bytes_len(v / 256, m);
        assert(s.drop_last() =~= be_bytes(v / 256, m));
        assert(pow256(n) == 256 * pow256(m));
        assert(v / 256 < pow256(m)) by (nonlinear_arith)
            requires
                v < 256 * pow256(m),
                pow256(m) >= 0,
        ;
        lemma_be_value_of_be_bytes(v / 256, m);
        lemma_fundamental_div_mod(v as int, 256);
    }
}

/// Encoding inverts decoding: any byte sequence is the big-endian form of
/// the value it denotes.
pub proof fn lemma_be_bytes_of_be_value(s: Seq<u8>)
    ensures
        be_bytes(be_value(s), s.len() as nat) == s,
    decreases s.len(),
{
    if s.len() > 0 {
        let d = s.drop_last();
        let v = be_value(s);
        lemma_fundamental_div_mod_converse(v as int, 256, be_value(d) as int, s.last() as int);
        lemma_be_bytes_of_be_value(d);
        assert(be_bytes(v, s.len() as nat) =~= s);
    }
}

/// A read cursor over a byte buffer; its view is the bytes not yet consumed.
pub struct ByteReader {
    data: Vec<u8>,
    pos: usize,
}

impl View for ByteReader {
    type V = Seq<u8>;

    closed spec fn view(&self) -> Seq<u8> {
        if self.pos <= self.data.len() {
            self.data@.skip(self.pos as int)
        } else {
            Seq::empty()
        }
    }
}

impl ByteReader {
    pub fn new(data: Vec<u8>) -> (r: ByteReader)
        ensures
            r@ == data@,
    {
        let r = ByteReader { data, pos: 0 };
        proof {
            assert(r@ =~= r.data@);
        }
        r
    }

    pub fn remaining(&self) -> (r: usize)
        ensures
            r == self@.len(),
    {
        if self.pos <= self.data.len() {
            self.data.len() - self.pos
        } else {
            0
        }
    }

    /// Consumes the next `n` bytes, or leaves the cursor alone and reports
    /// `None` when fewer than `n` bytes remain.
    pub fn read_bytes(&mut self, n: usize) -> (r: Option<Vec<u8>>)
        ensures
            old(self)@.len() >= n ==> (r matches Some(v) && v@ == old(self)@.take(n as int)
                && final(self)@ == old(self)@.skip(n as int)),
            old(self)@.len() < n ==> (r is None && final(self)@ == old(self)@),
    {
        if self.remaining() < n {
            return None;
        }
        if n == 0 {
            proof {
                assert(Seq::<u8>::empty() =~= self@.take(0));
                assert(self@ =~= self@.skip(0));
            }
            return Some(Vec::new());
        }
        proof {
            assert(self.pos <= self.data.len());
        }
        let mut out: Vec<u8> = Vec::new();
        let mut i: usize = 0;
        proof {
            assert(out@ =~= self.data@.subrange(self.pos as int, self.pos as int));
        }
        while i < n
            invariant
                i <= n,
                self.pos + n <= self.data.len(),
                self.data == old(self).data,
                self.pos == old(self).pos,
                out@ == self.data@.subrange(self.pos as int, self.pos + i as int),
            decreases n - i,
        {
            out.push(self.data[self.pos + i]);
            proof {
                assert(out@ =~= self.data@.subrange(self.pos as int, self.pos + (i + 1) as int));
            }
            i += 1;
        }
        self.pos = self.pos + n;
        proof {
            assert(out@ =~= old(self)@.take(n as int));
            assert(self@ =~= old(self)@.skip(n as int));
        }
        Some(out)
    }
}

/// Appends all of `src` to `dst`.
pub fn extend_from(dst: &mut Vec<u8>, src: &Vec<u8>)
    ensures
        final(dst)@ == old(dst)@ + src@,
{
    let mut i: usize = 0;
    while i < src.len()
        invariant
            i <= src.len(),
            dst@ == old(dst)@ + src@.take(i as int),
        decreases src.len() - i,
    {
        dst.push(src[i]);
        proof {
            assert(dst@ =~= old(dst)@ + src@.take(i + 1 as int));
        }
        i += 1;
    }
    proof {
        assert(dst@ =~= old(dst)@ + src@);
    }
}

/// A value with a fixed-width binary form that can be written to and read
/// back from a byte stream.
pub trait Streamable: Sized {
    /// The number of bytes of the binary form.
    spec fn width() -> nat;

    /// The binary form of the value.
    spec fn encoding(&self) -> Seq<u8>;

    proof fn lemma_encoding_len(&self)
        ensures
            self.encoding().len() == Self::width(),
    ;

    fn write_to(&self, s: &mut Vec<u8>) -> (r: PvkrResult<()>)
        ensures
            r is Ok,
            final(s)@ == old(s)@ + self.encoding(),
    ;

    /// Reads one value back; fails exactly when fewer than `width` bytes
    /// remain, which marks the stream as a malformed package.
    fn read_from(s: &mut ByteReader) -> (r: PvkrResult<Self>)
        ensures
            r is Ok <==> old(s)@.len() >= Self::width(),
            r matches Ok(v) ==> v.encoding() == old(s)@.take(Self::width() as int)
                && final(s)@ == old(s)@.skip(Self::width() as int),
            r matches Err(e) ==> e is InvalidPvkrPackage && final(s)@ == old(s)@,
    ;
}

fn push_be_bytes(v: u128, n: usize, s: &mut Vec<u8>)
    ensures
        final(s)@ == old(s)@ + be_bytes(v as nat, n as nat),
    decreases n,
{
    if n == 0 {
        proof {
            assert(s@ =~= old(s)@ + be_bytes(v as nat, 0));
        }
    } else {
        push_be_bytes(v / 256, n - 1, s);
        s.push((v % 256) as u8);
        proof {
            assert(s@ =~= old(s)@ + be_bytes(v as nat, n as nat));
        }
    }
}

impl Streamable for u128 {
    open spec fn width() -> nat {
        16
    }

    open spec fn encoding(&self) -> Seq<u8> {
        be_bytes(*self as nat, 16)
    }

    proof fn lemma_encoding_len(&self) {
        lemma_be_bytes_len(*self as nat, 16);
    }

    fn write_to(&self, s: &mut Vec<u8>) -> (r: PvkrResult<()>) {
        push_be_bytes(*self, 16, s);
        Ok(())
    }

    fn read_from(s: &mut ByteReader) -> (r: PvkrResult<u128>) {
        match s.read_bytes(16) {
            Some(bytes) => {
                let mut acc: u128 = 0;
                let mut i: usize = 0;
                proof {
                    assert(bytes@.take(0) =~= Seq::<u8>::empty());
                }
                while i < 16
                    invariant
                        i <= 16,
                        bytes@.len() == 16,
                        acc as nat == be_value(bytes@.take(i as int)),
                        (acc as nat) < pow256(i as nat),
                    decreases 16 - i,
                {
                    proof {
                        lemma_be_value_bound(bytes@.take(i as int));
                        assert(pow256((i + 1) as nat) == 256 * pow256(i as nat));
                        assert((acc as nat) * 256 + 255 < 256 * pow256(i as nat))
                            by (nonlinear_arith)
                            requires
                                (acc as nat) < pow256(i as nat),
                        ;
                        assert(256 * pow256(i as nat) <= pow256(16)) by {
                            lemma_pow256_le((i + 1) as nat, 16);
                        };
                        assert(pow256(16) == 0x100000000000000000000000000000000) by {
                            reveal_with_fuel(pow256, 17);
                        };
                        assert(bytes@.take((i + 1) as int).drop_last() =~= bytes@.take(i as int));
                    }
                    acc = acc * 256 + (bytes[i] as u128);
                    i += 1;
                }
                proof {
                    assert(bytes@.take(16) =~= bytes@);
                    assert(bytes@ =~= old(s)@.take(16));
                    lemma_be_bytes_of_be_value(bytes@);
                }
                Ok(acc)
            },
            None => PvkrError::invalid_pvkr_package("truncated integer field"),
        }
    }
}

} // verus!
