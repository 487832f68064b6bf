//! The values by which artifacts and jobs are named.

use crate::text::{hex_fixed, lemma_hex_fixed_len, u64_to_hex};
use vstd::prelude::*;

verus! {

/// A 256-bit content hash, held as four words, the most significant first.
///
/// Two artifacts with the same digest are the same artifact, on every node.
#[derive(Clone, Copy, Debug, PartialEq, Eq, Structural, Hash, PartialOrd, Ord)]
pub struct Digest {
    pub w0: u64,
    pub w1: u64,
    pub w2: u64,
    pub w3: u64,
}

impl Digest {
    /// The digest whose value, read as a 256-bit number, is `n`.
    pub fn from_u64(n: u64) -> (d: Digest)
        ensures
            d == (Digest { w0: 0, w1: 0, w2: 0, w3: n }),
    {
        Digest { w0: 0, w1: 0, w2: 0, w3: n }
    }

    /// The digest as sixty-four hexadecimal digits in lower case.
    pub open spec fn hex(self) -> Seq<char> {
        hex_fixed(self.w0 as nat, 16) + hex_fixed(self.w1 as nat, 16) + hex_fixed(
            self.w2 as nat,
            16,
        ) + hex_fixed(self.w3 as nat, 16)
    }

    /// Writes the digest as sixty-four hexadecimal digits in lower case.
    pub fn to_hex(&self) -> (s: String)
        ensures
            s@ == self.hex(),
            s@.len() == 64,
    {
        proof {
            lemma_hex_fixed_len(self.w0 as nat, 16);
            lemma_hex_fixed_len(self.w1 as nat, 16);
            lemma_hex_fixed_len(self.w2 as nat, 16);
            lemma_hex_fixed_len(self.w3 as nat, 16);
        }
        let mut s = u64_to_hex(self.w0);
        let s1 = u64_to_hex(self.w1);
        s.append(s1.as_str());
        let s2 = u64_to_hex(self.w2);
        s.append(s2.as_str());
        let s3 = u64_to_hex(self.w3);
        s.append(s3.as_str());
        s
    }

    /// The order of digests: that of the 256-bit numbers they stand for.
    pub open spec fn spec_lt(self, other: Digest) -> bool {
        self.w0 < other.w0 || (self.w0 == other.w0 && (self.w1 < other.w1 || (self.w1 == other.w1
            && (self.w2 < other.w2 || (self.w2 == other.w2 && self.w3 < other.w3)))))
    }

    /// Whether `self` comes before `other`.
    pub fn lt(&self, other: &Digest) -> (r: bool)
        ensures
            r == self.spec_lt(*other),
    {
        if self.w0 != other.w0 {
            self.w0 < other.w0
        } else if self.w1 != other.w1 {
            self.w1 < other.w1
        } else if self.w2 != other.w2 {
            self.w2 < other.w2
        } else {
            self.w3 < other.w3
        }
    }
}

/// The `k` lowest bytes of `w`, the most significant first.
pub open spec fn be_bytes(w: nat, k: nat) -> Seq<u8>
    decreases k,
{
    if k == 0 {
        Seq::empty()
    } else {
        be_bytes(w / 256, (k - 1) as nat).push((w % 256) as u8)
    }
}

/// The number that bytes stand for, the most significant first.
pub open spec fn word_of(bytes: Seq<u8>) -> nat
    decreases bytes.len(),
{
    if bytes.len() == 0 {
        0
    } else {
        word_of(bytes.drop_last()) * 256 + bytes.last() as nat
    }
}

/// 256 to the power of `k`.
pub open spec fn pow256(k: nat) -> nat
    decreases k,
{
    if k == 0 {
        1
    } else {
        256 * pow256((k - 1) as nat)
    }
}

/// A number that fits into `k` bytes is the number its `k` bytes stand for.
pub proof fn lemma_word_of_be_bytes(w: nat, k: nat)
    requires
        w < pow256(k),
    ensures
        be_bytes(w, k).len() == k,
        word_of(be_bytes(w, k)) == w,
    decreases k,
{
    if k > 0 {
        let init = be_bytes(w / 256, (k - 1) as nat);
        assert(w / 256 < pow256((k - 1) as nat));
        lemma_word_of_be_bytes(w / 256, (k - 1) as nat);
        assert(be_bytes(w, k).drop_last() =~= init);
    }
}

/// A word of sixty-four bits fits into eight bytes.
pub proof fn lemma_u64_fits(w: u64)
    ensures
        w < pow256(8),
{
    assert(pow256(8) == 0x1_0000_0000_0000_0000) by {
        reveal_with_fuel(pow256, 9);
    }
}

fn push_word(out: &mut Vec<u8>, w: u64)
    ensures
        final(out)@ == old(out)@ + be_bytes(w as nat, 8),
{
    let b7 = (w % 256) as u8;
    let r1 = w / 256;
    let b6 = (r1 % 256) as u8;
    let r2 = r1 / 256;
    let b5 = (r2 % 256) as u8;
    let r3 = r2 / 256;
    let b4 = (r3 % 256) as u8;
    let r4 = r3 / 256;
    let b3 = (r4 % 256) as u8;
    let r5 = r4 / 256;
    let b2 = (r5 % 256) as u8;
    let r6 = r5 / 256;
    let b1 = (r6 % 256) as u8;
    let r7 = r6 / 256;
    let b0 = (r7 % 256) as u8;
    out.push(b0);
    out.push(b1);
    out.push(b2);
    out.push(b3);
    out.push(b4);
    out.push(b5);
    out.push(b6);
    out.push(b7);
    proof {
        let e = Seq::<u8>::empty();
        assert(be_bytes((r7 / 256) as nat, 0) =~= e);
        assert(be_bytes(r7 as nat, 1) =~= e.push(b0));
        assert(be_bytes(r6 as nat, 2) =~= e.push(b0).push(b1));
        assert(be_bytes(r5 as nat, 3) =~= e.push(b0).push(b1).push(b2));
        assert(be_bytes(r4 as nat, 4) =~= e.push(b0).push(b1).push(b2).push(b3));
        assert(be_bytes(r3 as nat, 5) =~= e.push(b0).push(b1).push(b2).push(b3).push(b4));
        assert(be_bytes(r2 as nat, 6) =~= e.push(b0).push(b1).push(b2).push(b3).push(b4).push(b5));
        assert(be_bytes(r1 as nat, 7) =~= e.push(b0).push(b1).push(b2).push(b3).push(b4).push(
            b5,
        ).push(b6));
        assert(be_bytes(w as nat, 8) =~= e.push(b0).push(b1).push(b2).push(b3).push(b4).push(
            b5,
        ).push(b6).push(b7));
        assert(out@ =~= old(out)@ + be_bytes(w as nat, 8));
    }
}

fn read_word(bytes: &[u8], pos: usize) -> (w: u64)
    requires
        pos + 8 <= bytes@.len(),
    ensures
        be_bytes(w as nat, 8) == bytes@.subrange(pos as int, pos + 8),
{
    let a0 = bytes[pos] as u64;
    let a1 = a0 * 256 + bytes[pos + 1] as u64;
    let a2 = a1 * 256 + bytes[pos + 2] as u64;
    let a3 = a2 * 256 + bytes[pos + 3] as u64;
    let a4 = a3 * 256 + bytes[pos + 4] as u64;
    let a5 = a4 * 256 + bytes[pos + 5] as u64;
    let a6 = a5 * 256 + bytes[pos + 6] as u64;
    let a7 = a6 * 256 + bytes[pos + 7] as u64;
    proof {
        let s = bytes@;
        let p = pos as int;
        assert(be_bytes(0, 0) =~= s.subrange(p, p));
        lemma_be_step(0, s[p], 0);
        assert(s.subrange(p, p).push(s[p]) =~= s.subrange(p, p + 1));
        lemma_be_step(a0 as nat, s[p + 1], 1);
        assert(s.subrange(p, p + 1).push(s[p + 1]) =~= s.subrange(p, p + 2));
        lemma_be_step(a1 as nat, s[p + 2], 2);
        assert(s.subrange(p, p + 2).push(s[p + 2]) =~= s.subrange(p, p + 3));
        lemma_be_step(a2 as nat, s[p + 3], 3);
        assert(s.subrange(p, p + 3).push(s[p + 3]) =~= s.subrange(p, p + 4));
        lemma_be_step(a3 as nat, s[p + 4], 4);
        assert(s.subrange(p, p + 4).push(s[p + 4]) =~= s.subrange(p, p + 5));
        lemma_be_step(a4 as nat, s[p + 5], 5);
        assert(s.subrange(p, p + 5).push(s[p + 5]) =~= s.subrange(p, p + 6));
        lemma_be_step(a5 as nat, s[p + 6], 6);
        assert(s.subrange(p, p + 6).push(s[p + 6]) =~= s.subrange(p, p + 7));
        lemma_be_step(a6 as nat, s[p + 7], 7);
        assert(s.subrange(p, p + 7).push(s[p + 7]) =~= s.subrange(p, p + 8));
    }
    a7
}

proof fn lemma_be_step(acc: nat, b: u8, k: nat)
    ensures
        be_bytes(acc * 256 + b as nat, k + 1) == be_bytes(acc, k).push(b),
{
    let w = acc * 256 + b as nat;
    assert(w / 256 == acc && w % 256 == b as nat);
}

impl Digest {
    /// The digest as its thirty-two bytes, the most significant first.
    pub open spec fn bytes(self) -> Seq<u8> {
        be_bytes(self.w0 as nat, 8) + be_bytes(self.w1 as nat, 8) + be_bytes(self.w2 as nat, 8)
            + be_bytes(self.w3 as nat, 8)
    }

    /// Writes the digest as its thirty-two bytes.
    pub fn to_bytes(&self) -> (r: Vec<u8>)
        ensures
            r@ == self.bytes(),
            r@.len() == 32,
    {
        let mut r: Vec<u8> = Vec::new();
        push_word(&mut r, self.w0);
        push_word(&mut r, self.w1);
        push_word(&mut r, self.w2);
        push_word(&mut r, self.w3);
        proof {
            lemma_u64_fits(self.w0);
            lemma_u64_fits(self.w1);
            lemma_u64_fits(self.w2);
            lemma_u64_fits(self.w3);
            lemma_word_of_be_bytes(self.w0 as nat, 8);
            lemma_word_of_be_bytes(self.w1 as nat, 8);
            lemma_word_of_be_bytes(self.w2 as nat, 8);
            lemma_word_of_be_bytes(self.w3 as nat, 8);
            assert(r@ =~= self.bytes());
        }
        r
    }

    /// Reads a digest from its thirty-two bytes. Any other number of bytes
    /// is no digest.
    pub fn from_bytes(bytes: &[u8]) -> (r: Option<Digest>)
        ensures
            r is Some <==> bytes@.len() == 32,
            r matches Some(d) ==> d.bytes() == bytes@,
    {
        if bytes.len() != 32 {
            return None;
        }
        let d = Digest {
            w0: read_word(bytes, 0),
            w1: read_word(bytes, 8),
            w2: read_word(bytes, 16),
            w3: read_word(bytes, 24),
        };
        proof {
            assert(bytes@ =~= bytes@.subrange(0, 8) + bytes@.subrange(8, 16) + bytes@.subrange(
                16,
                24,
            ) + bytes@.subrange(24, 32));
        }
        Some(d)
    }

    /// A digest is found again in its bytes: two digests with the same bytes
    /// are the same digest, so that reading what was written gives back what
    /// was written.
    pub proof fn law_bytes_tell_apart(self, other: Digest)
        requires
            self.bytes() == other.bytes(),
        ensures
            self == other,
    {
        lemma_u64_fits(self.w0);
        lemma_u64_fits(self.w1);
        lemma_u64_fits(self.w2);
        lemma_u64_fits(self.w3);
        lemma_u64_fits(other.w0);
        lemma_u64_fits(other.w1);
        lemma_u64_fits(other.w2);
        lemma_u64_fits(other.w3);
        lemma_word_of_be_bytes(self.w0 as nat, 8);
        lemma_word_of_be_bytes(self.w1 as nat, 8);
        lemma_word_of_be_bytes(self.w2 as nat, 8);
        lemma_word_of_be_bytes(self.w3 as nat, 8);
        lemma_word_of_be_bytes(other.w0 as nat, 8);
        lemma_word_of_be_bytes(other.w1 as nat, 8);
        lemma_word_of_be_bytes(other.w2 as nat, 8);
        lemma_word_of_be_bytes(other.w3 as nat, 8);
        let a = self.bytes();
        let b = other.bytes();
        assert(a.subrange(0, 8) =~= be_bytes(self.w0 as nat, 8));
        assert(b.subrange(0, 8) =~= be_bytes(other.w0 as nat, 8));
        assert(a.subrange(8, 16) =~= be_bytes(self.w1 as nat, 8));
        assert(b.subrange(8, 16) =~= be_bytes(other.w1 as nat, 8));
        assert(a.subrange(16, 24) =~= be_bytes(self.w2 as nat, 8));
        assert(b.subrange(16, 24) =~= be_bytes(other.w2 as nat, 8));
        assert(a.subrange(24, 32) =~= be_bytes(self.w3 as nat, 8));
        assert(b.subrange(24, 32) =~= be_bytes(other.w3 as nat, 8));
    }
}

/// How the layer assembler is to read a blob.
#[derive(Clone, Copy, Debug, PartialEq, Eq, Structural, Hash)]
pub enum ArtifactType {
    Tar,
    Manifest,
}

/// The name the broker gives a job: the client that submitted it, and the
/// client's own number for it.
#[derive(Clone, Copy, Debug, PartialEq, Eq, Structural, Hash, PartialOrd, Ord)]
pub struct JobId {
    pub cid: u32,
    pub cjid: u32,
}

impl JobId {
    /// The order of job ids: by client, then by the client's number.
    pub open spec fn spec_lt(self, other: JobId) -> bool {
        self.cid < other.cid || (self.cid == other.cid && self.cjid < other.cjid)
    }

    /// Whether `self` comes before `other`.
    pub fn lt(&self, other: &JobId) -> (r: bool)
        ensures
            r == self.spec_lt(*other),
    {
        self.cid < other.cid || (self.cid == other.cid && self.cjid < other.cjid)
    }
}

} // verus!
