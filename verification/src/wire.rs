//! The bytes that go over the connection to the broker.
//!
//! Every value has one encoding. A number is written in groups of seven
//! bits, the lowest group first, each group but the last marked by its top
//! bit, and with no more groups than it needs. A run of bytes is written as
//! its length and then the bytes. A digest is written as its thirty-two
//! bytes. A message travels in a frame: its length, then its bytes.

use vstd::prelude::*;

verus! {

/// The encoding of the number `n`.
pub open spec fn enc_varint(n: nat) -> Seq<u8>
    decreases n,
{
    if n < 128 {
        seq![n as u8]
    } else {
        seq![(128 + n % 128) as u8] + enc_varint(n / 128)
    }
}

/// The encoding of a number is one byte at least and, for a number of
/// sixty-four bits, ten at most.
pub proof fn lemma_enc_varint_len(n: nat)
    ensures
        1 <= enc_varint(n).len(),
        n <= u64::MAX ==> enc_varint(n).len() <= 10,
        n < 128 ==> enc_varint(n).len() == 1,
{
    lemma_enc_varint_len_bound(n, 10);
    assert(pow128(10) == 1180591620717411303424) by {
        reveal_with_fuel(pow128, 11);
    }
}

/// 128 to the power of `k`.
pub open spec fn pow128(k: nat) -> nat
    decreases k,
{
    if k == 0 {
        1
    } else {
        128 * pow128((k - 1) as nat)
    }
}

proof fn lemma_enc_varint_len_bound(n: nat, k: nat)
    requires
        k >= 1,
    ensures
        1 <= enc_varint(n).len(),
        n < pow128(k) ==> enc_varint(n).len() <= k,
    decreases n,
{
    if n >= 128 {
        if k >= 2 {
            lemma_enc_varint_len_bound(n / 128, (k - 1) as nat);
            assert(pow128(k) == 128 * pow128((k - 1) as nat));
            if n < pow128(k) {
                assert(n / 128 < pow128((k - 1) as nat));
            }
        } else {
            lemma_enc_varint_len_bound(n / 128, 1);
            assert(pow128(1) == 128) by {
                reveal_with_fuel(pow128, 3);
            }
        }
    } else {
    }
}

/// The number whose low part is `acc` and whose high part is `m`, where the
/// low part takes values below `mult`.
pub open spec fn mix(acc: nat, mult: nat, m: nat) -> nat {
    acc + mult * m
}

/// Writes the number `n` at the end of `out`.
pub fn write_varint(out: &mut Vec<u8>, n: u64)
    ensures
        final(out)@ == old(out)@ + enc_varint(n as nat),
{
    let mut rest = n;
    while rest >= 128
        invariant
            out@ + enc_varint(rest as nat) == old(out)@ + enc_varint(n as nat),
        decreases rest,
    {
        let ghost before = out@;
        out.push((128 + rest % 128) as u8);
        proof {
            assert(before.push((128 + rest % 128) as u8) + enc_varint((rest / 128) as nat)
                =~= before + (seq![(128 + rest % 128) as u8] + enc_varint((rest / 128) as nat)));
        }
        rest = rest / 128;
    }
    let ghost before = out@;
    out.push(rest as u8);
    assert(before.push(rest as u8) =~= before + enc_varint(rest as nat));
}

/// Reads a number at `pos`. Returns the number and the position after it,
/// or nothing if the bytes at `pos` are not the encoding of a number of
/// sixty-four bits: if they end too early, go on too long, or use more
/// groups than the number needs.
pub fn read_varint(buf: &[u8], pos: usize) -> (r: Option<(u64, usize)>)
    ensures
        r matches Some((n, next)) ==> pos < next <= buf@.len() && buf@.subrange(
            pos as int,
            next as int,
        ) == enc_varint(n as nat),
        forall|n: nat, rest: Seq<u8>|
            pos <= buf@.len() && n <= u64::MAX && #[trigger] (enc_varint(n) + rest) == buf@.skip(
                pos as int,
            ) ==> r == Some((n as u64, (pos + enc_varint(n).len()) as usize)),
{
    if pos >= buf.len() {
        proof {
            assert forall|n: nat, rest: Seq<u8>|
                pos <= buf@.len() && n <= u64::MAX && #[trigger] (enc_varint(n) + rest)
                    == buf@.skip(pos as int) implies false by {
                lemma_enc_varint_len(n);
                assert((enc_varint(n) + rest).len() >= 1);
                assert(buf@.skip(pos as int).len() == 0);
            }
        }
        return None;
    }
    let len = buf.len();
    let mut acc: u64 = 0;
    let mut mult: u64 = 1;
    let mut i: usize = 0;
    proof {
        assert(buf@.subrange(pos as int, pos as int) =~= Seq::<u8>::empty());
        assert forall|m: nat| #[trigger] enc_varint(mix(0, 1, m)) == Seq::<u8>::empty() + enc_varint(
            m,
        ) by {
            assert(Seq::<u8>::empty() + enc_varint(m) =~= enc_varint(m));
        }
        assert forall|n: nat, rest: Seq<u8>|
            n <= u64::MAX && #[trigger] (enc_varint(n) + rest) == buf@.skip(
                pos as int,
            ) implies buf@.skip(pos as int) == enc_varint(n / 1) + rest && n == 0 + 1 * (n / 1) by {}
        assert(pow128(0) == 1);
    }
    while i < 10
        invariant
            pos < buf@.len(),
            buf@.len() == len,
            i <= 10,
            pos + i <= buf@.len(),
            mult == pow128(i as nat),
            i < 10 ==> mult <= 0x8000_0000_0000_0000,
            acc < mult,
            forall|m: nat|
                (m >= 1 || i == 0) ==> #[trigger] enc_varint(mix(acc as nat, mult as nat, m)) == buf@.subrange(
                    pos as int,
                    pos + i,
                ) + enc_varint(m),
            forall|n: nat, rest: Seq<u8>|
                n <= u64::MAX && #[trigger] (enc_varint(n) + rest) == buf@.skip(pos as int)
                    ==> buf@.skip(pos + i) == enc_varint(n / (mult as nat)) + rest && n == acc
                    + mult * (n / (mult as nat)) && (i > 0 ==> n / (mult as nat) >= 1),
        decreases 10 - i,
    {
        if pos + i >= len {
            proof {
                assert forall|n: nat, rest: Seq<u8>|
                    n <= u64::MAX && #[trigger] (enc_varint(n) + rest) == buf@.skip(
                        pos as int,
                    ) implies false by {
                    lemma_enc_varint_len(n / (mult as nat));
                    assert(buf@.skip(pos + i).len() == 0);
                }
            }
            return None;
        }
        let b = buf[pos + i];
        let ghost read = buf@.subrange(pos as int, pos + i);
        let ghost read2 = buf@.subrange(pos as int, pos + i + 1);
        assert(read2 =~= read.push(b));
        if b < 128 {
            if (i > 0 && b == 0) || (i == 9 && b > 1) {
                proof {
                    assert forall|n: nat, rest: Seq<u8>|
                        n <= u64::MAX && #[trigger] (enc_varint(n) + rest) == buf@.skip(
                            pos as int,
                        ) implies false by {
                        let m = n / (mult as nat);
                        let tail = enc_varint(m) + rest;
                        assert(buf@.skip(pos + i)[0] == b);
                        assert(tail[0] == enc_varint(m)[0]);
                        if m >= 128 {
                            assert(enc_varint(m)[0] == (128 + m % 128) as u8);
                        } else {
                            assert(enc_varint(m)[0] == m as u8);
                            if i == 9 {
                                assert(mult == 0x8000_0000_0000_0000) by {
                                    reveal_with_fuel(pow128, 10);
                                }
                                assert(m <= 1) by (nonlinear_arith)
                                    requires
                                        n <= 0xffff_ffff_ffff_ffff,
                                        m == n / 0x8000_0000_0000_0000,
                                ;
                            }
                        }
                    }
                }
                return None;
            }
            proof {
                assert(pow128(9) == 0x8000_0000_0000_0000) by {
                    reveal_with_fuel(pow128, 10);
                }
                if i < 9 {
                    assert(pow128((i + 1) as nat) == 128 * pow128(i as nat));
                    lemma_pow128_monotonic((i + 1) as nat, 9);
                }
                assert(acc + mult * b <= u64::MAX) by (nonlinear_arith)
                    requires
                        acc < mult,
                        mult <= 0x8000_0000_0000_0000,
                        (i == 9 && b <= 1 && mult == 0x8000_0000_0000_0000) || (i < 9 && b < 128
                            && mult * 128 <= 0x8000_0000_0000_0000),
                ;
            }
            let value = acc + mult * (b as u64);
            proof {
                assert(enc_varint(b as nat) =~= seq![b]);
                assert(enc_varint(mix(acc as nat, mult as nat, b as nat)) == read + enc_varint(
                    b as nat,
                ));
                assert(mix(acc as nat, mult as nat, b as nat) == value);
                assert(read + seq![b] =~= read2);
                assert forall|n: nat, rest: Seq<u8>|
                    n <= u64::MAX && #[trigger] (enc_varint(n) + rest) == buf@.skip(
                        pos as int,
                    ) implies n == value && enc_varint(n).len() == i + 1 by {
                    let m = n / (mult as nat);
                    let tail = enc_varint(m) + rest;
                    assert(buf@.skip(pos + i)[0] == b);
                    assert(tail[0] == enc_varint(m)[0]);
                    if m >= 128 {
                        assert(enc_varint(m)[0] == (128 + m % 128) as u8);
                    } else {
                        assert(enc_varint(m)[0] == m as u8);
                    }
                    assert(m == b);
                    assert(enc_varint(n).len() == read2.len());
                }
            }
            return Some((value, pos + i + 1));
        }
        if i == 9 {
            proof {
                assert forall|n: nat, rest: Seq<u8>|
                    n <= u64::MAX && #[trigger] (enc_varint(n) + rest) == buf@.skip(
                        pos as int,
                    ) implies false by {
                    let m = n / (mult as nat);
                    let tail = enc_varint(m) + rest;
                    assert(buf@.skip(pos + i)[0] == b);
                    assert(tail[0] == enc_varint(m)[0]);
                    assert(mult == 0x8000_0000_0000_0000) by {
                        reveal_with_fuel(pow128, 10);
                    }
                    assert(m <= 1) by (nonlinear_arith)
                        requires
                            n <= 0xffff_ffff_ffff_ffff,
                            m == n / 0x8000_0000_0000_0000,
                    ;
                    assert(enc_varint(m)[0] == m as u8);
                }
            }
            return None;
        }
        let digit = (b - 128) as u64;
        let ghost acc0 = acc;
        let ghost mult0 = mult;
        proof {
            assert(pow128((i + 1) as nat) == 128 * pow128(i as nat));
            if i < 8 {
                assert(pow128(9) == 0x8000_0000_0000_0000) by {
                    reveal_with_fuel(pow128, 10);
                }
                lemma_pow128_monotonic((i + 1) as nat, 9);
            } else {
                assert(pow128(9) == 0x8000_0000_0000_0000) by {
                    reveal_with_fuel(pow128, 10);
                }
            }
            assert(acc + digit * mult < mult * 128) by (nonlinear_arith)
                requires
                    acc < mult,
                    digit < 128,
            ;
        }
        acc = acc + digit * mult;
        mult = mult * 128;
        proof {
            assert forall|m: nat| m >= 1 implies #[trigger] enc_varint(
                mix(acc as nat, mult as nat, m),
            ) == read2 + enc_varint(m) by {
                let big = digit as nat + 128 * m;
                assert(mix(acc as nat, mult as nat, m) == mix(acc0 as nat, mult0 as nat, big)) by (nonlinear_arith)
                    requires
                        acc == acc0 + digit * mult0,
                        mult == mult0 * 128,
                        big == digit + 128 * m,
                ;
                assert(enc_varint(mix(acc0 as nat, mult0 as nat, big)) == read + enc_varint(big));
                assert(big >= 128 && big % 128 == digit && big / 128 == m);
                assert(enc_varint(big) == seq![(128 + big % 128) as u8] + enc_varint(big / 128));
                assert(read + (seq![b] + enc_varint(m)) =~= read2 + enc_varint(m));
            }
            assert forall|n: nat, rest: Seq<u8>|
                n <= u64::MAX && #[trigger] (enc_varint(n) + rest) == buf@.skip(
                    pos as int,
                ) implies buf@.skip(pos + i + 1) == enc_varint(n / (mult as nat)) + rest && n
                == acc + mult * (n / (mult as nat)) && n / (mult as nat) >= 1 by {
                let m = n / (mult0 as nat);
                let tail = enc_varint(m) + rest;
                assert(buf@.skip(pos + i)[0] == b);
                assert(tail[0] == enc_varint(m)[0]);
                if m < 128 {
                    assert(enc_varint(m)[0] == m as u8);
                    assert(false);
                }
                assert(enc_varint(m) == seq![(128 + m % 128) as u8] + enc_varint(m / 128));
                assert(m % 128 == digit);
                assert(buf@.skip(pos + i + 1) =~= buf@.skip(pos + i).skip(1));
                assert(tail.skip(1) =~= enc_varint(m / 128) + rest);
                assert(n / (mult as nat) == m / 128 && n == acc + mult * (m / 128)) by (nonlinear_arith)
                    requires
                        m == n / (mult0 as nat),
                        n == acc0 + mult0 * m,
                        acc0 < mult0,
                        mult == mult0 * 128,
                        acc == acc0 + digit * mult0,
                        m % 128 == digit,
                        mult0 > 0,
                ;
            }
        }
        i += 1;
    }
    proof {
        assert(pow128(10) == 1180591620717411303424) by {
            reveal_with_fuel(pow128, 11);
        }
    }
    None
}

proof fn lemma_pow128_monotonic(a: nat, b: nat)
    requires
        a <= b,
    ensures
        pow128(a) <= pow128(b),
        pow128(a) >= 1,
    decreases b,
{
    if a < b {
        lemma_pow128_monotonic(a, (b - 1) as nat);
    } else if a > 0 {
        lemma_pow128_monotonic((a - 1) as nat, (a - 1) as nat);
    }
}

/// The frame that carries `payload`: its length, then its bytes.
pub open spec fn enc_frame(payload: Seq<u8>) -> Seq<u8> {
    enc_varint(payload.len()) + payload
}

/// Writes the frame that carries `payload` at the end of `out`.
pub fn write_frame(out: &mut Vec<u8>, payload: &[u8])
    ensures
        final(out)@ == old(out)@ + enc_frame(payload@),
{
    let ghost before = out@;
    write_varint(out, payload.len() as u64);
    let ghost header = out@;
    let mut i: usize = 0;
    while i < payload.len()
        invariant
            i <= payload@.len(),
            out@ == header + payload@.take(i as int),
        decreases payload@.len() - i,
    {
        out.push(payload[i]);
        assert(payload@.take(i as int + 1) =~= payload@.take(i as int).push(payload@[i as int]));
        assert(out@ =~= header + payload@.take(i as int + 1));
        i += 1;
    }
    assert(payload@.take(i as int) =~= payload@);
    assert(out@ =~= before + enc_frame(payload@));
}

/// A frame that begins a run of bytes is the only one that does.
pub proof fn law_frame_unique(a: Seq<u8>, rest_a: Seq<u8>, b: Seq<u8>, rest_b: Seq<u8>)
    requires
        enc_frame(a) + rest_a == enc_frame(b) + rest_b,
        a.len() <= u64::MAX,
        b.len() <= u64::MAX,
    ensures
        a == b,
        rest_a == rest_b,
{
    let whole = enc_frame(a) + rest_a;
    assert(whole =~= enc_varint(a.len()) + (a + rest_a));
    assert(whole =~= enc_varint(b.len()) + (b + rest_b));
    lemma_varint_unique(a.len(), a + rest_a, b.len(), b + rest_b);
    let h = enc_varint(a.len()).len() as int;
    assert(whole.skip(h) =~= a + rest_a);
    assert(whole.skip(h) =~= b + rest_b);
    assert((a + rest_a).take(a.len() as int) =~= a);
    assert((b + rest_b).take(b.len() as int) =~= b);
    assert((a + rest_a).skip(a.len() as int) =~= rest_a);
    assert((b + rest_b).skip(b.len() as int) =~= rest_b);
}

/// A number whose encoding begins a run of bytes is the only one that does.
pub proof fn lemma_varint_unique(a: nat, rest_a: Seq<u8>, b: nat, rest_b: Seq<u8>)
    requires
        enc_varint(a) + rest_a == enc_varint(b) + rest_b,
    ensures
        a == b,
        rest_a == rest_b,
    decreases a,
{
    let whole = enc_varint(a) + rest_a;
    assert(whole[0] == enc_varint(a)[0]);
    assert(whole[0] == enc_varint(b)[0]);
    if a < 128 {
        if b >= 128 {
            assert(enc_varint(b)[0] == (128 + b % 128) as u8);
        }
        assert(whole.skip(1) =~= rest_a);
        assert(whole.skip(1) =~= rest_b);
    } else {
        if b < 128 {
            assert(enc_varint(a)[0] == (128 + a % 128) as u8);
        }
        assert(enc_varint(a)[0] == (128 + a % 128) as u8);
        assert(enc_varint(b)[0] == (128 + b % 128) as u8);
        assert(whole.skip(1) =~= enc_varint(a / 128) + rest_a);
        assert(whole.skip(1) =~= enc_varint(b / 128) + rest_b);
        lemma_varint_unique(a / 128, rest_a, b / 128, rest_b);
    }
}

/// Reads the frame at `pos`. Returns its payload and the position after it,
/// or nothing if no whole frame begins at `pos`.
pub fn read_frame(buf: &[u8], pos: usize) -> (r: Option<(Vec<u8>, usize)>)
    ensures
        r matches Some((payload, next)) ==> pos < next <= buf@.len() && buf@.subrange(
            pos as int,
            next as int,
        ) == enc_frame(payload@),
        forall|payload: Seq<u8>, rest: Seq<u8>|
            pos <= buf@.len() && #[trigger] (enc_frame(payload) + rest) == buf@.skip(pos as int)
                ==> match r {
                Some((read, next)) => read@ == payload && next == pos + enc_frame(payload).len(),
                None => false,
            },
{
    let len = buf.len();
    let header = read_varint(buf, pos);
    proof {
        assert forall|payload: Seq<u8>, rest: Seq<u8>|
            pos <= buf@.len() && #[trigger] (enc_frame(payload) + rest) == buf@.skip(
                pos as int,
            ) implies header == Some(
            (payload.len() as u64, (pos + enc_varint(payload.len()).len()) as usize),
        ) && payload.len() <= len by {
            assert((enc_frame(payload) + rest).len() == buf@.skip(pos as int).len());
            assert(enc_frame(payload) + rest =~= enc_varint(payload.len()) + (payload + rest));
        }
    }
    match header {
        None => None,
        Some((n, start)) => {
            if n > (len - start) as u64 {
                proof {
                    assert forall|payload: Seq<u8>, rest: Seq<u8>|
                        pos <= buf@.len() && #[trigger] (enc_frame(payload) + rest) == buf@.skip(
                            pos as int,
                        ) implies false by {
                        assert((enc_frame(payload) + rest).len() == buf@.skip(pos as int).len());
                    }
                }
                return None;
            }
            let end = start + n as usize;
            let payload = vstd::slice::slice_to_vec(vstd::slice::slice_subrange(buf, start, end));
            proof {
                assert(buf@.subrange(pos as int, end as int) =~= buf@.subrange(
                    pos as int,
                    start as int,
                ) + buf@.subrange(start as int, end as int));
                assert forall|p: Seq<u8>, rest: Seq<u8>|
                    pos <= buf@.len() && #[trigger] (enc_frame(p) + rest) == buf@.skip(
                        pos as int,
                    ) implies payload@ == p && end == pos + enc_frame(p).len() by {
                    let whole = enc_frame(p) + rest;
                    let h = enc_varint(p.len()).len() as int;
                    assert(whole.subrange(h, h + p.len()) =~= p);
                    assert(buf@.skip(pos as int).subrange(h, h + p.len()) =~= buf@.subrange(
                        start as int,
                        end as int,
                    ));
                }
            }
            Some((payload, end))
        },
    }
}

} // verus!
