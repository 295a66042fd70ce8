//! Unsigned and two's complement integers as big- and little-endian byte sequences.

use vstd::prelude::*;

use crate::codec::Endian;

verus! {

/// `256` to the power `n`: one more than the largest value that `n` bytes hold.
pub open spec fn pow256(n: nat) -> nat
    decreases n,
{
    if n == 0 {
        1
    } else {
        256 * pow256((n - 1) as nat)
    }
}

/// The value of `s` read most significant byte first.
pub open spec fn be_value(s: Seq<u8>) -> nat
    decreases s.len(),
{
    if s.len() == 0 {
        0
    } else {
        be_value(s.drop_last()) * 256 + s.last() as nat
    }
}

/// The value of `s` read least significant byte first.
pub open spec fn le_value(s: Seq<u8>) -> nat
    decreases s.len(),
{
    if s.len() == 0 {
        0
    } else {
        s[0] as nat + 256 * le_value(s.drop_first())
    }
}

/// The value of `s` in byte order `e`.
pub open spec fn value_of(e: Endian, s: Seq<u8>) -> nat {
    match e {
        Endian::Big => be_value(s),
        Endian::Little => le_value(s),
    }
}

/// The `n` lowest bytes of `v`, most significant first.
pub open spec fn be_bytes(v: nat, n: nat) -> Seq<u8>
    decreases n,
{
    if n == 0 {
        Seq::empty()
    } else {
        be_bytes(v / 256, (n - 1) as nat).push((v % 256) as u8)
    }
}

/// The `n` lowest bytes of `v`, least significant first.
pub open spec fn le_bytes(v: nat, n: nat) -> Seq<u8>
    decreases n,
{
    if n == 0 {
        Seq::empty()
    } else {
        seq![(v % 256) as u8] + le_bytes(v / 256, (n - 1) as nat)
    }
}

/// The `n` lowest bytes of `v` in byte order `e`.
pub open spec fn bytes_of(e: Endian, v: nat, n: nat) -> Seq<u8> {
    match e {
        Endian::Big => be_bytes(v, n),
        Endian::Little => le_bytes(v, n),
    }
}

/// The two's complement pattern of `x` in `n` bytes, as an unsigned value.
pub open spec fn unsigned_of(x: int, n: nat) -> nat {
    if x >= 0 {
        x as nat
    } else {
        (x + pow256(n)) as nat
    }
}

/// The signed value of the `n`-byte two's complement pattern `v`.
pub open spec fn signed_of(v: nat, n: nat) -> int {
    if v < pow256(n) / 2 {
        v as int
    } else {
        v - pow256(n)
    }
}

proof fn lemma_pow256_positive(n: nat)
    ensures
        pow256(n) >= 1,
    decreases n,
{
    if n > 0 {
        lemma_pow256_positive((n - 1) as nat);
    }
}

/// A value read from `s` is below `256` to the power of its length.
pub proof fn lemma_value_bound(e: Endian, s: Seq<u8>)
    ensures
        value_of(e, s) < pow256(s.len()),
    decreases s.len(),
{
    if s.len() > 0 {
        lemma_value_bound(e, s.drop_last());
        lemma_value_bound(e, s.drop_first());
        match e {
            Endian::Big => {
                assert(be_value(s.drop_last()) + 1 <= pow256((s.len() - 1) as nat));
                assert((be_value(s.drop_last()) + 1) * 256 <= pow256((s.len() - 1) as nat) * 256)
                    by (nonlinear_arith)
                    requires
                        be_value(s.drop_last()) + 1 <= pow256((s.len() - 1) as nat),
                ;
            },
            Endian::Little => {
                assert(le_value(s.drop_first()) + 1 <= pow256((s.len() - 1) as nat));
                assert((le_value(s.drop_first()) + 1) * 256 <= pow256((s.len() - 1) as nat) * 256)
                    by (nonlinear_arith)
                    requires
                        le_value(s.drop_first()) + 1 <= pow256((s.len() - 1) as nat),
                ;
            },
        }
    }
}

/// Writing a value that fits in `n` bytes and reading it back gives the value.
pub proof fn lemma_bytes_round_trip(e: Endian, v: nat, n: nat)
    requires
        v < pow256(n),
    ensures
        bytes_of(e, v, n).len() == n,
        value_of(e, bytes_of(e, v, n)) == v,
    decreases n,
{
    if n > 0 {
        let p = pow256((n - 1) as nat);
        assert(v / 256 < p) by (nonlinear_arith)
            requires
                v < 256 * p,
        ;
        lemma_bytes_round_trip(e, v / 256, (n - 1) as nat);
        match e {
            Endian::Big => {
                assert(be_bytes(v, n).drop_last() =~= be_bytes(v / 256, (n - 1) as nat));
            },
            Endian::Little => {
                assert(le_bytes(v, n).drop_first() =~= le_bytes(v / 256, (n - 1) as nat));
            },
        }
        assert(v == (v / 256) * 256 + v % 256) by (nonlinear_arith);
    } else {
        assert(v == 0);
    }
}

/// The two's complement pattern of a value in range reads back as that value.
pub proof fn lemma_signed_round_trip(x: int, n: nat)
    requires
        n > 0,
        -(pow256(n) / 2) <= x < pow256(n) / 2,
    ensures
        unsigned_of(x, n) < pow256(n),
        signed_of(unsigned_of(x, n), n) == x,
{
    lemma_pow256_positive((n - 1) as nat);
}

/// The `n` lowest bytes of `v`, most significant first.
pub fn be_encode(v: u128, n: usize) -> (r: Vec<u8>)
    ensures
        r@ == be_bytes(v as nat, n as nat),
        r@.len() == n,
    decreases n,
{
    if n == 0 {
        Vec::new()
    } else {
        let mut r = be_encode(v / 256, n - 1);
        r.push((v % 256) as u8);
        r
    }
}

/// The `n` lowest bytes of `v`, least significant first.
pub fn le_encode(v: u128, n: usize) -> (r: Vec<u8>)
    ensures
        r@ == le_bytes(v as nat, n as nat),
        r@.len() == n,
    decreases n,
{
    if n == 0 {
        Vec::new()
    } else {
        let mut rest = le_encode(v / 256, n - 1);
        let mut r: Vec<u8> = Vec::new();
        r.push((v % 256) as u8);
        r.append(&mut rest);
        assert(r@ =~= seq![(v % 256) as u8] + le_bytes((v / 256) as nat, (n - 1) as nat));
        r
    }
}

/// The `n` lowest bytes of `v` in byte order `e`.
pub fn encode_unsigned(v: u128, n: usize, e: Endian) -> (r: Vec<u8>)
    ensures
        r@ == bytes_of(e, v as nat, n as nat),
        r@.len() == n,
{
    match e {
        Endian::Big => be_encode(v, n),
        Endian::Little => le_encode(v, n),
    }
}

/// The value of the first `k` bytes of `s`, most significant first.
fn be_decode_prefix(s: &[u8], k: usize) -> (r: u128)
    requires
        k <= s@.len(),
        k <= 16,
    ensures
        r as nat == be_value(s@.subrange(0, k as int)),
    decreases k,
{
    if k == 0 {
        0
    } else {
        let acc = be_decode_prefix(s, k - 1);
        let ghost prefix = s@.subrange(0, k as int);
        assert(prefix.drop_last() =~= s@.subrange(0, k - 1));
        proof {
            lemma_value_bound(Endian::Big, s@.subrange(0, k - 1));
            reveal_with_fuel(pow256, 16);
            lemma_pow256_monotone((k - 1) as nat, 15);
        }
        acc * 256 + s[k - 1] as u128
    }
}

/// The value of the bytes of `s` from index `k` on, least significant first.
fn le_decode_suffix(s: &[u8], k: usize) -> (r: u128)
    requires
        k <= s@.len(),
        s@.len() - k <= 16,
    ensures
        r as nat == le_value(s@.subrange(k as int, s@.len() as int)),
    decreases s@.len() - k,
{
    if k == s.len() {
        0
    } else {
        let acc = le_decode_suffix(s, k + 1);
        let ghost suffix = s@.subrange(k as int, s@.len() as int);
        assert(suffix.drop_first() =~= s@.subrange(k + 1, s@.len() as int));
        proof {
            lemma_value_bound(Endian::Little, s@.subrange(k + 1, s@.len() as int));
            reveal_with_fuel(pow256, 16);
            lemma_pow256_monotone((s@.len() - k - 1) as nat, 15);
        }
        s[k] as u128 + 256 * acc
    }
}

proof fn lemma_pow256_monotone(a: nat, b: nat)
    requires
        a <= b,
    ensures
        pow256(a) <= pow256(b),
    decreases b,
{
    if a < b {
        lemma_pow256_monotone(a, (b - 1) as nat);
        lemma_pow256_positive((b - 1) as nat);
    }
}

/// The value of the bytes of `s` in byte order `e`.
pub fn decode_unsigned(s: &[u8], e: Endian) -> (r: u128)
    requires
        s@.len() <= 16,
    ensures
        r as nat == value_of(e, s@),
        (r as nat) < pow256(s@.len()),
{
    proof {
        lemma_value_bound(e, s@);
    }
    assert(s@.subrange(0, s@.len() as int) =~= s@);
    match e {
        Endian::Big => be_decode_prefix(s, s.len()),
        Endian::Little => le_decode_suffix(s, 0),
    }
}

} // verus!
