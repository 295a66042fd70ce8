//! The codec of fixed-size arrays: items one after the other, each in its own raw form.

use vstd::prelude::*;

use crate::codec::{ByteOrder, Cuisiner, CuisinerError, CuisinerErrorV, Endian};

verus! {

/// Decoding of the first `k` items of `raw`, each held in `T::RAW_SIZE` bytes; the first failure
/// is returned.
pub open spec fn decode_items<T: Cuisiner>(e: Endian, raw: Seq<u8>, k: nat) -> Result<
    Seq<T>,
    CuisinerErrorV,
>
    decreases k,
{
    if k == 0 {
        Ok(Seq::empty())
    } else {
        let n = T::RAW_SIZE as int;
        match decode_items::<T>(e, raw, (k - 1) as nat) {
            Ok(items) => match T::spec_from_raw(e, raw.subrange((k - 1) * n, k * n)) {
                Ok(x) => Ok(items.push(x)),
                Err(x) => Err(x),
            },
            Err(x) => Err(x),
        }
    }
}

/// Encoding of `items` one after the other; the first failure is returned.
pub open spec fn encode_items<T: Cuisiner>(e: Endian, items: Seq<T>) -> Result<
    Seq<u8>,
    CuisinerErrorV,
>
    decreases items.len(),
{
    if items.len() == 0 {
        Ok(Seq::empty())
    } else {
        match encode_items(e, items.drop_last()) {
            Ok(bytes) => match T::spec_to_raw(items.last(), e) {
                Ok(b) => Ok(bytes + b),
                Err(x) => Err(x),
            },
            Err(x) => Err(x),
        }
    }
}

/// Once decoding fails at some item, decoding more items fails with the same error.
proof fn lemma_decode_error_stays<T: Cuisiner>(e: Endian, raw: Seq<u8>, k: nat, m: nat)
    requires
        k <= m,
        decode_items::<T>(e, raw, k) is Err,
    ensures
        decode_items::<T>(e, raw, m) == decode_items::<T>(e, raw, k),
    decreases m - k,
{
    if k < m {
        lemma_decode_error_stays::<T>(e, raw, k, (m - 1) as nat);
    }
}

/// Decoding `k` items yields `k` items when it succeeds.
proof fn lemma_decode_len<T: Cuisiner>(e: Endian, raw: Seq<u8>, k: nat)
    ensures
        decode_items::<T>(e, raw, k) is Ok ==> decode_items::<T>(e, raw, k)->Ok_0.len() == k,
    decreases k,
{
    if k > 0 {
        lemma_decode_len::<T>(e, raw, (k - 1) as nat);
    }
}

/// Once encoding fails at some item, encoding a longer prefix fails with the same error.
proof fn lemma_encode_error_stays<T: Cuisiner>(e: Endian, items: Seq<T>, k: int, m: int)
    requires
        0 <= k <= m <= items.len(),
        encode_items(e, items.subrange(0, k)) is Err,
    ensures
        encode_items(e, items.subrange(0, m)) == encode_items(e, items.subrange(0, k)),
    decreases m - k,
{
    if k < m {
        lemma_encode_error_stays(e, items, k, m - 1);
        assert(items.subrange(0, m).drop_last() == items.subrange(0, m - 1));
    }
}

/// The `i`-th chunk of `n` bytes of `raw`.
pub open spec fn chunk(raw: Seq<u8>, i: int, n: int) -> Seq<u8> {
    raw.subrange(i * n, (i + 1) * n)
}

/// Where each item's encoding holds `T::RAW_SIZE` bytes, the encoding of items holds one chunk
/// per item, in order, each the item's own encoding.
proof fn lemma_encode_chunks<T: Cuisiner>(e: Endian, s: Seq<T>)
    requires
        forall|v: T| #[trigger] T::spec_to_raw(v, e) is Ok ==> T::spec_to_raw(v, e)->Ok_0.len() == T::RAW_SIZE,
        encode_items(e, s) is Ok,
    ensures
        encode_items(e, s)->Ok_0.len() == s.len() * T::RAW_SIZE,
        forall|i: int| 0 <= i < s.len() ==> #[trigger] T::spec_to_raw(s[i], e) is Ok,
        forall|i: int|
            0 <= i < s.len() ==> #[trigger] chunk(encode_items(e, s)->Ok_0, i, T::RAW_SIZE as int)
                == T::spec_to_raw(s[i], e)->Ok_0,
    decreases s.len(),
{
    let n = T::RAW_SIZE as int;
    if s.len() > 0 {
        let t = s.drop_last();
        assert(encode_items(e, t) is Ok);
        lemma_encode_chunks(e, t);
        let front = encode_items(e, t)->Ok_0;
        let x = T::spec_to_raw(s.last(), e)->Ok_0;
        let all = encode_items(e, s)->Ok_0;
        assert(all == front + x);
        let m = s.len() as int;
        vstd::arithmetic::mul::lemma_mul_is_distributive_add_other_way(n, m - 1, 1);
        assert forall|i: int| 0 <= i < s.len() implies #[trigger] T::spec_to_raw(s[i], e) is Ok by {
            if i < m - 1 {
                assert(t[i] == s[i]);
            }
        }
        assert forall|i: int| 0 <= i < s.len() implies #[trigger] chunk(all, i, n) == T::spec_to_raw(s[i], e)->Ok_0 by {
            vstd::arithmetic::mul::lemma_mul_is_distributive_add_other_way(n, i, 1);
            if i < m - 1 {
                assert(t[i] == s[i]);
                vstd::arithmetic::mul::lemma_mul_inequality(i + 1, m - 1, n);
                vstd::arithmetic::mul::lemma_mul_nonnegative(i, n);
                assert(chunk(front, i, n) == T::spec_to_raw(t[i], e)->Ok_0);
                assert(all.subrange(i * n, (i + 1) * n) =~= front.subrange(i * n, (i + 1) * n));
            } else {
                assert(i == m - 1);
                assert(all.subrange(i * n, (i + 1) * n) =~= x);
            }
        }
    } else {
        vstd::arithmetic::mul::lemma_mul_basics(T::RAW_SIZE as int);
    }
}

/// Where every value of `T` reads back as written, every array of `T` whose raw size fits a
/// `usize` reads back as written: a composite of round-tripping parts round-trips.
pub proof fn lemma_array_round_trip<T: Cuisiner, const N: usize>(a: [T; N], e: Endian)
    requires
        fits::<T, N>(),
        forall|v: T| #[trigger] T::spec_to_raw(v, e) is Ok ==> {
            &&& T::spec_to_raw(v, e)->Ok_0.len() == T::RAW_SIZE
            &&& T::spec_from_raw(e, T::spec_to_raw(v, e)->Ok_0) == Ok::<T, CuisinerErrorV>(v)
        },
    ensures
        <[T; N] as Cuisiner>::spec_to_raw(a, e) is Ok ==> <[T; N] as Cuisiner>::spec_from_raw(
            e,
            <[T; N] as Cuisiner>::spec_to_raw(a, e)->Ok_0,
        ) == Ok::<[T; N], CuisinerErrorV>(a),
{
    if encode_items(e, a@) is Ok {
        let raw = encode_items(e, a@)->Ok_0;
        lemma_encode_chunks(e, a@);
        lemma_decode_prefix(e, a@, raw, N as nat);
        assert(a@.subrange(0, N as int) =~= a@);
        assert(a == (choose|b: [T; N]| b@ == a@));
    }
}

proof fn lemma_decode_prefix<T: Cuisiner>(e: Endian, s: Seq<T>, raw: Seq<u8>, k: nat)
    requires
        k <= s.len(),
        forall|v: T| #[trigger] T::spec_to_raw(v, e) is Ok ==> {
            &&& T::spec_to_raw(v, e)->Ok_0.len() == T::RAW_SIZE
            &&& T::spec_from_raw(e, T::spec_to_raw(v, e)->Ok_0) == Ok::<T, CuisinerErrorV>(v)
        },
        forall|i: int| 0 <= i < s.len() ==> #[trigger] T::spec_to_raw(s[i], e) is Ok,
        forall|i: int|
            0 <= i < s.len() ==> #[trigger] chunk(raw, i, T::RAW_SIZE as int) == T::spec_to_raw(s[i], e)->Ok_0,
    ensures
        decode_items::<T>(e, raw, k) == Ok::<Seq<T>, CuisinerErrorV>(s.subrange(0, k as int)),
    decreases k,
{
    if k == 0 {
        assert(s.subrange(0, 0) =~= Seq::<T>::empty());
    } else {
        lemma_decode_prefix(e, s, raw, (k - 1) as nat);
        let i = k - 1;
        assert(chunk(raw, i as int, T::RAW_SIZE as int) == T::spec_to_raw(s[i as int], e)->Ok_0);
        assert(s.subrange(0, k as int) =~= s.subrange(0, i as int).push(s[i as int]));
    }
}

/// Whether the raw form of `[T; N]` has a size that a `usize` holds. An array whose raw form
/// is larger can be neither read nor written.
pub open spec fn fits<T: Cuisiner, const N: usize>() -> bool {
    N * T::RAW_SIZE <= usize::MAX
}

/// Relies on `<[T; N] as TryFrom<Vec<T>>>::try_from`: it succeeds exactly when the vector holds
/// `N` items, and the array then holds them in order.
#[verifier::external_body]
fn vec_into_array<T, const N: usize>(v: Vec<T>) -> (r: Option<[T; N]>)
    ensures
        v@.len() == N ==> r is Some && r->0@ == v@,
        v@.len() != N ==> r is None,
{
    <[T; N]>::try_from(v).ok()
}

/// Relies on `<Vec<T> as From<[T; N]>>::from`: the vector holds the array's items in order.
#[verifier::external_body]
fn array_into_vec<T, const N: usize>(a: [T; N]) -> (r: Vec<T>)
    ensures
        r@ == a@,
{
    Vec::from(a)
}

impl<T: Cuisiner, const N: usize> Cuisiner for [T; N] {
    const RAW_SIZE: usize = N * T::RAW_SIZE;

    open spec fn spec_from_raw(e: Endian, raw: Seq<u8>) -> Result<[T; N], CuisinerErrorV> {
        if !fits::<T, N>() {
            Err(CuisinerErrorV::SizeError { required: Self::RAW_SIZE as nat, found: raw.len() })
        } else {
            match decode_items::<T>(e, raw, N as nat) {
                Ok(items) => Ok(choose|a: [T; N]| a@ == items),
                Err(x) => Err(x),
            }
        }
    }

    open spec fn spec_to_raw(v: [T; N], e: Endian) -> Result<Seq<u8>, CuisinerErrorV> {
        if !fits::<T, N>() {
            Err(CuisinerErrorV::SizeError { required: Self::RAW_SIZE as nat, found: 0 })
        } else {
            encode_items(e, v@)
        }
    }

    fn try_from_raw<B: ByteOrder>(raw: &[u8]) -> (r: Result<[T; N], CuisinerError>) {
        let ghost e = B::endian();
        let ghost n = T::RAW_SIZE as int;
        if N.checked_mul(T::RAW_SIZE).is_none() {
            return Err(CuisinerError::SizeError { required: Self::RAW_SIZE, found: raw.len() });
        }
        assert(Self::RAW_SIZE == N * T::RAW_SIZE);
        let mut items: Vec<T> = Vec::new();
        if N == 0 {
            let a = vec_into_array::<T, N>(items);
            let a = a.unwrap();
            assert(a@ =~= Seq::<T>::empty());
            assert(a@ == (choose|b: [T; N]| b@ == Seq::<T>::empty())@);
            assert(a == (choose|b: [T; N]| b@ == Seq::<T>::empty()));
            return Ok(a);
        }
        proof {
            vstd::arithmetic::mul::lemma_mul_inequality(1, N as int, n);
            assert(1 * n == n);
            assert(raw@.len() == raw.len());
        }
        let size = T::RAW_SIZE;
        let mut start: usize = 0;
        let mut i: usize = 0;
        while i < N
            invariant
                i <= N,
                raw@.len() == N * n,
                N * n <= usize::MAX,
                e == B::endian(),
                n == T::RAW_SIZE,
                size == n,
                start == i * n,
                items@.len() == i,
                decode_items::<T>(e, raw@, i as nat) == Ok::<Seq<T>, CuisinerErrorV>(items@),
            decreases N - i,
        {
            proof {
                vstd::arithmetic::mul::lemma_mul_inequality(i as int + 1, N as int, n);
                vstd::arithmetic::mul::lemma_mul_is_distributive_add_other_way(n, i as int, 1);
            }
            let end: usize = start + size;
            let chunk = &raw[start..end];
            assert(chunk@ == raw@.subrange(start as int, end as int));
            let x = T::try_from_raw::<B>(chunk);

            let ghost k = (i + 1) as nat;
            assert(raw@.subrange(start as int, end as int) == raw@.subrange((k - 1) * n, k * n));
            assert((k - 1) as nat == i);
            assert(decode_items::<T>(e, raw@, k) == match decode_items::<T>(e, raw@, i as nat) {
                Ok(items) => match T::spec_from_raw(e, raw@.subrange((k - 1) * n, k * n)) {
                    Ok(x) => Ok(items.push(x)),
                    Err(x) => Err(x),
                },
                Err(x) => Err(x),
            });
            match x {
                Ok(x) => {
                    items.push(x);
                },
                Err(x) => {
                    proof {
                        lemma_decode_error_stays::<T>(e, raw@, (i + 1) as nat, N as nat);
                    }
                    return Err(x);
                },
            }
            i = i + 1;
            start = end;
        }
        let a = vec_into_array::<T, N>(items);
        let a = a.unwrap();
        assert(a@ == (choose|b: [T; N]| b@ == items@)@);
        assert(a == (choose|b: [T; N]| b@ == items@));
        Ok(a)
    }

    fn try_to_raw<B: ByteOrder>(self) -> (r: Result<Vec<u8>, CuisinerError>) {
        if N.checked_mul(T::RAW_SIZE).is_none() {
            return Err(CuisinerError::SizeError { required: Self::RAW_SIZE, found: 0 });
        }
        assert(Self::RAW_SIZE == N * T::RAW_SIZE);
        let ghost e = B::endian();
        let ghost all = self@;
        let mut rest = array_into_vec(self);
        let mut out: Vec<u8> = Vec::new();
        let mut i: usize = 0;
        while i < N
            invariant
                i <= N,
                e == B::endian(),
                fits::<T, N>(),
                all == self@,
                all.len() == N,
                rest@.len() == N - i,
                rest@ == all.subrange(i as int, N as int),
                encode_items(e, all.subrange(0, i as int)) == Ok::<Seq<u8>, CuisinerErrorV>(out@),
                out@.len() == i * T::RAW_SIZE,
            decreases N - i,
        {
            let x = rest.remove(0);
            assert(x == all[i as int]);
            let ghost pre = all.subrange(0, i + 1);
            assert(pre.drop_last() == all.subrange(0, i as int));
            assert(pre.last() == x);
            assert(encode_items(e, pre) == match encode_items(e, pre.drop_last()) {
                Ok(bytes) => match T::spec_to_raw(pre.last(), e) {
                    Ok(b) => Ok(bytes + b),
                    Err(x) => Err(x),
                },
                Err(x) => Err(x),
            });
            match T::try_to_raw::<B>(x) {
                Ok(mut b) => {
                    proof {
                        vstd::arithmetic::mul::lemma_mul_is_distributive_add_other_way(
                            T::RAW_SIZE as int,
                            i as int,
                            1,
                        );
                    }
                    out.append(&mut b);
                },
                Err(x) => {
                    proof {
                        lemma_encode_error_stays(e, all, i + 1, N as int);
                        assert(all.subrange(0, N as int) == all);
                    }
                    return Err(x);
                },
            }
            i = i + 1;
        }
        assert(all.subrange(0, N as int) == all);
        Ok(out)
    }
}

} // verus!
