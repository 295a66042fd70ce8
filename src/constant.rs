//! Fields that must hold one constant value, such as magic numbers.

use vstd::prelude::*;

use crate::bytes::{bytes_of, decode_unsigned, encode_unsigned, lemma_bytes_round_trip, pow256, value_of};
use crate::codec::{ByteOrder, Cuisiner, CuisinerError, CuisinerErrorV, Endian};
use crate::render::{decimal, decimal_text, push_chars};

verus! {

/// The message of a constant field that holds another value than the one it must.
pub open spec fn const_message(expected: nat, found: nat) -> Seq<char> {
    "expected "@ + decimal(expected) + ", found "@ + decimal(found)
}

/// The message of a constant field that holds another value than the one it must.
pub fn mismatch_message(expected: u128, found: u128) -> (r: String)
    ensures
        r@ == const_message(expected as nat, found as nat),
{
    let mut r = String::from_str("expected ");
    let e = decimal_text(expected);
    push_chars(&mut r, &e);
    r.append(", found ");
    let f = decimal_text(found);
    push_chars(&mut r, &f);
    r
}

/// A `u8` field that must hold `N`: any other value is refused when reading, and `N` is
/// written.
#[derive(Clone, Copy, Debug, PartialEq, Eq)]
pub struct ConstU8<const N: u8>;

impl<const N: u8> Cuisiner for ConstU8<N> {
    const RAW_SIZE: usize = 1;

    open spec fn spec_from_raw(e: Endian, raw: Seq<u8>) -> Result<ConstU8<N>, CuisinerErrorV> {
        if value_of(e, raw) == N as nat {
            Ok(ConstU8)
        } else {
            Err(CuisinerErrorV::Validation(const_message(N as nat, value_of(e, raw))))
        }
    }

    open spec fn spec_to_raw(v: ConstU8<N>, e: Endian) -> Result<Seq<u8>, CuisinerErrorV> {
        Ok(bytes_of(e, N as nat, 1))
    }

    fn try_from_raw<B: ByteOrder>(raw: &[u8]) -> (r: Result<ConstU8<N>, CuisinerError>) {
        let v = decode_unsigned(raw, B::order());
        if v == N as u128 {
            Ok(ConstU8)
        } else {
            Err(CuisinerError::Validation(mismatch_message(N as u128, v)))
        }
    }

    fn try_to_raw<B: ByteOrder>(self) -> (r: Result<Vec<u8>, CuisinerError>) {
        Ok(encode_unsigned(N as u128, 1, B::order()))
    }
}

/// A `ConstU8` reads back as written, in either byte order.
pub proof fn lemma_constu8_round_trip<const N: u8>(v: ConstU8<N>, e: Endian)
    ensures
        <ConstU8<N> as Cuisiner>::spec_from_raw(e, <ConstU8<N> as Cuisiner>::spec_to_raw(v, e)->Ok_0) == Ok::<
            ConstU8<N>,
            CuisinerErrorV,
        >(v),
{
    reveal_with_fuel(pow256, 2);
    lemma_bytes_round_trip(e, N as nat, 1);
}

/// A `u16` field that must hold `N`: any other value is refused when reading, and `N` is
/// written.
#[derive(Clone, Copy, Debug, PartialEq, Eq)]
pub struct ConstU16<const N: u16>;

impl<const N: u16> Cuisiner for ConstU16<N> {
    const RAW_SIZE: usize = 2;

    open spec fn spec_from_raw(e: Endian, raw: Seq<u8>) -> Result<ConstU16<N>, CuisinerErrorV> {
        if value_of(e, raw) == N as nat {
            Ok(ConstU16)
        } else {
            Err(CuisinerErrorV::Validation(const_message(N as nat, value_of(e, raw))))
        }
    }

    open spec fn spec_to_raw(v: ConstU16<N>, e: Endian) -> Result<Seq<u8>, CuisinerErrorV> {
        Ok(bytes_of(e, N as nat, 2))
    }

    fn try_from_raw<B: ByteOrder>(raw: &[u8]) -> (r: Result<ConstU16<N>, CuisinerError>) {
        let v = decode_unsigned(raw, B::order());
        if v == N as u128 {
            Ok(ConstU16)
        } else {
            Err(CuisinerError::Validation(mismatch_message(N as u128, v)))
        }
    }

    fn try_to_raw<B: ByteOrder>(self) -> (r: Result<Vec<u8>, CuisinerError>) {
        Ok(encode_unsigned(N as u128, 2, B::order()))
    }
}

/// A `ConstU16` reads back as written, in either byte order.
pub proof fn lemma_constu16_round_trip<const N: u16>(v: ConstU16<N>, e: Endian)
    ensures
        <ConstU16<N> as Cuisiner>::spec_from_raw(e, <ConstU16<N> as Cuisiner>::spec_to_raw(v, e)->Ok_0) == Ok::<
            ConstU16<N>,
            CuisinerErrorV,
        >(v),
{
    reveal_with_fuel(pow256, 3);
    lemma_bytes_round_trip(e, N as nat, 2);
}

/// A `u32` field that must hold `N`: any other value is refused when reading, and `N` is
/// written.
#[derive(Clone, Copy, Debug, PartialEq, Eq)]
pub struct ConstU32<const N: u32>;

impl<const N: u32> Cuisiner for ConstU32<N> {
    const RAW_SIZE: usize = 4;

    open spec fn spec_from_raw(e: Endian, raw: Seq<u8>) -> Result<ConstU32<N>, CuisinerErrorV> {
        if value_of(e, raw) == N as nat {
            Ok(ConstU32)
        } else {
            Err(CuisinerErrorV::Validation(const_message(N as nat, value_of(e, raw))))
        }
    }

    open spec fn spec_to_raw(v: ConstU32<N>, e: Endian) -> Result<Seq<u8>, CuisinerErrorV> {
        Ok(bytes_of(e, N as nat, 4))
    }

    fn try_from_raw<B: ByteOrder>(raw: &[u8]) -> (r: Result<ConstU32<N>, CuisinerError>) {
        let v = decode_unsigned(raw, B::order());
        if v == N as u128 {
            Ok(ConstU32)
        } else {
            Err(CuisinerError::Validation(mismatch_message(N as u128, v)))
        }
    }

    fn try_to_raw<B: ByteOrder>(self) -> (r: Result<Vec<u8>, CuisinerError>) {
        Ok(encode_unsigned(N as u128, 4, B::order()))
    }
}

/// A `ConstU32` reads back as written, in either byte order.
pub proof fn lemma_constu32_round_trip<const N: u32>(v: ConstU32<N>, e: Endian)
    ensures
        <ConstU32<N> as Cuisiner>::spec_from_raw(e, <ConstU32<N> as Cuisiner>::spec_to_raw(v, e)->Ok_0) == Ok::<
            ConstU32<N>,
            CuisinerErrorV,
        >(v),
{
    reveal_with_fuel(pow256, 5);
    lemma_bytes_round_trip(e, N as nat, 4);
}

/// A `u64` field that must hold `N`: any other value is refused when reading, and `N` is
/// written.
#[derive(Clone, Copy, Debug, PartialEq, Eq)]
pub struct ConstU64<const N: u64>;

impl<const N: u64> Cuisiner for ConstU64<N> {
    const RAW_SIZE: usize = 8;

    open spec fn spec_from_raw(e: Endian, raw: Seq<u8>) -> Result<ConstU64<N>, CuisinerErrorV> {
        if value_of(e, raw) == N as nat {
            Ok(ConstU64)
        } else {
            Err(CuisinerErrorV::Validation(const_message(N as nat, value_of(e, raw))))
        }
    }

    open spec fn spec_to_raw(v: ConstU64<N>, e: Endian) -> Result<Seq<u8>, CuisinerErrorV> {
        Ok(bytes_of(e, N as nat, 8))
    }

    fn try_from_raw<B: ByteOrder>(raw: &[u8]) -> (r: Result<ConstU64<N>, CuisinerError>) {
        let v = decode_unsigned(raw, B::order());
        if v == N as u128 {
            Ok(ConstU64)
        } else {
            Err(CuisinerError::Validation(mismatch_message(N as u128, v)))
        }
    }

    fn try_to_raw<B: ByteOrder>(self) -> (r: Result<Vec<u8>, CuisinerError>) {
        Ok(encode_unsigned(N as u128, 8, B::order()))
    }
}

/// A `ConstU64` reads back as written, in either byte order.
pub proof fn lemma_constu64_round_trip<const N: u64>(v: ConstU64<N>, e: Endian)
    ensures
        <ConstU64<N> as Cuisiner>::spec_from_raw(e, <ConstU64<N> as Cuisiner>::spec_to_raw(v, e)->Ok_0) == Ok::<
            ConstU64<N>,
            CuisinerErrorV,
        >(v),
{
    reveal_with_fuel(pow256, 9);
    lemma_bytes_round_trip(e, N as nat, 8);
}

/// A `u128` field that must hold `N`: any other value is refused when reading, and `N` is
/// written.
#[derive(Clone, Copy, Debug, PartialEq, Eq)]
pub struct ConstU128<const N: u128>;

impl<const N: u128> Cuisiner for ConstU128<N> {
    const RAW_SIZE: usize = 16;

    open spec fn spec_from_raw(e: Endian, raw: Seq<u8>) -> Result<ConstU128<N>, CuisinerErrorV> {
        if value_of(e, raw) == N as nat {
            Ok(ConstU128)
        } else {
            Err(CuisinerErrorV::Validation(const_message(N as nat, value_of(e, raw))))
        }
    }

    open spec fn spec_to_raw(v: ConstU128<N>, e: Endian) -> Result<Seq<u8>, CuisinerErrorV> {
        Ok(bytes_of(e, N as nat, 16))
    }

    fn try_from_raw<B: ByteOrder>(raw: &[u8]) -> (r: Result<ConstU128<N>, CuisinerError>) {
        let v = decode_unsigned(raw, B::order());
        if v == N as u128 {
            Ok(ConstU128)
        } else {
            Err(CuisinerError::Validation(mismatch_message(N as u128, v)))
        }
    }

    fn try_to_raw<B: ByteOrder>(self) -> (r: Result<Vec<u8>, CuisinerError>) {
        Ok(encode_unsigned(N as u128, 16, B::order()))
    }
}

/// A `ConstU128` reads back as written, in either byte order.
pub proof fn lemma_constu128_round_trip<const N: u128>(v: ConstU128<N>, e: Endian)
    ensures
        <ConstU128<N> as Cuisiner>::spec_from_raw(e, <ConstU128<N> as Cuisiner>::spec_to_raw(v, e)->Ok_0) == Ok::<
            ConstU128<N>,
            CuisinerErrorV,
        >(v),
{
    reveal_with_fuel(pow256, 17);
    lemma_bytes_round_trip(e, N as nat, 16);
}

} // verus!
