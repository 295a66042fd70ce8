//! The codecs of the primitive integers.

use vstd::prelude::*;

use crate::bytes::{
    bytes_of, decode_unsigned, encode_unsigned, lemma_bytes_round_trip, lemma_signed_round_trip,
    pow256, signed_of, unsigned_of, value_of,
};
use crate::codec::{ByteOrder, Cuisiner, CuisinerError, CuisinerErrorV, Endian};

verus! {

impl Cuisiner for u8 {
    const RAW_SIZE: usize = 1;

    open spec fn spec_from_raw(e: Endian, raw: Seq<u8>) -> Result<u8, CuisinerErrorV> {
        Ok(value_of(e, raw) as u8)
    }

    open spec fn spec_to_raw(v: u8, e: Endian) -> Result<Seq<u8>, CuisinerErrorV> {
        Ok(bytes_of(e, v as nat, 1))
    }

    fn try_from_raw<B: ByteOrder>(raw: &[u8]) -> (r: Result<u8, CuisinerError>) {
        let v = decode_unsigned(raw, B::order());
        proof {
            reveal_with_fuel(pow256, 2);
        }
        Ok(v as u8)
    }

    fn try_to_raw<B: ByteOrder>(self) -> (r: Result<Vec<u8>, CuisinerError>) {
        Ok(encode_unsigned(self as u128, 1, B::order()))
    }
}

impl Cuisiner for u16 {
    const RAW_SIZE: usize = 2;

    open spec fn spec_from_raw(e: Endian, raw: Seq<u8>) -> Result<u16, CuisinerErrorV> {
        Ok(value_of(e, raw) as u16)
    }

    open spec fn spec_to_raw(v: u16, e: Endian) -> Result<Seq<u8>, CuisinerErrorV> {
        Ok(bytes_of(e, v as nat, 2))
    }

    fn try_from_raw<B: ByteOrder>(raw: &[u8]) -> (r: Result<u16, CuisinerError>) {
        let v = decode_unsigned(raw, B::order());
        proof {
            reveal_with_fuel(pow256, 3);
        }
        Ok(v as u16)
    }

    fn try_to_raw<B: ByteOrder>(self) -> (r: Result<Vec<u8>, CuisinerError>) {
        Ok(encode_unsigned(self as u128, 2, B::order()))
    }
}

impl Cuisiner for u32 {
    const RAW_SIZE: usize = 4;

    open spec fn spec_from_raw(e: Endian, raw: Seq<u8>) -> Result<u32, CuisinerErrorV> {
        Ok(value_of(e, raw) as u32)
    }

    open spec fn spec_to_raw(v: u32, e: Endian) -> Result<Seq<u8>, CuisinerErrorV> {
        Ok(bytes_of(e, v as nat, 4))
    }

    fn try_from_raw<B: ByteOrder>(raw: &[u8]) -> (r: Result<u32, CuisinerError>) {
        let v = decode_unsigned(raw, B::order());
        proof {
            reveal_with_fuel(pow256, 5);
        }
        Ok(v as u32)
    }

    fn try_to_raw<B: ByteOrder>(self) -> (r: Result<Vec<u8>, CuisinerError>) {
        Ok(encode_unsigned(self as u128, 4, B::order()))
    }
}

impl Cuisiner for u64 {
    const RAW_SIZE: usize = 8;

    open spec fn spec_from_raw(e: Endian, raw: Seq<u8>) -> Result<u64, CuisinerErrorV> {
        Ok(value_of(e, raw) as u64)
    }

    open spec fn spec_to_raw(v: u64, e: Endian) -> Result<Seq<u8>, CuisinerErrorV> {
        Ok(bytes_of(e, v as nat, 8))
    }

    fn try_from_raw<B: ByteOrder>(raw: &[u8]) -> (r: Result<u64, CuisinerError>) {
        let v = decode_unsigned(raw, B::order());
        proof {
            reveal_with_fuel(pow256, 9);
        }
        Ok(v as u64)
    }

    fn try_to_raw<B: ByteOrder>(self) -> (r: Result<Vec<u8>, CuisinerError>) {
        Ok(encode_unsigned(self as u128, 8, B::order()))
    }
}

impl Cuisiner for u128 {
    const RAW_SIZE: usize = 16;

    open spec fn spec_from_raw(e: Endian, raw: Seq<u8>) -> Result<u128, CuisinerErrorV> {
        Ok(value_of(e, raw) as u128)
    }

    open spec fn spec_to_raw(v: u128, e: Endian) -> Result<Seq<u8>, CuisinerErrorV> {
        Ok(bytes_of(e, v as nat, 16))
    }

    fn try_from_raw<B: ByteOrder>(raw: &[u8]) -> (r: Result<u128, CuisinerError>) {
        let v = decode_unsigned(raw, B::order());
        proof {
            reveal_with_fuel(pow256, 17);
        }
        Ok(v as u128)
    }

    fn try_to_raw<B: ByteOrder>(self) -> (r: Result<Vec<u8>, CuisinerError>) {
        Ok(encode_unsigned(self as u128, 16, B::order()))
    }
}

impl Cuisiner for i8 {
    const RAW_SIZE: usize = 1;

    open spec fn spec_from_raw(e: Endian, raw: Seq<u8>) -> Result<i8, CuisinerErrorV> {
        Ok(signed_of(value_of(e, raw), 1) as i8)
    }

    open spec fn spec_to_raw(v: i8, e: Endian) -> Result<Seq<u8>, CuisinerErrorV> {
        Ok(bytes_of(e, unsigned_of(v as int, 1), 1))
    }

    fn try_from_raw<B: ByteOrder>(raw: &[u8]) -> (r: Result<i8, CuisinerError>) {
        let v = decode_unsigned(raw, B::order());
        proof {
            reveal_with_fuel(pow256, 2);
        }
        let x: i8 = if v < 0x80 {
            v as i8
        } else {
            (v as i128 - 0x100) as i8
        };
        Ok(x)
    }

    fn try_to_raw<B: ByteOrder>(self) -> (r: Result<Vec<u8>, CuisinerError>) {
        proof {
            reveal_with_fuel(pow256, 2);
        }
        let u: u128 = if self >= 0 {
            self as u128
        } else {
            (self as i128 + 0x100) as u128
        };
        Ok(encode_unsigned(u, 1, B::order()))
    }
}

impl Cuisiner for i16 {
    const RAW_SIZE: usize = 2;

    open spec fn spec_from_raw(e: Endian, raw: Seq<u8>) -> Result<i16, CuisinerErrorV> {
        Ok(signed_of(value_of(e, raw), 2) as i16)
    }

    open spec fn spec_to_raw(v: i16, e: Endian) -> Result<Seq<u8>, CuisinerErrorV> {
        Ok(bytes_of(e, unsigned_of(v as int, 2), 2))
    }

    fn try_from_raw<B: ByteOrder>(raw: &[u8]) -> (r: Result<i16, CuisinerError>) {
        let v = decode_unsigned(raw, B::order());
        proof {
            reveal_with_fuel(pow256, 3);
        }
        let x: i16 = if v < 0x8000 {
            v as i16
        } else {
            (v as i128 - 0x10000) as i16
        };
        Ok(x)
    }

    fn try_to_raw<B: ByteOrder>(self) -> (r: Result<Vec<u8>, CuisinerError>) {
        proof {
            reveal_with_fuel(pow256, 3);
        }
        let u: u128 = if self >= 0 {
            self as u128
        } else {
            (self as i128 + 0x10000) as u128
        };
        Ok(encode_unsigned(u, 2, B::order()))
    }
}

impl Cuisiner for i32 {
    const RAW_SIZE: usize = 4;

    open spec fn spec_from_raw(e: Endian, raw: Seq<u8>) -> Result<i32, CuisinerErrorV> {
        Ok(signed_of(value_of(e, raw), 4) as i32)
    }

    open spec fn spec_to_raw(v: i32, e: Endian) -> Result<Seq<u8>, CuisinerErrorV> {
        Ok(bytes_of(e, unsigned_of(v as int, 4), 4))
    }

    fn try_from_raw<B: ByteOrder>(raw: &[u8]) -> (r: Result<i32, CuisinerError>) {
        let v = decode_unsigned(raw, B::order());
        proof {
            reveal_with_fuel(pow256, 5);
        }
        let x: i32 = if v < 0x80000000 {
            v as i32
        } else {
            (v as i128 - 0x100000000) as i32
        };
        Ok(x)
    }

    fn try_to_raw<B: ByteOrder>(self) -> (r: Result<Vec<u8>, CuisinerError>) {
        proof {
            reveal_with_fuel(pow256, 5);
        }
        let u: u128 = if self >= 0 {
            self as u128
        } else {
            (self as i128 + 0x100000000) as u128
        };
        Ok(encode_unsigned(u, 4, B::order()))
    }
}

impl Cuisiner for i64 {
    const RAW_SIZE: usize = 8;

    open spec fn spec_from_raw(e: Endian, raw: Seq<u8>) -> Result<i64, CuisinerErrorV> {
        Ok(signed_of(value_of(e, raw), 8) as i64)
    }

    open spec fn spec_to_raw(v: i64, e: Endian) -> Result<Seq<u8>, CuisinerErrorV> {
        Ok(bytes_of(e, unsigned_of(v as int, 8), 8))
    }

    fn try_from_raw<B: ByteOrder>(raw: &[u8]) -> (r: Result<i64, CuisinerError>) {
        let v = decode_unsigned(raw, B::order());
        proof {
            reveal_with_fuel(pow256, 9);
        }
        let x: i64 = if v < 0x8000000000000000 {
            v as i64
        } else {
            (v as i128 - 0x10000000000000000) as i64
        };
        Ok(x)
    }

    fn try_to_raw<B: ByteOrder>(self) -> (r: Result<Vec<u8>, CuisinerError>) {
        proof {
            reveal_with_fuel(pow256, 9);
        }
        let u: u128 = if self >= 0 {
            self as u128
        } else {
            (self as i128 + 0x10000000000000000) as u128
        };
        Ok(encode_unsigned(u, 8, B::order()))
    }
}

impl Cuisiner for i128 {
    const RAW_SIZE: usize = 16;

    open spec fn spec_from_raw(e: Endian, raw: Seq<u8>) -> Result<i128, CuisinerErrorV> {
        Ok(signed_of(value_of(e, raw), 16) as i128)
    }

    open spec fn spec_to_raw(v: i128, e: Endian) -> Result<Seq<u8>, CuisinerErrorV> {
        Ok(bytes_of(e, unsigned_of(v as int, 16), 16))
    }

    fn try_from_raw<B: ByteOrder>(raw: &[u8]) -> (r: Result<i128, CuisinerError>) {
        let v = decode_unsigned(raw, B::order());
        proof {
            reveal_with_fuel(pow256, 17);
        }
        let x: i128 = if v < 0x80000000000000000000000000000000 {
            v as i128
        } else {
            (v - 0x80000000000000000000000000000000) as i128 - 1 - i128::MAX
        };
        Ok(x)
    }

    fn try_to_raw<B: ByteOrder>(self) -> (r: Result<Vec<u8>, CuisinerError>) {
        proof {
            reveal_with_fuel(pow256, 17);
        }
        let u: u128 = if self >= 0 {
            self as u128
        } else {
            (self + 1 + i128::MAX) as u128 + 0x80000000000000000000000000000000
        };
        Ok(encode_unsigned(u, 16, B::order()))
    }
}

/// Writing a `u8` in either byte order and reading the bytes back gives the same `u8`.
pub proof fn lemma_u8_round_trip(v: u8, e: Endian)
    ensures
        <u8 as Cuisiner>::spec_to_raw(v, e)->Ok_0.len() == <u8 as Cuisiner>::RAW_SIZE,
        <u8 as Cuisiner>::spec_from_raw(e, <u8 as Cuisiner>::spec_to_raw(v, e)->Ok_0) == Ok::<
            u8,
            CuisinerErrorV,
        >(v),
{
        reveal_with_fuel(pow256, 2);
        lemma_bytes_round_trip(e, v as nat, 1);
}

/// Writing a `u16` in either byte order and reading the bytes back gives the same `u16`.
pub proof fn lemma_u16_round_trip(v: u16, e: Endian)
    ensures
        <u16 as Cuisiner>::spec_to_raw(v, e)->Ok_0.len() == <u16 as Cuisiner>::RAW_SIZE,
        <u16 as Cuisiner>::spec_from_raw(e, <u16 as Cuisiner>::spec_to_raw(v, e)->Ok_0) == Ok::<
            u16,
            CuisinerErrorV,
        >(v),
{
        reveal_with_fuel(pow256, 3);
        lemma_bytes_round_trip(e, v as nat, 2);
}

/// Writing a `u32` in either byte order and reading the bytes back gives the same `u32`.
pub proof fn lemma_u32_round_trip(v: u32, e: Endian)
    ensures
        <u32 as Cuisiner>::spec_to_raw(v, e)->Ok_0.len() == <u32 as Cuisiner>::RAW_SIZE,
        <u32 as Cuisiner>::spec_from_raw(e, <u32 as Cuisiner>::spec_to_raw(v, e)->Ok_0) == Ok::<
            u32,
            CuisinerErrorV,
        >(v),
{
        reveal_with_fuel(pow256, 5);
        lemma_bytes_round_trip(e, v as nat, 4);
}

/// Writing a `u64` in either byte order and reading the bytes back gives the same `u64`.
pub proof fn lemma_u64_round_trip(v: u64, e: Endian)
    ensures
        <u64 as Cuisiner>::spec_to_raw(v, e)->Ok_0.len() == <u64 as Cuisiner>::RAW_SIZE,
        <u64 as Cuisiner>::spec_from_raw(e, <u64 as Cuisiner>::spec_to_raw(v, e)->Ok_0) == Ok::<
            u64,
            CuisinerErrorV,
        >(v),
{
        reveal_with_fuel(pow256, 9);
        lemma_bytes_round_trip(e, v as nat, 8);
}

/// Writing a `u128` in either byte order and reading the bytes back gives the same `u128`.
pub proof fn lemma_u128_round_trip(v: u128, e: Endian)
    ensures
        <u128 as Cuisiner>::spec_to_raw(v, e)->Ok_0.len() == <u128 as Cuisiner>::RAW_SIZE,
        <u128 as Cuisiner>::spec_from_raw(e, <u128 as Cuisiner>::spec_to_raw(v, e)->Ok_0) == Ok::<
            u128,
            CuisinerErrorV,
        >(v),
{
        reveal_with_fuel(pow256, 17);
        lemma_bytes_round_trip(e, v as nat, 16);
}

/// Writing a `i8` in either byte order and reading the bytes back gives the same `i8`.
pub proof fn lemma_i8_round_trip(v: i8, e: Endian)
    ensures
        <i8 as Cuisiner>::spec_to_raw(v, e)->Ok_0.len() == <i8 as Cuisiner>::RAW_SIZE,
        <i8 as Cuisiner>::spec_from_raw(e, <i8 as Cuisiner>::spec_to_raw(v, e)->Ok_0) == Ok::<
            i8,
            CuisinerErrorV,
        >(v),
{
        reveal_with_fuel(pow256, 2);
        lemma_signed_round_trip(v as int, 1);
        lemma_bytes_round_trip(e, unsigned_of(v as int, 1), 1);
}

/// Writing a `i16` in either byte order and reading the bytes back gives the same `i16`.
pub proof fn lemma_i16_round_trip(v: i16, e: Endian)
    ensures
        <i16 as Cuisiner>::spec_to_raw(v, e)->Ok_0.len() == <i16 as Cuisiner>::RAW_SIZE,
        <i16 as Cuisiner>::spec_from_raw(e, <i16 as Cuisiner>::spec_to_raw(v, e)->Ok_0) == Ok::<
            i16,
            CuisinerErrorV,
        >(v),
{
        reveal_with_fuel(pow256, 3);
        lemma_signed_round_trip(v as int, 2);
        lemma_bytes_round_trip(e, unsigned_of(v as int, 2), 2);
}

/// Writing a `i32` in either byte order and reading the bytes back gives the same `i32`.
pub proof fn lemma_i32_round_trip(v: i32, e: Endian)
    ensures
        <i32 as Cuisiner>::spec_to_raw(v, e)->Ok_0.len() == <i32 as Cuisiner>::RAW_SIZE,
        <i32 as Cuisiner>::spec_from_raw(e, <i32 as Cuisiner>::spec_to_raw(v, e)->Ok_0) == Ok::<
            i32,
            CuisinerErrorV,
        >(v),
{
        reveal_with_fuel(pow256, 5);
        lemma_signed_round_trip(v as int, 4);
        lemma_bytes_round_trip(e, unsigned_of(v as int, 4), 4);
}

/// Writing a `i64` in either byte order and reading the bytes back gives the same `i64`.
pub proof fn lemma_i64_round_trip(v: i64, e: Endian)
    ensures
        <i64 as Cuisiner>::spec_to_raw(v, e)->Ok_0.len() == <i64 as Cuisiner>::RAW_SIZE,
        <i64 as Cuisiner>::spec_from_raw(e, <i64 as Cuisiner>::spec_to_raw(v, e)->Ok_0) == Ok::<
            i64,
            CuisinerErrorV,
        >(v),
{
        reveal_with_fuel(pow256, 9);
        lemma_signed_round_trip(v as int, 8);
        lemma_bytes_round_trip(e, unsigned_of(v as int, 8), 8);
}

/// Writing a `i128` in either byte order and reading the bytes back gives the same `i128`.
pub proof fn lemma_i128_round_trip(v: i128, e: Endian)
    ensures
        <i128 as Cuisiner>::spec_to_raw(v, e)->Ok_0.len() == <i128 as Cuisiner>::RAW_SIZE,
        <i128 as Cuisiner>::spec_from_raw(e, <i128 as Cuisiner>::spec_to_raw(v, e)->Ok_0) == Ok::<
            i128,
            CuisinerErrorV,
        >(v),
{
        reveal_with_fuel(pow256, 17);
        lemma_signed_round_trip(v as int, 16);
        lemma_bytes_round_trip(e, unsigned_of(v as int, 16), 16);
}
} // verus!
