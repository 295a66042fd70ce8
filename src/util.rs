//! Booleans held in bytes, and reserved bytes.

use vstd::prelude::*;

use crate::codec::{ByteOrder, Cuisiner, CuisinerError, CuisinerErrorV, Endian};

verus! {

/// A boolean held in `N` bytes: all zero is false, anything else is true.
#[derive(Clone, Copy, Debug, PartialEq, Eq)]
pub struct ByteBoolean<const N: usize>(pub bool);

/// Whether some byte of `s` is not zero.
pub open spec fn any_nonzero(s: Seq<u8>) -> bool {
    exists|i: int| 0 <= i < s.len() && s[i] != 0
}

impl<const N: usize> ByteBoolean<N> {
    /// The boolean held.
    pub fn get(&self) -> (r: bool)
        ensures
            r == self.0,
    {
        self.0
    }
}

impl<const N: usize> std::ops::Deref for ByteBoolean<N> {
    type Target = bool;

    fn deref(&self) -> (r: &bool)
        ensures
            *r == self.0,
    {
        &self.0
    }
}

impl<const N: usize> Cuisiner for ByteBoolean<N> {
    const RAW_SIZE: usize = N;

    open spec fn spec_from_raw(e: Endian, raw: Seq<u8>) -> Result<ByteBoolean<N>, CuisinerErrorV> {
        Ok(ByteBoolean(any_nonzero(raw)))
    }

    open spec fn spec_to_raw(v: ByteBoolean<N>, e: Endian) -> Result<Seq<u8>, CuisinerErrorV> {
        Ok(Seq::new(N as nat, |i: int| if v.0 { 0xffu8 } else { 0u8 }))
    }

    fn try_from_raw<B: ByteOrder>(raw: &[u8]) -> (r: Result<ByteBoolean<N>, CuisinerError>) {
        let mut i: usize = 0;
        let mut found = false;
        while i < raw.len()
            invariant
                i <= raw@.len(),
                found == exists|j: int| 0 <= j < i && raw@[j] != 0,
            decreases raw@.len() - i,
        {
            if raw[i] != 0 {
                found = true;
            }
            i = i + 1;
        }
        Ok(ByteBoolean(found))
    }

    fn try_to_raw<B: ByteOrder>(self) -> (r: Result<Vec<u8>, CuisinerError>) {
        let b: u8 = if self.0 {
            0xff
        } else {
            0x00
        };
        let mut out: Vec<u8> = Vec::new();
        let mut i: usize = 0;
        while i < N
            invariant
                i <= N,
                b == (if self.0 { 0xffu8 } else { 0u8 }),
                out@ =~= Seq::new(i as nat, |k: int| if self.0 { 0xffu8 } else { 0u8 }),
            decreases N - i,
        {
            out.push(b);
            i = i + 1;
            assert(out@ =~= Seq::new(i as nat, |k: int| if self.0 { 0xffu8 } else { 0u8 }));
        }
        Ok(out)
    }
}

/// A boolean held in at least one byte reads back as written, in either byte order.
pub proof fn lemma_byte_boolean_round_trip<const N: usize>(v: ByteBoolean<N>, e: Endian)
    requires
        N > 0,
    ensures
        <ByteBoolean<N> as Cuisiner>::spec_from_raw(
            e,
            <ByteBoolean<N> as Cuisiner>::spec_to_raw(v, e)->Ok_0,
        ) == Ok::<ByteBoolean<N>, CuisinerErrorV>(v),
{
    let s = Seq::new(N as nat, |i: int| if v.0 { 0xffu8 } else { 0u8 });
    if v.0 {
        assert(s[0] != 0);
    }
}

/// `N` reserved bytes: any content is accepted when reading, and zeros are written.
#[derive(Clone, Copy, Debug, PartialEq, Eq)]
pub struct Reserved<const N: usize>;

impl<const N: usize> Cuisiner for Reserved<N> {
    const RAW_SIZE: usize = N;

    open spec fn spec_from_raw(e: Endian, raw: Seq<u8>) -> Result<Reserved<N>, CuisinerErrorV> {
        Ok(Reserved)
    }

    open spec fn spec_to_raw(v: Reserved<N>, e: Endian) -> Result<Seq<u8>, CuisinerErrorV> {
        Ok(Seq::new(N as nat, |i: int| 0u8))
    }

    fn try_from_raw<B: ByteOrder>(raw: &[u8]) -> (r: Result<Reserved<N>, CuisinerError>) {
        Ok(Reserved)
    }

    fn try_to_raw<B: ByteOrder>(self) -> (r: Result<Vec<u8>, CuisinerError>) {
        let mut out: Vec<u8> = Vec::new();
        let mut i: usize = 0;
        while i < N
            invariant
                i <= N,
                out@ =~= Seq::new(i as nat, |k: int| 0u8),
            decreases N - i,
        {
            out.push(0);
            i = i + 1;
            assert(out@ =~= Seq::new(i as nat, |k: int| 0u8));
        }
        Ok(out)
    }
}

} // verus!
