//! The codec contract: byte orders, conversion errors, and the `Cuisiner` trait.

use vstd::prelude::*;

verus! {

/// The order in which the bytes of a multi-byte number are laid out.
#[derive(Clone, Copy, Debug, PartialEq, Eq, Structural)]
pub enum Endian {
    Big,
    Little,
}

/// A byte order, chosen at the type level.
pub trait ByteOrder {
    spec fn endian() -> Endian;

    fn order() -> (r: Endian)
        ensures
            r == Self::endian(),
    ;
}

/// Most significant byte first.
pub struct BigEndian;

/// Least significant byte first.
pub struct LittleEndian;

/// Byte order of network protocols.
pub type NetworkEndian = BigEndian;

impl ByteOrder for BigEndian {
    open spec fn endian() -> Endian {
        Endian::Big
    }

    fn order() -> (r: Endian) {
        Endian::Big
    }
}

impl ByteOrder for LittleEndian {
    open spec fn endian() -> Endian {
        Endian::Little
    }

    fn order() -> (r: Endian) {
        Endian::Little
    }
}

/// What can go wrong when converting between a value and its raw bytes.
#[derive(Debug, PartialEq, Eq)]
pub enum CuisinerError {
    /// A zero was found where a non-zero value is required.
    Zero,
    /// The buffer does not hold the number of bytes that the raw form needs.
    SizeError { required: usize, found: usize },
    /// The bytes decode to a value that the type does not accept.
    Validation(String),
}

/// The mathematical value of a [`CuisinerError`].
pub enum CuisinerErrorV {
    Zero,
    SizeError { required: nat, found: nat },
    Validation(Seq<char>),
}

impl View for CuisinerError {
    type V = CuisinerErrorV;

    open spec fn view(&self) -> CuisinerErrorV {
        match self {
            CuisinerError::Zero => CuisinerErrorV::Zero,
            CuisinerError::SizeError { required, found } => CuisinerErrorV::SizeError {
                required: *required as nat,
                found: *found as nat,
            },
            CuisinerError::Validation(s) => CuisinerErrorV::Validation(s@),
        }
    }
}

/// A value with a fixed-size raw byte form in any byte order. The raw form is the byte sequence
/// itself, of `RAW_SIZE` bytes, the same in every byte order; only the values of the bytes
/// depend on the order.
pub trait Cuisiner: Sized {
    /// Number of bytes of the raw form.
    const RAW_SIZE: usize;

    /// The result of decoding `raw`, which holds exactly `RAW_SIZE` bytes, in order `e`.
    /// Implementations that are not verified leave it unspecified.
    closed spec fn spec_from_raw(e: Endian, raw: Seq<u8>) -> Result<Self, CuisinerErrorV> {
        arbitrary()
    }

    /// The result of encoding `v` in order `e`. Implementations that are not verified leave it
    /// unspecified.
    closed spec fn spec_to_raw(v: Self, e: Endian) -> Result<Seq<u8>, CuisinerErrorV> {
        arbitrary()
    }

    /// Attempt to convert this value from its raw bytes.
    fn try_from_raw<B: ByteOrder>(raw: &[u8]) -> (r: Result<Self, CuisinerError>)
        requires
            raw@.len() == Self::RAW_SIZE,
        ensures
            match r {
                Ok(x) => Self::spec_from_raw(B::endian(), raw@) == Ok::<Self, CuisinerErrorV>(x),
                Err(x) => Self::spec_from_raw(B::endian(), raw@) == Err::<Self, CuisinerErrorV>(x@),
            },
    ;

    /// Attempt to convert this value into its raw bytes.
    fn try_to_raw<B: ByteOrder>(self) -> (r: Result<Vec<u8>, CuisinerError>)
        ensures
            r is Ok ==> r->Ok_0@.len() == Self::RAW_SIZE,
            match r {
                Ok(v) => Self::spec_to_raw(self, B::endian()) == Ok::<Seq<u8>, CuisinerErrorV>(v@),
                Err(x) => Self::spec_to_raw(self, B::endian()) == Err::<Seq<u8>, CuisinerErrorV>(x@),
            },
    ;

    /// Read the leading bytes of `bytes` and attempt to decode the value from them.
    fn from_bytes<B: ByteOrder>(bytes: &[u8]) -> (r: Result<Self, CuisinerError>)
        ensures
            bytes@.len() < Self::RAW_SIZE ==> r is Err && r->Err_0@ == (CuisinerErrorV::SizeError {
                required: Self::RAW_SIZE as nat,
                found: bytes@.len(),
            }),
            bytes@.len() >= Self::RAW_SIZE ==> match r {
                Ok(x) => Self::spec_from_raw(B::endian(), bytes@.subrange(0, Self::RAW_SIZE as int))
                    == Ok::<Self, CuisinerErrorV>(x),
                Err(x) => Self::spec_from_raw(B::endian(), bytes@.subrange(0, Self::RAW_SIZE as int))
                    == Err::<Self, CuisinerErrorV>(x@),
            },
    {
        let n = Self::RAW_SIZE;
        if bytes.len() < n {
            return Err(CuisinerError::SizeError { required: n, found: bytes.len() });
        }
        Self::try_from_raw::<B>(&bytes[0..n])
    }

    /// Convert the value to its raw bytes.
    fn to_bytes<B: ByteOrder>(self) -> (r: Result<Vec<u8>, CuisinerError>)
        ensures
            r is Ok ==> r->Ok_0@.len() == Self::RAW_SIZE,
            match r {
                Ok(v) => Self::spec_to_raw(self, B::endian()) == Ok::<Seq<u8>, CuisinerErrorV>(v@),
                Err(x) => Self::spec_to_raw(self, B::endian()) == Err::<Seq<u8>, CuisinerErrorV>(x@),
            },
    {
        self.try_to_raw::<B>()
    }
}

} // verus!
