//! Layout assertions and byte-order-aware binary codecs for plain data declarations.
//!
//! The crate has two halves. The codec half (`Cuisiner` with its implementations for integers,
//! arrays, constant fields, byte booleans and reserved bytes) is the runtime contract that a type implements
//! to be read from and written to bytes in a chosen byte order. The generator half models an
//! annotated declaration (`syntax`) and turns it into compile-time layout checks (`layout`) or a
//! codec implementation (`derive`), as Rust source text; `qualify` rewrites associated types of
//! bound parameters into their qualified form, and `render` prints the model.
//!
//! The raw form of a value is a byte sequence of `Cuisiner::RAW_SIZE` bytes, not a typed view
//! such as a `Raw<B>` associated type with zero-copy byte-reinterpretation bounds: verified code
//! cannot call through traits of an outside crate, so the bytes are read and written by this
//! library's own verified integer codecs. Since the raw size does not depend on the byte order,
//! no raw struct with a byte-order parameter is generated, and the layout checks that a derived
//! codec asks for are made on `RAW_SIZE` directly, with the container's generic argument lists
//! as written (`derive::extend_assert_generics` would add the byte order to them for a raw type
//! that carries it).

pub mod array;
pub mod bytes;
mod codec;
pub mod constant;
pub mod derive;
pub mod layout;
pub mod number;
pub mod qualify;
pub mod render;
pub mod results;
pub mod syntax;
mod util;

pub use codec::{BigEndian, ByteOrder, Cuisiner, CuisinerError, CuisinerErrorV, Endian, LittleEndian, NetworkEndian};
pub use constant::{ConstU128, ConstU16, ConstU32, ConstU64, ConstU8};
pub use util::{any_nonzero, lemma_byte_boolean_round_trip, ByteBoolean, Reserved};
