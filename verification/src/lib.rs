//! A codec for a tag-typed, length-prefixed binary record format.
//!
//! Every encoded value starts with a header that holds a tag (the place of
//! the value in its container) and a type code (the shape and width of what
//! follows), so a reader can pass over what it does not know.
//!
//! - [`wire`] describes headers, big-endian integers and the narrowest
//!   encoding of a number;
//! - [`encoding`] says what the bytes of each shape of value are, and
//!   [`grammar`] what a run of bytes decodes to;
//! - [`ser`] holds the encoder, [`de`] the decoder and [`typed`] the decode
//!   operations that are driven by the current type code;
//! - [`value`] holds the tree that any input decodes to without a schema;
//! - [`field`] reads field identifiers, [`error`] names the errors;
//! - [`laws`] proves what holds between encoding and decoding.

pub mod de;
pub mod encoding;
pub mod error;
pub mod field;
pub mod grammar;
pub mod laws;
pub mod ser;
pub mod typed;
pub mod value;
pub mod wire;

pub use de::Deserializer;
pub use error::Error;
pub use ser::Serializer;
pub use value::Value;
