//! A codec for the Redis Serialization Protocol (RESP).
//!
//! The decoder turns a byte buffer into a [`RESPType`] value; the encoder
//! turns a [`RESPType`] value back into the exact bytes the decoder accepts.
//! Both directions are specified against a common mathematical model of the
//! wire grammar, and the round trip between them is proved in [`laws`].

pub mod de;
pub mod error;
pub mod laws;
pub mod num;
pub mod ser;
pub mod value;

pub use de::decode;
pub use de::Deserializer;
pub use error::Error;
pub use error::ErrorKind;
pub use ser::encode;
pub use value::RESPType;
pub use value::ValueModel;
