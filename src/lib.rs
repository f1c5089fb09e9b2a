//! A codec for the brace-delimited, quoted-scalar KeyValues text format.
//!
//! The decoder reads a document one token at a time, driven by a caller that
//! knows which shape it expects next; the encoder appends text as a value's
//! structure is visited. Both are streaming: no tree is built. `doc` models
//! documents as trees and proves that decoding what the encoder wrote gives
//! the document back.
pub mod de;
pub mod doc;
pub mod error;
pub mod ser;
pub mod text;

pub use de::Deserializer;
pub use error::{Error, Result};
pub use ser::Serializer;
