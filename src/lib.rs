//! A binary wire codec for named, typed three-dimensional arrays.
//!
//! A message is a little-endian header (optional marker, payload length,
//! three dimension fields, element-type byte), a fixed-width ASCII name and
//! the raw payload. The decoder is streaming-tolerant: it reports when it
//! needs more bytes and hands back what follows the message.
pub mod model;
pub mod name;
pub mod wire;
pub mod codec;
pub mod laws;

pub use codec::{words_from_le, words_to_le};
pub use model::{Grid, NpArrayD, NpArrayData, NpArrayDataType};
pub use name::encode_name;
pub use wire::CodecError;
