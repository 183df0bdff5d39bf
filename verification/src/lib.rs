//! A varint codec in the style of Google's Protocol Buffers: unsigned
//! integers are stored as base-128 groups, least significant group first,
//! with the high bit of every byte but the last flagging a following byte.
//!
//! The crate offers three things: the encoded length of a value without
//! encoding it, reading a varint from a byte source, and writing a value as
//! a varint to a byte sink.

pub mod len;
pub mod read;
pub mod varint;
pub mod write;

pub use len::len_u64_varint;
pub use len::len_usize_varint;
pub use read::ByteSource;
pub use read::ReadVarInt;
pub use read::varint_needs_more;
pub use varint::VarintError;
pub use write::WriteVarInt;
