//! A codec for content-addressed archives.
//!
//! An archive stores rows of `(key, data)`. Each row is encoded, named by the
//! content identifier of its bytes, and stored as a block behind a length
//! prefix. A header in front lists the identifiers in the order of the
//! blocks. The place of each block can be kept as an index, by which a row is
//! read without reading the blocks before it.
//!
//! - [`varint`]: the length prefixes.
//! - [`cbor`], [`encoding`], [`header`]: rows and headers as CBOR items.
//! - [`content_id`]: content identifiers.
//! - [`format`]: the layout of an archive, as functions on bytes.
//! - [`writer`], [`reader`]: laying an archive out and reading it.
//! - [`laws`]: what holds of all of them together.
//!
//! Bytes are read from a [`stream::ByteStream`] and written to a vector; files
//! are the caller's business.
//!
//! The CBOR codec, the content-identifier codec and SHA2-256 are those of the
//! crates `serde_cbor`, `cid` and `multihash-codetable`. What is taken for
//! granted of them stands at the functions that call them, in [`cbor`] and
//! [`content_id`]; everything else is proved.

pub mod cbor;
pub mod content_id;
pub mod encoding;
pub mod error;
pub mod format;
pub mod header;
pub mod laws;
pub mod reader;
pub mod stream;
pub mod types;
pub mod varint;
pub mod writer;

pub use crate::content_id::ContentId;
pub use crate::encoding::decode_row;
pub use crate::encoding::encode_row;
pub use crate::error::CarError;
pub use crate::reader::generate_index_from_car_reader;
pub use crate::reader::read_all_rows_from_car_reader;
pub use crate::reader::read_block_at_offset_reader;
pub use crate::stream::ByteStream;
pub use crate::types::RowData;
pub use crate::types::RowKey;
pub use crate::writer::build_in_memory_car;
pub use crate::writer::BlockIndexEntry;
pub use crate::writer::InMemoryCarBuilder;
