//! Encoding and decoding of the SQLite on-disk file format: varints, serial
//! types and records, b-tree pages and cells, the database header, and the
//! write-ahead log with its rolling checksum.
//!
//! Modules, leaves first:
//! - `bytes`: big-endian fixed-width integers;
//! - `varint`: the one-to-nine byte variable-length integers;
//! - `serial`, `value`: serial types and the values they tag;
//! - `record`: record headers and bodies;
//! - `cell`, `page`: b-tree cells, the overflow rule, and page contents;
//! - `header`: the 100-byte database header;
//! - `wal`: the log header, frame headers and the rolling checksum;
//! - `storage`: reading and writing pages and frames through a backend;
//! - `settings`: the options of the command-line shell;
//! - `dump`: SQL literals for text and blobs in a dump.
pub mod bytes;
pub mod cell;
pub mod dump;
pub mod error;
pub mod header;
pub mod page;
pub mod record;
pub mod serial;
pub mod settings;
pub mod storage;
pub mod value;
pub mod varint;
pub mod wal;
