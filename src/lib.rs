//! Reader and replay engine for the write-ahead log and heap page format of a
//! PostgreSQL-compatible storage engine.
//!
//! - `framing`, `hex`: little-endian scalars, zero padding, hexadecimal numerals
//! - `xlog_page_header`, `xlog_page`: WAL page headers
//! - `xlog_block`: block references of a record and their payloads
//! - `xlog_record`, `heap`: records and the Heap operations they carry
//! - `xlog_reader`, `xlog`: segment names, positions, and page-by-page decoding
//! - `inspect`: heap data pages and tuple headers
//! - `apply`: replay of records against an in-memory page map
pub mod apply;
pub mod error;
pub mod framing;
pub mod heap;
pub mod hex;
pub mod inspect;
pub mod xlog;
pub mod xlog_block;
pub mod xlog_page;
pub mod xlog_page_header;
pub mod xlog_reader;
pub mod xlog_record;
