//! Heap data pages: page header, line pointers and tuple headers.
pub mod page;
pub mod page_inspect;
pub mod pg_lsn;
pub mod tuple;
pub mod tuple_desc;
