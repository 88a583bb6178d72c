//! Read-only decoder for a page-based embedded database file format.
//!
//! The whole database file is handed to the library as one byte slice. Every
//! decoding function is specified against a mathematical reading of those
//! bytes and proved to compute exactly that reading.

pub mod byte_io;
pub mod catalog;
pub mod common;
pub mod data;
pub mod error;
pub mod header;
pub mod page;
pub mod row;
pub mod row_laws;
pub mod schema;
pub mod table;
pub mod text;
