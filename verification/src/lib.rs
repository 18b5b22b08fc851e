//! Decoders for three small record file layouts: a length-prefixed binary
//! layout ([`prefixed`]), a fixed-width binary layout ([`fixed`]) and a
//! delimited text layout ([`text`]).
//!
//! Every decoder takes the whole file as a byte buffer and yields the records
//! in buffer order together with the number of bytes it consumed. The
//! decoders read through a [`cursor::Cursor`], and [`format::decode`] picks a
//! decoder by a [`format::Format`]. Contracts are stated over `Seq<u8>`,
//! `Seq<char>` and the mathematical [`model::RecordModel`].
//!
//! Beside the decoders stands a word counter ([`words`]).
//!
//! The library reads no files. Whoever calls it reads the bytes and hands
//! them over, together with the error where reading failed.

pub mod chars;
pub mod cursor;
pub mod error;
pub mod fixed;
pub mod format;
pub mod le;
pub mod lossy;
pub mod model;
pub mod prefixed;
pub mod scan;
pub mod text;
pub mod words;

pub use error::MyError;
pub use format::{decode, Format, Records};
pub use model::{Decoded, RecordModel};
