//! One entry point for the three layouts.

use crate::error::MyError;
use crate::fixed;
use crate::model::RecordModel;
use crate::prefixed;
use crate::text;
use vstd::prelude::*;

verus! {

/// The layout of a record file.
#[derive(Debug, Clone, Copy, PartialEq, Eq)]
pub enum Format {
    /// Records with a name of varying length, see [`crate::prefixed`].
    LengthPrefixed,
    /// Records of 28 bytes, see [`crate::fixed`].
    FixedWidth,
    /// Tuples in text, see [`crate::text`].
    Text,
}

/// The records of a file, in the record type of its layout.
#[derive(Debug, Clone, PartialEq, Eq)]
pub enum Records {
    LengthPrefixed(Vec<prefixed::Record>),
    FixedWidth(Vec<fixed::Record>),
    Text(Vec<text::Record>),
}

impl Records {
    /// The layout that the records were read in.
    pub open spec fn format(self) -> Format {
        match self {
            Records::LengthPrefixed(_) => Format::LengthPrefixed,
            Records::FixedWidth(_) => Format::FixedWidth,
            Records::Text(_) => Format::Text,
        }
    }

    /// The models of the records.
    pub open spec fn models(self) -> Seq<RecordModel> {
        match self {
            Records::LengthPrefixed(records) => prefixed::models(records@),
            Records::FixedWidth(records) => fixed::models(records@),
            Records::Text(records) => text::models(records@),
        }
    }
}

/// The records of `buf` read in the given layout and the number of bytes
/// consumed, or `None` when `buf` is invalid in that layout.
pub open spec fn decode_spec(format: Format, buf: Seq<u8>) -> Option<(Seq<RecordModel>, int)> {
    match format {
        Format::LengthPrefixed => Some((prefixed::decode(buf), prefixed::consumed(buf))),
        Format::FixedWidth => match fixed::decode(buf) {
            Some(records) => Some((records, fixed::RECORD_LEN * fixed::record_count(buf))),
            None => None,
        },
        Format::Text => match text::decode(buf) {
            Some(records) => Some((records, buf.len() as int)),
            None => None,
        },
    }
}

/// Decodes a buffer in the given layout.
///
/// Returns the records in buffer order and the number of bytes consumed, or
/// `InvalidFormat` when the buffer is invalid in that layout.
pub fn decode(format: Format, buffer: &[u8]) -> (out: Result<(Records, usize), MyError>)
    ensures
        match out {
            Ok((records, consumed)) => records.format() == format && decode_spec(format, buffer@)
                == Some((records.models(), consumed as int)),
            Err(error) => error == MyError::InvalidFormat && decode_spec(format, buffer@) is None,
        },
{
    match format {
        Format::LengthPrefixed => {
            let decoded = prefixed::parse_binary_file(buffer);
            Ok((Records::LengthPrefixed(decoded.records), decoded.consumed))
        },
        Format::FixedWidth => match fixed::process_file(buffer) {
            Ok(decoded) => Ok((Records::FixedWidth(decoded.records), decoded.consumed)),
            Err(error) => Err(error),
        },
        Format::Text => match text::parse_binary_file(buffer) {
            Ok(decoded) => Ok((Records::Text(decoded.records), decoded.consumed)),
            Err(error) => Err(error),
        },
    }
}

} // verus!
