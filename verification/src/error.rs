//! The error type shared by the decoders and by the code that loads files.

use vstd::prelude::*;
use vstd::string::StringExecFns;

verus! {

/// What can go wrong between naming a file and showing its records.
#[derive(Debug, Clone, PartialEq, Eq)]
pub enum MyError {
    /// The file at this path could not be opened.
    FileNotFound(String),
    /// The file was opened but could not be read; holds the reader's own words.
    IoError(String),
    /// The bytes do not follow the record layout.
    InvalidFormat,
}

impl MyError {
    /// The text shown to a user for this error.
    pub open spec fn spec_message(&self) -> Seq<char> {
        match self {
            MyError::FileNotFound(path) => "File not found: "@ + path@,
            MyError::IoError(cause) => "Failed to read file: "@ + cause@,
            MyError::InvalidFormat => "Invalid file format"@,
        }
    }

    /// Renders the error as text.
    pub fn message(&self) -> (out: String)
        ensures
            out@ == self.spec_message(),
    {
        match self {
            MyError::FileNotFound(path) => {
                String::from_str("File not found: ").concat(path.as_str())
            },
            MyError::IoError(cause) => {
                String::from_str("Failed to read file: ").concat(cause.as_str())
            },
            MyError::InvalidFormat => String::from_str("Invalid file format"),
        }
    }
}

/// The line shown when loading the file at `path` failed with `error`.
pub open spec fn spec_failure_text(path: Seq<char>, error: MyError) -> Seq<char> {
    "Error processing file "@ + path + ": "@ + error.spec_message()
}

/// Builds the line shown when loading the file at `path` failed with `error`.
pub fn failure_text(path: &str, error: &MyError) -> (out: String)
    ensures
        out@ == spec_failure_text(path@, *error),
{
    let message = error.message();
    String::from_str("Error processing file ").concat(path).concat(": ").concat(message.as_str())
}

} // verus!
