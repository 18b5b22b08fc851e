//! The mathematical model of a record and the result type of the decoders.

use vstd::prelude::*;

verus! {

/// A record as the contracts see it: two integers and the characters of a name.
pub struct RecordModel {
    pub record_type: int,
    pub id: int,
    pub name: Seq<char>,
}

/// What a decoder hands back: the records in buffer order and the number of
/// leading bytes of the buffer that they were read from.
#[derive(Debug, Clone, PartialEq, Eq)]
pub struct Decoded<R> {
    pub records: Vec<R>,
    pub consumed: usize,
}

} // verus!
