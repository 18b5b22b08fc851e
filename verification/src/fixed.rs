//! The fixed-width binary layout.
//!
//! A record takes 28 bytes: a little-endian 32-bit type, a little-endian
//! 32-bit id and a name field of 20 bytes, padded at the end with whitespace.
//! A buffer holds as many records as 28 goes into its length; what is left
//! over at the end is not read. A record whose name is empty once the padding
//! is gone makes the whole buffer invalid.

use crate::chars::{chars_of, lemma_trim_end_is, substring, trim_end, trim_end_at, CharClass};
use crate::cursor::Cursor;
use crate::error::{failure_text, spec_failure_text, MyError};
use crate::le::le_i32;
use crate::lossy::{decode_lossy, is_ascii_bytes, lemma_lossy_text_ascii, lossy_text};
use crate::model::{Decoded, RecordModel};
use vstd::prelude::*;
use vstd::string::StringExecFns;

verus! {

/// The number of bytes that one record takes up.
pub const RECORD_LEN: usize = 28;

/// The number of bytes in the name field of a record.
pub const NAME_LEN: usize = 20;

/// A decoded record of this layout.
#[derive(Debug, Clone, PartialEq, Eq)]
pub struct Record {
    pub record_type: i32,
    pub id: i32,
    pub name: String,
}

impl View for Record {
    type V = RecordModel;

    open spec fn view(&self) -> RecordModel {
        RecordModel { record_type: self.record_type as int, id: self.id as int, name: self.name@ }
    }
}

/// The models of a sequence of records.
pub open spec fn models(records: Seq<Record>) -> Seq<RecordModel> {
    records.map_values(|r: Record| r@)
}

/// The name that a name field holds: its text without the padding.
pub open spec fn field_name(field: Seq<u8>) -> Seq<char> {
    trim_end(lossy_text(field))
}

/// The record that the first 28 of `bytes` stand for. There is none when
/// there are fewer than 28 bytes or when the name is empty.
pub open spec fn record_of(bytes: Seq<u8>) -> Option<RecordModel> {
    if bytes.len() < RECORD_LEN || field_name(bytes.subrange(8, 28)).len() == 0 {
        None
    } else {
        Some(
            RecordModel {
                record_type: le_i32(bytes.subrange(0, 4)),
                id: le_i32(bytes.subrange(4, 8)),
                name: field_name(bytes.subrange(8, 28)),
            },
        )
    }
}

impl Record {
    /// Decodes one record from the first 28 of `bytes`.
    ///
    /// Fails with `InvalidFormat` when there are fewer than 28 bytes or when
    /// the name field holds nothing but padding.
    pub fn from_bytes(bytes: &[u8]) -> (out: Result<Record, MyError>)
        ensures
            match out {
                Ok(record) => record_of(bytes@) == Some(record@),
                Err(error) => error == MyError::InvalidFormat && record_of(bytes@) is None,
            },
    {
        let mut cur = Cursor::new(bytes);
        if cur.remaining() < RECORD_LEN {
            return Err(MyError::InvalidFormat);
        }
        let record_type: i32 = cur.read_i32_le().unwrap();
        let id: i32 = cur.read_i32_le().unwrap();
        let field = cur.read_bytes(NAME_LEN).unwrap();
        let text = decode_lossy(field);
        let chars = chars_of(text.as_str());
        let end: usize = trim_end_at(chars.as_slice(), 0, chars.len(), CharClass::Whitespace);
        assert(chars@.subrange(0, chars@.len() as int) =~= text@);
        if end == 0 {
            return Err(MyError::InvalidFormat);
        }
        let name = substring(text.as_str(), 0, end);
        Ok(Record { record_type, id, name })
    }
}

/// The bytes of the record with index `i`.
pub open spec fn chunk(buf: Seq<u8>, i: int) -> Seq<u8> {
    buf.subrange(RECORD_LEN * i, RECORD_LEN * i + RECORD_LEN)
}

/// The number of records that `buf` holds.
pub open spec fn record_count(buf: Seq<u8>) -> int {
    buf.len() as int / RECORD_LEN as int
}

/// Whether each of the first `n` records of `buf` can be decoded.
pub open spec fn all_valid(buf: Seq<u8>, n: int) -> bool {
    forall|i: int| 0 <= i < n ==> (#[trigger] record_of(chunk(buf, i))) is Some
}

/// The first `n` records of `buf`.
pub open spec fn first_records(buf: Seq<u8>, n: int) -> Seq<RecordModel> {
    Seq::new(n as nat, |i: int| record_of(chunk(buf, i)).unwrap())
}

/// The records of `buf`, or `None` when one of them cannot be decoded.
pub open spec fn decode(buf: Seq<u8>) -> Option<Seq<RecordModel>> {
    if all_valid(buf, record_count(buf)) {
        Some(first_records(buf, record_count(buf)))
    } else {
        None
    }
}

/// Decodes the records of a fixed-width buffer.
///
/// Fails with `InvalidFormat` when a record has an empty name. On success
/// there is one record for each whole 28 bytes, and the bytes after them, at
/// most 27, have not been read.
pub fn process_file(buffer: &[u8]) -> (out: Result<Decoded<Record>, MyError>)
    ensures
        match out {
            Ok(decoded) => {
                &&& decode(buffer@) == Some(models(decoded.records@))
                &&& decoded.records@.len() == record_count(buffer@)
                &&& decoded.consumed == RECORD_LEN * record_count(buffer@)
            },
            Err(error) => error == MyError::InvalidFormat && decode(buffer@) is None,
        },
{
    let mut cur = Cursor::new(buffer);
    let mut records: Vec<Record> = Vec::new();
    while cur.remaining() >= RECORD_LEN
        invariant
            cur.buffer() == buffer@,
            0 <= cur.spec_position() <= buffer@.len(),
            cur.spec_position() == RECORD_LEN * records@.len(),
            records@.len() <= record_count(buffer@),
            all_valid(buffer@, records@.len() as int),
            models(records@) == first_records(buffer@, records@.len() as int),
        decreases buffer@.len() - cur.spec_position(),
    {
        let ghost i = records@.len() as int;
        let bytes = cur.read_bytes(RECORD_LEN).unwrap();
        assert(bytes@ == chunk(buffer@, i));
        let record = match Record::from_bytes(bytes) {
            Ok(record) => record,
            Err(error) => {
                return Err(error);
            },
        };
        proof {
            assert(models(records@.push(record)) =~= models(records@).push(record@));
        }
        records.push(record);
    }
    Ok(Decoded { records, consumed: cur.position() })
}

/// What loading one file comes to: its records, or the error that stopped it.
/// `read` is what reading the file gave, its bytes or the reason why it could
/// not be read.
pub open spec fn file_records(read: Result<Vec<u8>, MyError>) -> Result<Seq<RecordModel>, MyError> {
    match read {
        Ok(bytes) => match decode(bytes@) {
            Some(records) => Ok(records),
            None => Err(MyError::InvalidFormat),
        },
        Err(error) => Err(error),
    }
}

/// What loading the files from index `from` on comes to: the records of all
/// of them in order, or the line that reports the first failure.
///
/// `reads[i]` belongs to `paths[i]`. A path without a read, or a read without
/// a path, is left out.
pub open spec fn load_from(
    paths: Seq<String>,
    reads: Seq<Result<Vec<u8>, MyError>>,
    from: int,
) -> Result<Seq<RecordModel>, Seq<char>>
    decreases reads.len() - from,
{
    if from < 0 || from >= reads.len() || from >= paths.len() {
        Ok(Seq::empty())
    } else {
        match file_records(reads[from]) {
            Err(error) => Err(spec_failure_text(paths[from]@, error)),
            Ok(records) => match load_from(paths, reads, from + 1) {
                Err(line) => Err(line),
                Ok(rest) => Ok(records + rest),
            },
        }
    }
}

/// What a viewer of fixed-width files holds: the files to load, and either
/// the records loaded from them or the line that says why loading failed.
#[derive(Debug, Clone, PartialEq, Eq)]
pub struct MyApp {
    pub file_paths: Vec<String>,
    pub file_contents: Option<Vec<Record>>,
    pub error_message: Option<String>,
}

impl MyApp {
    /// A viewer for the files at `file_paths`, with nothing loaded yet.
    pub fn new(file_paths: Vec<String>) -> (out: Self)
        ensures
            out.file_paths == file_paths,
            out.file_contents is None,
            out.error_message is None,
    {
        MyApp { file_paths, file_contents: None, error_message: None }
    }

    /// Takes in what reading the files gave, `reads[i]` for `file_paths[i]`.
    ///
    /// The files are decoded in order. When all succeed, `file_contents`
    /// becomes the records of all files, one file after another. The first
    /// file that could not be read or decoded ends the loading:
    /// `error_message` then names the file and the error, and `file_contents`
    /// stays as it was.
    pub fn parse_files(&mut self, reads: &Vec<Result<Vec<u8>, MyError>>)
        ensures
            final(self).file_paths == old(self).file_paths,
            match load_from(old(self).file_paths@, reads@, 0) {
                Ok(records) => {
                    &&& final(self).error_message == old(self).error_message
                    &&& final(self).file_contents matches Some(contents)
                    &&& models(contents@) == records
                },
                Err(line) => {
                    &&& final(self).file_contents == old(self).file_contents
                    &&& final(self).error_message matches Some(message)
                    &&& message@ == line
                },
            },
    {
        let mut all_records: Vec<Record> = Vec::new();
        let mut i: usize = 0;
        while i < reads.len() && i < self.file_paths.len()
            invariant
                *self == *old(self),
                0 <= i <= reads@.len(),
                i <= self.file_paths@.len(),
                load_from(self.file_paths@, reads@, 0) == match load_from(
                    self.file_paths@,
                    reads@,
                    i as int,
                ) {
                    Ok(rest) => Ok::<Seq<RecordModel>, Seq<char>>(models(all_records@) + rest),
                    Err(line) => Err(line),
                },
            decreases reads@.len() - i,
        {
            let decoded = match &reads[i] {
                Ok(bytes) => process_file(bytes.as_slice()),
                Err(error) => {
                    self.error_message = Some(failure_text(self.file_paths[i].as_str(), error));
                    return ;
                },
            };
            let mut records = match decoded {
                Ok(decoded) => decoded.records,
                Err(error) => {
                    self.error_message = Some(failure_text(self.file_paths[i].as_str(), &error));
                    return ;
                },
            };
            proof {
                assert(models(all_records@ + records@) =~= models(all_records@) + models(records@));
                match load_from(self.file_paths@, reads@, i + 1) {
                    Ok(rest) => {
                        assert(models(all_records@) + (models(records@) + rest) =~= (models(
                            all_records@,
                        ) + models(records@)) + rest);
                    },
                    Err(_) => {},
                }
            }
            all_records.append(&mut records);
            i = i + 1;
        }
        self.file_contents = Some(all_records);
    }
}

/// Up to 27 bytes after the last whole record change nothing: the buffer
/// holds as many records as 28 goes into its length, and they are the records
/// of the buffer without those bytes.
pub proof fn lemma_trailing_bytes_ignored(body: Seq<u8>, tail: Seq<u8>)
    requires
        body.len() % RECORD_LEN as nat == 0,
        tail.len() < RECORD_LEN,
    ensures
        record_count(body + tail) == record_count(body),
        decode(body + tail) == decode(body),
{
    let n = record_count(body);
    let both = body + tail;
    assert(record_count(both) == n);
    assert forall|i: int| 0 <= i < n implies #[trigger] chunk(both, i) == chunk(body, i) by {
        assert(chunk(both, i) =~= chunk(body, i));
    }
    assert(all_valid(both, n) == all_valid(body, n)) by {
        if all_valid(both, n) {
            assert forall|i: int| 0 <= i < n implies (#[trigger] record_of(chunk(body, i)))
                is Some by {
                assert(record_of(chunk(both, i)) is Some);
            }
        }
        if all_valid(body, n) {
            assert forall|i: int| 0 <= i < n implies (#[trigger] record_of(chunk(both, i)))
                is Some by {
                assert(record_of(chunk(body, i)) is Some);
            }
        }
    }
    assert(first_records(both, n) =~= first_records(body, n));
}

/// Whether the text of a name field is nothing but whitespace.
pub open spec fn is_blank(field: Seq<u8>) -> bool {
    forall|k: int|
        0 <= k < lossy_text(field).len() ==> CharClass::Whitespace.has(
            #[trigger] lossy_text(field)[k],
        )
}

/// One record whose name field is nothing but whitespace makes the whole
/// buffer invalid.
pub proof fn lemma_blank_name_rejected(buf: Seq<u8>, i: int)
    requires
        0 <= i < record_count(buf),
        is_blank(chunk(buf, i).subrange(8, 28)),
    ensures
        decode(buf) is None,
{
    let field = chunk(buf, i).subrange(8, 28);
    lemma_trim_end_is(lossy_text(field), CharClass::Whitespace, 0);
    assert(record_of(chunk(buf, i)) is None);
}

/// Whether `byte` is whitespace in ASCII: a tab, a line feed, a vertical tab,
/// a form feed, a carriage return or a space.
pub open spec fn is_blank_byte(byte: u8) -> bool {
    0x09 <= byte <= 0x0D || byte == 0x20
}

/// A name field filled with ASCII whitespace, such as a field of 20 spaces,
/// is nothing but whitespace.
pub proof fn lemma_blank_bytes_are_blank(field: Seq<u8>)
    requires
        forall|k: int| 0 <= k < field.len() ==> is_blank_byte(#[trigger] field[k]),
    ensures
        is_blank(field),
{
    lemma_lossy_text_ascii(field);
}

/// The path of the file that a viewer loads when it is given no other.
pub const DEFAULT_PATH: &'static str = "data.bin";

/// Picks the files to load from the arguments of the program. The first
/// argument is the name of the program itself; those after it are the paths.
/// Without any path the file at `DEFAULT_PATH` is loaded.
pub fn parse_args(args: Vec<String>) -> (out: Vec<String>)
    ensures
        args@.len() > 1 ==> out@ == args@.skip(1),
        args@.len() <= 1 ==> out@.len() == 1 && out@[0]@ == DEFAULT_PATH@,
{
    let mut args = args;
    if args.len() > 1 {
        let _program = args.remove(0);
        args
    } else {
        let mut out: Vec<String> = Vec::new();
        out.push(String::from_str(DEFAULT_PATH));
        out
    }
}

} // verus!
