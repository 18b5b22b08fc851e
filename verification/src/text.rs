//! The delimited text layout.
//!
//! A record is written as a tuple `(type, id, "name")`. Any run of whitespace
//! may stand in front of a tuple, between two tuples and after the last one.
//! The layout is strict: one tuple that cannot be read makes the whole buffer
//! invalid.

use crate::chars::{
    chars_of, parse_u32, parse_u32_at, split, split_at, substring, trim, trim_at, trim_matches,
    CharClass,
};
use crate::cursor::Cursor;
use crate::error::{failure_text, spec_failure_text, MyError};
use crate::lossy::{decode_lossy, lossy_text};
use crate::model::{Decoded, RecordModel};
use crate::scan::{find, lemma_find, lemma_find_is};
use vstd::prelude::*;

verus! {

/// A decoded record of this layout.
#[derive(Debug, Clone, PartialEq, Eq)]
pub struct Record {
    pub record_type: u32,
    pub id: u32,
    pub name: String,
}

impl View for Record {
    type V = RecordModel;

    open spec fn view(&self) -> RecordModel {
        RecordModel { record_type: self.record_type as int, id: self.id as int, name: self.name@ }
    }
}

/// The models of a sequence of records.
pub open spec fn models(records: Seq<Record>) -> Seq<RecordModel> {
    records.map_values(|r: Record| r@)
}

/// The record that the text of one tuple stands for, or the reason why it
/// stands for none.
///
/// Parentheses are stripped from both ends and the rest is split at commas.
/// There must be three fields. The first two are trimmed and read as
/// unsigned 32-bit integers; the third is trimmed, and quotes are stripped
/// from both of its ends.
pub open spec fn parse_record(s: Seq<char>) -> Result<RecordModel, Seq<char>> {
    let fields = split(trim_matches(s, CharClass::Parens), ',');
    if fields.len() != 3 {
        Err("Invalid record format"@)
    } else {
        match parse_u32(trim(fields[0])) {
            None => Err("Invalid record type"@),
            Some(record_type) => match parse_u32(trim(fields[1])) {
                None => Err("Invalid ID"@),
                Some(id) => Ok(
                    RecordModel {
                        record_type: record_type as int,
                        id: id as int,
                        name: trim_matches(trim(fields[2]), CharClass::Quote),
                    },
                ),
            },
        }
    }
}

impl Record {
    /// Reads one tuple.
    pub fn from_str(s: &str) -> (out: Result<Record, &'static str>)
        ensures
            match out {
                Ok(record) => parse_record(s@) == Ok::<RecordModel, Seq<char>>(record@),
                Err(reason) => parse_record(s@) == Err::<RecordModel, Seq<char>>(reason@),
            },
    {
        let chars = chars_of(s);
        let (lo, hi) = trim_at(chars.as_slice(), 0, chars.len(), CharClass::Parens);
        assert(chars@.subrange(0, chars@.len() as int) =~= s@);
        let fields = split_at(chars.as_slice(), lo, hi, ',');
        if fields.len() != 3 {
            return Err("Invalid record format");
        }
        let (a, b) = trim_at(chars.as_slice(), fields[0].0, fields[0].1, CharClass::Whitespace);
        let record_type: u32 = match parse_u32_at(chars.as_slice(), a, b) {
            Some(n) => n,
            None => {
                return Err("Invalid record type");
            },
        };
        let (a, b) = trim_at(chars.as_slice(), fields[1].0, fields[1].1, CharClass::Whitespace);
        let id: u32 = match parse_u32_at(chars.as_slice(), a, b) {
            Some(n) => n,
            None => {
                return Err("Invalid ID");
            },
        };
        let (a, b) = trim_at(chars.as_slice(), fields[2].0, fields[2].1, CharClass::Whitespace);
        let (a, b) = trim_at(chars.as_slice(), a, b, CharClass::Quote);
        let name = substring(s, a, b);
        Ok(Record { record_type, id, name })
    }
}

/// The byte that closes a tuple.
pub const CLOSE: u8 = 0x29;

/// Whether `byte` may stand between tuples: a space, a tab, a line feed, a
/// vertical tab, a form feed or a carriage return.
pub open spec fn is_gap(byte: u8) -> bool {
    byte == 0x20 || 0x09 <= byte <= 0x0D
}

/// The first offset at or after `from` that holds no gap byte.
pub open spec fn skip_gaps(buf: Seq<u8>, from: int) -> int
    decreases buf.len() - from,
{
    if 0 <= from < buf.len() && is_gap(buf[from]) {
        skip_gaps(buf, from + 1)
    } else {
        from
    }
}

/// The tuples found by reading from `pos` on, each with its closing
/// parenthesis, or `None` when the last of them is never closed.
///
/// A tuple begins at the first byte that is no gap byte and ends at the next
/// closing parenthesis. The next tuple is looked for right after that
/// parenthesis, and nothing but gap bytes is passed over.
pub open spec fn tuples_from(buf: Seq<u8>, pos: int) -> Option<Seq<Seq<u8>>>
    decreases buf.len() - pos,
{
    let start = skip_gaps(buf, pos);
    if start < pos || start >= buf.len() {
        Some(Seq::empty())
    } else {
        let end = find(buf, CLOSE, start);
        if end < start || end >= buf.len() {
            None
        } else {
            match tuples_from(buf, end + 1) {
                Some(rest) => Some(seq![buf.subrange(start, end + 1)] + rest),
                None => None,
            }
        }
    }
}

/// The tuples of `buf` in buffer order, or `None` when the last one is never
/// closed.
pub open spec fn tuples(buf: Seq<u8>) -> Option<Seq<Seq<u8>>> {
    tuples_from(buf, 0)
}

/// The record that the bytes of one tuple stand for, if they stand for one.
pub open spec fn tuple_record(tuple: Seq<u8>) -> Option<RecordModel> {
    match parse_record(lossy_text(tuple)) {
        Ok(record) => Some(record),
        Err(_) => None,
    }
}

/// Whether each of the tuples stands for a record.
pub open spec fn all_readable(tuples: Seq<Seq<u8>>) -> bool {
    forall|i: int| 0 <= i < tuples.len() ==> (#[trigger] tuple_record(tuples[i])) is Some
}

/// The records that the tuples stand for.
pub open spec fn tuple_records(tuples: Seq<Seq<u8>>) -> Seq<RecordModel> {
    tuples.map_values(|t: Seq<u8>| tuple_record(t).unwrap())
}

/// The records of `buf`, or `None` when a tuple is never closed or does not
/// stand for a record.
pub open spec fn decode(buf: Seq<u8>) -> Option<Seq<RecordModel>> {
    match tuples(buf) {
        Some(ts) => if all_readable(ts) {
            Some(tuple_records(ts))
        } else {
            None
        },
        None => None,
    }
}

/// Moves the cursor past the gap bytes in front of it.
fn pass_gaps(cur: &mut Cursor)
    ensures
        final(cur).buffer() == old(cur).buffer(),
        final(cur).spec_position() == skip_gaps(old(cur).buffer(), old(cur).spec_position()),
        old(cur).spec_position() <= final(cur).spec_position() <= old(cur).buffer().len(),
{
    let ghost buf = cur.buffer();
    let ghost from = cur.spec_position();
    loop
        invariant
            cur.buffer() == buf,
            from <= cur.spec_position(),
            skip_gaps(buf, cur.spec_position()) == skip_gaps(buf, from),
        ensures
            cur.buffer() == buf,
            from <= cur.spec_position() <= buf.len(),
            cur.spec_position() == skip_gaps(buf, from),
        decreases buf.len() - cur.spec_position(),
    {
        match cur.peek_at(0) {
            Some(byte) => {
                if byte == 0x20 || (0x09 <= byte && byte <= 0x0D) {
                    cur.advance(1);
                } else {
                    break ;
                }
            },
            None => {
                break ;
            },
        }
    }
}

/// Decodes the records of a text buffer.
///
/// Fails with `InvalidFormat` when a tuple is never closed, has a number of
/// fields other than three, or has a type or an id that is no unsigned 32-bit
/// integer. On success the whole buffer has been consumed.
pub fn parse_binary_file(buffer: &[u8]) -> (out: Result<Decoded<Record>, MyError>)
    ensures
        match out {
            Ok(decoded) => {
                &&& decode(buffer@) == Some(models(decoded.records@))
                &&& decoded.records@.len() == tuples(buffer@).unwrap().len()
                &&& decoded.consumed == buffer@.len()
            },
            Err(error) => error == MyError::InvalidFormat && decode(buffer@) is None,
        },
{
    let mut cur = Cursor::new(buffer);
    let mut records: Vec<Record> = Vec::new();
    let ghost mut seen: Seq<Seq<u8>> = Seq::empty();
    loop
        invariant
            cur.buffer() == buffer@,
            0 <= cur.spec_position() <= buffer@.len(),
            tuples(buffer@) == match tuples_from(buffer@, cur.spec_position()) {
                Some(rest) => Some(seen + rest),
                None => None,
            },
            all_readable(seen),
            models(records@) == tuple_records(seen),
        ensures
            cur.buffer() == buffer@,
            tuples(buffer@) == Some(seen),
            all_readable(seen),
            models(records@) == tuple_records(seen),
        decreases buffer@.len() - cur.spec_position(),
    {
        pass_gaps(&mut cur);
        let ghost start = cur.spec_position();
        if cur.remaining() == 0 {
            break ;
        }
        proof {
            lemma_find(buffer@, CLOSE, start);
        }
        let ghost end = find(buffer@, CLOSE, start);
        let tuple = match cur.read_through(CLOSE) {
            Some(tuple) => tuple,
            None => {
                return Err(MyError::InvalidFormat);
            },
        };
        let text = decode_lossy(tuple);
        let record = match Record::from_str(text.as_str()) {
            Ok(record) => record,
            Err(_) => {
                proof {
                    assert(tuple_record(tuple@) is None);
                    match tuples_from(buffer@, end + 1) {
                        Some(rest) => {
                            let all = seen + (seq![tuple@] + rest);
                            assert(all[seen.len() as int] == tuple@);
                        },
                        None => {},
                    }
                }
                return Err(MyError::InvalidFormat);
            },
        };
        proof {
            assert(models(records@.push(record)) =~= models(records@).push(record@));
            seen = seen.push(tuple@);
        }
        records.push(record);
    }
    Ok(Decoded { records, consumed: buffer.len() })
}

proof fn lemma_skip_gaps_shift(front: Seq<u8>, buf: Seq<u8>, pos: int)
    requires
        0 <= pos <= buf.len(),
    ensures
        skip_gaps(front + buf, front.len() + pos) == front.len() + skip_gaps(buf, pos),
        pos <= skip_gaps(buf, pos) <= buf.len(),
    decreases buf.len() - pos,
{
    if pos < buf.len() {
        assert((front + buf)[front.len() + pos] == buf[pos]);
        if is_gap(buf[pos]) {
            lemma_skip_gaps_shift(front, buf, pos + 1);
        }
    }
}

proof fn lemma_find_shift(front: Seq<u8>, buf: Seq<u8>, pos: int)
    requires
        0 <= pos <= buf.len(),
    ensures
        find(front + buf, CLOSE, front.len() + pos) == front.len() + find(buf, CLOSE, pos),
    decreases buf.len() - pos,
{
    if pos < buf.len() {
        assert((front + buf)[front.len() + pos] == buf[pos]);
        if buf[pos] != CLOSE {
            lemma_find_shift(front, buf, pos + 1);
        }
    }
}

proof fn lemma_tuples_shift(front: Seq<u8>, buf: Seq<u8>, pos: int)
    requires
        0 <= pos <= buf.len(),
    ensures
        tuples_from(front + buf, front.len() + pos) == tuples_from(buf, pos),
    decreases buf.len() - pos,
{
    let both = front + buf;
    lemma_skip_gaps_shift(front, buf, pos);
    let start = skip_gaps(buf, pos);
    if start < buf.len() {
        lemma_find_shift(front, buf, start);
        lemma_find(buf, CLOSE, start);
        let end = find(buf, CLOSE, start);
        if end < buf.len() {
            assert(both.subrange(front.len() + start, front.len() + end + 1) =~= buf.subrange(
                start,
                end + 1,
            ));
            lemma_tuples_shift(front, buf, end + 1);
        }
    }
}

proof fn lemma_skip_gaps_run(gaps: Seq<u8>, rest: Seq<u8>, pos: int)
    requires
        0 <= pos <= gaps.len(),
        forall|k: int| 0 <= k < gaps.len() ==> is_gap(#[trigger] gaps[k]),
    ensures
        skip_gaps(gaps + rest, pos) == skip_gaps(gaps + rest, gaps.len() as int),
    decreases gaps.len() - pos,
{
    if pos < gaps.len() {
        assert((gaps + rest)[pos] == gaps[pos]);
        lemma_skip_gaps_run(gaps, rest, pos + 1);
    }
}

/// Any run of whitespace in front of a buffer changes nothing: the tuples,
/// and so the records, are those of the buffer without it.
pub proof fn lemma_leading_gaps_ignored(gaps: Seq<u8>, rest: Seq<u8>)
    requires
        forall|k: int| 0 <= k < gaps.len() ==> is_gap(#[trigger] gaps[k]),
    ensures
        tuples(gaps + rest) == tuples(rest),
        decode(gaps + rest) == decode(rest),
{
    lemma_skip_gaps_run(gaps, rest, 0);
    lemma_skip_gaps_shift(gaps, rest, 0);
    lemma_tuples_shift(gaps, rest, 0);
}

/// A tuple is read off the front of a buffer, and what follows it is read
/// as a buffer of its own: with whitespace between tuples or with none.
///
/// Here a tuple is a run of bytes that does not begin with whitespace, ends
/// with a closing parenthesis and holds no other.
pub proof fn lemma_tuple_then_rest(tuple: Seq<u8>, rest: Seq<u8>)
    requires
        tuple.len() > 0,
        !is_gap(tuple[0]),
        tuple.last() == CLOSE,
        forall|k: int| 0 <= k < tuple.len() - 1 ==> #[trigger] tuple[k] != CLOSE,
    ensures
        tuples(tuple + rest) == match tuples(rest) {
            Some(others) => Some(seq![tuple] + others),
            None => None,
        },
{
    let both = tuple + rest;
    assert(both[0] == tuple[0]);
    assert forall|k: int| 0 <= k < tuple.len() - 1 implies both[k] != CLOSE by {
        assert(both[k] == tuple[k]);
    }
    assert(both[tuple.len() - 1] == tuple.last());
    lemma_find_is(both, CLOSE, 0, tuple.len() - 1);
    assert(both.subrange(0, tuple.len() as int) =~= tuple);
    lemma_tuples_shift(tuple, rest, 0);
}

/// The number of fields that a tuple has: one more than it has commas.
pub open spec fn field_count(tuple: Seq<u8>) -> nat {
    split(trim_matches(lossy_text(tuple), CharClass::Parens), ',').len()
}

/// One tuple with a number of fields other than three makes the whole buffer
/// invalid.
pub proof fn lemma_field_count_must_be_three(buf: Seq<u8>, i: int)
    requires
        tuples(buf) matches Some(ts) && 0 <= i < ts.len() && field_count(ts[i]) != 3,
    ensures
        decode(buf) is None,
{
    let ts = tuples(buf).unwrap();
    assert(tuple_record(ts[i]) is None);
}

/// The path of the file that a text viewer loads.
pub const DATA_PATH: &'static str = "data.bin";

/// What loading the file comes to: its records, or the line that reports the
/// failure. `read` is what reading the file gave, its bytes or the reason why
/// it could not be read.
pub open spec fn load(read: Result<Vec<u8>, MyError>) -> Result<Seq<RecordModel>, Seq<char>> {
    match read {
        Ok(bytes) => match decode(bytes@) {
            Some(records) => Ok(records),
            None => Err(spec_failure_text(DATA_PATH@, MyError::InvalidFormat)),
        },
        Err(error) => Err(spec_failure_text(DATA_PATH@, error)),
    }
}

/// What a viewer of the text file holds: either the records loaded from it or
/// the line that says why loading failed.
#[derive(Debug, Clone, PartialEq, Eq)]
pub struct MyApp {
    pub file_contents: Option<Vec<Record>>,
    pub error_message: Option<String>,
}

impl MyApp {
    /// A viewer with nothing loaded yet.
    pub fn new() -> (out: Self)
        ensures
            out.file_contents is None,
            out.error_message is None,
    {
        MyApp { file_contents: None, error_message: None }
    }

    /// Takes in what reading the file at `DATA_PATH` gave.
    ///
    /// When the bytes decode, `file_contents` becomes their records. When the
    /// file could not be read or decoded, `error_message` names the file and
    /// the error, and `file_contents` stays as it was.
    pub fn parse_files(&mut self, read: &Result<Vec<u8>, MyError>)
        ensures
            match load(*read) {
                Ok(records) => {
                    &&& final(self).error_message == old(self).error_message
                    &&& final(self).file_contents matches Some(contents)
                    &&& models(contents@) == records
                },
                Err(line) => {
                    &&& final(self).file_contents == old(self).file_contents
                    &&& final(self).error_message matches Some(message)
                    &&& message@ == line
                },
            },
    {
        let decoded = match read {
            Ok(bytes) => parse_binary_file(bytes.as_slice()),
            Err(error) => {
                self.error_message = Some(failure_text(DATA_PATH, error));
                return ;
            },
        };
        match decoded {
            Ok(decoded) => {
                self.file_contents = Some(decoded.records);
            },
            Err(error) => {
                self.error_message = Some(failure_text(DATA_PATH, &error));
            },
        }
    }
}

} // verus!
