//! The length-prefixed binary layout.
//!
//! A record is one type byte, a little-endian 32-bit id, one byte that holds
//! the length of the name, and the name itself. Records follow one another
//! without padding. Decoding stops, without an error, at the first place where
//! the bytes that are left do not hold a whole record.

use crate::cursor::Cursor;
use crate::le::{le_u32, lemma_bytes_of_value, lemma_le_u32_range, u32_le_bytes};
use crate::lossy::{decode_lossy, lossy_text};
use crate::model::{Decoded, RecordModel};
use vstd::prelude::*;

verus! {

/// The number of bytes in front of a record's name.
pub const HEADER_LEN: usize = 6;

/// A decoded record of this layout.
#[derive(Debug, Clone, PartialEq, Eq)]
pub struct Record {
    pub record_type: u8,
    pub id: u32,
    pub name: String,
}

impl View for Record {
    type V = RecordModel;

    open spec fn view(&self) -> RecordModel {
        RecordModel { record_type: self.record_type as int, id: self.id as int, name: self.name@ }
    }
}

/// The models of a sequence of records.
pub open spec fn models(records: Seq<Record>) -> Seq<RecordModel> {
    records.map_values(|r: Record| r@)
}

/// A record as it lies in the buffer, with the name still in bytes.
pub struct RawRecord {
    pub record_type: u8,
    pub id: u32,
    pub name: Seq<u8>,
}

impl RawRecord {
    /// The record that decoding makes of these bytes.
    pub open spec fn model(self) -> RecordModel {
        RecordModel {
            record_type: self.record_type as int,
            id: self.id as int,
            name: lossy_text(self.name),
        }
    }

    /// The number of bytes that the record takes up in a buffer.
    pub open spec fn size(self) -> int {
        HEADER_LEN + self.name.len()
    }

    /// The bytes of the record: header, then name.
    pub open spec fn encoded(self) -> Seq<u8> {
        seq![self.record_type] + u32_le_bytes(self.id as int) + seq![self.name.len() as u8]
            + self.name
    }
}

/// The record that starts at `pos`, if the buffer holds all of it.
pub open spec fn record_at(buf: Seq<u8>, pos: int) -> Option<RawRecord> {
    if 0 <= pos && pos + HEADER_LEN <= buf.len() && pos + HEADER_LEN + buf[pos + 5] <= buf.len() {
        Some(
            RawRecord {
                record_type: buf[pos],
                id: le_u32(buf.subrange(pos + 1, pos + 5)) as u32,
                name: buf.subrange(pos + HEADER_LEN, pos + HEADER_LEN + buf[pos + 5]),
            },
        )
    } else {
        None
    }
}

/// The whole records found by reading from `pos` on.
pub open spec fn raw_records_from(buf: Seq<u8>, pos: int) -> Seq<RawRecord>
    decreases buf.len() - pos,
{
    match record_at(buf, pos) {
        Some(r) => seq![r] + raw_records_from(buf, pos + r.size()),
        None => Seq::empty(),
    }
}

/// The offset at which reading from `pos` on stops.
pub open spec fn end_from(buf: Seq<u8>, pos: int) -> int
    decreases buf.len() - pos,
{
    match record_at(buf, pos) {
        Some(r) => end_from(buf, pos + r.size()),
        None => pos,
    }
}

/// The whole records at the front of `buf`, in buffer order.
pub open spec fn raw_records(buf: Seq<u8>) -> Seq<RawRecord> {
    raw_records_from(buf, 0)
}

/// The number of bytes at the front of `buf` that hold whole records.
pub open spec fn consumed(buf: Seq<u8>) -> int {
    end_from(buf, 0)
}

/// The models of a sequence of raw records.
pub open spec fn raw_models(raws: Seq<RawRecord>) -> Seq<RecordModel> {
    raws.map_values(|r: RawRecord| r.model())
}

/// The records that decoding finds in `buf`.
pub open spec fn decode(buf: Seq<u8>) -> Seq<RecordModel> {
    raw_models(raw_records(buf))
}

/// Decodes the records of a length-prefixed buffer.
///
/// Never fails: bytes at the end that do not make up a whole record are left
/// unread, and `consumed` says where they begin.
pub fn parse_binary_file(buffer: &[u8]) -> (out: Decoded<Record>)
    ensures
        models(out.records@) == decode(buffer@),
        out.records@.len() == raw_records(buffer@).len(),
        out.consumed == consumed(buffer@),
        out.consumed <= buffer@.len(),
{
    let mut cur = Cursor::new(buffer);
    let mut records: Vec<Record> = Vec::new();
    let ghost mut raws: Seq<RawRecord> = Seq::empty();
    loop
        invariant
            cur.buffer() == buffer@,
            0 <= cur.spec_position() <= buffer@.len(),
            raw_records(buffer@) == raws + raw_records_from(buffer@, cur.spec_position()),
            consumed(buffer@) == end_from(buffer@, cur.spec_position()),
            models(records@) == raw_models(raws),
        ensures
            cur.buffer() == buffer@,
            0 <= cur.spec_position() <= buffer@.len(),
            raw_records(buffer@) == raws,
            consumed(buffer@) == cur.spec_position(),
            models(records@) == raw_models(raws),
        decreases buffer@.len() - cur.spec_position(),
    {
        let ghost pos = cur.spec_position();
        let name_len: usize = match cur.peek_at(5) {
            Some(n) => n as usize,
            None => {
                break ;
            },
        };
        if cur.remaining() - HEADER_LEN < name_len {
            break ;
        }
        let ghost raw = record_at(buffer@, pos).unwrap();
        let record_type: u8 = cur.read_u8().unwrap();
        let id: u32 = cur.read_u32_le().unwrap();
        cur.advance(1);
        let name_bytes = cur.read_bytes(name_len).unwrap();
        let name = decode_lossy(name_bytes);
        let record = Record { record_type, id, name };
        proof {
            lemma_le_u32_range(buffer@.subrange(pos + 1, pos + 5));
            assert(models(records@.push(record)) =~= models(records@).push(record@));
            raws = raws.push(raw);
        }
        records.push(record);
    }
    Decoded { records, consumed: cur.position() }
}

/// The number of bytes that the records take up, one after another.
pub open spec fn total_size(raws: Seq<RawRecord>) -> int
    decreases raws.len(),
{
    if raws.len() == 0 {
        0
    } else {
        raws[0].size() + total_size(raws.drop_first())
    }
}

/// The bytes of the records, one after another.
pub open spec fn encode_all(raws: Seq<RawRecord>) -> Seq<u8>
    decreases raws.len(),
{
    if raws.len() == 0 {
        Seq::empty()
    } else {
        raws[0].encoded() + encode_all(raws.drop_first())
    }
}

/// A record found at `pos` is written exactly as the buffer has it there.
pub proof fn lemma_record_at_encoded(buf: Seq<u8>, pos: int)
    requires
        record_at(buf, pos) is Some,
    ensures
        record_at(buf, pos).unwrap().encoded() == buf.subrange(
            pos,
            pos + record_at(buf, pos).unwrap().size(),
        ),
        record_at(buf, pos).unwrap().name.len() <= u8::MAX,
{
    let id_bytes = buf.subrange(pos + 1, pos + 5);
    lemma_le_u32_range(id_bytes);
    lemma_bytes_of_value(id_bytes);
}

proof fn lemma_from(buf: Seq<u8>, pos: int)
    requires
        0 <= pos <= buf.len(),
    ensures
        pos <= end_from(buf, pos) <= buf.len(),
        end_from(buf, pos) - pos == total_size(raw_records_from(buf, pos)),
        encode_all(raw_records_from(buf, pos)) == buf.subrange(pos, end_from(buf, pos)),
    decreases buf.len() - pos,
{
    match record_at(buf, pos) {
        Some(r) => {
            let next = pos + r.size();
            let rest = raw_records_from(buf, next);
            lemma_from(buf, next);
            lemma_record_at_encoded(buf, pos);
            assert(raw_records_from(buf, pos).drop_first() =~= rest);
        },
        None => {},
    }
}

/// Decoding consumes six bytes and the name for each record, and nothing
/// else: the consumed count is the sum of the sizes of the records found.
pub proof fn lemma_consumed_is_total_size(buf: Seq<u8>)
    ensures
        0 <= consumed(buf) <= buf.len(),
        consumed(buf) == total_size(raw_records(buf)),
{
    lemma_from(buf, 0);
}

/// Writing the headers and names of the records found, in order, gives back
/// the buffer up to the place where decoding stopped.
pub proof fn lemma_encode_decoded(buf: Seq<u8>)
    ensures
        encode_all(raw_records(buf)) == buf.subrange(0, consumed(buf)),
{
    lemma_from(buf, 0);
}

proof fn lemma_tail_from(whole: Seq<u8>, tail: Seq<u8>, pos: int)
    requires
        0 <= pos <= whole.len(),
        end_from(whole, pos) == whole.len(),
        record_at(tail, 0) is None,
    ensures
        raw_records_from(whole + tail, pos) == raw_records_from(whole, pos),
        end_from(whole + tail, pos) == whole.len(),
    decreases whole.len() - pos,
{
    let both = whole + tail;
    match record_at(whole, pos) {
        Some(r) => {
            assert(both.subrange(pos + HEADER_LEN, pos + r.size()) =~= whole.subrange(
                pos + HEADER_LEN,
                pos + r.size(),
            ));
            lemma_tail_from(whole, tail, pos + r.size());
        },
        None => {},
    }
}

/// Bytes after the last whole record that do not themselves hold a whole
/// record, such as a record cut off in the middle of its name, change
/// nothing: decoding yields the records in front of them and stops there.
pub proof fn lemma_truncated_tail_ignored(whole: Seq<u8>, tail: Seq<u8>)
    requires
        consumed(whole) == whole.len(),
        record_at(tail, 0) is None,
    ensures
        raw_records(whole + tail) == raw_records(whole),
        decode(whole + tail) == decode(whole),
        consumed(whole + tail) == whole.len(),
{
    lemma_tail_from(whole, tail, 0);
}

} // verus!
