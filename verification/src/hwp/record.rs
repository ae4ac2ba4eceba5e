//! Records, the unit of every HWP stream, and the decoder that reads them
//! from a byte buffer.
//!
//! A record starts with a packed 32-bit little-endian word: ten bits of tag,
//! ten bits of level and twelve bits of size. A size field of 4095 says that
//! the true size follows in a second 32-bit word.

use vstd::prelude::*;
use vstd::slice::{slice_subrange, slice_to_vec};
use crate::bytes::{le_u32, u32_at};
use crate::error::{Fault, HwpError};
use crate::text::{decimal, push_decimal};

verus! {

/// The first tag id of the format; every known tag is this plus an offset.
pub const HWPTAG_BEGIN: u16 = 0x10;

pub const HWPTAG_DOCUMENT_PROPERTIES: u16 = HWPTAG_BEGIN;

pub const HWPTAG_PARA_HEADER: u16 = HWPTAG_BEGIN + 50;

pub const HWPTAG_PARA_TEXT: u16 = HWPTAG_BEGIN + 51;

pub const HWPTAG_PARA_CHAR_SHAPE: u16 = HWPTAG_BEGIN + 52;

pub const HWPTAG_PARA_LINE_SEG: u16 = HWPTAG_BEGIN + 53;

pub const HWPTAG_PARA_RANGE_TAG: u16 = HWPTAG_BEGIN + 54;

pub const HWPTAG_CTRL_HEADER: u16 = HWPTAG_BEGIN + 55;

pub const HWPTAG_LIST_HEADER: u16 = HWPTAG_BEGIN + 56;

pub const HWPTAG_PAGE_DEF: u16 = HWPTAG_BEGIN + 57;

pub const HWPTAG_FOOTNOTE_SHAPE: u16 = HWPTAG_BEGIN + 58;

pub const HWPTAG_PAGE_BORDER_FILL: u16 = HWPTAG_BEGIN + 59;

pub const HWPTAG_SHAPE_COMPONENT: u16 = HWPTAG_BEGIN + 60;

pub const HWPTAG_TABLE: u16 = HWPTAG_BEGIN + 61;

pub const HWPTAG_SHAPE_COMPONENT_LINE: u16 = HWPTAG_BEGIN + 62;

pub const HWPTAG_SHAPE_COMPONENT_RECTANGLE: u16 = HWPTAG_BEGIN + 63;

pub const HWPTAG_SHAPE_COMPONENT_ELLIPSE: u16 = HWPTAG_BEGIN + 64;

pub const HWPTAG_SHAPE_COMPONENT_ARC: u16 = HWPTAG_BEGIN + 65;

pub const HWPTAG_SHAPE_COMPONENT_POLYGON: u16 = HWPTAG_BEGIN + 66;

pub const HWPTAG_SHAPE_COMPONENT_CURVE: u16 = HWPTAG_BEGIN + 67;

pub const HWPTAG_SHAPE_COMPONENT_OLE: u16 = HWPTAG_BEGIN + 68;

pub const HWPTAG_SHAPE_COMPONENT_PICTURE: u16 = HWPTAG_BEGIN + 69;

pub const HWPTAG_SHAPE_COMPONENT_CONTAINER: u16 = HWPTAG_BEGIN + 70;

pub const HWPTAG_CTRL_DATA: u16 = HWPTAG_BEGIN + 71;

pub const HWPTAG_EQEDIT: u16 = HWPTAG_BEGIN + 72;

pub const HWPTAG_SHAPE_COMPONENT_TEXTART: u16 = HWPTAG_BEGIN + 74;

pub const HWPTAG_FORM_OBJECT: u16 = HWPTAG_BEGIN + 75;

pub const HWPTAG_MEMO_SHAPE: u16 = HWPTAG_BEGIN + 76;

pub const HWPTAG_MEMO_LIST: u16 = HWPTAG_BEGIN + 77;

pub const HWPTAG_FORBIDDEN_CHAR: u16 = HWPTAG_BEGIN + 78;

pub const HWPTAG_CHART_DATA: u16 = HWPTAG_BEGIN + 79;

/// The size field that announces a second word with the true size.
pub const EXTENDED_SIZE: u32 = 0xFFF;

/// The header of a record: its tag, its depth in the tree and the size of
/// its body.
#[derive(Debug, Clone)]
pub struct RecordHeader {
    pub tag_id: u16,
    pub level: u16,
    pub size: u32,
}

/// A record: header and body.
#[derive(Debug, Clone)]
pub struct Record {
    pub header: RecordHeader,
    pub data: Vec<u8>,
}

/// A record as a mathematical value.
pub struct RecordModel {
    pub tag_id: u16,
    pub level: u16,
    pub size: u32,
    pub data: Seq<u8>,
}

impl View for Record {
    type V = RecordModel;

    open spec fn view(&self) -> RecordModel {
        RecordModel {
            tag_id: self.header.tag_id,
            level: self.header.level,
            size: self.header.size,
            data: self.data@,
        }
    }
}

/// The models of a sequence of records.
pub open spec fn models(records: Seq<Record>) -> Seq<RecordModel> {
    Seq::new(records.len(), |i: int| records[i]@)
}

/// The name of the tag `tag_id`, for the tags that have one.
pub open spec fn tag_name_of(tag_id: u16) -> Seq<char> {
    if tag_id == HWPTAG_DOCUMENT_PROPERTIES {
        "DOCUMENT_PROPERTIES"@
    } else if tag_id == HWPTAG_PARA_HEADER {
        "PARA_HEADER"@
    } else if tag_id == HWPTAG_PARA_TEXT {
        "PARA_TEXT"@
    } else if tag_id == HWPTAG_PARA_CHAR_SHAPE {
        "PARA_CHAR_SHAPE"@
    } else if tag_id == HWPTAG_PARA_LINE_SEG {
        "PARA_LINE_SEG"@
    } else if tag_id == HWPTAG_PARA_RANGE_TAG {
        "PARA_RANGE_TAG"@
    } else if tag_id == HWPTAG_CTRL_HEADER {
        "CTRL_HEADER"@
    } else if tag_id == HWPTAG_LIST_HEADER {
        "LIST_HEADER"@
    } else if tag_id == HWPTAG_PAGE_DEF {
        "PAGE_DEF"@
    } else if tag_id == HWPTAG_FOOTNOTE_SHAPE {
        "FOOTNOTE_SHAPE"@
    } else if tag_id == HWPTAG_PAGE_BORDER_FILL {
        "PAGE_BORDER_FILL"@
    } else if tag_id == HWPTAG_SHAPE_COMPONENT {
        "SHAPE_COMPONENT"@
    } else if tag_id == HWPTAG_TABLE {
        "TABLE"@
    } else if tag_id == HWPTAG_CTRL_DATA {
        "CTRL_DATA"@
    } else if tag_id == HWPTAG_EQEDIT {
        "EQEDIT"@
    } else {
        "UNKNOWN"@
    }
}

impl RecordHeader {
    /// The name of the record's tag, `"UNKNOWN"` for a tag without a name.
    pub fn tag_name(&self) -> (r: &'static str)
        ensures
            r@ == tag_name_of(self.tag_id),
    {
        let t = self.tag_id;
        if t == HWPTAG_DOCUMENT_PROPERTIES {
            "DOCUMENT_PROPERTIES"
        } else if t == HWPTAG_PARA_HEADER {
            "PARA_HEADER"
        } else if t == HWPTAG_PARA_TEXT {
            "PARA_TEXT"
        } else if t == HWPTAG_PARA_CHAR_SHAPE {
            "PARA_CHAR_SHAPE"
        } else if t == HWPTAG_PARA_LINE_SEG {
            "PARA_LINE_SEG"
        } else if t == HWPTAG_PARA_RANGE_TAG {
            "PARA_RANGE_TAG"
        } else if t == HWPTAG_CTRL_HEADER {
            "CTRL_HEADER"
        } else if t == HWPTAG_LIST_HEADER {
            "LIST_HEADER"
        } else if t == HWPTAG_PAGE_DEF {
            "PAGE_DEF"
        } else if t == HWPTAG_FOOTNOTE_SHAPE {
            "FOOTNOTE_SHAPE"
        } else if t == HWPTAG_PAGE_BORDER_FILL {
            "PAGE_BORDER_FILL"
        } else if t == HWPTAG_SHAPE_COMPONENT {
            "SHAPE_COMPONENT"
        } else if t == HWPTAG_TABLE {
            "TABLE"
        } else if t == HWPTAG_CTRL_DATA {
            "CTRL_DATA"
        } else if t == HWPTAG_EQEDIT {
            "EQEDIT"
        } else {
            "UNKNOWN"
        }
    }
}

/// The tag in a packed header word: its low ten bits.
pub open spec fn packed_tag(word: int) -> int {
    word % 0x400
}

/// The level in a packed header word: the ten bits above the tag.
pub open spec fn packed_level(word: int) -> int {
    (word / 0x400) % 0x400
}

/// The size field of a packed header word: its high twelve bits.
pub open spec fn packed_size(word: int) -> int {
    word / 0x10_0000
}

/// Whether the record that starts at `pos` announces an extended size word.
pub open spec fn has_extended_size(b: Seq<u8>, pos: int) -> bool {
    packed_size(le_u32(b, pos)) == EXTENDED_SIZE
}

/// Where the body of the record that starts at `pos` begins: after the
/// packed word, and after the extended size word where there is one.
pub open spec fn body_start(b: Seq<u8>, pos: int) -> int {
    if has_extended_size(b, pos) {
        pos + 8
    } else {
        pos + 4
    }
}

/// The size of the body of the record that starts at `pos`.
pub open spec fn body_size(b: Seq<u8>, pos: int) -> int {
    if has_extended_size(b, pos) {
        le_u32(b, pos + 4)
    } else {
        packed_size(le_u32(b, pos))
    }
}

/// Where the record that starts at `pos` ends.
pub open spec fn record_end(b: Seq<u8>, pos: int) -> int {
    body_start(b, pos) + body_size(b, pos)
}

/// The record that starts at `pos`.
pub open spec fn record_at(b: Seq<u8>, pos: int) -> RecordModel {
    RecordModel {
        tag_id: packed_tag(le_u32(b, pos)) as u16,
        level: packed_level(le_u32(b, pos)) as u16,
        size: body_size(b, pos) as u32,
        data: b.subrange(body_start(b, pos), record_end(b, pos)),
    }
}

/// The text of the error for a body of `size` bytes that would start at
/// `pos`, where only `available` bytes are left.
pub open spec fn overflow_message(size: nat, pos: nat, available: nat) -> Seq<char> {
    "Record body overflow: need "@ + decimal(size) + " bytes at pos "@ + decimal(pos)
        + ", but only "@ + decimal(available) + " available"@
}

/// Why the records of `b` from `pos` on cannot be read, if they cannot.
///
/// Fewer than four bytes at the end are no record and no fault. A record
/// whose extended size word is cut off is an invalid header, and a body that
/// reaches past the end of the buffer is a parse error.
pub open spec fn parse_records(b: Seq<u8>, pos: int) -> Result<Seq<RecordModel>, Fault>
    decreases b.len() - pos,
{
    if pos < 0 || pos + 4 > b.len() {
        Ok(Seq::empty())
    } else if has_extended_size(b, pos) && pos + 8 > b.len() {
        Err(Fault::InvalidRecordHeader)
    } else if record_end(b, pos) > b.len() {
        Err(
            Fault::Parse(
                overflow_message(
                    body_size(b, pos) as nat,
                    body_start(b, pos) as nat,
                    (b.len() - body_start(b, pos)) as nat,
                ),
            ),
        )
    } else {
        match parse_records(b, record_end(b, pos)) {
            Ok(rest) => Ok(seq![record_at(b, pos)] + rest),
            Err(e) => Err(e),
        }
    }
}

/// Where reading the records of `b` from `pos` on stops: behind the last
/// record that fits, or at the record that does not.
pub open spec fn consumed(b: Seq<u8>, pos: int) -> int
    decreases b.len() - pos,
{
    if pos < 0 || pos + 4 > b.len() {
        pos
    } else if has_extended_size(b, pos) && pos + 8 > b.len() {
        pos
    } else if record_end(b, pos) > b.len() {
        pos
    } else {
        consumed(b, record_end(b, pos))
    }
}

/// Reading is total: where the records of `b` from `pos` on can be read,
/// reading stops behind the last of them with fewer than four bytes left, so
/// that nothing which could hold a record header stays unread. Where no
/// byte is left over, every byte of `b` from `pos` on belongs to a record.
pub proof fn lemma_reading_uses_the_buffer_up(b: Seq<u8>, pos: int)
    requires
        0 <= pos <= b.len(),
    ensures
        pos <= consumed(b, pos) <= b.len(),
        parse_records(b, pos) is Ok ==> b.len() - consumed(b, pos) < 4,
        parse_records(b, pos) is Err ==> consumed(b, pos) + 4 <= b.len(),
    decreases b.len() - pos,
{
    if pos + 4 <= b.len() && !(has_extended_size(b, pos) && pos + 8 > b.len()) && record_end(
        b,
        pos,
    ) <= b.len() {
        lemma_reading_uses_the_buffer_up(b, record_end(b, pos));
    }
}

/// A size field below 4095 is the size itself, and the body follows the
/// packed word at once. A size field of 4095 is followed by one more word of
/// four bytes, which holds the size, and the body follows that word.
pub proof fn lemma_extended_size_word(b: Seq<u8>, pos: int)
    requires
        0 <= pos,
        pos + 4 <= b.len(),
    ensures
        packed_size(le_u32(b, pos)) < EXTENDED_SIZE ==> body_start(b, pos) == pos + 4
            && record_end(b, pos) == pos + 4 + packed_size(le_u32(b, pos)),
        packed_size(le_u32(b, pos)) == EXTENDED_SIZE ==> body_start(b, pos) == pos + 8
            && record_end(b, pos) == pos + 8 + le_u32(b, pos + 4),
        packed_size(le_u32(b, pos)) <= EXTENDED_SIZE,
        parse_records(b, pos) matches Ok(records) ==> records.len() > 0 && records[0]
            == record_at(b, pos) && parse_records(b, record_end(b, pos)) == Ok::<
            Seq<RecordModel>,
            Fault,
        >(records.skip(1)),
{
    if let Ok(records) = parse_records(b, pos) {
        let rest = parse_records(b, record_end(b, pos))->Ok_0;
        assert(records == seq![record_at(b, pos)] + rest);
        assert(records.skip(1) == rest);
    }
}

/// The four bytes of the 32-bit word `word`, low byte first.
pub open spec fn word_bytes(word: int) -> Seq<u8> {
    seq![
        (word % 0x100) as u8,
        ((word / 0x100) % 0x100) as u8,
        ((word / 0x1_0000) % 0x100) as u8,
        ((word / 0x100_0000) % 0x100) as u8,
    ]
}

/// The packed header word of a record with the tag `tag`, the level
/// `level` and the size field `size_field`.
pub open spec fn packed_word(tag: int, level: int, size_field: int) -> int {
    tag + 0x400 * level + 0x10_0000 * size_field
}

/// The record `r` as it is written: its packed header word, its body, and
/// between the two, where `extended` says so, the size word; the size
/// field is then 4095, and else the size itself.
pub open spec fn written(r: RecordModel, extended: bool) -> Seq<u8> {
    if extended {
        word_bytes(packed_word(r.tag_id as int, r.level as int, EXTENDED_SIZE as int))
            + word_bytes(r.size as int) + r.data
    } else {
        word_bytes(packed_word(r.tag_id as int, r.level as int, r.size as int)) + r.data
    }
}

/// The records `records` as they are written, one after the other, where
/// `extended` says of each whether it has a size word.
pub open spec fn all_written(records: Seq<RecordModel>, extended: Seq<bool>) -> Seq<u8>
    decreases records.len(),
{
    if records.len() == 0 {
        Seq::empty()
    } else {
        written(records[0], extended[0]) + all_written(records.skip(1), extended.skip(1))
    }
}

/// Of each record that is read from `b` from `pos` on, whether it has a
/// size word.
pub open spec fn size_words(b: Seq<u8>, pos: int) -> Seq<bool>
    decreases b.len() - pos,
{
    if pos < 0 || pos + 4 > b.len() {
        Seq::empty()
    } else if has_extended_size(b, pos) && pos + 8 > b.len() {
        Seq::empty()
    } else if record_end(b, pos) > b.len() {
        Seq::empty()
    } else {
        seq![has_extended_size(b, pos)] + size_words(b, record_end(b, pos))
    }
}

/// The bytes of a word that four bytes hold are these four bytes.
proof fn lemma_word_bytes_of(b: Seq<u8>, pos: int)
    requires
        0 <= pos,
        pos + 4 <= b.len(),
    ensures
        word_bytes(le_u32(b, pos)) == b.subrange(pos, pos + 4),
        0 <= le_u32(b, pos) < 0x1_0000_0000,
{
    let b0 = b[pos] as int;
    let b1 = b[pos + 1] as int;
    let b2 = b[pos + 2] as int;
    let b3 = b[pos + 3] as int;
    let w = le_u32(b, pos);
    assert(w == b0 + 0x100 * (b1 + 0x100 * (b2 + 0x100 * b3)));
    assert(w % 0x100 == b0);
    assert(w / 0x100 == b1 + 0x100 * (b2 + 0x100 * b3));
    assert((w / 0x100) % 0x100 == b1);
    assert(w / 0x1_0000 == b2 + 0x100 * b3);
    assert((w / 0x1_0000) % 0x100 == b2);
    assert(w / 0x100_0000 == b3);
    assert(word_bytes(w) =~= b.subrange(pos, pos + 4));
}

/// A word is packed of its own fields.
proof fn lemma_packed_word_of(word: int)
    requires
        0 <= word < 0x1_0000_0000,
    ensures
        packed_word(packed_tag(word), packed_level(word), packed_size(word)) == word,
{
    assert(word == 0x400 * (word / 0x400) + word % 0x400);
    assert(word / 0x400 == 0x400 * ((word / 0x400) / 0x400) + (word / 0x400) % 0x400);
    assert((word / 0x400) / 0x400 == word / 0x10_0000);
}

/// The record that starts at `pos`, as it is written, is the bytes of `b`
/// from `pos` to the record's end.
proof fn lemma_record_as_written(b: Seq<u8>, pos: int)
    requires
        0 <= pos,
        pos + 4 <= b.len(),
        has_extended_size(b, pos) ==> pos + 8 <= b.len(),
        record_end(b, pos) <= b.len(),
    ensures
        written(record_at(b, pos), has_extended_size(b, pos)) == b.subrange(
            pos,
            record_end(b, pos),
        ),
        !has_extended_size(b, pos) ==> record_at(b, pos).size < EXTENDED_SIZE,
        record_at(b, pos).size == record_at(b, pos).data.len(),
{
    let word = le_u32(b, pos);
    let r = record_at(b, pos);
    lemma_word_bytes_of(b, pos);
    lemma_packed_word_of(word);
    assert(packed_size(word) <= 0xFFF);
    if has_extended_size(b, pos) {
        lemma_word_bytes_of(b, pos + 4);
        assert(r.size as int == le_u32(b, pos + 4));
        assert(packed_word(r.tag_id as int, r.level as int, EXTENDED_SIZE as int) == word);
        assert(b.subrange(pos, pos + 4) + b.subrange(pos + 4, pos + 8) + b.subrange(
            pos + 8,
            record_end(b, pos),
        ) =~= b.subrange(pos, record_end(b, pos)));
    } else {
        assert(r.size as int == packed_size(word));
        assert(packed_word(r.tag_id as int, r.level as int, r.size as int) == word);
        assert(b.subrange(pos, pos + 4) + b.subrange(pos + 4, record_end(b, pos)) =~= b.subrange(
            pos,
            record_end(b, pos),
        ));
    }
}

/// The records that are read from `b` from `pos` on make up the bytes that
/// are read: written one after the other, each as its packed header word,
/// its size word where it has one, and its body, they are the bytes of `b`
/// from `pos` to where reading stops. A record without a size word has a
/// size below 4095, and the size of each record is the length of its body.
pub proof fn lemma_records_make_up_the_buffer(b: Seq<u8>, pos: int)
    requires
        0 <= pos <= b.len(),
    ensures
        parse_records(b, pos) matches Ok(records) ==> {
            &&& size_words(b, pos).len() == records.len()
            &&& all_written(records, size_words(b, pos)) == b.subrange(pos, consumed(b, pos))
            &&& forall|i: int|
                0 <= i < records.len() ==> (#[trigger] records[i]).size == records[i].data.len()
            &&& forall|i: int|
                0 <= i < records.len() && !size_words(b, pos)[i] ==> (#[trigger] records[i]).size
                    < EXTENDED_SIZE
        },
    decreases b.len() - pos,
{
    if let Ok(records) = parse_records(b, pos) {
        if pos + 4 > b.len() {
            assert(b.subrange(pos, pos) =~= Seq::<u8>::empty());
        } else {
            let end = record_end(b, pos);
            let flags = size_words(b, pos);
            lemma_record_as_written(b, pos);
            lemma_reading_uses_the_buffer_up(b, end);
            lemma_records_make_up_the_buffer(b, end);
            let rest = parse_records(b, end)->Ok_0;
            assert(records == seq![record_at(b, pos)] + rest);
            assert(records.skip(1) == rest);
            assert(flags.skip(1) == size_words(b, end));
            assert(b.subrange(pos, end) + b.subrange(end, consumed(b, pos)) =~= b.subrange(
                pos,
                consumed(b, pos),
            ));
            assert forall|i: int| 0 <= i < records.len() implies (#[trigger] records[i]).size
                == records[i].data.len() by {
                if i > 0 {
                    assert(records[i] == rest[i - 1]);
                }
            }
            assert forall|i: int| 0 <= i < records.len() && !flags[i] implies (
            #[trigger] records[i]).size < EXTENDED_SIZE by {
                if i > 0 {
                    assert(records[i] == rest[i - 1]);
                    assert(flags[i] == size_words(b, end)[i - 1]);
                }
            }
        }
    }
}

/// The fields of a packed word, by shifts and masks.
proof fn lemma_packed_fields(word: u32)
    ensures
        (word & 0x3FF) as int == packed_tag(word as int),
        ((word >> 10) & 0x3FF) as int == packed_level(word as int),
        ((word >> 20) & 0xFFF) as int == packed_size(word as int),
        packed_tag(word as int) < 0x400,
        packed_level(word as int) < 0x400,
        packed_size(word as int) < 0x1000,
{
    assert(word & 0x3FF == word % 0x400) by (bit_vector);
    assert((word >> 10) & 0x3FF == (word / 0x400) % 0x400) by (bit_vector);
    assert((word >> 20) & 0xFFF == word / 0x10_0000) by (bit_vector);
}

/// The text of the error for a body that reaches past the end of the buffer.
fn overflow_text(size: u32, pos: usize, available: usize) -> (r: String)
    ensures
        r@ == overflow_message(size as nat, pos as nat, available as nat),
{
    let mut s = "Record body overflow: need ".to_string();
    push_decimal(&mut s, size as u64);
    s.push_str(" bytes at pos ");
    push_decimal(&mut s, pos as u64);
    s.push_str(", but only ");
    push_decimal(&mut s, available as u64);
    s.push_str(" available");
    s
}

/// Reads the records of a byte buffer, in order.
///
/// The whole buffer is read: the result is either every record of it, with
/// fewer than four bytes left over behind the last one, or an error. The
/// records, as they are written, are the bytes that were read.
pub fn read_records(data: &[u8]) -> (r: Result<Vec<Record>, HwpError>)
    ensures
        match parse_records(data@, 0) {
            Ok(ms) => r matches Ok(v) && models(v@) == ms,
            Err(f) => r matches Err(e) && e@ == f,
        },
        r is Ok ==> data@.len() - 4 < consumed(data@, 0) <= data@.len(),
        r matches Ok(v) ==> all_written(models(v@), size_words(data@, 0)) == data@.subrange(
            0,
            consumed(data@, 0),
        ),
{
    let len = data.len();
    let mut records: Vec<Record> = Vec::new();
    let mut pos: usize = 0;

    while len - pos >= 4
        invariant
            pos <= len == data@.len(),
            parse_records(data@, 0) == match parse_records(data@, pos as int) {
                Ok(rest) => Ok(models(records@) + rest),
                Err(e) => Err(e),
            },
            consumed(data@, 0) == consumed(data@, pos as int),
        decreases len - pos,
    {
        let ghost start = pos as int;
        let value = u32_at(data, pos);
        pos += 4;

        proof {
            lemma_packed_fields(value);
        }
        let tag_id = (value & 0x3FF) as u16;
        let level = ((value >> 10) & 0x3FF) as u16;
        let mut size = (value >> 20) & 0xFFF;

        if size == EXTENDED_SIZE {
            if len - pos < 4 {
                return Err(HwpError::InvalidRecordHeader);
            }
            size = u32_at(data, pos);
            pos += 4;
        }
        assert(pos == body_start(data@, start));
        assert(size == body_size(data@, start));

        if size as usize > len - pos {
            return Err(HwpError::Parse(overflow_text(size, pos, len - pos)));
        }
        let body_end = pos + size as usize;
        let body = slice_to_vec(slice_subrange(data, pos, body_end));
        pos = body_end;

        let record = Record { header: RecordHeader { tag_id, level, size }, data: body };
        proof {
            assert(record@ == record_at(data@, start));
            let rest = parse_records(data@, pos as int);
            if let Ok(tail) = rest {
                assert(models(records@) + (seq![record@] + tail) == models(
                    records@.push(record),
                ) + tail);
            }
        }
        records.push(record);
    }
    assert(models(records@) + Seq::<RecordModel>::empty() == models(records@));
    proof {
        lemma_records_make_up_the_buffer(data@, 0);
    }
    Ok(records)
}

} // verus!
