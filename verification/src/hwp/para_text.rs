//! The text of a paragraph: a run of 16-bit little-endian code units in
//! which characters and control markers are mixed.
//!
//! A code above 31 is a UTF-16 code unit. A code up to 31 is a control: some
//! stand alone, the others are followed by a payload that fills the marker up
//! to sixteen bytes. An extend control stands for an object of the document
//! (a table, a footnote, a drawing) and splits the text.

use vstd::prelude::*;
use crate::bytes::{le_u16, u16_at};
use crate::text::is_scalar_value;
use crate::utf16::{
    encode_char,
    encode_utf16,
    is_high_surrogate,
    is_low_surrogate,
    le_bytes,
    pair_scalar,
    pair_to_char,
};

verus! {

/// The kinds of code unit in the text of a paragraph.
#[derive(Debug, PartialEq, Eq, Structural)]
pub enum CharType {
    /// A character.
    Normal,
    /// A control of two bytes.
    ControlChar,
    /// A control of sixteen bytes that belongs to the text itself.
    ControlInline,
    /// A control of sixteen bytes that stands for an object of the document.
    ControlExtend,
}

/// The kind of the code unit `code`.
pub open spec fn char_type_of(code: u16) -> CharType {
    if code > 31 {
        CharType::Normal
    } else if code == 1 || code == 2 || code == 3 || code == 11 || code == 12 || code == 14
        || code == 15 || code == 16 || code == 17 || code == 18 || code == 21 || code == 22
        || code == 23 {
        CharType::ControlExtend
    } else if code == 4 || code == 5 || code == 6 || code == 7 || code == 8 || code == 9 || code
        == 19 || code == 20 {
        CharType::ControlInline
    } else {
        CharType::ControlChar
    }
}

/// The kind of the code unit `code`.
pub fn char_type(code: u16) -> (r: CharType)
    ensures
        r == char_type_of(code),
{
    if code > 31 {
        return CharType::Normal;
    }
    match code {
        1 | 2 | 3 | 11 | 12 | 14 | 15 | 16 | 17 | 18 | 21 | 22 | 23 => CharType::ControlExtend,
        4 | 5 | 6 | 7 | 8 | 9 | 19 | 20 => CharType::ControlInline,
        _ => CharType::ControlChar,
    }
}

/// Whether the extend control `code` stands for an object that holds text: a
/// drawing, table or equation (11), a hidden comment (15), a header or footer
/// (16), a footnote or endnote (17).
pub fn is_text_control(code: u16) -> (r: bool)
    ensures
        r == (code == 11 || code == 15 || code == 16 || code == 17),
{
    code == 11 || code == 15 || code == 16 || code == 17
}

/// A piece of the text of a paragraph, cut at the extend controls.
#[derive(Debug, Clone)]
pub struct TextSegment {
    pub text: String,
    /// Whether an extend control follows this piece.
    pub has_control_after: bool,
}

/// A segment as a mathematical value.
pub struct SegmentModel {
    pub text: Seq<char>,
    pub has_control_after: bool,
}

impl View for TextSegment {
    type V = SegmentModel;

    open spec fn view(&self) -> SegmentModel {
        SegmentModel { text: self.text@, has_control_after: self.has_control_after }
    }
}

/// The models of a sequence of segments.
pub open spec fn segment_views(segments: Seq<TextSegment>) -> Seq<SegmentModel> {
    Seq::new(segments.len(), |i: int| segments[i]@)
}

/// Whether `b`, which holds at least one code unit, starts with a surrogate
/// pair.
pub open spec fn starts_with_pair(b: Seq<u8>) -> bool {
    is_high_surrogate(le_u16(b, 0)) && b.len() >= 4 && is_low_surrogate(le_u16(b, 2))
}

/// The number of bytes that the first unit of `b` takes, where `b` holds at
/// least one code unit: two for a character or a plain control, four for a
/// surrogate pair, sixteen for an inline or extend control, or what is left
/// of `b` where its payload is cut short.
pub open spec fn unit_len(b: Seq<u8>) -> int {
    match char_type_of(le_u16(b, 0) as u16) {
        CharType::Normal => if starts_with_pair(b) {
            4
        } else {
            2
        },
        CharType::ControlChar => 2,
        _ => if b.len() >= 16 {
            16
        } else {
            b.len() as int
        },
    }
}

/// The characters that the first unit of `b` stands for, where `b` holds at
/// least one code unit: itself for a character, one character for a
/// surrogate pair, nothing for a surrogate without its partner, a line break
/// for 10, a hyphen for 24, a blank for 30 and 31, a tab for 9, and nothing
/// for every other control.
pub open spec fn unit_chars(b: Seq<u8>) -> Seq<char> {
    let code = le_u16(b, 0);
    match char_type_of(code as u16) {
        CharType::Normal => if starts_with_pair(b) {
            seq![pair_scalar(code, le_u16(b, 2)) as char]
        } else if is_scalar_value(code) {
            seq![code as char]
        } else {
            Seq::empty()
        },
        CharType::ControlChar => if code == 10 {
            seq!['\n']
        } else if code == 24 {
            seq!['-']
        } else if code == 30 || code == 31 {
            seq![' ']
        } else {
            Seq::empty()
        },
        CharType::ControlInline => if code == 9 {
            seq!['\t']
        } else {
            Seq::empty()
        },
        CharType::ControlExtend => Seq::empty(),
    }
}

/// Whether the first unit of `b` is an extend control.
pub open spec fn starts_with_extend(b: Seq<u8>) -> bool {
    char_type_of(le_u16(b, 0) as u16) == CharType::ControlExtend
}

/// The text of the paragraph text `b`, with every control taken out or
/// replaced.
pub open spec fn text_of(b: Seq<u8>) -> Seq<char>
    decreases b.len(),
{
    if b.len() < 2 {
        Seq::empty()
    } else {
        unit_chars(b) + text_of(b.skip(unit_len(b)))
    }
}

/// The codes of the extend controls in the paragraph text `b`, in order.
pub open spec fn extend_codes_of(b: Seq<u8>) -> Seq<u16>
    decreases b.len(),
{
    if b.len() < 2 {
        Seq::empty()
    } else if starts_with_extend(b) {
        seq![le_u16(b, 0) as u16] + extend_codes_of(b.skip(unit_len(b)))
    } else {
        extend_codes_of(b.skip(unit_len(b)))
    }
}

/// The segments of the paragraph text `b`, where `current` is the text that
/// was read since the last extend control. Every extend control closes a
/// segment, and the end of `b` closes the last one.
pub open spec fn segments_after(b: Seq<u8>, current: Seq<char>) -> Seq<SegmentModel>
    decreases b.len(),
{
    if b.len() < 2 {
        seq![SegmentModel { text: current, has_control_after: false }]
    } else if starts_with_extend(b) {
        seq![SegmentModel { text: current, has_control_after: true }] + segments_after(
            b.skip(unit_len(b)),
            Seq::empty(),
        )
    } else {
        segments_after(b.skip(unit_len(b)), current + unit_chars(b))
    }
}

/// The segments of the paragraph text `b`.
pub open spec fn segments_of(b: Seq<u8>) -> Seq<SegmentModel> {
    segments_after(b, Seq::empty())
}

/// The number of segments of `segments` that an extend control follows.
pub open spec fn count_with_control(segments: Seq<SegmentModel>) -> nat
    decreases segments.len(),
{
    if segments.len() == 0 {
        0
    } else {
        count_with_control(segments.skip(1)) + if segments[0].has_control_after {
            1nat
        } else {
            0nat
        }
    }
}

/// The texts of `segments`, one after the other.
pub open spec fn joined_text(segments: Seq<SegmentModel>) -> Seq<char>
    decreases segments.len(),
{
    if segments.len() == 0 {
        Seq::empty()
    } else {
        segments[0].text + joined_text(segments.skip(1))
    }
}

/// Reads the unit at `pos` and appends its characters to `out`. Returns the
/// position of the next unit and whether the unit is an extend control, with
/// its code.
fn read_unit(data: &[u8], pos: usize, out: &mut String) -> (r: (usize, Option<u16>))
    requires
        pos + 2 <= data@.len(),
    ensures
        r.0 == pos + unit_len(data@.skip(pos as int)),
        pos < r.0 <= data@.len(),
        final(out)@ == old(out)@ + unit_chars(data@.skip(pos as int)),
        starts_with_extend(data@.skip(pos as int)) ==> r.1 == Some(
            le_u16(data@.skip(pos as int), 0) as u16,
        ),
        !starts_with_extend(data@.skip(pos as int)) ==> r.1 is None,
{
    let len = data.len();
    let ghost rest = data@.skip(pos as int);
    let code = u16_at(data, pos);
    assert(code == le_u16(rest, 0));
    let mut next: usize = pos + 2;
    let mut extend: Option<u16> = None;
    proof {
        assert(out@ + Seq::<char>::empty() == out@);
    }
    match char_type(code) {
        CharType::Normal => {
            if 0xD800 <= code && code <= 0xDBFF && len - next >= 2 {
                let lo = u16_at(data, next);
                assert(lo == le_u16(rest, 2));
                if 0xDC00 <= lo && lo <= 0xDFFF {
                    let c = pair_to_char(code, lo);
                    out.push(c);
                    next = next + 2;
                }
            } else {
                match char::from_u32(code as u32) {
                    Some(c) => {
                        out.push(c);
                    },
                    None => {},
                }
            }
        },
        CharType::ControlChar => {
            if code == 10 {
                out.push('\n');
            } else if code == 24 {
                out.push('-');
            } else if code == 30 || code == 31 {
                out.push(' ');
            }
        },
        CharType::ControlInline => {
            let skip: usize = if len - next < 14 {
                len - next
            } else {
                14
            };
            next = next + skip;
            if code == 9 {
                out.push('\t');
            }
        },
        CharType::ControlExtend => {
            let skip: usize = if len - next < 14 {
                len - next
            } else {
                14
            };
            next = next + skip;
            extend = Some(code);
        },
    }
    (next, extend)
}

/// Cuts the text of a paragraph at its extend controls.
///
/// Each extend control closes a segment, so that the segments with
/// `has_control_after` stand one to one for the objects of the paragraph, in
/// order. The last segment holds what follows the last control.
pub fn extract_text_segments(data: &[u8]) -> (r: Vec<TextSegment>)
    ensures
        segment_views(r@) == segments_of(data@),
        count_with_control(segment_views(r@)) == extend_codes_of(data@).len(),
{
    let len = data.len();
    let mut segments: Vec<TextSegment> = Vec::new();
    let mut current = String::new();
    let mut pos: usize = 0;
    assert(data@.skip(0) == data@);

    while len - pos >= 2
        invariant
            pos <= len == data@.len(),
            segments_of(data@) == segment_views(segments@) + segments_after(
                data@.skip(pos as int),
                current@,
            ),
        decreases len - pos,
    {
        let ghost rest = data@.skip(pos as int);
        let ghost before = current@;
        let (next, extend) = read_unit(data, pos, &mut current);
        assert(rest.skip(unit_len(rest)) == data@.skip(next as int));
        pos = next;
        if extend.is_some() {
            assert(current@ == before);
            let segment = TextSegment { text: current, has_control_after: true };
            proof {
                let tail = segments_after(data@.skip(pos as int), Seq::empty());
                assert(segment_views(segments@) + (seq![segment@] + tail) == segment_views(
                    segments@.push(segment),
                ) + tail);
            }
            segments.push(segment);
            current = String::new();
        }
    }
    let segment = TextSegment { text: current, has_control_after: false };
    proof {
        assert(segment_views(segments@) + seq![segment@] == segment_views(
            segments@.push(segment),
        ));
        lemma_segments_match_controls(data@, Seq::empty());
    }
    segments.push(segment);
    segments
}

/// Reads the text of a paragraph. Returns the text, with every control taken
/// out or replaced, and the codes of its extend controls, in order.
pub fn extract_text(data: &[u8]) -> (r: (String, Vec<u16>))
    ensures
        r.0@ == text_of(data@),
        r.1@ == extend_codes_of(data@),
{
    let len = data.len();
    let mut text = String::new();
    let mut controls: Vec<u16> = Vec::new();
    let mut pos: usize = 0;
    assert(data@.skip(0) == data@);

    while len - pos >= 2
        invariant
            pos <= len == data@.len(),
            text_of(data@) == text@ + text_of(data@.skip(pos as int)),
            extend_codes_of(data@) == controls@ + extend_codes_of(data@.skip(pos as int)),
        decreases len - pos,
    {
        let ghost rest = data@.skip(pos as int);
        let ghost before = text@;
        let (next, extend) = read_unit(data, pos, &mut text);
        assert(rest.skip(unit_len(rest)) == data@.skip(next as int));
        proof {
            let tail = text_of(data@.skip(next as int));
            assert(before + (unit_chars(rest) + tail) == (before + unit_chars(rest)) + tail);
        }
        pos = next;
        match extend {
            Some(code) => {
                proof {
                    let tail = extend_codes_of(data@.skip(pos as int));
                    assert(controls@ + (seq![code] + tail) == controls@.push(code) + tail);
                }
                controls.push(code);
            },
            None => {},
        }
    }
    assert(text@ + Seq::<char>::empty() == text@);
    assert(controls@ + Seq::<u16>::empty() == controls@);
    (text, controls)
}

/// The segments that an extend control follows are as many as the extend
/// controls of the text.
pub proof fn lemma_segments_match_controls(b: Seq<u8>, current: Seq<char>)
    ensures
        count_with_control(segments_after(b, current)) == extend_codes_of(b).len(),
        segments_after(b, current).len() == extend_codes_of(b).len() + 1,
        !segments_after(b, current).last().has_control_after,
    decreases b.len(),
{
    if b.len() < 2 {
        let only = segments_after(b, current);
        assert(only.skip(1).len() == 0);
        assert(count_with_control(only.skip(1)) == 0);
    } else if starts_with_extend(b) {
        let rest = b.skip(unit_len(b));
        lemma_segments_match_controls(rest, Seq::empty());
        let all = segments_after(b, current);
        assert(all.skip(1) == segments_after(rest, Seq::empty()));
    } else {
        lemma_segments_match_controls(b.skip(unit_len(b)), current + unit_chars(b));
    }
}

/// The texts of the segments, one after the other, are the text of the
/// paragraph: cutting the text at its extend controls loses nothing.
pub proof fn lemma_segments_hold_the_text(b: Seq<u8>, current: Seq<char>)
    ensures
        joined_text(segments_after(b, current)) == current + text_of(b),
    decreases b.len(),
{
    if b.len() < 2 {
        let only = segments_after(b, current);
        assert(only.skip(1).len() == 0);
        assert(joined_text(only.skip(1)) == Seq::<char>::empty());
        assert(current + Seq::<char>::empty() == current);
    } else if starts_with_extend(b) {
        let rest = b.skip(unit_len(b));
        lemma_segments_hold_the_text(rest, Seq::empty());
        let all = segments_after(b, current);
        assert(all.skip(1) == segments_after(rest, Seq::empty()));
        assert(Seq::<char>::empty() + text_of(rest) == text_of(rest));
        assert(unit_chars(b) + text_of(rest) == text_of(rest));
    } else {
        let rest = b.skip(unit_len(b));
        lemma_segments_hold_the_text(rest, current + unit_chars(b));
        assert((current + unit_chars(b)) + text_of(rest) == current + (unit_chars(b)
            + text_of(rest)));
    }
}

/// Whether the character `c` passes through the text of a paragraph
/// unchanged: every character above 31, and the line break.
pub open spec fn passes_unchanged(c: char) -> bool {
    c as int > 31 || c == '\n'
}

/// The bytes of two runs of code units, one after the other.
proof fn lemma_le_bytes_of_concat(x: Seq<u16>, y: Seq<u16>)
    ensures
        le_bytes(x + y) == le_bytes(x) + le_bytes(y),
{
    let whole = le_bytes(x + y);
    let parts = le_bytes(x) + le_bytes(y);
    assert(whole.len() == parts.len());
    assert forall|i: int| 0 <= i < whole.len() implies whole[i] == parts[i] by {
        if i < 2 * x.len() {
            assert((x + y)[i / 2] == x[i / 2]);
        } else {
            let j = i - 2 * x.len();
            assert(i / 2 == j / 2 + x.len());
            assert(i % 2 == j % 2);
            assert((x + y)[i / 2] == y[j / 2]);
        }
    }
}

/// The first unit of the encoding of a character that passes unchanged is
/// that character, and nothing else.
proof fn lemma_first_unit_of_char(c: char, rest: Seq<u8>)
    requires
        passes_unchanged(c),
    ensures
        ({
            let b = le_bytes(encode_char(c)) + rest;
            &&& b.len() >= 2
            &&& unit_chars(b) == seq![c]
            &&& !starts_with_extend(b)
            &&& b.skip(unit_len(b)) == rest
        }),
{
    let head = le_bytes(encode_char(c));
    let b = head + rest;
    let code = c as int;
    if code < 0x1_0000 {
        assert(head.len() == 2);
        assert(b[0] == head[0] && b[1] == head[1]);
        assert(le_u16(b, 0) == code);
        assert(b.skip(2) == rest);
    } else {
        let hi = 0xD800 + (code - 0x1_0000) / 0x400;
        let lo = 0xDC00 + (code - 0x1_0000) % 0x400;
        assert(head.len() == 4);
        assert(b[0] == head[0] && b[1] == head[1] && b[2] == head[2] && b[3] == head[3]);
        assert(encode_char(c)[0] == hi && encode_char(c)[1] == lo);
        assert(le_u16(b, 0) == hi);
        assert(le_u16(b, 2) == lo);
        assert(pair_scalar(hi, lo) == code);
        assert(b.skip(4) == rest);
    }
}

/// Text that is encoded as UTF-16 and read as the text of a paragraph comes
/// back unchanged, as one segment without an extend control, where each of
/// its characters passes unchanged.
pub proof fn lemma_utf16_text_round_trip(s: Seq<char>, current: Seq<char>)
    requires
        forall|i: int| 0 <= i < s.len() ==> passes_unchanged(#[trigger] s[i]),
    ensures
        text_of(le_bytes(encode_utf16(s))) == s,
        extend_codes_of(le_bytes(encode_utf16(s))) == Seq::<u16>::empty(),
        segments_after(le_bytes(encode_utf16(s)), current) == seq![
            SegmentModel { text: current + s, has_control_after: false },
        ],
    decreases s.len(),
{
    let b = le_bytes(encode_utf16(s));
    if s.len() == 0 {
        assert(b.len() == 0);
        assert(current + s == current);
    } else {
        let tail = s.skip(1);
        let rest = le_bytes(encode_utf16(tail));
        lemma_le_bytes_of_concat(encode_char(s[0]), encode_utf16(tail));
        assert(b == le_bytes(encode_char(s[0])) + rest);
        lemma_first_unit_of_char(s[0], rest);
        assert forall|i: int| 0 <= i < tail.len() implies passes_unchanged(
            #[trigger] tail[i],
        ) by {
            assert(tail[i] == s[i + 1]);
        }
        lemma_utf16_text_round_trip(tail, current + seq![s[0]]);
        assert(seq![s[0]] + tail == s);
        assert((current + seq![s[0]]) + tail == current + s);
    }
}

} // verus!
