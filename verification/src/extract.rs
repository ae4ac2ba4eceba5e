//! The text of a section.
//!
//! The records of a section are a tree, written down in pre-order with the
//! depth of each node in its `level`. A paragraph is a `PARA_HEADER` with
//! what follows it up to the next paragraph of its level. Its text stands in
//! the `PARA_TEXT` record one level below it, and each extend control of
//! that text stands for the sub-tree of one `CTRL_HEADER` record of the
//! paragraph, in order. The text of a section is the text of its
//! paragraphs, with the text of each sub-tree set in where the control
//! stands: a table as a Markdown table, everything else as the text of the
//! paragraph lists and equations in it.

use vstd::prelude::*;
use vstd::slice::slice_subrange;
use crate::bytes::{le_u16, read_u16_le, u16_at};
use crate::hwp::control::{ctrl_id_in, read_ctrl_id, CTRL_TABLE};
use crate::hwp::para_text::{extract_text_segments, segment_views, segments_of, SegmentModel};
use crate::hwp::record::{
    models,
    Record,
    RecordModel,
    HWPTAG_CTRL_HEADER,
    HWPTAG_EQEDIT,
    HWPTAG_LIST_HEADER,
    HWPTAG_PARA_HEADER,
    HWPTAG_PARA_TEXT,
    HWPTAG_TABLE,
};
use crate::markdown::{cell_views, format_markdown_table, table_markdown};
use crate::utf16::{decode_utf16, decode_utf16_le, le_units};

verus! {

/// The script of the equation whose `EQEDIT` body is `data`: after four
/// bytes of properties a 16-bit count of code units, then that many UTF-16
/// code units. There is none where the body is shorter than it says, or
/// where the code units are no valid UTF-16.
pub open spec fn eqedit_script(data: Seq<u8>) -> Option<Seq<char>> {
    if data.len() < 6 {
        None
    } else if le_u16(data, 4) == 0 {
        Some(Seq::empty())
    } else if data.len() - 6 < 2 * le_u16(data, 4) {
        None
    } else {
        decode_utf16(le_units(data.subrange(6, 6 + 2 * le_u16(data, 4))))
    }
}

/// Reads the script of an equation from the body of its `EQEDIT` record.
pub fn extract_eqedit_script(data: &[u8]) -> (r: Option<String>)
    ensures
        match eqedit_script(data@) {
            Some(script) => r matches Some(s) && s@ == script,
            None => r is None,
        },
{
    if data.len() < 6 {
        return None;
    }
    let tail = slice_subrange(data, 4, data.len());
    let char_count = read_u16_le(tail) as usize;
    assert(char_count == le_u16(data@, 4));
    if char_count == 0 {
        return Some(String::new());
    }
    let remaining = data.len() - 6;
    if remaining / 2 < char_count {
        return None;
    }
    let byte_count = char_count * 2;
    decode_utf16_le(slice_subrange(data, 6, 6 + byte_count))
}

/// The rows and columns of the table whose `TABLE` body is `data`: two
/// 16-bit integers at offset 4.
pub open spec fn table_dimensions(data: Seq<u8>) -> Option<(u16, u16)> {
    if data.len() < 8 {
        None
    } else {
        Some((le_u16(data, 4) as u16, le_u16(data, 6) as u16))
    }
}

/// Reads the rows and columns of a table from the body of its `TABLE`
/// record.
pub fn parse_table_dimensions(data: &[u8]) -> (r: Option<(u16, u16)>)
    ensures
        r == table_dimensions(data@),
{
    if data.len() < 8 {
        return None;
    }
    let rows = u16_at(data, 4);
    let cols = u16_at(data, 6);
    Some((rows, cols))
}

/// The place of the cell whose `LIST_HEADER` body is `data`: column, row,
/// column span and row span, four 16-bit integers at offset 8.
pub open spec fn cell_position(data: Seq<u8>) -> Option<(u16, u16, u16, u16)> {
    if data.len() < 16 {
        None
    } else {
        Some(
            (
                le_u16(data, 8) as u16,
                le_u16(data, 10) as u16,
                le_u16(data, 12) as u16,
                le_u16(data, 14) as u16,
            ),
        )
    }
}

/// Reads the place of a cell from the body of its `LIST_HEADER` record.
pub fn parse_cell_position(data: &[u8]) -> (r: Option<(u16, u16, u16, u16)>)
    ensures
        r == cell_position(data@),
{
    if data.len() < 16 {
        return None;
    }
    let col = u16_at(data, 8);
    let row = u16_at(data, 10);
    let col_span = u16_at(data, 12);
    let row_span = u16_at(data, 14);
    Some((col, row, col_span, row_span))
}

/// Whether the record `r` ends a paragraph of level `level`: the next
/// paragraph of that level, or anything above it.
pub open spec fn ends_paragraph(r: RecordModel, level: int) -> bool {
    (r.tag_id == HWPTAG_PARA_HEADER && r.level == level) || r.level < level
}

/// Where the sub-tree ends whose records below its head start at `from`: at
/// the first record from there on that is not deeper than `level`, the level
/// of the head.
pub open spec fn subtree_end(recs: Seq<RecordModel>, from: int, level: int) -> int
    decreases recs.len() - from,
{
    if from < 0 || from >= recs.len() || recs[from].level <= level {
        from
    } else {
        subtree_end(recs, from + 1, level)
    }
}

/// What a paragraph holds.
#[verifier::ext_equal]
pub struct ParagraphParts {
    /// The index of the paragraph's `PARA_TEXT` record.
    pub text_at: Option<int>,
    /// The sub-trees of the paragraph's controls, each from the index of its
    /// `CTRL_HEADER` to the index behind its last record.
    pub subtrees: Seq<(int, int)>,
    /// The scripts of the paragraph's own equations.
    pub equations: Seq<Seq<char>>,
    /// The index behind the last record of the paragraph.
    pub end: int,
}

/// The parts of a paragraph before any of its records is read.
pub open spec fn no_parts() -> ParagraphParts {
    ParagraphParts { text_at: None, subtrees: Seq::empty(), equations: Seq::empty(), end: 0 }
}

/// The parts of the paragraph of level `level`, read from the record at
/// `scan` on, where `found` holds what the records before it gave.
///
/// The paragraph ends at the end of the records or before the first record
/// that ends it. A `PARA_TEXT` one level below the paragraph is its text (the
/// last one, where there are several). A `CTRL_HEADER` one level below it
/// opens a sub-tree, which is passed over as a whole. An `EQEDIT` that
/// stands in none of these sub-trees gives a script, unless the script is
/// missing or empty.
pub open spec fn scan_paragraph(
    recs: Seq<RecordModel>,
    scan: int,
    level: int,
    found: ParagraphParts,
) -> ParagraphParts
    decreases recs.len() - scan,
{
    if scan < 0 || scan >= recs.len() || ends_paragraph(recs[scan], level) {
        ParagraphParts { end: scan, ..found }
    } else if recs[scan].tag_id == HWPTAG_PARA_TEXT && recs[scan].level == level + 1 {
        scan_paragraph(recs, scan + 1, level, ParagraphParts { text_at: Some(scan), ..found })
    } else if recs[scan].tag_id == HWPTAG_CTRL_HEADER && recs[scan].level == level + 1 {
        proof {
            lemma_subtree_end_bounds(recs, scan + 1, level + 1);
        }
        let end = subtree_end(recs, scan + 1, level + 1);
        scan_paragraph(
            recs,
            end,
            level,
            ParagraphParts { subtrees: found.subtrees.push((scan, end)), ..found },
        )
    } else if recs[scan].tag_id == HWPTAG_EQEDIT && recs[scan].level > level {
        match eqedit_script(recs[scan].data) {
            Some(script) => if script.len() > 0 {
                scan_paragraph(
                    recs,
                    scan + 1,
                    level,
                    ParagraphParts { equations: found.equations.push(script), ..found },
                )
            } else {
                scan_paragraph(recs, scan + 1, level, found)
            },
            None => scan_paragraph(recs, scan + 1, level, found),
        }
    } else {
        scan_paragraph(recs, scan + 1, level, found)
    }
}

/// A sub-tree ends at or behind the place where its records start, and not
/// behind the end of the records.
pub proof fn lemma_subtree_end_bounds(recs: Seq<RecordModel>, from: int, level: int)
    ensures
        from <= subtree_end(recs, from, level),
        0 <= from <= recs.len() ==> subtree_end(recs, from, level) <= recs.len(),
    decreases recs.len() - from,
{
    if !(from < 0 || from >= recs.len() || recs[from].level <= level) {
        lemma_subtree_end_bounds(recs, from + 1, level);
    }
}

/// The parts of the paragraph of level `level` whose header stands at `pos`.
pub open spec fn paragraph_parts(recs: Seq<RecordModel>, pos: int, level: int) -> ParagraphParts {
    scan_paragraph(recs, pos + 1, level, no_parts())
}

/// A paragraph ends behind its header and not behind the end of the
/// records, and each of its sub-trees lies inside it: the sub-tree's
/// `CTRL_HEADER` stands behind the paragraph's header, and the sub-tree ends
/// behind it.
pub proof fn lemma_scan_bounds(
    recs: Seq<RecordModel>,
    scan: int,
    level: int,
    found: ParagraphParts,
)
    requires
        0 <= scan <= recs.len(),
        forall|k: int|
            0 <= k < found.subtrees.len() ==> (#[trigger] found.subtrees[k]).0
                < found.subtrees[k].1 <= scan,
        found.text_at matches Some(t) ==> 0 <= t < scan,
    ensures
        ({
            let parts = scan_paragraph(recs, scan, level, found);
            &&& scan <= parts.end <= recs.len()
            &&& parts.subtrees.len() >= found.subtrees.len()
            &&& forall|k: int|
                0 <= k < found.subtrees.len() ==> parts.subtrees[k] == found.subtrees[k]
            &&& forall|k: int|
                found.subtrees.len() <= k < parts.subtrees.len() ==> scan <= (
                #[trigger] parts.subtrees[k]).0 < parts.subtrees[k].1 <= parts.end
            &&& forall|k: int|
                0 <= k < parts.subtrees.len() ==> (#[trigger] parts.subtrees[k]).0
                    < parts.subtrees[k].1 <= parts.end
            &&& parts.text_at matches Some(t) ==> 0 <= t < parts.end
            &&& found.text_at is Some ==> parts.text_at is Some
        }),
    decreases recs.len() - scan,
{
    if scan >= recs.len() || ends_paragraph(recs[scan], level) {
    } else if recs[scan].tag_id == HWPTAG_PARA_TEXT && recs[scan].level == level + 1 {
        lemma_scan_bounds(
            recs,
            scan + 1,
            level,
            ParagraphParts { text_at: Some(scan), ..found },
        );
    } else if recs[scan].tag_id == HWPTAG_CTRL_HEADER && recs[scan].level == level + 1 {
        lemma_subtree_end_bounds(recs, scan + 1, level + 1);
        let end = subtree_end(recs, scan + 1, level + 1);
        let next = ParagraphParts { subtrees: found.subtrees.push((scan, end)), ..found };
        lemma_scan_bounds(recs, end, level, next);
        let parts = scan_paragraph(recs, end, level, next);
        let added = found.subtrees.len() as int;
        assert(parts.subtrees[added] == next.subtrees[added]);
    } else if recs[scan].tag_id == HWPTAG_EQEDIT && recs[scan].level > level {
        match eqedit_script(recs[scan].data) {
            Some(script) => if script.len() > 0 {
                lemma_scan_bounds(
                    recs,
                    scan + 1,
                    level,
                    ParagraphParts { equations: found.equations.push(script), ..found },
                );
            } else {
                lemma_scan_bounds(recs, scan + 1, level, found);
            },
            None => {
                lemma_scan_bounds(recs, scan + 1, level, found);
            },
        }
    } else {
        lemma_scan_bounds(recs, scan + 1, level, found);
    }
}

/// The index behind the last record of the paragraph of level `level` whose
/// header stands at `pos`.
pub open spec fn paragraph_end(recs: Seq<RecordModel>, pos: int, level: int) -> int {
    paragraph_parts(recs, pos, level).end
}

/// `next`, but not more than `end`.
pub open spec fn at_most(next: int, end: int) -> int {
    if next > end {
        end
    } else {
        next
    }
}

/// Whether the record at `pos` is the header of a paragraph of level `level`.
pub open spec fn is_paragraph_at(recs: Seq<RecordModel>, pos: int, level: int) -> bool {
    recs[pos].tag_id == HWPTAG_PARA_HEADER && recs[pos].level == level
}

/// Where the list of paragraphs of level `base` ends that is read from `pos`
/// on and may not start a paragraph at or behind `end`: at `end`, or at the
/// first record above the level.
pub open spec fn para_list_end(recs: Seq<RecordModel>, pos: int, base: int, end: int) -> int
    decreases end - pos,
{
    if pos < 0 || pos >= end || end > recs.len() || recs[pos].level < base {
        pos
    } else if is_paragraph_at(recs, pos, base) {
        proof {
            lemma_scan_bounds(recs, pos + 1, base, no_parts());
        }
        para_list_end(recs, at_most(paragraph_end(recs, pos, base), end), base, end)
    } else {
        para_list_end(recs, pos + 1, base, end)
    }
}

/// A list of paragraphs ends at or behind its start, and not behind `end`.
pub proof fn lemma_para_list_end_bounds(recs: Seq<RecordModel>, pos: int, base: int, end: int)
    requires
        0 <= pos <= end <= recs.len(),
    ensures
        pos <= para_list_end(recs, pos, base, end) <= end,
    decreases end - pos,
{
    if pos >= end || recs[pos].level < base {
    } else if is_paragraph_at(recs, pos, base) {
        lemma_scan_bounds(recs, pos + 1, base, no_parts());
        lemma_para_list_end_bounds(
            recs,
            at_most(paragraph_end(recs, pos, base), end),
            base,
            end,
        );
    } else {
        lemma_para_list_end_bounds(recs, pos + 1, base, end);
    }
}

/// The index of the first record from `from` up to `end` that has the tag
/// `tag`, or `end` where none has it.
pub open spec fn first_with_tag(recs: Seq<RecordModel>, from: int, end: int, tag: u16) -> int
    decreases end - from,
{
    if from < 0 || from >= end {
        end
    } else if recs[from].tag_id == tag {
        from
    } else {
        first_with_tag(recs, from + 1, end, tag)
    }
}

/// The indices of the `LIST_HEADER` records of level `level` from `from` up
/// to `end`, in order.
pub open spec fn list_headers(recs: Seq<RecordModel>, from: int, end: int, level: int) -> Seq<int>
    decreases end - from,
{
    if from < 0 || from >= end {
        Seq::empty()
    } else if recs[from].tag_id == HWPTAG_LIST_HEADER && recs[from].level == level {
        seq![from] + list_headers(recs, from + 1, end, level)
    } else {
        list_headers(recs, from + 1, end, level)
    }
}

/// The headers of a list stand between `from` and `end`, in rising order.
pub proof fn lemma_list_headers_bounds(recs: Seq<RecordModel>, from: int, end: int, level: int)
    requires
        0 <= from,
    ensures
        forall|k: int|
            0 <= k < list_headers(recs, from, end, level).len() ==> from <= (
            #[trigger] list_headers(recs, from, end, level)[k]) < end,
        forall|k: int|
            0 <= k && k + 1 < list_headers(recs, from, end, level).len() ==> (
            #[trigger] list_headers(recs, from, end, level)[k]) < list_headers(
                recs,
                from,
                end,
                level,
            )[k + 1],
    decreases end - from,
{
    if from < end {
        lemma_list_headers_bounds(recs, from + 1, end, level);
        let rest = list_headers(recs, from + 1, end, level);
        if recs[from].tag_id == HWPTAG_LIST_HEADER && recs[from].level == level {
            let all = list_headers(recs, from, end, level);
            assert forall|k: int| 0 <= k < all.len() implies from <= (#[trigger] all[k]) < end by {
                if k > 0 {
                    assert(all[k] == rest[k - 1]);
                }
            }
            assert forall|k: int| 0 <= k && k + 1 < all.len() implies (#[trigger] all[k]) < all[k
                + 1] by {
                assert(all[k + 1] == rest[k]);
                if k > 0 {
                    assert(all[k] == rest[k - 1]);
                }
            }
        }
    }
}

/// The index of the table's `TABLE` record: the first one in the sub-tree
/// from `start` to `end`, or `end` where it has none.
pub open spec fn table_record(recs: Seq<RecordModel>, start: int, end: int) -> int {
    first_with_tag(recs, start + 1, end, HWPTAG_TABLE)
}

/// The indices of the `LIST_HEADER` records that open the cells of the table
/// in the sub-tree from `start` to `end`: those behind the `TABLE` record
/// that stand one level below the table's `CTRL_HEADER`.
pub open spec fn cell_headers(recs: Seq<RecordModel>, start: int, end: int) -> Seq<int> {
    list_headers(recs, table_record(recs, start, end) + 1, end, recs[start].level + 1)
}

/// Where the cell ends that the `k`-th of `headers` opens: at the next
/// header, or at `end` for the last one.
pub open spec fn cell_end(headers: Seq<int>, k: int, end: int) -> int {
    if k + 1 < headers.len() {
        headers[k + 1]
    } else {
        end
    }
}

/// The column and row of the `k`-th cell of a table of `cols` columns, whose
/// `LIST_HEADER` body is `data`: what the body says, or, where it is too
/// short to say it, the place that the cell has when the cells are counted
/// row by row.
pub open spec fn cell_place(data: Seq<u8>, k: int, cols: u16) -> (u16, u16) {
    match cell_position(data) {
        Some((col, row, _, _)) => (col, row),
        None => (((k % 0x1_0000) % (cols as int)) as u16, ((k % 0x1_0000) / (cols as int)) as u16),
    }
}

/// The scripts `scripts`, each followed by a line break.
pub open spec fn equations_text(scripts: Seq<Seq<char>>) -> Seq<char>
    decreases scripts.len(),
{
    if scripts.len() == 0 {
        Seq::empty()
    } else {
        equations_text(scripts.drop_last()) + scripts.last() + seq!['\n']
    }
}

/// The script of the equation whose `EQEDIT` body is `data`, followed by a
/// line break, or nothing where the script is missing or empty.
pub open spec fn equation_line(data: Seq<u8>) -> Seq<char> {
    match eqedit_script(data) {
        Some(script) => if script.len() > 0 {
            script + seq!['\n']
        } else {
            Seq::empty()
        },
        None => Seq::empty(),
    }
}

/// The text of the list of paragraphs of level `base` that is read from
/// `pos` on and may not start a paragraph at or behind `end`. A record that
/// opens no paragraph of the level is passed over, and a record above the
/// level ends the list.
pub open spec fn para_list_text(recs: Seq<RecordModel>, pos: int, base: int, end: int) -> Seq<char>
    decreases recs.len() - pos, 2int, 0int,
{
    if pos < 0 || pos >= end || end > recs.len() || recs[pos].level < base {
        Seq::empty()
    } else if is_paragraph_at(recs, pos, base) {
        proof {
            lemma_scan_bounds(recs, pos + 1, base, no_parts());
        }
        paragraph_text(recs, pos, base) + para_list_text(
            recs,
            at_most(paragraph_end(recs, pos, base), end),
            base,
            end,
        )
    } else {
        para_list_text(recs, pos + 1, base, end)
    }
}

/// The text of the paragraph of level `level` whose header stands at `pos`:
/// two line breaks where it has no text record; else its segments with the
/// sub-trees of its controls woven in, then its own equations, each on a
/// line, then a line break.
pub open spec fn paragraph_text(recs: Seq<RecordModel>, pos: int, level: int) -> Seq<char>
    decreases recs.len() - pos, 1int, 0int,
{
    if pos < 0 || pos >= recs.len() {
        Seq::empty()
    } else {
        match paragraph_parts(recs, pos, level).text_at {
            None => seq!['\n', '\n'],
            Some(t) => woven_text(recs, pos, level, segments_of(recs[t].data), 0, 0)
                + equations_text(paragraph_parts(recs, pos, level).equations) + seq!['\n'],
        }
    }
}

/// The segments of a paragraph from the `si`-th on, with the paragraph's
/// sub-trees from the `ci`-th on woven in: behind each segment that an
/// extend control follows stands the text of the next sub-tree, as long as
/// there is one, and the sub-trees that are left over follow the last
/// segment.
pub open spec fn woven_text(
    recs: Seq<RecordModel>,
    pos: int,
    level: int,
    segments: Seq<SegmentModel>,
    si: int,
    ci: int,
) -> Seq<char>
    decreases recs.len() - pos, 0int, if 0 <= si <= segments.len() && 0 <= ci <= paragraph_parts(
        recs,
        pos,
        level,
    ).subtrees.len() {
        (segments.len() - si) + (paragraph_parts(recs, pos, level).subtrees.len() - ci)
    } else {
        0
    },
{
    let subtrees = paragraph_parts(recs, pos, level).subtrees;
    if pos < 0 || pos >= recs.len() || si < 0 || ci < 0 || si > segments.len() || ci
        > subtrees.len() {
        Seq::empty()
    } else if si < segments.len() {
        if segments[si].has_control_after && ci < subtrees.len() {
            proof {
                lemma_scan_bounds(recs, pos + 1, level, no_parts());
            }
            segments[si].text + subtree_text(recs, subtrees[ci].0, subtrees[ci].1) + woven_text(
                recs,
                pos,
                level,
                segments,
                si + 1,
                ci + 1,
            )
        } else {
            segments[si].text + woven_text(recs, pos, level, segments, si + 1, ci)
        }
    } else if ci < subtrees.len() {
        proof {
            lemma_scan_bounds(recs, pos + 1, level, no_parts());
        }
        subtree_text(recs, subtrees[ci].0, subtrees[ci].1) + woven_text(
            recs,
            pos,
            level,
            segments,
            si,
            ci + 1,
        )
    } else {
        Seq::empty()
    }
}

/// The text of the sub-tree of a control, from its `CTRL_HEADER` at `start`
/// to the index `end` behind its last record: a Markdown table for a table,
/// and what the records below the header give one by one for any other
/// control.
pub open spec fn subtree_text(recs: Seq<RecordModel>, start: int, end: int) -> Seq<char>
    decreases recs.len() - start, 6int, 0int,
{
    if start < 0 || start >= end || end > recs.len() {
        Seq::empty()
    } else if ctrl_id_in(recs[start].data) == Some(CTRL_TABLE) {
        table_text(recs, start, end)
    } else {
        linear_text(recs, start + 1, end)
    }
}

/// What the records from `i` up to `end` give one by one: a `LIST_HEADER`
/// that a paragraph follows gives the list of paragraphs of that
/// paragraph's level, an `EQEDIT` gives its script on a line, and any other
/// record gives nothing.
pub open spec fn linear_text(recs: Seq<RecordModel>, i: int, end: int) -> Seq<char>
    decreases recs.len() - i, 3int, 0int,
{
    if i < 0 || i >= end || end > recs.len() {
        Seq::empty()
    } else if recs[i].tag_id == HWPTAG_LIST_HEADER {
        if i + 1 < end && recs[i + 1].tag_id == HWPTAG_PARA_HEADER {
            proof {
                lemma_para_list_end_bounds(recs, i + 1, recs[i + 1].level as int, end);
            }
            para_list_text(recs, i + 1, recs[i + 1].level as int, end) + linear_text(
                recs,
                para_list_end(recs, i + 1, recs[i + 1].level as int, end),
                end,
            )
        } else {
            linear_text(recs, i + 1, end)
        }
    } else if recs[i].tag_id == HWPTAG_EQEDIT {
        equation_line(recs[i].data) + linear_text(recs, i + 1, end)
    } else {
        linear_text(recs, i + 1, end)
    }
}

/// The text of the cell that the `LIST_HEADER` at `header` opens and that
/// ends at `end`: the list of paragraphs behind the header, where a
/// paragraph follows it.
pub open spec fn cell_text(recs: Seq<RecordModel>, header: int, end: int) -> Seq<char>
    decreases recs.len() - header, 3int, 0int,
{
    if header < 0 || header + 1 >= end || end > recs.len() || recs[header + 1].tag_id
        != HWPTAG_PARA_HEADER {
        Seq::empty()
    } else {
        para_list_text(recs, header + 1, recs[header + 1].level as int, end)
    }
}

/// The first `n` cells of the table in the sub-tree from `start` to `end`,
/// each with its column, its row and its text.
pub open spec fn table_cells(
    recs: Seq<RecordModel>,
    start: int,
    end: int,
    cols: u16,
    n: int,
) -> Seq<(u16, u16, Seq<char>)>
    decreases recs.len() - start, 4int, n,
{
    let headers = cell_headers(recs, start, end);
    if start < 0 || start >= end || end > recs.len() || n <= 0 || n > headers.len() {
        Seq::empty()
    } else {
        proof {
            lemma_list_headers_bounds(
                recs,
                table_record(recs, start, end) + 1,
                end,
                recs[start].level + 1,
            );
            lemma_first_with_tag_bounds(recs, start + 1, end, HWPTAG_TABLE);
        }
        let place = cell_place(recs[headers[n - 1]].data, n - 1, cols);
        table_cells(recs, start, end, cols, n - 1).push(
            (place.0, place.1, cell_text(recs, headers[n - 1], cell_end(headers, n - 1, end))),
        )
    }
}

/// The first record with a tag, if any, stands at or behind `from`.
pub proof fn lemma_first_with_tag_bounds(recs: Seq<RecordModel>, from: int, end: int, tag: u16)
    requires
        0 <= from <= end,
    ensures
        from <= first_with_tag(recs, from, end, tag) <= end,
        first_with_tag(recs, from, end, tag) < end ==> recs[first_with_tag(
            recs,
            from,
            end,
            tag,
        )].tag_id == tag,
    decreases end - from,
{
    if from < end && recs[from].tag_id != tag {
        lemma_first_with_tag_bounds(recs, from + 1, end, tag);
    }
}

/// The rows and columns of the table in the sub-tree from `start` to `end`,
/// where its first `TABLE` record gives them.
pub open spec fn table_size(recs: Seq<RecordModel>, start: int, end: int) -> Option<(u16, u16)> {
    if table_record(recs, start, end) < end {
        table_dimensions(recs[table_record(recs, start, end)].data)
    } else {
        None
    }
}

/// Whether the sub-tree from `start` to `end` holds a table that can be laid
/// out: a `TABLE` record that gives at least one row and one column, and
/// behind it at least one cell.
pub open spec fn has_grid(recs: Seq<RecordModel>, start: int, end: int) -> bool {
    table_size(recs, start, end) matches Some((rows, cols)) && rows > 0 && cols > 0
        && cell_headers(recs, start, end).len() > 0
}

/// The text of the sub-tree of a table: its cells as a Markdown table, or,
/// where the sub-tree holds no table that can be laid out, what its records
/// give one by one.
pub open spec fn table_text(recs: Seq<RecordModel>, start: int, end: int) -> Seq<char>
    decreases recs.len() - start, 5int, 0int,
{
    if start < 0 || start >= end || end > recs.len() {
        Seq::empty()
    } else {
        match table_size(recs, start, end) {
            Some((rows, cols)) => if has_grid(recs, start, end) {
                table_markdown(
                    table_cells(
                        recs,
                        start,
                        end,
                        cols,
                        cell_headers(recs, start, end).len() as int,
                    ),
                    rows as int,
                    cols as int,
                )
            } else {
                linear_text(recs, start + 1, end)
            },
            None => linear_text(recs, start + 1, end),
        }
    }
}

/// The text of the section whose records are `recs`: the list of its
/// paragraphs of level 0.
pub open spec fn section_text(recs: Seq<RecordModel>) -> Seq<char> {
    para_list_text(recs, 0, 0, recs.len() as int)
}

/// Index ranges as mathematical values.
pub open spec fn ranges_view(ranges: Seq<(usize, usize)>) -> Seq<(int, int)> {
    Seq::new(ranges.len(), |i: int| (ranges[i].0 as int, ranges[i].1 as int))
}

/// Indices as mathematical values.
pub open spec fn indices_view(indices: Seq<usize>) -> Seq<int> {
    Seq::new(indices.len(), |i: int| indices[i] as int)
}

/// Strings as mathematical values.
pub open spec fn strings_view(strings: Seq<String>) -> Seq<Seq<char>> {
    Seq::new(strings.len(), |i: int| strings[i]@)
}

/// The parts that a scan has found so far.
pub open spec fn parts_view(
    text_at: Option<usize>,
    subtrees: Seq<(usize, usize)>,
    equations: Seq<String>,
) -> ParagraphParts {
    ParagraphParts {
        text_at: match text_at {
            Some(t) => Some(t as int),
            None => None,
        },
        subtrees: ranges_view(subtrees),
        equations: strings_view(equations),
        end: 0,
    }
}

/// Whether `rec` ends a paragraph of level `level`.
fn ends_paragraph_here(rec: &Record, level: u16) -> (r: bool)
    ensures
        r == ends_paragraph(rec@, level as int),
{
    (rec.header.tag_id == HWPTAG_PARA_HEADER && rec.header.level == level) || rec.header.level
        < level
}

/// Appends the text of a section to `text`.
///
/// The records are those of one section stream, in order. The text of each
/// paragraph of level 0 is appended, with the text of its tables, notes,
/// text boxes and equations where they stand in the paragraph.
pub fn extract_section_text(records: &[Record], text: &mut String)
    ensures
        final(text)@ == old(text)@ + section_text(models(records@)),
{
    let mut pos: usize = 0;
    extract_para_list(records, &mut pos, 0, text);
}

/// Appends the text of the list of paragraphs of level `base_level` that
/// starts at `pos`, and moves `pos` behind the list.
pub fn extract_para_list(records: &[Record], pos: &mut usize, base_level: u16, text: &mut String)
    requires
        *old(pos) <= records@.len(),
    ensures
        final(text)@ == old(text)@ + para_list_text(
            models(records@),
            *old(pos) as int,
            base_level as int,
            records@.len() as int,
        ),
        *final(pos) == para_list_end(
            models(records@),
            *old(pos) as int,
            base_level as int,
            records@.len() as int,
        ),
    decreases records@.len() - *old(pos), 3int, 0int,
{
    extract_para_list_bounded(records, pos, base_level, records.len(), text);
}

/// Appends the text of the list of paragraphs of level `base_level` that
/// starts at `pos` and starts no paragraph at or behind `end`, and moves
/// `pos` behind the list.
pub fn extract_para_list_bounded(
    records: &[Record],
    pos: &mut usize,
    base_level: u16,
    end: usize,
    text: &mut String,
)
    requires
        *old(pos) <= end <= records@.len(),
    ensures
        final(text)@ == old(text)@ + para_list_text(
            models(records@),
            *old(pos) as int,
            base_level as int,
            end as int,
        ),
        *final(pos) == para_list_end(
            models(records@),
            *old(pos) as int,
            base_level as int,
            end as int,
        ),
    decreases records@.len() - *old(pos), 2int, 0int,
{
    let ghost recs = models(records@);
    let ghost first = *pos as int;
    let ghost before = text@;
    assert(before + para_list_text(recs, first, base_level as int, end as int) == text@
        + para_list_text(recs, *pos as int, base_level as int, end as int));
    while *pos < end && records[*pos].header.level >= base_level
        invariant
            recs == models(records@),
            first == *old(pos),
            first <= *pos <= end <= records@.len(),
            before + para_list_text(recs, first, base_level as int, end as int) == text@
                + para_list_text(recs, *pos as int, base_level as int, end as int),
            para_list_end(recs, first, base_level as int, end as int) == para_list_end(
                recs,
                *pos as int,
                base_level as int,
                end as int,
            ),
        decreases end - *pos,
    {
        let ghost here = *pos as int;
        let ghost written = text@;
        if records[*pos].header.tag_id == HWPTAG_PARA_HEADER && records[*pos].header.level
            == base_level {
            proof {
                lemma_scan_bounds(recs, here + 1, base_level as int, no_parts());
            }
            extract_para(records, pos, base_level, text);
            if *pos > end {
                *pos = end;
            }
            proof {
                let rest = para_list_text(recs, *pos as int, base_level as int, end as int);
                assert(written + (paragraph_text(recs, here, base_level as int) + rest) == (
                written + paragraph_text(recs, here, base_level as int)) + rest);
            }
        } else {
            *pos = *pos + 1;
        }
    }
    assert(text@ + Seq::<char>::empty() == text@);
}

/// Appends the text of the paragraph of level `level` whose header stands
/// at `pos`, and moves `pos` behind the paragraph.
pub fn extract_para(records: &[Record], pos: &mut usize, level: u16, text: &mut String)
    requires
        *old(pos) < records@.len(),
    ensures
        final(text)@ == old(text)@ + paragraph_text(
            models(records@),
            *old(pos) as int,
            level as int,
        ),
        *final(pos) == paragraph_end(models(records@), *old(pos) as int, level as int),
    decreases records@.len() - *old(pos), 1int, 0int,
{
    let ghost recs = models(records@);
    let len = records.len();
    let start: usize = *pos;
    let child_level: u32 = level as u32 + 1;

    let mut text_at: Option<usize> = None;
    let mut subtrees: Vec<(usize, usize)> = Vec::new();
    let mut equations: Vec<String> = Vec::new();

    let mut scan: usize = start + 1;
    assert(parts_view(text_at, subtrees@, equations@) =~= no_parts());
    while scan < len && !ends_paragraph_here(&records[scan], level)
        invariant
            recs == models(records@),
            len == records@.len(),
            start < scan <= len,
            child_level == level + 1,
            paragraph_parts(recs, start as int, level as int) == scan_paragraph(
                recs,
                scan as int,
                level as int,
                parts_view(text_at, subtrees@, equations@),
            ),
            forall|k: int|
                0 <= k < subtrees@.len() ==> start < (#[trigger] subtrees@[k]).0 < subtrees@[k].1
                    <= scan,
            text_at matches Some(t) ==> t < scan,
        decreases len - scan,
    {
        let rec = &records[scan];
        let ghost found = parts_view(text_at, subtrees@, equations@);
        if rec.header.tag_id == HWPTAG_PARA_TEXT && rec.header.level as u32 == child_level {
            text_at = Some(scan);
            assert(parts_view(text_at, subtrees@, equations@) =~= ParagraphParts {
                text_at: Some(scan as int),
                ..found
            });
            scan = scan + 1;
        } else if rec.header.tag_id == HWPTAG_CTRL_HEADER && rec.header.level as u32
            == child_level {
            let ctrl_start = scan;
            let ctrl_level = rec.header.level;
            scan = scan + 1;
            while scan < len && records[scan].header.level > ctrl_level
                invariant
                    recs == models(records@),
                    len == records@.len(),
                    ctrl_start < scan <= len,
                    subtree_end(recs, ctrl_start + 1, ctrl_level as int) == subtree_end(
                        recs,
                        scan as int,
                        ctrl_level as int,
                    ),
                decreases len - scan,
            {
                scan = scan + 1;
            }
            subtrees.push((ctrl_start, scan));
            assert(parts_view(text_at, subtrees@, equations@) =~= ParagraphParts {
                subtrees: found.subtrees.push((ctrl_start as int, scan as int)),
                ..found
            });
        } else if rec.header.tag_id == HWPTAG_EQEDIT && rec.header.level > level {
            match extract_eqedit_script(rec.data.as_slice()) {
                Some(script) => {
                    if !script.as_str().is_empty() {
                        equations.push(script);
                        assert(parts_view(text_at, subtrees@, equations@) =~= ParagraphParts {
                            equations: found.equations.push(script@),
                            ..found
                        });
                    }
                },
                None => {},
            }
            scan = scan + 1;
        } else {
            scan = scan + 1;
        }
    }
    *pos = scan;

    let ghost parts = paragraph_parts(recs, start as int, level as int);
    assert(parts == ParagraphParts {
        end: scan as int,
        ..parts_view(text_at, subtrees@, equations@)
    });
    assert(parts.subtrees == ranges_view(subtrees@));
    assert(parts.equations == strings_view(equations@));

    let text_index = match text_at {
        Some(t) => t,
        None => {
            text.push_str("\n\n");
            proof {
                reveal_strlit("\n\n");
                assert("\n\n"@ == seq!['\n', '\n']);
            }
            return ;
        },
    };

    let segments = extract_text_segments(records[text_index].data.as_slice());
    let ghost segs = segments_of(recs[text_index as int].data);
    assert(segment_views(segments@) == segs);
    let ghost before = text@;

    let mut ctrl_idx: usize = 0;
    let mut si: usize = 0;
    while si < segments.len()
        invariant
            recs == models(records@),
            len == records@.len(),
            start < len,
            start == *old(pos),
            segs == segment_views(segments@),
            parts == paragraph_parts(recs, start as int, level as int),
            parts.subtrees == ranges_view(subtrees@),
            si <= segments@.len(),
            ctrl_idx <= subtrees@.len(),
            forall|k: int|
                0 <= k < subtrees@.len() ==> start < (#[trigger] subtrees@[k]).0 < subtrees@[k].1
                    <= len,
            before + woven_text(recs, start as int, level as int, segs, 0, 0) == text@
                + woven_text(recs, start as int, level as int, segs, si as int, ctrl_idx as int),
        decreases segments@.len() - si,
    {
        let ghost written = text@;
        let ghost piece = segs[si as int].text;
        assert(segments@[si as int]@ == segs[si as int]);
        text.push_str(segments[si].text.as_str());
        if segments[si].has_control_after && ctrl_idx < subtrees.len() {
            let (sub_start, sub_end) = subtrees[ctrl_idx];
            assert(parts.subtrees[ctrl_idx as int] == (sub_start as int, sub_end as int));
            extract_ctrl_subtree(records, sub_start, sub_end, text);
            proof {
                let rest = woven_text(
                    recs,
                    start as int,
                    level as int,
                    segs,
                    si + 1,
                    ctrl_idx + 1,
                );
                let sub = subtree_text(recs, sub_start as int, sub_end as int);
                assert(written + (piece + sub + rest) == ((written + piece) + sub) + rest);
            }
            ctrl_idx = ctrl_idx + 1;
        } else {
            proof {
                let rest = woven_text(
                    recs,
                    start as int,
                    level as int,
                    segs,
                    si + 1,
                    ctrl_idx as int,
                );
                assert(written + (piece + rest) == (written + piece) + rest);
            }
        }
        si = si + 1;
    }

    while ctrl_idx < subtrees.len()
        invariant
            recs == models(records@),
            len == records@.len(),
            start < len,
            start == *old(pos),
            parts == paragraph_parts(recs, start as int, level as int),
            parts.subtrees == ranges_view(subtrees@),
            si == segs.len(),
            ctrl_idx <= subtrees@.len(),
            forall|k: int|
                0 <= k < subtrees@.len() ==> start < (#[trigger] subtrees@[k]).0 < subtrees@[k].1
                    <= len,
            before + woven_text(recs, start as int, level as int, segs, 0, 0) == text@
                + woven_text(recs, start as int, level as int, segs, si as int, ctrl_idx as int),
        decreases subtrees@.len() - ctrl_idx,
    {
        let ghost written = text@;
        let (sub_start, sub_end) = subtrees[ctrl_idx];
        assert(parts.subtrees[ctrl_idx as int] == (sub_start as int, sub_end as int));
        extract_ctrl_subtree(records, sub_start, sub_end, text);
        proof {
            let rest = woven_text(recs, start as int, level as int, segs, si as int, ctrl_idx + 1);
            let sub = subtree_text(recs, sub_start as int, sub_end as int);
            assert(written + (sub + rest) == (written + sub) + rest);
        }
        ctrl_idx = ctrl_idx + 1;
    }
    assert(text@ + Seq::<char>::empty() == text@);
    assert(text@ == before + woven_text(recs, start as int, level as int, segs, 0, 0));

    let ghost woven = text@;
    let mut k: usize = 0;
    assert(woven + equations_text(strings_view(equations@).take(0)) == woven);
    while k < equations.len()
        invariant
            k <= equations@.len(),
            text@ == woven + equations_text(strings_view(equations@).take(k as int)),
        decreases equations@.len() - k,
    {
        let ghost written = text@;
        let ghost scripts = strings_view(equations@);
        text.push_str(equations[k].as_str());
        text.push('\n');
        proof {
            assert(scripts.take(k + 1).drop_last() == scripts.take(k as int));
            assert(scripts.take(k + 1).last() == equations@[k as int]@);
            let done = equations_text(scripts.take(k as int));
            assert(woven + (done + equations@[k as int]@ + seq!['\n']) == (woven + done
                + equations@[k as int]@).push('\n'));
        }
        k = k + 1;
    }
    assert(strings_view(equations@).take(equations@.len() as int) == strings_view(equations@));
    text.push('\n');
    assert(text@ == before + (woven_text(recs, start as int, level as int, segs, 0, 0)
        + equations_text(parts.equations) + seq!['\n']));
}

/// Appends the text of the sub-tree of a control, from its `CTRL_HEADER` at
/// `start` to the index `end` behind its last record.
pub fn extract_ctrl_subtree(records: &[Record], start: usize, end: usize, text: &mut String)
    requires
        start < end <= records@.len(),
    ensures
        final(text)@ == old(text)@ + subtree_text(models(records@), start as int, end as int),
    decreases records@.len() - start, 6int, 0int,
{
    match read_ctrl_id(records[start].data.as_slice()) {
        Some(ctrl_id) => {
            if ctrl_id == CTRL_TABLE {
                extract_table_subtree(records, start, end, text);
                return ;
            }
        },
        None => {},
    }
    extract_ctrl_subtree_linear(records, start, end, text);
}

/// Appends what the records of a sub-tree give one by one, from the record
/// behind `start` up to `end`.
pub fn extract_ctrl_subtree_linear(records: &[Record], start: usize, end: usize, text: &mut String)
    requires
        start < end <= records@.len(),
    ensures
        final(text)@ == old(text)@ + linear_text(models(records@), start + 1, end as int),
    decreases records@.len() - start, 4int, 0int,
{
    let ghost recs = models(records@);
    let ghost before = text@;
    let mut i: usize = start + 1;
    while i < end
        invariant
            recs == models(records@),
            start < i <= end <= records@.len(),
            before + linear_text(recs, start + 1, end as int) == text@ + linear_text(
                recs,
                i as int,
                end as int,
            ),
        decreases end - i,
    {
        let ghost written = text@;
        let ghost here = i as int;
        let rec = &records[i];
        if rec.header.tag_id == HWPTAG_LIST_HEADER {
            i = i + 1;
            if i < end && records[i].header.tag_id == HWPTAG_PARA_HEADER {
                let para_level = records[i].header.level;
                proof {
                    lemma_para_list_end_bounds(recs, here + 1, para_level as int, end as int);
                }
                extract_para_list_bounded(records, &mut i, para_level, end, text);
                proof {
                    let list = para_list_text(recs, here + 1, para_level as int, end as int);
                    let rest = linear_text(recs, i as int, end as int);
                    assert(written + (list + rest) == (written + list) + rest);
                }
            }
        } else if rec.header.tag_id == HWPTAG_EQEDIT {
            push_equation_line(rec.data.as_slice(), text);
            proof {
                let line = equation_line(recs[here].data);
                let rest = linear_text(recs, here + 1, end as int);
                assert(written + (line + rest) == (written + line) + rest);
            }
            i = i + 1;
        } else {
            i = i + 1;
        }
    }
    assert(text@ + Seq::<char>::empty() == text@);
}

/// Appends the script of an equation and a line break, or nothing where the
/// script is missing or empty.
fn push_equation_line(data: &[u8], text: &mut String)
    ensures
        final(text)@ == old(text)@ + equation_line(data@),
{
    assert(text@ + Seq::<char>::empty() == text@);
    match extract_eqedit_script(data) {
        Some(script) => {
            if !script.as_str().is_empty() {
                text.push_str(script.as_str());
                text.push('\n');
                assert(text@ == old(text)@ + (script@ + seq!['\n']));
            }
        },
        None => {},
    }
}

/// Finds the first `TABLE` record of the sub-tree from `start` to `end`.
fn find_table(records: &[Record], start: usize, end: usize) -> (at: usize)
    requires
        start < end <= records@.len(),
    ensures
        at == table_record(models(records@), start as int, end as int),
        start < at <= end,
{
    let ghost recs = models(records@);
    let mut i: usize = start + 1;
    while i < end && records[i].header.tag_id != HWPTAG_TABLE
        invariant
            recs == models(records@),
            start < i <= end <= records@.len(),
            table_record(recs, start as int, end as int) == first_with_tag(
                recs,
                i as int,
                end as int,
                HWPTAG_TABLE,
            ),
        decreases end - i,
    {
        i = i + 1;
    }
    i
}

/// Collects the `LIST_HEADER` records that open the cells of the table in
/// the sub-tree from `start` to `end`, whose `TABLE` record stands at `at`.
fn collect_cell_headers(records: &[Record], start: usize, end: usize, at: usize) -> (headers: Vec<
    usize,
>)
    requires
        start < end <= records@.len(),
        at == table_record(models(records@), start as int, end as int),
        start < at <= end,
    ensures
        indices_view(headers@) == cell_headers(models(records@), start as int, end as int),
        forall|n: int| 0 <= n < headers@.len() ==> at < (#[trigger] headers@[n]) < end,
        forall|n: int|
            0 <= n && n + 1 < headers@.len() ==> (#[trigger] headers@[n]) < headers@[n + 1],
{
    let ghost recs = models(records@);
    let list_level: u32 = records[start].header.level as u32 + 1;
    let ghost all_headers = cell_headers(recs, start as int, end as int);
    let mut headers: Vec<usize> = Vec::new();
    let mut j: usize = if at < end {
        at + 1
    } else {
        end
    };
    assert(indices_view(headers@) + list_headers(recs, j as int, end as int, list_level as int)
        == list_headers(recs, j as int, end as int, list_level as int));
    assert(list_headers(recs, at + 1, end as int, list_level as int) == list_headers(
        recs,
        j as int,
        end as int,
        list_level as int,
    ));
    while j < end
        invariant
            recs == models(records@),
            start < j <= end <= records@.len(),
            list_level == recs[start as int].level + 1,
            all_headers == indices_view(headers@) + list_headers(
                recs,
                j as int,
                end as int,
                list_level as int,
            ),
        decreases end - j,
    {
        if records[j].header.tag_id == HWPTAG_LIST_HEADER && records[j].header.level as u32
            == list_level {
            proof {
                let rest = list_headers(recs, j + 1, end as int, list_level as int);
                assert(indices_view(headers@) + (seq![j as int] + rest) == indices_view(
                    headers@.push(j),
                ) + rest);
            }
            headers.push(j);
        }
        j = j + 1;
    }
    assert(indices_view(headers@) + Seq::<int>::empty() == indices_view(headers@));
    proof {
        lemma_list_headers_bounds(recs, at + 1, end as int, list_level as int);
        assert forall|n: int| 0 <= n < headers@.len() implies at < (#[trigger] headers@[n])
            < end by {
            assert(all_headers[n] == headers@[n]);
        }
        assert forall|n: int| 0 <= n && n + 1 < headers@.len() implies (#[trigger] headers@[n])
            < headers@[n + 1] by {
            assert(all_headers[n] == headers@[n]);
            assert(all_headers[n + 1] == headers@[n + 1]);
        }
    }
    headers
}

/// Reads the text of the cell that the `LIST_HEADER` at `header` opens and
/// that ends at `end`.
pub fn extract_cell_text(records: &[Record], header: usize, end: usize) -> (r: String)
    requires
        header < end <= records@.len(),
    ensures
        r@ == cell_text(models(records@), header as int, end as int),
    decreases records@.len() - header, 3int, 0int,
{
    let mut cell_string = String::new();
    let mut at: usize = header + 1;
    if at < end && records[at].header.tag_id == HWPTAG_PARA_HEADER {
        let para_level = records[at].header.level;
        extract_para_list_bounded(records, &mut at, para_level, end, &mut cell_string);
        assert(cell_string@ == Seq::<char>::empty() + para_list_text(
            models(records@),
            header + 1,
            para_level as int,
            end as int,
        ));
    }
    cell_string
}

/// The column and row of the `k`-th cell of a table of `cols` columns, whose
/// `LIST_HEADER` body is `data`.
fn place_of_cell(data: &[u8], k: usize, cols: u16) -> (r: (u16, u16))
    requires
        cols > 0,
    ensures
        r == cell_place(data@, k as int, cols),
{
    match parse_cell_position(data) {
        Some((col, row, _, _)) => (col, row),
        None => {
            let index: u16 = (k % 0x1_0000) as u16;
            (index % cols, index / cols)
        },
    }
}

/// Reads the cells of the table in the sub-tree from `start` to `end`, which
/// the `LIST_HEADER` records at `headers` open.
pub fn collect_cells(
    records: &[Record],
    start: usize,
    end: usize,
    headers: &Vec<usize>,
    cols: u16,
) -> (cells: Vec<(u16, u16, String)>)
    requires
        start < end <= records@.len(),
        cols > 0,
        indices_view(headers@) == cell_headers(models(records@), start as int, end as int),
        forall|n: int| 0 <= n < headers@.len() ==> start < (#[trigger] headers@[n]) < end,
        forall|n: int|
            0 <= n && n + 1 < headers@.len() ==> (#[trigger] headers@[n]) < headers@[n + 1],
    ensures
        cell_views(cells@) == table_cells(
            models(records@),
            start as int,
            end as int,
            cols,
            headers@.len() as int,
        ),
    decreases records@.len() - start, 4int, 0int,
{
    let ghost recs = models(records@);
    let ghost all_headers = cell_headers(recs, start as int, end as int);
    let mut cells: Vec<(u16, u16, String)> = Vec::new();
    let mut k: usize = 0;
    assert(cell_views(cells@) == table_cells(recs, start as int, end as int, cols, 0));
    while k < headers.len()
        invariant
            recs == models(records@),
            start < end <= records@.len(),
            cols > 0,
            all_headers == cell_headers(recs, start as int, end as int),
            all_headers == indices_view(headers@),
            forall|n: int| 0 <= n < headers@.len() ==> start < (#[trigger] headers@[n]) < end,
            forall|n: int|
                0 <= n && n + 1 < headers@.len() ==> (#[trigger] headers@[n]) < headers@[n + 1],
            k <= headers@.len(),
            cells@.len() == k,
            cell_views(cells@) == table_cells(recs, start as int, end as int, cols, k as int),
        decreases headers@.len() - k,
    {
        let header = headers[k];
        assert(all_headers[k as int] == header);
        let cell_stop = if k + 1 < headers.len() {
            headers[k + 1]
        } else {
            end
        };
        assert(k + 1 < headers@.len() ==> all_headers[k + 1] == cell_stop);
        assert(cell_stop == cell_end(all_headers, k as int, end as int));
        let cell_string = extract_cell_text(records, header, cell_stop);
        let (col, row) = place_of_cell(records[header].data.as_slice(), k, cols);
        let ghost done = cell_views(cells@);
        cells.push((col, row, cell_string));
        assert(cell_views(cells@) == done.push((col, row, cell_string@)));
        k = k + 1;
    }
    cells
}

/// Appends the Markdown table of the sub-tree of a table, from its
/// `CTRL_HEADER` at `start` to the index `end` behind its last record.
///
/// The table's size stands in the first `TABLE` record of the sub-tree. Its
/// cells are opened by the `LIST_HEADER` records behind that record, one
/// level below the `CTRL_HEADER`; each cell reaches up to the next of them.
/// Where the size is missing or zero, or no cell is found, the sub-tree is
/// read record by record, so that no text is lost.
pub fn extract_table_subtree(records: &[Record], start: usize, end: usize, text: &mut String)
    requires
        start < end <= records@.len(),
    ensures
        final(text)@ == old(text)@ + table_text(models(records@), start as int, end as int),
    decreases records@.len() - start, 5int, 0int,
{
    let ghost recs = models(records@);
    let at = find_table(records, start, end);
    let size = if at < end {
        parse_table_dimensions(records[at].data.as_slice())
    } else {
        None
    };
    let (rows, cols) = match size {
        Some((rows, cols)) => (rows, cols),
        None => {
            extract_ctrl_subtree_linear(records, start, end, text);
            return ;
        },
    };
    if rows == 0 || cols == 0 {
        extract_ctrl_subtree_linear(records, start, end, text);
        return ;
    }
    let headers = collect_cell_headers(records, start, end, at);
    let ghost all_headers = cell_headers(recs, start as int, end as int);
    if headers.len() == 0 {
        extract_ctrl_subtree_linear(records, start, end, text);
        return ;
    }
    assert(has_grid(recs, start as int, end as int));

    let cells = collect_cells(records, start, end, &headers, cols);
    let table = format_markdown_table(cells.as_slice(), rows, cols);
    text.push_str(table.as_str());
}

} // verus!
