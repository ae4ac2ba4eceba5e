//! The text of HWPX and HWPML documents, which are written in XML.
//!
//! The text of a document stands in its text elements (`t` in HWPX, `CHAR`
//! in HWPML). Each paragraph ends with a line break, and a paragraph without
//! text gives an empty line. A table is written as a Markdown table: the XML
//! gives it as rows of cells, which need not be equally long, so the table
//! is as wide as its longest row, and a shorter row is filled up with empty
//! cells.
//!
//! The XML is read by `quick_xml`, event by event. [`XmlText`] holds what is
//! known between two events, and [`XmlText::feed`] says what each event
//! does.

use quick_xml::events::{BytesText, Event};
use quick_xml::reader::Reader;
use vstd::prelude::*;
use vstd::string::StringSliceAdditionalSpecFns;
use crate::error::{Fault, HwpError};
use crate::markdown::{escaped, push_escaped_cell, separator_cells, trim_newlines, trimmed};
use crate::text::{decimal, push_decimal};

verus! {

/// The rows of a table as mathematical values.
pub open spec fn rows_view(rows: Seq<Vec<String>>) -> Seq<Seq<Seq<char>>> {
    Seq::new(rows.len(), |i: int| Seq::new(rows[i]@.len(), |j: int| rows[i]@[j]@))
}

/// The length of the longest of the first `n` rows.
pub open spec fn widest(rows: Seq<Seq<Seq<char>>>, n: int) -> nat
    decreases n,
{
    if n <= 0 {
        0
    } else if rows[n - 1].len() > widest(rows, n - 1) {
        rows[n - 1].len()
    } else {
        widest(rows, n - 1)
    }
}

/// The text in column `col` of the row `row`, nothing where the row is
/// shorter.
pub open spec fn cell_of(row: Seq<Seq<char>>, col: int) -> Seq<char> {
    if 0 <= col < row.len() {
        row[col]
    } else {
        Seq::empty()
    }
}

/// A cell of a row: a blank, the escaped text, a blank and a bar.
pub open spec fn plain_cell(content: Seq<char>) -> Seq<char> {
    seq![' '] + escaped(content) + seq![' ', '|']
}

/// The first `cols` cells of the row `row`.
pub open spec fn row_cells(row: Seq<Seq<char>>, cols: int) -> Seq<char>
    decreases cols,
{
    if cols <= 0 {
        Seq::empty()
    } else {
        row_cells(row, cols - 1) + plain_cell(cell_of(row, cols - 1))
    }
}

/// The line of the row at index `i`, followed by the separator row where it
/// is the first row.
pub open spec fn row_line(rows: Seq<Seq<Seq<char>>>, i: int, cols: int) -> Seq<char> {
    seq!['|'] + row_cells(rows[i], cols) + seq!['\n'] + if i == 0 {
        seq!['|'] + separator_cells(cols as nat) + seq!['\n']
    } else {
        Seq::empty()
    }
}

/// The lines of the first `n` rows.
pub open spec fn row_lines(rows: Seq<Seq<Seq<char>>>, n: int, cols: int) -> Seq<char>
    decreases n,
{
    if n <= 0 {
        Seq::empty()
    } else {
        row_lines(rows, n - 1, cols) + row_line(rows, n - 1, cols)
    }
}

/// The Markdown table of the rows `rows`: nothing for a table without rows
/// or without cells.
pub open spec fn hwpx_table(rows: Seq<Seq<Seq<char>>>) -> Seq<char> {
    if widest(rows, rows.len() as int) == 0 {
        Seq::empty()
    } else {
        row_lines(rows, rows.len() as int, widest(rows, rows.len() as int) as int)
    }
}

/// The length of the longest row.
fn column_count(rows: &[Vec<String>]) -> (r: usize)
    ensures
        r == widest(rows_view(rows@), rows@.len() as int),
{
    let ghost view = rows_view(rows@);
    let mut widest_so_far: usize = 0;
    let mut i: usize = 0;
    while i < rows.len()
        invariant
            i <= rows@.len(),
            view == rows_view(rows@),
            widest_so_far == widest(view, i as int),
        decreases rows@.len() - i,
    {
        assert(view[i as int].len() == rows@[i as int]@.len());
        if rows[i].len() > widest_so_far {
            widest_so_far = rows[i].len();
        }
        i = i + 1;
    }
    widest_so_far
}

/// Appends the rows of a table to `text` as a Markdown table.
pub fn emit_hwpx_markdown_table(rows: &[Vec<String>], text: &mut String)
    ensures
        final(text)@ == old(text)@ + hwpx_table(rows_view(rows@)),
{
    let ghost view = rows_view(rows@);
    let ghost before = text@;
    assert(before + Seq::<char>::empty() == before);
    if rows.len() == 0 {
        return ;
    }
    let col_count = column_count(rows);
    if col_count == 0 {
        return ;
    }
    let mut i: usize = 0;
    while i < rows.len()
        invariant
            i <= rows@.len(),
            view == rows_view(rows@),
            text@ == before + row_lines(view, i as int, col_count as int),
        decreases rows@.len() - i,
    {
        let ghost done = text@;
        let row = &rows[i];
        assert(view[i as int].len() == row@.len());
        text.push('|');
        let mut j: usize = 0;
        while j < col_count
            invariant
                j <= col_count,
                i < rows@.len(),
                view == rows_view(rows@),
                row == rows@[i as int],
                text@ == done + seq!['|'] + row_cells(view[i as int], j as int),
            decreases col_count - j,
        {
            if j < row.len() {
                assert(view[i as int][j as int] == row@[j as int]@);
                push_escaped_cell(text, row[j].as_str());
            } else {
                proof {
                    reveal_strlit("");
                    assert(""@ == Seq::<char>::empty());
                }
                push_escaped_cell(text, "");
            }
            assert(text@ == done + seq!['|'] + (row_cells(view[i as int], j as int) + plain_cell(
                cell_of(view[i as int], j as int),
            )));
            j = j + 1;
        }
        text.push('\n');
        if i == 0 {
            text.push('|');
            let ghost start = text@;
            let mut k: usize = 0;
            assert(start + separator_cells(0) == start);
            while k < col_count
                invariant
                    k <= col_count,
                    text@ == start + separator_cells(k as nat),
                decreases col_count - k,
            {
                text.push_str(" --- |");
                assert(start + (separator_cells(k as nat) + " --- |"@) == start
                    + separator_cells((k + 1) as nat));
                k = k + 1;
            }
            text.push('\n');
            assert(text@ == done + (seq!['|'] + row_cells(view[0], col_count as int) + seq!['\n']
                + (seq!['|'] + separator_cells(col_count as nat) + seq!['\n'])));
        } else {
            assert(text@ == done + (seq!['|'] + row_cells(view[i as int], col_count as int)
                + seq!['\n'] + Seq::<char>::empty()));
        }
        assert(before + (row_lines(view, i as int, col_count as int) + row_line(
            view,
            i as int,
            col_count as int,
        )) == before + row_lines(view, i as int, col_count as int) + row_line(
            view,
            i as int,
            col_count as int,
        ));
        i = i + 1;
    }
}

/// The bytes that the name of a section's entry in an HWPX archive starts
/// with: `Contents/section`.
pub const SECTION_PREFIX: [u8; 16] = [
    0x43,
    0x6F,
    0x6E,
    0x74,
    0x65,
    0x6E,
    0x74,
    0x73,
    0x2F,
    0x73,
    0x65,
    0x63,
    0x74,
    0x69,
    0x6F,
    0x6E,
];

/// The bytes that the name of a section's entry ends with: `.xml`.
pub const SECTION_SUFFIX: [u8; 4] = [0x2E, 0x78, 0x6D, 0x6C];

/// Whether an entry of an HWPX archive whose name has the UTF-8 bytes `name`
/// is a section: its name starts with `Contents/section` and ends with
/// `.xml`.
pub open spec fn names_section(name: Seq<u8>) -> bool {
    name.len() >= 16 && name.take(16) == SECTION_PREFIX@ && name.skip(name.len() - 4)
        == SECTION_SUFFIX@
}

/// Whether the entry `name` of an HWPX archive is a section.
pub fn is_section_entry(name: &str) -> (r: bool)
    ensures
        r == names_section(name.spec_bytes()),
{
    let bytes = name.as_bytes();
    let len = bytes.len();
    if len < 16 {
        return false;
    }
    let mut i: usize = 0;
    while i < 16
        invariant
            i <= 16,
            bytes@ == name.spec_bytes(),
            len == bytes@.len(),
            len >= 16,
            forall|j: int| 0 <= j < i ==> bytes@[j] == SECTION_PREFIX@[j],
        decreases 16 - i,
    {
        if bytes[i] != SECTION_PREFIX[i] {
            assert(bytes@.take(16)[i as int] != SECTION_PREFIX@[i as int]);
            return false;
        }
        i = i + 1;
    }
    assert(bytes@.take(16) =~= SECTION_PREFIX@);
    let mut k: usize = 0;
    while k < 4
        invariant
            k <= 4,
            bytes@ == name.spec_bytes(),
            bytes@.take(16) == SECTION_PREFIX@,
            len == bytes@.len(),
            len >= 16,
            forall|j: int| 0 <= j < k ==> bytes@[len - 4 + j] == SECTION_SUFFIX@[j],
        decreases 4 - k,
    {
        if bytes[len - 4 + k] != SECTION_SUFFIX[k] {
            assert(bytes@.skip(len - 4)[k as int] != SECTION_SUFFIX@[k as int]);
            return false;
        }
        k = k + 1;
    }
    assert(bytes@.skip(len - 4) =~= SECTION_SUFFIX@);
    true
}

/// The two XML formats.
#[derive(Debug, Clone, Copy, PartialEq, Eq, Structural)]
pub enum Dialect {
    /// HWPX: the sections of a ZIP archive, in OWPML.
    Hwpx,
    /// HWPML: one XML file.
    Hwpml,
}

/// The elements that matter for the text.
#[derive(Debug, Clone, Copy, PartialEq, Eq, Structural)]
pub enum Element {
    /// Text: `t` in HWPX, `CHAR` in HWPML.
    Text,
    /// A table: `tbl` or `TABLE`.
    Table,
    /// A cell of a table: `tc` or `CELL`.
    Cell,
    /// A row of a table: `tr` or `ROW`.
    Row,
    /// A paragraph: `p` or `P`.
    Paragraph,
    /// Any other element.
    Other,
}

/// The element that the local name `name` stands for in the format
/// `dialect`.
pub open spec fn element_of(name: Seq<u8>, dialect: Dialect) -> Element {
    match dialect {
        Dialect::Hwpx => if name == seq![0x74u8] {
            Element::Text
        } else if name == seq![0x74u8, 0x62, 0x6C] {
            Element::Table
        } else if name == seq![0x74u8, 0x63] {
            Element::Cell
        } else if name == seq![0x74u8, 0x72] {
            Element::Row
        } else if name == seq![0x70u8] {
            Element::Paragraph
        } else {
            Element::Other
        },
        Dialect::Hwpml => if name == seq![0x43u8, 0x48, 0x41, 0x52] {
            Element::Text
        } else if name == seq![0x54u8, 0x41, 0x42, 0x4C, 0x45] {
            Element::Table
        } else if name == seq![0x43u8, 0x45, 0x4C, 0x4C] {
            Element::Cell
        } else if name == seq![0x52u8, 0x4F, 0x57] {
            Element::Row
        } else if name == seq![0x50u8] {
            Element::Paragraph
        } else {
            Element::Other
        },
    }
}

/// Whether `name` holds exactly the bytes `a`, `b`, `c`, `d` and `e`, as far
/// as `len` goes.
fn spells(name: &[u8], len: usize, a: u8, b: u8, c: u8, d: u8, e: u8) -> (r: bool)
    requires
        1 <= len <= 5,
    ensures
        r == (name@ == seq![a, b, c, d, e].take(len as int)),
{
    let ghost word = seq![a, b, c, d, e].take(len as int);
    if name.len() != len {
        return false;
    }
    if name[0] != a {
        assert(name@[0] != word[0]);
        return false;
    }
    if len > 1 && name[1] != b {
        assert(name@[1] != word[1]);
        return false;
    }
    if len > 2 && name[2] != c {
        assert(name@[2] != word[2]);
        return false;
    }
    if len > 3 && name[3] != d {
        assert(name@[3] != word[3]);
        return false;
    }
    if len > 4 && name[4] != e {
        assert(name@[4] != word[4]);
        return false;
    }
    assert(name@ =~= word);
    true
}

/// The element that the local name `name` stands for.
pub fn classify(name: &[u8], dialect: Dialect) -> (r: Element)
    ensures
        r == element_of(name@, dialect),
{
    proof {
        assert(seq![0x74u8, 0, 0, 0, 0].take(1) =~= seq![0x74u8]);
        assert(seq![0x74u8, 0x62, 0x6C, 0, 0].take(3) =~= seq![0x74u8, 0x62, 0x6C]);
        assert(seq![0x74u8, 0x63, 0, 0, 0].take(2) =~= seq![0x74u8, 0x63]);
        assert(seq![0x74u8, 0x72, 0, 0, 0].take(2) =~= seq![0x74u8, 0x72]);
        assert(seq![0x70u8, 0, 0, 0, 0].take(1) =~= seq![0x70u8]);
        assert(seq![0x43u8, 0x48, 0x41, 0x52, 0].take(4) =~= seq![0x43u8, 0x48, 0x41, 0x52]);
        assert(seq![0x54u8, 0x41, 0x42, 0x4C, 0x45].take(5) =~= seq![
            0x54u8,
            0x41,
            0x42,
            0x4C,
            0x45,
        ]);
        assert(seq![0x43u8, 0x45, 0x4C, 0x4C, 0].take(4) =~= seq![0x43u8, 0x45, 0x4C, 0x4C]);
        assert(seq![0x52u8, 0x4F, 0x57, 0, 0].take(3) =~= seq![0x52u8, 0x4F, 0x57]);
        assert(seq![0x50u8, 0, 0, 0, 0].take(1) =~= seq![0x50u8]);
    }
    match dialect {
        Dialect::Hwpx => {
            if spells(name, 1, 0x74, 0, 0, 0, 0) {
                Element::Text
            } else if spells(name, 3, 0x74, 0x62, 0x6C, 0, 0) {
                Element::Table
            } else if spells(name, 2, 0x74, 0x63, 0, 0, 0) {
                Element::Cell
            } else if spells(name, 2, 0x74, 0x72, 0, 0, 0) {
                Element::Row
            } else if spells(name, 1, 0x70, 0, 0, 0, 0) {
                Element::Paragraph
            } else {
                Element::Other
            }
        },
        Dialect::Hwpml => {
            if spells(name, 4, 0x43, 0x48, 0x41, 0x52, 0) {
                Element::Text
            } else if spells(name, 5, 0x54, 0x41, 0x42, 0x4C, 0x45) {
                Element::Table
            } else if spells(name, 4, 0x43, 0x45, 0x4C, 0x4C, 0) {
                Element::Cell
            } else if spells(name, 3, 0x52, 0x4F, 0x57, 0, 0) {
                Element::Row
            } else if spells(name, 1, 0x50, 0, 0, 0, 0) {
                Element::Paragraph
            } else {
                Element::Other
            }
        },
    }
}

/// An event of an XML document, as far as the text needs it.
#[derive(Debug)]
pub enum XmlEvent {
    /// A start tag, with its local name.
    Start(Vec<u8>),
    /// The tag of an empty element, with its local name.
    Empty(Vec<u8>),
    /// An end tag, with its local name.
    End(Vec<u8>),
    /// Character data, as it stands in the document.
    Text(String),
    /// The end of the document.
    Eof,
    /// Anything else: a comment, a declaration, a processing instruction.
    Other,
}

/// An event as a mathematical value.
pub enum XmlEventModel {
    Start(Seq<u8>),
    Empty(Seq<u8>),
    End(Seq<u8>),
    Text(Seq<char>),
    Eof,
    Other,
}

impl View for XmlEvent {
    type V = XmlEventModel;

    open spec fn view(&self) -> XmlEventModel {
        match self {
            XmlEvent::Start(name) => XmlEventModel::Start(name@),
            XmlEvent::Empty(name) => XmlEventModel::Empty(name@),
            XmlEvent::End(name) => XmlEventModel::End(name@),
            XmlEvent::Text(raw) => XmlEventModel::Text(raw@),
            XmlEvent::Eof => XmlEventModel::Eof,
            XmlEvent::Other => XmlEventModel::Other,
        }
    }
}

/// `quick_xml::reader::Reader`, which is only handed on here.
#[verifier::external_type_specification]
#[verifier::external_body]
#[verifier::reject_recursive_types(R)]
pub struct ExReader<R>(Reader<R>);

/// `Reader::from_str`: a reader of the document `xml`. Nothing is claimed of
/// it.
#[verifier::external_body]
fn xml_reader<'a>(xml: &'a str) -> Reader<&'a [u8]> {
    Reader::from_str(xml)
}

/// `Reader::read_event_into`: the next event of the document, or the text
/// of the reader's error. Nothing is claimed of the event: which one comes
/// depends on how far the reader has read.
#[verifier::external_body]
fn next_event(reader: &mut Reader<&[u8]>) -> Result<XmlEvent, String> {
    let mut buf = Vec::new();
    match reader.read_event_into(&mut buf) {
        Ok(Event::Start(e)) => Ok(XmlEvent::Start(e.local_name().as_ref().to_vec())),
        Ok(Event::Empty(e)) => Ok(XmlEvent::Empty(e.local_name().as_ref().to_vec())),
        Ok(Event::End(e)) => Ok(XmlEvent::End(e.local_name().as_ref().to_vec())),
        Ok(Event::Text(e)) => Ok(XmlEvent::Text(String::from_utf8_lossy(&e).into_owned())),
        Ok(Event::Eof) => Ok(XmlEvent::Eof),
        Ok(_) => Ok(XmlEvent::Other),
        Err(e) => Err(e.to_string()),
    }
}

/// `Reader::error_position`: where in the document the reader's last error
/// lies. Nothing is claimed of it.
#[verifier::external_body]
fn error_position(reader: &Reader<&[u8]>) -> u64 {
    reader.error_position()
}

/// What the character data `raw` stands for when its entity and character
/// references are resolved, or the text of the error for a reference that
/// cannot be resolved.
pub uninterp spec fn xml_unescaped(raw: Seq<char>) -> Result<Seq<char>, Seq<char>>;

/// `BytesText::unescape` on the character data `raw`: the data with its
/// references resolved, or the text of the error. The outcome depends on
/// `raw` alone.
#[verifier::external_body]
fn unescape(raw: &str) -> (r: Result<String, String>)
    ensures
        match xml_unescaped(raw@) {
            Ok(text) => r matches Ok(t) && t@ == text,
            Err(detail) => r matches Err(d) && d@ == detail,
        },
{
    match BytesText::from_escaped(raw).unescape() {
        Ok(text) => Ok(text.into_owned()),
        Err(e) => Err(e.to_string()),
    }
}

/// The text `s` with every occurrence of `from` replaced by `to`, where the
/// occurrences are found from the left and do not overlap.
pub open spec fn replaced(s: Seq<char>, from: Seq<char>, to: Seq<char>) -> Seq<char>
    decreases s.len(),
{
    if from.len() == 0 || s.len() < from.len() {
        s
    } else if s.take(from.len() as int) == from {
        to + replaced(s.skip(from.len() as int), from, to)
    } else {
        seq![s[0]] + replaced(s.skip(1), from, to)
    }
}

/// `str::replace` of the standard library with a pattern that is a text of
/// at least one character: every match of the pattern, found from the left
/// without overlap, is replaced.
#[verifier::external_body]
fn replace_all(s: &str, from: &str, to: &str) -> (r: String)
    requires
        from@.len() > 0,
    ensures
        r@ == replaced(s@, from@, to@),
{
    s.replace(from, to)
}

/// The XML of an HWPML document with each `&nbsp;`, which the XML reader
/// does not know, written as the character reference `&#160;`.
pub fn with_known_entities(xml: &str) -> (r: String)
    ensures
        r@ == replaced(xml@, "&nbsp;"@, "&#160;"@),
{
    proof {
        reveal_strlit("&nbsp;");
    }
    replace_all(xml, "&nbsp;", "&#160;")
}

/// What is known of a document between two events.
#[derive(Debug)]
pub struct XmlText {
    /// Whether the reader stands inside a text element.
    pub in_text: bool,
    /// Whether the paragraph at hand has given text.
    pub para_has_text: bool,
    /// Whether the reader stands inside a table.
    pub in_table: bool,
    /// Whether the reader stands inside a cell.
    pub in_cell: bool,
    /// Whether the paragraph at hand, inside a cell, has given text.
    pub cell_para_has_text: bool,
    /// The rows of the table at hand that are complete.
    pub rows: Vec<Vec<String>>,
    /// The cells of the row at hand that are complete.
    pub row: Vec<String>,
    /// The text of the cell at hand.
    pub cell: String,
}

/// The state between two events as a mathematical value.
#[verifier::ext_equal]
pub struct XmlTextModel {
    pub in_text: bool,
    pub para_has_text: bool,
    pub in_table: bool,
    pub in_cell: bool,
    pub cell_para_has_text: bool,
    pub rows: Seq<Seq<Seq<char>>>,
    pub row: Seq<Seq<char>>,
    pub cell: Seq<char>,
}

/// The cells of a row as mathematical values.
pub open spec fn row_view(row: Seq<String>) -> Seq<Seq<char>> {
    Seq::new(row.len(), |j: int| row[j]@)
}

impl View for XmlText {
    type V = XmlTextModel;

    open spec fn view(&self) -> XmlTextModel {
        XmlTextModel {
            in_text: self.in_text,
            para_has_text: self.para_has_text,
            in_table: self.in_table,
            in_cell: self.in_cell,
            cell_para_has_text: self.cell_para_has_text,
            rows: rows_view(self.rows@),
            row: row_view(self.row@),
            cell: self.cell@,
        }
    }
}

/// The state before the first event.
pub open spec fn initial_xml_text() -> XmlTextModel {
    XmlTextModel {
        in_text: false,
        para_has_text: false,
        in_table: false,
        in_cell: false,
        cell_para_has_text: false,
        rows: Seq::empty(),
        row: Seq::empty(),
        cell: Seq::empty(),
    }
}

/// The state after the start of the element `element`.
///
/// A table starts without rows, a row without cells, a cell without text,
/// and a paragraph without having given text. A row outside a table is
/// passed over.
pub open spec fn after_start(state: XmlTextModel, element: Element) -> XmlTextModel {
    match element {
        Element::Text => XmlTextModel { in_text: true, ..state },
        Element::Table => XmlTextModel { in_table: true, rows: Seq::empty(), ..state },
        Element::Cell => XmlTextModel {
            in_cell: true,
            cell: Seq::empty(),
            cell_para_has_text: false,
            ..state
        },
        Element::Row => if state.in_table {
            XmlTextModel { row: Seq::empty(), ..state }
        } else {
            state
        },
        Element::Paragraph => if state.in_cell {
            XmlTextModel { cell_para_has_text: false, ..state }
        } else {
            XmlTextModel { para_has_text: false, ..state }
        },
        Element::Other => state,
    }
}

/// The state after the end of the element `element`, and the text that the
/// end appends to the text of the document.
///
/// In a cell a paragraph that has given text ends with a line break in the
/// cell. Outside tables a paragraph ends with a line break, or with two
/// where it has given no text. A cell adds its text, without the line
/// breaks at its end, to the row. A row of at least one cell is added to the
/// table. A table is written down as Markdown.
pub open spec fn after_end(state: XmlTextModel, element: Element) -> (XmlTextModel, Seq<char>) {
    match element {
        Element::Text => (XmlTextModel { in_text: false, ..state }, Seq::empty()),
        Element::Paragraph => if state.in_cell {
            if state.cell_para_has_text {
                (XmlTextModel { cell: state.cell.push('\n'), ..state }, Seq::empty())
            } else {
                (state, Seq::empty())
            }
        } else if !state.in_table {
            if state.para_has_text {
                (state, seq!['\n'])
            } else {
                (state, seq!['\n', '\n'])
            }
        } else {
            (state, Seq::empty())
        },
        Element::Cell => (
            XmlTextModel {
                row: state.row.push(trim_newlines(state.cell)),
                in_cell: false,
                ..state
            },
            Seq::empty(),
        ),
        Element::Row => if state.in_table && state.row.len() > 0 {
            (
                XmlTextModel { rows: state.rows.push(state.row), row: Seq::empty(), ..state },
                Seq::empty(),
            )
        } else {
            (state, Seq::empty())
        },
        Element::Table => (
            XmlTextModel { rows: Seq::empty(), in_table: false, ..state },
            hwpx_table(state.rows),
        ),
        Element::Other => (state, Seq::empty()),
    }
}

/// The state after the text `text` of a text element, and what it appends
/// to the text of the document: in a cell the text goes to the cell, outside
/// tables to the document, and in a table outside its cells nowhere.
pub open spec fn after_text(state: XmlTextModel, text: Seq<char>) -> (XmlTextModel, Seq<char>) {
    if state.in_cell {
        (
            XmlTextModel {
                cell_para_has_text: state.cell_para_has_text || text.len() > 0,
                cell: state.cell + text,
                ..state
            },
            Seq::empty(),
        )
    } else if !state.in_table {
        (XmlTextModel { para_has_text: state.para_has_text || text.len() > 0, ..state }, text)
    } else {
        (state, Seq::empty())
    }
}

/// The beginning of the error text for character data that cannot be
/// unescaped.
pub open spec fn unescape_error_prefix(dialect: Dialect) -> Seq<char> {
    match dialect {
        Dialect::Hwpx => "XML unescape: "@,
        Dialect::Hwpml => "HWPML unescape: "@,
    }
}

/// The state after the event `event`, and the text that the event appends
/// to the text of the document; or the fault for character data of a text
/// element that cannot be unescaped.
///
/// In HWPX the tag of an empty element counts as a start tag; in HWPML it
/// is passed over. Character data outside text elements is passed over.
pub open spec fn after_event(state: XmlTextModel, event: XmlEventModel, dialect: Dialect) -> Result<
    (XmlTextModel, Seq<char>),
    Fault,
> {
    match event {
        XmlEventModel::Start(name) => Ok(
            (after_start(state, element_of(name, dialect)), Seq::empty()),
        ),
        XmlEventModel::Empty(name) => if dialect == Dialect::Hwpx {
            Ok((after_start(state, element_of(name, dialect)), Seq::empty()))
        } else {
            Ok((state, Seq::empty()))
        },
        XmlEventModel::End(name) => Ok(after_end(state, element_of(name, dialect))),
        XmlEventModel::Text(raw) => if state.in_text {
            match xml_unescaped(raw) {
                Ok(text) => Ok(after_text(state, text)),
                Err(detail) => Err(Fault::Hwpx(unescape_error_prefix(dialect) + detail)),
            }
        } else {
            Ok((state, Seq::empty()))
        },
        XmlEventModel::Eof => Ok((state, Seq::empty())),
        XmlEventModel::Other => Ok((state, Seq::empty())),
    }
}

/// The state after the events `events`, read in order from the state before
/// the first event, and the text that they append to the text of the
/// document; or nothing where one of them gives a fault.
pub open spec fn after_events(events: Seq<XmlEventModel>, dialect: Dialect) -> Option<
    (XmlTextModel, Seq<char>),
>
    decreases events.len(),
{
    if events.len() == 0 {
        Some((initial_xml_text(), Seq::empty()))
    } else {
        match after_events(events.drop_last(), dialect) {
            Some((state, text)) => match after_event(state, events.last(), dialect) {
                Ok((next, appended)) => Some((next, text + appended)),
                Err(_) => None,
            },
            None => None,
        }
    }
}

impl XmlText {
    /// The state before the first event.
    pub fn new() -> (r: XmlText)
        ensures
            r@ == initial_xml_text(),
    {
        let r = XmlText {
            in_text: false,
            para_has_text: false,
            in_table: false,
            in_cell: false,
            cell_para_has_text: false,
            rows: Vec::new(),
            row: Vec::new(),
            cell: String::new(),
        };
        assert(r@ =~= initial_xml_text());
        r
    }

    /// The state after the start of `element`.
    fn start(self, element: Element) -> (r: XmlText)
        ensures
            r@ == after_start(self@, element),
    {
        let mut state = self;
        match element {
            Element::Text => {
                state.in_text = true;
            },
            Element::Table => {
                state.in_table = true;
                state.rows = Vec::new();
            },
            Element::Cell => {
                state.in_cell = true;
                state.cell = String::new();
                state.cell_para_has_text = false;
            },
            Element::Row => {
                if state.in_table {
                    state.row = Vec::new();
                }
            },
            Element::Paragraph => {
                if state.in_cell {
                    state.cell_para_has_text = false;
                } else {
                    state.para_has_text = false;
                }
            },
            Element::Other => {},
        }
        assert(state@ =~= after_start(self@, element));
        state
    }

    /// The state after the end of `element`; what the end gives is appended
    /// to `text`.
    fn end(self, element: Element, text: &mut String) -> (r: XmlText)
        ensures
            r@ == after_end(self@, element).0,
            final(text)@ == old(text)@ + after_end(self@, element).1,
    {
        let mut state = self;
        assert(text@ + Seq::<char>::empty() == text@);
        match element {
            Element::Text => {
                state.in_text = false;
            },
            Element::Paragraph => {
                if state.in_cell {
                    if state.cell_para_has_text {
                        state.cell.push('\n');
                    }
                } else if !state.in_table {
                    if state.para_has_text {
                        text.push('\n');
                    } else {
                        text.push_str("\n\n");
                        proof {
                            reveal_strlit("\n\n");
                            assert("\n\n"@ == seq!['\n', '\n']);
                        }
                    }
                }
            },
            Element::Cell => {
                let cell = trimmed(state.cell.as_str());
                let ghost before = row_view(state.row@);
                state.row.push(cell);
                assert(row_view(state.row@) =~= before.push(cell@));
                state.in_cell = false;
            },
            Element::Row => {
                if state.in_table && state.row.len() > 0 {
                    let ghost before = rows_view(state.rows@);
                    let ghost row = row_view(state.row@);
                    let mut complete: Vec<String> = Vec::new();
                    std::mem::swap(&mut state.row, &mut complete);
                    state.rows.push(complete);
                    assert(rows_view(state.rows@) =~= before.push(row));
                    assert(row_view(state.row@) =~= Seq::<Seq<char>>::empty());
                }
            },
            Element::Table => {
                emit_hwpx_markdown_table(state.rows.as_slice(), text);
                state.rows = Vec::new();
                state.in_table = false;
            },
            Element::Other => {},
        }
        assert(state@ =~= after_end(self@, element).0);
        state
    }

    /// The state after the event `event`; what the event gives is appended
    /// to `text`.
    pub fn feed(self, event: &XmlEvent, dialect: Dialect, text: &mut String) -> (r: Result<
        XmlText,
        HwpError,
    >)
        ensures
            match after_event(self@, event@, dialect) {
                Ok((next, appended)) => r matches Ok(state) && state@ == next && final(text)@
                    == old(text)@ + appended,
                Err(fault) => r matches Err(e) && e@ == fault && final(text)@ == old(text)@,
            },
    {
        assert(text@ + Seq::<char>::empty() == text@);
        match event {
            XmlEvent::Start(name) => Ok(self.start(classify(name.as_slice(), dialect))),
            XmlEvent::Empty(name) => {
                match dialect {
                    Dialect::Hwpx => Ok(self.start(classify(name.as_slice(), dialect))),
                    Dialect::Hwpml => Ok(self),
                }
            },
            XmlEvent::End(name) => Ok(self.end(classify(name.as_slice(), dialect), text)),
            XmlEvent::Text(raw) => {
                if !self.in_text {
                    return Ok(self);
                }
                let content = match unescape(raw.as_str()) {
                    Ok(content) => content,
                    Err(detail) => {
                        let mut message = match dialect {
                            Dialect::Hwpx => "XML unescape: ".to_string(),
                            Dialect::Hwpml => "HWPML unescape: ".to_string(),
                        };
                        message.push_str(detail.as_str());
                        return Err(HwpError::Hwpx(message));
                    },
                };
                let mut state = self;
                let has_text = !content.as_str().is_empty();
                if state.in_cell {
                    if has_text {
                        state.cell_para_has_text = true;
                    }
                    state.cell.push_str(content.as_str());
                } else if !state.in_table {
                    if has_text {
                        state.para_has_text = true;
                    }
                    text.push_str(content.as_str());
                }
                assert(state@ =~= after_text(self@, content@).0);
                Ok(state)
            },
            XmlEvent::Eof => Ok(self),
            XmlEvent::Other => Ok(self),
        }
    }
}

/// The text of the error for a document that the reader cannot read on:
/// where the error lies, and what the reader says of it.
pub open spec fn parse_error_message(dialect: Dialect, position: u64, detail: Seq<char>) -> Seq<
    char,
> {
    match dialect {
        Dialect::Hwpx => "XML parse error at "@ + decimal(position as nat) + ": "@ + detail,
        Dialect::Hwpml => "HWPML parse error at "@ + decimal(position as nat) + ": "@ + detail,
    }
}

/// The error for a document that the reader cannot read on.
fn parse_error(dialect: Dialect, position: u64, detail: &str) -> (e: HwpError)
    ensures
        e@ == Fault::Hwpx(parse_error_message(dialect, position, detail@)),
{
    let mut message = match dialect {
        Dialect::Hwpx => "XML parse error at ".to_string(),
        Dialect::Hwpml => "HWPML parse error at ".to_string(),
    };
    push_decimal(&mut message, position);
    message.push_str(": ");
    message.push_str(detail);
    HwpError::Hwpx(message)
}

/// The text of the error for a document whose end the reader does not
/// reach.
pub open spec fn unfinished_message(dialect: Dialect) -> Seq<char> {
    match dialect {
        Dialect::Hwpx => "XML parse error: the document has no end"@,
        Dialect::Hwpml => "HWPML parse error: the document has no end"@,
    }
}

/// Whether `fault` is one of the reader: an error that the reader reports
/// somewhere in the document, or a document whose end it does not reach.
pub open spec fn is_reader_fault(fault: Fault, dialect: Dialect) -> bool {
    fault == Fault::Hwpx(unfinished_message(dialect)) || exists|position: u64, detail: Seq<char>|
        fault == Fault::Hwpx(#[trigger] parse_error_message(dialect, position, detail))
}

/// What a result says of a failure.
pub open spec fn failure_of(r: Result<(), HwpError>) -> Option<Fault> {
    match r {
        Ok(_) => None,
        Err(e) => Some(e@),
    }
}

/// Whether the events `events`, read in order, give no fault and add
/// `appended` to the text.
pub open spec fn give(events: Seq<XmlEventModel>, dialect: Dialect, appended: Seq<char>) -> bool {
    after_events(events, dialect) matches Some((_, text)) && text == appended
}

/// Whether the events `events` give no fault up to the last one and add
/// `appended` to the text, and the last one gives the fault `fault`.
pub open spec fn fail_at_last(
    events: Seq<XmlEventModel>,
    dialect: Dialect,
    appended: Seq<char>,
    fault: Fault,
) -> bool {
    events.len() > 0 && (after_events(events.drop_last(), dialect) matches Some((state, text))
        && text == appended && after_event(state, events.last(), dialect) == Err::<
        (XmlTextModel, Seq<char>),
        Fault,
    >(fault))
}

/// Whether a document that gives the events `events`, in order, is read
/// with the outcome `failure`, and `appended` is what it adds to the text.
///
/// A document is read with success only up to its end: the last event is
/// the end of the document, and `appended` is what all the events give. It
/// fails where the reader fails behind the events, or where the last event
/// is character data that cannot be unescaped; `appended` is then what the
/// events before the failure give.
pub open spec fn reads_as(
    events: Seq<XmlEventModel>,
    dialect: Dialect,
    appended: Seq<char>,
    failure: Option<Fault>,
) -> bool {
    match failure {
        None => events.len() > 0 && events.last() is Eof && give(events, dialect, appended),
        Some(fault) => (is_reader_fault(fault, dialect) && give(events, dialect, appended))
            || fail_at_last(events, dialect, appended, fault),
    }
}

/// The error for a document whose end the reader does not reach.
fn unfinished_error(dialect: Dialect) -> (e: HwpError)
    ensures
        e@ == Fault::Hwpx(unfinished_message(dialect)),
{
    match dialect {
        Dialect::Hwpx => HwpError::Hwpx("XML parse error: the document has no end".to_string()),
        Dialect::Hwpml => HwpError::Hwpx(
            "HWPML parse error: the document has no end".to_string(),
        ),
    }
}

/// Appends the text of the XML document `xml` to `text`.
///
/// The events of the document are read up to its end or to the first
/// failure, and what they give is appended, whichever events they are.
/// Success is reported at the end of the document only. Each event takes at
/// least one byte of the document, so the reader is asked at most once more
/// than the document is long; a reader that has not come to the end by then
/// has failed.
pub fn extract_xml_text(xml: &str, dialect: Dialect, text: &mut String) -> (r: Result<
    (),
    HwpError,
>)
    ensures
        exists|events: Seq<XmlEventModel>, appended: Seq<char>|
            #[trigger] reads_as(events, dialect, appended, failure_of(r)) && final(text)@
                == old(text)@ + appended,
        r matches Err(e) ==> e@ is Hwpx,
{
    let mut reader = xml_reader(xml);
    let mut state = XmlText::new();
    let ghost before = text@;
    let ghost mut trace: Seq<XmlEventModel> = Seq::empty();
    let mut budget: usize = xml.len();
    let mut asked_once_more = false;
    assert(before + Seq::<char>::empty() == before);
    while budget > 0 || !asked_once_more
        invariant
            before == old(text)@,
            after_events(trace, dialect) matches Some((model, appended)) && model == state@
                && text@ == before + appended,
        decreases budget + if asked_once_more { 0int } else { 1int },
    {
        if budget > 0 {
            budget = budget - 1;
        } else {
            asked_once_more = true;
        }
        let ghost reached = after_events(trace, dialect)->0;
        let ghost so_far = reached.1;
        assert(give(trace, dialect, so_far));
        let event = match next_event(&mut reader) {
            Ok(event) => event,
            Err(detail) => {
                let position = error_position(&reader);
                let e = parse_error(dialect, position, detail.as_str());
                assert(is_reader_fault(e@, dialect));
                assert(reads_as(trace, dialect, so_far, Some(e@)));
                return Err(e);
            },
        };
        let ghost read = trace.push(event@);
        assert(read.drop_last() == trace);
        match event {
            XmlEvent::Eof => {
                assert(so_far + Seq::<char>::empty() == so_far);
                assert(reads_as(read, dialect, so_far, None));
                return Ok(());
            },
            _ => {},
        }
        let ghost written = text@;
        state = match state.feed(&event, dialect, text) {
            Ok(state) => state,
            Err(e) => {
                assert(reads_as(read, dialect, so_far, Some(e@)));
                return Err(e);
            },
        };
        proof {
            let step = after_event(reached.0, event@, dialect)->Ok_0;
            assert(before + (so_far + step.1) == written + step.1);
            trace = read;
        }
    }
    let e = unfinished_error(dialect);
    assert(is_reader_fault(e@, dialect));
    let ghost reached = after_events(trace, dialect)->0;
    assert(give(trace, dialect, reached.1));
    assert(reads_as(trace, dialect, reached.1, Some(e@)));
    Err(e)
}

/// Appends the text of a section of an HWPX document to `text`.
pub fn extract_section_xml(xml: &str, text: &mut String) -> (r: Result<(), HwpError>)
    ensures
        exists|events: Seq<XmlEventModel>, appended: Seq<char>|
            #[trigger] reads_as(events, Dialect::Hwpx, appended, failure_of(r)) && final(text)@
                == old(text)@ + appended,
        r matches Err(e) ==> e@ is Hwpx,
{
    extract_xml_text(xml, Dialect::Hwpx, text)
}

/// Appends the text of an HWPML document to `text`. The document is given
/// with the entities written as the XML reader knows them, see
/// [`with_known_entities`].
pub fn extract_hwpml_xml(xml: &str, text: &mut String) -> (r: Result<(), HwpError>)
    ensures
        exists|events: Seq<XmlEventModel>, appended: Seq<char>|
            #[trigger] reads_as(events, Dialect::Hwpml, appended, failure_of(r)) && final(text)@
                == old(text)@ + appended,
        r matches Err(e) ==> e@ is Hwpx,
{
    extract_xml_text(xml, Dialect::Hwpml, text)
}

} // verus!
