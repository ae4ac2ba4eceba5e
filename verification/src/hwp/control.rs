//! Controls: the objects of a document that a `CTRL_HEADER` record opens.
//!
//! The first four bytes of the record's body hold the control's id, a
//! little-endian integer whose bytes, read from the highest down, spell a
//! name of four ASCII characters.

use vstd::prelude::*;
use crate::bytes::{le_u32, read_u32_le};

verus! {

/// The id of a table, `"tbl "`.
pub const CTRL_TABLE: u32 = 0x7462_6C20;

/// The id of a drawing object, `"gso "`.
pub const CTRL_GSO: u32 = 0x6773_6F20;

/// The id of an equation, `"eqed"`.
pub const CTRL_EQUATION: u32 = 0x6571_6564;

/// The id of a page header, `"head"`.
pub const CTRL_HEADER: u32 = 0x6865_6164;

/// The id of a page footer, `"foot"`.
pub const CTRL_FOOTER: u32 = 0x666F_6F74;

/// The id of a footnote, `"fn  "`.
pub const CTRL_FOOTNOTE: u32 = 0x666E_2020;

/// The id of an endnote, `"en  "`.
pub const CTRL_ENDNOTE: u32 = 0x656E_2020;

/// The id of a hidden comment, `"tcmt"`.
pub const CTRL_HIDDEN_COMMENT: u32 = 0x7463_6D74;

/// The id of a form object, `"form"`.
pub const CTRL_FORM: u32 = 0x666F_726D;

/// The id that the four characters `id` spell, the first character in the
/// highest byte.
pub open spec fn ctrl_id_of(id: Seq<u8>) -> int {
    0x100_0000 * (id[0] as int) + 0x1_0000 * (id[1] as int) + 0x100 * (id[2] as int)
        + id[3] as int
}

/// The id that the four characters `id` spell.
pub fn make_ctrl_id(id: &[u8; 4]) -> (r: u32)
    ensures
        r as int == ctrl_id_of(id@),
{
    let b0: u32 = id[0] as u32;
    let b1: u32 = id[1] as u32;
    let b2: u32 = id[2] as u32;
    let b3: u32 = id[3] as u32;
    b0 * 0x100_0000 + b1 * 0x1_0000 + b2 * 0x100 + b3
}

/// The id of the control whose `CTRL_HEADER` body is `data`, where the body
/// holds one.
pub open spec fn ctrl_id_in(data: Seq<u8>) -> Option<u32> {
    if data.len() < 4 {
        None
    } else {
        Some(le_u32(data, 0) as u32)
    }
}

/// Reads the id of a control from the body of its `CTRL_HEADER` record: the
/// little-endian integer in its first four bytes, `None` for a shorter body.
pub fn read_ctrl_id(data: &[u8]) -> (r: Option<u32>)
    ensures
        r == ctrl_id_in(data@),
{
    if data.len() < 4 {
        return None;
    }
    Some(read_u32_le(data))
}

/// The name of the control `id`, for the controls that have one.
pub open spec fn ctrl_name_of(id: u32) -> Seq<char> {
    if id == CTRL_TABLE {
        "Table"@
    } else if id == CTRL_GSO {
        "Gso"@
    } else if id == CTRL_EQUATION {
        "Equation"@
    } else if id == CTRL_HEADER {
        "Header"@
    } else if id == CTRL_FOOTER {
        "Footer"@
    } else if id == CTRL_FOOTNOTE {
        "Footnote"@
    } else if id == CTRL_ENDNOTE {
        "Endnote"@
    } else if id == CTRL_HIDDEN_COMMENT {
        "HiddenComment"@
    } else if id == CTRL_FORM {
        "Form"@
    } else {
        "Unknown"@
    }
}

/// The name of the control `id`, `"Unknown"` for an id without a name.
pub fn ctrl_name(id: u32) -> (r: &'static str)
    ensures
        r@ == ctrl_name_of(id),
{
    if id == CTRL_TABLE {
        "Table"
    } else if id == CTRL_GSO {
        "Gso"
    } else if id == CTRL_EQUATION {
        "Equation"
    } else if id == CTRL_HEADER {
        "Header"
    } else if id == CTRL_FOOTER {
        "Footer"
    } else if id == CTRL_FOOTNOTE {
        "Footnote"
    } else if id == CTRL_ENDNOTE {
        "Endnote"
    } else if id == CTRL_HIDDEN_COMMENT {
        "HiddenComment"
    } else if id == CTRL_FORM {
        "Form"
    } else {
        "Unknown"
    }
}

/// Whether the control `id` holds a list of paragraphs: a table, a drawing
/// object, a header, a footer, a footnote, an endnote or a hidden comment.
pub fn has_paragraph_list(id: u32) -> (r: bool)
    ensures
        r == (id == CTRL_TABLE || id == CTRL_GSO || id == CTRL_HEADER || id == CTRL_FOOTER
            || id == CTRL_FOOTNOTE || id == CTRL_ENDNOTE || id == CTRL_HIDDEN_COMMENT),
{
    id == CTRL_TABLE || id == CTRL_GSO || id == CTRL_HEADER || id == CTRL_FOOTER || id
        == CTRL_FOOTNOTE || id == CTRL_ENDNOTE || id == CTRL_HIDDEN_COMMENT
}

} // verus!
