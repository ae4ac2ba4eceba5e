//! Plain-text extraction from HWP 5.x word-processor documents.
//!
//! The crate turns the record streams of a binary HWP document into text.
//! Tables come out as Markdown, and the text of footnotes, headers, text
//! boxes and equations is placed where it occurs in the document. Every
//! function carries a contract over a mathematical model of its data, and
//! the contracts are proved.

pub mod error;
pub mod text;

pub mod bytes;
pub mod utf16;
pub mod hwp;
pub mod markdown;
pub mod extract;
pub mod document;
pub mod hwpx;
