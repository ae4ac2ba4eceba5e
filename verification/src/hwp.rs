//! The binary HWP 5.x format: header, records, paragraph text, controls and
//! the cipher of distribution documents.

pub mod record;
pub mod para_text;
pub mod control;
pub mod crypto;
pub mod docinfo;
pub mod header;
pub mod stream;
