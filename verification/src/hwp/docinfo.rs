//! The document information stream, of which only the number of sections is
//! read.

use vstd::prelude::*;
use crate::bytes::{le_u16, read_u16_le};
use crate::error::{Fault, HwpError};
use crate::hwp::record::{models, Record, RecordModel, HWPTAG_DOCUMENT_PROPERTIES};
use crate::text::{hex_upper, push_hex_upper};

verus! {

/// What is read of the document information.
#[derive(Debug)]
pub struct DocInfo {
    pub section_count: u16,
}

/// The text of the error for a first record with the tag `tag_id`.
pub open spec fn unexpected_tag_message(tag_id: u16) -> Seq<char> {
    "Expected DOCUMENT_PROPERTIES, got tag 0x"@ + hex_upper(tag_id as nat)
}

/// The number of sections that the records `recs` of a document
/// information stream give, or why they give none.
///
/// The first record has to be `DOCUMENT_PROPERTIES`, and the first two bytes
/// of its body are the number, low byte first.
pub open spec fn section_count_of(recs: Seq<RecordModel>) -> Result<u16, Fault> {
    if recs.len() == 0 {
        Err(Fault::Parse("Empty DocInfo records"@))
    } else if recs[0].tag_id != HWPTAG_DOCUMENT_PROPERTIES {
        Err(Fault::Parse(unexpected_tag_message(recs[0].tag_id)))
    } else if recs[0].data.len() < 2 {
        Err(Fault::Parse("DOCUMENT_PROPERTIES too short"@))
    } else {
        Ok(le_u16(recs[0].data, 0) as u16)
    }
}

/// Reads the document information from the records of its stream.
pub fn parse_doc_info(records: &[Record]) -> (r: Result<DocInfo, HwpError>)
    ensures
        match section_count_of(models(records@)) {
            Ok(count) => r matches Ok(info) && info.section_count == count,
            Err(fault) => r matches Err(e) && e@ == fault,
        },
{
    if records.len() == 0 {
        return Err(HwpError::Parse("Empty DocInfo records".to_string()));
    }
    let first = &records[0];
    assert(models(records@)[0] == first@);
    if first.header.tag_id != HWPTAG_DOCUMENT_PROPERTIES {
        let mut detail = "Expected DOCUMENT_PROPERTIES, got tag 0x".to_string();
        push_hex_upper(&mut detail, first.header.tag_id as u64);
        return Err(HwpError::Parse(detail));
    }
    if first.data.len() < 2 {
        return Err(HwpError::Parse("DOCUMENT_PROPERTIES too short".to_string()));
    }
    let section_count = read_u16_le(first.data.as_slice());
    Ok(DocInfo { section_count })
}

} // verus!
