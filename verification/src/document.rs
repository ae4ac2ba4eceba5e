//! A document as a whole: which format a file has, which streams of an HWP
//! document are read, and what their bytes give.
//!
//! The container that holds the streams is not read here. [`Extraction`]
//! says which stream is wanted next, takes its bytes, and says what follows
//! from them, until the text of the document is complete.

use vstd::prelude::*;
use crate::error::{Fault, HwpError};
use crate::extract::{extract_section_text, section_text};
use crate::hwp::crypto::{decrypt_distribution_stream, distribution_plaintext};
use crate::hwp::docinfo::{parse_doc_info, section_count_of};
use crate::hwp::header::{file_header_of, FileHeader, FILE_HEADER_LEN};
use crate::hwp::record::{parse_records, read_records};
use crate::hwp::stream::{read_and_decompress, stream_content};
use crate::text::{decimal, push_decimal};

verus! {

/// The formats of a document file.
#[derive(Debug, Clone, Copy, PartialEq, Eq, Structural)]
pub enum FileFormat {
    /// HWP 5.x, a compound file.
    Hwp,
    /// HWPX, a ZIP archive.
    Hwpx,
    /// HWPML, an XML file.
    Hwpml,
}

/// The format of the file that starts with the bytes `head`, told by its
/// first four bytes, where they are those of a known format.
pub open spec fn format_of(head: Seq<u8>) -> Option<FileFormat> {
    if head.len() < 4 {
        None
    } else if head[0] == 0xD0 && head[1] == 0xCF && head[2] == 0x11 && head[3] == 0xE0 {
        Some(FileFormat::Hwp)
    } else if head[0] == 0x50 && head[1] == 0x4B && head[2] == 0x03 && head[3] == 0x04 {
        Some(FileFormat::Hwpx)
    } else if head[0] == 0x3C && head[1] == 0x3F && head[2] == 0x78 && head[3] == 0x6D {
        Some(FileFormat::Hwpml)
    } else {
        None
    }
}

/// Tells the format of a file by the bytes that it starts with. A file of
/// fewer than four bytes, or one that starts otherwise than the known
/// formats, is refused as unsupported.
pub fn detect_format(head: &[u8]) -> (r: Result<FileFormat, HwpError>)
    ensures
        match format_of(head@) {
            Some(format) => r matches Ok(f) && f == format,
            None => r matches Err(e) && e@ == Fault::UnsupportedFormat,
        },
{
    if head.len() < 4 {
        return Err(HwpError::UnsupportedFormat);
    }
    if head[0] == 0xD0 && head[1] == 0xCF && head[2] == 0x11 && head[3] == 0xE0 {
        Ok(FileFormat::Hwp)
    } else if head[0] == 0x50 && head[1] == 0x4B && head[2] == 0x03 && head[3] == 0x04 {
        Ok(FileFormat::Hwpx)
    } else if head[0] == 0x3C && head[1] == 0x3F && head[2] == 0x78 && head[3] == 0x6D {
        Ok(FileFormat::Hwpml)
    } else {
        Err(HwpError::UnsupportedFormat)
    }
}

/// The path of the stream of section `index`: under `ViewText` in a
/// distribution document, under `BodyText` in any other.
pub open spec fn section_path(distribution: bool, index: u16) -> Seq<char> {
    if distribution {
        "/ViewText/Section"@ + decimal(index as nat)
    } else {
        "/BodyText/Section"@ + decimal(index as nat)
    }
}

/// The path of the stream of section `index`.
pub fn section_stream_path(distribution: bool, index: u16) -> (r: String)
    ensures
        r@ == section_path(distribution, index),
{
    let mut path = if distribution {
        "/ViewText/Section".to_string()
    } else {
        "/BodyText/Section".to_string()
    };
    push_decimal(&mut path, index as u64);
    path
}

/// The records' bytes that the section stream `raw` holds, or why it holds
/// none: the stream is decrypted where the document is a distribution
/// document, and then inflated where the document is compressed.
pub open spec fn section_bytes(raw: Seq<u8>, compressed: bool, distribution: bool) -> Result<
    Seq<u8>,
    Fault,
> {
    if distribution {
        match distribution_plaintext(raw) {
            Ok(plain) => stream_content(plain, compressed),
            Err(fault) => Err(fault),
        }
    } else {
        stream_content(raw, compressed)
    }
}

/// Decrypts and inflates a section stream, as far as the document asks for
/// it.
pub fn decode_section(raw: &[u8], compressed: bool, distribution: bool) -> (r: Result<
    Vec<u8>,
    HwpError,
>)
    ensures
        match section_bytes(raw@, compressed, distribution) {
            Ok(bytes) => r matches Ok(v) && v@ == bytes,
            Err(fault) => r matches Err(e) && e@ == fault,
        },
{
    if distribution {
        match decrypt_distribution_stream(raw) {
            Ok(plain) => read_and_decompress(plain.as_slice(), compressed),
            Err(e) => Err(e),
        }
    } else {
        read_and_decompress(raw, compressed)
    }
}

/// The text of the section whose stream is `raw`, or why it has none.
pub open spec fn section_stream_text(raw: Seq<u8>, compressed: bool, distribution: bool) -> Result<
    Seq<char>,
    Fault,
> {
    match section_bytes(raw, compressed, distribution) {
        Ok(bytes) => match parse_records(bytes, 0) {
            Ok(recs) => Ok(section_text(recs)),
            Err(fault) => Err(fault),
        },
        Err(fault) => Err(fault),
    }
}

/// Appends the text of the section whose stream is `raw` to `text`. On an
/// error `text` stays as it is.
pub fn append_section(raw: &[u8], compressed: bool, distribution: bool, text: &mut String) -> (r:
    Result<(), HwpError>)
    ensures
        match section_stream_text(raw@, compressed, distribution) {
            Ok(section) => r is Ok && final(text)@ == old(text)@ + section,
            Err(fault) => r matches Err(e) && e@ == fault && final(text)@ == old(text)@,
        },
{
    let data = match decode_section(raw, compressed, distribution) {
        Ok(data) => data,
        Err(e) => {
            return Err(e);
        },
    };
    let records = match read_records(data.as_slice()) {
        Ok(records) => records,
        Err(e) => {
            return Err(e);
        },
    };
    extract_section_text(records.as_slice(), text);
    Ok(())
}

/// The number of sections that the document information stream `raw` gives,
/// or why it gives none.
pub open spec fn document_section_count(raw: Seq<u8>, compressed: bool) -> Result<u16, Fault> {
    match stream_content(raw, compressed) {
        Ok(bytes) => match parse_records(bytes, 0) {
            Ok(recs) => section_count_of(recs),
            Err(fault) => Err(fault),
        },
        Err(fault) => Err(fault),
    }
}

/// Reads the number of sections from the document information stream.
pub fn read_section_count(raw: &[u8], compressed: bool) -> (r: Result<u16, HwpError>)
    ensures
        match document_section_count(raw@, compressed) {
            Ok(count) => r matches Ok(n) && n == count,
            Err(fault) => r matches Err(e) && e@ == fault,
        },
{
    let data = match read_and_decompress(raw, compressed) {
        Ok(data) => data,
        Err(e) => {
            return Err(e);
        },
    };
    let records = match read_records(data.as_slice()) {
        Ok(records) => records,
        Err(e) => {
            return Err(e);
        },
    };
    match parse_doc_info(records.as_slice()) {
        Ok(info) => Ok(info.section_count),
        Err(e) => Err(e),
    }
}

/// The stream that an extraction waits for.
#[derive(Debug, Clone, Copy, PartialEq, Eq, Structural)]
pub enum Awaited {
    /// The file header.
    FileHeader,
    /// The document information.
    DocInfo,
    /// The stream of the next section.
    Section,
}

/// The extraction of the text of one HWP document, between two streams.
#[derive(Debug)]
pub struct Extraction {
    /// The stream that is read next.
    pub awaited: Awaited,
    /// Whether the streams of the document are compressed.
    pub compressed: bool,
    /// Whether the document is a distribution document.
    pub distribution: bool,
    /// The number of sections of the document.
    pub section_count: u16,
    /// The section whose stream is read next.
    pub next_section: u16,
    /// The text of the sections before it.
    pub text: String,
}

/// An extraction as a mathematical value.
pub struct ExtractionModel {
    pub awaited: Awaited,
    pub compressed: bool,
    pub distribution: bool,
    pub section_count: u16,
    pub next_section: u16,
    pub text: Seq<char>,
}

impl View for Extraction {
    type V = ExtractionModel;

    open spec fn view(&self) -> ExtractionModel {
        ExtractionModel {
            awaited: self.awaited,
            compressed: self.compressed,
            distribution: self.distribution,
            section_count: self.section_count,
            next_section: self.next_section,
            text: self.text@,
        }
    }
}

/// What follows from a stream.
#[derive(Debug)]
pub enum Step {
    /// The stream at `path` is to be read and handed to `state`.
    Read { state: Extraction, path: String },
    /// The document is read, and this is its text.
    Done(String),
    /// The document cannot be read.
    Failed(HwpError),
}

/// A step as a mathematical value.
pub enum StepModel {
    Read { state: ExtractionModel, path: Seq<char> },
    Done(Seq<char>),
    Failed(Fault),
}

impl View for Step {
    type V = StepModel;

    open spec fn view(&self) -> StepModel {
        match self {
            Step::Read { state, path } => StepModel::Read { state: state@, path: path@ },
            Step::Done(text) => StepModel::Done(text@),
            Step::Failed(e) => StepModel::Failed(e@),
        }
    }
}

/// The extraction before anything is read.
pub open spec fn initial_state() -> ExtractionModel {
    ExtractionModel {
        awaited: Awaited::FileHeader,
        compressed: false,
        distribution: false,
        section_count: 0,
        next_section: 0,
        text: Seq::empty(),
    }
}

/// What follows when the sections before `state.next_section` are read: the
/// next section's stream is wanted, or the document is done.
pub open spec fn continue_with(state: ExtractionModel) -> StepModel {
    if state.next_section < state.section_count {
        StepModel::Read { state, path: section_path(state.distribution, state.next_section) }
    } else {
        StepModel::Done(state.text)
    }
}

/// What follows from the stream that `state` waits for: `stream` holds its
/// bytes, or nothing where the document has no such stream.
///
/// The file header and the document information have to be there. A
/// section whose stream is missing is passed over. The text of a section is
/// appended to the text of the sections before it.
pub open spec fn next_step(state: ExtractionModel, stream: Option<Seq<u8>>) -> StepModel {
    match state.awaited {
        Awaited::FileHeader => match stream {
            None => StepModel::Failed(Fault::StreamNotFound("FileHeader"@)),
            Some(bytes) => match file_header_of(bytes) {
                Err(fault) => StepModel::Failed(fault),
                Ok(header) => StepModel::Read {
                    state: ExtractionModel {
                        awaited: Awaited::DocInfo,
                        compressed: header.compressed,
                        distribution: header.distribution,
                        ..state
                    },
                    path: "/DocInfo"@,
                },
            },
        },
        Awaited::DocInfo => match stream {
            None => StepModel::Failed(Fault::StreamNotFound("DocInfo"@)),
            Some(bytes) => match document_section_count(bytes, state.compressed) {
                Err(fault) => StepModel::Failed(fault),
                Ok(count) => continue_with(
                    ExtractionModel {
                        awaited: Awaited::Section,
                        section_count: count,
                        next_section: 0,
                        ..state
                    },
                ),
            },
        },
        Awaited::Section => match stream {
            None => continue_with(
                ExtractionModel { next_section: (state.next_section + 1) as u16, ..state },
            ),
            Some(bytes) => match section_stream_text(
                bytes,
                state.compressed,
                state.distribution,
            ) {
                Err(fault) => StepModel::Failed(fault),
                Ok(section) => continue_with(
                    ExtractionModel {
                        next_section: (state.next_section + 1) as u16,
                        text: state.text + section,
                        ..state
                    },
                ),
            },
        },
    }
}

impl Extraction {
    /// Whether the extraction is one that [`Extraction::begin`] and
    /// [`Extraction::advance`] give: while it waits for a section, that
    /// section is one of the document.
    pub open spec fn valid(&self) -> bool {
        self.awaited == Awaited::Section ==> self.next_section < self.section_count
    }

    /// Whether the extraction is valid.
    pub fn is_valid(&self) -> (r: bool)
        ensures
            r == self.valid(),
    {
        match self.awaited {
            Awaited::Section => self.next_section < self.section_count,
            _ => true,
        }
    }

    /// How many bytes of the stream that the extraction waits for are to be
    /// read: the 256 bytes of the header from the file header's stream, and
    /// all of any other stream.
    pub fn read_limit(&self) -> (r: Option<usize>)
        ensures
            r == if self.awaited == Awaited::FileHeader {
                Some(FILE_HEADER_LEN)
            } else {
                None::<usize>
            },
    {
        match self.awaited {
            Awaited::FileHeader => Some(FILE_HEADER_LEN),
            _ => None,
        }
    }

    /// Starts the extraction of an HWP document. The first stream to read is
    /// the file header.
    pub fn begin() -> (r: (Extraction, String))
        ensures
            r.0@ == initial_state(),
            r.0.valid(),
            r.1@ == "/FileHeader"@,
    {
        (
            Extraction {
                awaited: Awaited::FileHeader,
                compressed: false,
                distribution: false,
                section_count: 0,
                next_section: 0,
                text: String::new(),
            },
            "/FileHeader".to_string(),
        )
    }

    /// What follows when the sections before `self.next_section` are read.
    fn proceed(self) -> (r: Step)
        requires
            self.awaited == Awaited::Section,
        ensures
            r@ == continue_with(self@),
            r matches Step::Read { state, .. } ==> state.valid(),
    {
        if self.next_section < self.section_count {
            let path = section_stream_path(self.distribution, self.next_section);
            Step::Read { state: self, path }
        } else {
            Step::Done(self.text)
        }
    }

    /// Takes the stream that the extraction waits for, or nothing where the
    /// document has no such stream, and says what follows.
    pub fn advance(self, stream: Option<&[u8]>) -> (r: Step)
        requires
            self.valid(),
        ensures
            r@ == next_step(
                self@,
                match stream {
                    Some(bytes) => Some(bytes@),
                    None => None,
                },
            ),
            r matches Step::Read { state, .. } ==> state.valid(),
    {
        let mut state = self;
        match state.awaited {
            Awaited::FileHeader => {
                let bytes = match stream {
                    Some(bytes) => bytes,
                    None => {
                        return Step::Failed(HwpError::StreamNotFound("FileHeader".to_string()));
                    },
                };
                let mut reader = bytes;
                match FileHeader::from_reader(&mut reader) {
                    Ok(header) => {
                        state.awaited = Awaited::DocInfo;
                        state.compressed = header.compressed;
                        state.distribution = header.distribution;
                        Step::Read { state, path: "/DocInfo".to_string() }
                    },
                    Err(e) => Step::Failed(e),
                }
            },
            Awaited::DocInfo => {
                let bytes = match stream {
                    Some(bytes) => bytes,
                    None => {
                        return Step::Failed(HwpError::StreamNotFound("DocInfo".to_string()));
                    },
                };
                match read_section_count(bytes, state.compressed) {
                    Ok(count) => {
                        state.awaited = Awaited::Section;
                        state.section_count = count;
                        state.next_section = 0;
                        state.proceed()
                    },
                    Err(e) => Step::Failed(e),
                }
            },
            Awaited::Section => {
                match stream {
                    Some(bytes) => {
                        match append_section(
                            bytes,
                            state.compressed,
                            state.distribution,
                            &mut state.text,
                        ) {
                            Ok(()) => {},
                            Err(e) => {
                                return Step::Failed(e);
                            },
                        }
                    },
                    None => {},
                }
                state.next_section = state.next_section + 1;
                state.proceed()
            },
        }
    }
}

/// The text of the sections from index `from` on, whose streams are
/// `streams`, one after the other in rising order; a section without a
/// stream gives nothing. Or the fault of the first section that has one.
pub open spec fn sections_text(
    streams: Seq<Option<Seq<u8>>>,
    from: int,
    compressed: bool,
    distribution: bool,
) -> Result<Seq<char>, Fault>
    decreases streams.len() - from,
{
    if from < 0 || from >= streams.len() {
        Ok(Seq::empty())
    } else {
        match streams[from] {
            None => sections_text(streams, from + 1, compressed, distribution),
            Some(bytes) => match section_stream_text(bytes, compressed, distribution) {
                Err(fault) => Err(fault),
                Ok(section) => match sections_text(streams, from + 1, compressed, distribution) {
                    Ok(rest) => Ok(section + rest),
                    Err(fault) => Err(fault),
                },
            },
        }
    }
}

/// What the extraction comes to when it waits for a section and the streams
/// of the sections are handed to it one by one, each as it is asked for.
pub open spec fn outcome(state: ExtractionModel, streams: Seq<Option<Seq<u8>>>) -> StepModel
    decreases state.section_count - state.next_section,
{
    if state.next_section >= state.section_count || state.awaited != Awaited::Section {
        StepModel::Done(state.text)
    } else {
        match next_step(state, streams[state.next_section as int]) {
            StepModel::Read { state: next, path } => outcome(next, streams),
            StepModel::Done(text) => StepModel::Done(text),
            StepModel::Failed(fault) => StepModel::Failed(fault),
        }
    }
}

/// An extraction that waits for a section comes to the text that it has,
/// followed by the texts of the sections that are left, in rising order, or
/// to the fault of the first of them that has one: the text of a section
/// depends on its own stream alone.
pub proof fn lemma_sections_in_rising_order(state: ExtractionModel, streams: Seq<Option<Seq<u8>>>)
    requires
        state.awaited == Awaited::Section,
        state.next_section <= state.section_count,
        state.section_count == streams.len(),
    ensures
        outcome(state, streams) == match sections_text(
            streams,
            state.next_section as int,
            state.compressed,
            state.distribution,
        ) {
            Ok(text) => StepModel::Done(state.text + text),
            Err(fault) => StepModel::Failed(fault),
        },
    decreases state.section_count - state.next_section,
{
    if state.next_section >= state.section_count {
        assert(state.text + Seq::<char>::empty() == state.text);
    } else {
        let k = state.next_section as int;
        let rest = sections_text(streams, k + 1, state.compressed, state.distribution);
        match streams[k] {
            None => {
                let next = ExtractionModel { next_section: (k + 1) as u16, ..state };
                lemma_sections_in_rising_order(next, streams);
                if next.next_section >= next.section_count {
                    assert(state.text + Seq::<char>::empty() == state.text);
                }
            },
            Some(bytes) => {
                match section_stream_text(bytes, state.compressed, state.distribution) {
                    Err(fault) => {},
                    Ok(section) => {
                        let next = ExtractionModel {
                            next_section: (k + 1) as u16,
                            text: state.text + section,
                            ..state
                        };
                        lemma_sections_in_rising_order(next, streams);
                        if let Ok(tail) = rest {
                            assert((state.text + section) + tail == state.text + (section
                                + tail));
                        }
                        if next.next_section >= next.section_count {
                            assert(next.text + Seq::<char>::empty() == next.text);
                        }
                    },
                }
            },
        }
    }
}

} // verus!
