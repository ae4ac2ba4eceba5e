//! The errors of the crate.

use vstd::prelude::*;
use crate::text::{decimal, push_decimal};

verus! {

/// `std::io::Error`, which the crate carries but never looks into.
#[verifier::external_type_specification]
#[verifier::external_body]
pub struct ExIoError(std::io::Error);

/// Errors that can occur while reading or parsing HWP/HWPX documents.
#[derive(Debug)]
pub enum HwpError {
    /// An I/O error occurred while reading the file or stream.
    Io(std::io::Error),
    /// The file does not start with the expected HWP signature.
    InvalidSignature,
    /// The document uses an HWP version that this library does not support.
    UnsupportedVersion(u8, u8, u8, u8),
    /// The document is password-protected and cannot be read.
    PasswordProtected,
    /// A required stream was not found in the compound file.
    StreamNotFound(String),
    /// A record header could not be parsed (truncated or malformed data).
    InvalidRecordHeader,
    /// Decompression of a stream failed.
    DecompressFailed(String),
    /// Decryption of a distribution-document stream failed.
    DecryptFailed(String),
    /// A general parse error for malformed or unexpected data.
    Parse(String),
    /// The file is not a recognised HWP, HWPX, or HWPML format.
    UnsupportedFormat,
    /// An error specific to HWPX (ZIP/XML) processing.
    Hwpx(String),
}

/// What an error says, with its texts as sequences of characters. An I/O
/// error is opaque: its model holds nothing.
pub enum Fault {
    Io,
    InvalidSignature,
    UnsupportedVersion(u8, u8, u8, u8),
    PasswordProtected,
    StreamNotFound(Seq<char>),
    InvalidRecordHeader,
    DecompressFailed(Seq<char>),
    DecryptFailed(Seq<char>),
    Parse(Seq<char>),
    UnsupportedFormat,
    Hwpx(Seq<char>),
}

impl View for HwpError {
    type V = Fault;

    open spec fn view(&self) -> Fault {
        match self {
            HwpError::Io(_) => Fault::Io,
            HwpError::InvalidSignature => Fault::InvalidSignature,
            HwpError::UnsupportedVersion(a, b, c, d) => Fault::UnsupportedVersion(*a, *b, *c, *d),
            HwpError::PasswordProtected => Fault::PasswordProtected,
            HwpError::StreamNotFound(s) => Fault::StreamNotFound(s@),
            HwpError::InvalidRecordHeader => Fault::InvalidRecordHeader,
            HwpError::DecompressFailed(s) => Fault::DecompressFailed(s@),
            HwpError::DecryptFailed(s) => Fault::DecryptFailed(s@),
            HwpError::Parse(s) => Fault::Parse(s@),
            HwpError::UnsupportedFormat => Fault::UnsupportedFormat,
            HwpError::Hwpx(s) => Fault::Hwpx(s@),
        }
    }
}

impl From<std::io::Error> for HwpError {
    /// An I/O error as an error of the crate.
    fn from(e: std::io::Error) -> (r: HwpError) {
        HwpError::Io(e)
    }
}

impl vstd::std_specs::convert::FromSpecImpl<std::io::Error> for HwpError {
    open spec fn obeys_from_spec() -> bool {
        true
    }

    open spec fn from_spec(e: std::io::Error) -> HwpError {
        HwpError::Io(e)
    }
}

impl Fault {
    /// The text that describes the fault. For an I/O error this is only the
    /// beginning: the text of the underlying error follows it.
    pub open spec fn message(self) -> Seq<char> {
        match self {
            Fault::Io => "I/O error: "@,
            Fault::InvalidSignature => "Invalid HWP signature"@,
            Fault::UnsupportedVersion(a, b, c, d) => "Unsupported HWP version: "@ + decimal(
                a as nat,
            ) + "."@ + decimal(b as nat) + "."@ + decimal(c as nat) + "."@ + decimal(d as nat),
            Fault::PasswordProtected => "Password-protected document"@,
            Fault::StreamNotFound(s) => "Stream not found: "@ + s,
            Fault::InvalidRecordHeader => "Invalid record header"@,
            Fault::DecompressFailed(s) => "Decompression failed: "@ + s,
            Fault::DecryptFailed(s) => "Decryption failed: "@ + s,
            Fault::Parse(s) => "Parse error: "@ + s,
            Fault::UnsupportedFormat => "Unsupported file format"@,
            Fault::Hwpx(s) => "HWPX error: "@ + s,
        }
    }
}

/// `std::io::Error::from` for `ErrorKind::UnexpectedEof`: the error of a read
/// that found the end of its input too early. Nothing is claimed of it.
#[verifier::external_body]
pub(crate) fn unexpected_eof() -> std::io::Error {
    std::io::Error::from(std::io::ErrorKind::UnexpectedEof)
}

/// A new string that holds `head` followed by `tail`.
fn joined(head: &str, tail: &str) -> (r: String)
    ensures
        r@ == head@ + tail@,
{
    let mut s = head.to_string();
    s.push_str(tail);
    s
}

impl HwpError {
    /// The text that describes the error.
    pub fn to_string(&self) -> (r: String)
        ensures
            !(self is Io) ==> r@ == self@.message(),
            self is Io ==> self@.message().is_prefix_of(r@),
    {
        match self {
            HwpError::Io(e) => {
                let detail = e.to_string();
                joined("I/O error: ", detail.as_str())
            },
            HwpError::InvalidSignature => "Invalid HWP signature".to_string(),
            HwpError::UnsupportedVersion(a, b, c, d) => {
                let mut s = "Unsupported HWP version: ".to_string();
                push_decimal(&mut s, *a as u64);
                s.push_str(".");
                push_decimal(&mut s, *b as u64);
                s.push_str(".");
                push_decimal(&mut s, *c as u64);
                s.push_str(".");
                push_decimal(&mut s, *d as u64);
                s
            },
            HwpError::PasswordProtected => "Password-protected document".to_string(),
            HwpError::StreamNotFound(name) => joined("Stream not found: ", name.as_str()),
            HwpError::InvalidRecordHeader => "Invalid record header".to_string(),
            HwpError::DecompressFailed(detail) => joined("Decompression failed: ", detail.as_str()),
            HwpError::DecryptFailed(detail) => joined("Decryption failed: ", detail.as_str()),
            HwpError::Parse(detail) => joined("Parse error: ", detail.as_str()),
            HwpError::UnsupportedFormat => "Unsupported file format".to_string(),
            HwpError::Hwpx(detail) => joined("HWPX error: ", detail.as_str()),
        }
    }
}

} // verus!
