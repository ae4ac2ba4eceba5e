//! The file header: a record of 256 bytes at the start of the `FileHeader`
//! stream.
//!
//! The record is read whole, so a stream of fewer than 256 bytes is an I/O
//! error. It starts with a signature of 32 bytes, the version as a 32-bit
//! little-endian word and a word of flags; the rest of it says nothing of
//! the text.

use vstd::prelude::*;
use crate::bytes::{le_u32, read_u32_le};
use crate::error::{unexpected_eof, Fault, HwpError};
use crate::text::{decimal, push_decimal};
use vstd::slice::slice_subrange;

verus! {

/// The signature of an HWP document: `HWP Document File`, filled up with
/// zeros to 32 bytes.
pub const HWP_SIGNATURE: [u8; 32] = [
    0x48,
    0x57,
    0x50,
    0x20,
    0x44,
    0x6F,
    0x63,
    0x75,
    0x6D,
    0x65,
    0x6E,
    0x74,
    0x20,
    0x46,
    0x69,
    0x6C,
    0x65,
    0,
    0,
    0,
    0,
    0,
    0,
    0,
    0,
    0,
    0,
    0,
    0,
    0,
    0,
    0,
];

/// The length of the file header.
pub const FILE_HEADER_LEN: usize = 256;

/// The flag of a document whose streams are compressed.
pub const FLAG_COMPRESSED: u32 = 1;

/// The flag of a document that a password protects.
pub const FLAG_PASSWORD: u32 = 2;

/// The flag of a distribution document.
pub const FLAG_DISTRIBUTION: u32 = 4;

/// What the file header says of a document.
#[derive(Debug, Clone)]
pub struct FileHeader {
    pub version: FileVersion,
    pub compressed: bool,
    pub password: bool,
    pub distribution: bool,
    pub flags: u32,
}

/// The version of the format that a document is written in.
#[derive(Debug, Clone, Copy)]
pub struct FileVersion {
    pub major: u8,
    pub minor: u8,
    pub build: u8,
    pub revision: u8,
}

/// The version that the word `v` holds: its four bytes from the highest
/// down are major, minor, build and revision.
pub open spec fn version_of(v: u32) -> FileVersion {
    FileVersion {
        major: (v / 0x100_0000) as u8,
        minor: ((v / 0x1_0000) % 0x100) as u8,
        build: ((v / 0x100) % 0x100) as u8,
        revision: (v % 0x100) as u8,
    }
}

impl FileVersion {
    /// The version that the word `v` holds.
    pub fn from_u32(v: u32) -> (r: FileVersion)
        ensures
            r == version_of(v),
    {
        assert((v >> 24) & 0xFF == v / 0x100_0000) by (bit_vector);
        assert((v >> 16) & 0xFF == (v / 0x1_0000) % 0x100) by (bit_vector);
        assert((v >> 8) & 0xFF == (v / 0x100) % 0x100) by (bit_vector);
        assert(v & 0xFF == v % 0x100) by (bit_vector);
        FileVersion {
            major: ((v >> 24) & 0xFF) as u8,
            minor: ((v >> 16) & 0xFF) as u8,
            build: ((v >> 8) & 0xFF) as u8,
            revision: (v & 0xFF) as u8,
        }
    }

    /// The version as text: its four numbers with dots between them.
    pub open spec fn text(self) -> Seq<char> {
        decimal(self.major as nat) + "."@ + decimal(self.minor as nat) + "."@ + decimal(
            self.build as nat,
        ) + "."@ + decimal(self.revision as nat)
    }

    /// The version as text, such as `5.1.2.7`.
    pub fn to_string(&self) -> (r: String)
        ensures
            r@ == self.text(),
    {
        let mut s = String::new();
        push_decimal(&mut s, self.major as u64);
        s.push_str(".");
        push_decimal(&mut s, self.minor as u64);
        s.push_str(".");
        push_decimal(&mut s, self.build as u64);
        s.push_str(".");
        push_decimal(&mut s, self.revision as u64);
        s
    }
}

/// The header that the flags `flags` and the version word `version` give.
pub open spec fn header_with(version: u32, flags: u32) -> FileHeader {
    FileHeader {
        version: version_of(version),
        compressed: flags & FLAG_COMPRESSED != 0,
        password: flags & FLAG_PASSWORD != 0,
        distribution: flags & FLAG_DISTRIBUTION != 0,
        flags,
    }
}

/// What the bytes `data` of a `FileHeader` stream say, or why they say
/// nothing.
///
/// The header of 256 bytes is read whole: a stream that is shorter is an
/// I/O error. Then the signature is compared, and a document that a password
/// protects is refused.
pub open spec fn file_header_of(data: Seq<u8>) -> Result<FileHeader, Fault> {
    if data.len() < FILE_HEADER_LEN {
        Err(Fault::Io)
    } else if data.subrange(0, 32) != HWP_SIGNATURE@ {
        Err(Fault::InvalidSignature)
    } else if le_u32(data, 36) as u32 & FLAG_PASSWORD != 0 {
        Err(Fault::PasswordProtected)
    } else {
        Ok(header_with(le_u32(data, 32) as u32, le_u32(data, 36) as u32))
    }
}

/// What is left of the stream `data` when the file header is read: what
/// stands behind the header's 256 bytes, and nothing where the stream ends
/// before that.
pub open spec fn behind_file_header(data: Seq<u8>) -> Seq<u8> {
    if data.len() < FILE_HEADER_LEN {
        Seq::empty()
    } else {
        data.skip(FILE_HEADER_LEN as int)
    }
}

/// Whether `data` starts with the signature.
fn has_signature(data: &[u8]) -> (r: bool)
    requires
        data@.len() >= 32,
    ensures
        r == (data@.subrange(0, 32) == HWP_SIGNATURE@),
{
    let mut i: usize = 0;
    while i < 32
        invariant
            i <= 32,
            data@.len() >= 32,
            forall|j: int| 0 <= j < i ==> data@[j] == HWP_SIGNATURE@[j],
        decreases 32 - i,
    {
        if data[i] != HWP_SIGNATURE[i] {
            assert(data@.subrange(0, 32)[i as int] != HWP_SIGNATURE@[i as int]);
            return false;
        }
        i = i + 1;
    }
    assert(data@.subrange(0, 32) =~= HWP_SIGNATURE@);
    true
}

impl FileHeader {
    /// Reads the file header from a stream that is held in memory, and moves
    /// the stream behind the header: by 256 bytes, or to its end where it is
    /// shorter.
    pub fn from_reader(reader: &mut &[u8]) -> (r: Result<FileHeader, HwpError>)
        ensures
            match file_header_of((*old(reader))@) {
                Ok(header) => r matches Ok(h) && h == header,
                Err(fault) => r matches Err(e) && e@ == fault,
            },
            r matches Ok(h) ==> !h.password,
            (*final(reader))@ == behind_file_header((*old(reader))@),
    {
        let data: &[u8] = *reader;
        let len = data.len();
        if len < FILE_HEADER_LEN {
            *reader = slice_subrange(data, len, len);
            return Err(HwpError::Io(unexpected_eof()));
        }
        *reader = slice_subrange(data, FILE_HEADER_LEN, len);
        if !has_signature(data) {
            return Err(HwpError::InvalidSignature);
        }
        let version_raw = read_u32_le(slice_subrange(data, 32, 36));
        let version = FileVersion::from_u32(version_raw);
        let flags = read_u32_le(slice_subrange(data, 36, 40));
        let compressed = (flags & FLAG_COMPRESSED) != 0;
        let password = (flags & FLAG_PASSWORD) != 0;
        let distribution = (flags & FLAG_DISTRIBUTION) != 0;
        if password {
            return Err(HwpError::PasswordProtected);
        }
        Ok(FileHeader { version, compressed, password, distribution, flags })
    }
}

/// Nothing behind the header's 256 bytes is read: two streams that agree in
/// them say the same.
pub proof fn lemma_file_header_is_256_bytes(first: Seq<u8>, second: Seq<u8>)
    requires
        first.len() >= FILE_HEADER_LEN,
        second.len() >= FILE_HEADER_LEN,
        first.take(FILE_HEADER_LEN as int) == second.take(FILE_HEADER_LEN as int),
    ensures
        file_header_of(first) == file_header_of(second),
{
    let head = first.take(FILE_HEADER_LEN as int);
    assert forall|i: int| 0 <= i < 256 implies first[i] == second[i] by {
        assert(first[i] == head[i]);
        assert(second[i] == second.take(FILE_HEADER_LEN as int)[i]);
    }
    assert(first.subrange(0, 32) =~= second.subrange(0, 32));
}

} // verus!
