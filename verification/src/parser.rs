//! Classification of a data source by the first bytes it holds.

use vstd::prelude::*;

pub mod compressed;
pub mod plain;

verus! {

/// Why the contents of a file give no text.
#[derive(Debug, PartialEq, Eq)]
pub enum DecodeError {
    /// The contents are no gzip stream.
    Gzip { reason: String },
    /// The bytes are no UTF-8 text.
    Utf8,
}

/// What a `DecodeError` stands for.
pub enum DecodeErrorView {
    Gzip { reason: Seq<char> },
    Utf8,
}

impl View for DecodeError {
    type V = DecodeErrorView;

    open spec fn view(&self) -> DecodeErrorView {
        match self {
            DecodeError::Gzip { reason } => DecodeErrorView::Gzip { reason: reason@ },
            DecodeError::Utf8 => DecodeErrorView::Utf8,
        }
    }
}

/// What a path names, as far as extraction is concerned.
#[derive(Debug, PartialEq, Eq, Clone, Copy, Structural)]
pub enum SourceFileType {
    /// No such path, or a directory.
    NotAFile,
    /// A file that is read as text.
    Plain,
    /// A file that starts with the gzip signature.
    Gzip,
}

/// Whether `head` starts with the three signature bytes of a gzip stream.
pub open spec fn has_gzip_signature(head: Seq<u8>) -> bool {
    head.len() >= 3 && head[0] == 0x1f && head[1] == 0x8b && head[2] == 0x08
}

/// The kind of source behind a path, given what a probe of the path found.
pub open spec fn source_kind(present: bool, is_dir: bool, head: Seq<u8>) -> SourceFileType {
    if !present || is_dir {
        SourceFileType::NotAFile
    } else if has_gzip_signature(head) {
        SourceFileType::Gzip
    } else {
        SourceFileType::Plain
    }
}

/// Classifies a path from the outcome of probing it: whether it exists,
/// whether it is a directory, and the bytes at the start of the file (all of
/// them when the file is shorter than the signature).
pub fn determine_file_type(present: bool, is_dir: bool, head: &[u8]) -> (kind: SourceFileType)
    ensures
        kind == source_kind(present, is_dir, head@),
{
    if !present || is_dir {
        return SourceFileType::NotAFile;
    }
    if head.len() >= 3 && head[0] == 0x1f && head[1] == 0x8b && head[2] == 0x08 {
        SourceFileType::Gzip
    } else {
        SourceFileType::Plain
    }
}

} // verus!
