//! Where the addresses are taken from.
//!
//! The source is a piece of text. Where it names a file, the addresses are
//! those in the file, which may be plain text or gzip. Where it does not,
//! they are those in the text itself.

use crate::addr::IpAddr;
use crate::parser::compressed::{gzip_file_ips, parse_gzip_file};
use crate::parser::plain::{parse_text_file, text_file_ips};
use crate::parser::{DecodeError, DecodeErrorView, SourceFileType};
use crate::text::result_view;
use crate::util::{extracted_ips, get_all_ips};
use vstd::prelude::*;

verus! {

/// A source of addresses.
pub struct Extractor {
    pub source: String,
    pub is_file: bool,
}

/// The addresses of a source: those of the file that it names, by the kind
/// of the file, or those in the text of the source where it names none.
pub open spec fn extraction(
    source: Seq<char>,
    is_file: bool,
    file_type: SourceFileType,
    contents: Seq<u8>,
) -> Result<Seq<IpAddr>, DecodeErrorView> {
    if !is_file {
        Ok(extracted_ips(source))
    } else {
        match file_type {
            SourceFileType::Plain => text_file_ips(contents),
            SourceFileType::Gzip => gzip_file_ips(contents),
            SourceFileType::NotAFile => Ok(extracted_ips(source)),
        }
    }
}

impl Extractor {
    /// A source, with the word on whether a path of that name exists.
    pub fn new(source: String, is_file: bool) -> (extractor: Extractor)
        ensures
            extractor.source == source,
            extractor.is_file == is_file,
    {
        Extractor { source, is_file }
    }

    /// Extracts the addresses. The kind and the contents of the file count
    /// only where the source names a file.
    pub fn extract(&self, file_type: SourceFileType, contents: &[u8]) -> (r: Result<
        Vec<IpAddr>,
        DecodeError,
    >)
        ensures
            result_view(r) == extraction(self.source@, self.is_file, file_type, contents@),
    {
        if !self.is_file {
            return Ok(get_all_ips(self.source.as_str()));
        }
        match file_type {
            SourceFileType::Plain => parse_text_file(contents),
            SourceFileType::Gzip => parse_gzip_file(contents),
            SourceFileType::NotAFile => Ok(get_all_ips(self.source.as_str())),
        }
    }
}

} // verus!
