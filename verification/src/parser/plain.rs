//! Addresses in a file of plain text.

use crate::addr::IpAddr;
use crate::parser::{DecodeError, DecodeErrorView};
use crate::text::{result_view, text_of_bytes, utf8_text};
use crate::util::{extracted_ips, get_all_ips};
use vstd::prelude::*;

verus! {

/// The addresses in the text that `contents` encode.
pub open spec fn text_file_ips(contents: Seq<u8>) -> Result<Seq<IpAddr>, DecodeErrorView> {
    match utf8_text(contents) {
        Some(text) => Ok(extracted_ips(text)),
        None => Err(DecodeErrorView::Utf8),
    }
}

/// Extracts the addresses from the contents of a text file.
pub fn parse_text_file(contents: &[u8]) -> (r: Result<Vec<IpAddr>, DecodeError>)
    ensures
        result_view(r) == text_file_ips(contents@),
{
    match text_of_bytes(contents) {
        Some(text) => Ok(get_all_ips(text)),
        None => Err(DecodeError::Utf8),
    }
}

} // verus!
