//! Addresses in a gzip file.

use crate::addr::IpAddr;
use crate::parser::{DecodeError, DecodeErrorView};
use crate::text::{result_view, text_of_bytes, utf8_text};
use crate::util::{extracted_ips, get_all_ips};
use std::io::Read;
use vstd::prelude::*;

verus! {

/// The bytes that the gzip stream `bytes` unpacks to, or the message with
/// which the decoder refuses the stream.
pub uninterp spec fn gunzipped(bytes: Seq<u8>) -> Result<Seq<u8>, Seq<char>>;

/// Reads `bytes` to the end through `flate2::read::GzDecoder`. The outcome is
/// taken to depend on the bytes alone; an error is handed on as its message.
#[verifier::external_body]
fn gunzip(bytes: &[u8]) -> (r: Result<Vec<u8>, String>)
    ensures
        result_view(r) == gunzipped(bytes@),
{
    let mut unpacked = Vec::new();
    match flate2::read::GzDecoder::new(bytes).read_to_end(&mut unpacked) {
        Ok(_) => Ok(unpacked),
        Err(e) => Err(e.to_string()),
    }
}

/// The text in what was unpacked.
pub open spec fn unpacked_text(unpacked: Result<Seq<u8>, Seq<char>>) -> Result<
    Seq<char>,
    DecodeErrorView,
> {
    match unpacked {
        Ok(bytes) => match utf8_text(bytes) {
            Some(text) => Ok(text),
            None => Err(DecodeErrorView::Utf8),
        },
        Err(reason) => Err(DecodeErrorView::Gzip { reason }),
    }
}

/// The text that a gzip stream holds.
pub open spec fn decompressed(bytes: Seq<u8>) -> Result<Seq<char>, DecodeErrorView> {
    unpacked_text(gunzipped(bytes))
}

/// The addresses in the text that a gzip stream holds.
pub open spec fn gzip_file_ips(contents: Seq<u8>) -> Result<Seq<IpAddr>, DecodeErrorView> {
    match decompressed(contents) {
        Ok(text) => Ok(extracted_ips(text)),
        Err(error) => Err(error),
    }
}

/// Reads what was unpacked as text.
pub fn text_of_unpacked(unpacked: Result<Vec<u8>, String>) -> (r: Result<String, DecodeError>)
    ensures
        result_view(r) == unpacked_text(result_view(unpacked)),
{
    match unpacked {
        Ok(bytes) => match text_of_bytes(bytes.as_slice()) {
            Some(text) => Ok(text.to_owned()),
            None => Err(DecodeError::Utf8),
        },
        Err(reason) => Err(DecodeError::Gzip { reason }),
    }
}

/// Unpacks a gzip stream that holds text.
pub fn decompress(bytes: &[u8]) -> (r: Result<String, DecodeError>)
    ensures
        result_view(r) == decompressed(bytes@),
{
    text_of_unpacked(gunzip(bytes))
}

/// Extracts the addresses from the contents of a gzip file.
pub fn parse_gzip_file(contents: &[u8]) -> (r: Result<Vec<IpAddr>, DecodeError>)
    ensures
        result_view(r) == gzip_file_ips(contents@),
{
    match decompress(contents) {
        Ok(text) => Ok(get_all_ips(text.as_str())),
        Err(error) => Err(error),
    }
}

} // verus!
