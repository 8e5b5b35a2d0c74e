//! Reputation records of VirusTotal.
//!
//! The provider answers with a JSON object. Every field of it may be missing
//! or `null`; a field that is there has to be of the kind that is expected of
//! it, else the answer is refused as a whole. Of the four lists of findings
//! only the lengths are kept.

use crate::addr::format::ip_text;
use crate::addr::IpAddr;
use crate::json::{
    items_view, json_of_bytes, lemma_array_view, Json, JsonView, Number, NumberView,
};
use crate::text::{option_view, result_view};
use vstd::prelude::*;
use vstd::string::StringExecFns;
use vstd::utf8::encode_utf8;

verus! {

/// Looks addresses up at VirusTotal.
pub struct VTResolver;

/// A host name that resolved to the address, and when it last did.
#[derive(Debug, PartialEq, Eq)]
pub struct Resolution {
    pub hostname: String,
    pub last_resolved: String,
}

/// What a `Resolution` stands for.
pub struct ResolutionView {
    pub hostname: Seq<char>,
    pub last_resolved: Seq<char>,
}

impl View for Resolution {
    type V = ResolutionView;

    open spec fn view(&self) -> ResolutionView {
        ResolutionView { hostname: self.hostname@, last_resolved: self.last_resolved@ }
    }
}

impl Clone for Resolution {
    fn clone(&self) -> (copy: Resolution)
        ensures
            copy@ == self@,
    {
        Resolution {
            hostname: self.hostname.clone(),
            last_resolved: self.last_resolved.clone(),
        }
    }
}

/// The autonomous system, which the provider gives as text or as a number.
#[derive(Debug, PartialEq, Eq)]
pub enum StringOrInt {
    String(String),
    Int(i32),
}

/// What a `StringOrInt` stands for.
pub enum StringOrIntView {
    String(Seq<char>),
    Int(i32),
}

impl View for StringOrInt {
    type V = StringOrIntView;

    open spec fn view(&self) -> StringOrIntView {
        match self {
            StringOrInt::String(s) => StringOrIntView::String(s@),
            StringOrInt::Int(i) => StringOrIntView::Int(*i),
        }
    }
}

/// What the provider says about one address.
#[derive(Debug, PartialEq, Eq)]
pub struct VirusTotalRecord {
    pub response_code: Option<i32>,
    pub verbose_msg: Option<String>,
    pub asn: Option<StringOrInt>,
    pub country: Option<String>,
    pub resolutions: Option<Vec<Resolution>>,
    pub detected_url_count: usize,
    pub detected_downloaded_sample_count: usize,
    pub undetected_downloaded_sample_count: usize,
    pub undetected_url_count: usize,
}

/// What a `VirusTotalRecord` stands for.
pub struct VirusTotalRecordView {
    pub response_code: Option<i32>,
    pub verbose_msg: Option<Seq<char>>,
    pub asn: Option<StringOrIntView>,
    pub country: Option<Seq<char>>,
    pub resolutions: Option<Seq<ResolutionView>>,
    pub detected_url_count: nat,
    pub detected_downloaded_sample_count: nat,
    pub undetected_downloaded_sample_count: nat,
    pub undetected_url_count: nat,
}

/// What resolutions stand for, one for one.
pub open spec fn resolutions_view(resolutions: Seq<Resolution>) -> Seq<ResolutionView> {
    Seq::new(resolutions.len(), |i: int| resolutions[i]@)
}

/// What an optional list of resolutions stands for.
pub open spec fn list_view(list: Option<Vec<Resolution>>) -> Option<Seq<ResolutionView>> {
    match list {
        Some(resolutions) => Some(resolutions_view(resolutions@)),
        None => None,
    }
}

/// What stands for a field that was read: nothing where it was refused, else
/// what the field stands for, if it was there.
pub open spec fn field_view<T: View>(field: Option<Option<T>>) -> Option<Option<T::V>> {
    match field {
        Some(value) => Some(option_view(value)),
        None => None,
    }
}

/// What stands for a list of resolutions that was read.
pub open spec fn list_field_view(field: Option<Option<Vec<Resolution>>>) -> Option<
    Option<Seq<ResolutionView>>,
> {
    match field {
        Some(list) => Some(list_view(list)),
        None => None,
    }
}

/// What stands for a count that was read.
pub open spec fn count_view(count: Option<usize>) -> Option<nat> {
    match count {
        Some(n) => Some(n as nat),
        None => None,
    }
}

impl View for VirusTotalRecord {
    type V = VirusTotalRecordView;

    open spec fn view(&self) -> VirusTotalRecordView {
        VirusTotalRecordView {
            response_code: self.response_code,
            verbose_msg: option_view(self.verbose_msg),
            asn: option_view(self.asn),
            country: option_view(self.country),
            resolutions: list_view(self.resolutions),
            detected_url_count: self.detected_url_count as nat,
            detected_downloaded_sample_count: self.detected_downloaded_sample_count as nat,
            undetected_downloaded_sample_count: self.undetected_downloaded_sample_count as nat,
            undetected_url_count: self.undetected_url_count as nat,
        }
    }
}

/// Why an answer gives no record.
#[derive(Debug, PartialEq, Eq)]
pub enum VtDecodeError {
    /// The answer is no JSON.
    Json { reason: String },
    /// The answer is JSON, but not of the shape of a record.
    Shape,
}

/// What a `VtDecodeError` stands for.
pub enum VtDecodeErrorView {
    Json { reason: Seq<char> },
    Shape,
}

impl View for VtDecodeError {
    type V = VtDecodeErrorView;

    open spec fn view(&self) -> VtDecodeErrorView {
        match self {
            VtDecodeError::Json { reason } => VtDecodeErrorView::Json { reason: reason@ },
            VtDecodeError::Shape => VtDecodeErrorView::Shape,
        }
    }
}

/// The member `key` of `value`, unless it is missing or `null`.
pub open spec fn present(value: JsonView, key: Seq<char>) -> Option<JsonView> {
    match value.member(key) {
        Some(JsonView::Null) => None,
        Some(v) => Some(v),
        None => None,
    }
}

/// A text that may be missing. Anything but a string in its place is refused.
pub open spec fn optional_text(field: Option<JsonView>) -> Option<Option<Seq<char>>> {
    match field {
        None => Some(None),
        Some(JsonView::String(s)) => Some(Some(s)),
        Some(_) => None,
    }
}

/// The integer of a number that is one of 32 bits.
pub open spec fn small_integer(number: NumberView) -> Option<i32> {
    match number {
        NumberView::PosInt(u) => if u <= i32::MAX {
            Some(u as i32)
        } else {
            None
        },
        NumberView::NegInt(i) => if i >= i32::MIN {
            Some(i as i32)
        } else {
            None
        },
        NumberView::Float(_) => None,
    }
}

/// A 32-bit integer that may be missing. Anything else in its place is
/// refused.
pub open spec fn optional_integer(field: Option<JsonView>) -> Option<Option<i32>> {
    match field {
        None => Some(None),
        Some(JsonView::Number(n)) => match small_integer(n) {
            Some(i) => Some(Some(i)),
            None => None,
        },
        Some(_) => None,
    }
}

/// A text or a 32-bit integer that may be missing. Anything else in its place
/// is refused.
pub open spec fn optional_text_or_integer(field: Option<JsonView>) -> Option<
    Option<StringOrIntView>,
> {
    match field {
        None => Some(None),
        Some(JsonView::String(s)) => Some(Some(StringOrIntView::String(s))),
        Some(JsonView::Number(n)) => match small_integer(n) {
            Some(i) => Some(Some(StringOrIntView::Int(i))),
            None => None,
        },
        Some(_) => None,
    }
}

/// The length of a list that may be missing, which then counts as empty.
/// Anything but an array in its place is refused.
pub open spec fn optional_count(field: Option<JsonView>) -> Option<nat> {
    match field {
        None => Some(0),
        Some(JsonView::Array(items)) => Some(items.len()),
        Some(_) => None,
    }
}

/// One resolution: an object with the texts `hostname` and `last_resolved`.
pub open spec fn resolution_of(value: JsonView) -> Option<ResolutionView> {
    match (value.member("hostname"@), value.member("last_resolved"@)) {
        (Some(JsonView::String(hostname)), Some(JsonView::String(last_resolved))) => Some(
            ResolutionView { hostname, last_resolved },
        ),
        _ => None,
    }
}

/// Every item is a resolution.
pub open spec fn all_resolutions(items: Seq<JsonView>) -> bool {
    forall|i: int| 0 <= i < items.len() ==> resolution_of(#[trigger] items[i]) is Some
}

/// A list of resolutions that may be missing. Anything but an array of
/// resolutions in its place is refused.
pub open spec fn optional_resolutions(field: Option<JsonView>) -> Option<
    Option<Seq<ResolutionView>>,
> {
    match field {
        None => Some(None),
        Some(JsonView::Array(items)) => if all_resolutions(items) {
            Some(Some(Seq::new(items.len(), |i: int| resolution_of(items[i]).unwrap())))
        } else {
            None
        },
        Some(_) => None,
    }
}

/// The record that an answer holds, if it has the shape of one.
pub open spec fn record_of(value: JsonView) -> Option<VirusTotalRecordView> {
    if value is Object && optional_integer(present(value, "response_code"@)) is Some
        && optional_text(present(value, "verbose_msg"@)) is Some && optional_text_or_integer(
        present(value, "asn"@),
    ) is Some && optional_text(present(value, "country"@)) is Some && optional_resolutions(
        present(value, "resolutions"@),
    ) is Some && optional_count(present(value, "detected_urls"@)) is Some && optional_count(
        present(value, "detected_downloaded_samples"@),
    ) is Some && optional_count(present(value, "undetected_downloaded_samples"@)) is Some
        && optional_count(present(value, "undetected_urls"@)) is Some {
        Some(
            VirusTotalRecordView {
                response_code: optional_integer(present(value, "response_code"@)).unwrap(),
                verbose_msg: optional_text(present(value, "verbose_msg"@)).unwrap(),
                asn: optional_text_or_integer(present(value, "asn"@)).unwrap(),
                country: optional_text(present(value, "country"@)).unwrap(),
                resolutions: optional_resolutions(present(value, "resolutions"@)).unwrap(),
                detected_url_count: optional_count(present(value, "detected_urls"@)).unwrap(),
                detected_downloaded_sample_count: optional_count(
                    present(value, "detected_downloaded_samples"@),
                ).unwrap(),
                undetected_downloaded_sample_count: optional_count(
                    present(value, "undetected_downloaded_samples"@),
                ).unwrap(),
                undetected_url_count: optional_count(present(value, "undetected_urls"@)).unwrap(),
            },
        )
    } else {
        None
    }
}

/// The record in an answer that was read as `parsed`.
pub open spec fn decoded(parsed: Result<JsonView, Seq<char>>) -> Result<
    VirusTotalRecordView,
    VtDecodeErrorView,
> {
    match parsed {
        Ok(value) => match record_of(value) {
            Some(record) => Ok(record),
            None => Err(VtDecodeErrorView::Shape),
        },
        Err(reason) => Err(VtDecodeErrorView::Json { reason }),
    }
}

/// The address at which the provider is asked about `ip` with the key
/// `api_key`.
pub open spec fn request_url_text(api_key: Seq<char>, ip: IpAddr) -> Seq<char> {
    "https://www.virustotal.com/vtapi/v2/ip-address/report?apikey="@ + api_key + "&ip="@
        + ip_text(ip)
}

/// The resolutions that a report shows: the first five at most.
pub open spec fn shown(resolutions: Seq<ResolutionView>) -> Seq<ResolutionView> {
    if resolutions.len() <= 5 {
        resolutions
    } else {
        resolutions.take(5)
    }
}

/// The resolutions that a report shows of a list that may be missing.
pub open spec fn shown_of(list: Option<Seq<ResolutionView>>) -> Option<Seq<ResolutionView>> {
    match list {
        Some(resolutions) => Some(shown(resolutions)),
        None => None,
    }
}

fn member_present<'a>(value: &'a Json, key: &str) -> (r: Option<&'a Json>)
    ensures
        option_view(r) == present(value@, key@),
{
    match value.get(key) {
        Some(Json::Null) => None,
        Some(v) => Some(v),
        None => None,
    }
}

fn read_text(field: Option<&Json>) -> (r: Option<Option<String>>)
    ensures
        field_view(r) == optional_text(option_view(field)),
{
    match field {
        None => Some(None),
        Some(Json::String(s)) => Some(Some(s.clone())),
        Some(_) => None,
    }
}

fn read_small_integer(number: &Number) -> (r: Option<i32>)
    ensures
        r == small_integer(number@),
{
    match number {
        Number::PosInt(u) => if *u <= 0x7fff_ffff {
            Some(*u as i32)
        } else {
            None
        },
        Number::NegInt(i) => if *i >= -0x8000_0000 {
            Some(*i as i32)
        } else {
            None
        },
        Number::Float(_) => None,
    }
}

fn read_integer(field: Option<&Json>) -> (r: Option<Option<i32>>)
    ensures
        r == optional_integer(option_view(field)),
{
    match field {
        None => Some(None),
        Some(Json::Number(n)) => match read_small_integer(n) {
            Some(i) => Some(Some(i)),
            None => None,
        },
        Some(_) => None,
    }
}

fn read_text_or_integer(field: Option<&Json>) -> (r: Option<Option<StringOrInt>>)
    ensures
        field_view(r) == optional_text_or_integer(option_view(field)),
{
    match field {
        None => Some(None),
        Some(Json::String(s)) => Some(Some(StringOrInt::String(s.clone()))),
        Some(Json::Number(n)) => match read_small_integer(n) {
            Some(i) => Some(Some(StringOrInt::Int(i))),
            None => None,
        },
        Some(_) => None,
    }
}

fn read_count(field: Option<&Json>) -> (r: Option<usize>)
    ensures
        count_view(r) == optional_count(option_view(field)),
{
    match field {
        None => Some(0),
        Some(Json::Array(items)) => {
            proof {
                lemma_array_view(*items);
            }
            Some(items.len())
        },
        Some(_) => None,
    }
}

fn read_resolution(value: &Json) -> (r: Option<Resolution>)
    ensures
        option_view(r) == resolution_of(value@),
{
    let hostname = match value.get("hostname") {
        Some(Json::String(s)) => s.clone(),
        _ => { return None; },
    };
    let last_resolved = match value.get("last_resolved") {
        Some(Json::String(s)) => s.clone(),
        _ => { return None; },
    };
    Some(Resolution { hostname, last_resolved })
}

fn read_resolutions(field: Option<&Json>) -> (r: Option<Option<Vec<Resolution>>>)
    ensures
        list_field_view(r) == optional_resolutions(option_view(field)),
{
    match field {
        None => Some(None),
        Some(Json::Array(items)) => {
            proof {
                lemma_array_view(*items);
            }
            let ghost views = items_view(items@);
            let mut list: Vec<Resolution> = Vec::new();
            let mut i: usize = 0;
            while i < items.len()
                invariant
                    i <= items.len(),
                    views == items_view(items@),
                    option_view(field) == Some(JsonView::Array(views)),
                    list.len() == i,
                    forall|j: int| 0 <= j < i ==> resolution_of(#[trigger] views[j]) == Some(
                        list@[j]@,
                    ),
                decreases items.len() - i,
            {
                match read_resolution(&items[i]) {
                    Some(resolution) => {
                        list.push(resolution);
                    },
                    None => {
                        assert(resolution_of(views[i as int]) is None);
                        return None;
                    },
                }
                i = i + 1;
            }
            assert(all_resolutions(views));
            assert(resolutions_view(list@) =~= Seq::new(
                views.len(),
                |i: int| resolution_of(views[i]).unwrap(),
            ));
            Some(Some(list))
        },
        Some(_) => None,
    }
}

impl VTResolver {
    pub fn new() -> (resolver: VTResolver)
        ensures
            resolver == VTResolver,
    {
        VTResolver
    }

    /// The address at which the provider is asked about `ip`.
    pub fn request_url(api_key: &str, ip: &IpAddr) -> (url: String)
        ensures
            url@ == request_url_text(api_key@, *ip),
    {
        let mut url = "https://www.virustotal.com/vtapi/v2/ip-address/report?apikey=".to_owned();
        url.append(api_key);
        url.append("&ip=");
        let ip_text = ip.to_text();
        url.append(ip_text.as_str());
        url
    }

    /// Reads the record out of a value.
    pub fn record_from_value(value: &Json) -> (r: Option<VirusTotalRecord>)
        ensures
            option_view(r) == record_of(value@),
    {
        match value {
            Json::Object(_) => {},
            _ => { return None; },
        }
        let response_code = match read_integer(member_present(value, "response_code")) {
            Some(v) => v,
            None => { return None; },
        };
        let verbose_msg = match read_text(member_present(value, "verbose_msg")) {
            Some(v) => v,
            None => { return None; },
        };
        let asn = match read_text_or_integer(member_present(value, "asn")) {
            Some(v) => v,
            None => { return None; },
        };
        let country = match read_text(member_present(value, "country")) {
            Some(v) => v,
            None => { return None; },
        };
        let resolutions = match read_resolutions(member_present(value, "resolutions")) {
            Some(v) => v,
            None => { return None; },
        };
        let detected_url_count = match read_count(member_present(value, "detected_urls")) {
            Some(v) => v,
            None => { return None; },
        };
        let detected_downloaded_sample_count = match read_count(
            member_present(value, "detected_downloaded_samples"),
        ) {
            Some(v) => v,
            None => { return None; },
        };
        let undetected_downloaded_sample_count = match read_count(
            member_present(value, "undetected_downloaded_samples"),
        ) {
            Some(v) => v,
            None => { return None; },
        };
        let undetected_url_count = match read_count(member_present(value, "undetected_urls")) {
            Some(v) => v,
            None => { return None; },
        };
        Some(
            VirusTotalRecord {
                response_code,
                verbose_msg,
                asn,
                country,
                resolutions,
                detected_url_count,
                detected_downloaded_sample_count,
                undetected_downloaded_sample_count,
                undetected_url_count,
            },
        )
    }

    /// Reads the record out of an answer that was read as `parsed`.
    pub fn decode(parsed: Result<Json, String>) -> (r: Result<VirusTotalRecord, VtDecodeError>)
        ensures
            result_view(r) == decoded(result_view(parsed)),
    {
        match parsed {
            Ok(value) => match VTResolver::record_from_value(&value) {
                Some(record) => Ok(record),
                None => Err(VtDecodeError::Shape),
            },
            Err(reason) => Err(VtDecodeError::Json { reason }),
        }
    }

    /// Reads the record out of the text of an answer.
    pub fn parse(response: &str) -> (r: Result<VirusTotalRecord, VtDecodeError>)
        ensures
            result_view(r) == decoded(json_of_bytes(encode_utf8(response@))),
    {
        VTResolver::decode(Json::parse(response.as_bytes()))
    }
}

impl VirusTotalRecord {
    /// The resolutions that a report shows: the first five at most, and none
    /// where the answer held no list of them.
    pub fn shown_resolutions(&self) -> (r: Option<Vec<Resolution>>)
        ensures
            list_view(r) == shown_of(self@.resolutions),
    {
        match &self.resolutions {
            None => None,
            Some(all) => {
                let ghost views = resolutions_view(all@);
                let mut list: Vec<Resolution> = Vec::new();
                let mut i: usize = 0;
                while i < all.len() && i < 5
                    invariant
                        i <= all.len(),
                        i <= 5,
                        views == resolutions_view(all@),
                        resolutions_view(list@) == views.take(i as int),
                    decreases all.len() - i,
                {
                    let ghost before = resolutions_view(list@);
                    let copy = all[i].clone();
                    assert(copy@ == views[i as int]);
                    list.push(copy);
                    assert(resolutions_view(list@) =~= before.push(views[i as int]));
                    i = i + 1;
                    assert(views.take(i as int) =~= before.push(views[i - 1]));
                }
                assert(views.take(all.len() as int) =~= views);
                Some(list)
            },
        }
    }
}

} // verus!
