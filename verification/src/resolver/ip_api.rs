//! Geolocation records of ip-api.com.
//!
//! The provider answers one request per address with a JSON object. Which of
//! its fields it returns can be narrowed by a `fields` parameter; the names it
//! knows form a fixed catalog, and a requested name outside the catalog is
//! dropped without complaint.

use crate::addr::format::ip_text;
use crate::addr::IpAddr;
use crate::json::{json_of_bytes, Json, JsonView, Number, NumberView};
use crate::text::{contains_string, optional_string_views, result_view, string_views};
use vstd::prelude::*;
use vstd::string::StringExecFns;

verus! {

/// The fields that the provider knows, in its order.
pub open spec fn catalog() -> Seq<Seq<char>> {
    seq![
        "query"@,
        "status"@,
        "continent"@,
        "continentCode"@,
        "country"@,
        "countryCode"@,
        "region"@,
        "regionName"@,
        "city"@,
        "district"@,
        "zip"@,
        "lat"@,
        "lon"@,
        "timezone"@,
        "offset"@,
        "currency"@,
        "isp"@,
        "org"@,
        "as"@,
        "asname"@,
        "mobile"@,
        "proxy"@,
        "hosting"@,
    ]
}

/// The requested names that the catalog holds, in the order of the request.
pub open spec fn allowed_only(requested: Seq<Seq<char>>) -> Seq<Seq<char>> {
    requested.filter(|name: Seq<char>| catalog().contains(name))
}

/// The columns that a resolver works with: the requested ones as far as the
/// catalog holds them, or the whole catalog where nothing was requested.
pub open spec fn effective_columns(selection: Option<Seq<Seq<char>>>) -> Seq<Seq<char>> {
    match selection {
        Some(requested) => allowed_only(requested),
        None => catalog(),
    }
}

/// A name outside the catalog, wherever it stands in a request, changes
/// nothing about the columns that are used.
pub proof fn lemma_unknown_column_ignored(
    before: Seq<Seq<char>>,
    unknown: Seq<char>,
    after: Seq<Seq<char>>,
)
    requires
        !catalog().contains(unknown),
    ensures
        allowed_only(before + seq![unknown] + after) == allowed_only(before + after),
{
    let pred = |name: Seq<char>| catalog().contains(name);
    Seq::filter_distributes_over_add(before + seq![unknown], after, pred);
    Seq::filter_distributes_over_add(before, seq![unknown], pred);
    Seq::filter_distributes_over_add(before, after, pred);
    assert(seq![unknown].filter(pred) =~= Seq::<Seq<char>>::empty()) by {
        reveal_with_fuel(Seq::filter, 2);
    }
    assert(before.filter(pred) + Seq::<Seq<char>>::empty() =~= before.filter(pred));
}

/// Checking a request twice is the same as checking it once, and what comes
/// out lies in the catalog.
pub proof fn lemma_allowed_only_idempotent(requested: Seq<Seq<char>>)
    ensures
        allowed_only(allowed_only(requested)) == allowed_only(requested),
        forall|i: int|
            0 <= i < allowed_only(requested).len() ==> catalog().contains(
                #[trigger] allowed_only(requested)[i],
            ),
    decreases requested.len(),
{
    let pred = |name: Seq<char>| catalog().contains(name);
    reveal(Seq::filter);
    if requested.len() > 0 {
        let init = requested.drop_last();
        lemma_allowed_only_idempotent(init);
        if pred(requested.last()) {
            init.filter(pred).lemma_filter_push(requested.last(), pred);
        }
        assert forall|i: int| 0 <= i < allowed_only(requested).len() implies catalog().contains(
            #[trigger] allowed_only(requested)[i],
        ) by {
            if i < allowed_only(init).len() {
                assert(allowed_only(requested)[i] == allowed_only(init)[i]);
            }
        }
    }
}

/// What the provider says about one address. A field that the answer does
/// not hold, or holds with a value of another kind, is absent. The
/// coordinates are kept as the numbers that the answer holds.
#[derive(Debug, PartialEq)]
pub struct IpApiRecord {
    pub query: Option<String>,
    pub status: Option<String>,
    pub continent: Option<String>,
    pub continent_code: Option<String>,
    pub country: Option<String>,
    pub country_code: Option<String>,
    pub region: Option<String>,
    pub region_name: Option<String>,
    pub city: Option<String>,
    pub district: Option<String>,
    pub zip: Option<String>,
    pub lat: Option<Number>,
    pub lon: Option<Number>,
    pub timezone: Option<String>,
    pub offset: Option<u32>,
    pub currency: Option<String>,
    pub isp: Option<String>,
    pub org: Option<String>,
    pub asn: Option<String>,
    pub asname: Option<String>,
    pub mobile: Option<bool>,
    pub proxy: Option<bool>,
    pub hosting: Option<bool>,
}

/// What an `IpApiRecord` stands for.
pub struct IpApiRecordView {
    pub query: Option<Seq<char>>,
    pub status: Option<Seq<char>>,
    pub continent: Option<Seq<char>>,
    pub continent_code: Option<Seq<char>>,
    pub country: Option<Seq<char>>,
    pub country_code: Option<Seq<char>>,
    pub region: Option<Seq<char>>,
    pub region_name: Option<Seq<char>>,
    pub city: Option<Seq<char>>,
    pub district: Option<Seq<char>>,
    pub zip: Option<Seq<char>>,
    pub lat: Option<NumberView>,
    pub lon: Option<NumberView>,
    pub timezone: Option<Seq<char>>,
    pub offset: Option<u32>,
    pub currency: Option<Seq<char>>,
    pub isp: Option<Seq<char>>,
    pub org: Option<Seq<char>>,
    pub asn: Option<Seq<char>>,
    pub asname: Option<Seq<char>>,
    pub mobile: Option<bool>,
    pub proxy: Option<bool>,
    pub hosting: Option<bool>,
}

/// What an optional text stands for.
pub open spec fn text_view(text: Option<String>) -> Option<Seq<char>> {
    match text {
        Some(t) => Some(t@),
        None => None,
    }
}

/// What an optional number stands for.
pub open spec fn number_view(number: Option<Number>) -> Option<NumberView> {
    match number {
        Some(n) => Some(n@),
        None => None,
    }
}

impl View for IpApiRecord {
    type V = IpApiRecordView;

    open spec fn view(&self) -> IpApiRecordView {
        IpApiRecordView {
            query: text_view(self.query),
            status: text_view(self.status),
            continent: text_view(self.continent),
            continent_code: text_view(self.continent_code),
            country: text_view(self.country),
            country_code: text_view(self.country_code),
            region: text_view(self.region),
            region_name: text_view(self.region_name),
            city: text_view(self.city),
            district: text_view(self.district),
            zip: text_view(self.zip),
            lat: number_view(self.lat),
            lon: number_view(self.lon),
            timezone: text_view(self.timezone),
            offset: self.offset,
            currency: text_view(self.currency),
            isp: text_view(self.isp),
            org: text_view(self.org),
            asn: text_view(self.asn),
            asname: text_view(self.asname),
            mobile: self.mobile,
            proxy: self.proxy,
            hosting: self.hosting,
        }
    }
}

/// The records of the addresses that were resolved, in the order of the
/// addresses.
#[derive(Debug, PartialEq)]
pub struct IpApiRecords {
    pub records: Vec<IpApiRecord>,
}

/// What records stand for, one for one.
pub open spec fn records_view(records: Seq<IpApiRecord>) -> Seq<IpApiRecordView> {
    Seq::new(records.len(), |i: int| records[i]@)
}

impl View for IpApiRecords {
    type V = Seq<IpApiRecordView>;

    open spec fn view(&self) -> Seq<IpApiRecordView> {
        records_view(self.records@)
    }
}

impl IpApiRecords {
    /// No records.
    pub fn new() -> (records: IpApiRecords)
        ensures
            records.records@ == Seq::<IpApiRecord>::empty(),
            records@ == Seq::<IpApiRecordView>::empty(),
    {
        IpApiRecords { records: Vec::new() }
    }
}

impl Default for IpApiRecords {
    fn default() -> (records: IpApiRecords)
        ensures
            records.records@ == Seq::<IpApiRecord>::empty(),
            records@ == Seq::<IpApiRecordView>::empty(),
    {
        IpApiRecords::new()
    }
}

/// The text of the member `key`, where `value` has one that is a string.
pub open spec fn text_at(value: JsonView, key: Seq<char>) -> Option<Seq<char>> {
    match value.member(key) {
        Some(v) => v.text(),
        None => None,
    }
}

/// The number of the member `key`, where `value` has one that is a number.
pub open spec fn number_at(value: JsonView, key: Seq<char>) -> Option<NumberView> {
    match value.member(key) {
        Some(v) => v.number(),
        None => None,
    }
}

/// The low 32 bits of the member `key`, where `value` has one that is a
/// non-negative integer.
pub open spec fn offset_at(value: JsonView, key: Seq<char>) -> Option<u32> {
    match value.member(key) {
        Some(v) => match v.unsigned() {
            Some(u) => Some(u as u32),
            None => None,
        },
        None => None,
    }
}

/// The boolean of the member `key`, where `value` has one that is a boolean.
pub open spec fn flag_at(value: JsonView, key: Seq<char>) -> Option<bool> {
    match value.member(key) {
        Some(v) => v.flag(),
        None => None,
    }
}

/// The record that an answer of the provider holds. The provider names its
/// fields in camel case, and the autonomous system `as`.
pub open spec fn record_of(value: JsonView) -> IpApiRecordView {
    IpApiRecordView {
        query: text_at(value, "query"@),
        status: text_at(value, "status"@),
        continent: text_at(value, "continent"@),
        continent_code: text_at(value, "continentCode"@),
        country: text_at(value, "country"@),
        country_code: text_at(value, "countryCode"@),
        region: text_at(value, "region"@),
        region_name: text_at(value, "regionName"@),
        city: text_at(value, "city"@),
        district: text_at(value, "district"@),
        zip: text_at(value, "zip"@),
        lat: number_at(value, "lat"@),
        lon: number_at(value, "lon"@),
        timezone: text_at(value, "timezone"@),
        offset: offset_at(value, "offset"@),
        currency: text_at(value, "currency"@),
        isp: text_at(value, "isp"@),
        org: text_at(value, "org"@),
        asn: text_at(value, "as"@),
        asname: text_at(value, "asname"@),
        mobile: flag_at(value, "mobile"@),
        proxy: flag_at(value, "proxy"@),
        hosting: flag_at(value, "hosting"@),
    }
}

fn text_member(value: &Json, key: &str) -> (r: Option<String>)
    ensures
        text_view(r) == text_at(value@, key@),
{
    match value.get(key) {
        Some(v) => match v.as_str() {
            Some(s) => Some(s.to_owned()),
            None => None,
        },
        None => None,
    }
}

fn number_member(value: &Json, key: &str) -> (r: Option<Number>)
    ensures
        number_view(r) == number_at(value@, key@),
{
    match value.get(key) {
        Some(v) => match v.as_number() {
            Some(n) => Some(n.clone()),
            None => None,
        },
        None => None,
    }
}

fn offset_member(value: &Json, key: &str) -> (r: Option<u32>)
    ensures
        r == offset_at(value@, key@),
{
    match value.get(key) {
        Some(v) => match v.as_u64() {
            Some(u) => Some(#[verifier::truncate] (u as u32)),
            None => None,
        },
        None => None,
    }
}

fn flag_member(value: &Json, key: &str) -> (r: Option<bool>)
    ensures
        r == flag_at(value@, key@),
{
    match value.get(key) {
        Some(v) => v.as_bool(),
        None => None,
    }
}

impl IpApiRecord {
    /// Reads the record that an answer of the provider holds.
    pub fn from_value(value: &Json) -> (record: IpApiRecord)
        ensures
            record@ == record_of(value@),
    {
        IpApiRecord {
            query: text_member(value, "query"),
            status: text_member(value, "status"),
            continent: text_member(value, "continent"),
            continent_code: text_member(value, "continentCode"),
            country: text_member(value, "country"),
            country_code: text_member(value, "countryCode"),
            region: text_member(value, "region"),
            region_name: text_member(value, "regionName"),
            city: text_member(value, "city"),
            district: text_member(value, "district"),
            zip: text_member(value, "zip"),
            lat: number_member(value, "lat"),
            lon: number_member(value, "lon"),
            timezone: text_member(value, "timezone"),
            offset: offset_member(value, "offset"),
            currency: text_member(value, "currency"),
            isp: text_member(value, "isp"),
            org: text_member(value, "org"),
            asn: text_member(value, "as"),
            asname: text_member(value, "asname"),
            mobile: flag_member(value, "mobile"),
            proxy: flag_member(value, "proxy"),
            hosting: flag_member(value, "hosting"),
        }
    }
}

/// What came back for one request.
#[derive(Debug, PartialEq)]
pub enum Reply {
    /// No response arrived, or one with a status that tells of failure.
    Failed { reason: String },
    /// A response arrived, but its body could not be read.
    Unreadable { reason: String },
    /// The body of a response.
    Body(Vec<u8>),
}

/// What a `Reply` stands for.
pub enum ReplyView {
    Failed { reason: Seq<char> },
    Unreadable { reason: Seq<char> },
    Body(Seq<u8>),
}

impl View for Reply {
    type V = ReplyView;

    open spec fn view(&self) -> ReplyView {
        match self {
            Reply::Failed { reason } => ReplyView::Failed { reason: reason@ },
            Reply::Unreadable { reason } => ReplyView::Unreadable { reason: reason@ },
            Reply::Body(bytes) => ReplyView::Body(bytes@),
        }
    }
}

/// What replies stand for, one for one.
pub open spec fn replies_view(replies: Seq<Reply>) -> Seq<ReplyView> {
    Seq::new(replies.len(), |i: int| replies[i]@)
}

/// The provider could not be reached. This ends a resolution.
#[derive(Debug, PartialEq, Eq)]
pub struct ResolutionError {
    pub reason: String,
}

impl View for ResolutionError {
    type V = Seq<char>;

    open spec fn view(&self) -> Seq<char> {
        self.reason@
    }
}

/// An answer held no record. The address it was for is passed over.
#[derive(Debug, PartialEq, Eq)]
pub struct RecordDecodeError {
    pub reason: String,
}

impl View for RecordDecodeError {
    type V = Seq<char>;

    open spec fn view(&self) -> Seq<char> {
        self.reason@
    }
}

/// What a reply led to.
#[derive(Debug, PartialEq, Eq)]
pub enum Step {
    /// A record was added.
    Recorded,
    /// Nothing was added; the resolution goes on.
    Skipped(RecordDecodeError),
    /// Nothing was added; the resolution is over.
    Failed(ResolutionError),
}

/// What a `Step` stands for.
pub enum StepView {
    Recorded,
    Skipped(Seq<char>),
    Failed(Seq<char>),
}

impl View for Step {
    type V = StepView;

    open spec fn view(&self) -> StepView {
        match self {
            Step::Recorded => StepView::Recorded,
            Step::Skipped(e) => StepView::Skipped(e@),
            Step::Failed(e) => StepView::Failed(e@),
        }
    }
}

/// The record in an answer that was read as `parsed`: an answer holds one if
/// it is a JSON object.
pub open spec fn decoded(parsed: Result<JsonView, Seq<char>>) -> Result<
    IpApiRecordView,
    Seq<char>,
> {
    match parsed {
        Ok(value) => if value is Object {
            Ok(record_of(value))
        } else {
            Err("the answer is no JSON object"@)
        },
        Err(message) => Err(message),
    }
}

/// The record that a reply holds, if it holds one.
pub open spec fn reply_record(reply: ReplyView) -> Option<IpApiRecordView> {
    match reply {
        ReplyView::Body(bytes) => match decoded(json_of_bytes(bytes)) {
            Ok(record) => Some(record),
            Err(_) => None,
        },
        _ => None,
    }
}

/// The records after a reply was taken in: one more where the reply holds
/// one.
pub open spec fn absorbed(records: Seq<IpApiRecordView>, reply: ReplyView) -> Seq<
    IpApiRecordView,
> {
    match reply_record(reply) {
        Some(record) => records.push(record),
        None => records,
    }
}

/// What a reply leads to.
pub open spec fn step_of(reply: ReplyView) -> StepView {
    match reply {
        ReplyView::Failed { reason } => StepView::Failed(reason),
        ReplyView::Unreadable { reason } => StepView::Skipped(reason),
        ReplyView::Body(bytes) => match decoded(json_of_bytes(bytes)) {
            Ok(_) => StepView::Recorded,
            Err(message) => StepView::Skipped(message),
        },
    }
}

/// The first reply that tells of failure is the one at index `i`.
pub open spec fn first_failure_at(replies: Seq<ReplyView>, i: int) -> bool {
    &&& 0 <= i < replies.len()
    &&& replies[i] is Failed
    &&& forall|j: int| 0 <= j < i ==> !(#[trigger] replies[j] is Failed)
}

/// What a run of lookups comes to, given the replies in the order of the
/// addresses: the records of the replies that hold one, in that order, unless
/// a reply tells of failure, which is then the outcome.
pub open spec fn resolved(replies: Seq<ReplyView>) -> Result<Seq<IpApiRecordView>, Seq<char>> {
    if exists|i: int| first_failure_at(replies, i) {
        Err(replies[choose|i: int| first_failure_at(replies, i)]->Failed_reason)
    } else {
        Ok(replies.filter_map(|reply: ReplyView| reply_record(reply)))
    }
}

/// There is one first failure at most.
pub proof fn lemma_first_failure_unique(replies: Seq<ReplyView>, i: int, j: int)
    requires
        first_failure_at(replies, i),
        first_failure_at(replies, j),
    ensures
        i == j,
{
    if i < j {
        assert(replies[i] is Failed);
    } else if j < i {
        assert(replies[j] is Failed);
    }
}

/// A resolution that succeeds gives each reply that holds a record one slot,
/// and the others none: there are no more records than replies, and the
/// records stand in the order of their replies.
pub proof fn lemma_resolved_in_input_order(replies: Seq<ReplyView>)
    requires
        resolved(replies) is Ok,
    ensures
        resolved(replies)->Ok_0.len() <= replies.len(),
        forall|i: int| 0 <= i < replies.len() ==> !(#[trigger] replies[i] is Failed),
        forall|n: int|
            0 <= n <= replies.len() ==> #[trigger] resolved(replies.take(n)) is Ok && resolved(
                replies.take(n),
            )->Ok_0.is_prefix_of(resolved(replies)->Ok_0),
    decreases replies.len(),
{
    let f = |reply: ReplyView| reply_record(reply);
    assert forall|i: int| 0 <= i < replies.len() implies !(#[trigger] replies[i] is Failed) by {
        if replies[i] is Failed {
            lemma_some_failure_has_first(replies, i);
        }
    }
    lemma_filter_map_len(replies, f);
    assert forall|n: int| 0 <= n <= replies.len() implies #[trigger] resolved(replies.take(n)) is Ok
        && resolved(replies.take(n))->Ok_0.is_prefix_of(resolved(replies)->Ok_0) by {
        let part = replies.take(n);
        if exists|i: int| first_failure_at(part, i) {
            let i = choose|i: int| first_failure_at(part, i);
            assert(replies[i] is Failed);
        }
        lemma_filter_map_prefix(replies, f, n);
    }
}

/// What a run comes to when one more reply is taken in: a reply that tells
/// of failure ends a run that was well so far, any other reply adds its
/// record if it holds one, and a run that has failed stays failed.
pub open spec fn resolved_next(
    so_far: Result<Seq<IpApiRecordView>, Seq<char>>,
    reply: ReplyView,
) -> Result<Seq<IpApiRecordView>, Seq<char>> {
    match so_far {
        Ok(records) => match reply {
            ReplyView::Failed { reason } => Err(reason),
            _ => Ok(absorbed(records, reply)),
        },
        Err(reason) => Err(reason),
    }
}

/// Taking the replies in one by one comes to the same as resolving them
/// together.
pub proof fn lemma_resolved_step_by_step(replies: Seq<ReplyView>, reply: ReplyView)
    ensures
        resolved(replies.push(reply)) == resolved_next(resolved(replies), reply),
{
    let more = replies.push(reply);
    let f = |reply: ReplyView| reply_record(reply);
    if exists|i: int| first_failure_at(replies, i) {
        let i = choose|i: int| first_failure_at(replies, i);
        assert(first_failure_at(more, i));
        let k = choose|k: int| first_failure_at(more, k);
        lemma_first_failure_unique(more, i, k);
    } else {
        assert forall|j: int| 0 <= j < replies.len() implies !(#[trigger] replies[j] is Failed) by {
            if replies[j] is Failed {
                lemma_some_failure_has_first(replies, j);
            }
        }
        if reply is Failed {
            let n = replies.len() as int;
            assert(first_failure_at(more, n));
            let k = choose|k: int| first_failure_at(more, k);
            lemma_first_failure_unique(more, n, k);
        } else {
            if exists|i: int| first_failure_at(more, i) {
                let i = choose|i: int| first_failure_at(more, i);
                assert(more[i] is Failed);
            }
            assert(more.drop_last() =~= replies);
            assert(more.filter_map(f) =~= absorbed(replies.filter_map(f), reply));
        }
    }
}

/// Where some reply tells of failure, there is a first one that does.
proof fn lemma_some_failure_has_first(replies: Seq<ReplyView>, i: int)
    requires
        0 <= i < replies.len(),
        replies[i] is Failed,
    ensures
        exists|k: int| first_failure_at(replies, k),
    decreases i,
{
    if exists|j: int| 0 <= j < i && replies[j] is Failed {
        let j = choose|j: int| 0 <= j < i && replies[j] is Failed;
        lemma_some_failure_has_first(replies, j);
    } else {
        assert(first_failure_at(replies, i));
    }
}

/// What is kept of a sequence is no longer than the sequence.
proof fn lemma_filter_map_len<A, B>(s: Seq<A>, f: spec_fn(A) -> Option<B>)
    ensures
        s.filter_map(f).len() <= s.len(),
    decreases s.len(),
{
    if s.len() > 0 {
        lemma_filter_map_len(s.drop_last(), f);
    }
}

/// What is kept of the start of a sequence is the start of what is kept of
/// the sequence.
proof fn lemma_filter_map_prefix<A, B>(s: Seq<A>, f: spec_fn(A) -> Option<B>, n: int)
    requires
        0 <= n <= s.len(),
    ensures
        s.take(n).filter_map(f).is_prefix_of(s.filter_map(f)),
    decreases s.len(),
{
    if n == s.len() {
        assert(s.take(n) =~= s);
    } else {
        lemma_filter_map_prefix(s.drop_last(), f, n);
        assert(s.drop_last().take(n) =~= s.take(n));
    }
}

/// Reads the record out of an answer that was read as `parsed`.
pub fn decode_record(parsed: Result<Json, String>) -> (r: Result<IpApiRecord, RecordDecodeError>)
    ensures
        result_view(r) == decoded(result_view(parsed)),
{
    match parsed {
        Ok(value) => match value {
            Json::Object(_) => Ok(IpApiRecord::from_value(&value)),
            _ => Err(RecordDecodeError { reason: "the answer is no JSON object".to_owned() }),
        },
        Err(message) => Err(RecordDecodeError { reason: message }),
    }
}

/// Every name is one of the catalog.
pub open spec fn all_allowed(columns: Seq<Seq<char>>) -> bool {
    forall|i: int| 0 <= i < columns.len() ==> catalog().contains(#[trigger] columns[i])
}

/// Some field of the catalog is not among `columns`.
pub open spec fn narrowed(columns: Seq<Seq<char>>) -> bool {
    exists|i: int| 0 <= i < catalog().len() && !columns.contains(#[trigger] catalog()[i])
}

/// The texts with `sep` between each two of them.
pub open spec fn joined(parts: Seq<Seq<char>>, sep: char) -> Seq<char>
    decreases parts.len(),
{
    if parts.len() == 0 {
        Seq::empty()
    } else if parts.len() == 1 {
        parts[0]
    } else {
        joined(parts.drop_last(), sep) + seq![sep] + parts.last()
    }
}

/// The address at which the provider is asked about `ip`: the address goes
/// into the path, and the columns go into a `fields` parameter where they
/// leave a field of the catalog out.
pub open spec fn request_url_text(columns: Seq<Seq<char>>, ip: IpAddr) -> Seq<char> {
    let base = "http://ip-api.com/json/"@ + ip_text(ip);
    if narrowed(columns) {
        base + "?fields="@ + joined(columns, ',')
    } else {
        base
    }
}

/// Looks addresses up at the provider, for a set of columns. The columns are
/// names of the catalog.
pub struct Resolver {
    columns: Vec<String>,
}

impl Resolver {
    #[verifier::type_invariant]
    spec fn columns_allowed(self) -> bool {
        all_allowed(string_views(self.columns@))
    }

    /// The columns, as texts.
    pub closed spec fn columns_view(self) -> Seq<Seq<char>> {
        string_views(self.columns@)
    }

    /// The columns that this resolver asks for.
    pub fn columns(&self) -> (columns: &Vec<String>)
        ensures
            string_views(columns@) == self.columns_view(),
            all_allowed(self.columns_view()),
    {
        proof {
            use_type_invariant(self);
        }
        &self.columns
    }

    /// A resolver for the requested columns, as far as the provider knows
    /// them; for all of the provider's columns where none are requested.
    pub fn new(columns: Option<Vec<String>>) -> (resolver: Resolver)
        ensures
            resolver.columns_view() == effective_columns(optional_string_views(columns)),
    {
        match columns {
            Some(columns) => {
                let allowed_columns = Resolver::check_columns(columns);
                proof {
                    lemma_allowed_only_idempotent(string_views(columns@));
                }
                Resolver { columns: allowed_columns }
            },
            None => {
                let all = Resolver::allowed_columns();
                assert(all_allowed(string_views(all@))) by {
                    assert forall|i: int| 0 <= i < catalog().len() implies catalog().contains(
                        #[trigger] catalog()[i],
                    ) by {}
                }
                Resolver { columns: all }
            },
        }
    }

    /// Drops the requested names that the catalog does not hold.
    pub fn check_columns(requested_columns: Vec<String>) -> (columns: Vec<String>)
        ensures
            string_views(columns@) == allowed_only(string_views(requested_columns@)),
    {
        let allowed = Resolver::allowed_columns();
        let ghost requested = string_views(requested_columns@);
        let ghost pred = |name: Seq<char>| catalog().contains(name);
        let mut columns: Vec<String> = Vec::new();
        let mut i: usize = 0;
        assert(requested.take(0).filter(pred) =~= string_views(columns@)) by {
            reveal(Seq::filter);
        }
        while i < requested_columns.len()
            invariant
                i <= requested_columns.len(),
                requested == string_views(requested_columns@),
                pred == (|name: Seq<char>| catalog().contains(name)),
                string_views(allowed@) == catalog(),
                string_views(columns@) == requested.take(i as int).filter(pred),
            decreases requested_columns.len() - i,
        {
            proof {
                requested.take(i as int).lemma_filter_push(requested[i as int], pred);
                assert(requested.take(i as int).push(requested[i as int]) =~= requested.take(
                    i + 1,
                ));
            }
            if contains_string(&allowed, &requested_columns[i]) {
                let ghost kept = string_views(columns@);
                columns.push(requested_columns[i].clone());
                assert(string_views(columns@) =~= kept.push(requested[i as int]));
            }
            i = i + 1;
        }
        assert(requested.take(requested_columns.len() as int) =~= requested);
        columns
    }

    /// The catalog of the provider's fields.
    pub fn allowed_columns() -> (columns: Vec<String>)
        ensures
            string_views(columns@) == catalog(),
    {
        let mut columns: Vec<String> = Vec::new();
        columns.push("query".to_owned());
        columns.push("status".to_owned());
        columns.push("continent".to_owned());
        columns.push("continentCode".to_owned());
        columns.push("country".to_owned());
        columns.push("countryCode".to_owned());
        columns.push("region".to_owned());
        columns.push("regionName".to_owned());
        columns.push("city".to_owned());
        columns.push("district".to_owned());
        columns.push("zip".to_owned());
        columns.push("lat".to_owned());
        columns.push("lon".to_owned());
        columns.push("timezone".to_owned());
        columns.push("offset".to_owned());
        columns.push("currency".to_owned());
        columns.push("isp".to_owned());
        columns.push("org".to_owned());
        columns.push("as".to_owned());
        columns.push("asname".to_owned());
        columns.push("mobile".to_owned());
        columns.push("proxy".to_owned());
        columns.push("hosting".to_owned());
        assert(string_views(columns@) =~= catalog());
        columns
    }

    /// The address at which the provider is asked about `ip`.
    pub fn request_url(&self, ip: &IpAddr) -> (url: String)
        ensures
            url@ == request_url_text(self.columns_view(), *ip),
    {
        let mut url = "http://ip-api.com/json/".to_owned();
        let ip_text = ip.to_text();
        url.append(ip_text.as_str());
        if Resolver::leaves_out_a_field(&self.columns) {
            url.append("?fields=");
            let fields = join_with_commas(&self.columns);
            url.append(fields.as_str());
        }
        url
    }

    /// Whether some field of the catalog is not among `columns`.
    fn leaves_out_a_field(columns: &Vec<String>) -> (r: bool)
        ensures
            r == narrowed(string_views(columns@)),
    {
        let all = Resolver::allowed_columns();
        let mut i: usize = 0;
        while i < all.len()
            invariant
                i <= all.len(),
                string_views(all@) == catalog(),
                forall|j: int|
                    0 <= j < i ==> string_views(columns@).contains(#[trigger] catalog()[j]),
            decreases all.len() - i,
        {
            assert(string_views(all@)[i as int] == all@[i as int]@);
            if !contains_string(columns, &all[i]) {
                return true;
            }
            i = i + 1;
        }
        false
    }

    /// Takes one reply in: a record is added for a reply that holds one.
    pub fn absorb(records: &mut IpApiRecords, reply: Reply) -> (step: Step)
        ensures
            step@ == step_of(reply@),
            final(records)@ == absorbed(old(records)@, reply@),
    {
        match reply {
            Reply::Failed { reason } => Step::Failed(ResolutionError { reason }),
            Reply::Unreadable { reason } => Step::Skipped(RecordDecodeError { reason }),
            Reply::Body(bytes) => match decode_record(Json::parse(bytes.as_slice())) {
                Ok(record) => {
                    let ghost before = records_view(records.records@);
                    records.records.push(record);
                    assert(records_view(records.records@) =~= before.push(record@));
                    Step::Recorded
                },
                Err(error) => Step::Skipped(error),
            },
        }
    }

    /// Resolves addresses from the replies to their requests, which stand in
    /// the order of the addresses. A reply that holds no record is passed
    /// over. A reply that tells of failure ends the resolution with an error:
    /// it is the last that is looked at, and no records are handed out.
    pub fn resolve(&self, replies: Vec<Reply>) -> (r: Result<IpApiRecords, ResolutionError>)
        ensures
            result_view(r) == resolved(replies_view(replies@)),
    {
        let ghost all = replies_view(replies@);
        let ghost f = |reply: ReplyView| reply_record(reply);
        let mut records = IpApiRecords::new();
        assert(records@ =~= all.take(0).filter_map(f));
        for reply in it: replies
            invariant
                it.seq() == replies@,
                all == replies_view(replies@),
                f == (|reply: ReplyView| reply_record(reply)),
                forall|j: int| 0 <= j < it.index() ==> !(#[trigger] all[j] is Failed),
                records@ == all.take(it.index()).filter_map(f),
        {
            proof {
                all.lemma_filter_map_take_succ(f, it.index());
                assert(all[it.index()] == reply@);
            }
            match Resolver::absorb(&mut records, reply) {
                Step::Failed(error) => {
                    proof {
                        let i = it.index();
                        assert(first_failure_at(all, i));
                        let k = choose|k: int| first_failure_at(all, k);
                        lemma_first_failure_unique(all, i, k);
                    }
                    return Err(error);
                },
                _ => {},
            }
        }
        proof {
            assert(all.take(replies@.len() as int) =~= all);
            if exists|i: int| first_failure_at(all, i) {
                let i = choose|i: int| first_failure_at(all, i);
                assert(all[i] is Failed);
            }
        }
        Ok(records)
    }
}

/// Writes the texts with a comma between each two of them.
fn join_with_commas(parts: &Vec<String>) -> (text: String)
    ensures
        text@ == joined(string_views(parts@), ','),
{
    proof {
        reveal_strlit(",");
    }
    let ghost views = string_views(parts@);
    let mut text = String::new();
    let mut i: usize = 0;
    assert(views.take(0) =~= Seq::<Seq<char>>::empty());
    while i < parts.len()
        invariant
            i <= parts.len(),
            views == string_views(parts@),
            ","@ == seq![','],
            text@ == joined(views.take(i as int), ','),
        decreases parts.len() - i,
    {
        let ghost now = views.take(i + 1);
        assert(now.drop_last() =~= views.take(i as int));
        assert(now.last() == parts@[i as int]@);
        if i > 0 {
            text.append(",");
        }
        text.append(parts[i].as_str());
        assert(text@ =~= joined(now, ','));
        i = i + 1;
    }
    assert(views.take(parts.len() as int) =~= views);
    text
}

} // verus!
