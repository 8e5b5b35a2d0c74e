use libchickadee::addr::{IpAddr, Ipv4Addr, Ipv6Addr};
use libchickadee::json::{Json, Number};
use libchickadee::resolver::ip_api::{
    decode_record, IpApiRecord, IpApiRecords, RecordDecodeError, Reply, ResolutionError, Resolver,
    Step,
};

fn names(list: &[&str]) -> Vec<String> {
    list.iter().map(|s| s.to_string()).collect()
}

fn answer_for(query: &str, city: &str) -> Vec<u8> {
    format!("{{\"query\":\"{}\",\"city\":\"{}\"}}", query, city).into_bytes()
}

fn empty_record() -> IpApiRecord {
    IpApiRecord::from_value(&Json::Object(vec![]))
}

#[test]
fn test_cols_allowed() {
    let sample = vec![
        String::from("query"),
        String::from("status"),
        String::from("lat"),
        String::from("lon"),
    ];
    let actual = Resolver::check_columns(sample.to_owned());
    assert_eq!(sample, actual);
}

#[test]
fn test_resolve_single_ip() {
    let resolver = Resolver::new(Some(vec![String::from("query"), String::from("city")]));
    let ips = vec![IpAddr::V4(Ipv4Addr::new(1, 1, 1, 1))];
    let replies: Vec<Reply> = ips
        .iter()
        .map(|ip| Reply::Body(answer_for(&ip.to_text(), "South Brisbane")))
        .collect();
    let res = resolver.resolve(replies);

    assert!(res.is_ok());

    let resolved = res.unwrap();

    assert_eq!(1, resolved.records.len());
    assert_eq!(Some(String::from("1.1.1.1")), resolved.records[0].query);
    assert_eq!(Some(String::from("South Brisbane")), resolved.records[0].city);
}

#[test]
fn unknown_columns_are_dropped() {
    let with_unknown = Resolver::new(Some(names(&["query", "bogus"])));
    let without = Resolver::new(Some(names(&["query"])));
    assert_eq!(&names(&["query"]), with_unknown.columns());
    assert_eq!(without.columns(), with_unknown.columns());
    let ip = IpAddr::V4(Ipv4Addr::new(9, 9, 9, 9));
    assert_eq!(without.request_url(&ip), with_unknown.request_url(&ip));
}

#[test]
fn check_columns_keeps_order_and_repeats() {
    let requested = names(&["lon", "Query", "query", "", "lon", "country_code", "countryCode", "as"]);
    assert_eq!(
        names(&["lon", "query", "lon", "countryCode", "as"]),
        Resolver::check_columns(requested)
    );
    assert_eq!(Vec::<String>::new(), Resolver::check_columns(vec![]));
}

#[test]
fn no_selection_means_the_whole_catalog() {
    let resolver = Resolver::new(None);
    assert_eq!(&Resolver::allowed_columns(), resolver.columns());
    assert_eq!(
        names(&[
            "query", "status", "continent", "continentCode", "country", "countryCode", "region",
            "regionName", "city", "district", "zip", "lat", "lon", "timezone", "offset",
            "currency", "isp", "org", "as", "asname", "mobile", "proxy", "hosting",
        ]),
        Resolver::allowed_columns()
    );
}

#[test]
fn request_url_without_selection_has_no_fields() {
    let resolver = Resolver::new(None);
    assert_eq!(
        "http://ip-api.com/json/1.1.1.1",
        resolver.request_url(&IpAddr::V4(Ipv4Addr::new(1, 1, 1, 1)))
    );
    assert_eq!(
        "http://ip-api.com/json/2001:4860:4860::8844",
        resolver.request_url(&IpAddr::V6(Ipv6Addr::new(0x2001, 0x4860, 0x4860, 0, 0, 0, 0, 0x8844)))
    );
}

#[test]
fn request_url_lists_the_selected_fields() {
    let ip = IpAddr::V4(Ipv4Addr::new(8, 8, 4, 4));
    assert_eq!(
        "http://ip-api.com/json/8.8.4.4?fields=query,city",
        Resolver::new(Some(names(&["query", "city"]))).request_url(&ip)
    );
    assert_eq!(
        "http://ip-api.com/json/8.8.4.4?fields=countryCode",
        Resolver::new(Some(names(&["countryCode"]))).request_url(&ip)
    );
    assert_eq!(
        "http://ip-api.com/json/8.8.4.4?fields=",
        Resolver::new(Some(names(&["nothing", "known"]))).request_url(&ip)
    );
    assert_eq!(
        "http://ip-api.com/json/8.8.4.4?fields=",
        Resolver::new(Some(vec![])).request_url(&ip)
    );
}

#[test]
fn request_url_has_no_fields_when_every_field_is_selected() {
    let ip = IpAddr::V4(Ipv4Addr::new(8, 8, 4, 4));
    let mut all = Resolver::allowed_columns();
    all.reverse();
    all.push(String::from("query"));
    assert_eq!("http://ip-api.com/json/8.8.4.4", Resolver::new(Some(all)).request_url(&ip));
}

#[test]
fn from_value_reads_every_field() {
    let text = "{\"query\":\"24.48.0.1\",\"status\":\"success\",\"continent\":\"North America\",\
        \"continentCode\":\"NA\",\"country\":\"Canada\",\"countryCode\":\"CA\",\"region\":\"QC\",\
        \"regionName\":\"Quebec\",\"city\":\"Montreal\",\"district\":\"\",\"zip\":\"H1K\",\
        \"lat\":45.6085,\"lon\":-73.5493,\"timezone\":\"America/Toronto\",\"offset\":14400,\
        \"currency\":\"CAD\",\"isp\":\"Le Groupe Videotron Ltee\",\"org\":\"Videotron Ltee\",\
        \"as\":\"AS5769 Videotron Ltee\",\"asname\":\"VIDEOTRON\",\"mobile\":false,\
        \"proxy\":true,\"hosting\":false}";
    let value = Json::parse(text.as_bytes()).unwrap();
    let record = IpApiRecord::from_value(&value);
    let s = |t: &str| Some(String::from(t));
    assert_eq!(
        IpApiRecord {
            query: s("24.48.0.1"),
            status: s("success"),
            continent: s("North America"),
            continent_code: s("NA"),
            country: s("Canada"),
            country_code: s("CA"),
            region: s("QC"),
            region_name: s("Quebec"),
            city: s("Montreal"),
            district: s(""),
            zip: s("H1K"),
            lat: Some(Number::Float(String::from("45.6085"))),
            lon: Some(Number::Float(String::from("-73.5493"))),
            timezone: s("America/Toronto"),
            offset: Some(14400),
            currency: s("CAD"),
            isp: s("Le Groupe Videotron Ltee"),
            org: s("Videotron Ltee"),
            asn: s("AS5769 Videotron Ltee"),
            asname: s("VIDEOTRON"),
            mobile: Some(false),
            proxy: Some(true),
            hosting: Some(false),
        },
        record
    );
}

#[test]
fn from_value_leaves_out_what_is_missing_or_of_another_kind() {
    let text = "{\"query\":7,\"city\":null,\"lat\":\"45\",\"lon\":12,\"offset\":-3600,\
        \"mobile\":\"yes\",\"proxy\":1,\"country_code\":\"CA\",\"asn\":\"AS1\",\"zip\":[\"H1K\"]}";
    let value = Json::parse(text.as_bytes()).unwrap();
    let record = IpApiRecord::from_value(&value);
    let mut expected = empty_record();
    expected.lon = Some(Number::PosInt(12));
    assert_eq!(expected, record);
    assert_eq!(None, record.country_code);
    assert_eq!(None, record.asn);
}

#[test]
fn from_value_keeps_the_low_bits_of_a_large_offset() {
    let value = Json::parse(b"{\"offset\":4294967297}").unwrap();
    assert_eq!(Some(1), IpApiRecord::from_value(&value).offset);
    let value = Json::parse(b"{\"offset\":4294967295}").unwrap();
    assert_eq!(Some(4294967295), IpApiRecord::from_value(&value).offset);
    let value = Json::parse(b"{\"offset\":1.5}").unwrap();
    assert_eq!(None, IpApiRecord::from_value(&value).offset);
}

#[test]
fn from_value_of_what_is_no_object_is_empty() {
    assert_eq!(empty_record(), IpApiRecord::from_value(&Json::Null));
    assert_eq!(None, empty_record().query);
    assert_eq!(None, empty_record().hosting);
}

#[test]
fn decode_record_wants_an_object() {
    assert!(decode_record(Json::parse(b"{}")).is_ok());
    assert_eq!(
        Err(RecordDecodeError { reason: String::from("the answer is no JSON object") }),
        decode_record(Json::parse(b"[1]"))
    );
    assert_eq!(
        Err(RecordDecodeError { reason: String::from("boom") }),
        decode_record(Err(String::from("boom")))
    );
    assert!(decode_record(Json::parse(b"{\"query\":")).is_err());
}

#[test]
fn absorb_adds_a_record_for_a_good_answer() {
    let mut records = IpApiRecords::new();
    assert_eq!(Step::Recorded, Resolver::absorb(&mut records, Reply::Body(answer_for("1.1.1.1", "A"))));
    assert_eq!(Step::Recorded, Resolver::absorb(&mut records, Reply::Body(answer_for("2.2.2.2", "B"))));
    assert_eq!(2, records.records.len());
    assert_eq!(Some(String::from("1.1.1.1")), records.records[0].query);
    assert_eq!(Some(String::from("B")), records.records[1].city);
}

#[test]
fn absorb_passes_over_what_holds_no_record() {
    let mut records = IpApiRecords::new();
    let step = Resolver::absorb(&mut records, Reply::Body(b"<html>".to_vec()));
    assert!(matches!(step, Step::Skipped(_)));
    assert_eq!(
        Step::Skipped(RecordDecodeError { reason: String::from("the answer is no JSON object") }),
        Resolver::absorb(&mut records, Reply::Body(b"\"text\"".to_vec()))
    );
    assert_eq!(
        Step::Skipped(RecordDecodeError { reason: String::from("cut short") }),
        Resolver::absorb(&mut records, Reply::Unreadable { reason: String::from("cut short") })
    );
    assert_eq!(
        Step::Failed(ResolutionError { reason: String::from("refused") }),
        Resolver::absorb(&mut records, Reply::Failed { reason: String::from("refused") })
    );
    assert_eq!(0, records.records.len());
}

#[test]
fn resolve_keeps_the_order_and_skips_bad_answers() {
    let resolver = Resolver::new(None);
    let replies = vec![
        Reply::Body(answer_for("1.1.1.1", "A")),
        Reply::Body(b"not json".to_vec()),
        Reply::Unreadable { reason: String::from("cut short") },
        Reply::Body(answer_for("4.4.4.4", "D")),
        Reply::Body(b"[]".to_vec()),
        Reply::Body(answer_for("6.6.6.6", "F")),
    ];
    let records = resolver.resolve(replies).unwrap().records;
    let queries: Vec<Option<String>> = records.into_iter().map(|r| r.query).collect();
    assert_eq!(
        vec![
            Some(String::from("1.1.1.1")),
            Some(String::from("4.4.4.4")),
            Some(String::from("6.6.6.6"))
        ],
        queries
    );
}

#[test]
fn resolve_ends_with_the_first_failure() {
    let resolver = Resolver::new(None);
    let replies = vec![
        Reply::Body(answer_for("1.1.1.1", "A")),
        Reply::Failed { reason: String::from("first") },
        Reply::Body(answer_for("3.3.3.3", "C")),
        Reply::Failed { reason: String::from("second") },
    ];
    assert_eq!(
        Err(ResolutionError { reason: String::from("first") }),
        resolver.resolve(replies)
    );
    assert_eq!(
        Err(ResolutionError { reason: String::from("at once") }),
        resolver.resolve(vec![Reply::Failed { reason: String::from("at once") }])
    );
}

#[test]
fn resolve_of_no_replies_gives_no_records() {
    let resolved = Resolver::new(None).resolve(vec![]).unwrap();
    assert_eq!(IpApiRecords::new(), resolved);
    assert_eq!(IpApiRecords::default(), resolved);
    assert!(resolved.records.is_empty());
}
