use libchickadee::addr::{IpAddr, Ipv4Addr};
use libchickadee::json::Json;
use libchickadee::resolver::virustotal::{
    Resolution, StringOrInt, VTResolver, VirusTotalRecord, VtDecodeError,
};

fn resolution(hostname: &str, last_resolved: &str) -> Resolution {
    Resolution { hostname: String::from(hostname), last_resolved: String::from(last_resolved) }
}

fn empty_record() -> VirusTotalRecord {
    VirusTotalRecord {
        response_code: None,
        verbose_msg: None,
        asn: None,
        country: None,
        resolutions: None,
        detected_url_count: 0,
        detected_downloaded_sample_count: 0,
        undetected_downloaded_sample_count: 0,
        undetected_url_count: 0,
    }
}

#[test]
fn request_url_names_key_and_address() {
    let _ = VTResolver::new();
    assert_eq!(
        "https://www.virustotal.com/vtapi/v2/ip-address/report?apikey=k3y&ip=8.8.8.8",
        VTResolver::request_url("k3y", &IpAddr::V4(Ipv4Addr::new(8, 8, 8, 8)))
    );
}

#[test]
fn parse_reads_a_full_answer() {
    let text = "{\"response_code\":1,\"verbose_msg\":\"IP address in dataset\",\"asn\":15169,\
        \"country\":\"US\",\"resolutions\":[{\"hostname\":\"dns.google\",\
        \"last_resolved\":\"2020-01-01 00:00:00\",\"extra\":1}],\
        \"detected_urls\":[{\"url\":\"http://a/\"},{\"url\":\"http://b/\"}],\
        \"detected_downloaded_samples\":[1,2,3],\"undetected_downloaded_samples\":[],\
        \"undetected_urls\":[[\"x\"]],\"more\":true}";
    assert_eq!(
        Ok(VirusTotalRecord {
            response_code: Some(1),
            verbose_msg: Some(String::from("IP address in dataset")),
            asn: Some(StringOrInt::Int(15169)),
            country: Some(String::from("US")),
            resolutions: Some(vec![resolution("dns.google", "2020-01-01 00:00:00")]),
            detected_url_count: 2,
            detected_downloaded_sample_count: 3,
            undetected_downloaded_sample_count: 0,
            undetected_url_count: 1,
        }),
        VTResolver::parse(text)
    );
}

#[test]
fn parse_takes_missing_and_null_fields_as_absent() {
    assert_eq!(Ok(empty_record()), VTResolver::parse("{}"));
    assert_eq!(
        Ok(empty_record()),
        VTResolver::parse("{\"response_code\":null,\"asn\":null,\"resolutions\":null,\"detected_urls\":null}")
    );
    let mut with_text_asn = empty_record();
    with_text_asn.asn = Some(StringOrInt::String(String::from("AS15169")));
    with_text_asn.response_code = Some(-1);
    assert_eq!(
        Ok(with_text_asn),
        VTResolver::parse("{\"asn\":\"AS15169\",\"response_code\":-1}")
    );
}

#[test]
fn parse_refuses_fields_of_another_kind() {
    for text in [
        "[]",
        "1",
        "{\"response_code\":\"1\"}",
        "{\"response_code\":1.5}",
        "{\"response_code\":2147483648}",
        "{\"response_code\":-2147483649}",
        "{\"verbose_msg\":1}",
        "{\"asn\":true}",
        "{\"asn\":4294967296}",
        "{\"country\":[\"US\"]}",
        "{\"resolutions\":{}}",
        "{\"resolutions\":[{\"hostname\":\"a\"}]}",
        "{\"resolutions\":[{\"hostname\":\"a\",\"last_resolved\":null}]}",
        "{\"resolutions\":[\"a\"]}",
        "{\"detected_urls\":3}",
        "{\"undetected_urls\":\"none\"}",
    ] {
        assert_eq!(Err(VtDecodeError::Shape), VTResolver::parse(text), "{}", text);
    }
    assert_eq!(
        Ok(Some(2147483647)),
        VTResolver::parse("{\"response_code\":2147483647}").map(|r| r.response_code)
    );
    assert_eq!(
        Ok(Some(-2147483648)),
        VTResolver::parse("{\"response_code\":-2147483648}").map(|r| r.response_code)
    );
}

#[test]
fn parse_refuses_what_is_no_json() {
    assert!(matches!(VTResolver::parse("<html>"), Err(VtDecodeError::Json { .. })));
    assert_eq!(
        Err(VtDecodeError::Json { reason: String::from("boom") }),
        VTResolver::decode(Err(String::from("boom")))
    );
    assert_eq!(None, VTResolver::record_from_value(&Json::Null));
}

#[test]
fn a_report_shows_five_resolutions_at_most() {
    let mut record = empty_record();
    assert_eq!(None, record.shown_resolutions());
    record.resolutions = Some(vec![]);
    assert_eq!(Some(vec![]), record.shown_resolutions());
    let all: Vec<Resolution> =
        (0..7).map(|i| resolution(&format!("h{}", i), &format!("t{}", i))).collect();
    record.resolutions = Some(all.clone());
    assert_eq!(Some(all[..5].to_vec()), record.shown_resolutions());
    record.resolutions = Some(all[..3].to_vec());
    assert_eq!(Some(all[..3].to_vec()), record.shown_resolutions());
}
