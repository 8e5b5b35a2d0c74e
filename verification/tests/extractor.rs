use flate2::write::GzEncoder;
use flate2::Compression;
use libchickadee::addr::{IpAddr, Ipv4Addr};
use libchickadee::extractor::Extractor;
use libchickadee::parser::{DecodeError, SourceFileType};
use std::io::Write;

fn v4(a: u8, b: u8, c: u8, d: u8) -> IpAddr {
    IpAddr::V4(Ipv4Addr::new(a, b, c, d))
}

#[test]
fn test_resolve_ip_addresses_from_file() {
    let contents = format!("{},{},\t{}\n{}", "1.1.1.1", "2.2.2.2", "4", "3.3.3.3");

    let extractor = Extractor::new(String::from("addresses.txt"), true);
    let ip_addresses = extractor.extract(SourceFileType::Plain, contents.as_bytes());

    assert!(ip_addresses.is_ok());
    assert!(ip_addresses.unwrap().len() == 3);
}

#[test]
fn a_literal_source_is_searched_itself() {
    let extractor = Extractor::new(String::from("1.1.1.1,2.2.2.2\t3.3.3.3\n4.4.4.4"), false);
    assert_eq!(
        Ok(vec![v4(1, 1, 1, 1), v4(2, 2, 2, 2), v4(3, 3, 3, 3), v4(4, 4, 4, 4)]),
        extractor.extract(SourceFileType::NotAFile, &[])
    );
    assert_eq!(
        Ok(vec![v4(1, 1, 1, 1), v4(2, 2, 2, 2), v4(3, 3, 3, 3), v4(4, 4, 4, 4)]),
        extractor.extract(SourceFileType::Plain, b"9.9.9.9")
    );
}

#[test]
fn a_file_source_is_read_by_its_kind() {
    let extractor = Extractor::new(String::from("10.0.0.1"), true);
    assert_eq!(Ok(vec![v4(9, 9, 9, 9)]), extractor.extract(SourceFileType::Plain, b"9.9.9.9"));
    let mut encoder = GzEncoder::new(Vec::new(), Compression::default());
    encoder.write_all(b"8.8.8.8 8.8.4.4").unwrap();
    let packed = encoder.finish().unwrap();
    assert_eq!(
        Ok(vec![v4(8, 8, 8, 8), v4(8, 8, 4, 4)]),
        extractor.extract(SourceFileType::Gzip, &packed)
    );
    assert_eq!(Ok(vec![v4(10, 0, 0, 1)]), extractor.extract(SourceFileType::NotAFile, b"9.9.9.9"));
}

#[test]
fn a_file_that_cannot_be_decoded_is_an_error() {
    let extractor = Extractor::new(String::from("10.0.0.1"), true);
    assert!(matches!(
        extractor.extract(SourceFileType::Gzip, b"9.9.9.9"),
        Err(DecodeError::Gzip { .. })
    ));
    assert_eq!(Err(DecodeError::Utf8), extractor.extract(SourceFileType::Plain, &[0xff]));
}
