use flate2::write::GzEncoder;
use flate2::Compression;
use libchickadee::addr::{IpAddr, Ipv4Addr, Ipv6Addr};
use libchickadee::parser::compressed::{decompress, parse_gzip_file, text_of_unpacked};
use libchickadee::parser::plain::parse_text_file;
use libchickadee::parser::{determine_file_type, DecodeError, SourceFileType};
use std::io::Write;
use std::path::Path;

fn gzip(bytes: &[u8]) -> Vec<u8> {
    let mut encoder = GzEncoder::new(Vec::new(), Compression::default());
    encoder.write_all(bytes).unwrap();
    encoder.finish().unwrap()
}

fn head(bytes: &[u8]) -> &[u8] {
    &bytes[..bytes.len().min(3)]
}

#[test]
fn test_determine_file_type_str() {
    let path = Path::new("not-a-file.txt");
    let actual = determine_file_type(path.exists(), path.is_dir(), &[]);
    assert_eq!(SourceFileType::NotAFile, actual);
}

#[test]
fn test_determine_file_type_dir() {
    let source = Path::new(".");
    let actual = determine_file_type(source.exists(), source.is_dir(), &[]);
    assert_eq!(SourceFileType::NotAFile, actual);
}

#[test]
fn test_determine_file_type_plain() {
    let contents = b"1.1.1.1\n2.2.2.2";
    let actual = determine_file_type(true, false, head(contents));
    assert_eq!(SourceFileType::Plain, actual);
}

#[test]
fn test_determine_file_type_gzip() {
    let contents = gzip(b"1.1.1.1\n2.2.2.2");
    let actual = determine_file_type(true, false, head(&contents));
    assert_eq!(SourceFileType::Gzip, actual);
}

#[test]
fn short_files_are_plain_text() {
    assert_eq!(SourceFileType::Plain, determine_file_type(true, false, &[]));
    assert_eq!(SourceFileType::Plain, determine_file_type(true, false, &[0x1f]));
    assert_eq!(SourceFileType::Plain, determine_file_type(true, false, &[0x1f, 0x8b]));
    assert_eq!(SourceFileType::Gzip, determine_file_type(true, false, &[0x1f, 0x8b, 0x08]));
    assert_eq!(SourceFileType::Gzip, determine_file_type(true, false, &[0x1f, 0x8b, 0x08, 0x00]));
}

#[test]
fn the_signature_has_to_match_byte_for_byte() {
    assert_eq!(SourceFileType::Plain, determine_file_type(true, false, &[0x1f, 0x8b, 0x09]));
    assert_eq!(SourceFileType::Plain, determine_file_type(true, false, &[0x1e, 0x8b, 0x08]));
    assert_eq!(SourceFileType::Plain, determine_file_type(true, false, &[0x1f, 0x8a, 0x08]));
    assert_eq!(SourceFileType::Plain, determine_file_type(true, false, &[0x00, 0x1f, 0x8b, 0x08]));
}

#[test]
fn what_is_missing_or_a_directory_is_no_file() {
    let gz = [0x1f, 0x8b, 0x08];
    assert_eq!(SourceFileType::NotAFile, determine_file_type(false, false, &gz));
    assert_eq!(SourceFileType::NotAFile, determine_file_type(true, true, &gz));
    assert_eq!(SourceFileType::NotAFile, determine_file_type(false, true, &gz));
}

#[test]
fn test_gunzip() {
    let contents = gzip(b"1.1.1.1\n2.2.2.2");

    let res = parse_gzip_file(&contents);
    assert!(res.is_ok());
    let res = res.unwrap();
    assert_eq!(
        vec![
            IpAddr::V4(Ipv4Addr::new(1, 1, 1, 1)),
            IpAddr::V4(Ipv4Addr::new(2, 2, 2, 2))
        ],
        res
    );
}

#[test]
fn test_parse_text_file() {
    let tests = vec![
        ("8.8.8.8", vec![IpAddr::V4(Ipv4Addr::new(8, 8, 8, 8))]),
        (
            "10.0.0.1,10.0.2.1",
            vec![
                IpAddr::V4(Ipv4Addr::new(10, 0, 0, 1)),
                IpAddr::V4(Ipv4Addr::new(10, 0, 2, 1)),
            ],
        ),
        (
            "1.1.1.1,sample,127.0.0.1,data,2001:4860:4860::8844,foo",
            vec![
                IpAddr::V4(Ipv4Addr::new(1, 1, 1, 1)),
                IpAddr::V4(Ipv4Addr::new(127, 0, 0, 1)),
                IpAddr::V6(Ipv6Addr::new(
                    0x2001, 0x4860, 0x4860, 0x0, 0x0, 0x0, 0x0, 0x8844,
                )),
            ],
        ),
    ];
    for test in tests {
        let sample = format!("{}\n", test.0);
        let actual = parse_text_file(sample.as_bytes());
        let expected = test.1;
        assert!(actual.is_ok());
        let actual = actual.unwrap();
        assert_eq!(expected, actual);
    }
}

#[test]
fn decompress_gives_the_text_back() {
    assert_eq!(Ok(String::from("1.1.1.1\n2.2.2.2")), decompress(&gzip(b"1.1.1.1\n2.2.2.2")));
    assert_eq!(Ok(String::new()), decompress(&gzip(b"")));
    assert_eq!(Ok(String::from("h\u{e9}llo")), decompress(&gzip("h\u{e9}llo".as_bytes())));
}

#[test]
fn decompress_refuses_what_is_no_gzip() {
    assert!(matches!(decompress(b"1.1.1.1\n2.2.2.2"), Err(DecodeError::Gzip { .. })));
    assert!(matches!(decompress(b""), Err(DecodeError::Gzip { .. })));
    let mut cut = gzip(b"1.1.1.1\n2.2.2.2, and some more text to pack");
    cut.truncate(cut.len() - 6);
    assert!(matches!(decompress(&cut), Err(DecodeError::Gzip { .. })));
    assert!(matches!(parse_gzip_file(b"plain"), Err(DecodeError::Gzip { .. })));
}

#[test]
fn decompress_refuses_what_is_no_text() {
    assert_eq!(Err(DecodeError::Utf8), decompress(&gzip(&[0x31, 0xff, 0x32])));
    assert_eq!(Err(DecodeError::Utf8), parse_gzip_file(&gzip(&[0xc3])));
}

#[test]
fn text_of_unpacked_tells_the_errors_apart() {
    assert_eq!(Ok(String::from("abc")), text_of_unpacked(Ok(b"abc".to_vec())));
    assert_eq!(Err(DecodeError::Utf8), text_of_unpacked(Ok(vec![0x80])));
    assert_eq!(
        Err(DecodeError::Gzip { reason: String::from("bad header") }),
        text_of_unpacked(Err(String::from("bad header")))
    );
}

#[test]
fn text_files_have_to_be_utf8() {
    assert_eq!(Err(DecodeError::Utf8), parse_text_file(&[0x31, 0x2e, 0xff]));
    assert_eq!(Ok(vec![]), parse_text_file(b""));
    assert_eq!(
        Ok(vec![IpAddr::V4(Ipv4Addr::new(1, 2, 3, 4))]),
        parse_text_file("\u{fc}ber 1.2.3.4 \u{1f600}".as_bytes())
    );
}
