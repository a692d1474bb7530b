use ferry_runtime::calendar::{day_key, iso8601, rfc1123};
use ferry_runtime::dates::parse_rfc1123;
use ferry_runtime::dav::http::{
    base64_decode, constant_time_eq, destination_path, etag, parse_header_line, parse_range,
    parse_request_line, percent_decode, range_outcome, write_head, Header, RangeOutcome,
};

#[test]
fn base64_decodes_a_basic_auth_pair() {
    assert_eq!(
        base64_decode("ZmVycnk6c2VjcmV0"),
        Some(b"ferry:secret".to_vec())
    );
}

#[test]
fn base64_refuses_a_non_alphabet_byte() {
    assert_eq!(base64_decode("not base64!!"), None);
}

#[test]
fn constant_time_eq_agrees_with_plain_equality() {
    assert!(constant_time_eq(b"abc", b"abc"));
    assert!(!constant_time_eq(b"abc", b"abd"));
    assert!(!constant_time_eq(b"abc", b"ab"));
}

#[test]
fn rfc1123_matches_known_dates() {
    assert_eq!(rfc1123(0), "Thu, 01 Jan 1970 00:00:00 GMT");
    assert_eq!(rfc1123(946_684_800), "Sat, 01 Jan 2000 00:00:00 GMT");
    assert_eq!(rfc1123(1_757_419_200), "Tue, 09 Sep 2025 12:00:00 GMT");
    assert_eq!(rfc1123(1_500_000_000), "Fri, 14 Jul 2017 02:40:00 GMT");
}

#[test]
fn iso8601_matches_known_dates() {
    assert_eq!(iso8601(0), "1970-01-01T00:00:00Z");
    assert_eq!(iso8601(946_684_800), "2000-01-01T00:00:00Z");
    assert_eq!(iso8601(1_757_419_200), "2025-09-09T12:00:00Z");
}

#[test]
fn percent_decode_reads_escapes_once() {
    assert_eq!(percent_decode("a%2Fb"), "a/b");
    assert_eq!(percent_decode("Q3%20notes.md"), "Q3 notes.md");
    assert_eq!(percent_decode("plain"), "plain");
}

#[test]
fn range_reads_a_bounded_span() {
    assert_eq!(parse_range("bytes=0-99", 1000), Some((0, 99)));
    assert_eq!(parse_range("bytes=900-", 1000), Some((900, 999)));
    assert_eq!(parse_range("bytes=-100", 1000), Some((900, 999)));
}

#[test]
fn range_clamps_an_end_past_the_file() {
    assert_eq!(parse_range("bytes=0-99999", 1000), Some((0, 999)));
}

#[test]
fn range_refuses_a_backwards_span() {
    assert_eq!(parse_range("bytes=500-100", 1000), None);
}

#[test]
fn a_date_reads_back_to_the_moment_it_names() {
    for secs in [
        0i64,
        -1,
        946_684_800,
        951_782_400,
        1_757_419_200,
        253_402_300_799,
        -62_135_596_800,
    ] {
        assert_eq!(parse_rfc1123(&rfc1123(secs)), Some(secs), "{secs}");
    }
}

#[test]
fn a_text_that_is_no_date_does_not_read() {
    for text in [
        "",
        "Thu, 01 Jan 1970 00:00:00 UTC",
        "Fri, 01 Jan 1970 00:00:00 GMT",
        "Thu, 32 Jan 1970 00:00:00 GMT",
        "Thu, 01 Foo 1970 00:00:00 GMT",
        "Thu, 01 Jan 1970 24:00:00 GMT",
        "Mon, 29 Feb 2021 00:00:00 GMT",
        "1970-01-01T00:00:00Z",
    ] {
        assert_eq!(parse_rfc1123(text), None, "{text}");
    }
}

#[test]
fn later_days_have_later_keys() {
    assert_eq!(day_key(0), "19700101");
    assert!(day_key(86_399) == day_key(0));
    assert!(day_key(86_400) > day_key(86_399));
    assert!(day_key(1_757_419_200) > day_key(946_684_800));
}

#[test]
fn a_range_past_the_file_cannot_be_met() {
    assert!(matches!(range_outcome(None, 10), RangeOutcome::Absent));
    assert!(matches!(
        range_outcome(Some("bytes=2-3"), 10),
        RangeOutcome::Satisfiable(2, 3)
    ));
    assert!(matches!(
        range_outcome(Some("bytes=10-20"), 10),
        RangeOutcome::Unsatisfiable
    ));
    assert!(matches!(range_outcome(Some("bytes=10-"), 10), RangeOutcome::Unsatisfiable));
    assert!(matches!(range_outcome(Some("bytes=-0"), 10), RangeOutcome::Unsatisfiable));
    assert!(matches!(range_outcome(Some("bytes=9-"), 10), RangeOutcome::Satisfiable(9, 9)));
    assert!(matches!(range_outcome(Some("bytes=5-3"), 10), RangeOutcome::Absent));
    assert!(matches!(range_outcome(Some("lines=1-2"), 10), RangeOutcome::Absent));
}

#[test]
fn a_destination_has_to_name_this_host() {
    let here = "127.0.0.1:8080";
    assert_eq!(
        destination_path(Some("http://127.0.0.1:8080/DCIM/a%20b.jpg"), here),
        Some("/DCIM/a b.jpg".to_owned())
    );
    assert_eq!(destination_path(Some("http://elsewhere/DCIM"), here), None);
    assert_eq!(destination_path(None, here), None);
}

#[test]
fn a_request_line_and_a_header_read() {
    let (method, target) = parse_request_line("GET /DCIM HTTP/1.1");
    assert_eq!(method, "GET");
    assert_eq!(target, "/DCIM");
    let header = parse_header_line("Content-Length:  12 ").expect("a header");
    assert_eq!(header.name, "content-length");
    assert_eq!(header.value, "12");
    assert!(parse_header_line("no colon").is_none());
}

#[test]
fn a_head_is_written_with_its_date() {
    let headers = vec![Header {
        name: "Content-Length".to_owned(),
        value: "0".to_owned(),
    }];
    let head = write_head("200 OK", &headers, 0);
    assert!(head.starts_with("HTTP/1.1 200 OK\r\n"), "{head}");
    assert!(head.contains("Content-Length: 0\r\n"), "{head}");
    assert!(head.contains("Thu, 01 Jan 1970 00:00:00 GMT"), "{head}");
    assert!(head.ends_with("\r\n\r\n"), "{head}");
}

#[test]
fn another_size_or_time_is_another_etag() {
    assert_eq!(etag(1, -2), "\"1--2\"");
    assert_ne!(etag(1, 2), etag(2, 2));
    assert_ne!(etag(1, 2), etag(1, 3));
}

#[test]
fn only_two_hex_digits_are_an_escape() {
    assert_eq!(percent_decode("%+5"), "%+5");
    assert_eq!(percent_decode("%zz%2"), "%zz%2");
    assert_eq!(percent_decode("%41%e4%b8%ad"), "A\u{4e2d}");
}

#[test]
fn base64_passes_over_padding_alone() {
    assert_eq!(base64_decode("Zm Vy"), None);
    assert_eq!(base64_decode("ZmVy\n"), None);
    assert_eq!(base64_decode("Zg=="), Some(b"f".to_vec()));
    assert_eq!(base64_decode(""), Some(Vec::new()));
}

#[test]
fn a_range_that_names_no_byte_is_none() {
    assert_eq!(parse_range("bytes=2000-3000", 1000), None);
    assert_eq!(parse_range("bytes=2000-", 1000), None);
    assert_eq!(parse_range("bytes=-0", 1000), None);
    assert_eq!(parse_range("bytes=999-2000", 1000), Some((999, 999)));
    assert_eq!(parse_range("bytes=-5000", 1000), Some((0, 999)));
    assert!(matches!(
        range_outcome(Some("bytes=2000-3000"), 1000),
        RangeOutcome::Unsatisfiable
    ));
    assert!(matches!(range_outcome(Some("bytes=0-0"), 0), RangeOutcome::Unsatisfiable));
}
