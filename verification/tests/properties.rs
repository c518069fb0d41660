use dragonfly_http::compact::{check_range, compact_range_of};
use dragonfly_http::range::resolve_range;
use dragonfly_http::response::{check_content_range, unexpected_status_message};
use dragonfly_http::{
    find_header, get_compact_range, get_range, get_task_content_length, hashmap_to_headermap,
    header_vec_to_hashmap, header_vec_to_headermap, headermap_to_hashmap, is_exact_range,
    parse_range_header, validate_ranged_response, BackendError, CompactRange, Error, Range,
    StatusCode, DRAGONFLY_CONTENT_LENGTH_HEADER,
};
use http_range_header::{EndPosition, ParsedRanges, StartPosition, SyntacticallyCorrectRange};
use reqwest::header::{HeaderMap, HeaderName, HeaderValue, CONTENT_RANGE, RANGE};
use std::collections::HashMap;
use std::hash::{Hash, Hasher};

fn fields(pairs: &[(&str, &str)]) -> HashMap<String, String> {
    pairs
        .iter()
        .map(|(key, value)| (key.to_string(), value.to_string()))
        .collect()
}

fn lines(lines: &[&str]) -> Vec<String> {
    lines.iter().map(|line| line.to_string()).collect()
}

fn range(start: u64, length: u64) -> Range {
    Range { start, length }
}

fn validation_message<T>(r: Result<T, Error>) -> String {
    match r {
        Err(Error::ValidationError(message)) => message,
        _ => panic!("expected a validation error"),
    }
}

fn backend_error(r: Result<(), Error>) -> BackendError {
    match r {
        Err(Error::BackendError(e)) => *e,
        _ => panic!("expected a backend error"),
    }
}

#[test]
fn status_code_has_three_digits() {
    assert!(StatusCode::from_u16(99).is_none());
    assert!(StatusCode::from_u16(1000).is_none());
    assert_eq!(StatusCode::from_u16(100).unwrap().as_u16(), 100);
    assert_eq!(StatusCode::from_u16(999).unwrap().as_u16(), 999);
    assert!(!StatusCode::from_u16(199).unwrap().is_success());
    assert!(StatusCode::from_u16(200).unwrap().is_success());
    assert!(StatusCode::from_u16(299).unwrap().is_success());
    assert!(!StatusCode::from_u16(300).unwrap().is_success());
}

#[test]
fn single_ranges_are_resolved() {
    assert_eq!(parse_range_header("bytes=100-200", 1000).unwrap(), range(100, 101));
    assert_eq!(parse_range_header("bytes=-50", 1000).unwrap(), range(950, 50));
    assert_eq!(parse_range_header("bytes=150-", 1000).unwrap(), range(150, 850));
    assert_eq!(parse_range_header("bytes=999-999", 1000).unwrap(), range(999, 1));
    assert_eq!(parse_range_header("bytes=0-5000", 1000).unwrap(), range(0, 1000));
    assert_eq!(parse_range_header("bytes=-1000", 1000).unwrap(), range(0, 1000));
    assert_eq!(
        parse_range_header("bytes=0-", u64::MAX).unwrap(),
        range(0, u64::MAX)
    );
    assert_eq!(
        parse_range_header("bytes=18446744073709551614-18446744073709551615", u64::MAX).unwrap(),
        range(18446744073709551614, 1)
    );
}

#[test]
fn first_of_several_ranges_is_taken() {
    assert_eq!(parse_range_header("bytes=0-0,-1", 1000).unwrap(), range(0, 1));
    assert_eq!(
        parse_range_header("bytes=500-599, 0-99", 1000).unwrap(),
        range(500, 100)
    );
}

#[test]
fn ranges_in_another_unit_are_rejected() {
    for value in [
        "0-1", "=0-1", "items=0-1", "Bytes=0-1", "BYTES=0-1", " bytes=0-1", "bytes =0-1",
        "bytes0-1", "bytes:0-1", "x bytes=0-1",
    ] {
        assert!(matches!(
            parse_range_header(value, 1000),
            Err(Error::ParseError)
        ));
    }
}

#[test]
fn white_space_stands_behind_a_comma_alone() {
    for value in [
        "bytes=0-1, 3-4", "bytes=0-1,\t3-4", "bytes=0-1,\u{3000}3-4,-5", "bytes=0-1, 3-4, 6-",
    ] {
        assert_eq!(parse_range_header(value, 100).unwrap(), range(0, 2));
    }
    for value in [
        "bytes=0-1 ", "bytes=0-1 ,3-4", "bytes=0-1,  3-4", "bytes=0-1, 3-4 ", "bytes=0 -1",
        "bytes=0- 1", "bytes=- 1", "bytes=0-1,", "bytes=,0-1", "bytes=0-1,,3-4", "bytes=0-1, ",
        "bytes=0--1", "bytes=-", "bytes=0-1;3-4", "bytes=0-01", "bytes=0-+1", "bytes=00-1",
    ] {
        assert!(matches!(
            parse_range_header(value, 100),
            Err(Error::ParseError)
        ));
    }
}

#[test]
fn exact_ranges_are_resolved_to_what_the_object_has_of_them() {
    for value in [
        "bytes=0-0", "bytes=3-8", "bytes=3-9", "bytes=3-900", "bytes=9-9", "bytes=10-12",
        "bytes=+3-8", "bytes=03-8", "Bytes=3-8", " bytes=3-8", "bytes=3-8 ",
    ] {
        for start in 0..12 {
            for length in [1, 2, 3, 6, 7, 898] {
                if let (true, Ok(resolved)) = (
                    is_exact_range(value, start, length),
                    parse_range_header(value, 10),
                ) {
                    assert_eq!(resolved, range(start, length.min(10 - start)));
                }
            }
        }
    }
    assert!(is_exact_range("bytes=3-900", 3, 898));
    assert_eq!(parse_range_header("bytes=3-900", 10).unwrap(), range(3, 7));
    assert!(is_exact_range("Bytes=3-8", 3, 6));
    assert!(parse_range_header("Bytes=3-8", 10).is_err());
}

#[test]
fn unsatisfiable_ranges_are_rejected() {
    for value in [
        "",
        "bytes",
        "bytes=",
        "items=0-1",
        "bytes=a-b",
        "bytes=-0",
        "bytes=+1-2",
        "bytes=01-2",
        "bytes= 1-2",
        "bytes=5-3",
        "bytes=1000-",
        "bytes=1000-1001",
        "bytes=-1001",
        "bytes=0-10,10-20",
        "bytes=0-18446744073709551616",
    ] {
        assert!(matches!(
            parse_range_header(value, 1000),
            Err(Error::ParseError)
        ));
    }
}

#[test]
fn ranges_of_an_object_without_bytes() {
    assert_eq!(parse_range_header("bytes=0-", 0).unwrap(), range(0, 1));
    assert_eq!(parse_range_header("bytes=0-7", 0).unwrap(), range(0, 1));
    assert!(parse_range_header("bytes=-1", 0).is_err());
    assert!(parse_range_header("bytes=1-", 0).is_err());
}

#[test]
fn parsed_ranges_are_resolved() {
    let parsed = |ranges: Vec<(StartPosition, EndPosition)>| ParsedRanges {
        ranges: ranges
            .into_iter()
            .map(|(start, end)| SyntacticallyCorrectRange { start, end })
            .collect(),
    };
    assert!(matches!(
        resolve_range(&parsed(vec![]), 10),
        Err(Error::EmptyHTTPRangeError)
    ));
    assert_eq!(
        resolve_range(
            &parsed(vec![(StartPosition::FromLast(6), EndPosition::Index(7))]),
            10
        )
        .unwrap(),
        range(4, 4)
    );
    assert!(matches!(
        resolve_range(
            &parsed(vec![(StartPosition::Index(10), EndPosition::LastByte)]),
            10
        ),
        Err(Error::ParseError)
    ));
}

#[test]
fn range_comes_from_the_first_range_header() {
    let mut header = HeaderMap::new();
    assert_eq!(get_range(&header, 10).unwrap(), None);

    header.append(RANGE, HeaderValue::from_static("bytes=2-3"));
    header.append(RANGE, HeaderValue::from_static("bytes=4-5"));
    assert_eq!(get_range(&header, 10).unwrap(), Some(range(2, 2)));

    header.insert(RANGE, HeaderValue::from_static("bytes=10-"));
    assert!(matches!(get_range(&header, 10), Err(Error::ParseError)));

    header.insert(RANGE, HeaderValue::from_bytes(b"bytes=2-3\xff").unwrap());
    assert!(matches!(get_range(&header, 10), Err(Error::ParseError)));
}

#[test]
fn exact_range_of_a_written_range() {
    for (start, length) in [(0, 1), (7, 3), (100, 100), (0, u64::MAX), (u64::MAX, 1)] {
        let value = format!("bytes={}-{}", start, start + (length - 1));
        assert!(is_exact_range(&value, start, length));
        assert!(!is_exact_range(&value, start, length - 1));
        if start + (length - 1) < 5000 {
            assert_eq!(
                parse_range_header(&value, 5000).unwrap(),
                range(start, length)
            );
        }
    }
}

#[test]
fn exact_range_edge_cases() {
    assert!(is_exact_range("bytes=+1-0002", 1, 2));
    assert!(is_exact_range("\u{3000}bYtEs\t=\u{a0}1-2\n", 1, 2));
    assert!(!is_exact_range("bytes=1 -2", 1, 2));
    assert!(!is_exact_range("bytes=1- 2", 1, 2));
    assert!(!is_exact_range("bytes=1-2-3", 1, 2));
    assert!(!is_exact_range("by\u{17f}es=1-2", 1, 2));
    assert!(!is_exact_range("bytes=+-2", 0, 3));
    assert!(!is_exact_range("bytes=1-18446744073709551616", 1, u64::MAX));
    assert!(!is_exact_range("bytes=2-0", 2, u64::MAX));
    assert!(!is_exact_range("", 0, 1));
}

#[test]
fn relative_ranges_and_lists_are_not_exact() {
    for value in ["bytes=-5", "bytes=5-", "bytes=0-4,6-7", "bytes=0-4,"] {
        for start in 0..8 {
            for length in 0..8 {
                assert!(!is_exact_range(value, start, length));
            }
        }
    }
}

#[test]
fn content_length_is_trimmed_and_bounded() {
    let length = |value: &'static str| {
        let mut header = HeaderMap::new();
        header.insert(
            DRAGONFLY_CONTENT_LENGTH_HEADER,
            HeaderValue::from_static(value),
        );
        get_task_content_length(&header)
    };
    assert_eq!(length(" 42\t"), Some(42));
    assert_eq!(length("+42"), Some(42));
    assert_eq!(length("0042"), Some(42));
    assert_eq!(length("18446744073709551615"), Some(u64::MAX));
    assert_eq!(length("18446744073709551616"), None);
    assert_eq!(length("-1"), None);
    assert_eq!(length("4 2"), None);
    assert_eq!(length("+"), None);
    assert_eq!(length(""), None);

    let mut header = HeaderMap::new();
    header.insert(
        DRAGONFLY_CONTENT_LENGTH_HEADER,
        HeaderValue::from_bytes(b"42\xff").unwrap(),
    );
    assert_eq!(get_task_content_length(&header), None);
}

#[test]
fn content_length_and_range_agree_with_the_fields() {
    let mut header = HeaderMap::new();
    header.insert(
        DRAGONFLY_CONTENT_LENGTH_HEADER,
        HeaderValue::from_static("1000"),
    );
    header.insert(RANGE, HeaderValue::from_static("bytes=-1"));
    let total = get_task_content_length(&header).unwrap();
    let compact = get_compact_range(&headermap_to_hashmap(&header), None)
        .unwrap()
        .unwrap();
    assert_eq!(compact.total_content_length, total);
    assert_eq!(get_range(&header, total).unwrap(), Some(compact.range));
}

#[test]
fn compact_range_messages() {
    let header = fields(&[
        ("X-DRAGONFLY-CONTENT-LENGTH", " 458 "),
        ("X-Dragonfly-Piece-Offset", " eight"),
        ("RANGE", "bytes=8-57"),
    ]);
    assert_eq!(
        validation_message(get_compact_range(&header, Some(100))),
        "invalid piece offset  eight"
    );

    let header = fields(&[
        ("x-dragonfly-content-length", "458"),
        ("x-dragonfly-piece-offset", " 8 "),
        ("range", "bytes=8-57"),
    ]);
    assert_eq!(
        validation_message(get_compact_range(&header, None)),
        "the X-Dragonfly-Piece-Offset header requires a declared piece length"
    );
    assert_eq!(
        validation_message(get_compact_range(&header, Some(100))),
        "range [8, 58) is not aligned to the chunk grid with offset 8 and piece length 100"
    );
    assert_eq!(
        validation_message(get_compact_range(&header, Some(0))),
        "range [8, 58) is not aligned to the chunk grid with offset 8 and piece length 0"
    );

    let header = fields(&[
        ("x-dragonfly-content-length", "458"),
        ("range", "bytes=oops"),
    ]);
    assert!(matches!(
        get_compact_range(&header, None),
        Err(Error::ParseError)
    ));
}

#[test]
fn chunks_share_no_byte() {
    let (total, offset, piece_length) = (29, 3, 7);
    let mut accepted = vec![];
    for start in 0..total {
        for length in 1..=total - start {
            let offset = format!("{offset}");
            if let Ok(compact) = check_range(
                range(start, length),
                total,
                Some(&offset),
                Some(piece_length),
            ) {
                assert_eq!(
                    compact,
                    CompactRange {
                        range: range(start, length),
                        total_content_length: total,
                    }
                );
                accepted.push((start, length));
            }
        }
    }
    assert_eq!(accepted, vec![(3, 7), (10, 7), (17, 7), (24, 5)]);
}

#[test]
fn lookup_ignores_case() {
    let header = fields(&[("Content-Type", "text/plain"), ("Accept", "*/*")]);
    assert_eq!(find_header(&header, "content-type"), Some("text/plain"));
    assert_eq!(find_header(&header, "CONTENT-TYPE"), Some("text/plain"));
    assert_eq!(find_header(&header, "content-typ"), None);
    assert_eq!(find_header(&header, ""), None);

    let header = fields(&[("Accept", "a"), ("accept", "b")]);
    let found = find_header(&header, "ACCEPT").unwrap();
    assert!(found == "a" || found == "b");
}

#[test]
fn responses_of_other_ranges_are_refused() {
    let status = |code: u16| StatusCode::from_u16(code).unwrap();
    let mut header = HeaderMap::new();
    header.insert("x-trace", HeaderValue::from_static("7"));

    let e = backend_error(validate_ranged_response(
        Some(range(10, 20)),
        status(200),
        &header,
    ));
    assert_eq!(
        e.message,
        "expected 206 Partial Content for range bytes=10-29, got 200 OK"
    );
    assert_eq!(e.status_code, Some(status(200)));
    assert_eq!(e.header, Some(header.clone()));

    let e = backend_error(validate_ranged_response(
        Some(range(10, 20)),
        status(299),
        &header,
    ));
    assert_eq!(
        e.message,
        "expected 206 Partial Content for range bytes=10-29, got 299 <unknown status code>"
    );

    let e = backend_error(validate_ranged_response(
        Some(range(0, 20)),
        status(206),
        &header,
    ));
    assert_eq!(e.message, "missing Content-Range for range bytes=0-19");
    assert_eq!(e.status_code, Some(status(206)));

    header.insert(CONTENT_RANGE, HeaderValue::from_static("bytes 0-9"));
    let e = backend_error(validate_ranged_response(
        Some(range(0, 20)),
        status(206),
        &header,
    ));
    assert_eq!(e.message, "invalid Content-Range bytes 0-9");

    header.insert(CONTENT_RANGE, HeaderValue::from_static("bytes 0-9/10"));
    let e = backend_error(validate_ranged_response(
        Some(range(0, 20)),
        status(206),
        &header,
    ));
    assert_eq!(
        e.message,
        "Content-Range bytes 0-9/10 mismatches requested range bytes=0-19"
    );
    assert_eq!(e.header, Some(header.clone()));

    header.insert(
        CONTENT_RANGE,
        HeaderValue::from_bytes(b"bytes 0-19/\xff").unwrap(),
    );
    let e = backend_error(validate_ranged_response(
        Some(range(0, 20)),
        status(206),
        &header,
    ));
    assert_eq!(e.message, "missing Content-Range for range bytes=0-19");
}

#[test]
fn responses_that_are_not_looked_at() {
    let header = HeaderMap::new();
    for code in [100, 304, 416, 500] {
        let status = StatusCode::from_u16(code).unwrap();
        assert!(validate_ranged_response(Some(range(0, 0)), status, &header).is_ok());
    }
    let accepted = StatusCode::from_u16(202).unwrap();
    assert!(validate_ranged_response(Some(range(0, 5)), accepted, &header).is_ok());
}

#[test]
fn written_content_range_is_accepted() {
    for (start, length) in [(0, 1), (10, 20), (1, u64::MAX - 1)] {
        let end = start + (length - 1);
        for total in ["100", "*", "", "a/b"] {
            let value = format!("bytes {start}-{end}/{total}");
            assert_eq!(check_content_range(range(start, length), Some(&value)), None);
        }
    }
    assert_eq!(
        check_content_range(range(1, 2), None).unwrap(),
        "missing Content-Range for range bytes=1-2"
    );
    assert_eq!(
        unexpected_status_message(range(1, 2), "304 Not Modified"),
        "expected 206 Partial Content for range bytes=1-2, got 304 Not Modified"
    );
}

#[test]
fn last_visible_value_is_kept() {
    let mut header = HeaderMap::new();
    header.append("a", HeaderValue::from_static("1"));
    header.append("a", HeaderValue::from_static("2"));
    header.append("b", HeaderValue::from_static("x\ty"));
    header.append("b", HeaderValue::from_bytes(b"\xe9").unwrap());
    header.append("c", HeaderValue::from_bytes("\u{e9}".as_bytes()).unwrap());
    assert_eq!(
        headermap_to_hashmap(&header),
        fields(&[("a", "2"), ("b", "x\ty")])
    );
    assert_eq!(headermap_to_hashmap(&HeaderMap::new()), fields(&[]));
}

#[test]
fn fields_that_are_no_headers_are_refused() {
    for (key, value) in [
        ("", "value"),
        ("a b", "value"),
        ("a:b", "value"),
        ("caf\u{e9}", "value"),
        ("a\"b", "value"),
        ("key", "a\nb"),
        ("key", "a\u{7f}b"),
    ] {
        assert!(matches!(
            hashmap_to_headermap(&fields(&[(key, value)])),
            Err(Error::ParseError)
        ));
    }
    let long = "a".repeat(65535);
    assert!(hashmap_to_headermap(&fields(&[(&long, "v")])).is_ok());
    let longer = "a".repeat(65536);
    assert!(hashmap_to_headermap(&fields(&[(&longer, "v")])).is_err());
}

#[test]
fn header_values_are_the_bytes_of_their_text() {
    let header = hashmap_to_headermap(&fields(&[
        ("!#$%&'*+-.^_`|~0aZ", "caf\u{e9}\t"),
        ("Empty", ""),
    ]))
    .unwrap();
    assert_eq!(header.len(), 2);
    assert_eq!(
        header.get("!#$%&'*+-.^_`|~0az").unwrap().as_bytes(),
        "caf\u{e9}\t".as_bytes()
    );
    assert_eq!(header.get("empty").unwrap(), "");
    assert_eq!(
        header.keys().filter(|name| name.as_str() == "empty").count(),
        1
    );
}

#[test]
fn keys_that_differ_in_case_give_one_header() {
    let header = hashmap_to_headermap(&fields(&[("Accept", "a"), ("accept", "b")])).unwrap();
    assert_eq!(header.len(), 1);
    let value = header.get("accept").unwrap();
    assert!(value == "a" || value == "b");
}

#[test]
fn many_fields() {
    let many = |n: u32| -> HashMap<String, String> {
        (0..n).map(|i| (format!("x-{i}"), format!("{i}"))).collect()
    };
    for n in [6554, 20000, 24576] {
        let header = hashmap_to_headermap(&many(n)).unwrap();
        assert_eq!(header.len(), n as usize);
        assert_eq!(
            header.get(format!("x-{}", n - 1)).unwrap(),
            format!("{}", n - 1).as_str()
        );
    }
    for n in [24577, 30000] {
        assert!(matches!(
            hashmap_to_headermap(&many(n)),
            Err(Error::MaxSizeReached)
        ));
    }
}

struct NameHasher(u64);

impl Hasher for NameHasher {
    fn finish(&self) -> u64 {
        self.0
    }

    fn write(&mut self, bytes: &[u8]) {
        for b in bytes {
            self.0 = (self.0 ^ u64::from(*b)).wrapping_mul(0x100000001b3);
        }
    }
}

/// Whether a header map has its slot for `name` among the first few.
fn is_crowded(name: &HeaderName) -> bool {
    let mut hasher = NameHasher(0xcbf29ce484222325);
    name.hash(&mut hasher);
    hasher.finish() & 0x7fff < 512
}

/// Names that are spread over the slots of a header map, and names that crowd in few.
fn spread_and_crowded(spread: usize, crowded: usize) -> (Vec<HeaderName>, Vec<HeaderName>) {
    let names = || (0..).map(|i| HeaderName::from_bytes(format!("x-{i}").as_bytes()).unwrap());
    (
        names().filter(|name| !is_crowded(name)).take(spread).collect(),
        names().filter(|name| is_crowded(name)).take(crowded).collect(),
    )
}

#[test]
fn a_refused_insertion_goes_through_when_it_is_tried_again() {
    let value = HeaderValue::from_static("v");
    let (spread, crowded) = spread_and_crowded(13000, 2000);
    let mut header = HeaderMap::new();
    for name in spread {
        header.try_insert(name, value.clone()).unwrap();
    }
    let mut refused = 0;
    for name in crowded {
        let len = header.len();
        if header.try_insert(name.clone(), value.clone()).is_err() {
            assert_eq!(header.len(), len);
            assert!(header.try_insert(name, value.clone()).is_ok());
            refused += 1;
        }
        assert_eq!(header.len(), len + 1);
    }
    assert!(refused > 0);
}

#[test]
fn fields_whose_names_crowd_are_converted() {
    let (spread, crowded) = spread_and_crowded(19300, 700);
    let given: HashMap<String, String> = spread
        .iter()
        .chain(&crowded)
        .map(|name| (name.as_str().to_string(), "v".to_string()))
        .collect();
    let header = hashmap_to_headermap(&given).unwrap();
    assert_eq!(header.len(), 20000);
    assert_eq!(headermap_to_hashmap(&header), given);
}

#[test]
fn headers_come_back_from_fields() {
    let mut header = HeaderMap::new();
    for i in 0..40 {
        header.insert(
            HeaderName::from_bytes(format!("x-name-{i}").as_bytes()).unwrap(),
            HeaderValue::from_str(&format!("value {i}")).unwrap(),
        );
    }
    assert_eq!(
        hashmap_to_headermap(&headermap_to_hashmap(&header)).unwrap(),
        header
    );

    let given = fields(&[("a", "1"), ("b-c", "2 \t3"), ("d", "")]);
    assert_eq!(
        headermap_to_hashmap(&hashmap_to_headermap(&given).unwrap()),
        given
    );

    let mixed = fields(&[("Accept", "A b"), ("X-Y", "~\t"), ("z", "")]);
    assert_eq!(
        headermap_to_hashmap(&hashmap_to_headermap(&mixed).unwrap()),
        fields(&[("accept", "A b"), ("x-y", "~\t"), ("z", "")])
    );
}

#[test]
fn header_lines_are_converted_at_once_as_in_two_steps() {
    for raw in [
        vec![],
        vec!["garbage"],
        vec!["A: 1", "b : 2", "no colon", "A:3"],
        vec![": x"],
        vec!["a b: 1"],
        vec!["a: \u{1}", "c: d"],
    ] {
        let at_once = header_vec_to_headermap(lines(&raw));
        let in_two = hashmap_to_headermap(&header_vec_to_hashmap(lines(&raw)).unwrap());
        match (at_once, in_two) {
            (Ok(a), Ok(b)) => assert_eq!(a, b),
            (Err(Error::ParseError), Err(Error::ParseError)) => {}
            _ => panic!("the two ways differ"),
        }
    }
    assert!(header_vec_to_headermap(lines(&["garbage"])).unwrap().is_empty());
    assert!(matches!(
        header_vec_to_headermap(lines(&[": x"])),
        Err(Error::ParseError)
    ));
}

#[test]
fn header_lines() {
    let raw = lines(&[
        " Key :  a:b ",
        "no colon",
        "\u{2003}Other\u{85}:\u{3000}",
        "Key:last",
        ":empty",
    ]);
    assert_eq!(
        header_vec_to_hashmap(raw).unwrap(),
        fields(&[("Key", "last"), ("Other", ""), ("", "empty")])
    );
    assert_eq!(header_vec_to_hashmap(vec![]).unwrap(), fields(&[]));
    assert_eq!(
        header_vec_to_hashmap(lines(&["Host: example.com:80"])).unwrap(),
        fields(&[("Host", "example.com:80")])
    );
}

#[test]
fn header_lines_that_are_no_headers_are_refused() {
    assert!(matches!(
        header_vec_to_headermap(lines(&[":empty"])),
        Err(Error::ParseError)
    ));
    let header = header_vec_to_headermap(lines(&["A: 1", "skipped", "A: 2"])).unwrap();
    assert_eq!(header.len(), 1);
    assert_eq!(header.get("a").unwrap(), "2");
}

#[test]
fn white_space_round_a_range_is_that_of_unicode() {
    for c in '\0'..=char::MAX {
        if c != '+' && c != '0' {
            let value = format!("bytes={c}1-2");
            assert_eq!(is_exact_range(&value, 1, 2), c.is_whitespace());
        }
    }
}

#[test]
fn listed_ranges_are_read_back() {
    assert_eq!(
        parse_range_header("bytes=7-8,0-1,3-3,-2", 20).unwrap(),
        range(7, 2)
    );
    assert_eq!(parse_range_header("bytes=-2,0-17", 20).unwrap(), range(18, 2));
    assert!(parse_range_header("bytes=-2,0-18", 20).is_err());
    assert!(parse_range_header("bytes=0-1,20-", 20).is_err());
}

#[test]
fn compact_range_of_looked_up_values() {
    let expected = CompactRange {
        range: range(100, 50),
        total_content_length: 150,
    };
    assert_eq!(
        compact_range_of(Some(" 150"), Some("bytes=100-199"), Some("0"), Some(100)).unwrap(),
        Some(expected)
    );
    assert_eq!(
        compact_range_of(Some("150"), Some("bytes=100-199"), None, None).unwrap(),
        Some(expected)
    );
    assert_eq!(
        compact_range_of(None, Some("bytes=oops"), Some("oops"), None).unwrap(),
        None
    );
    assert_eq!(
        compact_range_of(Some("150"), None, Some("oops"), None).unwrap(),
        None
    );
}
