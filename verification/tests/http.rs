use dragonfly_http::{
    get_compact_range, get_range, get_task_content_length, hashmap_to_headermap,
    header_vec_to_hashmap, header_vec_to_headermap, headermap_to_hashmap, is_exact_range,
    parse_range_header, validate_ranged_response, CompactRange, Range, StatusCode,
    DRAGONFLY_CONTENT_LENGTH_HEADER,
};
use reqwest::header::{HeaderMap, HeaderValue, CONTENT_RANGE, RANGE};
use std::collections::HashMap;

fn status(code: u16) -> StatusCode {
    StatusCode::from_u16(code).unwrap()
}

#[test]
fn test_headermap_to_hashmap() {
    let mut header = HeaderMap::new();
    header.insert("Content-Type", HeaderValue::from_static("application/json"));
    header.insert("Authorization", HeaderValue::from_static("Bearer token"));

    let hashmap = headermap_to_hashmap(&header);
    assert_eq!(hashmap.get("content-type").unwrap(), "application/json");
    assert_eq!(hashmap.get("authorization").unwrap(), "Bearer token");
    assert_eq!(hashmap.get("foo"), None);
}

#[test]
fn test_hashmap_to_headermap() {
    let mut hashmap = HashMap::new();
    hashmap.insert("Content-Type".to_string(), "application/json".to_string());
    hashmap.insert("Authorization".to_string(), "Bearer token".to_string());

    let header = hashmap_to_headermap(&hashmap).unwrap();
    assert_eq!(header.get("Content-Type").unwrap(), "application/json");
    assert_eq!(header.get("Authorization").unwrap(), "Bearer token");
}

#[test]
fn test_header_vec_to_hashmap() {
    let raw_header = vec![
        "Content-Type: application/json".to_string(),
        "Authorization: Bearer token".to_string(),
    ];

    let hashmap = header_vec_to_hashmap(raw_header).unwrap();
    assert_eq!(hashmap.get("Content-Type").unwrap(), "application/json");
    assert_eq!(hashmap.get("Authorization").unwrap(), "Bearer token");
}

#[test]
fn test_header_vec_to_headermap() {
    let raw_header = vec![
        "Content-Type: application/json".to_string(),
        "Authorization: Bearer token".to_string(),
    ];

    let header = header_vec_to_headermap(raw_header).unwrap();
    assert_eq!(header.get("Content-Type").unwrap(), "application/json");
    assert_eq!(header.get("Authorization").unwrap(), "Bearer token");
}

#[test]
fn test_get_range() {
    let mut header = HeaderMap::new();
    header.insert(RANGE, HeaderValue::from_static("bytes=0-100"));

    let range = get_range(&header, 200).unwrap().unwrap();
    assert_eq!(range.start, 0);
    assert_eq!(range.length, 101);
}

#[test]
fn test_parse_range_header() {
    let range = parse_range_header("bytes=0-100", 200).unwrap();
    assert_eq!(range.start, 0);
    assert_eq!(range.length, 101);
}

#[test]
fn test_validate_ranged_response() {
    let range = Some(Range {
        start: 10,
        length: 20,
    });

    assert!(validate_ranged_response(None, status(200), &HeaderMap::new()).is_ok());
    assert!(validate_ranged_response(range, status(404), &HeaderMap::new()).is_ok());
    assert!(validate_ranged_response(
        Some(Range {
            start: 0,
            length: 20
        }),
        status(200),
        &HeaderMap::new()
    )
    .is_ok());
    assert!(validate_ranged_response(range, status(200), &HeaderMap::new()).is_err());

    let mut header = HeaderMap::new();
    header.insert(CONTENT_RANGE, HeaderValue::from_static("bytes 10-29/100"));
    assert!(validate_ranged_response(range, status(206), &header).is_ok());
    assert!(validate_ranged_response(range, status(206), &HeaderMap::new()).is_err());

    for content_range in ["bytes */100", "bytes 10-/100", "10-29/100", "bytes 10-29"] {
        let mut header = HeaderMap::new();
        header.insert(CONTENT_RANGE, HeaderValue::from_str(content_range).unwrap());
        assert!(validate_ranged_response(range, status(206), &header).is_err());
    }

    for content_range in ["bytes 0-29/100", "bytes 10-30/100", "bytes 0-99/100"] {
        let mut header = HeaderMap::new();
        header.insert(CONTENT_RANGE, HeaderValue::from_str(content_range).unwrap());
        assert!(validate_ranged_response(range, status(206), &header).is_err());
    }
}

#[test]
fn test_get_task_content_length() {
    let mut header = HeaderMap::new();
    assert_eq!(get_task_content_length(&header), None);

    header.insert(
        DRAGONFLY_CONTENT_LENGTH_HEADER,
        HeaderValue::from_static("4194304"),
    );
    assert_eq!(get_task_content_length(&header), Some(4194304));

    header.insert(
        DRAGONFLY_CONTENT_LENGTH_HEADER,
        HeaderValue::from_static("not-a-number"),
    );
    assert_eq!(get_task_content_length(&header), None);
}

#[test]
fn test_get_compact_range() {
    // Without the content length header there is no compact range task.
    let header = HashMap::from([("range".to_string(), "bytes=100-199".to_string())]);
    assert_eq!(get_compact_range(&header, None).unwrap(), None);

    // Without a Range header there is no compact range task.
    let header = HashMap::from([("x-dragonfly-content-length".to_string(), "1000".to_string())]);
    assert_eq!(get_compact_range(&header, None).unwrap(), None);

    // An invalid content length disables the compact range task.
    let header = HashMap::from([
        ("x-dragonfly-content-length".to_string(), "oops".to_string()),
        ("range".to_string(), "bytes=100-199".to_string()),
    ]);
    assert_eq!(get_compact_range(&header, None).unwrap(), None);

    // The content length and a Range header form a compact range task,
    // matched case-insensitively.
    let header = HashMap::from([
        ("X-Dragonfly-Content-Length".to_string(), "1000".to_string()),
        ("Range".to_string(), "bytes=100-199".to_string()),
    ]);
    assert_eq!(
        get_compact_range(&header, None).unwrap(),
        Some(CompactRange {
            range: Range {
                start: 100,
                length: 100,
            },
            total_content_length: 1000,
        })
    );

    // A suffix range is resolved against the declared content length.
    let header = HashMap::from([
        ("x-dragonfly-content-length".to_string(), "1000".to_string()),
        ("range".to_string(), "bytes=-100".to_string()),
    ]);
    assert_eq!(
        get_compact_range(&header, None).unwrap(),
        Some(CompactRange {
            range: Range {
                start: 900,
                length: 100,
            },
            total_content_length: 1000,
        })
    );

    // A range whose end exceeds the declared content length is clamped,
    // matching how the origin serves it (RFC 7233).
    let header = HashMap::from([
        ("x-dragonfly-content-length".to_string(), "1000".to_string()),
        ("range".to_string(), "bytes=900-1100".to_string()),
    ]);
    assert_eq!(
        get_compact_range(&header, None).unwrap(),
        Some(CompactRange {
            range: Range {
                start: 900,
                length: 100,
            },
            total_content_length: 1000,
        })
    );

    // A range that starts beyond the declared content length is rejected.
    let header = HashMap::from([
        ("x-dragonfly-content-length".to_string(), "1000".to_string()),
        ("range".to_string(), "bytes=1000-1100".to_string()),
    ]);
    assert!(get_compact_range(&header, None).is_err());
}

#[test]
fn test_get_compact_range_validates_chunk_alignment() {
    // A SafeTensors-like layout: the payload is chunked into 100 byte
    // pieces from offset 8.
    let header = |range: &str| {
        HashMap::from([
            ("x-dragonfly-content-length".to_string(), "458".to_string()),
            ("x-dragonfly-piece-offset".to_string(), "8".to_string()),
            ("range".to_string(), range.to_string()),
        ])
    };

    // Aligned chunks, including the shorter trailing chunk.
    for (range, expected_start, expected_length) in [
        ("bytes=8-107", 8, 100),
        ("bytes=208-307", 208, 100),
        ("bytes=408-457", 408, 50),
    ] {
        assert_eq!(
            get_compact_range(&header(range), Some(100)).unwrap(),
            Some(CompactRange {
                range: Range {
                    start: expected_start,
                    length: expected_length,
                },
                total_content_length: 458,
            }),
            "{range} should be aligned"
        );
    }

    // Misaligned ranges are rejected.
    for range in [
        // Starts before the grid offset.
        "bytes=0-7",
        // Not on a chunk boundary.
        "bytes=100-199",
        // Spans two chunks.
        "bytes=8-207",
        // Shorter than the piece length but not trailing.
        "bytes=8-57",
    ] {
        assert!(
            get_compact_range(&header(range), Some(100)).is_err(),
            "{range} should be rejected"
        );
    }

    // The piece offset requires a declared piece length.
    assert!(get_compact_range(&header("bytes=8-107"), None).is_err());

    // An invalid piece offset is rejected.
    let mut invalid = header("bytes=8-107");
    invalid.insert("x-dragonfly-piece-offset".to_string(), "oops".to_string());
    assert!(get_compact_range(&invalid, Some(100)).is_err());
}

#[test]
fn test_is_exact_range() {
    assert!(is_exact_range("bytes=100-199", 100, 100));
    assert!(is_exact_range("bytes=0-0", 0, 1));
    assert!(is_exact_range("BYTES = 100-199", 100, 100));

    assert!(!is_exact_range("bytes=100-199", 100, 99));
    assert!(!is_exact_range("bytes=100-199", 101, 100));
    assert!(!is_exact_range("bytes=-50", 0, 50));
    assert!(!is_exact_range("bytes=100-", 100, 100));
    assert!(!is_exact_range("bytes=0-0,100-199", 0, 200));
    assert!(!is_exact_range("items=100-199", 100, 100));
    assert!(!is_exact_range("100-199", 100, 100));
    assert!(!is_exact_range("bytes=100-199", 100, 0));
    assert!(!is_exact_range("bytes=0-x", 0, u64::MAX));
}
