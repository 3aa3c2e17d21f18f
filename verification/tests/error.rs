//! Error messages and the numerals in them.

use archive_core::text::{append_decimal, chars_of, parse_from, rfind};
use archive_core::ArchiveError;

#[test]
fn messages_name_the_format_or_the_cap() {
    let cases = [
        (
            ArchiveError::Decode {
                format: "gzip",
                detail: "bad".to_string(),
            },
            "gzip decode failed: bad",
        ),
        (
            ArchiveError::TooLarge { cap: 500 },
            "decompressed output exceeds the 500-byte cap",
        ),
        (
            ArchiveError::Open {
                format: "zip",
                detail: "no end".to_string(),
            },
            "zip archive open failed: no end",
        ),
        (
            ArchiveError::Read {
                format: "7z",
                detail: "codec".to_string(),
            },
            "7z member read failed: codec",
        ),
        (
            ArchiveError::IndexOutOfRange {
                index: 99,
                count: 10,
            },
            "member index 99 out of range (10 members)",
        ),
        (
            ArchiveError::DepthExceeded {
                max: 8,
                chain: "a -> b".to_string(),
            },
            "nesting depth exceeded the max of 8 at layer chain: a -> b",
        ),
        (
            ArchiveError::TooManyEntries { max: 0 },
            "member count exceeded the max of 0",
        ),
        (
            ArchiveError::TotalInflatedExceeded { cap: u64::MAX },
            "cumulative inflated size exceeded the 18446744073709551615-byte cap",
        ),
    ];
    for (error, message) in cases {
        assert_eq!(error.message(), message);
    }
}

#[test]
fn decimals_read_back() {
    for n in [0, 7, 10, 99, 100, 4096, 1_000_000, u64::MAX] {
        let mut s = String::from("n=");
        append_decimal(&mut s, n);
        assert_eq!(s, format!("n={n}"));
        assert_eq!(parse_from(&chars_of(&s), 2), Some(n));
    }
    assert_eq!(parse_from(&chars_of("12x"), 0), None);
}

#[test]
fn the_last_occurrence_is_found() {
    let s = chars_of("a-s1-s22");
    assert_eq!(rfind(&s, "-s"), Some(4));
    assert_eq!(rfind(&s, "2"), Some(7));
    assert_eq!(rfind(&s, "a-s1-s223"), None);
    assert_eq!(rfind(&s, "zz"), None);
    assert_eq!(rfind(&s, ""), Some(8));
}
