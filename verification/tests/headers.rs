use dlmgr::error::DlMgrSetupError;
use dlmgr::headers::{
    detect_range_support, extract_content_length, parse_u64_bytes, probe_confirms_range_support,
    range_header_value,
};

#[test]
fn accept_ranges_bytes_means_support() {
    assert!(detect_range_support(Some(b"bytes")));
    assert!(detect_range_support(Some(b"nonE")));
    assert!(!detect_range_support(Some(b"none")));
    assert!(!detect_range_support(None));
}

#[test]
fn content_length_reads_decimal() {
    assert_eq!(extract_content_length(Some(b"1048576")).unwrap(), 1048576);
    assert_eq!(extract_content_length(Some(b"0")).unwrap(), 0);
    assert_eq!(extract_content_length(Some(b"+12")).unwrap(), 12);
    assert_eq!(extract_content_length(Some(b"18446744073709551615")).unwrap(), u64::MAX);
}

#[test]
fn content_length_refuses_other_text() {
    for bad in [
        &b""[..],
        b"+",
        b" 12",
        b"12 ",
        b"-1",
        b"1e3",
        b"18446744073709551616",
        b"99999999999999999999999",
        b"\x8012",
    ] {
        let r = extract_content_length(Some(bad));
        assert!(matches!(r, Err(DlMgrSetupError::NoContentLengthHeader)), "{bad:?}");
    }
    assert!(matches!(extract_content_length(None), Err(DlMgrSetupError::NoContentLengthHeader)));
}

#[test]
fn parse_matches_std() {
    for text in ["0", "7", "+7", "0042", "18446744073709551615", "18446744073709551616", "", "+", "++1", "1_0"] {
        assert_eq!(parse_u64_bytes(text.as_bytes()), text.parse::<u64>().ok(), "{text}");
    }
}

#[test]
fn range_header_names_first_and_last_byte() {
    assert_eq!(range_header_value(0, 32768), b"bytes=0-32767".to_vec());
    assert_eq!(range_header_value(4194304, 1), b"bytes=4194304-4194304".to_vec());
    assert_eq!(
        range_header_value(u64::MAX - 9, 10),
        format!("bytes={}-{}", u64::MAX - 9, u64::MAX).into_bytes()
    );
}

#[test]
fn range_header_numbers_read_back() {
    let v = range_header_value(123456789, 1000);
    let text = String::from_utf8(v).unwrap();
    let (first, last) = text.strip_prefix("bytes=").unwrap().split_once('-').unwrap();
    assert_eq!(extract_content_length(Some(first.as_bytes())).unwrap(), 123456789);
    assert_eq!(extract_content_length(Some(last.as_bytes())).unwrap(), 123457788);
}

#[test]
fn only_partial_content_confirms_ranges() {
    assert!(probe_confirms_range_support(206));
    assert!(!probe_confirms_range_support(200));
    assert!(!probe_confirms_range_support(416));
}
