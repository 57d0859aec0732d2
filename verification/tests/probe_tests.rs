use range_downloader::errors::DownloadError;
use range_downloader::probe::{interpret_probe, parse_content_length, CapabilityResult};

#[test]
fn failed_status_is_request_failed() {
    let r = interpret_probe(false, Some(b"bytes".to_vec()), Some(b"1000".to_vec()));
    assert_eq!(r, Err(DownloadError::RequestFailed));
}

#[test]
fn missing_content_length_is_length_unavailable() {
    let r = interpret_probe(true, Some(b"bytes".to_vec()), None);
    assert_eq!(r, Err(DownloadError::LengthUnavailable));
}

#[test]
fn unparsable_content_length_is_length_unavailable() {
    for bad in [&b"12a4"[..], b"", b"+", b"-5", b" 10", b"18446744073709551616"] {
        let r = interpret_probe(true, None, Some(bad.to_vec()));
        assert_eq!(r, Err(DownloadError::LengthUnavailable), "{:?}", bad);
    }
}

#[test]
fn exact_bytes_token_supports_ranges() {
    let r = interpret_probe(true, Some(b"bytes".to_vec()), Some(b"1000".to_vec()));
    assert_eq!(
        r,
        Ok(CapabilityResult { supports_ranges: true, total_length: 1000 })
    );
}

#[test]
fn any_other_accept_ranges_value_is_unsupported() {
    for val in [&b"Bytes"[..], b"none", b"bytes ", b"byte", b""] {
        let r = interpret_probe(true, Some(val.to_vec()), Some(b"10".to_vec()));
        assert_eq!(
            r,
            Ok(CapabilityResult { supports_ranges: false, total_length: 10 }),
            "{:?}",
            val
        );
    }
}

#[test]
fn absent_accept_ranges_header_is_unsupported() {
    let r = interpret_probe(true, None, Some(b"10".to_vec()));
    assert_eq!(
        r,
        Ok(CapabilityResult { supports_ranges: false, total_length: 10 })
    );
}

#[test]
fn content_length_parses_as_u64() {
    assert_eq!(parse_content_length(&b"0".to_vec()), Some(0));
    assert_eq!(parse_content_length(&b"1000".to_vec()), Some(1000));
    assert_eq!(parse_content_length(&b"+123".to_vec()), Some(123));
    assert_eq!(
        parse_content_length(&b"18446744073709551615".to_vec()),
        Some(u64::MAX)
    );
    assert_eq!(parse_content_length(&b"18446744073709551616".to_vec()), None);
    assert_eq!(parse_content_length(&b"007".to_vec()), Some(7));
}
