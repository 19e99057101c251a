use multipart_download::{
    interpret_probe,
    parse_content_length,
    status_is_client_error,
    status_is_server_error,
    status_is_success,
    DownloadError,
    ResourceMetadata,
};

fn metadata(total_size_bytes: i64) -> ResourceMetadata {
    ResourceMetadata { total_size_bytes }
}

#[test]
fn status_classes_have_exact_bounds() {
    assert!(!status_is_success(199));
    assert!(status_is_success(200));
    assert!(status_is_success(206));
    assert!(status_is_success(299));
    assert!(!status_is_success(300));
    assert!(!status_is_client_error(399));
    assert!(status_is_client_error(400));
    assert!(status_is_client_error(499));
    assert!(!status_is_client_error(500));
    assert!(!status_is_server_error(499));
    assert!(status_is_server_error(500));
    assert!(status_is_server_error(599));
    assert!(!status_is_server_error(600));
    assert!(!status_is_success(0));
    assert!(!status_is_server_error(u16::MAX));
}

#[test]
fn content_length_of_plain_digits() {
    assert_eq!(parse_content_length(b"0"), Some(0));
    assert_eq!(parse_content_length(b"7"), Some(7));
    assert_eq!(parse_content_length(b"1000"), Some(1000));
    assert_eq!(parse_content_length(b"1005"), Some(1005));
    assert_eq!(parse_content_length(b"3000000000"), Some(3_000_000_000));
}

#[test]
fn content_length_with_sign_or_leading_zeros() {
    assert_eq!(parse_content_length(b"+42"), Some(42));
    assert_eq!(parse_content_length(b"0012"), Some(12));
    assert_eq!(parse_content_length(b"+000"), Some(0));
}

#[test]
fn content_length_at_the_limit() {
    assert_eq!(parse_content_length(b"9223372036854775807"), Some(i64::MAX));
    assert_eq!(parse_content_length(b"9223372036854775808"), None);
    assert_eq!(parse_content_length(b"9223372036854775810"), None);
    assert_eq!(parse_content_length(b"92233720368547758070"), None);
    assert_eq!(parse_content_length(b"99999999999999999999999999999999999999"), None);
    assert_eq!(parse_content_length(b"00000000000000000000000000000000000001"), Some(1));
}

#[test]
fn content_length_that_is_no_number() {
    assert_eq!(parse_content_length(b""), None);
    assert_eq!(parse_content_length(b"+"), None);
    assert_eq!(parse_content_length(b"-"), None);
    assert_eq!(parse_content_length(b"-5"), None);
    assert_eq!(parse_content_length(b"-0"), None);
    assert_eq!(parse_content_length(b"++5"), None);
    assert_eq!(parse_content_length(b"5+"), None);
    assert_eq!(parse_content_length(b" 5"), None);
    assert_eq!(parse_content_length(b"5 "), None);
    assert_eq!(parse_content_length(b"1_000"), None);
    assert_eq!(parse_content_length(b"12a"), None);
    assert_eq!(parse_content_length(b"abc"), None);
    assert_eq!(parse_content_length(b"1.5"), None);
    assert_eq!(parse_content_length(b"0x10"), None);
    assert_eq!(parse_content_length(&[0x31, 0xff]), None);
    assert_eq!(parse_content_length(&[0x2f]), None);
    assert_eq!(parse_content_length(&[0x3a]), None);
}

#[test]
fn probe_with_length() {
    assert_eq!(interpret_probe(200, Some(b"1000")), Ok(metadata(1000)));
    assert_eq!(interpret_probe(204, Some(b"0")), Ok(metadata(0)));
    assert_eq!(interpret_probe(301, Some(b"12")), Ok(metadata(12)));
    assert_eq!(interpret_probe(100, Some(b"12")), Ok(metadata(12)));
    assert_eq!(interpret_probe(600, Some(b"12")), Ok(metadata(12)));
}

#[test]
fn probe_not_found_is_a_remote_error() {
    assert_eq!(interpret_probe(404, Some(b"1000")), Err(DownloadError::RemoteError(404)));
    assert_eq!(interpret_probe(404, None), Err(DownloadError::RemoteError(404)));
}

#[test]
fn probe_error_status_comes_before_the_header() {
    assert_eq!(interpret_probe(400, Some(b"abc")), Err(DownloadError::RemoteError(400)));
    assert_eq!(interpret_probe(499, None), Err(DownloadError::RemoteError(499)));
    assert_eq!(interpret_probe(500, Some(b"10")), Err(DownloadError::RemoteError(500)));
    assert_eq!(interpret_probe(503, None), Err(DownloadError::RemoteError(503)));
    assert_eq!(interpret_probe(599, Some(b"10")), Err(DownloadError::RemoteError(599)));
}

#[test]
fn probe_without_length() {
    assert_eq!(interpret_probe(200, None), Err(DownloadError::MissingLengthError));
    assert_eq!(interpret_probe(302, None), Err(DownloadError::MissingLengthError));
}

#[test]
fn probe_with_malformed_length() {
    assert_eq!(interpret_probe(200, Some(b"")), Err(DownloadError::MalformedLengthError));
    assert_eq!(interpret_probe(200, Some(b"ten")), Err(DownloadError::MalformedLengthError));
    assert_eq!(interpret_probe(200, Some(b"-1")), Err(DownloadError::MalformedLengthError));
    assert_eq!(
        interpret_probe(200, Some(b"9223372036854775808")),
        Err(DownloadError::MalformedLengthError)
    );
}
