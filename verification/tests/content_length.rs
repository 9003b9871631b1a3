use file_downloader::download::util::file_length_from_header;
use file_downloader::downloader::util::file_length_from_header as file_length_as_usize;
use file_downloader::utils::{content_length_from_reply, parse_u64, ContentLengthError};

#[test]
fn content_length_reads_the_header() {
    assert_eq!(content_length_from_reply(true, Some(b"1024")), Ok(1024));
    assert_eq!(content_length_from_reply(true, Some(b"+7")), Ok(7));
    assert_eq!(content_length_from_reply(true, Some(b"007")), Ok(7));
    assert_eq!(content_length_from_reply(true, Some(b"18446744073709551615")), Ok(u64::MAX));
}

#[test]
fn content_length_errors_are_told_apart() {
    assert_eq!(content_length_from_reply(false, Some(b"1024")), Err(ContentLengthError::Status));
    assert_eq!(content_length_from_reply(true, None), Err(ContentLengthError::Missing));
    assert_eq!(content_length_from_reply(true, Some(&[0x31, 0x80])), Err(ContentLengthError::NotText));
    assert_eq!(content_length_from_reply(true, Some(b"12a")), Err(ContentLengthError::NotNumber));
    assert_eq!(content_length_from_reply(true, Some(b"-1")), Err(ContentLengthError::NotNumber));
    assert_eq!(content_length_from_reply(true, Some(b"")), Err(ContentLengthError::NotNumber));
    assert_eq!(content_length_from_reply(true, Some(b"+")), Err(ContentLengthError::NotNumber));
    assert_eq!(content_length_from_reply(true, Some(b" 5")), Err(ContentLengthError::NotNumber));
    assert_eq!(content_length_from_reply(true, Some(b"18446744073709551616")), Err(ContentLengthError::NotNumber));
}

#[test]
fn parse_u64_agrees_with_std() {
    for text in ["0", "42", "+42", "", "+", "-0", "4x", "99999999999999999999", "18446744073709551615"] {
        assert_eq!(parse_u64(text.as_bytes()), text.parse::<u64>().ok(), "{}", text);
    }
}

#[test]
fn file_length_ignores_the_status() {
    assert_eq!(file_length_from_header(Some(b"300")), Some(300));
    assert_eq!(file_length_from_header(Some(b"3 00")), None);
    assert_eq!(file_length_from_header(Some(&[0x33, 0x7f])), None);
    assert_eq!(file_length_from_header(None), None);
    assert_eq!(file_length_as_usize(Some(b"300")), Some(300usize));
    assert_eq!(file_length_as_usize(None), None);
}
