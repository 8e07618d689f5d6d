use gdbg::dap_frame::{
    encode_frame, take_frame, DapFrameDecoder, FrameError, MAX_DAP_FRAME_BYTES,
    MAX_DAP_HEADER_BYTES,
};

#[test]
fn take_frame_parses_content_length_body() {
    let mut inbox = b"Content-Length: 2\r\n\r\n{}leftover".to_vec();
    let frame = take_frame(&mut inbox).unwrap();
    assert_eq!(frame, b"{}");
    assert_eq!(inbox, b"leftover");
}

#[test]
fn take_frame_returns_none_when_incomplete() {
    let mut inbox = b"Content-Length: 10\r\n\r\n{}".to_vec();
    assert!(take_frame(&mut inbox).is_none());
}

#[test]
fn framing_rejects_bad_headers_and_keeps_the_next_frame() {
    let valid = b"Content-Length: 2\r\n\r\n{}";
    for bad in [
        b"Content-Length: nope\r\n\r\n".as_slice(),
        b"Content-Length: 2\r\nX: \xff\r\n\r\n".as_slice(),
    ] {
        let mut decoder = DapFrameDecoder::new();
        decoder.inbox.extend_from_slice(bad);
        decoder.inbox.extend_from_slice(valid);
        assert!(decoder.next_frame().is_err());
        assert_eq!(decoder.next_frame().unwrap().as_deref(), Some(&b"{}"[..]));
    }
}

#[test]
fn framing_discards_oversized_body_before_resynchronizing() {
    let mut decoder = DapFrameDecoder::new();
    let header = format!("Content-Length: {}\r\n\r\n", MAX_DAP_FRAME_BYTES + 1);
    decoder.inbox.extend_from_slice(header.as_bytes());
    decoder.inbox.extend(std::iter::repeat(b'x').take(MAX_DAP_FRAME_BYTES + 1));
    decoder.inbox.extend_from_slice(b"Content-Length: 2\r\n\r\n{}");
    assert!(decoder.next_frame().is_err());
    assert_eq!(decoder.next_frame().unwrap().as_deref(), Some(&b"{}"[..]));
}

#[test]
fn framing_resynchronizes_after_an_oversized_length_without_waiting_for_it() {
    let mut decoder = DapFrameDecoder::new();
    decoder.inbox.extend_from_slice(b"Content-Length: 18446744073709551615\r\n\r\n");
    decoder.inbox.extend_from_slice(b"Content-Length: 2\r\n\r\n{}");
    assert!(decoder.next_frame().is_err());
    assert_eq!(decoder.next_frame().unwrap().as_deref(), Some(&b"{}"[..]));
}

#[test]
fn oversized_resynchronization_keeps_memory_bounded_between_chunks() {
    let mut decoder = DapFrameDecoder::new();
    decoder.inbox.extend_from_slice(b"Content-Length: 999999999999999999\r\n\r\n");
    assert!(decoder.next_frame().is_err());

    decoder.inbox.extend(std::iter::repeat(b'x').take(1_000_000));
    assert!(decoder.next_frame().unwrap().is_none());
    assert!(decoder.inbox.len() < b"Content-Length:".len());

    decoder.inbox.extend_from_slice(b"Content-Length: 2\r\n\r\n{}");
    assert_eq!(decoder.next_frame().unwrap().as_deref(), Some(&b"{}"[..]));
}

#[test]
fn an_encoded_frame_reads_back() {
    let bytes = encode_frame(b"{\"seq\":1}");
    assert_eq!(bytes, b"Content-Length: 9\r\n\r\n{\"seq\":1}");
    let mut decoder = DapFrameDecoder::new();
    decoder.inbox.extend_from_slice(&bytes);
    decoder.inbox.extend_from_slice(b"Content-");
    assert_eq!(decoder.next_frame().unwrap().as_deref(), Some(&b"{\"seq\":1}"[..]));
    assert_eq!(decoder.inbox, b"Content-");
}

#[test]
fn a_body_that_arrives_in_parts_is_waited_for() {
    let mut decoder = DapFrameDecoder::new();
    decoder.inbox.extend_from_slice(b"Content-Length: 4\r\n\r\nab");
    assert!(decoder.next_frame().unwrap().is_none());
    assert_eq!(decoder.inbox, b"Content-Length: 4\r\n\r\nab");
    decoder.inbox.extend_from_slice(b"cd");
    assert_eq!(decoder.next_frame().unwrap().as_deref(), Some(&b"abcd"[..]));
}

#[test]
fn every_faulty_header_has_its_error() {
    let cases: [(&[u8], FrameError); 5] = [
        (b"Content-Length: 2\r\nX: \xff\r\n\r\n", FrameError::HeaderNotUtf8),
        (b"Content-Length: 2\r\nContent-Length: 2\r\n\r\n", FrameError::DuplicateLength),
        (b"Content-Length: two\r\n\r\n", FrameError::InvalidLength),
        (b"X: 1\r\n\r\n", FrameError::MissingLength),
        (b"Content-Length: 8388609\r\n\r\n", FrameError::FrameTooLong),
    ];
    for (bytes, error) in cases {
        let mut decoder = DapFrameDecoder::new();
        decoder.inbox.extend_from_slice(bytes);
        assert_eq!(decoder.next_frame(), Err(error));
    }
    let mut decoder = DapFrameDecoder::new();
    decoder.inbox.extend(std::iter::repeat(b'x').take(MAX_DAP_HEADER_BYTES + 1));
    assert_eq!(decoder.next_frame(), Err(FrameError::HeaderTooLong));
}

#[test]
fn a_frame_of_the_greatest_length_is_read() {
    let body = vec![b' '; MAX_DAP_FRAME_BYTES];
    let mut decoder = DapFrameDecoder::new();
    decoder.inbox.extend_from_slice(&encode_frame(&body));
    assert_eq!(decoder.next_frame().unwrap().unwrap().len(), MAX_DAP_FRAME_BYTES);
}

#[test]
fn each_frame_error_has_its_message() {
    let messages = [
        (FrameError::HeaderTooLong, "DAP header exceeded maximum size"),
        (FrameError::HeaderNotUtf8, "DAP header is not valid UTF-8"),
        (FrameError::DuplicateLength, "duplicate DAP Content-Length header"),
        (FrameError::InvalidLength, "invalid DAP Content-Length"),
        (FrameError::MissingLength, "missing DAP Content-Length header"),
        (FrameError::FrameTooLong, "DAP frame exceeds maximum size"),
    ];
    for (error, message) in messages {
        assert_eq!(error.message(), message);
    }
}
