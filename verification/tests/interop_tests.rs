use analyzer::accessors::http::{accept_body, accept_response, judge_head, parse_content_length};
use analyzer::accessors::AccessorError;
use analyzer::interop::{construct_frame, BytesExt};

#[test]
fn frame_of_nothing_is_four_zero_bytes() {
    let empty: &[u8] = &[];
    assert_eq!(empty.to_frame(), vec![0, 0, 0, 0]);
    assert_eq!(construct_frame(vec![]), vec![0, 0, 0, 0]);
}

#[test]
fn frame_starts_with_the_big_endian_length() {
    let payload: &[u8] = &[7, 8, 9];
    assert_eq!(payload.to_frame(), vec![0, 0, 0, 3, 7, 8, 9]);
    assert_eq!(construct_frame(vec![7, 8, 9]), vec![0, 0, 0, 3, 7, 8, 9]);
}

#[test]
fn frame_length_uses_all_four_bytes() {
    let payload = vec![5u8; 0x01_02_03];
    let frame = payload.as_slice().to_frame();
    assert_eq!(frame.len(), 4 + 0x01_02_03);
    assert_eq!(&frame[..4], &[0, 1, 2, 3]);
    assert!(frame[4..].iter().all(|b| *b == 5));
    let expected = i32::try_from(payload.len()).unwrap().to_be_bytes();
    assert_eq!(&frame[..4], &expected);
}

#[test]
fn content_length_is_decimal_digits_only() {
    assert_eq!(parse_content_length(b"0"), Some(0));
    assert_eq!(parse_content_length(b"42"), Some(42));
    assert_eq!(parse_content_length(b"007"), Some(7));
    assert_eq!(parse_content_length(b"18446744073709551615"), Some(usize::MAX));
    assert_eq!(parse_content_length(b"18446744073709551616"), None);
    assert_eq!(parse_content_length(b"99999999999999999999999"), None);
    assert_eq!(parse_content_length(b""), None);
    assert_eq!(parse_content_length(b"12a"), None);
    assert_eq!(parse_content_length(b"-1"), None);
    assert_eq!(parse_content_length(b" 1"), None);
}

#[test]
fn complete_response_is_accepted() {
    let body = accept_response(200, Some(b"3"), vec![1, 2, 3]).unwrap();
    assert_eq!(body, vec![1, 2, 3]);
}

#[test]
fn non_200_response_is_refused() {
    let r = accept_response(404, Some(b"3"), vec![1, 2, 3]);
    assert!(matches!(r, Err(AccessorError::Non200Response { status: 404 })));
    let r = accept_response(201, Some(b"3"), vec![1, 2, 3]);
    assert!(matches!(r, Err(AccessorError::Non200Response { status: 201 })));
}

#[test]
fn response_without_length_is_refused() {
    let r = accept_response(200, None, vec![1, 2, 3]);
    assert!(matches!(r, Err(AccessorError::NoContentLength)));
}

#[test]
fn response_with_a_length_that_is_no_number_is_refused() {
    let r = accept_response(200, Some(b"three"), vec![1, 2, 3]);
    assert!(matches!(r, Err(AccessorError::InvalidContentLength)));
}

#[test]
fn partial_body_is_refused() {
    let r = accept_response(200, Some(b"5"), vec![1, 2, 3]);
    assert!(matches!(r, Err(AccessorError::LengthMismatch { expected: 5, received: 3 })));
    let r = accept_response(200, Some(b"2"), vec![1, 2, 3]);
    assert!(matches!(r, Err(AccessorError::LengthMismatch { expected: 2, received: 3 })));
}

#[test]
fn head_of_a_response_is_judged_before_its_body() {
    assert!(matches!(judge_head(200, Some(b"12")), Ok(12)));
    assert!(matches!(judge_head(200, Some(b"0")), Ok(0)));
    assert!(matches!(judge_head(500, Some(b"12")), Err(AccessorError::Non200Response { status: 500 })));
    assert!(matches!(judge_head(200, None), Err(AccessorError::NoContentLength)));
    assert!(matches!(judge_head(404, None), Err(AccessorError::Non200Response { status: 404 })));
    assert!(matches!(judge_head(200, Some(b"1.5")), Err(AccessorError::InvalidContentLength)));
}

#[test]
fn body_of_the_declared_length_is_accepted() {
    assert_eq!(accept_body(3, vec![1, 2, 3]).unwrap(), vec![1, 2, 3]);
    assert_eq!(accept_body(0, vec![]).unwrap(), Vec::<u8>::new());
    assert!(matches!(
        accept_body(4, vec![1, 2, 3]),
        Err(AccessorError::LengthMismatch { expected: 4, received: 3 })
    ));
    assert!(matches!(
        accept_body(2, vec![1, 2, 3]),
        Err(AccessorError::LengthMismatch { expected: 2, received: 3 })
    ));
}
