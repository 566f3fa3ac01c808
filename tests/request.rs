use npm_expansions::npm_expansion_error::NpmErrorKind;
use npm_expansions::request::Request;
use std::collections::HashMap;

fn padded(input_bytes: &[u8]) -> Vec<u8> {
    let mut contents = vec![0u8; 1024];
    contents[..input_bytes.len()].clone_from_slice(input_bytes);
    contents
}

fn as_map(pairs: &Vec<(String, String)>) -> HashMap<String, String> {
    pairs.iter().cloned().collect()
}

#[test]
fn request_parses_status_line() {
    let request = Request::build(&padded(b"GET / HTTP/1.1\r\n\r\n")).unwrap();
    assert_eq!(request.status_line(), "GET / HTTP/1.1")
}

#[test]
fn parses_query_params() {
    let request = Request::build(&padded(b"GET /random?query=123&search=hello HTTP/1.1\r\n\r\n")).unwrap();
    assert_eq!(
        as_map(request.query_params()),
        HashMap::from([
            ("query".to_string(), "123".to_string()),
            ("search".to_string(), "hello".to_string())
        ])
    )
}

#[test]
fn no_query_params() {
    let request = Request::build(&padded(b"GET /random HTTP/1.1\r\n\r\n")).unwrap();
    assert_eq!(as_map(request.query_params()), HashMap::new())
}

#[test]
fn empty_query_params() {
    let request = Request::build(&padded(b"GET /random? HTTP/1.1\r\n\r\n")).unwrap();
    assert_eq!(as_map(request.query_params()), HashMap::new())
}

#[test]
fn single_query_param() {
    let request = Request::build(&padded(b"GET /random?search=123 HTTP/1.1\r\n\r\n")).unwrap();
    assert_eq!(
        as_map(request.query_params()),
        HashMap::from([("search".to_string(), "123".to_string())])
    )
}

#[test]
fn malformed_single_query_param() {
    let request = Request::build(&padded(b"GET /random?search HTTP/1.1\r\n\r\n"));
    assert!(request.is_err())
}

#[test]
fn malformed_two_single_query_param() {
    let request = Request::build(&padded(b"GET /random?search& HTTP/1.1\r\n\r\n"));
    assert!(request.is_err())
}

#[test]
fn multi_malformed_query_param() {
    let request = Request::build(&padded(b"GET /random?search=123& HTTP/1.1\r\n\r\n")).unwrap();
    assert_eq!(
        as_map(request.query_params()),
        HashMap::from([("search".to_string(), "123".to_string())])
    )
}

#[test]
fn blank_query_param() {
    let request = Request::build(&padded(b"GET /random?search= HTTP/1.1\r\n\r\n")).unwrap();
    assert_eq!(
        as_map(request.query_params()),
        HashMap::from([("search".to_string(), "".to_string())])
    )
}

#[test]
fn malformedmulti_query_param() {
    let request = Request::build(&padded(b"GET /random?&&&&& HTTP/1.1\r\n\r\n")).unwrap();
    assert_eq!(as_map(request.query_params()), HashMap::new())
}

#[test]
fn includes_hashtag() {
    let request = Request::build(&padded(b"GET /random?search=123#test HTTP/1.1\r\n\r\n")).unwrap();
    assert_eq!(
        as_map(request.query_params()),
        HashMap::from([("search".to_string(), "123#test".to_string())])
    )
}

#[test]
fn request_parses_headers() {
    let request = Request::build(&padded(
        b"GET / HTTP/1.1\n\rAccept: application/text,text/plain;q=0.1\r\nContent-Length: 0\r\n\r\n",
    ))
    .unwrap();
    assert_eq!(
        as_map(request.headers()),
        HashMap::from([
            ("Content-Length".to_string(), "0".to_string()),
            ("Accept".to_string(), "application/text,text/plain;q=0.1".to_string()),
        ])
    )
}

#[test]
fn request_invalid_status_line() {
    let request = Request::build(&padded(b""));
    assert!(request.is_err())
}

#[test]
fn request_invalid_headers() {
    let request = Request::build(&padded(b"GET / HTTP/1.1\r\nContent-Type jndfjdnf\r\n\r\n"));
    assert!(request.is_err())
}

#[test]
fn request_request_has_no_empty_line() {
    let request = Request::build(&padded(b"GET / HTTP/1.1\r\n Content-Type: application/json"));
    let mut is_correct_error = false;
    if let Err(err) = request {
        is_correct_error = matches!(err.kind(), NpmErrorKind::InvalidHttpRequest);
    }
    assert_eq!(is_correct_error, true)
}

#[test]
fn header_without_colon_is_invalid_headers() {
    let err = Request::build(b"GET / HTTP/1.1\r\nContent-Type bad\r\n\r\n").err().unwrap();
    assert!(matches!(err.kind(), NpmErrorKind::InvalidRequestHeaders));
}

#[test]
fn head_over_the_cap_is_too_many_headers() {
    let mut bytes = b"GET / HTTP/1.1\r\n".to_vec();
    while bytes.len() < 9000 {
        bytes.extend_from_slice(b"X:aaaaaa\r\n");
    }
    let err = Request::build(&bytes).err().unwrap();
    assert!(matches!(err.kind(), NpmErrorKind::TooManyRequestHeaders));
}

#[test]
fn cap_inside_a_header_line_is_too_many_headers() {
    let mut bytes = b"GET / HTTP/1.1\r\n".to_vec();
    while bytes.len() < 9000 {
        bytes.extend_from_slice(b"X-Filler: aaaaaaaaaaaaaaaaaaaaaaaaaaaaaa\r\n");
    }
    let err = Request::build(&bytes).err().unwrap();
    assert!(matches!(err.kind(), NpmErrorKind::TooManyRequestHeaders));
    let mut cut_utf8 = b"GET / HTTP/1.1\r\n".to_vec();
    cut_utf8.extend(std::iter::repeat(b'a').take(7983));
    cut_utf8.extend_from_slice("é".as_bytes());
    let err = Request::build(&cut_utf8).err().unwrap();
    assert!(matches!(err.kind(), NpmErrorKind::TooManyRequestHeaders));
}

#[test]
fn blank_line_inside_the_cap_ends_the_head() {
    let mut bytes = b"GET / HTTP/1.1\r\nA: b\r\n\r\n".to_vec();
    bytes.extend(std::iter::repeat(b'z').take(9000));
    let request = Request::build(&bytes).unwrap();
    assert_eq!(request.header("A"), Some("b".to_string()));
}

#[test]
fn duplicate_headers_last_wins() {
    let request = Request::build(b"GET / HTTP/1.1\r\nX: 1\r\nX: 2\r\n\r\n").unwrap();
    assert_eq!(request.header("X"), Some("2".to_string()));
}

#[test]
fn request_line_without_target_is_invalid() {
    let err = Request::build(b"GET\r\n\r\n").err().unwrap();
    assert!(matches!(err.kind(), NpmErrorKind::InvalidHttpRequest));
}

#[test]
fn route_key_drops_the_query() {
    let request = Request::build(b"GET /x?a=1 HTTP/1.1\r\n\r\n").unwrap();
    assert_eq!(request.status_line_path(), "GET /x HTTP/1.1");
    assert!(!request.status_line_path().contains('?'));
    let short = Request::new("GET", Vec::new(), Vec::new());
    assert_eq!(short.status_line_path(), "GET  ");
}

#[test]
fn accept_header_lookup_either_case() {
    let upper = Request::new("GET / HTTP/1.1", vec![("Accept".to_string(), "a/b".to_string())], Vec::new());
    let lower = Request::new("GET / HTTP/1.1", vec![("accept".to_string(), "c/d".to_string())], Vec::new());
    let other = Request::new("GET / HTTP/1.1", vec![("ACCEPT".to_string(), "e/f".to_string())], Vec::new());
    assert_eq!(upper.accept_header(), Some("a/b".to_string()));
    assert_eq!(lower.accept_header(), Some("c/d".to_string()));
    assert_eq!(other.accept_header(), None);
}

#[test]
fn invalid_utf8_line_is_invalid_request() {
    let err = Request::build(b"GET / HTTP/1.1\r\nA: \xff\r\n\r\n").err().unwrap();
    assert!(matches!(err.kind(), NpmErrorKind::InvalidHttpRequest));
}
