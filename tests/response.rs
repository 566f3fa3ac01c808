use npm_expansions::http_response::{HttpResponse, Response};

#[test]
fn correct_reponse_with_headers() {
    let response = HttpResponse::new("200", "Content-Type: application/json;q=0.5", "Hello World!");
    assert_eq!(response.into_bytes_vec(), "HTTP/1.1 200\r\nContent-Length: 12\r\nContent-Type: application/json;q=0.5\r\n\r\nHello World!".as_bytes().to_vec())
}

#[test]
fn correct_reponse_without_headers() {
    let response = HttpResponse::new("200", "", "Hello World!");
    assert_eq!(
        response.into_bytes_vec(),
        "HTTP/1.1 200\r\nContent-Length: 12\r\n\r\nHello World!".as_bytes().to_vec()
    )
}

#[test]
fn correctly_reponse_with_headers() {
    let response = Response::new("200", "Content-Type: application/json;q=0.5", "Hello World!");
    assert_eq!(response.into_http_response(), "HTTP/1.1 200\r\nContent-Length: 12\r\nContent-Type: application/json;q=0.5\r\n\r\nHello World!".as_bytes().to_vec())
}

#[test]
fn correctly_reponse_without_headers() {
    let response = Response::new("200", "", "Hello World!");
    assert_eq!(
        response.into_http_response(),
        "HTTP/1.1 200\r\nContent-Length: 12\r\n\r\nHello World!".as_bytes().to_vec()
    )
}

#[test]
fn to_vec_correctly_formats_request_with_headers() {
    let response = Response::new("200", "Content-Type: application/json;q=0.5", &"Hello World!".to_string());
    assert_eq!(response.to_vec(), "HTTP/1.1 200\r\nContent-Length: 12\r\nContent-Type: application/json;q=0.5\r\n\r\nHello World!".as_bytes().to_vec())
}

#[test]
fn to_vec_correctly_formats_request_without_headers() {
    let response = Response::new("200", "", &"Hello World!".to_string());
    assert_eq!(
        response.to_vec(),
        "HTTP/1.1 200\r\nContent-Length: 12\r\n\r\nHello World!".as_bytes().to_vec()
    )
}

#[test]
fn content_length_counts_bytes() {
    let response = HttpResponse::new("200 OK", "", "más");
    let bytes = response.to_vec();
    assert_eq!(bytes, "HTTP/1.1 200 OK\r\nContent-Length: 4\r\n\r\nmás".as_bytes().to_vec());
}

#[test]
fn empty_body_has_zero_length() {
    let response = HttpResponse::new("204 NO CONTENT", "", "");
    assert_eq!(response.to_vec(), b"HTTP/1.1 204 NO CONTENT\r\nContent-Length: 0\r\n\r\n".to_vec());
}

#[test]
fn wire_format_has_one_separator() {
    let body = "x".repeat(1234);
    let bytes = HttpResponse::new("200 OK", "A: b\r\nC: d", &body).to_vec();
    assert!(bytes.starts_with(b"HTTP/1.1 "));
    let seps: Vec<usize> = (0..bytes.len().saturating_sub(3)).filter(|&i| &bytes[i..i + 4] == b"\r\n\r\n").collect();
    assert_eq!(seps.len(), 1);
    assert_eq!(bytes.len() - (seps[0] + 4), 1234);
    let text = String::from_utf8(bytes).unwrap();
    assert!(text.contains("Content-Length: 1234\r\n"));
}

#[test]
fn accessors_return_parts() {
    let response = HttpResponse::new("404 NOT FOUND", "X: y", "NOT FOUND");
    assert_eq!(response.status_line(), "404 NOT FOUND");
    assert_eq!(response.headers(), "X: y");
    assert_eq!(response.contents(), "NOT FOUND");
}

#[test]
fn separator_stays_unique_with_inner_line_breaks() {
    let body = "line one\r\nline two\r\n";
    let bytes = HttpResponse::new("200 OK", "A: b\r\nC: d", body).to_vec();
    let seps: Vec<usize> = (0..bytes.len() - 3).filter(|&i| &bytes[i..i + 4] == b"\r\n\r\n").collect();
    assert_eq!(seps.len(), 1);
    assert_eq!(&bytes[seps[0] + 4..], body.as_bytes());
}
