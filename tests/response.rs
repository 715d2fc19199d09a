use std::io::Read;

use webcore::http::{Body, StatusCode, Version};
use webcore::response::HttpResponse;

fn split_head(wire: &[u8]) -> (String, Vec<u8>) {
    let pos = wire.windows(4).position(|w| w == b"\r\n\r\n").unwrap();
    (String::from_utf8(wire[..pos + 4].to_vec()).unwrap(), wire[pos + 4..].to_vec())
}

#[test]
fn empty_body_ok_is_exact() {
    let r = HttpResponse::new(StatusCode(200)).finish();
    assert_eq!(r.encode(false).unwrap(), b"HTTP/1.0 200 OK\r\nContent-Length: 0\r\n".to_vec());
    assert_eq!(r.encode(true).unwrap(), b"HTTP/1.0 200 OK\r\nContent-Length: 0\r\n".to_vec());
}

#[test]
fn absent_body_writes_zero_length() {
    let r = HttpResponse::bad_request().body(Body::Absent);
    assert_eq!(r.encode(true).unwrap(), b"HTTP/1.0 400 Bad Request\r\nContent-Length: 0\r\n".to_vec());
}

#[test]
fn bytes_body_uncompressed() {
    let r = HttpResponse::ok().body(Body::Bytes(b"hi".to_vec()));
    let wire = r.encode(false).unwrap();
    assert_eq!(wire, b"HTTP/1.0 200 OK\r\nContent-Length: 2\r\n\r\nhi".to_vec());
    assert!(wire.ends_with(b"Content-Length: 2\r\n\r\nhi"));
}

#[test]
fn compressed_body_round_trips() {
    let plain: Vec<u8> = b"hello hello hello hello hello, compressed world".to_vec();
    let r = HttpResponse::ok().header("X-A", "1").body(Body::Bytes(plain.clone()));
    let wire = r.encode(true).unwrap();
    let (head, body) = split_head(&wire);
    assert!(head.starts_with("HTTP/1.0 200 OK\r\nX-A: 1\r\nContent-Encoding: gzip\r\n"));
    assert!(head.ends_with(&format!("Content-Length: {}\r\n\r\n", body.len())));
    assert_ne!(body, plain);
    let mut decoded = Vec::new();
    flate2::read::GzDecoder::new(&body[..]).read_to_end(&mut decoded).unwrap();
    assert_eq!(decoded, plain);
}

#[test]
fn compressed_length_is_not_plain_length() {
    let plain: Vec<u8> = vec![b'a'; 1000];
    let r = HttpResponse::ok().body(Body::Bytes(plain.clone()));
    let wire = r.encode(true).unwrap();
    let (head, body) = split_head(&wire);
    assert!(body.len() < 1000);
    assert!(head.contains(&format!("Content-Length: {}\r\n", body.len())));
    assert!(!head.contains("Content-Length: 1000"));
}

#[test]
fn headers_emitted_in_sorted_order() {
    let ba = HttpResponse::ok().header("b", "2").header("a", "1").finish();
    let ab = HttpResponse::ok().header("a", "1").header("b", "2").finish();
    let expected = b"HTTP/1.0 200 OK\r\na: 1\r\nb: 2\r\nContent-Length: 0\r\n".to_vec();
    assert_eq!(ba.encode(false).unwrap(), expected);
    assert_eq!(ab.encode(false).unwrap(), expected);
}

#[test]
fn duplicate_header_last_write_wins() {
    let r = HttpResponse::ok()
        .header("Server", "one")
        .header("Content-Type", "text/plain")
        .header("Server", "two")
        .finish();
    assert_eq!(
        r.encode(false).unwrap(),
        b"HTTP/1.0 200 OK\r\nContent-Type: text/plain\r\nServer: two\r\nContent-Length: 0\r\n".to_vec()
    );
}

#[test]
fn prefix_key_sorts_first() {
    let r = HttpResponse::ok().header("ab", "2").header("a", "1").header("B", "3").finish();
    assert_eq!(
        r.encode(false).unwrap(),
        b"HTTP/1.0 200 OK\r\nB: 3\r\na: 1\r\nab: 2\r\nContent-Length: 0\r\n".to_vec()
    );
}

#[test]
fn status_override_and_phrases() {
    let r = HttpResponse::ok().status(StatusCode(500)).finish();
    assert_eq!(r.status(), StatusCode(500));
    assert_eq!(r.version(), Version::Http10);
    assert_eq!(r.encode(false).unwrap(), b"HTTP/1.0 500 Internal Server Error\r\nContent-Length: 0\r\n".to_vec());
    let r = HttpResponse::internal_server_error().finish();
    assert_eq!(r.status(), StatusCode(500));
    let r = HttpResponse::new(StatusCode(299)).finish();
    assert_eq!(r.encode(false).unwrap(), b"HTTP/1.0 299 \r\nContent-Length: 0\r\n".to_vec());
    let r = HttpResponse::new(StatusCode(7)).finish();
    assert_eq!(r.encode(false).unwrap(), b"HTTP/1.0 7 \r\nContent-Length: 0\r\n".to_vec());
}

#[test]
fn multi_digit_length() {
    let r = HttpResponse::not_found().body(Body::Bytes(vec![b'x'; 1234]));
    let wire = r.encode(false).unwrap();
    let (head, body) = split_head(&wire);
    assert_eq!(head, "HTTP/1.0 404 Not Found\r\nContent-Length: 1234\r\n\r\n");
    assert_eq!(body, vec![b'x'; 1234]);
}

#[test]
fn to_wire_uses_given_compressed_bytes() {
    let r = HttpResponse::ok().body(Body::Bytes(b"hello".to_vec()));
    let c = vec![1u8, 2, 3];
    assert_eq!(
        r.to_wire(Some(&c)),
        b"HTTP/1.0 200 OK\r\nContent-Encoding: gzip\r\nContent-Length: 3\r\n\r\n\x01\x02\x03".to_vec()
    );
    let e = HttpResponse::ok().finish();
    assert_eq!(e.to_wire(Some(&c)), b"HTTP/1.0 200 OK\r\nContent-Length: 0\r\n".to_vec());
}

#[test]
fn empty_bytes_body_still_declares_length() {
    let r = HttpResponse::ok().body(Body::Bytes(Vec::new()));
    assert_eq!(r.encode(false).unwrap(), b"HTTP/1.0 200 OK\r\nContent-Length: 0\r\n\r\n".to_vec());
}
