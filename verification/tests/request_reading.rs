use std::io::{BufRead, BufReader, Read};
use work::http::request::{ReadOp, Request, RequestRead};

fn read_request(stream: impl Read) -> Option<Request> {
    let mut reader = BufReader::new(stream);
    let mut st = RequestRead::start();
    loop {
        match st.next_op() {
            ReadOp::Line => {
                let mut line = String::new();
                let got = reader.read_line(&mut line).ok().map(|_| line);
                st = st.on_line(got);
            }
            ReadOp::ReadOnce(n) => {
                let mut buf = vec![0u8; n];
                let _ = reader.read(&mut buf);
                st = st.on_bytes(buf);
            }
            ReadOp::ToEnd => {
                let mut buf = Vec::new();
                let _ = reader.read_to_end(&mut buf);
                st = st.on_bytes(buf);
            }
            ReadOp::ReadExact(_) => unreachable!(),
            ReadOp::Finished => return st.finish(),
        }
    }
}

#[test]
fn test_parse_req() {
    let src = "get /api HTTP/1.1
    Host: ducl.cc
    Accept: application/json
    ";
    let stream = BufReader::new(src.as_bytes());

    let req = read_request(stream).unwrap();
    assert!(req.body.is_empty());
    assert_eq!(req.req.version, "HTTP/1.1");
    assert_eq!(req.req.method, "GET");
    assert_eq!(req.req.path, "/api");
    assert_eq!(req.headers.get("Host").unwrap(), "ducl.cc");
    assert_eq!(req.headers.get("Accept").unwrap(), "application/json");
}

#[test]
fn request_body_by_length_and_method() {
    // Headers are read to the end of the stream, so the length-sized body
    // stays zero-filled.
    let req = read_request("POST /p HTTP/1.1\r\nContent-Length: 3\r\n\r\nabc".as_bytes()).unwrap();
    assert_eq!(req.body, vec![0u8, 0, 0]);
    let req = read_request("PUT /p HTTP/1.1\r\n".as_bytes()).unwrap();
    assert!(req.body.is_empty());
    assert!(read_request("".as_bytes()).is_none());
    assert!(read_request("GET /\r\n".as_bytes()).is_none());
}

#[test]
fn request_text_has_headers_then_body() {
    let mut req = read_request("get /a HTTP/1.1\r\n".as_bytes()).unwrap();
    assert_eq!(req.to_string(), "GET /a HTTP/1.1\r\n\r\n");
    assert_eq!(req.header("Host", "h"), None);
    assert_eq!(req.header("Host", "k"), Some("h".to_string()));
    req.body = b"hi".to_vec();
    assert_eq!(req.to_string(), "GET /a HTTP/1.1\r\nHost: k\r\n\r\n\r\nhi");
    req.body = vec![0xff, b'a'];
    assert_eq!(req.body_str(), "\u{fffd}a");
}

#[test]
fn request_after_empty_lines() {
    let req = read_request("\r\nGET / HTTP/1.1\r\nHost: a\r\n".as_bytes()).unwrap();
    assert_eq!(req.req.method, "GET");
    assert_eq!(req.req.path, "/");
    assert_eq!(req.req.version, "HTTP/1.1");
    assert_eq!(req.headers.get("Host").unwrap(), "a");
    let req = read_request("\n\r\n  \r\nPOST /x HTTP/1.0\r\n".as_bytes()).unwrap();
    assert_eq!(req.req.method, "POST");
    assert_eq!(req.req.path, "/x");
    assert!(read_request("\r\n\r\n".as_bytes()).is_none());
}
