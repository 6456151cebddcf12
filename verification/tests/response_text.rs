use std::io::{BufRead, BufReader, Read};
use work::http::request::ReadOp;
use work::http::response::{Response, ResponseBuilder, ResponseRead};
use work::http::{Headers, ResLine};

fn def_res() -> Response {
    Response::new(
        ResLine {
            code: 200,
            code_line: "OK".to_string(),
            version: "HTTP/1.1".to_string(),
        },
        Headers::new(),
        Vec::new(),
    )
}

#[test]
fn test_res_default() {
    let res = def_res();
    let str1: String = res.to_string();
    assert_eq!("HTTP/1.1 200 OK\r\n\r\n", str1);
}

#[test]
fn test_res_with_body() {
    let mut res = def_res();
    res.body("i don't know what should be there!");
    let str1: String = res.to_string();
    assert!(str1.contains("HTTP/1.1 200 OK\r\n"));
    assert!(str1.contains("\r\n\r\ni don't know what should be there!"));
}

#[test]
fn test_res_with_json() {
    let mut obj = serde_json::Map::new();
    obj.insert("name".to_string(), serde_json::Value::String(String::from("aniki")));
    obj.insert("value".to_string(), serde_json::Value::String(String::from("what is value!.")));
    let json = serde_json::to_string(&serde_json::Value::Object(obj)).unwrap();

    let mut res = def_res();
    res.body_json(&json);
    let str1: String = res.to_string();
    assert!(str1.contains("\r\n\r\n{\"name\":\"aniki\",\"value\":\"what is value!.\"}"));
}

#[test]
fn response_headers_and_builder() {
    let mut res = Response::success_res();
    assert_eq!(res.to_string(), "HTTP/1.0 200 OK\r\n\r\n");
    res.body("abc");
    assert_eq!(res.body_str(), "abc");
    assert_eq!(res.get_headers().get("Content-Length"), Some("3"));
    assert_eq!(res.header("X", "1"), None);
    assert_eq!(res.to_string(), "HTTP/1.0 200 OK\r\nX: 1\r\nContent-Length: 3\r\n\r\nabc");
    res.body_json("{}");
    assert_eq!(res.headers.get("Content-Type"), Some("text/json"));
    assert_eq!(res.headers.get("Content-Length"), Some("2"));

    let mut b = ResponseBuilder::new();
    let r = b.code(404).build();
    assert_eq!(r.to_string(), "HTTP/1.1 200 OK\r\n\r\n");
}

fn read_response(stream: impl Read) -> Option<Response> {
    let mut reader = BufReader::new(stream);
    let mut st = ResponseRead::start();
    loop {
        match st.next_op() {
            ReadOp::Line => {
                let mut line = String::new();
                let got = reader.read_line(&mut line).ok().map(|_| line);
                if !st.accepts_line(&got) {
                    panic!("bad chunk line");
                }
                st = st.on_line(got);
            }
            ReadOp::ReadExact(n) => {
                let mut buf = vec![0u8; n];
                let ok = reader.read_exact(&mut buf).is_ok();
                if !st.accepts_bytes(&buf, ok) {
                    panic!("short chunk");
                }
                st = st.on_bytes(buf, ok);
            }
            ReadOp::Finished => return st.finish(),
            _ => unreachable!(),
        }
    }
}

#[test]
fn response_read_with_length() {
    let res = read_response("\r\nHTTP/1.1 200 OK\r\ncontent-length: 5\r\n\r\nhello world".as_bytes())
        .unwrap();
    assert_eq!(res.res.code, 200);
    assert_eq!(res.body, b"hello".to_vec());
    assert_eq!(res.headers.get("content-length"), Some("5"));
}

#[test]
fn response_read_chunked() {
    let text = "HTTP/1.1 200 OK\r\nTransfer-Encoding: Chunked\r\n\r\n4\r\nWiki\r\n9\r\npedia in \r\n0\r\n\r\n";
    let res = read_response(text.as_bytes()).unwrap();
    assert_eq!(res.body_str(), "Wikipedia in ");
}

#[test]
fn response_read_without_body_or_status() {
    let res = read_response("HTTP/1.1 204 NoContent\r\nA: b\r\n\r\nignored".as_bytes()).unwrap();
    assert!(res.body.is_empty());
    assert!(read_response("nonsense\r\n".as_bytes()).is_none());
    assert!(read_response("".as_bytes()).is_none());
}

#[test]
fn written_response_reads_back() {
    let mut res = def_res();
    res.header("Server", "work");
    res.body("payload");
    let text = res.to_string();
    let back = read_response(text.as_bytes()).unwrap();
    assert_eq!(back.res.code, 200);
    assert_eq!(back.body_str(), "payload");
    assert_eq!(back.headers.get("Server"), Some("work"));
}

#[test]
fn chunked_stream_joins_chunks() {
    let chunks: Vec<Vec<u8>> = vec![
        b"hello".to_vec(),
        b"abcdefghijklmnopqrstuvwxyz".to_vec(),
        vec![0u8, 255, 13, 10],
        b"!".to_vec(),
    ];
    let mut text = b"HTTP/1.1 200 OK\r\nTransfer-Encoding: chunked\r\n\r\n".to_vec();
    for c in &chunks {
        text.extend_from_slice(format!("{:x}\r\n", c.len()).as_bytes());
        text.extend_from_slice(c);
        text.extend_from_slice(b"\r\n");
    }
    text.extend_from_slice(b"0\r\n\r\n");
    let res = read_response(text.as_slice()).unwrap();
    assert_eq!(res.body, chunks.concat());
    let empty = read_response("HTTP/1.1 200 OK\r\nTransfer-Encoding: chunked\r\n\r\n0\r\n\r\n".as_bytes())
        .unwrap();
    assert!(empty.body.is_empty());
}
