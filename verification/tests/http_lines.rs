use work::http::{getkey_ignorecase, header_tostr, parse_headers, parse_reqline, parse_resline, Headers};

#[test]
fn test_parse_headers() {
    let mut lines = Vec::new();
    lines.push("Content-Type: text/json".to_string());
    lines.push("Content-Length: 500".to_string());
    let headers = parse_headers(&lines);

    let leaders_str = header_tostr(&headers);
    println!("{}", leaders_str);
}

#[test]
fn test_parse_reqline() {
    let line = "HTTP/1.1 202 OK";
    let res = parse_resline(line).unwrap();
    assert_eq!(res.code, 202);
    assert_eq!(res.version, "HTTP/1.1");
    assert_eq!(res.code_line, "OK");
}

#[test]
fn test_parse_resline() {
    let line = "get /fuck HTTP/2.0";
    let req = parse_reqline(line).unwrap();
    println!("{}", req.to_string());
    assert_eq!(req.method, "GET");
    assert_eq!(req.version, "HTTP/2.0");
    assert_eq!(req.path, "/fuck");
}

#[test]
fn test_getkey_ignorecase() {
    let mut map = Headers::new();
    map.insert("content-length".to_string(), "200".to_string());
    map.insert("content-type".to_string(), "text/json".to_string());
    map.insert("content-encoding".to_string(), "utf9".to_string());

    let value = getkey_ignorecase("Content-Length", &map).unwrap();
    assert_eq!(value, "200");

    let value = getkey_ignorecase("Content-type", &map).unwrap();
    assert_eq!(value, "text/json");
}

#[test]
fn header_lines_are_read_into_entries() {
    let lines = vec![
        "Content-Type: text/json".to_string(),
        "no colon here".to_string(),
        "  Host :  localhost:8080 ".to_string(),
        "Content-Type: text/html".to_string(),
    ];
    let headers = parse_headers(&lines);
    assert_eq!(headers.len(), 2);
    assert_eq!(headers.entry(0), ("Content-Type", "text/html"));
    // The value stops at the next colon.
    assert_eq!(headers.entry(1), ("Host", "localhost"));
    assert_eq!(header_tostr(&headers), "Content-Type: text/html\r\nHost: localhost\r\n");
}

#[test]
fn header_insert_then_get() {
    let mut h = Headers::new();
    assert_eq!(h.insert("A".to_string(), "1".to_string()), None);
    assert_eq!(h.insert("B".to_string(), "2".to_string()), None);
    assert_eq!(h.insert("A".to_string(), "3".to_string()), Some("1".to_string()));
    assert_eq!(h.get("A"), Some("3"));
    assert_eq!(h.get("B"), Some("2"));
    assert_eq!(h.get("a"), None);
    assert_eq!(getkey_ignorecase("a", &h), Some("3"));
    assert_eq!(getkey_ignorecase("c", &h), None);
    assert_eq!(h.copy().len(), 2);
}

#[test]
fn header_lines_roundtrip_on_values() {
    let mut h = Headers::new();
    h.insert("Accept".to_string(), "*/*".to_string());
    h.insert("User-Agent".to_string(), "curl/7.76.1".to_string());
    let text = header_tostr(&h);
    let lines: Vec<String> = text.lines().map(|l| l.to_string()).collect();
    let back = parse_headers(&lines);
    assert_eq!(back.len(), 2);
    assert_eq!(back.entry(0), ("Accept", "*/*"));
    assert_eq!(back.entry(1), ("User-Agent", "curl/7.76.1"));
}

#[test]
fn status_and_request_lines_roundtrip() {
    let res = parse_resline("HTTP/1.0 404 NotFound extra words").unwrap();
    assert_eq!(res.to_string(), "HTTP/1.0 404 NotFound");
    let again = parse_resline(&res.to_string()).unwrap();
    assert_eq!((again.version, again.code, again.code_line), (res.version, res.code, res.code_line));

    let req = parse_reqline("  post\t/x  HTTP/1.1\r\n").unwrap();
    assert_eq!(req.to_string(), "POST /x HTTP/1.1");
}

#[test]
fn bad_lines_are_refused() {
    assert!(parse_reqline("GET /").is_none());
    assert!(parse_reqline("").is_none());
    assert!(parse_resline("HTTP/1.1 OK").is_none());
    assert!(parse_resline("HTTP/1.1 -1 OK").is_none());
    assert!(parse_resline("HTTP/1.1 99999999999999999999999 OK").is_none());
    assert_eq!(parse_resline("HTTP/1.1 +200 OK").unwrap().code, 200);
}
