use work::http::http_client::HttpClient;
use work::http::proxy::Proxy;
use work::http::url::Url;
use work::http::response::Response;
use work::download::build_url;

#[test]
fn test_url() {
    let url = Url::new("http://www.baidy.com/fuck?time=9999");
    let url = url.unwrap();

    assert_eq!(url.host, "www.baidy.com");
    assert_eq!(url.proto, "http");
    assert_eq!(url.path, "/fuck?time=9999");
}

#[test]
fn url_ports_and_errors() {
    let u = Url::new("https://example.com").unwrap();
    assert_eq!((u.port, u.path.as_str()), (443, "/"));
    assert_eq!(u.to_host(), "example.com:443");
    let u = Url::new("HTTP://h:8080/a/b").unwrap();
    assert_eq!((u.host.as_str(), u.port), ("h", 8080));
    assert_eq!(Url::new("http://h/").unwrap().port, 80);
    assert!(Url::new("no scheme").is_none());
    assert!(Url::new("http:///path").is_none());
    assert!(Url::new("http://h:99999/").is_none());
    assert!(Url::new("http://h:port/").is_none());
}

#[test]
fn test_build_url() {
    let str = "https://w.wallhaven.cc/full/k7/wallhaven-k7v9yq.png?f=uck";
    let res = build_url(str, "fucing.ing").unwrap();

    assert_eq!(res, "https://w.wallhaven.cc/full/k7/fucing.ing");
}

#[test]
fn build_url_without_slash() {
    assert_eq!(build_url("name?x=/y", "n"), None);
    assert_eq!(build_url("a/b/", "c").unwrap(), "a/b/c");
}

#[test]
fn proxies_from_settings() {
    assert!(matches!(Proxy::new(" 127.0.0.1:1087 "), Proxy::Http(a) if a == "127.0.0.1:1087"));
    assert!(matches!(Proxy::new("HTTP://p:1"), Proxy::Http(a) if a == "p:1"));
    assert!(matches!(Proxy::new("socks5://127.0.0.1:10808"), Proxy::Socks5(a) if a == "127.0.0.1:10808"));
    assert!(matches!(Proxy::new("x://a://b"), Proxy::Socks5(a) if a == "a"));
    assert!(matches!(Proxy::default(), Proxy::Direct));
}

#[test]
fn client_requests() {
    let mut c = HttpClient::new();
    c.proxy("socks5://127.0.0.1:10808");
    assert!(matches!(&c.proxy, Proxy::Socks5(a) if a == "127.0.0.1:10808"));
    c.header("Accept", "text/html");
    let (u, req) = c.prepare_request("  http://host:81/x?y ", "get", b"data".to_vec()).unwrap();
    assert_eq!(u.to_host(), "host:81");
    assert_eq!(
        req.to_string(),
        "GET /x?y HTTP/1.1\r\nHost: host\r\nUser-Agent: curl/7.76.1\r\nAccept: text/html\r\n\r\n\r\ndata"
    );
    assert_eq!(c.prepare_request("nothing", "GET", Vec::new()).err().unwrap(), "parse url failed");

    assert_eq!(HttpClient::check_response(None).err().unwrap(), "read from stream failed");
    let mut res = Response::success_res();
    res.res.code = 404;
    assert_eq!(HttpClient::check_response(Some(res)).err().unwrap(), "response code is 404");
    let mut res = Response::success_res();
    res.res.code = 300;
    assert!(HttpClient::check_response(Some(res)).is_ok());
}
