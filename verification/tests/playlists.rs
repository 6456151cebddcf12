use work::config::{make_filename, Config, RunMode};
use work::fetch::{fetch_json_text, FetchObj, FetchOpt};
use work::http::Headers;
use work::m3u8::download::{batch_bounds, tmp_file_name};
use work::m3u8::{file_name_for_hash, gen_file_name, md5_hex, parse, playlist_urls};
use work::num::{decimal_string, parse_hex_usize, parse_usize};
use work::server::Cache;
use work::service::{is_download_request, Tasks};
use work::http::parse_reqline;
use work::web::{segment_urls, DownloadStatus, Global};

#[test]
fn test_parse() {
    let content = "#EXTM3U
#EXT-X-TARGETDURATION:10
#EXT-X-VERSION:3
#EXTINF:9.009,
first.ts
#EXTINF:9.009,
second.ts
#EXTINF:3.003,
third.ts
#EXT-X-ENDLIST";
    let url = "http://media.example.com/fds/fds/fds/654654/-0fds.fdg4.432/indx.m3u8?fuck";
    let ret = parse(url, content).unwrap();
    println!("{:?}", ret);
    let base = "http://media.example.com/fds/fds/fds/654654/-0fds.fdg4.432/";
    assert_eq!(ret, vec![format!("{base}first.ts"), format!("{base}second.ts"), format!("{base}third.ts")]);
}

#[test]
fn playlist_lines() {
    assert_eq!(playlist_urls("b/", "a\r\n#x\n  \n\nc"), vec!["b/a".to_string(), "b/c".to_string()]);
    assert!(playlist_urls("b/", "").is_empty());
}

#[test]
fn test_get_conf() {
    let conf = Config::default();
    println!("{:?}", conf)
}

#[test]
fn config_modes_and_names() {
    let mut c = Config::default();
    assert_eq!(c.threads, 20);
    assert_eq!(c.mode(), RunMode::Idle);
    c.url = Some("http://a/b.m3u8".to_string());
    assert_eq!(c.mode(), RunMode::Download);
    c.stdin = true;
    assert_eq!(c.mode(), RunMode::Stdin);
    c.bind = Some("127.0.0.1:2022".to_string());
    assert_eq!(c.mode(), RunMode::Serve);
    c.url = Some(String::new());
    assert_eq!(make_filename(&c), "d41d8cd98f0b24e980998ecf8427e.ts");
    c.file = Some("f.ts".to_string());
    assert_eq!(make_filename(&c), "f.ts");
}

#[test]
fn md5_and_temp_names() {
    assert_eq!(md5_hex(""), "d41d8cd98f0b24e980998ecf8427e");
    assert_eq!(md5_hex("abc"), "90150983cd24fb0d6963f7d28e17f72");
    assert_eq!(tmp_file_name("out.ts", ""), "out.ts.downloading.d41d8cd98");
}

#[test]
fn hashed_names() {
    assert_eq!(file_name_for_hash(42), "result/rs-42.ts");
    let n = gen_file_name("http://a/b.m3u8");
    assert!(n.starts_with("result/rs-") && n.ends_with(".ts"));
    assert_eq!(n, gen_file_name("http://a/b.m3u8"));
}

#[test]
fn batches() {
    assert_eq!(batch_bounds(7, 3), vec![(0, 3), (3, 6), (6, 7)]);
    assert_eq!(batch_bounds(6, 3), vec![(0, 3), (3, 6)]);
    assert!(batch_bounds(0, 5).is_empty());
    assert_eq!(batch_bounds(70, 15).len(), 5);
}

#[test]
fn numbers() {
    assert_eq!(decimal_string(0), "0");
    assert_eq!(decimal_string(1234567890), "1234567890");
    assert_eq!(parse_usize("0042"), Some(42));
    assert_eq!(parse_usize("+"), None);
    assert_eq!(parse_usize(""), None);
    assert_eq!(parse_usize("1a"), None);
    assert_eq!(parse_hex_usize("1A"), Some(26));
    assert_eq!(parse_hex_usize("fF"), Some(255));
    assert_eq!(parse_hex_usize("g"), None);
    assert_eq!(parse_usize(&decimal_string(usize::MAX)), Some(usize::MAX));
}

#[test]
fn fetch_calls() {
    let json = fetch_json_text("  fetch(\"http://a/x.m3u8\", {\"method\":\"GET\"});\n").unwrap();
    assert_eq!(json, "[\"http://a/x.m3u8\", {\"method\":\"GET\"}]");

    let mut h = Headers::new();
    h.insert("accept".to_string(), "*/*".to_string());
    let obj = FetchObj {
        url: "u".to_string(),
        option: FetchOpt {
            headers: Some(h),
            referrer: Some("r".to_string()),
            method: "GET".to_string(),
            mode: "cors".to_string(),
            credentials: "omit".to_string(),
        },
    };
    let obj = FetchObj::new(obj);
    let h = obj.option.headers.unwrap();
    assert_eq!(h.get("referrer"), Some("r"));
    assert_eq!(h.get("accept"), Some("*/*"));

    let mut h = Headers::new();
    h.insert("accept".to_string(), "*/*".to_string());
    let obj = FetchObj::new(FetchObj {
        url: "u".to_string(),
        option: FetchOpt {
            headers: Some(h),
            referrer: None,
            method: "GET".to_string(),
            mode: "cors".to_string(),
            credentials: "omit".to_string(),
        },
    });
    assert!(obj.option.headers.unwrap().is_empty());
}

#[test]
fn cache_and_tasks() {
    let mut c = Cache::new();
    assert!(!c.check("a"));
    c.insert("a");
    assert!(c.check("a"));
    assert_eq!(c.entries().len(), 1);

    let mut t = Tasks::new();
    assert_eq!(t.begin("u"), 0);
    assert_eq!(t.begin("u"), 1);
    assert_eq!(t.begin("v"), 0);
    t.finish("u", true);
    assert_eq!(t.status_page(), "<ul><li>tasks 2</li><li>downlading 1</li><li>complete 1</li>");
    t.finish("v", false);
    assert_eq!(t.len(), 1);
    assert_eq!(t.begin("v"), 0);

    assert!(is_download_request(&parse_reqline("post /m3u8 HTTP/1.1").unwrap()));
    assert!(!is_download_request(&parse_reqline("GET /m3u8 HTTP/1.1").unwrap()));
}

#[test]
fn web_downloads() {
    let mut g = Global::new();
    let h = Global::hash("x");
    assert!(matches!(g.claim(h), DownloadStatus::Success));
    assert!(matches!(g.claim(h), DownloadStatus::Downloding));
    assert!(g.has(h));

    let refs = vec!["first.ts".to_string(), "sub/second.ts?x=1".to_string()];
    let urls = segment_urls(&refs, "http://a.com/v/index.m3u8?t=1").unwrap();
    assert_eq!(urls, vec!["http://a.com/v/first.ts".to_string(), "http://a.com/v/sub/second.ts?x=1".to_string()]);
    let absolute = vec!["https://cdn.b.org/s.ts".to_string(), "/root.ts".to_string(), "../up.ts".to_string()];
    assert_eq!(
        segment_urls(&absolute, "http://a.com/v/w/index.m3u8").unwrap(),
        vec!["https://cdn.b.org/s.ts".to_string(), "http://a.com/root.ts".to_string(), "http://a.com/v/up.ts".to_string()]
    );
    assert!(segment_urls(&refs, "relative/only").is_none());
    let empty: Vec<String> = Vec::new();
    assert_eq!(segment_urls(&empty, "http://a.com/x.m3u8"), Some(Vec::new()));
    assert!(segment_urls(&empty, "relative/only").is_none());
}

#[test]
fn cache_check_after_inserts() {
    let mut c = Cache::new();
    let keys = ["http://a/1.m3u8", "http://a/2.m3u8", "http://a/1.m3u8"];
    for k in keys {
        c.insert(k);
    }
    assert_eq!(c.entries().len(), 3);
    assert!(c.check("http://a/1.m3u8"));
    assert!(c.check("http://a/2.m3u8"));
    assert!(!c.check("http://a/3.m3u8"));
    assert!(!Cache::new().check("http://a/1.m3u8"));
}
