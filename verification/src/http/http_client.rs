//! The decisions of an HTTP client: which request to send for a URL, and
//! which responses count as success. The connection itself is made by the caller.
use vstd::prelude::*;
use crate::calls::{to_uppercase, uppercase};
use crate::http::proxy::{proxy_from, Proxy};
use crate::http::request::Request;
use crate::http::response::Response;
use crate::http::url::{parse_url, Url};
use crate::http::{
    distinct_keys, insert_entry, key_index, law_header_read_after_write, lemma_key_index, lookup,
    HeaderView, Headers, ReqLine,
};
use crate::num::{decimal, push_decimal};
use crate::text::{chars_of, push_str, string_of, trim, trim_chars};

verus! {

/// A client's settings: the headers it sends with every request, and its proxy.
pub struct HttpClient {
    pub headers: Headers,
    pub proxy: Proxy,
}

/// The protocol version of the requests a client sends.
pub open spec fn http_version() -> Seq<char> {
    "HTTP/1.1"@
}

/// The entries after setting each of `extra`, in order, over `es`.
pub open spec fn insert_all(es: Seq<HeaderView>, extra: Seq<HeaderView>) -> Seq<HeaderView>
    decreases extra.len(),
{
    if extra.len() == 0 {
        es
    } else {
        insert_entry(insert_all(es, extra.drop_last()), extra.last().0, extra.last().1)
    }
}

/// The headers a client sends for a request to `host`: `Host` first, then the
/// client's own headers, which win over it.
pub open spec fn request_headers(host: Seq<char>, client: Seq<HeaderView>) -> Seq<HeaderView> {
    insert_all(insert_entry(seq![], "Host"@, host), client)
}

impl HttpClient {
    /// A client that introduces itself as `curl/7.76.1`, accepts anything, and
    /// connects directly.
    pub fn new() -> (c: HttpClient)
        ensures
            c.headers@ == insert_entry(
                insert_entry(seq![], "User-Agent"@, "curl/7.76.1"@),
                "Accept"@,
                "*/*"@,
            ),
            c.proxy matches Proxy::Direct,
    {
        let mut headers = Headers::new();
        headers.insert(string_of(&chars_of("User-Agent")), string_of(&chars_of("curl/7.76.1")));
        headers.insert(string_of(&chars_of("Accept")), string_of(&chars_of("*/*")));
        HttpClient { headers, proxy: Proxy::Direct }
    }

    /// Sets the proxy from a setting such as `socks5://127.0.0.1:10808`.
    pub fn proxy(&mut self, proxy: &str) -> (r: &Self)
        ensures
            proxy_from(proxy@, final(self).proxy),
            final(self).headers@ == old(self).headers@,
            *r == *final(self),
    {
        self.proxy = Proxy::new(proxy);
        self
    }

    /// Sets a header sent with every request, giving back the value it replaced.
    pub fn header(&mut self, key: &str, value: &str) -> (old_value: Option<String>)
        ensures
            final(self).headers@ == insert_entry(old(self).headers@, key@, value@),
            final(self).proxy == old(self).proxy,
    {
        self.headers.insert(key.to_owned(), value.to_owned())
    }

    /// A request for `url`'s path with the given method, no headers and no body.
    fn build_req(url: &Url, method: &str) -> (r: Request)
        ensures
            r.req.method@ == method@,
            r.req.path@ == url.path@,
            r.req.version@ == http_version(),
            r.headers@.len() == 0,
            r.body@.len() == 0,
    {
        Request::new(
            ReqLine {
                method: method.to_owned(),
                path: url.path.clone(),
                version: string_of(&chars_of("HTTP/1.1")),
            },
            Headers::new(),
            Vec::new(),
        )
    }

    /// The request to send for `url` (trimmed), with the method upper-cased and
    /// `data` as body, and the URL to connect to; an error when the URL cannot
    /// be read.
    pub fn prepare_request(&self, url: &str, method: &str, data: Vec<u8>) -> (r: Result<
        (Url, Request),
        String,
    >)
        ensures
            match r {
                Ok((u, q)) => {
                    &&& parse_url(trim(url@)) == Some((u.proto@, u.host@, u.port, u.path@))
                    &&& q.req.method@ == uppercase(method@)
                    &&& q.req.path@ == u.path@
                    &&& q.req.version@ == http_version()
                    &&& q.headers@ == request_headers(u.host@, self.headers@)
                    &&& q.body@ == data@
                },
                Err(e) => parse_url(trim(url@)) is None && e@ == "parse url failed"@,
            },
    {
        let trimmed = string_of(&trim_chars(&chars_of(url)));
        let u = match Url::new(trimmed.as_str()) {
            Some(u) => u,
            None => {
                proof {
                    reveal_strlit("parse url failed");
                }
                return Err(string_of(&chars_of("parse url failed")));
            },
        };
        let m = to_uppercase(method);
        let mut req = Self::build_req(&u, m.as_str());
        req.header("Host", u.host.as_str());
        proof {
            assert(req.headers@ == insert_entry(seq![], "Host"@, u.host@));
        }
        req.body = data;
        let mut i: usize = 0;
        while i < self.headers.len()
            invariant
                i <= self.headers@.len(),
                req.headers@ == insert_all(
                    insert_entry(seq![], "Host"@, u.host@),
                    self.headers@.take(i as int),
                ),
                req.body@ == data@,
                req.req.method@ == uppercase(method@),
                req.req.path@ == u.path@,
                req.req.version@ == http_version(),
            decreases self.headers@.len() - i,
        {
            let (k, v) = self.headers.entry(i);
            req.header(k, v);
            proof {
                let t = self.headers@.take(i + 1);
                assert(t.drop_last() == self.headers@.take(i as int));
                assert(t.last() == self.headers@[i as int]);
            }
            i = i + 1;
        }
        assert(self.headers@.take(self.headers@.len() as int) == self.headers@);
        Ok((u, req))
    }

    /// The outcome of a request given the response read for it: none read is
    /// an error, and so is a status code outside 200 to 300.
    pub fn check_response(res: Option<Response>) -> (r: Result<Response, String>)
        ensures
            match res {
                None => r matches Err(e) && e@ == "read from stream failed"@,
                Some(x) => if 200 <= x.res.code <= 300 {
                    r == Ok::<Response, String>(x)
                } else {
                    r matches Err(e) && e@ == "response code is "@ + decimal(x.res.code as nat)
                },
            },
    {
        match res {
            None => {
                proof {
                    reveal_strlit("read from stream failed");
                }
                Err(string_of(&chars_of("read from stream failed")))
            },
            Some(x) => {
                let code = x.res.code;
                if 200 <= code && code <= 300 {
                    Ok(x)
                } else {
                    let mut e = String::new();
                    push_str(&mut e, "response code is ");
                    push_decimal(&mut e, code);
                    Err(e)
                }
            },
        }
    }
}


proof fn lemma_insert_all(es: Seq<HeaderView>, extra: Seq<HeaderView>, k: Seq<char>)
    requires
        distinct_keys(es),
    ensures
        distinct_keys(insert_all(es, extra)),
        lookup(insert_all(es, extra), k) == match lookup(extra, k) {
            Some(v) => Some(v),
            None => lookup(es, k),
        },
    decreases extra.len(),
{
    if extra.len() > 0 {
        let prev = extra.drop_last();
        lemma_insert_all(es, prev, k);
        let e = extra.last();
        law_header_read_after_write(insert_all(es, prev), e.0, e.1, k);
        if e.0 == k {
            assert(key_index(extra, k) == Some(extra.len() - 1));
        } else {
            assert(key_index(extra, k) == key_index(prev, k));
            lemma_key_index(prev, k);
            if let Some(i) = key_index(prev, k) {
                assert(extra[i] == prev[i]);
            }
        }
    }
}

/// The `Host` a request is sent with is the URL's host, unless the client's
/// own headers set `Host`; every other header is the client's.
pub proof fn law_request_host(host: Seq<char>, client: Seq<HeaderView>, k: Seq<char>)
    ensures
        lookup(request_headers(host, client), "Host"@) == match lookup(client, "Host"@) {
            Some(v) => Some(v),
            None => Some(host),
        },
        k != "Host"@ ==> lookup(request_headers(host, client), k) == lookup(client, k),
{
    let start = insert_entry(seq![], "Host"@, host);
    law_header_read_after_write(seq![], "Host"@, host, k);
    lemma_insert_all(start, client, "Host"@);
    lemma_insert_all(start, client, k);
}

} // verus!
