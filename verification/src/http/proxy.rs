//! The proxy a client connects through.
use vstd::prelude::*;
use crate::calls::{lowercase, to_lowercase};
use crate::text::{chars_of, find_pattern, find_seq, slice_chars, string_of, trim, trim_chars};

verus! {

/// A proxy server, by kind, with its address.
pub enum Proxy {
    Socks5(String),
    Http(String),
    Direct,
}

/// The text after the scheme separator `://` of `t`, up to the next separator.
pub open spec fn after_scheme(t: Seq<char>, i: int) -> Seq<char> {
    let rest = t.skip(i + 3);
    match find_seq(rest, "://"@) {
        Some(j) => rest.take(j),
        None => rest,
    }
}

/// Whether `p` is the proxy that the setting `proxy` names.
pub open spec fn proxy_from(proxy: Seq<char>, p: Proxy) -> bool {
    let t = trim(proxy);
    match find_seq(t, "://"@) {
        None => p matches Proxy::Http(a) && a@ == t,
        Some(i) => if lowercase(t.take(i)) == "http"@ {
            p matches Proxy::Http(a) && a@ == after_scheme(t, i)
        } else {
            p matches Proxy::Socks5(a) && a@ == after_scheme(t, i)
        },
    }
}

impl Proxy {
    /// Reads a proxy setting such as `socks5://127.0.0.1:10808` or `127.0.0.1:1087`.
    /// Without a scheme the setting is an HTTP proxy at the trimmed text; with
    /// scheme `http` (in any case) it is an HTTP proxy, with any other scheme a
    /// SOCKS5 proxy, at the text after the first `://` (up to a second one).
    pub fn new(proxy: &str) -> (p: Proxy)
        ensures
            proxy_from(proxy@, p),
    {
        let t = trim_chars(&chars_of(proxy));
        let sep = chars_of("://");
        proof {
            reveal_strlit("://");
        }
        match find_pattern(&t, &sep) {
            None => Proxy::Http(string_of(&t)),
            Some(i) => {
                assert(sep@.len() == 3);
                assert(i + 3 <= t@.len());
                assert(t@.len() == t.len());
                let kind = string_of(&slice_chars(&t, 0, i));
                let rest = slice_chars(&t, i + 3, t.len());
                let addr_chars = match find_pattern(&rest, &sep) {
                    Some(j) => {
                        assert(j + 3 <= rest@.len());
                        slice_chars(&rest, 0, j)
                    },
                    None => rest,
                };
                let addr = string_of(&addr_chars);
                let lower = to_lowercase(kind.as_str());
                let http = string_of(&chars_of("http"));
                proof {
                    reveal_strlit("http");
                }
                if lower == http {
                    Proxy::Http(addr)
                } else {
                    Proxy::Socks5(addr)
                }
            },
        }
    }
}

impl Default for Proxy {
    /// No proxy.
    fn default() -> (p: Proxy)
        ensures
            p matches Proxy::Direct,
    {
        Proxy::Direct
    }
}

} // verus!
