//! Absolute URLs of the form `scheme://host[:port][/path]`.
use vstd::prelude::*;
use crate::calls::{lowercase, to_lowercase};
use crate::num::{
    decimal, digit_value, law_print_parse_roundtrip, lemma_radix_text_digits, parse_radix,
    parse_usize_spec, push_decimal,
};
use crate::text::{
    chars_of, find_char, find_pattern, find_seq, index_of_char, lemma_find_char, lemma_find_char_at,
    lemma_find_seq_at, occurs_at, push_str, slice_chars, string_of,
};

verus! {

/// The parts of an absolute URL that a client needs to connect and ask.
pub struct Url {
    pub proto: String,
    pub host: String,
    pub port: u16,
    pub path: String,
}

/// The host-and-port part of the text after the scheme: up to the first `/`.
pub open spec fn authority(rest: Seq<char>) -> Seq<char> {
    rest.take(find_char(rest, '/'))
}

/// The path part of the text after the scheme: from the first `/` on, or `/`.
pub open spec fn path_part(rest: Seq<char>) -> Seq<char> {
    if find_char(rest, '/') < rest.len() {
        rest.skip(find_char(rest, '/'))
    } else {
        "/"@
    }
}

/// The port used when the URL names none: 443 for `https`, else 80.
pub open spec fn default_port(proto: Seq<char>) -> u16 {
    if lowercase(proto) == "https"@ {
        443
    } else {
        80
    }
}

/// What `Url::new` reads from `s`, as (scheme, host, port, path).
pub open spec fn parse_url(s: Seq<char>) -> Option<(Seq<char>, Seq<char>, u16, Seq<char>)> {
    match find_seq(s, "://"@) {
        None => None,
        Some(i) => {
            let proto = s.take(i);
            let rest = s.skip(i + 3);
            let auth = authority(rest);
            let c = find_char(auth, ':');
            let host = auth.take(c);
            let port: Option<u16> = if c < auth.len() {
                match parse_usize_spec(auth.skip(c + 1)) {
                    Some(p) => if p <= 65535 {
                        Some(p as u16)
                    } else {
                        None
                    },
                    None => None,
                }
            } else {
                Some(default_port(proto))
            };
            if host.len() == 0 {
                None
            } else {
                match port {
                    Some(p) => Some((proto, host, p, path_part(rest))),
                    None => None,
                }
            }
        },
    }
}

/// The text after the scheme separator of `proto + "://" + rest` is `rest`,
/// when the scheme holds no `:`.
proof fn lemma_scheme_split(proto: Seq<char>, rest: Seq<char>)
    requires
        forall|i: int| 0 <= i < proto.len() ==> #[trigger] proto[i] != ':',
    ensures
        find_seq(proto + "://"@ + rest, "://"@) == Some(proto.len() as int),
        (proto + "://"@ + rest).take(proto.len() as int) == proto,
        (proto + "://"@ + rest).skip(proto.len() as int + 3) == rest,
{
    reveal_strlit("://");
    let sep = "://"@;
    let s = proto + sep + rest;
    let k = proto.len() as int;
    assert forall|i: int| 0 <= i < k implies !#[trigger] occurs_at(s, sep, i) by {
        if occurs_at(s, sep, i) {
            assert(s.subrange(i, i + 3)[0] == s[i]);
            assert(s[i] == proto[i]);
        }
    }
    assert(s.subrange(k, k + 3) == sep);
    lemma_find_seq_at(s, sep, k);
    assert(s.take(k) == proto);
    assert(s.skip(k + 3) == rest);
}

/// The host, port and path of `scheme://host[:port][/path]`: the host is the
/// text up to the port or the path, the port is the number after `:` (or the
/// scheme's default: 443 for `https` in any case, else 80), and the path is the
/// text from the first `/` after the host on, query included (or `/` when there
/// is none).
pub proof fn law_url_parts(proto: Seq<char>, host: Seq<char>, port: u16, path: Seq<char>)
    requires
        forall|i: int| 0 <= i < proto.len() ==> #[trigger] proto[i] != ':',
        host.len() > 0,
        forall|i: int| 0 <= i < host.len() ==> #[trigger] host[i] != '/' && host[i] != ':',
    ensures
        parse_url(proto + "://"@ + host + "/"@ + path) == Some(
            (proto, host, default_port(proto), "/"@ + path),
        ),
        parse_url(proto + "://"@ + host) == Some((proto, host, default_port(proto), "/"@)),
        default_port(proto) == if lowercase(proto) == "https"@ {
            443u16
        } else {
            80u16
        },
        parse_url(proto + "://"@ + host + ":"@ + decimal(port as nat) + "/"@ + path) == Some(
            (proto, host, port, "/"@ + path),
        ),
{
    reveal_strlit("/");
    reveal_strlit(":");
    reveal_strlit("://");
    let h = host.len() as int;
    lemma_find_char_at(host, ':', h);
    assert(host.take(h) == host);

    // With a path.
    let rest1 = host + "/"@ + path;
    lemma_scheme_split(proto, rest1);
    assert(proto + "://"@ + host + "/"@ + path == proto + "://"@ + rest1);
    assert(rest1[h] == '/');
    assert forall|i: int| 0 <= i < h implies #[trigger] rest1[i] != '/' by {
        assert(rest1[i] == host[i]);
    }
    lemma_find_char_at(rest1, '/', h);
    assert(authority(rest1) == host);
    assert(path_part(rest1) == "/"@ + path);

    // Without a path.
    lemma_scheme_split(proto, host);
    lemma_find_char_at(host, '/', h);
    assert(authority(host) == host);

    // With a port and a path.
    let d = decimal(port as nat);
    lemma_radix_text_digits(port as nat, 10);
    let auth = host + ":"@ + d;
    let rest3 = auth + "/"@ + path;
    lemma_scheme_split(proto, rest3);
    assert(proto + "://"@ + host + ":"@ + d + "/"@ + path == proto + "://"@ + rest3);
    let a = auth.len() as int;
    assert forall|i: int| 0 <= i < a implies #[trigger] rest3[i] != '/' by {
        assert(rest3[i] == auth[i]);
        if i < h {
            assert(auth[i] == host[i]);
        } else if i > h {
            assert(auth[i] == d[i - h - 1]);
            assert(digit_value(d[i - h - 1], 10) is Some);
        }
    }
    assert(rest3[a] == '/');
    lemma_find_char_at(rest3, '/', a);
    assert(authority(rest3) == auth);
    assert(path_part(rest3) == "/"@ + path);
    assert forall|i: int| 0 <= i < h implies #[trigger] auth[i] != ':' by {
        assert(auth[i] == host[i]);
    }
    assert(auth[h] == ':');
    lemma_find_char_at(auth, ':', h);
    assert(auth.take(h) == host);
    assert(auth.skip(h + 1) == d);
    law_print_parse_roundtrip(port as usize);
}

impl Url {
    /// Reads `scheme://host[:port][/path]`. The path keeps its query; it is `/`
    /// when the URL has none. There is no URL when the scheme separator is
    /// missing, the host is empty, or the port is not a number up to 65535.
    pub fn new(s: &str) -> (r: Option<Url>)
        ensures
            match r {
                Some(u) => parse_url(s@) == Some((u.proto@, u.host@, u.port, u.path@)),
                None => parse_url(s@) is None,
            },
    {
        let v = chars_of(s);
        let sep = chars_of("://");
        proof {
            reveal_strlit("://");
        }
        let i = match find_pattern(&v, &sep) {
            Some(i) => i,
            None => return None,
        };
        assert(sep@.len() == 3);
        assert(v@.len() == v.len());
        let proto = slice_chars(&v, 0, i);
        let rest = slice_chars(&v, i + 3, v.len());
        assert(proto@ == v@.take(i as int));
        assert(rest@ == v@.skip(i + 3));
        let slash = index_of_char(&rest, '/');
        proof {
            lemma_find_char(rest@, '/');
        }
        let auth = slice_chars(&rest, 0, slash);
        let path = if slash < rest.len() {
            slice_chars(&rest, slash, rest.len())
        } else {
            proof {
                reveal_strlit("/");
            }
            chars_of("/")
        };
        assert(auth@ == authority(rest@));
        assert(path@ == path_part(rest@));
        let c = index_of_char(&auth, ':');
        proof {
            lemma_find_char(auth@, ':');
        }
        let host = slice_chars(&auth, 0, c);
        assert(host@ == auth@.take(c as int));
        let proto_s = string_of(&proto);
        let port: u16 = if c < auth.len() {
            let digits = slice_chars(&auth, c + 1, auth.len());
            assert(digits@ == auth@.skip(c + 1));
            match parse_radix(&digits, 10) {
                Some(p) => {
                    if p <= 65535 {
                        p as u16
                    } else {
                        return None;
                    }
                },
                None => return None,
            }
        } else {
            let lower = to_lowercase(proto_s.as_str());
            let https = string_of(&chars_of("https"));
            proof {
                reveal_strlit("https");
            }
            if lower == https {
                443
            } else {
                80
            }
        };
        if host.len() == 0 {
            return None;
        }
        Some(Url { proto: proto_s, host: string_of(&host), port, path: string_of(&path) })
    }

    /// Whether the connection is plain, without TLS: the scheme is `http` in any case.
    pub fn is_plain_http(&self) -> (b: bool)
        ensures
            b == (lowercase(self.proto@) == "http"@),
    {
        let lower = to_lowercase(self.proto.as_str());
        let http = string_of(&chars_of("http"));
        proof {
            reveal_strlit("http");
        }
        lower == http
    }

    /// `host:port`, the address to connect to.
    pub fn to_host(&self) -> (s: String)
        ensures
            s@ == self.host@ + ":"@ + decimal(self.port as nat),
    {
        let mut s = String::new();
        push_str(&mut s, self.host.as_str());
        push_str(&mut s, ":");
        push_decimal(&mut s, self.port as usize);
        s
    }
}

} // verus!
