//! A `fetch(url, options)` call copied from a browser's developer tools: the
//! URL and the request options it carries.
use vstd::prelude::*;
use crate::calls::{regex_replace, regex_replace_first};
use crate::http::{
    distinct_keys, insert_entry, law_header_read_after_write, lemma_key_index, lookup, HeaderView,
    Headers,
};
use crate::text::{chars_of, string_of};

verus! {

/// The options of a `fetch` call.
pub struct FetchOpt {
    pub headers: Option<Headers>,
    pub referrer: Option<String>,
    pub method: String,
    pub mode: String,
    pub credentials: String,
}

/// A `fetch` call: the URL and its options.
pub struct FetchObj {
    pub url: String,
    pub option: FetchOpt,
}

/// The headers a download sends for `fetch` options with these headers and
/// referrer: with a referrer, the headers given (or none) and `referrer` set
/// to it; without one, no headers at all.
pub open spec fn fetch_headers(
    headers: Option<Seq<HeaderView>>,
    referrer: Option<Seq<char>>,
) -> Seq<HeaderView> {
    match referrer {
        Some(r) => insert_entry(
            match headers {
                Some(h) => h,
                None => seq![],
            },
            "referrer"@,
            r,
        ),
        None => seq![],
    }
}

/// A fetch call with a referrer is downloaded with that referrer as its
/// `referrer` header, its other headers kept; one without a referrer is
/// downloaded with no headers.
pub proof fn law_fetch_referrer(headers: Option<Seq<HeaderView>>, referrer: Seq<char>, k: Seq<char>)
    requires
        headers matches Some(h) ==> distinct_keys(h),
    ensures
        lookup(fetch_headers(headers, Some(referrer)), "referrer"@) == Some(referrer),
        k != "referrer"@ ==> lookup(fetch_headers(headers, Some(referrer)), k) == match headers {
            Some(h) => lookup(h, k),
            None => None,
        },
        fetch_headers(headers, None).len() == 0,
{
    let h = match headers {
        Some(h) => h,
        None => seq![],
    };
    law_header_read_after_write(h, "referrer"@, referrer, k);
    if headers is None {
        lemma_key_index(h, k);
    }
}

impl FetchObj {
    /// The call as a download uses it: the same URL and options, with the
    /// headers replaced by those `fetch_headers` gives.
    pub fn new(obj: FetchObj) -> (r: FetchObj)
        ensures
            r.url == obj.url,
            r.option.method == obj.option.method,
            r.option.mode == obj.option.mode,
            r.option.credentials == obj.option.credentials,
            r.option.referrer == obj.option.referrer,
            r.option.headers matches Some(h) && h@ == fetch_headers(
                match obj.option.headers {
                    Some(h0) => Some(h0@),
                    None => None,
                },
                match obj.option.referrer {
                    Some(rf) => Some(rf@),
                    None => None,
                },
            ),
    {
        let FetchObj { url, option } = obj;
        let FetchOpt { headers, referrer, method, mode, credentials } = option;
        let headers = match &referrer {
            Some(r) => {
                let mut h = match headers {
                    Some(h) => h,
                    None => Headers::new(),
                };
                h.insert(string_of(&chars_of("referrer")), r.clone());
                proof {
                    reveal_strlit("referrer");
                }
                h
            },
            None => Headers::new(),
        };
        FetchObj {
            url,
            option: FetchOpt { headers: Some(headers), referrer, method, mode, credentials },
        }
    }
}

/// The JSON array text that a copied `fetch(...);` call stands for: a leading
/// `fetch(` (after whitespace) becomes `[` and a trailing `);` (before
/// whitespace) becomes `]`, through the regex engine. `None` when the engine
/// refuses one of the two patterns.
pub fn fetch_json_text(content: &str) -> (r: Option<String>)
    ensures
        match regex_replace_first("^\\s*fetch\\("@, content@, "["@) {
            Some(a) => match regex_replace_first("\\);\\s*$"@, a, "]"@) {
                Some(b) => r matches Some(s) && s@ == b,
                None => r is None,
            },
            None => r is None,
        },
{
    let a = match regex_replace("^\\s*fetch\\(", content, "[") {
        Some(a) => a,
        None => return None,
    };
    regex_replace("\\);\\s*$", a.as_str(), "]")
}

} // verus!
