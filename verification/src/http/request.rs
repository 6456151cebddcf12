//! HTTP requests: their parts, their text, and reading one from a stream.
use vstd::prelude::*;
use vstd::utf8::{decode_utf8, valid_utf8};
use crate::calls::{from_utf8_lossy, utf8_lossy};
use crate::http::{
    get_ignorecase, getkey_ignorecase, header_tostr, headers_text, insert_entry, lookup,
    parse_headers, parse_reqline, parsed_headers, reqline_text, texts, Headers, ReqLine,
};
use crate::num::{decimal, law_print_parse_roundtrip, parse_usize, parse_usize_spec};
use crate::text::{chars_of, push_str, string_of, trim, trim_chars, words};
use crate::calls::uppercase;

verus! {

/// An HTTP request: its request line, its headers and its body.
pub struct Request {
    pub req: ReqLine,
    pub headers: Headers,
    pub body: Vec<u8>,
}

/// The text of a request: the request line, then the header lines followed by
/// an empty line when there are headers, then an empty line and the body.
pub open spec fn request_text(
    method: Seq<char>,
    path: Seq<char>,
    version: Seq<char>,
    headers: Seq<(Seq<char>, Seq<char>)>,
    body: Seq<u8>,
) -> Seq<char> {
    reqline_text(method, path, version) + "\r\n"@ + (if headers.len() > 0 {
        headers_text(headers) + "\r\n"@
    } else {
        seq![]
    }) + "\r\n"@ + utf8_lossy(body)
}

impl Request {
    /// A request made of the given parts.
    pub fn new(req: ReqLine, headers: Headers, body: Vec<u8>) -> (r: Request)
        ensures
            r.req == req,
            r.headers@ == headers@,
            r.body@ == body@,
    {
        Request { req, headers, body }
    }

    /// The body read as UTF-8, with U+FFFD for invalid sequences.
    pub fn body_str(&self) -> (s: String)
        ensures
            s@ == utf8_lossy(self.body@),
            valid_utf8(self.body@) ==> s@ == decode_utf8(self.body@),
    {
        from_utf8_lossy(self.body.as_slice())
    }

    /// Sets header `key` to `value`, giving back the value it replaced, if any.
    pub fn header(&mut self, key: &str, value: &str) -> (old_value: Option<String>)
        ensures
            final(self).headers@ == insert_entry(old(self).headers@, key@, value@),
            final(self).req == old(self).req,
            final(self).body == old(self).body,
            match old_value {
                Some(v) => lookup(old(self).headers@, key@) == Some(v@),
                None => lookup(old(self).headers@, key@) is None,
            },
    {
        self.headers.insert(key.to_owned(), value.to_owned())
    }

    /// The request as sent on the wire.
    pub fn to_string(&self) -> (s: String)
        ensures
            s@ == request_text(
                self.req.method@,
                self.req.path@,
                self.req.version@,
                self.headers@,
                self.body@,
            ),
    {
        let mut s = self.req.to_string();
        push_str(&mut s, "\r\n");
        if self.headers.len() > 0 {
            let h = header_tostr(&self.headers);
            push_str(&mut s, h.as_str());
            push_str(&mut s, "\r\n");
        }
        push_str(&mut s, "\r\n");
        let b = self.body_str();
        push_str(&mut s, b.as_str());
        proof {
            reveal_strlit("\r\n");
        }
        s
    }
}

// ---------------------------------------------------------------------------
// Reading a request from a stream, one read at a time.
// ---------------------------------------------------------------------------
/// The next read that a reader of a message asks of its stream.
pub enum ReadOp {
    /// Read one line (through its newline, or to the end of the stream) and
    /// hand it over; hand over nothing when the read fails.
    Line,
    /// Read once into a buffer of this many zero bytes and hand the buffer over.
    ReadOnce(usize),
    /// Fill a buffer of this many zero bytes (`read_exact`) and hand it over.
    ReadExact(usize),
    /// Read to the end of the stream and hand over what was read.
    ToEnd,
    /// The reading is over.
    Finished,
}

/// How a request's body is read, once its headers are known.
pub enum BodyPlan {
    /// One read into a buffer of this length.
    Once(usize),
    /// Everything up to the end of the stream.
    ToEnd,
    /// No body.
    NoBody,
}

/// How the body of a request with this method and these headers is read:
/// a `Content-Length` (in any case) that is a number sets the buffer length,
/// one that is not means no body; without it, `POST` and `PUT` read to the end.
pub open spec fn request_body_plan(method: Seq<char>, headers: Seq<(Seq<char>, Seq<char>)>) -> BodyPlan {
    match get_ignorecase(headers, "content-length"@) {
        Some(v) => match parse_usize_spec(v) {
            Some(n) => BodyPlan::Once(n),
            None => BodyPlan::NoBody,
        },
        None => if method == "POST"@ || method == "PUT"@ {
            BodyPlan::ToEnd
        } else {
            BodyPlan::NoBody
        },
    }
}

/// A `Content-Length` written in decimal sets the body to that many bytes,
/// whatever the method: when the first header named `content-length` in any
/// case holds the decimal text of `n`, one read of `n` bytes is made.
pub proof fn law_request_content_length_read(
    method: Seq<char>,
    headers: Seq<(Seq<char>, Seq<char>)>,
    n: usize,
)
    requires
        get_ignorecase(headers, "content-length"@) == Some(decimal(n as nat)),
    ensures
        request_body_plan(method, headers) == BodyPlan::Once(n),
{
    law_print_parse_roundtrip(n);
}

/// The most reads spent looking for a first line that is not blank.
pub const FIRST_LINE_TRIES: usize = 100;

/// The most header lines read.
pub const MAX_HEADER_LINES: usize = 1024;

/// A request being read from a stream. Each state but `Done` waits for the
/// result of the read that `next_op` names.
pub enum RequestRead {
    /// Looking for the request line; `text` holds what the reads gave so far.
    FirstLine { text: String, tries: usize },
    /// Reading header lines.
    HeaderLines { req: ReqLine, lines: Vec<String> },
    /// Reading the body.
    Body { req: ReqLine, headers: Headers, plan: BodyPlan },
    /// The reading is over, with a request or without one.
    Done { result: Option<Request> },
}

impl RequestRead {
    /// The state before the first read.
    pub fn start() -> (r: RequestRead)
        ensures
            r matches RequestRead::FirstLine { text, tries } && text@.len() == 0 && tries == 0,
            r.wf(),
    {
        RequestRead::FirstLine { text: String::new(), tries: 0 }
    }

    /// The read this state waits for.
    pub fn next_op(&self) -> (op: ReadOp)
        ensures
            match self {
                RequestRead::FirstLine { .. } => op is Line,
                RequestRead::HeaderLines { .. } => op is Line,
                RequestRead::Body { plan, .. } => match plan {
                    BodyPlan::Once(n) => op == ReadOp::ReadOnce(*n),
                    _ => op is ToEnd,
                },
                RequestRead::Done { .. } => op is Finished,
            },
    {
        match self {
            RequestRead::FirstLine { .. } => ReadOp::Line,
            RequestRead::HeaderLines { .. } => ReadOp::Line,
            RequestRead::Body { plan, .. } => match plan {
                BodyPlan::Once(n) => ReadOp::ReadOnce(*n),
                _ => ReadOp::ToEnd,
            },
            RequestRead::Done { .. } => ReadOp::Finished,
        }
    }

    /// The counters stay below their limits.
    pub open spec fn wf(&self) -> bool {
        match self {
            RequestRead::FirstLine { tries, .. } => *tries < FIRST_LINE_TRIES,
            RequestRead::HeaderLines { lines, .. } => lines@.len() < MAX_HEADER_LINES,
            _ => true,
        }
    }

    /// Whether this state waits for a body read.
    pub open spec fn in_body(&self) -> bool {
        &&& self matches RequestRead::Body { plan, .. }
        &&& !(plan is NoBody)
    }

    /// The state once the header lines are read: the headers decide the body.
    fn after_headers(req: ReqLine, lines: Vec<String>) -> (r: RequestRead)
        ensures
            ({
                let hs = parsed_headers(texts(lines@));
                match request_body_plan(req.method@, hs) {
                    BodyPlan::NoBody => r matches RequestRead::Done { result: Some(q) } && q.req
                        == req && q.headers@ == hs && q.body@.len() == 0,
                    plan => r matches RequestRead::Body { req: rq, headers, plan: p } && rq == req
                        && headers@ == hs && p == plan,
                }
            }),
    {
        let headers = parse_headers(&lines);
        proof {
            reveal_strlit("content-length");
            reveal_strlit("POST");
            reveal_strlit("PUT");
        }
        let plan = match getkey_ignorecase("content-length", &headers) {
            Some(v) => match parse_usize(v) {
                Some(n) => BodyPlan::Once(n),
                None => BodyPlan::NoBody,
            },
            None => {
                let post = string_of(&chars_of("POST"));
                let put = string_of(&chars_of("PUT"));
                if req.method == post || req.method == put {
                    BodyPlan::ToEnd
                } else {
                    BodyPlan::NoBody
                }
            },
        };
        match plan {
            BodyPlan::NoBody => RequestRead::Done {
                result: Some(Request { req, headers, body: Vec::new() }),
            },
            _ => RequestRead::Body { req, headers, plan },
        }
    }

    /// Takes the line a `Line` read gave (`None` when the read failed).
    /// A failed read ends the reading without a request. While the text read
    /// for the first line is blank (empty lines before the request line), up to
    /// 100 reads are made, their text joined; the request line is then read from
    /// the joined text, and without one there is no request.
    /// Header lines are read until an empty read or 1024 lines.
    pub fn on_line(self, got: Option<String>) -> (r: RequestRead)
        requires
            self.wf(),
            self matches RequestRead::FirstLine { .. } || self matches RequestRead::HeaderLines { .. },
        ensures
            r.wf(),
            got is None ==> r matches RequestRead::Done { result: None },
            match (self, got) {
                (RequestRead::FirstLine { text, tries }, Some(g)) => {
                    let t = text@ + g@;
                    if trim(t).len() == 0 && tries + 1 < FIRST_LINE_TRIES {
                        r matches RequestRead::FirstLine { text: t2, tries: n2 } && t2@ == t && n2
                            == tries + 1
                    } else if words(t).len() < 3 {
                        r matches RequestRead::Done { result: None }
                    } else {
                        r matches RequestRead::HeaderLines { req, lines } && lines@.len() == 0
                            && req.method@ == uppercase(words(t)[0]) && req.path@ == words(t)[1]
                            && req.version@ == words(t)[2]
                    }
                },
                (RequestRead::HeaderLines { req, lines }, Some(g)) => {
                    if g@.len() == 0 {
                        RequestRead::after_headers_spec(req, texts(lines@), r)
                    } else if lines@.len() + 1 < MAX_HEADER_LINES {
                        r matches RequestRead::HeaderLines { req: rq, lines: l2 } && rq == req
                            && texts(l2@) == texts(lines@).push(g@)
                    } else {
                        RequestRead::after_headers_spec(req, texts(lines@).push(g@), r)
                    }
                },
                _ => true,
            },
    {
        match self {
            RequestRead::FirstLine { text, tries } => match got {
                None => RequestRead::Done { result: None },
                Some(g) => {
                    let mut t = text;
                    push_str(&mut t, g.as_str());
                    let n = tries + 1;
                    let blank = trim_chars(&chars_of(t.as_str())).len() == 0;
                    if blank && n < FIRST_LINE_TRIES {
                        RequestRead::FirstLine { text: t, tries: n }
                    } else {
                        match parse_reqline(t.as_str()) {
                            None => RequestRead::Done { result: None },
                            Some(req) => RequestRead::HeaderLines { req, lines: Vec::new() },
                        }
                    }
                },
            },
            RequestRead::HeaderLines { req, lines } => match got {
                None => RequestRead::Done { result: None },
                Some(g) => {
                    if g.as_str().is_empty() {
                        proof {
                            assert(g@.len() == 0);
                        }
                        RequestRead::after_headers(req, lines)
                    } else {
                        let ghost before = texts(lines@);
                        let mut lines = lines;
                        lines.push(g);
                        proof {
                            assert(texts(lines@) =~= before.push(lines@.last()@));
                        }
                        if lines.len() < MAX_HEADER_LINES {
                            RequestRead::HeaderLines { req, lines }
                        } else {
                            RequestRead::after_headers(req, lines)
                        }
                    }
                },
            },
            _ => self,
        }
    }

    /// What `after_headers` gives for these header lines.
    pub open spec fn after_headers_spec(
        req: ReqLine,
        lines: Seq<Seq<char>>,
        r: RequestRead,
    ) -> bool {
        let hs = parsed_headers(lines);
        match request_body_plan(req.method@, hs) {
            BodyPlan::NoBody => r matches RequestRead::Done { result: Some(q) } && q.req == req
                && q.headers@ == hs && q.body@.len() == 0,
            plan => r matches RequestRead::Body { req: rq, headers, plan: p } && rq == req
                && headers@ == hs && p == plan,
        }
    }

    /// Takes the bytes a body read gave; the request is then complete.
    pub fn on_bytes(self, got: Vec<u8>) -> (r: RequestRead)
        requires
            self.in_body(),
            self matches RequestRead::Body { plan: BodyPlan::Once(n), .. } ==> got@.len() == n,
        ensures
            match self {
                RequestRead::Body { req, headers, .. } => r matches RequestRead::Done {
                    result: Some(q),
                } && q.req == req && q.headers@ == headers@ && q.body@ == got@,
                _ => true,
            },
    {
        match self {
            RequestRead::Body { req, headers, .. } => RequestRead::Done {
                result: Some(Request { req, headers, body: got }),
            },
            _ => self,
        }
    }

    /// The request that was read, if any.
    pub fn finish(self) -> (r: Option<Request>)
        requires
            self matches RequestRead::Done { .. },
        ensures
            self matches RequestRead::Done { result } && r == result,
    {
        match self {
            RequestRead::Done { result } => result,
            _ => None,
        }
    }
}

} // verus!
