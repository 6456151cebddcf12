//! HTTP responses: their parts, their text, a builder, and reading one from a stream.
use vstd::prelude::*;
use vstd::utf8::{decode_utf8, valid_utf8};
use crate::calls::{from_utf8_lossy, lowercase, to_lowercase, utf8_lossy};
use crate::http::request::{ReadOp, FIRST_LINE_TRIES, MAX_HEADER_LINES};
use crate::http::{
    distinct_keys, get_ignorecase, getkey_ignorecase, header_tostr, headers_text, insert_entry,
    lemma_insert_entry, lookup,
    parse_headers, parse_resline, parsed_headers, resline_text, texts, HeaderView, Headers,
    ResLine,
};
use crate::num::{decimal, decimal_string, digit_value, digits_value, hex, law_print_parse_roundtrip,
    lemma_radix_text_digits, parse_hex_usize, parse_usize, parse_usize_radix, parse_usize_spec};
use crate::text::{chars_of, chars_eq, push_str, string_of, trim, trim_chars, trim_end, trim_start, words};
use vstd::utf8::{encode_utf8, encode_utf8_decode_utf8, encode_utf8_valid_utf8};

verus! {

/// An HTTP response: its status line, its headers and its body.
pub struct Response {
    pub res: ResLine,
    pub headers: Headers,
    pub body: Vec<u8>,
}

/// The headers a response is sent with: its own, and `Content-Length` set to
/// the body's length when the body is not empty.
pub open spec fn sent_headers(headers: Seq<HeaderView>, body: Seq<u8>) -> Seq<HeaderView> {
    if body.len() > 0 {
        insert_entry(headers, "Content-Length"@, decimal(body.len()))
    } else {
        headers
    }
}

/// The text of a response: status line, header lines, an empty line, the body.
pub open spec fn response_text(res: ResLine, headers: Seq<HeaderView>, body: Seq<u8>) -> Seq<char> {
    resline_text(res.version@, res.code, res.code_line@) + "\r\n"@ + headers_text(
        sent_headers(headers, body),
    ) + "\r\n"@ + utf8_lossy(body)
}

impl Response {
    /// A response made of the given parts.
    pub fn new(res: ResLine, headers: Headers, body: Vec<u8>) -> (r: Response)
        ensures
            r.res == res,
            r.headers@ == headers@,
            r.body@ == body@,
    {
        Response { res, headers, body }
    }

    /// The body read as UTF-8, with U+FFFD for invalid sequences.
    pub fn body_str(&self) -> (s: String)
        ensures
            s@ == utf8_lossy(self.body@),
            valid_utf8(self.body@) ==> s@ == decode_utf8(self.body@),
    {
        from_utf8_lossy(self.body.as_slice())
    }

    /// Sets header `key` to `value`, giving back the value it replaced, if any.
    pub fn header(&mut self, key: &str, value: &str) -> (old_value: Option<String>)
        ensures
            final(self).headers@ == insert_entry(old(self).headers@, key@, value@),
            final(self).res == old(self).res,
            final(self).body == old(self).body,
            match old_value {
                Some(v) => lookup(old(self).headers@, key@) == Some(v@),
                None => lookup(old(self).headers@, key@) is None,
            },
    {
        self.headers.insert(key.to_owned(), value.to_owned())
    }

    /// Sets the body to the UTF-8 bytes of `body`.
    pub fn body(&mut self, body: &str)
        ensures
            final(self).body@ == encode_utf8(body@),
            final(self).res == old(self).res,
            final(self).headers@ == old(self).headers@,
    {
        self.body = vstd::slice::slice_to_vec(body.as_bytes());
    }

    /// Sets the body to a JSON text, with `Content-Type: text/json` and a
    /// `Content-Length` of its byte length.
    pub fn body_json(&mut self, json: &str)
        ensures
            final(self).body@ == encode_utf8(json@),
            final(self).res == old(self).res,
            final(self).headers@ == insert_entry(
                insert_entry(old(self).headers@, "Content-Type"@, "text/json"@),
                "Content-Length"@,
                decimal(encode_utf8(json@).len()),
            ),
    {
        let bytes = vstd::slice::slice_to_vec(json.as_bytes());
        let n = decimal_string(bytes.len());
        self.header("Content-Type", "text/json");
        self.header("Content-Length", n.as_str());
        self.body = bytes;
    }

    /// A `200 OK` response for HTTP/1.0 with no headers and no body.
    pub fn success_res() -> (r: Response)
        ensures
            r.res.version@ == "HTTP/1.0"@,
            r.res.code == 200,
            r.res.code_line@ == "OK"@,
            r.headers@.len() == 0,
            r.body@.len() == 0,
    {
        Response {
            res: ResLine {
                version: string_of(&chars_of("HTTP/1.0")),
                code: 200,
                code_line: string_of(&chars_of("OK")),
            },
            headers: Headers::new(),
            body: Vec::new(),
        }
    }

    /// The headers the response is sent with.
    pub fn get_headers(&self) -> (h: Headers)
        ensures
            h@ == sent_headers(self.headers@, self.body@),
    {
        let mut headers = self.headers.copy();
        if self.body.len() > 0 {
            let n = decimal_string(self.body.len());
            headers.insert(string_of(&chars_of("Content-Length")), n);
            proof {
                reveal_strlit("Content-Length");
            }
        }
        headers
    }

    /// The response as sent on the wire.
    pub fn to_string(&self) -> (s: String)
        ensures
            s@ == response_text(self.res, self.headers@, self.body@),
    {
        let mut s = self.res.to_string();
        push_str(&mut s, "\r\n");
        let h = header_tostr(&self.get_headers());
        push_str(&mut s, h.as_str());
        push_str(&mut s, "\r\n");
        let b = self.body_str();
        push_str(&mut s, b.as_str());
        proof {
            reveal_strlit("\r\n");
        }
        s
    }
}

/// A body set from text reads back as that text: the text's UTF-8 bytes are
/// valid UTF-8 and decode to the text.
pub proof fn law_body_text_roundtrip(text: Seq<char>)
    ensures
        valid_utf8(encode_utf8(text)),
        decode_utf8(encode_utf8(text)) == text,
{
    encode_utf8_valid_utf8(text);
    encode_utf8_decode_utf8(text);
}

/// A response with a body is sent with a `Content-Length` that reads back, in
/// decimal, as the body's length in bytes; the other headers keep their values.
pub proof fn law_sent_content_length(headers: Seq<HeaderView>, body: Seq<u8>, k: Seq<char>)
    requires
        distinct_keys(headers),
        0 < body.len() <= usize::MAX,
    ensures
        lookup(sent_headers(headers, body), "Content-Length"@) matches Some(v) && parse_usize_spec(v)
            == Some(body.len() as usize),
        k != "Content-Length"@ ==> lookup(sent_headers(headers, body), k) == lookup(headers, k),
{
    lemma_insert_entry(headers, "Content-Length"@, decimal(body.len()));
    law_print_parse_roundtrip(body.len() as usize);
}

/// Builds a response, starting from `HTTP/1.1 200 OK`.
pub struct ResponseBuilder {
    res: Option<Response>,
}

impl Default for ResponseBuilder {
    /// A builder that holds no response.
    fn default() -> (b: ResponseBuilder)
        ensures
            b.pending() is None,
    {
        ResponseBuilder { res: None }
    }
}

impl ResponseBuilder {
    /// The response this builder holds, if it has not been built yet.
    pub closed spec fn pending(&self) -> Option<Response> {
        self.res
    }

    /// A builder holding `HTTP/1.1 200 OK` with no headers and no body.
    pub fn new() -> (b: ResponseBuilder)
        ensures
            b.pending() matches Some(r) && r.res.version@ == "HTTP/1.1"@ && r.res.code == 200
                && r.res.code_line@ == "OK"@ && r.headers@.len() == 0 && r.body@.len() == 0,
    {
        ResponseBuilder {
            res: Some(
                Response {
                    res: ResLine {
                        version: string_of(&chars_of("HTTP/1.1")),
                        code: 200,
                        code_line: string_of(&chars_of("OK")),
                    },
                    headers: Headers::new(),
                    body: Vec::new(),
                },
            ),
        }
    }

    /// Leaves the builder as it is (the status code is not applied).
    pub fn code(&mut self, code: usize) -> (r: &mut Self)
        ensures
            *r == *old(self),
            *final(self) == *final(r),
    {
        self
    }

    /// The response the builder holds; the builder is empty afterwards.
    pub fn build(&mut self) -> (r: Response)
        requires
            old(self).pending() is Some,
        ensures
            old(self).pending() == Some(r),
            final(self).pending() is None,
    {
        let mut taken: Option<Response> = None;
        std::mem::swap(&mut taken, &mut self.res);
        match taken {
            Some(r) => r,
            None => {
                proof {
                    assert(false);
                }
                Response::success_res()
            },
        }
    }
}

// ---------------------------------------------------------------------------
// Reading a response from a stream, one read at a time.
// ---------------------------------------------------------------------------
/// How a response's body is read, once its headers are known.
pub enum ResponseBody {
    /// Exactly this many bytes.
    Exact(usize),
    /// Chunked transfer coding.
    Chunked,
    /// No body.
    NoBody,
}

/// How the body of a response with these headers is read: a `Content-Length`
/// (in any case) that is a number gives its length, one that is not means no
/// body; without it, `Transfer-Encoding: chunked` (in any case) means chunks.
pub open spec fn response_body_plan(headers: Seq<HeaderView>) -> ResponseBody {
    match get_ignorecase(headers, "content-length"@) {
        Some(v) => match parse_usize_spec(v) {
            Some(n) => ResponseBody::Exact(n),
            None => ResponseBody::NoBody,
        },
        None => match get_ignorecase(headers, "Transfer-Encoding"@) {
            Some(t) => if lowercase(t) == "chunked"@ {
                ResponseBody::Chunked
            } else {
                ResponseBody::NoBody
            },
            None => ResponseBody::NoBody,
        },
    }
}

/// A `Content-Length` written in decimal is read as that many bytes: when the
/// first header named `content-length` in any case holds the decimal text of
/// `n`, the body is exactly `n` bytes long.
pub proof fn law_content_length_read(headers: Seq<HeaderView>, n: usize)
    requires
        get_ignorecase(headers, "content-length"@) == Some(decimal(n as nat)),
    ensures
        response_body_plan(headers) == ResponseBody::Exact(n),
{
    law_print_parse_roundtrip(n);
}

/// Whether a chunk-size line ends the chunks: it is `0` or blank once trimmed.
pub open spec fn is_last_chunk_line(line: Seq<char>) -> bool {
    trim(line) == "0"@ || trim(line).len() == 0
}

/// What a read gave while a chunked body is read: a line, or bytes.
pub enum ChunkEvent {
    /// A line read with its line ending.
    Line(Seq<char>),
    /// The bytes of a read that succeeded.
    Bytes(Seq<u8>),
}

/// Where the reading of a chunked body stands, with the body read so far.
pub enum ChunkPhase {
    /// Waiting for a chunk-size line.
    Size(Seq<u8>),
    /// Waiting for a chunk's data, of the given length.
    Data(Seq<u8>, nat),
    /// Waiting for the two bytes that end a chunk.
    End(Seq<u8>),
    /// The reading ended with a response whose body this is.
    Finished(Seq<u8>),
    /// Not reading a chunked body: before one, or the reading failed.
    Off,
}

/// The phase after one read: a size line that is `0` or blank ends the body,
/// one holding a hexadecimal number asks for that many bytes; the data joins
/// the body; the two bytes after it are dropped. Anything else fails.
pub open spec fn chunk_step(p: ChunkPhase, e: ChunkEvent) -> ChunkPhase {
    match (p, e) {
        (ChunkPhase::Size(b), ChunkEvent::Line(l)) => if is_last_chunk_line(l) {
            ChunkPhase::Finished(b)
        } else {
            match parse_usize_radix(trim(l), 16) {
                Some(n) => ChunkPhase::Data(b, n as nat),
                None => ChunkPhase::Off,
            }
        },
        (ChunkPhase::Data(b, n), ChunkEvent::Bytes(d)) => if d.len() == n {
            ChunkPhase::End(b + d)
        } else {
            ChunkPhase::Off
        },
        (ChunkPhase::End(b), ChunkEvent::Bytes(d)) => if d.len() == 2 {
            ChunkPhase::Size(b)
        } else {
            ChunkPhase::Off
        },
        _ => ChunkPhase::Off,
    }
}

/// The phase after the reads `es`, in order, starting from `p`.
pub open spec fn chunk_run(p: ChunkPhase, es: Seq<ChunkEvent>) -> ChunkPhase
    decreases es.len(),
{
    if es.len() == 0 {
        p
    } else {
        chunk_step(chunk_run(p, es.drop_last()), es.last())
    }
}

/// The reads that the chunks `chunks` give when each is sent as its length in
/// hexadecimal and CRLF, its bytes, and CRLF.
pub open spec fn chunk_events(chunks: Seq<Seq<u8>>) -> Seq<ChunkEvent>
    decreases chunks.len(),
{
    if chunks.len() == 0 {
        seq![]
    } else {
        let c = chunks.last();
        chunk_events(chunks.drop_last()) + seq![
            ChunkEvent::Line(hex(c.len()) + seq!['\r', '\n']),
            ChunkEvent::Bytes(c),
            ChunkEvent::Bytes(seq![13u8, 10u8]),
        ]
    }
}

/// The reads of a whole chunked body: the chunks, then the last-chunk line `0`.
pub open spec fn chunked_body_events(chunks: Seq<Seq<u8>>) -> Seq<ChunkEvent> {
    chunk_events(chunks).push(ChunkEvent::Line(seq!['0', '\r', '\n']))
}

/// The chunks joined in order.
pub open spec fn joined_chunks(chunks: Seq<Seq<u8>>) -> Seq<u8>
    decreases chunks.len(),
{
    if chunks.len() == 0 {
        seq![]
    } else {
        joined_chunks(chunks.drop_last()) + chunks.last()
    }
}

/// A chunk-size line written for a chunk of `n > 0` bytes is no last-chunk
/// line, and reads back as `n`.
proof fn lemma_size_line(n: usize)
    requires
        n > 0,
    ensures
        !is_last_chunk_line(hex(n as nat) + seq!['\r', '\n']),
        parse_usize_radix(trim(hex(n as nat) + seq!['\r', '\n']), 16) == Some(n),
{
    let h = hex(n as nat);
    let l = h + seq!['\r', '\n'];
    lemma_radix_text_digits(n as nat, 16);
    law_print_parse_roundtrip(n);
    assert(digit_value(h[0], 16) is Some);
    assert(digit_value(h.last(), 16) is Some);
    assert(l[0] == h[0]);
    assert(trim_start(l) == l);
    assert(l.drop_last() == h + seq!['\r']);
    assert((h + seq!['\r']).drop_last() == h);
    assert(trim_end(l) == trim_end(h + seq!['\r']));
    assert(trim_end(h + seq!['\r']) == trim_end(h));
    assert(trim_end(h) == h);
    assert(trim(l) == h);
    reveal_strlit("0");
    if h == "0"@ {
        let z: Seq<char> = seq![];
        assert(h.len() == 1 && h.last() == '0');
        assert(h.drop_last() == z);
        assert(digits_value(z, 16) == Some(0nat));
        assert(digit_value('0', 16) == Some(0nat));
        assert(digits_value(h, 16) == Some(0nat));
    }
}

/// The chunks of a body, each read whole, add to the body in order, and the
/// reader then waits for the next chunk-size line.
proof fn lemma_chunks_read(body: Seq<u8>, chunks: Seq<Seq<u8>>)
    requires
        forall|i: int| 0 <= i < chunks.len() ==> 0 < #[trigger] chunks[i].len() <= usize::MAX,
    ensures
        chunk_run(ChunkPhase::Size(body), chunk_events(chunks)) == ChunkPhase::Size(
            body + joined_chunks(chunks),
        ),
    decreases chunks.len(),
{
    if chunks.len() == 0 {
        assert(body + joined_chunks(chunks) == body);
    } else {
        let rest = chunks.drop_last();
        let c = chunks.last();
        assert(c == chunks[chunks.len() - 1]);
        assert forall|i: int| 0 <= i < rest.len() implies 0 < #[trigger] rest[i].len() <= usize::MAX by {
            assert(rest[i] == chunks[i]);
        }
        lemma_chunks_read(body, rest);
        let b0 = body + joined_chunks(rest);
        let size = ChunkEvent::Line(hex(c.len()) + seq!['\r', '\n']);
        let data = ChunkEvent::Bytes(c);
        let crlf = ChunkEvent::Bytes(seq![13u8, 10u8]);
        let e0 = chunk_events(rest);
        let es = chunk_events(chunks);
        assert(es == e0 + seq![size, data, crlf]);
        assert(es.drop_last() == e0 + seq![size, data]);
        assert(es.drop_last().drop_last() == e0.push(size));
        assert(e0.push(size).drop_last() == e0);
        lemma_size_line(c.len() as usize);
        assert(chunk_run(ChunkPhase::Size(body), e0.push(size)) == ChunkPhase::Data(b0, c.len()));
        assert(chunk_run(ChunkPhase::Size(body), e0 + seq![size, data]) == ChunkPhase::End(b0 + c));
        assert(b0 + c == body + joined_chunks(chunks));
    }
}

/// Reading a chunked body sent as non-empty chunks, each as its length in
/// lower-case hexadecimal and CRLF, its bytes and CRLF, and then the
/// last-chunk line `0`, ends with a response whose body is the body read
/// before followed by all the chunks, joined in order.
pub proof fn law_chunked_stream(body: Seq<u8>, chunks: Seq<Seq<u8>>)
    requires
        forall|i: int| 0 <= i < chunks.len() ==> 0 < #[trigger] chunks[i].len() <= usize::MAX,
    ensures
        chunk_run(ChunkPhase::Size(body), chunked_body_events(chunks)) == ChunkPhase::Finished(
            body + joined_chunks(chunks),
        ),
{
    lemma_chunks_read(body, chunks);
    let es = chunked_body_events(chunks);
    assert(es.drop_last() == chunk_events(chunks));
    let l = seq!['0', '\r', '\n'];
    let zero_cr = seq!['0', '\r'];
    let zero = seq!['0'];
    assert(l.drop_last() == zero_cr);
    assert(zero_cr.drop_last() == zero);
    assert(trim_start(l) == l);
    assert(trim_end(zero) == zero);
    assert(trim_end(zero_cr) == zero);
    assert(trim_end(l) == zero);
    reveal_strlit("0");
    assert(trim(l) == "0"@);
}

/// A response being read from a stream. Each state but `Done` waits for the
/// result of the read that `next_op` names.
pub enum ResponseRead {
    /// Looking for the status line; `text` holds what the reads gave so far.
    FirstLine { text: String, tries: usize },
    /// Reading header lines.
    HeaderLines { res: ResLine, lines: Vec<String> },
    /// Reading a body of known length.
    Body { res: ResLine, headers: Headers, len: usize },
    /// Reading the line that gives the next chunk's size in hexadecimal.
    ChunkSize { res: ResLine, headers: Headers, body: Vec<u8> },
    /// Reading a chunk's data.
    ChunkData { res: ResLine, headers: Headers, body: Vec<u8>, len: usize },
    /// Reading the two bytes that end a chunk.
    ChunkEnd { res: ResLine, headers: Headers, body: Vec<u8> },
    /// The reading is over, with a response or without one.
    Done { result: Option<Response> },
}

impl ResponseRead {
    /// The state before the first read.
    pub fn start() -> (r: ResponseRead)
        ensures
            r matches ResponseRead::FirstLine { text, tries } && text@.len() == 0 && tries == 0,
            r.wf(),
    {
        ResponseRead::FirstLine { text: String::new(), tries: 0 }
    }

    /// Where this state stands in reading a chunked body.
    pub open spec fn chunk_phase(&self) -> ChunkPhase {
        match self {
            ResponseRead::ChunkSize { body, .. } => ChunkPhase::Size(body@),
            ResponseRead::ChunkData { body, len, .. } => ChunkPhase::Data(body@, *len as nat),
            ResponseRead::ChunkEnd { body, .. } => ChunkPhase::End(body@),
            ResponseRead::Done { result: Some(q) } => ChunkPhase::Finished(q.body@),
            _ => ChunkPhase::Off,
        }
    }

    /// The counters stay below their limits.
    pub open spec fn wf(&self) -> bool {
        match self {
            ResponseRead::FirstLine { tries, .. } => *tries < FIRST_LINE_TRIES,
            ResponseRead::HeaderLines { lines, .. } => lines@.len() < MAX_HEADER_LINES,
            _ => true,
        }
    }

    /// The read this state waits for.
    pub fn next_op(&self) -> (op: ReadOp)
        ensures
            match self {
                ResponseRead::FirstLine { .. } => op is Line,
                ResponseRead::HeaderLines { .. } => op is Line,
                ResponseRead::ChunkSize { .. } => op is Line,
                ResponseRead::Body { len, .. } => op == ReadOp::ReadExact(*len),
                ResponseRead::ChunkData { len, .. } => op == ReadOp::ReadExact(*len),
                ResponseRead::ChunkEnd { .. } => op == ReadOp::ReadExact(2),
                ResponseRead::Done { .. } => op is Finished,
            },
    {
        match self {
            ResponseRead::FirstLine { .. } => ReadOp::Line,
            ResponseRead::HeaderLines { .. } => ReadOp::Line,
            ResponseRead::ChunkSize { .. } => ReadOp::Line,
            ResponseRead::Body { len, .. } => ReadOp::ReadExact(*len),
            ResponseRead::ChunkData { len, .. } => ReadOp::ReadExact(*len),
            ResponseRead::ChunkEnd { .. } => ReadOp::ReadExact(2),
            ResponseRead::Done { .. } => ReadOp::Finished,
        }
    }

    /// Whether a line read is accepted in this state: a chunk-size line must
    /// have been read, and be `0`, blank, or a hexadecimal number that fits.
    pub open spec fn line_ok(&self, got: Option<Seq<char>>) -> bool {
        match self {
            ResponseRead::FirstLine { .. } => true,
            ResponseRead::HeaderLines { .. } => true,
            ResponseRead::ChunkSize { .. } => match got {
                Some(g) => is_last_chunk_line(g) || parse_usize_radix(trim(g), 16) is Some,
                None => false,
            },
            _ => false,
        }
    }

    /// Whether a byte read is accepted in this state: it gave as many bytes as
    /// asked, and inside chunks it did not fail.
    pub open spec fn bytes_ok(&self, got: Seq<u8>, ok: bool) -> bool {
        match self {
            ResponseRead::Body { len, .. } => got.len() == *len,
            ResponseRead::ChunkData { len, .. } => ok && got.len() == *len,
            ResponseRead::ChunkEnd { .. } => ok && got.len() == 2,
            _ => false,
        }
    }

    /// Whether `on_line` takes this line in this state.
    pub fn accepts_line(&self, got: &Option<String>) -> (b: bool)
        ensures
            b == self.line_ok(
                match got {
                    Some(g) => Some(g@),
                    None => None,
                },
            ),
    {
        match self {
            ResponseRead::FirstLine { .. } => true,
            ResponseRead::HeaderLines { .. } => true,
            ResponseRead::ChunkSize { .. } => match got {
                Some(g) => {
                    let t = trim_chars(&chars_of(g.as_str()));
                    let zero = chars_of("0");
                    proof {
                        reveal_strlit("0");
                    }
                    if chars_eq(&t, &zero) || t.len() == 0 {
                        true
                    } else {
                        let ts = string_of(&t);
                        parse_hex_usize(ts.as_str()).is_some()
                    }
                },
                None => false,
            },
            _ => false,
        }
    }

    /// Whether `on_bytes` takes these bytes in this state.
    pub fn accepts_bytes(&self, got: &Vec<u8>, ok: bool) -> (b: bool)
        ensures
            b == self.bytes_ok(got@, ok),
    {
        match self {
            ResponseRead::Body { len, .. } => got.len() == *len,
            ResponseRead::ChunkData { len, .. } => ok && got.len() == *len,
            ResponseRead::ChunkEnd { .. } => ok && got.len() == 2,
            _ => false,
        }
    }

    /// What the state after the header lines is.
    pub open spec fn after_headers_spec(res: ResLine, lines: Seq<Seq<char>>, r: ResponseRead) -> bool {
        let hs = parsed_headers(lines);
        match response_body_plan(hs) {
            ResponseBody::Exact(n) => r matches ResponseRead::Body { res: rs, headers, len } && rs
                == res && headers@ == hs && len == n,
            ResponseBody::Chunked => r matches ResponseRead::ChunkSize { res: rs, headers, body }
                && rs == res && headers@ == hs && body@.len() == 0,
            ResponseBody::NoBody => r matches ResponseRead::Done { result: Some(q) } && q.res == res
                && q.headers@ == hs && q.body@.len() == 0,
        }
    }

    /// The state once the header lines are read: the headers decide the body.
    fn after_headers(res: ResLine, lines: Vec<String>) -> (r: ResponseRead)
        ensures
            Self::after_headers_spec(res, texts(lines@), r),
    {
        let headers = parse_headers(&lines);
        proof {
            reveal_strlit("content-length");
            reveal_strlit("Transfer-Encoding");
            reveal_strlit("chunked");
        }
        match getkey_ignorecase("content-length", &headers) {
            Some(v) => match parse_usize(v) {
                Some(n) => ResponseRead::Body { res, headers, len: n },
                None => ResponseRead::Done {
                    result: Some(Response { res, headers, body: Vec::new() }),
                },
            },
            None => {
                let chunked = match getkey_ignorecase("Transfer-Encoding", &headers) {
                    Some(t) => {
                        let lower = to_lowercase(t);
                        let word = string_of(&chars_of("chunked"));
                        lower == word
                    },
                    None => false,
                };
                if chunked {
                    ResponseRead::ChunkSize { res, headers, body: Vec::new() }
                } else {
                    ResponseRead::Done { result: Some(Response { res, headers, body: Vec::new() }) }
                }
            },
        }
    }

    /// Takes the line a `Line` read gave (`None` when the read failed).
    /// A failed read ends the reading without a response. While the text read
    /// is blank, up to 100 reads are made, their text joined; the status line is
    /// then read from the joined text, and without one there is no response.
    /// Header lines are read until a blank line or 1024 lines. A chunk-size line
    /// that is `0` or blank ends the body; otherwise its hexadecimal value is the
    /// next chunk's length.
    pub fn on_line(self, got: Option<String>) -> (r: ResponseRead)
        requires
            self.wf(),
            self.line_ok(
                match got {
                    Some(g) => Some(g@),
                    None => None,
                },
            ),
        ensures
            r.wf(),
            got is None ==> r matches ResponseRead::Done { result: None },
            self matches ResponseRead::ChunkSize { .. } ==> match got {
                Some(g) => r.chunk_phase() == chunk_step(self.chunk_phase(), ChunkEvent::Line(g@)),
                None => true,
            },
            match (self, got) {
                (ResponseRead::FirstLine { text, tries }, Some(g)) => {
                    let t = text@ + g@;
                    if trim(t).len() == 0 && tries + 1 < FIRST_LINE_TRIES {
                        r matches ResponseRead::FirstLine { text: t2, tries: n2 } && t2@ == t && n2
                            == tries + 1
                    } else if words(t).len() < 3 || parse_usize_spec(words(t)[1]) is None {
                        r matches ResponseRead::Done { result: None }
                    } else {
                        r matches ResponseRead::HeaderLines { res, lines } && lines@.len() == 0
                            && res.version@ == words(t)[0] && parse_usize_spec(words(t)[1]) == Some(
                            res.code,
                        ) && res.code_line@ == words(t)[2]
                    }
                },
                (ResponseRead::HeaderLines { res, lines }, Some(g)) => {
                    if trim(g@).len() == 0 {
                        Self::after_headers_spec(res, texts(lines@), r)
                    } else if lines@.len() + 1 < MAX_HEADER_LINES {
                        r matches ResponseRead::HeaderLines { res: rs, lines: l2 } && rs == res
                            && texts(l2@) == texts(lines@).push(g@)
                    } else {
                        Self::after_headers_spec(res, texts(lines@).push(g@), r)
                    }
                },
                (ResponseRead::ChunkSize { res, headers, body }, Some(g)) => {
                    if is_last_chunk_line(g@) {
                        r matches ResponseRead::Done { result: Some(q) } && q.res == res
                            && q.headers@ == headers@ && q.body@ == body@
                    } else {
                        r matches ResponseRead::ChunkData { res: rs, headers: hs, body: b, len }
                            && rs == res && hs@ == headers@ && b@ == body@ && parse_usize_radix(
                            trim(g@),
                            16,
                        ) == Some(len)
                    }
                },
                _ => true,
            },
    {
        match self {
            ResponseRead::FirstLine { text, tries } => match got {
                None => ResponseRead::Done { result: None },
                Some(g) => {
                    let mut t = text;
                    push_str(&mut t, g.as_str());
                    let n = tries + 1;
                    let blank = trim_chars(&chars_of(t.as_str())).len() == 0;
                    if blank && n < FIRST_LINE_TRIES {
                        ResponseRead::FirstLine { text: t, tries: n }
                    } else {
                        match parse_resline(t.as_str()) {
                            None => ResponseRead::Done { result: None },
                            Some(res) => ResponseRead::HeaderLines { res, lines: Vec::new() },
                        }
                    }
                },
            },
            ResponseRead::HeaderLines { res, lines } => match got {
                None => ResponseRead::Done { result: None },
                Some(g) => {
                    if trim_chars(&chars_of(g.as_str())).len() == 0 {
                        ResponseRead::after_headers(res, lines)
                    } else {
                        let ghost before = texts(lines@);
                        let mut lines = lines;
                        lines.push(g);
                        proof {
                            assert(texts(lines@) =~= before.push(lines@.last()@));
                        }
                        if lines.len() < MAX_HEADER_LINES {
                            ResponseRead::HeaderLines { res, lines }
                        } else {
                            ResponseRead::after_headers(res, lines)
                        }
                    }
                },
            },
            ResponseRead::ChunkSize { res, headers, body } => match got {
                None => ResponseRead::Done { result: None },
                Some(g) => {
                    let t = trim_chars(&chars_of(g.as_str()));
                    let zero = chars_of("0");
                    proof {
                        reveal_strlit("0");
                    }
                    if chars_eq(&t, &zero) || t.len() == 0 {
                        ResponseRead::Done { result: Some(Response { res, headers, body }) }
                    } else {
                        let ts = string_of(&t);
                        match parse_hex_usize(ts.as_str()) {
                            Some(n) => ResponseRead::ChunkData { res, headers, body, len: n },
                            None => ResponseRead::Done { result: None },
                        }
                    }
                },
            },
            _ => self,
        }
    }

    /// Takes the bytes a `ReadExact` read gave, and whether the read succeeded.
    /// A body of known length is complete with the buffer as it is; a chunk's
    /// data joins the body; the two bytes after it are dropped.
    pub fn on_bytes(self, got: Vec<u8>, ok: bool) -> (r: ResponseRead)
        requires
            self.bytes_ok(got@, ok),
        ensures
            r.wf(),
            (self is ChunkData || self is ChunkEnd) ==> r.chunk_phase() == chunk_step(self.chunk_phase(), ChunkEvent::Bytes(got@)),
            match self {
                ResponseRead::Body { res, headers, .. } => r matches ResponseRead::Done {
                    result: Some(q),
                } && q.res == res && q.headers@ == headers@ && q.body@ == got@,
                ResponseRead::ChunkData { res, headers, body, .. } => r matches ResponseRead::ChunkEnd {
                    res: rs,
                    headers: hs,
                    body: b,
                } && rs == res && hs@ == headers@ && b@ == body@ + got@,
                ResponseRead::ChunkEnd { res, headers, body } => r matches ResponseRead::ChunkSize {
                    res: rs,
                    headers: hs,
                    body: b,
                } && rs == res && hs@ == headers@ && b@ == body@,
                _ => true,
            },
    {
        match self {
            ResponseRead::Body { res, headers, .. } => ResponseRead::Done {
                result: Some(Response { res, headers, body: got }),
            },
            ResponseRead::ChunkData { res, headers, body, .. } => {
                let mut body = body;
                let mut got = got;
                body.append(&mut got);
                ResponseRead::ChunkEnd { res, headers, body }
            },
            ResponseRead::ChunkEnd { res, headers, body } => ResponseRead::ChunkSize {
                res,
                headers,
                body,
            },
            _ => self,
        }
    }

    /// The response that was read, if any.
    pub fn finish(self) -> (r: Option<Response>)
        requires
            self matches ResponseRead::Done { .. },
        ensures
            self matches ResponseRead::Done { result } && r == result,
    {
        match self {
            ResponseRead::Done { result } => result,
            _ => None,
        }
    }
}

} // verus!
