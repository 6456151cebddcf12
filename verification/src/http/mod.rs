//! HTTP/1.x message pieces: header maps, request and status lines.
use vstd::prelude::*;
use crate::calls::{lowercase, to_lowercase, to_uppercase, uppercase};
use crate::num::{
    decimal, law_print_parse_roundtrip, lemma_decimal_word, parse_usize, parse_usize_spec,
    push_decimal,
};
use crate::text::{
    chars_of, find_char, index_of_char, is_ws, lemma_find_char, lemma_find_char_at,
    lemma_scan_lines_text, lemma_words_three, lines, no_newline, no_ws, push_str, scan_lines,
    slice_chars, split_words, string_of, strip_cr, trim, trim_chars, trim_start, words,
};

pub mod http_client;
pub mod proxy;
pub mod request;
pub mod response;
pub mod url;

verus! {

/// A header entry, as text.
pub type HeaderView = (Seq<char>, Seq<char>);

/// Whether no key occurs twice among `es`.
pub open spec fn distinct_keys(es: Seq<HeaderView>) -> bool {
    forall|i: int, j: int| 0 <= i < j < es.len() ==> #[trigger] es[i].0 != #[trigger] es[j].0
}

/// The position of the entry with key `k`, if there is one.
pub open spec fn key_index(es: Seq<HeaderView>, k: Seq<char>) -> Option<int>
    decreases es.len(),
{
    if es.len() == 0 {
        None
    } else if es.last().0 == k {
        Some(es.len() - 1)
    } else {
        key_index(es.drop_last(), k)
    }
}

/// The value stored under key `k`, if any.
pub open spec fn lookup(es: Seq<HeaderView>, k: Seq<char>) -> Option<Seq<char>> {
    match key_index(es, k) {
        Some(i) => Some(es[i].1),
        None => None,
    }
}

/// The entries after setting key `k` to `v`: an existing entry keeps its place
/// and takes the new value, a new key goes to the end.
pub open spec fn insert_entry(es: Seq<HeaderView>, k: Seq<char>, v: Seq<char>) -> Seq<HeaderView> {
    match key_index(es, k) {
        Some(i) => es.update(i, (k, v)),
        None => es.push((k, v)),
    }
}

pub proof fn lemma_key_index(es: Seq<HeaderView>, k: Seq<char>)
    ensures
        match key_index(es, k) {
            Some(i) => 0 <= i < es.len() && es[i].0 == k,
            None => forall|j: int| 0 <= j < es.len() ==> #[trigger] es[j].0 != k,
        },
    decreases es.len(),
{
    if es.len() > 0 && es.last().0 != k {
        lemma_key_index(es.drop_last(), k);
        if key_index(es.drop_last(), k) is None {
            assert forall|j: int| 0 <= j < es.len() implies #[trigger] es[j].0 != k by {
                if j < es.len() - 1 {
                    assert(es[j] == es.drop_last()[j]);
                }
            }
        }
    }
}

pub proof fn lemma_key_index_at(es: Seq<HeaderView>, k: Seq<char>, i: int)
    requires
        distinct_keys(es),
        0 <= i < es.len(),
        es[i].0 == k,
    ensures
        key_index(es, k) == Some(i),
{
    lemma_key_index(es, k);
    match key_index(es, k) {
        Some(j) => {
            if j != i {
                if i < j {
                    assert(es[i].0 != es[j].0);
                } else {
                    assert(es[j].0 != es[i].0);
                }
            }
        },
        None => {
            assert(es[i].0 != k);
        },
    }
}

pub proof fn lemma_insert_entry(es: Seq<HeaderView>, k: Seq<char>, v: Seq<char>)
    requires
        distinct_keys(es),
    ensures
        distinct_keys(insert_entry(es, k, v)),
        lookup(insert_entry(es, k, v), k) == Some(v),
        forall|k2: Seq<char>| k2 != k ==> lookup(insert_entry(es, k, v), k2) == #[trigger] lookup(es, k2),
{
    lemma_key_index(es, k);
    let r = insert_entry(es, k, v);
    assert forall|i: int, j: int| 0 <= i < j < r.len() implies #[trigger] r[i].0 != #[trigger] r[j].0 by {
        if j < es.len() {
            assert(es[i].0 != es[j].0);
        }
    }
    match key_index(es, k) {
        Some(i) => {
            lemma_key_index_at(r, k, i);
        },
        None => {
            lemma_key_index_at(r, k, es.len() as int);
        },
    }
    assert forall|k2: Seq<char>| k2 != k implies lookup(r, k2) == #[trigger] lookup(es, k2) by {
        lemma_key_index(es, k2);
        lemma_key_index(r, k2);
        match key_index(es, k2) {
            Some(i) => {
                lemma_key_index_at(r, k2, i);
            },
            None => {
                match key_index(r, k2) {
                    Some(j) => {
                        if j < es.len() {
                            assert(r[j].0 == es[j].0 || r[j].0 == k);
                        }
                    },
                    None => {},
                }
            },
        }
    }
}

/// A set of HTTP header fields: each key occurs once, and entries keep the
/// order in which their keys were first set.
pub struct Headers {
    entries: Vec<(String, String)>,
}

impl View for Headers {
    type V = Seq<HeaderView>;

    closed spec fn view(&self) -> Seq<HeaderView> {
        self.entries@.map_values(|e: (String, String)| (e.0@, e.1@))
    }
}

impl Headers {
    #[verifier::type_invariant]
    closed spec fn keys_distinct(&self) -> bool {
        distinct_keys(self@)
    }

    /// An empty header set.
    pub fn new() -> (h: Headers)
        ensures
            h@ == Seq::<HeaderView>::empty(),
            distinct_keys(h@),
    {
        let h = Headers { entries: Vec::new() };
        assert(h@ =~= Seq::<HeaderView>::empty());
        h
    }

    /// The number of entries.
    pub fn len(&self) -> (n: usize)
        ensures
            n == self@.len(),
    {
        self.entries.len()
    }

    /// Whether there is no entry.
    pub fn is_empty(&self) -> (b: bool)
        ensures
            b == (self@.len() == 0),
    {
        self.entries.len() == 0
    }

    /// The key and value of entry `i`.
    pub fn entry(&self, i: usize) -> (r: (&str, &str))
        requires
            i < self@.len(),
        ensures
            r.0@ == self@[i as int].0,
            r.1@ == self@[i as int].1,
    {
        let e = &self.entries[i];
        (e.0.as_str(), e.1.as_str())
    }

    /// The position of key `key`, if it is set.
    fn position(&self, key: &String) -> (r: Option<usize>)
        ensures
            match r {
                Some(i) => key_index(self@, key@) == Some(i as int),
                None => key_index(self@, key@) is None,
            },
    {
        proof {
            use_type_invariant(self);
        }
        let mut i: usize = 0;
        while i < self.entries.len()
            invariant
                i <= self.entries@.len(),
                self@.len() == self.entries@.len(),
                distinct_keys(self@),
                forall|j: int| 0 <= j < i ==> #[trigger] self@[j].0 != key@,
            decreases self.entries.len() - i,
        {
            assert(self@[i as int].0 == self.entries@[i as int].0@);
            if self.entries[i].0 == *key {
                proof {
                    lemma_key_index_at(self@, key@, i as int);
                }
                return Some(i);
            }
            i = i + 1;
        }
        proof {
            lemma_key_index(self@, key@);
            if let Some(j) = key_index(self@, key@) {
                assert(self@[j].0 != key@);
            }
        }
        None
    }

    /// Sets `key` to `value`, giving back the value it replaced, if any.
    pub fn insert(&mut self, key: String, value: String) -> (old_value: Option<String>)
        ensures
            final(self)@ == insert_entry(old(self)@, key@, value@),
            distinct_keys(old(self)@),
            distinct_keys(final(self)@),
            match old_value {
                Some(v) => lookup(old(self)@, key@) == Some(v@),
                None => lookup(old(self)@, key@) is None,
            },
    {
        proof {
            use_type_invariant(&*self);
            lemma_insert_entry(self@, key@, value@);
            lemma_key_index(self@, key@);
        }
        let pos = self.position(&key);
        match pos {
            Some(i) => {
                let old_v = self.entries[i].1.clone();
                let ghost kv = key@;
                let ghost vv = value@;
                let ghost before = self@;
                let mut es: Vec<(String, String)> = Vec::new();
                std::mem::swap(&mut es, &mut self.entries);
                es.set(i, (key, value));
                assert(es@.map_values(|e: (String, String)| (e.0@, e.1@)) =~= before.update(
                    i as int,
                    (kv, vv),
                ));
                self.entries = es;
                Some(old_v)
            },
            None => {
                let ghost kv = key@;
                let ghost vv = value@;
                let ghost before = self@;
                let mut es: Vec<(String, String)> = Vec::new();
                std::mem::swap(&mut es, &mut self.entries);
                es.push((key, value));
                assert(es@.map_values(|e: (String, String)| (e.0@, e.1@)) =~= before.push(
                    (kv, vv),
                ));
                self.entries = es;
                None
            },
        }
    }

    /// The value stored under exactly `key`, if any.
    pub fn get(&self, key: &str) -> (r: Option<&str>)
        ensures
            match r {
                Some(v) => lookup(self@, key@) == Some(v@),
                None => lookup(self@, key@) is None,
            },
    {
        let k = key.to_owned();
        match self.position(&k) {
            Some(i) => {
                proof {
                    lemma_key_index(self@, key@);
                }
                Some(self.entries[i].1.as_str())
            },
            None => None,
        }
    }

    /// A copy of this header set.
    pub fn copy(&self) -> (h: Headers)
        ensures
            h@ == self@,
            distinct_keys(h@),
    {
        proof {
            use_type_invariant(self);
        }
        let mut es: Vec<(String, String)> = Vec::new();
        let mut i: usize = 0;
        while i < self.entries.len()
            invariant
                i <= self.entries@.len(),
                es@.len() == i,
                forall|j: int| 0 <= j < i ==> #[trigger] es@[j] == self.entries@[j],
            decreases self.entries.len() - i,
        {
            let e = &self.entries[i];
            es.push((e.0.clone(), e.1.clone()));
            i = i + 1;
        }
        assert(es@ =~= self.entries@);
        Headers { entries: es }
    }
}

/// Header lines `key: value`, each ended by CRLF, in entry order.
pub open spec fn headers_text(es: Seq<HeaderView>) -> Seq<char>
    decreases es.len(),
{
    if es.len() == 0 {
        seq![]
    } else {
        headers_text(es.drop_last()) + es.last().0 + ": "@ + es.last().1 + "\r\n"@
    }
}

/// The key that a header line names: the text before its first colon, trimmed.
pub open spec fn line_key(l: Seq<char>) -> Seq<char> {
    trim(trim(l.take(find_char(l, ':'))))
}

/// The value that a header line holds: the text between its first colon and
/// the next colon (or the end), trimmed.
pub open spec fn line_value(l: Seq<char>) -> Seq<char> {
    let rest = l.skip(find_char(l, ':') + 1);
    trim(rest.take(find_char(rest, ':')))
}

/// The headers that `lines` set, read in order: a line without a colon is
/// skipped, and a later line for the same key overrides an earlier one.
pub open spec fn parsed_headers(lines: Seq<Seq<char>>) -> Seq<HeaderView>
    decreases lines.len(),
{
    if lines.len() == 0 {
        seq![]
    } else {
        let prev = parsed_headers(lines.drop_last());
        let l = lines.last();
        if find_char(l, ':') < l.len() {
            insert_entry(prev, line_key(l), line_value(l))
        } else {
            prev
        }
    }
}

/// The text of each string.
pub open spec fn texts(v: Seq<String>) -> Seq<Seq<char>> {
    v.map_values(|s: String| s@)
}

/// Reads header lines (`key: value`) into a header set.
pub fn parse_headers(lines: &Vec<String>) -> (h: Headers)
    ensures
        h@ == parsed_headers(texts(lines@)),
{
    let mut ret = Headers::new();
    let mut i: usize = 0;
    while i < lines.len()
        invariant
            i <= lines@.len(),
            ret@ == parsed_headers(texts(lines@).take(i as int)),
        decreases lines.len() - i,
    {
        proof {
            assert(texts(lines@).take(i + 1).drop_last() == texts(lines@).take(i as int));
            assert(texts(lines@).take(i + 1).last() == lines@[i as int]@);
        }
        let line = chars_of(lines[i].as_str());
        let c = index_of_char(&line, ':');
        if c < line.len() {
            proof {
                lemma_find_char(line@, ':');
            }
            let key_part = slice_chars(&line, 0, c);
            let key = trim_chars(&trim_chars(&key_part));
            let rest = slice_chars(&line, c + 1, line.len());
            let e = index_of_char(&rest, ':');
            proof {
                lemma_find_char(rest@, ':');
            }
            let value_part = slice_chars(&rest, 0, e);
            let value = trim_chars(&value_part);
            assert(key_part@ == line@.take(c as int));
            assert(rest@ == line@.skip(c + 1));
            assert(value_part@ == rest@.take(e as int));
            ret.insert(string_of(&key), string_of(&value));
        }
        i = i + 1;
    }
    assert(texts(lines@).take(lines.len() as int) == texts(lines@));
    ret
}

/// The header set written as lines `key: value\r\n`, in entry order.
pub fn header_tostr(headers: &Headers) -> (s: String)
    ensures
        s@ == headers_text(headers@),
{
    let mut ret = String::new();
    let mut i: usize = 0;
    while i < headers.len()
        invariant
            i <= headers@.len(),
            ret@ == headers_text(headers@.take(i as int)),
        decreases headers@.len() - i,
    {
        let (k, v) = headers.entry(i);
        let ghost before = ret@;
        push_str(&mut ret, k);
        push_str(&mut ret, ": ");
        push_str(&mut ret, v);
        push_str(&mut ret, "\r\n");
        proof {
            reveal_strlit(": ");
            reveal_strlit("\r\n");
            let t = headers@.take(i + 1);
            assert(t.drop_last() == headers@.take(i as int));
            assert(t.last() == headers@[i as int]);
        }
        i = i + 1;
    }
    assert(headers@.take(headers@.len() as int) == headers@);
    ret
}

/// The first entry whose key equals `key` once both are lower-cased.
pub open spec fn first_key_ignorecase(es: Seq<HeaderView>, key: Seq<char>) -> Option<int>
    decreases es.len(),
{
    if es.len() == 0 {
        None
    } else if lowercase(es[0].0) == lowercase(key) {
        Some(0)
    } else {
        match first_key_ignorecase(es.drop_first(), key) {
            Some(i) => Some(i + 1),
            None => None,
        }
    }
}

/// The value of the first entry whose key matches `key` without regard to case.
pub open spec fn get_ignorecase(es: Seq<HeaderView>, key: Seq<char>) -> Option<Seq<char>> {
    match first_key_ignorecase(es, key) {
        Some(i) => Some(es[i].1),
        None => None,
    }
}

proof fn lemma_first_key_ignorecase(es: Seq<HeaderView>, key: Seq<char>, k: int)
    requires
        0 <= k <= es.len(),
        forall|j: int| 0 <= j < k ==> lowercase(#[trigger] es[j].0) != lowercase(key),
        k == es.len() || lowercase(es[k].0) == lowercase(key),
    ensures
        first_key_ignorecase(es, key) == (if k == es.len() {
            None
        } else {
            Some(k)
        }),
    decreases k,
{
    if k > 0 {
        let t = es.drop_first();
        assert(lowercase(es[0].0) != lowercase(key));
        assert forall|j: int| 0 <= j < k - 1 implies lowercase(#[trigger] t[j].0) != lowercase(
            key,
        ) by {
            assert(t[j] == es[j + 1]);
        }
        if k < es.len() {
            assert(t[k - 1] == es[k]);
        }
        lemma_first_key_ignorecase(t, key, k - 1);
    }
}

/// The value of the first header whose key matches `key` without regard to case.
pub fn getkey_ignorecase<'a>(key: &str, map: &'a Headers) -> (r: Option<&'a str>)
    ensures
        match r {
            Some(v) => get_ignorecase(map@, key@) == Some(v@),
            None => get_ignorecase(map@, key@) is None,
        },
{
    let mut i: usize = 0;
    while i < map.len()
        invariant
            i <= map@.len(),
            forall|j: int| 0 <= j < i ==> lowercase(#[trigger] map@[j].0) != lowercase(key@),
        decreases map@.len() - i,
    {
        let (k1, value) = map.entry(i);
        let a = to_lowercase(key);
        let b = to_lowercase(k1);
        if a == b {
            proof {
                lemma_first_key_ignorecase(map@, key@, i as int);
            }
            return Some(value);
        }
        i = i + 1;
    }
    proof {
        lemma_first_key_ignorecase(map@, key@, i as int);
    }
    None
}


/// A request line: method, path and protocol version.
pub struct ReqLine {
    pub method: String,
    pub path: String,
    pub version: String,
}

/// The text of a request line: its three parts separated by single spaces.
pub open spec fn reqline_text(method: Seq<char>, path: Seq<char>, version: Seq<char>) -> Seq<
    char,
> {
    method + " "@ + path + " "@ + version
}

impl ReqLine {
    /// The request line as text, `method path version`.
    pub fn to_string(&self) -> (s: String)
        ensures
            s@ == reqline_text(self.method@, self.path@, self.version@),
    {
        let mut s = String::new();
        push_str(&mut s, self.method.as_str());
        push_str(&mut s, " ");
        push_str(&mut s, self.path.as_str());
        push_str(&mut s, " ");
        push_str(&mut s, self.version.as_str());
        proof {
            reveal_strlit(" ");
        }
        s
    }
}

/// Reads a request line: the first three words are the method (upper-cased),
/// the path and the version; further words are ignored.
pub fn parse_reqline(line: &str) -> (r: Option<ReqLine>)
    ensures
        match r {
            Some(q) => {
                &&& words(line@).len() >= 3
                &&& q.method@ == uppercase(words(line@)[0])
                &&& q.path@ == words(line@)[1]
                &&& q.version@ == words(line@)[2]
            },
            None => words(line@).len() < 3,
        },
{
    let chars = chars_of(line);
    let w = split_words(&chars);
    if w.len() < 3 {
        return None;
    }
    let first = string_of(&w[0]);
    let method = to_uppercase(first.as_str());
    let path = string_of(&w[1]);
    let version = string_of(&w[2]);
    Some(ReqLine { method, path, version })
}

/// A status line: protocol version, status code and the first word of the reason.
pub struct ResLine {
    pub version: String,
    pub code: usize,
    pub code_line: String,
}

/// The text of a status line: version, code in decimal and reason, separated by spaces.
pub open spec fn resline_text(version: Seq<char>, code: usize, code_line: Seq<char>) -> Seq<char> {
    version + " "@ + decimal(code as nat) + " "@ + code_line
}

impl ResLine {
    /// The status line as text, `version code reason`.
    pub fn to_string(&self) -> (s: String)
        ensures
            s@ == resline_text(self.version@, self.code, self.code_line@),
    {
        let mut s = String::new();
        push_str(&mut s, self.version.as_str());
        push_str(&mut s, " ");
        push_decimal(&mut s, self.code);
        push_str(&mut s, " ");
        push_str(&mut s, self.code_line.as_str());
        proof {
            reveal_strlit(" ");
        }
        s
    }
}

/// Reads a status line: the first word is the version, the second the status
/// code in decimal, the third the reason; further words are ignored.
pub fn parse_resline(line: &str) -> (r: Option<ResLine>)
    ensures
        match r {
            Some(q) => {
                &&& words(line@).len() >= 3
                &&& q.version@ == words(line@)[0]
                &&& parse_usize_spec(words(line@)[1]) == Some(q.code)
                &&& q.code_line@ == words(line@)[2]
            },
            None => words(line@).len() < 3 || parse_usize_spec(words(line@)[1]) is None,
        },
{
    let chars = chars_of(line);
    let w = split_words(&chars);
    if w.len() < 3 {
        return None;
    }
    let version = string_of(&w[0]);
    let code_text = string_of(&w[1]);
    let code = match parse_usize(code_text.as_str()) {
        Some(c) => c,
        None => return None,
    };
    let code_line = string_of(&w[2]);
    Some(ResLine { version, code, code_line })
}


/// A status line read back from its text is the line written: for a version
/// and a reason that are single words (non-empty, no whitespace), the text of
/// `version code reason` splits into those three words, and its second word
/// reads as `code`.
pub proof fn law_resline_roundtrip(version: Seq<char>, code: usize, code_line: Seq<char>)
    requires
        version.len() > 0,
        code_line.len() > 0,
        no_ws(version),
        no_ws(code_line),
    ensures
        words(resline_text(version, code, code_line)) == seq![
            version,
            decimal(code as nat),
            code_line,
        ],
        parse_usize_spec(words(resline_text(version, code, code_line))[1]) == Some(code),
{
    lemma_decimal_word(code as nat);
    lemma_words_three(version, decimal(code as nat), code_line);
    law_print_parse_roundtrip(code);
}

/// A request line read back from its text is the line written: for a method,
/// a path and a version that are single words, the text splits into those
/// three words (the method is then upper-cased when read).
pub proof fn law_reqline_roundtrip(method: Seq<char>, path: Seq<char>, version: Seq<char>)
    requires
        method.len() > 0,
        path.len() > 0,
        version.len() > 0,
        no_ws(method),
        no_ws(path),
        no_ws(version),
    ensures
        words(reqline_text(method, path, version)) == seq![method, path, version],
{
    lemma_words_three(method, path, version);
}

/// What a header set gives back of a write: after setting `k` to `v`, the
/// value under `k` is `v`, the value under every other key is what it was,
/// and keys stay distinct.
pub proof fn law_header_read_after_write(es: Seq<HeaderView>, k: Seq<char>, v: Seq<char>, k2: Seq<char>)
    requires
        distinct_keys(es),
    ensures
        distinct_keys(insert_entry(es, k, v)),
        lookup(insert_entry(es, k, v), k) == Some(v),
        k2 != k ==> lookup(insert_entry(es, k, v), k2) == lookup(es, k2),
{
    lemma_insert_entry(es, k, v);
}


/// A header written as one line: `key: value`.
pub open spec fn header_line(e: HeaderView) -> Seq<char> {
    e.0 + ": "@ + e.1
}

/// Each header written as one line.
pub open spec fn header_lines(es: Seq<HeaderView>) -> Seq<Seq<char>> {
    es.map_values(|e: HeaderView| header_line(e))
}

/// Whether `s` holds no colon.
pub open spec fn no_colon(s: Seq<char>) -> bool {
    forall|i: int| 0 <= i < s.len() ==> #[trigger] s[i] != ':'
}

/// Whether a header survives being written as a line and read back: neither
/// part holds a colon or has whitespace at either end.
pub open spec fn plain_header(e: HeaderView) -> bool {
    no_colon(e.0) && no_colon(e.1) && trim(e.0) == e.0 && trim(e.1) == e.1
}

proof fn lemma_header_line(e: HeaderView)
    requires
        plain_header(e),
    ensures
        find_char(header_line(e), ':') < header_line(e).len(),
        line_key(header_line(e)) == e.0,
        line_value(header_line(e)) == e.1,
{
    reveal_strlit(": ");
    let (k, v) = e;
    let l = header_line(e);
    assert(l[k.len() as int] == ':');
    assert forall|i: int| 0 <= i < k.len() implies #[trigger] l[i] != ':' by {
        assert(l[i] == k[i]);
    }
    lemma_find_char_at(l, ':', k.len() as int);
    assert(l.take(k.len() as int) == k);
    let rest = l.skip(k.len() as int + 1);
    let sp = seq![' '] + v;
    assert(rest == sp);
    assert forall|i: int| 0 <= i < sp.len() implies #[trigger] sp[i] != ':' by {
        if i > 0 {
            assert(sp[i] == v[i - 1]);
        }
    }
    lemma_find_char_at(sp, ':', sp.len() as int);
    assert(sp.take(sp.len() as int) == sp);
    assert(is_ws(sp[0]));
    assert(sp.drop_first() == v);
    assert(trim_start(sp) == trim_start(v));
}

/// Headers written one per line, `key: value`, read back as the same headers,
/// in the same order: for distinct keys, and parts without colons or
/// whitespace at their ends.
pub proof fn law_header_lines_roundtrip(es: Seq<HeaderView>)
    requires
        distinct_keys(es),
        forall|i: int| 0 <= i < es.len() ==> plain_header(#[trigger] es[i]),
    ensures
        parsed_headers(header_lines(es)) == es,
    decreases es.len(),
{
    if es.len() > 0 {
        let prev = es.drop_last();
        assert(distinct_keys(prev)) by {
            assert forall|i: int, j: int| 0 <= i < j < prev.len() implies #[trigger] prev[i].0
                != #[trigger] prev[j].0 by {
                assert(es[i].0 != es[j].0);
            }
        }
        assert forall|i: int| 0 <= i < prev.len() implies plain_header(#[trigger] prev[i]) by {
            assert(prev[i] == es[i]);
        }
        law_header_lines_roundtrip(prev);
        assert(header_lines(es).drop_last() == header_lines(prev));
        let e = es.last();
        assert(plain_header(es[es.len() - 1]));
        lemma_header_line(e);
        assert(header_lines(es).last() == header_line(e));
        lemma_key_index(prev, e.0);
        if let Some(i) = key_index(prev, e.0) {
            assert(es[i].0 != es[es.len() - 1].0);
        }
        assert(prev.push(e) == es);
    }
}


proof fn lemma_headers_text_lines(es: Seq<HeaderView>)
    requires
        forall|i: int|
            0 <= i < es.len() ==> no_newline((#[trigger] es[i]).0) && no_newline(es[i].1),
    ensures
        scan_lines(headers_text(es)) == (header_lines(es), Seq::<char>::empty()),
    decreases es.len(),
{
    reveal_strlit(": ");
    reveal_strlit("\r\n");
    if es.len() == 0 {
        assert(header_lines(es) == Seq::<Seq<char>>::empty());
    } else {
        let prev = es.drop_last();
        assert forall|i: int| 0 <= i < prev.len() implies no_newline((#[trigger] prev[i]).0)
            && no_newline(prev[i].1) by {
            assert(prev[i] == es[i]);
        }
        lemma_headers_text_lines(prev);
        let e = es.last();
        assert(no_newline(es[es.len() - 1].0) && no_newline(es[es.len() - 1].1));
        let line = header_line(e) + seq!['\r'];
        assert(no_newline(line)) by {
            assert forall|i: int| 0 <= i < line.len() implies #[trigger] line[i] != '\n' by {
                if i < e.0.len() {
                    assert(line[i] == e.0[i]);
                } else if i >= e.0.len() + 2 && i < e.0.len() + 2 + e.1.len() {
                    assert(line[i] == e.1[i - e.0.len() - 2]);
                }
            }
        }
        let pt = headers_text(prev);
        let t = headers_text(es);
        assert(t == (pt + line).push('\n'));
        assert(t.drop_last() == pt + line);
        assert(t.last() == '\n');
        lemma_scan_lines_text(pt, line);
        assert(Seq::<char>::empty() + line == line);
        assert(strip_cr(line) == header_line(e));
        assert(header_lines(es) == header_lines(prev).push(header_line(e)));
    }
}

/// Headers written with `header_tostr` and read back line by line with
/// `parse_headers` are the headers written, in the same order: for distinct
/// keys, and parts without colons, line feeds, or whitespace at their ends.
pub proof fn law_headers_text_roundtrip(es: Seq<HeaderView>)
    requires
        distinct_keys(es),
        forall|i: int|
            0 <= i < es.len() ==> plain_header(#[trigger] es[i]) && no_newline(es[i].0)
                && no_newline(es[i].1),
    ensures
        lines(headers_text(es)) == header_lines(es),
        parsed_headers(lines(headers_text(es))) == es,
{
    lemma_headers_text_lines(es);
    law_header_lines_roundtrip(es);
}

} // verus!
