//! Media playlists (`.m3u8`): the segment URLs they list, and file names for downloads.
use vstd::prelude::*;
use crate::calls::{default_hash, str_hash, str_hash_writes, md5_compute, md5_digest, regex_replace, regex_replace_first};
use crate::http::texts;
use crate::num::{decimal, hex, lemma_radix_text_digits, push_decimal_u64, push_hex};
use crate::text::{
    all_ws, chars_of, find_char, index_of_char, is_ws, lemma_trim_blank, lines, push_chars,
    push_str, slice_chars, split_lines, string_of, trim, trim_chars,
};
use vstd::utf8::encode_utf8;
use std::collections::hash_map::DefaultHasher;
use vstd::std_specs::hash::DefaultHasherAdditionalSpecFns;

pub mod download;

verus! {

/// The pattern that matches the playlist's own file name and what follows it.
pub open spec fn playlist_name_pattern() -> Seq<char> {
    "[^/]+\\.m3u8.*$"@
}

/// A URL without its query: the text before its first `?`.
pub open spec fn without_query(url: Seq<char>) -> Seq<char> {
    url.take(find_char(url, '?'))
}

/// Whether a playlist line names a segment: it is not a `#` tag or comment,
/// and it is not blank.
pub open spec fn is_segment_line(l: Seq<char>) -> bool {
    !(l.len() > 0 && l[0] == '#') && trim(l).len() > 0
}

/// The URLs of the segments that the playlist lines `ls` name, each line
/// appended to `base`, in order.
pub open spec fn segment_urls(base: Seq<char>, ls: Seq<Seq<char>>) -> Seq<Seq<char>>
    decreases ls.len(),
{
    if ls.len() == 0 {
        seq![]
    } else {
        let prev = segment_urls(base, ls.drop_last());
        if is_segment_line(ls.last()) {
            prev.push(base + ls.last())
        } else {
            prev
        }
    }
}

/// How many of the lines `ls` name segments.
pub open spec fn count_segment_lines(ls: Seq<Seq<char>>) -> nat
    decreases ls.len(),
{
    if ls.len() == 0 {
        0
    } else {
        count_segment_lines(ls.drop_last()) + if is_segment_line(ls.last()) {
            1nat
        } else {
            0nat
        }
    }
}

/// Each segment line of a playlist gives one URL, in order, and every URL
/// starts with the base it was made from.
pub proof fn law_segment_urls(base: Seq<char>, ls: Seq<Seq<char>>)
    ensures
        segment_urls(base, ls).len() == count_segment_lines(ls),
        count_segment_lines(ls) <= ls.len(),
        forall|i: int|
            0 <= i < segment_urls(base, ls).len() ==> (#[trigger] segment_urls(base, ls)[i]).take(
                base.len() as int,
            ) == base,
    decreases ls.len(),
{
    if ls.len() > 0 {
        law_segment_urls(base, ls.drop_last());
        let prev = segment_urls(base, ls.drop_last());
        let cur = segment_urls(base, ls);
        assert forall|i: int| 0 <= i < cur.len() implies (#[trigger] cur[i]).take(
            base.len() as int,
        ) == base by {
            if i < prev.len() {
                assert(cur[i] == prev[i]);
            } else {
                assert(cur[i] == base + ls.last());
                assert((base + ls.last()).take(base.len() as int) == base);
            }
        }
    }
}

/// Every playlist line that does not start with `#` and holds a character
/// other than whitespace names a segment: it adds `base` followed by the whole
/// line, query and all, to the URLs of the lines before it. A line that starts
/// with `#`, or holds only whitespace, adds nothing.
pub proof fn law_segment_line(base: Seq<char>, ls: Seq<Seq<char>>, l: Seq<char>)
    ensures
        !(l.len() > 0 && l[0] == '#') && (exists|i: int| 0 <= i < l.len() && !is_ws(#[trigger] l[i]))
            ==> segment_urls(base, ls.push(l)) == segment_urls(base, ls).push(base + l),
        (l.len() > 0 && l[0] == '#') || (forall|i: int| 0 <= i < l.len() ==> is_ws(#[trigger] l[i]))
            ==> segment_urls(base, ls.push(l)) == segment_urls(base, ls),
{
    lemma_trim_blank(l);
    assert(ls.push(l).drop_last() == ls);
    assert(ls.push(l).last() == l);
    if forall|i: int| 0 <= i < l.len() ==> is_ws(#[trigger] l[i]) {
        assert(all_ws(l));
    }
}

/// The segment URLs of a playlist whose text is `content`, relative to `base`.
pub fn playlist_urls(base: &str, content: &str) -> (r: Vec<String>)
    ensures
        texts(r@) == segment_urls(base@, lines(content@)),
{
    let c = chars_of(content);
    let ls = split_lines(&c);
    let b = chars_of(base);
    let mut ret: Vec<String> = Vec::new();
    let mut i: usize = 0;
    while i < ls.len()
        invariant
            i <= ls@.len(),
            ls@.len() == lines(content@).len(),
            forall|j: int| 0 <= j < ls@.len() ==> #[trigger] ls@[j]@ == lines(content@)[j],
            b@ == base@,
            texts(ret@) == segment_urls(base@, lines(content@).take(i as int)),
        decreases ls.len() - i,
    {
        let line = &ls[i];
        proof {
            let t = lines(content@).take(i + 1);
            assert(t.drop_last() == lines(content@).take(i as int));
            assert(t.last() == line@);
        }
        let comment = line.len() > 0 && line[0] == '#';
        let blank = trim_chars(line).len() == 0;
        if !comment && !blank {
            let mut u = string_of(&b);
            push_chars(&mut u, line);
            let ghost before = texts(ret@);
            ret.push(u);
            proof {
                assert(texts(ret@) =~= before.push(base@ + line@));
            }
        }
        i = i + 1;
    }
    assert(lines(content@).take(ls@.len() as int) == lines(content@));
    ret
}

/// The segment URLs of the playlist `content` downloaded from `url`: each
/// segment line is appended to `url` without its query and without the
/// playlist's own file name (found with the pattern `[^/]+\.m3u8.*$`).
/// `None` when the regex engine refuses that pattern.
pub fn parse(url: &str, content: &str) -> (r: Option<Vec<String>>)
    ensures
        match r {
            Some(v) => regex_replace_first(playlist_name_pattern(), without_query(url@), ""@)
                matches Some(base) && texts(v@) == segment_urls(base, lines(content@)),
            None => regex_replace_first(playlist_name_pattern(), without_query(url@), ""@) is None,
        },
{
    let u = chars_of(url);
    let q = index_of_char(&u, '?');
    let head = string_of(&slice_chars(&u, 0, q));
    match regex_replace("[^/]+\\.m3u8.*$", head.as_str(), "") {
        Some(base) => Some(playlist_urls(base.as_str(), content)),
        None => None,
    }
}

/// The file name for a download whose URL hashed to `hash`.
pub open spec fn hashed_file_name(hash: u64) -> Seq<char> {
    "result/rs-"@ + decimal(hash as nat) + ".ts"@
}

/// `result/rs-<hash>.ts`.
pub fn file_name_for_hash(hash: u64) -> (s: String)
    ensures
        s@ == hashed_file_name(hash),
{
    let mut s = String::new();
    push_str(&mut s, "result/rs-");
    push_decimal_u64(&mut s, hash);
    push_str(&mut s, ".ts");
    s
}

/// A file name for the download of `url`, made from the hash that std's
/// default hasher gives for it.
pub fn gen_file_name(url: &str) -> (s: String)
    ensures
        s@ == hashed_file_name(str_hash(url@)),
        s@ == hashed_file_name(DefaultHasher::spec_finish(str_hash_writes(url@))),
{
    let h = default_hash(url);
    file_name_for_hash(h)
}

/// Each byte in lower-case hexadecimal without padding, one after another.
pub open spec fn hex_bytes(b: Seq<u8>) -> Seq<char>
    decreases b.len(),
{
    if b.len() == 0 {
        seq![]
    } else {
        hex_bytes(b.drop_last()) + hex(b.last() as nat)
    }
}

proof fn lemma_hex_bytes_len(b: Seq<u8>)
    ensures
        hex_bytes(b).len() >= b.len(),
    decreases b.len(),
{
    if b.len() > 0 {
        lemma_hex_bytes_len(b.drop_last());
        lemma_radix_text_digits(b.last() as nat, 16);
    }
}

/// The MD5 digest of `s`'s UTF-8 bytes, each byte written as `{:x}` writes it.
pub fn md5_hex(s: &str) -> (r: String)
    ensures
        r@ == hex_bytes(md5_digest(encode_utf8(s@))),
        r@.len() >= 16,
{
    let d = md5_compute(s.as_bytes());
    let mut r = String::new();
    let mut i: usize = 0;
    while i < d.len()
        invariant
            i <= d@.len(),
            r@ == hex_bytes(d@.take(i as int)),
        decreases d.len() - i,
    {
        push_hex(&mut r, d[i] as usize);
        proof {
            let t = d@.take(i + 1);
            assert(t.drop_last() == d@.take(i as int));
            assert(t.last() == d@[i as int]);
        }
        i = i + 1;
    }
    assert(d@.take(d@.len() as int) == d@);
    proof {
        lemma_hex_bytes_len(d@);
    }
    r
}

} // verus!
