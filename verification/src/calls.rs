//! Calls into std and into other crates, each with what its contract claims
//! of the called function.
use vstd::prelude::*;
use std::collections::hash_map::DefaultHasher;
use std::hash::{Hash, Hasher};
use vstd::std_specs::hash::DefaultHasherAdditionalSpecFns;
use vstd::utf8::{decode_utf8, valid_utf8};

verus! {

/// What `str::to_lowercase` gives for a string (full Unicode case mapping,
/// with the final-sigma rule).
pub uninterp spec fn lowercase(s: Seq<char>) -> Seq<char>;

/// What `str::to_uppercase` gives for a string (full Unicode case mapping).
pub uninterp spec fn uppercase(s: Seq<char>) -> Seq<char>;

/// What `String::from_utf8_lossy` gives for a byte sequence: the decoded text,
/// with U+FFFD in place of each invalid sequence.
pub uninterp spec fn utf8_lossy(b: Seq<u8>) -> Seq<char>;

/// Calls `str::to_lowercase`. The result is named `lowercase` of the argument;
/// nothing more is claimed of it.
#[verifier::external_body]
pub(crate) fn to_lowercase(s: &str) -> (r: String)
    ensures
        r@ == lowercase(s@),
{
    s.to_lowercase()
}

/// Calls `str::to_uppercase`. The result is named `uppercase` of the argument;
/// nothing more is claimed of it.
#[verifier::external_body]
pub(crate) fn to_uppercase(s: &str) -> (r: String)
    ensures
        r@ == uppercase(s@),
{
    s.to_uppercase()
}

/// Calls `String::from_utf8_lossy` and takes the text as a `String`. The result is
/// named `utf8_lossy` of the bytes; std documents that valid UTF-8 comes back
/// unchanged, which the second clause states.
#[verifier::external_body]
pub(crate) fn from_utf8_lossy(b: &[u8]) -> (r: String)
    ensures
        r@ == utf8_lossy(b@),
        valid_utf8(b@) ==> r@ == decode_utf8(b@),
{
    String::from_utf8_lossy(b).to_string()
}


/// What compiling `pattern` with `regex::Regex::new` and then replacing its
/// leftmost match in `haystack` by `rep` with `Regex::replace` gives: `None`
/// when the pattern does not compile.
pub uninterp spec fn regex_replace_first(
    pattern: Seq<char>,
    haystack: Seq<char>,
    rep: Seq<char>,
) -> Option<Seq<char>>;

/// Compiles `pattern` with `regex::Regex::new` and, when it compiles, calls
/// `Regex::replace` to replace the leftmost match in `haystack` by `rep` (with
/// `$` group references expanded). The result is named `regex_replace_first`
/// of the three texts; which text matches is not stated.
#[verifier::external_body]
pub(crate) fn regex_replace(pattern: &str, haystack: &str, rep: &str) -> (r: Option<String>)
    ensures
        regex_replace_first(pattern@, haystack@, rep@) == match r {
            Some(s) => Some(s@),
            None => None::<Seq<char>>,
        },
{
    match regex::Regex::new(pattern) {
        Ok(re) => Some(re.replace(haystack, rep).into_owned()),
        Err(_) => None,
    }
}

/// The MD5 digest of a byte sequence, as `md5::compute` gives it.
pub uninterp spec fn md5_digest(data: Seq<u8>) -> Seq<u8>;

/// Calls `md5::compute` and gives the digest's bytes. The result is named
/// `md5_digest` of the data; the crate's `Digest` holds 16 bytes.
#[verifier::external_body]
pub(crate) fn md5_compute(data: &[u8]) -> (d: Vec<u8>)
    ensures
        d@ == md5_digest(data@),
        d@.len() == 16,
{
    md5::compute(data).0.to_vec()
}

/// The writes that `<str as Hash>::hash` makes into a hasher for a string.
/// They depend on the string alone: std's `Hash` contract makes equal strings
/// hash equally.
pub uninterp spec fn str_hash_writes(s: Seq<char>) -> Seq<Seq<u8>>;

/// Feeds a string to a hasher through `<str as Hash>::hash`. The writes it
/// makes are appended to the hasher's state (as vstd models a
/// `DefaultHasher`); they are named `str_hash_writes` of the string, and which
/// bytes they hold is not stated.
#[verifier::external_body]
pub(crate) fn hash_str(s: &str, state: &mut DefaultHasher)
    ensures
        final(state)@ == old(state)@ + str_hash_writes(s@),
{
    s.hash(state);
}

/// The hash that a new `DefaultHasher` gives for a string: the hasher's
/// `finish` after the writes that hashing the string makes.
pub open spec fn str_hash(s: Seq<char>) -> u64 {
    DefaultHasher::spec_finish(str_hash_writes(s))
}

/// A string's hash is what a new `DefaultHasher` finishes with after the
/// writes that hashing that string makes; so two strings whose writes agree
/// get the same hash.
pub proof fn law_str_hash(a: Seq<char>, b: Seq<char>)
    ensures
        str_hash(a) == DefaultHasher::spec_finish(str_hash_writes(a)),
        str_hash_writes(a) == str_hash_writes(b) ==> str_hash(a) == str_hash(b),
{
}

/// The hash that a new `DefaultHasher` gives for a string.
pub(crate) fn default_hash(s: &str) -> (h: u64)
    ensures
        h == str_hash(s@),
        h == DefaultHasher::spec_finish(str_hash_writes(s@)),
{
    let mut hasher = DefaultHasher::new();
    hash_str(s, &mut hasher);
    assert(hasher@ == str_hash_writes(s@));
    hasher.finish()
}

/// The serialization of the URL that `url::Url::parse` reads from a text, if it
/// reads one.
pub uninterp spec fn url_parse(s: Seq<char>) -> Option<Seq<char>>;

/// Calls `url::Url::parse` and gives the parsed URL's serialization. The result
/// is named `url_parse` of the text.
#[verifier::external_body]
pub(crate) fn parse_absolute_url(s: &str) -> (r: Option<String>)
    ensures
        url_parse(s@) == match r {
            Some(u) => Some(u@),
            None => None::<Seq<char>>,
        },
{
    url::Url::parse(s).ok().map(|u| u.to_string())
}

/// The serialization of the URL that `url::Url::join` gives for a reference
/// relative to a base URL, if it gives one.
pub uninterp spec fn url_join(base: Seq<char>, reference: Seq<char>) -> Option<Seq<char>>;

/// Reads `base` with `url::Url::parse` and resolves `reference` against it
/// with `Url::join`, giving the serialization. The result is named `url_join`
/// of the two texts.
#[verifier::external_body]
pub(crate) fn join_url(base: &str, reference: &str) -> (r: Option<String>)
    ensures
        url_join(base@, reference@) == match r {
            Some(u) => Some(u@),
            None => None::<Seq<char>>,
        },
{
    match url::Url::parse(base) {
        Ok(b) => b.join(reference).ok().map(|u| u.to_string()),
        Err(_) => None,
    }
}

} // verus!
