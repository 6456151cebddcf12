//! The decisions of the asynchronous download service: whether a URL is
//! already being downloaded, and where the segments of a playlist are fetched.
use vstd::prelude::*;
use crate::calls::{
    default_hash, str_hash, str_hash_writes, join_url, parse_absolute_url, url_join, url_parse,
};
use crate::http::texts;
use std::collections::hash_map::DefaultHasher;
use vstd::std_specs::hash::DefaultHasherAdditionalSpecFns;

verus! {

/// How a download request went.
pub enum DownloadStatus {
    /// The URL is already being downloaded.
    Downloding,
    /// The download was started.
    Success,
    /// The download could not start.
    Failed(String),
}

impl DownloadStatus {
    /// The code a download request is answered with: 1 when the URL is
    /// already being downloaded, 0 otherwise.
    pub fn code(&self) -> (c: usize)
        ensures
            c == (if self is Downloding {
                1usize
            } else {
                0usize
            }),
    {
        match self {
            DownloadStatus::Downloding => 1,
            _ => 0,
        }
    }
}

/// The hashes of the URLs whose download was started.
pub struct Global {
    cache: Vec<u64>,
}

impl View for Global {
    type V = Seq<u64>;

    closed spec fn view(&self) -> Seq<u64> {
        self.cache@
    }
}

impl Global {
    /// No download started yet.
    pub fn new() -> (g: Global)
        ensures
            g@.len() == 0,
    {
        Global { cache: Vec::new() }
    }

    /// The hash under which a URL is recorded (std's default hasher).
    pub fn hash(s: &str) -> (h: u64)
        ensures
            h == str_hash(s@),
            h == DefaultHasher::spec_finish(str_hash_writes(s@)),
    {
        default_hash(s)
    }

    /// Whether a download with this hash was started.
    pub fn has(&self, hash: u64) -> (b: bool)
        ensures
            b == self@.contains(hash),
    {
        let mut i: usize = 0;
        while i < self.cache.len()
            invariant
                i <= self.cache@.len(),
                forall|j: int| 0 <= j < i ==> #[trigger] self.cache@[j] != hash,
            decreases self.cache.len() - i,
        {
            if self.cache[i] == hash {
                assert(self@[i as int] == hash);
                return true;
            }
            i = i + 1;
        }
        false
    }

    /// Records a started download.
    pub fn add(&mut self, hash: u64)
        ensures
            final(self)@ == old(self)@.push(hash),
    {
        self.cache.push(hash);
    }

    /// Takes a download request for the URL hashed to `hash`: when it was
    /// taken before the answer is `Downloding` and nothing changes; otherwise
    /// it is recorded and the answer is `Success`.
    pub fn claim(&mut self, hash: u64) -> (s: DownloadStatus)
        ensures
            old(self)@.contains(hash) ==> s is Downloding && final(self)@ == old(self)@,
            !old(self)@.contains(hash) ==> s is Success && final(self)@ == old(self)@.push(hash),
    {
        if self.has(hash) {
            DownloadStatus::Downloding
        } else {
            self.add(hash);
            DownloadStatus::Success
        }
    }
}

/// The segment URLs resolved against `base`, in order; `None` when one fails.
pub open spec fn joined_all(base: Seq<char>, refs: Seq<Seq<char>>) -> Option<Seq<Seq<char>>>
    decreases refs.len(),
{
    if refs.len() == 0 {
        Some(seq![])
    } else {
        match (joined_all(base, refs.drop_last()), url_join(base, refs.last())) {
            (Some(p), Some(j)) => Some(p.push(j)),
            _ => None,
        }
    }
}

proof fn lemma_joined_none_extends(base: Seq<char>, refs: Seq<Seq<char>>, k: int)
    requires
        0 <= k <= refs.len(),
        joined_all(base, refs.take(k)) is None,
    ensures
        joined_all(base, refs) is None,
    decreases refs.len() - k,
{
    if k < refs.len() {
        assert(refs.take(k + 1).drop_last() == refs.take(k));
        lemma_joined_none_extends(base, refs, k + 1);
    } else {
        assert(refs.take(k) == refs);
    }
}

/// The URLs of the segments whose URIs `refs` a playlist fetched from `url`
/// lists: each URI resolved against the playlist's URL.
pub open spec fn playlist_segment_urls(refs: Seq<Seq<char>>, url: Seq<char>) -> Option<
    Seq<Seq<char>>,
> {
    match url_parse(url) {
        None => None,
        Some(base) => joined_all(base, refs),
    }
}

/// The URLs of the segments of a playlist fetched from `url`, given the
/// segment URIs `refs` that the playlist lists, in order: each URI resolved
/// against the playlist's URL. `None` when the URL or one of the resolutions
/// cannot be read.
pub fn segment_urls(refs: &Vec<String>, url: &str) -> (r: Option<Vec<String>>)
    ensures
        playlist_segment_urls(texts(refs@), url@) == match r {
            Some(v) => Some(texts(v@)),
            None => None::<Seq<Seq<char>>>,
        },
{
    let base = match parse_absolute_url(url) {
        Some(b) => b,
        None => return None,
    };
    let mut out: Vec<String> = Vec::new();
    let mut i: usize = 0;
    while i < refs.len()
        invariant
            i <= refs@.len(),
            url_parse(url@) == Some(base@),
            joined_all(base@, texts(refs@).take(i as int)) == Some(texts(out@)),
        decreases refs.len() - i,
    {
        proof {
            let t = texts(refs@).take(i + 1);
            assert(t.drop_last() == texts(refs@).take(i as int));
            assert(t.last() == refs@[i as int]@);
        }
        match join_url(base.as_str(), refs[i].as_str()) {
            Some(u) => {
                let ghost before = texts(out@);
                out.push(u);
                assert(texts(out@) =~= before.push(out@.last()@));
            },
            None => {
                proof {
                    lemma_joined_none_extends(base@, texts(refs@), i + 1);
                }
                return None;
            },
        }
        i = i + 1;
    }
    assert(texts(refs@).take(refs@.len() as int) == texts(refs@));
    Some(out)
}

} // verus!
