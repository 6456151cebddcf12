//! The command-line settings, and what the program does with them.
use vstd::prelude::*;
use crate::calls::md5_digest;
use crate::m3u8::{hex_bytes, md5_hex};
use crate::download::{lemma_rfind_char, rfind_char};
use crate::text::{chars_of, find_char, index_of_char, push_str, slice_chars, string_of};
use vstd::utf8::encode_utf8;

verus! {

/// The settings a run starts from.
#[derive(Debug)]
pub struct Config {
    /// Read a `fetch(...)` call copied from a browser on standard input.
    pub stdin: bool,
    /// How many segments are fetched at once.
    pub threads: usize,
    /// Serve requests on this address, such as `127.0.0.1:2022`.
    pub bind: Option<String>,
    /// The proxy to connect through, such as `127.0.0.1:10808`.
    pub proxy: Option<String>,
    /// The playlist URL to download.
    pub url: Option<String>,
    /// The file to save the download in.
    pub file: Option<String>,
}

impl Default for Config {
    /// No input chosen, 20 segments at once.
    fn default() -> (c: Config)
        ensures
            !c.stdin,
            c.threads == 20,
            c.bind is None,
            c.proxy is None,
            c.url is None,
            c.file is None,
    {
        Config { stdin: false, threads: 20, bind: None, proxy: None, url: None, file: None }
    }
}

/// What a run does.
#[derive(Debug, PartialEq, Eq)]
pub enum RunMode {
    /// Serve download requests over HTTP.
    Serve,
    /// Download what a `fetch(...)` call on standard input names.
    Stdin,
    /// Download the playlist URL given.
    Download,
    /// Nothing.
    Idle,
}

impl Config {
    /// What a run with these settings does: serving wins over standard input,
    /// which wins over a URL.
    pub fn mode(&self) -> (m: RunMode)
        ensures
            m == (if self.bind is Some {
                RunMode::Serve
            } else if self.stdin {
                RunMode::Stdin
            } else if self.url is Some {
                RunMode::Download
            } else {
                RunMode::Idle
            }),
    {
        if self.bind.is_some() {
            RunMode::Serve
        } else if self.stdin {
            RunMode::Stdin
        } else if self.url.is_some() {
            RunMode::Download
        } else {
            RunMode::Idle
        }
    }
}

/// The file a URL download is saved in: the file given, or else the URL's MD5
/// in hex followed by `.ts`.
pub fn make_filename(config: &Config) -> (s: String)
    requires
        config.file is Some || config.url is Some,
    ensures
        match config.file {
            Some(f) => s@ == f@,
            None => s@ == hex_bytes(md5_digest(encode_utf8(config.url->0@))) + ".ts"@,
        },
{
    match &config.file {
        Some(f) => f.clone(),
        None => match &config.url {
            Some(u) => {
                let mut s = md5_hex(u.as_str());
                push_str(&mut s, ".ts");
                s
            },
            None => String::new(),
        },
    }
}


/// The last part of a program path: after the last `/` when it holds one,
/// otherwise after the last `\\`.
pub open spec fn program_name_spec(path: Seq<char>) -> Seq<char> {
    let sep = if find_char(path, '/') < path.len() {
        '/'
    } else {
        '\\'
    };
    match rfind_char(path, sep) {
        Some(i) => path.skip(i + 1),
        None => path,
    }
}

/// The name a program was started under, for its usage line.
pub fn program_name(path: &str) -> (s: String)
    ensures
        s@ == program_name_spec(path@),
{
    let v = chars_of(path);
    let sep = if index_of_char(&v, '/') < v.len() {
        '/'
    } else {
        '\\'
    };
    let mut i = v.len();
    while i > 0 && v[i - 1] != sep
        invariant
            i <= v@.len(),
            forall|j: int| i <= j < v@.len() ==> #[trigger] v@[j] != sep,
        decreases i,
    {
        i = i - 1;
    }
    proof {
        lemma_rfind_char(v@, sep, i as int);
    }
    string_of(&slice_chars(&v, i, v.len()))
}

/// The file a download named on the command line is saved in: the name given
/// with `.ts` appended, or else the URL's MD5 in hex.
pub fn cli_file_name(url: &str, name: Option<String>) -> (s: String)
    ensures
        match name {
            Some(n) => s@ == n@ + ".ts"@,
            None => s@ == hex_bytes(md5_digest(encode_utf8(url@))),
        },
{
    match name {
        Some(n) => {
            let mut s = n;
            push_str(&mut s, ".ts");
            s
        },
        None => md5_hex(url),
    }
}

} // verus!
