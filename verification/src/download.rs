//! Naming files next to a URL.
use vstd::prelude::*;
use crate::text::{chars_of, find_char, index_of_char, push_str, slice_chars, string_of};

verus! {

/// The index of the last `c` in `s`, if any.
pub open spec fn rfind_char(s: Seq<char>, c: char) -> Option<int>
    decreases s.len(),
{
    if s.len() == 0 {
        None
    } else if s.last() == c {
        Some(s.len() - 1)
    } else {
        rfind_char(s.drop_last(), c)
    }
}

/// `url` without its query, cut after its last `/`, with `name` appended;
/// `None` when that part of the URL holds no `/`.
pub open spec fn sibling_url(url: Seq<char>, name: Seq<char>) -> Option<Seq<char>> {
    let u = url.take(find_char(url, '?'));
    match rfind_char(u, '/') {
        Some(i) => Some(u.take(i + 1) + name),
        None => None,
    }
}

/// The URL of `name` in the same directory as `url`.
pub fn build_url(url: &str, name: &str) -> (r: Option<String>)
    ensures
        match r {
            Some(s) => sibling_url(url@, name@) == Some(s@),
            None => sibling_url(url@, name@) is None,
        },
{
    let v = chars_of(url);
    let q = index_of_char(&v, '?');
    let u = slice_chars(&v, 0, q);
    let mut i = u.len();
    while i > 0 && u[i - 1] != '/'
        invariant
            i <= u@.len(),
            forall|j: int| i <= j < u@.len() ==> #[trigger] u@[j] != '/',
        decreases i,
    {
        i = i - 1;
    }
    proof {
        lemma_rfind_char(u@, '/', i as int);
    }
    if i == 0 {
        return None;
    }
    let mut s = string_of(&slice_chars(&u, 0, i));
    push_str(&mut s, name);
    Some(s)
}

pub proof fn lemma_rfind_char(s: Seq<char>, c: char, i: int)
    requires
        0 <= i <= s.len(),
        forall|j: int| i <= j < s.len() ==> #[trigger] s[j] != c,
        i == 0 || s[i - 1] == c,
    ensures
        rfind_char(s, c) == (if i == 0 {
            None
        } else {
            Some(i - 1)
        }),
    decreases s.len() - i,
{
    if i < s.len() {
        let t = s.drop_last();
        assert forall|j: int| i <= j < t.len() implies #[trigger] t[j] != c by {
            assert(t[j] == s[j]);
        }
        if i > 0 {
            assert(t[i - 1] == s[i - 1]);
        }
        lemma_rfind_char(t, c, i);
    }
}

} // verus!
