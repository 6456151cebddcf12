//! Character-level text handling shared by the HTTP and playlist code:
//! whitespace, trimming, splitting, and decimal/hexadecimal numbers.
use vstd::prelude::*;

verus! {

/// The characters of a string slice, in order.
pub fn chars_of(s: &str) -> (v: Vec<char>)
    ensures
        v@ == s@,
{
    let mut v: Vec<char> = Vec::new();
    for c in it: s.chars()
        invariant
            v@ == it.seq().take(it.index() as int),
    {
        v.push(c);
    }
    v
}

// ---------------------------------------------------------------------------
// Whitespace, as `char::is_whitespace` defines it (Unicode `White_Space`).
// ---------------------------------------------------------------------------
/// The Unicode `White_Space` code points.
pub open spec fn is_ws(c: char) -> bool {
    let u = c as u32;
    ||| 9 <= u <= 13
    ||| u == 32
    ||| u == 0x85
    ||| u == 0xA0
    ||| u == 0x1680
    ||| 0x2000 <= u <= 0x200A
    ||| u == 0x2028
    ||| u == 0x2029
    ||| u == 0x202F
    ||| u == 0x205F
    ||| u == 0x3000
}

/// Whether `c` is a whitespace character.
pub fn is_whitespace(c: char) -> (b: bool)
    ensures
        b == is_ws(c),
{
    let u = c as u32;
    (9 <= u && u <= 13) || u == 32 || u == 0x85 || u == 0xA0 || u == 0x1680 || (0x2000 <= u && u
        <= 0x200A) || u == 0x2028 || u == 0x2029 || u == 0x202F || u == 0x205F || u == 0x3000
}

/// `s` with its leading whitespace removed.
pub open spec fn trim_start(s: Seq<char>) -> Seq<char>
    decreases s.len(),
{
    if s.len() > 0 && is_ws(s[0]) {
        trim_start(s.drop_first())
    } else {
        s
    }
}

/// `s` with its trailing whitespace removed.
pub open spec fn trim_end(s: Seq<char>) -> Seq<char>
    decreases s.len(),
{
    if s.len() > 0 && is_ws(s.last()) {
        trim_end(s.drop_last())
    } else {
        s
    }
}

/// `s` with whitespace removed at both ends, as `str::trim` does.
pub open spec fn trim(s: Seq<char>) -> Seq<char> {
    trim_end(trim_start(s))
}

/// Whether `s` holds whitespace only (or nothing).
pub open spec fn all_ws(s: Seq<char>) -> bool {
    forall|i: int| 0 <= i < s.len() ==> #[trigger] is_ws(s[i])
}

/// Trimming the start keeps every character from the first non-whitespace one on.
proof fn lemma_trim_start_keeps(s: Seq<char>, i: int)
    requires
        0 <= i < s.len(),
        !is_ws(s[i]),
    ensures
        trim_start(s).len() <= s.len(),
        s.len() - trim_start(s).len() <= i,
        trim_start(s) == s.skip(s.len() - trim_start(s).len()),
    decreases s.len(),
{
    if is_ws(s[0]) {
        let t = s.drop_first();
        assert(t[i - 1] == s[i]);
        lemma_trim_start_keeps(t, i - 1);
        assert(t.skip(t.len() - trim_start(t).len()) =~= s.skip(s.len() - trim_start(t).len()));
    } else {
        assert(s.skip(0) == s);
    }
}

/// Trimming the end keeps every character up to the last non-whitespace one.
proof fn lemma_trim_end_keeps(s: Seq<char>, j: int)
    requires
        0 <= j < s.len(),
        !is_ws(s[j]),
    ensures
        trim_end(s).len() <= s.len(),
        trim_end(s).len() > j,
        trim_end(s) == s.take(trim_end(s).len() as int),
    decreases s.len(),
{
    if is_ws(s.last()) {
        let t = s.drop_last();
        assert(t[j] == s[j]);
        lemma_trim_end_keeps(t, j);
        assert(t.take(trim_end(t).len() as int) =~= s.take(trim_end(t).len() as int));
    } else {
        assert(s.take(s.len() as int) == s);
    }
}

/// A text trims to nothing exactly when it holds whitespace only.
pub proof fn lemma_trim_blank(s: Seq<char>)
    ensures
        (trim(s).len() == 0) == all_ws(s),
{
    if all_ws(s) {
        assert(s.take(s.len() as int) == s);
        lemma_trim_start_skip(s, s.len() as int);
        assert(trim_start(s).len() == 0);
    } else {
        let i = choose|i: int| 0 <= i < s.len() && !is_ws(s[i]);
        lemma_trim_start_keeps(s, i);
        let t = trim_start(s);
        let d = s.len() - t.len();
        assert(t[i - d] == s[i]);
        lemma_trim_end_keeps(t, i - d);
    }
}

pub proof fn lemma_trim_start_skip(s: Seq<char>, k: int)
    requires
        0 <= k <= s.len(),
        all_ws(s.take(k)),
        k == s.len() || !is_ws(s[k]),
    ensures
        trim_start(s) == s.skip(k),
    decreases k,
{
    if k == 0 {
        assert(s.skip(0) == s);
    } else {
        assert(is_ws(s.take(k)[0]));
        let t = s.drop_first();
        assert forall|i: int| 0 <= i < k - 1 implies #[trigger] is_ws(t.take(k - 1)[i]) by {
            assert(t.take(k - 1)[i] == s.take(k)[i + 1]);
        }
        if k < s.len() {
            assert(t[k - 1] == s[k]);
        }
        lemma_trim_start_skip(t, k - 1);
        assert(t.skip(k - 1) == s.skip(k));
    }
}

pub proof fn lemma_trim_end_take(s: Seq<char>, k: int)
    requires
        0 <= k <= s.len(),
        all_ws(s.skip(k)),
        k == 0 || !is_ws(s[k - 1]),
    ensures
        trim_end(s) == s.take(k),
    decreases s.len() - k,
{
    if k == s.len() {
        assert(s.take(k) == s);
    } else {
        assert(is_ws(s.skip(k)[s.len() - 1 - k]));
        let t = s.drop_last();
        assert forall|i: int| 0 <= i < t.len() - k implies #[trigger] is_ws(t.skip(k)[i]) by {
            assert(t.skip(k)[i] == s.skip(k)[i]);
        }
        lemma_trim_end_take(t, k);
        assert(t.take(k) == s.take(k));
    }
}

/// The index of the first character of `v` from `from` on that is not whitespace,
/// or `v.len()` when there is none.
fn skip_ws_forward(v: &Vec<char>, from: usize) -> (k: usize)
    requires
        from <= v.len(),
    ensures
        from <= k <= v.len(),
        forall|i: int| from <= i < k ==> #[trigger] is_ws(v@[i]),
        k == v.len() || !is_ws(v@[k as int]),
{
    let mut k = from;
    while k < v.len() && is_whitespace(v[k])
        invariant
            from <= k <= v.len(),
            forall|i: int| from <= i < k ==> #[trigger] is_ws(v@[i]),
        decreases v.len() - k,
    {
        k = k + 1;
    }
    k
}

/// The characters of `s` without whitespace at either end.
pub fn trim_chars(s: &Vec<char>) -> (r: Vec<char>)
    ensures
        r@ == trim(s@),
{
    let n = s.len();
    let a = skip_ws_forward(s, 0);
    let mut b = n;
    while b > a && is_whitespace(s[b - 1])
        invariant
            a <= b <= n,
            n == s.len(),
            forall|i: int| b <= i < n ==> #[trigger] is_ws(s@[i]),
        decreases b,
    {
        b = b - 1;
    }
    proof {
        assert(all_ws(s@.take(a as int))) by {
            assert forall|i: int| 0 <= i < a implies #[trigger] is_ws(s@.take(a as int)[i]) by {
                assert(s@.take(a as int)[i] == s@[i]);
            }
        }
        lemma_trim_start_skip(s@, a as int);
        let t = s@.skip(a as int);
        let k = (b - a) as int;
        assert(all_ws(t.skip(k))) by {
            assert forall|i: int| 0 <= i < t.len() - k implies #[trigger] is_ws(t.skip(k)[i]) by {
                assert(t.skip(k)[i] == s@[b + i]);
            }
        }
        if k > 0 {
            assert(t[k - 1] == s@[b - 1]);
        }
        lemma_trim_end_take(t, k);
    }
    let mut r: Vec<char> = Vec::new();
    let mut i = a;
    while i < b
        invariant
            a <= i <= b <= n,
            n == s.len(),
            r@ == s@.subrange(a as int, i as int),
        decreases b - i,
    {
        r.push(s[i]);
        i = i + 1;
    }
    assert(r@ == s@.skip(a as int).take((b - a) as int));
    r
}

// ---------------------------------------------------------------------------
// Splitting at whitespace, as `str::split_whitespace` does.
// ---------------------------------------------------------------------------
/// Scanning `s` from the left: the words already closed, and the word being read.
pub open spec fn scan_words(s: Seq<char>) -> (Seq<Seq<char>>, Seq<char>)
    decreases s.len(),
{
    if s.len() == 0 {
        (seq![], seq![])
    } else {
        let (done, cur) = scan_words(s.drop_last());
        let c = s.last();
        if is_ws(c) {
            if cur.len() > 0 {
                (done.push(cur), seq![])
            } else {
                (done, cur)
            }
        } else {
            (done, cur.push(c))
        }
    }
}

/// The maximal non-empty runs of non-whitespace characters of `s`, in order.
pub open spec fn words(s: Seq<char>) -> Seq<Seq<char>> {
    let (done, cur) = scan_words(s);
    if cur.len() > 0 {
        done.push(cur)
    } else {
        done
    }
}

/// Whether `s` holds no whitespace.
pub open spec fn no_ws(s: Seq<char>) -> bool {
    forall|i: int| 0 <= i < s.len() ==> !#[trigger] is_ws(s[i])
}

/// Appending characters that are not whitespace extends the word being read.
pub proof fn lemma_scan_words_word(p: Seq<char>, w: Seq<char>)
    requires
        no_ws(w),
    ensures
        scan_words(p + w) == (scan_words(p).0, scan_words(p).1 + w),
    decreases w.len(),
{
    if w.len() == 0 {
        assert(p + w == p);
        assert(scan_words(p).1 + w == scan_words(p).1);
    } else {
        let w0 = w.drop_last();
        assert(no_ws(w0)) by {
            assert forall|i: int| 0 <= i < w0.len() implies !#[trigger] is_ws(w0[i]) by {
                assert(w0[i] == w[i]);
            }
        }
        lemma_scan_words_word(p, w0);
        assert((p + w).drop_last() == p + w0);
        assert((p + w).last() == w.last());
        assert(!is_ws(w[w.len() - 1]));
        assert((scan_words(p).1 + w0).push(w.last()) == scan_words(p).1 + w);
    }
}

/// Three words joined by single spaces split back into those three words.
pub proof fn lemma_words_three(a: Seq<char>, b: Seq<char>, c: Seq<char>)
    requires
        a.len() > 0,
        b.len() > 0,
        c.len() > 0,
        no_ws(a),
        no_ws(b),
        no_ws(c),
    ensures
        words(a + " "@ + b + " "@ + c) == seq![a, b, c],
{
    reveal_strlit(" ");
    let e: Seq<char> = seq![];
    assert(scan_words(e) == (Seq::<Seq<char>>::empty(), e));
    lemma_scan_words_word(e, a);
    assert(e + a == a);
    let a1 = a + " "@;
    assert(a1.drop_last() == a);
    assert(is_ws(a1.last()));
    assert(scan_words(a1) == (seq![a], e));
    lemma_scan_words_word(a1, b);
    assert(e + b == b);
    let b1 = a1 + b + " "@;
    assert(b1.drop_last() == a1 + b);
    assert(is_ws(b1.last()));
    assert(scan_words(b1) == (seq![a, b], e));
    lemma_scan_words_word(b1, c);
}

/// The words of `s`, split at runs of whitespace.
pub fn split_words(s: &Vec<char>) -> (r: Vec<Vec<char>>)
    ensures
        r@.len() == words(s@).len(),
        forall|i: int| 0 <= i < r@.len() ==> #[trigger] r@[i]@ == words(s@)[i],
{
    let mut done: Vec<Vec<char>> = Vec::new();
    let mut cur: Vec<char> = Vec::new();
    let mut i: usize = 0;
    while i < s.len()
        invariant
            i <= s.len(),
            done@.len() == scan_words(s@.take(i as int)).0.len(),
            forall|j: int|
                0 <= j < done@.len() ==> #[trigger] done@[j]@ == scan_words(s@.take(i as int)).0[j],
            cur@ == scan_words(s@.take(i as int)).1,
        decreases s.len() - i,
    {
        assert(s@.take(i + 1).drop_last() == s@.take(i as int));
        assert(s@.take(i + 1).last() == s@[i as int]);
        let c = s[i];
        if is_whitespace(c) {
            if cur.len() > 0 {
                done.push(cur);
                cur = Vec::new();
            }
        } else {
            cur.push(c);
        }
        i = i + 1;
    }
    assert(s@.take(s.len() as int) == s@);
    if cur.len() > 0 {
        done.push(cur);
    }
    done
}

// ---------------------------------------------------------------------------
// Lines, as `str::lines` gives them.
// ---------------------------------------------------------------------------
/// `s` without one trailing carriage return.
pub open spec fn strip_cr(s: Seq<char>) -> Seq<char> {
    if s.len() > 0 && s.last() == '\r' {
        s.drop_last()
    } else {
        s
    }
}

/// Scanning `s` from the left: the lines closed by a line feed, and the open line.
pub open spec fn scan_lines(s: Seq<char>) -> (Seq<Seq<char>>, Seq<char>)
    decreases s.len(),
{
    if s.len() == 0 {
        (seq![], seq![])
    } else {
        let (done, cur) = scan_lines(s.drop_last());
        let c = s.last();
        if c == '\n' {
            (done.push(strip_cr(cur)), seq![])
        } else {
            (done, cur.push(c))
        }
    }
}

/// The lines of `s`: split at `\n` or `\r\n`; a final line ending is optional.
pub open spec fn lines(s: Seq<char>) -> Seq<Seq<char>> {
    let (done, cur) = scan_lines(s);
    if cur.len() > 0 {
        done.push(cur)
    } else {
        done
    }
}

/// Whether `s` holds no line feed.
pub open spec fn no_newline(s: Seq<char>) -> bool {
    forall|i: int| 0 <= i < s.len() ==> #[trigger] s[i] != '\n'
}

/// Appending text without line feeds extends the open line.
pub proof fn lemma_scan_lines_text(p: Seq<char>, x: Seq<char>)
    requires
        no_newline(x),
    ensures
        scan_lines(p + x) == (scan_lines(p).0, scan_lines(p).1 + x),
    decreases x.len(),
{
    if x.len() == 0 {
        assert(p + x == p);
        assert(scan_lines(p).1 + x == scan_lines(p).1);
    } else {
        let x0 = x.drop_last();
        assert(no_newline(x0)) by {
            assert forall|i: int| 0 <= i < x0.len() implies #[trigger] x0[i] != '\n' by {
                assert(x0[i] == x[i]);
            }
        }
        lemma_scan_lines_text(p, x0);
        assert((p + x).drop_last() == p + x0);
        assert((p + x).last() == x.last());
        assert(x[x.len() - 1] != '\n');
        assert((scan_lines(p).1 + x0).push(x.last()) == scan_lines(p).1 + x);
    }
}

/// The characters of `v` without one trailing carriage return.
fn strip_cr_vec(v: Vec<char>) -> (r: Vec<char>)
    ensures
        r@ == strip_cr(v@),
{
    let mut v = v;
    if v.len() > 0 && v[v.len() - 1] == '\r' {
        v.pop();
    }
    v
}

/// The lines of `s`.
pub fn split_lines(s: &Vec<char>) -> (r: Vec<Vec<char>>)
    ensures
        r@.len() == lines(s@).len(),
        forall|i: int| 0 <= i < r@.len() ==> #[trigger] r@[i]@ == lines(s@)[i],
{
    let mut done: Vec<Vec<char>> = Vec::new();
    let mut cur: Vec<char> = Vec::new();
    let mut i: usize = 0;
    while i < s.len()
        invariant
            i <= s.len(),
            done@.len() == scan_lines(s@.take(i as int)).0.len(),
            forall|j: int|
                0 <= j < done@.len() ==> #[trigger] done@[j]@ == scan_lines(s@.take(i as int)).0[j],
            cur@ == scan_lines(s@.take(i as int)).1,
        decreases s.len() - i,
    {
        assert(s@.take(i + 1).drop_last() == s@.take(i as int));
        assert(s@.take(i + 1).last() == s@[i as int]);
        let c = s[i];
        if c == '\n' {
            let line = strip_cr_vec(cur);
            done.push(line);
            cur = Vec::new();
        } else {
            cur.push(c);
        }
        i = i + 1;
    }
    assert(s@.take(s.len() as int) == s@);
    if cur.len() > 0 {
        done.push(cur);
    }
    done
}


// ---------------------------------------------------------------------------
// Searching.
// ---------------------------------------------------------------------------
/// The index of the first `c` in `s`, or `s.len()` when `s` holds none.
pub open spec fn find_char(s: Seq<char>, c: char) -> int
    decreases s.len(),
{
    if s.len() == 0 {
        0
    } else if s[0] == c {
        0
    } else {
        1 + find_char(s.drop_first(), c)
    }
}

pub proof fn lemma_find_char(s: Seq<char>, c: char)
    ensures
        0 <= find_char(s, c) <= s.len(),
        forall|i: int| 0 <= i < find_char(s, c) ==> #[trigger] s[i] != c,
        find_char(s, c) < s.len() ==> s[find_char(s, c)] == c,
    decreases s.len(),
{
    if s.len() > 0 && s[0] != c {
        lemma_find_char(s.drop_first(), c);
        assert forall|i: int| 0 <= i < find_char(s, c) implies #[trigger] s[i] != c by {
            if i > 0 {
                assert(s[i] == s.drop_first()[i - 1]);
            }
        }
    }
}

pub proof fn lemma_find_char_at(s: Seq<char>, c: char, k: int)
    requires
        0 <= k <= s.len(),
        forall|i: int| 0 <= i < k ==> #[trigger] s[i] != c,
        k == s.len() || s[k] == c,
    ensures
        find_char(s, c) == k,
    decreases k,
{
    if k > 0 {
        assert(s[0] != c);
        let t = s.drop_first();
        assert forall|i: int| 0 <= i < k - 1 implies #[trigger] t[i] != c by {
            assert(t[i] == s[i + 1]);
        }
        lemma_find_char_at(t, c, k - 1);
    }
}

/// The index of the first `c` in `v`, or `v.len()` when there is none.
pub fn index_of_char(v: &Vec<char>, c: char) -> (k: usize)
    ensures
        k == find_char(v@, c),
        k <= v@.len(),
{
    let mut k: usize = 0;
    while k < v.len() && v[k] != c
        invariant
            k <= v.len(),
            forall|i: int| 0 <= i < k ==> #[trigger] v@[i] != c,
        decreases v.len() - k,
    {
        k = k + 1;
    }
    proof {
        lemma_find_char_at(v@, c, k as int);
    }
    k
}

/// Whether `p` occurs in `s` at index `i`.
pub open spec fn occurs_at(s: Seq<char>, p: Seq<char>, i: int) -> bool {
    0 <= i && i + p.len() <= s.len() && s.subrange(i, i + p.len()) == p
}

/// The index of the leftmost occurrence of `p` in `s`, if any.
pub open spec fn find_seq(s: Seq<char>, p: Seq<char>) -> Option<int>
    decreases s.len(),
{
    if occurs_at(s, p, 0) {
        Some(0)
    } else if s.len() == 0 {
        None
    } else {
        match find_seq(s.drop_first(), p) {
            Some(i) => Some(i + 1),
            None => None,
        }
    }
}

pub proof fn lemma_occurs_shift(s: Seq<char>, p: Seq<char>, i: int)
    requires
        s.len() > 0,
        i >= 1,
    ensures
        occurs_at(s, p, i) == occurs_at(s.drop_first(), p, i - 1),
{
    if i + p.len() <= s.len() {
        assert(s.subrange(i, i + p.len()) == s.drop_first().subrange(i - 1, i - 1 + p.len()));
    }
}

pub proof fn lemma_find_seq_at(s: Seq<char>, p: Seq<char>, k: int)
    requires
        0 <= k,
        forall|i: int| 0 <= i < k ==> !#[trigger] occurs_at(s, p, i),
        occurs_at(s, p, k),
    ensures
        find_seq(s, p) == Some(k),
    decreases k,
{
    if k > 0 {
        assert(!occurs_at(s, p, 0));
        let t = s.drop_first();
        assert forall|i: int| 0 <= i < k - 1 implies !#[trigger] occurs_at(t, p, i) by {
            lemma_occurs_shift(s, p, i + 1);
        }
        lemma_occurs_shift(s, p, k);
        lemma_find_seq_at(t, p, k - 1);
    }
}

pub proof fn lemma_find_seq_none(s: Seq<char>, p: Seq<char>)
    requires
        forall|i: int| 0 <= i <= s.len() ==> !#[trigger] occurs_at(s, p, i),
    ensures
        find_seq(s, p) is None,
    decreases s.len(),
{
    assert(!occurs_at(s, p, 0));
    if s.len() > 0 {
        let t = s.drop_first();
        assert forall|i: int| 0 <= i <= t.len() implies !#[trigger] occurs_at(t, p, i) by {
            lemma_occurs_shift(s, p, i + 1);
        }
        lemma_find_seq_none(t, p);
    }
}

/// Whether `p` occurs in `v` at index `i`.
fn matches_at(v: &Vec<char>, p: &Vec<char>, i: usize) -> (b: bool)
    ensures
        b == occurs_at(v@, p@, i as int),
{
    if i > v.len() || p.len() > v.len() - i {
        return false;
    }
    let mut j: usize = 0;
    while j < p.len()
        invariant
            i + p.len() <= v.len(),
            j <= p.len(),
            forall|m: int| 0 <= m < j ==> v@[i + m] == p@[m],
        decreases p.len() - j,
    {
        if v[i + j] != p[j] {
            assert(v@.subrange(i as int, i + p.len())[j as int] != p@[j as int]);
            return false;
        }
        j = j + 1;
    }
    assert(v@.subrange(i as int, i + p.len()) == p@);
    true
}

/// The index of the leftmost occurrence of `p` in `v`, if any.
pub fn find_pattern(v: &Vec<char>, p: &Vec<char>) -> (r: Option<usize>)
    ensures
        match r {
            Some(k) => find_seq(v@, p@) == Some(k as int) && occurs_at(v@, p@, k as int),
            None => find_seq(v@, p@) is None,
        },
{
    let mut i: usize = 0;
    while i < v.len()
        invariant
            i <= v.len(),
            forall|m: int| 0 <= m < i ==> !#[trigger] occurs_at(v@, p@, m),
        decreases v.len() - i,
    {
        if matches_at(v, p, i) {
            proof {
                lemma_find_seq_at(v@, p@, i as int);
            }
            return Some(i);
        }
        i = i + 1;
    }
    if matches_at(v, p, i) {
        proof {
            lemma_find_seq_at(v@, p@, i as int);
        }
        return Some(i);
    }
    proof {
        lemma_find_seq_none(v@, p@);
    }
    None
}

/// The characters of `v` from index `a` up to (not including) index `b`.
pub fn slice_chars(v: &Vec<char>, a: usize, b: usize) -> (r: Vec<char>)
    requires
        a <= b <= v.len(),
    ensures
        r@ == v@.subrange(a as int, b as int),
{
    let mut r: Vec<char> = Vec::new();
    let mut i = a;
    while i < b
        invariant
            a <= i <= b <= v.len(),
            r@ == v@.subrange(a as int, i as int),
        decreases b - i,
    {
        r.push(v[i]);
        i = i + 1;
    }
    r
}

/// Whether the two character sequences are equal.
pub fn chars_eq(a: &Vec<char>, b: &Vec<char>) -> (r: bool)
    ensures
        r == (a@ == b@),
{
    if a.len() != b.len() {
        return false;
    }
    let mut i: usize = 0;
    while i < a.len()
        invariant
            a.len() == b.len(),
            i <= a.len(),
            forall|m: int| 0 <= m < i ==> a@[m] == b@[m],
        decreases a.len() - i,
    {
        if a[i] != b[i] {
            return false;
        }
        i = i + 1;
    }
    assert(a@ == b@);
    true
}

// ---------------------------------------------------------------------------
// Building strings.
// ---------------------------------------------------------------------------
/// Appends one character to a `String`, through `String::push`, which std
/// documents as appending the character to the end of the string.
#[verifier::external_body]
pub(crate) fn push_char(s: &mut String, c: char)
    ensures
        final(s)@ == old(s)@.push(c),
{
    s.push(c);
}

/// The string made of the characters of `v`.
pub fn string_of(v: &Vec<char>) -> (s: String)
    ensures
        s@ == v@,
{
    let mut s = String::new();
    let mut i: usize = 0;
    while i < v.len()
        invariant
            i <= v.len(),
            s@ == v@.take(i as int),
        decreases v.len() - i,
    {
        push_char(&mut s, v[i]);
        assert(v@.take(i + 1) == v@.take(i as int).push(v@[i as int]));
        i = i + 1;
    }
    assert(v@.take(v.len() as int) == v@);
    s
}

/// Appends the characters of `v` to `s`.
pub fn push_chars(s: &mut String, v: &Vec<char>)
    ensures
        final(s)@ == old(s)@ + v@,
{
    let ghost start = s@;
    let mut i: usize = 0;
    while i < v.len()
        invariant
            i <= v.len(),
            s@ == start + v@.take(i as int),
        decreases v.len() - i,
    {
        push_char(s, v[i]);
        assert(v@.take(i + 1) == v@.take(i as int).push(v@[i as int]));
        i = i + 1;
    }
    assert(v@.take(v.len() as int) == v@);
}

/// Appends the string slice `t` to `s`.
pub fn push_str(s: &mut String, t: &str)
    ensures
        final(s)@ == old(s)@ + t@,
{
    let v = chars_of(t);
    push_chars(s, &v);
}

} // verus!
