//! The plan of a playlist download: which segments are fetched together, and
//! the name of the file written while it runs.
use vstd::prelude::*;
use crate::calls::md5_digest;
use crate::m3u8::{hex_bytes, md5_hex};
use crate::text::{chars_of, push_str, slice_chars, string_of};
use vstd::utf8::encode_utf8;

verus! {

/// Whether stepping through `count` items `size` at a time stays within `usize`.
pub open spec fn batches_fit(count: usize, size: usize) -> bool {
    count == 0 || ((count - 1) as int / size as int) * size + size <= usize::MAX
}

/// The number of batches of `size` that `count` items make.
pub open spec fn batch_count(count: nat, size: nat) -> nat {
    ((count + size - 1) as int / size as int) as nat
}

/// Batch `k`: from item `k * size` up to (not including) the next batch or the end.
pub open spec fn batch(count: nat, size: nat, k: int) -> (int, int) {
    let b = k * size;
    (b, if b + size < count {
        b + size
    } else {
        count as int
    })
}

/// The batches, as (first item, end) pairs, that `count` items make when
/// `size` are fetched together: `[0, size)`, `[size, 2 * size)`, ..., the last
/// one cut at `count`.
pub fn batch_bounds(count: usize, size: usize) -> (r: Vec<(usize, usize)>)
    requires
        size > 0,
        batches_fit(count, size),
    ensures
        r@.len() == batch_count(count as nat, size as nat),
        forall|k: int|
            0 <= k < r@.len() ==> (#[trigger] r@[k]).0 == batch(count as nat, size as nat, k).0
                && r@[k].1 == batch(count as nat, size as nat, k).1,
{
    let mut r: Vec<(usize, usize)> = Vec::new();
    let mut begin: usize = 0;
    let ghost mut k: int = 0;
    proof {
        let c = count as int;
        let s = size as int;
        if c > 0 {
            assert((c + s - 1) / s >= 1) by (nonlinear_arith)
                requires
                    c >= 1,
                    s > 0,
            ;
        } else {
            assert((c + s - 1) / s == 0) by (nonlinear_arith)
                requires
                    c == 0,
                    s > 0,
            ;
        }
    }
    while begin < count
        invariant
            size > 0,
            batches_fit(count, size),
            begin == k * size,
            0 <= k,
            begin < count ==> k < batch_count(count as nat, size as nat),
            begin >= count ==> k == batch_count(count as nat, size as nat),
            r@.len() == k,
            forall|j: int|
                0 <= j < k ==> (#[trigger] r@[j]).0 == batch(count as nat, size as nat, j).0
                    && r@[j].1 == batch(count as nat, size as nat, j).1,
        decreases count as int + size as int - begin as int,
    {
        proof {
            let c = count as int;
            let s = size as int;
            let last = ((c - 1) / s) * s;
            assert(begin <= last) by (nonlinear_arith)
                requires
                    begin == k * s,
                    begin < c,
                    s > 0,
                    k >= 0,
                    last == ((c - 1) / s) * s,
            {
                assert(k <= (c - 1) / s) by (nonlinear_arith)
                    requires
                        k * s <= c - 1,
                        s > 0,
                        k >= 0,
                ;
            }
        }
        let end = if count - begin > size {
            begin + size
        } else {
            count
        };
        r.push((begin, end));
        proof {
            let c = count as int;
            let s = size as int;
            let n = batch_count(count as nat, size as nat) as int;
            assert(n == (c + s - 1) / s);
            if begin + size < count {
                assert(k + 1 < n) by (nonlinear_arith)
                    requires
                        k * s + s < c,
                        s > 0,
                        n == (c + s - 1) / s,
                {
                    assert((k + 1) * s + s <= c + s - 1);
                    assert((k + 2) * s <= c + s - 1);
                }
            } else {
                assert(k + 1 == n) by (nonlinear_arith)
                    requires
                        k * s < c,
                        k * s + s >= c,
                        s > 0,
                        n == (c + s - 1) / s,
                        k >= 0,
                ;
            }
            k = k + 1;
            assert((k - 1) * s + s == k * s) by (nonlinear_arith);
        }
        begin = begin + size;
    }
    r
}

proof fn lemma_batch_count(c: int, s: int, n: int)
    requires
        c >= 0,
        s > 0,
        n == (c + s - 1) / s,
    ensures
        n >= 0,
        n * s >= c,
        n > 0 ==> (n - 1) * s < c,
{
    assert(n >= 0 && n * s >= c && (n > 0 ==> (n - 1) * s < c)) by (nonlinear_arith)
        requires
            c >= 0,
            s > 0,
            n == (c + s - 1) / s,
    ;
}

/// The batches cover the items once, in order: the first starts at item 0,
/// each ends where the next starts, the last ends at `count`, and each holds
/// at least one and at most `size` items.
pub proof fn law_batches_cover(count: nat, size: nat)
    requires
        size > 0,
    ensures
        ({
            let n = batch_count(count, size) as int;
            &&& n > 0 ==> batch(count, size, 0).0 == 0
            &&& n > 0 ==> batch(count, size, n - 1).1 == count
            &&& forall|k: int|
                0 <= k < n - 1 ==> #[trigger] batch(count, size, k).1 == batch(count, size, k + 1).0
            &&& forall|k: int|
                0 <= k < n ==> batch(count, size, k).0 < #[trigger] batch(count, size, k).1
                    <= batch(count, size, k).0 + size
        }),
{
    let c = count as int;
    let s = size as int;
    let n = batch_count(count, size) as int;
    lemma_batch_count(c, s, n);
    if n > 0 {
        assert((n - 1) * s + s == n * s) by (nonlinear_arith);
    }
    assert forall|k: int| 0 <= k < n - 1 implies #[trigger] batch(count, size, k).1 == batch(
        count,
        size,
        k + 1,
    ).0 by {
        assert(k * s + s == (k + 1) * s) by (nonlinear_arith);
        assert((k + 1) * s <= (n - 1) * s) by (nonlinear_arith)
            requires
                k + 1 <= n - 1,
                s > 0,
        ;
    }
    assert forall|k: int| 0 <= k < n implies batch(count, size, k).0 < #[trigger] batch(
        count,
        size,
        k,
    ).1 <= batch(count, size, k).0 + size by {
        assert(k * s <= (n - 1) * s) by (nonlinear_arith)
            requires
                k <= n - 1,
                s > 0,
        ;
    }
}

/// The name of the file a download to `file_name` writes while it runs: the
/// name, `.downloading.`, and the first nine characters of the URL's MD5 in hex.
pub open spec fn tmp_name(file_name: Seq<char>, url: Seq<char>) -> Seq<char> {
    file_name + ".downloading."@ + hex_bytes(md5_digest(encode_utf8(url))).take(9)
}

/// The name of the file a download of `url` to `file_name` writes while it runs.
pub fn tmp_file_name(file_name: &str, url: &str) -> (s: String)
    ensures
        s@ == tmp_name(file_name@, url@),
{
    let h = md5_hex(url);
    let hv = chars_of(h.as_str());
    let mut s = String::new();
    push_str(&mut s, file_name);
    push_str(&mut s, ".downloading.");
    let head = string_of(&slice_chars(&hv, 0, 9));
    push_str(&mut s, head.as_str());
    s
}

} // verus!
