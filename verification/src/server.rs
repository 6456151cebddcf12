//! The record of URLs a download service has already taken.
use vstd::prelude::*;

verus! {

/// The URLs taken so far, in order.
pub struct Cache {
    map: Vec<String>,
}

impl View for Cache {
    type V = Seq<Seq<char>>;

    closed spec fn view(&self) -> Seq<Seq<char>> {
        self.map@.map_values(|s: String| s@)
    }
}

impl Cache {
    /// An empty record.
    pub fn new() -> (c: Cache)
        ensures
            c@.len() == 0,
    {
        let c = Cache { map: Vec::new() };
        assert(c@ =~= Seq::<Seq<char>>::empty());
        c
    }

    /// Records `key`.
    pub fn insert(&mut self, key: &str)
        ensures
            final(self)@ == old(self)@.push(key@),
    {
        let ghost before = self@;
        self.map.push(key.to_owned());
        assert(self@ =~= before.push(key@));
    }

    /// Whether `key` was recorded.
    pub fn check(&self, key: &str) -> (b: bool)
        ensures
            b == self@.contains(key@),
    {
        let k = key.to_owned();
        let mut i: usize = 0;
        while i < self.map.len()
            invariant
                i <= self.map@.len(),
                self@.len() == self.map@.len(),
                k@ == key@,
                forall|j: int| 0 <= j < i ==> #[trigger] self@[j] != key@,
            decreases self.map.len() - i,
        {
            assert(self@[i as int] == self.map@[i as int]@);
            let same = self.map[i] == k;
            if same {
                assert(self@[i as int] == key@);
                return true;
            }
            i = i + 1;
        }
        false
    }

    /// The recorded URLs.
    pub fn entries(&self) -> (v: &Vec<String>)
        ensures
            v@.map_values(|s: String| s@) == self@,
    {
        &self.map
    }
}

/// What a service records, read through a cache: a URL checked after it was
/// recorded is found, and recording one URL leaves the others as they were.
pub proof fn law_cache_remembers(before: Seq<Seq<char>>, key: Seq<char>, other: Seq<char>)
    ensures
        before.push(key).contains(key),
        before.contains(other) ==> before.push(key).contains(other),
{
    assert(before.push(key)[before.len() as int] == key);
    if before.contains(other) {
        let i = choose|i: int| 0 <= i < before.len() && before[i] == other;
        assert(before.push(key)[i] == other);
    }
}

/// What a cache holds after the URLs `keys` are recorded into it, in order,
/// when it held `start` before.
pub open spec fn after_inserts(start: Seq<Seq<char>>, keys: Seq<Seq<char>>) -> Seq<Seq<char>>
    decreases keys.len(),
{
    if keys.len() == 0 {
        start
    } else {
        after_inserts(start, keys.drop_last()).push(keys.last())
    }
}

/// A new cache into which the URLs `keys` are then recorded, in order, holds
/// exactly those URLs in that order; so `check` finds a URL exactly when one of
/// the inserts recorded it.
pub proof fn law_check_after_inserts(keys: Seq<Seq<char>>, k: Seq<char>)
    ensures
        after_inserts(Seq::empty(), keys) == keys,
        after_inserts(Seq::empty(), keys).contains(k) <==> exists|i: int|
            0 <= i < keys.len() && #[trigger] keys[i] == k,
    decreases keys.len(),
{
    if keys.len() > 0 {
        law_check_after_inserts(keys.drop_last(), k);
        assert(keys.drop_last().push(keys.last()) == keys);
    } else {
        assert(keys == Seq::<Seq<char>>::empty());
    }
}

} // verus!
