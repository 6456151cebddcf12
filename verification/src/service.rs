//! The download service's decisions: which requests start a download, what a
//! new download request is answered, and the status page.
use vstd::prelude::*;
use crate::http::ReqLine;
use crate::num::{decimal, push_decimal};
use crate::text::{chars_of, push_str, string_of};

verus! {

/// A task as text: its URL, and whether its download completed.
pub type TaskView = (Seq<char>, bool);

/// Whether no URL occurs twice among `ts`.
pub open spec fn distinct_urls(ts: Seq<TaskView>) -> bool {
    forall|i: int, j: int| 0 <= i < j < ts.len() ==> #[trigger] ts[i].0 != #[trigger] ts[j].0
}

/// The position of the task for `url`, if any.
pub open spec fn task_index(ts: Seq<TaskView>, url: Seq<char>) -> Option<int>
    decreases ts.len(),
{
    if ts.len() == 0 {
        None
    } else if ts.last().0 == url {
        Some(ts.len() - 1)
    } else {
        task_index(ts.drop_last(), url)
    }
}

/// The tasks after marking `url` with `done`: an existing task keeps its place.
pub open spec fn set_task(ts: Seq<TaskView>, url: Seq<char>, done: bool) -> Seq<TaskView> {
    match task_index(ts, url) {
        Some(i) => ts.update(i, (url, done)),
        None => ts.push((url, done)),
    }
}

/// The tasks without the one for `url`.
pub open spec fn drop_task(ts: Seq<TaskView>, url: Seq<char>) -> Seq<TaskView> {
    match task_index(ts, url) {
        Some(i) => ts.remove(i),
        None => ts,
    }
}

/// How many tasks have `done` equal to `b`.
pub open spec fn count_done(ts: Seq<TaskView>, b: bool) -> nat
    decreases ts.len(),
{
    if ts.len() == 0 {
        0
    } else {
        count_done(ts.drop_last(), b) + if ts.last().1 == b {
            1nat
        } else {
            0nat
        }
    }
}

proof fn lemma_task_index(ts: Seq<TaskView>, url: Seq<char>)
    ensures
        match task_index(ts, url) {
            Some(i) => 0 <= i < ts.len() && ts[i].0 == url,
            None => forall|j: int| 0 <= j < ts.len() ==> #[trigger] ts[j].0 != url,
        },
    decreases ts.len(),
{
    if ts.len() > 0 && ts.last().0 != url {
        lemma_task_index(ts.drop_last(), url);
        if task_index(ts.drop_last(), url) is None {
            assert forall|j: int| 0 <= j < ts.len() implies #[trigger] ts[j].0 != url by {
                if j < ts.len() - 1 {
                    assert(ts[j] == ts.drop_last()[j]);
                }
            }
        }
    }
}

proof fn lemma_task_index_at(ts: Seq<TaskView>, url: Seq<char>, i: int)
    requires
        distinct_urls(ts),
        0 <= i < ts.len(),
        ts[i].0 == url,
    ensures
        task_index(ts, url) == Some(i),
{
    lemma_task_index(ts, url);
    match task_index(ts, url) {
        Some(j) => {
            if j != i {
                if i < j {
                    assert(ts[i].0 != ts[j].0);
                } else {
                    assert(ts[j].0 != ts[i].0);
                }
            }
        },
        None => {
            assert(ts[i].0 != url);
        },
    }
}

proof fn lemma_count_bound(ts: Seq<TaskView>, b: bool)
    ensures
        count_done(ts, b) <= ts.len(),
    decreases ts.len(),
{
    if ts.len() > 0 {
        lemma_count_bound(ts.drop_last(), b);
    }
}

/// The downloads a service has taken: each URL once, with whether it completed.
pub struct Tasks {
    entries: Vec<(String, bool)>,
}

impl View for Tasks {
    type V = Seq<TaskView>;

    closed spec fn view(&self) -> Seq<TaskView> {
        self.entries@.map_values(|e: (String, bool)| (e.0@, e.1))
    }
}

impl Tasks {
    #[verifier::type_invariant]
    closed spec fn urls_distinct(&self) -> bool {
        distinct_urls(self@)
    }

    /// No tasks.
    pub fn new() -> (t: Tasks)
        ensures
            t@.len() == 0,
    {
        let t = Tasks { entries: Vec::new() };
        assert(t@ =~= Seq::<TaskView>::empty());
        t
    }

    /// The position of the task for `url`, if any.
    fn position(&self, url: &String) -> (r: Option<usize>)
        ensures
            match r {
                Some(i) => task_index(self@, url@) == Some(i as int),
                None => task_index(self@, url@) is None,
            },
    {
        proof {
            use_type_invariant(self);
        }
        let mut i: usize = 0;
        while i < self.entries.len()
            invariant
                i <= self.entries@.len(),
                self@.len() == self.entries@.len(),
                distinct_urls(self@),
                forall|j: int| 0 <= j < i ==> #[trigger] self@[j].0 != url@,
            decreases self.entries.len() - i,
        {
            assert(self@[i as int].0 == self.entries@[i as int].0@);
            if self.entries[i].0 == *url {
                proof {
                    lemma_task_index_at(self@, url@, i as int);
                }
                return Some(i);
            }
            i = i + 1;
        }
        proof {
            lemma_task_index(self@, url@);
            if let Some(j) = task_index(self@, url@) {
                assert(self@[j].0 != url@);
            }
        }
        None
    }

    /// Marks `url` with `done`, adding its task when there is none.
    fn set(&mut self, url: String, done: bool)
        ensures
            final(self)@ == set_task(old(self)@, url@, done),
    {
        proof {
            use_type_invariant(&*self);
            lemma_task_index(self@, url@);
        }
        let ghost u = url@;
        let ghost before = self@;
        let pos = self.position(&url);
        let mut es: Vec<(String, bool)> = Vec::new();
        std::mem::swap(&mut es, &mut self.entries);
        match pos {
            Some(i) => {
                es.set(i, (url, done));
                assert(es@.map_values(|e: (String, bool)| (e.0@, e.1)) =~= before.update(
                    i as int,
                    (u, done),
                ));
            },
            None => {
                es.push((url, done));
                assert(es@.map_values(|e: (String, bool)| (e.0@, e.1)) =~= before.push((u, done)));
            },
        }
        proof {
            let r = es@.map_values(|e: (String, bool)| (e.0@, e.1));
            assert forall|i: int, j: int| 0 <= i < j < r.len() implies #[trigger] r[i].0
                != #[trigger] r[j].0 by {
                if j < before.len() {
                    assert(before[i].0 != before[j].0);
                }
            }
        }
        self.entries = es;
    }

    /// Takes a download request for `url`: answers 1 when its task exists,
    /// leaving the tasks as they are, and otherwise adds it as running and
    /// answers 0.
    pub fn begin(&mut self, url: &str) -> (code: usize)
        ensures
            task_index(old(self)@, url@) is Some ==> code == 1 && final(self)@ == old(self)@,
            task_index(old(self)@, url@) is None ==> code == 0 && final(self)@ == set_task(
                old(self)@,
                url@,
                false,
            ),
    {
        let u = url.to_owned();
        match self.position(&u) {
            Some(_) => 1,
            None => {
                self.set(u, false);
                0
            },
        }
    }

    /// Records how the download of `url` ended: a success marks its task
    /// completed, a failure drops the task.
    pub fn finish(&mut self, url: &str, ok: bool)
        ensures
            ok ==> final(self)@ == set_task(old(self)@, url@, true),
            !ok ==> final(self)@ == drop_task(old(self)@, url@),
    {
        let u = url.to_owned();
        if ok {
            self.set(u, true);
        } else {
            proof {
                use_type_invariant(&*self);
            }
            let ghost before = self@;
            match self.position(&u) {
                Some(i) => {
                    proof {
                        lemma_task_index(before, u@);
                    }
                    let mut es: Vec<(String, bool)> = Vec::new();
                    std::mem::swap(&mut es, &mut self.entries);
                    assert(es@.len() == before.len());
                    es.remove(i);
                    assert(es@.map_values(|e: (String, bool)| (e.0@, e.1)) =~= before.remove(
                        i as int,
                    ));
                    proof {
                        let r = before.remove(i as int);
                        assert forall|a: int, b: int| 0 <= a < b < r.len() implies #[trigger] r[a].0
                            != #[trigger] r[b].0 by {
                            let a2 = if a < i { a } else { a + 1 };
                            let b2 = if b < i { b } else { b + 1 };
                            assert(r[a] == before[a2]);
                            assert(r[b] == before[b2]);
                            assert(before[a2].0 != before[b2].0);
                        }
                    }
                    self.entries = es;
                },
                None => {},
            }
        }
    }

    /// The number of tasks.
    pub fn len(&self) -> (n: usize)
        ensures
            n == self@.len(),
    {
        self.entries.len()
    }

    /// How many tasks have `done` equal to `b`.
    pub fn count(&self, b: bool) -> (n: usize)
        ensures
            n == count_done(self@, b),
    {
        let mut n: usize = 0;
        let mut i: usize = 0;
        while i < self.entries.len()
            invariant
                i <= self.entries@.len(),
                self@.len() == self.entries@.len(),
                n == count_done(self@.take(i as int), b),
            decreases self.entries.len() - i,
        {
            proof {
                let t = self@.take(i + 1);
                assert(t.drop_last() == self@.take(i as int));
                assert(t.last() == self@[i as int]);
                lemma_count_bound(self@.take(i as int), b);
            }
            if self.entries[i].1 == b {
                n = n + 1;
            }
            i = i + 1;
        }
        assert(self@.take(self@.len() as int) == self@);
        n
    }

    /// The status page: the number of tasks, then the number marked completed
    /// (labelled "downlading"), then the number still running (labelled "complete").
    pub fn status_page(&self) -> (s: String)
        ensures
            s@ == "<ul><li>tasks "@ + decimal(self@.len()) + "</li><li>downlading "@ + decimal(
                count_done(self@, true),
            ) + "</li><li>complete "@ + decimal(count_done(self@, false)) + "</li>"@,
    {
        let mut s = String::new();
        push_str(&mut s, "<ul><li>tasks ");
        push_decimal(&mut s, self.len());
        push_str(&mut s, "</li><li>downlading ");
        push_decimal(&mut s, self.count(true));
        push_str(&mut s, "</li><li>complete ");
        push_decimal(&mut s, self.count(false));
        push_str(&mut s, "</li>");
        s
    }
}

/// Whether a request asks for a download: `POST /m3u8`.
pub fn is_download_request(req: &ReqLine) -> (b: bool)
    ensures
        b == (req.method@ == "POST"@ && req.path@ == "/m3u8"@),
{
    let post = string_of(&chars_of("POST"));
    let path = string_of(&chars_of("/m3u8"));
    req.method == post && req.path == path
}

/// A request for a URL whose task exists is answered 1 and changes nothing;
/// once its download fails, the URL can be taken again and is answered 0.
pub proof fn law_duplicate_requests(ts: Seq<TaskView>, url: Seq<char>)
    requires
        distinct_urls(ts),
    ensures
        task_index(set_task(ts, url, false), url) is Some,
        task_index(set_task(ts, url, true), url) is Some,
        task_index(drop_task(set_task(ts, url, false), url), url) is None,
{
    lemma_set_task(ts, url, false);
    lemma_set_task(ts, url, true);
    let s = set_task(ts, url, false);
    let i = task_index(s, url)->0;
    lemma_task_index(s, url);
    let r = s.remove(i);
    assert forall|j: int| 0 <= j < r.len() implies #[trigger] r[j].0 != url by {
        let j2 = if j < i { j } else { j + 1 };
        assert(r[j] == s[j2]);
        if j2 < i {
            assert(s[j2].0 != s[i].0);
        } else {
            assert(s[i].0 != s[j2].0);
        }
    }
    lemma_task_index(r, url);
    if let Some(k) = task_index(r, url) {
        assert(r[k].0 != url);
    }
}

proof fn lemma_set_task(ts: Seq<TaskView>, url: Seq<char>, b: bool)
    requires
        distinct_urls(ts),
    ensures
        distinct_urls(set_task(ts, url, b)),
        task_index(set_task(ts, url, b), url) is Some,
{
    lemma_task_index(ts, url);
    let s = set_task(ts, url, b);
    assert forall|x: int, y: int| 0 <= x < y < s.len() implies #[trigger] s[x].0
        != #[trigger] s[y].0 by {
        if y < ts.len() {
            assert(ts[x].0 != ts[y].0);
        }
    }
    match task_index(ts, url) {
        Some(i) => {
            lemma_task_index_at(s, url, i);
        },
        None => {
            lemma_task_index_at(s, url, ts.len() as int);
        },
    }
}

} // verus!
