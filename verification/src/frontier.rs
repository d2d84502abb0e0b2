//! The content discovery frontier: a FIFO queue of probes with visited,
//! parent and depth bookkeeping.
//!
//! The queue is consumed from the front in batches of at most
//! [`BATCH_SIZE`] probes; the embedding application fetches the pages of one
//! batch concurrently, waits for all of them, and then reports every outcome
//! back through [`CourseContentStream::record_page_success`] and
//! [`CourseContentStream::record_page_failure`].  Probes whose depth has
//! reached [`MAX_DEPTH`] are dropped when the batch is formed and are never
//! retried.  Newly discovered folder records with a navigable link seed child
//! probes at the back of the queue; an id that is already visited is not
//! enqueued again, so every id enters the queue at most once.

use vstd::prelude::*;

verus! {

use vstd::seq_lib::*;
use vstd::set_lib::lemma_len_subset;
use std::collections::VecDeque;
use crate::content::{ContentProbe, CourseContentData};
use crate::text::str_eq;

/// Number of probes handed out per batch.
pub const BATCH_SIZE: usize = 8;

/// Probes at this depth or beyond are dropped, not explored.
pub const MAX_DEPTH: usize = 20;

/// The id views of a probe sequence.
pub open spec fn probe_id_views(q: Seq<ContentProbe>) -> Seq<Seq<char>> {
    q.map_values(|p: ContentProbe| p.id@)
}

/// The views of a string sequence.
pub open spec fn str_views(v: Seq<String>) -> Seq<Seq<char>> {
    v.map_values(|s: String| s@)
}

/// Whether some string in `v` has view `id`.
pub open spec fn contains_view(v: Seq<String>, id: Seq<char>) -> bool {
    exists|i: int| 0 <= i < v.len() && v[i]@ == id
}

/// Whether some probe in `q` has id view `id`.
pub open spec fn contains_probe_id(q: Seq<ContentProbe>, id: Seq<char>) -> bool {
    exists|i: int| 0 <= i < q.len() && q[i].id@ == id
}

/// No two strings in `v` share a view.
pub open spec fn distinct_views(v: Seq<String>) -> bool {
    forall|i: int, j: int| 0 <= i < j < v.len() ==> v[i]@ != v[j]@
}

/// No two probes in `q` share an id view.
pub open spec fn distinct_probe_ids(q: Seq<ContentProbe>) -> bool {
    forall|i: int, j: int| 0 <= i < j < q.len() ==> q[i].id@ != q[j].id@
}

/// First index whose key has view `k`, if any.
pub open spec fn find_key<V>(s: Seq<(String, V)>, k: Seq<char>) -> Option<int>
    decreases s.len(),
{
    if s.len() == 0 {
        Option::None
    } else if s[0].0@ == k {
        Option::Some(0)
    } else {
        match find_key(s.skip(1), k) {
            Option::Some(i) => Option::Some(i + 1),
            Option::None => Option::None,
        }
    }
}

/// The value stored under key view `k`, if any.
pub open spec fn lookup<V>(s: Seq<(String, V)>, k: Seq<char>) -> Option<V> {
    match find_key(s, k) {
        Option::Some(i) => Option::Some(s[i].1),
        Option::None => Option::None,
    }
}

/// The result of `find_key` is an in-range index whose key matches, with no
/// match before it; `None` means no key matches at all.
pub proof fn lemma_find_key<V>(s: Seq<(String, V)>, k: Seq<char>)
    ensures
        match find_key(s, k) {
            Option::Some(i) => 0 <= i < s.len() && s[i].0@ == k && forall|j: int|
                0 <= j < i ==> s[j].0@ != k,
            Option::None => forall|j: int| 0 <= j < s.len() ==> s[j].0@ != k,
        },
    decreases s.len(),
{
    if s.len() > 0 && s[0].0@ != k {
        lemma_find_key(s.skip(1), k);
        assert forall|j: int| 1 <= j < s.len() implies s.skip(1)[j - 1] == s[j] by {}
    }
}

/// No two keys in `s` share a view.
pub open spec fn distinct_keys<V>(s: Seq<(String, V)>) -> bool {
    forall|i: int, j: int| 0 <= i < j < s.len() ==> s[i].0@ != s[j].0@
}

/// `s` with the binding for `key` replaced by `v`, or appended if absent.
pub open spec fn upsert<V>(s: Seq<(String, V)>, key: String, v: V) -> Seq<(String, V)> {
    match find_key(s, key@) {
        Option::Some(i) => s.update(i, (key, v)),
        Option::None => s.push((key, v)),
    }
}

/// Upserting preserves key distinctness, and afterwards `key` is bound to
/// `v` while every other binding is unchanged.
pub proof fn lemma_upsert<V>(s: Seq<(String, V)>, key: String, v: V)
    requires
        distinct_keys(s),
    ensures
        distinct_keys(upsert(s, key, v)),
        lookup(upsert(s, key, v), key@) == Option::Some(v),
        forall|k: Seq<char>| k != key@ ==> #[trigger] lookup(upsert(s, key, v), k) == lookup(s, k),
{
    lemma_find_key(s, key@);
    let s2 = upsert(s, key, v);
    match find_key(s, key@) {
        Option::Some(i) => {
            assert(s2 == s.update(i, (key, v)));
            assert(s[i].0@ == key@);
            assert(distinct_keys(s2)) by {
                assert forall|a: int, b: int| 0 <= a < b < s2.len() implies s2[a].0@
                    != s2[b].0@ by {
                    assert(s[a].0@ != s[b].0@);
                }
            }
            lemma_lookup_unique(s2, key@);
            assert(s2[i].0@ == key@);
            assert(lookup(s2, key@) == Option::Some(v));
            assert forall|k: Seq<char>| k != key@ implies #[trigger] lookup(s2, k) == lookup(
                s,
                k,
            ) by {
                lemma_find_key(s, k);
                lemma_find_key(s2, k);
                match find_key(s, k) {
                    Option::Some(m) => {
                        assert(m != i);
                        assert(s2[m] == s[m]);
                        lemma_lookup_unique(s2, k);
                        assert(find_key(s2, k) == Option::<int>::Some(m));
                    },
                    Option::None => {
                        match find_key(s2, k) {
                            Option::Some(m2) => {
                                assert(s2[m2].0@ == k);
                                if m2 == i {
                                    assert(s2[m2].0@ == key@);
                                } else {
                                    assert(s[m2].0@ == k);
                                }
                                assert(false);
                            },
                            Option::None => {},
                        }
                    },
                }
            }
        },
        Option::None => {
            assert(s2 == s.push((key, v)));
            assert(distinct_keys(s2)) by {
                assert forall|a: int, b: int| 0 <= a < b < s2.len() implies s2[a].0@
                    != s2[b].0@ by {
                    if b < s.len() {
                        assert(s[a].0@ != s[b].0@);
                    } else {
                        assert(s2[b].0@ == key@);
                        assert(s[a].0@ != key@);
                    }
                }
            }
            lemma_lookup_unique(s2, key@);
            assert(s2[s.len() as int].0@ == key@);
            assert(lookup(s2, key@) == Option::Some(v));
            assert forall|k: Seq<char>| k != key@ implies #[trigger] lookup(s2, k) == lookup(
                s,
                k,
            ) by {
                lemma_find_key(s, k);
                lemma_find_key(s2, k);
                match find_key(s, k) {
                    Option::Some(m) => {
                        assert(s2[m] == s[m]);
                        lemma_lookup_unique(s2, k);
                        assert(find_key(s2, k) == Option::<int>::Some(m));
                    },
                    Option::None => {
                        match find_key(s2, k) {
                            Option::Some(m2) => {
                                assert(s2[m2].0@ == k);
                                if m2 == s.len() {
                                    assert(s2[m2].0@ == key@);
                                } else {
                                    assert(s[m2].0@ == k);
                                }
                                assert(false);
                            },
                            Option::None => {},
                        }
                    },
                }
            }
        },
    }
}

/// With distinct keys, any in-range index whose key matches `k` is the one
/// `find_key` returns.
pub proof fn lemma_lookup_unique<V>(s: Seq<(String, V)>, k: Seq<char>)
    requires
        distinct_keys(s),
    ensures
        forall|i: int|
            0 <= i < s.len() && s[i].0@ == k ==> find_key(s, k) == Option::<int>::Some(i),
{
    lemma_find_key(s, k);
    assert forall|i: int| 0 <= i < s.len() && s[i].0@ == k implies find_key(s, k)
        == Option::<int>::Some(i) by {
        match find_key(s, k) {
            Option::Some(m) => {
                if m < i {
                    assert(s[m].0@ != s[i].0@);
                } else if i < m {
                    assert(s[i].0@ != k);
                }
            },
            Option::None => {
                assert(s[i].0@ != k);
            },
        }
    }
}

/// The seed sequence with later probes of an already-seen id removed
/// (first occurrence wins, order otherwise preserved).
pub open spec fn dedup_probes(s: Seq<ContentProbe>) -> Seq<ContentProbe>
    decreases s.len(),
{
    if s.len() == 0 {
        Seq::empty()
    } else {
        let prev = dedup_probes(s.drop_last());
        if contains_probe_id(prev, s.last().id@) {
            prev
        } else {
            prev.push(s.last())
        }
    }
}

/// Deduplicated seeds have pairwise distinct ids, and exactly the ids of the
/// original seeds.
pub proof fn lemma_dedup_probes(s: Seq<ContentProbe>)
    ensures
        distinct_probe_ids(dedup_probes(s)),
        forall|id: Seq<char>|
            #[trigger] contains_probe_id(dedup_probes(s), id) == contains_probe_id(s, id),
        dedup_probes(s).len() <= s.len(),
        forall|i: int|
            0 <= i < dedup_probes(s).len() ==> exists|j: int|
                0 <= j < s.len() && #[trigger] dedup_probes(s)[i] == s[j],
    decreases s.len(),
{
    if s.len() > 0 {
        lemma_dedup_probes(s.drop_last());
        let prev = dedup_probes(s.drop_last());
        assert forall|i: int| 0 <= i < dedup_probes(s).len() implies exists|j: int|
            0 <= j < s.len() && #[trigger] dedup_probes(s)[i] == s[j] by {
            if i < prev.len() {
                let j = choose|j: int| 0 <= j < s.drop_last().len() && prev[i] == s.drop_last()[j];
                assert(dedup_probes(s)[i] == s[j]);
            } else {
                assert(dedup_probes(s)[i] == s[s.len() - 1]);
            }
        }
        assert forall|id: Seq<char>| #[trigger] contains_probe_id(dedup_probes(s), id)
            == contains_probe_id(s, id) by {
            if contains_probe_id(dedup_probes(s), id) {
                let i = choose|i: int|
                    0 <= i < dedup_probes(s).len() && dedup_probes(s)[i].id@ == id;
                if i < prev.len() && contains_probe_id(prev, id) {
                    let j = choose|j: int| 0 <= j < s.drop_last().len() && s.drop_last()[j].id@
                        == id;
                    assert(s[j].id@ == id);
                } else {
                    assert(s[s.len() - 1].id@ == id);
                }
                if !contains_probe_id(prev, id) && dedup_probes(s) == prev.push(s.last()) {
                    assert(s[s.len() - 1].id@ == id);
                }
            }
            if contains_probe_id(s, id) {
                let j = choose|j: int| 0 <= j < s.len() && s[j].id@ == id;
                if j < s.len() - 1 {
                    assert(s.drop_last()[j].id@ == id);
                    assert(contains_probe_id(prev, id));
                    let m = choose|m: int| 0 <= m < prev.len() && prev[m].id@ == id;
                    if contains_probe_id(prev, s.last().id@) {
                        assert(dedup_probes(s)[m].id@ == id);
                    } else {
                        assert(prev.push(s.last())[m].id@ == id);
                    }
                } else {
                    if contains_probe_id(prev, id) {
                        let m = choose|m: int| 0 <= m < prev.len() && prev[m].id@ == id;
                        assert(dedup_probes(s)[m].id@ == id);
                    } else {
                        assert(dedup_probes(s)[prev.len() as int].id@ == id);
                    }
                }
            }
        }
    }
}

/// The crawl frontier of one course: probe queue plus visited, parent and
/// depth bookkeeping.
pub struct CourseContentStream {
    batch_size: usize,
    course_id: String,
    visited_ids: Vec<String>,
    probe_queue: VecDeque<ContentProbe>,
    parents: Vec<(String, Option<String>)>,
    depths: Vec<(String, usize)>,
}

impl CourseContentStream {
    /// Structural invariant: visited ids are pairwise distinct, queued probes
    /// have pairwise distinct ids, every queued id is visited, and the two
    /// bookkeeping maps have distinct keys.
    pub closed spec fn wf(&self) -> bool {
        &&& self.batch_size == BATCH_SIZE
        &&& distinct_views(self.visited_ids@)
        &&& distinct_probe_ids(self.probe_queue@)
        &&& forall|i: int|
            0 <= i < self.probe_queue@.len() ==> contains_view(
                self.visited_ids@,
                #[trigger] self.probe_queue@[i].id@,
            )
        &&& distinct_keys(self.parents@)
        &&& distinct_keys(self.depths@)
    }

    /// The visited ids, in insertion order.
    pub closed spec fn visited(&self) -> Seq<String> {
        self.visited_ids@
    }

    /// The queued probes, front first.
    pub closed spec fn queue(&self) -> Seq<ContentProbe> {
        self.probe_queue@
    }

    /// The recorded parent bindings, as an association sequence.
    pub closed spec fn parent_entries(&self) -> Seq<(String, Option<String>)> {
        self.parents@
    }

    /// The recorded depth bindings, as an association sequence.
    pub closed spec fn depth_entries(&self) -> Seq<(String, usize)> {
        self.depths@
    }

    /// The id of the course this frontier crawls.
    pub closed spec fn spec_course_id(&self) -> String {
        self.course_id
    }

    /// A frontier seeded with the given probes; duplicate seed ids collapse
    /// to the first probe carrying them, and the seeds' parents and depths
    /// are recorded.
    pub fn new(course_id: String, initial_probes: Vec<ContentProbe>) -> (s: Self)
        ensures
            s.wf(),
            s.spec_course_id() == course_id,
            s.queue() == dedup_probes(initial_probes@),
            s.visited() == dedup_probes(initial_probes@).map_values(|p: ContentProbe| p.id),
            s.parent_entries() == dedup_probes(initial_probes@).map_values(
                |p: ContentProbe| (p.id, p.parent_id),
            ),
            s.depth_entries() == dedup_probes(initial_probes@).map_values(
                |p: ContentProbe| (p.id, p.depth),
            ),
    {
        let ghost all = initial_probes@;
        let mut visited_ids: Vec<String> = Vec::new();
        let mut probe_queue: VecDeque<ContentProbe> = VecDeque::new();
        let mut parents: Vec<(String, Option<String>)> = Vec::new();
        let mut depths: Vec<(String, usize)> = Vec::new();
        let mut i: usize = 0;
        while i < initial_probes.len()
            invariant
                0 <= i <= initial_probes.len(),
                initial_probes@ == all,
                probe_queue@ == dedup_probes(all.take(i as int)),
                visited_ids@ =~= probe_queue@.map_values(|p: ContentProbe| p.id),
                parents@ =~= probe_queue@.map_values(|p: ContentProbe| (p.id, p.parent_id)),
                depths@ =~= probe_queue@.map_values(|p: ContentProbe| (p.id, p.depth)),
            decreases initial_probes.len() - i,
        {
            let p = initial_probes[i].clone();
            proof {
                assert(all.take(i + 1).drop_last() =~= all.take(i as int));
                assert(all.take(i + 1).last() == all[i as int]);
                assert forall|j: int| 0 <= j < probe_queue@.len() implies probe_queue@[j].id@
                    == visited_ids@[j]@ by {}
            }
            if !contains_id(&visited_ids, p.id.as_str()) {
                proof {
                    if contains_probe_id(dedup_probes(all.take(i as int)), p.id@) {
                        let j = choose|j: int|
                            0 <= j < probe_queue@.len() && probe_queue@[j].id@ == p.id@;
                        assert(visited_ids@[j]@ == p.id@);
                        assert(contains_view(visited_ids@, p.id@));
                    }
                }
                visited_ids.push(p.id.clone());
                parents.push((p.id.clone(), crate::content::clone_opt_string(&p.parent_id)));
                depths.push((p.id.clone(), p.depth));
                probe_queue.push_back(p);
            } else {
                proof {
                    let j = choose|j: int|
                        0 <= j < visited_ids@.len() && visited_ids@[j]@ == p.id@;
                    assert(probe_queue@[j].id@ == p.id@);
                    assert(contains_probe_id(dedup_probes(all.take(i as int)), p.id@));
                }
            }
            i += 1;
        }
        proof {
            assert(all.take(all.len() as int) =~= all);
            lemma_dedup_probes(all);
            assert forall|j: int| 0 <= j < probe_queue@.len() implies probe_queue@[j].id@
                == visited_ids@[j]@ by {}
            assert(distinct_views(visited_ids@));
            assert forall|j: int| 0 <= j < probe_queue@.len() implies contains_view(
                visited_ids@,
                #[trigger] probe_queue@[j].id@,
            ) by {
                assert(visited_ids@[j]@ == probe_queue@[j].id@);
            }
            assert forall|j: int| 0 <= j < parents@.len() implies parents@[j].0@
                == probe_queue@[j].id@ by {}
            assert(distinct_keys(parents@));
            assert forall|j: int| 0 <= j < depths@.len() implies depths@[j].0@
                == probe_queue@[j].id@ by {}
            assert(distinct_keys(depths@));
        }
        CourseContentStream {
            batch_size: BATCH_SIZE,
            course_id,
            visited_ids,
            probe_queue,
            parents,
            depths,
        }
    }

    /// The number of ids ever enqueued (seeds plus discovered folders).
    pub fn len(&self) -> (r: usize)
        ensures
            r == self.visited().len(),
    {
        self.visited_ids.len()
    }

    /// The number of probes still waiting in the queue.
    pub fn queue_len(&self) -> (r: usize)
        ensures
            r == self.queue().len(),
    {
        self.probe_queue.len()
    }

    /// The id of the course this frontier crawls.
    pub fn course_id(&self) -> (r: &String)
        ensures
            r == self.spec_course_id(),
    {
        &self.course_id
    }

    /// In a well-formed frontier there are never more queued probes than
    /// visited ids: every queued id is visited and queued ids are distinct.
    pub proof fn lemma_queue_le_visited(&self)
        requires
            self.wf(),
        ensures
            self.queue().len() <= self.visited().len(),
    {
        let qv = probe_id_views(self.probe_queue@);
        let vv = str_views(self.visited_ids@);
        assert(qv.no_duplicates()) by {
            assert forall|i: int, j: int|
                0 <= i < qv.len() && 0 <= j < qv.len() && i != j implies qv[i] != qv[j] by {}
        }
        assert(vv.no_duplicates()) by {
            assert forall|i: int, j: int|
                0 <= i < vv.len() && 0 <= j < vv.len() && i != j implies vv[i] != vv[j] by {}
        }
        qv.unique_seq_to_set();
        vv.unique_seq_to_set();
        assert(qv.to_set().subset_of(vv.to_set())) by {
            assert forall|x: Seq<char>| qv.to_set().contains(x) implies vv.to_set().contains(
                x,
            ) by {
                let i = choose|i: int| 0 <= i < qv.len() && qv[i] == x;
                assert(contains_view(self.visited_ids@, self.probe_queue@[i].id@));
                let j = choose|j: int|
                    0 <= j < self.visited_ids@.len() && self.visited_ids@[j]@ == x;
                assert(vv[j] == x);
            }
        }
        lemma_len_subset(qv.to_set(), vv.to_set());
    }

    /// The number of probes taken off the queue for good: visited ids minus
    /// still-queued probes.
    pub fn num_finished(&self) -> (r: usize)
        requires
            self.wf(),
        ensures
            r == self.visited().len() - self.queue().len(),
    {
        proof {
            self.lemma_queue_le_visited();
        }
        self.visited_ids.len() - self.probe_queue.len()
    }

    /// The recorded parent of `id`: `Some` only if a parent binding exists
    /// and that binding is itself `Some`.
    pub fn get_parent(&self, id: &str) -> (r: Option<String>)
        ensures
            match lookup(self.parent_entries(), id@) {
                Option::Some(Option::Some(p)) => r == Option::<String>::Some(p),
                _ => r is None,
            },
    {
        let mut i: usize = 0;
        while i < self.parents.len()
            invariant
                0 <= i <= self.parents@.len(),
                forall|j: int| 0 <= j < i ==> self.parents@[j].0@ != id@,
            decreases self.parents@.len() - i,
        {
            if str_eq(self.parents[i].0.as_str(), id) {
                proof {
                    lemma_find_key(self.parents@, id@);
                    match find_key(self.parents@, id@) {
                        Option::Some(m) => {
                            assert(!(m < i) && !(i < m));
                        },
                        Option::None => {
                            assert(self.parents@[i as int].0@ == id@);
                        },
                    }
                }
                return crate::content::clone_opt_string(&self.parents[i].1);
            }
            i += 1;
        }
        proof {
            lemma_find_key(self.parents@, id@);
        }
        None
    }

    /// The recorded depth of `id`, if any.
    pub fn get_depth(&self, id: &str) -> (r: Option<usize>)
        ensures
            r == lookup(self.depth_entries(), id@),
    {
        let mut i: usize = 0;
        while i < self.depths.len()
            invariant
                0 <= i <= self.depths@.len(),
                forall|j: int| 0 <= j < i ==> self.depths@[j].0@ != id@,
            decreases self.depths@.len() - i,
        {
            if str_eq(self.depths[i].0.as_str(), id) {
                proof {
                    lemma_find_key(self.depths@, id@);
                    match find_key(self.depths@, id@) {
                        Option::Some(m) => {
                            assert(!(m < i) && !(i < m));
                        },
                        Option::None => {
                            assert(self.depths@[i as int].0@ == id@);
                        },
                    }
                }
                return Some(self.depths[i].1);
            }
            i += 1;
        }
        proof {
            lemma_find_key(self.depths@, id@);
        }
        None
    }

    /// The ids whose recorded parent is `id`, in recording order.
    pub fn get_children(&self, id: &str) -> (r: Vec<String>)
        ensures
            r@ == children_of(self.parent_entries(), id@),
    {
        let mut r: Vec<String> = Vec::new();
        let mut i: usize = 0;
        while i < self.parents.len()
            invariant
                0 <= i <= self.parents@.len(),
                r@ == children_of(self.parents@.take(i as int), id@),
            decreases self.parents@.len() - i,
        {
            proof {
                assert(self.parents@.take(i + 1).drop_last() =~= self.parents@.take(i as int));
                assert(self.parents@.take(i + 1).last() == self.parents@[i as int]);
                reveal_with_fuel(children_of, 2);
            }
            let is_child = match &self.parents[i].1 {
                Some(p) => str_eq(p.as_str(), id),
                None => false,
            };
            if is_child {
                r.push(self.parents[i].0.clone());
            }
            i += 1;
        }
        proof {
            assert(self.parents@.take(self.parents@.len() as int) =~= self.parents@);
        }
        r
    }
}

/// The first components of the entries of `s` whose value is `Some` of a
/// string with view `id`.
pub open spec fn children_of(s: Seq<(String, Option<String>)>, id: Seq<char>) -> Seq<String>
    decreases s.len(),
{
    if s.len() == 0 {
        Seq::empty()
    } else {
        let prev = children_of(s.drop_last(), id);
        match s.last().1 {
            Option::Some(p) => if p@ == id {
                prev.push(s.last().0)
            } else {
                prev
            },
            Option::None => prev,
        }
    }
}

/// How many probes one batch takes off the front of queue `q`: all of them,
/// capped at [`BATCH_SIZE`].
pub open spec fn batch_take_len(q: Seq<ContentProbe>) -> int {
    if q.len() < BATCH_SIZE {
        q.len() as int
    } else {
        BATCH_SIZE as int
    }
}

/// The probes of `q` whose depth is below [`MAX_DEPTH`], in order.
pub open spec fn eligible_probes(q: Seq<ContentProbe>) -> Seq<ContentProbe> {
    q.filter(|p: ContentProbe| p.depth < MAX_DEPTH)
}

/// One step of `eligible_probes`: appending a probe appends it to the
/// filtered sequence exactly when its depth is below the cutoff.
pub proof fn lemma_eligible_push(s: Seq<ContentProbe>, x: ContentProbe)
    ensures
        eligible_probes(s.push(x)) == if x.depth < MAX_DEPTH {
            eligible_probes(s).push(x)
        } else {
            eligible_probes(s)
        },
{
    reveal(Seq::filter);
    assert(s.push(x).drop_last() =~= s);
    assert(s.push(x).last() == x);
}

/// A probe at or beyond the depth cutoff is never part of a batch, so it
/// contributes records to none.
pub proof fn lemma_depth_cutoff(q: Seq<ContentProbe>, p: ContentProbe)
    requires
        p.depth >= MAX_DEPTH,
    ensures
        !eligible_probes(q).contains(p),
    decreases q.len(),
{
    reveal(Seq::filter);
    if q.len() > 0 {
        lemma_depth_cutoff(q.drop_last(), p);
        if eligible_probes(q).contains(p) {
            let i = choose|i: int|
                0 <= i < eligible_probes(q).len() && eligible_probes(q)[i] == p;
            let prev = eligible_probes(q.drop_last());
            if q.last().depth < MAX_DEPTH && i == prev.len() {
                assert(p == q.last());
            } else {
                assert(prev.contains(p));
            }
        }
    }
}

/// The empty sequence has no eligible probes.
pub proof fn lemma_eligible_empty()
    ensures
        eligible_probes(Seq::<ContentProbe>::empty()) == Seq::<ContentProbe>::empty(),
{
    reveal(Seq::filter);
}

impl CourseContentStream {
    /// Take the next batch off the front of the queue: up to [`BATCH_SIZE`]
    /// probes are removed, and those at or beyond [`MAX_DEPTH`] are dropped
    /// for good — they are returned by neither this call nor any later one.
    /// All remaining probes of the batch are returned at once, before any
    /// fetch outcome is reported back.
    pub fn begin_batch(&mut self) -> (batch: Vec<ContentProbe>)
        requires
            old(self).wf(),
        ensures
            final(self).wf(),
            final(self).spec_course_id() == old(self).spec_course_id(),
            final(self).visited() == old(self).visited(),
            final(self).parent_entries() == old(self).parent_entries(),
            final(self).depth_entries() == old(self).depth_entries(),
            final(self).queue() == old(self).queue().skip(batch_take_len(old(self).queue())),
            batch@ == eligible_probes(old(self).queue().take(batch_take_len(old(self).queue()))),
    {
        let ghost q0 = self.probe_queue@;
        let mut batch: Vec<ContentProbe> = Vec::new();
        let mut n: usize = 0;
        let mut done = false;
        proof {
            assert(q0.take(0) =~= Seq::<ContentProbe>::empty());
            lemma_eligible_empty();
        }
        while n < self.batch_size && !done
            invariant
                self.batch_size == BATCH_SIZE,
                0 <= n <= BATCH_SIZE,
                n <= q0.len(),
                done ==> n == q0.len(),
                self.probe_queue@ == q0.skip(n as int),
                batch@ == eligible_probes(q0.take(n as int)),
                self.visited_ids@ == old(self).visited_ids@,
                self.parents@ == old(self).parents@,
                self.depths@ == old(self).depths@,
                self.course_id == old(self).course_id,
            decreases BATCH_SIZE - n + (if done {
                0int
            } else {
                1int
            }),
        {
            match self.probe_queue.pop_front() {
                Some(p) => {
                    proof {
                        assert(q0.skip(n as int)[0] == q0[n as int]);
                        assert(p == q0[n as int]);
                        assert(q0.skip(n as int).subrange(1, q0.skip(n as int).len() as int)
                            =~= q0.skip(n + 1));
                        assert(q0.take(n + 1).drop_last() =~= q0.take(n as int));
                        assert(q0.take(n + 1) =~= q0.take(n as int).push(q0[n as int]));
                        lemma_eligible_push(q0.take(n as int), q0[n as int]);
                    }
                    if p.depth < MAX_DEPTH {
                        batch.push(p);
                    }
                    n += 1;
                },
                None => {
                    proof {
                        assert(q0.skip(n as int).len() == 0);
                    }
                    done = true;
                },
            }
        }
        proof {
            assert(n == batch_take_len(q0));
            let s = &*self;
            assert forall|i: int, j: int|
                0 <= i < j < s.probe_queue@.len() implies s.probe_queue@[i].id@
                != s.probe_queue@[j].id@ by {
                assert(s.probe_queue@[i] == q0[n + i]);
                assert(s.probe_queue@[j] == q0[n + j]);
            }
            assert forall|i: int| 0 <= i < s.probe_queue@.len() implies contains_view(
                s.visited_ids@,
                #[trigger] s.probe_queue@[i].id@,
            ) by {
                assert(s.probe_queue@[i] == q0[n + i]);
            }
        }
        batch
    }
}

/// The bookkeeping state of a frontier, as plain mathematical sequences.
pub ghost struct FrontierModel {
    pub visited: Seq<String>,
    pub queue: Seq<ContentProbe>,
    pub parents: Seq<(String, Option<String>)>,
    pub depths: Seq<(String, usize)>,
}

/// Structural invariant of a frontier model; see
/// [`CourseContentStream::wf`].
pub open spec fn model_wf(m: FrontierModel) -> bool {
    &&& distinct_views(m.visited)
    &&& distinct_probe_ids(m.queue)
    &&& forall|i: int|
        0 <= i < m.queue.len() ==> contains_view(m.visited, #[trigger] m.queue[i].id@)
    &&& distinct_keys(m.parents)
    &&& distinct_keys(m.depths)
}

/// The child probe seeded by folder record `rec`, discovered while serving
/// `probe`: it points at the record itself, names the record as its parent,
/// inherits the record's depth and stays in the probe's section.
pub open spec fn spec_child_probe(rec: CourseContentData, probe: ContentProbe) -> ContentProbe {
    ContentProbe {
        parent_id: Option::Some(rec.id),
        parent_title: Option::Some(rec.title),
        depth: rec.depth,
        id: rec.id,
        section_name: probe.section_name,
    }
}

/// Absorbing one record into the frontier state: its parent becomes the
/// served probe, its depth is recorded, and — if it is a folder with a link
/// whose id was never enqueued — a child probe joins the back of the queue.
pub open spec fn spec_absorb_one(
    m: FrontierModel,
    probe: ContentProbe,
    rec: CourseContentData,
) -> FrontierModel {
    let parents = upsert(m.parents, rec.id, Option::Some(probe.id));
    let depths = upsert(m.depths, rec.id, rec.depth);
    if rec.spec_spawns_probe() && !contains_view(m.visited, rec.id@) {
        FrontierModel {
            visited: m.visited.push(rec.id),
            queue: m.queue.push(spec_child_probe(rec, probe)),
            parents,
            depths,
        }
    } else {
        FrontierModel { visited: m.visited, queue: m.queue, parents, depths }
    }
}

/// Absorbing a whole page of records, in order.
pub open spec fn spec_absorb(
    m: FrontierModel,
    probe: ContentProbe,
    recs: Seq<CourseContentData>,
) -> FrontierModel
    decreases recs.len(),
{
    if recs.len() == 0 {
        m
    } else {
        spec_absorb_one(spec_absorb(m, probe, recs.drop_last()), probe, recs.last())
    }
}

/// The id views of a record sequence.
pub open spec fn rec_id_views(recs: Seq<CourseContentData>) -> Seq<Seq<char>> {
    recs.map_values(|r: CourseContentData| r.id@)
}

/// Absorbing one record preserves the invariant; the queue and the visited
/// ids grow together, by at most one entry whose id is the record's.
pub proof fn lemma_absorb_one_wf(m: FrontierModel, probe: ContentProbe, rec: CourseContentData)
    requires
        model_wf(m),
    ensures
        model_wf(spec_absorb_one(m, probe, rec)),
        spec_absorb_one(m, probe, rec).queue.len() - m.queue.len() == spec_absorb_one(
            m,
            probe,
            rec,
        ).visited.len() - m.visited.len(),
        m.visited.is_prefix_of(spec_absorb_one(m, probe, rec).visited),
        m.queue.is_prefix_of(spec_absorb_one(m, probe, rec).queue),
        spec_absorb_one(m, probe, rec).visited.len() <= m.visited.len() + 1,
        forall|j: int|
            m.visited.len() <= j < spec_absorb_one(m, probe, rec).visited.len() ==> spec_absorb_one(
                m,
                probe,
                rec,
            ).visited[j]@ == rec.id@,
{
    lemma_upsert(m.parents, rec.id, Option::Some(probe.id));
    lemma_upsert(m.depths, rec.id, rec.depth);
    let m2 = spec_absorb_one(m, probe, rec);
    if rec.spec_spawns_probe() && !contains_view(m.visited, rec.id@) {
        assert(distinct_views(m2.visited)) by {
            assert forall|i: int, j: int| 0 <= i < j < m2.visited.len() implies m2.visited[i]@
                != m2.visited[j]@ by {
                if j == m.visited.len() {
                    assert(m2.visited[j]@ == rec.id@);
                    if m2.visited[i]@ == rec.id@ {
                        assert(contains_view(m.visited, rec.id@));
                    }
                }
            }
        }
        assert(distinct_probe_ids(m2.queue)) by {
            assert forall|i: int, j: int| 0 <= i < j < m2.queue.len() implies m2.queue[i].id@
                != m2.queue[j].id@ by {
                if j == m.queue.len() {
                    assert(m2.queue[j].id@ == rec.id@);
                    if m2.queue[i].id@ == rec.id@ {
                        assert(contains_view(m.visited, m.queue[i].id@));
                    }
                }
            }
        }
        assert forall|i: int| 0 <= i < m2.queue.len() implies contains_view(
            m2.visited,
            #[trigger] m2.queue[i].id@,
        ) by {
            if i < m.queue.len() {
                let w = choose|w: int| 0 <= w < m.visited.len() && m.visited[w]@ == m.queue[i].id@;
                assert(m2.visited[w]@ == m2.queue[i].id@);
            } else {
                assert(m2.visited[m.visited.len() as int]@ == rec.id@);
            }
        }
    } else {
        assert forall|i: int| 0 <= i < m2.queue.len() implies contains_view(
            m2.visited,
            #[trigger] m2.queue[i].id@,
        ) by {
            assert(contains_view(m.visited, m.queue[i].id@));
        }
    }
}

/// Absorbing a page preserves the invariant; the queue and the visited ids
/// grow by the same number of entries, every new visited id is the id of
/// one of the absorbed records, and the earlier state is kept as a prefix.
pub proof fn lemma_absorb_wf(m: FrontierModel, probe: ContentProbe, recs: Seq<CourseContentData>)
    requires
        model_wf(m),
    ensures
        model_wf(spec_absorb(m, probe, recs)),
        spec_absorb(m, probe, recs).queue.len() - m.queue.len() == spec_absorb(
            m,
            probe,
            recs,
        ).visited.len() - m.visited.len(),
        m.visited.is_prefix_of(spec_absorb(m, probe, recs).visited),
        m.queue.is_prefix_of(spec_absorb(m, probe, recs).queue),
        forall|j: int|
            m.visited.len() <= j < spec_absorb(m, probe, recs).visited.len()
                ==> rec_id_views(recs).contains(spec_absorb(m, probe, recs).visited[j]@),
    decreases recs.len(),
{
    if recs.len() > 0 {
        lemma_absorb_wf(m, probe, recs.drop_last());
        let m1 = spec_absorb(m, probe, recs.drop_last());
        lemma_absorb_one_wf(m1, probe, recs.last());
        let m2 = spec_absorb(m, probe, recs);
        assert forall|j: int| m.visited.len() <= j < m2.visited.len() implies rec_id_views(
            recs,
        ).contains(m2.visited[j]@) by {
            if j < m1.visited.len() {
                assert(m1.visited[j] == m2.visited[j]);
                assert(rec_id_views(recs.drop_last()).contains(m1.visited[j]@));
                let w = choose|w: int|
                    0 <= w < rec_id_views(recs.drop_last()).len() && rec_id_views(
                        recs.drop_last(),
                    )[w] == m1.visited[j]@;
                assert(rec_id_views(recs)[w] == m1.visited[j]@);
            } else {
                assert(m2.visited[j]@ == recs.last().id@);
                assert(rec_id_views(recs)[recs.len() - 1] == recs.last().id@);
            }
        }
    }
}

/// Replace the first binding whose key has `key`'s view, or append one.
fn upsert_assoc<V>(v: &mut Vec<(String, V)>, key: String, val: V)
    ensures
        final(v)@ == upsert(old(v)@, key, val),
{
    let mut i: usize = 0;
    while i < v.len()
        invariant
            v@ == old(v)@,
            0 <= i <= v@.len(),
            forall|j: int| 0 <= j < i ==> v@[j].0@ != key@,
        decreases v@.len() - i,
    {
        if str_eq(v[i].0.as_str(), key.as_str()) {
            proof {
                lemma_find_key(old(v)@, key@);
                match find_key(old(v)@, key@) {
                    Option::Some(m) => {
                        assert(!(m < i) && !(i < m));
                    },
                    Option::None => {
                        assert(old(v)@[i as int].0@ == key@);
                    },
                }
            }
            v.set(i, (key, val));
            return;
        }
        i += 1;
    }
    proof {
        lemma_find_key(old(v)@, key@);
    }
    v.push((key, val));
}

impl CourseContentStream {
    /// The bookkeeping state as one ghost value.
    pub open spec fn model(&self) -> FrontierModel {
        FrontierModel {
            visited: self.visited(),
            queue: self.queue(),
            parents: self.parent_entries(),
            depths: self.depth_entries(),
        }
    }

    /// Absorb the records extracted from the page of `probe`, a page fetch
    /// that succeeded.  Every record is returned in the batch, in order;
    /// parent and depth bookkeeping and the spawning of child probes follow
    /// [`spec_absorb`].
    pub fn record_page_success(
        &mut self,
        probe: &ContentProbe,
        records: Vec<CourseContentData>,
    ) -> (batch: Vec<CourseContentData>)
        requires
            old(self).wf(),
        ensures
            final(self).wf(),
            final(self).spec_course_id() == old(self).spec_course_id(),
            batch@ == records@,
            final(self).model() == spec_absorb(old(self).model(), *probe, records@),
    {
        let ghost r0 = records@;
        let ghost m0 = self.model();
        let total = records.len();
        let mut records = records;
        let mut batch: Vec<CourseContentData> = Vec::new();
        let mut i: usize = 0;
        proof {
            assert(r0.take(0) =~= Seq::<CourseContentData>::empty());
        }
        while records.len() > 0
            invariant
                r0.len() == total,
                0 <= i <= r0.len(),
                records@ == r0.skip(i as int),
                batch@ == r0.take(i as int),
                self.model() == spec_absorb(m0, *probe, r0.take(i as int)),
                self.batch_size == old(self).batch_size,
                self.course_id == old(self).course_id,
            decreases records@.len(),
        {
            let rec = records.remove(0);
            proof {
                assert(rec == r0[i as int]);
                assert(records@ =~= r0.skip(i + 1));
                assert(r0.take(i + 1).drop_last() =~= r0.take(i as int));
                assert(r0.take(i + 1).last() == r0[i as int]);
            }
            upsert_assoc(&mut self.parents, rec.id.clone(), Some(probe.id.clone()));
            upsert_assoc(&mut self.depths, rec.id.clone(), rec.depth);
            if rec.spawns_probe() && !contains_id(&self.visited_ids, rec.id.as_str()) {
                let child = ContentProbe {
                    parent_id: Some(rec.id.clone()),
                    parent_title: Some(rec.title.clone()),
                    depth: rec.depth,
                    id: rec.id.clone(),
                    section_name: crate::content::clone_opt_string(&probe.section_name),
                };
                proof {
                    assert(child == spec_child_probe(rec, *probe));
                }
                self.visited_ids.push(rec.id.clone());
                self.probe_queue.push_back(child);
            }
            batch.push(rec);
            proof {
                assert(batch@ =~= r0.take(i + 1));
            }
            i += 1;
        }
        proof {
            assert(r0.skip(i as int).len() == 0);
            assert(r0.take(i as int) =~= r0);
            lemma_absorb_wf(m0, *probe, r0);
        }
        batch
    }

    /// Requeue a probe whose page fetch failed: it goes to the back of the
    /// queue, unchanged, to be retried in a later batch.  If a probe with
    /// the same id is already queued the frontier is left as it is, and the
    /// probe's id is entered among the visited ids if it was missing.
    pub fn record_page_failure(&mut self, probe: ContentProbe)
        requires
            old(self).wf(),
        ensures
            final(self).wf(),
            final(self).spec_course_id() == old(self).spec_course_id(),
            final(self).parent_entries() == old(self).parent_entries(),
            final(self).depth_entries() == old(self).depth_entries(),
            contains_probe_id(old(self).queue(), probe.id@) ==> final(self).queue() == old(
                self,
            ).queue() && final(self).visited() == old(self).visited(),
            !contains_probe_id(old(self).queue(), probe.id@) ==> final(self).queue() == old(
                self,
            ).queue().push(probe) && final(self).visited() == if contains_view(
                old(self).visited(),
                probe.id@,
            ) {
                old(self).visited()
            } else {
                old(self).visited().push(probe.id)
            },
    {
        let n = self.probe_queue.len();
        let mut i: usize = 0;
        while i < n
            invariant
                old(self).wf(),
                0 <= i <= n,
                n == self.probe_queue@.len(),
                forall|j: int| 0 <= j < i ==> self.probe_queue@[j].id@ != probe.id@,
                self.batch_size == old(self).batch_size,
                self.course_id == old(self).course_id,
                self.visited_ids@ == old(self).visited_ids@,
                self.probe_queue@ == old(self).probe_queue@,
                self.parents@ == old(self).parents@,
                self.depths@ == old(self).depths@,
            decreases n - i,
        {
            if str_eq(self.probe_queue[i].id.as_str(), probe.id.as_str()) {
                proof {
                    assert(self.probe_queue@[i as int].id@ == probe.id@);
                    assert(contains_probe_id(old(self).queue(), probe.id@));
                }
                return ;
            }
            i += 1;
        }
        assert(!contains_probe_id(self.probe_queue@, probe.id@));
        if !contains_id(&self.visited_ids, probe.id.as_str()) {
            self.visited_ids.push(probe.id.clone());
            proof {
                assert(self.visited_ids@.last()@ == probe.id@);
                assert(contains_view(self.visited_ids@, probe.id@));
            }
        }
        proof {
            let s = &*self;
            assert forall|j: int| 0 <= j < s.probe_queue@.len() implies contains_view(
                s.visited_ids@,
                #[trigger] s.probe_queue@[j].id@,
            ) by {
                assert(contains_view(old(self).visited_ids@, old(self).probe_queue@[j].id@));
                let w = choose|w: int|
                    0 <= w < old(self).visited_ids@.len() && old(self).visited_ids@[w]@
                        == old(self).probe_queue@[j].id@;
                assert(s.visited_ids@[w]@ == s.probe_queue@[j].id@);
            }
            assert(contains_view(self.visited_ids@, probe.id@));
        }
        self.probe_queue.push_back(probe);
    }
}

/// The id views of every record of every page, front to back.
pub open spec fn flatten_page_ids(pages: Seq<(String, Vec<CourseContentData>)>) -> Seq<Seq<char>>
    decreases pages.len(),
{
    if pages.len() == 0 {
        Seq::empty()
    } else {
        flatten_page_ids(pages.drop_last()) + rec_id_views(pages.last().1@)
    }
}

/// Every record id of every page occurs in `flatten_page_ids`.
pub proof fn lemma_flatten_contains(
    pages: Seq<(String, Vec<CourseContentData>)>,
    i: int,
    j: int,
)
    requires
        0 <= i < pages.len(),
        0 <= j < pages[i].1@.len(),
    ensures
        flatten_page_ids(pages).contains(pages[i].1@[j].id@),
    decreases pages.len(),
{
    let prev = flatten_page_ids(pages.drop_last());
    let tail = rec_id_views(pages.last().1@);
    if i == pages.len() - 1 {
        assert(tail[j] == pages[i].1@[j].id@);
        assert((prev + tail)[prev.len() + j] == pages[i].1@[j].id@);
    } else {
        lemma_flatten_contains(pages.drop_last(), i, j);
        let w = choose|w: int|
            0 <= w < prev.len() && prev[w] == pages.drop_last()[i].1@[j].id@;
        assert((prev + tail)[w] == pages[i].1@[j].id@);
    }
}

/// All ids a crawl of `seeds` against `pages` can ever enqueue: the seed ids
/// and every record id of every page.
pub open spec fn crawl_universe(
    seeds: Seq<ContentProbe>,
    pages: Seq<(String, Vec<CourseContentData>)>,
) -> Set<Seq<char>> {
    (probe_id_views(seeds) + flatten_page_ids(pages)).to_set()
}

/// A copy of a record vector: same length, each record a field-wise copy.
pub fn clone_records(v: &Vec<CourseContentData>) -> (r: Vec<CourseContentData>)
    ensures
        r@.len() == v@.len(),
        forall|i: int| 0 <= i < v@.len() ==> #[trigger] r@[i].is_copy_of(&v@[i]),
{
    let mut r: Vec<CourseContentData> = Vec::new();
    let mut i: usize = 0;
    while i < v.len()
        invariant
            0 <= i <= v@.len(),
            r@.len() == i,
            forall|j: int| 0 <= j < i ==> #[trigger] r@[j].is_copy_of(&v@[j]),
        decreases v@.len() - i,
    {
        r.push(v[i].clone());
        i += 1;
    }
    r
}

/// The records of the page stored under `id`: a field-wise copy of the
/// record vector of the first page entry carrying that id, or nothing
/// when no entry does.  Every returned record id occurs among the page
/// record ids.
pub fn lookup_page_records(
    pages: &Vec<(String, Vec<CourseContentData>)>,
    id: &str,
) -> (r: Vec<CourseContentData>)
    ensures
        match lookup(pages@, id@) {
            Option::Some(page) => r@.len() == page@.len() && forall|j: int|
                0 <= j < r@.len() ==> #[trigger] r@[j].is_copy_of(&page@[j]),
            Option::None => r@.len() == 0,
        },
        forall|j: int|
            0 <= j < r@.len() ==> flatten_page_ids(pages@).contains(#[trigger] r@[j].id@),
{
    let mut i: usize = 0;
    while i < pages.len()
        invariant
            0 <= i <= pages@.len(),
            forall|j: int| 0 <= j < i ==> pages@[j].0@ != id@,
        decreases pages@.len() - i,
    {
        if str_eq(pages[i].0.as_str(), id) {
            proof {
                lemma_find_key(pages@, id@);
                match find_key(pages@, id@) {
                    Option::Some(m) => {
                        assert(!(m < i) && !(i < m));
                    },
                    Option::None => {
                        assert(pages@[i as int].0@ == id@);
                    },
                }
            }
            let r = clone_records(&pages[i].1);
            proof {
                assert forall|j: int| 0 <= j < r@.len() implies flatten_page_ids(
                    pages@,
                ).contains(#[trigger] r@[j].id@) by {
                    lemma_flatten_contains(pages@, i as int, j);
                    assert(r@[j].is_copy_of(&pages@[i as int].1@[j]));
                    assert(r@[j].id@ == pages@[i as int].1@[j].id@);
                }
            }
            return r;
        }
        i += 1;
    }
    proof {
        lemma_find_key(pages@, id@);
    }
    Vec::new()
}

/// Whether `rec` is a field-wise copy of some record stored in `pages`.
pub open spec fn record_from_pages(
    rec: CourseContentData,
    pages: Seq<(String, Vec<CourseContentData>)>,
) -> bool {
    exists|i: int, j: int|
        0 <= i < pages.len() && 0 <= j < pages[i].1@.len() && rec.is_copy_of(&pages[i].1@[j])
}

/// Whether some record of `out` carries id view `id`.
pub open spec fn out_covers(out: Seq<CourseContentData>, id: Seq<char>) -> bool {
    exists|k: int| 0 <= k < out.len() && out[k].id@ == id
}

/// Crawl a whole finite content graph to exhaustion, with no fetch
/// failures: repeated batches are formed and absorbed until the queue is
/// empty.  The `pages` argument stands for the extractor's output per page
/// id; an id without a page yields no records.  Every returned record is a
/// copy of a record stored in `pages`, and every id the crawl discovered
/// beyond the seeds appears among the returned records.
///
/// Termination is machine-checked: the measure is the number of universe
/// ids not yet visited plus the queue length.  Every batch removes at least
/// one probe from the queue, and every enqueued child probe carries a fresh
/// record id, so the measure strictly decreases with each batch.
pub fn crawl_all(
    course_id: String,
    seeds: Vec<ContentProbe>,
    pages: &Vec<(String, Vec<CourseContentData>)>,
) -> (r: (Vec<CourseContentData>, CourseContentStream))
    ensures
        r.1.wf(),
        r.1.queue().len() == 0,
        forall|k: int| 0 <= k < r.0@.len() ==> record_from_pages(#[trigger] r.0@[k], pages@),
        forall|j: int|
            0 <= j < r.1.visited().len() && !contains_probe_id(
                seeds@,
                (#[trigger] r.1.visited()[j])@,
            ) ==> out_covers(r.0@, r.1.visited()[j]@),
{
    let ghost seeds0 = seeds@;
    let ghost u = crawl_universe(seeds@, pages@);
    let mut stream = CourseContentStream::new(course_id, seeds);
    let ghost v_init = stream.visited();
    let ghost d0 = v_init.len() as int;
    let mut out: Vec<CourseContentData> = Vec::new();
    proof {
        broadcast use vstd::seq_lib::seq_to_set_is_finite;

        let all = probe_id_views(seeds0) + flatten_page_ids(pages@);
        assert(u.finite());
        lemma_dedup_probes(seeds0);
        assert forall|j: int| 0 <= j < stream.visited().len() implies u.contains(
            #[trigger] stream.visited()[j]@,
        ) by {
            let ded = dedup_probes(seeds0);
            assert(stream.visited()[j] == ded[j].id);
            assert(contains_probe_id(ded, ded[j].id@));
            assert(contains_probe_id(seeds0, ded[j].id@));
            let w = choose|w: int| 0 <= w < seeds0.len() && seeds0[w].id@ == ded[j].id@;
            assert(all[w] == ded[j].id@);
            assert(all.contains(ded[j].id@));
        }
    }
    while stream.queue_len() > 0
        invariant
            stream.wf(),
            u == crawl_universe(seeds0, pages@),
            u.finite(),
            forall|j: int|
                0 <= j < stream.visited().len() ==> u.contains(#[trigger] stream.visited()[j]@),
            stream.visited().len() >= d0,
            d0 == v_init.len(),
            forall|j: int| 0 <= j < d0 ==> stream.visited()[j] == v_init[j],
            forall|k: int| 0 <= k < out@.len() ==> record_from_pages(#[trigger] out@[k], pages@),
            forall|j: int|
                d0 <= j < stream.visited().len() ==> out_covers(
                    out@,
                    (#[trigger] stream.visited()[j])@,
                ),
        decreases u.len() - stream.visited().len() + stream.queue().len(),
    {
        let ghost v_old = stream.visited();
        let ghost q_old = stream.queue();
        proof {
            stream.lemma_visited_bounded_by(u);
        }
        let batch = stream.begin_batch();
        let ghost q1_len = stream.queue().len();
        let mut bi: usize = 0;
        while bi < batch.len()
            invariant
                stream.wf(),
                u == crawl_universe(seeds0, pages@),
                u.finite(),
                forall|j: int|
                    0 <= j < stream.visited().len() ==> u.contains(
                        #[trigger] stream.visited()[j]@,
                    ),
                0 <= bi <= batch@.len(),
                stream.queue().len() - stream.visited().len() == q1_len - v_old.len(),
                stream.visited().len() >= d0,
                d0 == v_init.len(),
                forall|j: int| 0 <= j < d0 ==> stream.visited()[j] == v_init[j],
                forall|k: int|
                    0 <= k < out@.len() ==> record_from_pages(#[trigger] out@[k], pages@),
                forall|j: int|
                    d0 <= j < stream.visited().len() ==> out_covers(
                        out@,
                        (#[trigger] stream.visited()[j])@,
                    ),
            decreases batch@.len() - bi,
        {
            let probe = batch[bi].clone();
            let recs = lookup_page_records(pages, probe.id.as_str());
            let ghost m_before = stream.model();
            let emitted = stream.record_page_success(&probe, recs);
            proof {
                lemma_absorb_wf(m_before, probe, emitted@);
                let m_after = stream.model();
                assert forall|j: int| 0 <= j < stream.visited().len() implies u.contains(
                    #[trigger] stream.visited()[j]@,
                ) by {
                    if j >= m_before.visited.len() {
                        assert(rec_id_views(emitted@).contains(m_after.visited[j]@));
                        let w = choose|w: int|
                            0 <= w < emitted@.len() && rec_id_views(emitted@)[w]
                                == m_after.visited[j]@;
                        assert(flatten_page_ids(pages@).contains(emitted@[w].id@));
                        let all = probe_id_views(seeds0) + flatten_page_ids(pages@);
                        let y = choose|y: int|
                            0 <= y < flatten_page_ids(pages@).len() && flatten_page_ids(
                                pages@,
                            )[y] == emitted@[w].id@;
                        assert(all[probe_id_views(seeds0).len() + y] == emitted@[w].id@);
                        assert(all.contains(m_after.visited[j]@));
                    } else {
                        assert(m_after.visited[j] == m_before.visited[j]);
                    }
                }
                assert forall|k: int| 0 <= k < emitted@.len() implies record_from_pages(
                    #[trigger] emitted@[k],
                    pages@,
                ) by {
                    lemma_find_key(pages@, probe.id@);
                    match find_key(pages@, probe.id@) {
                        Option::Some(m) => {
                            assert(lookup(pages@, probe.id@) == Option::Some(pages@[m].1));
                            assert(emitted@[k].is_copy_of(&pages@[m].1@[k]));
                        },
                        Option::None => {
                            assert(lookup(pages@, probe.id@) is None);
                            assert(emitted@.len() == 0);
                        },
                    }
                }
            }
            let mut emitted_vec = emitted;
            let ghost out_pre = out@;
            let ghost em = emitted_vec@;
            out.append(&mut emitted_vec);
            proof {
                assert(out@ == out_pre + em);
                let m_after = stream.model();
                assert forall|k: int| 0 <= k < out@.len() implies record_from_pages(
                    #[trigger] out@[k],
                    pages@,
                ) by {
                    if k < out_pre.len() {
                        assert(out@[k] == out_pre[k]);
                        assert(record_from_pages(out_pre[k], pages@));
                    } else {
                        assert(out@[k] == em[k - out_pre.len()]);
                        assert(record_from_pages(em[k - out_pre.len()], pages@));
                    }
                }
                assert forall|j: int|
                    d0 <= j < stream.visited().len() implies out_covers(
                    out@,
                    (#[trigger] stream.visited()[j])@,
                ) by {
                    if j < m_before.visited.len() {
                        assert(m_before.visited.is_prefix_of(m_after.visited));
                        assert(m_before.visited[j] == m_after.visited.subrange(
                            0,
                            m_before.visited.len() as int,
                        )[j]);
                        assert(stream.visited()[j] == m_before.visited[j]);
                        assert(out_covers(out_pre, m_before.visited[j]@));
                        let k = choose|k: int|
                            0 <= k < out_pre.len() && out_pre[k].id@ == m_before.visited[j]@;
                        assert(out@[k] == out_pre[k]);
                        assert(out_covers(out@, stream.visited()[j]@));
                    } else {
                        assert(rec_id_views(em).contains(m_after.visited[j]@));
                        let w = choose|w: int|
                            0 <= w < em.len() && rec_id_views(em)[w] == m_after.visited[j]@;
                        assert(em[w].id@ == m_after.visited[j]@);
                        assert(out@[out_pre.len() + w] == em[w]);
                        assert(out_covers(out@, stream.visited()[j]@));
                    }
                }
                assert forall|j: int| 0 <= j < d0 implies stream.visited()[j]
                    == v_init[j] by {
                    assert(m_before.visited.is_prefix_of(m_after.visited));
                    assert(m_before.visited[j] == m_after.visited.subrange(
                        0,
                        m_before.visited.len() as int,
                    )[j]);
                }
            }
            bi += 1;
        }
        proof {
            stream.lemma_visited_bounded_by(u);
            assert(batch_take_len(q_old) >= 1);
        }
    }
    proof {
        lemma_dedup_probes(seeds0);
        assert forall|j: int|
            0 <= j < stream.visited().len() && !contains_probe_id(
                seeds0,
                (#[trigger] stream.visited()[j])@,
            ) implies out_covers(out@, stream.visited()[j]@) by {
            if j < d0 {
                let ded = dedup_probes(seeds0);
                assert(v_init[j] == ded[j].id);
                assert(stream.visited()[j] == v_init[j]);
                assert(contains_probe_id(ded, stream.visited()[j]@));
                assert(contains_probe_id(seeds0, stream.visited()[j]@));
            }
        }
    }
    (out, stream)
}

impl CourseContentStream {
    /// With every visited id inside the finite set `u`, there are at most
    /// `u.len()` visited ids.
    pub proof fn lemma_visited_bounded_by(&self, u: Set<Seq<char>>)
        requires
            self.wf(),
            u.finite(),
            forall|j: int|
                0 <= j < self.visited().len() ==> u.contains(#[trigger] self.visited()[j]@),
        ensures
            self.visited().len() <= u.len(),
    {
        let vv = str_views(self.visited());
        assert(vv.no_duplicates()) by {
            assert forall|i: int, j: int|
                0 <= i < vv.len() && 0 <= j < vv.len() && i != j implies vv[i] != vv[j] by {}
        }
        vv.unique_seq_to_set();
        assert(vv.to_set().subset_of(u)) by {
            assert forall|x: Seq<char>| vv.to_set().contains(x) implies u.contains(x) by {
                let i = choose|i: int| 0 <= i < vv.len() && vv[i] == x;
                assert(u.contains(self.visited()[i]@));
            }
        }
        lemma_len_subset(vv.to_set(), u);
    }
}

/// Membership of a string view in a vector of ids.
pub fn contains_id(v: &Vec<String>, id: &str) -> (r: bool)
    ensures
        r == contains_view(v@, id@),
{
    let mut i: usize = 0;
    while i < v.len()
        invariant
            0 <= i <= v@.len(),
            forall|j: int| 0 <= j < i ==> v@[j]@ != id@,
        decreases v@.len() - i,
    {
        if str_eq(v[i].as_str(), id) {
            return true;
        }
        i += 1;
    }
    false
}

} // verus!
