//! Courses and their navigation entries: client configuration, course
//! metadata, and the seeding of the content discovery frontier from the
//! navigation entries of a course page.

use vstd::prelude::*;

verus! {

use vstd::string::StrSliceExecFns;
use crate::content::ContentProbe;
use crate::frontier::{dedup_probes, contains_probe_id, CourseContentStream};
use crate::handles::CourseContent;
use crate::playlist::opt_view;
use crate::qs::{query_pairs_of, spec_values_for, Query};
use crate::text::{
    find_char, rfind_char, spec_ends_with, spec_find_char, spec_rfind_char, spec_starts_with,
    spec_trim, str_ends_with, to_string, trim,
};

/// Client configuration: how long cached pages and downloaded artifacts
/// stay fresh, in seconds.  The transport itself lives outside this crate.
#[derive(Debug)]
pub struct Client {
    cache_ttl: Option<u64>,
    download_artifact_ttl: Option<u64>,
}

impl Client {
    /// A client with the given cache lifetimes, in seconds.
    pub fn new(cache_ttl: Option<u64>, download_artifact_ttl: Option<u64>) -> (r: Self)
        ensures
            r.spec_cache_ttl() == cache_ttl,
            r.spec_download_artifact_ttl() == download_artifact_ttl,
    {
        Client { cache_ttl, download_artifact_ttl }
    }

    /// A client that caches nothing.
    pub fn new_nocache() -> (r: Self)
        ensures
            r.spec_cache_ttl() is None,
            r.spec_download_artifact_ttl() is None,
    {
        Client::new(None, None)
    }

    /// The page cache lifetime, in seconds.
    pub closed spec fn spec_cache_ttl(&self) -> Option<u64> {
        self.cache_ttl
    }

    /// The artifact cache lifetime, in seconds.
    pub closed spec fn spec_download_artifact_ttl(&self) -> Option<u64> {
        self.download_artifact_ttl
    }

    /// The page cache lifetime, in seconds.
    pub fn cache_ttl(&self) -> (r: Option<u64>)
        ensures
            r == self.spec_cache_ttl(),
    {
        self.cache_ttl
    }

    /// The artifact cache lifetime, in seconds.
    pub fn download_artifact_ttl(&self) -> (r: Option<u64>)
        ensures
            r == self.spec_download_artifact_ttl(),
    {
        self.download_artifact_ttl
    }
}

impl Clone for Client {
    /// An equal copy of the configuration.
    fn clone(&self) -> (r: Self)
        ensures
            r == *self,
    {
        Client { cache_ttl: self.cache_ttl, download_artifact_ttl: self.download_artifact_ttl }
    }
}

impl Default for Client {
    /// The default lifetimes: one hour for pages, one day for artifacts.
    fn default() -> (r: Self)
        ensures
            r.spec_cache_ttl() == Option::Some(3600u64),
            r.spec_download_artifact_ttl() == Option::Some(86400u64),
    {
        Client::new(Some(3600), Some(86400))
    }
}

/// An authenticated session root; the login flow that produces it lives
/// outside this crate.
#[derive(Debug)]
pub struct Blackboard {
    pub client: Client,
}

impl Blackboard {
    /// The session's client configuration.
    pub fn client(&self) -> (r: Client)
        ensures
            r == self.client,
    {
        self.client.clone()
    }
}

/// Course metadata: the portal id, the raw listing title, and whether the
/// course belongs to the current term.
#[derive(Debug)]
pub struct CourseMeta {
    pub id: String,
    pub long_title: String,
    pub is_current: bool,
}

/// The course title within a raw listing title: everything after the
/// first colon, trimmed.
pub open spec fn spec_course_title(long_title: Seq<char>) -> Seq<char> {
    match spec_find_char(long_title, ':') {
        Option::Some(i) => if 0 <= i < long_title.len() {
            spec_trim(long_title.skip(i + 1))
        } else {
            long_title
        },
        Option::None => long_title,
    }
}

/// The course name within a raw listing title: the title up to its last
/// opening parenthesis, trimmed.
pub open spec fn spec_course_name(long_title: Seq<char>) -> Seq<char> {
    let title = spec_course_title(long_title);
    match spec_rfind_char(title, '(') {
        Option::Some(i) => if 0 <= i < title.len() {
            spec_trim(title.take(i))
        } else {
            title
        },
        Option::None => title,
    }
}

impl CourseMeta {
    /// The course id.
    pub fn id(&self) -> (r: &String)
        ensures
            r == self.id,
    {
        &self.id
    }

    /// The course title (name and term): the raw listing title after its
    /// first colon.  The raw title must contain one.
    pub fn title(&self) -> (r: String)
        requires
            spec_find_char(self.long_title@, ':') is Some,
        ensures
            r@ == spec_course_title(self.long_title@),
    {
        let n = self.long_title.as_str().unicode_len();
        match find_char(self.long_title.as_str(), ':') {
            Some(i) => {
                proof {
                    crate::text::lemma_find_char(self.long_title@, ':');
                    assert(self.long_title@.subrange(i + 1, n as int) =~= self.long_title@.skip(
                        i + 1,
                    ));
                }
                trim(self.long_title.as_str().substring_char(i + 1, n))
            },
            None => to_string(self.long_title.as_str()),
        }
    }

    /// The course name: the title up to its last opening parenthesis.
    /// The title must contain one.
    pub fn name(&self) -> (r: String)
        requires
            spec_find_char(self.long_title@, ':') is Some,
            spec_rfind_char(spec_course_title(self.long_title@), '(') is Some,
        ensures
            r@ == spec_course_name(self.long_title@),
    {
        let title = self.title();
        let n = title.as_str().unicode_len();
        match rfind_char(title.as_str(), '(') {
            Some(i) => {
                proof {
                    crate::text::lemma_rfind_char(title@, '(');
                    assert(title@.subrange(0, i as int) =~= title@.take(i as int));
                }
                trim(title.as_str().substring_char(0, i))
            },
            None => title,
        }
    }
}

impl Clone for CourseMeta {
    /// An equal copy of the metadata.
    fn clone(&self) -> (r: Self)
        ensures
            r == *self,
    {
        CourseMeta {
            id: self.id.clone(),
            long_title: self.long_title.clone(),
            is_current: self.is_current,
        }
    }
}

/// A lightweight reference to one course, before its page is fetched.
#[derive(Debug)]
pub struct CourseHandle {
    pub client: Client,
    pub meta: CourseMeta,
}

impl CourseHandle {
    /// The course title; see [`CourseMeta::title`].
    pub fn title(&self) -> (r: String)
        requires
            spec_find_char(self.meta.long_title@, ':') is Some,
        ensures
            r@ == spec_course_title(self.meta.long_title@),
    {
        self.meta.title()
    }

    /// The course id.
    pub fn id(&self) -> (r: &String)
        ensures
            r == self.meta.id,
    {
        self.meta.id()
    }
}

/// A fetched course: its metadata plus the navigation entries of its
/// page, as `(entry title, entry URI)` pairs in page order.
#[derive(Debug)]
pub struct Course {
    pub client: Client,
    pub meta: CourseMeta,
    pub entries: Vec<(String, String)>,
}

/// The views of a vector of string pairs.
pub open spec fn entries_view(v: Seq<(String, String)>) -> Seq<(Seq<char>, Seq<char>)> {
    v.map_values(|p: (String, String)| (p.0@, p.1@))
}

/// The endpoint a content-listing entry points at; an entry is a listing
/// entry when this URL ends with the path of the entry's URI.
pub open spec fn spec_list_content_endpoint() -> Seq<char> {
    "https://course.pku.edu.cn/webapps/blackboard/content/listContent.jsp"@
}

/// The path component of a URI: for an absolute `http`/`https` URI the
/// part from the first slash after the host up to the query string; for a
/// root-relative URI the part up to the query string; empty otherwise.
pub open spec fn spec_path_of(uri: Seq<char>) -> Seq<char> {
    let base = match spec_find_char(uri, '?') {
        Option::Some(i) => if 0 <= i < uri.len() {
            uri.take(i)
        } else {
            uri
        },
        Option::None => uri,
    };
    if spec_starts_with(base, "https://"@) {
        spec_host_path(base.skip(8))
    } else if spec_starts_with(base, "http://"@) {
        spec_host_path(base.skip(7))
    } else if base.len() > 0 && base[0] == '/' {
        base
    } else {
        Seq::empty()
    }
}

/// The path within a `host/path` tail: from the first slash on, or empty
/// when there is none.
pub open spec fn spec_host_path(tail: Seq<char>) -> Seq<char> {
    match spec_find_char(tail, '/') {
        Option::Some(i) => if 0 <= i < tail.len() {
            tail.skip(i)
        } else {
            Seq::empty()
        },
        Option::None => Seq::empty(),
    }
}

/// The path component of a URI, per [`spec_path_of`].
pub fn path_of(uri: &str) -> (r: String)
    ensures
        r@ == spec_path_of(uri@),
{
    let n = uri.unicode_len();
    let base: String = match find_char(uri, '?') {
        Some(i) => {
            proof {
                crate::text::lemma_find_char(uri@, '?');
                assert(uri@.subrange(0, i as int) =~= uri@.take(i as int));
            }
            to_string(uri.substring_char(0, i))
        },
        None => to_string(uri),
    };
    let blen = base.as_str().unicode_len();
    if crate::text::str_starts_with(base.as_str(), "https://") {
        proof {
            reveal_strlit("https://");
            assert(base@.subrange(8, blen as int) =~= base@.skip(8));
        }
        host_path(base.as_str().substring_char(8, blen))
    } else if crate::text::str_starts_with(base.as_str(), "http://") {
        proof {
            reveal_strlit("http://");
            assert(base@.subrange(7, blen as int) =~= base@.skip(7));
        }
        host_path(base.as_str().substring_char(7, blen))
    } else if blen > 0 && base.as_str().get_char(0) == '/' {
        base
    } else {
        String::new()
    }
}

/// The path within a `host/path` tail, per [`spec_host_path`].
fn host_path(tail: &str) -> (r: String)
    ensures
        r@ == spec_host_path(tail@),
{
    let n = tail.unicode_len();
    match find_char(tail, '/') {
        Some(i) => {
            proof {
                crate::text::lemma_find_char(tail@, '/');
                assert(tail@.subrange(i as int, n as int) =~= tail@.skip(i as int));
            }
            to_string(tail.substring_char(i, n))
        },
        None => String::new(),
    }
}

/// Whether an entry URI points at the content-listing endpoint.
pub open spec fn spec_is_listing(uri: Seq<char>) -> bool {
    spec_ends_with(spec_list_content_endpoint(), spec_path_of(uri)) && spec_path_of(uri).len()
        > 0
}

/// The `(content id, section title)` pairs one entry contributes: one per
/// `content_id` query parameter, but only for listing entries.
pub open spec fn spec_entry_seeds(section: Seq<char>, uri: Seq<char>) -> Seq<
    (Seq<char>, Seq<char>),
> {
    if spec_is_listing(uri) {
        spec_values_for(query_pairs_of(uri), "content_id"@).map_values(
            |v: Seq<char>| (v, section),
        )
    } else {
        Seq::empty()
    }
}

/// The `(content id, section title)` pairs of all entries, in page order.
pub open spec fn spec_seed_pairs(entries: Seq<(Seq<char>, Seq<char>)>) -> Seq<
    (Seq<char>, Seq<char>),
>
    decreases entries.len(),
{
    if entries.len() == 0 {
        Seq::empty()
    } else {
        spec_seed_pairs(entries.drop_last()) + spec_entry_seeds(
            entries.last().0,
            entries.last().1,
        )
    }
}

/// Whether a probe is a root probe for seed pair `p`: fresh hierarchy
/// context, depth zero, the pair's id and section.
pub open spec fn is_seed_probe(probe: ContentProbe, p: (Seq<char>, Seq<char>)) -> bool {
    &&& probe.id@ == p.0
    &&& opt_view(probe.section_name) == Option::Some(p.1)
    &&& probe.parent_id is None
    &&& probe.parent_title is None
    &&& probe.depth == 0
}

impl Course {
    /// The client configuration.
    pub fn client(&self) -> (r: &Client)
        ensures
            r == self.client,
    {
        &self.client
    }

    /// The course metadata.
    pub fn meta(&self) -> (r: &CourseMeta)
        ensures
            r == self.meta,
    {
        &self.meta
    }

    /// The navigation entries, as `(title, URI)` pairs in page order.
    pub fn entries(&self) -> (r: &Vec<(String, String)>)
        ensures
            r == self.entries,
    {
        &self.entries
    }

    /// Wrap one discovered record as course content.
    pub fn build_content(&self, data: crate::content::CourseContentData) -> (r: CourseContent)
        ensures
            r.course_id == self.meta.id,
            r.data == data,
    {
        CourseContent { course_id: self.meta.id.clone(), data }
    }

    /// One root probe per `content_id` parameter of each listing entry,
    /// in page order; see [`spec_seed_pairs`].
    pub fn seed_probes(&self) -> (r: Vec<ContentProbe>)
        ensures
            r@.len() == spec_seed_pairs(entries_view(self.entries@)).len(),
            forall|i: int|
                0 <= i < r@.len() ==> is_seed_probe(
                    #[trigger] r@[i],
                    spec_seed_pairs(entries_view(self.entries@))[i],
                ),
    {
        let mut r: Vec<ContentProbe> = Vec::new();
        let mut i: usize = 0;
        while i < self.entries.len()
            invariant
                0 <= i <= self.entries@.len(),
                r@.len() == spec_seed_pairs(entries_view(self.entries@).take(i as int)).len(),
                forall|j: int|
                    0 <= j < r@.len() ==> is_seed_probe(
                        #[trigger] r@[j],
                        spec_seed_pairs(entries_view(self.entries@).take(i as int))[j],
                    ),
            decreases self.entries@.len() - i,
        {
            let ghost ev = entries_view(self.entries@);
            proof {
                assert(ev.take(i + 1).drop_last() =~= ev.take(i as int));
                assert(ev.take(i + 1).last() == ev[i as int]);
            }
            let section = &self.entries[i].0;
            let uri = &self.entries[i].1;
            let path = path_of(uri.as_str());
            let is_listing = path.as_str().unicode_len() > 0 && str_ends_with(
                "https://course.pku.edu.cn/webapps/blackboard/content/listContent.jsp",
                path.as_str(),
            );
            if is_listing {
                let q = Query::from_str(uri.as_str());
                let vals = q.values_for("content_id");
                let ghost pairs = spec_entry_seeds(ev[i as int].0, ev[i as int].1);
                let mut k: usize = 0;
                while k < vals.len()
                    invariant
                        ev == entries_view(self.entries@),
                        0 <= i < self.entries@.len(),
                        0 <= k <= vals@.len(),
                        pairs == spec_entry_seeds(ev[i as int].0, ev[i as int].1),
                        vals@.map_values(|s: String| s@) == spec_values_for(
                            query_pairs_of(ev[i as int].1),
                            "content_id"@,
                        ),
                        pairs.len() == vals@.len(),
                        forall|m: int| 0 <= m < pairs.len() ==> #[trigger] pairs[m] == (
                            vals@.map_values(|s: String| s@)[m],
                            ev[i as int].0,
                        ),
                        r@.len() == spec_seed_pairs(ev.take(i as int)).len() + k,
                        forall|j: int|
                            0 <= j < spec_seed_pairs(ev.take(i as int)).len()
                                ==> is_seed_probe(
                                #[trigger] r@[j],
                                spec_seed_pairs(ev.take(i as int))[j],
                            ),
                        forall|j: int|
                            spec_seed_pairs(ev.take(i as int)).len() <= j < r@.len()
                                ==> is_seed_probe(
                                #[trigger] r@[j],
                                pairs[j - spec_seed_pairs(ev.take(i as int)).len()],
                            ),
                        section == self.entries@[i as int].0,
                    decreases vals@.len() - k,
                {
                    let probe = ContentProbe {
                        parent_id: None,
                        parent_title: None,
                        depth: 0,
                        id: vals[k].clone(),
                        section_name: Some(section.clone()),
                    };
                    proof {
                        assert(vals@.map_values(|s: String| s@)[k as int] == vals@[k as int]@);
                        assert(probe.id@ == vals@.map_values(|s: String| s@)[k as int]);
                        assert(opt_view(probe.section_name) == Option::Some(section@));
                        assert(ev[i as int] == (
                            self.entries@[i as int].0@,
                            self.entries@[i as int].1@,
                        ));
                        assert(section@ == ev[i as int].0);
                        assert(pairs[k as int] == (
                            vals@.map_values(|s: String| s@)[k as int],
                            ev[i as int].0,
                        ));
                        assert(is_seed_probe(probe, pairs[k as int]));
                    }
                    r.push(probe);
                    k += 1;
                }
            }
            proof {
                assert(spec_seed_pairs(ev.take(i + 1)) == spec_seed_pairs(ev.take(i as int))
                    + spec_entry_seeds(ev[i as int].0, ev[i as int].1));
                if !(path@.len() > 0 && spec_ends_with(
                    spec_list_content_endpoint(),
                    path@,
                )) {
                    assert(spec_entry_seeds(ev[i as int].0, ev[i as int].1) =~= Seq::<
                        (Seq<char>, Seq<char>),
                    >::empty());
                }
            }
            i += 1;
        }
        proof {
            assert(entries_view(self.entries@).take(self.entries@.len() as int) =~= entries_view(
                self.entries@,
            ));
        }
        r
    }

    /// The content discovery frontier of this course, seeded from its
    /// listing entries; duplicate seed ids collapse to one probe.
    pub fn content_stream(&self) -> (r: CourseContentStream)
        ensures
            r.wf(),
            r.spec_course_id() == self.meta.id,
            forall|id: Seq<char>|
                #[trigger] contains_probe_id(r.queue(), id) <==> exists|m: int|
                    0 <= m < spec_seed_pairs(entries_view(self.entries@)).len()
                        && spec_seed_pairs(entries_view(self.entries@))[m].0 == id,
            forall|i: int|
                0 <= i < r.queue().len() ==> exists|m: int|
                    0 <= m < spec_seed_pairs(entries_view(self.entries@)).len()
                        && is_seed_probe(#[trigger] r.queue()[i], spec_seed_pairs(
                        entries_view(self.entries@),
                    )[m]),
    {
        let seeds = self.seed_probes();
        let ghost seeds0 = seeds@;
        let ghost pairs = spec_seed_pairs(entries_view(self.entries@));
        let stream = CourseContentStream::new(self.meta.id.clone(), seeds);
        proof {
            crate::frontier::lemma_dedup_probes(seeds0);
            assert forall|id: Seq<char>| #[trigger] contains_probe_id(stream.queue(), id)
                implies exists|m: int| 0 <= m < pairs.len() && pairs[m].0 == id by {
                let w = choose|w: int|
                    0 <= w < seeds0.len() && seeds0[w].id@ == id;
                assert(is_seed_probe(seeds0[w], pairs[w]));
            }
            assert forall|id: Seq<char>|
                (exists|m: int| 0 <= m < pairs.len() && pairs[m].0 == id) implies
                contains_probe_id(stream.queue(), id) by {
                let m = choose|m: int| 0 <= m < pairs.len() && pairs[m].0 == id;
                assert(is_seed_probe(seeds0[m], pairs[m]));
                assert(seeds0[m].id@ == id);
                assert(contains_probe_id(seeds0, id));
            }
            assert forall|i: int| 0 <= i < stream.queue().len() implies exists|m: int|
                0 <= m < pairs.len() && is_seed_probe(#[trigger] stream.queue()[i], pairs[m]) by {
                let j = choose|j: int|
                    0 <= j < seeds0.len() && #[trigger] dedup_probes(seeds0)[i] == seeds0[j];
                assert(is_seed_probe(seeds0[j], pairs[j]));
            }
        }
        stream
    }
}

} // verus!
