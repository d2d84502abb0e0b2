//! Records and probes of the content discovery frontier.
//!
//! A `CourseContentData` is one parsed, classified item from a listing page;
//! a `ContentProbe` is a queued request to fetch and explore one listing page.

use vstd::prelude::*;

verus! {

/// The kind of one discovered content node, classified by the extractor from
/// a fixed label table, with `Unknown` as the fallback.
#[derive(Clone, Copy, Debug, PartialEq, Eq, Structural)]
pub enum CourseContentKind {
    Document,
    Assignment,
    Folder,
    Video,
    Announcement,
    Unknown,
}

/// One discovered content node, immutable once built.
#[derive(Debug)]
pub struct CourseContentData {
    pub id: String,
    pub title: String,
    pub kind: CourseContentKind,
    pub has_link: bool,
    pub descriptions: Vec<String>,
    pub attachments: Vec<(String, String)>,
    pub parent_id: Option<String>,
    pub parent_title: Option<String>,
    pub depth: usize,
    pub section_name: Option<String>,
    pub is_folder: bool,
}

/// A pending exploration unit: one listing page still to fetch, with the
/// hierarchy context its records will inherit.
#[derive(Debug)]
pub struct ContentProbe {
    pub parent_id: Option<String>,
    pub parent_title: Option<String>,
    pub depth: usize,
    pub id: String,
    pub section_name: Option<String>,
}

/// A copy of an optional string, equal to the original.
pub fn clone_opt_string(o: &Option<String>) -> (r: Option<String>)
    ensures
        r == *o,
{
    match o {
        Some(s) => Some(s.clone()),
        None => None,
    }
}

/// A copy of a string vector, equal to the original.
pub fn clone_vec_string(v: &Vec<String>) -> (r: Vec<String>)
    ensures
        r@ == v@,
{
    let mut r: Vec<String> = Vec::new();
    let mut i: usize = 0;
    while i < v.len()
        invariant
            0 <= i <= v.len(),
            r@ =~= v@.subrange(0, i as int),
        decreases v.len() - i,
    {
        r.push(v[i].clone());
        i += 1;
    }
    proof {
        assert(r@ =~= v@);
    }
    r
}

/// A copy of a vector of string pairs, equal to the original.
pub fn clone_vec_string_pairs(v: &Vec<(String, String)>) -> (r: Vec<(String, String)>)
    ensures
        r@ == v@,
{
    let mut r: Vec<(String, String)> = Vec::new();
    let mut i: usize = 0;
    while i < v.len()
        invariant
            0 <= i <= v.len(),
            r@ =~= v@.subrange(0, i as int),
        decreases v.len() - i,
    {
        let p = &v[i];
        r.push((p.0.clone(), p.1.clone()));
        i += 1;
    }
    proof {
        assert(r@ =~= v@);
    }
    r
}

impl CourseContentData {
    /// The two records hold equal values in every field (for the vector
    /// fields, equal element sequences).
    pub open spec fn is_copy_of(&self, other: &CourseContentData) -> bool {
        &&& self.id == other.id
        &&& self.title == other.title
        &&& self.kind == other.kind
        &&& self.has_link == other.has_link
        &&& self.descriptions@ == other.descriptions@
        &&& self.attachments@ == other.attachments@
        &&& self.parent_id == other.parent_id
        &&& self.parent_title == other.parent_title
        &&& self.depth == other.depth
        &&& self.section_name == other.section_name
        &&& self.is_folder == other.is_folder
    }
}

impl Clone for CourseContentData {
    /// A copy of the record, equal to the original in every field.
    fn clone(&self) -> (r: Self)
        ensures
            r.is_copy_of(self),
    {
        CourseContentData {
            id: self.id.clone(),
            title: self.title.clone(),
            kind: self.kind,
            has_link: self.has_link,
            descriptions: clone_vec_string(&self.descriptions),
            attachments: clone_vec_string_pairs(&self.attachments),
            parent_id: clone_opt_string(&self.parent_id),
            parent_title: clone_opt_string(&self.parent_title),
            depth: self.depth,
            section_name: clone_opt_string(&self.section_name),
            is_folder: self.is_folder,
        }
    }
}

impl Clone for ContentProbe {
    /// An equal copy of the probe.
    fn clone(&self) -> (r: Self)
        ensures
            r == *self,
    {
        ContentProbe {
            parent_id: clone_opt_string(&self.parent_id),
            parent_title: clone_opt_string(&self.parent_title),
            depth: self.depth,
            id: self.id.clone(),
            section_name: clone_opt_string(&self.section_name),
        }
    }
}

impl CourseContentData {
    /// Whether the record is a folder node.
    pub fn is_folder(&self) -> (r: bool)
        ensures
            r == self.is_folder,
    {
        self.is_folder
    }

    /// Whether the record should seed a child probe: it is a folder and it
    /// carries a navigable link.
    pub open spec fn spec_spawns_probe(&self) -> bool {
        self.is_folder && self.has_link
    }

    /// Whether the record should seed a child probe.
    pub fn spawns_probe(&self) -> (r: bool)
        ensures
            r == self.spec_spawns_probe(),
    {
        self.is_folder && self.has_link
    }
}

} // verus!
