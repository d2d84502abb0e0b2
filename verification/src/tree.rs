//! The course content tree: one root per course, one child per
//! navigation entry, and every discovered record attached under the entry
//! its section names — falling back to its parent title, then to a
//! synthesized folder, then to the root itself.  A pure fold over the
//! record stream; children keep insertion order.

use vstd::prelude::*;

verus! {

use crate::content::{CourseContentData, CourseContentKind};
use crate::handles::{
    CourseAnnouncementHandle, CourseAssignmentHandle, CourseDocumentHandle,
};
use crate::media::CourseVideoHandle;
use crate::text::str_eq;

/// The kind of one tree node.
#[derive(Clone, Copy, Debug, PartialEq, Eq, Structural)]
pub enum NodeKind {
    Course,
    Entry,
    Folder,
    Document,
    Assignment,
    Video,
    Announcement,
}

/// The typed handle a leaf node may carry.
#[derive(Debug, Clone)]
pub enum ContentHandle {
    Assignment(CourseAssignmentHandle),
    Document(CourseDocumentHandle),
    Video(CourseVideoHandle),
    Announcement(CourseAnnouncementHandle),
}

/// One node of the content tree.
#[derive(Debug)]
pub struct CourseTreeNode {
    pub id: String,
    pub title: String,
    pub kind: NodeKind,
    pub content_handle: Option<ContentHandle>,
    pub children: Vec<CourseTreeNode>,
}

/// The labelled shape of a tree node: ids, titles, kinds and children,
/// recursively.
pub ghost struct TreeView {
    pub id: Seq<char>,
    pub title: Seq<char>,
    pub kind: NodeKind,
    pub children: Seq<TreeView>,
}

/// The view of one node.
pub open spec fn tree_view(n: CourseTreeNode) -> TreeView
    decreases n,
{
    TreeView { id: n.id@, title: n.title@, kind: n.kind, children: forest_view(n.children@) }
}

/// The views of a sequence of nodes.
pub open spec fn forest_view(s: Seq<CourseTreeNode>) -> Seq<TreeView>
    decreases s,
{
    if s.len() == 0 {
        Seq::empty()
    } else {
        seq![tree_view(s[0])] + forest_view(s.skip(1))
    }
}

/// A forest's view has one entry per node, the view of that node.
pub proof fn lemma_forest_view(s: Seq<CourseTreeNode>)
    ensures
        forest_view(s).len() == s.len(),
        forall|j: int| 0 <= j < s.len() ==> #[trigger] forest_view(s)[j] == tree_view(s[j]),
    decreases s.len(),
{
    if s.len() > 0 {
        lemma_forest_view(s.skip(1));
        assert forall|j: int| 0 <= j < s.len() implies #[trigger] forest_view(s)[j] == tree_view(
            s[j],
        ) by {
            if j > 0 {
                assert(forest_view(s)[j] == forest_view(s.skip(1))[j - 1]);
                assert(s.skip(1)[j - 1] == s[j]);
            }
        }
    }
}

impl CourseTreeNode {
    /// The node as a labelled shape.
    pub open spec fn view(&self) -> TreeView {
        tree_view(*self)
    }

    /// A node with the given id, title, kind and handle, and no children.
    pub fn new(
        id: String,
        title: String,
        kind: NodeKind,
        content_handle: Option<ContentHandle>,
    ) -> (r: CourseTreeNode)
        ensures
            r@ == (TreeView {
                id: id@,
                title: title@,
                kind,
                children: Seq::<TreeView>::empty(),
            }),
            r.content_handle == content_handle,
    {
        let r = CourseTreeNode { id, title, kind, content_handle, children: Vec::new() };
        proof {
            assert(forest_view(r.children@) =~= Seq::<TreeView>::empty());
        }
        r
    }

    /// A node without a handle.
    pub fn new_basic(id: String, title: String, kind: NodeKind) -> (r: CourseTreeNode)
        ensures
            r@ == (TreeView {
                id: id@,
                title: title@,
                kind,
                children: Seq::<TreeView>::empty(),
            }),
            r.content_handle is None,
    {
        CourseTreeNode::new(id, title, kind, None)
    }

    /// The node id.
    pub fn id(&self) -> (r: &String)
        ensures
            r == self.id,
    {
        &self.id
    }

    /// The node title.
    pub fn title(&self) -> (r: &String)
        ensures
            r == self.title,
    {
        &self.title
    }

    /// The node kind.
    pub fn kind(&self) -> (r: NodeKind)
        ensures
            r == self.kind,
    {
        self.kind
    }

    /// The children, in insertion order.
    pub fn children(&self) -> (r: &Vec<CourseTreeNode>)
        ensures
            r == self.children,
    {
        &self.children
    }

    /// The children, mutably: whatever the caller leaves in the borrow
    /// becomes the node's children, while the other fields stay.
    pub fn children_mut(&mut self) -> (r: &mut Vec<CourseTreeNode>)
        ensures
            *r == old(self).children,
            final(self).children == *final(r),
            final(self).id == old(self).id,
            final(self).title == old(self).title,
            final(self).kind == old(self).kind,
            final(self).content_handle == old(self).content_handle,
    {
        &mut self.children
    }

    /// The assignment handle, when the node carries one.
    pub fn as_assignment(&self) -> (r: Option<&CourseAssignmentHandle>)
        ensures
            match self.content_handle {
                Option::Some(ContentHandle::Assignment(h)) => r matches Option::Some(x) && *x
                    == h,
                _ => r is None,
            },
    {
        match &self.content_handle {
            Some(ContentHandle::Assignment(h)) => Some(h),
            _ => None,
        }
    }

    /// The document handle, when the node carries one.
    pub fn as_document(&self) -> (r: Option<&CourseDocumentHandle>)
        ensures
            match self.content_handle {
                Option::Some(ContentHandle::Document(h)) => r matches Option::Some(x) && *x
                    == h,
                _ => r is None,
            },
    {
        match &self.content_handle {
            Some(ContentHandle::Document(h)) => Some(h),
            _ => None,
        }
    }

    /// The video handle, when the node carries one.
    pub fn as_video(&self) -> (r: Option<&CourseVideoHandle>)
        ensures
            match self.content_handle {
                Option::Some(ContentHandle::Video(h)) => r matches Option::Some(x) && *x == h,
                _ => r is None,
            },
    {
        match &self.content_handle {
            Some(ContentHandle::Video(h)) => Some(h),
            _ => None,
        }
    }

    /// The announcement handle, when the node carries one.
    pub fn as_announcement(&self) -> (r: Option<&CourseAnnouncementHandle>)
        ensures
            match self.content_handle {
                Option::Some(ContentHandle::Announcement(h)) => r matches Option::Some(x) && *x
                    == h,
                _ => r is None,
            },
    {
        match &self.content_handle {
            Some(ContentHandle::Announcement(h)) => Some(h),
            _ => None,
        }
    }

    /// Append a child node.
    pub fn add_child(&mut self, child: CourseTreeNode)
        ensures
            final(self).children@ == old(self).children@.push(child),
            final(self).id == old(self).id,
            final(self).title == old(self).title,
            final(self).kind == old(self).kind,
            final(self).content_handle == old(self).content_handle,
    {
        self.children.push(child);
    }

    /// The ids of the subtree, in depth-first preorder.
    pub fn dfs(&self) -> (r: Vec<String>)
        ensures
            r@.map_values(|s: String| s@) == spec_dfs_ids(tree_view(*self)),
        decreases *self,
    {
        let mut r: Vec<String> = Vec::new();
        r.push(self.id.clone());
        proof {
            assert(r@.map_values(|s: String| s@) =~= seq![self.id@]);
        }
        let mut i: usize = 0;
        while i < self.children.len()
            invariant
                0 <= i <= self.children@.len(),
                r@.map_values(|s: String| s@) =~= seq![self.id@] + spec_forest_dfs_ids(
                    forest_view(self.children@).take(i as int),
                ),
            decreases self.children@.len() - i,
        {
            proof {
                lemma_forest_view(self.children@);
                assert(decreases_to!(*self => self.children));
                assert(decreases_to!(self.children => self.children@));
                assert(decreases_to!(self.children@ => self.children@[i as int]));
            }
            let mut sub = self.children[i].dfs();
            let ghost subv = sub@;
            let ghost rpre = r@;
            r.append(&mut sub);
            proof {
                assert(r@ == rpre + subv);
                let rv = r@.map_values(|s: String| s@);
                let pv = rpre.map_values(|s: String| s@);
                let sv = subv.map_values(|s: String| s@);
                assert forall|j: int| 0 <= j < r@.len() implies #[trigger] rv[j] == (pv + sv)[j] by {
                    assert(rv[j] == r@[j]@);
                    if j < rpre.len() {
                        assert(r@[j] == rpre[j]);
                        assert(pv[j] == rpre[j]@);
                    } else {
                        assert(r@[j] == subv[j - rpre.len()]);
                        assert(sv[j - rpre.len()] == subv[j - rpre.len()]@);
                    }
                }
                assert(rv =~= pv + sv);
                let fv = forest_view(self.children@);
                assert(fv.take(i + 1).drop_last() =~= fv.take(i as int));
                assert(fv.take(i + 1).last() == fv[i as int]);
                assert(fv[i as int] == tree_view(self.children@[i as int]));
                assert(rv =~= seq![self.id@] + spec_forest_dfs_ids(fv.take(i + 1)));
            }
            i += 1;
        }
        proof {
            lemma_forest_view(self.children@);
            assert(forest_view(self.children@).take(self.children@.len() as int) =~= forest_view(
                self.children@,
            ));
        }
        r
    }
}

/// The node kind a record maps to; an unclassified record counts as a
/// folder when it is one, and as a document otherwise.
pub open spec fn spec_node_kind(rec: CourseContentData) -> NodeKind {
    match rec.kind {
        CourseContentKind::Document => NodeKind::Document,
        CourseContentKind::Assignment => NodeKind::Assignment,
        CourseContentKind::Folder => NodeKind::Folder,
        CourseContentKind::Video => NodeKind::Video,
        CourseContentKind::Announcement => NodeKind::Announcement,
        CourseContentKind::Unknown => if rec.is_folder {
            NodeKind::Folder
        } else {
            NodeKind::Document
        },
    }
}

/// The childless node a record becomes.
pub open spec fn spec_leaf(rec: CourseContentData) -> TreeView {
    TreeView {
        id: rec.id@,
        title: rec.title@,
        kind: spec_node_kind(rec),
        children: Seq::empty(),
    }
}

/// The title a record is filed under: its section name, else its parent
/// title, else nothing (the root takes it directly).
pub open spec fn spec_attach_key(rec: CourseContentData) -> Option<Seq<char>> {
    match rec.section_name {
        Option::Some(s) => Option::Some(s@),
        Option::None => match rec.parent_title {
            Option::Some(p) => Option::Some(p@),
            Option::None => Option::None,
        },
    }
}

/// First index of a child with title `t`, if any.
pub open spec fn spec_find_child(children: Seq<TreeView>, t: Seq<char>) -> Option<int>
    decreases children.len(),
{
    if children.len() == 0 {
        Option::None
    } else if children[0].title == t {
        Option::Some(0)
    } else {
        match spec_find_child(children.skip(1), t) {
            Option::Some(i) => Option::Some(i + 1),
            Option::None => Option::None,
        }
    }
}

/// The result of `spec_find_child` is an in-range index whose title
/// matches, with no match before it; `None` means no child matches.
pub proof fn lemma_find_child(children: Seq<TreeView>, t: Seq<char>)
    ensures
        match spec_find_child(children, t) {
            Option::Some(i) => 0 <= i < children.len() && children[i].title == t && forall|j: int|
                0 <= j < i ==> children[j].title != t,
            Option::None => forall|j: int| 0 <= j < children.len() ==> children[j].title != t,
        },
    decreases children.len(),
{
    if children.len() > 0 && children[0].title != t {
        lemma_find_child(children.skip(1), t);
        assert forall|j: int| 1 <= j < children.len() implies children.skip(1)[j - 1]
            == children[j] by {}
    }
}

/// Attaching one record to the tree: under the first child whose title is
/// the record's key, else under a freshly synthesized folder child with
/// that title, else directly under the root when the record has no key.
pub open spec fn spec_attach(root: TreeView, rec: CourseContentData) -> TreeView {
    match spec_attach_key(rec) {
        Option::None => TreeView { children: root.children.push(spec_leaf(rec)), ..root },
        Option::Some(k) => match spec_find_child(root.children, k) {
            Option::Some(i) => {
                let c = root.children[i];
                TreeView {
                    children: root.children.update(
                        i,
                        TreeView { children: c.children.push(spec_leaf(rec)), ..c },
                    ),
                    ..root
                }
            },
            Option::None => TreeView {
                children: root.children.push(
                    TreeView {
                        id: k,
                        title: k,
                        kind: NodeKind::Folder,
                        children: seq![spec_leaf(rec)],
                    },
                ),
                ..root
            },
        },
    }
}

/// The entry nodes of the root, one per navigation entry title.
pub open spec fn spec_entry_nodes(titles: Seq<Seq<char>>) -> Seq<TreeView> {
    titles.map_values(
        |t: Seq<char>| TreeView {
            id: t,
            title: t,
            kind: NodeKind::Entry,
            children: Seq::empty(),
        },
    )
}

/// The root of a course tree before any record is attached.
pub open spec fn spec_tree_root(
    course_id: Seq<char>,
    course_title: Seq<char>,
    entry_titles: Seq<Seq<char>>,
) -> TreeView {
    TreeView {
        id: course_id,
        title: course_title,
        kind: NodeKind::Course,
        children: spec_entry_nodes(entry_titles),
    }
}

/// The course tree: the root with its entry children, with every record
/// attached in stream order.
pub open spec fn spec_build_tree(
    course_id: Seq<char>,
    course_title: Seq<char>,
    entry_titles: Seq<Seq<char>>,
    recs: Seq<CourseContentData>,
) -> TreeView
    decreases recs.len(),
{
    if recs.len() == 0 {
        spec_tree_root(course_id, course_title, entry_titles)
    } else {
        spec_attach(
            spec_build_tree(course_id, course_title, entry_titles, recs.drop_last()),
            recs.last(),
        )
    }
}

/// The childless node a record becomes, carrying the typed handle for an
/// assignment or a document.
fn node_of_record(course_id: &String, rec: CourseContentData) -> (r: CourseTreeNode)
    ensures
        tree_view(r) == spec_leaf(rec),
{
    let id = rec.id.clone();
    let title = rec.title.clone();
    let kind = match rec.kind {
        CourseContentKind::Document => NodeKind::Document,
        CourseContentKind::Assignment => NodeKind::Assignment,
        CourseContentKind::Folder => NodeKind::Folder,
        CourseContentKind::Video => NodeKind::Video,
        CourseContentKind::Announcement => NodeKind::Announcement,
        CourseContentKind::Unknown => if rec.is_folder {
            NodeKind::Folder
        } else {
            NodeKind::Document
        },
    };
    let handle = match rec.kind {
        CourseContentKind::Assignment => Some(
            ContentHandle::Assignment(
                CourseAssignmentHandle { course_id: course_id.clone(), content: rec },
            ),
        ),
        CourseContentKind::Document => Some(
            ContentHandle::Document(
                CourseDocumentHandle { course_id: course_id.clone(), content: rec },
            ),
        ),
        _ => None,
    };
    CourseTreeNode::new(id, title, kind, handle)
}

/// Attach one record, per [`spec_attach`].
fn attach_record(root: &mut CourseTreeNode, course_id: &String, rec: CourseContentData)
    ensures
        tree_view(*final(root)) == spec_attach(tree_view(*old(root)), rec),
{
    let ghost rec0 = rec;
    let key: Option<String> = match &rec.section_name {
        Some(s) => Some(s.clone()),
        None => match &rec.parent_title {
            Some(p) => Some(p.clone()),
            None => None,
        },
    };
    proof {
        assert(crate::playlist::opt_view(key) == spec_attach_key(rec0));
    }
    let leaf = node_of_record(course_id, rec);
    match key {
        None => {
            let ghost pre = root.children@;
            root.children.push(leaf);
            proof {
                lemma_forest_view(root.children@);
                lemma_forest_view(pre);
                assert(forest_view(root.children@) =~= forest_view(pre).push(tree_view(leaf)));
            }
        },
        Some(k) => {
            let idx = find_child_index(&root.children, k.as_str());
            match idx {
                Some(i) => {
                    let ghost pre = root.children@;
                    proof {
                        lemma_find_child(forest_view(pre), k@);
                        lemma_forest_view(pre);
                        assert(0 <= i < pre.len());
                    }
                    let mut c = root.children.remove(i);
                    let ghost cpre = c.children@;
                    c.children.push(leaf);
                    proof {
                        lemma_forest_view(c.children@);
                        lemma_forest_view(cpre);
                        assert(forest_view(c.children@) =~= forest_view(cpre).push(
                            tree_view(leaf),
                        ));
                    }
                    root.children.insert(i, c);
                    proof {
                        lemma_forest_view(root.children@);
                        lemma_forest_view(pre);
                        assert forall|j: int|
                            0 <= j < root.children@.len() implies #[trigger] forest_view(
                            root.children@,
                        )[j] == forest_view(pre).update(
                            i as int,
                            tree_view(c),
                        )[j] by {
                            assert(forest_view(root.children@)[j] == tree_view(
                                root.children@[j],
                            ));
                            if j < i {
                                assert(root.children@[j] == pre[j]);
                            } else if j == i {
                                assert(root.children@[j] == c);
                            } else {
                                assert(root.children@[j] == pre.remove(i as int).insert(
                                    i as int,
                                    c,
                                )[j]);
                                assert(root.children@[j] == pre[j]);
                            }
                        }
                        assert(forest_view(root.children@) =~= forest_view(pre).update(
                            i as int,
                            tree_view(c),
                        ));
                        let cv = forest_view(pre)[i as int];
                        assert(cv == tree_view(pre[i as int]));
                        assert(tree_view(c) == (TreeView {
                            children: cv.children.push(spec_leaf(rec0)),
                            ..cv
                        }));
                    }
                },
                None => {
                    let ghost pre = root.children@;
                    let mut folder = CourseTreeNode::new(
                        k.clone(),
                        k,
                        NodeKind::Folder,
                        None,
                    );
                    folder.children.push(leaf);
                    proof {
                        lemma_forest_view(folder.children@);
                        assert(forest_view(folder.children@) =~= seq![spec_leaf(rec0)]);
                    }
                    root.children.push(folder);
                    proof {
                        lemma_forest_view(root.children@);
                        lemma_forest_view(pre);
                        assert(forest_view(root.children@) =~= forest_view(pre).push(
                            tree_view(folder),
                        ));
                    }
                },
            }
        },
    }
}

/// First index of a child node titled `t`, per [`spec_find_child`] over
/// the children's views.
fn find_child_index(children: &Vec<CourseTreeNode>, t: &str) -> (r: Option<usize>)
    ensures
        match r {
            Option::Some(i) => spec_find_child(forest_view(children@), t@) == Option::Some(
                i as int,
            ),
            Option::None => spec_find_child(forest_view(children@), t@) is None,
        },
{
    proof {
        lemma_forest_view(children@);
    }
    let mut i: usize = 0;
    while i < children.len()
        invariant
            0 <= i <= children@.len(),
            forest_view(children@).len() == children@.len(),
            forall|j: int|
                0 <= j < children@.len() ==> #[trigger] forest_view(children@)[j] == tree_view(
                    children@[j],
                ),
            forall|j: int| 0 <= j < i ==> forest_view(children@)[j].title != t@,
        decreases children@.len() - i,
    {
        if str_eq(children[i].title.as_str(), t) {
            proof {
                lemma_find_child(forest_view(children@), t@);
                match spec_find_child(forest_view(children@), t@) {
                    Option::Some(m) => {
                        assert(!(m < i) && !(i < m));
                    },
                    Option::None => {
                        assert(forest_view(children@)[i as int].title == t@);
                    },
                }
            }
            return Some(i);
        }
        i += 1;
    }
    proof {
        lemma_find_child(forest_view(children@), t@);
    }
    None
}

/// Build the whole course tree from the record stream, per
/// [`spec_build_tree`]: one root, one child per entry title, and each
/// record filed under its section (or parent-title, or synthesized
/// folder, or the root), in stream order.
pub fn build_course_tree(
    course_id: String,
    course_title: String,
    entry_titles: Vec<String>,
    records: Vec<CourseContentData>,
) -> (r: CourseTreeNode)
    ensures
        tree_view(r) == spec_build_tree(
            course_id@,
            course_title@,
            entry_titles@.map_values(|s: String| s@),
            records@,
        ),
{
    let cid = course_id.clone();
    let ghost title0 = course_title@;
    let mut root = CourseTreeNode::new(course_id, course_title, NodeKind::Course, None);
    let ghost titles = entry_titles@.map_values(|s: String| s@);
    let mut i: usize = 0;
    proof {
        assert(forest_view(root.children@) =~= spec_entry_nodes(titles.take(0)));
    }
    while i < entry_titles.len()
        invariant
            0 <= i <= entry_titles@.len(),
            titles == entry_titles@.map_values(|s: String| s@),
            root.id@ == cid@,
            root.title@ == title0,
            forest_view(root.children@) =~= spec_entry_nodes(titles.take(i as int)),
            root.kind == NodeKind::Course,
        decreases entry_titles@.len() - i,
    {
        let t = entry_titles[i].clone();
        let entry = CourseTreeNode::new(t.clone(), t, NodeKind::Entry, None);
        let ghost pre = root.children@;
        root.children.push(entry);
        proof {
            lemma_forest_view(root.children@);
            lemma_forest_view(pre);
            assert(titles[i as int] == entry_titles@[i as int]@);
            assert forall|j: int|
                0 <= j < root.children@.len() implies #[trigger] forest_view(root.children@)[j]
                == spec_entry_nodes(titles.take(i + 1))[j] by {
                if j < pre.len() {
                    assert(root.children@[j] == pre[j]);
                    assert(forest_view(pre)[j] == tree_view(pre[j]));
                    assert(spec_entry_nodes(titles.take(i as int))[j] == spec_entry_nodes(
                        titles.take(i + 1),
                    )[j]);
                } else {
                    assert(root.children@[j] == entry);
                }
            }
            assert(forest_view(root.children@) =~= spec_entry_nodes(titles.take(i + 1)));
        }
        i += 1;
    }
    proof {
        assert(titles.take(titles.len() as int) =~= titles);
        assert(tree_view(root) == spec_tree_root(cid@, title0, titles));
    }
    let ghost r0 = records@;
    let total = records.len();
    let mut records = records;
    let mut n: usize = 0;
    proof {
        assert(r0.take(0) =~= Seq::<CourseContentData>::empty());
    }
    while records.len() > 0
        invariant
            r0.len() == total,
            0 <= n <= r0.len(),
            records@ == r0.skip(n as int),
            tree_view(root) == spec_build_tree(cid@, title0, titles, r0.take(n as int)),
        decreases records@.len(),
    {
        let rec = records.remove(0);
        proof {
            assert(rec == r0[n as int]);
            assert(records@ =~= r0.skip(n + 1));
            assert(r0.take(n + 1).drop_last() =~= r0.take(n as int));
            assert(r0.take(n + 1).last() == r0[n as int]);
        }
        attach_record(&mut root, &cid, rec);
        n += 1;
    }
    proof {
        assert(r0.take(n as int) =~= r0);
    }
    root
}

/// The ids of a subtree, in depth-first preorder.
pub open spec fn spec_dfs_ids(t: TreeView) -> Seq<Seq<char>>
    decreases t, 1nat,
{
    seq![t.id] + spec_forest_dfs_ids(t.children)
}

/// The ids of a forest, each subtree in depth-first preorder.
pub open spec fn spec_forest_dfs_ids(f: Seq<TreeView>) -> Seq<Seq<char>>
    decreases f, 0nat,
{
    if f.len() == 0 {
        Seq::empty()
    } else {
        spec_forest_dfs_ids(f.drop_last()) + spec_dfs_ids(f.last())
    }
}

} // verus!
