use pku3b::content::{CourseContentData, CourseContentKind};
use pku3b::tree::{build_course_tree, CourseTreeNode, NodeKind};

fn rec(
    id: &str,
    title: &str,
    kind: CourseContentKind,
    section: Option<&str>,
    parent_title: Option<&str>,
) -> CourseContentData {
    CourseContentData {
        id: id.to_string(),
        title: title.to_string(),
        kind,
        has_link: true,
        descriptions: vec![],
        attachments: vec![],
        parent_id: None,
        parent_title: parent_title.map(|s| s.to_string()),
        depth: 0,
        section_name: section.map(|s| s.to_string()),
        is_folder: false,
    }
}

#[test]
fn records_are_filed_under_sections_folders_and_the_root() {
    let records = vec![
        rec("a1", "HW 1", CourseContentKind::Assignment, Some("Assignments"), None),
        rec("d1", "Notes", CourseContentKind::Document, None, Some("Week 1")),
        rec("x1", "Loose", CourseContentKind::Document, None, None),
        rec("a2", "HW 2", CourseContentKind::Assignment, Some("Assignments"), None),
    ];
    let root = build_course_tree(
        "c1".to_string(),
        "Algebra".to_string(),
        vec!["Assignments".to_string(), "Materials".to_string()],
        records,
    );
    assert_eq!(root.id(), "c1");
    assert_eq!(root.title(), "Algebra");
    assert_eq!(root.kind(), NodeKind::Course);
    // entries first, then the synthesized folder, then the loose record
    let children = root.children();
    assert_eq!(children.len(), 4);
    assert_eq!(children[0].title(), "Assignments");
    assert_eq!(children[0].kind(), NodeKind::Entry);
    assert_eq!(children[1].title(), "Materials");
    assert_eq!(children[2].title(), "Week 1");
    assert_eq!(children[2].kind(), NodeKind::Folder);
    assert_eq!(children[3].title(), "Loose");
    // both assignments sit under their entry, in stream order
    let hw = children[0].children();
    assert_eq!(hw.len(), 2);
    assert_eq!(hw[0].title(), "HW 1");
    assert_eq!(hw[0].kind(), NodeKind::Assignment);
    assert!(hw[0].as_assignment().is_some());
    assert!(hw[0].as_document().is_none());
    assert_eq!(hw[1].title(), "HW 2");
    // the parent-title record went under the synthesized folder
    assert_eq!(children[2].children().len(), 1);
    assert_eq!(children[2].children()[0].title(), "Notes");
    assert!(children[2].children()[0].as_document().is_some());
}

#[test]
fn dfs_walks_the_tree_in_preorder() {
    let records = vec![
        rec("a1", "HW 1", CourseContentKind::Assignment, Some("Assignments"), None),
        rec("x1", "Loose", CourseContentKind::Document, None, None),
    ];
    let root = build_course_tree(
        "c1".to_string(),
        "Algebra".to_string(),
        vec!["Assignments".to_string()],
        records,
    );
    assert_eq!(
        root.dfs(),
        vec![
            "c1".to_string(),
            "Assignments".to_string(),
            "a1".to_string(),
            "x1".to_string(),
        ]
    );
}

#[test]
fn nodes_can_be_built_and_extended_by_hand() {
    let mut root = CourseTreeNode::new_basic("r".to_string(), "Root".to_string(), NodeKind::Course);
    let child = CourseTreeNode::new_basic("c".to_string(), "Child".to_string(), NodeKind::Folder);
    root.add_child(child);
    assert_eq!(root.children().len(), 1);
    assert_eq!(root.children()[0].id(), "c");
    assert!(root.as_video().is_none());
    assert!(root.as_announcement().is_none());
    assert_eq!(root.dfs(), vec!["r".to_string(), "c".to_string()]);
}
