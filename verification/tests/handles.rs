use pku3b::content::{CourseContentData, CourseContentKind};
use pku3b::course::{Blackboard, Client};
use pku3b::handles::{
    hex_u64, CourseAnnouncement, CourseAnnouncementHandle, CourseAnnouncementMeta,
    CourseAssignment, CourseAssignmentData, CourseDocument, CourseDocumentHandle,
};

fn content() -> CourseContentData {
    CourseContentData {
        id: "_5_1".to_string(),
        title: "Slides".to_string(),
        kind: CourseContentKind::Document,
        has_link: true,
        descriptions: vec!["week one".to_string()],
        attachments: vec![("slides.pdf".to_string(), "/bbcswebdav/slides.pdf".to_string())],
        parent_id: Some("_4_1".to_string()),
        parent_title: Some("Week 1".to_string()),
        depth: 2,
        section_name: Some("Materials".to_string()),
        is_folder: false,
    }
}

#[test]
fn hex_formatting_is_lowercase_without_leading_zeroes() {
    assert_eq!(hex_u64(0), "0");
    assert_eq!(hex_u64(15), "f");
    assert_eq!(hex_u64(255), "ff");
    assert_eq!(hex_u64(0x1a2b3c), "1a2b3c");
    assert_eq!(hex_u64(u64::MAX), "ffffffffffffffff");
}

#[test]
fn document_handles_expose_the_record() {
    let h = CourseDocumentHandle { course_id: "c".to_string(), content: content() };
    assert_eq!(h.title(), "Slides");
    assert_eq!(h.depth(), 2);
    assert_eq!(h.parent_id(), Some("_4_1".to_string()));
    assert!(!h.id().is_empty());
    let d = CourseDocument { course_id: "c".to_string(), content: content() };
    assert_eq!(d.id(), "c");
    assert_eq!(d.title(), "Slides");
    assert_eq!(d.descriptions(), &vec!["week one".to_string()]);
    assert_eq!(d.attachments().len(), 1);
}

#[test]
fn assignments_expose_their_fetched_details() {
    let a = CourseAssignment {
        course_id: "c".to_string(),
        content: content(),
        data: CourseAssignmentData {
            deadline: Some("2025\u{5e74}1\u{6708}2\u{65e5} \u{661f}\u{671f}\u{56db} \u{4e0b}\u{5348}6:00".to_string()),
            attempt: Some("attempt 1".to_string()),
        },
    };
    assert_eq!(a.title(), "Slides");
    assert_eq!(a.last_attempt().map(|s| s.as_str()), Some("attempt 1"));
    let raw = a.deadline_raw().unwrap().clone();
    let parts = pku3b::handles::deadline_parts(&raw).unwrap();
    assert_eq!((parts.year, parts.month, parts.day, parts.hour, parts.minute), (2025, 1, 2, 18, 0));
}

#[test]
fn announcements_carry_their_metadata_and_body() {
    let meta = CourseAnnouncementMeta {
        id: "99".to_string(),
        time: "yesterday".to_string(),
        title: "Exam moved".to_string(),
        href: "/ann?annId=99".to_string(),
    };
    let h = CourseAnnouncementHandle { course_id: "c".to_string(), meta: meta.clone() };
    assert_eq!(h.id(), "99");
    assert_eq!(h.title(), "Exam moved");
    assert_eq!(h.time(), "yesterday");
    let a = CourseAnnouncement {
        course_id: "c".to_string(),
        meta,
        html: "<p>moved</p>".to_string(),
    };
    assert_eq!(a.html_raw(), "<p>moved</p>");
    assert_eq!(a.title(), "Exam moved");
}

#[test]
fn blackboard_hands_out_its_client_configuration() {
    let bb = Blackboard { client: Client::new(Some(1), Some(2)) };
    let c = bb.client();
    assert_eq!(c.cache_ttl(), Some(1));
    assert_eq!(c.download_artifact_ttl(), Some(2));
}
