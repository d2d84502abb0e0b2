use pku3b::course::{Client, Course, CourseMeta};
use pku3b::handles::{announcement_id_from_href, CourseAssignmentHandle, CourseContent};
use pku3b::content::{CourseContentData, CourseContentKind};
use pku3b::qs::Query;
use pku3b::resolver::{playback_params_from_location, playback_url_from_sub_info, ResolveError};
use pku3b::handles::deadline_parts;

fn meta() -> CourseMeta {
    CourseMeta {
        id: "_80001_1".to_string(),
        long_title: "24100100: Linear Algebra (24-25 Term 1)".to_string(),
        is_current: true,
    }
}

#[test]
fn client_ttls() {
    let c = Client::new(Some(60), None);
    assert_eq!(c.cache_ttl(), Some(60));
    assert_eq!(c.download_artifact_ttl(), None);
    let n = Client::new_nocache();
    assert_eq!(n.cache_ttl(), None);
    let d = Client::default();
    assert_eq!(d.cache_ttl(), Some(3600));
    assert_eq!(d.download_artifact_ttl(), Some(86400));
}

#[test]
fn course_meta_title_and_name() {
    let m = meta();
    assert_eq!(m.id(), "_80001_1");
    assert_eq!(m.title(), "Linear Algebra (24-25 Term 1)");
    assert_eq!(m.name(), "Linear Algebra");
}

#[test]
fn query_string_pairs_and_lookup() {
    let q = Query::from_str("https://x.example/p?a=1&b=two&a=3&flag&empty=");
    assert_eq!(q.len(), 5);
    assert_eq!(q.get("a"), Some("1".to_string()));
    assert_eq!(q.get("b"), Some("two".to_string()));
    assert_eq!(q.get("flag"), Some("".to_string()));
    assert_eq!(q.get("empty"), Some("".to_string()));
    assert_eq!(q.get("missing"), None);
    assert_eq!(q.values_for("a"), vec!["1".to_string(), "3".to_string()]);
    let none = Query::from_str("https://x.example/no-query");
    assert_eq!(none.len(), 0);
}

const LISTING: &str =
    "https://course.pku.edu.cn/webapps/blackboard/content/listContent.jsp";

#[test]
fn listing_entries_seed_probes_and_duplicates_collapse() {
    let course = Course {
        client: Client::new_nocache(),
        meta: meta(),
        entries: vec![
            (
                "Course Content".to_string(),
                format!("{}?course_id=_80001_1&content_id=_11_1", LISTING),
            ),
            ("Tools".to_string(), "/webapps/portal/frameset.jsp".to_string()),
            (
                "Course Content Again".to_string(),
                format!("{}?course_id=_80001_1&content_id=_11_1", LISTING),
            ),
            (
                "Other Section".to_string(),
                format!("/webapps/blackboard/content/listContent.jsp?content_id=_12_1"),
            ),
        ],
    };
    let probes = course.seed_probes();
    assert_eq!(probes.len(), 3);
    assert_eq!(probes[0].id, "_11_1");
    assert_eq!(probes[0].section_name.as_deref(), Some("Course Content"));
    assert_eq!(probes[0].depth, 0);
    assert!(probes[0].parent_id.is_none());
    // the duplicate id collapses when the frontier is seeded
    let stream = course.content_stream();
    assert_eq!(stream.queue_len(), 2);
    assert_eq!(stream.course_id(), "_80001_1");
}

#[test]
fn build_content_wraps_a_record() {
    let course = Course { client: Client::new_nocache(), meta: meta(), entries: vec![] };
    let rec = CourseContentData {
        id: "_21_1".to_string(),
        title: "Homework 1".to_string(),
        kind: CourseContentKind::Assignment,
        has_link: true,
        descriptions: vec!["due friday".to_string()],
        attachments: vec![("hw1.pdf".to_string(), "/bbcswebdav/hw1.pdf".to_string())],
        parent_id: None,
        parent_title: None,
        depth: 0,
        section_name: Some("Assignments".to_string()),
        is_folder: false,
    };
    let content: CourseContent = course.build_content(rec);
    let handle = content.into_assignment_opt().unwrap();
    assert_eq!(handle.id(), "_80001_1::_21_1");
    assert_eq!(handle.title(), "Homework 1");
    assert_eq!(handle.depth(), 0);
    assert_eq!(handle.parent_id(), None);
    // the legacy id is a stable lowercase-hex digest
    let legacy = handle.id_legacy();
    assert!(!legacy.is_empty());
    assert!(legacy.chars().all(|c| c.is_ascii_hexdigit() && !c.is_ascii_uppercase()));
    let again = CourseAssignmentHandle {
        course_id: "_80001_1".to_string(),
        content: CourseContentData {
            id: "_21_1".to_string(),
            title: "x".to_string(),
            kind: CourseContentKind::Assignment,
            has_link: false,
            descriptions: vec![],
            attachments: vec![],
            parent_id: None,
            parent_title: None,
            depth: 3,
            section_name: None,
            is_folder: false,
        },
    };
    assert_eq!(again.id_legacy(), legacy);
}

#[test]
fn non_assignment_content_gives_no_assignment_handle() {
    let course = Course { client: Client::new_nocache(), meta: meta(), entries: vec![] };
    let rec = CourseContentData {
        id: "_30_1".to_string(),
        title: "Notes".to_string(),
        kind: CourseContentKind::Document,
        has_link: true,
        descriptions: vec![],
        attachments: vec![],
        parent_id: None,
        parent_title: None,
        depth: 0,
        section_name: None,
        is_folder: false,
    };
    assert!(course.build_content(rec).into_assignment_opt().is_none());
}

#[test]
fn announcement_id_comes_from_the_link() {
    assert_eq!(announcement_id_from_href("/x/announcement?annId=1234&o=1"), "1234&o=1");
    assert_eq!(announcement_id_from_href("/x/announcement"), "/x/announcement");
}

#[test]
fn playback_params_require_all_four_values() {
    let loc = "https://live.example/auth?course_id=C1&sub_id=S1&app_id=A1&auth_data=D1";
    let p = playback_params_from_location(loc).unwrap();
    assert_eq!(p.course_id, "C1");
    assert_eq!(p.sub_id, "S1");
    assert_eq!(p.app_id, "A1");
    assert_eq!(p.auth_data, "D1");
    assert_eq!(
        playback_params_from_location("https://x?sub_id=S&app_id=A&auth_data=D").unwrap_err(),
        ResolveError::MissingCourseId
    );
    assert_eq!(
        playback_params_from_location("https://x?course_id=C&app_id=A&auth_data=D").unwrap_err(),
        ResolveError::MissingSubId
    );
    assert_eq!(
        playback_params_from_location("https://x?course_id=C&sub_id=S&auth_data=D").unwrap_err(),
        ResolveError::MissingAppId
    );
    assert_eq!(
        playback_params_from_location("https://x?course_id=C&sub_id=S&app_id=A").unwrap_err(),
        ResolveError::MissingAuthData
    );
}

fn sub_info_body(sub_content: &str) -> String {
    let mut inner = serde_json::Map::new();
    inner.insert(
        "sub_content".to_string(),
        serde_json::Value::String(sub_content.to_string()),
    );
    let mut outer = serde_json::Map::new();
    outer.insert(
        "list".to_string(),
        serde_json::Value::Array(vec![serde_json::Value::Object(inner)]),
    );
    serde_json::Value::Object(outer).to_string()
}

#[test]
fn playback_url_is_read_from_the_sub_info_document() {
    let sub_content = "{\"save_playback\":{\"is_m3u8\":\"yes\",\"contents\":\"https://media.example/pl.m3u8\"}}";
    let body = sub_info_body(sub_content);
    assert_eq!(
        playback_url_from_sub_info(&body).unwrap(),
        "https://media.example/pl.m3u8"
    );
}

#[test]
fn playback_that_is_not_m3u8_is_fatal() {
    let sub_content = "{\"save_playback\":{\"is_m3u8\":\"no\",\"contents\":\"x\"}}";
    let body = sub_info_body(sub_content);
    assert_eq!(playback_url_from_sub_info(&body).unwrap_err(), ResolveError::NotM3u8);
}

#[test]
fn malformed_sub_info_is_rejected() {
    assert_eq!(
        playback_url_from_sub_info("not json").unwrap_err(),
        ResolveError::MalformedSubInfo
    );
    assert_eq!(
        playback_url_from_sub_info("{\"list\":[]}").unwrap_err(),
        ResolveError::MalformedSubInfo
    );
    let sub_content = "{\"save_playback\":{\"is_m3u8\":\"yes\"}}";
    let body = sub_info_body(sub_content);
    assert_eq!(playback_url_from_sub_info(&body).unwrap_err(), ResolveError::MalformedSubInfo);
}

#[test]
fn deadline_text_parses_into_parts() {
    let p = deadline_parts("2025年6月15日 星期日 下午11:59").unwrap();
    assert_eq!((p.year, p.month, p.day, p.hour, p.minute), (2025, 6, 15, 23, 59));
    let m = deadline_parts("2024年12月1日 星期一 上午9:05").unwrap();
    assert_eq!((m.year, m.month, m.day, m.hour, m.minute), (2024, 12, 1, 9, 5));
    // noon in the afternoon keeps its hour
    let n = deadline_parts("2024年1月2日 星期二 下午12:00").unwrap();
    assert_eq!(n.hour, 12);
    assert!(deadline_parts("no deadline here").is_none());
    assert!(deadline_parts("2024年13月").is_none());
}
