use pku3b::content::{ContentProbe, CourseContentData, CourseContentKind};
use pku3b::frontier::{crawl_all, CourseContentStream};

fn probe(id: &str, depth: usize) -> ContentProbe {
    ContentProbe {
        parent_id: None,
        parent_title: None,
        depth,
        id: id.to_string(),
        section_name: Some("Content".to_string()),
    }
}

fn record(id: &str, title: &str, kind: CourseContentKind, is_folder: bool, has_link: bool) -> CourseContentData {
    CourseContentData {
        id: id.to_string(),
        title: title.to_string(),
        kind,
        has_link,
        descriptions: vec![],
        attachments: vec![],
        parent_id: None,
        parent_title: None,
        depth: 0,
        section_name: Some("Content".to_string()),
        is_folder,
    }
}

#[test]
fn duplicate_seed_ids_collapse_to_one_probe() {
    let seeds = vec![probe("a", 0), probe("a", 0), probe("b", 0), probe("a", 0)];
    let stream = CourseContentStream::new("c1".to_string(), seeds);
    assert_eq!(stream.len(), 2);
    assert_eq!(stream.queue_len(), 2);
    assert_eq!(stream.num_finished(), 0);
}

#[test]
fn batch_takes_eight_probes_at_once() {
    let mut seeds = Vec::new();
    for i in 0..9 {
        seeds.push(probe(&format!("id{}", i), 0));
    }
    let mut stream = CourseContentStream::new("c1".to_string(), seeds);
    let batch = stream.begin_batch();
    assert_eq!(batch.len(), 8);
    assert_eq!(stream.queue_len(), 1);
    let batch2 = stream.begin_batch();
    assert_eq!(batch2.len(), 1);
    assert_eq!(stream.queue_len(), 0);
}

#[test]
fn probe_at_depth_cutoff_is_dropped_for_good() {
    let seeds = vec![probe("deep", 20), probe("ok", 0)];
    let mut stream = CourseContentStream::new("c1".to_string(), seeds);
    let batch = stream.begin_batch();
    // the deep probe is gone without being returned; only the shallow one runs
    assert_eq!(batch.len(), 1);
    assert_eq!(batch[0].id, "ok");
    assert_eq!(stream.queue_len(), 0);
    let batch2 = stream.begin_batch();
    assert!(batch2.is_empty());
}

#[test]
fn success_records_bookkeeping_and_spawns_folder_probes() {
    let seeds = vec![probe("root", 0)];
    let mut stream = CourseContentStream::new("c1".to_string(), seeds);
    let batch = stream.begin_batch();
    assert_eq!(batch.len(), 1);
    let p = batch.into_iter().next().unwrap();
    let records = vec![
        record("folder1", "Folder One", CourseContentKind::Folder, true, true),
        record("doc1", "Doc One", CourseContentKind::Document, false, true),
        record("folder2", "No Link", CourseContentKind::Folder, true, false),
    ];
    let emitted = stream.record_page_success(&p, records);
    assert_eq!(emitted.len(), 3);
    // only the linked folder spawned a child probe
    assert_eq!(stream.queue_len(), 1);
    assert_eq!(stream.len(), 2);
    assert_eq!(stream.num_finished(), 1);
    assert_eq!(stream.get_parent("folder1"), Some("root".to_string()));
    assert_eq!(stream.get_parent("doc1"), Some("root".to_string()));
    assert_eq!(stream.get_parent("nope"), None);
    let children = stream.get_children("root");
    assert_eq!(children, vec!["folder1".to_string(), "doc1".to_string(), "folder2".to_string()]);
    assert_eq!(stream.get_depth("doc1"), Some(0));
}

#[test]
fn failure_requeues_the_probe_unchanged() {
    let seeds = vec![probe("a", 0), probe("b", 0)];
    let mut stream = CourseContentStream::new("c1".to_string(), seeds);
    let batch = stream.begin_batch();
    assert_eq!(batch.len(), 2);
    assert_eq!(stream.queue_len(), 0);
    let mut it = batch.into_iter();
    let pa = it.next().unwrap();
    let pb = it.next().unwrap();
    stream.record_page_failure(pa);
    assert_eq!(stream.queue_len(), 1);
    let _ = stream.record_page_success(&pb, vec![]);
    // the requeued probe comes back in the next batch
    let batch2 = stream.begin_batch();
    assert_eq!(batch2.len(), 1);
    assert_eq!(batch2[0].id, "a");
}

#[test]
fn crawl_of_finite_graph_terminates_and_empties_the_queue() {
    let seeds = vec![probe("a", 0)];
    let pages = vec![
        (
            "a".to_string(),
            vec![
                record("b", "B", CourseContentKind::Folder, true, true),
                record("c", "C", CourseContentKind::Document, false, true),
            ],
        ),
        ("b".to_string(), vec![record("d", "D", CourseContentKind::Document, false, false)]),
    ];
    let (records, stream) = crawl_all("c1".to_string(), seeds, &pages);
    assert_eq!(stream.queue_len(), 0);
    let ids: Vec<String> = records.iter().map(|r| r.id.clone()).collect();
    assert_eq!(ids, vec!["b".to_string(), "c".to_string(), "d".to_string()]);
    assert_eq!(stream.num_finished(), 2);
    assert_eq!(stream.get_parent("d"), Some("b".to_string()));
}

#[test]
fn crawl_with_cyclic_listing_still_terminates() {
    // b's page lists a again: the id is already visited, so it is not
    // enqueued a second time and the crawl still ends
    let seeds = vec![probe("a", 0)];
    let pages = vec![
        ("a".to_string(), vec![record("b", "B", CourseContentKind::Folder, true, true)]),
        ("b".to_string(), vec![record("a", "A", CourseContentKind::Folder, true, true)]),
    ];
    let (records, stream) = crawl_all("c1".to_string(), seeds, &pages);
    assert_eq!(stream.queue_len(), 0);
    assert_eq!(records.len(), 2);
}
