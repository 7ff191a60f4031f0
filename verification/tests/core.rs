use nesimg_core::channel::{ChannelCell, PollCursor};
use nesimg_core::document::Document;
use nesimg_core::history::SnapshotHistory;
use nesimg_core::loader::{get_loaded_project, new_project_payload, LoadError};
use nesimg_core::project::{stale_between, LoadedProject, ProjectState, RootState};

fn doc(sources: Vec<u32>, metatiles: Vec<u32>, metatilesets: Vec<u32>, maps: Vec<u32>) -> Document {
    Document { sources, metatiles, metatilesets, maps }
}

#[test]
fn serialize_exact_bytes() {
    let d = doc(vec![1, 2, 3], vec![], vec![7], vec![4, 5]);
    let bytes = nesimg_core::codec::serialize(&d);
    assert_eq!(bytes, b"sources:1,2,3\nmetatiles:\nmetatilesets:7\nmaps:4,5\n".to_vec());
}

#[test]
fn serialize_default_exact_bytes() {
    let d = Document::default();
    let bytes = nesimg_core::codec::serialize(&d);
    assert_eq!(bytes, b"sources:\nmetatiles:\nmetatilesets:\nmaps:\n".to_vec());
}

#[test]
fn round_trip_nonempty() {
    let d = doc(vec![1, 2, 3], vec![], vec![7], vec![4, 5]);
    let bytes = nesimg_core::codec::serialize(&d);
    let back = nesimg_core::codec::parse(&bytes).expect("canonical text must parse");
    assert_eq!(back, d);
}

#[test]
fn round_trip_large_values() {
    let d = doc(vec![0, 4294967295, 10], vec![42], vec![], vec![100, 0]);
    let bytes = nesimg_core::codec::serialize(&d);
    let back = nesimg_core::codec::parse(&bytes).expect("canonical text must parse");
    assert_eq!(back, d);
}

#[test]
fn round_trip_default() {
    let d = Document::default();
    let bytes = nesimg_core::codec::serialize(&d);
    let back = nesimg_core::codec::parse(&bytes).expect("canonical text must parse");
    assert_eq!(back, d);
}

#[test]
fn parse_rejects_garbage() {
    assert!(nesimg_core::codec::parse(&b"garbage".to_vec()).is_err());
    assert!(nesimg_core::codec::parse(&Vec::new()).is_err());
}

#[test]
fn parse_rejects_missing_line() {
    assert!(nesimg_core::codec::parse(&b"sources:1\nmetatiles:\nmetatilesets:\n".to_vec()).is_err());
}

#[test]
fn parse_rejects_trailing_bytes() {
    let bad = b"sources:\nmetatiles:\nmetatilesets:\nmaps:\nextra".to_vec();
    assert!(nesimg_core::codec::parse(&bad).is_err());
}

#[test]
fn parse_rejects_leading_zero() {
    let bad = b"sources:01\nmetatiles:\nmetatilesets:\nmaps:\n".to_vec();
    assert!(nesimg_core::codec::parse(&bad).is_err());
}

#[test]
fn parse_rejects_overflow() {
    let bad = b"sources:4294967296\nmetatiles:\nmetatilesets:\nmaps:\n".to_vec();
    assert!(nesimg_core::codec::parse(&bad).is_err());
    let ok = b"sources:4294967295\nmetatiles:\nmetatilesets:\nmaps:\n".to_vec();
    assert!(nesimg_core::codec::parse(&ok).is_ok());
}

#[test]
fn parse_rejects_trailing_comma() {
    let bad = b"sources:1,\nmetatiles:\nmetatilesets:\nmaps:\n".to_vec();
    assert!(nesimg_core::codec::parse(&bad).is_err());
}

#[test]
fn undo_with_single_entry_returns_none() {
    let mut h = SnapshotHistory::new(2);
    let d = doc(vec![1], vec![], vec![], vec![]);
    h.record(0, d.duplicate());
    assert!(h.undo(&d).is_none());
    assert_eq!(h.entries.len(), 1);
}

#[test]
fn record_coalesces_rapid_edits() {
    let mut h = SnapshotHistory::new(2);
    let d1 = doc(vec![1], vec![], vec![], vec![]);
    let d2 = doc(vec![1, 2], vec![], vec![], vec![]);
    h.record(10, d1);
    h.record(11, d2.duplicate());
    assert_eq!(h.entries.len(), 1);
    assert_eq!(h.entries[0].time, 10);
    assert!(h.entries[0].state.same_as(&d2));
}

#[test]
fn record_keeps_separate_edits() {
    let mut h = SnapshotHistory::new(2);
    let d1 = doc(vec![1], vec![], vec![], vec![]);
    let d2 = doc(vec![1, 2], vec![], vec![], vec![]);
    h.record(10, d1.duplicate());
    h.record(12, d2.duplicate());
    assert_eq!(h.entries.len(), 2);
    assert_eq!(h.entries[0].time, 10);
    assert_eq!(h.entries[1].time, 12);
    assert!(h.entries[0].state.same_as(&d1));
    assert!(h.entries[1].state.same_as(&d2));
}

#[test]
fn record_ignores_unchanged_state() {
    let mut h = SnapshotHistory::new(2);
    let d1 = doc(vec![1], vec![], vec![], vec![]);
    h.record(10, d1.duplicate());
    h.record(20, d1.duplicate());
    assert_eq!(h.entries.len(), 1);
}

fn loaded(sources: Vec<u32>, path: &str) -> LoadedProject {
    LoadedProject {
        data: doc(sources, vec![], vec![], vec![]),
        path: String::from(path),
    }
}

#[test]
fn channel_single_poll_after_many_publishes() {
    let mut cell = ChannelCell::create(None);
    let mut cursor = PollCursor::subscribe(&cell);
    assert!(cell.publish(0, Some(loaded(vec![1], "a"))));
    assert!(cell.publish(0, Some(loaded(vec![2], "b"))));
    assert!(cell.publish(0, Some(loaded(vec![3], "c"))));
    let got = cursor.poll_if_new(&cell);
    let inner = got.expect("a publish happened since the last poll");
    let lp = inner.expect("the last publish carried a project");
    assert!(lp.data.same_as(&doc(vec![3], vec![], vec![], vec![])));
    assert_eq!(lp.path, "c");
    assert!(cursor.poll_if_new(&cell).is_none());
}

#[test]
fn channel_stale_ticket_is_dropped() {
    let mut cell = ChannelCell::create(None);
    let ticket_a = cell.begin_load();
    let _ticket_b = cell.begin_load();
    let mut cursor = PollCursor::subscribe(&cell);
    let accepted = cell.publish(ticket_a, Some(loaded(vec![1], "late")));
    assert!(!accepted);
    assert!(cursor.poll_if_new(&cell).is_none());
    assert!(cell.current().is_none());
}

#[test]
fn channel_current_needs_no_bookkeeping() {
    let mut cell = ChannelCell::create(None);
    assert!(cell.current().is_none());
    assert!(cell.publish(0, Some(loaded(vec![9], "p"))));
    let a = cell.current().expect("a value is current");
    let b = cell.current().expect("current does not consume");
    assert_eq!(a.path, "p");
    assert_eq!(b.path, "p");
}

#[test]
fn invalidation_scoped_to_sources() {
    let old_doc = doc(vec![1], vec![5], vec![6], vec![7]);
    let new_doc = doc(vec![1, 2], vec![5], vec![6], vec![7]);
    let stale = stale_between(&old_doc, &new_doc);
    assert!(stale.source_images);
    assert!(stale.metatile_atlas);
    assert!(!stale.metatileset_swatches);
    assert!(!stale.map_preview);
}

#[test]
fn invalidation_of_unchanged_documents_is_empty() {
    let d = doc(vec![1], vec![5], vec![6], vec![7]);
    let stale = stale_between(&d, &d.duplicate());
    assert!(!stale.source_images);
    assert!(!stale.metatile_atlas);
    assert!(!stale.metatileset_swatches);
    assert!(!stale.map_preview);
}

#[test]
fn load_empty_content_with_create_writes_default() {
    let outcome = get_loaded_project(&String::from("proj"), &Vec::new(), true)
        .expect("empty content under create succeeds");
    assert_eq!(outcome.project.data, Document::default());
    let expected = nesimg_core::codec::serialize(&Document::default());
    assert_eq!(outcome.write_back.expect("the default must be written back"), expected);
}

#[test]
fn load_empty_content_without_create_fails() {
    let r = get_loaded_project(&String::from("proj"), &Vec::new(), false);
    assert_eq!(r.err().expect("empty content is malformed"), LoadError::Parse);
}

#[test]
fn load_malformed_content_publishes_nothing() {
    let mut root = RootState::new();
    let _ticket = root.begin_load();
    let r = get_loaded_project(&String::from("proj"), &b"not a project".to_vec(), false);
    assert_eq!(r.err().expect("malformed content fails"), LoadError::Parse);
    // the worker publishes nothing on failure; the next frame sees no change
    assert!(!root.poll_loaded(0, 2));
    assert!(root.project.is_none());
}

#[test]
fn load_error_messages() {
    assert_eq!(LoadError::Io.message(), "could not read or write the project file");
    assert_eq!(LoadError::Parse.message(), "the project file is malformed");
    assert_eq!(LoadError::Serialize.message(), "the project could not be serialized");
}

#[test]
fn new_project_payload_is_default_document() {
    let (project, bytes) = new_project_payload(&String::from("fresh"));
    assert_eq!(project.data, Document::default());
    assert_eq!(bytes, nesimg_core::codec::serialize(&Document::default()));
}

#[test]
fn poll_replaces_and_closes_project() {
    let mut root = RootState::new();
    let ticket = root.begin_load();
    assert!(root.publish(ticket, Some(loaded(vec![1], "p"))));
    assert!(root.poll_loaded(0, 2));
    let data_now = {
        let p = root.project.as_ref().expect("a project is live after the poll");
        assert_eq!(p.path, "p");
        p.data.duplicate()
    };
    assert!(data_now.same_as(&doc(vec![1], vec![], vec![], vec![])));
    // no further publish: nothing changes
    assert!(!root.poll_loaded(1, 2));
    assert!(root.project.is_some());
    // an intentional "no project" value closes it
    assert!(root.publish(ticket, None));
    assert!(root.poll_loaded(2, 2));
    assert!(root.project.is_none());
}

#[test]
fn undo_without_project_is_noop() {
    let mut root = RootState::new();
    assert!(!root.undo());
    assert!(root.project.is_none());
}

#[test]
fn undo_restores_previous_sources() {
    let mut root = RootState::new();
    let ticket = root.begin_load();
    assert!(root.publish(ticket, Some(loaded(vec![1], "p"))));
    assert!(root.poll_loaded(0, 2));
    {
        let p = root.project.as_mut().expect("project is live");
        let d = p.data_mut();
        d.sources = vec![1, 2];
    }
    root.tick(0);
    {
        let p = root.project.as_mut().expect("project is live");
        let d = p.data_mut();
        d.sources = vec![1];
    }
    root.tick(5);
    assert!(root.undo());
    let p = root.project.as_ref().expect("project is live");
    assert_eq!(p.data.sources, vec![1, 2]);
}

#[test]
fn undo_marks_source_cache_stale() {
    let mut proj = ProjectState::place(loaded(vec![1], "p"), 0, 2);
    {
        let d = proj.data_mut();
        d.sources = vec![1, 2];
    }
    proj.tick(5);
    proj.mark_valid(nesimg_core::project::CacheKey::SourceImages);
    proj.mark_valid(nesimg_core::project::CacheKey::MapPreview);
    assert!(proj.caches.source_images);
    assert!(proj.undo());
    assert_eq!(proj.data.sources, vec![1]);
    // the undone edit touched only `sources`: its dependents are stale,
    // the map previews stay valid
    assert!(!proj.caches.source_images);
    assert!(proj.caches.map_preview);
}

#[test]
fn undo_on_oldest_state_changes_nothing() {
    let mut proj = ProjectState::place(loaded(vec![1], "p"), 0, 2);
    assert!(!proj.undo());
    assert_eq!(proj.data.sources, vec![1]);
}

#[test]
fn save_request_carries_path_and_canonical_bytes() {
    let mut root = RootState::new();
    assert!(root.save_request().is_none());
    let ticket = root.begin_load();
    assert!(root.publish(ticket, Some(loaded(vec![8], "saved-here"))));
    assert!(root.poll_loaded(0, 2));
    let (path, bytes) = root.save_request().expect("a live project can be saved");
    assert_eq!(path, "saved-here");
    assert_eq!(bytes, b"sources:8\nmetatiles:\nmetatilesets:\nmaps:\n".to_vec());
}

#[test]
fn duplicate_and_same_as_agree() {
    let d = doc(vec![1, 2], vec![3], vec![], vec![4]);
    let copy = d.duplicate();
    assert!(d.same_as(&copy));
    assert_eq!(d, copy);
    let other = doc(vec![1, 2], vec![3], vec![], vec![5]);
    assert!(!d.same_as(&other));
}
