use client_core::CrdtDocument;
use client_core::HLC;
use client_core::MergeResult;
use client_core::OpType;
use client_core::Operation;
use client_core::lww_merge;

#[test]
fn test_hlc_monotonic() {
    let mut clock = HLC::new("node-1");
    let t1 = clock.next();
    let t2 = clock.next();
    let t3 = clock.next();
    assert!(t2 > t1);
    assert!(t3 > t2);
}

#[test]
fn test_hlc_merge() {
    let local0 = HLC::new("node-a");
    let mut remote = HLC::new("node-b");

    remote.timestamp_ms += 10000;
    remote.next();

    let mut local = local0;
    local.merge(&remote);
    assert!(local.timestamp_ms >= remote.timestamp_ms);
}

fn op(id: &str, value: &str, hlc: HLC, synced: bool) -> Operation {
    Operation {
        id: id.to_string(),
        collection: "tasks".to_string(),
        document_id: "doc1".to_string(),
        op_type: OpType::Update,
        field: Some("title".to_string()),
        value: Some(value.to_string()),
        hlc,
        synced,
    }
}

#[test]
fn test_lww_merge_local_wins() {
    let t1 = HLC { timestamp_ms: 1_000, counter: 0, node_id: "b".to_string() };
    let t2 = HLC { timestamp_ms: 1_002, counter: 0, node_id: "a".to_string() };

    let local = op("op1", "local-value", t2, false);
    let remote = op("op2", "remote-value", t1, true);

    match lww_merge(&local, &remote) {
        MergeResult::LocalWins => {}
        _ => panic!("Local should win with later timestamp"),
    }
}

#[test]
fn test_lww_merge_remote_wins() {
    let t1 = HLC { timestamp_ms: 1_000, counter: 0, node_id: "a".to_string() };
    let t2 = HLC { timestamp_ms: 1_002, counter: 0, node_id: "b".to_string() };

    let local = op("op1", "local-value", t1, false);
    let remote = op("op2", "remote-value", t2, true);

    match lww_merge(&local, &remote) {
        MergeResult::RemoteWins { value } => {
            assert_eq!(value, Some("remote-value".to_string()));
        }
        _ => panic!("Remote should win with later timestamp"),
    }
}

#[test]
fn test_document_field_merge() {
    let mut doc_a = CrdtDocument::new("doc1", "tasks", "node-a");
    let mut doc_b = CrdtDocument::new("doc1", "tasks", "node-b");

    let mut clock_a = HLC::new("node-a");
    let mut clock_b = HLC::new("node-b");

    doc_a.set_field("title", "Title from A", clock_a.next());
    doc_b.set_field("description", "Desc from B", clock_b.next());

    doc_a.merge(&doc_b);

    assert_eq!(doc_a.get_field("title"), Some("Title from A"));
    assert_eq!(doc_a.get_field("description"), Some("Desc from B"));
}

#[test]
fn test_document_conflicting_field_merge() {
    let mut doc_a = CrdtDocument::new("doc1", "tasks", "node-a");
    let mut doc_b = CrdtDocument::new("doc1", "tasks", "node-b");

    let a_clock = HLC { timestamp_ms: 5_000, counter: 0, node_id: "node-a".to_string() };
    let b_clock = HLC { timestamp_ms: 5_002, counter: 0, node_id: "node-b".to_string() };

    doc_a.set_field("title", "Version A", a_clock);
    doc_b.set_field("title", "Version B", b_clock);

    doc_a.merge(&doc_b);
    assert_eq!(doc_a.get_field("title"), Some("Version B"));
}

#[test]
fn test_document_merge_idempotent_values() {
    let mut doc_a = CrdtDocument::new("doc1", "tasks", "node-a");
    let mut doc_b = CrdtDocument::new("doc1", "tasks", "node-b");

    let a_clock = HLC { timestamp_ms: 5_000, counter: 0, node_id: "node-a".to_string() };
    let b_clock = HLC { timestamp_ms: 5_002, counter: 0, node_id: "node-b".to_string() };

    doc_a.set_field("title", "Version A", a_clock);
    doc_b.set_field("title", "Version B", b_clock);
    doc_b.set_field("description", "From B", HLC {
        timestamp_ms: 5_003,
        counter: 0,
        node_id: "node-b".to_string(),
    });

    doc_a.merge(&doc_b);
    let title_once = doc_a.get_field("title").map(|s| s.to_string());
    let desc_once = doc_a.get_field("description").map(|s| s.to_string());

    doc_a.merge(&doc_b);
    assert_eq!(doc_a.get_field("title").map(|s| s.to_string()), title_once);
    assert_eq!(doc_a.get_field("description").map(|s| s.to_string()), desc_once);
}

use client_core::SyncStorage;

fn create_test_storage() -> SyncStorage {
    SyncStorage::new(":memory:", "test-node").unwrap()
}

#[test]
fn test_insert_and_get() {
    let mut store = create_test_storage();
    let id = store.insert("tasks", r#"{"title":"Buy milk","done":false}"#).unwrap();
    let doc = store.get("tasks", &id).unwrap().unwrap();
    assert!(doc.contains("Buy milk"));
}

#[test]
fn test_update_field() {
    let mut store = create_test_storage();
    let id = store.insert("tasks", r#"{"title":"Buy milk","done":"false"}"#).unwrap();
    store.update("tasks", &id, "done", "true").unwrap();

    let doc = store.get("tasks", &id).unwrap().unwrap();
    assert!(doc.contains("true"));
}

#[test]
fn sync_test_delete() {
    let mut store = create_test_storage();
    let id = store.insert("tasks", r#"{"title":"Delete me"}"#).unwrap();
    assert!(store.delete("tasks", &id).unwrap());
    assert!(store.get("tasks", &id).unwrap().is_none());
}

#[test]
fn test_query_collection() {
    let mut store = create_test_storage();
    store.insert("tasks", r#"{"title":"Task 1"}"#).unwrap();
    store.insert("tasks", r#"{"title":"Task 2"}"#).unwrap();
    store.insert("notes", r#"{"title":"Note 1"}"#).unwrap();

    let tasks = store.query("tasks", 100).unwrap();
    assert_eq!(tasks.len(), 2);

    let notes = store.query("notes", 100).unwrap();
    assert_eq!(notes.len(), 1);
}

#[test]
fn test_unsynced_ops() {
    let mut store = create_test_storage();
    store.insert("tasks", r#"{"title":"Task 1"}"#).unwrap();
    store.insert("tasks", r#"{"title":"Task 2"}"#).unwrap();

    let ops = store.get_unsynced_ops(100).unwrap();
    assert_eq!(ops.len(), 2);
}

#[test]
fn sync_test_stats() {
    let mut store = create_test_storage();
    store.insert("tasks", r#"{"title":"Task"}"#).unwrap();
    store.insert("notes", r#"{"title":"Note"}"#).unwrap();

    let stats = store.get_stats().unwrap();
    assert_eq!(stats.total_documents, 2);
    assert_eq!(stats.collections, 2);
}

#[test]
fn test_get_nonexistent() {
    let store = create_test_storage();
    assert!(store.get("tasks", "nonexistent").unwrap().is_none());
}

#[test]
fn test_full_sync_flow() {
    let mut device_a = SyncStorage::new(":memory:", "device-a").unwrap();
    let mut device_b = SyncStorage::new(":memory:", "device-b").unwrap();

    device_a.insert("tasks", r#"{"title":"Shared task","done":"false"}"#).unwrap();

    let ops = device_a.get_unsynced_ops(100).unwrap();
    assert_eq!(ops.len(), 1);

    device_b.insert("tasks", r#"{"title":"Shared task","done":"false"}"#).unwrap();

    assert_eq!(device_a.query("tasks", 100).unwrap().len(), 1);
    assert_eq!(device_b.query("tasks", 100).unwrap().len(), 1);
}

#[test]
fn test_mark_synced_and_purge() {
    let mut store = create_test_storage();
    store.insert("tasks", r#"{"title":"Task"}"#).unwrap();
    let ops = store.get_unsynced_ops(10).unwrap();
    let ids: Vec<String> = ops.iter().map(|o| o.id.clone()).collect();
    assert_eq!(store.mark_synced(&ids).unwrap(), 1);
    assert_eq!(store.get_unsynced_ops(10).unwrap().len(), 0);
    let purged = store.purge_old_ops_at(0, i64::MAX / 2).unwrap();
    assert_eq!(purged, 1);
}
