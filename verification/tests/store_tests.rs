//! Tests of the persistent store: record lifecycle, uniqueness rules,
//! queries, and the derived store listing.

use storesync::db::Database;
use storesync::model::{DbError, DocStatus, OverallStatus, SyncStatus};

#[test]
fn create_store_starts_pending_and_alive() {
    let mut db = Database::new();
    let st = db.create_store("s1", "Notes", None).unwrap();
    assert_eq!(st.id, "s1");
    assert_eq!(st.title, "Notes");
    assert_eq!(st.sync_status, SyncStatus::Pending);
    assert!(st.gemini_name.is_none());
    assert!(st.deleted_at.is_none());
    let got = db.get_store("s1").unwrap();
    assert_eq!(got.title, "Notes");
}

#[test]
fn create_store_rejects_duplicate_id() {
    let mut db = Database::new();
    db.create_store("s1", "Notes", None).unwrap();
    let err = db.create_store("s1", "Other", None).unwrap_err();
    assert_eq!(err, DbError::DuplicateId);
}

#[test]
fn get_store_misses_absent_and_deleted() {
    let mut db = Database::new();
    assert_eq!(db.get_store("nope").unwrap_err(), DbError::NotFound);
    db.create_store("s1", "Notes", None).unwrap();
    db.soft_delete_store("s1");
    assert_eq!(db.get_store("s1").unwrap_err(), DbError::NotFound);
}

#[test]
fn create_document_requires_existing_store() {
    let mut db = Database::new();
    let err = db
        .create_document("d1", "missing", "a.txt", "/tmp/a.txt", None, None, None)
        .unwrap_err();
    assert_eq!(err, DbError::MissingStore);
    db.create_store("s1", "Notes", None).unwrap();
    let doc = db
        .create_document("d1", "s1", "a.txt", "/tmp/a.txt", Some("text/plain"), Some(10), None)
        .unwrap();
    assert_eq!(doc.status, DocStatus::Pending);
    assert_eq!(doc.sync_status, SyncStatus::Pending);
    assert_eq!(doc.size, Some(10));
    let err = db
        .create_document("d1", "s1", "b.txt", "/tmp/b.txt", None, None, None)
        .unwrap_err();
    assert_eq!(err, DbError::DuplicateId);
}

#[test]
fn update_store_from_gemini_marks_synced() {
    let mut db = Database::new();
    db.create_store("s1", "Notes", None).unwrap();
    db.update_store_from_gemini("s1", "fileSearchStores/abc", Some("t0"), Some("t1"), 1, 2, 3, 40)
        .unwrap();
    let st = db.get_store("s1").unwrap();
    assert_eq!(st.sync_status, SyncStatus::Synced);
    assert_eq!(st.gemini_name, Some("fileSearchStores/abc".to_string()));
    assert_eq!(st.create_time, Some("t0".to_string()));
    assert_eq!(st.active_documents_count, 1);
    assert_eq!(st.pending_documents_count, 2);
    assert_eq!(st.failed_documents_count, 3);
    assert_eq!(st.size_bytes, 40);
}

#[test]
fn remote_identifiers_stay_unique() {
    let mut db = Database::new();
    db.create_store("s1", "A", None).unwrap();
    db.create_store("s2", "B", None).unwrap();
    db.update_store_from_gemini("s1", "remote/x", None, None, 0, 0, 0, 0).unwrap();
    let err = db
        .update_store_from_gemini("s2", "remote/x", None, None, 0, 0, 0, 0)
        .unwrap_err();
    assert_eq!(err, DbError::DuplicateRemoteId);
    // the failed write left the second store untouched
    let s2 = db.get_store("s2").unwrap();
    assert_eq!(s2.sync_status, SyncStatus::Pending);
    assert!(s2.gemini_name.is_none());
}

#[test]
fn document_remote_identifiers_stay_unique() {
    let mut db = Database::new();
    db.create_store("s1", "A", None).unwrap();
    db.create_document("d1", "s1", "a", "/a", None, None, None).unwrap();
    db.create_document("d2", "s1", "b", "/b", None, None, None).unwrap();
    db.update_document_from_gemini("d1", "docs/x", None, DocStatus::Completed).unwrap();
    let err = db
        .update_document_from_gemini("d2", "docs/x", None, DocStatus::Completed)
        .unwrap_err();
    assert_eq!(err, DbError::DuplicateRemoteId);
}

#[test]
fn pending_scans_follow_status_gates() {
    let mut db = Database::new();
    db.create_store("s1", "A", None).unwrap();
    db.create_store("s2", "B", None).unwrap();
    assert_eq!(db.get_pending_sync_stores().len(), 2);
    db.update_store_from_gemini("s1", "remote/x", None, None, 0, 0, 0, 0).unwrap();
    let pending = db.get_pending_sync_stores();
    assert_eq!(pending.len(), 1);
    assert_eq!(pending[0].id, "s2");
    db.update_store_sync_status("s2", SyncStatus::Failed, None).unwrap();
    // a failed store is not picked up again: no automatic retry
    assert_eq!(db.get_pending_sync_stores().len(), 0);
}

#[test]
fn upload_scan_requires_synced_alive_store() {
    let mut db = Database::new();
    db.create_store("s1", "A", None).unwrap();
    db.create_document("d1", "s1", "a", "/a", None, None, None).unwrap();
    // store still pending: nothing to upload
    assert_eq!(db.get_pending_upload_documents().len(), 0);
    db.update_store_from_gemini("s1", "remote/x", None, None, 0, 0, 0, 0).unwrap();
    let ready = db.get_pending_upload_documents();
    assert_eq!(ready.len(), 1);
    assert_eq!(ready[0].id, "d1");
    // a soft-deleted store takes its documents out of the scan
    db.soft_delete_documents_by_store("s1");
    db.soft_delete_store("s1");
    assert_eq!(db.get_pending_upload_documents().len(), 0);
}

#[test]
fn polling_scan_tracks_only_open_operations() {
    let mut db = Database::new();
    db.create_store("s1", "A", None).unwrap();
    db.create_document("d1", "s1", "a", "/a", None, None, None).unwrap();
    assert_eq!(db.get_documents_with_pending_operations().len(), 0);
    db.update_document_operation("d1", "operations/op1");
    let watched = db.get_documents_with_pending_operations();
    assert_eq!(watched.len(), 1);
    assert_eq!(watched[0].operation_name, Some("operations/op1".to_string()));
    assert_eq!(watched[0].status, DocStatus::Processing);
    db.update_document_from_gemini("d1", "docs/x", None, DocStatus::Completed).unwrap();
    assert_eq!(db.get_documents_with_pending_operations().len(), 0);
}

#[test]
fn soft_deleted_documents_join_store_remote_names() {
    let mut db = Database::new();
    db.create_store("s1", "A", None).unwrap();
    db.update_store_from_gemini("s1", "remote/s", None, None, 0, 0, 0, 0).unwrap();
    db.create_document("d1", "s1", "a", "/a", None, None, None).unwrap();
    db.update_document_from_gemini("d1", "docs/d", None, DocStatus::Completed).unwrap();
    db.soft_delete_document("d1");
    let owed = db.get_soft_deleted_documents();
    assert_eq!(owed.len(), 1);
    assert_eq!(owed[0].id, "d1");
    assert_eq!(owed[0].gemini_name, "docs/d");
    assert_eq!(owed[0].store_gemini_name, "remote/s");
}

#[test]
fn soft_deleted_stores_come_oldest_deletion_first() {
    let mut db = Database::new();
    db.create_store("s1", "A", None).unwrap();
    db.create_store("s2", "B", None).unwrap();
    db.create_store("s3", "C", None).unwrap();
    // delete out of creation order: s2, then s1; s3 stays alive
    db.soft_delete_store("s2");
    db.soft_delete_store("s1");
    let owed = db.get_soft_deleted_stores();
    assert_eq!(owed.len(), 2);
    assert_eq!(owed[0].id, "s2");
    assert_eq!(owed[1].id, "s1");
    assert!(owed[0].deleted_at.unwrap() < owed[1].deleted_at.unwrap());
}

#[test]
fn soft_deleted_documents_come_oldest_deletion_first() {
    let mut db = Database::new();
    db.create_store("s1", "A", None).unwrap();
    db.update_store_from_gemini("s1", "remote/s", None, None, 0, 0, 0, 0).unwrap();
    db.create_document("d1", "s1", "a", "/a", None, None, None).unwrap();
    db.create_document("d2", "s1", "b", "/b", None, None, None).unwrap();
    db.create_document("d3", "s1", "c", "/c", None, None, None).unwrap();
    db.update_document_from_gemini("d1", "docs/1", None, DocStatus::Completed).unwrap();
    db.update_document_from_gemini("d2", "docs/2", None, DocStatus::Completed).unwrap();
    db.update_document_from_gemini("d3", "docs/3", None, DocStatus::Completed).unwrap();
    // delete out of creation order: d3, then d2, then d1
    db.soft_delete_document("d3");
    db.soft_delete_document("d2");
    db.soft_delete_document("d1");
    let owed = db.get_soft_deleted_documents();
    assert_eq!(owed.len(), 3);
    assert_eq!(owed[0].id, "d3");
    assert_eq!(owed[1].id, "d2");
    assert_eq!(owed[2].id, "d1");
}

#[test]
fn equal_deletion_stamps_keep_storage_order() {
    let mut db = Database::new();
    db.create_store("s1", "A", None).unwrap();
    db.update_store_from_gemini("s1", "remote/s", None, None, 0, 0, 0, 0).unwrap();
    db.create_document("d1", "s1", "a", "/a", None, None, None).unwrap();
    db.create_document("d2", "s1", "b", "/b", None, None, None).unwrap();
    db.create_document("d3", "s1", "c", "/c", None, None, None).unwrap();
    db.update_document_from_gemini("d1", "docs/1", None, DocStatus::Completed).unwrap();
    db.update_document_from_gemini("d2", "docs/2", None, DocStatus::Completed).unwrap();
    db.update_document_from_gemini("d3", "docs/3", None, DocStatus::Completed).unwrap();
    // d3 deleted first, then the bulk delete stamps d1 and d2 alike
    db.soft_delete_document("d3");
    db.soft_delete_documents_by_store("s1");
    let owed = db.get_soft_deleted_documents();
    assert_eq!(owed.len(), 3);
    assert_eq!(owed[0].id, "d3");
    assert_eq!(owed[1].id, "d1");
    assert_eq!(owed[2].id, "d2");
}

#[test]
fn never_uploaded_documents_owe_no_remote_deletion() {
    let mut db = Database::new();
    db.create_store("s1", "A", None).unwrap();
    db.create_document("d1", "s1", "a", "/a", None, None, None).unwrap();
    db.soft_delete_document("d1");
    // no remote id: the remote-deletion scan must not select it
    assert_eq!(db.get_soft_deleted_documents().len(), 0);
}

#[test]
fn hard_delete_store_cascades_to_documents() {
    let mut db = Database::new();
    db.create_store("s1", "A", None).unwrap();
    db.create_store("s2", "B", None).unwrap();
    db.create_document("d1", "s1", "a", "/a", None, None, None).unwrap();
    db.create_document("d2", "s2", "b", "/b", None, None, None).unwrap();
    db.hard_delete_store("s1");
    assert_eq!(db.get_store("s1").unwrap_err(), DbError::NotFound);
    assert_eq!(db.get_document("d1").unwrap_err(), DbError::NotFound);
    // the other store and its document survive
    assert!(db.get_store("s2").is_ok());
    assert!(db.get_document("d2").is_ok());
}

#[test]
fn get_stores_lists_alive_newest_first_with_counts() {
    let mut db = Database::new();
    db.create_store("s1", "A", None).unwrap();
    db.create_store("s2", "B", None).unwrap();
    db.create_store("s3", "C", None).unwrap();
    db.soft_delete_store("s3");
    db.create_document("d1", "s1", "a", "/a", None, None, None).unwrap();
    db.create_document("d2", "s1", "b", "/b", None, None, None).unwrap();
    db.create_document("d3", "s1", "c", "/c", None, None, None).unwrap();
    db.update_document_status("d1", DocStatus::Completed);
    db.update_document_error("d2", DocStatus::Failed, "broken");
    let rows = db.get_stores();
    assert_eq!(rows.len(), 2);
    // newest first
    assert_eq!(rows[0].store.id, "s2");
    assert_eq!(rows[1].store.id, "s1");
    assert_eq!(rows[0].document_count, 0);
    assert_eq!(rows[0].status, OverallStatus::Completed);
    assert_eq!(rows[1].document_count, 3);
    assert_eq!(rows[1].local_pending_count, 1);
    assert_eq!(rows[1].local_failed_count, 1);
    assert_eq!(rows[1].status, OverallStatus::Processing);
}

#[test]
fn documents_by_display_names_filters_alive_matches() {
    let mut db = Database::new();
    db.create_store("s1", "A", None).unwrap();
    db.create_document("d1", "s1", "a.txt", "/a", None, None, None).unwrap();
    db.create_document("d2", "s1", "b.txt", "/b", None, None, None).unwrap();
    db.create_document("d3", "s1", "c.txt", "/c", None, None, None).unwrap();
    db.soft_delete_document("d2");
    let names = vec!["a.txt".to_string(), "b.txt".to_string()];
    let found = db.get_documents_by_display_names(&names);
    assert_eq!(found.len(), 1);
    assert_eq!(found[0].id, "d1");
    let one = db.get_document_by_display_name("c.txt").unwrap();
    assert_eq!(one.id, "d3");
    assert!(db.get_document_by_display_name("b.txt").is_none());
    let none: Vec<String> = Vec::new();
    assert_eq!(db.get_documents_by_display_names(&none).len(), 0);
}

#[test]
fn update_document_error_clears_the_handle() {
    let mut db = Database::new();
    db.create_store("s1", "A", None).unwrap();
    db.create_document("d1", "s1", "a", "/a", None, None, None).unwrap();
    db.update_document_operation("d1", "operations/op1");
    db.update_document_error("d1", DocStatus::Failed, "remote exploded");
    let d = db.get_document("d1").unwrap();
    assert_eq!(d.status, DocStatus::Failed);
    assert_eq!(d.error_message, Some("remote exploded".to_string()));
    assert!(d.operation_name.is_none());
}

#[test]
fn updates_on_absent_ids_change_nothing() {
    let mut db = Database::new();
    db.create_store("s1", "A", None).unwrap();
    db.update_store_sync_status("ghost", SyncStatus::Failed, None).unwrap();
    db.update_document_sync_status("ghost", SyncStatus::Failed);
    db.soft_delete_store("ghost");
    db.hard_delete_document("ghost");
    assert!(db.get_store("s1").is_ok());
    assert_eq!(db.get_stores().len(), 1);
}
