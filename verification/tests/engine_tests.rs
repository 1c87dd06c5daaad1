//! Tests of the two engines: the synchronization cycle's four steps and
//! the polling engine's resolution of remote operations, driven exactly as
//! the surrounding program drives them.

use storesync::commands;
use storesync::db::Database;
use storesync::gemini::{FileSearchStore, Operation, OperationError, OperationResponse};
use storesync::model::{DocStatus, SyncStatus};
use storesync::polling::{apply_document_info, apply_operation_result, PollStep, PollingState};
use storesync::sync::{
    apply_document_delete_outcome, apply_document_upload_result, apply_store_create_result,
    apply_store_delete_outcome, plan_document_upload, SyncState,
};

fn remote_store(name: &str) -> FileSearchStore {
    FileSearchStore {
        name: name.to_string(),
        display_name: None,
        create_time: Some("2024-01-01T00:00:00Z".to_string()),
        update_time: None,
        active_documents_count: 0,
        pending_documents_count: 0,
        failed_documents_count: 0,
        size_bytes: 0,
    }
}

fn remote_doc(name: &str, state: Option<&str>) -> storesync::gemini::Document {
    storesync::gemini::Document {
        name: name.to_string(),
        display_name: None,
        state: state.map(|s| s.to_string()),
        size_bytes: 10,
        mime_type: Some("text/plain".to_string()),
        create_time: None,
        update_time: None,
    }
}

#[test]
fn first_cycle_syncs_a_new_store() {
    // create a store titled "Notes", run the push step with a successful
    // remote outcome: it ends synced with a non-empty remote id
    let mut db = Database::new();
    let mut sync = SyncState::new();
    let st = commands::create_store(&mut db, &mut sync, "Notes", None).unwrap();
    assert!(sync.take_wake());
    let pending = db.get_pending_sync_stores();
    assert_eq!(pending.len(), 1);
    let outcome = Ok(remote_store("fileSearchStores/notes-1"));
    let event = apply_store_create_result(&mut db, pending[0].id.as_str(), &outcome).unwrap();
    assert_eq!(event.sync_status, SyncStatus::Synced);
    let after = db.get_store(st.id.as_str()).unwrap();
    assert_eq!(after.sync_status, SyncStatus::Synced);
    assert_eq!(after.gemini_name, Some("fileSearchStores/notes-1".to_string()));
    assert!(!after.gemini_name.unwrap().is_empty());
}

#[test]
fn failed_store_push_marks_failed_and_stays_out() {
    let mut db = Database::new();
    let mut sync = SyncState::new();
    let st = commands::create_store(&mut db, &mut sync, "Notes", None).unwrap();
    let outcome: Result<FileSearchStore, String> = Err("server unreachable".to_string());
    let event = apply_store_create_result(&mut db, st.id.as_str(), &outcome).unwrap();
    assert_eq!(event.sync_status, SyncStatus::Failed);
    assert_eq!(db.get_store(st.id.as_str()).unwrap().sync_status, SyncStatus::Failed);
    // a failed store is not selected again
    assert_eq!(db.get_pending_sync_stores().len(), 0);
}

#[test]
fn cycle_uploads_a_document_under_a_synced_store() {
    // a ten-byte file under a synced store: after the upload step the
    // document is synced, processing, and carries the operation handle
    let mut db = Database::new();
    let mut sync = SyncState::new();
    let mut polling = PollingState::new();
    let st = commands::create_store(&mut db, &mut sync, "Notes", None).unwrap();
    apply_store_create_result(&mut db, st.id.as_str(), &Ok(remote_store("remote/s"))).unwrap();
    let files = vec![storesync::model::FileInfo {
        name: "report.pdf".to_string(),
        path: "/tmp/report.pdf".to_string(),
        content_type: None,
        size: Some(10),
        hash: None,
    }];
    let docs = commands::upload_documents(&mut db, &mut sync, st.id.as_str(), &files).unwrap();
    assert_eq!(docs.len(), 1);
    let ready = db.get_pending_upload_documents();
    assert_eq!(ready.len(), 1);
    let plan = plan_document_upload(&db, &ready[0]).unwrap();
    assert_eq!(plan.store_gemini_name, "remote/s");
    assert_eq!(plan.display_name, "report.pdf");
    // the MIME guess runs on the real table: a .pdf path is recognised
    assert_eq!(plan.mime_type, "application/pdf");
    let op = Operation {
        name: "operations/upload-1".to_string(),
        done: false,
        error: None,
        response: None,
    };
    let event = apply_document_upload_result(
        &mut db,
        &mut polling,
        plan.document_id.as_str(),
        plan.store_id.as_str(),
        &Ok(op),
    )
    .unwrap();
    assert_eq!(event.sync_status, SyncStatus::Synced);
    assert_eq!(event.status, DocStatus::Processing);
    let d = db.get_document(docs[0].id.as_str()).unwrap();
    assert_eq!(d.sync_status, SyncStatus::Synced);
    assert_eq!(d.status, DocStatus::Processing);
    assert_eq!(d.operation_name, Some("operations/upload-1".to_string()));
    // a successful upload wakes the polling engine
    assert!(polling.take_wake());
}

#[test]
fn polling_resolves_a_done_operation_to_completed() {
    // operation done, no error, result item "X": the document completes,
    // records remote id "X", and the handle is cleared
    let mut db = Database::new();
    db.create_store("s1", "A", None).unwrap();
    db.create_document("d1", "s1", "a", "/a", None, None, None).unwrap();
    db.update_document_operation("d1", "operations/op1");
    let op = Operation {
        name: "operations/op1".to_string(),
        done: true,
        error: None,
        response: Some(OperationResponse { type_url: None, document_name: Some("X".to_string()) }),
    };
    let (step, event) = apply_operation_result(&mut db, "d1", "s1", &Ok(op));
    assert!(event.is_none());
    let target = match step {
        PollStep::FetchDocument(n) => n,
        _ => panic!("expected a fetch request"),
    };
    assert_eq!(target, "X");
    let event = apply_document_info(&mut db, "d1", "s1", &Ok(remote_doc("X", Some("STATE_ACTIVE"))))
        .unwrap();
    assert_eq!(event.status, DocStatus::Completed);
    let d = db.get_document("d1").unwrap();
    assert_eq!(d.status, DocStatus::Completed);
    assert_eq!(d.gemini_name, Some("X".to_string()));
    assert_eq!(d.mime_type, Some("text/plain".to_string()));
    assert!(d.operation_name.is_none());
}

#[test]
fn polling_records_a_failed_operation() {
    let mut db = Database::new();
    db.create_store("s1", "A", None).unwrap();
    db.create_document("d1", "s1", "a", "/a", None, None, None).unwrap();
    db.update_document_operation("d1", "operations/op1");
    let op = Operation {
        name: "operations/op1".to_string(),
        done: true,
        error: Some(OperationError { code: 13, message: "ingestion blew up".to_string() }),
        response: None,
    };
    let (step, event) = apply_operation_result(&mut db, "d1", "s1", &Ok(op));
    assert!(matches!(step, PollStep::Failed));
    assert_eq!(event.unwrap().status, DocStatus::Failed);
    let d = db.get_document("d1").unwrap();
    assert_eq!(d.status, DocStatus::Failed);
    assert_eq!(d.error_message, Some("ingestion blew up".to_string()));
    assert!(d.operation_name.is_none());
    // terminal: the polling scan drops it
    assert_eq!(db.get_documents_with_pending_operations().len(), 0);
}

#[test]
fn polling_leaves_an_unfinished_operation_alone() {
    let mut db = Database::new();
    db.create_store("s1", "A", None).unwrap();
    db.create_document("d1", "s1", "a", "/a", None, None, None).unwrap();
    db.update_document_operation("d1", "operations/op1");
    let op = Operation {
        name: "operations/op1".to_string(),
        done: false,
        error: None,
        response: None,
    };
    let (step, event) = apply_operation_result(&mut db, "d1", "s1", &Ok(op));
    assert!(matches!(step, PollStep::Wait));
    assert!(event.is_none());
    assert_eq!(db.get_documents_with_pending_operations().len(), 1);
}

#[test]
fn soft_deleted_document_without_remote_id_is_purged_locally() {
    // never uploaded: the cycle hard-deletes it at once, no remote call
    let mut db = Database::new();
    let mut sync = SyncState::new();
    db.create_store("s1", "A", None).unwrap();
    db.create_document("d1", "s1", "a", "/a", None, None, None).unwrap();
    commands::delete_document(&mut db, &mut sync, "d1");
    assert_eq!(db.get_soft_deleted_documents().len(), 0);
    db.hard_delete_never_synced_documents();
    assert!(db.get_document("d1").is_err());
    assert_eq!(db.get_documents_by_store("s1").len(), 0);
}

#[test]
fn not_found_on_remote_delete_counts_as_success() {
    // the remote service reports the document already gone: hard delete
    // proceeds
    let mut db = Database::new();
    db.create_store("s1", "A", None).unwrap();
    db.update_store_from_gemini("s1", "remote/s", None, None, 0, 0, 0, 0).unwrap();
    db.create_document("d1", "s1", "a", "/a", None, None, None).unwrap();
    db.update_document_from_gemini("d1", "docs/d", None, DocStatus::Completed).unwrap();
    db.soft_delete_document("d1");
    assert_eq!(db.get_soft_deleted_documents().len(), 1);
    let outcome: Result<(), String> = Err("API error (404): NOT_FOUND".to_string());
    apply_document_delete_outcome(&mut db, "d1", &outcome);
    assert!(db.get_document("d1").is_err());
    assert_eq!(db.get_soft_deleted_documents().len(), 0);
}

#[test]
fn other_remote_errors_keep_the_record_for_retry() {
    let mut db = Database::new();
    db.create_store("s1", "A", None).unwrap();
    db.update_store_from_gemini("s1", "remote/s", None, None, 0, 0, 0, 0).unwrap();
    db.create_document("d1", "s1", "a", "/a", None, None, None).unwrap();
    db.update_document_from_gemini("d1", "docs/d", None, DocStatus::Completed).unwrap();
    db.soft_delete_document("d1");
    let outcome: Result<(), String> = Err("server exploded".to_string());
    apply_document_delete_outcome(&mut db, "d1", &outcome);
    // still owed: selected again next cycle
    assert_eq!(db.get_soft_deleted_documents().len(), 1);
}

#[test]
fn store_deletion_reconciliation_is_idempotent() {
    let mut db = Database::new();
    let mut sync = SyncState::new();
    db.create_store("s1", "A", None).unwrap();
    db.create_document("d1", "s1", "a", "/a", None, None, None).unwrap();
    commands::delete_store(&mut db, &mut sync, "s1");
    assert_eq!(db.get_soft_deleted_stores().len(), 1);
    // never synced: no remote call owed, reconciled without an outcome
    apply_store_delete_outcome(&mut db, "s1", &None);
    assert_eq!(db.get_soft_deleted_stores().len(), 0);
    assert!(db.get_document("d1").is_err());
    // a second reconciliation of the same id selects nothing and changes
    // nothing
    apply_store_delete_outcome(&mut db, "s1", &None);
    assert_eq!(db.get_soft_deleted_stores().len(), 0);
    assert_eq!(db.get_stores().len(), 0);
}

#[test]
fn upload_failure_closes_the_gate() {
    // a transient gateway error during upload: the document ends failed on
    // both axes with a message, and the next cycle does not retry it
    let mut db = Database::new();
    let mut sync = SyncState::new();
    let mut polling = PollingState::new();
    let st = commands::create_store(&mut db, &mut sync, "Notes", None).unwrap();
    apply_store_create_result(&mut db, st.id.as_str(), &Ok(remote_store("remote/s"))).unwrap();
    let files = vec![storesync::model::FileInfo {
        name: "a.txt".to_string(),
        path: "/tmp/a.txt".to_string(),
        content_type: None,
        size: Some(10),
        hash: None,
    }];
    let docs = commands::upload_documents(&mut db, &mut sync, st.id.as_str(), &files).unwrap();
    let outcome: Result<Operation, String> = Err("connection reset".to_string());
    let event = apply_document_upload_result(
        &mut db,
        &mut polling,
        docs[0].id.as_str(),
        st.id.as_str(),
        &outcome,
    )
    .unwrap();
    assert_eq!(event.sync_status, SyncStatus::Failed);
    assert_eq!(event.status, DocStatus::Failed);
    let d = db.get_document(docs[0].id.as_str()).unwrap();
    assert_eq!(d.sync_status, SyncStatus::Failed);
    assert_eq!(d.status, DocStatus::Failed);
    assert!(!d.error_message.clone().unwrap().is_empty());
    assert_eq!(d.error_message, Some("connection reset".to_string()));
    // gate closed: the upload scan no longer selects it
    assert_eq!(db.get_pending_upload_documents().len(), 0);
    // and no wake went to the polling engine
    assert!(!polling.take_wake());
}

#[test]
fn fresh_store_and_document_converge_in_one_pass() {
    // convergence: store created, document created under it, then the
    // cycle's two push steps with successful outcomes leave nothing pending
    let mut db = Database::new();
    let mut sync = SyncState::new();
    let mut polling = PollingState::new();
    let st = commands::create_store(&mut db, &mut sync, "Inbox", None).unwrap();
    let files = vec![storesync::model::FileInfo {
        name: "a.txt".to_string(),
        path: "/tmp/a.txt".to_string(),
        content_type: None,
        size: Some(1),
        hash: None,
    }];
    let docs = commands::upload_documents(&mut db, &mut sync, st.id.as_str(), &files).unwrap();
    // step 1: push the pending store
    for s in db.get_pending_sync_stores() {
        apply_store_create_result(&mut db, s.id.as_str(), &Ok(remote_store("remote/inbox")));
    }
    // step 2: upload the now-eligible document
    let ready = db.get_pending_upload_documents();
    assert_eq!(ready.len(), 1);
    for d in ready {
        let plan = plan_document_upload(&db, &d).unwrap();
        let op = Operation {
            name: "operations/up".to_string(),
            done: false,
            error: None,
            response: None,
        };
        apply_document_upload_result(
            &mut db,
            &mut polling,
            plan.document_id.as_str(),
            plan.store_id.as_str(),
            &Ok(op),
        );
    }
    assert_eq!(db.get_store(st.id.as_str()).unwrap().sync_status, SyncStatus::Synced);
    let d = db.get_document(docs[0].id.as_str()).unwrap();
    assert_eq!(d.sync_status, SyncStatus::Synced);
    assert_eq!(d.status, DocStatus::Processing);
    // nothing is left pending
    assert_eq!(db.get_pending_sync_stores().len(), 0);
    assert_eq!(db.get_pending_upload_documents().len(), 0);
}

#[test]
fn engine_states_coalesce_wakes_and_start_once() {
    let mut sync = SyncState::new();
    assert!(!sync.take_wake());
    sync.notify();
    sync.notify();
    sync.notify();
    // many pings collapse into one pending wake
    assert!(sync.take_wake());
    assert!(!sync.take_wake());
    assert!(sync.try_start());
    // a second start request is a no-op
    assert!(!sync.try_start());
    assert!(sync.is_running());
    sync.set_running(false);
    assert!(!sync.is_running());
    let mut polling = PollingState::new();
    assert!(polling.try_start());
    assert!(!polling.try_start());
}

#[test]
fn generated_ids_have_uuid_shape() {
    let mut db = Database::new();
    let mut sync = SyncState::new();
    let a = commands::create_store(&mut db, &mut sync, "A", None).unwrap();
    let b = commands::create_store(&mut db, &mut sync, "B", None).unwrap();
    assert_eq!(a.id.len(), 36);
    assert_eq!(b.id.len(), 36);
    assert_ne!(a.id, b.id);
}
