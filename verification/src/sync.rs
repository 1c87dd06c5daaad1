//! The synchronization engine: pushes local mutations to the remote
//! service and replays remote deletions.
//!
//! A cycle runs four steps in fixed order: push new stores, upload new
//! documents, reconcile deleted stores, reconcile deleted documents. The
//! scans are the store's queries; the remote calls are performed by the
//! surrounding program, which hands each call's outcome back to the
//! verified steps here.

use vstd::prelude::*;

use crate::db::{
    doc_error_set, doc_operation_set, doc_sync_set, store_from_remote, store_status_set, tick,
    Database,
};
use crate::gemini::{FileSearchStore, Operation};
use crate::model::{
    opt_view, DocStatus, Document, DocumentSyncPayload, StoreSyncPayload, SyncStatus,
};
use crate::polling::PollingState;
use crate::text::{str_contains, str_has};

verus! {

/// Wake-and-run state of the synchronization engine: a single-slot wake
/// signal that collapses repeated pings, and the running flag that makes
/// starting the engine idempotent.
pub struct SyncState {
    /// True while the engine's task is running.
    pub running: bool,
    /// True while a wake ping has not been consumed yet.
    pub wake: bool,
}

impl SyncState {
    /// A fresh state: not running, no wake pending.
    pub fn new() -> (r: SyncState)
        ensures
            !r.running,
            !r.wake,
    {
        SyncState { running: false, wake: false }
    }

    /// Pings the engine: at most one wake stays pending however often this
    /// is called.
    pub fn notify(&mut self)
        ensures
            final(self).wake,
            final(self).running == old(self).running,
    {
        self.wake = true;
    }

    /// Consumes the pending wake, if any, and says whether there was one.
    pub fn take_wake(&mut self) -> (r: bool)
        ensures
            r == old(self).wake,
            !final(self).wake,
            final(self).running == old(self).running,
    {
        let w = self.wake;
        self.wake = false;
        w
    }

    /// Whether the engine's task is running.
    pub fn is_running(&self) -> (r: bool)
        ensures
            r == self.running,
    {
        self.running
    }

    /// Sets the running flag.
    pub fn set_running(&mut self, running: bool)
        ensures
            final(self).running == running,
            final(self).wake == old(self).wake,
    {
        self.running = running;
    }

    /// Claims the engine for a start: succeeds exactly when it was not
    /// running, so a second start request is a no-op.
    pub fn try_start(&mut self) -> (r: bool)
        ensures
            r == !old(self).running,
            final(self).running,
            final(self).wake == old(self).wake,
    {
        if self.running {
            false
        } else {
            self.running = true;
            true
        }
    }
}

/// Name for what the MIME-type table answers on a path: it depends on the
/// path (its extension) alone.
pub uninterp spec fn mime_of(path: Seq<char>) -> Seq<char>;

/// Relies on mime_guess::from_path with first_or_octet_stream: a lookup of
/// the path's extension in a fixed table, with application/octet-stream as
/// the fallback, so the result is a function of the path alone.
#[verifier::external_body]
fn guess_mime(path: &str) -> (r: String)
    ensures
        r@ == mime_of(path@),
{
    mime_guess::from_path(path).first_or_octet_stream().to_string()
}

/// Everything the surrounding program needs to upload one document: where
/// to send it, what to call it, and its declared MIME type.
pub struct UploadRequest {
    /// Local id of the document.
    pub document_id: String,
    /// Local id of the owning store.
    pub store_id: String,
    /// Remote identifier of the owning store.
    pub store_gemini_name: String,
    /// Local file path of the document's bytes.
    pub path: String,
    /// Display name the upload is labelled with.
    pub display_name: String,
    /// MIME type guessed from the path.
    pub mime_type: String,
}

/// Plans the upload of one pending document: the owning store must be
/// alive and carry a remote identifier; the MIME type is guessed from the
/// document's path.
pub fn plan_document_upload(db: &Database, doc: &Document) -> (r: Option<UploadRequest>)
    requires
        db.wf(),
    ensures
        match r {
            Some(u) => {
                &&& db.has_alive_store(doc@.store_id)
                &&& db.store_of(doc@.store_id).gemini_name == Some(u.store_gemini_name@)
                &&& u.document_id@ == doc@.id
                &&& u.store_id@ == doc@.store_id
                &&& u.path@ == doc@.path
                &&& u.display_name@ == doc@.name
                &&& u.mime_type@ == mime_of(doc@.path)
            },
            None => !(db.has_alive_store(doc@.store_id) && db.store_of(
                doc@.store_id,
            ).gemini_name is Some),
        },
{
    let store = match db.get_store(doc.store_id.as_str()) {
        Ok(s) => s,
        Err(_) => {
            return None;
        },
    };
    match &store.gemini_name {
        Some(g) => {
            let mime = guess_mime(doc.path.as_str());
            Some(
                UploadRequest {
                    document_id: doc.id.clone(),
                    store_id: doc.store_id.clone(),
                    store_gemini_name: g.clone(),
                    path: doc.path.clone(),
                    display_name: doc.name.clone(),
                    mime_type: mime,
                },
            )
        },
        None => None,
    }
}

/// Digests the outcome of creating one store remotely. Success records the
/// remote identifier, timestamps and counts and marks the store synced;
/// failure marks it failed. The returned event mirrors the new state; no
/// event is owed when success could not be recorded because the remote
/// identifier was already taken locally.
pub fn apply_store_create_result(
    db: &mut Database,
    store_id: &str,
    outcome: &Result<FileSearchStore, String>,
) -> (r: Option<StoreSyncPayload>)
    requires
        old(db).wf(),
    ensures
        final(db).wf(),
        match outcome {
            Ok(fs) => {
                if old(db).has_store(store_id@) && !old(db).store_remote_clash(
                    store_id@,
                    fs.name@,
                ) {
                    &&& Database::store_updated(
                        *old(db),
                        *final(db),
                        store_id@,
                        store_from_remote(
                            old(db).store_of(store_id@),
                            fs.name@,
                            opt_view(fs.create_time),
                            opt_view(fs.update_time),
                            fs.active_documents_count as int,
                            fs.pending_documents_count as int,
                            fs.failed_documents_count as int,
                            fs.size_bytes as int,
                            old(db).clock as int,
                        ),
                    )
                    &&& (r matches Some(p) && p.store_id@ == store_id@ && p.sync_status
                        == SyncStatus::Synced && opt_view(p.gemini_name) == Some(fs.name@))
                } else if !old(db).has_store(store_id@) {
                    &&& *final(db) == *old(db)
                    &&& (r matches Some(p) && p.store_id@ == store_id@ && p.sync_status
                        == SyncStatus::Synced && opt_view(p.gemini_name) == Some(fs.name@))
                } else {
                    &&& *final(db) == *old(db)
                    &&& r is None
                }
            },
            Err(_) => {
                &&& (old(db).has_store(store_id@) ==> Database::store_updated(
                    *old(db),
                    *final(db),
                    store_id@,
                    store_status_set(
                        old(db).store_of(store_id@),
                        SyncStatus::Failed,
                        None,
                        old(db).clock as int,
                    ),
                ))
                &&& (!old(db).has_store(store_id@) ==> *final(db) == *old(db))
                &&& (r matches Some(p) && p.store_id@ == store_id@ && p.sync_status
                    == SyncStatus::Failed && p.gemini_name is None)
            },
        },
        old(db).stores_consistent() && (old(db).has_store(store_id@) ==> old(db).store_of(
            store_id@,
        ).sync_status != SyncStatus::Synced) ==> final(db).stores_consistent(),
{
    match outcome {
        Ok(fs) => {
            let wrote = db.update_store_from_gemini(
                store_id,
                fs.name.as_str(),
                crate::model::opt_as_str(&fs.create_time),
                crate::model::opt_as_str(&fs.update_time),
                fs.active_documents_count,
                fs.pending_documents_count,
                fs.failed_documents_count,
                fs.size_bytes,
            );
            match wrote {
                Ok(()) => Some(
                    StoreSyncPayload {
                        store_id: store_id.to_owned(),
                        sync_status: SyncStatus::Synced,
                        gemini_name: Some(fs.name.clone()),
                    },
                ),
                Err(_) => None,
            }
        },
        Err(_) => {
            let _ = db.update_store_sync_status(store_id, SyncStatus::Failed, None);
            proof {
                if old(db).stores_consistent() && old(db).has_store(store_id@) && old(
                    db,
                ).store_of(store_id@).sync_status != SyncStatus::Synced {
                    Database::lemma_stores_consistent_update(
                        *old(db),
                        *db,
                        store_id@,
                        store_status_set(
                            old(db).store_of(store_id@),
                            SyncStatus::Failed,
                            None,
                            old(db).clock as int,
                        ),
                    );
                }
            }
            Some(
                StoreSyncPayload {
                    store_id: store_id.to_owned(),
                    sync_status: SyncStatus::Failed,
                    gemini_name: None,
                },
            )
        },
    }
}

/// Digests the outcome of initiating one document upload. Success stores
/// the operation handle, marks the document synced and processing, and
/// pings the polling engine; failure marks the document failed on both
/// axes and records the message. The returned event mirrors the new state.
pub fn apply_document_upload_result(
    db: &mut Database,
    polling: &mut PollingState,
    document_id: &str,
    store_id: &str,
    outcome: &Result<Operation, String>,
) -> (r: Option<DocumentSyncPayload>)
    requires
        old(db).wf(),
    ensures
        final(db).wf(),
        match outcome {
            Ok(op) => {
                &&& (old(db).has_doc(document_id@) ==> Database::doc_updated(
                    *old(db),
                    *final(db),
                    document_id@,
                    doc_operation_set(
                        old(db).doc_of(document_id@),
                        op.name@,
                        old(db).clock as int,
                    ),
                ))
                &&& (!old(db).has_doc(document_id@) ==> *final(db) == *old(db))
                &&& final(polling).wake
                &&& final(polling).running == old(polling).running
                &&& (r matches Some(p) && p.document_id@ == document_id@ && p.store_id@
                    == store_id@ && p.sync_status == SyncStatus::Synced && p.status
                    == DocStatus::Processing && opt_view(p.operation_name) == Some(op.name@)
                    && p.gemini_name is None)
            },
            Err(e) => {
                &&& (old(db).has_doc(document_id@) ==> {
                    let c = old(db).clock as int;
                    let k = old(db).doc_index(document_id@);
                    &&& final(db).n_docs() == old(db).n_docs()
                    &&& final(db).doc_m(k) == doc_error_set(
                        doc_sync_set(old(db).doc_of(document_id@), SyncStatus::Failed, c),
                        DocStatus::Failed,
                        e@,
                        tick(c),
                    )
                    &&& (forall|i: int|
                        0 <= i < old(db).n_docs() && i != k ==> #[trigger] final(db).doc_m(i)
                            == old(db).doc_m(i))
                    &&& final(db).stores == old(db).stores
                    &&& final(db).clock == tick(tick(c))
                })
                &&& (!old(db).has_doc(document_id@) ==> *final(db) == *old(db))
                &&& *final(polling) == *old(polling)
                &&& (r matches Some(p) && p.document_id@ == document_id@ && p.store_id@
                    == store_id@ && p.sync_status == SyncStatus::Failed && p.status
                    == DocStatus::Failed && p.operation_name is None && p.gemini_name is None)
            },
        },
        old(db).docs_consistent() ==> final(db).docs_consistent(),
{
    match outcome {
        Ok(op) => {
            db.update_document_operation(document_id, op.name.as_str());
            polling.notify();
            Some(
                DocumentSyncPayload {
                    document_id: document_id.to_owned(),
                    store_id: store_id.to_owned(),
                    sync_status: SyncStatus::Synced,
                    gemini_name: None,
                    operation_name: Some(op.name.clone()),
                    status: DocStatus::Processing,
                },
            )
        },
        Err(e) => {
            let ghost pre = *db;
            db.update_document_sync_status(document_id, SyncStatus::Failed);
            let ghost mid = *db;
            db.update_document_error(document_id, DocStatus::Failed, e.as_str());
            proof {
                if pre.has_doc(document_id@) {
                    let k = pre.doc_index(document_id@);
                    assert(pre.doc_m(k).id == document_id@);
                    assert(mid.doc_m(k).id == document_id@);
                    mid.lemma_doc_index(k);
                    assert(mid.doc_index(document_id@) == k);
                    assert(mid.doc_of(document_id@) == doc_sync_set(
                        pre.doc_of(document_id@),
                        SyncStatus::Failed,
                        pre.clock as int,
                    ));
                }
            }
            Some(
                DocumentSyncPayload {
                    document_id: document_id.to_owned(),
                    store_id: store_id.to_owned(),
                    sync_status: SyncStatus::Failed,
                    gemini_name: None,
                    operation_name: None,
                    status: DocStatus::Failed,
                },
            )
        },
    }
}

/// A deletion reply that reports the remote record as missing: the remote
/// service answers with a not-found status, which the engine treats as
/// success, since the record is gone either way.
pub open spec fn spec_not_found_reply(e: Seq<char>) -> bool {
    str_has(e, "404"@) || str_has(e, "NOT_FOUND"@)
}

/// Whether a deletion error message reports the remote record as missing.
pub fn is_not_found_reply(e: &str) -> (r: bool)
    ensures
        r == spec_not_found_reply(e@),
{
    str_contains(e, "404") || str_contains(e, "NOT_FOUND")
}

/// The remote side of a deletion is settled: either nothing was ever
/// created remotely, or the remote service acknowledged the deletion, or
/// it reported the record as already gone.
pub open spec fn remote_delete_settled(o: Option<Result<(), String>>) -> bool {
    match o {
        None => true,
        Some(res) => match res {
            Ok(_) => true,
            Err(e) => spec_not_found_reply(e@),
        },
    }
}

/// Digests the reconciliation of one soft-deleted store. `outcome` is the
/// remote deletion's result, or nothing when the store never received a
/// remote identifier and no call was owed. Once the remote side is
/// settled, the record is hard-deleted together with its documents; any
/// other error leaves the soft-deleted record for a later cycle.
pub fn apply_store_delete_outcome(
    db: &mut Database,
    store_id: &str,
    outcome: &Option<Result<(), String>>,
)
    requires
        old(db).wf(),
    ensures
        final(db).wf(),
        remote_delete_settled(*outcome) ==> Database::store_hard_deleted(
            *old(db),
            *final(db),
            store_id@,
        ),
        !remote_delete_settled(*outcome) ==> *final(db) == *old(db),
        old(db).stores_consistent() ==> final(db).stores_consistent(),
        old(db).docs_consistent() ==> final(db).docs_consistent(),
{
    match outcome {
        None => db.hard_delete_store(store_id),
        Some(res) => match res {
            Ok(_) => db.hard_delete_store(store_id),
            Err(e) => {
                if is_not_found_reply(e.as_str()) {
                    db.hard_delete_store(store_id);
                }
            },
        },
    }
}

/// Digests the reconciliation of one soft-deleted document that has a
/// remote identifier. Once the remote deletion succeeded or the record was
/// already gone, the local record is hard-deleted; any other error leaves
/// it for a later cycle.
pub fn apply_document_delete_outcome(db: &mut Database, document_id: &str, outcome: &Result<
    (),
    String,
>)
    requires
        old(db).wf(),
    ensures
        final(db).wf(),
        remote_delete_settled(Some(*outcome)) ==> Database::doc_hard_deleted(
            *old(db),
            *final(db),
            document_id@,
        ),
        !remote_delete_settled(Some(*outcome)) ==> *final(db) == *old(db),
        old(db).docs_consistent() ==> final(db).docs_consistent(),
{
    match outcome {
        Ok(_) => db.hard_delete_document(document_id),
        Err(e) => {
            if is_not_found_reply(e.as_str()) {
                db.hard_delete_document(document_id);
            }
        },
    }
}

} // verus!
