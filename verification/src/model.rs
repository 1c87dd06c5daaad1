//! Data model: stores, documents, their status fields, and the ghost models
//! that contracts are stated over.

use vstd::prelude::*;

verus! {

/// Convergence state between a local record and its remote counterpart.
#[derive(Clone, Copy, Debug, PartialEq, Eq, Structural)]
pub enum SyncStatus {
    /// Not yet pushed to the remote service.
    Pending,
    /// Acknowledged by the remote service.
    Synced,
    /// The last push attempt failed; waits for manual intervention.
    Failed,
}

/// Remote ingestion/indexing progress of a document, meaningful once an
/// upload has started.
#[derive(Clone, Copy, Debug, PartialEq, Eq, Structural)]
pub enum DocStatus {
    /// Not yet uploaded.
    Pending,
    /// Uploaded; a remote operation is outstanding.
    Processing,
    /// The remote service finished indexing the document.
    Completed,
    /// Upload or indexing failed.
    Failed,
}

/// Derived overall activity of a store, computed from its live documents.
#[derive(Clone, Copy, Debug, PartialEq, Eq, Structural)]
pub enum OverallStatus {
    /// At least one live document is not in a terminal state.
    Processing,
    /// Every live document is completed or failed.
    Completed,
}

/// Failures of the persistent store.
#[derive(Clone, Copy, Debug, PartialEq, Eq, Structural)]
pub enum DbError {
    /// No alive record carries the requested id.
    NotFound,
    /// A record with the same id already exists.
    DuplicateId,
    /// Another record already carries this remote identifier.
    DuplicateRemoteId,
    /// The referenced owning store does not exist.
    MissingStore,
}

/// A store: the local mirror of one remote document collection.
#[derive(Debug)]
pub struct Store {
    /// Locally generated unique id, stable for the record's lifetime.
    pub id: String,
    /// Remote identifier; absent until the first successful remote creation.
    pub gemini_name: Option<String>,
    /// User-chosen title.
    pub title: String,
    /// Optional source directory the store mirrors.
    pub directory_path: Option<String>,
    /// Local-to-remote convergence state.
    pub sync_status: SyncStatus,
    /// Remote creation timestamp, as reported by the service.
    pub create_time: Option<String>,
    /// Remote update timestamp, as reported by the service.
    pub update_time: Option<String>,
    /// Count of active documents, mirrored from the remote service.
    pub active_documents_count: i64,
    /// Count of pending documents, mirrored from the remote service.
    pub pending_documents_count: i64,
    /// Count of failed documents, mirrored from the remote service.
    pub failed_documents_count: i64,
    /// Total size in bytes, mirrored from the remote service.
    pub size_bytes: i64,
    /// Absent while the record is alive; set on soft deletion.
    pub deleted_at: Option<i64>,
    /// Logical creation stamp.
    pub created_at: i64,
    /// Logical stamp of the last mutation.
    pub updated_at: i64,
}

/// Ghost model of a [`Store`]: every text field as a character sequence.
#[verifier::ext_equal]
pub ghost struct StoreModel {
    pub id: Seq<char>,
    pub gemini_name: Option<Seq<char>>,
    pub title: Seq<char>,
    pub directory_path: Option<Seq<char>>,
    pub sync_status: SyncStatus,
    pub create_time: Option<Seq<char>>,
    pub update_time: Option<Seq<char>>,
    pub active_documents_count: int,
    pub pending_documents_count: int,
    pub failed_documents_count: int,
    pub size_bytes: int,
    pub deleted_at: Option<int>,
    pub created_at: int,
    pub updated_at: int,
}

/// Ghost model of an optional string.
pub open spec fn opt_view(o: Option<String>) -> Option<Seq<char>> {
    match o {
        Some(s) => Some(s@),
        None => None,
    }
}

/// Borrows the contents of an optional string.
pub fn opt_as_str(o: &Option<String>) -> (r: Option<&str>)
    ensures
        match r {
            Some(s) => opt_view(*o) == Some(s@),
            None => opt_view(*o) is None,
        },
{
    match o {
        Some(s) => Some(s.as_str()),
        None => None,
    }
}

impl View for Store {
    type V = StoreModel;

    open spec fn view(&self) -> StoreModel {
        StoreModel {
            id: self.id@,
            gemini_name: opt_view(self.gemini_name),
            title: self.title@,
            directory_path: opt_view(self.directory_path),
            sync_status: self.sync_status,
            create_time: opt_view(self.create_time),
            update_time: opt_view(self.update_time),
            active_documents_count: self.active_documents_count as int,
            pending_documents_count: self.pending_documents_count as int,
            failed_documents_count: self.failed_documents_count as int,
            size_bytes: self.size_bytes as int,
            deleted_at: match self.deleted_at {
                Some(t) => Some(t as int),
                None => None,
            },
            created_at: self.created_at as int,
            updated_at: self.updated_at as int,
        }
    }
}

impl StoreModel {
    /// A record is alive while it has not been soft-deleted.
    pub open spec fn alive(self) -> bool {
        self.deleted_at is None
    }
}

/// Duplicates an optional string, field for field.
fn clone_opt(o: &Option<String>) -> (r: Option<String>)
    ensures
        opt_view(r) == opt_view(*o),
{
    match o {
        Some(s) => Some(s.clone()),
        None => None,
    }
}

impl Clone for Store {
    /// A clone carries exactly the fields of the original.
    fn clone(&self) -> (r: Self)
        ensures
            r@ == self@,
    {
        let r = Store {
            id: self.id.clone(),
            gemini_name: clone_opt(&self.gemini_name),
            title: self.title.clone(),
            directory_path: clone_opt(&self.directory_path),
            sync_status: self.sync_status,
            create_time: clone_opt(&self.create_time),
            update_time: clone_opt(&self.update_time),
            active_documents_count: self.active_documents_count,
            pending_documents_count: self.pending_documents_count,
            failed_documents_count: self.failed_documents_count,
            size_bytes: self.size_bytes,
            deleted_at: self.deleted_at,
            created_at: self.created_at,
            updated_at: self.updated_at,
        };
        proof {
            assert(r@ =~= self@);
        }
        r
    }
}

/// A document: the local mirror of one uploaded file and its remote
/// ingestion state.
#[derive(Debug)]
pub struct Document {
    /// Locally generated unique id.
    pub id: String,
    /// Id of the owning store.
    pub store_id: String,
    /// Remote identifier; absent until the upload operation completes.
    pub gemini_name: Option<String>,
    /// Handle of the outstanding remote ingestion operation, if any.
    pub operation_name: Option<String>,
    /// Display name (file name).
    pub name: String,
    /// Local file path.
    pub path: String,
    /// Declared content type, if the caller supplied one.
    pub content_type: Option<String>,
    /// MIME type reported by the remote service after ingestion.
    pub mime_type: Option<String>,
    /// File size in bytes, if known.
    pub size: Option<i64>,
    /// Content hash, if known.
    pub hash: Option<String>,
    /// Remote ingestion progress.
    pub status: DocStatus,
    /// Local-to-remote convergence state.
    pub sync_status: SyncStatus,
    /// Present only after a failure.
    pub error_message: Option<String>,
    /// Absent while the record is alive; set on soft deletion.
    pub deleted_at: Option<i64>,
    /// Logical creation stamp.
    pub created_at: i64,
    /// Logical stamp of the last mutation.
    pub updated_at: i64,
}

/// Ghost model of a [`Document`].
#[verifier::ext_equal]
pub ghost struct DocumentModel {
    pub id: Seq<char>,
    pub store_id: Seq<char>,
    pub gemini_name: Option<Seq<char>>,
    pub operation_name: Option<Seq<char>>,
    pub name: Seq<char>,
    pub path: Seq<char>,
    pub content_type: Option<Seq<char>>,
    pub mime_type: Option<Seq<char>>,
    pub size: Option<int>,
    pub hash: Option<Seq<char>>,
    pub status: DocStatus,
    pub sync_status: SyncStatus,
    pub error_message: Option<Seq<char>>,
    pub deleted_at: Option<int>,
    pub created_at: int,
    pub updated_at: int,
}

impl View for Document {
    type V = DocumentModel;

    open spec fn view(&self) -> DocumentModel {
        DocumentModel {
            id: self.id@,
            store_id: self.store_id@,
            gemini_name: opt_view(self.gemini_name),
            operation_name: opt_view(self.operation_name),
            name: self.name@,
            path: self.path@,
            content_type: opt_view(self.content_type),
            mime_type: opt_view(self.mime_type),
            size: match self.size {
                Some(n) => Some(n as int),
                None => None,
            },
            hash: opt_view(self.hash),
            status: self.status,
            sync_status: self.sync_status,
            error_message: opt_view(self.error_message),
            deleted_at: match self.deleted_at {
                Some(t) => Some(t as int),
                None => None,
            },
            created_at: self.created_at as int,
            updated_at: self.updated_at as int,
        }
    }
}

impl DocumentModel {
    /// A record is alive while it has not been soft-deleted.
    pub open spec fn alive(self) -> bool {
        self.deleted_at is None
    }

    /// Terminal ingestion states: the polling engine no longer tracks them.
    pub open spec fn terminal(self) -> bool {
        self.status == DocStatus::Completed || self.status == DocStatus::Failed
    }
}

impl Clone for Document {
    /// A clone carries exactly the fields of the original.
    fn clone(&self) -> (r: Self)
        ensures
            r@ == self@,
    {
        let r = Document {
            id: self.id.clone(),
            store_id: self.store_id.clone(),
            gemini_name: clone_opt(&self.gemini_name),
            operation_name: clone_opt(&self.operation_name),
            name: self.name.clone(),
            path: self.path.clone(),
            content_type: clone_opt(&self.content_type),
            mime_type: clone_opt(&self.mime_type),
            size: self.size,
            hash: clone_opt(&self.hash),
            status: self.status,
            sync_status: self.sync_status,
            error_message: clone_opt(&self.error_message),
            deleted_at: self.deleted_at,
            created_at: self.created_at,
            updated_at: self.updated_at,
        };
        proof {
            assert(r@ =~= self@);
        }
        r
    }
}

/// A store together with its derived activity and local document counts.
#[derive(Debug)]
pub struct StoreWithStatus {
    /// The store record itself.
    pub store: Store,
    /// Derived overall activity over the store's live documents.
    pub status: OverallStatus,
    /// Number of live documents in the store.
    pub document_count: usize,
    /// Number of live documents not yet in a terminal state.
    pub local_pending_count: usize,
    /// Number of live documents in the failed state.
    pub local_failed_count: usize,
}

/// A soft-deleted document whose remote deletion is still owed, together
/// with the remote identifiers the deletion call needs.
#[derive(Debug)]
pub struct SoftDeletedDocument {
    /// Local id of the document.
    pub id: String,
    /// Remote identifier of the document.
    pub gemini_name: String,
    /// Remote identifier of the owning store.
    pub store_gemini_name: String,
}

/// Ghost model of a [`SoftDeletedDocument`].
#[verifier::ext_equal]
pub ghost struct SoftDeletedDocumentModel {
    pub id: Seq<char>,
    pub gemini_name: Seq<char>,
    pub store_gemini_name: Seq<char>,
}

impl View for SoftDeletedDocument {
    type V = SoftDeletedDocumentModel;

    open spec fn view(&self) -> SoftDeletedDocumentModel {
        SoftDeletedDocumentModel {
            id: self.id@,
            gemini_name: self.gemini_name@,
            store_gemini_name: self.store_gemini_name@,
        }
    }
}

/// A document whose upload has been initiated, keyed by the remote names
/// that later steps need.
#[derive(Debug)]
pub struct PendingDocument {
    /// Local id of the document.
    pub id: String,
    /// Local id of the owning store.
    pub store_id: String,
    /// Remote identifier of the document.
    pub gemini_name: String,
    /// Remote identifier of the owning store.
    pub store_gemini_name: String,
}

/// Description of one file handed to the optimistic upload entry point.
#[derive(Debug)]
pub struct FileInfo {
    /// Display name (file name).
    pub name: String,
    /// Local file path.
    pub path: String,
    /// Declared content type, if known.
    pub content_type: Option<String>,
    /// File size in bytes, if known.
    pub size: Option<i64>,
    /// Content hash, if known.
    pub hash: Option<String>,
}

/// Outward event: a store's convergence state changed.
#[derive(Debug)]
pub struct StoreSyncPayload {
    /// Local id of the store.
    pub store_id: String,
    /// New convergence state.
    pub sync_status: SyncStatus,
    /// Remote identifier, when one was assigned.
    pub gemini_name: Option<String>,
}

/// Outward event: a document's convergence state changed.
#[derive(Debug)]
pub struct DocumentSyncPayload {
    /// Local id of the document.
    pub document_id: String,
    /// Local id of the owning store.
    pub store_id: String,
    /// New convergence state.
    pub sync_status: SyncStatus,
    /// Remote identifier, when one was assigned.
    pub gemini_name: Option<String>,
    /// Operation handle, when an upload was initiated.
    pub operation_name: Option<String>,
    /// New ingestion state.
    pub status: DocStatus,
}

/// Outward event: the polling engine resolved a document's remote operation.
#[derive(Debug)]
pub struct DocumentStatusPayload {
    /// Local id of the document.
    pub document_id: String,
    /// Remote identifier, when one was assigned.
    pub gemini_name: Option<String>,
    /// Local id of the owning store.
    pub store_id: String,
    /// New ingestion state.
    pub status: DocStatus,
}

} // verus!
