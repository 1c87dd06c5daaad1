//! The polling engine: resolves outstanding remote ingestion operations
//! into terminal local document states.
//!
//! The engine's scan is [`crate::db::Database::get_documents_with_pending_operations`];
//! the surrounding program fetches each operation's status and, when asked,
//! the produced document's metadata, and hands both back to the verified
//! steps here.

use vstd::prelude::*;

use crate::db::{doc_error_set, doc_from_remote, Database};
use crate::gemini::Operation;
use crate::model::{DocStatus, DocumentStatusPayload};
use crate::text::{str_contains_ci, str_has_ci};

verus! {

/// Wake-and-run state of the polling engine: a single-slot wake signal that
/// collapses repeated pings, and the running flag that makes starting the
/// engine idempotent.
pub struct PollingState {
    /// True while the engine's task is running.
    pub running: bool,
    /// True while a wake ping has not been consumed yet.
    pub wake: bool,
}

impl PollingState {
    /// A fresh state: not running, no wake pending.
    pub fn new() -> (r: PollingState)
        ensures
            !r.running,
            !r.wake,
    {
        PollingState { running: false, wake: false }
    }

    /// Pings the engine: at most one wake stays pending however often this
    /// is called.
    pub fn notify(&mut self)
        ensures
            final(self).wake,
            final(self).running == old(self).running,
    {
        self.wake = true;
    }

    /// Consumes the pending wake, if any, and says whether there was one.
    pub fn take_wake(&mut self) -> (r: bool)
        ensures
            r == old(self).wake,
            !final(self).wake,
            final(self).running == old(self).running,
    {
        let w = self.wake;
        self.wake = false;
        w
    }

    /// Whether the engine's task is running.
    pub fn is_running(&self) -> (r: bool)
        ensures
            r == self.running,
    {
        self.running
    }

    /// Sets the running flag.
    pub fn set_running(&mut self, running: bool)
        ensures
            final(self).running == running,
            final(self).wake == old(self).wake,
    {
        self.running = running;
    }

    /// Claims the engine for a start: succeeds exactly when it was not
    /// running, so a second start request is a no-op.
    pub fn try_start(&mut self) -> (r: bool)
        ensures
            r == !old(self).running,
            final(self).running,
            final(self).wake == old(self).wake,
    {
        if self.running {
            false
        } else {
            self.running = true;
            true
        }
    }
}

/// The local ingestion state a remote state name maps to. The remote
/// vocabulary is not stable, so the match is case-insensitive and
/// substring-tolerant; active-like states mean completed, pending-like
/// states mean still processing, fail-like states mean failed, and an
/// unrecognised or missing state defaults to completed.
pub open spec fn spec_state_to_status(state: Option<Seq<char>>) -> DocStatus {
    match state {
        Some(s) => if str_has_ci(s, "active"@) {
            DocStatus::Completed
        } else if str_has_ci(s, "pending"@) {
            DocStatus::Processing
        } else if str_has_ci(s, "fail"@) {
            DocStatus::Failed
        } else {
            DocStatus::Completed
        },
        None => DocStatus::Completed,
    }
}

/// Maps a remote state name to the local ingestion state.
pub fn map_gemini_state_to_status(state: Option<&str>) -> (r: DocStatus)
    ensures
        r == spec_state_to_status(crate::db::opt_str_view(state)),
{
    match state {
        Some(s) => {
            if str_contains_ci(s, "active") {
                DocStatus::Completed
            } else if str_contains_ci(s, "pending") {
                DocStatus::Processing
            } else if str_contains_ci(s, "fail") {
                DocStatus::Failed
            } else {
                DocStatus::Completed
            }
        },
        None => DocStatus::Completed,
    }
}

/// What the polling engine asks the surrounding program to do next for one
/// document, after seeing its operation's status.
pub enum PollStep {
    /// Nothing: the operation is still running, its status could not be
    /// fetched, or its result named no document.
    Wait,
    /// Fetch the metadata of the named remote document and hand it to
    /// [`apply_document_info`].
    FetchDocument(String),
    /// The operation failed; the document was marked accordingly.
    Failed,
}

/// Nothing happened: the store is untouched, the engine waits, and no
/// event is owed.
pub open spec fn poll_no_change(
    pre: Database,
    post: Database,
    r: (PollStep, Option<DocumentStatusPayload>),
) -> bool {
    &&& post == pre
    &&& r.0 is Wait
    &&& r.1 is None
}

/// Digests one operation-status reply for the document carrying
/// `document_id`. A finished operation with an error marks the document
/// failed, records the message, and clears the handle; a finished operation
/// with a result asks for that document's metadata; anything else changes
/// nothing.
pub fn apply_operation_result(
    db: &mut Database,
    document_id: &str,
    store_id: &str,
    outcome: &Result<Operation, String>,
) -> (r: (PollStep, Option<DocumentStatusPayload>))
    requires
        old(db).wf(),
    ensures
        final(db).wf(),
        match outcome {
            Ok(op) => {
                if !op.done {
                    poll_no_change(*old(db), *final(db), r)
                } else {
                    match op.error {
                        Some(err) => {
                            &&& r.0 is Failed
                            &&& (old(db).has_doc(document_id@) ==> Database::doc_updated(
                                *old(db),
                                *final(db),
                                document_id@,
                                doc_error_set(
                                    old(db).doc_of(document_id@),
                                    DocStatus::Failed,
                                    err.message@,
                                    old(db).clock as int,
                                ),
                            ))
                            &&& (!old(db).has_doc(document_id@) ==> *final(db) == *old(db))
                            &&& (r.1 matches Some(p) && p.document_id@ == document_id@
                                && p.store_id@ == store_id@ && p.status == DocStatus::Failed
                                && p.gemini_name is None)
                        },
                        None => match op.response {
                            Some(resp) => match resp.document_name {
                                Some(dn) => {
                                    &&& *final(db) == *old(db)
                                    &&& (r.0 matches PollStep::FetchDocument(n) && n@ == dn@)
                                    &&& r.1 is None
                                },
                                None => poll_no_change(*old(db), *final(db), r),
                            },
                            None => poll_no_change(*old(db), *final(db), r),
                        },
                    }
                }
            },
            Err(_) => poll_no_change(*old(db), *final(db), r),
        },
        old(db).docs_consistent() ==> final(db).docs_consistent(),
{
    match outcome {
        Ok(op) => {
            if !op.done {
                return (PollStep::Wait, None);
            }
            match &op.error {
                Some(e) => {
                    db.update_document_error(document_id, DocStatus::Failed, e.message.as_str());
                    let payload = DocumentStatusPayload {
                        document_id: document_id.to_owned(),
                        gemini_name: None,
                        store_id: store_id.to_owned(),
                        status: DocStatus::Failed,
                    };
                    (PollStep::Failed, Some(payload))
                },
                None => {
                    match &op.response {
                        Some(resp) => match &resp.document_name {
                            Some(dn) => (PollStep::FetchDocument(dn.clone()), None),
                            None => (PollStep::Wait, None),
                        },
                        None => (PollStep::Wait, None),
                    }
                },
            }
        },
        Err(_) => (PollStep::Wait, None),
    }
}

/// Digests one remote document-metadata reply for the document carrying
/// `document_id`: the remote state name is mapped to the local ingestion
/// state, the remote identifier and MIME type are recorded, and the
/// operation handle is cleared. A reply that could not be fetched changes
/// nothing; a remote identifier already taken by another document leaves
/// the record unchanged but still reports the event.
pub fn apply_document_info(
    db: &mut Database,
    document_id: &str,
    store_id: &str,
    outcome: &Result<crate::gemini::Document, String>,
) -> (r: Option<DocumentStatusPayload>)
    requires
        old(db).wf(),
    ensures
        final(db).wf(),
        match outcome {
            Ok(gd) => {
                let st = spec_state_to_status(crate::model::opt_view(gd.state));
                &&& (old(db).has_doc(document_id@) && !old(db).doc_remote_clash(
                    document_id@,
                    gd.name@,
                ) ==> Database::doc_updated(
                    *old(db),
                    *final(db),
                    document_id@,
                    doc_from_remote(
                        old(db).doc_of(document_id@),
                        gd.name@,
                        crate::model::opt_view(gd.mime_type),
                        st,
                        old(db).clock as int,
                    ),
                ))
                &&& (!(old(db).has_doc(document_id@) && !old(db).doc_remote_clash(
                    document_id@,
                    gd.name@,
                )) ==> *final(db) == *old(db))
                &&& (r matches Some(p) && p.document_id@ == document_id@ && p.store_id@
                    == store_id@ && p.status == st && crate::model::opt_view(p.gemini_name)
                    == Some(gd.name@))
            },
            Err(_) => *final(db) == *old(db) && r is None,
        },
        old(db).docs_consistent() && (outcome matches Ok(gd) ==> spec_state_to_status(
            crate::model::opt_view(gd.state),
        ) != DocStatus::Processing) ==> final(db).docs_consistent(),
{
    match outcome {
        Ok(gd) => {
            let status = map_gemini_state_to_status(crate::model::opt_as_str(&gd.state));
            let _ = db.update_document_from_gemini(
                document_id,
                gd.name.as_str(),
                crate::model::opt_as_str(&gd.mime_type),
                status,
            );
            let payload = DocumentStatusPayload {
                document_id: document_id.to_owned(),
                gemini_name: Some(gd.name.clone()),
                store_id: store_id.to_owned(),
                status: status,
            };
            Some(payload)
        },
        Err(_) => None,
    }
}

} // verus!
