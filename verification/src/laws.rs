//! The library's cross-function guarantees, stated and proved once: what
//! a cascading soft delete leaves behind, why deletion reconciliation is
//! idempotent, and why a freshly created store and document converge once
//! the remote service answers.

use vstd::prelude::*;

use crate::db::{alive_doc_of_store, doc_operation_set, store_from_remote, Database};
use crate::gemini::FileSearchStore;
use crate::model::{DocStatus, DocumentModel, SyncStatus};

verus! {

/// Filtering with a predicate that holds everywhere keeps the sequence
/// whole.
pub proof fn lemma_filter_all<A>(s: Seq<A>, pred: spec_fn(A) -> bool)
    requires
        forall|i: int| 0 <= i < s.len() ==> pred(#[trigger] s[i]),
    ensures
        s.filter(pred) == s,
    decreases s.len(),
{
    reveal(Seq::filter);
    if s.len() > 0 {
        let s0 = s.drop_last();
        assert forall|i: int| 0 <= i < s0.len() implies pred(#[trigger] s0[i]) by {
            assert(s0[i] == s[i]);
        }
        lemma_filter_all(s0, pred);
        assert(pred(s.last()));
        assert(s.filter(pred) =~= s);
    }
}

/// Filtering with a predicate that holds nowhere leaves nothing.
pub proof fn lemma_filter_none<A>(s: Seq<A>, pred: spec_fn(A) -> bool)
    requires
        forall|i: int| 0 <= i < s.len() ==> !pred(#[trigger] s[i]),
    ensures
        s.filter(pred) == Seq::<A>::empty(),
    decreases s.len(),
{
    reveal(Seq::filter);
    if s.len() > 0 {
        let s0 = s.drop_last();
        assert forall|i: int| 0 <= i < s0.len() implies !pred(#[trigger] s0[i]) by {
            assert(s0[i] == s[i]);
        }
        lemma_filter_none(s0, pred);
        assert(!pred(s.last()));
        assert(s.filter(pred) =~= Seq::<A>::empty());
    }
}

/// Soft-deleting a store cascades: once every document of the store reads
/// as deleted, the alive-documents query of that store returns nothing, so
/// no reader ever sees an alive document under a soft-deleted store.
pub proof fn lemma_cascade_leaves_no_alive_docs(db: Database, id: Seq<char>)
    requires
        forall|i: int|
            0 <= i < db.n_docs() ==> ((#[trigger] db.doc_m(i)).store_id == id ==> !db.doc_m(
                i,
            ).alive()),
    ensures
        db.doc_models().filter(alive_doc_of_store(id)) == Seq::<DocumentModel>::empty(),
{
    let models = db.doc_models();
    let pred = alive_doc_of_store(id);
    assert forall|i: int| 0 <= i < models.len() implies !pred(#[trigger] models[i]) by {
        assert(models[i] == db.doc_m(i));
    }
    lemma_filter_none(models, pred);
}

/// Remote deletion reconciliation is idempotent: a record that was already
/// hard-deleted is no longer selected, and running the reconciliation a
/// second time on the same id changes nothing.
pub proof fn lemma_deletion_reconciliation_idempotent(
    pre: Database,
    mid: Database,
    post: Database,
    id: Seq<char>,
)
    requires
        pre.wf(),
        mid.wf(),
        Database::store_hard_deleted(pre, mid, id),
        Database::store_hard_deleted(mid, post, id),
    ensures
        !mid.has_store(id),
        post.store_models() == mid.store_models(),
        post.doc_models() == mid.doc_models(),
{
    assert(!mid.has_store(id));
    let smodels = mid.store_models();
    assert forall|i: int| 0 <= i < smodels.len() implies crate::db::keep_other_stores(id)(
        #[trigger] smodels[i],
    ) by {
        assert(smodels[i] == mid.store_m(i));
        if mid.store_m(i).id == id {
            mid.lemma_store_index(i);
        }
    }
    lemma_filter_all(smodels, crate::db::keep_other_stores(id));
    let dmodels = mid.doc_models();
    assert forall|i: int| 0 <= i < dmodels.len() implies crate::db::keep_docs_outside(id)(
        #[trigger] dmodels[i],
    ) by {
        assert(dmodels[i] == mid.doc_m(i));
        mid.lemma_doc_index(i);
        assert(mid.has_doc(mid.doc_m(i).id));
        assert(pre.doc_of(mid.doc_m(i).id).store_id != id);
        assert(mid.doc_of(mid.doc_m(i).id) == pre.doc_of(mid.doc_m(i).id));
    }
    lemma_filter_all(dmodels, crate::db::keep_docs_outside(id));
}

/// Convergence: a pending store that the synchronization engine pushes
/// with a successful outcome reaches the synced state, and a pending
/// document under it then satisfies the upload scan's criterion, so the
/// same cycle's upload step selects it; a successful upload outcome leaves
/// the document synced and processing — neither record stays pending while
/// the remote service answers.
pub proof fn lemma_convergence(
    db0: Database,
    db1: Database,
    db2: Database,
    store_id: Seq<char>,
    doc_id: Seq<char>,
    fs: FileSearchStore,
    op_name: Seq<char>,
)
    requires
        db0.wf(),
        db1.wf(),
        db2.wf(),
// the store starts alive and pending, the document alive and pending under it
        db0.has_alive_store(store_id),
        db0.store_of(store_id).sync_status == SyncStatus::Pending,
        db0.has_alive_doc(doc_id),
        db0.doc_of(doc_id).sync_status == SyncStatus::Pending,
        db0.doc_of(doc_id).store_id == store_id,
// the remote creation succeeded and its identifier is fresh locally,
// as apply_store_create_result's contract then guarantees
        Database::store_updated(
            db0,
            db1,
            store_id,
            store_from_remote(
                db0.store_of(store_id),
                fs.name@,
                crate::model::opt_view(fs.create_time),
                crate::model::opt_view(fs.update_time),
                fs.active_documents_count as int,
                fs.pending_documents_count as int,
                fs.failed_documents_count as int,
                fs.size_bytes as int,
                db0.clock as int,
            ),
        ),
// the upload succeeded, as apply_document_upload_result's contract then
// guarantees
        Database::doc_updated(
            db1,
            db2,
            doc_id,
            doc_operation_set(db1.doc_of(doc_id), op_name, db1.clock as int),
        ),
    ensures
// after the push step the store is synced and carries the remote id
        db1.has_alive_store(store_id),
        db1.store_of(store_id).sync_status == SyncStatus::Synced,
        db1.store_of(store_id).gemini_name == Some(fs.name@),
// the document then meets the upload scan's selection criterion
        db1.has_alive_doc(doc_id),
        db1.pending_upload_doc()(db1.doc_of(doc_id)),
        db1.doc_models().filter(db1.pending_upload_doc()).contains(db1.doc_of(doc_id)),
// after the upload step the document is synced and processing, and the
// store still synced: neither is pending any more
        db2.doc_of(doc_id).sync_status == SyncStatus::Synced,
        db2.doc_of(doc_id).status == DocStatus::Processing,
        db2.doc_of(doc_id).operation_name == Some(op_name),
        db2.has_alive_store(store_id),
        db2.store_of(store_id).sync_status == SyncStatus::Synced,
{
    let k = db0.store_index(store_id);
    assert(db0.store_m(k).id == store_id);
    assert(db1.store_m(k).id == store_id);
    db1.lemma_store_index(k);
    assert(db1.store_index(store_id) == k);
    assert(db1.store_of(store_id) == store_from_remote(
        db0.store_of(store_id),
        fs.name@,
        crate::model::opt_view(fs.create_time),
        crate::model::opt_view(fs.update_time),
        fs.active_documents_count as int,
        fs.pending_documents_count as int,
        fs.failed_documents_count as int,
        fs.size_bytes as int,
        db0.clock as int,
    ));
    let kd = db0.doc_index(doc_id);
    assert(db0.doc_m(kd).id == doc_id);
    assert(db1.documents == db0.documents);
    assert(db1.n_docs() == db0.n_docs());
    assert(forall|i: int| 0 <= i < db0.n_docs() ==> #[trigger] db1.doc_m(i) == db0.doc_m(i));
    assert(db1.doc_m(kd).id == doc_id);
    db1.lemma_doc_index(kd);
    assert(db1.doc_index(doc_id) == kd);
    assert(db1.doc_of(doc_id) == db0.doc_of(doc_id));
    assert(db1.pending_upload_doc()(db1.doc_of(doc_id)));
    db1.doc_models().lemma_filter_contains(db1.pending_upload_doc(), kd);
    assert(db1.doc_models()[kd] == db1.doc_of(doc_id));
    let kd2 = db1.doc_index(doc_id);
    assert(db2.doc_m(kd2).id == doc_id);
    db2.lemma_doc_index(kd2);
    assert(db2.doc_of(doc_id) == doc_operation_set(db1.doc_of(doc_id), op_name, db1.clock as int));
    assert(db2.stores == db1.stores);
    assert(db2.n_stores() == db1.n_stores());
    assert(forall|i: int| 0 <= i < db1.n_stores() ==> #[trigger] db2.store_m(i) == db1.store_m(i));
    assert(db2.store_m(k).id == store_id);
    db2.lemma_store_index(k);
    assert(db2.store_of(store_id) == db1.store_of(store_id));
}

} // verus!
