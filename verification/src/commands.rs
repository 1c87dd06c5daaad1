//! Foreground entry points: optimistic local writes followed by a wake
//! ping to the synchronization engine. They never wait on the remote
//! service.

use vstd::prelude::*;

use crate::db::{new_document_model, new_store_model, opt_str_view, tick, Database};
use crate::model::{opt_view, DbError, Document, FileInfo, Store, SyncStatus};
use crate::sync::SyncState;

verus! {

/// Relies on uuid::Uuid::new_v4 and its hyphenated display form: a fresh
/// random identifier of 36 characters; nothing more can be said of a
/// random value.
#[verifier::external_body]
fn new_entity_id() -> (r: String)
    ensures
        r@.len() == 36,
{
    uuid::Uuid::new_v4().to_string()
}

/// Answer of a document-search query, as handed to the presentation
/// layer: the text and its source documents.
#[derive(Debug, Clone)]
pub struct ChatResult {
    /// The answer text.
    pub content: String,
    /// Display names of the documents the answer rests on.
    pub sources: Vec<String>,
}

/// Creates a store under a freshly drawn id: the local write happens at
/// once, and the synchronization engine is woken to push it. Fails only
/// when the drawn id collides with an existing record.
pub fn create_store(
    db: &mut Database,
    sync_state: &mut SyncState,
    title: &str,
    directory_path: Option<&str>,
) -> (r: Result<Store, DbError>)
    requires
        old(db).wf(),
    ensures
        final(db).wf(),
        r matches Ok(st) ==> {
            &&& !old(db).has_store(st@.id)
            &&& st@.id.len() == 36
            &&& st@ == new_store_model(
                st@.id,
                title@,
                opt_str_view(directory_path),
                old(db).clock as int,
            )
            &&& final(db).n_stores() == old(db).n_stores() + 1
            &&& final(db).store_m(old(db).n_stores()) == st@
            &&& (forall|i: int|
                0 <= i < old(db).n_stores() ==> final(db).store_m(i) == old(db).store_m(i))
            &&& final(db).documents == old(db).documents
            &&& final(db).clock == tick(old(db).clock as int)
            &&& final(sync_state).wake
            &&& final(sync_state).running == old(sync_state).running
        },
        r matches Err(e) ==> e == DbError::DuplicateId && *final(db) == *old(db)
            && *final(sync_state) == *old(sync_state),
        old(db).stores_consistent() ==> final(db).stores_consistent(),
{
    let id = new_entity_id();
    let store = db.create_store(id.as_str(), title, directory_path)?;
    sync_state.notify();
    Ok(store)
}

/// The first `j` files have been appended to the store's records, in
/// order, each as a fresh pending document carrying that file's
/// attributes.
pub open spec fn docs_appended_for(
    pre: Database,
    post: Database,
    store_id: Seq<char>,
    files: Seq<FileInfo>,
    j: int,
) -> bool {
    &&& 0 <= j <= files.len()
    &&& post.n_docs() == pre.n_docs() + j
    &&& forall|k: int|
        0 <= k < j ==> {
            let d = #[trigger] post.doc_m(pre.n_docs() + k);
            d == new_document_model(
                d.id,
                store_id,
                files[k].name@,
                files[k].path@,
                opt_view(files[k].content_type),
                crate::db::opt_int_view(files[k].size),
                opt_view(files[k].hash),
                d.created_at,
            )
        }
}

/// Creates one document record per file under the given store, in order:
/// the local writes happen at once, and the synchronization engine is
/// woken to upload them. Fails without any write when the store does not
/// exist; a drawn id colliding with an existing record fails the batch
/// partway, keeping the records already created.
pub fn upload_documents(
    db: &mut Database,
    sync_state: &mut SyncState,
    store_id: &str,
    files: &Vec<FileInfo>,
) -> (r: Result<Vec<Document>, DbError>)
    requires
        old(db).wf(),
    ensures
        final(db).wf(),
        final(db).stores == old(db).stores,
        forall|i: int| 0 <= i < old(db).n_docs() ==> final(db).doc_m(i) == old(db).doc_m(i),
        r matches Ok(ds) ==> {
            &&& ds@.len() == files@.len()
            &&& final(db).n_docs() == old(db).n_docs() + files@.len()
            &&& (forall|k: int|
                #![trigger ds@[k]]
                0 <= k < files@.len() ==> {
                    let d = ds@[k]@;
                    &&& final(db).doc_m(old(db).n_docs() + k) == d
                    &&& d == new_document_model(
                        d.id,
                        store_id@,
                        files@[k].name@,
                        files@[k].path@,
                        opt_view(files@[k].content_type),
                        crate::db::opt_int_view(files@[k].size),
                        opt_view(files@[k].hash),
                        d.created_at,
                    )
                })
            &&& final(sync_state).wake
            &&& final(sync_state).running == old(sync_state).running
        },
        r matches Err(e) ==> {
            &&& (e == DbError::DuplicateId || e == DbError::MissingStore)
            &&& (e == DbError::MissingStore ==> !old(db).has_store(store_id@))
            &&& *final(sync_state) == *old(sync_state)
        },
        files@.len() == 0 ==> r is Ok,
        !old(db).has_store(store_id@) && files@.len() > 0 ==> r is Err,
        r is Err ==> exists|j: int|
            #[trigger] docs_appended_for(*old(db), *final(db), store_id@, files@, j),
        old(db).docs_consistent() ==> final(db).docs_consistent(),
{
    let mut documents: Vec<Document> = Vec::new();
    let n = files.len();
    let mut i: usize = 0;
    while i < n
        invariant
            old(db).wf(),
            db.wf(),
            n == files@.len(),
            i <= n,
            documents@.len() == i,
            db.stores == old(db).stores,
            db.n_docs() == old(db).n_docs() + i,
            i > 0 ==> old(db).has_store(store_id@),
            old(db).docs_consistent() ==> db.docs_consistent(),
            forall|k: int| 0 <= k < old(db).n_docs() ==> db.doc_m(k) == old(db).doc_m(k),
            forall|k: int|
                #![trigger documents@[k]]
                0 <= k < i ==> {
                    let d = documents@[k]@;
                    &&& db.doc_m(old(db).n_docs() + k) == d
                    &&& d == new_document_model(
                        d.id,
                        store_id@,
                        files@[k].name@,
                        files@[k].path@,
                        opt_view(files@[k].content_type),
                        crate::db::opt_int_view(files@[k].size),
                        opt_view(files@[k].hash),
                        d.created_at,
                    )
                },
        decreases n - i,
    {
        let ghost pre = *db;
        let doc_id = new_entity_id();
        let file = &files[i];
        let created = db.create_document(
            doc_id.as_str(),
            store_id,
            file.name.as_str(),
            file.path.as_str(),
            crate::model::opt_as_str(&file.content_type),
            file.size,
            crate::model::opt_as_str(&file.hash),
        );
        let doc = match created {
            Ok(d) => d,
            Err(e) => {
                proof {
                    if old(db).has_store(store_id@) {
                        let k = old(db).store_index(store_id@);
                        assert(old(db).store_m(k).id == store_id@);
                        assert(pre.store_m(k).id == store_id@);
                    }
                    assert forall|k2: int| 0 <= k2 < i implies ({
                        let d = #[trigger] db.doc_m(old(db).n_docs() + k2);
                        d == new_document_model(
                            d.id,
                            store_id@,
                            files@[k2].name@,
                            files@[k2].path@,
                            opt_view(files@[k2].content_type),
                            crate::db::opt_int_view(files@[k2].size),
                            opt_view(files@[k2].hash),
                            d.created_at,
                        )
                    }) by {
                        assert(documents@[k2]@ == db.doc_m(old(db).n_docs() + k2));
                    }
                    assert(docs_appended_for(*old(db), *db, store_id@, files@, i as int));
                }
                return Err(e);
            },
        };
        documents.push(doc);
        proof {
            if !old(db).has_store(store_id@) {
                let kk = pre.store_index(store_id@);
                assert(pre.store_m(kk).id == store_id@);
                assert(old(db).store_m(kk).id == store_id@);
            }
        }
        proof {
            assert(forall|k: int|
                0 <= k < pre.n_docs() ==> #[trigger] db.doc_m(k) == pre.doc_m(k));
        }
        i = i + 1;
    }
    sync_state.notify();
    Ok(documents)
}

/// Soft-deletes a document: the local write happens at once, and the
/// synchronization engine is woken to replay the deletion remotely. A
/// record that is absent or already soft-deleted is left untouched.
pub fn delete_document(db: &mut Database, sync_state: &mut SyncState, id: &str)
    requires
        old(db).wf(),
    ensures
        final(db).wf(),
        old(db).has_alive_doc(id@) ==> Database::doc_updated(
            *old(db),
            *final(db),
            id@,
            crate::db::doc_soft_deleted(old(db).doc_of(id@), old(db).clock as int),
        ),
        !old(db).has_alive_doc(id@) ==> *final(db) == *old(db),
        old(db).docs_consistent() ==> final(db).docs_consistent(),
        final(sync_state).wake,
        final(sync_state).running == old(sync_state).running,
{
    db.soft_delete_document(id);
    sync_state.notify();
}

/// Soft-deletes a store and, first, every alive document that belongs to
/// it, so that no reader ever sees an alive document under a soft-deleted
/// store. The synchronization engine is woken to replay both deletions
/// remotely.
pub fn delete_store(db: &mut Database, sync_state: &mut SyncState, id: &str)
    requires
        old(db).wf(),
    ensures
        final(db).wf(),
        final(db).n_docs() == old(db).n_docs(),
        final(db).n_stores() == old(db).n_stores(),
        forall|i: int|
            0 <= i < old(db).n_docs() ==> #[trigger] final(db).doc_m(i) == (if old(db).doc_m(
                i,
            ).alive() && old(db).doc_m(i).store_id == id@ {
                crate::db::doc_soft_deleted(old(db).doc_m(i), old(db).clock as int)
            } else {
                old(db).doc_m(i)
            }),
        forall|i: int|
            0 <= i < old(db).n_stores() ==> #[trigger] final(db).store_m(i) == (if old(
                db,
            ).store_m(i).alive() && old(db).store_m(i).id == id@ {
                crate::db::store_soft_deleted(old(db).store_m(i), tick(old(db).clock as int))
            } else {
                old(db).store_m(i)
            }),
        old(db).stores_consistent() ==> final(db).stores_consistent(),
        old(db).docs_consistent() ==> final(db).docs_consistent(),
        forall|i: int|
            0 <= i < final(db).n_docs() ==> ((#[trigger] final(db).doc_m(i)).store_id == id@
                ==> !final(db).doc_m(i).alive()),
        final(sync_state).wake,
        final(sync_state).running == old(sync_state).running,
{
    let ghost pre = *db;
    db.soft_delete_documents_by_store(id);
    let ghost mid = *db;
    db.soft_delete_store(id);
    proof {
        assert(forall|i: int|
            0 <= i < pre.n_docs() ==> #[trigger] mid.doc_m(i) == (if pre.doc_m(i).alive()
                && pre.doc_m(i).store_id == id@ {
                crate::db::doc_soft_deleted(pre.doc_m(i), pre.clock as int)
            } else {
                pre.doc_m(i)
            }));
        assert(forall|i: int|
            0 <= i < pre.n_docs() ==> #[trigger] db.doc_m(i) == mid.doc_m(i));
        if mid.has_alive_store(id@) {
            let k = mid.store_index(id@);
            assert(mid.store_m(k).id == id@);
            assert forall|i: int| 0 <= i < pre.n_stores() implies #[trigger] db.store_m(i) == (
            if pre.store_m(i).alive() && pre.store_m(i).id == id@ {
                crate::db::store_soft_deleted(pre.store_m(i), tick(pre.clock as int))
            } else {
                pre.store_m(i)
            }) by {
                assert(mid.store_m(i) == pre.store_m(i));
                if i != k {
                    assert(db.store_m(i) == mid.store_m(i));
                    if pre.store_m(i).id == id@ {
                        assert(mid.stores_unique());
                        assert(mid.store_m(i).id != mid.store_m(k).id || i == k);
                    }
                }
            }
        } else {
            assert forall|i: int| 0 <= i < pre.n_stores() implies #[trigger] db.store_m(i) == (
            if pre.store_m(i).alive() && pre.store_m(i).id == id@ {
                crate::db::store_soft_deleted(pre.store_m(i), tick(pre.clock as int))
            } else {
                pre.store_m(i)
            }) by {
                assert(mid.store_m(i) == pre.store_m(i));
                assert(db.store_m(i) == mid.store_m(i));
                if pre.store_m(i).alive() && pre.store_m(i).id == id@ {
                    mid.lemma_store_index(i);
                    assert(mid.has_alive_store(id@));
                }
            }
        }
    }
    sync_state.notify();
}

} // verus!
