//! The persistent store: durable keyed storage for store and document
//! records, the single source of truth for local state.
//!
//! Records are held in creation order; every record carries a locally unique
//! id, and remote identifiers are unique once assigned. Reads of alive
//! records always exclude soft-deleted rows. Mutations are atomic per call
//! and stamp the record with the store's logical clock.

use vstd::prelude::*;

use crate::model::{
    DbError, DocStatus, Document, DocumentModel, OverallStatus, SoftDeletedDocument, Store,
    StoreModel, StoreWithStatus, SyncStatus,
};
use crate::text::str_eq;

verus! {

/// The persistent store holding every store and document record.
pub struct Database {
    /// Store records, in creation order.
    pub stores: Vec<Store>,
    /// Document records, in creation order.
    pub documents: Vec<Document>,
    /// Logical clock; stamps each mutation.
    pub clock: i64,
}

/// The next value of the logical clock (it saturates at the type's top).
pub open spec fn tick(c: int) -> int {
    if c < i64::MAX as int {
        c + 1
    } else {
        c as int
    }
}

impl Database {
    /// Number of store records, deleted ones included.
    pub open spec fn n_stores(self) -> int {
        self.stores@.len() as int
    }

    /// Number of document records, deleted ones included.
    pub open spec fn n_docs(self) -> int {
        self.documents@.len() as int
    }

    /// Model of the store record at index `i`.
    pub open spec fn store_m(self, i: int) -> StoreModel {
        self.stores@[i]@
    }

    /// Model of the document record at index `i`.
    pub open spec fn doc_m(self, i: int) -> DocumentModel {
        self.documents@[i]@
    }

    /// Some store record carries this id.
    pub open spec fn has_store(self, id: Seq<char>) -> bool {
        exists|i: int| 0 <= i < self.n_stores() && (#[trigger] self.store_m(i)).id == id
    }

    /// Index of the store record carrying this id.
    pub open spec fn store_index(self, id: Seq<char>) -> int {
        choose|i: int| 0 <= i < self.n_stores() && (#[trigger] self.store_m(i)).id == id
    }

    /// The store record carrying this id.
    pub open spec fn store_of(self, id: Seq<char>) -> StoreModel {
        self.store_m(self.store_index(id))
    }

    /// An alive store record carries this id.
    pub open spec fn has_alive_store(self, id: Seq<char>) -> bool {
        self.has_store(id) && self.store_of(id).alive()
    }

    /// Some document record carries this id.
    pub open spec fn has_doc(self, id: Seq<char>) -> bool {
        exists|i: int| 0 <= i < self.n_docs() && (#[trigger] self.doc_m(i)).id == id
    }

    /// Index of the document record carrying this id.
    pub open spec fn doc_index(self, id: Seq<char>) -> int {
        choose|i: int| 0 <= i < self.n_docs() && (#[trigger] self.doc_m(i)).id == id
    }

    /// The document record carrying this id.
    pub open spec fn doc_of(self, id: Seq<char>) -> DocumentModel {
        self.doc_m(self.doc_index(id))
    }

    /// An alive document record carries this id.
    pub open spec fn has_alive_doc(self, id: Seq<char>) -> bool {
        self.has_doc(id) && self.doc_of(id).alive()
    }

    /// Store ids are unique across all records, deleted ones included.
    pub open spec fn stores_unique(self) -> bool {
        forall|i: int, j: int|
            #![trigger self.store_m(i), self.store_m(j)]
            0 <= i < j < self.n_stores() ==> self.store_m(i).id != self.store_m(j).id
    }

    /// Document ids are unique across all records, deleted ones included.
    pub open spec fn docs_unique(self) -> bool {
        forall|i: int, j: int|
            #![trigger self.doc_m(i), self.doc_m(j)]
            0 <= i < j < self.n_docs() ==> self.doc_m(i).id != self.doc_m(j).id
    }

    /// Remote store identifiers are unique once assigned.
    pub open spec fn store_remotes_unique(self) -> bool {
        forall|i: int, j: int|
            #![trigger self.store_m(i), self.store_m(j)]
            0 <= i < j < self.n_stores() ==> !(self.store_m(i).gemini_name is Some
                && self.store_m(i).gemini_name == self.store_m(j).gemini_name)
    }

    /// Remote document identifiers are unique once assigned.
    pub open spec fn doc_remotes_unique(self) -> bool {
        forall|i: int, j: int|
            #![trigger self.doc_m(i), self.doc_m(j)]
            0 <= i < j < self.n_docs() ==> !(self.doc_m(i).gemini_name is Some
                && self.doc_m(i).gemini_name == self.doc_m(j).gemini_name)
    }

    /// Every document references an existing store record.
    pub open spec fn docs_have_stores(self) -> bool {
        forall|i: int|
            0 <= i < self.n_docs() ==> self.has_store((#[trigger] self.doc_m(i)).store_id)
    }

    /// Another store record than the one carrying `id` already carries the
    /// remote identifier `name`.
    pub open spec fn store_remote_clash(self, id: Seq<char>, name: Seq<char>) -> bool {
        exists|i: int|
            0 <= i < self.n_stores() && i != self.store_index(id) && (#[trigger] self.store_m(
                i,
            )).gemini_name == Some(name)
    }

    /// Another document record than the one carrying `id` already carries
    /// the remote identifier `name`.
    pub open spec fn doc_remote_clash(self, id: Seq<char>, name: Seq<char>) -> bool {
        exists|i: int|
            0 <= i < self.n_docs() && i != self.doc_index(id) && (#[trigger] self.doc_m(
                i,
            )).gemini_name == Some(name)
    }

    /// The store carrying `id` is gone, with every document that belonged
    /// to it; everything else is untouched.
    pub open spec fn store_hard_deleted(pre: Database, post: Database, id: Seq<char>) -> bool {
        &&& post.store_models() == pre.store_models().filter(keep_other_stores(id))
        &&& post.doc_models() == pre.doc_models().filter(keep_docs_outside(id))
        &&& post.clock == pre.clock
        &&& (forall|s: Seq<char>| #[trigger] post.has_store(s) <==> pre.has_store(s) && s != id)
        &&& (forall|s: Seq<char>|
            #[trigger] post.has_store(s) ==> post.store_of(s) == pre.store_of(s))
        &&& (forall|d: Seq<char>|
            #[trigger] post.has_doc(d) <==> pre.has_doc(d) && pre.doc_of(d).store_id != id)
        &&& (forall|d: Seq<char>| #[trigger] post.has_doc(d) ==> post.doc_of(d) == pre.doc_of(d))
    }

    /// The document carrying `id` is gone; everything else is untouched.
    pub open spec fn doc_hard_deleted(pre: Database, post: Database, id: Seq<char>) -> bool {
        &&& post.stores == pre.stores
        &&& post.clock == pre.clock
        &&& post.doc_models() == pre.doc_models().filter(keep_other_docs(id))
        &&& (forall|d: Seq<char>| #[trigger] post.has_doc(d) <==> pre.has_doc(d) && d != id)
        &&& (forall|d: Seq<char>| #[trigger] post.has_doc(d) ==> post.doc_of(d) == pre.doc_of(d))
    }

    /// Every store is synced exactly when it carries a remote identifier.
    pub open spec fn stores_consistent(self) -> bool {
        forall|i: int|
            0 <= i < self.n_stores() ==> ((#[trigger] self.store_m(i)).sync_status
                == SyncStatus::Synced <==> self.store_m(i).gemini_name is Some)
    }

    /// Every document is processing exactly when it carries an operation
    /// handle.
    pub open spec fn docs_consistent(self) -> bool {
        forall|i: int|
            0 <= i < self.n_docs() ==> ((#[trigger] self.doc_m(i)).status == DocStatus::Processing
                <==> self.doc_m(i).operation_name is Some)
    }

    /// Rewriting one store record with a record that itself satisfies the
    /// synced-iff-identified rule keeps every store satisfying it.
    pub proof fn lemma_stores_consistent_update(
        pre: Database,
        post: Database,
        id: Seq<char>,
        m: StoreModel,
    )
        requires
            pre.stores_consistent(),
            Database::store_updated(pre, post, id, m),
            m.sync_status == SyncStatus::Synced <==> m.gemini_name is Some,
        ensures
            post.stores_consistent(),
    {
        let k = pre.store_index(id);
        assert forall|i: int| 0 <= i < post.n_stores() implies ((#[trigger] post.store_m(
            i,
        )).sync_status == SyncStatus::Synced <==> post.store_m(i).gemini_name is Some) by {
            if i != k {
                assert(post.store_m(i) == pre.store_m(i));
            }
        }
    }

    /// Rewriting one document record with a record that itself satisfies
    /// the processing-iff-handle rule keeps every document satisfying it.
    pub proof fn lemma_docs_consistent_update(
        pre: Database,
        post: Database,
        id: Seq<char>,
        m: DocumentModel,
    )
        requires
            pre.docs_consistent(),
            Database::doc_updated(pre, post, id, m),
            m.status == DocStatus::Processing <==> m.operation_name is Some,
        ensures
            post.docs_consistent(),
    {
        let k = pre.doc_index(id);
        assert forall|i: int| 0 <= i < post.n_docs() implies ((#[trigger] post.doc_m(i)).status
            == DocStatus::Processing <==> post.doc_m(i).operation_name is Some) by {
            if i != k {
                assert(post.doc_m(i) == pre.doc_m(i));
            }
        }
    }

    /// Well-formedness of the whole store.
    pub open spec fn wf(self) -> bool {
        &&& self.stores_unique()
        &&& self.docs_unique()
        &&& self.store_remotes_unique()
        &&& self.doc_remotes_unique()
        &&& self.docs_have_stores()
        &&& self.clock >= 0
    }

    /// An id occurring at an index is the id the index lookup returns.
    pub proof fn lemma_store_index(self, i: int)
        requires
            self.stores_unique(),
            0 <= i < self.n_stores(),
        ensures
            self.has_store(self.store_m(i).id),
            self.store_index(self.store_m(i).id) == i,
            self.store_of(self.store_m(i).id) == self.store_m(i),
    {
        assert(self.has_store(self.store_m(i).id));
        let j = self.store_index(self.store_m(i).id);
        assert(0 <= j < self.n_stores() && self.store_m(j).id == self.store_m(i).id);
        if i != j {
            assert(self.store_m(i).id != self.store_m(j).id);
        }
    }

    /// An id occurring at an index is the id the index lookup returns.
    pub proof fn lemma_doc_index(self, i: int)
        requires
            self.docs_unique(),
            0 <= i < self.n_docs(),
        ensures
            self.has_doc(self.doc_m(i).id),
            self.doc_index(self.doc_m(i).id) == i,
            self.doc_of(self.doc_m(i).id) == self.doc_m(i),
    {
        assert(self.has_doc(self.doc_m(i).id));
        let j = self.doc_index(self.doc_m(i).id);
        assert(0 <= j < self.n_docs() && self.doc_m(j).id == self.doc_m(i).id);
        if i != j {
            assert(self.doc_m(i).id != self.doc_m(j).id);
        }
    }

    /// An empty store.
    pub fn new() -> (r: Database)
        ensures
            r.wf(),
            r.n_stores() == 0,
            r.n_docs() == 0,
            r.clock == 0,
    {
        Database { stores: Vec::new(), documents: Vec::new(), clock: 0 }
    }

    /// Advances the logical clock; it saturates rather than wrapping.
    fn bump_clock(&mut self)
        ensures
            final(self).clock == tick(old(self).clock as int),
            final(self).stores == old(self).stores,
            final(self).documents == old(self).documents,
    {
        if self.clock < i64::MAX {
            self.clock = self.clock + 1;
        }
    }

    /// Index of the store record carrying `id`, if any.
    fn find_store(&self, id: &str) -> (r: Option<usize>)
        requires
            self.stores_unique(),
        ensures
            match r {
                Some(i) => i < self.n_stores() && self.store_m(i as int).id == id@
                    && self.has_store(id@) && self.store_index(id@) == i as int,
                None => !self.has_store(id@),
            },
    {
        let n = self.stores.len();
        let mut i: usize = 0;
        while i < n
            invariant
                n == self.n_stores(),
                self.stores_unique(),
                i <= n,
                forall|k: int| 0 <= k < i ==> (#[trigger] self.store_m(k)).id != id@,
            decreases n - i,
        {
            if str_eq(self.stores[i].id.as_str(), id) {
                proof {
                    self.lemma_store_index(i as int);
                }
                return Some(i);
            }
            i = i + 1;
        }
        None
    }

    /// Index of the document record carrying `id`, if any.
    fn find_doc(&self, id: &str) -> (r: Option<usize>)
        requires
            self.docs_unique(),
        ensures
            match r {
                Some(i) => i < self.n_docs() && self.doc_m(i as int).id == id@
                    && self.has_doc(id@) && self.doc_index(id@) == i as int,
                None => !self.has_doc(id@),
            },
    {
        let n = self.documents.len();
        let mut i: usize = 0;
        while i < n
            invariant
                n == self.n_docs(),
                self.docs_unique(),
                i <= n,
                forall|k: int| 0 <= k < i ==> (#[trigger] self.doc_m(k)).id != id@,
            decreases n - i,
        {
            if str_eq(self.documents[i].id.as_str(), id) {
                proof {
                    self.lemma_doc_index(i as int);
                }
                return Some(i);
            }
            i = i + 1;
        }
        None
    }
}

/// The record a freshly created store consists of.
pub open spec fn new_store_model(
    id: Seq<char>,
    title: Seq<char>,
    directory_path: Option<Seq<char>>,
    now: int,
) -> StoreModel {
    StoreModel {
        id: id,
        gemini_name: None,
        title: title,
        directory_path: directory_path,
        sync_status: SyncStatus::Pending,
        create_time: None,
        update_time: None,
        active_documents_count: 0,
        pending_documents_count: 0,
        failed_documents_count: 0,
        size_bytes: 0,
        deleted_at: None,
        created_at: now,
        updated_at: now,
    }
}

/// Model of an optional borrowed string.
pub open spec fn opt_str_view(o: Option<&str>) -> Option<Seq<char>> {
    match o {
        Some(s) => Some(s@),
        None => None,
    }
}

/// Duplicates an optional borrowed string into an owned one.
fn own_opt(o: Option<&str>) -> (r: Option<String>)
    ensures
        crate::model::opt_view(r) == opt_str_view(o),
{
    match o {
        Some(s) => Some(s.to_owned()),
        None => None,
    }
}

impl Database {
    /// Creates a store record with the given id: alive, pending, without a
    /// remote identifier. Fails if any record already carries the id.
    pub fn create_store(
        &mut self,
        id: &str,
        title: &str,
        directory_path: Option<&str>,
    ) -> (r: Result<Store, DbError>)
        requires
            old(self).wf(),
        ensures
            final(self).wf(),
            r is Ok <==> !old(self).has_store(id@),
            r matches Ok(st) ==> {
                &&& st@ == new_store_model(id@, title@, opt_str_view(directory_path), old(self).clock as int)
                &&& final(self).n_stores() == old(self).n_stores() + 1
                &&& final(self).store_m(old(self).n_stores()) == st@
                &&& (forall|i: int| 0 <= i < old(self).n_stores()
                        ==> final(self).store_m(i) == old(self).store_m(i))
                &&& final(self).documents == old(self).documents
                &&& final(self).clock == tick(old(self).clock as int)
            },
            r matches Err(e) ==> e == DbError::DuplicateId && *final(self) == *old(self),
            old(self).stores_consistent() ==> final(self).stores_consistent(),
    {
        if let Some(_) = self.find_store(id) {
            return Err(DbError::DuplicateId);
        }
        let now = self.clock;
        let st = Store {
            id: id.to_owned(),
            gemini_name: None,
            title: title.to_owned(),
            directory_path: own_opt(directory_path),
            sync_status: SyncStatus::Pending,
            create_time: None,
            update_time: None,
            active_documents_count: 0,
            pending_documents_count: 0,
            failed_documents_count: 0,
            size_bytes: 0,
            deleted_at: None,
            created_at: now,
            updated_at: now,
        };
        let copy = st.clone();
        self.stores.push(st);
        self.bump_clock();
        proof {
            assert(copy@ =~= new_store_model(
                id@,
                title@,
                opt_str_view(directory_path),
                old(self).clock as int,
            ));
            let oldn = old(self).n_stores();
            assert(self.n_docs() == old(self).n_docs());
            assert(forall|i: int|
                0 <= i < self.n_docs() ==> #[trigger] self.doc_m(i) == old(self).doc_m(i));
            assert(forall|i: int|
                0 <= i < oldn ==> self.store_m(i) == old(self).store_m(i));
            assert(self.store_m(oldn) == copy@);
            assert forall|i: int, j: int|
                #![trigger self.store_m(i), self.store_m(j)]
                0 <= i < j < self.n_stores() implies self.store_m(i).id != self.store_m(j).id
                    && !(self.store_m(i).gemini_name is Some && self.store_m(i).gemini_name
                    == self.store_m(j).gemini_name) by {
                if j < oldn {
                    assert(old(self).store_m(i).id != old(self).store_m(j).id);
                } else {
                    assert(self.store_m(j) == copy@);
                    assert(old(self).store_m(i).id != id@);
                }
            }
            assert forall|i: int|
                0 <= i < self.n_docs() implies self.has_store(
                (#[trigger] self.doc_m(i)).store_id,
            ) by {
                let sid = old(self).doc_m(i).store_id;
                let k = old(self).store_index(sid);
                assert(old(self).store_m(k).id == sid);
                assert(self.store_m(k).id == sid);
            }
        }
        Ok(copy)
    }

    /// One store record was rewritten, everything else was left alone, and
    /// the clock advanced.
    pub open spec fn store_updated(pre: Database, post: Database, id: Seq<char>, m: StoreModel) -> bool {
        &&& pre.has_store(id)
        &&& post.n_stores() == pre.n_stores()
        &&& post.store_m(pre.store_index(id)) == m
        &&& (forall|i: int| 0 <= i < pre.n_stores() && i != pre.store_index(id)
                ==> #[trigger] post.store_m(i) == pre.store_m(i))
        &&& post.documents == pre.documents
        &&& post.clock == tick(pre.clock as int)
    }

    /// One document record was rewritten, everything else was left alone,
    /// and the clock advanced.
    pub open spec fn doc_updated(pre: Database, post: Database, id: Seq<char>, m: DocumentModel) -> bool {
        &&& pre.has_doc(id)
        &&& post.n_docs() == pre.n_docs()
        &&& post.doc_m(pre.doc_index(id)) == m
        &&& (forall|i: int| 0 <= i < pre.n_docs() && i != pre.doc_index(id)
                ==> #[trigger] post.doc_m(i) == pre.doc_m(i))
        &&& post.stores == pre.stores
        &&& post.clock == tick(pre.clock as int)
    }

    /// Rewriting one store record in place preserves well-formedness as long
    /// as the record keeps its id and does not take another record's remote
    /// identifier.
    proof fn lemma_wf_store_update(pre: Database, post: Database, k: int)
        requires
            pre.wf(),
            post.n_stores() == pre.n_stores(),
            0 <= k < pre.n_stores(),
            forall|i: int| 0 <= i < pre.n_stores() && i != k
                ==> #[trigger] post.store_m(i) == pre.store_m(i),
            post.store_m(k).id == pre.store_m(k).id,
            post.store_m(k).gemini_name == pre.store_m(k).gemini_name || (forall|i: int|
                0 <= i < pre.n_stores() && i != k
                    ==> #[trigger] post.store_m(i).gemini_name != post.store_m(k).gemini_name),
            post.n_docs() == pre.n_docs(),
            forall|i: int| 0 <= i < pre.n_docs() ==> #[trigger] post.doc_m(i) == pre.doc_m(i),
            post.clock >= 0,
        ensures
            post.wf(),
    {
        assert forall|i: int, j: int|
            #![trigger post.store_m(i), post.store_m(j)]
            0 <= i < j < post.n_stores() implies post.store_m(i).id != post.store_m(j).id && !(
        post.store_m(i).gemini_name is Some && post.store_m(i).gemini_name == post.store_m(
            j,
        ).gemini_name) by {
            assert(pre.store_m(i).id != pre.store_m(j).id);
            assert(!(pre.store_m(i).gemini_name is Some && pre.store_m(i).gemini_name
                == pre.store_m(j).gemini_name));
        }
        assert forall|i: int| 0 <= i < post.n_docs() implies post.has_store(
            (#[trigger] post.doc_m(i)).store_id,
        ) by {
            let sid = pre.doc_m(i).store_id;
            let k2 = pre.store_index(sid);
            assert(pre.store_m(k2).id == sid);
            assert(post.store_m(k2).id == sid);
        }
    }

    /// Rewriting one document record in place preserves well-formedness as
    /// long as the record keeps its id and owning store and does not take
    /// another record's remote identifier.
    proof fn lemma_wf_doc_update(pre: Database, post: Database, k: int)
        requires
            pre.wf(),
            post.n_docs() == pre.n_docs(),
            0 <= k < pre.n_docs(),
            forall|i: int| 0 <= i < pre.n_docs() && i != k
                ==> #[trigger] post.doc_m(i) == pre.doc_m(i),
            post.doc_m(k).id == pre.doc_m(k).id,
            post.doc_m(k).store_id == pre.doc_m(k).store_id,
            post.doc_m(k).gemini_name == pre.doc_m(k).gemini_name || (forall|i: int|
                0 <= i < pre.n_docs() && i != k
                    ==> #[trigger] post.doc_m(i).gemini_name != post.doc_m(k).gemini_name),
            post.n_stores() == pre.n_stores(),
            forall|i: int| 0 <= i < pre.n_stores() ==> #[trigger] post.store_m(i) == pre.store_m(i),
            post.clock >= 0,
        ensures
            post.wf(),
    {
        assert forall|i: int, j: int|
            #![trigger post.doc_m(i), post.doc_m(j)]
            0 <= i < j < post.n_docs() implies post.doc_m(i).id != post.doc_m(j).id && !(post.doc_m(
            i,
        ).gemini_name is Some && post.doc_m(i).gemini_name == post.doc_m(j).gemini_name) by {
            assert(pre.doc_m(i).id != pre.doc_m(j).id);
            assert(!(pre.doc_m(i).gemini_name is Some && pre.doc_m(i).gemini_name == pre.doc_m(
                j,
            ).gemini_name));
        }
        assert forall|i: int| 0 <= i < post.n_docs() implies post.has_store(
            (#[trigger] post.doc_m(i)).store_id,
        ) by {
            let sid = post.doc_m(i).store_id;
            assert(pre.doc_m(i).store_id == sid);
            let k2 = pre.store_index(sid);
            assert(pre.store_m(k2).id == sid);
            assert(post.store_m(k2).id == sid);
        }
    }

    /// Returns the alive store record carrying `id`.
    pub fn get_store(&self, id: &str) -> (r: Result<Store, DbError>)
        requires
            self.wf(),
        ensures
            match r {
                Ok(st) => self.has_alive_store(id@) && st@ == self.store_of(id@),
                Err(e) => e == DbError::NotFound && !self.has_alive_store(id@),
            },
    {
        match self.find_store(id) {
            Some(i) => {
                if self.stores[i].deleted_at.is_none() {
                    Ok(self.stores[i].clone())
                } else {
                    Err(DbError::NotFound)
                }
            },
            None => Err(DbError::NotFound),
        }
    }
}

/// A store record as soft deletion leaves it.
pub open spec fn store_soft_deleted(m: StoreModel, now: int) -> StoreModel {
    StoreModel { deleted_at: Some(now), updated_at: now, ..m }
}

/// A store record as a convergence-state write leaves it: the remote
/// identifier is only overwritten when one is supplied.
pub open spec fn store_status_set(
    m: StoreModel,
    st: SyncStatus,
    g: Option<Seq<char>>,
    now: int,
) -> StoreModel {
    StoreModel {
        sync_status: st,
        gemini_name: if g is Some {
            g
        } else {
            m.gemini_name
        },
        updated_at: now,
        ..m
    }
}

/// A store record as a successful remote creation leaves it: remote
/// identifier, remote timestamps and counts recorded, and synced.
pub open spec fn store_from_remote(
    m: StoreModel,
    g: Seq<char>,
    create_time: Option<Seq<char>>,
    update_time: Option<Seq<char>>,
    active: int,
    pending: int,
    failed: int,
    size: int,
    now: int,
) -> StoreModel {
    StoreModel {
        gemini_name: Some(g),
        create_time: create_time,
        update_time: update_time,
        active_documents_count: active,
        pending_documents_count: pending,
        failed_documents_count: failed,
        size_bytes: size,
        sync_status: SyncStatus::Synced,
        updated_at: now,
        ..m
    }
}

impl Database {
    /// Another store record than the one at `except` already carries this
    /// remote identifier.
    fn store_remote_taken(&self, name: &str, except: usize) -> (r: bool)
        ensures
            r == exists|i: int|
                0 <= i < self.n_stores() && i != except && (#[trigger] self.store_m(
                    i,
                )).gemini_name == Some(name@),
    {
        let n = self.stores.len();
        let mut i: usize = 0;
        while i < n
            invariant
                n == self.n_stores(),
                i <= n,
                forall|k: int| 0 <= k < i && k != except
                    ==> (#[trigger] self.store_m(k)).gemini_name != Some(name@),
            decreases n - i,
        {
            if i != except {
                match &self.stores[i].gemini_name {
                    Some(g) => {
                        if str_eq(g.as_str(), name) {
                            proof {
                                assert(0 <= (i as int) && (i as int) < self.n_stores()
                                    && i as int != except
                                    && self.store_m(i as int).gemini_name == Some(name@));
                            }
                            return true;
                        }
                    },
                    None => {},
                }
            }
            i = i + 1;
        }
        false
    }

    /// Marks the alive store carrying `id` as soft-deleted. A record that is
    /// absent or already soft-deleted is left untouched.
    pub fn soft_delete_store(&mut self, id: &str)
        requires
            old(self).wf(),
        ensures
            final(self).wf(),
            old(self).has_alive_store(id@) ==> Database::store_updated(
                *old(self),
                *final(self),
                id@,
                store_soft_deleted(old(self).store_of(id@), old(self).clock as int),
            ),
            !old(self).has_alive_store(id@) ==> *final(self) == *old(self),
            old(self).stores_consistent() ==> final(self).stores_consistent(),
    {
        match self.find_store(id) {
            Some(i) => {
                if self.stores[i].deleted_at.is_none() {
                    let now = self.clock;
                    self.stores[i].deleted_at = Some(now);
                    self.stores[i].updated_at = now;
                    self.bump_clock();
                    proof {
                        assert(self.store_m(i as int) =~= store_soft_deleted(
                            old(self).store_of(id@),
                            old(self).clock as int,
                        ));
                        Database::lemma_wf_store_update(*old(self), *self, i as int);
                        if old(self).stores_consistent() {
                            Database::lemma_stores_consistent_update(
                                *old(self),
                                *self,
                                id@,
                                store_soft_deleted(
                                    old(self).store_of(id@),
                                    old(self).clock as int,
                                ),
                            );
                        }
                    }
                }
            },
            None => {},
        }
    }

    /// Writes a store's convergence state, and its remote identifier when
    /// one is supplied. Fails without a write when the supplied remote
    /// identifier already belongs to another store. A record that is absent
    /// is left untouched.
    pub fn update_store_sync_status(
        &mut self,
        id: &str,
        sync_status: SyncStatus,
        gemini_name: Option<&str>,
    ) -> (r: Result<(), DbError>)
        requires
            old(self).wf(),
        ensures
            final(self).wf(),
            r is Ok ==> !old(self).has_store(id@) ==> *final(self) == *old(self),
            r is Ok && old(self).has_store(id@) ==> Database::store_updated(
                *old(self),
                *final(self),
                id@,
                store_status_set(
                    old(self).store_of(id@),
                    sync_status,
                    opt_str_view(gemini_name),
                    old(self).clock as int,
                ),
            ),
            r is Err <==> (gemini_name matches Some(g) && old(self).has_store(id@) && old(
                self,
            ).store_remote_clash(id@, g@)),
            r matches Err(e) ==> e == DbError::DuplicateRemoteId && *final(self) == *old(self),
    {
        match self.find_store(id) {
            Some(i) => {
                match gemini_name {
                    Some(g) => {
                        if self.store_remote_taken(g, i) {
                            return Err(DbError::DuplicateRemoteId);
                        }
                        let now = self.clock;
                        self.stores[i].sync_status = sync_status;
                        self.stores[i].gemini_name = Some(g.to_owned());
                        self.stores[i].updated_at = now;
                        self.bump_clock();
                        proof {
                            assert(self.store_m(i as int) =~= store_status_set(
                                old(self).store_of(id@),
                                sync_status,
                                opt_str_view(gemini_name),
                                old(self).clock as int,
                            ));
                            assert forall|j: int|
                                0 <= j < self.n_stores() && j != i as int implies (
                            #[trigger] self.store_m(j)).gemini_name != self.store_m(
                                i as int,
                            ).gemini_name by {
                                assert(old(self).store_m(j).gemini_name != Some(g@));
                            }
                            Database::lemma_wf_store_update(*old(self), *self, i as int);
                        }
                    },
                    None => {
                        let now = self.clock;
                        self.stores[i].sync_status = sync_status;
                        self.stores[i].updated_at = now;
                        self.bump_clock();
                        proof {
                            assert(self.store_m(i as int) =~= store_status_set(
                                old(self).store_of(id@),
                                sync_status,
                                opt_str_view(gemini_name),
                                old(self).clock as int,
                            ));
                            Database::lemma_wf_store_update(*old(self), *self, i as int);
                        }
                    },
                }
                Ok(())
            },
            None => Ok(()),
        }
    }

    /// Records a successful remote creation on the store carrying `id`:
    /// remote identifier, remote timestamps, mirrored counts, and the synced
    /// state. Fails without a write when the remote identifier already
    /// belongs to another store. A record that is absent is left untouched.
    pub fn update_store_from_gemini(
        &mut self,
        id: &str,
        gemini_name: &str,
        create_time: Option<&str>,
        update_time: Option<&str>,
        active_documents_count: i64,
        pending_documents_count: i64,
        failed_documents_count: i64,
        size_bytes: i64,
    ) -> (r: Result<(), DbError>)
        requires
            old(self).wf(),
        ensures
            final(self).wf(),
            r is Ok ==> !old(self).has_store(id@) ==> *final(self) == *old(self),
            r is Ok && old(self).has_store(id@) ==> Database::store_updated(
                *old(self),
                *final(self),
                id@,
                store_from_remote(
                    old(self).store_of(id@),
                    gemini_name@,
                    opt_str_view(create_time),
                    opt_str_view(update_time),
                    active_documents_count as int,
                    pending_documents_count as int,
                    failed_documents_count as int,
                    size_bytes as int,
                    old(self).clock as int,
                ),
            ),
            r is Err <==> old(self).has_store(id@) && old(self).store_remote_clash(
                id@,
                gemini_name@,
            ),
            r matches Err(e) ==> e == DbError::DuplicateRemoteId && *final(self) == *old(self),
            old(self).stores_consistent() ==> final(self).stores_consistent(),
    {
        match self.find_store(id) {
            Some(i) => {
                if self.store_remote_taken(gemini_name, i) {
                    return Err(DbError::DuplicateRemoteId);
                }
                let now = self.clock;
                self.stores[i].gemini_name = Some(gemini_name.to_owned());
                self.stores[i].create_time = own_opt(create_time);
                self.stores[i].update_time = own_opt(update_time);
                self.stores[i].active_documents_count = active_documents_count;
                self.stores[i].pending_documents_count = pending_documents_count;
                self.stores[i].failed_documents_count = failed_documents_count;
                self.stores[i].size_bytes = size_bytes;
                self.stores[i].sync_status = SyncStatus::Synced;
                self.stores[i].updated_at = now;
                self.bump_clock();
                proof {
                    assert(self.store_m(i as int) =~= store_from_remote(
                        old(self).store_of(id@),
                        gemini_name@,
                        opt_str_view(create_time),
                        opt_str_view(update_time),
                        active_documents_count as int,
                        pending_documents_count as int,
                        failed_documents_count as int,
                        size_bytes as int,
                        old(self).clock as int,
                    ));
                    assert forall|j: int|
                        0 <= j < self.n_stores() && j != i as int implies (
                    #[trigger] self.store_m(j)).gemini_name != self.store_m(
                        i as int,
                    ).gemini_name by {
                        assert(old(self).store_m(j).gemini_name != Some(gemini_name@));
                    }
                    Database::lemma_wf_store_update(*old(self), *self, i as int);
                    if old(self).stores_consistent() {
                        Database::lemma_stores_consistent_update(
                            *old(self),
                            *self,
                            id@,
                            store_from_remote(
                                old(self).store_of(id@),
                                gemini_name@,
                                opt_str_view(create_time),
                                opt_str_view(update_time),
                                active_documents_count as int,
                                pending_documents_count as int,
                                failed_documents_count as int,
                                size_bytes as int,
                                old(self).clock as int,
                            ),
                        );
                    }
                }
                Ok(())
            },
            None => Ok(()),
        }
    }
}

/// Unfolding step of `Seq::filter` over `push`.
pub proof fn lemma_filter_push<A>(s: Seq<A>, pred: spec_fn(A) -> bool, x: A)
    ensures
        pred(x) ==> s.push(x).filter(pred) == s.filter(pred).push(x),
        !pred(x) ==> s.push(x).filter(pred) == s.filter(pred),
{
    reveal(Seq::filter);
    assert(s.push(x).drop_last() =~= s);
    assert(s.push(x).last() == x);
}

/// Filtering keeps every pairwise relation that held in order, and every
/// element of the result is an element of the source.
pub proof fn lemma_filter_pairwise<A>(s: Seq<A>, pred: spec_fn(A) -> bool, r: spec_fn(A, A) -> bool)
    requires
        forall|i: int, j: int| 0 <= i < j < s.len() ==> #[trigger] r(s[i], s[j]),
    ensures
        forall|i: int, j: int|
            0 <= i < j < s.filter(pred).len() ==> #[trigger] r(
                s.filter(pred)[i],
                s.filter(pred)[j],
            ),
        forall|i: int|
            0 <= i < s.filter(pred).len() ==> exists|k: int|
                0 <= k < s.len() && #[trigger] s.filter(pred)[i] == s[k],
    decreases s.len(),
{
    reveal(Seq::filter);
    if s.len() == 0 {
    } else {
        let s0 = s.drop_last();
        let x = s.last();
        assert forall|i: int, j: int| 0 <= i < j < s0.len() implies #[trigger] r(s0[i], s0[j]) by {
            assert(r(s[i], s[j]));
        }
        lemma_filter_pairwise(s0, pred, r);
        let f0 = s0.filter(pred);
        let f = s.filter(pred);
        if pred(x) {
            assert(f == f0.push(x));
            assert forall|i: int, j: int| 0 <= i < j < f.len() implies #[trigger] r(f[i], f[j]) by {
                if j < f0.len() {
                    assert(r(f0[i], f0[j]));
                } else {
                    assert(f[j] == x);
                    let k = choose|k: int| 0 <= k < s0.len() && #[trigger] f0[i] == s0[k];
                    assert(f0[i] == s0[k]);
                    assert(s0[k] == s[k]);
                    assert(r(s[k], s[s.len() - 1]));
                }
            }
            assert forall|i: int| 0 <= i < f.len() implies exists|k: int|
                0 <= k < s.len() && #[trigger] f[i] == s[k] by {
                if i < f0.len() {
                    let k = choose|k: int| 0 <= k < s0.len() && #[trigger] f0[i] == s0[k];
                    assert(f[i] == s[k]);
                } else {
                    assert(f[i] == s[s.len() - 1]);
                }
            }
        } else {
            assert(f == f0);
            assert forall|i: int| 0 <= i < f.len() implies exists|k: int|
                0 <= k < s.len() && #[trigger] f[i] == s[k] by {
                let k = choose|k: int| 0 <= k < s0.len() && #[trigger] f0[i] == s0[k];
                assert(f[i] == s[k]);
            }
        }
    }
}

/// Models of a sequence of store records.
pub open spec fn store_views(s: Seq<Store>) -> Seq<StoreModel> {
    Seq::new(s.len(), |i: int| s[i]@)
}

/// Models of a sequence of document records.
pub open spec fn doc_views(s: Seq<Document>) -> Seq<DocumentModel> {
    Seq::new(s.len(), |i: int| s[i]@)
}

impl Database {
    /// Models of all store records, in storage order.
    pub open spec fn store_models(self) -> Seq<StoreModel> {
        store_views(self.stores@)
    }

    /// Models of all document records, in storage order.
    pub open spec fn doc_models(self) -> Seq<DocumentModel> {
        doc_views(self.documents@)
    }
}

/// Inserts an element behind every element whose key is not greater, so
/// equal keys keep their existing order.
pub open spec fn insert_by_key<A>(s: Seq<A>, x: A, key: spec_fn(A) -> int) -> Seq<A>
    decreases s.len(),
{
    if s.len() == 0 {
        seq![x]
    } else if key(s.last()) <= key(x) {
        s.push(x)
    } else {
        insert_by_key(s.drop_last(), x, key).push(s.last())
    }
}

/// Stable sort by an integer key: elements in key order, equal keys in
/// their original order.
pub open spec fn sort_by_key<A>(s: Seq<A>, key: spec_fn(A) -> int) -> Seq<A>
    decreases s.len(),
{
    if s.len() == 0 {
        Seq::<A>::empty()
    } else {
        insert_by_key(sort_by_key(s.drop_last(), key), s.last(), key)
    }
}

/// The sequence is ordered by non-decreasing key.
pub open spec fn ordered_by_key<A>(s: Seq<A>, key: spec_fn(A) -> int) -> bool {
    forall|i: int, j: int|
        #![trigger key(s[i]), key(s[j])]
        0 <= i < j < s.len() ==> key(s[i]) <= key(s[j])
}

/// Where the walk from the back stops is where the insertion lands: with
/// everything from `k` on keyed strictly greater than `x` and the element
/// before `k` (if any) not greater, the insertion splits the sequence at
/// `k`.
pub proof fn lemma_insert_by_key_at<A>(s: Seq<A>, x: A, key: spec_fn(A) -> int, k: int)
    requires
        0 <= k <= s.len(),
        forall|j: int| k <= j < s.len() ==> key(#[trigger] s[j]) > key(x),
        k > 0 ==> key(s[k - 1]) <= key(x),
    ensures
        insert_by_key(s, x, key) == s.take(k) + seq![x] + s.skip(k),
    decreases s.len(),
{
    if k == s.len() {
        if s.len() == 0 {
            assert(insert_by_key(s, x, key) =~= s.take(k) + seq![x] + s.skip(k));
        } else {
            assert(key(s.last()) <= key(x));
            assert(insert_by_key(s, x, key) == s.push(x));
            assert(s.push(x) =~= s.take(k) + seq![x] + s.skip(k));
        }
    } else {
        assert(key(s[s.len() - 1]) > key(x));
        let s0 = s.drop_last();
        assert forall|j: int| k <= j < s0.len() implies key(#[trigger] s0[j]) > key(x) by {
            assert(s0[j] == s[j]);
        }
        if k > 0 {
            assert(s0[k - 1] == s[k - 1]);
        }
        lemma_insert_by_key_at(s0, x, key, k);
        assert(insert_by_key(s, x, key) == insert_by_key(s0, x, key).push(s.last()));
        assert((s0.take(k) + seq![x] + s0.skip(k)).push(s.last()) =~= s.take(k) + seq![x]
            + s.skip(k));
    }
}

/// Stamp a soft-deleted store was deleted at (zero for an alive record).
pub open spec fn del_stamp_store(m: StoreModel) -> int {
    match m.deleted_at {
        Some(t) => t,
        None => 0,
    }
}

/// Stamp a soft-deleted document was deleted at (zero for an alive
/// record).
pub open spec fn del_stamp_doc(m: DocumentModel) -> int {
    match m.deleted_at {
        Some(t) => t,
        None => 0,
    }
}

/// The deletion stamp, as a key for sorting stores.
pub open spec fn del_key_store() -> spec_fn(StoreModel) -> int {
    |m: StoreModel| del_stamp_store(m)
}

/// The deletion stamp, as a key for sorting documents.
pub open spec fn del_key_doc() -> spec_fn(DocumentModel) -> int {
    |m: DocumentModel| del_stamp_doc(m)
}

/// Reads a store record's deletion stamp (zero while it is alive).
fn store_del_stamp(s: &Store) -> (t: i64)
    ensures
        t as int == del_stamp_store(s@),
{
    match &s.deleted_at {
        Some(t) => *t,
        None => 0,
    }
}

/// Reads a document record's deletion stamp (zero while it is alive).
fn doc_del_stamp(d: &Document) -> (t: i64)
    ensures
        t as int == del_stamp_doc(d@),
{
    match &d.deleted_at {
        Some(t) => *t,
        None => 0,
    }
}

/// Keeps the document records that do not carry this id.
pub open spec fn keep_other_docs(id: Seq<char>) -> spec_fn(DocumentModel) -> bool {
    |m: DocumentModel| m.id != id
}

/// Keeps the document records that do not belong to this store.
pub open spec fn keep_docs_outside(store_id: Seq<char>) -> spec_fn(DocumentModel) -> bool {
    |m: DocumentModel| m.store_id != store_id
}

/// Keeps the store records that do not carry this id.
pub open spec fn keep_other_stores(id: Seq<char>) -> spec_fn(StoreModel) -> bool {
    |m: StoreModel| m.id != id
}

/// Keeps the document records that are alive or carry a remote identifier;
/// what it drops are the soft-deleted records that were never uploaded and
/// so owe no remote deletion.
pub open spec fn keep_reconcilable_docs() -> spec_fn(DocumentModel) -> bool {
    |m: DocumentModel| m.alive() || m.gemini_name is Some
}

impl Database {
    /// What filtering the document records leaves behind: exactly the
    /// records whose model satisfies the predicate, each unchanged.
    proof fn lemma_filtered_docs(pre: Database, post: Database, pred: spec_fn(DocumentModel) -> bool)
        requires
            pre.wf(),
            post.doc_models() == pre.doc_models().filter(pred),
            post.stores == pre.stores,
        ensures
            post.docs_unique(),
            post.doc_remotes_unique(),
            post.docs_have_stores(),
            forall|d: Seq<char>|
                #[trigger] post.has_doc(d) <==> pre.has_doc(d) && pred(pre.doc_of(d)),
            forall|d: Seq<char>|
                #[trigger] post.has_doc(d) ==> post.doc_of(d) == pre.doc_of(d),
            pre.docs_consistent() ==> post.docs_consistent(),
    {
        let models = pre.doc_models();
        let f = models.filter(pred);
        assert(forall|i: int| 0 <= i < pre.n_docs() ==> models[i] == #[trigger] pre.doc_m(i));
        assert(forall|i: int| 0 <= i < post.n_docs() ==> f[i] == #[trigger] post.doc_m(i));
        let rr = |a: DocumentModel, b: DocumentModel|
            a.id != b.id && !(a.gemini_name is Some && a.gemini_name == b.gemini_name);
        assert forall|i: int, j: int| 0 <= i < j < models.len() implies #[trigger] rr(
            models[i],
            models[j],
        ) by {
            assert(models[i] == pre.doc_m(i));
            assert(models[j] == pre.doc_m(j));
        }
        lemma_filter_pairwise(models, pred, rr);
        assert forall|i: int, j: int|
            #![trigger post.doc_m(i), post.doc_m(j)]
            0 <= i < j < post.n_docs() implies post.doc_m(i).id != post.doc_m(j).id && !(post.doc_m(
            i,
        ).gemini_name is Some && post.doc_m(i).gemini_name == post.doc_m(j).gemini_name) by {
            assert(rr(f[i], f[j]));
        }
        assert forall|i: int| 0 <= i < post.n_docs() implies exists|k: int|
            0 <= k < pre.n_docs() && #[trigger] post.doc_m(i) == pre.doc_m(k) by {
            let k = choose|k: int| 0 <= k < models.len() && #[trigger] f[i] == models[k];
            assert(post.doc_m(i) == pre.doc_m(k));
        }
        assert forall|i: int| 0 <= i < post.n_docs() implies post.has_store(
            (#[trigger] post.doc_m(i)).store_id,
        ) by {
            let k = choose|k: int| 0 <= k < pre.n_docs() && #[trigger] post.doc_m(i) == pre.doc_m(k);
            let sid = pre.doc_m(k).store_id;
            let k2 = pre.store_index(sid);
            assert(pre.store_m(k2).id == sid);
            assert(post.store_m(k2).id == sid);
        }
        assert forall|d: Seq<char>| #[trigger] post.has_doc(d) implies pre.has_doc(d) && pred(
            pre.doc_of(d),
        ) && post.doc_of(d) == pre.doc_of(d) by {
            let i = post.doc_index(d);
            assert(post.doc_m(i).id == d);
            let k = choose|k: int| 0 <= k < pre.n_docs() && #[trigger] post.doc_m(i) == pre.doc_m(k);
            assert(pre.doc_m(k).id == d);
            pre.lemma_doc_index(k);
            assert(pre.doc_of(d) == pre.doc_m(k));
            models.lemma_filter_pred(pred, i);
            assert(pred(f[i]));
        }
        if pre.docs_consistent() {
            assert forall|i: int| 0 <= i < post.n_docs() implies ((#[trigger] post.doc_m(
                i,
            )).status == DocStatus::Processing <==> post.doc_m(i).operation_name is Some) by {
                let k = choose|k: int|
                    0 <= k < pre.n_docs() && #[trigger] post.doc_m(i) == pre.doc_m(k);
                assert(pre.doc_m(k).status == DocStatus::Processing <==> pre.doc_m(
                    k,
                ).operation_name is Some);
            }
        }
        assert forall|d: Seq<char>| pre.has_doc(d) && pred(pre.doc_of(d)) implies #[trigger] post.has_doc(
            d,
        ) by {
            let k = pre.doc_index(d);
            assert(pre.doc_m(k).id == d);
            pre.lemma_doc_index(k);
            assert(pred(models[k]));
            models.lemma_filter_contains(pred, k);
            assert(f.contains(models[k]));
            let i = choose|i: int| 0 <= i < f.len() && f[i] == models[k];
            assert(post.doc_m(i).id == d);
        }
    }

    /// What filtering the store records leaves behind, said of the store
    /// side alone.
    proof fn lemma_filtered_stores(pre: Database, post: Database, pred: spec_fn(StoreModel) -> bool)
        requires
            pre.wf(),
            post.store_models() == pre.store_models().filter(pred),
        ensures
            post.stores_unique(),
            post.store_remotes_unique(),
            forall|s: Seq<char>|
                #[trigger] post.has_store(s) <==> pre.has_store(s) && pred(pre.store_of(s)),
            forall|s: Seq<char>|
                #[trigger] post.has_store(s) ==> post.store_of(s) == pre.store_of(s),
            pre.stores_consistent() ==> post.stores_consistent(),
    {
        let models = pre.store_models();
        let f = models.filter(pred);
        assert(forall|i: int| 0 <= i < pre.n_stores() ==> models[i] == #[trigger] pre.store_m(i));
        assert(forall|i: int| 0 <= i < post.n_stores() ==> f[i] == #[trigger] post.store_m(i));
        let rr = |a: StoreModel, b: StoreModel|
            a.id != b.id && !(a.gemini_name is Some && a.gemini_name == b.gemini_name);
        assert forall|i: int, j: int| 0 <= i < j < models.len() implies #[trigger] rr(
            models[i],
            models[j],
        ) by {
            assert(models[i] == pre.store_m(i));
            assert(models[j] == pre.store_m(j));
        }
        lemma_filter_pairwise(models, pred, rr);
        assert forall|i: int, j: int|
            #![trigger post.store_m(i), post.store_m(j)]
            0 <= i < j < post.n_stores() implies post.store_m(i).id != post.store_m(j).id && !(
        post.store_m(i).gemini_name is Some && post.store_m(i).gemini_name == post.store_m(
            j,
        ).gemini_name) by {
            assert(rr(f[i], f[j]));
        }
        assert forall|s: Seq<char>| #[trigger] post.has_store(s) implies pre.has_store(s) && pred(
            pre.store_of(s),
        ) && post.store_of(s) == pre.store_of(s) by {
            let i = post.store_index(s);
            assert(post.store_m(i).id == s);
            let k = choose|k: int|
                0 <= k < models.len() && #[trigger] f[i] == models[k];
            assert(pre.store_m(k).id == s);
            pre.lemma_store_index(k);
            assert(pre.store_of(s) == pre.store_m(k));
            models.lemma_filter_pred(pred, i);
            assert(pred(f[i]));
        }
        assert forall|i: int| 0 <= i < post.n_stores() implies exists|k: int|
            0 <= k < pre.n_stores() && #[trigger] post.store_m(i) == pre.store_m(k) by {
            let k = choose|k: int| 0 <= k < models.len() && #[trigger] f[i] == models[k];
            assert(post.store_m(i) == pre.store_m(k));
        }
        if pre.stores_consistent() {
            assert forall|i: int| 0 <= i < post.n_stores() implies ((#[trigger] post.store_m(
                i,
            )).sync_status == SyncStatus::Synced <==> post.store_m(i).gemini_name is Some) by {
                let k = choose|k: int|
                    0 <= k < pre.n_stores() && #[trigger] post.store_m(i) == pre.store_m(k);
                assert(pre.store_m(k).sync_status == SyncStatus::Synced <==> pre.store_m(
                    k,
                ).gemini_name is Some);
            }
        }
        assert forall|s: Seq<char>| pre.has_store(s) && pred(pre.store_of(s)) implies
            #[trigger] post.has_store(s) by {
            let k = pre.store_index(s);
            assert(pre.store_m(k).id == s);
            pre.lemma_store_index(k);
            assert(pred(models[k]));
            models.lemma_filter_contains(pred, k);
            assert(f.contains(models[k]));
            let i = choose|i: int| 0 <= i < f.len() && f[i] == models[k];
            assert(post.store_m(i).id == s);
        }
    }

    /// Removes the document records that the predicate rejects, leaving the
    /// rest in storage order. The exec test must decide the predicate.
    fn retain_documents(
        &mut self,
        id: &str,
        by_store: bool,
    )
        requires
            old(self).wf(),
        ensures
            final(self).stores == old(self).stores,
            final(self).clock == old(self).clock,
            by_store ==> final(self).doc_models() == old(self).doc_models().filter(
                keep_docs_outside(id@),
            ),
            !by_store ==> final(self).doc_models() == old(self).doc_models().filter(
                keep_other_docs(id@),
            ),
    {
        let ghost pred: spec_fn(DocumentModel) -> bool = if by_store {
            keep_docs_outside(id@)
        } else {
            keep_other_docs(id@)
        };
        let n = self.documents.len();
        let mut kept: Vec<Document> = Vec::new();
        let mut i: usize = 0;
        while i < n
            invariant
                *self == *old(self),
                n == self.n_docs(),
                i <= n,
                pred == (if by_store {
                    keep_docs_outside(id@)
                } else {
                    keep_other_docs(id@)
                }),
                doc_views(kept@) == self.doc_models().take(i as int).filter(pred),
            decreases n - i,
        {
            let matched = if by_store {
                str_eq(self.documents[i].store_id.as_str(), id)
            } else {
                str_eq(self.documents[i].id.as_str(), id)
            };
            proof {
                let models = self.doc_models();
                assert(models.take(i + 1 as int) =~= models.take(i as int).push(
                    models[i as int],
                ));
                lemma_filter_push(models.take(i as int), pred, models[i as int]);
                assert(matched == !pred(models[i as int]));
            }
            if !matched {
                let ghost pre_kept = kept@;
                kept.push(self.documents[i].clone());
                proof {
                    assert(doc_views(kept@) =~= doc_views(pre_kept).push(
                        self.doc_m(i as int),
                    ));
                }
            }
            i = i + 1;
        }
        proof {
            assert(self.doc_models().take(n as int) =~= self.doc_models());
        }
        self.documents = kept;
    }

    /// Removes the store records that carry `id`, leaving the rest in
    /// storage order.
    fn retain_stores(&mut self, id: &str)
        ensures
            final(self).documents == old(self).documents,
            final(self).clock == old(self).clock,
            final(self).store_models() == old(self).store_models().filter(keep_other_stores(id@)),
    {
        let ghost pred: spec_fn(StoreModel) -> bool = keep_other_stores(id@);
        let n = self.stores.len();
        let mut kept: Vec<Store> = Vec::new();
        let mut i: usize = 0;
        while i < n
            invariant
                *self == *old(self),
                n == self.n_stores(),
                i <= n,
                pred == keep_other_stores(id@),
                store_views(kept@) == self.store_models().take(i as int).filter(pred),
            decreases n - i,
        {
            let matched = str_eq(self.stores[i].id.as_str(), id);
            proof {
                let models = self.store_models();
                assert(models.take(i as int + 1) =~= models.take(i as int).push(
                    models[i as int],
                ));
                lemma_filter_push(models.take(i as int), pred, models[i as int]);
                assert(matched == !pred(models[i as int]));
            }
            if !matched {
                let ghost pre_kept = kept@;
                kept.push(self.stores[i].clone());
                proof {
                    assert(store_views(kept@) =~= store_views(pre_kept).push(
                        self.store_m(i as int),
                    ));
                }
            }
            i = i + 1;
        }
        proof {
            assert(self.store_models().take(n as int) =~= self.store_models());
        }
        self.stores = kept;
    }

    /// Permanently removes the store record carrying `id` together with
    /// every document record that belongs to it, alive or soft-deleted.
    /// Absent ids are a no-op.
    pub fn hard_delete_store(&mut self, id: &str)
        requires
            old(self).wf(),
        ensures
            final(self).wf(),
            Database::store_hard_deleted(*old(self), *final(self), id@),
            old(self).stores_consistent() ==> final(self).stores_consistent(),
            old(self).docs_consistent() ==> final(self).docs_consistent(),
    {
        self.retain_documents(id, true);
        let ghost mid = *self;
        proof {
            Database::lemma_filtered_docs(*old(self), mid, keep_docs_outside(id@));
            assert(mid.n_stores() == old(self).n_stores());
            assert(forall|i: int|
                0 <= i < mid.n_stores() ==> #[trigger] mid.store_m(i) == old(self).store_m(i));
            assert(mid.wf());
        }
        self.retain_stores(id);
        proof {
            Database::lemma_filtered_stores(mid, *self, keep_other_stores(id@));
            assert(self.n_docs() == mid.n_docs());
            assert(forall|i: int|
                0 <= i < self.n_docs() ==> #[trigger] self.doc_m(i) == mid.doc_m(i));
            assert forall|i: int, j: int|
                #![trigger self.doc_m(i), self.doc_m(j)]
                0 <= i < j < self.n_docs() implies self.doc_m(i).id != self.doc_m(j).id && !(
            self.doc_m(i).gemini_name is Some && self.doc_m(i).gemini_name == self.doc_m(
                j,
            ).gemini_name) by {
                assert(mid.doc_m(i).id != mid.doc_m(j).id);
                assert(!(mid.doc_m(i).gemini_name is Some && mid.doc_m(i).gemini_name
                    == mid.doc_m(j).gemini_name));
            }
            assert forall|d: Seq<char>| #[trigger] self.has_doc(d) <==> mid.has_doc(d) by {
                if mid.has_doc(d) {
                    let k = mid.doc_index(d);
                    assert(mid.doc_m(k).id == d);
                    assert(self.doc_m(k).id == d);
                }
                if self.has_doc(d) {
                    let k = self.doc_index(d);
                    assert(self.doc_m(k).id == d);
                    assert(mid.doc_m(k).id == d);
                }
            }
            assert forall|d: Seq<char>| #[trigger] self.has_doc(d) implies self.doc_of(d)
                == mid.doc_of(d) by {
                let k1 = self.doc_index(d);
                assert(self.doc_m(k1).id == d);
                assert(mid.doc_m(k1).id == d);
                mid.lemma_doc_index(k1);
                assert(mid.doc_index(d) == k1);
            }
            assert forall|i: int| 0 <= i < self.n_docs() implies self.has_store(
                (#[trigger] self.doc_m(i)).store_id,
            ) by {
                let sid = mid.doc_m(i).store_id;
                assert(mid.has_doc(mid.doc_m(i).id)) by {
                    mid.lemma_doc_index(i);
                }
                assert(old(self).has_doc(mid.doc_m(i).id));
                mid.lemma_doc_index(i);
                assert(mid.doc_of(mid.doc_m(i).id) == mid.doc_m(i));
                assert(old(self).doc_of(mid.doc_m(i).id).store_id != id@);
                assert(sid != id@);
                assert(mid.has_store(sid)) by {
                    assert(mid.docs_have_stores());
                }
                assert(self.has_store(sid));
            }
            assert forall|s: Seq<char>| #[trigger] self.has_store(s) <==> old(self).has_store(s)
                && s != id@ by {
                if old(self).has_store(s) {
                    let k = old(self).store_index(s);
                    old(self).lemma_store_index(k);
                    assert(mid.store_m(k).id == s);
                }
                if mid.has_store(s) {
                    let k = mid.store_index(s);
                    assert(mid.store_m(k).id == s);
                    assert(old(self).store_m(k).id == s);
                }
            }
            assert forall|s: Seq<char>| #[trigger] self.has_store(s) implies self.store_of(s)
                == old(self).store_of(s) by {
                assert(mid.has_store(s));
                let k2 = mid.store_index(s);
                assert(mid.store_m(k2).id == s);
                assert(old(self).store_m(k2).id == s);
                old(self).lemma_store_index(k2);
                mid.lemma_store_index(k2);
                assert(old(self).store_of(s) == old(self).store_m(k2));
                assert(mid.store_of(s) == mid.store_m(k2));
            }
            assert forall|d: Seq<char>| #[trigger] self.has_doc(d) <==> old(self).has_doc(d) && old(
                self,
            ).doc_of(d).store_id != id@ by {
                if old(self).has_doc(d) {
                    let k = old(self).doc_index(d);
                    old(self).lemma_doc_index(k);
                }
            }
            assert forall|d: Seq<char>| #[trigger] self.has_doc(d) implies self.doc_of(d) == old(
                self,
            ).doc_of(d) by {
                assert(mid.has_doc(d));
                assert(mid.doc_of(d) == old(self).doc_of(d));
            }
            if old(self).docs_consistent() {
                assert(mid.docs_consistent());
                assert forall|i: int| 0 <= i < self.n_docs() implies ((
                #[trigger] self.doc_m(i)).status == DocStatus::Processing <==> self.doc_m(
                    i,
                ).operation_name is Some) by {
                    assert(self.doc_m(i) == mid.doc_m(i));
                }
            }
        }
    }

    /// Marks every alive document belonging to the store as soft-deleted,
    /// in one atomic call: afterwards no document of the store reads as
    /// alive.
    pub fn soft_delete_documents_by_store(&mut self, store_id: &str)
        requires
            old(self).wf(),
        ensures
            final(self).wf(),
            final(self).stores == old(self).stores,
            final(self).n_docs() == old(self).n_docs(),
            forall|i: int|
                0 <= i < old(self).n_docs() ==> #[trigger] final(self).doc_m(i) == (if old(
                    self,
                ).doc_m(i).alive() && old(self).doc_m(i).store_id == store_id@ {
                    doc_soft_deleted(old(self).doc_m(i), old(self).clock as int)
                } else {
                    old(self).doc_m(i)
                }),
            final(self).clock == tick(old(self).clock as int),
            old(self).docs_consistent() ==> final(self).docs_consistent(),
    {
        let now = self.clock;
        let n = self.documents.len();
        let mut i: usize = 0;
        while i < n
            invariant
                n == self.n_docs(),
                self.n_docs() == old(self).n_docs(),
                self.stores == old(self).stores,
                self.clock == old(self).clock,
                old(self).wf(),
                now == old(self).clock,
                i <= n,
                forall|k: int|
                    0 <= k < i ==> #[trigger] self.doc_m(k) == (if old(self).doc_m(k).alive()
                        && old(self).doc_m(k).store_id == store_id@ {
                        doc_soft_deleted(old(self).doc_m(k), now as int)
                    } else {
                        old(self).doc_m(k)
                    }),
                forall|k: int| i <= k < n ==> #[trigger] self.doc_m(k) == old(self).doc_m(k),
            decreases n - i,
        {
            let ghost snap = *self;
            if self.documents[i].deleted_at.is_none() && str_eq(
                self.documents[i].store_id.as_str(),
                store_id,
            ) {
                self.documents[i].deleted_at = Some(now);
                self.documents[i].updated_at = now;
                proof {
                    assert(self.documents@[i as int].deleted_at == Some(now));
                    assert(self.documents@[i as int].updated_at == now);
                    assert(self.documents@[i as int].id == snap.documents@[i as int].id);
                    assert(self.doc_m(i as int) =~= doc_soft_deleted(
                        snap.doc_m(i as int),
                        now as int,
                    ));
                    assert(snap.doc_m(i as int) == old(self).doc_m(i as int));
                    assert(forall|k: int|
                        0 <= k < n && k != i as int ==> #[trigger] self.doc_m(k) == snap.doc_m(k));
                }
            }
            i = i + 1;
        }
        let ghost done = *self;
        if self.clock < i64::MAX {
            self.clock = self.clock + 1;
        }
        proof {
            assert(self.documents == done.documents);
            assert(self.stores == done.stores);
            assert(forall|k: int|
                0 <= k < n ==> #[trigger] self.doc_m(k) == done.doc_m(k));
            assert(self.n_stores() == done.n_stores());
            assert(forall|k: int|
                0 <= k < self.n_stores() ==> #[trigger] self.store_m(k) == old(self).store_m(k));
            assert forall|i: int, j: int|
                #![trigger self.doc_m(i), self.doc_m(j)]
                0 <= i < j < self.n_docs() implies self.doc_m(i).id != self.doc_m(j).id && !(
            self.doc_m(i).gemini_name is Some && self.doc_m(i).gemini_name == self.doc_m(
                j,
            ).gemini_name) by {
                assert(self.doc_m(i) == done.doc_m(i));
                assert(self.doc_m(j) == done.doc_m(j));
                assert(self.doc_m(i).id == old(self).doc_m(i).id);
                assert(self.doc_m(j).id == old(self).doc_m(j).id);
                assert(self.doc_m(i).gemini_name == old(self).doc_m(i).gemini_name);
                assert(self.doc_m(j).gemini_name == old(self).doc_m(j).gemini_name);
                assert(old(self).doc_m(i).id != old(self).doc_m(j).id);
                assert(!(old(self).doc_m(i).gemini_name is Some && old(self).doc_m(i).gemini_name
                    == old(self).doc_m(j).gemini_name));
            }
            assert forall|i: int| 0 <= i < self.n_docs() implies self.has_store(
                (#[trigger] self.doc_m(i)).store_id,
            ) by {
                let sid = old(self).doc_m(i).store_id;
                assert(self.doc_m(i) == done.doc_m(i));
                assert(self.doc_m(i).store_id == sid);
                let k = old(self).store_index(sid);
                assert(old(self).store_m(k).id == sid);
                assert(self.store_m(k).id == sid);
            }
            if old(self).docs_consistent() {
                assert forall|i: int| 0 <= i < self.n_docs() implies ((
                #[trigger] self.doc_m(i)).status == DocStatus::Processing <==> self.doc_m(
                    i,
                ).operation_name is Some) by {
                    assert(self.doc_m(i) == done.doc_m(i));
                    assert(old(self).doc_m(i).status == DocStatus::Processing <==> old(
                        self,
                    ).doc_m(i).operation_name is Some);
                }
            }
        }
    }

    /// Permanently removes every soft-deleted document that never received
    /// a remote identifier: nothing exists remotely for them, so their hard
    /// delete is owed immediately and needs no remote call.
    pub fn hard_delete_never_synced_documents(&mut self)
        requires
            old(self).wf(),
        ensures
            final(self).wf(),
            final(self).stores == old(self).stores,
            final(self).clock == old(self).clock,
            final(self).doc_models() == old(self).doc_models().filter(keep_reconcilable_docs()),
            forall|d: Seq<char>|
                #[trigger] final(self).has_doc(d) <==> old(self).has_doc(d) && (old(self).doc_of(
                    d,
                ).alive() || old(self).doc_of(d).gemini_name is Some),
            forall|d: Seq<char>|
                #[trigger] final(self).has_doc(d) ==> final(self).doc_of(d) == old(self).doc_of(d),
            old(self).docs_consistent() ==> final(self).docs_consistent(),
    {
        let ghost pred: spec_fn(DocumentModel) -> bool = keep_reconcilable_docs();
        let n = self.documents.len();
        let mut kept: Vec<Document> = Vec::new();
        let mut i: usize = 0;
        while i < n
            invariant
                *self == *old(self),
                n == self.n_docs(),
                i <= n,
                pred == keep_reconcilable_docs(),
                doc_views(kept@) == self.doc_models().take(i as int).filter(pred),
            decreases n - i,
        {
            let keep = self.documents[i].deleted_at.is_none()
                || self.documents[i].gemini_name.is_some();
            proof {
                let models = self.doc_models();
                assert(models.take(i as int + 1) =~= models.take(i as int).push(models[i as int]));
                lemma_filter_push(models.take(i as int), pred, models[i as int]);
                assert(keep == pred(models[i as int]));
            }
            if keep {
                let ghost pre_kept = kept@;
                kept.push(self.documents[i].clone());
                proof {
                    assert(doc_views(kept@) =~= doc_views(pre_kept).push(self.doc_m(i as int)));
                }
            }
            i = i + 1;
        }
        proof {
            assert(self.doc_models().take(n as int) =~= self.doc_models());
        }
        self.documents = kept;
        proof {
            Database::lemma_filtered_docs(*old(self), *self, pred);
            assert(self.n_stores() == old(self).n_stores());
            assert(forall|i: int|
                0 <= i < self.n_stores() ==> #[trigger] self.store_m(i) == old(self).store_m(i));
        }
    }

    /// Permanently removes the document record carrying `id`, alive or
    /// soft-deleted. Absent ids are a no-op.
    pub fn hard_delete_document(&mut self, id: &str)
        requires
            old(self).wf(),
        ensures
            final(self).wf(),
            Database::doc_hard_deleted(*old(self), *final(self), id@),
            old(self).docs_consistent() ==> final(self).docs_consistent(),
    {
        self.retain_documents(id, false);
        proof {
            Database::lemma_filtered_docs(*old(self), *self, keep_other_docs(id@));
            assert(self.n_stores() == old(self).n_stores());
            assert(forall|i: int|
                0 <= i < self.n_stores() ==> #[trigger] self.store_m(i) == old(self).store_m(i));
            assert forall|d: Seq<char>| #[trigger] self.has_doc(d) <==> old(self).has_doc(d) && d
                != id@ by {
                if old(self).has_doc(d) {
                    let k = old(self).doc_index(d);
                    old(self).lemma_doc_index(k);
                }
            }
        }
    }
}

/// An alive store.
pub open spec fn alive_store() -> spec_fn(StoreModel) -> bool {
    |m: StoreModel| m.alive()
}

/// An alive store still waiting to be pushed to the remote service.
pub open spec fn pending_sync_store() -> spec_fn(StoreModel) -> bool {
    |m: StoreModel| m.alive() && m.sync_status == SyncStatus::Pending
}

/// A soft-deleted store.
pub open spec fn soft_deleted_store() -> spec_fn(StoreModel) -> bool {
    |m: StoreModel| !m.alive()
}

/// An alive document belonging to the given store.
pub open spec fn alive_doc_of_store(sid: Seq<char>) -> spec_fn(DocumentModel) -> bool {
    |m: DocumentModel| m.alive() && m.store_id == sid
}

/// An alive document of the store that is not yet in a terminal state.
pub open spec fn nonterminal_doc_of_store(sid: Seq<char>) -> spec_fn(DocumentModel) -> bool {
    |m: DocumentModel| m.alive() && m.store_id == sid && !m.terminal()
}

/// An alive document of the store whose ingestion failed.
pub open spec fn failed_doc_of_store(sid: Seq<char>) -> spec_fn(DocumentModel) -> bool {
    |m: DocumentModel| m.alive() && m.store_id == sid && m.status == DocStatus::Failed
}

/// An alive document with an outstanding remote operation that the polling
/// engine still tracks.
pub open spec fn pending_operation_doc() -> spec_fn(DocumentModel) -> bool {
    |m: DocumentModel| m.alive() && m.operation_name is Some && !m.terminal()
}

/// An alive document whose display name occurs in the given list.
pub open spec fn named_doc(names: Seq<String>) -> spec_fn(DocumentModel) -> bool {
    |m: DocumentModel| m.alive() && names_contain(names, m.name)
}

/// The display name occurs in the list.
pub open spec fn names_contain(names: Seq<String>, n: Seq<char>) -> bool {
    exists|t: int| 0 <= t < names.len() && #[trigger] names[t]@ == n
}

impl Database {
    /// An alive, pending document whose owning store is alive, synced, and
    /// carries a remote identifier: eligible for upload.
    pub open spec fn pending_upload_doc(self) -> spec_fn(DocumentModel) -> bool {
        |m: DocumentModel|
            m.alive() && m.sync_status == SyncStatus::Pending && self.has_store(m.store_id)
                && self.store_of(m.store_id).alive() && self.store_of(m.store_id).sync_status
                == SyncStatus::Synced && self.store_of(m.store_id).gemini_name is Some
    }

    /// A soft-deleted document whose remote deletion is still owed: it has a
    /// remote identifier, and so has its owning store.
    pub open spec fn deletable_doc(self) -> spec_fn(DocumentModel) -> bool {
        |m: DocumentModel|
            !m.alive() && m.gemini_name is Some && self.has_store(m.store_id) && self.store_of(
                m.store_id,
            ).gemini_name is Some
    }

    /// Returns the alive stores still waiting to be pushed to the remote
    /// service, in storage order.
    pub fn get_pending_sync_stores(&self) -> (r: Vec<Store>)
        ensures
            store_views(r@) == self.store_models().filter(pending_sync_store()),
    {
        let ghost pred: spec_fn(StoreModel) -> bool = pending_sync_store();
        let n = self.stores.len();
        let mut out: Vec<Store> = Vec::new();
        let mut i: usize = 0;
        while i < n
            invariant
                n == self.n_stores(),
                i <= n,
                pred == pending_sync_store(),
                store_views(out@) == self.store_models().take(i as int).filter(pred),
            decreases n - i,
        {
            let keep = self.stores[i].deleted_at.is_none() && self.stores[i].sync_status
                == SyncStatus::Pending;
            proof {
                let models = self.store_models();
                assert(models.take(i as int + 1) =~= models.take(i as int).push(models[i as int]));
                lemma_filter_push(models.take(i as int), pred, models[i as int]);
                assert(keep == pred(models[i as int]));
            }
            if keep {
                let ghost pre_out = out@;
                out.push(self.stores[i].clone());
                proof {
                    assert(store_views(out@) =~= store_views(pre_out).push(self.store_m(i as int)));
                }
            }
            i = i + 1;
        }
        proof {
            assert(self.store_models().take(n as int) =~= self.store_models());
        }
        out
    }

    /// Returns the soft-deleted stores awaiting remote reconciliation,
    /// oldest deletion first; equal stamps keep storage order.
    pub fn get_soft_deleted_stores(&self) -> (r: Vec<Store>)
        ensures
            store_views(r@) == sort_by_key(
                self.store_models().filter(soft_deleted_store()),
                del_key_store(),
            ),
            ordered_by_key(store_views(r@), del_key_store()),
    {
        let ghost pred: spec_fn(StoreModel) -> bool = soft_deleted_store();
        let ghost key: spec_fn(StoreModel) -> int = del_key_store();
        let n = self.stores.len();
        let mut out: Vec<Store> = Vec::new();
        let mut i: usize = 0;
        while i < n
            invariant
                n == self.n_stores(),
                i <= n,
                pred == soft_deleted_store(),
                key == del_key_store(),
                store_views(out@) == sort_by_key(
                    self.store_models().take(i as int).filter(pred),
                    key,
                ),
                ordered_by_key(store_views(out@), key),
            decreases n - i,
        {
            let keep = self.stores[i].deleted_at.is_some();
            proof {
                let models = self.store_models();
                assert(models.take(i as int + 1) =~= models.take(i as int).push(models[i as int]));
                lemma_filter_push(models.take(i as int), pred, models[i as int]);
                assert(keep == pred(models[i as int]));
                if keep {
                    let q = models.take(i as int).filter(pred);
                    assert(q.push(models[i as int]).drop_last() =~= q);
                    assert(q.push(models[i as int]).last() == models[i as int]);
                    assert(sort_by_key(q.push(models[i as int]), key) == insert_by_key(
                        sort_by_key(q, key),
                        models[i as int],
                        key,
                    ));
                }
            }
            if keep {
                let stamp = store_del_stamp(&self.stores[i]);
                let mut k = out.len();
                while k > 0 && store_del_stamp(&out[k - 1]) > stamp
                    invariant
                        k <= out@.len(),
                        stamp as int == key(self.store_m(i as int)),
                        key == del_key_store(),
                        forall|j: int|
                            k <= j < out@.len() ==> key(#[trigger] store_views(out@)[j]) > key(
                                self.store_m(i as int),
                            ),
                    decreases k,
                {
                    k = k - 1;
                }
                let ghost pre_out = store_views(out@);
                let ghost m = self.store_m(i as int);
                out.insert(k, self.stores[i].clone());
                proof {
                    lemma_insert_by_key_at(pre_out, m, key, k as int);
                    assert(store_views(out@) =~= pre_out.take(k as int) + seq![m] + pre_out.skip(
                        k as int,
                    ));
                    assert(store_views(out@) == insert_by_key(pre_out, m, key));
                    assert forall|a: int, b: int|
                        #![trigger key(store_views(out@)[a]), key(store_views(out@)[b])]
                        0 <= a < b < out@.len() implies key(store_views(out@)[a]) <= key(
                        store_views(out@)[b],
                    ) by {
                        let sv = store_views(out@);
                        if a < k && b < k {
                            assert(sv[a] == pre_out[a] && sv[b] == pre_out[b]);
                        } else if a < k && b == k {
                            assert(sv[a] == pre_out[a] && sv[b] == m);
                            assert(key(pre_out[a]) <= key(pre_out[k - 1]));
                        } else if a < k && b > k {
                            assert(sv[a] == pre_out[a] && sv[b] == pre_out[b - 1]);
                        } else if a == k {
                            assert(sv[a] == m && sv[b] == pre_out[b - 1]);
                        } else {
                            assert(sv[a] == pre_out[a - 1] && sv[b] == pre_out[b - 1]);
                        }
                    }
                }
            }
            i = i + 1;
        }
        proof {
            assert(self.store_models().take(n as int) =~= self.store_models());
        }
        out
    }

    /// Returns the alive documents of a store, in creation order.
    pub fn get_documents_by_store(&self, store_id: &str) -> (r: Vec<Document>)
        ensures
            doc_views(r@) == self.doc_models().filter(alive_doc_of_store(store_id@)),
    {
        let ghost pred: spec_fn(DocumentModel) -> bool = alive_doc_of_store(store_id@);
        let n = self.documents.len();
        let mut out: Vec<Document> = Vec::new();
        let mut i: usize = 0;
        while i < n
            invariant
                n == self.n_docs(),
                i <= n,
                pred == alive_doc_of_store(store_id@),
                doc_views(out@) == self.doc_models().take(i as int).filter(pred),
            decreases n - i,
        {
            let keep = self.documents[i].deleted_at.is_none() && str_eq(
                self.documents[i].store_id.as_str(),
                store_id,
            );
            proof {
                let models = self.doc_models();
                assert(models.take(i as int + 1) =~= models.take(i as int).push(models[i as int]));
                lemma_filter_push(models.take(i as int), pred, models[i as int]);
                assert(keep == pred(models[i as int]));
            }
            if keep {
                let ghost pre_out = out@;
                out.push(self.documents[i].clone());
                proof {
                    assert(doc_views(out@) =~= doc_views(pre_out).push(self.doc_m(i as int)));
                }
            }
            i = i + 1;
        }
        proof {
            assert(self.doc_models().take(n as int) =~= self.doc_models());
        }
        out
    }

    /// Returns the alive documents with an outstanding remote operation and
    /// no terminal state yet: the polling engine's scan.
    pub fn get_documents_with_pending_operations(&self) -> (r: Vec<Document>)
        ensures
            doc_views(r@) == self.doc_models().filter(pending_operation_doc()),
    {
        let ghost pred: spec_fn(DocumentModel) -> bool = pending_operation_doc();
        let n = self.documents.len();
        let mut out: Vec<Document> = Vec::new();
        let mut i: usize = 0;
        while i < n
            invariant
                n == self.n_docs(),
                i <= n,
                pred == pending_operation_doc(),
                doc_views(out@) == self.doc_models().take(i as int).filter(pred),
            decreases n - i,
        {
            let d = &self.documents[i];
            let keep = d.deleted_at.is_none() && d.operation_name.is_some() && d.status
                != DocStatus::Completed && d.status != DocStatus::Failed;
            proof {
                let models = self.doc_models();
                assert(models.take(i as int + 1) =~= models.take(i as int).push(models[i as int]));
                lemma_filter_push(models.take(i as int), pred, models[i as int]);
                assert(keep == pred(models[i as int]));
            }
            if keep {
                let ghost pre_out = out@;
                out.push(self.documents[i].clone());
                proof {
                    assert(doc_views(out@) =~= doc_views(pre_out).push(self.doc_m(i as int)));
                }
            }
            i = i + 1;
        }
        proof {
            assert(self.doc_models().take(n as int) =~= self.doc_models());
        }
        out
    }

    /// Returns the alive documents whose display name occurs in `names`, in
    /// creation order.
    pub fn get_documents_by_display_names(&self, names: &Vec<String>) -> (r: Vec<Document>)
        ensures
            doc_views(r@) == self.doc_models().filter(named_doc(names@)),
    {
        let ghost pred: spec_fn(DocumentModel) -> bool = named_doc(names@);
        let n = self.documents.len();
        let mut out: Vec<Document> = Vec::new();
        let mut i: usize = 0;
        while i < n
            invariant
                n == self.n_docs(),
                i <= n,
                pred == named_doc(names@),
                doc_views(out@) == self.doc_models().take(i as int).filter(pred),
            decreases n - i,
        {
            let keep = self.documents[i].deleted_at.is_none() && name_in(
                names,
                self.documents[i].name.as_str(),
            );
            proof {
                let models = self.doc_models();
                assert(models.take(i as int + 1) =~= models.take(i as int).push(models[i as int]));
                lemma_filter_push(models.take(i as int), pred, models[i as int]);
                assert(keep == pred(models[i as int]));
            }
            if keep {
                let ghost pre_out = out@;
                out.push(self.documents[i].clone());
                proof {
                    assert(doc_views(out@) =~= doc_views(pre_out).push(self.doc_m(i as int)));
                }
            }
            i = i + 1;
        }
        proof {
            assert(self.doc_models().take(n as int) =~= self.doc_models());
        }
        out
    }

    /// Returns some alive document with this display name, if one exists.
    /// Display names are not unique; which record is returned when several
    /// carry the name is not specified.
    pub fn get_document_by_display_name(&self, name: &str) -> (r: Option<Document>)
        requires
            self.wf(),
        ensures
            match r {
                Some(d) => self.has_doc(d@.id) && self.doc_of(d@.id) == d@ && d@.alive() && d@.name
                    == name@,
                None => forall|i: int|
                    0 <= i < self.n_docs() ==> !((#[trigger] self.doc_m(i)).alive() && self.doc_m(
                        i,
                    ).name == name@),
            },
    {
        let n = self.documents.len();
        let mut i: usize = 0;
        while i < n
            invariant
                n == self.n_docs(),
                self.wf(),
                i <= n,
                forall|k: int|
                    0 <= k < i ==> !((#[trigger] self.doc_m(k)).alive() && self.doc_m(k).name
                        == name@),
            decreases n - i,
        {
            if self.documents[i].deleted_at.is_none() && str_eq(
                self.documents[i].name.as_str(),
                name,
            ) {
                proof {
                    self.lemma_doc_index(i as int);
                }
                return Some(self.documents[i].clone());
            }
            i = i + 1;
        }
        None
    }
}

impl Database {
    /// Returns the documents eligible for upload: alive and pending, with
    /// an alive, synced owning store that carries a remote identifier. In
    /// creation order.
    pub fn get_pending_upload_documents(&self) -> (r: Vec<Document>)
        requires
            self.wf(),
        ensures
            doc_views(r@) == self.doc_models().filter(self.pending_upload_doc()),
    {
        let ghost pred: spec_fn(DocumentModel) -> bool = self.pending_upload_doc();
        let n = self.documents.len();
        let mut out: Vec<Document> = Vec::new();
        let mut i: usize = 0;
        while i < n
            invariant
                n == self.n_docs(),
                self.wf(),
                i <= n,
                pred == self.pending_upload_doc(),
                doc_views(out@) == self.doc_models().take(i as int).filter(pred),
            decreases n - i,
        {
            let mut keep = false;
            if self.documents[i].deleted_at.is_none() && self.documents[i].sync_status
                == SyncStatus::Pending {
                match self.find_store(self.documents[i].store_id.as_str()) {
                    Some(k) => {
                        keep = self.stores[k].deleted_at.is_none() && self.stores[k].sync_status
                            == SyncStatus::Synced && self.stores[k].gemini_name.is_some();
                    },
                    None => {},
                }
            }
            proof {
                let models = self.doc_models();
                assert(models.take(i as int + 1) =~= models.take(i as int).push(models[i as int]));
                lemma_filter_push(models.take(i as int), pred, models[i as int]);
                assert(keep == pred(models[i as int]));
            }
            if keep {
                let ghost pre_out = out@;
                out.push(self.documents[i].clone());
                proof {
                    assert(doc_views(out@) =~= doc_views(pre_out).push(self.doc_m(i as int)));
                }
            }
            i = i + 1;
        }
        proof {
            assert(self.doc_models().take(n as int) =~= self.doc_models());
        }
        out
    }

    /// Returns the soft-deleted documents owing a remote deletion, oldest
    /// deletion first; equal stamps keep storage order.
    fn sorted_deletable_documents(&self) -> (r: Vec<Document>)
        requires
            self.wf(),
        ensures
            doc_views(r@) == sort_by_key(
                self.doc_models().filter(self.deletable_doc()),
                del_key_doc(),
            ),
            ordered_by_key(doc_views(r@), del_key_doc()),
            forall|t: int|
                0 <= t < r@.len() ==> {
                    let m = (#[trigger] r@[t])@;
                    &&& !m.alive()
                    &&& m.gemini_name is Some
                    &&& self.has_store(m.store_id)
                    &&& self.store_of(m.store_id).gemini_name is Some
                },
    {
        let ghost pred: spec_fn(DocumentModel) -> bool = self.deletable_doc();
        let ghost key: spec_fn(DocumentModel) -> int = del_key_doc();
        let n = self.documents.len();
        let mut out: Vec<Document> = Vec::new();
        let mut i: usize = 0;
        while i < n
            invariant
                n == self.n_docs(),
                self.wf(),
                i <= n,
                pred == self.deletable_doc(),
                key == del_key_doc(),
                doc_views(out@) == sort_by_key(self.doc_models().take(i as int).filter(pred), key),
                ordered_by_key(doc_views(out@), key),
                forall|t: int|
                    0 <= t < out@.len() ==> pred((#[trigger] out@[t])@),
            decreases n - i,
        {
            let sk = self.find_store(self.documents[i].store_id.as_str());
            let keep = self.documents[i].deleted_at.is_some()
                && self.documents[i].gemini_name.is_some() && (match sk {
                Some(k) => self.stores[k].gemini_name.is_some(),
                None => false,
            });
            proof {
                let models = self.doc_models();
                assert(models.take(i as int + 1) =~= models.take(i as int).push(models[i as int]));
                lemma_filter_push(models.take(i as int), pred, models[i as int]);
                assert(keep == pred(models[i as int]));
                if keep {
                    let q = models.take(i as int).filter(pred);
                    assert(q.push(models[i as int]).drop_last() =~= q);
                    assert(q.push(models[i as int]).last() == models[i as int]);
                    assert(sort_by_key(q.push(models[i as int]), key) == insert_by_key(
                        sort_by_key(q, key),
                        models[i as int],
                        key,
                    ));
                }
            }
            if keep {
                let stamp = doc_del_stamp(&self.documents[i]);
                let mut k = out.len();
                while k > 0 && doc_del_stamp(&out[k - 1]) > stamp
                    invariant
                        k <= out@.len(),
                        stamp as int == key(self.doc_m(i as int)),
                        key == del_key_doc(),
                        forall|j: int|
                            k <= j < out@.len() ==> key(#[trigger] doc_views(out@)[j]) > key(
                                self.doc_m(i as int),
                            ),
                    decreases k,
                {
                    k = k - 1;
                }
                let ghost pre_out = doc_views(out@);
                let ghost pre_elems = out@;
                let ghost m = self.doc_m(i as int);
                out.insert(k, self.documents[i].clone());
                proof {
                    lemma_insert_by_key_at(pre_out, m, key, k as int);
                    assert(doc_views(out@) =~= pre_out.take(k as int) + seq![m] + pre_out.skip(
                        k as int,
                    ));
                    assert(doc_views(out@) == insert_by_key(pre_out, m, key));
                    assert forall|a: int, b: int|
                        #![trigger key(doc_views(out@)[a]), key(doc_views(out@)[b])]
                        0 <= a < b < out@.len() implies key(doc_views(out@)[a]) <= key(
                        doc_views(out@)[b],
                    ) by {
                        let sv = doc_views(out@);
                        if a < k && b < k {
                            assert(sv[a] == pre_out[a] && sv[b] == pre_out[b]);
                        } else if a < k && b == k {
                            assert(sv[a] == pre_out[a] && sv[b] == m);
                            assert(key(pre_out[a]) <= key(pre_out[k - 1]));
                        } else if a < k && b > k {
                            assert(sv[a] == pre_out[a] && sv[b] == pre_out[b - 1]);
                        } else if a == k {
                            assert(sv[a] == m && sv[b] == pre_out[b - 1]);
                        } else {
                            assert(sv[a] == pre_out[a - 1] && sv[b] == pre_out[b - 1]);
                        }
                    }
                    assert forall|t: int| 0 <= t < out@.len() implies pred(
                        (#[trigger] out@[t])@,
                    ) by {
                        if t < k {
                            assert(out@[t] == pre_elems[t]);
                        } else if t == k {
                            assert(out@[t]@ == m);
                        } else {
                            assert(out@[t] == pre_elems[t - 1]);
                        }
                    }
                }
            }
            i = i + 1;
        }
        proof {
            assert(self.doc_models().take(n as int) =~= self.doc_models());
        }
        out
    }

    /// Returns the soft-deleted documents whose remote deletion is still
    /// owed, each with the remote identifiers the deletion call needs:
    /// oldest deletion first, equal stamps in storage order.
    pub fn get_soft_deleted_documents(&self) -> (r: Vec<SoftDeletedDocument>)
        requires
            self.wf(),
        ensures
            ({
                let f = sort_by_key(
                    self.doc_models().filter(self.deletable_doc()),
                    del_key_doc(),
                );
                &&& r@.len() == f.len()
                &&& ordered_by_key(f, del_key_doc())
                &&& forall|k: int|
                    0 <= k < f.len() ==> {
                        &&& (#[trigger] r@[k])@.id == f[k].id
                        &&& Some(r@[k]@.gemini_name) == f[k].gemini_name
                        &&& Some(r@[k]@.store_gemini_name) == self.store_of(
                            f[k].store_id,
                        ).gemini_name
                    }
            }),
    {
        let docs = self.sorted_deletable_documents();
        let ghost f = sort_by_key(self.doc_models().filter(self.deletable_doc()), del_key_doc());
        let n = docs.len();
        let mut out: Vec<SoftDeletedDocument> = Vec::new();
        let mut t: usize = 0;
        while t < n
            invariant
                self.wf(),
                n == docs@.len(),
                t <= n,
                f == sort_by_key(self.doc_models().filter(self.deletable_doc()), del_key_doc()),
                doc_views(docs@) == f,
                forall|u: int|
                    0 <= u < docs@.len() ==> {
                        let m = (#[trigger] docs@[u])@;
                        &&& !m.alive()
                        &&& m.gemini_name is Some
                        &&& self.has_store(m.store_id)
                        &&& self.store_of(m.store_id).gemini_name is Some
                    },
                out@.len() == t,
                forall|u: int|
                    0 <= u < t ==> {
                        &&& (#[trigger] out@[u])@.id == f[u].id
                        &&& Some(out@[u]@.gemini_name) == f[u].gemini_name
                        &&& Some(out@[u]@.store_gemini_name) == self.store_of(
                            f[u].store_id,
                        ).gemini_name
                    },
            decreases n - t,
        {
            let sk = self.find_store(docs[t].store_id.as_str());
            if let Some(k) = sk {
                if let Some(sg) = &self.stores[k].gemini_name {
                    if let Some(g) = &docs[t].gemini_name {
                        out.push(
                            SoftDeletedDocument {
                                id: docs[t].id.clone(),
                                gemini_name: g.clone(),
                                store_gemini_name: sg.clone(),
                            },
                        );
                    }
                }
            }
            t = t + 1;
        }
        out
    }

    /// Counts the alive documents of a store.
    fn count_alive_docs(&self, store_id: &str) -> (c: usize)
        ensures
            c == self.doc_models().filter(alive_doc_of_store(store_id@)).len(),
    {
        let ghost pred: spec_fn(DocumentModel) -> bool = alive_doc_of_store(store_id@);
        let n = self.documents.len();
        let mut c: usize = 0;
        let mut i: usize = 0;
        while i < n
            invariant
                n == self.n_docs(),
                i <= n,
                c <= i,
                pred == alive_doc_of_store(store_id@),
                c == self.doc_models().take(i as int).filter(pred).len(),
            decreases n - i,
        {
            let hit = self.documents[i].deleted_at.is_none() && str_eq(
                self.documents[i].store_id.as_str(),
                store_id,
            );
            proof {
                let models = self.doc_models();
                assert(models.take(i as int + 1) =~= models.take(i as int).push(models[i as int]));
                lemma_filter_push(models.take(i as int), pred, models[i as int]);
                assert(hit == pred(models[i as int]));
            }
            if hit {
                c = c + 1;
            }
            i = i + 1;
        }
        proof {
            assert(self.doc_models().take(n as int) =~= self.doc_models());
        }
        c
    }

    /// Counts the alive documents of a store that are not yet terminal.
    fn count_nonterminal_docs(&self, store_id: &str) -> (c: usize)
        ensures
            c == self.doc_models().filter(nonterminal_doc_of_store(store_id@)).len(),
    {
        let ghost pred: spec_fn(DocumentModel) -> bool = nonterminal_doc_of_store(store_id@);
        let n = self.documents.len();
        let mut c: usize = 0;
        let mut i: usize = 0;
        while i < n
            invariant
                n == self.n_docs(),
                i <= n,
                c <= i,
                pred == nonterminal_doc_of_store(store_id@),
                c == self.doc_models().take(i as int).filter(pred).len(),
            decreases n - i,
        {
            let d = &self.documents[i];
            let hit = d.deleted_at.is_none() && d.status != DocStatus::Completed && d.status
                != DocStatus::Failed && str_eq(d.store_id.as_str(), store_id);
            proof {
                let models = self.doc_models();
                assert(models.take(i as int + 1) =~= models.take(i as int).push(models[i as int]));
                lemma_filter_push(models.take(i as int), pred, models[i as int]);
                assert(hit == pred(models[i as int]));
            }
            if hit {
                c = c + 1;
            }
            i = i + 1;
        }
        proof {
            assert(self.doc_models().take(n as int) =~= self.doc_models());
        }
        c
    }

    /// Counts the alive documents of a store whose ingestion failed.
    fn count_failed_docs(&self, store_id: &str) -> (c: usize)
        ensures
            c == self.doc_models().filter(failed_doc_of_store(store_id@)).len(),
    {
        let ghost pred: spec_fn(DocumentModel) -> bool = failed_doc_of_store(store_id@);
        let n = self.documents.len();
        let mut c: usize = 0;
        let mut i: usize = 0;
        while i < n
            invariant
                n == self.n_docs(),
                i <= n,
                c <= i,
                pred == failed_doc_of_store(store_id@),
                c == self.doc_models().take(i as int).filter(pred).len(),
            decreases n - i,
        {
            let d = &self.documents[i];
            let hit = d.deleted_at.is_none() && d.status == DocStatus::Failed && str_eq(
                d.store_id.as_str(),
                store_id,
            );
            proof {
                let models = self.doc_models();
                assert(models.take(i as int + 1) =~= models.take(i as int).push(models[i as int]));
                lemma_filter_push(models.take(i as int), pred, models[i as int]);
                assert(hit == pred(models[i as int]));
            }
            if hit {
                c = c + 1;
            }
            i = i + 1;
        }
        proof {
            assert(self.doc_models().take(n as int) =~= self.doc_models());
        }
        c
    }

    /// One row of the alive-store listing is correct for the store `m`: the
    /// record itself, its live-document counts, and the derived activity.
    pub open spec fn store_row_ok(self, row: StoreWithStatus, m: StoreModel) -> bool {
        &&& row.store@ == m
        &&& row.document_count == self.doc_models().filter(alive_doc_of_store(m.id)).len()
        &&& row.local_pending_count == self.doc_models().filter(
            nonterminal_doc_of_store(m.id),
        ).len()
        &&& row.local_failed_count == self.doc_models().filter(failed_doc_of_store(m.id)).len()
        &&& row.status == (if row.local_pending_count > 0 {
            OverallStatus::Processing
        } else {
            OverallStatus::Completed
        })
    }

    /// Returns every alive store, newest first, each with its live-document
    /// counts and its derived overall activity.
    pub fn get_stores(&self) -> (r: Vec<StoreWithStatus>)
        requires
            self.wf(),
        ensures
            ({
                let fs = self.store_models().filter(alive_store());
                &&& r@.len() == fs.len()
                &&& forall|k: int|
                    0 <= k < fs.len() ==> self.store_row_ok(
                        #[trigger] r@[k],
                        fs[fs.len() - 1 - k],
                    )
            }),
    {
        let n = self.stores.len();
        let mut out: Vec<StoreWithStatus> = Vec::new();
        let mut i: usize = n;
        while i > 0
            invariant
                n == self.n_stores(),
                self.wf(),
                i <= n,
                ({
                    let fs = self.store_models().skip(i as int).filter(alive_store());
                    &&& out@.len() == fs.len()
                    &&& forall|k: int|
                        0 <= k < fs.len() ==> self.store_row_ok(
                            #[trigger] out@[k],
                            fs[fs.len() - 1 - k],
                        )
                }),
            decreases i,
        {
            i = i - 1;
            proof {
                let models = self.store_models();
                assert(models.skip(i as int) =~= seq![models[i as int]] + models.skip(
                    i as int + 1,
                ));
                Seq::filter_distributes_over_add(
                    seq![models[i as int]],
                    models.skip(i as int + 1),
                    alive_store(),
                );
                assert(seq![models[i as int]] =~= Seq::empty().push(models[i as int]));
                lemma_filter_push(Seq::empty(), alive_store(), models[i as int]);
                assert(Seq::<StoreModel>::empty().filter(alive_store()) =~= Seq::empty()) by {
                    reveal(Seq::filter);
                }
            }
            if self.stores[i].deleted_at.is_none() {
                let c_all = self.count_alive_docs(self.stores[i].id.as_str());
                let c_pending = self.count_nonterminal_docs(self.stores[i].id.as_str());
                let c_failed = self.count_failed_docs(self.stores[i].id.as_str());
                let status = if c_pending > 0 {
                    OverallStatus::Processing
                } else {
                    OverallStatus::Completed
                };
                out.push(
                    StoreWithStatus {
                        store: self.stores[i].clone(),
                        status: status,
                        document_count: c_all,
                        local_pending_count: c_pending,
                        local_failed_count: c_failed,
                    },
                );
            }
        }
        proof {
            assert(self.store_models().skip(0) =~= self.store_models());
        }
        out
    }
}

/// The display name occurs in the list, decided character for character.
fn name_in(names: &Vec<String>, s: &str) -> (r: bool)
    ensures
        r == names_contain(names@, s@),
{
    let n = names.len();
    let mut i: usize = 0;
    while i < n
        invariant
            n == names@.len(),
            i <= n,
            forall|t: int| 0 <= t < i ==> #[trigger] names@[t]@ != s@,
        decreases n - i,
    {
        if str_eq(names[i].as_str(), s) {
            return true;
        }
        i = i + 1;
    }
    false
}

/// The record a freshly created document consists of.
pub open spec fn new_document_model(
    id: Seq<char>,
    store_id: Seq<char>,
    name: Seq<char>,
    path: Seq<char>,
    content_type: Option<Seq<char>>,
    size: Option<int>,
    hash: Option<Seq<char>>,
    now: int,
) -> DocumentModel {
    DocumentModel {
        id: id,
        store_id: store_id,
        gemini_name: None,
        operation_name: None,
        name: name,
        path: path,
        content_type: content_type,
        mime_type: None,
        size: size,
        hash: hash,
        status: DocStatus::Pending,
        sync_status: SyncStatus::Pending,
        error_message: None,
        deleted_at: None,
        created_at: now,
        updated_at: now,
    }
}

/// A document record as the start of an upload leaves it: operation handle
/// stored, ingestion under way, record synced.
pub open spec fn doc_operation_set(m: DocumentModel, op: Seq<char>, now: int) -> DocumentModel {
    DocumentModel {
        operation_name: Some(op),
        status: DocStatus::Processing,
        sync_status: SyncStatus::Synced,
        updated_at: now,
        ..m
    }
}

/// A document record as a resolved remote operation leaves it: remote
/// identifier and MIME type recorded, handle cleared.
pub open spec fn doc_from_remote(
    m: DocumentModel,
    g: Seq<char>,
    mime: Option<Seq<char>>,
    st: DocStatus,
    now: int,
) -> DocumentModel {
    DocumentModel {
        gemini_name: Some(g),
        mime_type: mime,
        status: st,
        operation_name: None,
        updated_at: now,
        ..m
    }
}

/// A document record as a plain ingestion-state write leaves it.
pub open spec fn doc_status_set(m: DocumentModel, st: DocStatus, now: int) -> DocumentModel {
    DocumentModel { status: st, updated_at: now, ..m }
}

/// A document record as a failure report leaves it: state written, message
/// recorded, and the operation handle cleared.
pub open spec fn doc_error_set(
    m: DocumentModel,
    st: DocStatus,
    msg: Seq<char>,
    now: int,
) -> DocumentModel {
    DocumentModel {
        status: st,
        error_message: Some(msg),
        operation_name: None,
        updated_at: now,
        ..m
    }
}

/// A document record as a convergence-state write leaves it.
pub open spec fn doc_sync_set(m: DocumentModel, st: SyncStatus, now: int) -> DocumentModel {
    DocumentModel { sync_status: st, updated_at: now, ..m }
}

/// A document record as soft deletion leaves it.
pub open spec fn doc_soft_deleted(m: DocumentModel, now: int) -> DocumentModel {
    DocumentModel { deleted_at: Some(now), updated_at: now, ..m }
}

/// Model of an optional borrowed size.
pub open spec fn opt_int_view(o: Option<i64>) -> Option<int> {
    match o {
        Some(n) => Some(n as int),
        None => None,
    }
}

impl Database {
    /// Another document record than the one at `except` already carries
    /// this remote identifier.
    fn doc_remote_taken(&self, name: &str, except: usize) -> (r: bool)
        ensures
            r == exists|i: int|
                0 <= i < self.n_docs() && i != except && (#[trigger] self.doc_m(i)).gemini_name
                    == Some(name@),
    {
        let n = self.documents.len();
        let mut i: usize = 0;
        while i < n
            invariant
                n == self.n_docs(),
                i <= n,
                forall|k: int| 0 <= k < i && k != except
                    ==> (#[trigger] self.doc_m(k)).gemini_name != Some(name@),
            decreases n - i,
        {
            if i != except {
                match &self.documents[i].gemini_name {
                    Some(g) => {
                        if str_eq(g.as_str(), name) {
                            proof {
                                assert(0 <= (i as int) && (i as int) < self.n_docs()
                                    && i as int != except
                                    && self.doc_m(i as int).gemini_name == Some(name@));
                            }
                            return true;
                        }
                    },
                    None => {},
                }
            }
            i = i + 1;
        }
        false
    }

    /// Creates a document record under an existing store: alive, pending on
    /// both axes, without remote identifiers. Fails if any record already
    /// carries the id, or if no store record carries `store_id`.
    pub fn create_document(
        &mut self,
        id: &str,
        store_id: &str,
        name: &str,
        path: &str,
        content_type: Option<&str>,
        size: Option<i64>,
        hash: Option<&str>,
    ) -> (r: Result<Document, DbError>)
        requires
            old(self).wf(),
        ensures
            final(self).wf(),
            r is Ok <==> !old(self).has_doc(id@) && old(self).has_store(store_id@),
            r matches Ok(d) ==> {
                &&& d@ == new_document_model(
                    id@,
                    store_id@,
                    name@,
                    path@,
                    opt_str_view(content_type),
                    opt_int_view(size),
                    opt_str_view(hash),
                    old(self).clock as int,
                )
                &&& final(self).n_docs() == old(self).n_docs() + 1
                &&& final(self).doc_m(old(self).n_docs()) == d@
                &&& (forall|i: int| 0 <= i < old(self).n_docs()
                        ==> final(self).doc_m(i) == old(self).doc_m(i))
                &&& final(self).stores == old(self).stores
                &&& final(self).clock == tick(old(self).clock as int)
            },
            r matches Err(e) ==> {
                &&& *final(self) == *old(self)
                &&& (e == DbError::DuplicateId || e == DbError::MissingStore)
                &&& (e == DbError::DuplicateId <==> old(self).has_doc(id@))
            },
            old(self).docs_consistent() ==> final(self).docs_consistent(),
    {
        if let Some(_) = self.find_doc(id) {
            return Err(DbError::DuplicateId);
        }
        if let None = self.find_store(store_id) {
            return Err(DbError::MissingStore);
        }
        let now = self.clock;
        let d = Document {
            id: id.to_owned(),
            store_id: store_id.to_owned(),
            gemini_name: None,
            operation_name: None,
            name: name.to_owned(),
            path: path.to_owned(),
            content_type: own_opt(content_type),
            mime_type: None,
            size: size,
            hash: own_opt(hash),
            status: DocStatus::Pending,
            sync_status: SyncStatus::Pending,
            error_message: None,
            deleted_at: None,
            created_at: now,
            updated_at: now,
        };
        let copy = d.clone();
        self.documents.push(d);
        self.bump_clock();
        proof {
            assert(copy@ =~= new_document_model(
                id@,
                store_id@,
                name@,
                path@,
                opt_str_view(content_type),
                opt_int_view(size),
                opt_str_view(hash),
                old(self).clock as int,
            ));
            let oldn = old(self).n_docs();
            assert(self.n_stores() == old(self).n_stores());
            assert(forall|i: int|
                0 <= i < self.n_stores() ==> #[trigger] self.store_m(i) == old(self).store_m(i));
            assert(forall|i: int| 0 <= i < oldn ==> self.doc_m(i) == old(self).doc_m(i));
            assert(self.doc_m(oldn) == copy@);
            assert forall|i: int, j: int|
                #![trigger self.doc_m(i), self.doc_m(j)]
                0 <= i < j < self.n_docs() implies self.doc_m(i).id != self.doc_m(j).id && !(
            self.doc_m(i).gemini_name is Some && self.doc_m(i).gemini_name == self.doc_m(
                j,
            ).gemini_name) by {
                if j < oldn {
                    assert(old(self).doc_m(i).id != old(self).doc_m(j).id);
                    assert(!(old(self).doc_m(i).gemini_name is Some && old(self).doc_m(
                        i,
                    ).gemini_name == old(self).doc_m(j).gemini_name));
                } else {
                    assert(self.doc_m(j) == copy@);
                    assert(old(self).doc_m(i).id != id@);
                }
            }
            assert forall|i: int| 0 <= i < self.n_docs() implies self.has_store(
                (#[trigger] self.doc_m(i)).store_id,
            ) by {
                if i < oldn {
                    let sid = old(self).doc_m(i).store_id;
                    let k = old(self).store_index(sid);
                    assert(old(self).store_m(k).id == sid);
                    assert(self.store_m(k).id == sid);
                } else {
                    let k = old(self).store_index(store_id@);
                    assert(old(self).store_m(k).id == store_id@);
                    assert(self.store_m(k).id == store_id@);
                }
            }
            if old(self).docs_consistent() {
                assert forall|i: int| 0 <= i < self.n_docs() implies ((
                #[trigger] self.doc_m(i)).status == DocStatus::Processing <==> self.doc_m(
                    i,
                ).operation_name is Some) by {
                    if i < oldn {
                        assert(self.doc_m(i) == old(self).doc_m(i));
                    } else {
                        assert(self.doc_m(i) == copy@);
                    }
                }
            }
        }
        Ok(copy)
    }

    /// Returns the alive document record carrying `id`.
    pub fn get_document(&self, id: &str) -> (r: Result<Document, DbError>)
        requires
            self.wf(),
        ensures
            match r {
                Ok(d) => self.has_alive_doc(id@) && d@ == self.doc_of(id@),
                Err(e) => e == DbError::NotFound && !self.has_alive_doc(id@),
            },
    {
        match self.find_doc(id) {
            Some(i) => {
                if self.documents[i].deleted_at.is_none() {
                    Ok(self.documents[i].clone())
                } else {
                    Err(DbError::NotFound)
                }
            },
            None => Err(DbError::NotFound),
        }
    }

    /// Records the start of an upload on the document carrying `id`: the
    /// operation handle is stored, ingestion is under way, and the record
    /// counts as pushed. A record that is absent is left untouched.
    pub fn update_document_operation(&mut self, id: &str, operation_name: &str)
        requires
            old(self).wf(),
        ensures
            final(self).wf(),
            old(self).has_doc(id@) ==> Database::doc_updated(
                *old(self),
                *final(self),
                id@,
                doc_operation_set(old(self).doc_of(id@), operation_name@, old(self).clock as int),
            ),
            !old(self).has_doc(id@) ==> *final(self) == *old(self),
            old(self).docs_consistent() ==> final(self).docs_consistent(),
    {
        match self.find_doc(id) {
            Some(i) => {
                let now = self.clock;
                self.documents[i].operation_name = Some(operation_name.to_owned());
                self.documents[i].status = DocStatus::Processing;
                self.documents[i].sync_status = SyncStatus::Synced;
                self.documents[i].updated_at = now;
                self.bump_clock();
                proof {
                    assert(self.doc_m(i as int) =~= doc_operation_set(
                        old(self).doc_of(id@),
                        operation_name@,
                        old(self).clock as int,
                    ));
                    Database::lemma_wf_doc_update(*old(self), *self, i as int);
                    if old(self).docs_consistent() {
                        Database::lemma_docs_consistent_update(
                            *old(self),
                            *self,
                            id@,
                            doc_operation_set(
                                old(self).doc_of(id@),
                                operation_name@,
                                old(self).clock as int,
                            ),
                        );
                    }
                }
            },
            None => {},
        }
    }

    /// Records a resolved remote operation on the document carrying `id`:
    /// remote identifier, reported MIME type and ingestion state written,
    /// operation handle cleared. Fails without a write when the remote
    /// identifier already belongs to another document. A record that is
    /// absent is left untouched.
    pub fn update_document_from_gemini(
        &mut self,
        id: &str,
        gemini_name: &str,
        mime_type: Option<&str>,
        status: DocStatus,
    ) -> (r: Result<(), DbError>)
        requires
            old(self).wf(),
        ensures
            final(self).wf(),
            r is Ok ==> !old(self).has_doc(id@) ==> *final(self) == *old(self),
            r is Ok && old(self).has_doc(id@) ==> Database::doc_updated(
                *old(self),
                *final(self),
                id@,
                doc_from_remote(
                    old(self).doc_of(id@),
                    gemini_name@,
                    opt_str_view(mime_type),
                    status,
                    old(self).clock as int,
                ),
            ),
            r is Err <==> old(self).has_doc(id@) && old(self).doc_remote_clash(id@, gemini_name@),
            r matches Err(e) ==> e == DbError::DuplicateRemoteId && *final(self) == *old(self),
            old(self).docs_consistent() && status != DocStatus::Processing
                ==> final(self).docs_consistent(),
    {
        match self.find_doc(id) {
            Some(i) => {
                if self.doc_remote_taken(gemini_name, i) {
                    return Err(DbError::DuplicateRemoteId);
                }
                let now = self.clock;
                self.documents[i].gemini_name = Some(gemini_name.to_owned());
                self.documents[i].mime_type = own_opt(mime_type);
                self.documents[i].status = status;
                self.documents[i].operation_name = None;
                self.documents[i].updated_at = now;
                self.bump_clock();
                proof {
                    assert(self.doc_m(i as int) =~= doc_from_remote(
                        old(self).doc_of(id@),
                        gemini_name@,
                        opt_str_view(mime_type),
                        status,
                        old(self).clock as int,
                    ));
                    assert forall|j: int|
                        0 <= j < self.n_docs() && j != i as int implies (
                    #[trigger] self.doc_m(j)).gemini_name != self.doc_m(i as int).gemini_name by {
                        assert(old(self).doc_m(j).gemini_name != Some(gemini_name@));
                    }
                    Database::lemma_wf_doc_update(*old(self), *self, i as int);
                    if old(self).docs_consistent() && status != DocStatus::Processing {
                        Database::lemma_docs_consistent_update(
                            *old(self),
                            *self,
                            id@,
                            doc_from_remote(
                                old(self).doc_of(id@),
                                gemini_name@,
                                opt_str_view(mime_type),
                                status,
                                old(self).clock as int,
                            ),
                        );
                    }
                }
                Ok(())
            },
            None => Ok(()),
        }
    }

    /// Writes a document's ingestion state. A record that is absent is left
    /// untouched.
    pub fn update_document_status(&mut self, id: &str, status: DocStatus)
        requires
            old(self).wf(),
        ensures
            final(self).wf(),
            old(self).has_doc(id@) ==> Database::doc_updated(
                *old(self),
                *final(self),
                id@,
                doc_status_set(old(self).doc_of(id@), status, old(self).clock as int),
            ),
            !old(self).has_doc(id@) ==> *final(self) == *old(self),
    {
        match self.find_doc(id) {
            Some(i) => {
                let now = self.clock;
                self.documents[i].status = status;
                self.documents[i].updated_at = now;
                self.bump_clock();
                proof {
                    assert(self.doc_m(i as int) =~= doc_status_set(
                        old(self).doc_of(id@),
                        status,
                        old(self).clock as int,
                    ));
                    Database::lemma_wf_doc_update(*old(self), *self, i as int);
                }
            },
            None => {},
        }
    }

    /// Reports a failure on the document carrying `id`: ingestion state and
    /// message written, and the operation handle cleared, so the record
    /// leaves the polling engine's scan. A record that is absent is left
    /// untouched.
    pub fn update_document_error(&mut self, id: &str, status: DocStatus, error_message: &str)
        requires
            old(self).wf(),
        ensures
            final(self).wf(),
            old(self).has_doc(id@) ==> Database::doc_updated(
                *old(self),
                *final(self),
                id@,
                doc_error_set(
                    old(self).doc_of(id@),
                    status,
                    error_message@,
                    old(self).clock as int,
                ),
            ),
            !old(self).has_doc(id@) ==> *final(self) == *old(self),
            old(self).docs_consistent() && status != DocStatus::Processing
                ==> final(self).docs_consistent(),
    {
        match self.find_doc(id) {
            Some(i) => {
                let now = self.clock;
                self.documents[i].status = status;
                self.documents[i].error_message = Some(error_message.to_owned());
                self.documents[i].operation_name = None;
                self.documents[i].updated_at = now;
                self.bump_clock();
                proof {
                    assert(self.doc_m(i as int) =~= doc_error_set(
                        old(self).doc_of(id@),
                        status,
                        error_message@,
                        old(self).clock as int,
                    ));
                    Database::lemma_wf_doc_update(*old(self), *self, i as int);
                    if old(self).docs_consistent() && status != DocStatus::Processing {
                        Database::lemma_docs_consistent_update(
                            *old(self),
                            *self,
                            id@,
                            doc_error_set(
                                old(self).doc_of(id@),
                                status,
                                error_message@,
                                old(self).clock as int,
                            ),
                        );
                    }
                }
            },
            None => {},
        }
    }

    /// Writes a document's convergence state. A record that is absent is
    /// left untouched.
    pub fn update_document_sync_status(&mut self, id: &str, sync_status: SyncStatus)
        requires
            old(self).wf(),
        ensures
            final(self).wf(),
            old(self).has_doc(id@) ==> Database::doc_updated(
                *old(self),
                *final(self),
                id@,
                doc_sync_set(old(self).doc_of(id@), sync_status, old(self).clock as int),
            ),
            !old(self).has_doc(id@) ==> *final(self) == *old(self),
            old(self).docs_consistent() ==> final(self).docs_consistent(),
    {
        match self.find_doc(id) {
            Some(i) => {
                let now = self.clock;
                self.documents[i].sync_status = sync_status;
                self.documents[i].updated_at = now;
                self.bump_clock();
                proof {
                    assert(self.doc_m(i as int) =~= doc_sync_set(
                        old(self).doc_of(id@),
                        sync_status,
                        old(self).clock as int,
                    ));
                    Database::lemma_wf_doc_update(*old(self), *self, i as int);
                    if old(self).docs_consistent() {
                        Database::lemma_docs_consistent_update(
                            *old(self),
                            *self,
                            id@,
                            doc_sync_set(
                                old(self).doc_of(id@),
                                sync_status,
                                old(self).clock as int,
                            ),
                        );
                    }
                }
            },
            None => {},
        }
    }

    /// Marks the alive document carrying `id` as soft-deleted. A record
    /// that is absent or already soft-deleted is left untouched.
    pub fn soft_delete_document(&mut self, id: &str)
        requires
            old(self).wf(),
        ensures
            final(self).wf(),
            old(self).has_alive_doc(id@) ==> Database::doc_updated(
                *old(self),
                *final(self),
                id@,
                doc_soft_deleted(old(self).doc_of(id@), old(self).clock as int),
            ),
            !old(self).has_alive_doc(id@) ==> *final(self) == *old(self),
            old(self).docs_consistent() ==> final(self).docs_consistent(),
    {
        match self.find_doc(id) {
            Some(i) => {
                if self.documents[i].deleted_at.is_none() {
                    let now = self.clock;
                    self.documents[i].deleted_at = Some(now);
                    self.documents[i].updated_at = now;
                    self.bump_clock();
                    proof {
                        assert(self.doc_m(i as int) =~= doc_soft_deleted(
                            old(self).doc_of(id@),
                            old(self).clock as int,
                        ));
                        Database::lemma_wf_doc_update(*old(self), *self, i as int);
                        if old(self).docs_consistent() {
                            Database::lemma_docs_consistent_update(
                                *old(self),
                                *self,
                                id@,
                                doc_soft_deleted(
                                    old(self).doc_of(id@),
                                    old(self).clock as int,
                                ),
                            );
                        }
                    }
                }
            },
            None => {},
        }
    }
}

} // verus!
