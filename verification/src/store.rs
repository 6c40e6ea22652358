//! An in-memory document store with the primitives a migration runs against:
//! load, staged flush, and an all-or-nothing commit of one write transaction.
//!
//! The store keeps, for one user, at most one encoded document per
//! identifier, plus the workspace structure. Documents are opaque byte pairs;
//! the store never interprets them. A `WriteTxn` batches staged writes:
//! nothing is durable until `commit`, and a failed commit leaves the store
//! exactly as it was.

use vstd::prelude::*;

use crate::MigrationError;

verus! {

/// A document as the store persists it: a full-content state buffer and a
/// compact state-vector summary used for incremental sync. Both buffers are
/// opaque here.
pub struct EncodedDoc {
    pub doc_state: Vec<u8>,
    pub state_vector: Vec<u8>,
}

impl View for EncodedDoc {
    type V = (Seq<u8>, Seq<u8>);

    open spec fn view(&self) -> (Seq<u8>, Seq<u8>) {
        (self.doc_state@, self.state_vector@)
    }
}

/// One first-level entry of the workspace structure. Only its identifier
/// takes part in the migration; nested entries are out of scope by design.
pub struct WorkspaceView {
    pub id: String,
}

/// The workspace structure: the first-level entries, in stored order.
pub struct Structure {
    pub views: Vec<WorkspaceView>,
}

impl Structure {
    /// The first-level entries, in stored order.
    pub fn top_level_entries(&self) -> (r: &Vec<WorkspaceView>)
        ensures
            *r == self.views,
    {
        &self.views
    }
}

/// The identifiers of a sequence of structure entries, in order.
pub open spec fn view_ids(vs: Seq<WorkspaceView>) -> Seq<Seq<char>> {
    vs.map_values(|v: WorkspaceView| v.id@)
}

/// The identifiers of a sequence of identifier strings, in order.
pub open spec fn ids_view(s: Seq<String>) -> Seq<Seq<char>> {
    s.map_values(|x: String| x@)
}

/// What a list of (identifier, document) entries says about one identifier:
/// the document of its last entry, if any. Later entries override earlier
/// ones, so appending is the only write the store needs.
spec fn entry_lookup(es: Seq<(String, EncodedDoc)>, k: Seq<char>) -> Option<(Seq<u8>, Seq<u8>)>
    decreases es.len(),
{
    if es.len() == 0 {
        None
    } else if es.last().0@ == k {
        Some(es.last().1@)
    } else {
        entry_lookup(es.drop_last(), k)
    }
}

/// The map from identifiers to documents that a list of entries denotes.
spec fn entries_map(es: Seq<(String, EncodedDoc)>) -> Map<Seq<char>, (Seq<u8>, Seq<u8>)> {
    Map::new(
        |k: Seq<char>| entry_lookup(es, k) is Some,
        |k: Seq<char>| entry_lookup(es, k)->0,
    )
}

proof fn lemma_entries_map_push(es: Seq<(String, EncodedDoc)>, p: (String, EncodedDoc))
    ensures
        entries_map(es.push(p)) == entries_map(es).insert(p.0@, p.1@),
{
    assert(es.push(p).drop_last() =~= es);
    assert(es.push(p).last() == p);
    assert(entries_map(es.push(p)) =~= entries_map(es).insert(p.0@, p.1@));
}

/// A scoped batch of pending document writes. Nothing it stages is visible
/// through the store until `DocStore::commit` succeeds.
pub struct WriteTxn {
    staged: Vec<(String, EncodedDoc)>,
}

/// A per-user keyed store of encoded documents and the workspace structure.
/// `commit_fault` models a store whose commits fail (a full or broken
/// backing device), so that the atomicity policy is exercised.
pub struct DocStore {
    docs: Vec<(String, EncodedDoc)>,
    structure: Option<(String, Structure)>,
    commit_fault: bool,
}

/// What load sees through an open transaction: the committed documents,
/// overridden by the transaction's staged writes.
pub open spec fn effective(store: DocStore, txn: WriteTxn) -> Map<Seq<char>, (Seq<u8>, Seq<u8>)> {
    store.docs_map().union_prefer_right(txn.staged_map())
}

impl WriteTxn {
    /// The staged writes, as a map from identifier to document.
    pub closed spec fn staged_map(self) -> Map<Seq<char>, (Seq<u8>, Seq<u8>)> {
        entries_map(self.staged@)
    }

    /// Stage a write of document `d` under identifier `id`.
    pub fn flush_doc(&mut self, id: &String, d: EncodedDoc)
        ensures
            final(self).staged_map() == old(self).staged_map().insert(id@, d@),
    {
        let p = (id.clone(), d);
        let ghost pv = p;
        self.staged.push(p);
        proof {
            lemma_entries_map_push(old(self).staged@, pv);
            assert(pv.0@ == id@);
        }
    }

    /// Whether nothing has been staged.
    pub fn is_empty(&self) -> (r: bool)
        ensures
            r <==> self.staged_map().dom() == Set::<Seq<char>>::empty(),
    {
        let r = self.staged.len() == 0;
        proof {
            if self.staged@.len() == 0 {
                assert(self.staged_map().dom() =~= Set::<Seq<char>>::empty());
            } else {
                let k = self.staged@.last().0@;
                assert(entry_lookup(self.staged@, k) is Some);
                assert(self.staged_map().dom().contains(k));
            }
        }
        r
    }
}

/// Copies a byte buffer.
fn copy_bytes(v: &Vec<u8>) -> (r: Vec<u8>)
    ensures
        r@ == v@,
{
    let mut r: Vec<u8> = Vec::new();
    let mut i: usize = 0;
    while i < v.len()
        invariant
            i <= v@.len(),
            r@ == v@.take(i as int),
        decreases v@.len() - i,
    {
        r.push(v[i]);
        proof {
            assert(v@.take(i + 1) =~= v@.take(i as int).push(v@[i as int]));
        }
        i += 1;
    }
    proof {
        assert(v@.take(v@.len() as int) =~= v@);
    }
    r
}

impl EncodedDoc {
    /// Copies the encoded pair, byte for byte.
    pub fn duplicate(&self) -> (r: EncodedDoc)
        ensures
            r@ == self@,
    {
        EncodedDoc {
            doc_state: copy_bytes(&self.doc_state),
            state_vector: copy_bytes(&self.state_vector),
        }
    }
}

/// Finds the last entry stored under `id`, the one `entry_lookup` denotes.
fn find_last(entries: &Vec<(String, EncodedDoc)>, id: &String) -> (r: Option<usize>)
    ensures
        match r {
            Some(i) => i < entries@.len() && entry_lookup(entries@, id@) == Some(
                entries@[i as int].1@,
            ),
            None => entry_lookup(entries@, id@) is None,
        },
{
    let mut i: usize = entries.len();
    proof {
        assert(entries@.take(entries@.len() as int) =~= entries@);
    }
    while i > 0
        invariant
            i <= entries@.len(),
            entry_lookup(entries@, id@) == entry_lookup(entries@.take(i as int), id@),
        decreases i,
    {
        let prev: usize = i - 1;
        proof {
            assert(entries@.take(i as int).drop_last() =~= entries@.take(prev as int));
            assert(entries@.take(i as int).last() == entries@[prev as int]);
        }
        let e = &entries[prev];
        if e.0 == *id {
            return Some(prev);
        }
        i = prev;
    }
    proof {
        assert(entries@.take(0) =~= Seq::<(String, EncodedDoc)>::empty());
    }
    None
}

impl DocStore {
    /// The committed documents, as a map from identifier to document.
    pub closed spec fn docs_map(self) -> Map<Seq<char>, (Seq<u8>, Seq<u8>)> {
        entries_map(self.docs@)
    }

    /// The stored workspace structure, if any: the workspace identifier it
    /// is stored under, and its first-level view identifiers in order.
    pub closed spec fn structure_rep(self) -> Option<(Seq<char>, Seq<Seq<char>>)> {
        match self.structure {
            Some((w, s)) => Some((w@, view_ids(s.views@))),
            None => None,
        }
    }

    /// The first-level view identifiers of the workspace stored under `wid`,
    /// if that workspace's structure can be opened.
    pub open spec fn structure_at(self, wid: Seq<char>) -> Option<Seq<Seq<char>>> {
        match self.structure_rep() {
            Some((w, ids)) => if w == wid {
                Some(ids)
            } else {
                None
            },
            None => None,
        }
    }

    /// Whether every commit on this store fails.
    pub closed spec fn commit_faulted(self) -> bool {
        self.commit_fault
    }

    /// An empty store: no documents, no structure, commits succeed.
    pub fn new() -> (s: DocStore)
        ensures
            s.docs_map() == Map::<Seq<char>, (Seq<u8>, Seq<u8>)>::empty(),
            s.structure_rep() is None,
            !s.commit_faulted(),
    {
        let s = DocStore { docs: Vec::new(), structure: None, commit_fault: false };
        proof {
            assert(s.docs_map() =~= Map::<Seq<char>, (Seq<u8>, Seq<u8>)>::empty());
        }
        s
    }

    /// Writes a committed document directly, as content that predates the
    /// migration would have been written.
    pub fn put_doc(&mut self, id: &String, d: EncodedDoc)
        ensures
            final(self).docs_map() == old(self).docs_map().insert(id@, d@),
            final(self).structure_rep() == old(self).structure_rep(),
            final(self).commit_faulted() == old(self).commit_faulted(),
    {
        let p = (id.clone(), d);
        let ghost pv = p;
        self.docs.push(p);
        proof {
            lemma_entries_map_push(old(self).docs@, pv);
            assert(pv.0@ == id@);
        }
    }

    /// Stores the workspace structure under `workspace_id`.
    pub fn set_structure(&mut self, workspace_id: &String, s: Structure)
        ensures
            final(self).structure_rep() == Some((workspace_id@, view_ids(s.views@))),
            final(self).docs_map() == old(self).docs_map(),
            final(self).commit_faulted() == old(self).commit_faulted(),
    {
        self.structure = Some((workspace_id.clone(), s));
    }

    /// Makes every later commit fail (or succeed again), modelling a broken
    /// backing device.
    pub fn set_commit_fault(&mut self, fault: bool)
        ensures
            final(self).commit_faulted() == fault,
            final(self).docs_map() == old(self).docs_map(),
            final(self).structure_rep() == old(self).structure_rep(),
    {
        self.commit_fault = fault;
    }

    /// Opens a write transaction. Its writes stay invisible until commit.
    pub fn open_write_txn(&self) -> (t: WriteTxn)
        ensures
            t.staged_map() == Map::<Seq<char>, (Seq<u8>, Seq<u8>)>::empty(),
    {
        let t = WriteTxn { staged: Vec::new() };
        proof {
            assert(t.staged_map() =~= Map::<Seq<char>, (Seq<u8>, Seq<u8>)>::empty());
        }
        t
    }

    /// The first-level view identifiers of the workspace stored under
    /// `workspace_id`, or `None` when that structure cannot be opened.
    pub fn structure_view_ids(&self, workspace_id: &String) -> (r: Option<Vec<String>>)
        ensures
            match r {
                Some(ids) => self.structure_at(workspace_id@) == Some(ids_view(ids@)),
                None => self.structure_at(workspace_id@) is None,
            },
    {
        match &self.structure {
            None => None,
            Some((w, s)) => {
                if w.eq(workspace_id) {
                    let views = &s.views;
                    let mut out: Vec<String> = Vec::new();
                    let mut i: usize = 0;
                    while i < views.len()
                        invariant
                            i <= views@.len(),
                            out@.len() == i as int,
                            forall|j: int| 0 <= j < i as int ==> out@[j]@ == views@[j].id@,
                        decreases views@.len() - i,
                    {
                        out.push(views[i].id.clone());
                        i += 1;
                    }
                    proof {
                        assert(ids_view(out@) =~= view_ids(s.views@));
                    }
                    Some(out)
                } else {
                    None
                }
            },
        }
    }

    /// Loads the document stored under `id`, as seen through `txn`: a staged
    /// write overrides the committed content. A miss changes nothing.
    pub fn load(&self, id: &String, txn: &WriteTxn) -> (r: Option<EncodedDoc>)
        ensures
            match r {
                Some(d) => effective(*self, *txn).dom().contains(id@) && d@ == effective(
                    *self,
                    *txn,
                )[id@],
                None => !effective(*self, *txn).dom().contains(id@),
            },
    {
        match find_last(&txn.staged, id) {
            Some(i) => Some(txn.staged[i].1.duplicate()),
            None => match find_last(&self.docs, id) {
                Some(i) => Some(self.docs[i].1.duplicate()),
                None => None,
            },
        }
    }

    /// Commits a transaction: every staged write becomes durable, atomically,
    /// or — when the store's commits fail — none does and the store is left
    /// exactly as it was.
    pub fn commit(&mut self, txn: WriteTxn) -> (r: Result<(), MigrationError>)
        ensures
            r is Ok <==> !old(self).commit_faulted(),
            r is Err ==> *final(self) == *old(self) && r == Err::<(), MigrationError>(
                MigrationError::CommitFailed,
            ),
            r is Ok ==> final(self).docs_map() == effective(*old(self), txn),
            r is Ok && txn.staged_map().dom() == Set::<Seq<char>>::empty() ==> *final(self)
                == *old(self),
            final(self).structure_rep() == old(self).structure_rep(),
            final(self).commit_faulted() == old(self).commit_faulted(),
    {
        if self.commit_fault {
            return Err(MigrationError::CommitFailed);
        }
        let staged = txn.staged;
        let ghost old_docs = old(self).docs@;
        let mut i: usize = 0;
        while i < staged.len()
            invariant
                i <= staged@.len(),
                staged@ == txn.staged@,
                i as int == 0 ==> *self == *old(self),
                self.structure == old(self).structure,
                self.commit_fault == old(self).commit_fault,
                forall|k: Seq<char>| #[trigger] entry_lookup(self.docs@, k) == (
                    if entry_lookup(staged@.take(i as int), k) is Some {
                        entry_lookup(staged@.take(i as int), k)
                    } else {
                        entry_lookup(old_docs, k)
                    }
                ),
            decreases staged@.len() - i,
        {
            let ghost prev_docs = self.docs@;
            let idc = staged[i].0.clone();
            let dc = staged[i].1.duplicate();
            let p = (idc, dc);
            let ghost pv = p;
            self.docs.push(p);
            proof {
                assert(staged@.take(i + 1).drop_last() =~= staged@.take(i as int));
                assert(staged@.take(i + 1).last() == staged@[i as int]);
                assert(self.docs@ == prev_docs.push(pv));
                assert(self.docs@.drop_last() =~= prev_docs);
                assert(self.docs@.last() == pv);
                assert forall|k: Seq<char>| #[trigger] entry_lookup(self.docs@, k) == (
                    if entry_lookup(staged@.take(i + 1), k) is Some {
                        entry_lookup(staged@.take(i + 1), k)
                    } else {
                        entry_lookup(old_docs, k)
                    }
                ) by {
                    if k == staged@[i as int].0@ {
                        assert(pv.0@ == k);
                        assert(entry_lookup(self.docs@, k) == Some(pv.1@));
                        assert(entry_lookup(staged@.take(i + 1), k) == Some(
                            staged@[i as int].1@,
                        ));
                    } else {
                        assert(pv.0@ != k);
                        assert(entry_lookup(self.docs@, k) == entry_lookup(prev_docs, k));
                        assert(entry_lookup(staged@.take(i + 1), k) == entry_lookup(
                            staged@.take(i as int),
                            k,
                        ));
                    }
                }
            }
            i += 1;
        }
        proof {
            assert(staged@.take(staged@.len() as int) =~= staged@);
            assert(self.docs_map() =~= effective(*old(self), txn));
            if txn.staged_map().dom() == Set::<Seq<char>>::empty() {
                if staged@.len() > 0 {
                    let k = staged@.last().0@;
                    assert(entry_lookup(staged@, k) is Some);
                    assert(txn.staged_map().dom().contains(k));
                }
                assert(staged@.len() == 0);
            }
        }
        Ok(())
    }
}

/// Staging one more write shifts what load sees by exactly that entry.
pub proof fn lemma_effective_insert(
    store: DocStore,
    t1: WriteTxn,
    t2: WriteTxn,
    k: Seq<char>,
    v: (Seq<u8>, Seq<u8>),
)
    requires
        t2.staged_map() == t1.staged_map().insert(k, v),
    ensures
        effective(store, t2) == effective(store, t1).insert(k, v),
{
    assert(effective(store, t2) =~= effective(store, t1).insert(k, v));
}

/// Through a transaction with nothing staged, load sees exactly the
/// committed documents.
pub proof fn lemma_effective_empty(store: DocStore, t: WriteTxn)
    requires
        t.staged_map() == Map::<Seq<char>, (Seq<u8>, Seq<u8>)>::empty(),
    ensures
        effective(store, t) == store.docs_map(),
{
    assert(effective(store, t) =~= store.docs_map());
}

} // verus!
