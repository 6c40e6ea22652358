//! The migration runner: one single-pass repair of a user's workspace,
//! executed inside one write transaction and committed atomically.
//!
//! The pass enumerates the workspace's first-level views in stored order and,
//! for each view whose identifier has no document yet, stages a flush of the
//! canonical default content. Views whose default content is unavailable are
//! skipped without aborting the pass; an existing document is never touched;
//! a workspace whose structure cannot be opened is nothing to migrate and the
//! run reports success having staged nothing. `backfill` is the whole pass as
//! a map transformer, and every contract here is stated against it.

use vstd::prelude::*;

use crate::MigrationError;
use crate::Session;
use crate::store::DocStore;
use crate::store::EncodedDoc;
use crate::store::WriteTxn;
use crate::store::effective;
use crate::store::ids_view;
use crate::store::lemma_effective_empty;
use crate::store::lemma_effective_insert;

verus! {

/// The canonical empty content, as the store persists it. The concrete
/// content encoding is outside this engine's scope, so the canonical pair is
/// the fixed empty one: empty state, empty state vector. Existence of an
/// entry, not its emptiness, is what the migration's policy reads.
pub open spec fn default_doc() -> (Seq<u8>, Seq<u8>) {
    (Seq::<u8>::empty(), Seq::<u8>::empty())
}

/// Builds the canonical default document. Every invocation returns the same
/// encoded pair: nothing transient leaks into it.
pub fn make_default() -> (r: EncodedDoc)
    ensures
        r@ == default_doc(),
{
    EncodedDoc { doc_state: Vec::new(), state_vector: Vec::new() }
}

/// One step of the pass over one view: a document is created exactly when
/// the identifier has none and default content is at hand.
pub open spec fn backfill_step(
    m: Map<Seq<char>, (Seq<u8>, Seq<u8>)>,
    id: Seq<char>,
    d: Option<(Seq<u8>, Seq<u8>)>,
) -> Map<Seq<char>, (Seq<u8>, Seq<u8>)> {
    if !m.dom().contains(id) && d is Some {
        m.insert(id, d->0)
    } else {
        m
    }
}

/// The whole pass: the store's documents after migrating the views `ids` in
/// order, where `ds[i]` is the default content produced for view `i`, or
/// `None` when producing it failed and the view was skipped.
pub open spec fn backfill(
    m: Map<Seq<char>, (Seq<u8>, Seq<u8>)>,
    ids: Seq<Seq<char>>,
    ds: Seq<Option<(Seq<u8>, Seq<u8>)>>,
) -> Map<Seq<char>, (Seq<u8>, Seq<u8>)>
    decreases ids.len(),
{
    if ids.len() == 0 {
        m
    } else {
        backfill(backfill_step(m, ids[0], ds[0]), ids.drop_first(), ds.drop_first())
    }
}

/// Extending a pass by one view applies one more step to its result.
pub proof fn lemma_backfill_snoc(
    m: Map<Seq<char>, (Seq<u8>, Seq<u8>)>,
    ids: Seq<Seq<char>>,
    ds: Seq<Option<(Seq<u8>, Seq<u8>)>>,
    id: Seq<char>,
    d: Option<(Seq<u8>, Seq<u8>)>,
)
    requires
        ids.len() == ds.len(),
    ensures
        backfill(m, ids.push(id), ds.push(d)) == backfill_step(backfill(m, ids, ds), id, d),
    decreases ids.len(),
{
    if ids.len() == 0 {
        assert(ids.push(id)[0] == id);
        assert(ds.push(d)[0] == d);
        assert(ids.push(id).drop_first() =~= ids);
        assert(ds.push(d).drop_first() =~= ds);
        assert(backfill(m, ids.push(id), ds.push(d)) == backfill(
            backfill_step(m, id, d),
            ids,
            ds,
        ));
        assert(backfill(backfill_step(m, id, d), ids, ds) == backfill_step(m, id, d));
        assert(backfill(m, ids, ds) == m);
    } else {
        assert(ids.push(id)[0] == ids[0]);
        assert(ds.push(d)[0] == ds[0]);
        assert(ids.push(id).drop_first() =~= ids.drop_first().push(id));
        assert(ds.push(d).drop_first() =~= ds.drop_first().push(d));
        lemma_backfill_snoc(
            backfill_step(m, ids[0], ds[0]),
            ids.drop_first(),
            ds.drop_first(),
            id,
            d,
        );
        assert(backfill(m, ids.push(id), ds.push(d)) == backfill(
            backfill_step(m, ids[0], ds[0]),
            ids.drop_first().push(id),
            ds.drop_first().push(d),
        ));
        assert(backfill(m, ids, ds) == backfill(
            backfill_step(m, ids[0], ds[0]),
            ids.drop_first(),
            ds.drop_first(),
        ));
    }
}

/// The default content produced for each view, as the pass saw it.
pub open spec fn defaults_view(s: Seq<Option<EncodedDoc>>) -> Seq<Option<(Seq<u8>, Seq<u8>)>> {
    s.map_values(
        |o: Option<EncodedDoc>| match o {
            Some(d) => Some(d@),
            None => None,
        },
    )
}

/// Whether every one of the identifiers has a document in `m` already.
pub open spec fn all_present(m: Map<Seq<char>, (Seq<u8>, Seq<u8>)>, ids: Seq<Seq<char>>) -> bool {
    forall|i: int| 0 <= i < ids.len() ==> m.dom().contains(#[trigger] ids[i])
}

/// Default content available for every one of `n` views: what the factory
/// yields when nothing fails.
pub open spec fn all_defaults(n: nat) -> Seq<Option<(Seq<u8>, Seq<u8>)>> {
    Seq::new(n, |i: int| Some(default_doc()))
}

/// Migrates one view: if the identifier already has a document — committed
/// or staged — nothing is written and `Ok(false)` comes back. If it has
/// none, the given default content is staged and `Ok(true)` comes back; with
/// no default content at hand the view is skipped with an error, and the
/// transaction is left untouched.
pub fn migrate_empty_document(
    store: &DocStore,
    txn: &mut WriteTxn,
    view_id: &String,
    default: &Option<EncodedDoc>,
) -> (r: Result<bool, MigrationError>)
    ensures
        match r {
            Ok(true) => !effective(*store, *old(txn)).dom().contains(view_id@) && *default
                is Some && final(txn).staged_map() == old(txn).staged_map().insert(
                view_id@,
                default->0@,
            ),
            Ok(false) => effective(*store, *old(txn)).dom().contains(view_id@) && *final(txn)
                == *old(txn),
            Err(e) => !effective(*store, *old(txn)).dom().contains(view_id@) && *default
                is None && *final(txn) == *old(txn) && e == MigrationError::ContentUnavailable,
        },
{
    match store.load(view_id, txn) {
        Some(_) => Ok(false),
        None => match default {
            Some(d) => {
                txn.flush_doc(view_id, d.duplicate());
                Ok(true)
            },
            None => Err(MigrationError::ContentUnavailable),
        },
    }
}

/// The pass over all views of one structure, in order: after it, what load
/// sees through the transaction is exactly `backfill` of what it saw before.
/// Nothing is staged for an identifier that already has a committed
/// document, so a pass over fully-migrated views stages nothing.
pub fn migrate_views(
    store: &DocStore,
    txn: &mut WriteTxn,
    ids: &Vec<String>,
    defaults: &Vec<Option<EncodedDoc>>,
)
    requires
        old(txn).staged_map() == Map::<Seq<char>, (Seq<u8>, Seq<u8>)>::empty(),
        ids@.len() == defaults@.len(),
    ensures
        effective(*store, *final(txn)) == backfill(
            store.docs_map(),
            ids_view(ids@),
            defaults_view(defaults@),
        ),
        forall|k: Seq<char>| #[trigger] final(txn).staged_map().dom().contains(k)
            ==> !store.docs_map().dom().contains(k) && ids_view(ids@).contains(k),
        (forall|i: int|
            0 <= i < ids@.len() ==> store.docs_map().dom().contains(
                #[trigger] ids_view(ids@)[i],
            )) ==> final(txn).staged_map().dom() == Set::<Seq<char>>::empty(),
{
    let ghost m0 = store.docs_map();
    let ghost idsv = ids_view(ids@);
    let ghost dsv = defaults_view(defaults@);
    proof {
        lemma_effective_empty(*store, *txn);
        assert(idsv.take(0) =~= Seq::<Seq<char>>::empty());
        assert(dsv.take(0) =~= Seq::<Option<(Seq<u8>, Seq<u8>)>>::empty());
    }
    let mut i: usize = 0;
    while i < ids.len()
        invariant
            i <= ids@.len(),
            ids@.len() == defaults@.len(),
            idsv == ids_view(ids@),
            dsv == defaults_view(defaults@),
            m0 == store.docs_map(),
            effective(*store, *txn) == backfill(m0, idsv.take(i as int), dsv.take(i as int)),
            forall|k: Seq<char>| #[trigger] txn.staged_map().dom().contains(k)
                ==> !m0.dom().contains(k) && idsv.contains(k),
        decreases ids@.len() - i,
    {
        let ghost txn_before = *txn;
        let r = migrate_empty_document(store, txn, &ids[i], &defaults[i]);
        proof {
            assert(idsv.take(i + 1) =~= idsv.take(i as int).push(idsv[i as int]));
            assert(dsv.take(i + 1) =~= dsv.take(i as int).push(dsv[i as int]));
            lemma_backfill_snoc(m0, idsv.take(i as int), dsv.take(i as int), idsv[i as int],
                dsv[i as int]);
            assert(idsv[i as int] == ids@[i as int]@);
            assert(dsv[i as int] == defaults_view(defaults@)[i as int]);
            match r {
                Ok(true) => {
                    lemma_effective_insert(
                        *store,
                        txn_before,
                        *txn,
                        ids@[i as int]@,
                        defaults@[i as int]->0@,
                    );
                    assert(idsv.contains(idsv[i as int]));
                },
                Ok(false) => {},
                Err(_) => {},
            }
        }
        i += 1;
    }
    proof {
        assert(idsv.take(ids@.len() as int) =~= idsv);
        assert(dsv.take(ids@.len() as int) =~= dsv);
        if forall|i2: int| 0 <= i2 < ids@.len() ==> m0.dom().contains(#[trigger] idsv[i2]) {
            assert forall|k: Seq<char>| !(#[trigger] txn.staged_map().dom().contains(k)) by {
                if txn.staged_map().dom().contains(k) {
                    let i2 = choose|i2: int| 0 <= i2 < idsv.len() && idsv[i2] == k;
                    assert(m0.dom().contains(idsv[i2]));
                }
            }
            assert(txn.staged_map().dom() =~= Set::<Seq<char>>::empty());
        }
    }
}

/// The contract every migration implements, for the outer registry that
/// invokes each at most once per installation, in a fixed order.
pub trait UserDataMigration {
    /// The stable, unique name the registry books the migration under as
    /// "already applied". It never changes once shipped.
    fn name(&self) -> (r: &'static str);

    /// Performs the migration for one user against one store. Whatever else
    /// a run does, a failed run leaves the store exactly as it was: nothing
    /// is durable before its one commit, so a failure is safe to retry.
    fn run(&self, session: &Session, store: &mut DocStore) -> (r: Result<(), MigrationError>)
        ensures
            r is Err ==> *final(store) == *old(store),
    ;
}

/// Repairs first-level views that historically never received a document,
/// by inserting the canonical default document for each.
pub struct HistoricalEmptyDocumentMigration;

impl UserDataMigration for HistoricalEmptyDocumentMigration {
    fn name(&self) -> (r: &'static str) {
        HistoricalEmptyDocumentMigration::name(self)
    }

    fn run(&self, session: &Session, store: &mut DocStore) -> (r: Result<(), MigrationError>) {
        HistoricalEmptyDocumentMigration::run(self, session, store)
    }
}

impl HistoricalEmptyDocumentMigration {
    /// The stable name the outer migration registry books this migration
    /// under. It never changes once shipped.
    pub fn name(&self) -> (r: &'static str)
        ensures
            r@ == "historical_empty_document"@,
    {
        "historical_empty_document"
    }

    /// Runs the migration for one user against one store, inside a single
    /// write transaction.
    ///
    /// When the workspace structure cannot be opened there is nothing to
    /// migrate: the run succeeds and the store is untouched. Otherwise every
    /// first-level view without a document gets the canonical default
    /// document, existing documents keep their exact bytes, and the whole
    /// batch becomes durable atomically: on commit failure the run reports
    /// the one fatal error and the store is exactly as it was.
    pub fn run(&self, session: &Session, store: &mut DocStore) -> (r: Result<(), MigrationError>)
        ensures
            final(store).structure_rep() == old(store).structure_rep(),
            final(store).commit_faulted() == old(store).commit_faulted(),
            match old(store).structure_at(session.workspace_id@) {
                None => r is Ok && *final(store) == *old(store),
                Some(ids) => {
                    &&& (r is Ok <==> !old(store).commit_faulted())
                    &&& (r is Ok ==> final(store).docs_map() == backfill(
                        old(store).docs_map(),
                        ids,
                        all_defaults(ids.len()),
                    ))
                    &&& (r is Err ==> *final(store) == *old(store) && r == Err::<
                        (),
                        MigrationError,
                    >(MigrationError::CommitFailed))
                    &&& (r is Ok && all_present(old(store).docs_map(), ids) ==> *final(store)
                        == *old(store))
                },
            },
    {
        let ids = match store.structure_view_ids(&session.workspace_id) {
            None => {
                return Ok(());
            },
            Some(v) => v,
        };
        let mut txn = store.open_write_txn();
        let mut defaults: Vec<Option<EncodedDoc>> = Vec::new();
        let mut i: usize = 0;
        while i < ids.len()
            invariant
                i <= ids@.len(),
                defaults@.len() == i as int,
                forall|j: int| 0 <= j < i as int ==> (#[trigger] defaults@[j]) is Some
                    && defaults@[j]->0@ == default_doc(),
            decreases ids@.len() - i,
        {
            defaults.push(Some(make_default()));
            i += 1;
        }
        migrate_views(store, &mut txn, &ids, &defaults);
        proof {
            assert(defaults_view(defaults@) =~= all_defaults(ids_view(ids@).len()));
            if all_present(old(store).docs_map(), ids_view(ids@)) {
                assert(forall|i2: int|
                    0 <= i2 < ids@.len() ==> store.docs_map().dom().contains(
                        #[trigger] ids_view(ids@)[i2],
                    ));
                assert(txn.staged_map().dom() == Set::<Seq<char>>::empty());
            }
        }
        let r = store.commit(txn);
        proof {
            let idsv = ids_view(ids@);
            assert(old(store).structure_at(session.workspace_id@) == Some(idsv));
            assert(r is Ok <==> !old(store).commit_faulted());
            if r is Ok {
                assert(store.docs_map() == backfill(
                    old(store).docs_map(),
                    idsv,
                    all_defaults(idsv.len()),
                ));
            }
            if r is Ok && all_present(old(store).docs_map(), idsv) {
                assert(*store == *old(store));
            }
        }
        r
    }
}

} // verus!
