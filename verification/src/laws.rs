//! The migration pass's guarantees, stated and proved over `backfill`, the
//! map transformer that `migrate_views` and
//! `HistoricalEmptyDocumentMigration::run` are specified against.
//!
//! Two further guarantees live directly in `run`'s contract: a workspace
//! whose structure cannot be opened makes the run a successful no-op with
//! the store untouched, and a failed commit leaves the store exactly as it
//! was, so no document that did not exist before the run exists after it.

use vstd::prelude::*;

use crate::runner::all_present;
use crate::runner::backfill;
use crate::runner::backfill_step;

verus! {

/// Non-destructive: a document that exists before the pass — whatever its
/// content, empty included — keeps its exact bytes through it.
pub proof fn lemma_non_destructive(
    m: Map<Seq<char>, (Seq<u8>, Seq<u8>)>,
    ids: Seq<Seq<char>>,
    ds: Seq<Option<(Seq<u8>, Seq<u8>)>>,
    k: Seq<char>,
)
    requires
        ids.len() == ds.len(),
        m.dom().contains(k),
    ensures
        backfill(m, ids, ds).dom().contains(k),
        backfill(m, ids, ds)[k] == m[k],
    decreases ids.len(),
{
    if ids.len() == 0 {
    } else {
        let m1 = backfill_step(m, ids[0], ds[0]);
        assert(m1.dom().contains(k) && m1[k] == m[k]);
        lemma_non_destructive(m1, ids.drop_first(), ds.drop_first(), k);
    }
}

/// Backfill completeness: a view without a document, whose default content
/// was produced, has a document after the pass — one of the produced
/// defaults for its identifier.
pub proof fn lemma_backfill_completeness(
    m: Map<Seq<char>, (Seq<u8>, Seq<u8>)>,
    ids: Seq<Seq<char>>,
    ds: Seq<Option<(Seq<u8>, Seq<u8>)>>,
    i: int,
)
    requires
        ids.len() == ds.len(),
        0 <= i < ids.len(),
        !m.dom().contains(ids[i]),
        ds[i] is Some,
    ensures
        backfill(m, ids, ds).dom().contains(ids[i]),
        exists|j: int|
            0 <= j < ids.len() && ids[j] == ids[i] && ds[j] is Some && backfill(m, ids, ds)[ids[i]]
                == ds[j]->0,
    decreases ids.len(),
{
    let out = backfill(m, ids, ds);
    let m1 = backfill_step(m, ids[0], ds[0]);
    if !m.dom().contains(ids[0]) && ds[0] is Some {
        if ids[i] == ids[0] {
            lemma_non_destructive(m1, ids.drop_first(), ds.drop_first(), ids[i]);
            assert(out[ids[i]] == ds[0]->0);
            assert(0 <= 0 < ids.len() && ids[0] == ids[i] && ds[0] is Some && out[ids[i]] == ds[0]
                ->0);
        } else {
            lemma_backfill_completeness(m1, ids.drop_first(), ds.drop_first(), i - 1);
            let j2 = choose|j2: int|
                0 <= j2 < ids.drop_first().len() && ids.drop_first()[j2] == ids.drop_first()[i - 1]
                    && ds.drop_first()[j2] is Some && backfill(
                    m1,
                    ids.drop_first(),
                    ds.drop_first(),
                )[ids.drop_first()[i - 1]] == ds.drop_first()[j2]->0;
            assert(0 <= j2 + 1 < ids.len() && ids[j2 + 1] == ids[i] && ds[j2 + 1] is Some && out[
                ids[i]] == ds[j2 + 1]->0);
        }
    } else {
        assert(m1 == m);
        assert(i != 0);
        lemma_backfill_completeness(m, ids.drop_first(), ds.drop_first(), i - 1);
        let j2 = choose|j2: int|
            0 <= j2 < ids.drop_first().len() && ids.drop_first()[j2] == ids.drop_first()[i - 1]
                && ds.drop_first()[j2] is Some && backfill(
                m,
                ids.drop_first(),
                ds.drop_first(),
            )[ids.drop_first()[i - 1]] == ds.drop_first()[j2]->0;
        assert(0 <= j2 + 1 < ids.len() && ids[j2 + 1] == ids[i] && ds[j2 + 1] is Some && out[ids[i]]
            == ds[j2 + 1]->0);
    }
}

/// An identifier without a document, that no view creates a document for —
/// it is no view's identifier, or its default content always failed — still
/// has none after the pass. In particular the pass creates nothing beyond
/// the enumerated views.
pub proof fn lemma_untouched(
    m: Map<Seq<char>, (Seq<u8>, Seq<u8>)>,
    ids: Seq<Seq<char>>,
    ds: Seq<Option<(Seq<u8>, Seq<u8>)>>,
    k: Seq<char>,
)
    requires
        ids.len() == ds.len(),
        !m.dom().contains(k),
        forall|l: int| 0 <= l < ids.len() ==> !(ids[l] == k && #[trigger] ds[l] is Some),
    ensures
        !backfill(m, ids, ds).dom().contains(k),
    decreases ids.len(),
{
    if ids.len() == 0 {
    } else {
        let m1 = backfill_step(m, ids[0], ds[0]);
        assert(!(ids[0] == k && ds[0] is Some));
        assert(!m1.dom().contains(k));
        assert forall|l: int| 0 <= l < ids.drop_first().len() implies !(ids.drop_first()[l] == k
            && #[trigger] ds.drop_first()[l] is Some) by {
            assert(!(ids[l + 1] == k && ds[l + 1] is Some));
        }
        lemma_untouched(m1, ids.drop_first(), ds.drop_first(), k);
    }
}

/// A pass over views that all have documents already changes nothing,
/// whatever default content it was handed.
pub proof fn lemma_backfill_noop(
    m: Map<Seq<char>, (Seq<u8>, Seq<u8>)>,
    ids: Seq<Seq<char>>,
    ds: Seq<Option<(Seq<u8>, Seq<u8>)>>,
)
    requires
        ids.len() == ds.len(),
        forall|j: int| 0 <= j < ids.len() ==> m.dom().contains(#[trigger] ids[j]),
    ensures
        backfill(m, ids, ds) == m,
    decreases ids.len(),
{
    if ids.len() == 0 {
    } else {
        assert(m.dom().contains(ids[0]));
        assert(backfill_step(m, ids[0], ds[0]) == m);
        assert forall|j: int| 0 <= j < ids.drop_first().len() implies m.dom().contains(
            #[trigger] ids.drop_first()[j],
        ) by {
            assert(m.dom().contains(ids[j + 1]));
        }
        lemma_backfill_noop(m, ids.drop_first(), ds.drop_first());
    }
}

/// After a pass whose default content never failed, every view's identifier
/// has a document — which is why a later run of the migration finds nothing
/// to stage and leaves the store untouched.
pub proof fn lemma_all_present_after(
    m: Map<Seq<char>, (Seq<u8>, Seq<u8>)>,
    ids: Seq<Seq<char>>,
    ds: Seq<Option<(Seq<u8>, Seq<u8>)>>,
)
    requires
        ids.len() == ds.len(),
        forall|j: int| 0 <= j < ds.len() ==> (#[trigger] ds[j]) is Some,
    ensures
        all_present(backfill(m, ids, ds), ids),
{
    let out = backfill(m, ids, ds);
    assert forall|j: int| 0 <= j < ids.len() implies out.dom().contains(#[trigger] ids[j]) by {
        if m.dom().contains(ids[j]) {
            lemma_non_destructive(m, ids, ds, ids[j]);
        } else {
            assert(ds[j] is Some);
            lemma_backfill_completeness(m, ids, ds, j);
        }
    }
}

/// Idempotence: once a pass whose default content never failed has run,
/// running the pass again — with whatever default content — changes nothing:
/// every view's identifier now has a document, so the second pass stages no
/// write.
pub proof fn lemma_idempotent(
    m: Map<Seq<char>, (Seq<u8>, Seq<u8>)>,
    ids: Seq<Seq<char>>,
    ds: Seq<Option<(Seq<u8>, Seq<u8>)>>,
    ds2: Seq<Option<(Seq<u8>, Seq<u8>)>>,
)
    requires
        ids.len() == ds.len(),
        ids.len() == ds2.len(),
        forall|j: int| 0 <= j < ds.len() ==> (#[trigger] ds[j]) is Some,
    ensures
        backfill(backfill(m, ids, ds), ids, ds2) == backfill(m, ids, ds),
{
    lemma_all_present_after(m, ids, ds);
    lemma_backfill_noop(backfill(m, ids, ds), ids, ds2);
}

/// Fault isolation: that default content failed for one view does not block
/// the others — every other view without a document, whose default content
/// was produced, is still migrated. (That the transaction still commits is
/// visible in the runner's contracts: commit's outcome is independent of the
/// per-view outcomes.)
pub proof fn lemma_fault_isolation(
    m: Map<Seq<char>, (Seq<u8>, Seq<u8>)>,
    ids: Seq<Seq<char>>,
    ds: Seq<Option<(Seq<u8>, Seq<u8>)>>,
    j: int,
)
    requires
        ids.len() == ds.len(),
        0 <= j < ids.len(),
        ds[j] is None,
    ensures
        forall|i: int|
            0 <= i < ids.len() && i != j && !m.dom().contains(ids[i]) && (#[trigger] ds[i])
                is Some ==> backfill(m, ids, ds).dom().contains(ids[i]),
{
    assert forall|i: int|
        0 <= i < ids.len() && i != j && !m.dom().contains(ids[i]) && (#[trigger] ds[i])
            is Some implies backfill(m, ids, ds).dom().contains(ids[i]) by {
        lemma_backfill_completeness(m, ids, ds, i);
    }
}

} // verus!
