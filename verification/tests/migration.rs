use doc_backfill::MigrationError;
use doc_backfill::Session;
use doc_backfill::runner::HistoricalEmptyDocumentMigration;
use doc_backfill::runner::UserDataMigration;
use doc_backfill::runner::make_default;
use doc_backfill::runner::migrate_empty_document;
use doc_backfill::runner::migrate_views;
use doc_backfill::store::DocStore;
use doc_backfill::store::EncodedDoc;
use doc_backfill::store::Structure;
use doc_backfill::store::WorkspaceView;

fn doc(state: &[u8], state_vector: &[u8]) -> EncodedDoc {
    EncodedDoc { doc_state: state.to_vec(), state_vector: state_vector.to_vec() }
}

fn structure_of(ids: &[&str]) -> Structure {
    Structure {
        views: ids.iter().map(|id| WorkspaceView { id: (*id).to_string() }).collect(),
    }
}

fn session(workspace_id: &str) -> Session {
    Session { user_id: 1, workspace_id: workspace_id.to_string() }
}

fn loaded(store: &DocStore, id: &str) -> Option<EncodedDoc> {
    let txn = store.open_write_txn();
    store.load(&id.to_string(), &txn)
}

#[test]
fn backfills_views_without_documents() {
    let mut store = DocStore::new();
    store.put_doc(&"a".to_string(), doc(&[7, 8, 9], &[1]));
    store.set_structure(&"ws".to_string(), structure_of(&["a", "b", "c"]));

    let r = HistoricalEmptyDocumentMigration.run(&session("ws"), &mut store);
    assert_eq!(r, Ok(()));

    let a = loaded(&store, "a").expect("a existed before the run");
    assert_eq!(a.doc_state, vec![7, 8, 9]);
    assert_eq!(a.state_vector, vec![1]);

    let default = make_default();
    for id in ["b", "c"] {
        let d = loaded(&store, id).expect("backfilled");
        assert_eq!(d.doc_state, default.doc_state);
        assert_eq!(d.state_vector, default.state_vector);
    }
}

#[test]
fn existing_empty_looking_document_is_kept() {
    // Existence, not emptiness, controls eligibility: a document holding
    // deliberately empty content keeps its exact bytes.
    let mut store = DocStore::new();
    store.put_doc(&"a".to_string(), doc(&[], &[5, 5]));
    store.set_structure(&"ws".to_string(), structure_of(&["a"]));

    let r = HistoricalEmptyDocumentMigration.run(&session("ws"), &mut store);
    assert_eq!(r, Ok(()));

    let a = loaded(&store, "a").expect("still there");
    assert_eq!(a.doc_state, Vec::<u8>::new());
    assert_eq!(a.state_vector, vec![5, 5]);
}

#[test]
fn second_run_changes_nothing_and_stages_nothing() {
    let mut store = DocStore::new();
    store.put_doc(&"a".to_string(), doc(&[2], &[3]));
    store.set_structure(&"ws".to_string(), structure_of(&["a", "b"]));

    assert_eq!(HistoricalEmptyDocumentMigration.run(&session("ws"), &mut store), Ok(()));
    let a_once = loaded(&store, "a").unwrap();
    let b_once = loaded(&store, "b").unwrap();

    // A second pass over the same views finds every document present and
    // stages zero flushes.
    let mut txn = store.open_write_txn();
    let ids = vec!["a".to_string(), "b".to_string()];
    let defaults = vec![Some(make_default()), Some(make_default())];
    migrate_views(&store, &mut txn, &ids, &defaults);
    assert!(txn.is_empty());

    assert_eq!(HistoricalEmptyDocumentMigration.run(&session("ws"), &mut store), Ok(()));
    let a_twice = loaded(&store, "a").unwrap();
    let b_twice = loaded(&store, "b").unwrap();
    assert_eq!(a_once.doc_state, a_twice.doc_state);
    assert_eq!(a_once.state_vector, a_twice.state_vector);
    assert_eq!(b_once.doc_state, b_twice.doc_state);
    assert_eq!(b_once.state_vector, b_twice.state_vector);
}

#[test]
fn missing_structure_is_a_successful_noop() {
    let mut store = DocStore::new();
    let r = HistoricalEmptyDocumentMigration.run(&session("ws"), &mut store);
    assert_eq!(r, Ok(()));
    assert!(loaded(&store, "a").is_none());
}

#[test]
fn structure_under_other_workspace_is_a_successful_noop() {
    let mut store = DocStore::new();
    store.set_structure(&"other".to_string(), structure_of(&["a"]));
    let r = HistoricalEmptyDocumentMigration.run(&session("ws"), &mut store);
    assert_eq!(r, Ok(()));
    assert!(loaded(&store, "a").is_none());
}

#[test]
fn one_failed_view_does_not_block_the_others() {
    let mut store = DocStore::new();
    let mut txn = store.open_write_txn();
    let ids = vec!["a".to_string(), "b".to_string(), "c".to_string()];
    let defaults = vec![Some(make_default()), None, Some(make_default())];
    migrate_views(&store, &mut txn, &ids, &defaults);
    assert_eq!(store.commit(txn), Ok(()));

    assert!(loaded(&store, "a").is_some());
    assert!(loaded(&store, "b").is_none());
    assert!(loaded(&store, "c").is_some());
}

#[test]
fn commit_failure_is_fatal_and_leaves_the_store_untouched() {
    let mut store = DocStore::new();
    store.put_doc(&"a".to_string(), doc(&[4], &[6]));
    store.set_structure(&"ws".to_string(), structure_of(&["a", "b"]));
    store.set_commit_fault(true);

    let r = HistoricalEmptyDocumentMigration.run(&session("ws"), &mut store);
    assert_eq!(r, Err(MigrationError::CommitFailed));

    // No document that did not exist before the run exists after it, and
    // the run is retryable: once commits work again it succeeds.
    assert!(loaded(&store, "b").is_none());
    let a = loaded(&store, "a").unwrap();
    assert_eq!(a.doc_state, vec![4]);
    assert_eq!(a.state_vector, vec![6]);

    store.set_commit_fault(false);
    assert_eq!(HistoricalEmptyDocumentMigration.run(&session("ws"), &mut store), Ok(()));
    assert!(loaded(&store, "b").is_some());
}

#[test]
fn migrate_one_view_reports_each_outcome() {
    let mut store = DocStore::new();
    store.put_doc(&"a".to_string(), doc(&[1], &[2]));

    let mut txn = store.open_write_txn();
    let some_default = Some(make_default());

    // An existing document: skipped, nothing staged.
    assert_eq!(
        migrate_empty_document(&store, &mut txn, &"a".to_string(), &some_default),
        Ok(false)
    );
    assert!(txn.is_empty());

    // No document and no default content: the view is skipped softly.
    assert_eq!(
        migrate_empty_document(&store, &mut txn, &"b".to_string(), &None),
        Err(MigrationError::ContentUnavailable)
    );
    assert!(txn.is_empty());

    // No document, default content at hand: staged.
    assert_eq!(
        migrate_empty_document(&store, &mut txn, &"b".to_string(), &some_default),
        Ok(true)
    );
    assert!(!txn.is_empty());

    // Staged writes are invisible until commit...
    assert!(loaded(&store, "b").is_none());
    // ...but visible through the transaction they are staged in.
    assert!(store.load(&"b".to_string(), &txn).is_some());

    assert_eq!(store.commit(txn), Ok(()));
    assert!(loaded(&store, "b").is_some());
}

#[test]
fn structure_enumerates_entries_in_stored_order() {
    let s = structure_of(&["b", "a", "c"]);
    let ids: Vec<&str> = s.top_level_entries().iter().map(|v| v.id.as_str()).collect();
    assert_eq!(ids, vec!["b", "a", "c"]);
}

#[test]
fn default_content_is_deterministic() {
    let first = make_default();
    let second = make_default();
    assert_eq!(first.doc_state, second.doc_state);
    assert_eq!(first.state_vector, second.state_vector);
}

#[test]
fn migration_name_is_stable() {
    assert_eq!(HistoricalEmptyDocumentMigration.name(), "historical_empty_document");
}

#[test]
fn runs_through_the_migration_contract() {
    // The outer registry holds migrations as an ordered collection of
    // values of the contract's type and invokes each through it.
    let migrations: Vec<Box<dyn UserDataMigration>> = vec![
        Box::new(HistoricalEmptyDocumentMigration),
    ];

    let mut store = DocStore::new();
    store.set_structure(&"ws".to_string(), structure_of(&["a"]));
    for m in &migrations {
        assert_eq!(m.name(), "historical_empty_document");
        assert_eq!(m.run(&session("ws"), &mut store), Ok(()));
    }
    assert!(loaded(&store, "a").is_some());
}
