use rrd_store::index::IndexCommitBindingKind;
use rrd_store::index_effects::{check_unique_rows, index_transition_effect, rows_same, values_same, IndexSourceRow, UniqueEntry};
use rrd_store::Error;
use rrd_store::keyspaces::{runtime_index_entry_key, runtime_index_source_delta_key, RuntimeRef, RuntimeValue, RUNTIME_SCALAR_ENTRIES, RUNTIME_UNIQUE_ENTRIES};

fn row(values: Vec<RuntimeValue>, valid_from: u64) -> IndexSourceRow {
    IndexSourceRow { values, valid_from, valid_to: None }
}

fn task() -> RuntimeRef {
    RuntimeRef { kind: "task".into(), id: "t1".into() }
}

#[test]
fn an_unchanged_row_leaves_the_index_alone() {
    let a = row(vec![RuntimeValue::String("open".into())], 5);
    let b = row(vec![RuntimeValue::String("open".into())], 5);
    assert!(rows_same(&a, &b));
    let kind = IndexCommitBindingKind::Scalar { unique: false };
    assert_eq!(index_transition_effect(kind, "p", "by-status", &task(), Some(&a), Some(&b), 7, 0).unwrap(), None);
    assert_eq!(index_transition_effect(kind, "p", "by-status", &task(), None, None, 7, 0).unwrap(), None);
    assert!(!rows_same(&a, &row(vec![RuntimeValue::String("open".into())], 6)));
    assert!(!values_same(&RuntimeValue::Unsigned(1), &RuntimeValue::Integer(1)));
    assert!(values_same(&RuntimeValue::List(vec!["x".into()]), &RuntimeValue::List(vec!["x".into()])));
}

#[test]
fn a_scalar_index_moves_its_entry_and_records_a_delta() {
    let before = row(vec![RuntimeValue::String("open".into())], 5);
    let after = row(vec![RuntimeValue::String("done".into())], 9);
    let kind = IndexCommitBindingKind::Scalar { unique: false };
    let effect = index_transition_effect(kind, "p", "by-status", &task(), Some(&before), Some(&after), 7, 2).unwrap().unwrap();
    assert_eq!(effect.retired_entry, Some(runtime_index_entry_key(RUNTIME_SCALAR_ENTRIES, "p", "by-status", &before.values, &task(), 5).unwrap()));
    assert_eq!(effect.added_entry, Some(runtime_index_entry_key(RUNTIME_SCALAR_ENTRIES, "p", "by-status", &after.values, &task(), 9).unwrap()));
    assert_eq!(effect.delta_key, runtime_index_source_delta_key("p", "by-status", 7, 2));

    let created = index_transition_effect(kind, "p", "by-status", &task(), None, Some(&after), 8, 0).unwrap().unwrap();
    assert_eq!(created.retired_entry, None);
    assert!(created.added_entry.is_some());
}

#[test]
fn unique_indexes_keep_no_entry_for_null_values_and_text_indexes_keep_none() {
    let before = row(vec![RuntimeValue::String("a@x".into())], 5);
    let after = row(vec![RuntimeValue::Null], 6);
    let unique = IndexCommitBindingKind::Scalar { unique: true };
    let effect = index_transition_effect(unique, "p", "by-mail", &task(), Some(&before), Some(&after), 3, 0).unwrap().unwrap();
    assert_eq!(effect.retired_entry, Some(runtime_index_entry_key(RUNTIME_UNIQUE_ENTRIES, "p", "by-mail", &before.values, &task(), 5).unwrap()));
    assert_eq!(effect.added_entry, None);

    let text = index_transition_effect(IndexCommitBindingKind::Bm25, "p", "by-title", &task(), Some(&before), Some(&after), 3, 1).unwrap().unwrap();
    assert_eq!(text.retired_entry, None);
    assert_eq!(text.added_entry, None);
    assert_eq!(text.delta_key, runtime_index_source_delta_key("p", "by-title", 3, 1));
}

#[test]
fn entries_cannot_hold_lists_or_maps() {
    let listed = row(vec![RuntimeValue::List(vec!["x".into()])], 5);
    let kind = IndexCommitBindingKind::Scalar { unique: false };
    assert!(index_transition_effect(kind, "p", "by-tags", &task(), None, Some(&listed), 3, 0).is_err());
    assert!(index_transition_effect(IndexCommitBindingKind::Bm25, "p", "by-tags", &task(), None, Some(&listed), 3, 0).is_ok());
}

fn reference(id: &str) -> RuntimeRef {
    RuntimeRef { kind: "user".into(), id: id.into() }
}

fn mail(address: &str, valid_from: u64, valid_to: Option<u64>) -> IndexSourceRow {
    IndexSourceRow { values: vec![RuntimeValue::String(address.into())], valid_from, valid_to }
}

#[test]
fn unique_rows_of_different_records_must_not_overlap() {
    let none: Vec<Vec<UniqueEntry>> = vec![vec![], vec![]];
    let apart = vec![(reference("u1"), mail("a@x", 0, Some(10))), (reference("u2"), mail("a@x", 10, None))];
    assert!(check_unique_rows(&apart, &vec![], &none).is_ok());
    let overlapping = vec![(reference("u1"), mail("a@x", 0, Some(11))), (reference("u2"), mail("a@x", 10, None))];
    assert!(matches!(check_unique_rows(&overlapping, &vec![], &none), Err(Error::IndexConstraint(_))));
    let same_record = vec![(reference("u1"), mail("a@x", 0, None)), (reference("u1"), mail("a@x", 5, None))];
    assert!(check_unique_rows(&same_record, &vec![], &none).is_ok());
    let other_values = vec![(reference("u1"), mail("a@x", 0, None)), (reference("u2"), mail("b@x", 0, None))];
    assert!(check_unique_rows(&other_values, &vec![], &none).is_ok());
    assert!(matches!(check_unique_rows(&other_values, &vec![], &vec![vec![]]), Err(Error::IndexConstraint(_))));
}

#[test]
fn unique_rows_must_not_overlap_stored_entries_of_other_records() {
    let candidates = vec![(reference("u1"), mail("a@x", 5, None))];
    let stored = vec![vec![UniqueEntry { record: reference("u9"), valid_from: 0, valid_to: None }]];
    assert!(matches!(check_unique_rows(&candidates, &vec![], &stored), Err(Error::IndexConstraint(_))));
    assert!(check_unique_rows(&candidates, &vec![reference("u9")], &stored).is_ok());
    let ended = vec![vec![UniqueEntry { record: reference("u9"), valid_from: 0, valid_to: Some(5) }]];
    assert!(check_unique_rows(&candidates, &vec![], &ended).is_ok());
}
