use rrd_store::index::{IndexCommitBindingDefinition, IndexCommitBindingKind};
use rrd_store::Error;

fn definition(fields: &[&str], kind: IndexCommitBindingKind) -> IndexCommitBindingDefinition {
    IndexCommitBindingDefinition {
        id: "by-title".into(),
        record_kind: "document".into(),
        fields: fields.iter().map(|field| field.to_string()).collect(),
        kind,
        configuration_sha256: "ab".repeat(32),
    }
}

#[test]
fn binding_definitions_accept_distinct_nonblank_fields() {
    assert!(definition(&["title"], IndexCommitBindingKind::Bm25).validate().is_ok());
    assert!(definition(&["a", "b"], IndexCommitBindingKind::Scalar { unique: true }).validate().is_ok());
}

#[test]
fn binding_definitions_refuse_each_broken_constraint() {
    let scalar = IndexCommitBindingKind::Scalar { unique: false };
    assert!(matches!(definition(&[], scalar).validate(), Err(Error::IndexConstraint(_))));
    let many: Vec<String> = (0..17).map(|i| format!("f{i}")).collect();
    let many: Vec<&str> = many.iter().map(String::as_str).collect();
    assert!(matches!(definition(&many, scalar).validate(), Err(Error::IndexConstraint(_))));
    assert!(matches!(definition(&["a", "b"], IndexCommitBindingKind::Bm25).validate(), Err(Error::IndexConstraint(_))));
    assert!(matches!(definition(&["a", " \t"], scalar).validate(), Err(Error::IndexConstraint(_))));
    assert!(matches!(definition(&["a", "\u{3000}\u{a0}"], scalar).validate(), Err(Error::IndexConstraint(_))));
    assert!(definition(&["a", " b "], scalar).validate().is_ok());
    assert!(matches!(definition(&["a", "a"], scalar).validate(), Err(Error::IndexConstraint(_))));
    let mut bad_digest = definition(&["a"], scalar);
    bad_digest.configuration_sha256 = "AB".repeat(32);
    assert!(matches!(bad_digest.validate(), Err(Error::IndexConstraint(_))));
}
