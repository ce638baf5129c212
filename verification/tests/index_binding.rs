use rrd_store::index::{IndexCommitBindingDefinition, IndexCommitBindingKind};
use rrd_store::index_binding::{
    binding_projection, canonical_definition_order, definitions_equal, plan_index_bindings, validate_binding_schema, BindingProjection, BindingWrite,
    FieldType, IndexCommitBinding, IndexCommitBindingSet, IndexSchema, RecordSchema,
};
use rrd_store::Error;
use sha2::{Digest, Sha256};

const SCOPE: &str = "project:alpha";
const KEY: &str = "server/state/index-catalogue/project:alpha";
const DEFINITIONS: &[u8] = b"[{\"id\":\"by-owner\"}]";

fn hex_sha(bytes: &[u8]) -> String {
    Sha256::digest(bytes).iter().map(|b| format!("{b:02x}")).collect()
}

fn def(id: &str, field: &str) -> IndexCommitBindingDefinition {
    IndexCommitBindingDefinition {
        id: id.into(),
        record_kind: "task".into(),
        fields: vec![field.into()],
        kind: IndexCommitBindingKind::Scalar { unique: false },
        configuration_sha256: "ab".repeat(32),
    }
}

fn schema(revision: u64) -> IndexSchema {
    IndexSchema {
        revision,
        records: vec![RecordSchema {
            kind: "task".into(),
            properties: vec![
                ("owner".into(), FieldType::String),
                ("status".into(), FieldType::String),
                ("state".into(), FieldType::String),
                ("title".into(), FieldType::String),
                ("age".into(), FieldType::Unsigned),
                ("tags".into(), FieldType::List),
            ],
        }],
    }
}

fn binding(id: &str, field: &str, key: &str, schema_revision: u64) -> IndexCommitBinding {
    IndexCommitBinding {
        contract_version: 1,
        scope: SCOPE.into(),
        definition: def(id, field),
        schema_revision,
        catalogue_revision: 3,
        source_control_key: key.into(),
        source_control_sha256: hex_sha(b"catalogue"),
    }
}

fn plan(defs: &Vec<IndexCommitBindingDefinition>, existing: &Vec<IndexCommitBinding>, schema_revision: u64) -> Result<rrd_store::index_binding::IndexBindingPlan, Error> {
    let s = schema(5);
    plan_index_bindings(&SCOPE.to_string(), Some(&s), schema_revision, 3, &KEY.to_string(), &hex_sha(b"catalogue"), defs, existing)
}

#[test]
fn bindings_are_kept_changed_added_and_removed() {
    let requested = vec![def("by-owner", "owner"), def("by-state", "status"), def("by-title", "title")];
    let existing = vec![binding("by-owner", "owner", KEY, 5), binding("by-state", "state", KEY, 5), binding("by-age", "age", KEY, 5)];
    let plan = plan(&requested, &existing, 5).unwrap();
    assert_eq!(plan.removed, vec!["by-age".to_string()]);
    assert_eq!(plan.writes, vec![
        BindingWrite { clear_prior: false, backfill: false },
        BindingWrite { clear_prior: true, backfill: true },
        BindingWrite { clear_prior: false, backfill: true },
    ]);
    assert!(definitions_equal(&def("a", "x"), &def("a", "x")));
    assert!(!definitions_equal(&def("a", "x"), &def("a", "y")));
}

#[test]
fn refused_binding_plans() {
    let scope = SCOPE.to_string();
    let key = KEY.to_string();
    let digest = hex_sha(b"catalogue");
    let repeated = vec![def("by-owner", "owner"), def("by-owner", "status")];
    assert!(matches!(plan(&repeated, &vec![], 5), Err(Error::IndexConstraint(_))));
    let foreign = vec![binding("by-owner", "owner", "server/state/index-catalogue/other", 5)];
    assert!(matches!(plan(&vec![def("by-owner", "owner")], &foreign, 5), Err(Error::IndexConstraint(_))));
    let mut invalid = def("by-owner", "owner");
    invalid.fields.clear();
    assert!(matches!(plan(&vec![invalid], &vec![], 5), Err(Error::IndexConstraint(_))));
    assert!(matches!(plan(&vec![def("by-x", "unknown")], &vec![], 5), Err(Error::IndexConstraint(_))));
    assert!(matches!(plan(&vec![def("by-tags", "tags")], &vec![], 5), Err(Error::IndexConstraint(_))));
    let mut bm25 = def("by-age", "age");
    bm25.kind = IndexCommitBindingKind::Bm25;
    assert!(matches!(plan(&vec![bm25], &vec![], 5), Err(Error::IndexConstraint(_))));
    let mut unknown_kind = def("by-owner", "owner");
    unknown_kind.record_kind = "note".into();
    assert!(matches!(plan(&vec![unknown_kind], &vec![], 5), Err(Error::IndexConstraint(_))));
    assert_eq!(plan(&vec![], &vec![], 4), Err(Error::RuntimeSchemaConflict { expected: 4, actual: 5 }));
    assert!(matches!(
        plan_index_bindings(&scope, None, 5, 3, &key, &digest, &vec![], &vec![]),
        Err(Error::RuntimeSchemaMissing(m)) if m == SCOPE
    ));
    assert!(matches!(
        plan_index_bindings(&scope, Some(&schema(5)), 5, 3, &key, &"AB".repeat(32), &vec![], &vec![]),
        Err(Error::IndexConstraint(_))
    ));
    assert!(matches!(
        plan_index_bindings(&scope, Some(&schema(5)), 5, 0, &key, &digest, &vec![], &vec![]),
        Err(Error::IndexConstraint(_))
    ));
    let mut stale = binding("old", "owner", KEY, 5);
    stale.contract_version = 2;
    assert!(matches!(plan(&vec![], &vec![stale], 5), Err(Error::IndexConstraint(_))));
    let plan = plan(&vec![], &vec![binding("old", "owner", KEY, 5)], 5).unwrap();
    assert_eq!(plan.removed, vec!["old".to_string()]);
    assert!(plan.writes.is_empty());
    assert!(validate_binding_schema(&def("by-id", "id"), &schema(5)).is_ok());
}

fn set(schema_revision: u64, count: u64) -> IndexCommitBindingSet {
    IndexCommitBindingSet {
        contract_version: 1,
        scope: SCOPE.into(),
        schema_revision,
        catalogue_revision: 3,
        source_control_key: KEY.into(),
        source_control_sha256: hex_sha(b"catalogue"),
        definition_count: count,
        definitions_sha256: hex_sha(DEFINITIONS),
    }
}

#[test]
fn a_commit_checks_its_scope_bindings_against_their_catalogue() {
    let scope = SCOPE.to_string();
    let control: &[u8] = b"catalogue";
    let one = vec![binding("by-owner", "owner", KEY, 5)];
    assert_eq!(binding_projection(&scope, None, None, DEFINITIONS, &vec![], &schema(5), 3).unwrap(), BindingProjection::Unindexed);
    assert_eq!(
        binding_projection(&scope, Some(control), Some(&set(5, 1)), DEFINITIONS, &one, &schema(5), 3).unwrap(),
        BindingProjection::Bound { refresh: false }
    );
    let older = vec![binding("by-owner", "owner", KEY, 4)];
    assert_eq!(
        binding_projection(&scope, Some(control), Some(&set(4, 1)), DEFINITIONS, &older, &schema(5), 4).unwrap(),
        BindingProjection::Bound { refresh: true }
    );
    assert!(matches!(binding_projection(&scope, None, None, DEFINITIONS, &one, &schema(5), 3), Err(Error::IndexConstraint(_))));
    assert!(matches!(binding_projection(&scope, Some(control), None, DEFINITIONS, &vec![], &schema(5), 3), Err(Error::IndexConstraint(_))));
    assert!(matches!(binding_projection(&scope, Some(b"other"), Some(&set(5, 1)), DEFINITIONS, &one, &schema(5), 3), Err(Error::IndexConstraint(_))));
    assert!(matches!(binding_projection(&scope, Some(control), Some(&set(5, 2)), DEFINITIONS, &one, &schema(5), 3), Err(Error::IndexConstraint(_))));
    assert!(matches!(binding_projection(&scope, Some(control), Some(&set(5, 1)), b"[]", &one, &schema(5), 3), Err(Error::IndexConstraint(_))));
    assert!(matches!(binding_projection(&scope, Some(control), Some(&set(5, 1)), DEFINITIONS, &older, &schema(5), 3), Err(Error::IndexConstraint(_))));
    assert!(matches!(binding_projection(&scope, Some(control), Some(&set(5, 1)), DEFINITIONS, &one, &schema(5), 2), Err(Error::IndexConstraint(_))));
    let untyped = vec![binding("by-x", "unknown", KEY, 5)];
    assert!(matches!(binding_projection(&scope, Some(control), Some(&set(5, 1)), DEFINITIONS, &untyped, &schema(5), 3), Err(Error::IndexConstraint(_))));
    let mut bad_set = set(5, 1);
    bad_set.contract_version = 2;
    assert!(matches!(binding_projection(&scope, Some(control), Some(&bad_set), DEFINITIONS, &one, &schema(5), 3), Err(Error::IndexConstraint(_))));
    let mut zero = binding("by-owner", "owner", KEY, 5);
    zero.schema_revision = 0;
    assert!(matches!(binding_projection(&scope, None, None, DEFINITIONS, &vec![zero], &schema(5), 3), Err(Error::IndexConstraint(_))));
}

#[test]
fn definitions_are_ordered_by_id_for_their_digest() {
    let bindings = vec![
        binding("by-title", "title", KEY, 5),
        binding("by-age", "age", KEY, 5),
        binding("by-owner", "owner", KEY, 5),
    ];
    assert_eq!(canonical_definition_order(&bindings), vec![1, 2, 0]);
    assert_eq!(canonical_definition_order(&vec![]), Vec::<usize>::new());
    let tied = vec![binding("b", "owner", KEY, 5), binding("a", "age", KEY, 5), binding("b", "title", KEY, 5)];
    assert_eq!(canonical_definition_order(&tied), vec![1, 0, 2]);
}
