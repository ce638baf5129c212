use rrd_store::digest::sha256_hex;
use rrd_store::engine::RrflowMxStore;
use rrd_store::function::{
    FunctionArtifactMediaTypeRecord, FunctionArtifactRecord, FunctionCatalogueHeadRecord, FunctionCatalogueMembershipRecord,
    FunctionCataloguePublication, FunctionDefinitionRecord, TransactionFunctionBindingRecord,
};
use rrd_store::repository::catalogue::{
    decode_binding, decode_definition, decode_head, decode_membership, encode_binding, encode_definition, encode_head, encode_membership,
};
use rrd_store::repository::function::FunctionCatalogueRepository;
use rrd_store::Error;

const UNSIGNED: &[u8] = br#"{"membership":"unsigned"}"#;

fn artifact(content: &[u8]) -> FunctionArtifactRecord {
    FunctionArtifactRecord {
        content_sha256: sha256_hex(content),
        media_type: FunctionArtifactMediaTypeRecord::JavaScriptUtf8,
        content: content.to_vec(),
    }
}

fn definition(artifact_sha256: &str) -> FunctionDefinitionRecord {
    let json = r#"{"function":"lint"}"#;
    FunctionDefinitionRecord {
        format_version: 1,
        function_id: "lint".into(),
        revision: 1,
        predecessor_sha256: None,
        artifact_sha256: artifact_sha256.into(),
        runtime_profile: "javascript".into(),
        runtime_build_sha256: "11".repeat(32),
        input_schema_sha256: "22".repeat(32),
        output_schema_sha256: "33".repeat(32),
        definition_sha256: sha256_hex(json.as_bytes()),
        canonical_definition_json: json.into(),
    }
}

fn binding(definition_sha256: &str) -> TransactionFunctionBindingRecord {
    let json = r#"{"binding":"on-commit"}"#;
    TransactionFunctionBindingRecord {
        format_version: 1,
        binding_id: "on-commit".into(),
        revision: 1,
        predecessor_sha256: None,
        function_id: "lint".into(),
        function_definition_sha256: definition_sha256.into(),
        binding_sha256: sha256_hex(json.as_bytes()),
        canonical_binding_json: json.into(),
    }
}

fn publication(code: &[u8]) -> FunctionCataloguePublication {
    let artifact = artifact(code);
    let definition = definition(&artifact.content_sha256);
    let binding = binding(&definition.definition_sha256);
    let membership = FunctionCatalogueMembershipRecord {
        format_version: 1,
        revision: 1,
        predecessor_sha256: None,
        catalogue_sha256: "44".repeat(32),
        artifact_sha256: vec![artifact.content_sha256.clone()],
        function_definition_sha256: vec![(definition.function_id.clone(), definition.definition_sha256.clone())],
        transaction_binding_sha256: vec![(binding.binding_id.clone(), binding.binding_sha256.clone())],
        published_at_unix_ms: 1_700_000_000_000,
        published_by: "operator".into(),
        request_id: "request-1".into(),
        operation_id: "operation-1".into(),
        membership_sha256: sha256_hex(UNSIGNED),
    };
    FunctionCataloguePublication {
        expected_revision: 0,
        membership,
        artifacts: vec![artifact],
        definitions: vec![definition],
        bindings: vec![binding],
    }
}

#[test]
fn a_publication_becomes_the_current_catalogue() {
    let mut store = RrflowMxStore::new();
    let repository = FunctionCatalogueRepository::new();
    let published = publication(b"export default () => 1;");
    assert_eq!(repository.current(&store, "instance-a").unwrap(), None);
    assert_eq!(repository.revision(&store, "instance-a", 1).unwrap(), None);

    let snapshot = repository.publish(&mut store, "instance-a", &published, UNSIGNED).unwrap();
    assert_eq!(snapshot.head, published.head());
    assert_eq!(snapshot.membership, published.membership);
    assert_eq!(snapshot.artifacts, published.artifacts);
    assert_eq!(snapshot.definitions, published.definitions);
    assert_eq!(snapshot.bindings, published.bindings);

    assert_eq!(repository.current(&store, "instance-a").unwrap(), Some(snapshot.clone()));
    assert_eq!(repository.revision(&store, "instance-a", 1).unwrap(), Some(snapshot.clone()));
    assert_eq!(repository.revision(&store, "instance-a", 0).unwrap(), None);
    assert_eq!(repository.current(&store, "instance-b").unwrap(), None);

    let sequence = store.begin_transaction().snapshot_sequence();
    assert_eq!(repository.publish(&mut store, "instance-a", &published, UNSIGNED).unwrap(), snapshot);
    assert_eq!(store.begin_transaction().snapshot_sequence(), sequence);
}

#[test]
fn a_stale_or_forked_publication_is_refused() {
    let mut store = RrflowMxStore::new();
    let repository = FunctionCatalogueRepository::new();
    let first = publication(b"export default () => 1;");
    repository.publish(&mut store, "instance-a", &first, UNSIGNED).unwrap();

    let forked_unsigned: &[u8] = br#"{"membership":"forked"}"#;
    let mut other = publication(b"export default () => 2;");
    other.membership.membership_sha256 = sha256_hex(forked_unsigned);
    assert!(matches!(repository.publish(&mut store, "instance-a", &other, forked_unsigned), Err(Error::FunctionConstraint(_))));
    let mut ahead = publication(b"export default () => 2;");
    ahead.expected_revision = 5;
    ahead.membership.revision = 6;
    ahead.membership.predecessor_sha256 = Some("55".repeat(32));
    assert!(matches!(repository.publish(&mut store, "instance-b", &ahead, UNSIGNED), Err(Error::FunctionConstraint(_))));
    assert_eq!(repository.current(&store, "instance-a").unwrap().unwrap().membership, first.membership);
}

#[test]
fn an_immutable_identity_keeps_its_first_bytes() {
    let mut store = RrflowMxStore::new();
    let repository = FunctionCatalogueRepository::new();
    let first = publication(b"export default () => 1;");
    repository.publish(&mut store, "instance-a", &first, UNSIGNED).unwrap();

    let mut next = first.clone();
    next.expected_revision = 1;
    next.membership.revision = 2;
    next.membership.predecessor_sha256 = Some(first.membership.membership_sha256.clone());
    next.definitions[0].runtime_profile = "other-profile".into();
    let sequence = store.begin_transaction().snapshot_sequence();
    assert!(matches!(repository.publish(&mut store, "instance-a", &next, UNSIGNED), Err(Error::FunctionConstraint(_))));
    assert_eq!(store.begin_transaction().snapshot_sequence(), sequence);

    next.definitions[0].runtime_profile = first.definitions[0].runtime_profile.clone();
    let second = repository.publish(&mut store, "instance-a", &next, UNSIGNED).unwrap();
    assert_eq!(second.head.revision, 2);
    assert_eq!(repository.current(&store, "instance-a").unwrap(), Some(second));
    assert_eq!(repository.revision(&store, "instance-a", 1).unwrap().unwrap().membership, first.membership);
}

#[test]
fn republishing_the_active_head_returns_the_stored_catalogue() {
    let mut store = RrflowMxStore::new();
    let repository = FunctionCatalogueRepository::new();
    let first = publication(b"export default () => 1;");
    repository.publish(&mut store, "instance-a", &first, UNSIGNED).unwrap();
    let mut same_head = first.clone();
    same_head.membership.published_by = "someone-else".into();
    let snapshot = repository.publish(&mut store, "instance-a", &same_head, UNSIGNED).unwrap();
    assert_eq!(snapshot.membership, first.membership);
}

#[test]
fn invalid_publications_and_instances_are_refused() {
    let mut store = RrflowMxStore::new();
    let repository = FunctionCatalogueRepository::new();
    let valid = publication(b"code");
    assert!(matches!(repository.publish(&mut store, "", &valid, UNSIGNED), Err(Error::FunctionConstraint(_))));
    assert!(repository.publish(&mut store, "instance-a", &valid, b"other bytes").is_err());
    assert!(matches!(repository.current(&store, "bad instance"), Err(Error::FunctionConstraint(_))));
    assert_eq!(repository.current(&store, "instance-a").unwrap(), None);
}

#[test]
fn catalogue_records_round_trip_through_their_stored_forms() {
    let published = publication(b"code");
    let head: FunctionCatalogueHeadRecord = published.head();
    assert_eq!(decode_head(&encode_head(&head)).unwrap(), head);
    assert_eq!(decode_definition(&encode_definition(&published.definitions[0])).unwrap(), published.definitions[0]);
    assert_eq!(decode_binding(&encode_binding(&published.bindings[0])).unwrap(), published.bindings[0]);
    assert_eq!(decode_membership(&encode_membership(&published.membership)).unwrap(), published.membership);
    let mut with_predecessor = published.membership.clone();
    with_predecessor.predecessor_sha256 = Some("66".repeat(32));
    with_predecessor.artifact_sha256.push("77".repeat(32));
    assert_eq!(decode_membership(&encode_membership(&with_predecessor)).unwrap(), with_predecessor);
    assert!(matches!(decode_head(&encode_membership(&published.membership)), Err(Error::Codec(_))));
    assert!(matches!(decode_membership(&encode_head(&head)), Err(Error::Codec(_))));
    assert!(matches!(decode_definition(b"junk"), Err(Error::Codec(_))));
}
