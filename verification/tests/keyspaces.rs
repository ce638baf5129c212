use rrd_store::key_codec::{prefix_end, KeyAddress, KeyCodec, KeyFamily, KeyPart};
use rrd_store::keyspaces::{
    ACCESS, CLAIMS, FUNCTION_ARTIFACTS, FUNCTION_CATALOGUE_HEADS, FUNCTION_CATALOGUE_MEMBERSHIPS, FUNCTION_DEFINITIONS, INVOCATIONS, META, PROJECTIONS, RUNTIME_AUDIT, RUNTIME_CHANGES, RUNTIME_CLAIM_VERSIONS, RUNTIME_COMMITS, RUNTIME_EVENT_VERSIONS, RUNTIME_GEO, RUNTIME_GEO_VERSIONS, RUNTIME_INCOMING_EDGES, RUNTIME_INCOMING_EDGE_VERSIONS, RUNTIME_INDEX_BINDINGS, RUNTIME_INDEX_BINDING_SETS, RUNTIME_INDEX_BINDING_VERSIONS, RUNTIME_INDEX_SOURCE_DELTAS, RUNTIME_OBJECTS, RUNTIME_OBJECT_VERSIONS, RUNTIME_OUTBOX, RUNTIME_OUTGOING_EDGES, RUNTIME_OUTGOING_EDGE_VERSIONS, RUNTIME_PROJECTION_DELTAS, RUNTIME_RECORDS, RUNTIME_RECORD_VERSIONS, RUNTIME_RELATIONS, RUNTIME_RELATION_VERSIONS, RUNTIME_SCALAR_ENTRIES, RUNTIME_SCHEMAS, RUNTIME_SCHEMA_VERSIONS, RUNTIME_SERIES, RUNTIME_SERIES_VERSIONS, RUNTIME_SNAPSHOTS, RUNTIME_UNIQUE_ENTRIES, RUNTIME_VECTORS, RUNTIME_VECTOR_SOURCE_DELTAS, RUNTIME_VECTOR_VERSIONS, RuntimeRef, RuntimeValue, SEQUENCE_INDEX, Space, TRANSACTION_FUNCTION_BINDINGS, access_bound, access_key, claim_key, claim_seek_key, claim_version_prefix, parse_access_key, parse_claim_key, parse_sequence_key, runtime_adjacency_key, runtime_adjacency_version_key, runtime_claim_predicate_prefix, runtime_claim_version_key, runtime_index_entry_key, runtime_index_source_delta_key, runtime_index_value_prefix, runtime_kind_prefix, runtime_schema_version_key, runtime_scope_prefix, runtime_vector_source_delta_prefix, runtime_vector_version_key, runtime_version_key, sequence_key, space_prefix,
};

const DIRECT_VERSION_KEY_FIXTURE: &str = "schema f052524b56303030310000f11b31222170726f6a6563743aff76657273696f6e2dff6669787475726500fe34fffffffffffffffe\n\
claim f052524b56303030310000f11131052170726f6a6563743aff76657273696f6e2dff6669787475726500fe217374617475730000fd21646f63756d656e74ff3a616c7068610000fd34ffffffffffffff9b34ffffffffffffff3734fffffffffffffffd\n\
record f052524b56303030310000f11131032170726f6a6563743aff76657273696f6e2dff6669787475726500fe21646f63756d656e74ff0000000000000000f721616c706861000000fc34ffffffffffffff9b34fffffffffffffffc\n\
relation f052524b56303030310000f11131042170726f6a6563743aff76657273696f6e2dff6669787475726500fe21646f63756d656e74ff0000000000000000f721616c706861000000fc34ffffffffffffff9b34fffffffffffffffb\n\
event f052524b56303030310000f11f31022170726f6a6563743aff76657273696f6e2dff6669787475726500fe21646f63756d656e74ff0000000000000000f721616c706861000000fc34ffffffffffffff9b34fffffffffffffffa\n\
vector f052524b56303030310000f11931022170726f6a6563743aff76657273696f6e2dff6669787475726500fe21646f63756d656e74ff0000000000000000f721616c706861000000fc34ffffffffffffff9b34fffffffffffffff9\n\
series f052524b56303030310000f11131062170726f6a6563743aff76657273696f6e2dff6669787475726500fe21646f63756d656e74ff0000000000000000f721616c706861000000fc34ffffffffffffff9b34fffffffffffffff8\n\
geo f052524b56303030310000f11131072170726f6a6563743aff76657273696f6e2dff6669787475726500fe21646f63756d656e74ff0000000000000000f721616c706861000000fc34ffffffffffffff9b34fffffffffffffff7\n\
object f052524b56303030310000f11131082170726f6a6563743aff76657273696f6e2dff6669787475726500fe21646f63756d656e74ff0000000000000000f721616c706861000000fc34ffffffffffffff9b34fffffffffffffff6";

fn hex(bytes: &[u8]) -> String {
    const DIGITS: &[u8; 16] = b"0123456789abcdef";
    let mut encoded = String::with_capacity(bytes.len() * 2);
    for byte in bytes {
        encoded.push(DIGITS[usize::from(byte >> 4)] as char);
        encoded.push(DIGITS[usize::from(byte & 0x0f)] as char);
    }
    encoded
}

fn reference(kind: &str, id: &str) -> RuntimeRef {
    RuntimeRef {
        kind: kind.into(),
        id: id.into(),
    }
}

#[test]
fn spaces_have_frozen_unique_family_subspace_coordinates() {
    let spaces = [
        CLAIMS,
        SEQUENCE_INDEX,
        ACCESS,
        META,
        INVOCATIONS,
        FUNCTION_ARTIFACTS,
        FUNCTION_DEFINITIONS,
        TRANSACTION_FUNCTION_BINDINGS,
        FUNCTION_CATALOGUE_MEMBERSHIPS,
        FUNCTION_CATALOGUE_HEADS,
        PROJECTIONS,
        RUNTIME_CHANGES,
        RUNTIME_CLAIM_VERSIONS,
        RUNTIME_RECORDS,
        RUNTIME_RECORD_VERSIONS,
        RUNTIME_RELATIONS,
        RUNTIME_RELATION_VERSIONS,
        RUNTIME_EVENT_VERSIONS,
        RUNTIME_OUTGOING_EDGES,
        RUNTIME_OUTGOING_EDGE_VERSIONS,
        RUNTIME_INCOMING_EDGES,
        RUNTIME_INCOMING_EDGE_VERSIONS,
        RUNTIME_VECTORS,
        RUNTIME_VECTOR_VERSIONS,
        RUNTIME_SERIES,
        RUNTIME_SERIES_VERSIONS,
        RUNTIME_GEO,
        RUNTIME_GEO_VERSIONS,
        RUNTIME_OBJECTS,
        RUNTIME_OBJECT_VERSIONS,
        RUNTIME_PROJECTION_DELTAS,
        RUNTIME_INDEX_SOURCE_DELTAS,
        RUNTIME_VECTOR_SOURCE_DELTAS,
        RUNTIME_INDEX_BINDINGS,
        RUNTIME_INDEX_BINDING_VERSIONS,
        RUNTIME_INDEX_BINDING_SETS,
        RUNTIME_SCALAR_ENTRIES,
        RUNTIME_UNIQUE_ENTRIES,
        RUNTIME_OUTBOX,
        RUNTIME_AUDIT,
        RUNTIME_COMMITS,
        RUNTIME_SCHEMAS,
        RUNTIME_SCHEMA_VERSIONS,
        RUNTIME_SNAPSHOTS,
    ];
    let mut coordinates = spaces
        .map(|space| (space.family().tag(), space.subspace()))
        .to_vec();
    coordinates.sort_unstable();
    coordinates.dedup();
    assert_eq!(coordinates.len(), spaces.len());
}

#[test]
fn claim_keys_are_bitemporal_newest_first_and_isolated() {
    let codec = KeyCodec;
    let (subject, predicate) = ("wp3", "status");
    let original = claim_key(subject, predicate, 100, 100);
    let correction = claim_key(subject, predicate, 100, 200);
    let newer = claim_key(subject, predicate, 300, 300);
    assert!(newer < correction && correction < original);
    assert_eq!(
        parse_claim_key(codec, &correction).unwrap(),
        (subject.to_string(), predicate.to_string(), 100, 200)
    );

    let prefix = claim_version_prefix(subject, predicate);
    let end = prefix_end(&prefix).unwrap();
    assert!(correction >= prefix && correction < end);
    for (other_subject, other_predicate) in
        [("wp3x", "status"), ("wp3", "statusx"), ("wp", "status")]
    {
        let neighbour = claim_key(other_subject, other_predicate, 100, 100);
        assert!(neighbour < prefix || neighbour >= end);
    }
}

#[test]
fn seek_ordering_matches_as_of_semantics() {
    let (subject, predicate) = ("wp3", "status");
    let v1 = claim_key(subject, predicate, 100, 100);
    let v2 = claim_key(subject, predicate, 200, 200);
    let seek = claim_seek_key(subject, predicate, 150);
    assert!(v2 < seek);
    assert!(seek <= v1);
}

#[test]
fn access_and_sequence_keys_round_trip_in_order() {
    let codec = KeyCodec;
    let reader = "agent:clyffy/worker";
    let (subject, predicate) = ("a/b", "c");
    let access = access_key(500, reader, subject, predicate);
    assert_eq!(
        parse_access_key(codec, &access).unwrap(),
        (
            500,
            reader.to_string(),
            subject.to_string(),
            predicate.to_string()
        )
    );
    assert!(access_key(9, "r", "s", "p") < access_bound(10));
    assert!(sequence_key(9) < sequence_key(10));
    assert_eq!(parse_sequence_key(codec, &sequence_key(42)).unwrap(), 42);
}

#[test]
fn malformed_semantic_shapes_are_rejected() {
    let codec = KeyCodec;
    assert!(parse_claim_key(codec, &space_prefix(CLAIMS)).is_err());
    assert!(parse_access_key(codec, &sequence_key(1)).is_err());
    let malformed = KeyCodec.encode(
        KeyAddress::global(),
        KeyFamily::Temporal,
        &[KeyPart::U8(Space::Claims.subspace()), KeyPart::U64(1)],
    );
    assert!(parse_claim_key(codec, &malformed).is_err());
}

#[test]
fn temporal_and_adjacency_shapes_preserve_direction_and_newest_first_order() {
    let scope = "project:graph-order";
    let relation = reference("imports", "a-b");
    let from = reference("file", "src/a.rs");
    let to = reference("file", "src/b.rs");
    let outgoing = runtime_adjacency_key(RUNTIME_OUTGOING_EDGES, scope, &relation, &from, &to);
    let incoming = runtime_adjacency_key(RUNTIME_INCOMING_EDGES, scope, &relation, &from, &to);
    assert_ne!(outgoing, incoming);
    let outgoing_history = space_prefix(RUNTIME_OUTGOING_EDGE_VERSIONS);
    let incoming_history = space_prefix(RUNTIME_INCOMING_EDGE_VERSIONS);
    assert_ne!(space_prefix(RUNTIME_OUTGOING_EDGES), outgoing_history);
    assert_ne!(space_prefix(RUNTIME_INCOMING_EDGES), incoming_history);
    assert!(
        runtime_adjacency_version_key(
            RUNTIME_OUTGOING_EDGE_VERSIONS,
            scope,
            &relation,
            &from,
            &to,
            200,
            9,
        ) < runtime_adjacency_version_key(
            RUNTIME_OUTGOING_EDGE_VERSIONS,
            scope,
            &relation,
            &from,
            &to,
            100,
            8,
        )
    );
    assert!(
        runtime_version_key(RUNTIME_RELATION_VERSIONS, scope, "imports", "a-b", 200, 9)
            < runtime_version_key(RUNTIME_RELATION_VERSIONS, scope, "imports", "a-b", 100, 8)
    );
}

#[test]
fn every_direct_version_family_is_scope_bound_and_newest_first() {
    let scope = "project:direct-version-keys";
    let other = "project:direct-version-keys-other";
    for space in [
        RUNTIME_RECORD_VERSIONS,
        RUNTIME_RELATION_VERSIONS,
        RUNTIME_EVENT_VERSIONS,
        RUNTIME_SERIES_VERSIONS,
        RUNTIME_GEO_VERSIONS,
        RUNTIME_OBJECT_VERSIONS,
    ] {
        let newer = runtime_version_key(space, scope, "document", "alpha", 200, 9);
        let older = runtime_version_key(space, scope, "document", "alpha", 100, 8);
        assert!(newer < older);
        assert!(newer.starts_with(&runtime_kind_prefix(space, scope, "document")));
        assert!(!newer.starts_with(&runtime_scope_prefix(space, other)));
    }

    let claim_key = runtime_claim_version_key(scope, "status", "document:alpha", 100, 200, 9);
    assert!(claim_key.starts_with(&runtime_claim_predicate_prefix(scope, "status")));
    assert!(!claim_key.starts_with(&runtime_scope_prefix(RUNTIME_CLAIM_VERSIONS, other)));
    assert!(runtime_schema_version_key(scope, 9) < runtime_schema_version_key(scope, 8));
    assert!(runtime_schema_version_key(scope, 9)
        .starts_with(&runtime_scope_prefix(RUNTIME_SCHEMA_VERSIONS, scope)));
}

#[test]
fn direct_version_key_shapes_match_the_frozen_fixture() {
    let scope = "project:version-fixture";
    let entries = [
        ("schema", runtime_schema_version_key(scope, 1)),
        (
            "claim",
            runtime_claim_version_key(scope, "status", "document:alpha", 100, 200, 2),
        ),
        (
            "record",
            runtime_version_key(RUNTIME_RECORD_VERSIONS, scope, "document", "alpha", 100, 3),
        ),
        (
            "relation",
            runtime_version_key(RUNTIME_RELATION_VERSIONS, scope, "document", "alpha", 100, 4),
        ),
        (
            "event",
            runtime_version_key(RUNTIME_EVENT_VERSIONS, scope, "document", "alpha", 100, 5),
        ),
        (
            "vector",
            runtime_vector_version_key(scope, "document", "alpha", 100, 6),
        ),
        (
            "series",
            runtime_version_key(RUNTIME_SERIES_VERSIONS, scope, "document", "alpha", 100, 7),
        ),
        (
            "geo",
            runtime_version_key(RUNTIME_GEO_VERSIONS, scope, "document", "alpha", 100, 8),
        ),
        (
            "object",
            runtime_version_key(RUNTIME_OBJECT_VERSIONS, scope, "document", "alpha", 100, 9),
        ),
    ];
    let actual = entries
        .into_iter()
        .map(|(label, key)| format!("{label} {}", hex(&key)))
        .collect::<Vec<_>>()
        .join("\n");
    assert_eq!(actual, DIRECT_VERSION_KEY_FIXTURE.trim_end());
}

#[test]
fn native_index_and_vector_delta_keys_are_typed_ordered_and_source_isolated() {
    let scope = "project:index-key-order";
    let index = "by-score";
    let alpha = reference("document", "alpha");
    let negative = vec![RuntimeValue::Integer(-7)];
    let positive = vec![RuntimeValue::Integer(9)];
    let negative_key =
        runtime_index_entry_key(RUNTIME_SCALAR_ENTRIES, scope, index, &negative, &alpha, 10)
            .unwrap();
    let positive_key =
        runtime_index_entry_key(RUNTIME_SCALAR_ENTRIES, scope, index, &positive, &alpha, 10)
            .unwrap();
    assert!(negative_key < positive_key);

    let unique_prefix =
        runtime_index_value_prefix(RUNTIME_UNIQUE_ENTRIES, scope, index, &positive).unwrap();
    let unique_key =
        runtime_index_entry_key(RUNTIME_UNIQUE_ENTRIES, scope, index, &positive, &alpha, 10)
            .unwrap();
    assert!(unique_key.starts_with(&unique_prefix));
    assert!(
        runtime_index_source_delta_key(scope, index, 9, 0)
            < runtime_index_source_delta_key(scope, index, 10, 0)
    );
    assert!(
        runtime_vector_version_key(scope, "document", "alpha", 20, 9)
            < runtime_vector_version_key(scope, "document", "alpha", 10, 8)
    );
    assert_ne!(
        runtime_vector_source_delta_prefix(scope, Some("documents"), Some("semantic"), "title"),
        runtime_vector_source_delta_prefix(scope, Some("archive"), Some("semantic"), "title")
    );
}
