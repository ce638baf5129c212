use rrd_store::keyspaces::{
    runtime_adjacency_key, runtime_adjacency_version_key, runtime_claim_version_key, runtime_identity_key,
    runtime_schema_version_key, runtime_vector_version_key, runtime_version_key, RuntimeRef, Space,
};
use rrd_store::version_key::{
    domain_effect, expected_version_key, retirement_matches, version_space, EffectValue, RelationEnds, RetiredModel,
    RuntimeVersionedSource, VersionedChange, VersionedMutation,
};
use rrd_store::versioned_read::RuntimeReadAccessPath;
use rrd_store::Error;

fn change(mutation: VersionedMutation) -> VersionedChange {
    VersionedChange { scope: "project:alpha".into(), cursor: 7, at: 900, mutation }
}

#[test]
fn each_mutation_keys_its_own_family() {
    assert_eq!(
        expected_version_key(&RuntimeVersionedSource::Schema, &change(VersionedMutation::Schema)).unwrap(),
        runtime_schema_version_key("project:alpha", 7)
    );
    let claim = change(VersionedMutation::Claim { predicate: "owns".into(), subject: "s1".into(), valid_from: 3, tx_time: 4 });
    assert_eq!(
        expected_version_key(&RuntimeVersionedSource::Claims { predicate: None }, &claim).unwrap(),
        runtime_claim_version_key("project:alpha", "owns", "s1", 3, 4, 7)
    );
    let record = change(VersionedMutation::Record { kind: "task".into(), id: "t1".into(), valid_from: 5 });
    assert_eq!(
        expected_version_key(&RuntimeVersionedSource::Records { kind: Some("task".into()) }, &record).unwrap(),
        runtime_version_key(Space::RuntimeRecordVersions, "project:alpha", "task", "t1", 5, 7)
    );
    let event = change(VersionedMutation::Event { kind: "ping".into() });
    assert_eq!(
        expected_version_key(&RuntimeVersionedSource::Events { kind: None }, &event).unwrap(),
        runtime_version_key(Space::RuntimeEventVersions, "project:alpha", "ping", "cursor:7", 900, 7)
    );
    let object = change(VersionedMutation::Object { kind: "blob".into(), id: "b1".into() });
    assert_eq!(
        expected_version_key(&RuntimeVersionedSource::Objects { kind: None }, &object).unwrap(),
        runtime_version_key(Space::RuntimeObjectVersions, "project:alpha", "blob", "b1", 900, 7)
    );
}

#[test]
fn a_mutation_outside_the_selected_family_has_no_key() {
    let record = change(VersionedMutation::Record { kind: "task".into(), id: "t1".into(), valid_from: 5 });
    assert!(matches!(
        expected_version_key(&RuntimeVersionedSource::Records { kind: Some("note".into()) }, &record),
        Err(Error::Codec(_))
    ));
    assert!(matches!(expected_version_key(&RuntimeVersionedSource::Schema, &record), Err(Error::Codec(_))));
    let claim = change(VersionedMutation::Claim { predicate: "owns".into(), subject: "s1".into(), valid_from: 3, tx_time: 4 });
    assert!(matches!(
        expected_version_key(&RuntimeVersionedSource::Claims { predicate: Some("likes".into()) }, &claim),
        Err(Error::Codec(_))
    ));
    assert!(matches!(
        expected_version_key(&RuntimeVersionedSource::Schema, &change(VersionedMutation::Unversioned)),
        Err(Error::Codec(_))
    ));
}

#[test]
fn retirements_key_by_their_effective_time() {
    let retire = change(VersionedMutation::Retire { model: RetiredModel::Vector, kind: "emb".into(), id: "v1".into(), effective_at: 11 });
    assert_eq!(
        expected_version_key(&RuntimeVersionedSource::Vectors { kind: None }, &retire).unwrap(),
        runtime_vector_version_key("project:alpha", "emb", "v1", 11, 7)
    );
    assert!(matches!(expected_version_key(&RuntimeVersionedSource::Records { kind: None }, &retire), Err(Error::Codec(_))));
    assert!(retirement_matches(&RuntimeVersionedSource::Geo { kind: None }, RetiredModel::Geo, &"g".to_string()));
    assert!(!retirement_matches(&RuntimeVersionedSource::Claims { predicate: None }, RetiredModel::Record, &"g".to_string()));
    assert!(matches!(version_space(&RuntimeVersionedSource::Schema), Err(Error::Codec(_))));
    assert_eq!(version_space(&RuntimeVersionedSource::Series { kind: None }).unwrap(), Space::RuntimeSeriesVersions);
    assert_eq!(RuntimeVersionedSource::Events { kind: None }.path(), RuntimeReadAccessPath::EventVersions);
}

fn rref(kind: &str, id: &str) -> RuntimeRef {
    RuntimeRef { kind: kind.into(), id: id.into() }
}

#[test]
fn each_mutation_writes_its_payload_and_its_version() {
    let record = change(VersionedMutation::Record { kind: "task".into(), id: "t1".into(), valid_from: 5 });
    let effect = domain_effect(&record, None);
    assert_eq!(effect.puts.len(), 2);
    assert_eq!(effect.puts[0].space, Space::RuntimeRecords);
    assert_eq!(effect.puts[0].key, runtime_identity_key(Space::RuntimeRecords, "project:alpha", "task", "t1"));
    assert_eq!(effect.puts[0].value, EffectValue::Payload);
    assert_eq!(effect.puts[1].key, runtime_version_key(Space::RuntimeRecordVersions, "project:alpha", "task", "t1", 5, 7));
    assert_eq!(effect.puts[1].value, EffectValue::Change);
    assert!(effect.deletes.is_empty());

    let (from, to) = (rref("file", "a"), rref("file", "b"));
    let relation = change(VersionedMutation::Relation { kind: "owns".into(), id: "r1".into(), valid_from: 2, from: from.clone(), to: to.clone() });
    let fresh = domain_effect(&relation, None);
    assert!(fresh.deletes.is_empty());
    assert_eq!(fresh.puts.len(), 6);
    let reference = rref("owns", "r1");
    assert_eq!(fresh.puts[2].key, runtime_adjacency_key(Space::RuntimeOutgoingEdges, "project:alpha", &reference, &from, &to));
    assert_eq!(fresh.puts[5].key, runtime_adjacency_version_key(Space::RuntimeIncomingEdgeVersions, "project:alpha", &reference, &from, &to, 2, 7));
    let old_ends = RelationEnds { from: rref("file", "a"), to: rref("file", "c") };
    let replaced = domain_effect(&relation, Some(&old_ends));
    assert_eq!(replaced.deletes.len(), 2);
    assert_eq!(replaced.deletes[0].key, runtime_adjacency_key(Space::RuntimeOutgoingEdges, "project:alpha", &reference, &old_ends.from, &old_ends.to));

    let vector = change(VersionedMutation::Vector { kind: "emb".into(), id: "v1".into(), valid_from: 1 });
    let effect = domain_effect(&vector, None);
    assert_eq!(effect.puts[0].value, EffectValue::VectorHead);
    assert_eq!(effect.puts[1].key, runtime_vector_version_key("project:alpha", "emb", "v1", 1, 7));
}

#[test]
fn a_retirement_versions_and_deletes_the_current_value() {
    let retire = change(VersionedMutation::Retire { model: RetiredModel::Record, kind: "task".into(), id: "t1".into(), effective_at: 9 });
    let effect = domain_effect(&retire, None);
    assert_eq!(effect.puts.len(), 1);
    assert_eq!(effect.puts[0].key, runtime_version_key(Space::RuntimeRecordVersions, "project:alpha", "task", "t1", 9, 7));
    assert_eq!(effect.deletes.len(), 1);
    assert_eq!(effect.deletes[0].key, runtime_identity_key(Space::RuntimeRecords, "project:alpha", "task", "t1"));

    let gone = change(VersionedMutation::Retire { model: RetiredModel::GraphRelation, kind: "owns".into(), id: "r1".into(), effective_at: 9 });
    let absent = domain_effect(&gone, None);
    assert!(absent.puts.is_empty() && absent.deletes.len() == 1);
    let ends = RelationEnds { from: rref("file", "a"), to: rref("file", "b") };
    let present = domain_effect(&gone, Some(&ends));
    assert_eq!(present.puts.len(), 3);
    assert_eq!(present.deletes.len(), 3);
    assert_eq!(present.puts[1].key, runtime_adjacency_version_key(Space::RuntimeOutgoingEdgeVersions, "project:alpha", &rref("owns", "r1"), &ends.from, &ends.to, 9, 7));

    let event = change(VersionedMutation::Retire { model: RetiredModel::Event, kind: "ping".into(), id: "e".into(), effective_at: 9 });
    assert!(domain_effect(&event, None).deletes.is_empty());
    let vector = change(VersionedMutation::Retire { model: RetiredModel::Vector, kind: "emb".into(), id: "v".into(), effective_at: 9 });
    let v = domain_effect(&vector, None);
    assert_eq!(v.deletes[0].key, runtime_identity_key(Space::RuntimeVectors, "project:alpha", "emb", "v"));
    assert_eq!(v.puts[0].key, runtime_vector_version_key("project:alpha", "emb", "v", 9, 7));
}
