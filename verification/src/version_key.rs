//! The typed physical key of each semantic version.
//!
//! A direct read selects one family of semantic versions (its source, with
//! an optional predicate or kind). Each committed change stores its version
//! under exactly one key, chosen by the change's mutation; a change whose
//! mutation lies outside the selected family has no key there.

use crate::bytes::decimal_string;
use crate::bytes::decimal_text;
use crate::error::{join, text, Error, Result};
use crate::keyspaces::{
    adjacency_parts, runtime_adjacency_key, runtime_adjacency_version_key, runtime_claim_version_key, runtime_identity_key,
    runtime_schema_key, runtime_schema_version_key, runtime_vector_version_key, runtime_version_key, spec_space_key, RuntimeRef, Space,
};
use crate::key_codec::KeyPartValue;
use crate::versioned_read::RuntimeReadAccessPath;
use vstd::prelude::*;

verus! {

/// One family of semantic versions a direct read selects.
#[derive(Debug, Clone, PartialEq, Eq)]
pub enum RuntimeVersionedSource {
    Schema,
    Claims { predicate: Option<String> },
    Records { kind: Option<String> },
    Relations { kind: Option<String> },
    Events { kind: Option<String> },
    Vectors { kind: Option<String> },
    Series { kind: Option<String> },
    Geo { kind: Option<String> },
    Objects { kind: Option<String> },
}

/// The logical model a retirement names, by the family it belongs to.
#[derive(Debug, Clone, Copy, PartialEq, Eq, Structural)]
pub enum RetiredModel {
    /// A record-like model.
    Record,
    GraphRelation,
    /// An event-like model.
    Event,
    Vector,
    TimeSeries,
    Geo,
    Object,
    /// A model of no versioned family.
    Other,
}

/// What a committed mutation carries that its version key is built from.
#[derive(Debug, Clone, PartialEq, Eq)]
pub enum VersionedMutation {
    Schema,
    Claim { predicate: String, subject: String, valid_from: u64, tx_time: u64 },
    Record { kind: String, id: String, valid_from: u64 },
    Relation { kind: String, id: String, valid_from: u64, from: RuntimeRef, to: RuntimeRef },
    Event { kind: String },
    Vector { kind: String, id: String, valid_from: u64 },
    SeriesSample { kind: String, id: String, observed_at: u64 },
    Geo { kind: String, id: String, valid_from: u64 },
    Object { kind: String, id: String },
    Retire { model: RetiredModel, kind: String, id: String, effective_at: u64 },
    /// A mutation that stores no semantic version.
    Unversioned,
}

/// One committed change: its scope, log cursor, commit time and mutation.
#[derive(Debug, Clone, PartialEq, Eq)]
pub struct VersionedChange {
    pub scope: String,
    pub cursor: u64,
    pub at: u64,
    pub mutation: VersionedMutation,
}

/// An optional filter admits `value` when absent or equal to it.
pub open spec fn admits(filter: Option<String>, value: Seq<char>) -> bool {
    match filter {
        None => true,
        Some(f) => f@ == value,
    }
}

/// The kind filter of a source that selects by kind; none for schema and claims.
pub open spec fn kind_filter(source: RuntimeVersionedSource) -> Option<Option<String>> {
    match source {
        RuntimeVersionedSource::Records { kind } => Some(kind),
        RuntimeVersionedSource::Relations { kind } => Some(kind),
        RuntimeVersionedSource::Events { kind } => Some(kind),
        RuntimeVersionedSource::Vectors { kind } => Some(kind),
        RuntimeVersionedSource::Series { kind } => Some(kind),
        RuntimeVersionedSource::Geo { kind } => Some(kind),
        RuntimeVersionedSource::Objects { kind } => Some(kind),
        _ => None,
    }
}

/// Whether a source's family holds the versions of `model`.
pub open spec fn family_holds(source: RuntimeVersionedSource, model: RetiredModel) -> bool {
    match source {
        RuntimeVersionedSource::Records { .. } => model == RetiredModel::Record,
        RuntimeVersionedSource::Relations { .. } => model == RetiredModel::GraphRelation,
        RuntimeVersionedSource::Events { .. } => model == RetiredModel::Event,
        RuntimeVersionedSource::Vectors { .. } => model == RetiredModel::Vector,
        RuntimeVersionedSource::Series { .. } => model == RetiredModel::TimeSeries,
        RuntimeVersionedSource::Geo { .. } => model == RetiredModel::Geo,
        RuntimeVersionedSource::Objects { .. } => model == RetiredModel::Object,
        _ => false,
    }
}

/// A retirement of `model` and `kind` belongs to the source's family.
pub open spec fn spec_retirement_matches(source: RuntimeVersionedSource, model: RetiredModel, kind: Seq<char>) -> bool {
    match kind_filter(source) {
        Some(filter) => admits(filter, kind) && family_holds(source, model),
        None => false,
    }
}

/// The version space of a source's family; none for schema and claims.
pub open spec fn spec_version_space(source: RuntimeVersionedSource) -> Option<Space> {
    match source {
        RuntimeVersionedSource::Records { .. } => Some(Space::RuntimeRecordVersions),
        RuntimeVersionedSource::Relations { .. } => Some(Space::RuntimeRelationVersions),
        RuntimeVersionedSource::Events { .. } => Some(Space::RuntimeEventVersions),
        RuntimeVersionedSource::Vectors { .. } => Some(Space::RuntimeVectorVersions),
        RuntimeVersionedSource::Series { .. } => Some(Space::RuntimeSeriesVersions),
        RuntimeVersionedSource::Geo { .. } => Some(Space::RuntimeGeoVersions),
        RuntimeVersionedSource::Objects { .. } => Some(Space::RuntimeObjectVersions),
        _ => None,
    }
}

/// The key of one version of identity `kind`/`id` in `space`, newest first.
pub open spec fn identity_version_key(space: Space, scope: Seq<char>, kind: Seq<char>, id: Seq<char>, effective_at: u64, cursor: u64) -> Seq<u8> {
    spec_space_key(space, seq![KeyPartValue::Text(scope), KeyPartValue::Text(kind), KeyPartValue::Text(id),
        KeyPartValue::DescU64(effective_at), KeyPartValue::DescU64(cursor)])
}

/// The identity an event takes at `cursor`.
pub open spec fn event_id(cursor: u64) -> Seq<char> {
    "cursor:"@ + decimal_text(cursor as nat)
}

/// The key under which `change` stores its version in the family `source`
/// selects; none where its mutation lies outside that family.
pub open spec fn spec_expected_version_key(source: RuntimeVersionedSource, change: VersionedChange) -> Option<Seq<u8>> {
    let scope = change.scope@;
    let cursor = change.cursor;
    match change.mutation {
        VersionedMutation::Schema => match source {
            RuntimeVersionedSource::Schema => Some(spec_space_key(Space::RuntimeSchemaVersions,
                seq![KeyPartValue::Text(scope), KeyPartValue::DescU64(cursor)])),
            _ => None,
        },
        VersionedMutation::Claim { predicate, subject, valid_from, tx_time } => match source {
            RuntimeVersionedSource::Claims { predicate: filter } => if admits(filter, predicate@) {
                Some(spec_space_key(Space::RuntimeClaimVersions, seq![KeyPartValue::Text(scope), KeyPartValue::Text(predicate@),
                    KeyPartValue::Text(subject@), KeyPartValue::DescU64(valid_from), KeyPartValue::DescU64(tx_time), KeyPartValue::DescU64(cursor)]))
            } else {
                None
            },
            _ => None,
        },
        VersionedMutation::Record { kind, id, valid_from } => match source {
            RuntimeVersionedSource::Records { kind: filter } => if admits(filter, kind@) {
                Some(identity_version_key(Space::RuntimeRecordVersions, scope, kind@, id@, valid_from, cursor))
            } else {
                None
            },
            _ => None,
        },
        VersionedMutation::Relation { kind, id, valid_from, .. } => match source {
            RuntimeVersionedSource::Relations { kind: filter } => if admits(filter, kind@) {
                Some(identity_version_key(Space::RuntimeRelationVersions, scope, kind@, id@, valid_from, cursor))
            } else {
                None
            },
            _ => None,
        },
        VersionedMutation::Event { kind } => match source {
            RuntimeVersionedSource::Events { kind: filter } => if admits(filter, kind@) {
                Some(identity_version_key(Space::RuntimeEventVersions, scope, kind@, event_id(cursor), change.at, cursor))
            } else {
                None
            },
            _ => None,
        },
        VersionedMutation::Vector { kind, id, valid_from } => match source {
            RuntimeVersionedSource::Vectors { kind: filter } => if admits(filter, kind@) {
                Some(identity_version_key(Space::RuntimeVectorVersions, scope, kind@, id@, valid_from, cursor))
            } else {
                None
            },
            _ => None,
        },
        VersionedMutation::SeriesSample { kind, id, observed_at } => match source {
            RuntimeVersionedSource::Series { kind: filter } => if admits(filter, kind@) {
                Some(identity_version_key(Space::RuntimeSeriesVersions, scope, kind@, id@, observed_at, cursor))
            } else {
                None
            },
            _ => None,
        },
        VersionedMutation::Geo { kind, id, valid_from } => match source {
            RuntimeVersionedSource::Geo { kind: filter } => if admits(filter, kind@) {
                Some(identity_version_key(Space::RuntimeGeoVersions, scope, kind@, id@, valid_from, cursor))
            } else {
                None
            },
            _ => None,
        },
        VersionedMutation::Object { kind, id } => match source {
            RuntimeVersionedSource::Objects { kind: filter } => if admits(filter, kind@) {
                Some(identity_version_key(Space::RuntimeObjectVersions, scope, kind@, id@, change.at, cursor))
            } else {
                None
            },
            _ => None,
        },
        VersionedMutation::Retire { model, kind, id, effective_at } => if spec_retirement_matches(source, model, kind@) {
            Some(identity_version_key(spec_version_space(source).unwrap(), scope, kind@, id@, effective_at, cursor))
        } else {
            None
        },
        VersionedMutation::Unversioned => None,
    }
}

/// Whether the optional filter admits `value`.
pub fn filter_admits(filter: &Option<String>, value: &String) -> (b: bool)
    ensures
        b == admits(*filter, value@),
{
    match filter {
        None => true,
        Some(f) => f.eq(value),
    }
}

impl RuntimeVersionedSource {
    /// The closed access path that reads of this family are charged to.
    pub fn path(&self) -> (p: RuntimeReadAccessPath)
        ensures
            p == match *self {
                RuntimeVersionedSource::Schema => RuntimeReadAccessPath::SchemaVersions,
                RuntimeVersionedSource::Claims { .. } => RuntimeReadAccessPath::ClaimVersions,
                RuntimeVersionedSource::Records { .. } => RuntimeReadAccessPath::RecordVersions,
                RuntimeVersionedSource::Relations { .. } => RuntimeReadAccessPath::RelationVersions,
                RuntimeVersionedSource::Events { .. } => RuntimeReadAccessPath::EventVersions,
                RuntimeVersionedSource::Vectors { .. } => RuntimeReadAccessPath::VectorVersions,
                RuntimeVersionedSource::Series { .. } => RuntimeReadAccessPath::SeriesVersions,
                RuntimeVersionedSource::Geo { .. } => RuntimeReadAccessPath::GeoVersions,
                RuntimeVersionedSource::Objects { .. } => RuntimeReadAccessPath::ObjectVersions,
            },
    {
        match self {
            RuntimeVersionedSource::Schema => RuntimeReadAccessPath::SchemaVersions,
            RuntimeVersionedSource::Claims { .. } => RuntimeReadAccessPath::ClaimVersions,
            RuntimeVersionedSource::Records { .. } => RuntimeReadAccessPath::RecordVersions,
            RuntimeVersionedSource::Relations { .. } => RuntimeReadAccessPath::RelationVersions,
            RuntimeVersionedSource::Events { .. } => RuntimeReadAccessPath::EventVersions,
            RuntimeVersionedSource::Vectors { .. } => RuntimeReadAccessPath::VectorVersions,
            RuntimeVersionedSource::Series { .. } => RuntimeReadAccessPath::SeriesVersions,
            RuntimeVersionedSource::Geo { .. } => RuntimeReadAccessPath::GeoVersions,
            RuntimeVersionedSource::Objects { .. } => RuntimeReadAccessPath::ObjectVersions,
        }
    }
}

/// Whether a retirement of `model` and `kind` belongs to the source's family.
pub fn retirement_matches(source: &RuntimeVersionedSource, model: RetiredModel, kind: &String) -> (b: bool)
    ensures
        b == spec_retirement_matches(*source, model, kind@),
{
    match source {
        RuntimeVersionedSource::Records { kind: filter } => filter_admits(filter, kind) && model == RetiredModel::Record,
        RuntimeVersionedSource::Relations { kind: filter } => filter_admits(filter, kind) && model == RetiredModel::GraphRelation,
        RuntimeVersionedSource::Events { kind: filter } => filter_admits(filter, kind) && model == RetiredModel::Event,
        RuntimeVersionedSource::Vectors { kind: filter } => filter_admits(filter, kind) && model == RetiredModel::Vector,
        RuntimeVersionedSource::Series { kind: filter } => filter_admits(filter, kind) && model == RetiredModel::TimeSeries,
        RuntimeVersionedSource::Geo { kind: filter } => filter_admits(filter, kind) && model == RetiredModel::Geo,
        RuntimeVersionedSource::Objects { kind: filter } => filter_admits(filter, kind) && model == RetiredModel::Object,
        RuntimeVersionedSource::Schema | RuntimeVersionedSource::Claims { .. } => false,
    }
}

/// The version space of a source's family; schema and claim versions carry
/// no typed retirement.
pub fn version_space(source: &RuntimeVersionedSource) -> (r: Result<Space>)
    ensures
        match spec_version_space(*source) {
            Some(space) => r == Ok::<Space, Error>(space),
            None => r matches Err(Error::Codec(m)) && m@ == "schema and claim values cannot carry typed retirements"@,
        },
{
    match source {
        RuntimeVersionedSource::Schema | RuntimeVersionedSource::Claims { .. } => Err(
            Error::Codec(text("schema and claim values cannot carry typed retirements")),
        ),
        RuntimeVersionedSource::Records { .. } => Ok(Space::RuntimeRecordVersions),
        RuntimeVersionedSource::Relations { .. } => Ok(Space::RuntimeRelationVersions),
        RuntimeVersionedSource::Events { .. } => Ok(Space::RuntimeEventVersions),
        RuntimeVersionedSource::Vectors { .. } => Ok(Space::RuntimeVectorVersions),
        RuntimeVersionedSource::Series { .. } => Ok(Space::RuntimeSeriesVersions),
        RuntimeVersionedSource::Geo { .. } => Ok(Space::RuntimeGeoVersions),
        RuntimeVersionedSource::Objects { .. } => Ok(Space::RuntimeObjectVersions),
    }
}

/// The error of a change whose mutation escaped the selected family.
fn escaped() -> (e: Error)
    ensures
        e is Codec,
{
    Error::Codec(text("runtime semantic version escaped its selected family"))
}

/// The key under which `change` stores its version in the family `source`
/// selects, or a codec error where its mutation lies outside that family.
pub fn expected_version_key(source: &RuntimeVersionedSource, change: &VersionedChange) -> (r: Result<Vec<u8>>)
    ensures
        match spec_expected_version_key(*source, *change) {
            Some(key) => r matches Ok(k) && k@ == key,
            None => r matches Err(Error::Codec(_)),
        },
{
    let scope = change.scope.as_str();
    let cursor = change.cursor;
    match &change.mutation {
        VersionedMutation::Schema => match source {
            RuntimeVersionedSource::Schema => Ok(runtime_schema_version_key(scope, cursor)),
            _ => Err(escaped()),
        },
        VersionedMutation::Claim { predicate, subject, valid_from, tx_time } => match source {
            RuntimeVersionedSource::Claims { predicate: filter } => if filter_admits(filter, predicate) {
                Ok(runtime_claim_version_key(scope, predicate.as_str(), subject.as_str(), *valid_from, *tx_time, cursor))
            } else {
                Err(escaped())
            },
            _ => Err(escaped()),
        },
        VersionedMutation::Record { kind, id, valid_from } => match source {
            RuntimeVersionedSource::Records { kind: filter } => if filter_admits(filter, kind) {
                Ok(runtime_version_key(Space::RuntimeRecordVersions, scope, kind.as_str(), id.as_str(), *valid_from, cursor))
            } else {
                Err(escaped())
            },
            _ => Err(escaped()),
        },
        VersionedMutation::Relation { kind, id, valid_from, .. } => match source {
            RuntimeVersionedSource::Relations { kind: filter } => if filter_admits(filter, kind) {
                Ok(runtime_version_key(Space::RuntimeRelationVersions, scope, kind.as_str(), id.as_str(), *valid_from, cursor))
            } else {
                Err(escaped())
            },
            _ => Err(escaped()),
        },
        VersionedMutation::Event { kind } => match source {
            RuntimeVersionedSource::Events { kind: filter } => if filter_admits(filter, kind) {
                let digits = decimal_string(cursor);
                let id = join("cursor:", digits.as_str());
                Ok(runtime_version_key(Space::RuntimeEventVersions, scope, kind.as_str(), id.as_str(), change.at, cursor))
            } else {
                Err(escaped())
            },
            _ => Err(escaped()),
        },
        VersionedMutation::Vector { kind, id, valid_from } => match source {
            RuntimeVersionedSource::Vectors { kind: filter } => if filter_admits(filter, kind) {
                Ok(runtime_vector_version_key(scope, kind.as_str(), id.as_str(), *valid_from, cursor))
            } else {
                Err(escaped())
            },
            _ => Err(escaped()),
        },
        VersionedMutation::SeriesSample { kind, id, observed_at } => match source {
            RuntimeVersionedSource::Series { kind: filter } => if filter_admits(filter, kind) {
                Ok(runtime_version_key(Space::RuntimeSeriesVersions, scope, kind.as_str(), id.as_str(), *observed_at, cursor))
            } else {
                Err(escaped())
            },
            _ => Err(escaped()),
        },
        VersionedMutation::Geo { kind, id, valid_from } => match source {
            RuntimeVersionedSource::Geo { kind: filter } => if filter_admits(filter, kind) {
                Ok(runtime_version_key(Space::RuntimeGeoVersions, scope, kind.as_str(), id.as_str(), *valid_from, cursor))
            } else {
                Err(escaped())
            },
            _ => Err(escaped()),
        },
        VersionedMutation::Object { kind, id } => match source {
            RuntimeVersionedSource::Objects { kind: filter } => if filter_admits(filter, kind) {
                Ok(runtime_version_key(Space::RuntimeObjectVersions, scope, kind.as_str(), id.as_str(), change.at, cursor))
            } else {
                Err(escaped())
            },
            _ => Err(escaped()),
        },
        VersionedMutation::Retire { model, kind, id, effective_at } => {
            if !retirement_matches(source, *model, kind) {
                return Err(escaped());
            }
            let space = match version_space(source) {
                Ok(space) => space,
                Err(e) => {
                    return Err(e);
                },
            };
            if space == Space::RuntimeVectorVersions {
                Ok(runtime_vector_version_key(scope, kind.as_str(), id.as_str(), *effective_at, cursor))
            } else {
                Ok(runtime_version_key(space, scope, kind.as_str(), id.as_str(), *effective_at, cursor))
            }
        },
        VersionedMutation::Unversioned => Err(escaped()),
    }
}


/// What a domain write stores: the committed change, the mutation's own
/// payload (the schema registry, record, relation, sample, geo value or
/// object), or a vector's head (the vector with the change that wrote it).
#[derive(Debug, Clone, Copy, PartialEq, Eq, Structural)]
pub enum EffectValue {
    Change,
    Payload,
    VectorHead,
}

/// One write of a domain effect.
#[derive(Debug, Clone, PartialEq, Eq)]
pub struct KeyWrite {
    pub space: Space,
    pub key: Vec<u8>,
    pub value: EffectValue,
}

/// One deletion of a domain effect.
#[derive(Debug, Clone, PartialEq, Eq)]
pub struct KeyDelete {
    pub space: Space,
    pub key: Vec<u8>,
}

/// The domain effect of one change: its deletions, applied first, then its
/// writes, each in order.
#[derive(Debug, Clone, PartialEq, Eq)]
pub struct DomainEffect {
    pub deletes: Vec<KeyDelete>,
    pub puts: Vec<KeyWrite>,
}

/// The ends of the relation currently stored under a relation's reference.
#[derive(Debug, Clone, PartialEq, Eq)]
pub struct RelationEnds {
    pub from: RuntimeRef,
    pub to: RuntimeRef,
}

/// The view of a domain effect: its deletions and its writes.
pub open spec fn effect_view(e: DomainEffect) -> (Seq<(Space, Seq<u8>)>, Seq<(Space, Seq<u8>, EffectValue)>) {
    (e.deletes@.map_values(|d: KeyDelete| (d.space, d.key@)), e.puts@.map_values(|w: KeyWrite| (w.space, w.key@, w.value)))
}

/// The current-value key of identity `kind`/`id` in `space`.
pub open spec fn identity_key(space: Space, scope: Seq<char>, kind: Seq<char>, id: Seq<char>) -> Seq<u8> {
    spec_space_key(space, seq![KeyPartValue::Text(scope), KeyPartValue::Text(kind), KeyPartValue::Text(id)])
}

/// The current adjacency key of relation `reference` from `from` to `to`.
pub open spec fn adjacency_key(space: Space, scope: Seq<char>, reference: RuntimeRef, from: RuntimeRef, to: RuntimeRef) -> Seq<u8> {
    spec_space_key(space, adjacency_parts(space, scope, reference, from, to))
}

/// One version key of the adjacency of relation `reference` from `from` to `to`.
pub open spec fn adjacency_version_key(space: Space, scope: Seq<char>, reference: RuntimeRef, from: RuntimeRef, to: RuntimeRef,
    effective_at: u64, cursor: u64) -> Seq<u8> {
    spec_space_key(space, adjacency_parts(space, scope, reference, from, to) + seq![KeyPartValue::DescU64(effective_at), KeyPartValue::DescU64(cursor)])
}

/// The deletions of the current adjacency of a relation with ends `ends`.
pub open spec fn adjacency_deletes(scope: Seq<char>, reference: RuntimeRef, ends: RelationEnds) -> Seq<(Space, Seq<u8>)> {
    seq![
        (Space::RuntimeOutgoingEdges, adjacency_key(Space::RuntimeOutgoingEdges, scope, reference, ends.from, ends.to)),
        (Space::RuntimeIncomingEdges, adjacency_key(Space::RuntimeIncomingEdges, scope, reference, ends.from, ends.to)),
    ]
}

/// The version writes of the adjacency of a relation with ends `ends`.
pub open spec fn adjacency_version_puts(scope: Seq<char>, reference: RuntimeRef, ends: RelationEnds, effective_at: u64, cursor: u64)
    -> Seq<(Space, Seq<u8>, EffectValue)> {
    seq![
        (Space::RuntimeOutgoingEdgeVersions, adjacency_version_key(Space::RuntimeOutgoingEdgeVersions, scope, reference, ends.from, ends.to,
            effective_at, cursor), EffectValue::Change),
        (Space::RuntimeIncomingEdgeVersions, adjacency_version_key(Space::RuntimeIncomingEdgeVersions, scope, reference, ends.from, ends.to,
            effective_at, cursor), EffectValue::Change),
    ]
}

/// The current-value space and version space of a retired model other
/// than a relation or a vector, where it has them.
pub open spec fn retired_spaces(model: RetiredModel) -> (Option<Space>, Option<Space>) {
    match model {
        RetiredModel::Record => (Some(Space::RuntimeRecords), Some(Space::RuntimeRecordVersions)),
        RetiredModel::Event => (None, Some(Space::RuntimeEventVersions)),
        RetiredModel::TimeSeries => (Some(Space::RuntimeSeries), Some(Space::RuntimeSeriesVersions)),
        RetiredModel::Geo => (Some(Space::RuntimeGeo), Some(Space::RuntimeGeoVersions)),
        RetiredModel::Object => (Some(Space::RuntimeObjects), Some(Space::RuntimeObjectVersions)),
        _ => (None, None),
    }
}

/// The domain effect of `change`, as deletions then writes; `prior` is the
/// ends of the relation currently stored under the reference a relation or
/// relation retirement names, where there is one.
pub open spec fn spec_domain_effect(change: VersionedChange, prior: Option<RelationEnds>) -> (Seq<(Space, Seq<u8>)>, Seq<(Space, Seq<u8>, EffectValue)>) {
    let scope = change.scope@;
    let cursor = change.cursor;
    match change.mutation {
        VersionedMutation::Schema => (Seq::empty(), seq![
            (Space::RuntimeSchemas, spec_space_key(Space::RuntimeSchemas, seq![KeyPartValue::Text(scope)]), EffectValue::Payload),
            (Space::RuntimeSchemaVersions, spec_space_key(Space::RuntimeSchemaVersions, seq![KeyPartValue::Text(scope), KeyPartValue::DescU64(cursor)]), EffectValue::Change),
        ]),
        VersionedMutation::Claim { predicate, subject, valid_from, tx_time } => (Seq::empty(), seq![
            (Space::RuntimeClaimVersions, spec_space_key(Space::RuntimeClaimVersions, seq![KeyPartValue::Text(scope), KeyPartValue::Text(predicate@),
                KeyPartValue::Text(subject@), KeyPartValue::DescU64(valid_from), KeyPartValue::DescU64(tx_time), KeyPartValue::DescU64(cursor)]), EffectValue::Change),
        ]),
        VersionedMutation::Record { kind, id, valid_from } => (Seq::empty(), seq![
            (Space::RuntimeRecords, identity_key(Space::RuntimeRecords, scope, kind@, id@), EffectValue::Payload),
            (Space::RuntimeRecordVersions, identity_version_key(Space::RuntimeRecordVersions, scope, kind@, id@, valid_from, cursor), EffectValue::Change),
        ]),
        VersionedMutation::Relation { kind, id, valid_from, from, to } => {
            let reference = RuntimeRef { kind, id };
            let ends = RelationEnds { from, to };
            (match prior {
                Some(p) => adjacency_deletes(scope, reference, p),
                None => Seq::empty(),
            }, seq![
                (Space::RuntimeRelations, identity_key(Space::RuntimeRelations, scope, kind@, id@), EffectValue::Payload),
                (Space::RuntimeRelationVersions, identity_version_key(Space::RuntimeRelationVersions, scope, kind@, id@, valid_from, cursor), EffectValue::Change),
                (Space::RuntimeOutgoingEdges, adjacency_key(Space::RuntimeOutgoingEdges, scope, reference, from, to), EffectValue::Payload),
                (Space::RuntimeOutgoingEdgeVersions, adjacency_version_key(Space::RuntimeOutgoingEdgeVersions, scope, reference, from, to, valid_from, cursor), EffectValue::Change),
                (Space::RuntimeIncomingEdges, adjacency_key(Space::RuntimeIncomingEdges, scope, reference, from, to), EffectValue::Payload),
                (Space::RuntimeIncomingEdgeVersions, adjacency_version_key(Space::RuntimeIncomingEdgeVersions, scope, reference, from, to, valid_from, cursor), EffectValue::Change),
            ])
        },
        VersionedMutation::Event { kind } => (Seq::empty(), seq![
            (Space::RuntimeEventVersions, identity_version_key(Space::RuntimeEventVersions, scope, kind@, event_id(cursor), change.at, cursor), EffectValue::Change),
        ]),
        VersionedMutation::Vector { kind, id, valid_from } => (Seq::empty(), seq![
            (Space::RuntimeVectors, identity_key(Space::RuntimeVectors, scope, kind@, id@), EffectValue::VectorHead),
            (Space::RuntimeVectorVersions, identity_version_key(Space::RuntimeVectorVersions, scope, kind@, id@, valid_from, cursor), EffectValue::Change),
        ]),
        VersionedMutation::SeriesSample { kind, id, observed_at } => (Seq::empty(), seq![
            (Space::RuntimeSeries, identity_key(Space::RuntimeSeries, scope, kind@, id@), EffectValue::Payload),
            (Space::RuntimeSeriesVersions, identity_version_key(Space::RuntimeSeriesVersions, scope, kind@, id@, observed_at, cursor), EffectValue::Change),
        ]),
        VersionedMutation::Geo { kind, id, valid_from } => (Seq::empty(), seq![
            (Space::RuntimeGeo, identity_key(Space::RuntimeGeo, scope, kind@, id@), EffectValue::Payload),
            (Space::RuntimeGeoVersions, identity_version_key(Space::RuntimeGeoVersions, scope, kind@, id@, valid_from, cursor), EffectValue::Change),
        ]),
        VersionedMutation::Object { kind, id } => (Seq::empty(), seq![
            (Space::RuntimeObjects, identity_key(Space::RuntimeObjects, scope, kind@, id@), EffectValue::Payload),
            (Space::RuntimeObjectVersions, identity_version_key(Space::RuntimeObjectVersions, scope, kind@, id@, change.at, cursor), EffectValue::Change),
        ]),
        VersionedMutation::Retire { model, kind, id, effective_at } => if model == RetiredModel::Vector {
            (seq![(Space::RuntimeVectors, identity_key(Space::RuntimeVectors, scope, kind@, id@))],
                seq![(Space::RuntimeVectorVersions, identity_version_key(Space::RuntimeVectorVersions, scope, kind@, id@, effective_at, cursor), EffectValue::Change)])
        } else if model == RetiredModel::GraphRelation {
            let reference = RuntimeRef { kind, id };
            let current = seq![(Space::RuntimeRelations, identity_key(Space::RuntimeRelations, scope, kind@, id@))];
            match prior {
                Some(p) => (adjacency_deletes(scope, reference, p) + current,
                    seq![(Space::RuntimeRelationVersions, identity_version_key(Space::RuntimeRelationVersions, scope, kind@, id@, effective_at, cursor), EffectValue::Change)]
                    + adjacency_version_puts(scope, reference, p, effective_at, cursor)),
                None => (current, Seq::empty()),
            }
        } else {
            let (current, versions) = retired_spaces(model);
            (match current {
                Some(c) => seq![(c, identity_key(c, scope, kind@, id@))],
                None => Seq::empty(),
            }, match versions {
                Some(v) => seq![(v, identity_version_key(v, scope, kind@, id@, effective_at, cursor), EffectValue::Change)],
                None => Seq::empty(),
            })
        },
        VersionedMutation::Unversioned => (Seq::empty(), Seq::empty()),
    }
}

/// The write of `key` in `space`.
fn write(space: Space, key: Vec<u8>, value: EffectValue) -> (w: KeyWrite)
    ensures
        w == (KeyWrite { space, key, value }),
{
    KeyWrite { space, key, value }
}

/// The deletion of `key` in `space`.
fn delete(space: Space, key: Vec<u8>) -> (d: KeyDelete)
    ensures
        d == (KeyDelete { space, key }),
{
    KeyDelete { space, key }
}

/// Appends the deletions of the current adjacency of `reference` with `ends`.
fn push_adjacency_deletes(deletes: &mut Vec<KeyDelete>, scope: &str, reference: &RuntimeRef, ends: &RelationEnds)
    ensures
        final(deletes)@.map_values(|d: KeyDelete| (d.space, d.key@))
            == old(deletes)@.map_values(|d: KeyDelete| (d.space, d.key@)) + adjacency_deletes(scope@, *reference, *ends),
{
    let ghost before = deletes@;
    deletes.push(delete(Space::RuntimeOutgoingEdges, runtime_adjacency_key(Space::RuntimeOutgoingEdges, scope, reference, &ends.from, &ends.to)));
    deletes.push(delete(Space::RuntimeIncomingEdges, runtime_adjacency_key(Space::RuntimeIncomingEdges, scope, reference, &ends.from, &ends.to)));
    assert(deletes@.map_values(|d: KeyDelete| (d.space, d.key@))
        =~= before.map_values(|d: KeyDelete| (d.space, d.key@)) + adjacency_deletes(scope@, *reference, *ends));
}

/// Appends the version writes of the adjacency of `reference` with `ends`.
fn push_adjacency_versions(puts: &mut Vec<KeyWrite>, scope: &str, reference: &RuntimeRef, ends: &RelationEnds, effective_at: u64, cursor: u64)
    ensures
        final(puts)@.map_values(|w: KeyWrite| (w.space, w.key@, w.value))
            == old(puts)@.map_values(|w: KeyWrite| (w.space, w.key@, w.value)) + adjacency_version_puts(scope@, *reference, *ends, effective_at, cursor),
{
    let ghost before = puts@;
    puts.push(write(Space::RuntimeOutgoingEdgeVersions, runtime_adjacency_version_key(Space::RuntimeOutgoingEdgeVersions, scope, reference,
        &ends.from, &ends.to, effective_at, cursor), EffectValue::Change));
    puts.push(write(Space::RuntimeIncomingEdgeVersions, runtime_adjacency_version_key(Space::RuntimeIncomingEdgeVersions, scope, reference,
        &ends.from, &ends.to, effective_at, cursor), EffectValue::Change));
    assert(puts@.map_values(|w: KeyWrite| (w.space, w.key@, w.value))
        =~= before.map_values(|w: KeyWrite| (w.space, w.key@, w.value)) + adjacency_version_puts(scope@, *reference, *ends, effective_at, cursor));
}

/// The domain effect of `change`: the keys it deletes and the keys it
/// writes, with what each holds; `prior` is the ends of the relation
/// currently stored under the reference a relation or relation retirement
/// names, where there is one.
pub fn domain_effect(change: &VersionedChange, prior: Option<&RelationEnds>) -> (e: DomainEffect)
    ensures
        effect_view(e) == spec_domain_effect(*change, match prior {
            Some(p) => Some(*p),
            None => None,
        }),
{
    let scope = change.scope.as_str();
    let cursor = change.cursor;
    let mut deletes: Vec<KeyDelete> = Vec::new();
    let mut puts: Vec<KeyWrite> = Vec::new();
    match &change.mutation {
        VersionedMutation::Schema => {
            puts.push(write(Space::RuntimeSchemas, runtime_schema_key(scope), EffectValue::Payload));
            puts.push(write(Space::RuntimeSchemaVersions, runtime_schema_version_key(scope, cursor), EffectValue::Change));
        },
        VersionedMutation::Claim { predicate, subject, valid_from, tx_time } => {
            puts.push(write(Space::RuntimeClaimVersions, runtime_claim_version_key(scope, predicate.as_str(), subject.as_str(), *valid_from, *tx_time, cursor), EffectValue::Change));
        },
        VersionedMutation::Record { kind, id, valid_from } => {
            puts.push(write(Space::RuntimeRecords, runtime_identity_key(Space::RuntimeRecords, scope, kind.as_str(), id.as_str()), EffectValue::Payload));
            puts.push(write(Space::RuntimeRecordVersions, runtime_version_key(Space::RuntimeRecordVersions, scope, kind.as_str(), id.as_str(), *valid_from, cursor), EffectValue::Change));
        },
        VersionedMutation::Relation { kind, id, valid_from, from, to } => {
            let reference = RuntimeRef { kind: kind.clone(), id: id.clone() };
            match prior {
                Some(p) => push_adjacency_deletes(&mut deletes, scope, &reference, p),
                None => {},
            }
            puts.push(write(Space::RuntimeRelations, runtime_identity_key(Space::RuntimeRelations, scope, kind.as_str(), id.as_str()), EffectValue::Payload));
            puts.push(write(Space::RuntimeRelationVersions, runtime_version_key(Space::RuntimeRelationVersions, scope, kind.as_str(), id.as_str(), *valid_from, cursor), EffectValue::Change));
            puts.push(write(Space::RuntimeOutgoingEdges, runtime_adjacency_key(Space::RuntimeOutgoingEdges, scope, &reference, from, to), EffectValue::Payload));
            puts.push(write(Space::RuntimeOutgoingEdgeVersions, runtime_adjacency_version_key(Space::RuntimeOutgoingEdgeVersions, scope, &reference, from, to, *valid_from, cursor), EffectValue::Change));
            puts.push(write(Space::RuntimeIncomingEdges, runtime_adjacency_key(Space::RuntimeIncomingEdges, scope, &reference, from, to), EffectValue::Payload));
            puts.push(write(Space::RuntimeIncomingEdgeVersions, runtime_adjacency_version_key(Space::RuntimeIncomingEdgeVersions, scope, &reference, from, to, *valid_from, cursor), EffectValue::Change));
        },
        VersionedMutation::Event { kind } => {
            let digits = decimal_string(cursor);
            let id = join("cursor:", digits.as_str());
            puts.push(write(Space::RuntimeEventVersions, runtime_version_key(Space::RuntimeEventVersions, scope, kind.as_str(), id.as_str(), change.at, cursor), EffectValue::Change));
        },
        VersionedMutation::Vector { kind, id, valid_from } => {
            puts.push(write(Space::RuntimeVectors, runtime_identity_key(Space::RuntimeVectors, scope, kind.as_str(), id.as_str()), EffectValue::VectorHead));
            puts.push(write(Space::RuntimeVectorVersions, runtime_vector_version_key(scope, kind.as_str(), id.as_str(), *valid_from, cursor), EffectValue::Change));
        },
        VersionedMutation::SeriesSample { kind, id, observed_at } => {
            puts.push(write(Space::RuntimeSeries, runtime_identity_key(Space::RuntimeSeries, scope, kind.as_str(), id.as_str()), EffectValue::Payload));
            puts.push(write(Space::RuntimeSeriesVersions, runtime_version_key(Space::RuntimeSeriesVersions, scope, kind.as_str(), id.as_str(), *observed_at, cursor), EffectValue::Change));
        },
        VersionedMutation::Geo { kind, id, valid_from } => {
            puts.push(write(Space::RuntimeGeo, runtime_identity_key(Space::RuntimeGeo, scope, kind.as_str(), id.as_str()), EffectValue::Payload));
            puts.push(write(Space::RuntimeGeoVersions, runtime_version_key(Space::RuntimeGeoVersions, scope, kind.as_str(), id.as_str(), *valid_from, cursor), EffectValue::Change));
        },
        VersionedMutation::Object { kind, id } => {
            puts.push(write(Space::RuntimeObjects, runtime_identity_key(Space::RuntimeObjects, scope, kind.as_str(), id.as_str()), EffectValue::Payload));
            puts.push(write(Space::RuntimeObjectVersions, runtime_version_key(Space::RuntimeObjectVersions, scope, kind.as_str(), id.as_str(), change.at, cursor), EffectValue::Change));
        },
        VersionedMutation::Retire { model, kind, id, effective_at } => {
            let k = kind.as_str();
            let i = id.as_str();
            match model {
                RetiredModel::Vector => {
                    deletes.push(delete(Space::RuntimeVectors, runtime_identity_key(Space::RuntimeVectors, scope, k, i)));
                    puts.push(write(Space::RuntimeVectorVersions, runtime_vector_version_key(scope, k, i, *effective_at, cursor), EffectValue::Change));
                },
                RetiredModel::GraphRelation => {
                    let reference = RuntimeRef { kind: kind.clone(), id: id.clone() };
                    match prior {
                        Some(p) => {
                            push_adjacency_deletes(&mut deletes, scope, &reference, p);
                            deletes.push(delete(Space::RuntimeRelations, runtime_identity_key(Space::RuntimeRelations, scope, k, i)));
                            puts.push(write(Space::RuntimeRelationVersions, runtime_version_key(Space::RuntimeRelationVersions, scope, k, i, *effective_at, cursor), EffectValue::Change));
                            push_adjacency_versions(&mut puts, scope, &reference, p, *effective_at, cursor);
                        },
                        None => {
                            deletes.push(delete(Space::RuntimeRelations, runtime_identity_key(Space::RuntimeRelations, scope, k, i)));
                        },
                    }
                },
                RetiredModel::Record => {
                    deletes.push(delete(Space::RuntimeRecords, runtime_identity_key(Space::RuntimeRecords, scope, k, i)));
                    puts.push(write(Space::RuntimeRecordVersions, runtime_version_key(Space::RuntimeRecordVersions, scope, k, i, *effective_at, cursor), EffectValue::Change));
                },
                RetiredModel::Event => {
                    puts.push(write(Space::RuntimeEventVersions, runtime_version_key(Space::RuntimeEventVersions, scope, k, i, *effective_at, cursor), EffectValue::Change));
                },
                RetiredModel::TimeSeries => {
                    deletes.push(delete(Space::RuntimeSeries, runtime_identity_key(Space::RuntimeSeries, scope, k, i)));
                    puts.push(write(Space::RuntimeSeriesVersions, runtime_version_key(Space::RuntimeSeriesVersions, scope, k, i, *effective_at, cursor), EffectValue::Change));
                },
                RetiredModel::Geo => {
                    deletes.push(delete(Space::RuntimeGeo, runtime_identity_key(Space::RuntimeGeo, scope, k, i)));
                    puts.push(write(Space::RuntimeGeoVersions, runtime_version_key(Space::RuntimeGeoVersions, scope, k, i, *effective_at, cursor), EffectValue::Change));
                },
                RetiredModel::Object => {
                    deletes.push(delete(Space::RuntimeObjects, runtime_identity_key(Space::RuntimeObjects, scope, k, i)));
                    puts.push(write(Space::RuntimeObjectVersions, runtime_version_key(Space::RuntimeObjectVersions, scope, k, i, *effective_at, cursor), EffectValue::Change));
                },
                RetiredModel::Other => {},
            }
        },
        VersionedMutation::Unversioned => {},
    }
    let e = DomainEffect { deletes, puts };
    proof {
        let target = spec_domain_effect(*change, match prior {
            Some(p) => Some(*p),
            None => None,
        });
        assert(effect_view(e).0 =~= target.0);
        assert(effect_view(e).1 =~= target.1);
    }
    e
}


/// A read selected by kind admits only retirements of that kind and of its
/// family's model: the version key of a retirement of `model` and `kind`
/// exists for a source exactly when the source's kind filter is absent or
/// names `kind`, and `model` is the one the source's family versions; a
/// schema or claim read admits none.
pub proof fn lemma_retirements_follow_the_selected_kind(source: RuntimeVersionedSource, change: VersionedChange)
    requires
        change.mutation is Retire,
    ensures
        ({
            let model = change.mutation->Retire_model;
            let kind = change.mutation->Retire_kind@;
            spec_expected_version_key(source, change) is Some <==> match source {
                RuntimeVersionedSource::Records { kind: f } => (f is None || f->Some_0@ == kind) && model == RetiredModel::Record,
                RuntimeVersionedSource::Relations { kind: f } => (f is None || f->Some_0@ == kind) && model == RetiredModel::GraphRelation,
                RuntimeVersionedSource::Events { kind: f } => (f is None || f->Some_0@ == kind) && model == RetiredModel::Event,
                RuntimeVersionedSource::Vectors { kind: f } => (f is None || f->Some_0@ == kind) && model == RetiredModel::Vector,
                RuntimeVersionedSource::Series { kind: f } => (f is None || f->Some_0@ == kind) && model == RetiredModel::TimeSeries,
                RuntimeVersionedSource::Geo { kind: f } => (f is None || f->Some_0@ == kind) && model == RetiredModel::Geo,
                RuntimeVersionedSource::Objects { kind: f } => (f is None || f->Some_0@ == kind) && model == RetiredModel::Object,
                RuntimeVersionedSource::Schema => false,
                RuntimeVersionedSource::Claims { .. } => false,
            }
        }),
{
}

/// A record read filtered to kind `f` refuses the retirement of a record of
/// any other kind.
pub proof fn lemma_filtered_record_read_refuses_other_kinds(f: String, change: VersionedChange)
    requires
        change.mutation is Retire,
        change.mutation->Retire_kind@ != f@,
    ensures
        spec_expected_version_key(RuntimeVersionedSource::Records { kind: Some(f) }, change) is None,
{
    lemma_retirements_follow_the_selected_kind(RuntimeVersionedSource::Records { kind: Some(f) }, change);
}


/// A direct read sees exactly the versions of its own family and, where it
/// selects by kind (or, for claims, by predicate), of that kind: the
/// version key of a change exists for a source exactly when the change's
/// mutation belongs to the source's family (a retirement by the model it
/// names) and the source's filter is absent or names the mutation's kind.
pub proof fn lemma_reads_see_their_family_and_kind(source: RuntimeVersionedSource, change: VersionedChange)
    ensures
        ({
            let m = change.mutation;
            spec_expected_version_key(source, change) is Some <==> match source {
                RuntimeVersionedSource::Schema => m is Schema,
                RuntimeVersionedSource::Claims { predicate: f } => m is Claim && (f is None || f->Some_0@ == m->Claim_predicate@),
                RuntimeVersionedSource::Records { kind: f } => (m is Record && (f is None || f->Some_0@ == m->Record_kind@)) || (m is Retire
                    && m->Retire_model == RetiredModel::Record && (f is None || f->Some_0@ == m->Retire_kind@)),
                RuntimeVersionedSource::Relations { kind: f } => (m is Relation && (f is None || f->Some_0@ == m->Relation_kind@)) || (m is Retire
                    && m->Retire_model == RetiredModel::GraphRelation && (f is None || f->Some_0@ == m->Retire_kind@)),
                RuntimeVersionedSource::Events { kind: f } => (m is Event && (f is None || f->Some_0@ == m->Event_kind@)) || (m is Retire
                    && m->Retire_model == RetiredModel::Event && (f is None || f->Some_0@ == m->Retire_kind@)),
                RuntimeVersionedSource::Vectors { kind: f } => (m is Vector && (f is None || f->Some_0@ == m->Vector_kind@)) || (m is Retire
                    && m->Retire_model == RetiredModel::Vector && (f is None || f->Some_0@ == m->Retire_kind@)),
                RuntimeVersionedSource::Series { kind: f } => (m is SeriesSample && (f is None || f->Some_0@ == m->SeriesSample_kind@)) || (
                m is Retire && m->Retire_model == RetiredModel::TimeSeries && (f is None || f->Some_0@ == m->Retire_kind@)),
                RuntimeVersionedSource::Geo { kind: f } => (m is Geo && (f is None || f->Some_0@ == m->Geo_kind@)) || (m is Retire
                    && m->Retire_model == RetiredModel::Geo && (f is None || f->Some_0@ == m->Retire_kind@)),
                RuntimeVersionedSource::Objects { kind: f } => (m is Object && (f is None || f->Some_0@ == m->Object_kind@)) || (m is Retire
                    && m->Retire_model == RetiredModel::Object && (f is None || f->Some_0@ == m->Retire_kind@)),
            }
        }),
{
}


/// An admitted retirement is expected under its identity in the version
/// space of the selected family, at its effective time and the change's
/// cursor.
pub proof fn lemma_retirement_key(source: RuntimeVersionedSource, change: VersionedChange)
    requires
        change.mutation is Retire,
        spec_expected_version_key(source, change) is Some,
    ensures
        ({
            let m = change.mutation;
            let space = match source {
                RuntimeVersionedSource::Records { .. } => Space::RuntimeRecordVersions,
                RuntimeVersionedSource::Relations { .. } => Space::RuntimeRelationVersions,
                RuntimeVersionedSource::Events { .. } => Space::RuntimeEventVersions,
                RuntimeVersionedSource::Vectors { .. } => Space::RuntimeVectorVersions,
                RuntimeVersionedSource::Series { .. } => Space::RuntimeSeriesVersions,
                RuntimeVersionedSource::Geo { .. } => Space::RuntimeGeoVersions,
                _ => Space::RuntimeObjectVersions,
            };
            spec_expected_version_key(source, change) == Some(spec_space_key(space, seq![KeyPartValue::Text(change.scope@),
                KeyPartValue::Text(m->Retire_kind@), KeyPartValue::Text(m->Retire_id@), KeyPartValue::DescU64(m->Retire_effective_at),
                KeyPartValue::DescU64(change.cursor)]))
        }),
{
    lemma_reads_see_their_family_and_kind(source, change);
}

} // verus!
