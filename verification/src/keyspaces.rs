//! Canonical semantic key shapes layered on the rrflowKV tuple codec.
//!
//! Callers name a semantic shape; they never concatenate physical delimiters.
//! The codec places every shape below the `format / tenant / scope / family`
//! prefix and this module freezes the first component that subdivides a
//! family. Every builder's result is exactly the codec encoding of its
//! shape, and every parser accepts exactly the encodings of its shape.

use crate::error::{text, Error, Result};
use crate::key_codec::{
    part_values, spec_encode_key, spec_encode_key_value, lemma_encode_injective, DecodedKey,
    DecodedKeyPart, KeyAddress, KeyCodec, KeyFamily, KeyPart, KeyPartValue, KeyValue,
};
use vstd::prelude::*;
use vstd::string::StringSliceAdditionalSpecFns;

verus! {

#[derive(Debug, Clone, Copy, PartialEq, Eq, Structural)]
pub enum Space {
    Claims,
    SequenceIndex,
    Access,
    System,
    Invocations,
    FunctionArtifacts,
    FunctionDefinitions,
    TransactionFunctionBindings,
    FunctionCatalogueMemberships,
    FunctionCatalogueHeads,
    Projections,
    RuntimeChanges,
    RuntimeClaimVersions,
    RuntimeRecords,
    RuntimeRecordVersions,
    RuntimeRelations,
    RuntimeRelationVersions,
    RuntimeEventVersions,
    RuntimeOutgoingEdges,
    RuntimeOutgoingEdgeVersions,
    RuntimeIncomingEdges,
    RuntimeIncomingEdgeVersions,
    RuntimeVectors,
    RuntimeVectorVersions,
    RuntimeSeries,
    RuntimeSeriesVersions,
    RuntimeGeo,
    RuntimeGeoVersions,
    RuntimeObjects,
    RuntimeObjectVersions,
    RuntimeProjectionDeltas,
    RuntimeIndexSourceDeltas,
    RuntimeVectorSourceDeltas,
    RuntimeIndexBindings,
    RuntimeIndexBindingVersions,
    RuntimeIndexBindingSets,
    RuntimeScalarEntries,
    RuntimeUniqueEntries,
    RuntimeOutbox,
    RuntimeAudit,
    RuntimeCommits,
    RuntimeSchemas,
    RuntimeSchemaVersions,
    RuntimeSnapshots,
}

pub const CLAIMS: Space = Space::Claims;
pub const SEQUENCE_INDEX: Space = Space::SequenceIndex;
pub const ACCESS: Space = Space::Access;
pub const META: Space = Space::System;
pub const INVOCATIONS: Space = Space::Invocations;
pub const FUNCTION_ARTIFACTS: Space = Space::FunctionArtifacts;
pub const FUNCTION_DEFINITIONS: Space = Space::FunctionDefinitions;
pub const TRANSACTION_FUNCTION_BINDINGS: Space = Space::TransactionFunctionBindings;
pub const FUNCTION_CATALOGUE_MEMBERSHIPS: Space = Space::FunctionCatalogueMemberships;
pub const FUNCTION_CATALOGUE_HEADS: Space = Space::FunctionCatalogueHeads;
pub const PROJECTIONS: Space = Space::Projections;
pub const RUNTIME_CHANGES: Space = Space::RuntimeChanges;
pub const RUNTIME_CLAIM_VERSIONS: Space = Space::RuntimeClaimVersions;
pub const RUNTIME_RECORDS: Space = Space::RuntimeRecords;
pub const RUNTIME_RECORD_VERSIONS: Space = Space::RuntimeRecordVersions;
pub const RUNTIME_RELATIONS: Space = Space::RuntimeRelations;
pub const RUNTIME_RELATION_VERSIONS: Space = Space::RuntimeRelationVersions;
pub const RUNTIME_EVENT_VERSIONS: Space = Space::RuntimeEventVersions;
pub const RUNTIME_OUTGOING_EDGES: Space = Space::RuntimeOutgoingEdges;
pub const RUNTIME_OUTGOING_EDGE_VERSIONS: Space = Space::RuntimeOutgoingEdgeVersions;
pub const RUNTIME_INCOMING_EDGES: Space = Space::RuntimeIncomingEdges;
pub const RUNTIME_INCOMING_EDGE_VERSIONS: Space = Space::RuntimeIncomingEdgeVersions;
pub const RUNTIME_VECTORS: Space = Space::RuntimeVectors;
pub const RUNTIME_VECTOR_VERSIONS: Space = Space::RuntimeVectorVersions;
pub const RUNTIME_SERIES: Space = Space::RuntimeSeries;
pub const RUNTIME_SERIES_VERSIONS: Space = Space::RuntimeSeriesVersions;
pub const RUNTIME_GEO: Space = Space::RuntimeGeo;
pub const RUNTIME_GEO_VERSIONS: Space = Space::RuntimeGeoVersions;
pub const RUNTIME_OBJECTS: Space = Space::RuntimeObjects;
pub const RUNTIME_OBJECT_VERSIONS: Space = Space::RuntimeObjectVersions;
pub const RUNTIME_PROJECTION_DELTAS: Space = Space::RuntimeProjectionDeltas;
pub const RUNTIME_INDEX_SOURCE_DELTAS: Space = Space::RuntimeIndexSourceDeltas;
pub const RUNTIME_VECTOR_SOURCE_DELTAS: Space = Space::RuntimeVectorSourceDeltas;
pub const RUNTIME_INDEX_BINDINGS: Space = Space::RuntimeIndexBindings;
pub const RUNTIME_INDEX_BINDING_VERSIONS: Space = Space::RuntimeIndexBindingVersions;
pub const RUNTIME_INDEX_BINDING_SETS: Space = Space::RuntimeIndexBindingSets;
pub const RUNTIME_SCALAR_ENTRIES: Space = Space::RuntimeScalarEntries;
pub const RUNTIME_UNIQUE_ENTRIES: Space = Space::RuntimeUniqueEntries;
pub const RUNTIME_OUTBOX: Space = Space::RuntimeOutbox;
pub const RUNTIME_AUDIT: Space = Space::RuntimeAudit;
pub const RUNTIME_COMMITS: Space = Space::RuntimeCommits;
pub const RUNTIME_SCHEMAS: Space = Space::RuntimeSchemas;
pub const RUNTIME_SCHEMA_VERSIONS: Space = Space::RuntimeSchemaVersions;
pub const RUNTIME_SNAPSHOTS: Space = Space::RuntimeSnapshots;

impl Space {
    /// The physical family that holds this space.
    pub open spec fn spec_family(self) -> KeyFamily {
        match self {
            Space::Claims => KeyFamily::Temporal,
            Space::SequenceIndex => KeyFamily::Temporal,
            Space::Access => KeyFamily::Audit,
            Space::System => KeyFamily::System,
            Space::Invocations => KeyFamily::Catalogue,
            Space::FunctionArtifacts => KeyFamily::Catalogue,
            Space::FunctionDefinitions => KeyFamily::Catalogue,
            Space::TransactionFunctionBindings => KeyFamily::Catalogue,
            Space::FunctionCatalogueMemberships => KeyFamily::Catalogue,
            Space::FunctionCatalogueHeads => KeyFamily::Catalogue,
            Space::Projections => KeyFamily::ProjectionDelta,
            Space::RuntimeChanges => KeyFamily::EngineEvent,
            Space::RuntimeClaimVersions => KeyFamily::Temporal,
            Space::RuntimeRecords => KeyFamily::Current,
            Space::RuntimeRecordVersions => KeyFamily::Temporal,
            Space::RuntimeRelations => KeyFamily::Current,
            Space::RuntimeRelationVersions => KeyFamily::Temporal,
            Space::RuntimeEventVersions => KeyFamily::EngineEvent,
            Space::RuntimeOutgoingEdges => KeyFamily::OutgoingEdge,
            Space::RuntimeOutgoingEdgeVersions => KeyFamily::OutgoingEdge,
            Space::RuntimeIncomingEdges => KeyFamily::IncomingEdge,
            Space::RuntimeIncomingEdgeVersions => KeyFamily::IncomingEdge,
            Space::RuntimeVectors => KeyFamily::Vector,
            Space::RuntimeVectorVersions => KeyFamily::Vector,
            Space::RuntimeSeries => KeyFamily::Current,
            Space::RuntimeSeriesVersions => KeyFamily::Temporal,
            Space::RuntimeGeo => KeyFamily::Current,
            Space::RuntimeGeoVersions => KeyFamily::Temporal,
            Space::RuntimeObjects => KeyFamily::Current,
            Space::RuntimeObjectVersions => KeyFamily::Temporal,
            Space::RuntimeProjectionDeltas => KeyFamily::ProjectionDelta,
            Space::RuntimeIndexSourceDeltas => KeyFamily::ProjectionDelta,
            Space::RuntimeVectorSourceDeltas => KeyFamily::ProjectionDelta,
            Space::RuntimeIndexBindings => KeyFamily::Catalogue,
            Space::RuntimeIndexBindingVersions => KeyFamily::Catalogue,
            Space::RuntimeIndexBindingSets => KeyFamily::Catalogue,
            Space::RuntimeScalarEntries => KeyFamily::Scalar,
            Space::RuntimeUniqueEntries => KeyFamily::Unique,
            Space::RuntimeOutbox => KeyFamily::Outbox,
            Space::RuntimeAudit => KeyFamily::Audit,
            Space::RuntimeCommits => KeyFamily::RuntimeCommit,
            Space::RuntimeSchemas => KeyFamily::Catalogue,
            Space::RuntimeSchemaVersions => KeyFamily::Catalogue,
            Space::RuntimeSnapshots => KeyFamily::Catalogue,
        }
    }

    /// The first tuple component that subdivides the family.
    pub open spec fn spec_subspace(self) -> u8 {
        match self {
            Space::Claims => 0x01,
            Space::SequenceIndex => 0x02,
            Space::Access => 0x01,
            Space::System => 0x01,
            Space::Invocations => 0x06,
            Space::FunctionArtifacts => 0x01,
            Space::FunctionDefinitions => 0x02,
            Space::TransactionFunctionBindings => 0x03,
            Space::FunctionCatalogueMemberships => 0x04,
            Space::FunctionCatalogueHeads => 0x05,
            Space::Projections => 0x01,
            Space::RuntimeChanges => 0x01,
            Space::RuntimeClaimVersions => 0x05,
            Space::RuntimeRecords => 0x01,
            Space::RuntimeRecordVersions => 0x03,
            Space::RuntimeRelations => 0x02,
            Space::RuntimeRelationVersions => 0x04,
            Space::RuntimeEventVersions => 0x02,
            Space::RuntimeOutgoingEdges => 0x01,
            Space::RuntimeOutgoingEdgeVersions => 0x02,
            Space::RuntimeIncomingEdges => 0x01,
            Space::RuntimeIncomingEdgeVersions => 0x02,
            Space::RuntimeVectors => 0x01,
            Space::RuntimeVectorVersions => 0x02,
            Space::RuntimeSeries => 0x03,
            Space::RuntimeSeriesVersions => 0x06,
            Space::RuntimeGeo => 0x04,
            Space::RuntimeGeoVersions => 0x07,
            Space::RuntimeObjects => 0x05,
            Space::RuntimeObjectVersions => 0x08,
            Space::RuntimeProjectionDeltas => 0x02,
            Space::RuntimeIndexSourceDeltas => 0x03,
            Space::RuntimeVectorSourceDeltas => 0x04,
            Space::RuntimeIndexBindings => 0x30,
            Space::RuntimeIndexBindingVersions => 0x31,
            Space::RuntimeIndexBindingSets => 0x32,
            Space::RuntimeScalarEntries => 0x01,
            Space::RuntimeUniqueEntries => 0x01,
            Space::RuntimeOutbox => 0x01,
            Space::RuntimeAudit => 0x02,
            Space::RuntimeCommits => 0x01,
            Space::RuntimeSchemas => 0x20,
            Space::RuntimeSchemaVersions => 0x22,
            Space::RuntimeSnapshots => 0x21,
        }
    }

    pub fn family(self) -> (f: KeyFamily)
        ensures
            f == self.spec_family(),
    {
        match self {
            Space::Claims => KeyFamily::Temporal,
            Space::SequenceIndex => KeyFamily::Temporal,
            Space::Access => KeyFamily::Audit,
            Space::System => KeyFamily::System,
            Space::Invocations => KeyFamily::Catalogue,
            Space::FunctionArtifacts => KeyFamily::Catalogue,
            Space::FunctionDefinitions => KeyFamily::Catalogue,
            Space::TransactionFunctionBindings => KeyFamily::Catalogue,
            Space::FunctionCatalogueMemberships => KeyFamily::Catalogue,
            Space::FunctionCatalogueHeads => KeyFamily::Catalogue,
            Space::Projections => KeyFamily::ProjectionDelta,
            Space::RuntimeChanges => KeyFamily::EngineEvent,
            Space::RuntimeClaimVersions => KeyFamily::Temporal,
            Space::RuntimeRecords => KeyFamily::Current,
            Space::RuntimeRecordVersions => KeyFamily::Temporal,
            Space::RuntimeRelations => KeyFamily::Current,
            Space::RuntimeRelationVersions => KeyFamily::Temporal,
            Space::RuntimeEventVersions => KeyFamily::EngineEvent,
            Space::RuntimeOutgoingEdges => KeyFamily::OutgoingEdge,
            Space::RuntimeOutgoingEdgeVersions => KeyFamily::OutgoingEdge,
            Space::RuntimeIncomingEdges => KeyFamily::IncomingEdge,
            Space::RuntimeIncomingEdgeVersions => KeyFamily::IncomingEdge,
            Space::RuntimeVectors => KeyFamily::Vector,
            Space::RuntimeVectorVersions => KeyFamily::Vector,
            Space::RuntimeSeries => KeyFamily::Current,
            Space::RuntimeSeriesVersions => KeyFamily::Temporal,
            Space::RuntimeGeo => KeyFamily::Current,
            Space::RuntimeGeoVersions => KeyFamily::Temporal,
            Space::RuntimeObjects => KeyFamily::Current,
            Space::RuntimeObjectVersions => KeyFamily::Temporal,
            Space::RuntimeProjectionDeltas => KeyFamily::ProjectionDelta,
            Space::RuntimeIndexSourceDeltas => KeyFamily::ProjectionDelta,
            Space::RuntimeVectorSourceDeltas => KeyFamily::ProjectionDelta,
            Space::RuntimeIndexBindings => KeyFamily::Catalogue,
            Space::RuntimeIndexBindingVersions => KeyFamily::Catalogue,
            Space::RuntimeIndexBindingSets => KeyFamily::Catalogue,
            Space::RuntimeScalarEntries => KeyFamily::Scalar,
            Space::RuntimeUniqueEntries => KeyFamily::Unique,
            Space::RuntimeOutbox => KeyFamily::Outbox,
            Space::RuntimeAudit => KeyFamily::Audit,
            Space::RuntimeCommits => KeyFamily::RuntimeCommit,
            Space::RuntimeSchemas => KeyFamily::Catalogue,
            Space::RuntimeSchemaVersions => KeyFamily::Catalogue,
            Space::RuntimeSnapshots => KeyFamily::Catalogue,
        }
    }

    pub fn subspace(self) -> (b: u8)
        ensures
            b == self.spec_subspace(),
    {
        match self {
            Space::Claims => 0x01,
            Space::SequenceIndex => 0x02,
            Space::Access => 0x01,
            Space::System => 0x01,
            Space::Invocations => 0x06,
            Space::FunctionArtifacts => 0x01,
            Space::FunctionDefinitions => 0x02,
            Space::TransactionFunctionBindings => 0x03,
            Space::FunctionCatalogueMemberships => 0x04,
            Space::FunctionCatalogueHeads => 0x05,
            Space::Projections => 0x01,
            Space::RuntimeChanges => 0x01,
            Space::RuntimeClaimVersions => 0x05,
            Space::RuntimeRecords => 0x01,
            Space::RuntimeRecordVersions => 0x03,
            Space::RuntimeRelations => 0x02,
            Space::RuntimeRelationVersions => 0x04,
            Space::RuntimeEventVersions => 0x02,
            Space::RuntimeOutgoingEdges => 0x01,
            Space::RuntimeOutgoingEdgeVersions => 0x02,
            Space::RuntimeIncomingEdges => 0x01,
            Space::RuntimeIncomingEdgeVersions => 0x02,
            Space::RuntimeVectors => 0x01,
            Space::RuntimeVectorVersions => 0x02,
            Space::RuntimeSeries => 0x03,
            Space::RuntimeSeriesVersions => 0x06,
            Space::RuntimeGeo => 0x04,
            Space::RuntimeGeoVersions => 0x07,
            Space::RuntimeObjects => 0x05,
            Space::RuntimeObjectVersions => 0x08,
            Space::RuntimeProjectionDeltas => 0x02,
            Space::RuntimeIndexSourceDeltas => 0x03,
            Space::RuntimeVectorSourceDeltas => 0x04,
            Space::RuntimeIndexBindings => 0x30,
            Space::RuntimeIndexBindingVersions => 0x31,
            Space::RuntimeIndexBindingSets => 0x32,
            Space::RuntimeScalarEntries => 0x01,
            Space::RuntimeUniqueEntries => 0x01,
            Space::RuntimeOutbox => 0x01,
            Space::RuntimeAudit => 0x02,
            Space::RuntimeCommits => 0x01,
            Space::RuntimeSchemas => 0x20,
            Space::RuntimeSchemaVersions => 0x22,
            Space::RuntimeSnapshots => 0x21,
        }
    }
}

/// Every space, in declaration order.
pub fn all_spaces() -> (v: Vec<Space>)
    ensures
        v@.len() == 44,
{
    let mut v: Vec<Space> = Vec::new();
    v.push(Space::Claims);
    v.push(Space::SequenceIndex);
    v.push(Space::Access);
    v.push(Space::System);
    v.push(Space::Invocations);
    v.push(Space::FunctionArtifacts);
    v.push(Space::FunctionDefinitions);
    v.push(Space::TransactionFunctionBindings);
    v.push(Space::FunctionCatalogueMemberships);
    v.push(Space::FunctionCatalogueHeads);
    v.push(Space::Projections);
    v.push(Space::RuntimeChanges);
    v.push(Space::RuntimeClaimVersions);
    v.push(Space::RuntimeRecords);
    v.push(Space::RuntimeRecordVersions);
    v.push(Space::RuntimeRelations);
    v.push(Space::RuntimeRelationVersions);
    v.push(Space::RuntimeEventVersions);
    v.push(Space::RuntimeOutgoingEdges);
    v.push(Space::RuntimeOutgoingEdgeVersions);
    v.push(Space::RuntimeIncomingEdges);
    v.push(Space::RuntimeIncomingEdgeVersions);
    v.push(Space::RuntimeVectors);
    v.push(Space::RuntimeVectorVersions);
    v.push(Space::RuntimeSeries);
    v.push(Space::RuntimeSeriesVersions);
    v.push(Space::RuntimeGeo);
    v.push(Space::RuntimeGeoVersions);
    v.push(Space::RuntimeObjects);
    v.push(Space::RuntimeObjectVersions);
    v.push(Space::RuntimeProjectionDeltas);
    v.push(Space::RuntimeIndexSourceDeltas);
    v.push(Space::RuntimeVectorSourceDeltas);
    v.push(Space::RuntimeIndexBindings);
    v.push(Space::RuntimeIndexBindingVersions);
    v.push(Space::RuntimeIndexBindingSets);
    v.push(Space::RuntimeScalarEntries);
    v.push(Space::RuntimeUniqueEntries);
    v.push(Space::RuntimeOutbox);
    v.push(Space::RuntimeAudit);
    v.push(Space::RuntimeCommits);
    v.push(Space::RuntimeSchemas);
    v.push(Space::RuntimeSchemaVersions);
    v.push(Space::RuntimeSnapshots);
    v
}

/// The encoding of a tuple placed under a space: global address, the
/// space's family, and the subspace byte followed by the tuple.
pub open spec fn spec_space_key(space: Space, parts: Seq<KeyPartValue>) -> Seq<u8> {
    spec_encode_key(
        None,
        None,
        space.spec_family(),
        seq![KeyPartValue::U8(space.spec_subspace())] + parts,
    )
}

/// The key value of a tuple placed under a space.
pub open spec fn spec_space_key_value(space: Space, parts: Seq<KeyPartValue>) -> KeyValue {
    KeyValue {
        tenant: None,
        scope: None,
        family: space.spec_family(),
        parts: seq![KeyPartValue::U8(space.spec_subspace())] + parts,
    }
}

/// Distinct spaces occupy distinct `(family, subspace)` coordinates, so no
/// key of one space is a key of another.
pub proof fn lemma_space_coordinates_unique(a: Space, b: Space)
    requires
        a.spec_family() == b.spec_family(),
        a.spec_subspace() == b.spec_subspace(),
    ensures
        a == b,
{
}

/// No key of one space is a key of another space.
pub proof fn lemma_spaces_are_disjoint(a: Space, pa: Seq<KeyPartValue>, b: Space, pb: Seq<KeyPartValue>)
    requires
        spec_space_key(a, pa) == spec_space_key(b, pb),
    ensures
        a == b,
        pa == pb,
{
    lemma_encode_injective(spec_space_key_value(a, pa), spec_space_key_value(b, pb));
    let la = seq![KeyPartValue::U8(a.spec_subspace())] + pa;
    let lb = seq![KeyPartValue::U8(b.spec_subspace())] + pb;
    assert(la[0] == lb[0]);
    lemma_space_coordinates_unique(a, b);
    assert(la.drop_first() =~= pa);
    assert(lb.drop_first() =~= pb);
}

fn encode(space: Space, parts: &[KeyPart<'_>]) -> (key: Vec<u8>)
    ensures
        key@ == spec_space_key(space, part_values(parts@)),
{
    let mut tuple: Vec<KeyPart<'_>> = Vec::new();
    tuple.push(KeyPart::U8(space.subspace()));
    let mut i: usize = 0;
    while i < parts.len()
        invariant
            i <= parts@.len(),
            part_values(tuple@) == seq![KeyPartValue::U8(space.spec_subspace())] + part_values(
                parts@.take(i as int),
            ),
        decreases parts@.len() - i,
    {
        let ghost before = tuple@;
        tuple.push(parts[i]);
        proof {
            assert(tuple@ == before.push(parts@[i as int]));
            assert(part_values(tuple@) =~= part_values(before).push(parts@[i as int]@));
            assert(parts@.take(i + 1) =~= parts@.take(i as int).push(parts@[i as int]));
            assert(part_values(parts@.take(i + 1)) =~= part_values(parts@.take(i as int)).push(
                parts@[i as int]@,
            ));
        }
        i = i + 1;
        assert(part_values(tuple@) =~= seq![KeyPartValue::U8(space.spec_subspace())]
            + part_values(parts@.take(i as int)));
    }
    assert(parts@.take(i as int) =~= parts@);
    KeyCodec.encode(KeyAddress::global(), space.family(), tuple.as_slice())
}

/// The bare prefix of a space.
pub fn space_prefix(space: Space) -> (key: Vec<u8>)
    ensures
        key@ == spec_space_key(space, Seq::<KeyPartValue>::empty()),
{
    let parts: [KeyPart<'_>; 0] = [];
    assert(part_values(parts@) =~= Seq::<KeyPartValue>::empty());
    encode(space, &parts)
}

/// The values of decoded tuple fields.
pub open spec fn decoded_values(parts: Seq<DecodedKeyPart>) -> Seq<KeyPartValue> {
    parts.map_values(|p: DecodedKeyPart| p@)
}

/// Decodes a stored key that must belong to `space`; returns the tuple
/// after the subspace byte. Accepts exactly the keys of the space.
pub fn decode_space(codec: KeyCodec, space: Space, stored: &[u8]) -> (r: Result<Vec<DecodedKeyPart>>)
    ensures
        match r {
            Ok(parts) => stored@ == spec_space_key(space, decoded_values(parts@)),
            Err(e) => e is Codec && forall|parts: Seq<KeyPartValue>| spec_space_key(space, parts) != stored@,
        },
{
    let decoded = match codec.decode(stored) {
        Ok(decoded) => decoded,
        Err(_) => {
            proof {
                assert forall|ps: Seq<KeyPartValue>| spec_space_key(space, ps) != stored@ by {
                    assert(spec_encode_key_value(spec_space_key_value(space, ps)) == spec_space_key(
                        space,
                        ps,
                    ));
                }
            }
            return Err(Error::Codec(text("key is not a canonical rrflowKV key")));
        },
    };
    let ghost kv = decoded@;
    let DecodedKey { tenant, scope, family, parts } = decoded;
    let escaped = tenant.is_some() || scope.is_some() || family != space.family() || parts.len()
        == 0 || !matches!(parts[0], DecodedKeyPart::U8(b) if b == space.subspace());
    if escaped {
        proof {
            assert forall|ps: Seq<KeyPartValue>| spec_space_key(space, ps) != stored@ by {
                if spec_space_key(space, ps) == stored@ {
                    lemma_encode_injective(spec_space_key_value(space, ps), kv);
                    assert((seq![KeyPartValue::U8(space.spec_subspace())] + ps)[0] == kv.parts[0]);
                }
            }
        }
        return Err(Error::Codec(text("key escaped its canonical rrflowKV space")));
    }
    let mut rest: Vec<DecodedKeyPart> = Vec::new();
    let mut i: usize = 1;
    while i < parts.len()
        invariant
            1 <= i <= parts@.len(),
            decoded_values(rest@) == decoded_values(parts@).subrange(1, i as int),
        decreases parts@.len() - i,
    {
        let ghost before = rest@;
        let part = parts[i].clone_part();
        rest.push(part);
        proof {
            assert(rest@ == before.push(part));
            assert(decoded_values(rest@) =~= decoded_values(before).push(part@));
        }
        i = i + 1;
        assert(decoded_values(rest@) =~= decoded_values(parts@).subrange(1, i as int));
    }
    proof {
        assert(kv.parts =~= seq![KeyPartValue::U8(space.spec_subspace())] + decoded_values(rest@));
        assert(kv == spec_space_key_value(space, decoded_values(rest@)));
    }
    Ok(rest)
}

/// Checks that a stored key belongs to `space`.
pub fn validate_space(codec: KeyCodec, space: Space, stored: &[u8]) -> (r: Result<()>)
    ensures
        r is Ok <==> exists|parts: Seq<KeyPartValue>| spec_space_key(space, parts) == stored@,
{
    match decode_space(codec, space, stored) {
        Ok(parts) => {
            assert(spec_space_key(space, decoded_values(parts@)) == stored@);
            Ok(())
        },
        Err(e) => Err(e),
    }
}

/// Decodes a key of `space` whose tuple must have exactly `count` fields.
pub fn expect_parts(codec: KeyCodec, space: Space, stored: &[u8], count: usize) -> (r: Result<
    Vec<DecodedKeyPart>,
>)
    ensures
        match r {
            Ok(parts) => parts@.len() == count && stored@ == spec_space_key(
                space,
                decoded_values(parts@),
            ),
            Err(e) => e is Codec && forall|parts: Seq<KeyPartValue>|
                parts.len() == count ==> spec_space_key(space, parts) != stored@,
        },
{
    let parts = match decode_space(codec, space, stored) {
        Ok(parts) => parts,
        Err(e) => {
            return Err(e);
        },
    };
    if parts.len() != count {
        proof {
            assert forall|ps: Seq<KeyPartValue>| ps.len() == count implies spec_space_key(space, ps)
                != stored@ by {
                if spec_space_key(space, ps) == stored@ {
                    lemma_spaces_are_disjoint(space, ps, space, decoded_values(parts@));
                }
            }
        }
        return Err(Error::Codec(text("key has the wrong field count")));
    }
    Ok(parts)
}

impl DecodedKeyPart {
    /// A field-for-field copy.
    pub fn clone_part(&self) -> (c: DecodedKeyPart)
        ensures
            c@ == self@,
    {
        match self {
            DecodedKeyPart::Bytes(b) => DecodedKeyPart::Bytes(b.clone()),
            DecodedKeyPart::Text(t) => DecodedKeyPart::Text(t.clone()),
            DecodedKeyPart::Bool(b) => DecodedKeyPart::Bool(*b),
            DecodedKeyPart::U8(v) => DecodedKeyPart::U8(*v),
            DecodedKeyPart::U64(v) => DecodedKeyPart::U64(*v),
            DecodedKeyPart::I64(v) => DecodedKeyPart::I64(*v),
            DecodedKeyPart::DescU64(v) => DecodedKeyPart::DescU64(*v),
        }
    }
}

/// A claim version, newest valid time first, then newest transaction time.
pub fn claim_key(subject: &str, predicate: &str, valid_from: u64, tx_time: u64) -> (key: Vec<u8>)
    ensures
        key@ == spec_space_key(Space::Claims, seq![KeyPartValue::Text(subject@), KeyPartValue::Text(predicate@), KeyPartValue::DescU64(valid_from), KeyPartValue::DescU64(tx_time)]),
{
    let parts = [KeyPart::Text(subject), KeyPart::Text(predicate), KeyPart::DescU64(valid_from), KeyPart::DescU64(tx_time)];
    proof {
        assert(part_values(parts@) =~= seq![KeyPartValue::Text(subject@), KeyPartValue::Text(predicate@), KeyPartValue::DescU64(valid_from), KeyPartValue::DescU64(tx_time)]);
    }
    encode(CLAIMS, &parts)
}

/// Every claim of one subject.
pub fn claim_subject_prefix(subject: &str) -> (key: Vec<u8>)
    ensures
        key@ == spec_space_key(Space::Claims, seq![KeyPartValue::Text(subject@)]),
{
    let parts = [KeyPart::Text(subject)];
    proof {
        assert(part_values(parts@) =~= seq![KeyPartValue::Text(subject@)]);
    }
    encode(CLAIMS, &parts)
}

/// Every version of one subject-predicate pair.
pub fn claim_version_prefix(subject: &str, predicate: &str) -> (key: Vec<u8>)
    ensures
        key@ == spec_space_key(Space::Claims, seq![KeyPartValue::Text(subject@), KeyPartValue::Text(predicate@)]),
{
    let parts = [KeyPart::Text(subject), KeyPart::Text(predicate)];
    proof {
        assert(part_values(parts@) =~= seq![KeyPartValue::Text(subject@), KeyPartValue::Text(predicate@)]);
    }
    encode(CLAIMS, &parts)
}

/// The first version of a pair valid at or before `as_of`.
pub fn claim_seek_key(subject: &str, predicate: &str, as_of: u64) -> (key: Vec<u8>)
    ensures
        key@ == spec_space_key(Space::Claims, seq![KeyPartValue::Text(subject@), KeyPartValue::Text(predicate@), KeyPartValue::DescU64(as_of)]),
{
    let parts = [KeyPart::Text(subject), KeyPart::Text(predicate), KeyPart::DescU64(as_of)];
    proof {
        assert(part_values(parts@) =~= seq![KeyPartValue::Text(subject@), KeyPartValue::Text(predicate@), KeyPartValue::DescU64(as_of)]);
    }
    encode(CLAIMS, &parts)
}

/// The claim-sequence index entry.
pub fn sequence_key(sequence: u64) -> (key: Vec<u8>)
    ensures
        key@ == spec_space_key(Space::SequenceIndex, seq![KeyPartValue::U64(sequence)]),
{
    let parts = [KeyPart::U64(sequence)];
    proof {
        assert(part_values(parts@) =~= seq![KeyPartValue::U64(sequence)]);
    }
    encode(SEQUENCE_INDEX, &parts)
}

/// One read observation.
pub fn access_key(at: u64, reader: &str, subject: &str, predicate: &str) -> (key: Vec<u8>)
    ensures
        key@ == spec_space_key(Space::Access, seq![KeyPartValue::U64(at), KeyPartValue::Text(reader@), KeyPartValue::Text(subject@), KeyPartValue::Text(predicate@)]),
{
    let parts = [KeyPart::U64(at), KeyPart::Text(reader), KeyPart::Text(subject), KeyPart::Text(predicate)];
    proof {
        assert(part_values(parts@) =~= seq![KeyPartValue::U64(at), KeyPartValue::Text(reader@), KeyPartValue::Text(subject@), KeyPartValue::Text(predicate@)]);
    }
    encode(ACCESS, &parts)
}

/// The first access observation at or after `at`.
pub fn access_bound(at: u64) -> (key: Vec<u8>)
    ensures
        key@ == spec_space_key(Space::Access, seq![KeyPartValue::U64(at)]),
{
    let parts = [KeyPart::U64(at)];
    proof {
        assert(part_values(parts@) =~= seq![KeyPartValue::U64(at)]);
    }
    encode(ACCESS, &parts)
}

/// One operator invocation record.
pub fn invocation_key(at: u64, ordinal: u64) -> (key: Vec<u8>)
    ensures
        key@ == spec_space_key(Space::Invocations, seq![KeyPartValue::U64(at), KeyPartValue::U64(ordinal)]),
{
    let parts = [KeyPart::U64(at), KeyPart::U64(ordinal)];
    proof {
        assert(part_values(parts@) =~= seq![KeyPartValue::U64(at), KeyPartValue::U64(ordinal)]);
    }
    encode(INVOCATIONS, &parts)
}

/// The first invocation record at or after `at`.
pub fn invocation_bound(at: u64) -> (key: Vec<u8>)
    ensures
        key@ == spec_space_key(Space::Invocations, seq![KeyPartValue::U64(at)]),
{
    let parts = [KeyPart::U64(at)];
    proof {
        assert(part_values(parts@) =~= seq![KeyPartValue::U64(at)]);
    }
    encode(INVOCATIONS, &parts)
}

/// One catalogue membership revision.
pub fn function_catalogue_membership_key(instance: &str, revision: u64) -> (key: Vec<u8>)
    ensures
        key@ == spec_space_key(Space::FunctionCatalogueMemberships, seq![KeyPartValue::Text(instance@), KeyPartValue::U64(revision)]),
{
    let parts = [KeyPart::Text(instance), KeyPart::U64(revision)];
    proof {
        assert(part_values(parts@) =~= seq![KeyPartValue::Text(instance@), KeyPartValue::U64(revision)]);
    }
    encode(FUNCTION_CATALOGUE_MEMBERSHIPS, &parts)
}

/// The catalogue head of an instance.
pub fn function_catalogue_head_key(instance: &str) -> (key: Vec<u8>)
    ensures
        key@ == spec_space_key(Space::FunctionCatalogueHeads, seq![KeyPartValue::Text(instance@)]),
{
    let parts = [KeyPart::Text(instance)];
    proof {
        assert(part_values(parts@) =~= seq![KeyPartValue::Text(instance@)]);
    }
    encode(FUNCTION_CATALOGUE_HEADS, &parts)
}

/// One function invocation receipt.
pub fn function_invocation_receipt_key(instance: &str, invocation_id: &str) -> (key: Vec<u8>)
    ensures
        key@ == spec_space_key(Space::Invocations, seq![KeyPartValue::Text(instance@), KeyPartValue::Text(invocation_id@)]),
{
    let parts = [KeyPart::Text(instance), KeyPart::Text(invocation_id)];
    proof {
        assert(part_values(parts@) =~= seq![KeyPartValue::Text(instance@), KeyPartValue::Text(invocation_id@)]);
    }
    encode(INVOCATIONS, &parts)
}

/// A named derived projection.
pub fn projection_key(name: &str) -> (key: Vec<u8>)
    ensures
        key@ == spec_space_key(Space::Projections, seq![KeyPartValue::Text(name@)]),
{
    let parts = [KeyPart::Text(name)];
    proof {
        assert(part_values(parts@) =~= seq![KeyPartValue::Text(name@)]);
    }
    encode(PROJECTIONS, &parts)
}

/// One runtime change-log entry.
pub fn runtime_change_key(cursor: u64) -> (key: Vec<u8>)
    ensures
        key@ == spec_space_key(Space::RuntimeChanges, seq![KeyPartValue::U64(cursor)]),
{
    let parts = [KeyPart::U64(cursor)];
    proof {
        assert(part_values(parts@) =~= seq![KeyPartValue::U64(cursor)]);
    }
    encode(RUNTIME_CHANGES, &parts)
}

/// The current value of one runtime identity.
pub fn runtime_identity_key(space: Space, scope: &str, kind: &str, id: &str) -> (key: Vec<u8>)
    requires
        space is RuntimeRecords || space is RuntimeRelations || space is RuntimeVectors || space is RuntimeSeries || space is RuntimeGeo || space is RuntimeObjects,
    ensures
        key@ == spec_space_key(space, seq![KeyPartValue::Text(scope@), KeyPartValue::Text(kind@), KeyPartValue::Text(id@)]),
{
    let parts = [KeyPart::Text(scope), KeyPart::Text(kind), KeyPart::Text(id)];
    proof {
        assert(part_values(parts@) =~= seq![KeyPartValue::Text(scope@), KeyPartValue::Text(kind@), KeyPartValue::Text(id@)]);
    }
    encode(space, &parts)
}

/// One version of a runtime identity, newest first.
pub fn runtime_version_key(space: Space, scope: &str, kind: &str, id: &str, effective_at: u64, cursor: u64) -> (key: Vec<u8>)
    requires
        space is RuntimeRecordVersions || space is RuntimeRelationVersions || space is RuntimeEventVersions || space is RuntimeSeriesVersions || space is RuntimeGeoVersions || space is RuntimeObjectVersions,
    ensures
        key@ == spec_space_key(space, seq![KeyPartValue::Text(scope@), KeyPartValue::Text(kind@), KeyPartValue::Text(id@), KeyPartValue::DescU64(effective_at), KeyPartValue::DescU64(cursor)]),
{
    let parts = [KeyPart::Text(scope), KeyPart::Text(kind), KeyPart::Text(id), KeyPart::DescU64(effective_at), KeyPart::DescU64(cursor)];
    proof {
        assert(part_values(parts@) =~= seq![KeyPartValue::Text(scope@), KeyPartValue::Text(kind@), KeyPartValue::Text(id@), KeyPartValue::DescU64(effective_at), KeyPartValue::DescU64(cursor)]);
    }
    encode(space, &parts)
}

/// Every version of one runtime kind in a scope.
pub fn runtime_kind_prefix(space: Space, scope: &str, kind: &str) -> (key: Vec<u8>)
    requires
        space is RuntimeRecordVersions || space is RuntimeRelationVersions || space is RuntimeEventVersions || space is RuntimeVectorVersions || space is RuntimeSeriesVersions || space is RuntimeGeoVersions || space is RuntimeObjectVersions,
    ensures
        key@ == spec_space_key(space, seq![KeyPartValue::Text(scope@), KeyPartValue::Text(kind@)]),
{
    let parts = [KeyPart::Text(scope), KeyPart::Text(kind)];
    proof {
        assert(part_values(parts@) =~= seq![KeyPartValue::Text(scope@), KeyPartValue::Text(kind@)]);
    }
    encode(space, &parts)
}

/// One runtime claim version, grouped by predicate.
pub fn runtime_claim_version_key(scope: &str, predicate: &str, subject: &str, valid_from: u64, tx_time: u64, cursor: u64) -> (key: Vec<u8>)
    ensures
        key@ == spec_space_key(Space::RuntimeClaimVersions, seq![KeyPartValue::Text(scope@), KeyPartValue::Text(predicate@), KeyPartValue::Text(subject@), KeyPartValue::DescU64(valid_from), KeyPartValue::DescU64(tx_time), KeyPartValue::DescU64(cursor)]),
{
    let parts = [KeyPart::Text(scope), KeyPart::Text(predicate), KeyPart::Text(subject), KeyPart::DescU64(valid_from), KeyPart::DescU64(tx_time), KeyPart::DescU64(cursor)];
    proof {
        assert(part_values(parts@) =~= seq![KeyPartValue::Text(scope@), KeyPartValue::Text(predicate@), KeyPartValue::Text(subject@), KeyPartValue::DescU64(valid_from), KeyPartValue::DescU64(tx_time), KeyPartValue::DescU64(cursor)]);
    }
    encode(RUNTIME_CLAIM_VERSIONS, &parts)
}

/// Every runtime claim version of one predicate in a scope.
pub fn runtime_claim_predicate_prefix(scope: &str, predicate: &str) -> (key: Vec<u8>)
    ensures
        key@ == spec_space_key(Space::RuntimeClaimVersions, seq![KeyPartValue::Text(scope@), KeyPartValue::Text(predicate@)]),
{
    let parts = [KeyPart::Text(scope), KeyPart::Text(predicate)];
    proof {
        assert(part_values(parts@) =~= seq![KeyPartValue::Text(scope@), KeyPartValue::Text(predicate@)]);
    }
    encode(RUNTIME_CLAIM_VERSIONS, &parts)
}

/// The first projection delta at or after `cursor`.
pub fn runtime_projection_delta_start(cursor: u64) -> (key: Vec<u8>)
    ensures
        key@ == spec_space_key(Space::RuntimeProjectionDeltas, seq![KeyPartValue::U64(cursor)]),
{
    let parts = [KeyPart::U64(cursor)];
    proof {
        assert(part_values(parts@) =~= seq![KeyPartValue::U64(cursor)]);
    }
    encode(RUNTIME_PROJECTION_DELTAS, &parts)
}

/// The binding of one index in a scope.
pub fn runtime_index_binding_key(scope: &str, index: &str) -> (key: Vec<u8>)
    ensures
        key@ == spec_space_key(Space::RuntimeIndexBindings, seq![KeyPartValue::Text(scope@), KeyPartValue::Text(index@)]),
{
    let parts = [KeyPart::Text(scope), KeyPart::Text(index)];
    proof {
        assert(part_values(parts@) =~= seq![KeyPartValue::Text(scope@), KeyPartValue::Text(index@)]);
    }
    encode(RUNTIME_INDEX_BINDINGS, &parts)
}

/// Every index binding of a scope.
pub fn runtime_index_binding_scope_prefix(scope: &str) -> (key: Vec<u8>)
    ensures
        key@ == spec_space_key(Space::RuntimeIndexBindings, seq![KeyPartValue::Text(scope@)]),
{
    let parts = [KeyPart::Text(scope)];
    proof {
        assert(part_values(parts@) =~= seq![KeyPartValue::Text(scope@)]);
    }
    encode(RUNTIME_INDEX_BINDINGS, &parts)
}

/// The binding set of a scope.
pub fn runtime_index_binding_set_key(scope: &str) -> (key: Vec<u8>)
    ensures
        key@ == spec_space_key(Space::RuntimeIndexBindingSets, seq![KeyPartValue::Text(scope@)]),
{
    let parts = [KeyPart::Text(scope)];
    proof {
        assert(part_values(parts@) =~= seq![KeyPartValue::Text(scope@)]);
    }
    encode(RUNTIME_INDEX_BINDING_SETS, &parts)
}

/// One revision of an index binding.
pub fn runtime_index_binding_version_key(scope: &str, index: &str, catalogue_revision: u64, schema_revision: u64) -> (key: Vec<u8>)
    ensures
        key@ == spec_space_key(Space::RuntimeIndexBindingVersions, seq![KeyPartValue::Text(scope@), KeyPartValue::Text(index@), KeyPartValue::U64(catalogue_revision), KeyPartValue::U64(schema_revision)]),
{
    let parts = [KeyPart::Text(scope), KeyPart::Text(index), KeyPart::U64(catalogue_revision), KeyPart::U64(schema_revision)];
    proof {
        assert(part_values(parts@) =~= seq![KeyPartValue::Text(scope@), KeyPartValue::Text(index@), KeyPartValue::U64(catalogue_revision), KeyPartValue::U64(schema_revision)]);
    }
    encode(RUNTIME_INDEX_BINDING_VERSIONS, &parts)
}

/// Every entry of one index.
pub fn runtime_index_entry_prefix(space: Space, scope: &str, index: &str) -> (key: Vec<u8>)
    requires
        space is RuntimeScalarEntries || space is RuntimeUniqueEntries,
    ensures
        key@ == spec_space_key(space, seq![KeyPartValue::Text(scope@), KeyPartValue::Text(index@)]),
{
    let parts = [KeyPart::Text(scope), KeyPart::Text(index)];
    proof {
        assert(part_values(parts@) =~= seq![KeyPartValue::Text(scope@), KeyPartValue::Text(index@)]);
    }
    encode(space, &parts)
}

/// One source delta of an index.
pub fn runtime_index_source_delta_key(scope: &str, index: &str, cursor: u64, ordinal: u64) -> (key: Vec<u8>)
    ensures
        key@ == spec_space_key(Space::RuntimeIndexSourceDeltas, seq![KeyPartValue::Text(scope@), KeyPartValue::Text(index@), KeyPartValue::U64(cursor), KeyPartValue::U64(ordinal)]),
{
    let parts = [KeyPart::Text(scope), KeyPart::Text(index), KeyPart::U64(cursor), KeyPart::U64(ordinal)];
    proof {
        assert(part_values(parts@) =~= seq![KeyPartValue::Text(scope@), KeyPartValue::Text(index@), KeyPartValue::U64(cursor), KeyPartValue::U64(ordinal)]);
    }
    encode(RUNTIME_INDEX_SOURCE_DELTAS, &parts)
}

/// Every source delta of one index.
pub fn runtime_index_source_delta_prefix(scope: &str, index: &str) -> (key: Vec<u8>)
    ensures
        key@ == spec_space_key(Space::RuntimeIndexSourceDeltas, seq![KeyPartValue::Text(scope@), KeyPartValue::Text(index@)]),
{
    let parts = [KeyPart::Text(scope), KeyPart::Text(index)];
    proof {
        assert(part_values(parts@) =~= seq![KeyPartValue::Text(scope@), KeyPartValue::Text(index@)]);
    }
    encode(RUNTIME_INDEX_SOURCE_DELTAS, &parts)
}

/// One vector version, newest first.
pub fn runtime_vector_version_key(scope: &str, kind: &str, id: &str, effective_at: u64, cursor: u64) -> (key: Vec<u8>)
    ensures
        key@ == spec_space_key(Space::RuntimeVectorVersions, seq![KeyPartValue::Text(scope@), KeyPartValue::Text(kind@), KeyPartValue::Text(id@), KeyPartValue::DescU64(effective_at), KeyPartValue::DescU64(cursor)]),
{
    let parts = [KeyPart::Text(scope), KeyPart::Text(kind), KeyPart::Text(id), KeyPart::DescU64(effective_at), KeyPart::DescU64(cursor)];
    proof {
        assert(part_values(parts@) =~= seq![KeyPartValue::Text(scope@), KeyPartValue::Text(kind@), KeyPartValue::Text(id@), KeyPartValue::DescU64(effective_at), KeyPartValue::DescU64(cursor)]);
    }
    encode(RUNTIME_VECTOR_VERSIONS, &parts)
}

/// Every key of a space within one scope.
pub fn runtime_scope_prefix(space: Space, scope: &str) -> (key: Vec<u8>)
    ensures
        key@ == spec_space_key(space, seq![KeyPartValue::Text(scope@)]),
{
    let parts = [KeyPart::Text(scope)];
    proof {
        assert(part_values(parts@) =~= seq![KeyPartValue::Text(scope@)]);
    }
    encode(space, &parts)
}

/// One outbox entry.
pub fn runtime_outbox_key(cursor: u64) -> (key: Vec<u8>)
    ensures
        key@ == spec_space_key(Space::RuntimeOutbox, seq![KeyPartValue::U64(cursor)]),
{
    let parts = [KeyPart::U64(cursor)];
    proof {
        assert(part_values(parts@) =~= seq![KeyPartValue::U64(cursor)]);
    }
    encode(RUNTIME_OUTBOX, &parts)
}

/// The audit envelope of one commit.
pub fn runtime_audit_key(commit_id: &str) -> (key: Vec<u8>)
    ensures
        key@ == spec_space_key(Space::RuntimeAudit, seq![KeyPartValue::Text(commit_id@)]),
{
    let parts = [KeyPart::Text(commit_id)];
    proof {
        assert(part_values(parts@) =~= seq![KeyPartValue::Text(commit_id@)]);
    }
    encode(RUNTIME_AUDIT, &parts)
}

/// The outcome of one commit.
pub fn runtime_commit_key(commit_id: &str) -> (key: Vec<u8>)
    ensures
        key@ == spec_space_key(Space::RuntimeCommits, seq![KeyPartValue::Text(commit_id@)]),
{
    let parts = [KeyPart::Text(commit_id)];
    proof {
        assert(part_values(parts@) =~= seq![KeyPartValue::Text(commit_id@)]);
    }
    encode(RUNTIME_COMMITS, &parts)
}

/// The schema registry of a scope.
pub fn runtime_schema_key(scope: &str) -> (key: Vec<u8>)
    ensures
        key@ == spec_space_key(Space::RuntimeSchemas, seq![KeyPartValue::Text(scope@)]),
{
    let parts = [KeyPart::Text(scope)];
    proof {
        assert(part_values(parts@) =~= seq![KeyPartValue::Text(scope@)]);
    }
    encode(RUNTIME_SCHEMAS, &parts)
}

/// One schema revision, newest first.
pub fn runtime_schema_version_key(scope: &str, cursor: u64) -> (key: Vec<u8>)
    ensures
        key@ == spec_space_key(Space::RuntimeSchemaVersions, seq![KeyPartValue::Text(scope@), KeyPartValue::DescU64(cursor)]),
{
    let parts = [KeyPart::Text(scope), KeyPart::DescU64(cursor)];
    proof {
        assert(part_values(parts@) =~= seq![KeyPartValue::Text(scope@), KeyPartValue::DescU64(cursor)]);
    }
    encode(RUNTIME_SCHEMA_VERSIONS, &parts)
}

/// One leased snapshot.
pub fn runtime_snapshot_key(id: &str) -> (key: Vec<u8>)
    ensures
        key@ == spec_space_key(Space::RuntimeSnapshots, seq![KeyPartValue::Text(id@)]),
{
    let parts = [KeyPart::Text(id)];
    proof {
        assert(part_values(parts@) =~= seq![KeyPartValue::Text(id@)]);
    }
    encode(RUNTIME_SNAPSHOTS, &parts)
}

/// The claim-sequence watermark.
pub fn sequence_watermark_key() -> (key: Vec<u8>)
    ensures
        key@ == spec_space_key(Space::System, seq![KeyPartValue::U8(SystemEntry::ClaimSequence.spec_tag())]),
{
    let parts = [KeyPart::U8(SystemEntry::ClaimSequence.tag())];
    proof {
        assert(part_values(parts@) =~= seq![KeyPartValue::U8(SystemEntry::ClaimSequence.spec_tag())]);
    }
    encode(META, &parts)
}

/// The accepted idempotent append under one key.
pub fn accepted_append_key(idempotency_key: &str) -> (key: Vec<u8>)
    ensures
        key@ == spec_space_key(Space::System, seq![KeyPartValue::U8(SystemEntry::AcceptedClaimAppend.spec_tag()), KeyPartValue::Text(idempotency_key@)]),
{
    let parts = [KeyPart::U8(SystemEntry::AcceptedClaimAppend.tag()), KeyPart::Text(idempotency_key)];
    proof {
        assert(part_values(parts@) =~= seq![KeyPartValue::U8(SystemEntry::AcceptedClaimAppend.spec_tag()), KeyPartValue::Text(idempotency_key@)]);
    }
    encode(META, &parts)
}

/// The materialized value of one control key.
pub fn control_record_key(key: &str) -> (stored: Vec<u8>)
    ensures
        stored@ == spec_space_key(Space::System, seq![KeyPartValue::U8(SystemEntry::ControlValue.spec_tag()), KeyPartValue::Text(key@)]),
{
    let parts = [KeyPart::U8(SystemEntry::ControlValue.tag()), KeyPart::Text(key)];
    proof {
        assert(part_values(parts@) =~= seq![KeyPartValue::U8(SystemEntry::ControlValue.spec_tag()), KeyPartValue::Text(key@)]);
    }
    encode(META, &parts)
}

/// The control-journal sequence watermark.
pub fn control_journal_sequence_key() -> (key: Vec<u8>)
    ensures
        key@ == spec_space_key(Space::System, seq![KeyPartValue::U8(SystemEntry::ControlJournalSequence.spec_tag())]),
{
    let parts = [KeyPart::U8(SystemEntry::ControlJournalSequence.tag())];
    proof {
        assert(part_values(parts@) =~= seq![KeyPartValue::U8(SystemEntry::ControlJournalSequence.spec_tag())]);
    }
    encode(META, &parts)
}

/// The digest of the last control-journal entry.
pub fn control_journal_last_digest_key() -> (key: Vec<u8>)
    ensures
        key@ == spec_space_key(Space::System, seq![KeyPartValue::U8(SystemEntry::ControlJournalLastDigest.spec_tag())]),
{
    let parts = [KeyPart::U8(SystemEntry::ControlJournalLastDigest.tag())];
    proof {
        assert(part_values(parts@) =~= seq![KeyPartValue::U8(SystemEntry::ControlJournalLastDigest.spec_tag())]);
    }
    encode(META, &parts)
}

/// One control-journal entry.
pub fn control_journal_key(sequence: u64) -> (key: Vec<u8>)
    ensures
        key@ == spec_space_key(Space::System, seq![KeyPartValue::U8(SystemEntry::ControlJournalEntry.spec_tag()), KeyPartValue::U64(sequence)]),
{
    let parts = [KeyPart::U8(SystemEntry::ControlJournalEntry.tag()), KeyPart::U64(sequence)];
    proof {
        assert(part_values(parts@) =~= seq![KeyPartValue::U8(SystemEntry::ControlJournalEntry.spec_tag()), KeyPartValue::U64(sequence)]);
    }
    encode(META, &parts)
}

/// The catalogue revision of a scope.
pub fn catalog_revision_key(scope: &str) -> (key: Vec<u8>)
    ensures
        key@ == spec_space_key(Space::System, seq![KeyPartValue::U8(SystemEntry::CatalogueRevision.spec_tag()), KeyPartValue::Text(scope@)]),
{
    let parts = [KeyPart::U8(SystemEntry::CatalogueRevision.tag()), KeyPart::Text(scope)];
    proof {
        assert(part_values(parts@) =~= seq![KeyPartValue::U8(SystemEntry::CatalogueRevision.spec_tag()), KeyPartValue::Text(scope@)]);
    }
    encode(META, &parts)
}

/// The invocation ordinal watermark.
pub fn invocation_watermark_key() -> (key: Vec<u8>)
    ensures
        key@ == spec_space_key(Space::System, seq![KeyPartValue::U8(SystemEntry::InvocationOrdinal.spec_tag())]),
{
    let parts = [KeyPart::U8(SystemEntry::InvocationOrdinal.tag())];
    proof {
        assert(part_values(parts@) =~= seq![KeyPartValue::U8(SystemEntry::InvocationOrdinal.spec_tag())]);
    }
    encode(META, &parts)
}

/// The runtime commit cursor.
pub fn runtime_cursor_key() -> (key: Vec<u8>)
    ensures
        key@ == spec_space_key(Space::System, seq![KeyPartValue::U8(SystemEntry::RuntimeCursor.spec_tag())]),
{
    let parts = [KeyPart::U8(SystemEntry::RuntimeCursor.tag())];
    proof {
        assert(part_values(parts@) =~= seq![KeyPartValue::U8(SystemEntry::RuntimeCursor.spec_tag())]);
    }
    encode(META, &parts)
}

/// The digest of the last runtime change.
pub fn runtime_last_digest_key() -> (key: Vec<u8>)
    ensures
        key@ == spec_space_key(Space::System, seq![KeyPartValue::U8(SystemEntry::RuntimeLastDigest.spec_tag())]),
{
    let parts = [KeyPart::U8(SystemEntry::RuntimeLastDigest.tag())];
    proof {
        assert(part_values(parts@) =~= seq![KeyPartValue::U8(SystemEntry::RuntimeLastDigest.spec_tag())]);
    }
    encode(META, &parts)
}

/// The digest of the last audit envelope.
pub fn runtime_last_audit_digest_key() -> (key: Vec<u8>)
    ensures
        key@ == spec_space_key(Space::System, seq![KeyPartValue::U8(SystemEntry::RuntimeLastAuditDigest.spec_tag())]),
{
    let parts = [KeyPart::U8(SystemEntry::RuntimeLastAuditDigest.tag())];
    proof {
        assert(part_values(parts@) =~= seq![KeyPartValue::U8(SystemEntry::RuntimeLastAuditDigest.spec_tag())]);
    }
    encode(META, &parts)
}

/// The runtime log accumulator state.
pub fn runtime_accumulator_state_key() -> (key: Vec<u8>)
    ensures
        key@ == spec_space_key(Space::System, seq![KeyPartValue::U8(SystemEntry::RuntimeAccumulatorState.spec_tag())]),
{
    let parts = [KeyPart::U8(SystemEntry::RuntimeAccumulatorState.tag())];
    proof {
        assert(part_values(parts@) =~= seq![KeyPartValue::U8(SystemEntry::RuntimeAccumulatorState.spec_tag())]);
    }
    encode(META, &parts)
}

/// One runtime log accumulator node.
pub fn runtime_accumulator_node_key(level: u8, index: u64) -> (key: Vec<u8>)
    ensures
        key@ == spec_space_key(Space::System, seq![KeyPartValue::U8(SystemEntry::RuntimeAccumulatorNode.spec_tag()), KeyPartValue::U8(level), KeyPartValue::U64(index)]),
{
    let parts = [KeyPart::U8(SystemEntry::RuntimeAccumulatorNode.tag()), KeyPart::U8(level), KeyPart::U64(index)];
    proof {
        assert(part_values(parts@) =~= seq![KeyPartValue::U8(SystemEntry::RuntimeAccumulatorNode.spec_tag()), KeyPartValue::U8(level), KeyPartValue::U64(index)]);
    }
    encode(META, &parts)
}

/// An owned copy of bytes.
fn copy_bytes(v: &Vec<u8>) -> (c: Vec<u8>)
    ensures
        c@ == v@,
{
    let mut c: Vec<u8> = Vec::new();
    crate::bytes::push_all(&mut c, v.as_slice());
    c
}

/// The value of a hexadecimal digit byte.
pub open spec fn hex_digit_value(b: u8) -> u8 {
    if 48 <= b <= 57 {
        (b - 48) as u8
    } else {
        (b - 87) as u8
    }
}

/// A lowercase hexadecimal digit byte.
pub open spec fn is_lower_hex_byte(b: u8) -> bool {
    (48 <= b <= 57) || (97 <= b <= 102)
}

/// The bytes denoted by lowercase hexadecimal text, two digits per byte.
pub open spec fn spec_decode_hex(text: Seq<u8>) -> Seq<u8> {
    Seq::new(
        text.len() / 2,
        |i: int| (hex_digit_value(text[2 * i]) * 16 + hex_digit_value(text[2 * i + 1])) as u8,
    )
}

/// Text that is exactly 64 lowercase hexadecimal digits.
pub open spec fn is_sha256_text(text: Seq<u8>) -> bool {
    text.len() == 64 && forall|i: int| 0 <= i < 64 ==> is_lower_hex_byte(#[trigger] text[i])
}

fn decode_hex_digit(value: u8) -> (r: Result<u8>)
    ensures
        match r {
            Ok(d) => is_lower_hex_byte(value) && d == hex_digit_value(value) && d < 16,
            Err(_) => !is_lower_hex_byte(value),
        },
{
    if 48 <= value && value <= 57 {
        Ok(value - 48)
    } else if 97 <= value && value <= 102 {
        Ok(value - 87)
    } else {
        Err(Error::Codec(text("SHA-256 key coordinate is not lowercase hexadecimal")))
    }
}

/// The 32 digest bytes of a lowercase SHA-256 hexadecimal coordinate.
pub fn decode_sha256(value: &str) -> (r: Result<Vec<u8>>)
    ensures
        match r {
            Ok(digest) => is_sha256_text(value.spec_bytes()) && digest@ == spec_decode_hex(
                value.spec_bytes(),
            ) && digest@.len() == 32,
            Err(_) => !is_sha256_text(value.spec_bytes()),
        },
{
    let bytes = value.as_bytes();
    if bytes.len() != 64 {
        return Err(Error::Codec(text("SHA-256 key coordinate has invalid length")));
    }
    let mut digest: Vec<u8> = Vec::new();
    let mut i: usize = 0;
    while i < 32
        invariant
            i <= 32,
            bytes@ == value.spec_bytes(),
            bytes@.len() == 64,
            forall|j: int| 0 <= j < 2 * i ==> is_lower_hex_byte(#[trigger] bytes@[j]),
            digest@ =~= spec_decode_hex(bytes@).take(i as int),
        decreases 32 - i,
    {
        let high = match decode_hex_digit(bytes[2 * i]) {
            Ok(d) => d,
            Err(e) => {
                return Err(e);
            },
        };
        let low = match decode_hex_digit(bytes[2 * i + 1]) {
            Ok(d) => d,
            Err(e) => {
                return Err(e);
            },
        };
        digest.push(high * 16 + low);
        i = i + 1;
        assert(digest@ =~= spec_decode_hex(bytes@).take(i as int));
    }
    assert(spec_decode_hex(bytes@).take(32) =~= spec_decode_hex(bytes@));
    Ok(digest)
}

/// One function artifact, addressed by its content digest.
pub fn function_artifact_key(instance: &str, content_sha256: &str) -> (r: Result<Vec<u8>>)
    ensures
        match r {
            Ok(key) => is_sha256_text(content_sha256.spec_bytes()) && key@ == spec_space_key(
                Space::FunctionArtifacts,
                seq![
                    KeyPartValue::Text(instance@),
                    KeyPartValue::Bytes(spec_decode_hex(content_sha256.spec_bytes())),
                ],
            ),
            Err(_) => !is_sha256_text(content_sha256.spec_bytes()),
        },
{
    let digest = decode_sha256(content_sha256)?;
    let parts = [KeyPart::Text(instance), KeyPart::Bytes(digest.as_slice())];
    proof {
        assert(part_values(parts@) =~= seq![
            KeyPartValue::Text(instance@),
            KeyPartValue::Bytes(spec_decode_hex(content_sha256.spec_bytes())),
        ]);
    }
    Ok(encode(FUNCTION_ARTIFACTS, &parts))
}

/// One function definition revision, addressed by its digest.
pub fn function_definition_key(instance: &str, function_id: &str, definition_sha256: &str) -> (r:
    Result<Vec<u8>>)
    ensures
        match r {
            Ok(key) => is_sha256_text(definition_sha256.spec_bytes()) && key@ == spec_space_key(
                Space::FunctionDefinitions,
                seq![
                    KeyPartValue::Text(instance@),
                    KeyPartValue::Text(function_id@),
                    KeyPartValue::Bytes(spec_decode_hex(definition_sha256.spec_bytes())),
                ],
            ),
            Err(_) => !is_sha256_text(definition_sha256.spec_bytes()),
        },
{
    let digest = decode_sha256(definition_sha256)?;
    let parts = [
        KeyPart::Text(instance),
        KeyPart::Text(function_id),
        KeyPart::Bytes(digest.as_slice()),
    ];
    proof {
        assert(part_values(parts@) =~= seq![
            KeyPartValue::Text(instance@),
            KeyPartValue::Text(function_id@),
            KeyPartValue::Bytes(spec_decode_hex(definition_sha256.spec_bytes())),
        ]);
    }
    Ok(encode(FUNCTION_DEFINITIONS, &parts))
}

/// One transaction-function binding revision, addressed by its digest.
pub fn transaction_function_binding_key(instance: &str, binding_id: &str, binding_sha256: &str) -> (r:
    Result<Vec<u8>>)
    ensures
        match r {
            Ok(key) => is_sha256_text(binding_sha256.spec_bytes()) && key@ == spec_space_key(
                Space::TransactionFunctionBindings,
                seq![
                    KeyPartValue::Text(instance@),
                    KeyPartValue::Text(binding_id@),
                    KeyPartValue::Bytes(spec_decode_hex(binding_sha256.spec_bytes())),
                ],
            ),
            Err(_) => !is_sha256_text(binding_sha256.spec_bytes()),
        },
{
    let digest = decode_sha256(binding_sha256)?;
    let parts = [
        KeyPart::Text(instance),
        KeyPart::Text(binding_id),
        KeyPart::Bytes(digest.as_slice()),
    ];
    proof {
        assert(part_values(parts@) =~= seq![
            KeyPartValue::Text(instance@),
            KeyPartValue::Text(binding_id@),
            KeyPartValue::Bytes(spec_decode_hex(binding_sha256.spec_bytes())),
        ]);
    }
    Ok(encode(TRANSACTION_FUNCTION_BINDINGS, &parts))
}

/// A typed runtime reference: a kind and an identity within it.
#[derive(Debug, Clone, PartialEq, Eq)]
pub struct RuntimeRef {
    pub kind: String,
    pub id: String,
}

/// The direction in which an adjacency space stores an edge: outgoing
/// spaces lead with the source, incoming spaces with the target.
pub open spec fn adjacency_is_outgoing(space: Space) -> bool {
    space is RuntimeOutgoingEdges || space is RuntimeOutgoingEdgeVersions
}

pub open spec fn adjacency_parts(
    space: Space,
    scope: Seq<char>,
    reference: RuntimeRef,
    from: RuntimeRef,
    to: RuntimeRef,
) -> Seq<KeyPartValue> {
    let (source, target) = if adjacency_is_outgoing(space) {
        (from, to)
    } else {
        (to, from)
    };
    seq![
        KeyPartValue::Text(scope),
        KeyPartValue::Text(source.kind@),
        KeyPartValue::Text(source.id@),
        KeyPartValue::Text(reference.kind@),
        KeyPartValue::Text(target.kind@),
        KeyPartValue::Text(target.id@),
        KeyPartValue::Text(reference.id@),
    ]
}

/// The current adjacency entry of one relation `reference` from `from` to `to`.
pub fn runtime_adjacency_key(
    space: Space,
    scope: &str,
    reference: &RuntimeRef,
    from: &RuntimeRef,
    to: &RuntimeRef,
) -> (key: Vec<u8>)
    requires
        space is RuntimeOutgoingEdges || space is RuntimeIncomingEdges,
    ensures
        key@ == spec_space_key(space, adjacency_parts(space, scope@, *reference, *from, *to)),
{
    let outgoing = matches!(space, Space::RuntimeOutgoingEdges);
    let (source, target) = if outgoing {
        (from, to)
    } else {
        (to, from)
    };
    let parts = [
        KeyPart::Text(scope),
        KeyPart::Text(source.kind.as_str()),
        KeyPart::Text(source.id.as_str()),
        KeyPart::Text(reference.kind.as_str()),
        KeyPart::Text(target.kind.as_str()),
        KeyPart::Text(target.id.as_str()),
        KeyPart::Text(reference.id.as_str()),
    ];
    proof {
        assert(part_values(parts@) =~= adjacency_parts(space, scope@, *reference, *from, *to));
    }
    encode(space, &parts)
}

/// One version of an adjacency entry, newest first.
pub fn runtime_adjacency_version_key(
    space: Space,
    scope: &str,
    reference: &RuntimeRef,
    from: &RuntimeRef,
    to: &RuntimeRef,
    effective_at: u64,
    cursor: u64,
) -> (key: Vec<u8>)
    requires
        space is RuntimeOutgoingEdgeVersions || space is RuntimeIncomingEdgeVersions,
    ensures
        key@ == spec_space_key(
            space,
            adjacency_parts(space, scope@, *reference, *from, *to) + seq![
                KeyPartValue::DescU64(effective_at),
                KeyPartValue::DescU64(cursor),
            ],
        ),
{
    let outgoing = matches!(space, Space::RuntimeOutgoingEdgeVersions);
    let (source, target) = if outgoing {
        (from, to)
    } else {
        (to, from)
    };
    let parts = [
        KeyPart::Text(scope),
        KeyPart::Text(source.kind.as_str()),
        KeyPart::Text(source.id.as_str()),
        KeyPart::Text(reference.kind.as_str()),
        KeyPart::Text(target.kind.as_str()),
        KeyPart::Text(target.id.as_str()),
        KeyPart::Text(reference.id.as_str()),
        KeyPart::DescU64(effective_at),
        KeyPart::DescU64(cursor),
    ];
    proof {
        assert(part_values(parts@) =~= adjacency_parts(space, scope@, *reference, *from, *to)
            + seq![KeyPartValue::DescU64(effective_at), KeyPartValue::DescU64(cursor)]);
    }
    encode(space, &parts)
}

/// Families of derived projection work.
#[derive(Debug, Clone, Copy, PartialEq, Eq)]
pub enum ProjectionFamily {
    Scalar,
    Graph,
    Text,
    Vector,
    TimeSeries,
    Geo,
    Object,
}

impl ProjectionFamily {
    pub open spec fn spec_tag(self) -> u8 {
        match self {
            ProjectionFamily::Scalar => 0,
            ProjectionFamily::Graph => 1,
            ProjectionFamily::Text => 2,
            ProjectionFamily::Vector => 3,
            ProjectionFamily::TimeSeries => 4,
            ProjectionFamily::Geo => 5,
            ProjectionFamily::Object => 6,
        }
    }

    /// The frozen key byte of a projection family.
    pub fn tag(self) -> (b: u8)
        ensures
            b == self.spec_tag(),
    {
        match self {
            ProjectionFamily::Scalar => 0,
            ProjectionFamily::Graph => 1,
            ProjectionFamily::Text => 2,
            ProjectionFamily::Vector => 3,
            ProjectionFamily::TimeSeries => 4,
            ProjectionFamily::Geo => 5,
            ProjectionFamily::Object => 6,
        }
    }
}

/// One unit of projection work, ordered by source cursor then commit ordinal.
pub fn runtime_projection_delta_key(
    source_cursor: u64,
    commit_ordinal: u64,
    family: ProjectionFamily,
    scope: &str,
) -> (key: Vec<u8>)
    ensures
        key@ == spec_space_key(
            Space::RuntimeProjectionDeltas,
            seq![
                KeyPartValue::U64(source_cursor),
                KeyPartValue::U64(commit_ordinal),
                KeyPartValue::U8(family.spec_tag()),
                KeyPartValue::Text(scope@),
            ],
        ),
{
    let parts = [
        KeyPart::U64(source_cursor),
        KeyPart::U64(commit_ordinal),
        KeyPart::U8(family.tag()),
        KeyPart::Text(scope),
    ];
    proof {
        assert(part_values(parts@) =~= seq![
            KeyPartValue::U64(source_cursor),
            KeyPartValue::U64(commit_ordinal),
            KeyPartValue::U8(family.spec_tag()),
            KeyPartValue::Text(scope@),
        ]);
    }
    encode(RUNTIME_PROJECTION_DELTAS, &parts)
}

/// A scalar value that can be placed in an index key.
#[derive(Debug, Clone, PartialEq, Eq)]
pub enum RuntimeValue {
    Null,
    Bool(bool),
    Integer(i64),
    Unsigned(u64),
    Decimal(String),
    String(String),
    Digest(String),
    /// A list value; lists cannot be index-key fields.
    List(Vec<String>),
    /// A map value; maps cannot be index-key fields.
    Mapping(Vec<(String, String)>),
}

/// The tuple fields of one index value: a type byte, then the payload.
pub open spec fn spec_index_value_parts(value: RuntimeValue) -> Seq<KeyPartValue> {
    match value {
        RuntimeValue::Null => seq![KeyPartValue::U8(0)],
        RuntimeValue::Bool(b) => seq![KeyPartValue::U8(1), KeyPartValue::Bool(b)],
        RuntimeValue::Integer(v) => seq![KeyPartValue::U8(2), KeyPartValue::I64(v)],
        RuntimeValue::Unsigned(v) => seq![KeyPartValue::U8(3), KeyPartValue::U64(v)],
        RuntimeValue::Decimal(t) => seq![KeyPartValue::U8(4), KeyPartValue::Text(t@)],
        RuntimeValue::String(t) => seq![KeyPartValue::U8(5), KeyPartValue::Text(t@)],
        RuntimeValue::Digest(t) => seq![KeyPartValue::U8(6), KeyPartValue::Text(t@)],
        RuntimeValue::List(_) => seq![],
        RuntimeValue::Mapping(_) => seq![],
    }
}

/// The value can stand in an index key.
pub open spec fn is_index_scalar(value: RuntimeValue) -> bool {
    !(value is List) && !(value is Mapping)
}

/// The tuple fields of a list of index values.
pub open spec fn spec_index_values_parts(values: Seq<RuntimeValue>) -> Seq<KeyPartValue>
    decreases values.len(),
{
    if values.len() == 0 {
        seq![]
    } else {
        spec_index_values_parts(values.drop_last()) + spec_index_value_parts(values.last())
    }
}

/// Appends the index fields of `values`; lists and maps are refused.
fn append_index_values<'a>(parts: &mut Vec<KeyPart<'a>>, values: &'a [RuntimeValue]) -> (r: Result<()>)
    ensures
        r is Ok <==> forall|i: int| 0 <= i < values@.len() ==> is_index_scalar(#[trigger] values@[i]),
        r is Ok ==> part_values(final(parts)@) == part_values(old(parts)@)
            + spec_index_values_parts(values@),
{
    let mut i: usize = 0;
    while i < values.len()
        invariant
            i <= values@.len(),
            forall|j: int| 0 <= j < i ==> is_index_scalar(#[trigger] values@[j]),
            part_values(parts@) == part_values(old(parts)@) + spec_index_values_parts(
                values@.take(i as int),
            ),
        decreases values@.len() - i,
    {
        let ghost before = part_values(parts@);
        match &values[i] {
            RuntimeValue::Null => {
                parts.push(KeyPart::U8(0));
            },
            RuntimeValue::Bool(value) => {
                parts.push(KeyPart::U8(1));
                parts.push(KeyPart::Bool(*value));
            },
            RuntimeValue::Integer(value) => {
                parts.push(KeyPart::U8(2));
                parts.push(KeyPart::I64(*value));
            },
            RuntimeValue::Unsigned(value) => {
                parts.push(KeyPart::U8(3));
                parts.push(KeyPart::U64(*value));
            },
            RuntimeValue::Decimal(value) => {
                parts.push(KeyPart::U8(4));
                parts.push(KeyPart::Text(value.as_str()));
            },
            RuntimeValue::String(value) => {
                parts.push(KeyPart::U8(5));
                parts.push(KeyPart::Text(value.as_str()));
            },
            RuntimeValue::Digest(value) => {
                parts.push(KeyPart::U8(6));
                parts.push(KeyPart::Text(value.as_str()));
            },
            RuntimeValue::List(_) | RuntimeValue::Mapping(_) => {
                return Err(Error::Codec(text("scalar index keys cannot contain list or map values")));
            },
        }
        proof {
            assert(values@.take(i + 1).drop_last() =~= values@.take(i as int));
            assert(part_values(parts@) =~= before + spec_index_value_parts(values@[i as int]));
        }
        i = i + 1;
    }
    assert(values@.take(i as int) =~= values@);
    Ok(())
}

/// Every entry of an index whose leading fields equal `values`.
pub fn runtime_index_value_prefix(space: Space, scope: &str, index: &str, values: &[RuntimeValue]) -> (r:
    Result<Vec<u8>>)
    requires
        space is RuntimeScalarEntries || space is RuntimeUniqueEntries,
    ensures
        r is Ok <==> forall|i: int| 0 <= i < values@.len() ==> is_index_scalar(#[trigger] values@[i]),
        r matches Ok(key) ==> key@ == spec_space_key(
            space,
            seq![KeyPartValue::Text(scope@), KeyPartValue::Text(index@)] + spec_index_values_parts(
                values@,
            ),
        ),
{
    let mut parts: Vec<KeyPart<'_>> = Vec::new();
    parts.push(KeyPart::Text(scope));
    parts.push(KeyPart::Text(index));
    assert(part_values(parts@) =~= seq![KeyPartValue::Text(scope@), KeyPartValue::Text(index@)]);
    append_index_values(&mut parts, values)?;
    Ok(encode(space, parts.as_slice()))
}

/// One index entry: the index values, then the reference and its valid time.
pub fn runtime_index_entry_key(
    space: Space,
    scope: &str,
    index: &str,
    values: &[RuntimeValue],
    reference: &RuntimeRef,
    valid_from: u64,
) -> (r: Result<Vec<u8>>)
    requires
        space is RuntimeScalarEntries || space is RuntimeUniqueEntries,
    ensures
        r is Ok <==> forall|i: int| 0 <= i < values@.len() ==> is_index_scalar(#[trigger] values@[i]),
        r matches Ok(key) ==> key@ == spec_space_key(
            space,
            seq![KeyPartValue::Text(scope@), KeyPartValue::Text(index@)] + spec_index_values_parts(
                values@,
            ) + seq![
                KeyPartValue::Text(reference.kind@),
                KeyPartValue::Text(reference.id@),
                KeyPartValue::DescU64(valid_from),
            ],
        ),
{
    let mut parts: Vec<KeyPart<'_>> = Vec::new();
    parts.push(KeyPart::Text(scope));
    parts.push(KeyPart::Text(index));
    assert(part_values(parts@) =~= seq![KeyPartValue::Text(scope@), KeyPartValue::Text(index@)]);
    append_index_values(&mut parts, values)?;
    let ghost before = part_values(parts@);
    parts.push(KeyPart::Text(reference.kind.as_str()));
    parts.push(KeyPart::Text(reference.id.as_str()));
    parts.push(KeyPart::DescU64(valid_from));
    assert(part_values(parts@) =~= before + seq![
        KeyPartValue::Text(reference.kind@),
        KeyPartValue::Text(reference.id@),
        KeyPartValue::DescU64(valid_from),
    ]);
    Ok(encode(space, parts.as_slice()))
}

/// The first source delta of an index at or after `cursor`.
pub fn runtime_index_source_delta_start(scope: &str, index: &str, cursor: u64) -> (key: Vec<u8>)
    ensures
        key@ == spec_space_key(
            Space::RuntimeIndexSourceDeltas,
            seq![
                KeyPartValue::Text(scope@),
                KeyPartValue::Text(index@),
                KeyPartValue::U64(cursor),
                KeyPartValue::U64(0),
            ],
        ),
{
    runtime_index_source_delta_key(scope, index, cursor, 0)
}

/// An optional coordinate, with the empty text standing for an absent one.
pub open spec fn text_or_empty(value: Option<&str>) -> Seq<char> {
    match value {
        Some(t) => t@,
        None => ""@,
    }
}

fn or_empty(value: Option<&str>) -> (t: &str)
    ensures
        t@ == text_or_empty(value),
{
    match value {
        Some(t) => t,
        None => "",
    }
}

/// One source delta of a vector field, ordered by cursor then ordinal.
pub fn runtime_vector_source_delta_key(
    scope: &str,
    collection_id: Option<&str>,
    vector_name: Option<&str>,
    field: &str,
    cursor: u64,
    ordinal: u64,
) -> (key: Vec<u8>)
    ensures
        key@ == spec_space_key(
            Space::RuntimeVectorSourceDeltas,
            seq![
                KeyPartValue::Text(scope@),
                KeyPartValue::Text(text_or_empty(collection_id)),
                KeyPartValue::Text(text_or_empty(vector_name)),
                KeyPartValue::Text(field@),
                KeyPartValue::U64(cursor),
                KeyPartValue::U64(ordinal),
            ],
        ),
{
    let parts = [
        KeyPart::Text(scope),
        KeyPart::Text(or_empty(collection_id)),
        KeyPart::Text(or_empty(vector_name)),
        KeyPart::Text(field),
        KeyPart::U64(cursor),
        KeyPart::U64(ordinal),
    ];
    proof {
        assert(part_values(parts@) =~= seq![
            KeyPartValue::Text(scope@),
            KeyPartValue::Text(text_or_empty(collection_id)),
            KeyPartValue::Text(text_or_empty(vector_name)),
            KeyPartValue::Text(field@),
            KeyPartValue::U64(cursor),
            KeyPartValue::U64(ordinal),
        ]);
    }
    encode(RUNTIME_VECTOR_SOURCE_DELTAS, &parts)
}

/// The first source delta of a vector field at or after `cursor`.
pub fn runtime_vector_source_delta_start(
    scope: &str,
    collection_id: Option<&str>,
    vector_name: Option<&str>,
    field: &str,
    cursor: u64,
) -> (key: Vec<u8>)
    ensures
        key@ == spec_space_key(
            Space::RuntimeVectorSourceDeltas,
            seq![
                KeyPartValue::Text(scope@),
                KeyPartValue::Text(text_or_empty(collection_id)),
                KeyPartValue::Text(text_or_empty(vector_name)),
                KeyPartValue::Text(field@),
                KeyPartValue::U64(cursor),
                KeyPartValue::U64(0),
            ],
        ),
{
    runtime_vector_source_delta_key(scope, collection_id, vector_name, field, cursor, 0)
}

/// Every source delta of a vector field.
pub fn runtime_vector_source_delta_prefix(
    scope: &str,
    collection_id: Option<&str>,
    vector_name: Option<&str>,
    field: &str,
) -> (key: Vec<u8>)
    ensures
        key@ == spec_space_key(
            Space::RuntimeVectorSourceDeltas,
            seq![
                KeyPartValue::Text(scope@),
                KeyPartValue::Text(text_or_empty(collection_id)),
                KeyPartValue::Text(text_or_empty(vector_name)),
                KeyPartValue::Text(field@),
            ],
        ),
{
    let parts = [
        KeyPart::Text(scope),
        KeyPart::Text(or_empty(collection_id)),
        KeyPart::Text(or_empty(vector_name)),
        KeyPart::Text(field),
    ];
    proof {
        assert(part_values(parts@) =~= seq![
            KeyPartValue::Text(scope@),
            KeyPartValue::Text(text_or_empty(collection_id)),
            KeyPartValue::Text(text_or_empty(vector_name)),
            KeyPartValue::Text(field@),
        ]);
    }
    encode(RUNTIME_VECTOR_SOURCE_DELTAS, &parts)
}

/// Entries of the system space.
#[derive(Debug, Clone, Copy, PartialEq, Eq)]
pub enum SystemEntry {
    ClaimSequence,
    AcceptedClaimAppend,
    ControlValue,
    ControlJournalSequence,
    ControlJournalLastDigest,
    ControlJournalEntry,
    CatalogueRevision,
    InvocationOrdinal,
    RuntimeCursor,
    RuntimeLastDigest,
    RuntimeLastAuditDigest,
    RuntimeAccumulatorState,
    RuntimeAccumulatorNode,
}

impl SystemEntry {
    pub open spec fn spec_tag(self) -> u8 {
        match self {
            SystemEntry::ClaimSequence => 0x01,
            SystemEntry::AcceptedClaimAppend => 0x02,
            SystemEntry::ControlValue => 0x03,
            SystemEntry::ControlJournalSequence => 0x04,
            SystemEntry::ControlJournalLastDigest => 0x05,
            SystemEntry::ControlJournalEntry => 0x06,
            SystemEntry::CatalogueRevision => 0x07,
            SystemEntry::InvocationOrdinal => 0x08,
            SystemEntry::RuntimeCursor => 0x09,
            SystemEntry::RuntimeLastDigest => 0x0a,
            SystemEntry::RuntimeLastAuditDigest => 0x0b,
            SystemEntry::RuntimeAccumulatorState => 0x0c,
            SystemEntry::RuntimeAccumulatorNode => 0x0d,
        }
    }

    /// The frozen key byte of a system entry.
    pub fn tag(self) -> (b: u8)
        ensures
            b == self.spec_tag(),
    {
        match self {
            SystemEntry::ClaimSequence => 0x01,
            SystemEntry::AcceptedClaimAppend => 0x02,
            SystemEntry::ControlValue => 0x03,
            SystemEntry::ControlJournalSequence => 0x04,
            SystemEntry::ControlJournalLastDigest => 0x05,
            SystemEntry::ControlJournalEntry => 0x06,
            SystemEntry::CatalogueRevision => 0x07,
            SystemEntry::InvocationOrdinal => 0x08,
            SystemEntry::RuntimeCursor => 0x09,
            SystemEntry::RuntimeLastDigest => 0x0a,
            SystemEntry::RuntimeLastAuditDigest => 0x0b,
            SystemEntry::RuntimeAccumulatorState => 0x0c,
            SystemEntry::RuntimeAccumulatorNode => 0x0d,
        }
    }
}

/// Whether a stored key is a control-journal entry key.
pub fn is_control_journal_key(codec: KeyCodec, stored: &[u8]) -> (b: bool)
    ensures
        b <==> exists|sequence: u64|
            stored@ == spec_space_key(
                Space::System,
                seq![
                    KeyPartValue::U8(SystemEntry::ControlJournalEntry.spec_tag()),
                    KeyPartValue::U64(sequence),
                ],
            ),
{
    match decode_space(codec, META, stored) {
        Ok(parts) => {
            if parts.len() == 2 {
                match (&parts[0], &parts[1]) {
                    (DecodedKeyPart::U8(tag), DecodedKeyPart::U64(sequence)) => {
                        if *tag == SystemEntry::ControlJournalEntry.tag() {
                            assert(decoded_values(parts@) =~= seq![
                                KeyPartValue::U8(SystemEntry::ControlJournalEntry.spec_tag()),
                                KeyPartValue::U64(*sequence),
                            ]);
                            return true;
                        }
                    },
                    _ => {},
                }
            }
            proof {
                assert forall|sequence: u64|
                    stored@ != spec_space_key(
                        Space::System,
                        seq![
                            KeyPartValue::U8(SystemEntry::ControlJournalEntry.spec_tag()),
                            KeyPartValue::U64(sequence),
                        ],
                    ) by {
                    let ps = seq![
                        KeyPartValue::U8(SystemEntry::ControlJournalEntry.spec_tag()),
                        KeyPartValue::U64(sequence),
                    ];
                    if stored@ == spec_space_key(Space::System, ps) {
                        lemma_spaces_are_disjoint(Space::System, ps, Space::System, decoded_values(parts@));
                        assert(decoded_values(parts@)[0] == ps[0]);
                        assert(decoded_values(parts@)[1] == ps[1]);
                    }
                }
            }
            false
        },
        Err(_) => false,
    }
}

/// Parses a claim key into subject, predicate, valid time, and transaction time.
pub fn parse_claim_key(codec: KeyCodec, stored: &[u8]) -> (r: Result<(String, String, u64, u64)>)
    ensures
        match r {
            Ok((subject, predicate, valid_from, tx_time)) => stored@ == spec_space_key(
                Space::Claims,
                seq![
                    KeyPartValue::Text(subject@),
                    KeyPartValue::Text(predicate@),
                    KeyPartValue::DescU64(valid_from),
                    KeyPartValue::DescU64(tx_time),
                ],
            ),
            Err(e) => e is Codec && forall|s: Seq<char>, p: Seq<char>, v: u64, t: u64|
                stored@ != spec_space_key(
                    Space::Claims,
                    seq![
                        KeyPartValue::Text(s),
                        KeyPartValue::Text(p),
                        KeyPartValue::DescU64(v),
                        KeyPartValue::DescU64(t),
                    ],
                ),
        },
{
    let parts = match expect_parts(codec, CLAIMS, stored, 4) {
        Ok(parts) => parts,
        Err(e) => {
            return Err(e);
        },
    };
    let ghost vals = decoded_values(parts@);
    match (&parts[0], &parts[1], &parts[2], &parts[3]) {
        (
            DecodedKeyPart::Text(subject),
            DecodedKeyPart::Text(predicate),
            DecodedKeyPart::DescU64(valid_from),
            DecodedKeyPart::DescU64(tx_time),
        ) => {
            assert(vals =~= seq![
                KeyPartValue::Text(subject@),
                KeyPartValue::Text(predicate@),
                KeyPartValue::DescU64(*valid_from),
                KeyPartValue::DescU64(*tx_time),
            ]);
            Ok((subject.clone(), predicate.clone(), *valid_from, *tx_time))
        },
        _ => {
            proof {
                assert forall|s: Seq<char>, p: Seq<char>, v: u64, t: u64|
                    stored@ != spec_space_key(
                        Space::Claims,
                        seq![
                            KeyPartValue::Text(s),
                            KeyPartValue::Text(p),
                            KeyPartValue::DescU64(v),
                            KeyPartValue::DescU64(t),
                        ],
                    ) by {
                    let ps = seq![
                        KeyPartValue::Text(s),
                        KeyPartValue::Text(p),
                        KeyPartValue::DescU64(v),
                        KeyPartValue::DescU64(t),
                    ];
                    if stored@ == spec_space_key(Space::Claims, ps) {
                        lemma_spaces_are_disjoint(Space::Claims, ps, Space::Claims, vals);
                        assert(vals[0] == ps[0] && vals[1] == ps[1] && vals[2] == ps[2] && vals[3]
                            == ps[3]);
                    }
                }
            }
            Err(Error::Codec(text("claim key has invalid field types")))
        },
    }
}

/// Parses a claim-sequence index key.
pub fn parse_sequence_key(codec: KeyCodec, stored: &[u8]) -> (r: Result<u64>)
    ensures
        match r {
            Ok(sequence) => stored@ == spec_space_key(
                Space::SequenceIndex,
                seq![KeyPartValue::U64(sequence)],
            ),
            Err(e) => e is Codec && forall|s: u64|
                stored@ != spec_space_key(Space::SequenceIndex, seq![KeyPartValue::U64(s)]),
        },
{
    let parts = match expect_parts(codec, SEQUENCE_INDEX, stored, 1) {
        Ok(parts) => parts,
        Err(e) => {
            return Err(e);
        },
    };
    let ghost vals = decoded_values(parts@);
    match &parts[0] {
        DecodedKeyPart::U64(sequence) => {
            assert(vals =~= seq![KeyPartValue::U64(*sequence)]);
            Ok(*sequence)
        },
        _ => {
            proof {
                assert forall|s: u64|
                    stored@ != spec_space_key(Space::SequenceIndex, seq![KeyPartValue::U64(s)]) by {
                    let ps = seq![KeyPartValue::U64(s)];
                    if stored@ == spec_space_key(Space::SequenceIndex, ps) {
                        lemma_spaces_are_disjoint(Space::SequenceIndex, ps, Space::SequenceIndex, vals);
                        assert(vals[0] == ps[0]);
                    }
                }
            }
            Err(Error::Codec(text("claim sequence key has invalid field types")))
        },
    }
}

/// Parses an access key into time, reader, subject, and predicate.
pub fn parse_access_key(codec: KeyCodec, stored: &[u8]) -> (r: Result<(u64, String, String, String)>)
    ensures
        match r {
            Ok((at, reader, subject, predicate)) => stored@ == spec_space_key(
                Space::Access,
                seq![
                    KeyPartValue::U64(at),
                    KeyPartValue::Text(reader@),
                    KeyPartValue::Text(subject@),
                    KeyPartValue::Text(predicate@),
                ],
            ),
            Err(e) => e is Codec && forall|a: u64, rd: Seq<char>, s: Seq<char>, p: Seq<char>|
                stored@ != spec_space_key(
                    Space::Access,
                    seq![
                        KeyPartValue::U64(a),
                        KeyPartValue::Text(rd),
                        KeyPartValue::Text(s),
                        KeyPartValue::Text(p),
                    ],
                ),
        },
{
    let parts = match expect_parts(codec, ACCESS, stored, 4) {
        Ok(parts) => parts,
        Err(e) => {
            return Err(e);
        },
    };
    let ghost vals = decoded_values(parts@);
    match (&parts[0], &parts[1], &parts[2], &parts[3]) {
        (
            DecodedKeyPart::U64(at),
            DecodedKeyPart::Text(reader),
            DecodedKeyPart::Text(subject),
            DecodedKeyPart::Text(predicate),
        ) => {
            assert(vals =~= seq![
                KeyPartValue::U64(*at),
                KeyPartValue::Text(reader@),
                KeyPartValue::Text(subject@),
                KeyPartValue::Text(predicate@),
            ]);
            Ok((*at, reader.clone(), subject.clone(), predicate.clone()))
        },
        _ => {
            proof {
                assert forall|a: u64, rd: Seq<char>, s: Seq<char>, p: Seq<char>|
                    stored@ != spec_space_key(
                        Space::Access,
                        seq![
                            KeyPartValue::U64(a),
                            KeyPartValue::Text(rd),
                            KeyPartValue::Text(s),
                            KeyPartValue::Text(p),
                        ],
                    ) by {
                    let ps = seq![
                        KeyPartValue::U64(a),
                        KeyPartValue::Text(rd),
                        KeyPartValue::Text(s),
                        KeyPartValue::Text(p),
                    ];
                    if stored@ == spec_space_key(Space::Access, ps) {
                        lemma_spaces_are_disjoint(Space::Access, ps, Space::Access, vals);
                        assert(vals[0] == ps[0] && vals[1] == ps[1] && vals[2] == ps[2] && vals[3]
                            == ps[3]);
                    }
                }
            }
            Err(Error::Codec(text("access key has invalid field types")))
        },
    }
}

/// Parses a runtime identity key into scope and reference.
pub fn parse_runtime_identity_key(codec: KeyCodec, space: Space, stored: &[u8]) -> (r: Result<
    (String, RuntimeRef),
>)
    ensures
        match r {
            Ok((scope, reference)) => stored@ == spec_space_key(
                space,
                seq![
                    KeyPartValue::Text(scope@),
                    KeyPartValue::Text(reference.kind@),
                    KeyPartValue::Text(reference.id@),
                ],
            ),
            Err(e) => e is Codec && forall|s: Seq<char>, k: Seq<char>, i: Seq<char>|
                stored@ != spec_space_key(
                    space,
                    seq![KeyPartValue::Text(s), KeyPartValue::Text(k), KeyPartValue::Text(i)],
                ),
        },
{
    let parts = match expect_parts(codec, space, stored, 3) {
        Ok(parts) => parts,
        Err(e) => {
            return Err(e);
        },
    };
    let ghost vals = decoded_values(parts@);
    match (&parts[0], &parts[1], &parts[2]) {
        (DecodedKeyPart::Text(scope), DecodedKeyPart::Text(kind), DecodedKeyPart::Text(id)) => {
            assert(vals =~= seq![
                KeyPartValue::Text(scope@),
                KeyPartValue::Text(kind@),
                KeyPartValue::Text(id@),
            ]);
            Ok((scope.clone(), RuntimeRef { kind: kind.clone(), id: id.clone() }))
        },
        _ => {
            proof {
                assert forall|s: Seq<char>, k: Seq<char>, i: Seq<char>|
                    stored@ != spec_space_key(
                        space,
                        seq![KeyPartValue::Text(s), KeyPartValue::Text(k), KeyPartValue::Text(i)],
                    ) by {
                    let ps = seq![KeyPartValue::Text(s), KeyPartValue::Text(k), KeyPartValue::Text(i)];
                    if stored@ == spec_space_key(space, ps) {
                        lemma_spaces_are_disjoint(space, ps, space, vals);
                        assert(vals[0] == ps[0] && vals[1] == ps[1] && vals[2] == ps[2]);
                    }
                }
            }
            Err(Error::Codec(text("runtime identity key has invalid field types")))
        },
    }
}

/// Persistence policy for a write transaction.
#[derive(Debug, Clone, Copy, PartialEq, Eq)]
pub enum Durability {
    /// Authoritative writes. Journal is flushed and synced before commit returns.
    Authoritative,
    /// Telemetry writes. Buffered; a periodic flush or a later authoritative
    /// write carries them to disk.
    Buffered,
}

} // verus!
