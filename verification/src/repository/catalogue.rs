//! The stored forms of the governed-function catalogue records: each record
//! is one canonical tuple of the system family, and decoding accepts exactly
//! the tuples that encoding produces.

use crate::control::text_or_empty;
use crate::error::{text, Error, Result};
use crate::function::{
    is_valid_binding, is_valid_definition, is_valid_head, membership_components_valid, FunctionCatalogueHeadRecord, FunctionCatalogueMembershipRecord,
    FunctionDefinitionRecord, TransactionFunctionBindingRecord,
};
use crate::key_codec::{
    opt_string, part_values, spec_encode_key, spec_encode_key_value, DecodedKeyPart, KeyAddress, KeyCodec, KeyFamily, KeyPart, KeyPartValue,
    KeyValue,
};
use vstd::prelude::*;

verus! {

/// The stored form of the tuple `parts`.
pub open spec fn record_bytes(parts: Seq<KeyPartValue>) -> Seq<u8> {
    spec_encode_key(None, None, KeyFamily::System, parts)
}

/// The values of decoded parts.
pub open spec fn parts_view(parts: Seq<DecodedKeyPart>) -> Seq<KeyPartValue> {
    parts.map_values(|p: DecodedKeyPart| p@)
}

/// Equal stored forms hold equal tuples.
pub proof fn lemma_record_bytes_injective(a: Seq<KeyPartValue>, b: Seq<KeyPartValue>)
    requires
        record_bytes(a) == record_bytes(b),
    ensures
        a == b,
{
    let ka = KeyValue { tenant: None, scope: None, family: KeyFamily::System, parts: a };
    let kb = KeyValue { tenant: None, scope: None, family: KeyFamily::System, parts: b };
    crate::key_codec::lemma_encode_injective(ka, kb);
}

/// The tuple stored as `bytes`.
pub(crate) fn record_parts(bytes: &[u8]) -> (r: Option<Vec<DecodedKeyPart>>)
    ensures
        match r {
            Some(parts) => record_bytes(parts_view(parts@)) == bytes@,
            None => forall|ps: Seq<KeyPartValue>| #[trigger] record_bytes(ps) != bytes@,
        },
{
    let key = match KeyCodec.decode(bytes) {
        Ok(key) => key,
        Err(_) => {
            proof {
                assert forall|ps: Seq<KeyPartValue>| #[trigger] record_bytes(ps) != bytes@ by {
                    let k = KeyValue { tenant: None, scope: None, family: KeyFamily::System, parts: ps };
                    assert(spec_encode_key_value(k) == record_bytes(ps));
                }
            }
            return None;
        },
    };
    let ghost kv = key@;
    if key.tenant.is_none() && key.scope.is_none() && key.family == KeyFamily::System {
        proof {
            assert(kv.parts == parts_view(key.parts@));
        }
        return Some(key.parts);
    }
    proof {
        assert forall|ps: Seq<KeyPartValue>| #[trigger] record_bytes(ps) != bytes@ by {
            let k = KeyValue { tenant: None, scope: None, family: KeyFamily::System, parts: ps };
            if record_bytes(ps) == bytes@ {
                assert(spec_encode_key_value(k) == record_bytes(ps));
                crate::key_codec::lemma_encode_injective(k, kv);
            }
        }
    }
    None
}

/// The text of a borrowed optional string, empty where absent.
fn text_or_blank(o: &Option<String>) -> (s: &str)
    ensures
        s@ == text_or_empty(*o),
{
    match o {
        Some(v) => v.as_str(),
        None => {
            proof {
                reveal_strlit("");
            }
            ""
        },
    }
}

/// The optional text stored as a presence flag and a text, the text empty
/// when absent.
fn optional_text(present: bool, value: &String) -> (r: Option<Option<String>>)
    ensures
        match r {
            Some(o) => (o is Some) == present && text_or_empty(o) == value@,
            None => !present && value@.len() != 0,
        },
{
    if present {
        Some(Some(value.clone()))
    } else if value.as_str().is_empty() {
        proof {
            assert(value@ =~= Seq::<char>::empty());
        }
        Some(None)
    } else {
        None
    }
}

// ---------------------------------------------------------------- heads

/// The tuple a catalogue head is stored as.
pub open spec fn head_parts(h: FunctionCatalogueHeadRecord) -> Seq<KeyPartValue> {
    seq![
        KeyPartValue::U64(h.format_version as u64),
        KeyPartValue::U64(h.revision),
        KeyPartValue::Text(h.catalogue_sha256@),
        KeyPartValue::Text(h.membership_sha256@),
    ]
}

/// The stored form of a catalogue head.
pub open spec fn head_bytes(h: FunctionCatalogueHeadRecord) -> Seq<u8> {
    record_bytes(head_parts(h))
}

/// Two heads agree in every field.
pub open spec fn same_head(a: FunctionCatalogueHeadRecord, b: FunctionCatalogueHeadRecord) -> bool {
    &&& a.format_version == b.format_version
    &&& a.revision == b.revision
    &&& a.catalogue_sha256@ == b.catalogue_sha256@
    &&& a.membership_sha256@ == b.membership_sha256@
}

/// Heads with one stored form agree in every field.
pub proof fn lemma_head_bytes_injective(a: FunctionCatalogueHeadRecord, b: FunctionCatalogueHeadRecord)
    requires
        head_bytes(a) == head_bytes(b),
    ensures
        same_head(a, b),
{
    lemma_record_bytes_injective(head_parts(a), head_parts(b));
    assert(head_parts(a)[0] == head_parts(b)[0]);
    assert(head_parts(a)[2] == head_parts(b)[2]);
    assert(head_parts(a)[3] == head_parts(b)[3]);
}

/// The stored form of a catalogue head.
pub fn encode_head(h: &FunctionCatalogueHeadRecord) -> (bytes: Vec<u8>)
    ensures
        bytes@ == head_bytes(*h),
{
    let parts = [
        KeyPart::U64(h.format_version as u64),
        KeyPart::U64(h.revision),
        KeyPart::Text(h.catalogue_sha256.as_str()),
        KeyPart::Text(h.membership_sha256.as_str()),
    ];
    proof {
        assert(part_values(parts@) =~= head_parts(*h));
    }
    KeyCodec.encode(KeyAddress::global(), KeyFamily::System, &parts)
}

/// The catalogue head stored as `bytes`.
pub fn decode_head(bytes: &[u8]) -> (r: Result<FunctionCatalogueHeadRecord>)
    ensures
        match r {
            Ok(h) => head_bytes(h) == bytes@,
            Err(e) => e is Codec && forall|x: FunctionCatalogueHeadRecord| #[trigger] head_bytes(x) != bytes@,
        },
{
    let parts = match record_parts(bytes) {
        Some(parts) => parts,
        None => {
            return Err(Error::Codec(text("function catalogue head is not a canonical record")));
        },
    };
    let ghost pv = parts_view(parts@);
    if parts.len() == 4 {
        match (&parts[0], &parts[1], &parts[2], &parts[3]) {
            (DecodedKeyPart::U64(version), DecodedKeyPart::U64(revision), DecodedKeyPart::Text(catalogue), DecodedKeyPart::Text(membership)) => {
                if *version <= 65535 {
                    let h = FunctionCatalogueHeadRecord {
                        format_version: *version as u16,
                        revision: *revision,
                        catalogue_sha256: catalogue.clone(),
                        membership_sha256: membership.clone(),
                    };
                    proof {
                        assert forall|i: int| 0 <= i < 4 implies pv[i] == parts@[i]@ by {}
                        assert(head_parts(h) =~= pv);
                    }
                    return Ok(h);
                }
            },
            _ => {},
        }
    }
    proof {
        assert forall|x: FunctionCatalogueHeadRecord| #[trigger] head_bytes(x) != bytes@ by {
            if head_bytes(x) == bytes@ {
                lemma_record_bytes_injective(head_parts(x), pv);
                assert forall|i: int| 0 <= i < 4 implies pv[i] == parts@[i]@ by {}
                assert(pv[0] == KeyPartValue::U64(x.format_version as u64));
            }
        }
    }
    Err(Error::Codec(text("function catalogue head is not a canonical record")))
}

// ---------------------------------------------------------- definitions

/// The tuple a function definition is stored as.
pub open spec fn definition_parts(d: FunctionDefinitionRecord) -> Seq<KeyPartValue> {
    seq![
        KeyPartValue::U64(d.format_version as u64),
        KeyPartValue::Text(d.function_id@),
        KeyPartValue::U64(d.revision),
        KeyPartValue::Bool(d.predecessor_sha256 is Some),
        KeyPartValue::Text(text_or_empty(d.predecessor_sha256)),
        KeyPartValue::Text(d.artifact_sha256@),
        KeyPartValue::Text(d.runtime_profile@),
        KeyPartValue::Text(d.runtime_build_sha256@),
        KeyPartValue::Text(d.input_schema_sha256@),
        KeyPartValue::Text(d.output_schema_sha256@),
        KeyPartValue::Text(d.definition_sha256@),
        KeyPartValue::Text(d.canonical_definition_json@),
    ]
}

/// The stored form of a function definition.
pub open spec fn definition_bytes(d: FunctionDefinitionRecord) -> Seq<u8> {
    record_bytes(definition_parts(d))
}

/// Two definitions agree in every field.
pub open spec fn same_definition(a: FunctionDefinitionRecord, b: FunctionDefinitionRecord) -> bool {
    &&& a.format_version == b.format_version
    &&& a.function_id@ == b.function_id@
    &&& a.revision == b.revision
    &&& opt_string(a.predecessor_sha256) == opt_string(b.predecessor_sha256)
    &&& a.artifact_sha256@ == b.artifact_sha256@
    &&& a.runtime_profile@ == b.runtime_profile@
    &&& a.runtime_build_sha256@ == b.runtime_build_sha256@
    &&& a.input_schema_sha256@ == b.input_schema_sha256@
    &&& a.output_schema_sha256@ == b.output_schema_sha256@
    &&& a.definition_sha256@ == b.definition_sha256@
    &&& a.canonical_definition_json@ == b.canonical_definition_json@
}

/// Definitions with one stored form agree in every field.
pub proof fn lemma_definition_bytes_injective(a: FunctionDefinitionRecord, b: FunctionDefinitionRecord)
    requires
        definition_bytes(a) == definition_bytes(b),
    ensures
        same_definition(a, b),
{
    let pa = definition_parts(a);
    let pb = definition_parts(b);
    lemma_record_bytes_injective(pa, pb);
    assert(pa[0] == pb[0] && pa[1] == pb[1] && pa[3] == pb[3] && pa[4] == pb[4] && pa[5] == pb[5] && pa[6] == pb[6]);
    assert(pa[7] == pb[7] && pa[8] == pb[8] && pa[9] == pb[9] && pa[10] == pb[10] && pa[11] == pb[11]);
}

/// The stored form of a function definition.
pub fn encode_definition(d: &FunctionDefinitionRecord) -> (bytes: Vec<u8>)
    ensures
        bytes@ == definition_bytes(*d),
{
    let parts = [
        KeyPart::U64(d.format_version as u64),
        KeyPart::Text(d.function_id.as_str()),
        KeyPart::U64(d.revision),
        KeyPart::Bool(d.predecessor_sha256.is_some()),
        KeyPart::Text(text_or_blank(&d.predecessor_sha256)),
        KeyPart::Text(d.artifact_sha256.as_str()),
        KeyPart::Text(d.runtime_profile.as_str()),
        KeyPart::Text(d.runtime_build_sha256.as_str()),
        KeyPart::Text(d.input_schema_sha256.as_str()),
        KeyPart::Text(d.output_schema_sha256.as_str()),
        KeyPart::Text(d.definition_sha256.as_str()),
        KeyPart::Text(d.canonical_definition_json.as_str()),
    ];
    proof {
        assert(part_values(parts@) =~= definition_parts(*d));
    }
    KeyCodec.encode(KeyAddress::global(), KeyFamily::System, &parts)
}

/// The function definition stored as `bytes`.
pub fn decode_definition(bytes: &[u8]) -> (r: Result<FunctionDefinitionRecord>)
    ensures
        match r {
            Ok(d) => definition_bytes(d) == bytes@,
            Err(e) => e is Codec && forall|x: FunctionDefinitionRecord| #[trigger] definition_bytes(x) != bytes@,
        },
{
    let parts = match record_parts(bytes) {
        Some(parts) => parts,
        None => {
            return Err(Error::Codec(text("function definition is not a canonical record")));
        },
    };
    let ghost pv = parts_view(parts@);
    if parts.len() == 12 {
        match (&parts[0], &parts[1], &parts[2], &parts[3], &parts[4], &parts[5]) {
            (DecodedKeyPart::U64(version), DecodedKeyPart::Text(function_id), DecodedKeyPart::U64(revision), DecodedKeyPart::Bool(has_predecessor),
            DecodedKeyPart::Text(predecessor), DecodedKeyPart::Text(artifact)) => {
                match (&parts[6], &parts[7], &parts[8], &parts[9], &parts[10], &parts[11]) {
                    (DecodedKeyPart::Text(profile), DecodedKeyPart::Text(build), DecodedKeyPart::Text(input), DecodedKeyPart::Text(output),
                    DecodedKeyPart::Text(digest), DecodedKeyPart::Text(json)) => {
                        if *version <= 65535 {
                            match optional_text(*has_predecessor, predecessor) {
                                Some(predecessor_sha256) => {
                                    let d = FunctionDefinitionRecord {
                                        format_version: *version as u16,
                                        function_id: function_id.clone(),
                                        revision: *revision,
                                        predecessor_sha256,
                                        artifact_sha256: artifact.clone(),
                                        runtime_profile: profile.clone(),
                                        runtime_build_sha256: build.clone(),
                                        input_schema_sha256: input.clone(),
                                        output_schema_sha256: output.clone(),
                                        definition_sha256: digest.clone(),
                                        canonical_definition_json: json.clone(),
                                    };
                                    proof {
                                        assert forall|i: int| 0 <= i < 12 implies pv[i] == parts@[i]@ by {}
                                        assert(definition_parts(d) =~= pv);
                                    }
                                    return Ok(d);
                                },
                                None => {},
                            }
                        }
                    },
                    _ => {},
                }
            },
            _ => {},
        }
    }
    proof {
        assert forall|x: FunctionDefinitionRecord| #[trigger] definition_bytes(x) != bytes@ by {
            if definition_bytes(x) == bytes@ {
                lemma_record_bytes_injective(definition_parts(x), pv);
                assert forall|i: int| 0 <= i < 12 implies pv[i] == parts@[i]@ by {}
                assert(pv[0] == KeyPartValue::U64(x.format_version as u64));
                assert(pv[3] == KeyPartValue::Bool(x.predecessor_sha256 is Some));
                assert(pv[4] == KeyPartValue::Text(text_or_empty(x.predecessor_sha256)));
            }
        }
    }
    Err(Error::Codec(text("function definition is not a canonical record")))
}

// ------------------------------------------------------------- bindings

/// The tuple a transaction function binding is stored as.
pub open spec fn binding_parts(b: TransactionFunctionBindingRecord) -> Seq<KeyPartValue> {
    seq![
        KeyPartValue::U64(b.format_version as u64),
        KeyPartValue::Text(b.binding_id@),
        KeyPartValue::U64(b.revision),
        KeyPartValue::Bool(b.predecessor_sha256 is Some),
        KeyPartValue::Text(text_or_empty(b.predecessor_sha256)),
        KeyPartValue::Text(b.function_id@),
        KeyPartValue::Text(b.function_definition_sha256@),
        KeyPartValue::Text(b.binding_sha256@),
        KeyPartValue::Text(b.canonical_binding_json@),
    ]
}

/// The stored form of a transaction function binding.
pub open spec fn binding_bytes(b: TransactionFunctionBindingRecord) -> Seq<u8> {
    record_bytes(binding_parts(b))
}

/// Two bindings agree in every field.
pub open spec fn same_binding(a: TransactionFunctionBindingRecord, b: TransactionFunctionBindingRecord) -> bool {
    &&& a.format_version == b.format_version
    &&& a.binding_id@ == b.binding_id@
    &&& a.revision == b.revision
    &&& opt_string(a.predecessor_sha256) == opt_string(b.predecessor_sha256)
    &&& a.function_id@ == b.function_id@
    &&& a.function_definition_sha256@ == b.function_definition_sha256@
    &&& a.binding_sha256@ == b.binding_sha256@
    &&& a.canonical_binding_json@ == b.canonical_binding_json@
}

/// Bindings with one stored form agree in every field.
pub proof fn lemma_binding_bytes_injective(a: TransactionFunctionBindingRecord, b: TransactionFunctionBindingRecord)
    requires
        binding_bytes(a) == binding_bytes(b),
    ensures
        same_binding(a, b),
{
    let pa = binding_parts(a);
    let pb = binding_parts(b);
    lemma_record_bytes_injective(pa, pb);
    assert(pa[0] == pb[0] && pa[1] == pb[1] && pa[3] == pb[3] && pa[4] == pb[4] && pa[5] == pb[5]);
    assert(pa[6] == pb[6] && pa[7] == pb[7] && pa[8] == pb[8]);
}

/// The stored form of a transaction function binding.
pub fn encode_binding(b: &TransactionFunctionBindingRecord) -> (bytes: Vec<u8>)
    ensures
        bytes@ == binding_bytes(*b),
{
    let parts = [
        KeyPart::U64(b.format_version as u64),
        KeyPart::Text(b.binding_id.as_str()),
        KeyPart::U64(b.revision),
        KeyPart::Bool(b.predecessor_sha256.is_some()),
        KeyPart::Text(text_or_blank(&b.predecessor_sha256)),
        KeyPart::Text(b.function_id.as_str()),
        KeyPart::Text(b.function_definition_sha256.as_str()),
        KeyPart::Text(b.binding_sha256.as_str()),
        KeyPart::Text(b.canonical_binding_json.as_str()),
    ];
    proof {
        assert(part_values(parts@) =~= binding_parts(*b));
    }
    KeyCodec.encode(KeyAddress::global(), KeyFamily::System, &parts)
}

/// The transaction function binding stored as `bytes`.
pub fn decode_binding(bytes: &[u8]) -> (r: Result<TransactionFunctionBindingRecord>)
    ensures
        match r {
            Ok(b) => binding_bytes(b) == bytes@,
            Err(e) => e is Codec && forall|x: TransactionFunctionBindingRecord| #[trigger] binding_bytes(x) != bytes@,
        },
{
    let parts = match record_parts(bytes) {
        Some(parts) => parts,
        None => {
            return Err(Error::Codec(text("transaction function binding is not a canonical record")));
        },
    };
    let ghost pv = parts_view(parts@);
    if parts.len() == 9 {
        match (&parts[0], &parts[1], &parts[2], &parts[3], &parts[4]) {
            (DecodedKeyPart::U64(version), DecodedKeyPart::Text(binding_id), DecodedKeyPart::U64(revision), DecodedKeyPart::Bool(has_predecessor),
            DecodedKeyPart::Text(predecessor)) => {
                match (&parts[5], &parts[6], &parts[7], &parts[8]) {
                    (DecodedKeyPart::Text(function_id), DecodedKeyPart::Text(definition), DecodedKeyPart::Text(digest), DecodedKeyPart::Text(json)) => {
                        if *version <= 65535 {
                            match optional_text(*has_predecessor, predecessor) {
                                Some(predecessor_sha256) => {
                                    let b = TransactionFunctionBindingRecord {
                                        format_version: *version as u16,
                                        binding_id: binding_id.clone(),
                                        revision: *revision,
                                        predecessor_sha256,
                                        function_id: function_id.clone(),
                                        function_definition_sha256: definition.clone(),
                                        binding_sha256: digest.clone(),
                                        canonical_binding_json: json.clone(),
                                    };
                                    proof {
                                        assert forall|i: int| 0 <= i < 9 implies pv[i] == parts@[i]@ by {}
                                        assert(binding_parts(b) =~= pv);
                                    }
                                    return Ok(b);
                                },
                                None => {},
                            }
                        }
                    },
                    _ => {},
                }
            },
            _ => {},
        }
    }
    proof {
        assert forall|x: TransactionFunctionBindingRecord| #[trigger] binding_bytes(x) != bytes@ by {
            if binding_bytes(x) == bytes@ {
                lemma_record_bytes_injective(binding_parts(x), pv);
                assert forall|i: int| 0 <= i < 9 implies pv[i] == parts@[i]@ by {}
                assert(pv[0] == KeyPartValue::U64(x.format_version as u64));
                assert(pv[3] == KeyPartValue::Bool(x.predecessor_sha256 is Some));
                assert(pv[4] == KeyPartValue::Text(text_or_empty(x.predecessor_sha256)));
            }
        }
    }
    Err(Error::Codec(text("transaction function binding is not a canonical record")))
}

// ---------------------------------------------------------- memberships

/// The texts of a list of strings, one part each.
pub open spec fn texts(s: Seq<String>) -> Seq<KeyPartValue> {
    s.map_values(|x: String| KeyPartValue::Text(x@))
}

/// The texts of a list of pairs, two parts each: key, then value.
pub open spec fn pair_texts(s: Seq<(String, String)>) -> Seq<KeyPartValue> {
    Seq::new(
        (2 * s.len()) as nat,
        |i: int|
            if i % 2 == 0 {
                KeyPartValue::Text(s[i / 2].0@)
            } else {
                KeyPartValue::Text(s[i / 2].1@)
            },
    )
}

/// The tuple a catalogue membership is stored as: its fixed fields, then
/// each list behind its length.
pub open spec fn membership_parts(m: FunctionCatalogueMembershipRecord) -> Seq<KeyPartValue> {
    seq![
        KeyPartValue::U64(m.format_version as u64),
        KeyPartValue::U64(m.revision),
        KeyPartValue::Bool(m.predecessor_sha256 is Some),
        KeyPartValue::Text(text_or_empty(m.predecessor_sha256)),
        KeyPartValue::Text(m.catalogue_sha256@),
        KeyPartValue::U64(m.artifact_sha256@.len() as u64),
    ] + texts(m.artifact_sha256@) + seq![KeyPartValue::U64(m.function_definition_sha256@.len() as u64)] + pair_texts(
        m.function_definition_sha256@,
    ) + seq![KeyPartValue::U64(m.transaction_binding_sha256@.len() as u64)] + pair_texts(m.transaction_binding_sha256@) + seq![
        KeyPartValue::U64(m.published_at_unix_ms),
        KeyPartValue::Text(m.published_by@),
        KeyPartValue::Text(m.request_id@),
        KeyPartValue::Text(m.operation_id@),
        KeyPartValue::Text(m.membership_sha256@),
    ]
}

/// The stored form of a catalogue membership.
pub open spec fn membership_bytes(m: FunctionCatalogueMembershipRecord) -> Seq<u8> {
    record_bytes(membership_parts(m))
}

/// The lists of a membership are short enough for their lengths to be stored.
pub open spec fn membership_fits(m: FunctionCatalogueMembershipRecord) -> bool {
    &&& m.artifact_sha256@.len() <= u64::MAX
    &&& m.function_definition_sha256@.len() <= u64::MAX
    &&& m.transaction_binding_sha256@.len() <= u64::MAX
}

/// Two lists of strings agree, each by its characters.
pub open spec fn same_strings(a: Seq<String>, b: Seq<String>) -> bool {
    a.len() == b.len() && forall|i: int| 0 <= i < a.len() ==> (#[trigger] a[i])@ == b[i]@
}

/// Two lists of pairs agree, each by its characters.
pub open spec fn same_pairs(a: Seq<(String, String)>, b: Seq<(String, String)>) -> bool {
    a.len() == b.len() && forall|i: int| 0 <= i < a.len() ==> (#[trigger] a[i]).0@ == b[i].0@ && a[i].1@ == b[i].1@
}

/// Two memberships agree in every field.
pub open spec fn same_membership(a: FunctionCatalogueMembershipRecord, b: FunctionCatalogueMembershipRecord) -> bool {
    &&& a.format_version == b.format_version
    &&& a.revision == b.revision
    &&& opt_string(a.predecessor_sha256) == opt_string(b.predecessor_sha256)
    &&& a.catalogue_sha256@ == b.catalogue_sha256@
    &&& same_strings(a.artifact_sha256@, b.artifact_sha256@)
    &&& same_pairs(a.function_definition_sha256@, b.function_definition_sha256@)
    &&& same_pairs(a.transaction_binding_sha256@, b.transaction_binding_sha256@)
    &&& a.published_at_unix_ms == b.published_at_unix_ms
    &&& a.published_by@ == b.published_by@
    &&& a.request_id@ == b.request_id@
    &&& a.operation_id@ == b.operation_id@
    &&& a.membership_sha256@ == b.membership_sha256@
}

/// The stored tuple of a membership, part by part.
pub proof fn lemma_membership_parts_shape(m: FunctionCatalogueMembershipRecord)
    requires
        membership_fits(m),
    ensures
        ({
            let ps = membership_parts(m);
            let a = m.artifact_sha256@.len() as int;
            let d = m.function_definition_sha256@.len() as int;
            let b = m.transaction_binding_sha256@.len() as int;
            let t = 8 + a + 2 * d + 2 * b;
            &&& ps.len() == t + 5
            &&& ps[0] == KeyPartValue::U64(m.format_version as u64)
            &&& ps[1] == KeyPartValue::U64(m.revision)
            &&& ps[2] == KeyPartValue::Bool(m.predecessor_sha256 is Some)
            &&& ps[3] == KeyPartValue::Text(text_or_empty(m.predecessor_sha256))
            &&& ps[4] == KeyPartValue::Text(m.catalogue_sha256@)
            &&& ps[5] == KeyPartValue::U64(a as u64)
            &&& forall|j: int| 0 <= j < a ==> ps[6 + j] == KeyPartValue::Text((#[trigger] m.artifact_sha256@[j])@)
            &&& ps[6 + a] == KeyPartValue::U64(d as u64)
            &&& forall|k: int|
                0 <= k < d ==> ps[7 + a + 2 * k] == KeyPartValue::Text((#[trigger] m.function_definition_sha256@[k]).0@) && ps[8 + a + 2 * k]
                    == KeyPartValue::Text(m.function_definition_sha256@[k].1@)
            &&& ps[7 + a + 2 * d] == KeyPartValue::U64(b as u64)
            &&& forall|k: int|
                0 <= k < b ==> ps[8 + a + 2 * d + 2 * k] == KeyPartValue::Text((#[trigger] m.transaction_binding_sha256@[k]).0@) && ps[9 + a + 2
                    * d + 2 * k] == KeyPartValue::Text(m.transaction_binding_sha256@[k].1@)
            &&& ps[t] == KeyPartValue::U64(m.published_at_unix_ms)
            &&& ps[t + 1] == KeyPartValue::Text(m.published_by@)
            &&& ps[t + 2] == KeyPartValue::Text(m.request_id@)
            &&& ps[t + 3] == KeyPartValue::Text(m.operation_id@)
            &&& ps[t + 4] == KeyPartValue::Text(m.membership_sha256@)
        }),
{
    let a = m.artifact_sha256@.len() as int;
    let d = m.function_definition_sha256@.len() as int;
    let b = m.transaction_binding_sha256@.len() as int;
    let h = seq![
        KeyPartValue::U64(m.format_version as u64),
        KeyPartValue::U64(m.revision),
        KeyPartValue::Bool(m.predecessor_sha256 is Some),
        KeyPartValue::Text(text_or_empty(m.predecessor_sha256)),
        KeyPartValue::Text(m.catalogue_sha256@),
        KeyPartValue::U64(a as u64),
    ];
    let s1 = h + texts(m.artifact_sha256@);
    let s2 = s1 + seq![KeyPartValue::U64(d as u64)];
    let s3 = s2 + pair_texts(m.function_definition_sha256@);
    let s4 = s3 + seq![KeyPartValue::U64(b as u64)];
    let s5 = s4 + pair_texts(m.transaction_binding_sha256@);
    let ps = membership_parts(m);
    assert(ps == s5 + seq![
        KeyPartValue::U64(m.published_at_unix_ms),
        KeyPartValue::Text(m.published_by@),
        KeyPartValue::Text(m.request_id@),
        KeyPartValue::Text(m.operation_id@),
        KeyPartValue::Text(m.membership_sha256@),
    ]);
    assert forall|j: int| 0 <= j < a implies ps[6 + j] == KeyPartValue::Text((#[trigger] m.artifact_sha256@[j])@) by {
        assert(s1[6 + j] == texts(m.artifact_sha256@)[j]);
    }
    assert forall|k: int| 0 <= k < d implies ps[7 + a + 2 * k] == KeyPartValue::Text((#[trigger] m.function_definition_sha256@[k]).0@)
        && ps[8 + a + 2 * k] == KeyPartValue::Text(m.function_definition_sha256@[k].1@) by {
        let p = pair_texts(m.function_definition_sha256@);
        assert(s3[7 + a + 2 * k] == p[2 * k]);
        assert(s3[8 + a + 2 * k] == p[2 * k + 1]);
        assert((2 * k) % 2 == 0 && (2 * k) / 2 == k);
        assert((2 * k + 1) % 2 == 1 && (2 * k + 1) / 2 == k);
    }
    assert forall|k: int| 0 <= k < b implies ps[8 + a + 2 * d + 2 * k] == KeyPartValue::Text((#[trigger] m.transaction_binding_sha256@[k]).0@)
        && ps[9 + a + 2 * d + 2 * k] == KeyPartValue::Text(m.transaction_binding_sha256@[k].1@) by {
        let p = pair_texts(m.transaction_binding_sha256@);
        assert(s5[8 + a + 2 * d + 2 * k] == p[2 * k]);
        assert(s5[9 + a + 2 * d + 2 * k] == p[2 * k + 1]);
        assert((2 * k) % 2 == 0 && (2 * k) / 2 == k);
        assert((2 * k + 1) % 2 == 1 && (2 * k + 1) / 2 == k);
    }
}

/// Memberships with one stored form agree in every field.
pub proof fn lemma_membership_bytes_injective(x: FunctionCatalogueMembershipRecord, y: FunctionCatalogueMembershipRecord)
    requires
        membership_fits(x),
        membership_fits(y),
        membership_bytes(x) == membership_bytes(y),
    ensures
        same_membership(x, y),
{
    let px = membership_parts(x);
    let py = membership_parts(y);
    lemma_record_bytes_injective(px, py);
    lemma_membership_parts_shape(x);
    lemma_membership_parts_shape(y);
    let a = x.artifact_sha256@.len() as int;
    assert(px[5] == py[5]);
    let d = x.function_definition_sha256@.len() as int;
    assert(px[6 + a] == py[6 + a]);
    let b = x.transaction_binding_sha256@.len() as int;
    assert(px[7 + a + 2 * d] == py[7 + a + 2 * d]);
    let t = 8 + a + 2 * d + 2 * b;
    assert(px[0] == py[0] && px[2] == py[2] && px[3] == py[3] && px[4] == py[4]);
    assert(px[t + 1] == py[t + 1] && px[t + 2] == py[t + 2] && px[t + 3] == py[t + 3] && px[t + 4] == py[t + 4]);
    assert forall|j: int| 0 <= j < a implies (#[trigger] x.artifact_sha256@[j])@ == y.artifact_sha256@[j]@ by {
        assert(px[6 + j] == py[6 + j]);
    }
    assert forall|k: int| 0 <= k < d implies (#[trigger] x.function_definition_sha256@[k]).0@ == y.function_definition_sha256@[k].0@
        && x.function_definition_sha256@[k].1@ == y.function_definition_sha256@[k].1@ by {
        assert(px[7 + a + 2 * k] == py[7 + a + 2 * k]);
        assert(px[8 + a + 2 * k] == py[8 + a + 2 * k]);
    }
    assert forall|k: int| 0 <= k < b implies (#[trigger] x.transaction_binding_sha256@[k]).0@ == y.transaction_binding_sha256@[k].0@
        && x.transaction_binding_sha256@[k].1@ == y.transaction_binding_sha256@[k].1@ by {
        assert(px[8 + a + 2 * d + 2 * k] == py[8 + a + 2 * d + 2 * k]);
        assert(px[9 + a + 2 * d + 2 * k] == py[9 + a + 2 * d + 2 * k]);
    }
}

/// One more pair adds its key and value texts.
proof fn lemma_pair_texts_push(s: Seq<(String, String)>, k: int)
    requires
        0 <= k < s.len(),
    ensures
        pair_texts(s.take(k + 1)) == pair_texts(s.take(k)) + seq![KeyPartValue::Text(s[k].0@), KeyPartValue::Text(s[k].1@)],
{
    let l = pair_texts(s.take(k + 1));
    let r = pair_texts(s.take(k)) + seq![KeyPartValue::Text(s[k].0@), KeyPartValue::Text(s[k].1@)];
    assert forall|i: int| 0 <= i < 2 * k + 2 implies l[i] == r[i] by {
        if i < 2 * k {
            assert(i / 2 < k);
            assert(s.take(k + 1)[i / 2] == s.take(k)[i / 2]);
        } else if i == 2 * k {
            assert(i / 2 == k && i % 2 == 0);
        } else {
            assert(i / 2 == k && i % 2 == 1);
        }
    }
    assert(l =~= r);
}

/// The stored form of a catalogue membership.
pub fn encode_membership(m: &FunctionCatalogueMembershipRecord) -> (bytes: Vec<u8>)
    ensures
        bytes@ == membership_bytes(*m),
{
    let mut parts: Vec<KeyPart> = Vec::new();
    parts.push(KeyPart::U64(m.format_version as u64));
    parts.push(KeyPart::U64(m.revision));
    parts.push(KeyPart::Bool(m.predecessor_sha256.is_some()));
    parts.push(KeyPart::Text(text_or_blank(&m.predecessor_sha256)));
    parts.push(KeyPart::Text(m.catalogue_sha256.as_str()));
    parts.push(KeyPart::U64(m.artifact_sha256.len() as u64));
    let ghost h0 = part_values(parts@);
    assert(h0 =~= seq![
        KeyPartValue::U64(m.format_version as u64),
        KeyPartValue::U64(m.revision),
        KeyPartValue::Bool(m.predecessor_sha256 is Some),
        KeyPartValue::Text(text_or_empty(m.predecessor_sha256)),
        KeyPartValue::Text(m.catalogue_sha256@),
        KeyPartValue::U64(m.artifact_sha256@.len() as u64),
    ]);
    let mut i: usize = 0;
    while i < m.artifact_sha256.len()
        invariant
            i <= m.artifact_sha256@.len(),
            part_values(parts@) == h0 + texts(m.artifact_sha256@.take(i as int)),
        decreases m.artifact_sha256@.len() - i,
    {
        let ghost before = part_values(parts@);
        parts.push(KeyPart::Text(m.artifact_sha256[i].as_str()));
        proof {
            assert(texts(m.artifact_sha256@.take(i + 1)) =~= texts(m.artifact_sha256@.take(i as int)).push(KeyPartValue::Text(m.artifact_sha256@[i as int]@)));
            assert(part_values(parts@) =~= before.push(KeyPartValue::Text(m.artifact_sha256@[i as int]@)));
        }
        i = i + 1;
    }
    parts.push(KeyPart::U64(m.function_definition_sha256.len() as u64));
    let ghost h1 = part_values(parts@);
    assert(m.artifact_sha256@.take(m.artifact_sha256@.len() as int) =~= m.artifact_sha256@);
    assert(h1 =~= h0 + texts(m.artifact_sha256@) + seq![KeyPartValue::U64(m.function_definition_sha256@.len() as u64)]);
    let mut k: usize = 0;
    while k < m.function_definition_sha256.len()
        invariant
            k <= m.function_definition_sha256@.len(),
            part_values(parts@) == h1 + pair_texts(m.function_definition_sha256@.take(k as int)),
        decreases m.function_definition_sha256@.len() - k,
    {
        let ghost before = part_values(parts@);
        let (key, value) = &m.function_definition_sha256[k];
        parts.push(KeyPart::Text(key.as_str()));
        parts.push(KeyPart::Text(value.as_str()));
        proof {
            lemma_pair_texts_push(m.function_definition_sha256@, k as int);
            assert(part_values(parts@) =~= before + seq![KeyPartValue::Text(key@), KeyPartValue::Text(value@)]);
        }
        k = k + 1;
    }
    parts.push(KeyPart::U64(m.transaction_binding_sha256.len() as u64));
    let ghost h2 = part_values(parts@);
    assert(m.function_definition_sha256@.take(m.function_definition_sha256@.len() as int) =~= m.function_definition_sha256@);
    assert(h2 =~= h1 + pair_texts(m.function_definition_sha256@) + seq![KeyPartValue::U64(m.transaction_binding_sha256@.len() as u64)]);
    let mut k: usize = 0;
    while k < m.transaction_binding_sha256.len()
        invariant
            k <= m.transaction_binding_sha256@.len(),
            part_values(parts@) == h2 + pair_texts(m.transaction_binding_sha256@.take(k as int)),
        decreases m.transaction_binding_sha256@.len() - k,
    {
        let ghost before = part_values(parts@);
        let (key, value) = &m.transaction_binding_sha256[k];
        parts.push(KeyPart::Text(key.as_str()));
        parts.push(KeyPart::Text(value.as_str()));
        proof {
            lemma_pair_texts_push(m.transaction_binding_sha256@, k as int);
            assert(part_values(parts@) =~= before + seq![KeyPartValue::Text(key@), KeyPartValue::Text(value@)]);
        }
        k = k + 1;
    }
    let ghost h3 = part_values(parts@);
    assert(m.transaction_binding_sha256@.take(m.transaction_binding_sha256@.len() as int) =~= m.transaction_binding_sha256@);
    assert(h3 =~= h2 + pair_texts(m.transaction_binding_sha256@));
    parts.push(KeyPart::U64(m.published_at_unix_ms));
    parts.push(KeyPart::Text(m.published_by.as_str()));
    parts.push(KeyPart::Text(m.request_id.as_str()));
    parts.push(KeyPart::Text(m.operation_id.as_str()));
    parts.push(KeyPart::Text(m.membership_sha256.as_str()));
    proof {
        assert(m.artifact_sha256@.take(m.artifact_sha256@.len() as int) =~= m.artifact_sha256@);
        assert(m.function_definition_sha256@.take(m.function_definition_sha256@.len() as int) =~= m.function_definition_sha256@);
        assert(m.transaction_binding_sha256@.take(m.transaction_binding_sha256@.len() as int) =~= m.transaction_binding_sha256@);
        assert(part_values(parts@) =~= h3 + seq![
            KeyPartValue::U64(m.published_at_unix_ms),
            KeyPartValue::Text(m.published_by@),
            KeyPartValue::Text(m.request_id@),
            KeyPartValue::Text(m.operation_id@),
            KeyPartValue::Text(m.membership_sha256@),
        ]);
        assert(part_values(parts@) =~= membership_parts(*m));
    }
    KeyCodec.encode(KeyAddress::global(), KeyFamily::System, parts.as_slice())
}

/// A tuple whose artifact `j` is no text stores no membership.
proof fn lemma_refute_artifact(pv: Seq<KeyPartValue>, a: int, j: int)
    requires
        0 <= j < a <= u64::MAX,
        pv[5] == KeyPartValue::U64(a as u64),
        !(pv[6 + j] is Text),
    ensures
        forall|x: FunctionCatalogueMembershipRecord| membership_fits(x) ==> #[trigger] membership_parts(x) != pv,
{
    assert forall|x: FunctionCatalogueMembershipRecord| membership_fits(x) implies #[trigger] membership_parts(x) != pv by {
        lemma_membership_parts_shape(x);
        if membership_parts(x) == pv {
            assert(x.artifact_sha256@.len() == a);
            assert(membership_parts(x)[6 + j] == KeyPartValue::Text(x.artifact_sha256@[j]@));
        }
    }
}

/// A tuple whose definition pair `k` is not two texts stores no membership.
proof fn lemma_refute_definition(pv: Seq<KeyPartValue>, a: int, d: int, k: int)
    requires
        0 <= a <= u64::MAX,
        0 <= k < d <= u64::MAX,
        pv[5] == KeyPartValue::U64(a as u64),
        pv[6 + a] == KeyPartValue::U64(d as u64),
        !(pv[7 + a + 2 * k] is Text && pv[8 + a + 2 * k] is Text),
    ensures
        forall|x: FunctionCatalogueMembershipRecord| membership_fits(x) ==> #[trigger] membership_parts(x) != pv,
{
    assert forall|x: FunctionCatalogueMembershipRecord| membership_fits(x) implies #[trigger] membership_parts(x) != pv by {
        lemma_membership_parts_shape(x);
        if membership_parts(x) == pv {
            assert(x.artifact_sha256@.len() == a);
            assert(x.function_definition_sha256@.len() == d);
            let e = x.function_definition_sha256@[k];
            assert(membership_parts(x)[7 + a + 2 * k] == KeyPartValue::Text(e.0@));
        }
    }
}

/// A tuple whose binding pair `k` is not two texts stores no membership.
proof fn lemma_refute_binding(pv: Seq<KeyPartValue>, a: int, d: int, b: int, k: int)
    requires
        0 <= a <= u64::MAX,
        0 <= d <= u64::MAX,
        0 <= k < b <= u64::MAX,
        pv[5] == KeyPartValue::U64(a as u64),
        pv[6 + a] == KeyPartValue::U64(d as u64),
        pv[7 + a + 2 * d] == KeyPartValue::U64(b as u64),
        !(pv[8 + a + 2 * d + 2 * k] is Text && pv[9 + a + 2 * d + 2 * k] is Text),
    ensures
        forall|x: FunctionCatalogueMembershipRecord| membership_fits(x) ==> #[trigger] membership_parts(x) != pv,
{
    assert forall|x: FunctionCatalogueMembershipRecord| membership_fits(x) implies #[trigger] membership_parts(x) != pv by {
        lemma_membership_parts_shape(x);
        if membership_parts(x) == pv {
            assert(x.artifact_sha256@.len() == a);
            assert(x.function_definition_sha256@.len() == d);
            assert(x.transaction_binding_sha256@.len() == b);
            let e = x.transaction_binding_sha256@[k];
            assert(membership_parts(x)[8 + a + 2 * d + 2 * k] == KeyPartValue::Text(e.0@));
        }
    }
}

/// The membership whose stored tuple is `parts`.
fn membership_of_parts(parts: &Vec<DecodedKeyPart>) -> (r: Option<FunctionCatalogueMembershipRecord>)
    ensures
        match r {
            Some(m) => membership_fits(m) && membership_parts(m) == parts_view(parts@),
            None => forall|x: FunctionCatalogueMembershipRecord| membership_fits(x) ==> #[trigger] membership_parts(x) != parts_view(parts@),
        },
{
    let ghost pv = parts_view(parts@);
    let n = parts.len();
    if n < 13 {
        proof {
            assert forall|x: FunctionCatalogueMembershipRecord| membership_fits(x) implies #[trigger] membership_parts(x) != pv by {
                lemma_membership_parts_shape(x);
            }
        }
        return None;
    }
    proof {
        assert forall|k: int| 0 <= k < n implies pv[k] == (#[trigger] parts@[k])@ by {}
    }
    let (version, revision, has_predecessor, predecessor, catalogue, na) = match (&parts[0], &parts[1], &parts[2], &parts[3], &parts[4], &parts[5]) {
        (DecodedKeyPart::U64(v), DecodedKeyPart::U64(rv), DecodedKeyPart::Bool(hp), DecodedKeyPart::Text(p), DecodedKeyPart::Text(c), DecodedKeyPart::U64(count)) => (
            *v,
            *rv,
            *hp,
            p,
            c,
            *count,
        ),
        _ => {
            proof {
                assert forall|x: FunctionCatalogueMembershipRecord| membership_fits(x) implies #[trigger] membership_parts(x) != pv by {
                    lemma_membership_parts_shape(x);
                    if membership_parts(x) == pv {
                        assert(pv[0] == parts@[0]@ && pv[1] == parts@[1]@ && pv[2] == parts@[2]@);
                        assert(pv[3] == parts@[3]@ && pv[4] == parts@[4]@ && pv[5] == parts@[5]@);
                    }
                }
            }
            return None;
        },
    };
    let predecessor_sha256 = match optional_text(has_predecessor, predecessor) {
        Some(o) => o,
        None => {
            proof {
                assert forall|x: FunctionCatalogueMembershipRecord| membership_fits(x) implies #[trigger] membership_parts(x) != pv by {
                    lemma_membership_parts_shape(x);
                }
            }
            return None;
        },
    };
    let room: usize = n - 13;
    if version > 65535 || na > room as u64 {
        proof {
            assert forall|x: FunctionCatalogueMembershipRecord| membership_fits(x) implies #[trigger] membership_parts(x) != pv by {
                lemma_membership_parts_shape(x);
            }
        }
        return None;
    }
    let a = na as usize;
    let mut artifacts: Vec<String> = Vec::new();
    let mut j: usize = 0;
    while j < a
        invariant
            n == parts.len(),
            pv == parts_view(parts@),
            a + 13 <= n,
            j <= a,
            artifacts@.len() == j,
            pv[5] == KeyPartValue::U64(a as u64),
            forall|i: int| 0 <= i < j ==> pv[6 + i] == KeyPartValue::Text((#[trigger] artifacts@[i])@),
        decreases a - j,
    {
        proof {
            assert(pv[6 + j] == parts@[6 + j as int]@);
        }
        match &parts[6 + j] {
            DecodedKeyPart::Text(t) => {
                artifacts.push(t.clone());
            },
            _ => {
                proof {
                    lemma_refute_artifact(pv, a as int, j as int);
                }
                return None;
            },
        }
        j = j + 1;
    }
    let nd = match &parts[6 + a] {
        DecodedKeyPart::U64(v) => *v,
        _ => {
            proof {
                assert forall|x: FunctionCatalogueMembershipRecord| membership_fits(x) implies #[trigger] membership_parts(x) != pv by {
                    lemma_membership_parts_shape(x);
                    if membership_parts(x) == pv {
                        assert(x.artifact_sha256@.len() == a);
                        assert(pv[6 + a] == parts@[6 + a as int]@);
                    }
                }
            }
            return None;
        },
    };
    let rest: usize = room - a;
    if nd > (rest / 2) as u64 {
        proof {
            assert forall|x: FunctionCatalogueMembershipRecord| membership_fits(x) implies #[trigger] membership_parts(x) != pv by {
                lemma_membership_parts_shape(x);
                if membership_parts(x) == pv {
                    assert(x.artifact_sha256@.len() == a);
                    assert(pv[6 + a] == parts@[6 + a as int]@);
                    assert(x.function_definition_sha256@.len() == nd);
                }
            }
        }
        return None;
    }
    let d = nd as usize;
    proof {
        assert(pv[6 + a] == parts@[6 + a as int]@);
    }
    let mut definitions: Vec<(String, String)> = Vec::new();
    let mut k: usize = 0;
    while k < d
        invariant
            n == parts.len(),
            pv == parts_view(parts@),
            a + 13 + 2 * d <= n,
            k <= d,
            pv[5] == KeyPartValue::U64(a as u64),
            pv[6 + a] == KeyPartValue::U64(d as u64),
            definitions@.len() == k,
            forall|i: int|
                0 <= i < k ==> pv[7 + a + 2 * i] == KeyPartValue::Text((#[trigger] definitions@[i]).0@) && pv[8 + a + 2 * i] == KeyPartValue::Text(
                    definitions@[i].1@,
                ),
        decreases d - k,
    {
        proof {
            assert(pv[7 + a + 2 * k] == parts@[7 + a + 2 * k as int]@);
            assert(pv[8 + a + 2 * k] == parts@[8 + a + 2 * k as int]@);
        }
        match (&parts[7 + a + 2 * k], &parts[8 + a + 2 * k]) {
            (DecodedKeyPart::Text(key), DecodedKeyPart::Text(value)) => {
                definitions.push((key.clone(), value.clone()));
            },
            _ => {
                proof {
                    lemma_refute_definition(pv, a as int, d as int, k as int);
                }
                return None;
            },
        }
        k = k + 1;
    }
    let nb = match &parts[7 + a + 2 * d] {
        DecodedKeyPart::U64(v) => *v,
        _ => {
            proof {
                assert forall|x: FunctionCatalogueMembershipRecord| membership_fits(x) implies #[trigger] membership_parts(x) != pv by {
                    lemma_membership_parts_shape(x);
                    if membership_parts(x) == pv {
                        assert(x.artifact_sha256@.len() == a);
                        assert(pv[6 + a] == parts@[6 + a as int]@);
                        assert(x.function_definition_sha256@.len() == d);
                        assert(pv[7 + a + 2 * d] == parts@[7 + a + 2 * d as int]@);
                    }
                }
            }
            return None;
        },
    };
    let left: usize = rest - 2 * d;
    if nb > (left / 2) as u64 || 2 * (nb as usize) != left {
        proof {
            assert forall|x: FunctionCatalogueMembershipRecord| membership_fits(x) implies #[trigger] membership_parts(x) != pv by {
                lemma_membership_parts_shape(x);
                if membership_parts(x) == pv {
                    assert(x.artifact_sha256@.len() == a);
                    assert(pv[6 + a] == parts@[6 + a as int]@);
                    assert(x.function_definition_sha256@.len() == d);
                    assert(pv[7 + a + 2 * d] == parts@[7 + a + 2 * d as int]@);
                    assert(x.transaction_binding_sha256@.len() == nb);
                }
            }
        }
        return None;
    }
    let b = nb as usize;
    proof {
        assert(pv[7 + a + 2 * d] == parts@[7 + a + 2 * d as int]@);
    }
    let mut bindings: Vec<(String, String)> = Vec::new();
    let mut k: usize = 0;
    while k < b
        invariant
            n == parts.len(),
            pv == parts_view(parts@),
            a + 13 + 2 * d + 2 * b == n,
            k <= b,
            pv[5] == KeyPartValue::U64(a as u64),
            pv[6 + a] == KeyPartValue::U64(d as u64),
            pv[7 + a + 2 * d] == KeyPartValue::U64(b as u64),
            bindings@.len() == k,
            forall|i: int|
                0 <= i < k ==> pv[8 + a + 2 * d + 2 * i] == KeyPartValue::Text((#[trigger] bindings@[i]).0@) && pv[9 + a + 2 * d + 2 * i]
                    == KeyPartValue::Text(bindings@[i].1@),
        decreases b - k,
    {
        proof {
            assert(pv[8 + a + 2 * d + 2 * k] == parts@[8 + a + 2 * d + 2 * k as int]@);
            assert(pv[9 + a + 2 * d + 2 * k] == parts@[9 + a + 2 * d + 2 * k as int]@);
        }
        match (&parts[8 + a + 2 * d + 2 * k], &parts[9 + a + 2 * d + 2 * k]) {
            (DecodedKeyPart::Text(key), DecodedKeyPart::Text(value)) => {
                bindings.push((key.clone(), value.clone()));
            },
            _ => {
                proof {
                    lemma_refute_binding(pv, a as int, d as int, b as int, k as int);
                }
                return None;
            },
        }
        k = k + 1;
    }
    let t = n - 5;
    proof {
        assert(pv[t as int] == parts@[t as int]@ && pv[t + 1] == parts@[t + 1]@ && pv[t + 2] == parts@[t + 2]@);
        assert(pv[t + 3] == parts@[t + 3]@ && pv[t + 4] == parts@[t + 4]@);
        assert(pv[6 + a] == parts@[6 + a as int]@);
        assert(pv[7 + a + 2 * d] == parts@[7 + a + 2 * d as int]@);
    }
    match (&parts[t], &parts[t + 1], &parts[t + 2], &parts[t + 3], &parts[t + 4]) {
        (DecodedKeyPart::U64(published_at), DecodedKeyPart::Text(by), DecodedKeyPart::Text(request), DecodedKeyPart::Text(operation), DecodedKeyPart::Text(
            digest,
        )) => {
            let m = FunctionCatalogueMembershipRecord {
                format_version: version as u16,
                revision,
                predecessor_sha256,
                catalogue_sha256: catalogue.clone(),
                artifact_sha256: artifacts,
                function_definition_sha256: definitions,
                transaction_binding_sha256: bindings,
                published_at_unix_ms: *published_at,
                published_by: by.clone(),
                request_id: request.clone(),
                operation_id: operation.clone(),
                membership_sha256: digest.clone(),
            };
            proof {
                lemma_membership_parts_shape(m);
                let ps = membership_parts(m);
                assert forall|i: int| 0 <= i < n implies #[trigger] ps[i] == pv[i] by {
                    if 6 <= i < 6 + a {
                        assert(ps[6 + (i - 6)] == KeyPartValue::Text(m.artifact_sha256@[i - 6]@));
                    } else if 7 + a <= i < 7 + a + 2 * d {
                        let q = (i - 7 - a) / 2;
                        assert(0 <= q < d);
                        if (i - 7 - a) % 2 == 0 {
                            assert(i == 7 + a + 2 * q);
                            assert(ps[7 + a + 2 * q] == KeyPartValue::Text(m.function_definition_sha256@[q].0@));
                        } else {
                            assert(i == 8 + a + 2 * q);
                            assert(ps[8 + a + 2 * q] == KeyPartValue::Text(m.function_definition_sha256@[q].1@));
                        }
                    } else if 8 + a + 2 * d <= i < 8 + a + 2 * d + 2 * b {
                        let q = (i - 8 - a - 2 * d) / 2;
                        assert(0 <= q < b);
                        if (i - 8 - a - 2 * d) % 2 == 0 {
                            assert(i == 8 + a + 2 * d + 2 * q);
                            assert(ps[8 + a + 2 * d + 2 * q] == KeyPartValue::Text(m.transaction_binding_sha256@[q].0@));
                        } else {
                            assert(i == 9 + a + 2 * d + 2 * q);
                            assert(ps[9 + a + 2 * d + 2 * q] == KeyPartValue::Text(m.transaction_binding_sha256@[q].1@));
                        }
                    }
                }
                assert(ps =~= pv);
            }
            Some(m)
        },
        _ => {
            proof {
                assert forall|x: FunctionCatalogueMembershipRecord| membership_fits(x) implies #[trigger] membership_parts(x) != pv by {
                    lemma_membership_parts_shape(x);
                    if membership_parts(x) == pv {
                        assert(x.artifact_sha256@.len() == a);
                        assert(x.function_definition_sha256@.len() == d);
                        assert(x.transaction_binding_sha256@.len() == b);
                    }
                }
            }
            None
        },
    }
}

/// The catalogue membership stored as `bytes`.
pub fn decode_membership(bytes: &[u8]) -> (r: Result<FunctionCatalogueMembershipRecord>)
    ensures
        match r {
            Ok(m) => membership_fits(m) && membership_bytes(m) == bytes@,
            Err(e) => e is Codec && forall|x: FunctionCatalogueMembershipRecord| membership_fits(x) ==> #[trigger] membership_bytes(x) != bytes@,
        },
{
    let parts = match record_parts(bytes) {
        Some(parts) => parts,
        None => {
            return Err(Error::Codec(text("function catalogue membership is not a canonical record")));
        },
    };
    match membership_of_parts(&parts) {
        Some(m) => Ok(m),
        None => {
            proof {
                assert forall|x: FunctionCatalogueMembershipRecord| membership_fits(x) implies #[trigger] membership_bytes(x) != bytes@ by {
                    if membership_bytes(x) == bytes@ {
                        lemma_record_bytes_injective(membership_parts(x), parts_view(parts@));
                    }
                }
            }
            Err(Error::Codec(text("function catalogue membership is not a canonical record")))
        },
    }
}

// ---------------------------------------------------------- congruence

/// Validity of a head depends on its fields' values only.
pub proof fn lemma_same_head_valid(a: FunctionCatalogueHeadRecord, b: FunctionCatalogueHeadRecord)
    requires
        same_head(a, b),
    ensures
        is_valid_head(a) == is_valid_head(b),
{
}

/// Validity of a definition depends on its fields' values only.
pub proof fn lemma_same_definition_valid(a: FunctionDefinitionRecord, b: FunctionDefinitionRecord)
    requires
        same_definition(a, b),
    ensures
        is_valid_definition(a) == is_valid_definition(b),
{
    assert(crate::function::opt_string_utf8(a.predecessor_sha256) == crate::function::opt_string_utf8(b.predecessor_sha256));
}

/// Validity of a binding depends on its fields' values only.
pub proof fn lemma_same_binding_valid(a: TransactionFunctionBindingRecord, b: TransactionFunctionBindingRecord)
    requires
        same_binding(a, b),
    ensures
        is_valid_binding(a) == is_valid_binding(b),
{
    assert(crate::function::opt_string_utf8(a.predecessor_sha256) == crate::function::opt_string_utf8(b.predecessor_sha256));
}

/// Validity of a membership's components depends on its fields' values only.
pub proof fn lemma_same_membership_valid(a: FunctionCatalogueMembershipRecord, b: FunctionCatalogueMembershipRecord)
    requires
        same_membership(a, b),
    ensures
        membership_components_valid(a) == membership_components_valid(b),
{
    assert(crate::function::opt_string_utf8(a.predecessor_sha256) == crate::function::opt_string_utf8(b.predecessor_sha256));
    let (aa, ba) = (a.artifact_sha256@, b.artifact_sha256@);
    assert(crate::function::strings_ascending(aa) == crate::function::strings_ascending(ba)) by {
        assert forall|i: int, j: int| 0 <= i < j < aa.len() implies (crate::bytes::lex_lt(
            #[trigger] crate::function::utf8(aa[i]@),
            #[trigger] crate::function::utf8(aa[j]@),
        ) == crate::bytes::lex_lt(crate::function::utf8(ba[i]@), crate::function::utf8(ba[j]@))) by {
            assert(aa[i]@ == ba[i]@ && aa[j]@ == ba[j]@);
        }
        if crate::function::strings_ascending(ba) {
            assert forall|i: int, j: int| 0 <= i < j < aa.len() implies crate::bytes::lex_lt(
                #[trigger] crate::function::utf8(aa[i]@),
                #[trigger] crate::function::utf8(aa[j]@),
            ) by {
                assert(aa[i]@ == ba[i]@ && aa[j]@ == ba[j]@);
                assert(crate::bytes::lex_lt(crate::function::utf8(ba[i]@), crate::function::utf8(ba[j]@)));
            }
        }
        if crate::function::strings_ascending(aa) {
            assert forall|i: int, j: int| 0 <= i < j < ba.len() implies crate::bytes::lex_lt(
                #[trigger] crate::function::utf8(ba[i]@),
                #[trigger] crate::function::utf8(ba[j]@),
            ) by {
                assert(aa[i]@ == ba[i]@ && aa[j]@ == ba[j]@);
                assert(crate::bytes::lex_lt(crate::function::utf8(aa[i]@), crate::function::utf8(aa[j]@)));
            }
        }
    }
    assert((forall|i: int| 0 <= i < aa.len() ==> crate::keyspaces::is_sha256_text(crate::function::utf8(#[trigger] aa[i]@))) == (forall|i: int|
        0 <= i < ba.len() ==> crate::keyspaces::is_sha256_text(crate::function::utf8(#[trigger] ba[i]@)))) by {
        if forall|i: int| 0 <= i < aa.len() ==> crate::keyspaces::is_sha256_text(crate::function::utf8(#[trigger] aa[i]@)) {
            assert forall|i: int| 0 <= i < ba.len() implies crate::keyspaces::is_sha256_text(crate::function::utf8(#[trigger] ba[i]@)) by {
                assert(aa[i]@ == ba[i]@);
                assert(crate::keyspaces::is_sha256_text(crate::function::utf8(aa[i]@)));
            }
        }
        if forall|i: int| 0 <= i < ba.len() ==> crate::keyspaces::is_sha256_text(crate::function::utf8(#[trigger] ba[i]@)) {
            assert forall|i: int| 0 <= i < aa.len() implies crate::keyspaces::is_sha256_text(crate::function::utf8(#[trigger] aa[i]@)) by {
                assert(aa[i]@ == ba[i]@);
                assert(crate::keyspaces::is_sha256_text(crate::function::utf8(ba[i]@)));
            }
        }
    }
    lemma_same_pairs_digest_map(a.function_definition_sha256@, b.function_definition_sha256@);
    lemma_same_pairs_digest_map(a.transaction_binding_sha256@, b.transaction_binding_sha256@);
}

/// Whether pairs form a digest map depends on their values only.
proof fn lemma_same_pairs_digest_map(a: Seq<(String, String)>, b: Seq<(String, String)>)
    requires
        same_pairs(a, b),
    ensures
        crate::function::is_digest_map(a) == crate::function::is_digest_map(b),
{
    assert(crate::function::pairs_ascending(a) == crate::function::pairs_ascending(b)) by {
        if crate::function::pairs_ascending(b) {
            assert forall|i: int, j: int| 0 <= i < j < a.len() implies crate::bytes::lex_lt(
                #[trigger] crate::function::utf8(a[i].0@),
                #[trigger] crate::function::utf8(a[j].0@),
            ) by {
                assert(a[i].0@ == b[i].0@ && a[j].0@ == b[j].0@);
                assert(crate::bytes::lex_lt(crate::function::utf8(b[i].0@), crate::function::utf8(b[j].0@)));
            }
        }
        if crate::function::pairs_ascending(a) {
            assert forall|i: int, j: int| 0 <= i < j < b.len() implies crate::bytes::lex_lt(
                #[trigger] crate::function::utf8(b[i].0@),
                #[trigger] crate::function::utf8(b[j].0@),
            ) by {
                assert(a[i].0@ == b[i].0@ && a[j].0@ == b[j].0@);
                assert(crate::bytes::lex_lt(crate::function::utf8(a[i].0@), crate::function::utf8(a[j].0@)));
            }
        }
    }
    assert((forall|i: int| 0 <= i < a.len() ==> crate::function::is_digest_pair(#[trigger] a[i])) == (forall|i: int|
        0 <= i < b.len() ==> crate::function::is_digest_pair(#[trigger] b[i]))) by {
        if forall|i: int| 0 <= i < a.len() ==> crate::function::is_digest_pair(#[trigger] a[i]) {
            assert forall|i: int| 0 <= i < b.len() implies crate::function::is_digest_pair(#[trigger] b[i]) by {
                assert(crate::function::is_digest_pair(a[i]));
            }
        }
        if forall|i: int| 0 <= i < b.len() ==> crate::function::is_digest_pair(#[trigger] b[i]) {
            assert forall|i: int| 0 <= i < a.len() implies crate::function::is_digest_pair(#[trigger] a[i]) by {
                assert(crate::function::is_digest_pair(b[i]));
            }
        }
    }
}

} // verus!
