//! Governed-function state kept in the store: the immutable catalogue
//! records, the compare-and-swap head that selects the active membership,
//! and standalone invocation receipts, each bound once to its invocation
//! identity.

use crate::control::text_or_empty;
use crate::engine::{bytes_opt, RrflowMxStore, RrflowMxTransaction};
use crate::error::{text, Error, Result};
use crate::function::{
    artifact_bytes, is_coordinate, is_valid_artifact, is_valid_binding, is_valid_definition, is_valid_head, is_valid_receipt,
    membership_components_valid, publication_valid, utf8, validate_coordinate, FunctionCataloguePublication, FunctionArtifactMediaTypeRecord, FunctionArtifactRecord, FunctionCatalogueHeadRecord,
    FunctionCatalogueMembershipRecord, FunctionCatalogueSnapshot, FunctionDefinitionRecord, FunctionInvocationReceiptRecord,
    TransactionFunctionBindingRecord,
};
use crate::key_codec::{
    spec_encode_key, spec_encode_key_value, DecodedKeyPart, KeyAddress, KeyCodec, KeyFamily, KeyPart, KeyPartValue, KeyValue,
};
use crate::keyspaces::{
    self, spec_decode_hex, spec_space_key, Durability, Space, FUNCTION_ARTIFACTS, FUNCTION_DEFINITIONS, INVOCATIONS, TRANSACTION_FUNCTION_BINDINGS,
};
use crate::repository::catalogue::{
    binding_bytes, decode_binding, encode_binding, encode_definition, encode_head, encode_membership, decode_definition, decode_head, decode_membership, definition_bytes, head_bytes, lemma_binding_bytes_injective,
    lemma_definition_bytes_injective, lemma_head_bytes_injective, lemma_membership_bytes_injective, lemma_same_binding_valid,
    lemma_same_definition_valid, lemma_same_head_valid, lemma_same_membership_valid, membership_bytes, membership_fits, same_head, same_membership,
};
use crate::repository::common::{checked_key, get, lemma_is_space_key};
use crate::repository::control::newest;
use vstd::prelude::*;

verus! {

/// The key the receipt of invocation `invocation_id` of catalogue instance
/// `instance` is stored under.
pub open spec fn receipt_key(instance: Seq<char>, invocation_id: Seq<char>) -> Seq<u8> {
    spec_space_key(Space::Invocations, seq![KeyPartValue::Text(instance), KeyPartValue::Text(invocation_id)])
}

/// The tuple a receipt is stored as.
pub open spec fn receipt_parts(r: FunctionInvocationReceiptRecord) -> Seq<KeyPartValue> {
    seq![
        KeyPartValue::U64(r.format_version as u64),
        KeyPartValue::Text(r.invocation_id@),
        KeyPartValue::Bool(r.runtime_commit_sha256 is Some),
        KeyPartValue::Text(text_or_empty(r.runtime_commit_sha256)),
        KeyPartValue::Text(r.receipt_sha256@),
        KeyPartValue::Text(r.canonical_receipt_sha256@),
        KeyPartValue::Text(r.canonical_receipt_json@),
    ]
}

/// The stored form of a receipt.
pub open spec fn receipt_bytes(r: FunctionInvocationReceiptRecord) -> Seq<u8> {
    spec_encode_key(None, None, KeyFamily::System, receipt_parts(r))
}

/// Two receipts agree in every field.
pub open spec fn same_receipt(a: FunctionInvocationReceiptRecord, b: FunctionInvocationReceiptRecord) -> bool {
    &&& a.format_version == b.format_version
    &&& a.invocation_id@ == b.invocation_id@
    &&& crate::control::opt_string_view(a.runtime_commit_sha256) == crate::control::opt_string_view(b.runtime_commit_sha256)
    &&& a.receipt_sha256@ == b.receipt_sha256@
    &&& a.canonical_receipt_sha256@ == b.canonical_receipt_sha256@
    &&& a.canonical_receipt_json@ == b.canonical_receipt_json@
}

/// Receipts with the same stored form agree in every field.
pub proof fn lemma_receipt_bytes_injective(a: FunctionInvocationReceiptRecord, b: FunctionInvocationReceiptRecord)
    requires
        receipt_bytes(a) == receipt_bytes(b),
    ensures
        same_receipt(a, b),
        is_valid_receipt(a) == is_valid_receipt(b),
{
    let ka = KeyValue { tenant: None, scope: None, family: KeyFamily::System, parts: receipt_parts(a) };
    let kb = KeyValue { tenant: None, scope: None, family: KeyFamily::System, parts: receipt_parts(b) };
    crate::key_codec::lemma_encode_injective(ka, kb);
    assert(receipt_parts(a)[0] == receipt_parts(b)[0]);
    assert(receipt_parts(a)[2] == receipt_parts(b)[2]);
    assert(receipt_parts(a)[3] == receipt_parts(b)[3]);
    assert(a.format_version as u64 == b.format_version as u64);
}

/// The newest stored receipt of the invocation of `receipt` in `instance`
/// is that receipt, and both are valid: reading it gives it back.
pub open spec fn receipt_reads_back(store: RrflowMxStore, instance: Seq<char>, receipt: FunctionInvocationReceiptRecord) -> bool {
    &&& is_coordinate(utf8(instance))
    &&& is_valid_receipt(receipt)
    &&& newest(store, receipt_key(instance, receipt.invocation_id@)) == Some(receipt_bytes(receipt))
}

/// What `FunctionCatalogueRepository::invocation_receipt` returns for
/// invocation `invocation_id` of `instance` on `store`: none where nothing
/// is stored, the stored receipt where it decodes to a valid one, and an
/// error otherwise; a receipt that reads back is always the one returned.
pub open spec fn invocation_receipt_result(
    store: RrflowMxStore,
    instance: Seq<char>,
    invocation_id: Seq<char>,
    r: Result<Option<FunctionInvocationReceiptRecord>>,
) -> bool {
    &&& (!is_coordinate(utf8(instance)) || !is_coordinate(utf8(invocation_id)) ==> r matches Err(Error::FunctionConstraint(_)))
    &&& forall|x: FunctionInvocationReceiptRecord| #[trigger] receipt_reads_back(store, instance, x) && x.invocation_id@ == invocation_id
        ==> (r matches Ok(Some(y)) && same_receipt(x, y))
    &&& (is_coordinate(utf8(instance)) && is_coordinate(utf8(invocation_id)) ==> match newest(store, receipt_key(instance, invocation_id)) {
        None => r == Ok::<Option<FunctionInvocationReceiptRecord>, Error>(None),
        Some(stored) => {
            &&& (r is Ok <==> exists|x: FunctionInvocationReceiptRecord| #[trigger] receipt_bytes(x) == stored && is_valid_receipt(x))
            &&& (r matches Ok(found) ==> found matches Some(x) && receipt_bytes(x) == stored && is_valid_receipt(x))
            &&& forall|x: FunctionInvocationReceiptRecord| #[trigger] receipt_bytes(x) == stored && is_valid_receipt(x)
                ==> (r matches Ok(Some(y)) && same_receipt(x, y))
        },
    })
}

/// A committed standalone receipt is what its invocation then reads: where
/// `commit_standalone_receipt(instance, receipt)` returned `Ok` and left
/// `after`, `invocation_receipt(instance, receipt.invocation_id)` on `after`
/// returns that receipt.
pub proof fn lemma_committed_receipt_reads_back(
    after: RrflowMxStore,
    instance: Seq<char>,
    receipt: FunctionInvocationReceiptRecord,
    read: Result<Option<FunctionInvocationReceiptRecord>>,
)
    requires
        receipt_reads_back(after, instance, receipt),
        invocation_receipt_result(after, instance, receipt.invocation_id@, read),
    ensures
        read matches Ok(Some(y)) && same_receipt(receipt, y),
{
    assert(receipt_reads_back(after, instance, receipt) && receipt.invocation_id@ == receipt.invocation_id@);
}

/// The text of a borrowed optional string, empty where absent.
fn text_or_blank(o: &Option<String>) -> (s: &str)
    ensures
        s@ == text_or_empty(*o),
{
    match o {
        Some(v) => v.as_str(),
        None => {
            proof {
                reveal_strlit("");
            }
            ""
        },
    }
}

/// The stored form of a receipt.
pub fn encode_receipt(r: &FunctionInvocationReceiptRecord) -> (bytes: Vec<u8>)
    ensures
        bytes@ == receipt_bytes(*r),
{
    let parts = [
        KeyPart::U64(r.format_version as u64),
        KeyPart::Text(r.invocation_id.as_str()),
        KeyPart::Bool(r.runtime_commit_sha256.is_some()),
        KeyPart::Text(text_or_blank(&r.runtime_commit_sha256)),
        KeyPart::Text(r.receipt_sha256.as_str()),
        KeyPart::Text(r.canonical_receipt_sha256.as_str()),
        KeyPart::Text(r.canonical_receipt_json.as_str()),
    ];
    proof {
        assert(crate::key_codec::part_values(parts@) =~= receipt_parts(*r));
    }
    KeyCodec.encode(KeyAddress::global(), KeyFamily::System, &parts)
}

/// The receipt stored as `bytes`.
pub fn decode_receipt(bytes: &[u8]) -> (r: Result<FunctionInvocationReceiptRecord>)
    ensures
        match r {
            Ok(receipt) => receipt_bytes(receipt) == bytes@,
            Err(e) => e is Codec && forall|x: FunctionInvocationReceiptRecord| #[trigger] receipt_bytes(x) != bytes@,
        },
{
    let key = match KeyCodec.decode(bytes) {
        Ok(key) => key,
        Err(_) => {
            proof {
                assert forall|x: FunctionInvocationReceiptRecord| #[trigger] receipt_bytes(x) != bytes@ by {
                    let k = KeyValue { tenant: None, scope: None, family: KeyFamily::System, parts: receipt_parts(x) };
                    assert(spec_encode_key_value(k) == receipt_bytes(x));
                }
            }
            return Err(Error::Codec(text("function invocation receipt is not a canonical record")));
        },
    };
    let ghost kv = key@;
    if key.tenant.is_none() && key.scope.is_none() && key.family == KeyFamily::System && key.parts.len() == 7 {
        let p = &key.parts;
        match (&p[0], &p[1], &p[2], &p[3], &p[4], &p[5], &p[6]) {
            (DecodedKeyPart::U64(version), DecodedKeyPart::Text(invocation_id), DecodedKeyPart::Bool(has_commit),
             DecodedKeyPart::Text(commit), DecodedKeyPart::Text(receipt_sha256), DecodedKeyPart::Text(canonical_sha256),
             DecodedKeyPart::Text(json)) => {
                if *version <= 65535 && (*has_commit || commit.as_str().is_empty()) {
                    let receipt = FunctionInvocationReceiptRecord {
                        format_version: *version as u16,
                        invocation_id: invocation_id.clone(),
                        runtime_commit_sha256: if *has_commit { Some(commit.clone()) } else { None },
                        receipt_sha256: receipt_sha256.clone(),
                        canonical_receipt_sha256: canonical_sha256.clone(),
                        canonical_receipt_json: json.clone(),
                    };
                    proof {
                        assert forall|i: int| 0 <= i < 7 implies kv.parts[i] == key.parts@[i]@ by {}
                        assert(kv.parts[0] == KeyPartValue::U64(*version));
                        assert(kv.parts[2] == KeyPartValue::Bool(*has_commit));
                        assert(kv.parts[3] == KeyPartValue::Text(commit@));
                        if !*has_commit {
                            assert(commit@ =~= Seq::<char>::empty());
                        }
                        assert(receipt_parts(receipt) =~= kv.parts);
                        assert(receipt_bytes(receipt) == spec_encode_key_value(kv));
                    }
                    return Ok(receipt);
                }
            },
            _ => {},
        }
    }
    proof {
        assert forall|x: FunctionInvocationReceiptRecord| #[trigger] receipt_bytes(x) != bytes@ by {
            let k = KeyValue { tenant: None, scope: None, family: KeyFamily::System, parts: receipt_parts(x) };
            if receipt_bytes(x) == bytes@ {
                assert(spec_encode_key_value(k) == receipt_bytes(x));
                crate::key_codec::lemma_encode_injective(k, kv);
                assert(kv.parts == receipt_parts(x));
                assert(key.parts@.len() == 7);
                assert forall|i: int| 0 <= i < 7 implies kv.parts[i] == key.parts@[i]@ by {}
                if x.runtime_commit_sha256 is None {
                    assert(kv.parts[3] == KeyPartValue::Text(Seq::<char>::empty()));
                }
            }
        }
    }
    Err(Error::Codec(text("function invocation receipt is not a canonical record")))
}

/// The key of the catalogue head of `instance`.
pub open spec fn head_key_of(instance: Seq<char>) -> Seq<u8> {
    spec_space_key(Space::FunctionCatalogueHeads, seq![KeyPartValue::Text(instance)])
}

/// The key of the membership of catalogue revision `revision`.
pub open spec fn membership_key_of(instance: Seq<char>, revision: u64) -> Seq<u8> {
    spec_space_key(Space::FunctionCatalogueMemberships, seq![KeyPartValue::Text(instance), KeyPartValue::U64(revision)])
}

/// The key of the artifact addressed by `sha256`.
pub open spec fn artifact_key_of(instance: Seq<char>, sha256: Seq<char>) -> Seq<u8> {
    spec_space_key(Space::FunctionArtifacts, seq![KeyPartValue::Text(instance), KeyPartValue::Bytes(spec_decode_hex(utf8(sha256)))])
}

/// The key of definition `sha256` of function `id`.
pub open spec fn definition_key_of(instance: Seq<char>, id: Seq<char>, sha256: Seq<char>) -> Seq<u8> {
    spec_space_key(Space::FunctionDefinitions, seq![KeyPartValue::Text(instance), KeyPartValue::Text(id), KeyPartValue::Bytes(spec_decode_hex(utf8(sha256)))])
}

/// The key of binding `sha256` of binding identity `id`.
pub open spec fn binding_key_of(instance: Seq<char>, id: Seq<char>, sha256: Seq<char>) -> Seq<u8> {
    spec_space_key(
        Space::TransactionFunctionBindings,
        seq![KeyPartValue::Text(instance), KeyPartValue::Text(id), KeyPartValue::Bytes(spec_decode_hex(utf8(sha256)))],
    )
}

/// A valid artifact with address `sha256` is stored under its key.
pub open spec fn artifact_present(store: RrflowMxStore, instance: Seq<char>, sha256: Seq<char>) -> bool {
    exists|x: (FunctionArtifactMediaTypeRecord, Seq<u8>)|
        newest(store, artifact_key_of(instance, sha256)) == Some(#[trigger] artifact_bytes(x.0, x.1)) && is_valid_artifact(sha256, x.1)
}

/// A valid definition `sha256` of function `id` is stored under its key.
pub open spec fn definition_present(store: RrflowMxStore, instance: Seq<char>, id: Seq<char>, sha256: Seq<char>) -> bool {
    exists|d: FunctionDefinitionRecord|
        newest(store, definition_key_of(instance, id, sha256)) == Some(#[trigger] definition_bytes(d)) && is_valid_definition(d) && d.function_id@
            == id && d.definition_sha256@ == sha256
}

/// A valid binding `sha256` of binding identity `id` is stored under its key.
pub open spec fn binding_present(store: RrflowMxStore, instance: Seq<char>, id: Seq<char>, sha256: Seq<char>) -> bool {
    exists|b: TransactionFunctionBindingRecord|
        newest(store, binding_key_of(instance, id, sha256)) == Some(#[trigger] binding_bytes(b)) && is_valid_binding(b) && b.binding_id@ == id
            && b.binding_sha256@ == sha256
}

/// The head selects the membership: same revision, catalogue and membership digests.
pub open spec fn head_matches(h: FunctionCatalogueHeadRecord, m: FunctionCatalogueMembershipRecord) -> bool {
    &&& h.revision == m.revision
    &&& h.catalogue_sha256@ == m.catalogue_sha256@
    &&& h.membership_sha256@ == m.membership_sha256@
}

/// The head and membership are valid and match, and every record the
/// membership names is stored, valid and under its own identity.
pub open spec fn snapshot_loadable(store: RrflowMxStore, instance: Seq<char>, h: FunctionCatalogueHeadRecord, m: FunctionCatalogueMembershipRecord) -> bool {
    &&& is_valid_head(h)
    &&& membership_components_valid(m)
    &&& head_matches(h, m)
    &&& forall|i: int| 0 <= i < m.artifact_sha256@.len() ==> artifact_present(store, instance, (#[trigger] m.artifact_sha256@[i])@)
    &&& forall|i: int|
        0 <= i < m.function_definition_sha256@.len() ==> definition_present(
            store,
            instance,
            (#[trigger] m.function_definition_sha256@[i]).0@,
            m.function_definition_sha256@[i].1@,
        )
    &&& forall|i: int|
        0 <= i < m.transaction_binding_sha256@.len() ==> binding_present(
            store,
            instance,
            (#[trigger] m.transaction_binding_sha256@[i]).0@,
            m.transaction_binding_sha256@[i].1@,
        )
}

/// The snapshot's records are the ones its membership names, each as stored.
pub open spec fn snapshot_records(store: RrflowMxStore, instance: Seq<char>, s: FunctionCatalogueSnapshot) -> bool {
    let m = s.membership;
    &&& s.artifacts@.len() == m.artifact_sha256@.len()
    &&& forall|i: int|
        0 <= i < s.artifacts@.len() ==> {
            let a = #[trigger] s.artifacts@[i];
            &&& a.content_sha256@ == m.artifact_sha256@[i]@
            &&& newest(store, artifact_key_of(instance, a.content_sha256@)) == Some(artifact_bytes(a.media_type, a.content@))
            &&& is_valid_artifact(a.content_sha256@, a.content@)
        }
    &&& s.definitions@.len() == m.function_definition_sha256@.len()
    &&& forall|i: int|
        0 <= i < s.definitions@.len() ==> {
            let d = #[trigger] s.definitions@[i];
            &&& d.function_id@ == m.function_definition_sha256@[i].0@
            &&& d.definition_sha256@ == m.function_definition_sha256@[i].1@
            &&& newest(store, definition_key_of(instance, d.function_id@, d.definition_sha256@)) == Some(definition_bytes(d))
            &&& is_valid_definition(d)
        }
    &&& s.bindings@.len() == m.transaction_binding_sha256@.len()
    &&& forall|i: int|
        0 <= i < s.bindings@.len() ==> {
            let b = #[trigger] s.bindings@[i];
            &&& b.binding_id@ == m.transaction_binding_sha256@[i].0@
            &&& b.binding_sha256@ == m.transaction_binding_sha256@[i].1@
            &&& newest(store, binding_key_of(instance, b.binding_id@, b.binding_sha256@)) == Some(binding_bytes(b))
            &&& is_valid_binding(b)
        }
}

/// Loads every record `membership` names, through a transaction that has
/// written nothing and reads the newest commit.
fn load_snapshot_with_membership(
    transaction: &RrflowMxTransaction,
    store: &RrflowMxStore,
    instance: &str,
    head: FunctionCatalogueHeadRecord,
    membership: FunctionCatalogueMembershipRecord,
) -> (r: Result<FunctionCatalogueSnapshot>)
    requires
        transaction.wf(),
        store.wf(),
        transaction.writes() == Map::<Seq<u8>, Option<Seq<u8>>>::empty(),
        transaction.snapshot() == store.sequence(),
    ensures
        r is Ok <==> snapshot_loadable(*store, instance@, head, membership),
        r matches Ok(s) ==> s.head == head && s.membership == membership && snapshot_records(*store, instance@, s),
{
    head.validate()?;
    membership.validate_components()?;
    if head.revision != membership.revision || head.catalogue_sha256 != membership.catalogue_sha256
        || head.membership_sha256 != membership.membership_sha256 {
        return Err(Error::FunctionConstraint(text("function catalogue head does not match its membership")));
    }
    let ghost m = membership;
    let mut artifacts: Vec<FunctionArtifactRecord> = Vec::new();
    let mut i: usize = 0;
    while i < membership.artifact_sha256.len()
        invariant
            transaction.wf(),
            store.wf(),
            transaction.writes() == Map::<Seq<u8>, Option<Seq<u8>>>::empty(),
            transaction.snapshot() == store.sequence(),
            membership == m,
            membership_components_valid(m),
            i <= m.artifact_sha256@.len(),
            artifacts@.len() == i,
            forall|j: int| 0 <= j < i ==> artifact_present(*store, instance@, (#[trigger] m.artifact_sha256@[j])@),
            forall|j: int|
                0 <= j < i ==> {
                    let a = #[trigger] artifacts@[j];
                    &&& a.content_sha256@ == m.artifact_sha256@[j]@
                    &&& newest(*store, artifact_key_of(instance@, a.content_sha256@)) == Some(artifact_bytes(a.media_type, a.content@))
                    &&& is_valid_artifact(a.content_sha256@, a.content@)
                },
        decreases m.artifact_sha256@.len() - i,
    {
        let sha = &membership.artifact_sha256[i];
        proof {
            assert(crate::keyspaces::is_sha256_text(utf8(m.artifact_sha256@[i as int]@)));
        }
        let key = keyspaces::function_artifact_key(instance, sha.as_str())?;
        proof {
            lemma_is_space_key(Space::FunctionArtifacts, seq![KeyPartValue::Text(instance@), KeyPartValue::Bytes(spec_decode_hex(utf8(sha@)))]);
        }
        let encoded = match get(transaction, store, FUNCTION_ARTIFACTS, key.as_slice())? {
            Some(bytes) => bytes,
            None => {
                return Err(Error::FunctionConstraint(text("function catalogue artifact is missing")));
            },
        };
        let record = FunctionArtifactRecord::decode(sha.as_str(), encoded.as_slice())?;
        proof {
            let w = (record.media_type, record.content@);
            assert(artifact_bytes(w.0, w.1) == encoded@);
        }
        artifacts.push(record);
        i = i + 1;
    }
    let mut definitions: Vec<FunctionDefinitionRecord> = Vec::new();
    let mut i: usize = 0;
    while i < membership.function_definition_sha256.len()
        invariant
            transaction.wf(),
            store.wf(),
            transaction.writes() == Map::<Seq<u8>, Option<Seq<u8>>>::empty(),
            transaction.snapshot() == store.sequence(),
            membership == m,
            membership_components_valid(m),
            i <= m.function_definition_sha256@.len(),
            definitions@.len() == i,
            forall|j: int|
                0 <= j < i ==> definition_present(
                    *store,
                    instance@,
                    (#[trigger] m.function_definition_sha256@[j]).0@,
                    m.function_definition_sha256@[j].1@,
                ),
            forall|j: int|
                0 <= j < i ==> {
                    let d = #[trigger] definitions@[j];
                    &&& d.function_id@ == m.function_definition_sha256@[j].0@
                    &&& d.definition_sha256@ == m.function_definition_sha256@[j].1@
                    &&& newest(*store, definition_key_of(instance@, d.function_id@, d.definition_sha256@)) == Some(definition_bytes(d))
                    &&& is_valid_definition(d)
                },
        decreases m.function_definition_sha256@.len() - i,
    {
        let (id, sha) = &membership.function_definition_sha256[i];
        proof {
            assert(crate::function::is_digest_pair(m.function_definition_sha256@[i as int]));
        }
        let key = keyspaces::function_definition_key(instance, id.as_str(), sha.as_str())?;
        proof {
            lemma_is_space_key(
                Space::FunctionDefinitions,
                seq![KeyPartValue::Text(instance@), KeyPartValue::Text(id@), KeyPartValue::Bytes(spec_decode_hex(utf8(sha@)))],
            );
        }
        let encoded = match get(transaction, store, FUNCTION_DEFINITIONS, key.as_slice())? {
            Some(bytes) => bytes,
            None => {
                return Err(Error::FunctionConstraint(text("function catalogue definition is missing")));
            },
        };
        let record = decode_definition(encoded.as_slice())?;
        let checked = record.validate();
        proof {
            assert forall|x: FunctionDefinitionRecord| #[trigger] definition_bytes(x) == encoded@ implies same_definition_fields(x, record) by {
                lemma_definition_bytes_injective(x, record);
                lemma_same_definition_valid(x, record);
            }
        }
        checked?;
        if record.function_id != *id || record.definition_sha256 != *sha {
            return Err(Error::FunctionConstraint(text("function definition record does not match membership")));
        }
        definitions.push(record);
        i = i + 1;
    }
    let mut bindings: Vec<TransactionFunctionBindingRecord> = Vec::new();
    let mut i: usize = 0;
    while i < membership.transaction_binding_sha256.len()
        invariant
            transaction.wf(),
            store.wf(),
            transaction.writes() == Map::<Seq<u8>, Option<Seq<u8>>>::empty(),
            transaction.snapshot() == store.sequence(),
            membership == m,
            membership_components_valid(m),
            i <= m.transaction_binding_sha256@.len(),
            bindings@.len() == i,
            forall|j: int|
                0 <= j < i ==> binding_present(
                    *store,
                    instance@,
                    (#[trigger] m.transaction_binding_sha256@[j]).0@,
                    m.transaction_binding_sha256@[j].1@,
                ),
            forall|j: int|
                0 <= j < i ==> {
                    let b = #[trigger] bindings@[j];
                    &&& b.binding_id@ == m.transaction_binding_sha256@[j].0@
                    &&& b.binding_sha256@ == m.transaction_binding_sha256@[j].1@
                    &&& newest(*store, binding_key_of(instance@, b.binding_id@, b.binding_sha256@)) == Some(binding_bytes(b))
                    &&& is_valid_binding(b)
                },
        decreases m.transaction_binding_sha256@.len() - i,
    {
        let (id, sha) = &membership.transaction_binding_sha256[i];
        proof {
            assert(crate::function::is_digest_pair(m.transaction_binding_sha256@[i as int]));
        }
        let key = keyspaces::transaction_function_binding_key(instance, id.as_str(), sha.as_str())?;
        proof {
            lemma_is_space_key(
                Space::TransactionFunctionBindings,
                seq![KeyPartValue::Text(instance@), KeyPartValue::Text(id@), KeyPartValue::Bytes(spec_decode_hex(utf8(sha@)))],
            );
        }
        let encoded = match get(transaction, store, TRANSACTION_FUNCTION_BINDINGS, key.as_slice())? {
            Some(bytes) => bytes,
            None => {
                return Err(Error::FunctionConstraint(text("function catalogue binding is missing")));
            },
        };
        let record = decode_binding(encoded.as_slice())?;
        let checked = record.validate();
        proof {
            assert forall|x: TransactionFunctionBindingRecord| #[trigger] binding_bytes(x) == encoded@ implies same_binding_fields(x, record) by {
                lemma_binding_bytes_injective(x, record);
                lemma_same_binding_valid(x, record);
            }
        }
        checked?;
        if record.binding_id != *id || record.binding_sha256 != *sha {
            return Err(Error::FunctionConstraint(text("function binding record does not match membership")));
        }
        bindings.push(record);
        i = i + 1;
    }
    Ok(FunctionCatalogueSnapshot { head, membership, artifacts, definitions, bindings })
}

/// The head that selects membership `m`.
pub open spec fn head_of(m: FunctionCatalogueMembershipRecord) -> FunctionCatalogueHeadRecord {
    FunctionCatalogueHeadRecord {
        format_version: m.format_version,
        revision: m.revision,
        catalogue_sha256: m.catalogue_sha256,
        membership_sha256: m.membership_sha256,
    }
}

/// The membership of the head's revision is stored and loads with the head.
pub open spec fn head_loads(store: RrflowMxStore, instance: Seq<char>, h: FunctionCatalogueHeadRecord) -> bool {
    match newest(store, membership_key_of(instance, h.revision)) {
        None => false,
        Some(stored) => exists|m: FunctionCatalogueMembershipRecord|
            membership_fits(m) && #[trigger] membership_bytes(m) == stored && snapshot_loadable(store, instance, h, m),
    }
}

/// The head is valid and the membership of its revision is stored and
/// loads with it.
pub open spec fn current_loadable(store: RrflowMxStore, instance: Seq<char>, h: FunctionCatalogueHeadRecord) -> bool {
    is_valid_head(h) && head_loads(store, instance, h)
}

/// Whether a catalogue loads depends on its records' values only.
pub proof fn lemma_loadable_congruent(
    store: RrflowMxStore,
    instance: Seq<char>,
    h1: FunctionCatalogueHeadRecord,
    m1: FunctionCatalogueMembershipRecord,
    h2: FunctionCatalogueHeadRecord,
    m2: FunctionCatalogueMembershipRecord,
)
    requires
        same_head(h1, h2),
        same_membership(m1, m2),
    ensures
        snapshot_loadable(store, instance, h1, m1) == snapshot_loadable(store, instance, h2, m2),
{
    lemma_same_head_valid(h1, h2);
    lemma_same_membership_valid(m1, m2);
    let (a1, a2) = (m1.artifact_sha256@, m2.artifact_sha256@);
    let (d1, d2) = (m1.function_definition_sha256@, m2.function_definition_sha256@);
    let (b1, b2) = (m1.transaction_binding_sha256@, m2.transaction_binding_sha256@);
    assert((forall|i: int| 0 <= i < a1.len() ==> artifact_present(store, instance, (#[trigger] a1[i])@)) == (forall|i: int|
        0 <= i < a2.len() ==> artifact_present(store, instance, (#[trigger] a2[i])@))) by {
        if forall|i: int| 0 <= i < a1.len() ==> artifact_present(store, instance, (#[trigger] a1[i])@) {
            assert forall|i: int| 0 <= i < a2.len() implies artifact_present(store, instance, (#[trigger] a2[i])@) by {
                assert(a1[i]@ == a2[i]@);
                assert(artifact_present(store, instance, a1[i]@));
            }
        }
        if forall|i: int| 0 <= i < a2.len() ==> artifact_present(store, instance, (#[trigger] a2[i])@) {
            assert forall|i: int| 0 <= i < a1.len() implies artifact_present(store, instance, (#[trigger] a1[i])@) by {
                assert(a1[i]@ == a2[i]@);
                assert(artifact_present(store, instance, a2[i]@));
            }
        }
    }
    assert((forall|i: int| 0 <= i < d1.len() ==> definition_present(store, instance, (#[trigger] d1[i]).0@, d1[i].1@)) == (forall|i: int|
        0 <= i < d2.len() ==> definition_present(store, instance, (#[trigger] d2[i]).0@, d2[i].1@))) by {
        if forall|i: int| 0 <= i < d1.len() ==> definition_present(store, instance, (#[trigger] d1[i]).0@, d1[i].1@) {
            assert forall|i: int| 0 <= i < d2.len() implies definition_present(store, instance, (#[trigger] d2[i]).0@, d2[i].1@) by {
                assert(definition_present(store, instance, d1[i].0@, d1[i].1@));
            }
        }
        if forall|i: int| 0 <= i < d2.len() ==> definition_present(store, instance, (#[trigger] d2[i]).0@, d2[i].1@) {
            assert forall|i: int| 0 <= i < d1.len() implies definition_present(store, instance, (#[trigger] d1[i]).0@, d1[i].1@) by {
                assert(definition_present(store, instance, d2[i].0@, d2[i].1@));
            }
        }
    }
    assert((forall|i: int| 0 <= i < b1.len() ==> binding_present(store, instance, (#[trigger] b1[i]).0@, b1[i].1@)) == (forall|i: int|
        0 <= i < b2.len() ==> binding_present(store, instance, (#[trigger] b2[i]).0@, b2[i].1@))) by {
        if forall|i: int| 0 <= i < b1.len() ==> binding_present(store, instance, (#[trigger] b1[i]).0@, b1[i].1@) {
            assert forall|i: int| 0 <= i < b2.len() implies binding_present(store, instance, (#[trigger] b2[i]).0@, b2[i].1@) by {
                assert(binding_present(store, instance, b1[i].0@, b1[i].1@));
            }
        }
        if forall|i: int| 0 <= i < b2.len() ==> binding_present(store, instance, (#[trigger] b2[i]).0@, b2[i].1@) {
            assert forall|i: int| 0 <= i < b1.len() implies binding_present(store, instance, (#[trigger] b1[i]).0@, b1[i].1@) by {
                assert(binding_present(store, instance, b2[i].0@, b2[i].1@));
            }
        }
    }
}

/// The stored form of `value` under `key` is `value` itself or absent.
pub open spec fn fits_or_absent(store: RrflowMxStore, key: Seq<u8>, value: Seq<u8>) -> bool {
    newest(store, key) is None || newest(store, key) == Some(value)
}

/// The key of the `i`-th artifact of a publication.
pub open spec fn pub_artifact_key(instance: Seq<char>, p: FunctionCataloguePublication, i: int) -> Seq<u8> {
    artifact_key_of(instance, p.artifacts@[i].content_sha256@)
}

/// The stored form of the `i`-th artifact of a publication.
pub open spec fn pub_artifact_bytes(p: FunctionCataloguePublication, i: int) -> Seq<u8> {
    artifact_bytes(p.artifacts@[i].media_type, p.artifacts@[i].content@)
}

/// The key of the `i`-th definition of a publication.
pub open spec fn pub_definition_key(instance: Seq<char>, p: FunctionCataloguePublication, i: int) -> Seq<u8> {
    definition_key_of(instance, p.definitions@[i].function_id@, p.definitions@[i].definition_sha256@)
}

/// The key of the `i`-th binding of a publication.
pub open spec fn pub_binding_key(instance: Seq<char>, p: FunctionCataloguePublication, i: int) -> Seq<u8> {
    binding_key_of(instance, p.bindings@[i].binding_id@, p.bindings@[i].binding_sha256@)
}

/// No stored artifact, definition or binding of the publication's
/// identities holds other bytes than the publication's own.
pub open spec fn records_fit(store: RrflowMxStore, instance: Seq<char>, p: FunctionCataloguePublication) -> bool {
    &&& forall|i: int| 0 <= i < p.artifacts@.len() ==> fits_or_absent(store, #[trigger] pub_artifact_key(instance, p, i), pub_artifact_bytes(p, i))
    &&& forall|i: int|
        0 <= i < p.definitions@.len() ==> fits_or_absent(store, #[trigger] pub_definition_key(instance, p, i), definition_bytes(p.definitions@[i]))
    &&& forall|i: int| 0 <= i < p.bindings@.len() ==> fits_or_absent(store, #[trigger] pub_binding_key(instance, p, i), binding_bytes(p.bindings@[i]))
}

/// No stored record of the publication's identities, its membership
/// included, holds other bytes than the publication's own.
pub open spec fn records_compatible(store: RrflowMxStore, instance: Seq<char>, p: FunctionCataloguePublication) -> bool {
    &&& records_fit(store, instance, p)
    &&& fits_or_absent(store, membership_key_of(instance, p.membership.revision), membership_bytes(p.membership))
}

/// The store's sequence can take one version for every record and the head.
pub open spec fn publication_room(store: RrflowMxStore, p: FunctionCataloguePublication) -> bool {
    store.sequence() + p.artifacts@.len() + p.definitions@.len() + p.bindings@.len() + 2 <= u64::MAX
}

/// Equal lowercase SHA-256 texts decode to equal bytes only.
proof fn lemma_hex_digest_injective(a: Seq<char>, b: Seq<char>)
    requires
        crate::keyspaces::is_sha256_text(utf8(a)),
        crate::keyspaces::is_sha256_text(utf8(b)),
        spec_decode_hex(utf8(a)) == spec_decode_hex(utf8(b)),
    ensures
        a == b,
{
    let ta = utf8(a);
    let tb = utf8(b);
    assert forall|k: int| 0 <= k < 64 implies ta[k] == tb[k] by {
        let i = k / 2;
        assert(0 <= i < 32);
        assert(spec_decode_hex(ta)[i] == spec_decode_hex(tb)[i]);
        let x1 = crate::keyspaces::hex_digit_value(ta[2 * i]);
        let x2 = crate::keyspaces::hex_digit_value(ta[2 * i + 1]);
        let y1 = crate::keyspaces::hex_digit_value(tb[2 * i]);
        let y2 = crate::keyspaces::hex_digit_value(tb[2 * i + 1]);
        assert(crate::keyspaces::is_lower_hex_byte(ta[2 * i]) && crate::keyspaces::is_lower_hex_byte(ta[2 * i + 1]));
        assert(crate::keyspaces::is_lower_hex_byte(tb[2 * i]) && crate::keyspaces::is_lower_hex_byte(tb[2 * i + 1]));
        assert(x1 < 16 && x2 < 16 && y1 < 16 && y2 < 16);
        assert((x1 * 16 + x2) as u8 == x1 * 16 + x2);
        assert((y1 * 16 + y2) as u8 == y1 * 16 + y2);
        assert(x1 == y1 && x2 == y2);
    }
    assert(ta =~= tb);
    vstd::utf8::encode_utf8_decode_utf8(a);
    vstd::utf8::encode_utf8_decode_utf8(b);
}

/// Distinct artifacts of a valid publication have distinct keys.
proof fn lemma_artifact_keys_distinct(instance: Seq<char>, p: FunctionCataloguePublication, json: Seq<u8>, i: int, j: int)
    requires
        publication_valid(p, json),
        0 <= i < p.artifacts@.len(),
        0 <= j < p.artifacts@.len(),
        i != j,
    ensures
        pub_artifact_key(instance, p, i) != pub_artifact_key(instance, p, j),
{
    let (a, b) = (p.artifacts@[i].content_sha256@, p.artifacts@[j].content_sha256@);
    if pub_artifact_key(instance, p, i) == pub_artifact_key(instance, p, j) {
        crate::keyspaces::lemma_spaces_are_disjoint(
            Space::FunctionArtifacts,
            seq![KeyPartValue::Text(instance), KeyPartValue::Bytes(spec_decode_hex(utf8(a)))],
            Space::FunctionArtifacts,
            seq![KeyPartValue::Text(instance), KeyPartValue::Bytes(spec_decode_hex(utf8(b)))],
        );
        assert(seq![KeyPartValue::Text(instance), KeyPartValue::Bytes(spec_decode_hex(utf8(a)))][1] == KeyPartValue::Bytes(spec_decode_hex(utf8(a))));
        assert(is_valid_artifact(a, p.artifacts@[i].content@));
        assert(is_valid_artifact(b, p.artifacts@[j].content@));
        lemma_hex_digest_injective(a, b);
        let addresses = crate::function::artifact_addresses(p.artifacts@);
        assert(addresses[i] == addresses[j]);
    }
}

/// Distinct definitions of a valid publication have distinct keys.
proof fn lemma_definition_keys_distinct(instance: Seq<char>, p: FunctionCataloguePublication, json: Seq<u8>, i: int, j: int)
    requires
        publication_valid(p, json),
        0 <= i < p.definitions@.len(),
        0 <= j < p.definitions@.len(),
        i != j,
    ensures
        pub_definition_key(instance, p, i) != pub_definition_key(instance, p, j),
{
    let (a, b) = (p.definitions@[i], p.definitions@[j]);
    if pub_definition_key(instance, p, i) == pub_definition_key(instance, p, j) {
        let pa = seq![KeyPartValue::Text(instance), KeyPartValue::Text(a.function_id@), KeyPartValue::Bytes(spec_decode_hex(utf8(a.definition_sha256@)))];
        let pb = seq![KeyPartValue::Text(instance), KeyPartValue::Text(b.function_id@), KeyPartValue::Bytes(spec_decode_hex(utf8(b.definition_sha256@)))];
        crate::keyspaces::lemma_spaces_are_disjoint(Space::FunctionDefinitions, pa, Space::FunctionDefinitions, pb);
        assert(pa[1] == pb[1]);
        let pairs = crate::function::definition_pairs(p.definitions@);
        if i < j {
            assert(pairs[i].0 != pairs[j].0);
        } else {
            assert(pairs[j].0 != pairs[i].0);
        }
    }
}

/// Distinct bindings of a valid publication have distinct keys.
proof fn lemma_binding_keys_distinct(instance: Seq<char>, p: FunctionCataloguePublication, json: Seq<u8>, i: int, j: int)
    requires
        publication_valid(p, json),
        0 <= i < p.bindings@.len(),
        0 <= j < p.bindings@.len(),
        i != j,
    ensures
        pub_binding_key(instance, p, i) != pub_binding_key(instance, p, j),
{
    let (a, b) = (p.bindings@[i], p.bindings@[j]);
    if pub_binding_key(instance, p, i) == pub_binding_key(instance, p, j) {
        let pa = seq![KeyPartValue::Text(instance), KeyPartValue::Text(a.binding_id@), KeyPartValue::Bytes(spec_decode_hex(utf8(a.binding_sha256@)))];
        let pb = seq![KeyPartValue::Text(instance), KeyPartValue::Text(b.binding_id@), KeyPartValue::Bytes(spec_decode_hex(utf8(b.binding_sha256@)))];
        crate::keyspaces::lemma_spaces_are_disjoint(Space::TransactionFunctionBindings, pa, Space::TransactionFunctionBindings, pb);
        assert(pa[1] == pb[1]);
        let pairs = crate::function::binding_pairs(p.bindings@);
        if i < j {
            assert(pairs[i].0 != pairs[j].0);
        } else {
            assert(pairs[j].0 != pairs[i].0);
        }
    }
}

/// Writes `value` under `key` unless the key already holds it; a key that
/// holds other bytes is refused.
fn put_immutable(transaction: &mut RrflowMxTransaction, store: &RrflowMxStore, space: Space, key: Vec<u8>, value: Vec<u8>) -> (r: Result<()>)
    requires
        old(transaction).wf(),
        store.wf(),
        crate::repository::common::is_space_key(space, key@),
    ensures
        final(transaction).wf(),
        final(transaction).snapshot() == old(transaction).snapshot(),
        match old(transaction).reads(store, key@) {
            None => r is Ok && final(transaction).writes() == old(transaction).writes().insert(key@, Some(value@)),
            Some(existing) => *final(transaction) == *old(transaction) && if existing == value@ {
                r is Ok
            } else {
                r matches Err(Error::FunctionConstraint(_))
            },
        },
{
    match get(transaction, store, space, key.as_slice())? {
        Some(existing) => {
            if crate::bytes::bytes_eq(existing.as_slice(), value.as_slice()) {
                Ok(())
            } else {
                Err(Error::FunctionConstraint(text("immutable function catalogue identity already contains other bytes")))
            }
        },
        None => {
            let checked = checked_key(space, key.as_slice())?;
            transaction.put(checked, value);
            Ok(())
        },
    }
}

/// Loads the catalogue that `head` selects, through a transaction that has
/// written nothing and reads the newest commit.
fn load_snapshot(transaction: &RrflowMxTransaction, store: &RrflowMxStore, instance: &str, head: FunctionCatalogueHeadRecord) -> (r: Result<
    FunctionCatalogueSnapshot,
>)
    requires
        transaction.wf(),
        store.wf(),
        transaction.writes() == Map::<Seq<u8>, Option<Seq<u8>>>::empty(),
        transaction.snapshot() == store.sequence(),
    ensures
        r is Ok <==> head_loads(*store, instance@, head),
        r matches Ok(s) ==> {
            &&& s.head == head
            &&& membership_fits(s.membership)
            &&& newest(*store, membership_key_of(instance@, head.revision)) == Some(membership_bytes(s.membership))
            &&& snapshot_loadable(*store, instance@, head, s.membership)
            &&& snapshot_records(*store, instance@, s)
        },
{
    let membership_key = keyspaces::function_catalogue_membership_key(instance, head.revision);
    proof {
        lemma_is_space_key(Space::FunctionCatalogueMemberships, seq![KeyPartValue::Text(instance@), KeyPartValue::U64(head.revision)]);
    }
    let stored = match get(transaction, store, keyspaces::FUNCTION_CATALOGUE_MEMBERSHIPS, membership_key.as_slice())? {
        None => {
            return Err(Error::FunctionConstraint(text("function catalogue head membership is missing")));
        },
        Some(bytes) => bytes,
    };
    let membership = decode_membership(stored.as_slice())?;
    let ghost m0 = membership;
    let loaded = load_snapshot_with_membership(transaction, store, instance, head, membership);
    proof {
        assert forall|m: FunctionCatalogueMembershipRecord| membership_fits(m) && #[trigger] membership_bytes(m) == stored@
            implies snapshot_loadable(*store, instance@, head, m) == snapshot_loadable(*store, instance@, head, m0) by {
            lemma_membership_bytes_injective(m, m0);
            lemma_loadable_congruent(*store, instance@, head, m, head, m0);
        }
        if snapshot_loadable(*store, instance@, head, m0) {
            assert(membership_bytes(m0) == stored@);
        }
    }
    loaded
}

/// A valid publication whose records are all stored loads with the head
/// that selects its membership.
proof fn lemma_published_loadable(store: RrflowMxStore, instance: Seq<char>, p: FunctionCataloguePublication, json: Seq<u8>)
    requires
        publication_valid(p, json),
        forall|i: int| 0 <= i < p.artifacts@.len() ==> newest(store, #[trigger] pub_artifact_key(instance, p, i)) == Some(pub_artifact_bytes(p, i)),
        forall|i: int|
            0 <= i < p.definitions@.len() ==> newest(store, #[trigger] pub_definition_key(instance, p, i)) == Some(definition_bytes(p.definitions@[i])),
        forall|i: int| 0 <= i < p.bindings@.len() ==> newest(store, #[trigger] pub_binding_key(instance, p, i)) == Some(binding_bytes(p.bindings@[i])),
    ensures
        snapshot_loadable(store, instance, head_of(p.membership), p.membership),
{
    let m = p.membership;
    let addresses = crate::function::artifact_addresses(p.artifacts@);
    assert forall|i: int| 0 <= i < m.artifact_sha256@.len() implies artifact_present(store, instance, (#[trigger] m.artifact_sha256@[i])@) by {
        let views = crate::function::string_views(m.artifact_sha256@);
        assert(views[i] == m.artifact_sha256@[i]@);
        assert(views.to_set().contains(views[i]));
        assert(addresses.to_set().contains(views[i]));
        let j = choose|j: int| 0 <= j < addresses.len() && addresses[j] == views[i];
        assert(newest(store, pub_artifact_key(instance, p, j)) == Some(pub_artifact_bytes(p, j)));
        assert(is_valid_artifact(p.artifacts@[j].content_sha256@, p.artifacts@[j].content@));
        let w = (p.artifacts@[j].media_type, p.artifacts@[j].content@);
        assert(artifact_bytes(w.0, w.1) == pub_artifact_bytes(p, j));
    }
    let definitions = crate::function::definition_pairs(p.definitions@);
    assert forall|i: int| 0 <= i < m.function_definition_sha256@.len() implies definition_present(
        store,
        instance,
        (#[trigger] m.function_definition_sha256@[i]).0@,
        m.function_definition_sha256@[i].1@,
    ) by {
        let views = crate::function::pair_views(m.function_definition_sha256@);
        assert(views[i] == (m.function_definition_sha256@[i].0@, m.function_definition_sha256@[i].1@));
        assert(views.to_set().contains(views[i]));
        assert(definitions.to_set().contains(views[i]));
        let j = choose|j: int| 0 <= j < definitions.len() && definitions[j] == views[i];
        let d = p.definitions@[j];
        assert(newest(store, pub_definition_key(instance, p, j)) == Some(definition_bytes(d)));
        assert(is_valid_definition(d));
    }
    let bindings = crate::function::binding_pairs(p.bindings@);
    assert forall|i: int| 0 <= i < m.transaction_binding_sha256@.len() implies binding_present(
        store,
        instance,
        (#[trigger] m.transaction_binding_sha256@[i]).0@,
        m.transaction_binding_sha256@[i].1@,
    ) by {
        let views = crate::function::pair_views(m.transaction_binding_sha256@);
        assert(views[i] == (m.transaction_binding_sha256@[i].0@, m.transaction_binding_sha256@[i].1@));
        assert(views.to_set().contains(views[i]));
        assert(bindings.to_set().contains(views[i]));
        let j = choose|j: int| 0 <= j < bindings.len() && bindings[j] == views[i];
        let b = p.bindings@[j];
        assert(newest(store, pub_binding_key(instance, p, j)) == Some(binding_bytes(b)));
        assert(is_valid_binding(b));
    }
}

/// Heads with equal fields have equal tuples.
pub open spec fn head_parts_equal(a: FunctionCatalogueHeadRecord, b: FunctionCatalogueHeadRecord) -> bool {
    crate::repository::catalogue::head_parts(a) == crate::repository::catalogue::head_parts(b) && head_bytes(a) == head_bytes(b)
}

/// The head key of an instance is none of a publication's record keys.
proof fn lemma_head_key_distinct(instance: Seq<char>, p: FunctionCataloguePublication)
    ensures
        forall|j: int| 0 <= j < p.artifacts@.len() ==> head_key_of(instance) != #[trigger] pub_artifact_key(instance, p, j),
        forall|j: int| 0 <= j < p.definitions@.len() ==> head_key_of(instance) != #[trigger] pub_definition_key(instance, p, j),
        forall|j: int| 0 <= j < p.bindings@.len() ==> head_key_of(instance) != #[trigger] pub_binding_key(instance, p, j),
        head_key_of(instance) != membership_key_of(instance, p.membership.revision),
{
    let hparts = seq![KeyPartValue::Text(instance)];
    assert forall|j: int| 0 <= j < p.artifacts@.len() implies head_key_of(instance) != #[trigger] pub_artifact_key(instance, p, j) by {
        if head_key_of(instance) == pub_artifact_key(instance, p, j) {
            crate::keyspaces::lemma_spaces_are_disjoint(
                Space::FunctionCatalogueHeads,
                hparts,
                Space::FunctionArtifacts,
                seq![KeyPartValue::Text(instance), KeyPartValue::Bytes(spec_decode_hex(utf8(p.artifacts@[j].content_sha256@)))],
            );
        }
    }
    assert forall|j: int| 0 <= j < p.definitions@.len() implies head_key_of(instance) != #[trigger] pub_definition_key(instance, p, j) by {
        let d = p.definitions@[j];
        if head_key_of(instance) == pub_definition_key(instance, p, j) {
            crate::keyspaces::lemma_spaces_are_disjoint(
                Space::FunctionCatalogueHeads,
                hparts,
                Space::FunctionDefinitions,
                seq![KeyPartValue::Text(instance), KeyPartValue::Text(d.function_id@), KeyPartValue::Bytes(spec_decode_hex(utf8(d.definition_sha256@)))],
            );
        }
    }
    assert forall|j: int| 0 <= j < p.bindings@.len() implies head_key_of(instance) != #[trigger] pub_binding_key(instance, p, j) by {
        let b = p.bindings@[j];
        if head_key_of(instance) == pub_binding_key(instance, p, j) {
            crate::keyspaces::lemma_spaces_are_disjoint(
                Space::FunctionCatalogueHeads,
                hparts,
                Space::TransactionFunctionBindings,
                seq![KeyPartValue::Text(instance), KeyPartValue::Text(b.binding_id@), KeyPartValue::Bytes(spec_decode_hex(utf8(b.binding_sha256@)))],
            );
        }
    }
    if head_key_of(instance) == membership_key_of(instance, p.membership.revision) {
        crate::keyspaces::lemma_spaces_are_disjoint(
            Space::FunctionCatalogueHeads,
            hparts,
            Space::FunctionCatalogueMemberships,
            seq![KeyPartValue::Text(instance), KeyPartValue::U64(p.membership.revision)],
        );
    }
}

/// Every key a publication writes, in order: its artifacts, definitions,
/// bindings, membership and head.
pub open spec fn publication_keys(instance: Seq<char>, p: FunctionCataloguePublication) -> Seq<Seq<u8>> {
    Seq::new(p.artifacts@.len(), |j: int| pub_artifact_key(instance, p, j)) + Seq::new(
        p.definitions@.len(),
        |j: int| pub_definition_key(instance, p, j),
    ) + Seq::new(p.bindings@.len(), |j: int| pub_binding_key(instance, p, j)) + seq![
        membership_key_of(instance, p.membership.revision),
        head_key_of(instance),
    ]
}

/// A key a publication writes is among its listed keys.
proof fn lemma_publication_keys_cover(instance: Seq<char>, p: FunctionCataloguePublication, k: Seq<u8>)
    requires
        is_publication_key(instance, p, k),
    ensures
        publication_keys(instance, p).contains(k),
{
    let keys = publication_keys(instance, p);
    let na = p.artifacts@.len() as int;
    let nd = p.definitions@.len() as int;
    let nb = p.bindings@.len() as int;
    if exists|i: int| 0 <= i < na && k == #[trigger] pub_artifact_key(instance, p, i) {
        let i = choose|i: int| 0 <= i < na && k == #[trigger] pub_artifact_key(instance, p, i);
        assert(keys[i] == k);
    } else if exists|i: int| 0 <= i < nd && k == #[trigger] pub_definition_key(instance, p, i) {
        let i = choose|i: int| 0 <= i < nd && k == #[trigger] pub_definition_key(instance, p, i);
        assert(keys[na + i] == k);
    } else if exists|i: int| 0 <= i < nb && k == #[trigger] pub_binding_key(instance, p, i) {
        let i = choose|i: int| 0 <= i < nb && k == #[trigger] pub_binding_key(instance, p, i);
        assert(keys[na + nd + i] == k);
    } else if k == membership_key_of(instance, p.membership.revision) {
        assert(keys[na + nd + nb] == k);
    } else {
        assert(keys[na + nd + nb + 1] == k);
    }
}

/// `k` is one of the keys a publication writes.
pub open spec fn is_publication_key(instance: Seq<char>, p: FunctionCataloguePublication, k: Seq<u8>) -> bool {
    ||| exists|i: int| 0 <= i < p.artifacts@.len() && k == #[trigger] pub_artifact_key(instance, p, i)
    ||| exists|i: int| 0 <= i < p.definitions@.len() && k == #[trigger] pub_definition_key(instance, p, i)
    ||| exists|i: int| 0 <= i < p.bindings@.len() && k == #[trigger] pub_binding_key(instance, p, i)
    ||| k == membership_key_of(instance, p.membership.revision)
    ||| k == head_key_of(instance)
}

/// The outcome once the publication's records are to be written: refused
/// when a stored record of one of its identities holds other bytes, and
/// otherwise, while the sequence has room, committed and read back.
pub open spec fn writes_outcome(
    before: RrflowMxStore,
    after: RrflowMxStore,
    instance: Seq<char>,
    p: FunctionCataloguePublication,
    r: Result<FunctionCatalogueSnapshot>,
) -> bool {
    &&& (!records_compatible(before, instance, p) ==> (r matches Err(Error::FunctionConstraint(_))))
    &&& (records_compatible(before, instance, p) && publication_room(before, p) ==> r is Ok)
    &&& (r matches Ok(s) ==> published_state(before, after, instance, p, s))
}

/// What a successful publication leaves: the head selects the
/// publication's membership, the membership and every record are stored
/// and load, the snapshot is read back from them, and no other key changed.
#[verifier::opaque]
pub open spec fn published_state(
    before: RrflowMxStore,
    after: RrflowMxStore,
    instance: Seq<char>,
    p: FunctionCataloguePublication,
    s: FunctionCatalogueSnapshot,
) -> bool {
    &&& same_head(s.head, head_of(p.membership))
    &&& same_membership(s.membership, p.membership)
    &&& newest(after, head_key_of(instance)) == Some(head_bytes(head_of(p.membership)))
    &&& newest(after, membership_key_of(instance, p.membership.revision)) == Some(membership_bytes(p.membership))
    &&& membership_fits(p.membership)
    &&& snapshot_loadable(after, instance, head_of(p.membership), p.membership)
    &&& snapshot_records(after, instance, s)
    &&& forall|k: Seq<u8>| !is_publication_key(instance, p, k) ==> #[trigger] newest(after, k) == newest(before, k)
}

/// A publication that succeeded is the active catalogue: the stored head
/// decodes only to the head that selects the publication's membership, that
/// head is valid and loads, and the membership it selects decodes only to
/// the publication's own.
pub proof fn lemma_publication_is_current(
    before: RrflowMxStore,
    after: RrflowMxStore,
    instance: Seq<char>,
    p: FunctionCataloguePublication,
    json: Seq<u8>,
    s: FunctionCatalogueSnapshot,
)
    requires
        publication_valid(p, json),
        writes_outcome(before, after, instance, p, Ok(s)),
    ensures
        newest(after, head_key_of(instance)) == Some(head_bytes(head_of(p.membership))),
        current_loadable(after, instance, head_of(p.membership)),
        forall|h: FunctionCatalogueHeadRecord| #[trigger] head_bytes(h) == head_bytes(head_of(p.membership)) ==> same_head(h, head_of(p.membership)),
        forall|m: FunctionCatalogueMembershipRecord|
            membership_fits(m) && #[trigger] membership_bytes(m) == membership_bytes(p.membership) ==> same_membership(m, p.membership),
{
    reveal(published_state);
    let m = p.membership;
    assert(is_valid_head(head_of(m)));
    assert(head_loads(after, instance, head_of(m))) by {
        assert(membership_fits(m) && membership_bytes(m) == membership_bytes(m) && snapshot_loadable(after, instance, head_of(m), m));
    }
    assert forall|h: FunctionCatalogueHeadRecord| #[trigger] head_bytes(h) == head_bytes(head_of(m)) implies same_head(h, head_of(m)) by {
        lemma_head_bytes_injective(h, head_of(m));
    }
    assert forall|x: FunctionCatalogueMembershipRecord| membership_fits(x) && #[trigger] membership_bytes(x) == membership_bytes(m) implies same_membership(x, m) by {
        lemma_membership_bytes_injective(x, m);
    }
}

/// The outcome against the stored head `h`: a head that already selects the
/// publication's membership gives the stored catalogue back unchanged; one
/// at another revision than the expected one, or whose membership is not
/// the publication's predecessor, refuses it.
pub open spec fn head_outcome(
    before: RrflowMxStore,
    after: RrflowMxStore,
    instance: Seq<char>,
    p: FunctionCataloguePublication,
    h: FunctionCatalogueHeadRecord,
    r: Result<FunctionCatalogueSnapshot>,
) -> bool {
    if !is_valid_head(h) {
        r is Err
    } else if same_head(h, head_of(p.membership)) {
        &&& (r is Ok <==> head_loads(before, instance, h))
        &&& after == before
        &&& (r matches Ok(s) ==> same_head(s.head, h) && newest(before, membership_key_of(instance, h.revision)) == Some(membership_bytes(s.membership))
            && snapshot_records(before, instance, s))
    } else if h.revision != p.expected_revision {
        r matches Err(Error::FunctionConstraint(_))
    } else if Some(h.membership_sha256@) != crate::key_codec::opt_string(p.membership.predecessor_sha256) {
        r matches Err(Error::FunctionConstraint(_))
    } else {
        writes_outcome(before, after, instance, p, r)
    }
}

/// The outcome of publishing a valid publication.
pub open spec fn publish_outcome(
    before: RrflowMxStore,
    after: RrflowMxStore,
    instance: Seq<char>,
    p: FunctionCataloguePublication,
    r: Result<FunctionCatalogueSnapshot>,
) -> bool {
    match newest(before, head_key_of(instance)) {
        None => if p.expected_revision != 0 {
            r matches Err(Error::FunctionConstraint(_))
        } else {
            writes_outcome(before, after, instance, p, r)
        },
        Some(stored) => {
            &&& ((forall|h: FunctionCatalogueHeadRecord| #[trigger] head_bytes(h) != stored) ==> (r matches Err(Error::Codec(_))))
            &&& forall|h: FunctionCatalogueHeadRecord| #[trigger] head_bytes(h) == stored ==> head_outcome(before, after, instance, p, h, r)
        },
    }
}

/// What `FunctionCatalogueRepository::current` returns for `instance` on
/// `store`: none before the first publication, and otherwise the catalogue
/// the stored head selects, where it is valid and loads.
pub open spec fn current_result(store: RrflowMxStore, instance: Seq<char>, r: Result<Option<FunctionCatalogueSnapshot>>) -> bool {
    &&& (!is_coordinate(utf8(instance)) ==> r matches Err(Error::FunctionConstraint(_)))
    &&& (is_coordinate(utf8(instance)) ==> match newest(store, head_key_of(instance)) {
        None => r == Ok::<Option<FunctionCatalogueSnapshot>, Error>(None),
        Some(stored) => {
            &&& (r is Ok <==> exists|h: FunctionCatalogueHeadRecord| #[trigger] head_bytes(h) == stored && current_loadable(store, instance, h))
            &&& (r matches Ok(found) ==> found matches Some(s) && head_bytes(s.head) == stored && membership_fits(s.membership) && newest(
                store,
                membership_key_of(instance, s.head.revision),
            ) == Some(membership_bytes(s.membership)) && snapshot_loadable(store, instance, s.head, s.membership) && snapshot_records(
                store,
                instance,
                s,
            ))
        },
    })
}

/// A published catalogue is the current one: where `publish(instance, p)`
/// returned `Ok(s)` on `before` and left `after`, `current(instance)` on
/// `after` returns a catalogue with the head and membership of `s`, the head
/// that selects the publication's membership.
pub proof fn lemma_published_catalogue_is_current(
    before: RrflowMxStore,
    after: RrflowMxStore,
    instance: Seq<char>,
    p: FunctionCataloguePublication,
    json: Seq<u8>,
    s: FunctionCatalogueSnapshot,
    read: Result<Option<FunctionCatalogueSnapshot>>,
)
    requires
        is_coordinate(utf8(instance)),
        publication_valid(p, json),
        publish_outcome(before, after, instance, p, Ok(s)),
        current_result(after, instance, read),
    ensures
        read matches Ok(Some(c)) && same_head(c.head, s.head) && same_head(c.head, head_of(p.membership))
            && same_membership(c.membership, s.membership),
{
    let m = p.membership;
    assert(s.membership.artifact_sha256.len() == s.membership.artifact_sha256@.len());
    assert(s.membership.function_definition_sha256.len() == s.membership.function_definition_sha256@.len());
    assert(s.membership.transaction_binding_sha256.len() == s.membership.transaction_binding_sha256@.len());
    assert(membership_fits(s.membership));
    let written = match newest(before, head_key_of(instance)) {
        None => true,
        Some(stored) => {
            let h = choose|h: FunctionCatalogueHeadRecord| #[trigger] head_bytes(h) == stored;
            !same_head(h, head_of(m))
        },
    };
    if written {
        if let Some(stored) = newest(before, head_key_of(instance)) {
            let h = choose|h: FunctionCatalogueHeadRecord| #[trigger] head_bytes(h) == stored;
            assert(head_outcome(before, after, instance, p, h, Ok(s)));
        }
        assert(writes_outcome(before, after, instance, p, Ok(s)));
        lemma_publication_is_current(before, after, instance, p, json, s);
        reveal(published_state);
        assert(head_bytes(head_of(m)) == head_bytes(head_of(m)) && current_loadable(after, instance, head_of(m)));
        let c = read->Ok_0->Some_0;
        lemma_head_bytes_injective(c.head, head_of(m));
        lemma_membership_bytes_injective(c.membership, m);
    } else {
        let stored = newest(before, head_key_of(instance))->Some_0;
        let h = choose|h: FunctionCatalogueHeadRecord| #[trigger] head_bytes(h) == stored;
        assert(head_outcome(before, after, instance, p, h, Ok(s)));
        assert(head_bytes(h) == stored && current_loadable(after, instance, h));
        let c = read->Ok_0->Some_0;
        lemma_head_bytes_injective(c.head, h);
        lemma_membership_bytes_injective(c.membership, s.membership);
    }
}


/// Stages every artifact, definition and binding of a valid publication as
/// an immutable write; refused when a stored record of one of their
/// identities holds other bytes.
#[verifier::rlimit(40)]
fn stage_records(
    transaction: RrflowMxTransaction,
    store: &RrflowMxStore,
    instance: &str,
    publication: &FunctionCataloguePublication,
    membership_unsigned_json: &[u8],
) -> (r: Result<RrflowMxTransaction>)
    requires
        transaction.wf(),
        store.wf(),
        transaction.writes() == Map::<Seq<u8>, Option<Seq<u8>>>::empty(),
        transaction.snapshot() == store.sequence(),
        publication_valid(*publication, membership_unsigned_json@),
    ensures
        records_fit(*store, instance@, *publication) ==> r is Ok,
        r matches Err(e) ==> (e is FunctionConstraint && !records_fit(*store, instance@, *publication)),
        r matches Ok(t) ==> {
            &&& t.wf()
            &&& t.snapshot() == store.sequence()
            &&& forall|k: Seq<u8>|
                #[trigger] t.writes().contains_key(k) ==> (exists|j: int|
                    0 <= j < publication.artifacts@.len() && k == #[trigger] pub_artifact_key(instance@, *publication, j)) || (exists|j: int|
                    0 <= j < publication.definitions@.len() && k == #[trigger] pub_definition_key(instance@, *publication, j)) || (exists|j: int|
                    0 <= j < publication.bindings@.len() && k == #[trigger] pub_binding_key(instance@, *publication, j))
            &&& forall|j: int|
                0 <= j < publication.artifacts@.len() ==> t.reads(store, #[trigger] pub_artifact_key(instance@, *publication, j)) == Some(
                    pub_artifact_bytes(*publication, j),
                )
            &&& forall|j: int|
                0 <= j < publication.definitions@.len() ==> t.reads(store, #[trigger] pub_definition_key(instance@, *publication, j)) == Some(
                    definition_bytes(publication.definitions@[j]),
                )
            &&& forall|j: int|
                0 <= j < publication.bindings@.len() ==> t.reads(store, #[trigger] pub_binding_key(instance@, *publication, j)) == Some(
                    binding_bytes(publication.bindings@[j]),
                )
            &&& records_fit(*store, instance@, *publication)
        },
{
    let ghost p = *publication;
    let ghost json = membership_unsigned_json@;
    let mut transaction = transaction;
    let ghost na = p.artifacts@.len() as int;
    let ghost nd = p.definitions@.len() as int;
    let ghost nb = p.bindings@.len() as int;
    let mut i: usize = 0;
    while i < publication.artifacts.len()
        invariant
            transaction.wf(),
            store.wf(),
            *publication == p,
            publication_valid(p, json),
            transaction.snapshot() == store.sequence(),
            na == p.artifacts@.len(),
            i <= na,
            forall|k: Seq<u8>|
                #[trigger] transaction.writes().contains_key(k) ==> exists|j: int| 0 <= j < i && k == #[trigger] pub_artifact_key(instance@, p, j),
            forall|j: int| 0 <= j < i ==> transaction.reads(store, #[trigger] pub_artifact_key(instance@, p, j)) == Some(pub_artifact_bytes(p, j)),
            forall|j: int| 0 <= j < i ==> fits_or_absent(*store, #[trigger] pub_artifact_key(instance@, p, j), pub_artifact_bytes(p, j)),
        decreases na - i,
    {
        let artifact = &publication.artifacts[i];
        let key = keyspaces::function_artifact_key(instance, artifact.content_sha256.as_str())?;
        let bytes = artifact.encode()?;
        proof {
            lemma_is_space_key(
                Space::FunctionArtifacts,
                seq![KeyPartValue::Text(instance@), KeyPartValue::Bytes(spec_decode_hex(utf8(artifact.content_sha256@)))],
            );
            assert(key@ == pub_artifact_key(instance@, p, i as int));
            assert forall|j: int| 0 <= j < i implies pub_artifact_key(instance@, p, i as int) != #[trigger] pub_artifact_key(instance@, p, j) by {
                lemma_artifact_keys_distinct(instance@, p, json, i as int, j);
            }
            assert(!transaction.writes().contains_key(key@));
        }
        let ghost t0 = transaction;
        put_immutable(&mut transaction, store, FUNCTION_ARTIFACTS, key, bytes)?;
        proof {
            assert forall|j: int| 0 <= j < i + 1 implies transaction.reads(store, #[trigger] pub_artifact_key(instance@, p, j)) == Some(
                pub_artifact_bytes(p, j),
            ) by {
                if j < i {
                    lemma_artifact_keys_distinct(instance@, p, json, i as int, j);
                }
            }
        }
        i = i + 1;
    }
    let mut i: usize = 0;
    while i < publication.definitions.len()
        invariant
            transaction.wf(),
            store.wf(),
            *publication == p,
            publication_valid(p, json),
            transaction.snapshot() == store.sequence(),
            na == p.artifacts@.len(),
            nd == p.definitions@.len(),
            i <= nd,
            forall|k: Seq<u8>|
                #[trigger] transaction.writes().contains_key(k) ==> (exists|j: int| 0 <= j < na && k == #[trigger] pub_artifact_key(instance@, p, j)) || (
                exists|j: int| 0 <= j < i && k == #[trigger] pub_definition_key(instance@, p, j)),
            forall|j: int| 0 <= j < na ==> transaction.reads(store, #[trigger] pub_artifact_key(instance@, p, j)) == Some(pub_artifact_bytes(p, j)),
            forall|j: int| 0 <= j < na ==> fits_or_absent(*store, #[trigger] pub_artifact_key(instance@, p, j), pub_artifact_bytes(p, j)),
            forall|j: int|
                0 <= j < i ==> transaction.reads(store, #[trigger] pub_definition_key(instance@, p, j)) == Some(definition_bytes(p.definitions@[j])),
            forall|j: int| 0 <= j < i ==> fits_or_absent(*store, #[trigger] pub_definition_key(instance@, p, j), definition_bytes(p.definitions@[j])),
        decreases nd - i,
    {
        let definition = &publication.definitions[i];
        let key = keyspaces::function_definition_key(instance, definition.function_id.as_str(), definition.definition_sha256.as_str())?;
        let bytes = encode_definition(definition);
        proof {
            let parts = seq![
                KeyPartValue::Text(instance@),
                KeyPartValue::Text(definition.function_id@),
                KeyPartValue::Bytes(spec_decode_hex(utf8(definition.definition_sha256@))),
            ];
            lemma_is_space_key(Space::FunctionDefinitions, parts);
            assert(key@ == pub_definition_key(instance@, p, i as int));
            assert forall|j: int| 0 <= j < i implies pub_definition_key(instance@, p, i as int) != #[trigger] pub_definition_key(instance@, p, j) by {
                lemma_definition_keys_distinct(instance@, p, json, i as int, j);
            }
            assert forall|j: int| 0 <= j < na implies pub_definition_key(instance@, p, i as int) != #[trigger] pub_artifact_key(instance@, p, j) by {
                let a = p.artifacts@[j].content_sha256@;
                if pub_definition_key(instance@, p, i as int) == pub_artifact_key(instance@, p, j) {
                    crate::keyspaces::lemma_spaces_are_disjoint(
                        Space::FunctionDefinitions,
                        parts,
                        Space::FunctionArtifacts,
                        seq![KeyPartValue::Text(instance@), KeyPartValue::Bytes(spec_decode_hex(utf8(a)))],
                    );
                }
            }
            assert(!transaction.writes().contains_key(key@));
        }
        put_immutable(&mut transaction, store, FUNCTION_DEFINITIONS, key, bytes)?;
        proof {
            assert forall|j: int| 0 <= j < i + 1 implies transaction.reads(store, #[trigger] pub_definition_key(instance@, p, j)) == Some(
                definition_bytes(p.definitions@[j]),
            ) by {
                if j < i {
                    lemma_definition_keys_distinct(instance@, p, json, i as int, j);
                }
            }
        }
        i = i + 1;
    }
    let mut i: usize = 0;
    while i < publication.bindings.len()
        invariant
            transaction.wf(),
            store.wf(),
            *publication == p,
            publication_valid(p, json),
            transaction.snapshot() == store.sequence(),
            na == p.artifacts@.len(),
            nd == p.definitions@.len(),
            nb == p.bindings@.len(),
            i <= nb,
            forall|k: Seq<u8>|
                #[trigger] transaction.writes().contains_key(k) ==> (exists|j: int| 0 <= j < na && k == #[trigger] pub_artifact_key(instance@, p, j)) || (
                exists|j: int| 0 <= j < nd && k == #[trigger] pub_definition_key(instance@, p, j)) || (exists|j: int|
                    0 <= j < i && k == #[trigger] pub_binding_key(instance@, p, j)),
            forall|j: int| 0 <= j < na ==> transaction.reads(store, #[trigger] pub_artifact_key(instance@, p, j)) == Some(pub_artifact_bytes(p, j)),
            forall|j: int| 0 <= j < na ==> fits_or_absent(*store, #[trigger] pub_artifact_key(instance@, p, j), pub_artifact_bytes(p, j)),
            forall|j: int|
                0 <= j < nd ==> transaction.reads(store, #[trigger] pub_definition_key(instance@, p, j)) == Some(definition_bytes(p.definitions@[j])),
            forall|j: int| 0 <= j < nd ==> fits_or_absent(*store, #[trigger] pub_definition_key(instance@, p, j), definition_bytes(p.definitions@[j])),
            forall|j: int| 0 <= j < i ==> transaction.reads(store, #[trigger] pub_binding_key(instance@, p, j)) == Some(binding_bytes(p.bindings@[j])),
            forall|j: int| 0 <= j < i ==> fits_or_absent(*store, #[trigger] pub_binding_key(instance@, p, j), binding_bytes(p.bindings@[j])),
        decreases nb - i,
    {
        let binding = &publication.bindings[i];
        let key = keyspaces::transaction_function_binding_key(instance, binding.binding_id.as_str(), binding.binding_sha256.as_str())?;
        let bytes = encode_binding(binding);
        proof {
            let parts = seq![
                KeyPartValue::Text(instance@),
                KeyPartValue::Text(binding.binding_id@),
                KeyPartValue::Bytes(spec_decode_hex(utf8(binding.binding_sha256@))),
            ];
            lemma_is_space_key(Space::TransactionFunctionBindings, parts);
            assert(key@ == pub_binding_key(instance@, p, i as int));
            assert forall|j: int| 0 <= j < i implies pub_binding_key(instance@, p, i as int) != #[trigger] pub_binding_key(instance@, p, j) by {
                lemma_binding_keys_distinct(instance@, p, json, i as int, j);
            }
            assert forall|j: int| 0 <= j < na implies pub_binding_key(instance@, p, i as int) != #[trigger] pub_artifact_key(instance@, p, j) by {
                let a = p.artifacts@[j].content_sha256@;
                if pub_binding_key(instance@, p, i as int) == pub_artifact_key(instance@, p, j) {
                    crate::keyspaces::lemma_spaces_are_disjoint(
                        Space::TransactionFunctionBindings,
                        parts,
                        Space::FunctionArtifacts,
                        seq![KeyPartValue::Text(instance@), KeyPartValue::Bytes(spec_decode_hex(utf8(a)))],
                    );
                }
            }
            assert forall|j: int| 0 <= j < nd implies pub_binding_key(instance@, p, i as int) != #[trigger] pub_definition_key(instance@, p, j) by {
                let d = p.definitions@[j];
                if pub_binding_key(instance@, p, i as int) == pub_definition_key(instance@, p, j) {
                    crate::keyspaces::lemma_spaces_are_disjoint(
                        Space::TransactionFunctionBindings,
                        parts,
                        Space::FunctionDefinitions,
                        seq![
                            KeyPartValue::Text(instance@),
                            KeyPartValue::Text(d.function_id@),
                            KeyPartValue::Bytes(spec_decode_hex(utf8(d.definition_sha256@))),
                        ],
                    );
                }
            }
            assert(!transaction.writes().contains_key(key@));
        }
        put_immutable(&mut transaction, store, TRANSACTION_FUNCTION_BINDINGS, key, bytes)?;
        proof {
            assert forall|j: int| 0 <= j < i + 1 implies transaction.reads(store, #[trigger] pub_binding_key(instance@, p, j)) == Some(
                binding_bytes(p.bindings@[j]),
            ) by {
                if j < i {
                    lemma_binding_keys_distinct(instance@, p, json, i as int, j);
                }
            }
        }
        i = i + 1;
    }
    Ok(transaction)
}

/// `x` has the identity, digest and validity of `y`.
pub open spec fn same_definition_fields(x: FunctionDefinitionRecord, y: FunctionDefinitionRecord) -> bool {
    x.function_id@ == y.function_id@ && x.definition_sha256@ == y.definition_sha256@ && is_valid_definition(x) == is_valid_definition(y)
}

/// `x` has the identity, digest and validity of `y`.
pub open spec fn same_binding_fields(x: TransactionFunctionBindingRecord, y: TransactionFunctionBindingRecord) -> bool {
    x.binding_id@ == y.binding_id@ && x.binding_sha256@ == y.binding_sha256@ && is_valid_binding(x) == is_valid_binding(y)
}

/// The governed-function repository.
pub struct FunctionCatalogueRepository;

impl FunctionCatalogueRepository {
    /// The repository.
    pub fn new() -> (r: Self) {
        FunctionCatalogueRepository
    }

    /// The catalogue at `revision`, as of the newest commit: none for
    /// revision zero or a revision never published.
    pub fn revision(&self, store: &RrflowMxStore, instance: &str, revision: u64) -> (r: Result<Option<FunctionCatalogueSnapshot>>)
        requires
            store.wf(),
        ensures
            !is_coordinate(utf8(instance@)) ==> r matches Err(Error::FunctionConstraint(_)),
            is_coordinate(utf8(instance@)) && revision == 0 ==> r == Ok::<Option<FunctionCatalogueSnapshot>, Error>(None),
            is_coordinate(utf8(instance@)) && revision != 0 ==> match newest(*store, membership_key_of(instance@, revision)) {
                None => r == Ok::<Option<FunctionCatalogueSnapshot>, Error>(None),
                Some(stored) => {
                    &&& (r is Ok <==> exists|m: FunctionCatalogueMembershipRecord|
                        membership_fits(m) && #[trigger] membership_bytes(m) == stored && snapshot_loadable(*store, instance@, head_of(m), m))
                    &&& (r matches Ok(found) ==> found matches Some(s) && membership_fits(s.membership) && membership_bytes(s.membership) == stored
                        && s.head == head_of(s.membership) && snapshot_records(*store, instance@, s))
                },
            },
    {
        validate_coordinate(instance, "function catalogue instance")?;
        if revision == 0 {
            return Ok(None);
        }
        let transaction = store.begin_transaction();
        let key = keyspaces::function_catalogue_membership_key(instance, revision);
        proof {
            lemma_is_space_key(Space::FunctionCatalogueMemberships, seq![KeyPartValue::Text(instance@), KeyPartValue::U64(revision)]);
        }
        let stored = match get(&transaction, store, keyspaces::FUNCTION_CATALOGUE_MEMBERSHIPS, key.as_slice())? {
            None => {
                return Ok(None);
            },
            Some(bytes) => bytes,
        };
        let membership = decode_membership(stored.as_slice())?;
        let head = FunctionCatalogueHeadRecord {
            format_version: membership.format_version,
            revision: membership.revision,
            catalogue_sha256: membership.catalogue_sha256.clone(),
            membership_sha256: membership.membership_sha256.clone(),
        };
        let ghost decoded = membership;
        let loaded = load_snapshot_with_membership(&transaction, store, instance, head, membership);
        proof {
            assert(head == head_of(decoded));
            assert forall|m: FunctionCatalogueMembershipRecord| membership_fits(m) && #[trigger] membership_bytes(m) == stored@ implies snapshot_loadable(
                *store,
                instance@,
                head_of(m),
                m,
            ) == snapshot_loadable(*store, instance@, head_of(decoded), decoded) by {
                lemma_membership_bytes_injective(m, decoded);
                lemma_loadable_congruent(*store, instance@, head_of(m), m, head_of(decoded), decoded);
            }
        }
        let snapshot = loaded?;
        Ok(Some(snapshot))
    }

    /// The active catalogue, as of the newest commit: none before the first
    /// publication.
    pub fn current(&self, store: &RrflowMxStore, instance: &str) -> (r: Result<Option<FunctionCatalogueSnapshot>>)
        requires
            store.wf(),
        ensures
            current_result(*store, instance@, r),
    {
        validate_coordinate(instance, "function catalogue instance")?;
        let transaction = store.begin_transaction();
        let key = keyspaces::function_catalogue_head_key(instance);
        proof {
            lemma_is_space_key(Space::FunctionCatalogueHeads, seq![KeyPartValue::Text(instance@)]);
        }
        let stored = match get(&transaction, store, keyspaces::FUNCTION_CATALOGUE_HEADS, key.as_slice())? {
            None => {
                return Ok(None);
            },
            Some(bytes) => bytes,
        };
        let head = decode_head(stored.as_slice())?;
        proof {
            assert forall|h: FunctionCatalogueHeadRecord| #[trigger] head_bytes(h) == stored@ implies same_head(h, head) by {
                lemma_head_bytes_injective(h, head);
            }
        }
        let valid = head.validate();
        proof {
            assert forall|h: FunctionCatalogueHeadRecord| #[trigger] head_bytes(h) == stored@ implies is_valid_head(h) == is_valid_head(head) by {
                lemma_same_head_valid(h, head);
            }
        }
        valid?;
        let loaded = load_snapshot(&transaction, store, instance, head);
        proof {
            assert forall|h: FunctionCatalogueHeadRecord| #[trigger] head_bytes(h) == stored@ implies current_loadable(*store, instance@, h)
                == current_loadable(*store, instance@, head) by {
                lemma_head_bytes_injective(h, head);
                lemma_same_head_valid(h, head);
                assert forall|m: FunctionCatalogueMembershipRecord| #[trigger] snapshot_loadable(*store, instance@, h, m) == snapshot_loadable(
                    *store,
                    instance@,
                    head,
                    m,
                ) by {
                    lemma_loadable_congruent(*store, instance@, h, m, head, m);
                }
            }
        }
        let snapshot = loaded?;
        Ok(Some(snapshot))
    }

    /// Publishes the next catalogue revision, compare-and-swap on the head.
    ///
    /// `membership_unsigned_json` is the membership serialized with an empty
    /// digest. The artifacts, definitions, bindings and membership are
    /// immutable under their identities: a stored one with other bytes
    /// refuses the publication. Republishing the active head returns the
    /// stored catalogue unchanged.
    pub fn publish(
        &self,
        store: &mut RrflowMxStore,
        instance: &str,
        publication: &FunctionCataloguePublication,
        membership_unsigned_json: &[u8],
    ) -> (r: Result<FunctionCatalogueSnapshot>)
        requires
            old(store).wf(),
        ensures
            final(store).wf(),
            r is Err ==> *final(store) == *old(store),
            !is_coordinate(utf8(instance@)) ==> r matches Err(Error::FunctionConstraint(_)),
            is_coordinate(utf8(instance@)) && !publication_valid(*publication, membership_unsigned_json@) ==> r is Err,
            is_coordinate(utf8(instance@)) && publication_valid(*publication, membership_unsigned_json@) ==> publish_outcome(
                *old(store),
                *final(store),
                instance@,
                *publication,
                r,
            ),
    {
        validate_coordinate(instance, "function catalogue instance")?;
        publication.validate(membership_unsigned_json)?;
        let ghost p = *publication;
        let ghost json = membership_unsigned_json@;
        let ghost before = *store;
        let mut transaction = store.begin_transaction();
        let head_key = keyspaces::function_catalogue_head_key(instance);
        proof {
            lemma_is_space_key(Space::FunctionCatalogueHeads, seq![KeyPartValue::Text(instance@)]);
        }
        let current: Option<FunctionCatalogueHeadRecord> = match get(&transaction, store, keyspaces::FUNCTION_CATALOGUE_HEADS, head_key.as_slice())? {
            None => None,
            Some(bytes) => {
                let head = decode_head(bytes.as_slice())?;
                proof {
                    assert forall|h: FunctionCatalogueHeadRecord| #[trigger] head_bytes(h) == bytes@ implies same_head(h, head) && is_valid_head(h)
                        == is_valid_head(head) by {
                        lemma_head_bytes_injective(h, head);
                        lemma_same_head_valid(h, head);
                    }
                }
                head.validate()?;
                Some(head)
            },
        };
        let next_head = publication.head();
        proof {
            assert(same_head(next_head, head_of(p.membership)));
        }
        next_head.validate()?;
        if let Some(head) = &current {
            if head.format_version == next_head.format_version && head.revision == next_head.revision && head.catalogue_sha256
                == next_head.catalogue_sha256 && head.membership_sha256 == next_head.membership_sha256 {
                let loaded = load_snapshot(&transaction, store, instance, next_head);
                proof {
                    assert forall|h: FunctionCatalogueHeadRecord| same_head(h, next_head) implies head_loads(before, instance@, h) == head_loads(
                        before,
                        instance@,
                        next_head,
                    ) by {
                        assert forall|m: FunctionCatalogueMembershipRecord| #[trigger] snapshot_loadable(before, instance@, h, m)
                            == snapshot_loadable(before, instance@, next_head, m) by {
                            lemma_loadable_congruent(before, instance@, h, m, next_head, m);
                        }
                    }
                }
                return loaded;
            }
        }
        let current_revision: u64 = match &current {
            Some(head) => head.revision,
            None => 0,
        };
        if current_revision != publication.expected_revision {
            return Err(Error::FunctionConstraint(text("function catalogue expected revision does not match the current revision")));
        }
        let predecessor_matches = match (&current, &publication.membership.predecessor_sha256) {
            (None, None) => true,
            (Some(head), Some(predecessor)) => head.membership_sha256 == *predecessor,
            _ => false,
        };
        if !predecessor_matches {
            return Err(Error::FunctionConstraint(text("function catalogue membership predecessor does not match the active head")));
        }
        let staged = stage_records(transaction, store, instance, publication, membership_unsigned_json)?;
        self.finish_publication(store, staged, instance, publication, membership_unsigned_json, next_head, head_key)
    }

    /// Writes the membership and the head of a publication whose records
    /// are staged, commits, and reads the revision back.
    #[verifier::spinoff_prover]
    #[verifier::rlimit(50)]
    fn finish_publication(
        &self,
        store: &mut RrflowMxStore,
        transaction: RrflowMxTransaction,
        instance: &str,
        publication: &FunctionCataloguePublication,
        membership_unsigned_json: &[u8],
        next_head: FunctionCatalogueHeadRecord,
        head_key: Vec<u8>,
    ) -> (r: Result<FunctionCatalogueSnapshot>)
        requires
            old(store).wf(),
            transaction.wf(),
            is_coordinate(utf8(instance@)),
            publication_valid(*publication, membership_unsigned_json@),
            transaction.snapshot() == old(store).sequence(),
            same_head(next_head, head_of(publication.membership)),
            head_key@ == head_key_of(instance@),
            forall|k: Seq<u8>|
                #[trigger] transaction.writes().contains_key(k) ==> (exists|j: int|
                    0 <= j < publication.artifacts@.len() && k == #[trigger] pub_artifact_key(instance@, *publication, j)) || (exists|j: int|
                    0 <= j < publication.definitions@.len() && k == #[trigger] pub_definition_key(instance@, *publication, j)) || (exists|j: int|
                    0 <= j < publication.bindings@.len() && k == #[trigger] pub_binding_key(instance@, *publication, j)),
            forall|j: int|
                0 <= j < publication.artifacts@.len() ==> transaction.reads(old(store), #[trigger] pub_artifact_key(instance@, *publication, j)) == Some(
                    pub_artifact_bytes(*publication, j),
                ),
            forall|j: int|
                0 <= j < publication.artifacts@.len() ==> fits_or_absent(
                    *old(store),
                    #[trigger] pub_artifact_key(instance@, *publication, j),
                    pub_artifact_bytes(*publication, j),
                ),
            forall|j: int|
                0 <= j < publication.definitions@.len() ==> transaction.reads(old(store), #[trigger] pub_definition_key(instance@, *publication, j))
                    == Some(definition_bytes(publication.definitions@[j])),
            forall|j: int|
                0 <= j < publication.definitions@.len() ==> fits_or_absent(
                    *old(store),
                    #[trigger] pub_definition_key(instance@, *publication, j),
                    definition_bytes(publication.definitions@[j]),
                ),
            forall|j: int|
                0 <= j < publication.bindings@.len() ==> transaction.reads(old(store), #[trigger] pub_binding_key(instance@, *publication, j)) == Some(
                    binding_bytes(publication.bindings@[j]),
                ),
            forall|j: int|
                0 <= j < publication.bindings@.len() ==> fits_or_absent(
                    *old(store),
                    #[trigger] pub_binding_key(instance@, *publication, j),
                    binding_bytes(publication.bindings@[j]),
                ),
        ensures
            final(store).wf(),
            r is Err ==> *final(store) == *old(store),
            writes_outcome(*old(store), *final(store), instance@, *publication, r),
    {
        let ghost p = *publication;
        let ghost json = membership_unsigned_json@;
        let ghost before = *store;
        let mut transaction = transaction;
        let m = &publication.membership;
        let membership_key = keyspaces::function_catalogue_membership_key(instance, m.revision);
        let ghost mkey = membership_key_of(instance@, m.revision);
        proof {
            lemma_is_space_key(Space::FunctionCatalogueMemberships, seq![KeyPartValue::Text(instance@), KeyPartValue::U64(m.revision)]);
            assert(!transaction.writes().contains_key(mkey)) by {
                if transaction.writes().contains_key(mkey) {
                    let mparts = seq![KeyPartValue::Text(instance@), KeyPartValue::U64(m.revision)];
                    if exists|j: int| 0 <= j < p.artifacts@.len() && mkey == #[trigger] pub_artifact_key(instance@, p, j) {
                        let j = choose|j: int| 0 <= j < p.artifacts@.len() && mkey == #[trigger] pub_artifact_key(instance@, p, j);
                        crate::keyspaces::lemma_spaces_are_disjoint(
                            Space::FunctionCatalogueMemberships,
                            mparts,
                            Space::FunctionArtifacts,
                            seq![KeyPartValue::Text(instance@), KeyPartValue::Bytes(spec_decode_hex(utf8(p.artifacts@[j].content_sha256@)))],
                        );
                    } else if exists|j: int| 0 <= j < p.definitions@.len() && mkey == #[trigger] pub_definition_key(instance@, p, j) {
                        let j = choose|j: int| 0 <= j < p.definitions@.len() && mkey == #[trigger] pub_definition_key(instance@, p, j);
                        let d = p.definitions@[j];
                        crate::keyspaces::lemma_spaces_are_disjoint(
                            Space::FunctionCatalogueMemberships,
                            mparts,
                            Space::FunctionDefinitions,
                            seq![KeyPartValue::Text(instance@), KeyPartValue::Text(d.function_id@), KeyPartValue::Bytes(spec_decode_hex(utf8(d.definition_sha256@)))],
                        );
                    } else {
                        let j = choose|j: int| 0 <= j < p.bindings@.len() && mkey == #[trigger] pub_binding_key(instance@, p, j);
                        let b = p.bindings@[j];
                        crate::keyspaces::lemma_spaces_are_disjoint(
                            Space::FunctionCatalogueMemberships,
                            mparts,
                            Space::TransactionFunctionBindings,
                            seq![KeyPartValue::Text(instance@), KeyPartValue::Text(b.binding_id@), KeyPartValue::Bytes(spec_decode_hex(utf8(b.binding_sha256@)))],
                        );
                    }
                }
            }
        }
        let membership_bytes_exec = encode_membership(m);
        put_immutable(&mut transaction, store, keyspaces::FUNCTION_CATALOGUE_MEMBERSHIPS, membership_key, membership_bytes_exec)?;
        proof {
            assert(!records_compatible(before, instance@, p) ==> !fits_or_absent(before, mkey, membership_bytes(p.membership))) by {
                if !records_compatible(before, instance@, p) {
                    assert(!fits_or_absent(before, mkey, membership_bytes(p.membership)));
                }
            }
        }
        let ghost hkey = head_key_of(instance@);
        proof {
            lemma_is_space_key(Space::FunctionCatalogueHeads, seq![KeyPartValue::Text(instance@)]);
            lemma_head_key_distinct(instance@, p);
        }
        let checked_head = checked_key(keyspaces::FUNCTION_CATALOGUE_HEADS, head_key.as_slice())?;
        let ghost staged = transaction;
        transaction.put(checked_head, encode_head(&next_head));
        proof {
            assert(head_parts_equal(next_head, head_of(p.membership)));
            assert(forall|k: Seq<u8>| #[trigger] transaction.writes().contains_key(k) ==> is_publication_key(instance@, p, k)) by {
                assert forall|k: Seq<u8>| #[trigger] transaction.writes().contains_key(k) implies is_publication_key(instance@, p, k) by {
                    if k != hkey && k != mkey {
                        assert(staged.writes().contains_key(k));
                    }
                }
            }
            let ghost nwrites = p.artifacts@.len() + p.definitions@.len() + p.bindings@.len() + 2;
            assert(0 < transaction.ordered_writes().len() <= nwrites && crate::engine::first_conflict(
                before.chains(),
                transaction.ordered_writes(),
                transaction.snapshot() as int,
            ) is None) by {
                let keys = publication_keys(instance@, p);
                assert forall|k: Seq<u8>| transaction.writes().dom().contains(k) implies #[trigger] keys.to_set().contains(k) by {
                    lemma_publication_keys_cover(instance@, p, k);
                }
                vstd::seq_lib::seq_to_set_is_finite(keys);
                vstd::set_lib::lemma_len_subset(transaction.writes().dom(), keys.to_set());
                keys.lemma_cardinality_of_set();
                crate::engine::lemma_write_count(transaction);
                crate::engine::lemma_fresh_snapshot_no_conflict(before, transaction);
                assert(transaction.writes().dom().contains(hkey));
            }
            assert(m.artifact_sha256@.len() == m.artifact_sha256.len());
            assert(m.function_definition_sha256@.len() == m.function_definition_sha256.len());
            assert(m.transaction_binding_sha256@.len() == m.transaction_binding_sha256.len());
        }
        let committed = transaction.commit(store, Durability::Authoritative);
        match committed {
            Ok(_) => {},
            Err(e) => {
                return Err(e);
            },
        }
        let ghost after = *store;
        proof {
            assert(newest(after, mkey) == Some(membership_bytes(p.membership)) && snapshot_loadable(after, instance@, head_of(p.membership), p.membership))
                by {
                assert forall|j: int| 0 <= j < p.artifacts@.len() implies newest(after, #[trigger] pub_artifact_key(instance@, p, j)) == Some(
                    pub_artifact_bytes(p, j),
                ) by {
                    lemma_head_key_distinct(instance@, p);
                }
                assert forall|j: int| 0 <= j < p.definitions@.len() implies newest(after, #[trigger] pub_definition_key(instance@, p, j)) == Some(
                    definition_bytes(p.definitions@[j]),
                ) by {
                    lemma_head_key_distinct(instance@, p);
                }
                assert forall|j: int| 0 <= j < p.bindings@.len() implies newest(after, #[trigger] pub_binding_key(instance@, p, j)) == Some(
                    binding_bytes(p.bindings@[j]),
                ) by {
                    lemma_head_key_distinct(instance@, p);
                }
                lemma_published_loadable(after, instance@, p, json);
            }
            assert(membership_fits(p.membership));
        }
        let read_back = self.revision(store, instance, next_head.revision);
        proof {
            if read_back is Ok && read_back->Ok_0 is Some {
                let s = read_back->Ok_0->Some_0;
                lemma_membership_bytes_injective(s.membership, p.membership);
            }
        }
        assert(*store == after);
        proof {
            reveal(published_state);
        }
        match read_back {
            Ok(Some(snapshot)) => Ok(snapshot),
            Ok(None) => Err(Error::FunctionConstraint(text("committed function catalogue revision is not readable"))),
            Err(e) => Err(e),
        }
    }

    /// Binds a standalone receipt to its invocation identity, once.
    ///
    /// The instance and the receipt must be valid and the receipt carry no
    /// runtime commit. An identity already bound to the same stored receipt
    /// is left as it is; one bound to another receipt is refused.
    pub fn commit_standalone_receipt(&self, store: &mut RrflowMxStore, instance: &str, receipt: &FunctionInvocationReceiptRecord) -> (r: Result<()>)
        requires
            old(store).wf(),
        ensures
            final(store).wf(),
            r is Err ==> *final(store) == *old(store),
            !is_coordinate(utf8(instance@)) ==> r matches Err(Error::FunctionConstraint(_)),
            is_coordinate(utf8(instance@)) && !is_valid_receipt(*receipt) ==> r is Err,
            is_coordinate(utf8(instance@)) && is_valid_receipt(*receipt) && receipt.runtime_commit_sha256 is Some
                ==> r matches Err(Error::FunctionConstraint(_)),
            r is Ok ==> receipt_reads_back(*final(store), instance@, *receipt),
            is_coordinate(utf8(instance@)) && is_valid_receipt(*receipt) && receipt.runtime_commit_sha256 is None ==> {
                let k = receipt_key(instance@, receipt.invocation_id@);
                match newest(*old(store), k) {
                    None => (r is Ok <==> old(store).sequence() < u64::MAX) && (r is Ok ==> {
                        &&& final(store).sequence() == old(store).sequence() + 1
                        &&& newest(*final(store), k) == Some(receipt_bytes(*receipt))
                        &&& forall|other: Seq<u8>| other != k ==> #[trigger] newest(*final(store), other) == newest(*old(store), other)
                    }),
                    Some(stored) => if stored == receipt_bytes(*receipt) {
                        r is Ok && *final(store) == *old(store)
                    } else {
                        r matches Err(Error::FunctionConstraint(_))
                    },
                }
            },
    {
        validate_coordinate(instance, "function receipt instance")?;
        receipt.validate()?;
        if receipt.runtime_commit_sha256.is_some() {
            return Err(Error::FunctionConstraint(text("standalone function receipt contains a runtime commit")));
        }
        let mut transaction = store.begin_transaction();
        let key = keyspaces::function_invocation_receipt_key(instance, receipt.invocation_id.as_str());
        proof {
            lemma_is_space_key(Space::Invocations, seq![KeyPartValue::Text(instance@), KeyPartValue::Text(receipt.invocation_id@)]);
        }
        let encoded = encode_receipt(receipt);
        match get(&transaction, store, INVOCATIONS, key.as_slice())? {
            Some(existing) => {
                if crate::bytes::bytes_eq(existing.as_slice(), encoded.as_slice()) {
                    return Ok(());
                }
                return Err(Error::FunctionConstraint(text("function invocation identity is already bound to another receipt")));
            },
            None => {},
        }
        let checked = checked_key(INVOCATIONS, key.as_slice())?;
        transaction.put(checked, encoded);
        proof {
            let k = receipt_key(instance@, receipt.invocation_id@);
            assert(transaction.writes() == Map::<Seq<u8>, Option<Seq<u8>>>::empty().insert(k, Some(receipt_bytes(*receipt))));
            assert(transaction.writes().dom() =~= set![k]);
            crate::engine::lemma_write_count(transaction);
            crate::engine::lemma_fresh_snapshot_no_conflict(*old(store), transaction);
        }
        transaction.commit(store, Durability::Authoritative)?;
        Ok(())
    }

    /// The receipt bound to invocation `invocation_id`, as of the newest
    /// commit; a stored receipt that does not decode or is not valid is an
    /// error.
    pub fn invocation_receipt(&self, store: &RrflowMxStore, instance: &str, invocation_id: &str) -> (r: Result<Option<FunctionInvocationReceiptRecord>>)
        requires
            store.wf(),
        ensures
            invocation_receipt_result(*store, instance@, invocation_id@, r),
    {
        validate_coordinate(instance, "function receipt instance")?;
        validate_coordinate(invocation_id, "function invocation identity")?;
        let transaction = store.begin_transaction();
        let key = keyspaces::function_invocation_receipt_key(instance, invocation_id);
        proof {
            lemma_is_space_key(Space::Invocations, seq![KeyPartValue::Text(instance@), KeyPartValue::Text(invocation_id@)]);
        }
        match get(&transaction, store, INVOCATIONS, key.as_slice())? {
            None => Ok(None),
            Some(bytes) => {
                let receipt = decode_receipt(bytes.as_slice())?;
                let checked = receipt.validate();
                proof {
                    assert forall|x: FunctionInvocationReceiptRecord| #[trigger] receipt_bytes(x) == bytes@ && is_valid_receipt(x)
                        implies is_valid_receipt(receipt) && same_receipt(x, receipt) by {
                        lemma_receipt_bytes_injective(x, receipt);
                    }
                }
                checked?;
                Ok(Some(receipt))
            },
        }
    }
}

} // verus!
