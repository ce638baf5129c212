//! Planning and checking a scope's index commit bindings.
//!
//! A catalogue publication names the index definitions a scope's commits
//! must bind. Against the scope's schema and the bindings stored for the
//! scope, the plan refuses an invalid, repeated or ill-typed definition, an
//! unsound stored binding and a binding held by another catalogue
//! authority; otherwise it removes the bindings no longer requested, and
//! writes each requested one, clearing and backfilling its entries where it
//! is new or its definition changed. At each commit, the stored bindings,
//! their set and the catalogue they came from are checked against each
//! other and the schema.

use crate::digest::{is_sha256, sha256_hex, sha256_hex_text};
use crate::error::{join, text, Error, Result};
use crate::function::{string_views, utf8};
use crate::index::{is_valid_binding_definition, IndexCommitBindingDefinition, IndexCommitBindingKind};
use crate::keyspaces::is_sha256_text;
use crate::bytes::{bytes_lt, lemma_lex_lt_transitive, lemma_lex_lt_trichotomy, lex_le, lex_lt};
use vstd::prelude::*;

verus! {

/// The version of the commit-binding contract a stored binding carries.
pub const BINDING_CONTRACT_VERSION: u16 = 1;

/// Most commit-bound indexes one scope may hold.
pub const MAX_INDEX_COMMIT_BINDINGS: u64 = 65536;

/// The type of a record field, as far as an index reads it.
#[derive(Debug, Clone, Copy, PartialEq, Eq, Structural)]
pub enum FieldType {
    String,
    Unsigned,
    List,
    Dictionary,
    /// Any other scalar type.
    OtherScalar,
}

/// The typed properties of one record kind.
#[derive(Debug, Clone, PartialEq, Eq)]
pub struct RecordSchema {
    pub kind: String,
    pub properties: Vec<(String, FieldType)>,
}

/// A scope's runtime schema, as far as an index reads it: its revision and
/// the record kinds it types.
#[derive(Debug, Clone, PartialEq, Eq)]
pub struct IndexSchema {
    pub revision: u64,
    pub records: Vec<RecordSchema>,
}

/// A commit binding stored for a scope.
#[derive(Debug, Clone, PartialEq, Eq)]
pub struct IndexCommitBinding {
    pub contract_version: u16,
    pub scope: String,
    pub definition: IndexCommitBindingDefinition,
    pub schema_revision: u64,
    pub catalogue_revision: u64,
    pub source_control_key: String,
    pub source_control_sha256: String,
}

/// The integrity head of a scope's whole commit-binding projection.
#[derive(Debug, Clone, PartialEq, Eq)]
pub struct IndexCommitBindingSet {
    pub contract_version: u16,
    pub scope: String,
    pub schema_revision: u64,
    pub catalogue_revision: u64,
    pub source_control_key: String,
    pub source_control_sha256: String,
    pub definition_count: u64,
    pub definitions_sha256: String,
}

/// What to do for one requested definition: whether to clear the entries of
/// its prior binding first, and whether to backfill its entries.
#[derive(Debug, Clone, Copy, PartialEq, Eq, Structural)]
pub struct BindingWrite {
    pub clear_prior: bool,
    pub backfill: bool,
}

/// The plan: the ids of the bindings to remove (clearing their entries),
/// in stored order, and one write per requested definition, in order.
#[derive(Debug, Clone, PartialEq, Eq)]
pub struct IndexBindingPlan {
    pub removed: Vec<String>,
    pub writes: Vec<BindingWrite>,
}

/// What a commit does with the scope's bindings.
#[derive(Debug, Clone, Copy, PartialEq, Eq, Structural)]
pub enum BindingProjection {
    /// The scope has no index catalogue: nothing to index.
    Unindexed,
    /// The bindings hold; where `refresh`, they and their set are rewritten
    /// at the current schema and catalogue revisions before indexing.
    Bound { refresh: bool },
}

/// The control key of a scope's index catalogue.
pub open spec fn index_catalogue_key(scope: Seq<char>) -> Seq<char> {
    "server/state/index-catalogue/"@ + scope
}

/// Whether `s` is a lowercase hexadecimal SHA-256.
pub open spec fn is_digest(s: Seq<char>) -> bool {
    is_sha256_text(utf8(s))
}

/// Every constraint of a stored binding holds.
pub open spec fn binding_valid(b: IndexCommitBinding) -> bool {
    &&& b.contract_version == BINDING_CONTRACT_VERSION
    &&& b.schema_revision != 0
    &&& b.catalogue_revision != 0
    &&& b.source_control_key@ == index_catalogue_key(b.scope@)
    &&& is_valid_binding_definition(b.definition)
    &&& is_digest(b.source_control_sha256@)
}

/// Every constraint of a binding set holds.
pub open spec fn set_valid(s: IndexCommitBindingSet) -> bool {
    &&& s.contract_version == BINDING_CONTRACT_VERSION
    &&& s.schema_revision != 0
    &&& s.catalogue_revision != 0
    &&& s.source_control_key@ == index_catalogue_key(s.scope@)
    &&& s.definition_count <= MAX_INDEX_COMMIT_BINDINGS
    &&& is_digest(s.source_control_sha256@)
    &&& is_digest(s.definitions_sha256@)
}

/// The schema of record kind `kind`: the last one the schema lists.
pub open spec fn record_of(records: Seq<RecordSchema>, kind: Seq<char>) -> Option<RecordSchema>
    decreases records.len(),
{
    if records.len() == 0 {
        None
    } else if records.last().kind@ == kind {
        Some(records.last())
    } else {
        record_of(records.drop_last(), kind)
    }
}

/// The type of property `name`: the last one the record lists.
pub open spec fn property_of(properties: Seq<(String, FieldType)>, name: Seq<char>) -> Option<FieldType>
    decreases properties.len(),
{
    if properties.len() == 0 {
        None
    } else if properties.last().0@ == name {
        Some(properties.last().1)
    } else {
        property_of(properties.drop_last(), name)
    }
}

/// The type of `field` in records of `record`: the identity and kind are
/// strings, the validity bounds unsigned, and any other field as typed.
pub open spec fn field_type(record: RecordSchema, field: Seq<char>) -> Option<FieldType> {
    if field == "id"@ || field == "kind"@ {
        Some(FieldType::String)
    } else if field == "valid_from"@ || field == "valid_to"@ {
        Some(FieldType::Unsigned)
    } else {
        property_of(record.properties@, field)
    }
}

/// A field an index of `d` may bind: typed, scalar, and a string for BM25.
pub open spec fn field_fits(d: IndexCommitBindingDefinition, record: RecordSchema, field: Seq<char>) -> bool {
    match field_type(record, field) {
        None => false,
        Some(t) => t != FieldType::List && t != FieldType::Dictionary && (d.kind is Bm25 ==> t == FieldType::String),
    }
}

/// The definition fits the schema: its record kind is typed and each field
/// fits.
pub open spec fn binding_schema_ok(d: IndexCommitBindingDefinition, schema: IndexSchema) -> bool {
    match record_of(schema.records@, d.record_kind@) {
        None => false,
        Some(r) => forall|i: int| 0 <= i < d.fields@.len() ==> field_fits(d, r, (#[trigger] d.fields@[i])@),
    }
}

/// The stored bindings of a scope are within bound, valid, and of the scope.
pub open spec fn stored_bindings_ok(bindings: Seq<IndexCommitBinding>, scope: Seq<char>) -> bool {
    &&& bindings.len() <= MAX_INDEX_COMMIT_BINDINGS
    &&& forall|j: int| 0 <= j < bindings.len() ==> binding_valid(#[trigger] bindings[j]) && bindings[j].scope@ == scope
}

/// Whether a synchronization that passed the schema checks is admitted:
/// every definition valid and fitting the schema, no id repeated, the stored
/// bindings sound and owned by `key`, and the revisions and key such that
/// the new bindings and their set are valid.
pub open spec fn plan_admitted(
    defs: Seq<IndexCommitBindingDefinition>,
    existing: Seq<IndexCommitBinding>,
    scope: Seq<char>,
    schema: IndexSchema,
    key: Seq<char>,
    schema_revision: u64,
    catalogue_revision: u64,
) -> bool {
    &&& forall|i: int| 0 <= i < defs.len() ==> is_valid_binding_definition(#[trigger] defs[i]) && binding_schema_ok(defs[i], schema)
    &&& ids_distinct(defs)
    &&& stored_bindings_ok(existing, scope)
    &&& forall|j: int| 0 <= j < existing.len() ==> (#[trigger] existing[j]).source_control_key@ == key
    &&& schema_revision != 0
    &&& catalogue_revision != 0
    &&& key == index_catalogue_key(scope)
    &&& defs.len() <= MAX_INDEX_COMMIT_BINDINGS
}

/// Two definitions are the same, field for field.
pub open spec fn same_definition(a: IndexCommitBindingDefinition, b: IndexCommitBindingDefinition) -> bool {
    &&& a.id@ == b.id@
    &&& a.record_kind@ == b.record_kind@
    &&& string_views(a.fields@) == string_views(b.fields@)
    &&& a.kind == b.kind
    &&& a.configuration_sha256@ == b.configuration_sha256@
}

/// Whether some requested definition has id `id`.
pub open spec fn requests_id(defs: Seq<IndexCommitBindingDefinition>, id: Seq<char>) -> bool {
    exists|i: int| 0 <= i < defs.len() && (#[trigger] defs[i]).id@ == id
}

/// No two requested definitions share an id.
pub open spec fn ids_distinct(defs: Seq<IndexCommitBindingDefinition>) -> bool {
    forall|i: int, j: int| 0 <= i < j < defs.len() ==> (#[trigger] defs[i]).id@ != (#[trigger] defs[j]).id@
}

/// The stored definition for `id`: the last stored binding with that id.
pub open spec fn prior_of(existing: Seq<IndexCommitBinding>, id: Seq<char>) -> Option<IndexCommitBindingDefinition>
    decreases existing.len(),
{
    if existing.len() == 0 {
        None
    } else if existing.last().definition.id@ == id {
        Some(existing.last().definition)
    } else {
        prior_of(existing.drop_last(), id)
    }
}

/// The ids of the stored bindings no longer requested, in stored order.
pub open spec fn removed_ids(existing: Seq<IndexCommitBinding>, defs: Seq<IndexCommitBindingDefinition>) -> Seq<Seq<char>>
    decreases existing.len(),
{
    if existing.len() == 0 {
        Seq::empty()
    } else {
        removed_ids(existing.drop_last(), defs) + if requests_id(defs, existing.last().definition.id@) {
            Seq::<Seq<char>>::empty()
        } else {
            seq![existing.last().definition.id@]
        }
    }
}

/// The write of a requested definition against its prior binding.
pub open spec fn write_for(prior: Option<IndexCommitBindingDefinition>, d: IndexCommitBindingDefinition) -> BindingWrite {
    match prior {
        None => BindingWrite { clear_prior: false, backfill: true },
        Some(p) => if same_definition(p, d) {
            BindingWrite { clear_prior: false, backfill: false }
        } else {
            BindingWrite { clear_prior: true, backfill: true }
        },
    }
}

/// Whether two lists of strings are equal, string for string.
fn strings_equal(a: &Vec<String>, b: &Vec<String>) -> (e: bool)
    ensures
        e == (string_views(a@) == string_views(b@)),
{
    if a.len() != b.len() {
        proof {
            assert(string_views(a@).len() != string_views(b@).len());
        }
        return false;
    }
    let mut i: usize = 0;
    while i < a.len()
        invariant
            i <= a@.len(),
            a@.len() == b@.len(),
            forall|j: int| 0 <= j < i ==> a@[j]@ == b@[j]@,
        decreases a@.len() - i,
    {
        if !a[i].eq(&b[i]) {
            proof {
                assert(string_views(a@)[i as int] != string_views(b@)[i as int]);
            }
            return false;
        }
        i = i + 1;
    }
    assert(string_views(a@) =~= string_views(b@));
    true
}

/// Whether two definitions are the same, field for field.
pub fn definitions_equal(a: &IndexCommitBindingDefinition, b: &IndexCommitBindingDefinition) -> (e: bool)
    ensures
        e == same_definition(*a, *b),
{
    a.id.eq(&b.id) && a.record_kind.eq(&b.record_kind) && strings_equal(&a.fields, &b.fields) && a.kind == b.kind
        && a.configuration_sha256.eq(&b.configuration_sha256)
}

/// The stored definition for `id`, where there is one.
fn find_prior(existing: &Vec<IndexCommitBinding>, id: &String) -> (p: Option<usize>)
    ensures
        match p {
            Some(k) => k < existing@.len() && prior_of(existing@, id@) == Some(existing@[k as int].definition),
            None => prior_of(existing@, id@) is None,
        },
{
    let mut found: Option<usize> = None;
    let mut k: usize = 0;
    while k < existing.len()
        invariant
            k <= existing@.len(),
            match found {
                Some(f) => f < k && prior_of(existing@.take(k as int), id@) == Some(existing@[f as int].definition),
                None => prior_of(existing@.take(k as int), id@) is None,
            },
        decreases existing@.len() - k,
    {
        proof {
            assert(existing@.take(k + 1).drop_last() =~= existing@.take(k as int));
        }
        if existing[k].definition.id.eq(id) {
            found = Some(k);
        }
        k = k + 1;
    }
    assert(existing@.take(k as int) =~= existing@);
    found
}

/// Whether some requested definition has id `id`.
fn is_requested(defs: &Vec<IndexCommitBindingDefinition>, id: &String) -> (b: bool)
    ensures
        b == requests_id(defs@, id@),
{
    let mut i: usize = 0;
    while i < defs.len()
        invariant
            i <= defs@.len(),
            forall|j: int| 0 <= j < i ==> (#[trigger] defs@[j]).id@ != id@,
        decreases defs@.len() - i,
    {
        if defs[i].id.eq(id) {
            return true;
        }
        i = i + 1;
    }
    false
}

/// Whether `key` is the index-catalogue key of `scope`.
fn is_catalogue_key(key: &String, scope: &String) -> (b: bool)
    ensures
        b == (key@ == index_catalogue_key(scope@)),
{
    let expected = join("server/state/index-catalogue/", scope.as_str());
    key.eq(&expected)
}

impl IndexCommitBinding {
    /// Checks every constraint of the stored binding.
    pub fn validate(&self) -> (r: Result<()>)
        ensures
            r is Ok <==> binding_valid(*self),
            r matches Err(e) ==> e is IndexConstraint,
    {
        if self.contract_version != BINDING_CONTRACT_VERSION || self.schema_revision == 0 || self.catalogue_revision == 0
            || self.source_control_key.as_str().unicode_len() == 0 {
            proof {
                if self.source_control_key@.len() == 0 {
                    assert(index_catalogue_key(self.scope@).len() > 0) by {
                        reveal_strlit("server/state/index-catalogue/");
                    }
                }
            }
            return Err(Error::IndexConstraint(text("an index has an invalid commit binding")));
        }
        if !is_catalogue_key(&self.source_control_key, &self.scope) {
            return Err(Error::IndexConstraint(text("an index commit binding names a foreign catalogue key")));
        }
        self.definition.validate()?;
        if !is_sha256(self.source_control_sha256.as_str()) {
            return Err(Error::IndexConstraint(text("index source catalogue must be a lowercase SHA-256")));
        }
        Ok(())
    }
}

impl IndexCommitBindingSet {
    /// Checks every constraint of the binding set.
    pub fn validate(&self) -> (r: Result<()>)
        ensures
            r is Ok <==> set_valid(*self),
            r matches Err(e) ==> e is IndexConstraint,
    {
        if self.contract_version != BINDING_CONTRACT_VERSION || self.schema_revision == 0 || self.catalogue_revision == 0
            || !is_catalogue_key(&self.source_control_key, &self.scope) || self.definition_count > MAX_INDEX_COMMIT_BINDINGS {
            return Err(Error::IndexConstraint(text("a scope has an invalid index commit-binding set")));
        }
        if !is_sha256(self.source_control_sha256.as_str()) {
            return Err(Error::IndexConstraint(text("index source catalogue must be a lowercase SHA-256")));
        }
        if !is_sha256(self.definitions_sha256.as_str()) {
            return Err(Error::IndexConstraint(text("index binding definitions must be a lowercase SHA-256")));
        }
        Ok(())
    }
}

/// The position of the schema of record kind `kind`, where there is one.
fn find_record(records: &Vec<RecordSchema>, kind: &String) -> (p: Option<usize>)
    ensures
        match p {
            Some(k) => k < records@.len() && record_of(records@, kind@) == Some(records@[k as int]),
            None => record_of(records@, kind@) is None,
        },
{
    let mut found: Option<usize> = None;
    let mut k: usize = 0;
    while k < records.len()
        invariant
            k <= records@.len(),
            match found {
                Some(f) => f < k && record_of(records@.take(k as int), kind@) == Some(records@[f as int]),
                None => record_of(records@.take(k as int), kind@) is None,
            },
        decreases records@.len() - k,
    {
        proof {
            assert(records@.take(k + 1).drop_last() =~= records@.take(k as int));
        }
        if records[k].kind.eq(kind) {
            found = Some(k);
        }
        k = k + 1;
    }
    assert(records@.take(k as int) =~= records@);
    found
}

/// The type of property `name`, where the record lists one.
fn find_property(properties: &Vec<(String, FieldType)>, name: &String) -> (t: Option<FieldType>)
    ensures
        t == property_of(properties@, name@),
{
    let mut found: Option<FieldType> = None;
    let mut k: usize = 0;
    while k < properties.len()
        invariant
            k <= properties@.len(),
            found == property_of(properties@.take(k as int), name@),
        decreases properties@.len() - k,
    {
        proof {
            assert(properties@.take(k + 1).drop_last() =~= properties@.take(k as int));
        }
        if properties[k].0.eq(name) {
            found = Some(properties[k].1);
        }
        k = k + 1;
    }
    assert(properties@.take(k as int) =~= properties@);
    found
}

/// The type of `field` in records of `record`.
fn type_of_field(record: &RecordSchema, field: &String) -> (t: Option<FieldType>)
    ensures
        t == field_type(*record, field@),
{
    if field.eq(&text("id")) || field.eq(&text("kind")) {
        Some(FieldType::String)
    } else if field.eq(&text("valid_from")) || field.eq(&text("valid_to")) {
        Some(FieldType::Unsigned)
    } else {
        find_property(&record.properties, field)
    }
}

/// Checks that the definition fits the schema: a typed record kind, and
/// typed scalar fields, strings for BM25.
pub fn validate_binding_schema(d: &IndexCommitBindingDefinition, schema: &IndexSchema) -> (r: Result<()>)
    ensures
        r is Ok <==> binding_schema_ok(*d, *schema),
        r matches Err(e) ==> e is IndexConstraint,
{
    let record = match find_record(&schema.records, &d.record_kind) {
        Some(k) => &schema.records[k],
        None => {
            return Err(Error::IndexConstraint(text("an index references an unknown record type")));
        },
    };
    let mut i: usize = 0;
    while i < d.fields.len()
        invariant
            i <= d.fields@.len(),
            record_of(schema.records@, d.record_kind@) == Some(*record),
            forall|j: int| 0 <= j < i ==> field_fits(*d, *record, (#[trigger] d.fields@[j])@),
        decreases d.fields@.len() - i,
    {
        let t = match type_of_field(record, &d.fields[i]) {
            Some(t) => t,
            None => {
                return Err(Error::IndexConstraint(text("an index references an untyped field")));
            },
        };
        if t == FieldType::List || t == FieldType::Dictionary {
            return Err(Error::IndexConstraint(text("an index cannot encode a non-scalar field")));
        }
        if d.kind == IndexCommitBindingKind::Bm25 && t != FieldType::String {
            return Err(Error::IndexConstraint(text("a BM25 index requires a string field")));
        }
        i = i + 1;
    }
    Ok(())
}

/// Checks the stored bindings of a scope: within bound, valid, and of the scope.
fn check_stored_bindings(bindings: &Vec<IndexCommitBinding>, scope: &String) -> (r: Result<()>)
    ensures
        r is Ok <==> stored_bindings_ok(bindings@, scope@),
        r matches Err(e) ==> e is IndexConstraint,
{
    if bindings.len() as u64 > MAX_INDEX_COMMIT_BINDINGS {
        return Err(Error::IndexConstraint(text("a scope exceeds its commit-bound index bound")));
    }
    let mut k: usize = 0;
    while k < bindings.len()
        invariant
            k <= bindings@.len(),
            bindings@.len() <= MAX_INDEX_COMMIT_BINDINGS,
            forall|j: int| 0 <= j < k ==> binding_valid(#[trigger] bindings@[j]) && bindings@[j].scope@ == scope@,
        decreases bindings@.len() - k,
    {
        bindings[k].validate()?;
        if !bindings[k].scope.eq(scope) {
            return Err(Error::IndexConstraint(text("an index commit binding escaped its scope key")));
        }
        k = k + 1;
    }
    Ok(())
}

/// Plans the synchronization of the bindings of `scope` to `definitions`,
/// against the bindings `existing` stored for it, for the catalogue at
/// `source_control_key` with digest `source_control_sha256`, at
/// `catalogue_revision`, over the scope's schema, which must be at
/// `expected_schema_revision`.
pub fn plan_index_bindings(
    scope: &String,
    schema: Option<&IndexSchema>,
    expected_schema_revision: u64,
    catalogue_revision: u64,
    source_control_key: &String,
    source_control_sha256: &String,
    definitions: &Vec<IndexCommitBindingDefinition>,
    existing: &Vec<IndexCommitBinding>,
) -> (r: Result<IndexBindingPlan>)
    ensures
        !is_digest(source_control_sha256@) ==> (r matches Err(e) && e is IndexConstraint),
        is_digest(source_control_sha256@) ==> match schema {
            None => r matches Err(Error::RuntimeSchemaMissing(m)) && m@ == scope@,
            Some(s) => if s.revision != expected_schema_revision {
                r == Err::<IndexBindingPlan, Error>(Error::RuntimeSchemaConflict { expected: expected_schema_revision, actual: s.revision })
            } else {
                &&& (r is Ok <==> plan_admitted(definitions@, existing@, scope@, *s, source_control_key@, expected_schema_revision, catalogue_revision))
                &&& (r matches Err(e) ==> e is IndexConstraint)
            },
        },
        r matches Ok(p) ==> {
            &&& string_views(p.removed@) == removed_ids(existing@, definitions@)
            &&& p.writes@.len() == definitions@.len()
            &&& forall|i: int| 0 <= i < definitions@.len() ==> #[trigger] p.writes@[i] == write_for(prior_of(existing@, definitions@[i].id@), definitions@[i])
        },
{
    if !is_sha256(source_control_sha256.as_str()) {
        return Err(Error::IndexConstraint(text("index source catalogue must be a lowercase SHA-256")));
    }
    let sch = match schema {
        Some(s) => s,
        None => {
            return Err(Error::RuntimeSchemaMissing(scope.clone()));
        },
    };
    if sch.revision != expected_schema_revision {
        return Err(Error::RuntimeSchemaConflict { expected: expected_schema_revision, actual: sch.revision });
    }
    let mut i: usize = 0;
    while i < definitions.len()
        invariant
            i <= definitions@.len(),
            schema == Some(sch),
            sch.revision == expected_schema_revision,
            is_digest(source_control_sha256@),
            forall|j: int| 0 <= j < i ==> is_valid_binding_definition(#[trigger] definitions@[j]) && binding_schema_ok(definitions@[j], *sch),
            forall|a: int, b: int| 0 <= a < b < i ==> (#[trigger] definitions@[a]).id@ != (#[trigger] definitions@[b]).id@,
        decreases definitions@.len() - i,
    {
        match definitions[i].validate() {
            Ok(()) => {},
            Err(e) => {
                return Err(e);
            },
        }
        match validate_binding_schema(&definitions[i], sch) {
            Ok(()) => {},
            Err(e) => {
                return Err(e);
            },
        }
        let mut j: usize = 0;
        while j < i
            invariant
                j <= i < definitions@.len(),
                schema == Some(sch),
                sch.revision == expected_schema_revision,
                is_digest(source_control_sha256@),
                forall|a: int| 0 <= a < j ==> (#[trigger] definitions@[a]).id@ != definitions@[i as int].id@,
            decreases i - j,
        {
            if definitions[j].id.eq(&definitions[i].id) {
                return Err(Error::IndexConstraint(text("duplicate commit binding for an index")));
            }
            j = j + 1;
        }
        i = i + 1;
    }
    match check_stored_bindings(existing, scope) {
        Ok(()) => {},
        Err(e) => {
            return Err(e);
        },
    }
    let mut k: usize = 0;
    while k < existing.len()
        invariant
            k <= existing@.len(),
            schema == Some(sch),
            sch.revision == expected_schema_revision,
            is_digest(source_control_sha256@),
            forall|j: int| 0 <= j < k ==> (#[trigger] existing@[j]).source_control_key@ == source_control_key@,
        decreases existing@.len() - k,
    {
        if !existing[k].source_control_key.eq(source_control_key) {
            return Err(Error::IndexConstraint(text("an index is bound to a different catalogue authority")));
        }
        k = k + 1;
    }
    if expected_schema_revision == 0 || catalogue_revision == 0 || !is_catalogue_key(source_control_key, scope)
        || definitions.len() as u64 > MAX_INDEX_COMMIT_BINDINGS {
        return Err(Error::IndexConstraint(text("the new commit bindings of the scope would be invalid")));
    }
    let mut removed: Vec<String> = Vec::new();
    let mut k: usize = 0;
    while k < existing.len()
        invariant
            k <= existing@.len(),
            string_views(removed@) == removed_ids(existing@.take(k as int), definitions@),
        decreases existing@.len() - k,
    {
        let ghost before = string_views(removed@);
        proof {
            assert(existing@.take(k + 1).drop_last() =~= existing@.take(k as int));
        }
        if !is_requested(definitions, &existing[k].definition.id) {
            removed.push(existing[k].definition.id.clone());
            assert(string_views(removed@) =~= before + seq![existing@[k as int].definition.id@]);
        } else {
            assert(before + Seq::<Seq<char>>::empty() =~= before);
        }
        k = k + 1;
    }
    assert(existing@.take(k as int) =~= existing@);
    let mut writes: Vec<BindingWrite> = Vec::new();
    let mut i: usize = 0;
    while i < definitions.len()
        invariant
            i <= definitions@.len(),
            writes@.len() == i,
            forall|j: int| 0 <= j < i ==> #[trigger] writes@[j] == write_for(prior_of(existing@, definitions@[j].id@), definitions@[j]),
        decreases definitions@.len() - i,
    {
        let write = match find_prior(existing, &definitions[i].id) {
            None => BindingWrite { clear_prior: false, backfill: true },
            Some(p) => if definitions_equal(&existing[p].definition, &definitions[i]) {
                BindingWrite { clear_prior: false, backfill: false }
            } else {
                BindingWrite { clear_prior: true, backfill: true }
            },
        };
        writes.push(write);
        i = i + 1;
    }
    Ok(IndexBindingPlan { removed, writes })
}

/// A stored binding agrees with its set and fits the schema.
pub open spec fn binding_in_set(b: IndexCommitBinding, set: IndexCommitBindingSet, schema: IndexSchema, catalogue_revision: u64) -> bool {
    &&& b.scope@ == set.scope@
    &&& b.schema_revision == set.schema_revision
    &&& b.catalogue_revision == set.catalogue_revision
    &&& b.source_control_key@ == set.source_control_key@
    &&& b.source_control_sha256@ == set.source_control_sha256@
    &&& b.catalogue_revision <= catalogue_revision
    &&& binding_schema_ok(b.definition, schema)
}

/// The projection of a scope's bindings at a commit; none where the stored
/// catalogue, set, bindings and schema do not agree.
pub open spec fn spec_binding_projection(
    scope: Seq<char>,
    source_control: Option<Seq<u8>>,
    set: Option<IndexCommitBindingSet>,
    definitions_json: Seq<u8>,
    bindings: Seq<IndexCommitBinding>,
    schema: IndexSchema,
    catalogue_revision: u64,
) -> Option<BindingProjection> {
    if !stored_bindings_ok(bindings, scope) {
        None
    } else {
        match (source_control, set) {
            (None, None) => if bindings.len() == 0 { Some(BindingProjection::Unindexed) } else { None },
            (Some(control), Some(s)) => if set_valid(s) && s.scope@ == scope && s.source_control_key@ == index_catalogue_key(scope)
                && s.catalogue_revision <= catalogue_revision && s.schema_revision <= schema.revision
                && s.source_control_sha256@ == sha256_hex_text(control) && s.definition_count == bindings.len()
                && s.definitions_sha256@ == sha256_hex_text(definitions_json)
                && forall|i: int| 0 <= i < bindings.len() ==> binding_in_set(#[trigger] bindings[i], s, schema, catalogue_revision) {
                Some(BindingProjection::Bound { refresh: s.schema_revision != schema.revision })
            } else {
                None
            },
            _ => None,
        }
    }
}

/// Checks the scope's stored bindings, its index catalogue
/// `source_control` and its binding set against each other, the commit's
/// catalogue revision and the scope's schema. `definitions_json` is the
/// canonical JSON of the stored bindings' definitions, in ascending order of
/// their ids; the set's definitions digest must be its SHA-256.
pub fn binding_projection(
    scope: &String,
    source_control: Option<&[u8]>,
    set: Option<&IndexCommitBindingSet>,
    definitions_json: &[u8],
    bindings: &Vec<IndexCommitBinding>,
    schema: &IndexSchema,
    catalogue_revision: u64,
) -> (r: Result<BindingProjection>)
    ensures
        match spec_binding_projection(scope@, match source_control { Some(c) => Some(c@), None => None }, match set {
            Some(s) => Some(*s),
            None => None,
        }, definitions_json@, bindings@, *schema, catalogue_revision) {
            Some(p) => r == Ok::<BindingProjection, Error>(p),
            None => r matches Err(e) && e is IndexConstraint,
        },
{
    match check_stored_bindings(bindings, scope) {
        Ok(()) => {},
        Err(e) => {
            return Err(e);
        },
    }
    let (control, s) = match (source_control, set) {
        (None, None) => {
            if bindings.len() == 0 {
                return Ok(BindingProjection::Unindexed);
            }
            return Err(Error::IndexConstraint(text("scope has orphaned index commit bindings")));
        },
        (Some(_), None) => {
            return Err(Error::IndexConstraint(text("scope index catalogue has no atomic commit-binding set")));
        },
        (None, Some(_)) => {
            return Err(Error::IndexConstraint(text("scope index commit-binding set has no source catalogue")));
        },
        (Some(c), Some(s)) => (c, s),
    };
    match s.validate() {
        Ok(()) => {},
        Err(e) => {
            return Err(e);
        },
    }
    let key = join("server/state/index-catalogue/", scope.as_str());
    let digest = sha256_hex(control);
    if !s.scope.eq(scope) || !s.source_control_key.eq(&key) || s.catalogue_revision > catalogue_revision
        || s.schema_revision > schema.revision || !s.source_control_sha256.eq(&digest) {
        return Err(Error::IndexConstraint(text("scope index commit-binding set does not match its accepted catalogue and schema")));
    }
    let definitions_digest = sha256_hex(definitions_json);
    if s.definition_count as u128 != bindings.len() as u128 || !s.definitions_sha256.eq(&definitions_digest) {
        return Err(Error::IndexConstraint(text("scope index commit-binding projection is incomplete")));
    }
    let mut i: usize = 0;
    while i < bindings.len()
        invariant
            i <= bindings@.len(),
            source_control == Some(control),
            set == Some(s),
            stored_bindings_ok(bindings@, scope@),
            set_valid(*s),
            s.scope@ == scope@ && s.source_control_key@ == index_catalogue_key(scope@),
            s.catalogue_revision <= catalogue_revision && s.schema_revision <= schema.revision,
            s.source_control_sha256@ == sha256_hex_text(control@),
            s.definition_count == bindings@.len(),
            s.definitions_sha256@ == sha256_hex_text(definitions_json@),
            forall|j: int| 0 <= j < i ==> binding_in_set(#[trigger] bindings@[j], *s, *schema, catalogue_revision),
        decreases bindings@.len() - i,
    {
        let b = &bindings[i];
        if !b.scope.eq(&s.scope) || b.schema_revision != s.schema_revision || b.catalogue_revision != s.catalogue_revision
            || !b.source_control_key.eq(&s.source_control_key) || !b.source_control_sha256.eq(&s.source_control_sha256) {
            return Err(Error::IndexConstraint(text("an index escaped its accepted commit-binding set")));
        }
        if b.catalogue_revision > catalogue_revision {
            return Err(Error::IndexConstraint(text("an index commit binding names a future catalogue revision")));
        }
        match validate_binding_schema(&b.definition, schema) {
            Ok(()) => {},
            Err(e) => {
                return Err(e);
            },
        }
        i = i + 1;
    }
    Ok(BindingProjection::Bound { refresh: s.schema_revision != schema.revision })
}


/// The id of a binding's definition, as bytes: what orders definitions.
pub open spec fn definition_id(b: IndexCommitBinding) -> Seq<u8> {
    utf8(b.definition.id@)
}

/// The order in which the bindings' definitions make up their canonical
/// JSON: each index of `bindings` once, ascending by definition id.
pub fn canonical_definition_order(bindings: &Vec<IndexCommitBinding>) -> (order: Vec<usize>)
    ensures
        order@.len() == bindings@.len(),
        order@.no_duplicates(),
        forall|i: int| 0 <= i < order@.len() ==> order@[i] < bindings@.len(),
        forall|i: int, j: int| 0 <= i < j < order@.len()
            ==> lex_le(#[trigger] definition_id(bindings@[order@[i] as int]), #[trigger] definition_id(bindings@[order@[j] as int])),
{
    let mut order: Vec<usize> = Vec::new();
    let mut k: usize = 0;
    while k < bindings.len()
        invariant
            k <= bindings@.len(),
            order@.len() == k,
            order@.no_duplicates(),
            forall|i: int| 0 <= i < order@.len() ==> order@[i] < k,
            forall|a: int, b: int| 0 <= a < b < order@.len()
                ==> lex_le(#[trigger] definition_id(bindings@[order@[a] as int]), #[trigger] definition_id(bindings@[order@[b] as int])),
        decreases bindings@.len() - k,
    {
        let id = bindings[k].definition.id.as_str().as_bytes();
        let mut p: usize = 0;
        while p < order.len() && !bytes_lt(id, bindings[order[p]].definition.id.as_str().as_bytes())
            invariant
                p <= order@.len(),
                k < bindings@.len(),
                id@ == definition_id(bindings@[k as int]),
                forall|i: int| 0 <= i < order@.len() ==> order@[i] < k,
                forall|q: int| 0 <= q < p ==> !lex_lt(definition_id(bindings@[k as int]), #[trigger] definition_id(bindings@[order@[q] as int])),
            decreases order@.len() - p,
        {
            p = p + 1;
        }
        let ghost before = order@;
        order.insert(p, k);
        proof {
            let x = definition_id(bindings@[k as int]);
            assert(order@ == before.insert(p as int, k));
            assert forall|i: int, j: int| 0 <= i < j < order@.len() implies order@[i] != order@[j] by {
                if i != p && j != p {
                    let bi = if i < p { i } else { i - 1 };
                    let bj = if j < p { j } else { j - 1 };
                    assert(before[bi] != before[bj]);
                }
            }
            assert forall|a: int, b: int| 0 <= a < b < order@.len() implies lex_le(
                #[trigger] definition_id(bindings@[order@[a] as int]),
                #[trigger] definition_id(bindings@[order@[b] as int]),
            ) by {
                let d = |q: int| definition_id(bindings@[before[q] as int]);
                if a < p && b == p {
                    lemma_lex_lt_trichotomy(x, d(a));
                } else if a == p && b > p {
                    if p < before.len() {
                        assert(lex_lt(x, d(p as int)));
                        if b - 1 > p {
                            assert(lex_le(d(p as int), d(b - 1)));
                            if lex_lt(d(p as int), d(b - 1)) {
                                lemma_lex_lt_transitive(x, d(p as int), d(b - 1));
                            }
                        }
                    }
                } else if a < p && b > p {
                    assert(lex_le(d(a), d(b - 1)));
                } else if a > p {
                    assert(lex_le(d(a - 1), d(b - 1)));
                } else {
                    assert(lex_le(d(a), d(b)));
                }
            }
        }
        k = k + 1;
    }
    order
}

} // verus!
