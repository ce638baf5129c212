//! Typed governed-function catalogue and invocation-receipt records.
//!
//! Executable content is stored once as a binary value addressed by SHA-256.
//! Definitions and transaction bindings are immutable, individually addressed
//! records. A catalogue revision holds only their identities and digests; one
//! compare-and-swap head selects the active membership.

use crate::bytes::{be16, be32, from_be32, lex_lt, bytes_lt, push_all, push_be16, push_be32, read_be32, lemma_be32_round_trip};
use crate::digest::{is_sha256, sha256_hex, sha256_hex_text};
use crate::engine::is_idempotency_key_byte;
use crate::error::{join, text, Error, Result};
use crate::keyspaces::is_sha256_text;
use vstd::prelude::*;
use vstd::string::StringSliceAdditionalSpecFns;
use vstd::utf8::encode_utf8;

verus! {

/// Format version of catalogue state records.
pub const FUNCTION_CATALOGUE_STATE_FORMAT_VERSION: u16 = 1;

/// Format version of invocation receipts.
pub const FUNCTION_INVOCATION_RECEIPT_FORMAT_VERSION: u16 = 1;

/// Largest artifact content, in bytes.
pub const MAX_FUNCTION_ARTIFACT_BYTES: usize = 262144;

/// Largest canonical record JSON, in bytes.
pub const MAX_FUNCTION_RECORD_JSON_BYTES: usize = 1048576;

/// Text that parses as one JSON value.
pub uninterp spec fn is_json_text(text: Seq<char>) -> bool;

/// `serde_json::from_str::<serde_json::Value>`: whether `json` parses as a
/// JSON value; the contract names the answer `is_json_text` of the text and
/// claims nothing more of the parser.
#[verifier::external_body]
fn parses_as_json(json: &str) -> (ok: bool)
    ensures
        ok == is_json_text(json@),
{
    serde_json::from_str::<serde_json::Value>(json).is_ok()
}

/// The UTF-8 bytes of a string.
pub open spec fn utf8(s: Seq<char>) -> Seq<u8> {
    encode_utf8(s)
}

/// The error every constraint of this module reports.
fn function_error(message: String) -> (e: Error)
    ensures
        e == Error::FunctionConstraint(message),
{
    Error::FunctionConstraint(message)
}

/// An artifact's media type.
#[derive(Debug, Clone, Copy, PartialEq, Eq, Structural)]
pub enum FunctionArtifactMediaTypeRecord {
    JavaScriptUtf8,
    WebAssemblyBinary,
}

impl FunctionArtifactMediaTypeRecord {
    /// The stored tag of a media type.
    pub open spec fn spec_tag(self) -> u8 {
        match self {
            FunctionArtifactMediaTypeRecord::JavaScriptUtf8 => 1,
            FunctionArtifactMediaTypeRecord::WebAssemblyBinary => 2,
        }
    }

    /// The stored tag of a media type.
    pub fn tag(self) -> (t: u8)
        ensures
            t == self.spec_tag(),
    {
        match self {
            FunctionArtifactMediaTypeRecord::JavaScriptUtf8 => 1,
            FunctionArtifactMediaTypeRecord::WebAssemblyBinary => 2,
        }
    }

    /// The media type a stored tag denotes.
    pub fn from_tag(tag: u8) -> (r: Result<Self>)
        ensures
            match r {
                Ok(m) => m.spec_tag() == tag,
                Err(e) => tag != 1 && tag != 2 && e is FunctionConstraint,
            },
    {
        match tag {
            1 => Ok(FunctionArtifactMediaTypeRecord::JavaScriptUtf8),
            2 => Ok(FunctionArtifactMediaTypeRecord::WebAssemblyBinary),
            _ => Err(function_error(text("function artifact media tag is unknown"))),
        }
    }
}

/// A bounded identity: 1 to 256 ASCII letters, digits, `-`, `_`, `.` or `:`.
pub open spec fn is_coordinate(bytes: Seq<u8>) -> bool {
    1 <= bytes.len() <= 256 && forall|i: int| 0 <= i < bytes.len() ==> is_idempotency_key_byte(#[trigger] bytes[i])
}

/// Checks a bounded identity; the error names the field.
pub fn validate_coordinate(value: &str, name: &str) -> (r: Result<()>)
    ensures
        r is Ok <==> is_coordinate(value.spec_bytes()),
        r matches Err(e) ==> e == Error::FunctionConstraint(e->FunctionConstraint_0) && e->FunctionConstraint_0@ == name@ + " is invalid"@,
{
    let bytes = value.as_bytes();
    let mut valid = bytes.len() >= 1 && bytes.len() <= 256;
    let mut i: usize = 0;
    while valid && i < bytes.len()
        invariant
            bytes@ == value.spec_bytes(),
            i <= bytes@.len(),
            valid ==> 1 <= bytes@.len() <= 256,
            valid ==> forall|j: int| 0 <= j < i ==> is_idempotency_key_byte(#[trigger] bytes@[j]),
            !valid ==> !is_coordinate(bytes@),
        decreases bytes@.len() - i,
    {
        let b = bytes[i];
        if !((48 <= b && b <= 57) || (65 <= b && b <= 90) || (97 <= b && b <= 122) || b == 45 || b == 95 || b == 46 || b == 58) {
            valid = false;
        }
        i = i + 1;
    }
    if !valid {
        return Err(function_error(join(name, " is invalid")));
    }
    Ok(())
}

/// Checks a lowercase hexadecimal SHA-256; the error names the field.
pub fn validate_sha256(value: &str, name: &str) -> (r: Result<()>)
    ensures
        r is Ok <==> is_sha256_text(value.spec_bytes()),
        r matches Err(e) ==> e == Error::FunctionConstraint(e->FunctionConstraint_0) && e->FunctionConstraint_0@ == name@ + " is not lowercase SHA-256"@,
{
    if !is_sha256(value) {
        return Err(function_error(join(name, " is not lowercase SHA-256")));
    }
    Ok(())
}

/// Checks a record's format version.
pub fn validate_record_version(version: u16, name: &str) -> (r: Result<()>)
    ensures
        r is Ok <==> version == FUNCTION_CATALOGUE_STATE_FORMAT_VERSION,
        r matches Err(e) ==> e == Error::FunctionConstraint(e->FunctionConstraint_0) && e->FunctionConstraint_0@ == name@ + " version is unsupported"@,
{
    if version != FUNCTION_CATALOGUE_STATE_FORMAT_VERSION {
        Err(function_error(join(name, " version is unsupported")))
    } else {
        Ok(())
    }
}

/// A revision and its predecessor fit: revisions count from 1, the first has
/// no predecessor, and every later one names its predecessor by SHA-256.
pub open spec fn is_revision_chain(revision: u64, predecessor: Option<Seq<u8>>) -> bool {
    revision != 0 && match predecessor {
        None => revision == 1,
        Some(p) => revision != 1 && is_sha256_text(p),
    }
}

/// The bytes of an optional string.
pub open spec fn opt_utf8(o: Option<&str>) -> Option<Seq<u8>> {
    match o {
        Some(s) => Some(s.spec_bytes()),
        None => None,
    }
}

/// Checks a revision against its predecessor.
pub fn validate_revision(revision: u64, predecessor: Option<&str>, name: &str) -> (r: Result<()>)
    ensures
        r is Ok <==> is_revision_chain(revision, opt_utf8(predecessor)),
        r matches Err(e) ==> e is FunctionConstraint,
{
    if revision == 0 {
        return Err(function_error(join(join("function ", name).as_str(), " revision is zero")));
    }
    match predecessor {
        None => {
            if revision == 1 {
                Ok(())
            } else {
                Err(function_error(join(join("later function ", name).as_str(), " revision lacks a predecessor")))
            }
        },
        Some(p) => {
            if revision == 1 {
                Err(function_error(join(join("first function ", name).as_str(), " revision has a predecessor")))
            } else {
                validate_sha256(p, "function predecessor")
            }
        },
    }
}

/// Canonical JSON: non-empty, at most one MiB, a JSON value, and hashing to
/// its advertised digest.
pub open spec fn is_canonical_json(json: Seq<char>, expected_sha256: Seq<char>) -> bool {
    &&& 1 <= utf8(json).len() <= MAX_FUNCTION_RECORD_JSON_BYTES
    &&& is_json_text(json)
    &&& sha256_hex_text(utf8(json)) == expected_sha256
}

/// Checks canonical record JSON against its digest.
pub fn validate_canonical_json(json: &str, expected_sha256: &str, name: &str) -> (r: Result<()>)
    ensures
        r is Ok <==> is_canonical_json(json@, expected_sha256@),
        r matches Err(e) ==> e is FunctionConstraint || (e is Codec && !is_json_text(json@)),
{
    let bytes = json.as_bytes();
    if bytes.len() == 0 || bytes.len() > MAX_FUNCTION_RECORD_JSON_BYTES {
        return Err(function_error(join(name, " JSON length is outside its physical bound")));
    }
    if !parses_as_json(json) {
        return Err(Error::Codec(join(name, " JSON does not parse")));
    }
    let digest = sha256_hex(bytes);
    if digest != text(expected_sha256) {
        return Err(function_error(join(name, " JSON does not match its content digest")));
    }
    Ok(())
}

proof fn lemma_be16_one()
    ensures
        be16(1u16) == seq![0u8, 1u8],
{
    assert((1u16 >> 8u16) as u8 == 0u8) by (bit_vector);
    assert(1u16 as u8 == 1u8) by (bit_vector);
    assert(be16(1u16) =~= seq![0u8, 1u8]);
}

/// The magic bytes that open a stored artifact.
pub open spec fn artifact_magic() -> Seq<u8> {
    seq![82u8, 82u8, 70u8, 78u8, 65u8, 82u8, 84u8, 49u8]
}

/// Executable content addressed by its SHA-256.
#[derive(Debug, Clone, PartialEq, Eq)]
pub struct FunctionArtifactRecord {
    pub content_sha256: String,
    pub media_type: FunctionArtifactMediaTypeRecord,
    pub content: Vec<u8>,
}

/// An artifact whose address is its content's SHA-256 and whose content is
/// within the physical bound.
pub open spec fn is_valid_artifact(content_sha256: Seq<char>, content: Seq<u8>) -> bool {
    &&& is_sha256_text(utf8(content_sha256))
    &&& 1 <= content.len() <= MAX_FUNCTION_ARTIFACT_BYTES
    &&& sha256_hex_text(content) == content_sha256
}

/// The stored form of an artifact: magic, format version, media tag, content
/// length and content.
pub open spec fn artifact_bytes(media_type: FunctionArtifactMediaTypeRecord, content: Seq<u8>) -> Seq<u8> {
    artifact_magic() + be16(FUNCTION_CATALOGUE_STATE_FORMAT_VERSION) + seq![media_type.spec_tag()] + be32(content.len() as u32) + content
}

impl FunctionArtifactRecord {
    /// Checks the artifact's address and bound.
    pub fn validate(&self) -> (r: Result<()>)
        ensures
            r is Ok <==> is_valid_artifact(self.content_sha256@, self.content@),
            r matches Err(e) ==> e is FunctionConstraint,
    {
        validate_sha256(self.content_sha256.as_str(), "function artifact")?;
        if self.content.len() == 0 || self.content.len() > MAX_FUNCTION_ARTIFACT_BYTES {
            return Err(function_error(text("function artifact byte length is outside the physical bound")));
        }
        if sha256_hex(self.content.as_slice()) != self.content_sha256 {
            return Err(function_error(text("function artifact content does not match its address")));
        }
        Ok(())
    }

    /// The stored form of a valid artifact.
    pub fn encode(&self) -> (r: Result<Vec<u8>>)
        ensures
            match r {
                Ok(bytes) => is_valid_artifact(self.content_sha256@, self.content@)
                    && bytes@ == artifact_bytes(self.media_type, self.content@),
                Err(e) => !is_valid_artifact(self.content_sha256@, self.content@) && e is FunctionConstraint,
            },
    {
        self.validate()?;
        let length = self.content.len() as u32;
        let mut encoded: Vec<u8> = Vec::new();
        encoded.push(82);
        encoded.push(82);
        encoded.push(70);
        encoded.push(78);
        encoded.push(65);
        encoded.push(82);
        encoded.push(84);
        encoded.push(49);
        push_be16(&mut encoded, FUNCTION_CATALOGUE_STATE_FORMAT_VERSION);
        encoded.push(self.media_type.tag());
        push_be32(&mut encoded, length);
        push_all(&mut encoded, self.content.as_slice());
        assert(encoded@ =~= artifact_bytes(self.media_type, self.content@));
        Ok(encoded)
    }

    /// The artifact stored as `encoded` under the address `expected_sha256`.
    pub fn decode(expected_sha256: &str, encoded: &[u8]) -> (r: Result<Self>)
        ensures
            match r {
                Ok(record) => record.content_sha256@ == expected_sha256@
                    && encoded@ == artifact_bytes(record.media_type, record.content@)
                    && is_valid_artifact(record.content_sha256@, record.content@),
                Err(e) => e is FunctionConstraint && forall|m: FunctionArtifactMediaTypeRecord, c: Seq<u8>|
                    #[trigger] artifact_bytes(m, c) == encoded@ ==> !is_valid_artifact(expected_sha256@, c),
            },
    {
        if encoded.len() < 15 || encoded[0] != 82 || encoded[1] != 82 || encoded[2] != 70 || encoded[3] != 78
            || encoded[4] != 65 || encoded[5] != 82 || encoded[6] != 84 || encoded[7] != 49 {
            proof {
                assert forall|m: FunctionArtifactMediaTypeRecord, c: Seq<u8>| #[trigger] artifact_bytes(m, c) == encoded@
                    implies !is_valid_artifact(expected_sha256@, c) by {
                    let b = artifact_bytes(m, c);
                    assert(b.len() >= 15);
                    assert(b.take(8) =~= artifact_magic());
                    assert(encoded@.take(8) == b.take(8));
                    assert(encoded@[0] == b.take(8)[0]);
                    assert(encoded@[1] == b.take(8)[1]);
                    assert(encoded@[2] == b.take(8)[2]);
                    assert(encoded@[3] == b.take(8)[3]);
                    assert(encoded@[4] == b.take(8)[4]);
                    assert(encoded@[5] == b.take(8)[5]);
                    assert(encoded@[6] == b.take(8)[6]);
                    assert(encoded@[7] == b.take(8)[7]);
                }
            }
            return Err(function_error(text("function artifact record header is invalid")));
        }
        let version_ok = encoded[8] == 0 && encoded[9] == 1;
        if !version_ok {
            proof {
                assert forall|m: FunctionArtifactMediaTypeRecord, c: Seq<u8>| #[trigger] artifact_bytes(m, c) == encoded@
                    implies !is_valid_artifact(expected_sha256@, c) by {
                    let b = artifact_bytes(m, c);
                    lemma_be16_one();
                    assert(b[8] == be16(1u16)[0] && b[9] == be16(1u16)[1]);
                }
            }
            return Err(function_error(text("function artifact record version is unsupported")));
        }
        let media_type = match FunctionArtifactMediaTypeRecord::from_tag(encoded[10]) {
            Ok(m) => m,
            Err(e) => {
                proof {
                    assert forall|m: FunctionArtifactMediaTypeRecord, c: Seq<u8>| #[trigger] artifact_bytes(m, c) == encoded@
                        implies !is_valid_artifact(expected_sha256@, c) by {
                        let b = artifact_bytes(m, c);
                        assert(b[10] == m.spec_tag());
                    }
                }
                return Err(e);
            },
        };
        let length = read_be32(encoded, 11);
        let mut content: Vec<u8> = Vec::new();
        let mut i: usize = 15;
        while i < encoded.len()
            invariant
                15 <= i <= encoded@.len(),
                content@ == encoded@.subrange(15, i as int),
            decreases encoded@.len() - i,
        {
            content.push(encoded[i]);
            i = i + 1;
            assert(content@ =~= encoded@.subrange(15, i as int));
        }
        proof {
            lemma_be32_round_trip(length, encoded@.subrange(11, 15));
        }
        if content.len() as u64 != length as u64 {
            proof {
                assert forall|m: FunctionArtifactMediaTypeRecord, c: Seq<u8>| #[trigger] artifact_bytes(m, c) == encoded@
                    implies !is_valid_artifact(expected_sha256@, c) by {
                    let b = artifact_bytes(m, c);
                    assert(b.subrange(15, b.len() as int) =~= c);
                    assert(c == content@);
                    if is_valid_artifact(expected_sha256@, c) {
                        assert(c.len() <= MAX_FUNCTION_ARTIFACT_BYTES);
                        assert(b.subrange(11, 15) =~= be32(c.len() as u32));
                        lemma_be32_round_trip(c.len() as u32, encoded@.subrange(11, 15));
                    }
                }
            }
            return Err(function_error(text("function artifact record length is invalid")));
        }
        let record = FunctionArtifactRecord { content_sha256: text(expected_sha256), media_type, content };
        proof {
            lemma_be16_one();
            assert(content@.len() as u32 == length);
            assert(be32(length) == encoded@.subrange(11, 15));
            let b = artifact_bytes(media_type, record.content@);
            assert(b.len() == encoded@.len());
            assert forall|j: int| 0 <= j < b.len() implies b[j] == encoded@[j] by {
                if j >= 11 && j < 15 {
                    assert(b[j] == be32(length)[j - 11]);
                    assert(encoded@.subrange(11, 15)[j - 11] == encoded@[j]);
                } else if j >= 15 {
                    assert(b[j] == record.content@[j - 15]);
                    assert(encoded@.subrange(15, encoded@.len() as int)[j - 15] == encoded@[j]);
                }
            }
            assert(encoded@ =~= b);
        }
        match record.validate() {
            Ok(()) => Ok(record),
            Err(e) => {
                proof {
                    assert forall|m: FunctionArtifactMediaTypeRecord, c: Seq<u8>| #[trigger] artifact_bytes(m, c) == encoded@
                        implies !is_valid_artifact(expected_sha256@, c) by {
                        let b = artifact_bytes(m, c);
                        assert(b.subrange(15, b.len() as int) =~= c);
                        assert(encoded@.subrange(15, encoded@.len() as int) == record.content@);
                    }
                }
                Err(e)
            },
        }
    }
}

/// Decoding what `encode` stored under the artifact's own address gives the
/// artifact back.
pub proof fn lemma_artifact_round_trip(record: FunctionArtifactRecord, bytes: Seq<u8>, decoded: FunctionArtifactRecord)
    requires
        is_valid_artifact(record.content_sha256@, record.content@),
        bytes == artifact_bytes(record.media_type, record.content@),
        bytes == artifact_bytes(decoded.media_type, decoded.content@),
        decoded.content_sha256@ == record.content_sha256@,
    ensures
        decoded.media_type == record.media_type,
        decoded.content@ == record.content@,
{
    assert(bytes[10] == record.media_type.spec_tag());
    assert(bytes[10] == decoded.media_type.spec_tag());
    assert(bytes.subrange(15, bytes.len() as int) =~= record.content@);
    assert(bytes.subrange(15, bytes.len() as int) =~= decoded.content@);
}

/// The bytes of an optional string.
pub open spec fn opt_string_utf8(o: Option<String>) -> Option<Seq<u8>> {
    match o {
        Some(s) => Some(utf8(s@)),
        None => None,
    }
}

/// A borrowed view of an optional string.
pub(crate) fn opt_str(o: &Option<String>) -> (r: Option<&str>)
    ensures
        opt_utf8(r) == opt_string_utf8(*o),
        match (r, *o) {
            (Some(a), Some(b)) => a@ == b@,
            (None, None) => true,
            _ => false,
        },
{
    match o {
        Some(s) => Some(s.as_str()),
        None => None,
    }
}

/// An immutable, individually addressed function definition.
#[derive(Debug, Clone, PartialEq, Eq)]
pub struct FunctionDefinitionRecord {
    pub format_version: u16,
    pub function_id: String,
    pub revision: u64,
    pub predecessor_sha256: Option<String>,
    pub artifact_sha256: String,
    pub runtime_profile: String,
    pub runtime_build_sha256: String,
    pub input_schema_sha256: String,
    pub output_schema_sha256: String,
    pub definition_sha256: String,
    pub canonical_definition_json: String,
}

/// Every constraint of a stored definition holds.
pub open spec fn is_valid_definition(d: FunctionDefinitionRecord) -> bool {
    &&& d.format_version == FUNCTION_CATALOGUE_STATE_FORMAT_VERSION
    &&& is_coordinate(utf8(d.function_id@))
    &&& is_revision_chain(d.revision, opt_string_utf8(d.predecessor_sha256))
    &&& is_coordinate(utf8(d.runtime_profile@))
    &&& is_sha256_text(utf8(d.artifact_sha256@))
    &&& is_sha256_text(utf8(d.runtime_build_sha256@))
    &&& is_sha256_text(utf8(d.input_schema_sha256@))
    &&& is_sha256_text(utf8(d.output_schema_sha256@))
    &&& is_sha256_text(utf8(d.definition_sha256@))
    &&& is_canonical_json(d.canonical_definition_json@, d.definition_sha256@)
}

impl FunctionDefinitionRecord {
    /// Checks every constraint of the definition.
    pub fn validate(&self) -> (r: Result<()>)
        ensures
            r is Ok <==> is_valid_definition(*self),
            r matches Err(e) ==> e is FunctionConstraint || (e is Codec && !is_json_text(self.canonical_definition_json@)),
    {
        validate_record_version(self.format_version, "function definition")?;
        validate_coordinate(self.function_id.as_str(), "function identity")?;
        validate_revision(self.revision, opt_str(&self.predecessor_sha256), "definition")?;
        validate_coordinate(self.runtime_profile.as_str(), "function runtime profile")?;
        validate_sha256(self.artifact_sha256.as_str(), "function artifact")?;
        validate_sha256(self.runtime_build_sha256.as_str(), "function runtime build")?;
        validate_sha256(self.input_schema_sha256.as_str(), "function input schema")?;
        validate_sha256(self.output_schema_sha256.as_str(), "function output schema")?;
        validate_sha256(self.definition_sha256.as_str(), "function definition")?;
        validate_canonical_json(self.canonical_definition_json.as_str(), self.definition_sha256.as_str(), "function definition")
    }
}

/// An immutable transaction binding of a function definition.
#[derive(Debug, Clone, PartialEq, Eq)]
pub struct TransactionFunctionBindingRecord {
    pub format_version: u16,
    pub binding_id: String,
    pub revision: u64,
    pub predecessor_sha256: Option<String>,
    pub function_id: String,
    pub function_definition_sha256: String,
    pub binding_sha256: String,
    pub canonical_binding_json: String,
}

/// Every constraint of a stored binding holds.
pub open spec fn is_valid_binding(b: TransactionFunctionBindingRecord) -> bool {
    &&& b.format_version == FUNCTION_CATALOGUE_STATE_FORMAT_VERSION
    &&& is_coordinate(utf8(b.binding_id@))
    &&& is_coordinate(utf8(b.function_id@))
    &&& is_revision_chain(b.revision, opt_string_utf8(b.predecessor_sha256))
    &&& is_sha256_text(utf8(b.function_definition_sha256@))
    &&& is_sha256_text(utf8(b.binding_sha256@))
    &&& is_canonical_json(b.canonical_binding_json@, b.binding_sha256@)
}

impl TransactionFunctionBindingRecord {
    /// Checks every constraint of the binding.
    pub fn validate(&self) -> (r: Result<()>)
        ensures
            r is Ok <==> is_valid_binding(*self),
    {
        validate_record_version(self.format_version, "transaction function binding")?;
        validate_coordinate(self.binding_id.as_str(), "transaction function binding identity")?;
        validate_coordinate(self.function_id.as_str(), "function identity")?;
        validate_revision(self.revision, opt_str(&self.predecessor_sha256), "binding")?;
        validate_sha256(self.function_definition_sha256.as_str(), "transaction function definition")?;
        validate_sha256(self.binding_sha256.as_str(), "transaction function binding")?;
        validate_canonical_json(self.canonical_binding_json.as_str(), self.binding_sha256.as_str(), "transaction function binding")
    }
}

/// The views of a list of strings.
pub open spec fn string_views(s: Seq<String>) -> Seq<Seq<char>> {
    s.map_values(|x: String| x@)
}

/// The views of a list of string pairs.
pub open spec fn pair_views(s: Seq<(String, String)>) -> Seq<(Seq<char>, Seq<char>)> {
    s.map_values(|x: (String, String)| (x.0@, x.1@))
}

/// Strings in strictly ascending byte order: a set kept sorted.
pub open spec fn strings_ascending(s: Seq<String>) -> bool {
    forall|i: int, j: int| 0 <= i < j < s.len() ==> lex_lt(#[trigger] utf8(s[i]@), #[trigger] utf8(s[j]@))
}

/// Pairs in strictly ascending byte order of their keys: a map kept sorted.
pub open spec fn pairs_ascending(s: Seq<(String, String)>) -> bool {
    forall|i: int, j: int| 0 <= i < j < s.len() ==> lex_lt(#[trigger] utf8(s[i].0@), #[trigger] utf8(s[j].0@))
}

/// Whether `list` holds a string equal to `x`.
pub(crate) fn contains_string(list: &Vec<String>, x: &String) -> (found: bool)
    ensures
        found == string_views(list@).contains(x@),
{
    let mut i: usize = 0;
    while i < list.len()
        invariant
            i <= list@.len(),
            forall|j: int| 0 <= j < i ==> list@[j]@ != x@,
        decreases list@.len() - i,
    {
        if list[i] == *x {
            proof {
                assert(string_views(list@)[i as int] == x@);
            }
            return true;
        }
        i = i + 1;
    }
    proof {
        if string_views(list@).contains(x@) {
            let j = choose|j: int| 0 <= j < string_views(list@).len() && string_views(list@)[j] == x@;
            assert(list@[j]@ == x@);
        }
    }
    false
}

/// Whether `list` holds the pair `(k, v)`.
fn contains_pair(list: &Vec<(String, String)>, k: &String, v: &String) -> (found: bool)
    ensures
        found == pair_views(list@).contains((k@, v@)),
{
    let mut i: usize = 0;
    while i < list.len()
        invariant
            i <= list@.len(),
            forall|j: int| 0 <= j < i ==> (list@[j].0@, list@[j].1@) != (k@, v@),
        decreases list@.len() - i,
    {
        if list[i].0 == *k && list[i].1 == *v {
            proof {
                assert(pair_views(list@)[i as int] == (k@, v@));
            }
            return true;
        }
        i = i + 1;
    }
    proof {
        if pair_views(list@).contains((k@, v@)) {
            let j = choose|j: int| 0 <= j < pair_views(list@).len() && pair_views(list@)[j] == (k@, v@);
            assert((list@[j].0@, list@[j].1@) == (k@, v@));
        }
    }
    false
}

/// The membership of one catalogue revision: identities and digests only.
/// Artifacts form a set and the definition and binding digests are maps by
/// identity; each is kept in ascending byte order of its keys.
#[derive(Debug, Clone, PartialEq, Eq)]
pub struct FunctionCatalogueMembershipRecord {
    pub format_version: u16,
    pub revision: u64,
    pub predecessor_sha256: Option<String>,
    pub catalogue_sha256: String,
    pub artifact_sha256: Vec<String>,
    pub function_definition_sha256: Vec<(String, String)>,
    pub transaction_binding_sha256: Vec<(String, String)>,
    pub published_at_unix_ms: u64,
    pub published_by: String,
    pub request_id: String,
    pub operation_id: String,
    pub membership_sha256: String,
}

/// Every constraint of a membership apart from its own digest holds.
pub open spec fn membership_components_valid(m: FunctionCatalogueMembershipRecord) -> bool {
    &&& m.format_version == FUNCTION_CATALOGUE_STATE_FORMAT_VERSION
    &&& is_revision_chain(m.revision, opt_string_utf8(m.predecessor_sha256))
    &&& is_sha256_text(utf8(m.catalogue_sha256@))
    &&& m.published_at_unix_ms != 0
    &&& is_coordinate(utf8(m.published_by@))
    &&& is_coordinate(utf8(m.request_id@))
    &&& is_coordinate(utf8(m.operation_id@))
    &&& strings_ascending(m.artifact_sha256@)
    &&& forall|i: int| 0 <= i < m.artifact_sha256@.len() ==> is_sha256_text(utf8(#[trigger] m.artifact_sha256@[i]@))
    &&& is_digest_map(m.function_definition_sha256@)
    &&& is_digest_map(m.transaction_binding_sha256@)
}

/// A membership whose digest is the SHA-256 of its serialized form without
/// the digest, `unsigned_json`.
pub open spec fn membership_valid(m: FunctionCatalogueMembershipRecord, unsigned_json: Seq<u8>) -> bool {
    &&& membership_components_valid(m)
    &&& is_sha256_text(utf8(m.membership_sha256@))
    &&& sha256_hex_text(unsigned_json) == m.membership_sha256@
}

/// Checks that a list of strings ascends strictly; each is then checked by `check`.
fn strings_strictly_ascending(list: &Vec<String>) -> (ok: bool)
    ensures
        ok == strings_ascending(list@),
{
    let mut i: usize = 1;
    if list.len() == 0 {
        return true;
    }
    while i < list.len()
        invariant
            1 <= i <= list@.len(),
            forall|a: int, b: int| 0 <= a < b < i ==> lex_lt(#[trigger] utf8(list@[a]@), #[trigger] utf8(list@[b]@)),
        decreases list@.len() - i,
    {
        if !bytes_lt(list[i - 1].as_str().as_bytes(), list[i].as_str().as_bytes()) {
            proof {
                assert(!lex_lt(utf8(list@[i - 1]@), utf8(list@[i as int]@)));
            }
            return false;
        }
        proof {
            assert forall|a: int, b: int| 0 <= a < b < i + 1 implies lex_lt(#[trigger] utf8(list@[a]@), #[trigger] utf8(list@[b]@)) by {
                if b == i as int && a < i - 1 {
                    crate::bytes::lemma_lex_lt_transitive(utf8(list@[a]@), utf8(list@[i - 1]@), utf8(list@[b]@));
                }
            }
        }
        i = i + 1;
    }
    true
}

/// Checks that a list of pairs ascends strictly by key.
fn pairs_strictly_ascending(list: &Vec<(String, String)>) -> (ok: bool)
    ensures
        ok == pairs_ascending(list@),
{
    let mut i: usize = 1;
    if list.len() == 0 {
        return true;
    }
    while i < list.len()
        invariant
            1 <= i <= list@.len(),
            forall|a: int, b: int| 0 <= a < b < i ==> lex_lt(#[trigger] utf8(list@[a].0@), #[trigger] utf8(list@[b].0@)),
        decreases list@.len() - i,
    {
        if !bytes_lt(list[i - 1].0.as_str().as_bytes(), list[i].0.as_str().as_bytes()) {
            proof {
                assert(!lex_lt(utf8(list@[i - 1].0@), utf8(list@[i as int].0@)));
            }
            return false;
        }
        proof {
            assert forall|a: int, b: int| 0 <= a < b < i + 1 implies lex_lt(#[trigger] utf8(list@[a].0@), #[trigger] utf8(list@[b].0@)) by {
                if b == i as int && a < i - 1 {
                    crate::bytes::lemma_lex_lt_transitive(utf8(list@[a].0@), utf8(list@[i - 1].0@), utf8(list@[b].0@));
                }
            }
        }
        i = i + 1;
    }
    true
}

/// A digest map kept as pairs: keys ascend strictly, every key is a bounded
/// identity and every value a SHA-256.
pub open spec fn is_digest_map(list: Seq<(String, String)>) -> bool {
    &&& pairs_ascending(list)
    &&& forall|i: int| 0 <= i < list.len() ==> is_digest_pair(#[trigger] list[i])
}

/// An identity and its digest.
pub open spec fn is_digest_pair(p: (String, String)) -> bool {
    is_coordinate(utf8(p.0@)) && is_sha256_text(utf8(p.1@))
}

/// Checks a digest map; the errors name its identities and digests.
#[verifier::spinoff_prover]
fn validate_digest_map(list: &Vec<(String, String)>, identity_name: &str, digest_name: &str) -> (r: Result<()>)
    ensures
        r is Ok <==> is_digest_map(list@),
{
    if !pairs_strictly_ascending(list) {
        return Err(function_error(join(identity_name, " is not strictly ordered")));
    }
    let mut i: usize = 0;
    while i < list.len()
        invariant
            i <= list@.len(),
            pairs_ascending(list@),
            forall|j: int| 0 <= j < i ==> is_digest_pair(#[trigger] list@[j]),
        decreases list@.len() - i,
    {
        let pair = &list[i];
        validate_coordinate(pair.0.as_str(), identity_name)?;
        validate_sha256(pair.1.as_str(), digest_name)?;
        proof {
            assert(*pair == list@[i as int]);
            assert(is_digest_pair(list@[i as int]));
        }
        i = i + 1;
    }
    Ok(())
}

impl FunctionCatalogueMembershipRecord {
    /// Checks every constraint apart from the digest.
    pub fn validate_components(&self) -> (r: Result<()>)
        ensures
            r is Ok <==> membership_components_valid(*self),
    {
        validate_record_version(self.format_version, "function catalogue membership")?;
        validate_revision(self.revision, opt_str(&self.predecessor_sha256), "catalogue membership")?;
        validate_sha256(self.catalogue_sha256.as_str(), "function catalogue")?;
        if self.published_at_unix_ms == 0 {
            return Err(function_error(text("function catalogue publication time must be non-zero")));
        }
        validate_coordinate(self.published_by.as_str(), "function catalogue publisher")?;
        validate_coordinate(self.request_id.as_str(), "function catalogue request")?;
        validate_coordinate(self.operation_id.as_str(), "function catalogue operation")?;
        if !strings_strictly_ascending(&self.artifact_sha256) {
            return Err(function_error(text("function catalogue artifact membership is not a strictly ordered set")));
        }
        let mut i: usize = 0;
        while i < self.artifact_sha256.len()
            invariant
                i <= self.artifact_sha256@.len(),
                forall|j: int| 0 <= j < i ==> is_sha256_text(utf8(#[trigger] self.artifact_sha256@[j]@)),
            decreases self.artifact_sha256@.len() - i,
        {
            validate_sha256(self.artifact_sha256[i].as_str(), "function catalogue artifact membership")?;
            i = i + 1;
        }
        validate_digest_map(&self.function_definition_sha256, "function membership identity", "function membership definition")?;
        validate_digest_map(&self.transaction_binding_sha256, "function binding membership identity", "function binding membership")?;
        Ok(())
    }

    /// Checks the membership and its digest over `unsigned_json`, the
    /// membership serialized with an empty digest.
    pub fn validate(&self, unsigned_json: &[u8]) -> (r: Result<()>)
        ensures
            r is Ok <==> membership_valid(*self, unsigned_json@),
    {
        self.validate_components()?;
        validate_sha256(self.membership_sha256.as_str(), "function catalogue membership")?;
        if sha256_hex(unsigned_json) != self.membership_sha256 {
            return Err(function_error(text("function catalogue membership digest does not match its fields")));
        }
        Ok(())
    }

    /// The membership with its digest set to the SHA-256 of `unsigned_json`,
    /// the membership serialized with an empty digest.
    pub fn seal(self, unsigned_json: &[u8]) -> (r: Result<Self>)
        ensures
            match r {
                Ok(m) => membership_components_valid(self) && m == (FunctionCatalogueMembershipRecord {
                    membership_sha256: m.membership_sha256,
                    ..self
                }) && m.membership_sha256@ == sha256_hex_text(unsigned_json@),
                Err(_) => !membership_components_valid(self),
            },
    {
        self.validate_components()?;
        let digest = sha256_hex(unsigned_json);
        Ok(FunctionCatalogueMembershipRecord { membership_sha256: digest, ..self })
    }
}

/// The compare-and-swap head that selects the active membership.
#[derive(Debug, Clone, PartialEq, Eq)]
pub struct FunctionCatalogueHeadRecord {
    pub format_version: u16,
    pub revision: u64,
    pub catalogue_sha256: String,
    pub membership_sha256: String,
}

/// Every constraint of a head holds.
pub open spec fn is_valid_head(h: FunctionCatalogueHeadRecord) -> bool {
    &&& h.format_version == FUNCTION_CATALOGUE_STATE_FORMAT_VERSION
    &&& h.revision != 0
    &&& is_sha256_text(utf8(h.catalogue_sha256@))
    &&& is_sha256_text(utf8(h.membership_sha256@))
}

impl FunctionCatalogueHeadRecord {
    /// Checks every constraint of the head.
    pub fn validate(&self) -> (r: Result<()>)
        ensures
            r is Ok <==> is_valid_head(*self),
            r matches Err(e) ==> e is FunctionConstraint,
    {
        validate_record_version(self.format_version, "function catalogue head")?;
        if self.revision == 0 {
            return Err(function_error(text("function catalogue head revision must be non-zero")));
        }
        validate_sha256(self.catalogue_sha256.as_str(), "function catalogue head catalogue")?;
        validate_sha256(self.membership_sha256.as_str(), "function catalogue head membership")
    }
}

/// The addresses of the published artifacts, in order.
pub open spec fn artifact_addresses(artifacts: Seq<FunctionArtifactRecord>) -> Seq<Seq<char>> {
    Seq::new(artifacts.len(), |i: int| artifacts[i].content_sha256@)
}

/// The `(function identity, definition digest)` pairs of the published definitions.
pub open spec fn definition_pairs(definitions: Seq<FunctionDefinitionRecord>) -> Seq<(Seq<char>, Seq<char>)> {
    Seq::new(definitions.len(), |i: int| (definitions[i].function_id@, definitions[i].definition_sha256@))
}

/// The `(binding identity, binding digest)` pairs of the published bindings.
pub open spec fn binding_pairs(bindings: Seq<TransactionFunctionBindingRecord>) -> Seq<(Seq<char>, Seq<char>)> {
    Seq::new(bindings.len(), |i: int| (bindings[i].binding_id@, bindings[i].binding_sha256@))
}

/// No two pairs share a key.
pub open spec fn keys_distinct(pairs: Seq<(Seq<char>, Seq<char>)>) -> bool {
    forall|i: int, j: int| 0 <= i < j < pairs.len() ==> (#[trigger] pairs[i]).0 != (#[trigger] pairs[j]).0
}

/// One complete catalogue publication: the next membership and the records it names.
#[derive(Debug, Clone, PartialEq, Eq)]
pub struct FunctionCataloguePublication {
    pub expected_revision: u64,
    pub membership: FunctionCatalogueMembershipRecord,
    pub artifacts: Vec<FunctionArtifactRecord>,
    pub definitions: Vec<FunctionDefinitionRecord>,
    pub bindings: Vec<TransactionFunctionBindingRecord>,
}

/// A publication is acceptable: its membership is valid and next after the
/// expected revision; its records are valid and each identity occurs once;
/// every definition names a published artifact and every binding the exact
/// member definition of its function; and the records are exactly those the
/// membership lists.
pub open spec fn publication_valid(p: FunctionCataloguePublication, membership_unsigned_json: Seq<u8>) -> bool {
    let artifacts = artifact_addresses(p.artifacts@);
    let definitions = definition_pairs(p.definitions@);
    let bindings = binding_pairs(p.bindings@);
    &&& membership_valid(p.membership, membership_unsigned_json)
    &&& p.expected_revision < u64::MAX
    &&& p.membership.revision == p.expected_revision + 1
    &&& forall|i: int| 0 <= i < p.artifacts@.len() ==> is_valid_artifact(#[trigger] p.artifacts@[i].content_sha256@, p.artifacts@[i].content@)
    &&& artifacts.no_duplicates()
    &&& artifacts.to_set() == string_views(p.membership.artifact_sha256@).to_set()
    &&& forall|i: int| 0 <= i < p.definitions@.len() ==> is_valid_definition(#[trigger] p.definitions@[i])
    &&& keys_distinct(definitions)
    &&& forall|i: int| 0 <= i < p.definitions@.len() ==> artifacts.contains(#[trigger] p.definitions@[i].artifact_sha256@)
    &&& definitions.to_set() == pair_views(p.membership.function_definition_sha256@).to_set()
    &&& forall|i: int| 0 <= i < p.bindings@.len() ==> is_valid_binding(#[trigger] p.bindings@[i])
    &&& keys_distinct(bindings)
    &&& forall|i: int| 0 <= i < p.bindings@.len() ==> definitions.contains((#[trigger] p.bindings@[i].function_id@, p.bindings@[i].function_definition_sha256@))
    &&& bindings.to_set() == pair_views(p.membership.transaction_binding_sha256@).to_set()
}

/// Checks that `list` and `pairs` hold the same pairs, both ways round.
fn same_pairs(list: &Vec<(String, String)>, Ghost(pairs): Ghost<Seq<(Seq<char>, Seq<char>)>>, keys: &Vec<String>, values: &Vec<String>) -> (same: bool)
    requires
        keys@.len() == pairs.len(),
        values@.len() == pairs.len(),
        forall|i: int| 0 <= i < pairs.len() ==> #[trigger] pairs[i] == (keys@[i]@, values@[i]@),
    ensures
        same == (pairs.to_set() == pair_views(list@).to_set()),
{
    let mut i: usize = 0;
    while i < keys.len()
        invariant
            i <= pairs.len(),
            keys@.len() == pairs.len(),
            values@.len() == pairs.len(),
            forall|q: int| 0 <= q < pairs.len() ==> #[trigger] pairs[q] == (keys@[q]@, values@[q]@),
            forall|q: int| 0 <= q < i ==> pair_views(list@).contains(#[trigger] pairs[q]),
        decreases pairs.len() - i,
    {
        if !contains_pair(list, &keys[i], &values[i]) {
            proof {
                assert(pairs.to_set().contains(pairs[i as int]));
                assert(!pair_views(list@).to_set().contains(pairs[i as int]));
            }
            return false;
        }
        i = i + 1;
    }
    let mut j: usize = 0;
    while j < list.len()
        invariant
            j <= list@.len(),
            keys@.len() == pairs.len(),
            values@.len() == pairs.len(),
            forall|q: int| 0 <= q < pairs.len() ==> #[trigger] pairs[q] == (keys@[q]@, values@[q]@),
            forall|q: int| 0 <= q < pairs.len() ==> pair_views(list@).contains(#[trigger] pairs[q]),
            forall|q: int| 0 <= q < j ==> pairs.contains(#[trigger] pair_views(list@)[q]),
        decreases list@.len() - j,
    {
        let mut found = false;
        let mut k: usize = 0;
        while k < keys.len()
            invariant
                k <= pairs.len(),
                j < list@.len(),
                keys@.len() == pairs.len(),
                values@.len() == pairs.len(),
                forall|q: int| 0 <= q < pairs.len() ==> #[trigger] pairs[q] == (keys@[q]@, values@[q]@),
                found ==> pairs.contains(pair_views(list@)[j as int]),
                !found ==> forall|q: int| 0 <= q < k ==> #[trigger] pairs[q] != pair_views(list@)[j as int],
            decreases pairs.len() - k,
        {
            if !found && keys[k] == list[j].0 && values[k] == list[j].1 {
                proof {
                    assert(pairs[k as int] == pair_views(list@)[j as int]);
                }
                found = true;
            }
            k = k + 1;
        }
        if !found {
            proof {
                let x = pair_views(list@)[j as int];
                assert(pair_views(list@).to_set().contains(x));
                assert(!pairs.to_set().contains(x));
            }
            return false;
        }
        j = j + 1;
    }
    proof {
        assert forall|x: (Seq<char>, Seq<char>)| pairs.to_set().contains(x) == pair_views(list@).to_set().contains(x) by {
            if pairs.contains(x) {
                let q = choose|q: int| 0 <= q < pairs.len() && pairs[q] == x;
                assert(pair_views(list@).contains(pairs[q]));
            }
            if pair_views(list@).contains(x) {
                let q = choose|q: int| 0 <= q < pair_views(list@).len() && pair_views(list@)[q] == x;
                assert(pairs.contains(pair_views(list@)[q]));
            }
        }
        assert(pairs.to_set() =~= pair_views(list@).to_set());
    }
    true
}

impl FunctionCataloguePublication {
    /// Checks the whole publication; `membership_unsigned_json` is its
    /// membership serialized with an empty digest.
    pub fn validate(&self, membership_unsigned_json: &[u8]) -> (r: Result<()>)
        ensures
            r is Ok <==> publication_valid(*self, membership_unsigned_json@),
            membership_valid(self.membership, membership_unsigned_json@) && self.expected_revision == u64::MAX
                ==> r == Err::<(), Error>(Error::SequenceOverflow),
            membership_valid(self.membership, membership_unsigned_json@) && self.expected_revision < u64::MAX
                && self.membership.revision != self.expected_revision + 1 ==> r matches Err(Error::FunctionConstraint(_)),
    {
        self.membership.validate(membership_unsigned_json)?;
        let next = match self.expected_revision.checked_add(1) {
            Some(n) => n,
            None => {
                return Err(Error::SequenceOverflow);
            },
        };
        if self.membership.revision != next {
            return Err(function_error(text("function catalogue membership does not follow expected revision")));
        }
        let ghost artifacts_spec = artifact_addresses(self.artifacts@);
        let mut addresses: Vec<String> = Vec::new();
        let mut i: usize = 0;
        while i < self.artifacts.len()
            invariant
                self.expected_revision < u64::MAX,
                self.membership.revision == self.expected_revision + 1,
                i <= self.artifacts@.len(),
                artifacts_spec == artifact_addresses(self.artifacts@),
                addresses@.len() == i,
                forall|q: int| 0 <= q < i ==> (#[trigger] addresses@[q])@ == artifacts_spec[q],
                forall|q: int| 0 <= q < i ==> is_valid_artifact(#[trigger] self.artifacts@[q].content_sha256@, self.artifacts@[q].content@),
                artifacts_spec.take(i as int).no_duplicates(),
            decreases self.artifacts@.len() - i,
        {
            let artifact = &self.artifacts[i];
            artifact.validate()?;
            if contains_string(&addresses, &artifact.content_sha256) {
                proof {
                    let w = choose|w: int| 0 <= w < string_views(addresses@).len() && string_views(addresses@)[w] == artifact.content_sha256@;
                    assert(artifacts_spec[w] == artifacts_spec[i as int]);
                }
                return Err(function_error(text("function publication repeats an artifact")));
            }
            proof {
                assert forall|q: int| 0 <= q < i implies artifacts_spec[q] != artifacts_spec[i as int] by {
                    assert(string_views(addresses@)[q] == addresses@[q]@);
                }
                assert(artifacts_spec.take(i + 1) =~= artifacts_spec.take(i as int).push(artifacts_spec[i as int]));
            }
            addresses.push(artifact.content_sha256.clone());
            i = i + 1;
        }
        proof {
            assert(artifacts_spec.take(i as int) =~= artifacts_spec);
            assert(string_views(addresses@) =~= artifacts_spec);
        }
        let ghost member_views = string_views(self.membership.artifact_sha256@);
        let mut i: usize = 0;
        while i < addresses.len()
            invariant
                self.expected_revision < u64::MAX,
                self.membership.revision == self.expected_revision + 1,
                i <= addresses@.len(),
                string_views(addresses@) == artifacts_spec,
                artifacts_spec == artifact_addresses(self.artifacts@),
                member_views == string_views(self.membership.artifact_sha256@),
                forall|q: int| 0 <= q < i ==> member_views.contains(#[trigger] artifacts_spec[q]),
            decreases addresses@.len() - i,
        {
            if !contains_string(&self.membership.artifact_sha256, &addresses[i]) {
                proof {
                    assert(artifacts_spec[i as int] == addresses@[i as int]@);
                    assert(artifacts_spec.to_set().contains(artifacts_spec[i as int]));
                    assert(!member_views.to_set().contains(artifacts_spec[i as int]));
                    assert(artifacts_spec.to_set() != member_views.to_set());
                    assert(artifact_addresses(self.artifacts@) == artifacts_spec);
                    assert(!publication_valid(*self, membership_unsigned_json@));
                }
                return Err(function_error(text("function publication artifacts do not match membership")));
            }
            proof {
                assert(artifacts_spec[i as int] == addresses@[i as int]@);
            }
            i = i + 1;
        }
        let mut i: usize = 0;
        while i < self.membership.artifact_sha256.len()
            invariant
                self.expected_revision < u64::MAX,
                self.membership.revision == self.expected_revision + 1,
                i <= member_views.len(),
                string_views(addresses@) == artifacts_spec,
                artifacts_spec == artifact_addresses(self.artifacts@),
                member_views == string_views(self.membership.artifact_sha256@),
                forall|q: int| 0 <= q < i ==> artifacts_spec.contains(#[trigger] member_views[q]),
            decreases member_views.len() - i,
        {
            if !contains_string(&addresses, &self.membership.artifact_sha256[i]) {
                proof {
                    assert(member_views[i as int] == self.membership.artifact_sha256@[i as int]@);
                    assert(member_views.to_set().contains(member_views[i as int]));
                    assert(!artifacts_spec.to_set().contains(member_views[i as int]));
                    assert(artifacts_spec.to_set() != member_views.to_set());
                    assert(artifact_addresses(self.artifacts@) == artifacts_spec);
                    assert(!publication_valid(*self, membership_unsigned_json@));
                }
                return Err(function_error(text("function publication artifacts do not match membership")));
            }
            proof {
                assert(member_views[i as int] == self.membership.artifact_sha256@[i as int]@);
            }
            i = i + 1;
        }
        proof {
            assert forall|x: Seq<char>| artifacts_spec.to_set().contains(x) == member_views.to_set().contains(x) by {
                if artifacts_spec.contains(x) {
                    let q = choose|q: int| 0 <= q < artifacts_spec.len() && artifacts_spec[q] == x;
                    assert(member_views.contains(artifacts_spec[q]));
                }
                if member_views.contains(x) {
                    let q = choose|q: int| 0 <= q < member_views.len() && member_views[q] == x;
                    assert(artifacts_spec.contains(member_views[q]));
                }
            }
            assert(artifacts_spec.to_set() =~= member_views.to_set());
        }
        let ghost defs_spec = definition_pairs(self.definitions@);
        let mut def_ids: Vec<String> = Vec::new();
        let mut def_digests: Vec<String> = Vec::new();
        let mut i: usize = 0;
        while i < self.definitions.len()
            invariant
                self.expected_revision < u64::MAX,
                self.membership.revision == self.expected_revision + 1,
                i <= self.definitions@.len(),
                defs_spec == definition_pairs(self.definitions@),
                string_views(addresses@) == artifacts_spec,
                artifacts_spec == artifact_addresses(self.artifacts@),
                def_ids@.len() == i,
                def_digests@.len() == i,
                forall|q: int| 0 <= q < i ==> (#[trigger] def_ids@[q])@ == defs_spec[q].0 && def_digests@[q]@ == defs_spec[q].1,
                forall|q: int| 0 <= q < i ==> is_valid_definition(#[trigger] self.definitions@[q]),
                forall|q: int| 0 <= q < i ==> artifacts_spec.contains(#[trigger] self.definitions@[q].artifact_sha256@),
                keys_distinct(defs_spec.take(i as int)),
            decreases self.definitions@.len() - i,
        {
            let definition = &self.definitions[i];
            definition.validate()?;
            if contains_string(&def_ids, &definition.function_id) {
                proof {
                    let w = choose|w: int| 0 <= w < string_views(def_ids@).len() && string_views(def_ids@)[w] == definition.function_id@;
                    assert(defs_spec[w].0 == defs_spec[i as int].0);
                }
                return Err(function_error(text("function publication repeats a definition")));
            }
            if !contains_string(&addresses, &definition.artifact_sha256) {
                proof {
                    assert(*definition == self.definitions@[i as int]);
                    assert(!artifacts_spec.contains(self.definitions@[i as int].artifact_sha256@));
                }
                return Err(function_error(text("function definition references an absent publication artifact")));
            }
            proof {
                assert forall|q: int| 0 <= q < i implies defs_spec[q].0 != defs_spec[i as int].0 by {
                    assert(string_views(def_ids@)[q] == def_ids@[q]@);
                }
                let t = defs_spec.take(i + 1);
                assert(t =~= defs_spec.take(i as int).push(defs_spec[i as int]));
                assert forall|a: int, b: int| 0 <= a < b < t.len() implies (#[trigger] t[a]).0 != (#[trigger] t[b]).0 by {
                    if b < i {
                        assert(defs_spec.take(i as int)[a] == t[a]);
                        assert(defs_spec.take(i as int)[b] == t[b]);
                    }
                }
            }
            def_ids.push(definition.function_id.clone());
            def_digests.push(definition.definition_sha256.clone());
            i = i + 1;
        }
        proof {
            assert(defs_spec.take(i as int) =~= defs_spec);
        }
        if !same_pairs(&self.membership.function_definition_sha256, Ghost(defs_spec), &def_ids, &def_digests) {
            return Err(function_error(text("function publication definitions do not match membership")));
        }
        let ghost binds_spec = binding_pairs(self.bindings@);
        let mut bind_ids: Vec<String> = Vec::new();
        let mut bind_digests: Vec<String> = Vec::new();
        let mut i: usize = 0;
        while i < self.bindings.len()
            invariant
                self.expected_revision < u64::MAX,
                self.membership.revision == self.expected_revision + 1,
                i <= self.bindings@.len(),
                binds_spec == binding_pairs(self.bindings@),
                defs_spec == definition_pairs(self.definitions@),
                def_ids@.len() == defs_spec.len(),
                def_digests@.len() == defs_spec.len(),
                forall|q: int| 0 <= q < defs_spec.len() ==> (#[trigger] def_ids@[q])@ == defs_spec[q].0 && def_digests@[q]@ == defs_spec[q].1,
                bind_ids@.len() == i,
                bind_digests@.len() == i,
                forall|q: int| 0 <= q < i ==> (#[trigger] bind_ids@[q])@ == binds_spec[q].0 && bind_digests@[q]@ == binds_spec[q].1,
                forall|q: int| 0 <= q < i ==> is_valid_binding(#[trigger] self.bindings@[q]),
                forall|q: int| 0 <= q < i ==> defs_spec.contains((#[trigger] self.bindings@[q].function_id@, self.bindings@[q].function_definition_sha256@)),
                keys_distinct(binds_spec.take(i as int)),
            decreases self.bindings@.len() - i,
        {
            let binding = &self.bindings[i];
            binding.validate()?;
            if contains_string(&bind_ids, &binding.binding_id) {
                proof {
                    let w = choose|w: int| 0 <= w < string_views(bind_ids@).len() && string_views(bind_ids@)[w] == binding.binding_id@;
                    assert(binds_spec[w].0 == binds_spec[i as int].0);
                }
                return Err(function_error(text("function publication repeats a binding")));
            }
            let mut matched = false;
            let mut k: usize = 0;
            while k < def_ids.len()
                invariant
                self.expected_revision < u64::MAX,
                self.membership.revision == self.expected_revision + 1,
                    k <= defs_spec.len(),
                    def_ids@.len() == defs_spec.len(),
                    def_digests@.len() == defs_spec.len(),
                    forall|q: int| 0 <= q < defs_spec.len() ==> (#[trigger] def_ids@[q])@ == defs_spec[q].0 && def_digests@[q]@ == defs_spec[q].1,
                    matched ==> defs_spec.contains((binding.function_id@, binding.function_definition_sha256@)),
                    !matched ==> forall|q: int| 0 <= q < k ==> #[trigger] defs_spec[q] != (binding.function_id@, binding.function_definition_sha256@),
                decreases defs_spec.len() - k,
            {
                if !matched && def_ids[k] == binding.function_id && def_digests[k] == binding.function_definition_sha256 {
                    proof {
                        assert(defs_spec[k as int] == (binding.function_id@, binding.function_definition_sha256@));
                    }
                    matched = true;
                }
                k = k + 1;
            }
            if !matched {
                return Err(function_error(text("function binding does not reference an exact member definition")));
            }
            proof {
                assert forall|q: int| 0 <= q < i implies binds_spec[q].0 != binds_spec[i as int].0 by {
                    assert(string_views(bind_ids@)[q] == bind_ids@[q]@);
                }
                let t = binds_spec.take(i + 1);
                assert forall|a: int, b: int| 0 <= a < b < t.len() implies (#[trigger] t[a]).0 != (#[trigger] t[b]).0 by {
                    if b < i {
                        assert(binds_spec.take(i as int)[a] == t[a]);
                        assert(binds_spec.take(i as int)[b] == t[b]);
                    }
                }
            }
            bind_ids.push(binding.binding_id.clone());
            bind_digests.push(binding.binding_sha256.clone());
            i = i + 1;
        }
        proof {
            assert(binds_spec.take(i as int) =~= binds_spec);
        }
        if !same_pairs(&self.membership.transaction_binding_sha256, Ghost(binds_spec), &bind_ids, &bind_digests) {
            return Err(function_error(text("function publication bindings do not match membership")));
        }
        Ok(())
    }

    /// The head that selects this publication's membership.
    pub fn head(&self) -> (h: FunctionCatalogueHeadRecord)
        ensures
            h.format_version == FUNCTION_CATALOGUE_STATE_FORMAT_VERSION,
            h.revision == self.membership.revision,
            h.catalogue_sha256@ == self.membership.catalogue_sha256@,
            h.membership_sha256@ == self.membership.membership_sha256@,
    {
        FunctionCatalogueHeadRecord {
            format_version: FUNCTION_CATALOGUE_STATE_FORMAT_VERSION,
            revision: self.membership.revision,
            catalogue_sha256: self.membership.catalogue_sha256.clone(),
            membership_sha256: self.membership.membership_sha256.clone(),
        }
    }
}

/// The active catalogue: its head, membership and every record it names.
#[derive(Debug, Clone, PartialEq, Eq)]
pub struct FunctionCatalogueSnapshot {
    pub head: FunctionCatalogueHeadRecord,
    pub membership: FunctionCatalogueMembershipRecord,
    pub artifacts: Vec<FunctionArtifactRecord>,
    pub definitions: Vec<FunctionDefinitionRecord>,
    pub bindings: Vec<TransactionFunctionBindingRecord>,
}

/// The receipt of one governed-function invocation.
#[derive(Debug, Clone, PartialEq, Eq)]
pub struct FunctionInvocationReceiptRecord {
    pub format_version: u16,
    pub invocation_id: String,
    pub runtime_commit_sha256: Option<String>,
    pub receipt_sha256: String,
    pub canonical_receipt_sha256: String,
    pub canonical_receipt_json: String,
}

/// Every constraint of a receipt holds.
pub open spec fn is_valid_receipt(r: FunctionInvocationReceiptRecord) -> bool {
    &&& r.format_version == FUNCTION_INVOCATION_RECEIPT_FORMAT_VERSION
    &&& is_coordinate(utf8(r.invocation_id@))
    &&& (r.runtime_commit_sha256 matches Some(c) ==> is_sha256_text(utf8(c@)))
    &&& is_sha256_text(utf8(r.receipt_sha256@))
    &&& is_sha256_text(utf8(r.canonical_receipt_sha256@))
    &&& is_canonical_json(r.canonical_receipt_json@, r.canonical_receipt_sha256@)
}

impl FunctionInvocationReceiptRecord {
    /// Checks every constraint of the receipt.
    pub fn validate(&self) -> (r: Result<()>)
        ensures
            r is Ok <==> is_valid_receipt(*self),
    {
        if self.format_version != FUNCTION_INVOCATION_RECEIPT_FORMAT_VERSION {
            return Err(function_error(text("function invocation receipt version is unsupported")));
        }
        validate_coordinate(self.invocation_id.as_str(), "function invocation identity")?;
        match &self.runtime_commit_sha256 {
            Some(commit) => validate_sha256(commit.as_str(), "function invocation runtime commit")?,
            None => {},
        }
        validate_sha256(self.receipt_sha256.as_str(), "function invocation receipt")?;
        validate_sha256(self.canonical_receipt_sha256.as_str(), "canonical function invocation receipt")?;
        validate_canonical_json(self.canonical_receipt_json.as_str(), self.canonical_receipt_sha256.as_str(), "function invocation receipt")
    }
}

} // verus!
