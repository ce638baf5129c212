//! The commit-time projection of one index definition: which fields a
//! semantic commit binds, and how.

use crate::error::{join, text, Error, Result};
use crate::function::string_views;
use crate::keyspaces::is_sha256_text;
use vstd::prelude::*;

verus! {

/// The version of the index commit-binding contract.
pub const INDEX_COMMIT_BINDING_CONTRACT_VERSION: u16 = 1;

/// The version of the index source-delta contract.
pub const INDEX_SOURCE_DELTA_CONTRACT_VERSION: u16 = 1;

/// Most fields one index definition may bind.
pub const MAX_INDEX_FIELDS: usize = 16;

/// The commit-time behaviour projected from one index definition.
#[derive(Debug, Clone, Copy, PartialEq, Eq, Structural)]
pub enum IndexCommitBindingKind {
    Scalar { unique: bool },
    Bm25,
}

/// The definition data a storage transaction needs of one index: its id,
/// the record kind it covers, the fields it binds, its kind, and the digest
/// of its configuration.
#[derive(Debug, Clone, PartialEq, Eq)]
pub struct IndexCommitBindingDefinition {
    pub id: String,
    pub record_kind: String,
    pub fields: Vec<String>,
    pub kind: IndexCommitBindingKind,
    pub configuration_sha256: String,
}

/// Whether `c` has Unicode's White_Space property: what `str::trim` strips.
pub open spec fn is_white_space(c: char) -> bool {
    let u = c as u32;
    ||| 0x9 <= u <= 0xd
    ||| u == 0x20
    ||| u == 0x85
    ||| u == 0xa0
    ||| u == 0x1680
    ||| 0x2000 <= u <= 0x200a
    ||| u == 0x2028
    ||| u == 0x2029
    ||| u == 0x202f
    ||| u == 0x205f
    ||| u == 0x3000
}

/// Whether nothing is left of `s` once trimmed: every character is white space.
pub open spec fn is_blank(s: Seq<char>) -> bool {
    forall|i: int| 0 <= i < s.len() ==> is_white_space(#[trigger] s[i])
}

/// Whether `c` has Unicode's White_Space property.
fn white_space(c: char) -> (b: bool)
    ensures
        b == is_white_space(c),
{
    let u = c as u32;
    (0x9 <= u && u <= 0xd) || u == 0x20 || u == 0x85 || u == 0xa0 || u == 0x1680 || (0x2000 <= u && u <= 0x200a)
        || u == 0x2028 || u == 0x2029 || u == 0x202f || u == 0x205f || u == 0x3000
}

/// Whether nothing is left of `s` once trimmed.
fn blank(s: &str) -> (b: bool)
    ensures
        b == is_blank(s@),
{
    let chars = crate::bytes::chars_of(s);
    let mut i: usize = 0;
    while i < chars.len()
        invariant
            chars@ == s@,
            i <= chars@.len(),
            forall|j: int| 0 <= j < i ==> is_white_space(#[trigger] s@[j]),
        decreases chars@.len() - i,
    {
        if !white_space(chars[i]) {
            return false;
        }
        i = i + 1;
    }
    true
}

/// Every constraint of an index binding definition holds: 1 to 16 fields,
/// exactly one for a BM25 index, none blank once trimmed, no field named
/// twice, and a lowercase SHA-256 configuration digest.
pub open spec fn is_valid_binding_definition(d: IndexCommitBindingDefinition) -> bool {
    &&& 1 <= d.fields@.len() <= MAX_INDEX_FIELDS
    &&& d.kind is Bm25 ==> d.fields@.len() == 1
    &&& forall|i: int| 0 <= i < d.fields@.len() ==> !is_blank(#[trigger] d.fields@[i]@)
    &&& string_views(d.fields@).no_duplicates()
    &&& is_sha256_text(crate::function::utf8(d.configuration_sha256@))
}

/// Whether no string of `fields` is blank once trimmed.
fn none_blank(fields: &Vec<String>) -> (ok: bool)
    ensures
        ok == forall|i: int| 0 <= i < fields@.len() ==> !is_blank(#[trigger] fields@[i]@),
{
    let mut i: usize = 0;
    while i < fields.len()
        invariant
            i <= fields@.len(),
            forall|j: int| 0 <= j < i ==> !is_blank(#[trigger] fields@[j]@),
        decreases fields@.len() - i,
    {
        if blank(fields[i].as_str()) {
            return false;
        }
        i = i + 1;
    }
    true
}

/// Whether no string occurs twice in `fields`.
fn all_distinct(fields: &Vec<String>) -> (ok: bool)
    ensures
        ok == string_views(fields@).no_duplicates(),
{
    let ghost v = string_views(fields@);
    let mut i: usize = 0;
    while i < fields.len()
        invariant
            i <= fields@.len(),
            v == string_views(fields@),
            forall|a: int, b: int| 0 <= a < b < i ==> v[a] != v[b],
        decreases fields@.len() - i,
    {
        let mut j: usize = 0;
        while j < i
            invariant
                j <= i < fields@.len(),
                v == string_views(fields@),
                forall|a: int| 0 <= a < j ==> v[a] != v[i as int],
            decreases i - j,
        {
            if fields[j] == fields[i] {
                assert(v[j as int] == v[i as int]);
                return false;
            }
            j = j + 1;
        }
        i = i + 1;
    }
    true
}

impl IndexCommitBindingDefinition {
    /// Checks every constraint of the definition; each refusal is an index
    /// constraint error naming the index.
    pub fn validate(&self) -> (r: Result<()>)
        ensures
            r is Ok <==> is_valid_binding_definition(*self),
            r matches Err(e) ==> e is IndexConstraint,
    {
        let n = self.fields.len();
        if n == 0 || n > MAX_INDEX_FIELDS {
            return Err(Error::IndexConstraint(join(self.id.as_str(), ": index requires 1..=16 commit-bound fields")));
        }
        if self.kind == IndexCommitBindingKind::Bm25 && n != 1 {
            return Err(Error::IndexConstraint(join(self.id.as_str(), ": BM25 index requires exactly one commit-bound field")));
        }
        if !none_blank(&self.fields) || !all_distinct(&self.fields) {
            return Err(Error::IndexConstraint(join(self.id.as_str(), ": index fields must be non-empty and unique")));
        }
        if !crate::digest::is_sha256(self.configuration_sha256.as_str()) {
            return Err(Error::IndexConstraint(text("index configuration must be a lowercase SHA-256")));
        }
        Ok(())
    }
}

} // verus!
