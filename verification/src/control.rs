//! Authoritative, replayable control-plane state transitions and their
//! hash-chained journal.

use crate::digest::{sha256_hex, sha256_hex_text};
use crate::engine::is_idempotency_key_byte;
use crate::error::{text, Error, Result};
use crate::function::{opt_str, utf8};
use crate::key_codec::{spec_encode_key, spec_encode_key_value, DecodedKeyPart, KeyAddress, KeyCodec, KeyFamily, KeyPart, KeyPartValue, KeyValue};
use vstd::prelude::*;
use vstd::string::StringSliceAdditionalSpecFns;

verus! {

/// Most transitions one control batch may carry.
pub const MAX_CONTROL_BATCH_TRANSITIONS: usize = 64;

/// Largest expected or replacement control state, in bytes.
pub const MAX_CONTROL_STATE_BYTES: usize = 1048576;

/// The key prefix every server control-state key starts with: `server/state/`.
pub open spec fn control_key_prefix() -> Seq<u8> {
    seq![115u8, 101u8, 114u8, 118u8, 101u8, 114u8, 47u8, 115u8, 116u8, 97u8, 116u8, 101u8, 47u8]
}

/// A byte allowed in a control-state key.
pub open spec fn is_control_key_byte(b: u8) -> bool {
    is_idempotency_key_byte(b) || b == 47
}

/// A server control-state key: `server/state/` followed by letters, digits,
/// `/`, `-`, `_`, `.` or `:`, at most 256 bytes in all.
pub open spec fn is_control_key(key: Seq<u8>) -> bool {
    &&& key.len() <= 256
    &&& key.len() >= 13
    &&& key.take(13) == control_key_prefix()
    &&& forall|i: int| 0 <= i < key.len() ==> is_control_key_byte(#[trigger] key[i])
}

/// Checks a server control-state key.
pub fn validate_control_key(key: &str) -> (r: Result<()>)
    ensures
        r is Ok <==> is_control_key(key.spec_bytes()),
        r matches Err(e) ==> (e matches Error::Substrate(m) && m@ == "invalid server control-state key"@),
{
    let bytes = key.as_bytes();
    let prefix: [u8; 13] = [115, 101, 114, 118, 101, 114, 47, 115, 116, 97, 116, 101, 47];
    let mut valid = bytes.len() >= 13 && bytes.len() <= 256;
    let mut i: usize = 0;
    while valid && i < 13
        invariant
            bytes@ == key.spec_bytes(),
            prefix@ == control_key_prefix(),
            i <= 13,
            valid ==> 13 <= bytes@.len() <= 256,
            valid ==> forall|j: int| 0 <= j < i ==> bytes@[j] == prefix@[j],
            !valid ==> !is_control_key(bytes@),
        decreases 13 - i,
    {
        if bytes[i] != prefix[i] {
            proof {
                assert(bytes@.take(13)[i as int] == bytes@[i as int]);
            }
            valid = false;
        }
        i = i + 1;
    }
    if valid {
        assert(bytes@.take(13) =~= control_key_prefix());
    }
    let mut i: usize = 0;
    while valid && i < bytes.len()
        invariant
            bytes@ == key.spec_bytes(),
            i <= bytes@.len(),
            valid ==> 13 <= bytes@.len() <= 256 && bytes@.take(13) == control_key_prefix(),
            valid ==> forall|j: int| 0 <= j < i ==> is_control_key_byte(#[trigger] bytes@[j]),
            !valid ==> !is_control_key(bytes@),
        decreases bytes@.len() - i,
    {
        let b = bytes[i];
        if !((48 <= b && b <= 57) || (65 <= b && b <= 90) || (97 <= b && b <= 122) || b == 45 || b == 95 || b == 46 || b == 58 || b == 47) {
            valid = false;
        }
        i = i + 1;
    }
    if !valid {
        return Err(Error::Substrate(text("invalid server control-state key")));
    }
    Ok(())
}

/// One compare-and-swap transition of a control key.
#[derive(Debug, Clone, PartialEq, Eq)]
pub struct ControlTransition {
    pub key: String,
    pub expected: Option<Vec<u8>>,
    pub replacement: Option<Vec<u8>>,
    pub at: u64,
    pub actor: String,
    pub action: String,
    pub request_id: String,
    pub operation_id: String,
}

/// A transition label: 1 to 256 bytes of ASCII.
pub open spec fn is_control_label(s: Seq<char>) -> bool {
    &&& 1 <= utf8(s).len() <= 256
    &&& vstd::utf8::is_ascii_chars(s)
}

/// An optional control state within one MiB.
pub open spec fn state_within_bound(o: Option<Vec<u8>>) -> bool {
    match o {
        Some(v) => v@.len() <= MAX_CONTROL_STATE_BYTES,
        None => true,
    }
}

/// Every constraint of a transition holds.
pub open spec fn is_valid_transition(t: ControlTransition) -> bool {
    &&& is_control_key(utf8(t.key@))
    &&& is_control_label(t.actor@)
    &&& is_control_label(t.action@)
    &&& is_control_label(t.request_id@)
    &&& is_control_label(t.operation_id@)
    &&& t.at != 0
    &&& state_within_bound(t.expected)
    &&& state_within_bound(t.replacement)
}

/// Checks one transition label; the error names the field.
fn validate_label(value: &str, message: &str) -> (r: Result<()>)
    ensures
        r is Ok <==> is_control_label(value@),
        r matches Err(e) ==> (e matches Error::Substrate(m) && m@ == message@),
{
    let n = value.as_bytes().len();
    if n == 0 || n > 256 || !value.is_ascii() {
        return Err(Error::Substrate(text(message)));
    }
    Ok(())
}

impl ControlTransition {
    /// Checks every constraint of the transition.
    pub fn validate(&self) -> (r: Result<()>)
        ensures
            r is Ok <==> is_valid_transition(*self),
            r matches Err(e) ==> e is Substrate,
    {
        validate_control_key(self.key.as_str())?;
        validate_label(self.actor.as_str(), "invalid control transition actor")?;
        validate_label(self.action.as_str(), "invalid control transition action")?;
        validate_label(self.request_id.as_str(), "invalid control transition request_id")?;
        validate_label(self.operation_id.as_str(), "invalid control transition operation_id")?;
        if self.at == 0 {
            return Err(Error::Substrate(text("control transition time must be non-zero")));
        }
        let expected_too_large = match &self.expected {
            Some(v) => v.len() > MAX_CONTROL_STATE_BYTES,
            None => false,
        };
        let replacement_too_large = match &self.replacement {
            Some(v) => v.len() > MAX_CONTROL_STATE_BYTES,
            None => false,
        };
        if expected_too_large || replacement_too_large {
            return Err(Error::Substrate(text("control state exceeds one MiB")));
        }
        Ok(())
    }
}

/// The keys of a batch of transitions.
pub open spec fn transition_keys(transitions: Seq<ControlTransition>) -> Seq<Seq<char>> {
    Seq::new(transitions.len(), |i: int| transitions[i].key@)
}

/// A control batch: 1 to 64 valid transitions addressing distinct keys.
pub open spec fn is_valid_control_batch(transitions: Seq<ControlTransition>) -> bool {
    &&& 1 <= transitions.len() <= MAX_CONTROL_BATCH_TRANSITIONS
    &&& forall|i: int| 0 <= i < transitions.len() ==> is_valid_transition(#[trigger] transitions[i])
    &&& transition_keys(transitions).no_duplicates()
}

/// Checks a control batch.
pub fn validate_control_batch(transitions: &[ControlTransition]) -> (r: Result<()>)
    ensures
        r is Ok <==> is_valid_control_batch(transitions@),
        r matches Err(e) ==> e is Substrate,
{
    if transitions.len() == 0 || transitions.len() > MAX_CONTROL_BATCH_TRANSITIONS {
        return Err(Error::Substrate(text("control batch size must be in 1..=64")));
    }
    let ghost keys = transition_keys(transitions@);
    let mut i: usize = 0;
    while i < transitions.len()
        invariant
            i <= transitions@.len(),
            keys == transition_keys(transitions@),
            forall|j: int| 0 <= j < i ==> is_valid_transition(#[trigger] transitions@[j]),
            keys.take(i as int).no_duplicates(),
        decreases transitions@.len() - i,
    {
        let transition = &transitions[i];
        transition.validate()?;
        let mut j: usize = 0;
        while j < i
            invariant
                j <= i < transitions@.len(),
                keys == transition_keys(transitions@),
                *transition == transitions@[i as int],
                forall|q: int| 0 <= q < j ==> keys[q] != keys[i as int],
            decreases i - j,
        {
            if transitions[j].key == transition.key {
                proof {
                    assert(keys[j as int] == keys[i as int]);
                    assert(!keys.no_duplicates());
                }
                return Err(Error::Substrate(text("control batch cannot address one key more than once")));
            }
            j = j + 1;
        }
        proof {
            assert(keys.take(i + 1) =~= keys.take(i as int).push(keys[i as int]));
            let t = keys.take(i + 1);
            assert forall|a: int, b: int| 0 <= a < t.len() && 0 <= b < t.len() && a != b implies #[trigger] t[a] != #[trigger] t[b] by {
                if a < i && b < i {
                    assert(keys.take(i as int)[a] == t[a]);
                    assert(keys.take(i as int)[b] == t[b]);
                } else if a == i as int {
                    assert(t[b] == keys[b]);
                } else {
                    assert(t[a] == keys[a]);
                }
            }
        }
        i = i + 1;
    }
    assert(keys.take(i as int) =~= keys);
    Ok(())
}

/// The canonical journal-entry bytes: the serialized tuple of its fields
/// apart from the digest.
pub uninterp spec fn control_canonical_json(
    sequence: u64,
    key: Seq<char>,
    before_sha256: Option<Seq<char>>,
    replacement: Option<Seq<u8>>,
    at: u64,
    actor: Seq<char>,
    action: Seq<char>,
    request_id: Seq<char>,
    operation_id: Seq<char>,
    previous_digest: Option<Seq<char>>,
) -> Seq<u8>;

/// The view of an optional borrowed string.
pub open spec fn opt_str_view(o: Option<&str>) -> Option<Seq<char>> {
    match o {
        Some(s) => Some(s@),
        None => None,
    }
}

/// The view of an optional borrowed byte slice.
pub open spec fn opt_slice_view(o: Option<&[u8]>) -> Option<Seq<u8>> {
    match o {
        Some(s) => Some(s@),
        None => None,
    }
}

/// `serde_json::to_vec` of the ten-field tuple of a journal entry; the
/// contract names the bytes `control_canonical_json` of the fields.
/// Serializing integers, strings, byte sequences and options cannot fail.
/// The bytes determine the fields they were made from: serde_json writes the
/// tuple as a JSON array of its elements in order, an integer in decimal,
/// `None` as `null`, a string between quotes with its quotes, backslashes
/// and control characters escaped (`format_escaped_str_contents` in its
/// `ser.rs`), and a byte slice as an array of integers; such a document
/// reads back as exactly one tuple.
#[verifier::external_body]
fn canonical_json(fields: &(u64, &str, Option<&str>, Option<&[u8]>, u64, &str, &str, &str, &str, Option<&str>)) -> (bytes: Vec<u8>)
    ensures
        bytes@ == control_canonical_json(fields.0, fields.1@, opt_str_view(fields.2), opt_slice_view(fields.3), fields.4, fields.5@, fields.6@,
            fields.7@, fields.8@, opt_str_view(fields.9)),
        forall|s2: u64, k2: Seq<char>, b2: Option<Seq<char>>, r2: Option<Seq<u8>>, a2: u64, ac2: Seq<char>, act2: Seq<char>, q2: Seq<char>, o2: Seq<char>, p2: Option<Seq<char>>|
            #[trigger] control_canonical_json(s2, k2, b2, r2, a2, ac2, act2, q2, o2, p2) == bytes@ ==> {
                &&& s2 == fields.0 && k2 == fields.1@ && b2 == opt_str_view(fields.2) && r2 == opt_slice_view(fields.3)
                &&& a2 == fields.4 && ac2 == fields.5@ && act2 == fields.6@ && q2 == fields.7@ && o2 == fields.8@
                &&& p2 == opt_str_view(fields.9)
            },
{
    serde_json::to_vec(fields).unwrap_or_default()
}

/// One committed control transition in the hash-chained journal.
#[derive(Debug, Clone, PartialEq, Eq)]
pub struct ControlJournalEntry {
    pub sequence: u64,
    pub key: String,
    pub before_sha256: Option<String>,
    pub replacement: Option<Vec<u8>>,
    pub at: u64,
    pub actor: String,
    pub action: String,
    pub request_id: String,
    pub operation_id: String,
    pub previous_digest: Option<String>,
    pub digest: String,
}

/// The view of an optional string.
pub open spec fn opt_string_view(o: Option<String>) -> Option<Seq<char>> {
    match o {
        Some(s) => Some(s@),
        None => None,
    }
}

/// The view of optional bytes.
pub open spec fn opt_bytes_view(o: Option<Vec<u8>>) -> Option<Seq<u8>> {
    match o {
        Some(v) => Some(v@),
        None => None,
    }
}

/// The canonical bytes of an entry.
pub open spec fn entry_canonical_bytes(e: ControlJournalEntry) -> Seq<u8> {
    control_canonical_json(
        e.sequence,
        e.key@,
        opt_string_view(e.before_sha256),
        opt_bytes_view(e.replacement),
        e.at,
        e.actor@,
        e.action@,
        e.request_id@,
        e.operation_id@,
        opt_string_view(e.previous_digest),
    )
}

/// Two entries agree in every field their canonical bytes are taken over:
/// all but the digest.
pub open spec fn same_entry_fields(a: ControlJournalEntry, b: ControlJournalEntry) -> bool {
    &&& a.sequence == b.sequence
    &&& a.key@ == b.key@
    &&& opt_string_view(a.before_sha256) == opt_string_view(b.before_sha256)
    &&& opt_bytes_view(a.replacement) == opt_bytes_view(b.replacement)
    &&& a.at == b.at
    &&& a.actor@ == b.actor@
    &&& a.action@ == b.action@
    &&& a.request_id@ == b.request_id@
    &&& a.operation_id@ == b.operation_id@
    &&& opt_string_view(a.previous_digest) == opt_string_view(b.previous_digest)
}

/// The canonical bytes of `e` determine it: any entry with the same
/// canonical bytes agrees with it in every field but the digest, so an entry
/// changed in any of those fields has other canonical bytes.
pub open spec fn canonical_bytes_determine(e: ControlJournalEntry) -> bool {
    forall|other: ControlJournalEntry| #[trigger] entry_canonical_bytes(other) == entry_canonical_bytes(e) ==> same_entry_fields(other, e)
}

/// The digest of an entry covers every field but itself: where the
/// canonical bytes of `e` determine it, as `committed` and `verify` ensure,
/// an entry that differs from `e` in any such field (its actor, say) has
/// other canonical bytes than `e`.
pub proof fn lemma_changed_entry_changes_canonical_bytes(e: ControlJournalEntry, other: ControlJournalEntry)
    requires
        canonical_bytes_determine(e),
        !same_entry_fields(other, e),
    ensures
        entry_canonical_bytes(other) != entry_canonical_bytes(e),
{
}

/// An entry's digest is the SHA-256 of its canonical bytes.
pub open spec fn entry_verifies(e: ControlJournalEntry) -> bool {
    sha256_hex_text(entry_canonical_bytes(e)) == e.digest@
}

/// Borrowed bytes of an optional byte vector.
fn opt_slice(o: &Option<Vec<u8>>) -> (r: Option<&[u8]>)
    ensures
        opt_slice_view(r) == opt_bytes_view(*o),
{
    match o {
        Some(v) => Some(v.as_slice()),
        None => None,
    }
}

/// An owned copy of optional bytes.
fn copy_opt_bytes(o: &Option<Vec<u8>>) -> (c: Option<Vec<u8>>)
    ensures
        opt_bytes_view(c) == opt_bytes_view(*o),
{
    match o {
        Some(v) => {
            let c = v.clone();
            assert(c@ =~= v@);
            Some(c)
        },
        None => None,
    }
}

/// The view of a borrowed optional string equals that of the string.
proof fn lemma_opt_str_view(o: Option<String>, r: Option<&str>)
    requires
        match (r, o) {
            (Some(a), Some(b)) => a@ == b@,
            (None, None) => true,
            _ => false,
        },
    ensures
        opt_str_view(r) == opt_string_view(o),
{
}

impl ControlJournalEntry {
    /// The canonical bytes of this entry.
    fn canonical_bytes(&self) -> (bytes: Vec<u8>)
        ensures
            bytes@ == entry_canonical_bytes(*self),
            canonical_bytes_determine(*self),
    {
        let before = opt_str(&self.before_sha256);
        let previous = opt_str(&self.previous_digest);
        proof {
            lemma_opt_str_view(self.before_sha256, before);
            lemma_opt_str_view(self.previous_digest, previous);
        }
        let fields = (
            self.sequence,
            self.key.as_str(),
            before,
            opt_slice(&self.replacement),
            self.at,
            self.actor.as_str(),
            self.action.as_str(),
            self.request_id.as_str(),
            self.operation_id.as_str(),
            previous,
        );
        let bytes = canonical_json(&fields);
        proof {
            assert forall|other: ControlJournalEntry| #[trigger] entry_canonical_bytes(other) == entry_canonical_bytes(*self) implies same_entry_fields(
                other,
                *self,
            ) by {
                assert(control_canonical_json(other.sequence, other.key@, opt_string_view(other.before_sha256), opt_bytes_view(other.replacement),
                    other.at, other.actor@, other.action@, other.request_id@, other.operation_id@, opt_string_view(other.previous_digest)) == bytes@);
            }
        }
        bytes
    }

    /// The journal entry that commits `transition` as entry `sequence` after
    /// the entry whose digest is `previous_digest`.
    pub fn committed(sequence: u64, transition: &ControlTransition, previous_digest: Option<String>) -> (e: Self)
        ensures
            e.sequence == sequence,
            e.key@ == transition.key@,
            opt_string_view(e.before_sha256) == match transition.expected {
                Some(v) => Some(sha256_hex_text(v@)),
                None => None::<Seq<char>>,
            },
            opt_bytes_view(e.replacement) == opt_bytes_view(transition.replacement),
            e.at == transition.at,
            e.actor@ == transition.actor@,
            e.action@ == transition.action@,
            e.request_id@ == transition.request_id@,
            e.operation_id@ == transition.operation_id@,
            opt_string_view(e.previous_digest) == opt_string_view(previous_digest),
            entry_verifies(e),
            canonical_bytes_determine(e),
    {
        let before_sha256 = match &transition.expected {
            Some(v) => Some(sha256_hex(v.as_slice())),
            None => None,
        };
        let mut entry = ControlJournalEntry {
            sequence,
            key: transition.key.clone(),
            before_sha256,
            replacement: copy_opt_bytes(&transition.replacement),
            at: transition.at,
            actor: transition.actor.clone(),
            action: transition.action.clone(),
            request_id: transition.request_id.clone(),
            operation_id: transition.operation_id.clone(),
            previous_digest,
            digest: String::new(),
        };
        let bytes = entry.canonical_bytes();
        entry.digest = sha256_hex(bytes.as_slice());
        entry
    }

    /// Whether the entry's digest is the SHA-256 of its canonical bytes.
    pub fn verify(&self) -> (ok: bool)
        ensures
            ok == entry_verifies(*self),
            canonical_bytes_determine(*self),
    {
        let bytes = self.canonical_bytes();
        sha256_hex(bytes.as_slice()) == self.digest
    }
}

/// The journal tail is consistent: an empty journal has neither digest nor
/// entry, and otherwise the last entry is entry `sequence`, verifies, and
/// has the advertised digest.
pub open spec fn control_tail_consistent(sequence: u64, advertised_digest: Option<Seq<char>>, entry: Option<ControlJournalEntry>) -> bool {
    match (advertised_digest, entry) {
        (None, None) => sequence == 0,
        (Some(advertised), Some(e)) => e.sequence == sequence && entry_verifies(e) && e.digest@ == advertised,
        _ => false,
    }
}

/// The view of an optional borrowed entry.
pub open spec fn opt_entry(o: Option<&ControlJournalEntry>) -> Option<ControlJournalEntry> {
    match o {
        Some(e) => Some(*e),
        None => None,
    }
}

/// Checks the journal tail.
pub fn verify_control_tail(sequence: u64, advertised_digest: Option<&str>, entry: Option<&ControlJournalEntry>) -> (r: Result<()>)
    ensures
        r is Ok <==> control_tail_consistent(sequence, opt_str_view(advertised_digest), opt_entry(entry)),
        r matches Err(e) ==> e is Substrate,
{
    let ok = match (advertised_digest, entry) {
        (None, None) => sequence == 0,
        (Some(advertised), Some(e)) => e.sequence == sequence && e.verify() && e.digest == text(advertised),
        _ => false,
    };
    if ok {
        Ok(())
    } else {
        Err(Error::Substrate(text("control journal tail is missing, corrupt, or inconsistent")))
    }
}

/// Entry `i` of a page fits the chain: it is entry `after + 1 + i`,
/// verifies, and names as its predecessor the digest before it (the anchor
/// for the first).
pub open spec fn entry_fits(after: u64, anchor_digest: Option<Seq<char>>, entries: Seq<ControlJournalEntry>, i: int) -> bool {
    &&& after + i + 1 <= u64::MAX
    &&& entries[i].sequence == after + i + 1
    &&& entry_verifies(entries[i])
    &&& opt_string_view(entries[i].previous_digest) == if i == 0 { anchor_digest } else { Some(entries[i - 1].digest@) }
}

/// A journal page is intact: every entry fits the chain.
pub open spec fn control_page_intact(after: u64, anchor_digest: Option<Seq<char>>, entries: Seq<ControlJournalEntry>) -> bool {
    forall|i: int| 0 <= i < entries.len() ==> #[trigger] entry_fits(after, anchor_digest, entries, i)
}

/// Checks one page of the journal after entry `after`.
pub fn verify_control_page(after: u64, anchor_digest: Option<String>, entries: &[ControlJournalEntry]) -> (r: Result<()>)
    ensures
        r is Ok <==> control_page_intact(after, opt_string_view(anchor_digest), entries@),
        r matches Err(e) ==> e is Substrate || e is SequenceOverflow,
{
    let ghost anchor = opt_string_view(anchor_digest);
    let mut previous = anchor_digest;
    let mut offset: usize = 0;
    while offset < entries.len()
        invariant
            offset <= entries@.len(),
            anchor == opt_string_view(anchor_digest),
            forall|j: int| 0 <= j < offset ==> #[trigger] entry_fits(after, anchor, entries@, j),
            opt_string_view(previous) == if offset == 0 { anchor } else { Some(entries@[offset - 1].digest@) },
        decreases entries@.len() - offset,
    {
        let entry = &entries[offset];
        let expected_sequence = match after.checked_add(offset as u64) {
            Some(s) => match s.checked_add(1) {
                Some(t) => t,
                None => {
                    proof {
                        assert(!entry_fits(after, anchor, entries@, offset as int));
                    }
                    return Err(Error::SequenceOverflow);
                },
            },
            None => {
                proof {
                    assert(!entry_fits(after, anchor, entries@, offset as int));
                }
                return Err(Error::SequenceOverflow);
            },
        };
        let same_previous = match (&entry.previous_digest, &previous) {
            (None, None) => true,
            (Some(a), Some(b)) => *a == *b,
            _ => false,
        };
        if entry.sequence != expected_sequence || !entry.verify() || !same_previous {
            proof {
                assert(!entry_fits(after, anchor, entries@, offset as int));
            }
            return Err(Error::Substrate(text("control journal page is missing, reordered, or corrupt")));
        }
        previous = Some(entry.digest.clone());
        offset = offset + 1;
    }
    Ok(())
}

/// The text of an optional string, empty where absent.
pub open spec fn text_or_empty(o: Option<String>) -> Seq<char> {
    match o {
        Some(s) => s@,
        None => Seq::empty(),
    }
}

/// The bytes of optional bytes, empty where absent.
pub open spec fn bytes_or_empty(o: Option<Vec<u8>>) -> Seq<u8> {
    match o {
        Some(v) => v@,
        None => Seq::empty(),
    }
}

/// The stored fields of a journal entry: every field in order, an absent
/// optional field as a `false` flag followed by an empty value.
pub open spec fn entry_parts(e: ControlJournalEntry) -> Seq<KeyPartValue> {
    seq![
        KeyPartValue::U64(e.sequence),
        KeyPartValue::Text(e.key@),
        KeyPartValue::Bool(e.before_sha256 is Some),
        KeyPartValue::Text(text_or_empty(e.before_sha256)),
        KeyPartValue::Bool(e.replacement is Some),
        KeyPartValue::Bytes(bytes_or_empty(e.replacement)),
        KeyPartValue::U64(e.at),
        KeyPartValue::Text(e.actor@),
        KeyPartValue::Text(e.action@),
        KeyPartValue::Text(e.request_id@),
        KeyPartValue::Text(e.operation_id@),
        KeyPartValue::Bool(e.previous_digest is Some),
        KeyPartValue::Text(text_or_empty(e.previous_digest)),
        KeyPartValue::Text(e.digest@),
    ]
}

/// The stored form of a journal entry: its fields as one canonical tuple of
/// the system family.
pub open spec fn entry_record_bytes(e: ControlJournalEntry) -> Seq<u8> {
    spec_encode_key(None, None, KeyFamily::System, entry_parts(e))
}

/// Two entries with the same stored form have the same fields.
pub proof fn lemma_entry_record_injective(a: ControlJournalEntry, b: ControlJournalEntry)
    requires
        entry_record_bytes(a) == entry_record_bytes(b),
    ensures
        entry_parts(a) == entry_parts(b),
{
    let ka = KeyValue { tenant: None, scope: None, family: KeyFamily::System, parts: entry_parts(a) };
    let kb = KeyValue { tenant: None, scope: None, family: KeyFamily::System, parts: entry_parts(b) };
    crate::key_codec::lemma_encode_injective(ka, kb);
}

/// The text of a borrowed optional string, empty where absent.
fn str_or_empty(o: &Option<String>) -> (s: &str)
    ensures
        s@ == text_or_empty(*o),
{
    match o {
        Some(v) => v.as_str(),
        None => {
            proof {
                reveal_strlit("");
            }
            ""
        },
    }
}

/// The bytes of borrowed optional bytes, empty where absent.
fn slice_or_empty(o: &Option<Vec<u8>>) -> (s: &[u8])
    ensures
        s@ == bytes_or_empty(*o),
{
    match o {
        Some(v) => v.as_slice(),
        None => &[],
    }
}

impl ControlJournalEntry {
    /// The stored form of this entry.
    pub fn encode(&self) -> (bytes: Vec<u8>)
        ensures
            bytes@ == entry_record_bytes(*self),
    {
        let parts = [
            KeyPart::U64(self.sequence),
            KeyPart::Text(self.key.as_str()),
            KeyPart::Bool(self.before_sha256.is_some()),
            KeyPart::Text(str_or_empty(&self.before_sha256)),
            KeyPart::Bool(self.replacement.is_some()),
            KeyPart::Bytes(slice_or_empty(&self.replacement)),
            KeyPart::U64(self.at),
            KeyPart::Text(self.actor.as_str()),
            KeyPart::Text(self.action.as_str()),
            KeyPart::Text(self.request_id.as_str()),
            KeyPart::Text(self.operation_id.as_str()),
            KeyPart::Bool(self.previous_digest.is_some()),
            KeyPart::Text(str_or_empty(&self.previous_digest)),
            KeyPart::Text(self.digest.as_str()),
        ];
        proof {
            assert(crate::key_codec::part_values(parts@) =~= entry_parts(*self));
        }
        KeyCodec.encode(KeyAddress::global(), KeyFamily::System, &parts)
    }

    /// The entry stored as `bytes`.
    pub fn decode(bytes: &[u8]) -> (r: Result<Self>)
        ensures
            match r {
                Ok(e) => entry_record_bytes(e) == bytes@,
                Err(err) => err is Codec && forall|e: ControlJournalEntry| #[trigger] entry_record_bytes(e) != bytes@,
            },
    {
        let key = match KeyCodec.decode(bytes) {
            Ok(key) => key,
            Err(_) => {
                proof {
                    assert forall|e: ControlJournalEntry| #[trigger] entry_record_bytes(e) != bytes@ by {
                        let k = KeyValue { tenant: None, scope: None, family: KeyFamily::System, parts: entry_parts(e) };
                        assert(spec_encode_key_value(k) == entry_record_bytes(e));
                    }
                }
                return Err(Error::Codec(text("control journal entry is not a canonical record")));
            },
        };
        let shape = key.tenant.is_none() && key.scope.is_none() && key.family == KeyFamily::System && key.parts.len() == 14;
        let ghost kv = key@;
        if shape {
            let p = &key.parts;
            match (&p[0], &p[1], &p[2], &p[3], &p[4], &p[5], &p[6]) {
                (DecodedKeyPart::U64(sequence), DecodedKeyPart::Text(k), DecodedKeyPart::Bool(has_before), DecodedKeyPart::Text(before),
                 DecodedKeyPart::Bool(has_replacement), DecodedKeyPart::Bytes(replacement), DecodedKeyPart::U64(at)) => {
                    match (&p[7], &p[8], &p[9], &p[10], &p[11], &p[12], &p[13]) {
                        (DecodedKeyPart::Text(actor), DecodedKeyPart::Text(action), DecodedKeyPart::Text(request_id),
                         DecodedKeyPart::Text(operation_id), DecodedKeyPart::Bool(has_previous), DecodedKeyPart::Text(previous),
                         DecodedKeyPart::Text(digest)) => {
                            let canonical = (*has_before || before.as_str().is_empty())
                                && (*has_replacement || replacement.len() == 0)
                                && (*has_previous || previous.as_str().is_empty());
                            if canonical {
                                let replacement_bytes = replacement.clone();
                                proof {
                                    assert(replacement_bytes@ =~= replacement@);
                                }
                                let e = ControlJournalEntry {
                                    sequence: *sequence,
                                    key: k.clone(),
                                    before_sha256: if *has_before { Some(before.clone()) } else { None },
                                    replacement: if *has_replacement { Some(replacement_bytes) } else { None },
                                    at: *at,
                                    actor: actor.clone(),
                                    action: action.clone(),
                                    request_id: request_id.clone(),
                                    operation_id: operation_id.clone(),
                                    previous_digest: if *has_previous { Some(previous.clone()) } else { None },
                                    digest: digest.clone(),
                                };
                                proof {
                                    assert(kv.parts.len() == 14);
                                    assert forall|i: int| 0 <= i < 14 implies kv.parts[i] == key.parts@[i]@ by {}
                                    assert(kv.parts[0] == KeyPartValue::U64(*sequence));
                                    assert(kv.parts[1] == KeyPartValue::Text(k@));
                                    assert(kv.parts[2] == KeyPartValue::Bool(*has_before));
                                    assert(kv.parts[3] == KeyPartValue::Text(before@));
                                    assert(kv.parts[4] == KeyPartValue::Bool(*has_replacement));
                                    assert(kv.parts[5] == KeyPartValue::Bytes(replacement@));
                                    assert(kv.parts[6] == KeyPartValue::U64(*at));
                                    assert(kv.parts[7] == KeyPartValue::Text(actor@));
                                    assert(kv.parts[8] == KeyPartValue::Text(action@));
                                    assert(kv.parts[9] == KeyPartValue::Text(request_id@));
                                    assert(kv.parts[10] == KeyPartValue::Text(operation_id@));
                                    assert(kv.parts[11] == KeyPartValue::Bool(*has_previous));
                                    assert(kv.parts[12] == KeyPartValue::Text(previous@));
                                    assert(kv.parts[13] == KeyPartValue::Text(digest@));
                                    if !*has_before {
                                        assert(before@ =~= Seq::<char>::empty());
                                    }
                                    if !*has_previous {
                                        assert(previous@ =~= Seq::<char>::empty());
                                    }
                                    if !*has_replacement {
                                        assert(replacement@ =~= Seq::<u8>::empty());
                                    }
                                    assert(entry_parts(e) =~= kv.parts);
                                    assert(entry_record_bytes(e) == spec_encode_key_value(kv));
                                }
                                return Ok(e);
                            }
                        },
                        _ => {},
                    }
                },
                _ => {},
            }
        }
        proof {
            assert forall|e: ControlJournalEntry| #[trigger] entry_record_bytes(e) != bytes@ by {
                let k = KeyValue { tenant: None, scope: None, family: KeyFamily::System, parts: entry_parts(e) };
                if entry_record_bytes(e) == bytes@ {
                    assert(spec_encode_key_value(k) == entry_record_bytes(e));
                    crate::key_codec::lemma_encode_injective(k, kv);
                    assert(kv.parts == entry_parts(e));
                    assert(key.parts@.len() == 14);
                }
            }
        }
        Err(Error::Codec(text("control journal entry is not a canonical record")))
    }
}

/// Decoding the stored form of an entry gives back its fields.
pub proof fn lemma_entry_round_trip(e: ControlJournalEntry, decoded: ControlJournalEntry)
    requires
        entry_record_bytes(decoded) == entry_record_bytes(e),
    ensures
        decoded.sequence == e.sequence,
        decoded.key@ == e.key@,
        opt_string_view(decoded.before_sha256) == opt_string_view(e.before_sha256),
        opt_bytes_view(decoded.replacement) == opt_bytes_view(e.replacement),
        decoded.at == e.at,
        decoded.actor@ == e.actor@,
        decoded.action@ == e.action@,
        decoded.request_id@ == e.request_id@,
        decoded.operation_id@ == e.operation_id@,
        opt_string_view(decoded.previous_digest) == opt_string_view(e.previous_digest),
        decoded.digest@ == e.digest@,
{
    lemma_entry_record_injective(decoded, e);
    assert(entry_parts(decoded)[2] == entry_parts(e)[2]);
    assert(entry_parts(decoded)[3] == entry_parts(e)[3]);
    assert(entry_parts(decoded)[4] == entry_parts(e)[4]);
    assert(entry_parts(decoded)[5] == entry_parts(e)[5]);
    assert(entry_parts(decoded)[11] == entry_parts(e)[11]);
    assert(entry_parts(decoded)[12] == entry_parts(e)[12]);
    assert(entry_parts(decoded)[0] == entry_parts(e)[0]);
    assert(entry_parts(decoded)[1] == entry_parts(e)[1]);
    assert(entry_parts(decoded)[6] == entry_parts(e)[6]);
    assert(entry_parts(decoded)[7] == entry_parts(e)[7]);
    assert(entry_parts(decoded)[8] == entry_parts(e)[8]);
    assert(entry_parts(decoded)[9] == entry_parts(e)[9]);
    assert(entry_parts(decoded)[10] == entry_parts(e)[10]);
    assert(entry_parts(decoded)[13] == entry_parts(e)[13]);
}

} // verus!
