//! Immutable, content-addressed objects.
//!
//! An object is stored under the lowercase hexadecimal SHA-256 of its bytes
//! and is verified against that address whenever it is handed out. The
//! in-memory authority keeps the same addressing and receipt boundary as a
//! durable one; only persistence is absent.

use crate::bytes::{hex_text, is_lower_hex_char, lemma_hex_text_len};
use crate::digest::{sha256_digest, sha256_hex, sha256_hex_text};
use crate::byte_map::{keys_of, lemma_dom_is_key_set, lemma_map_of_index, map_of, ByteMap};
use crate::engine::bytes_map;
use crate::error::{join, text, Error, Result};
use crate::function::{string_views, utf8};
use vstd::prelude::*;
use vstd::string::StrSliceExecFns;
use vstd::utf8::*;

verus! {

broadcast use {encode_utf8_decode_utf8, encode_utf8_valid_utf8, decode_utf8_encode_utf8};

/// The boundaries of one object publication, in order.
#[derive(Debug, Clone, Copy, PartialEq, Eq, Structural)]
pub enum ObjectStep {
    BeforeStageWrite,
    AfterStageSync,
    AfterPublish,
    BeforeVerify,
    AfterVerify,
}

/// Where an object authority keeps an object: the backend's name, the key
/// under it, and the version and entity tag it reported.
#[derive(Debug, Clone, PartialEq, Eq)]
pub struct ObjectReceipt {
    pub backend: String,
    pub key: String,
    pub version: Option<String>,
    pub etag: Option<String>,
}

/// What a reader holds of an object: its content address, its length, and
/// the receipt of the authority that stored it.
#[derive(Debug, Clone, PartialEq, Eq)]
pub struct ObjectReference {
    pub sha256: String,
    pub length: u64,
    pub receipt: ObjectReceipt,
}

/// An object whose bytes were checked against their content address.
#[derive(Debug, Clone, PartialEq, Eq)]
pub struct VerifiedObject {
    pub sha256: String,
    pub length: u64,
    pub receipt: ObjectReceipt,
}

/// The standing of one stored object.
#[derive(Debug, Clone, PartialEq, Eq)]
pub enum ObjectInventoryState {
    Reachable,
    Orphan,
    Corrupt { actual_sha256: String },
}

/// One stored object and its standing.
#[derive(Debug, Clone, PartialEq, Eq)]
pub struct ObjectInventoryEntry {
    pub sha256: String,
    pub length: u64,
    pub state: ObjectInventoryState,
}

/// Every stored object, and the staging and quarantine files beside them.
#[derive(Debug, Clone, PartialEq, Eq)]
pub struct ObjectInventory {
    pub entries: Vec<ObjectInventoryEntry>,
    pub staging_files: Vec<String>,
    pub quarantined_files: Vec<String>,
}

/// A content address: 64 lowercase hexadecimal digits.
pub open spec fn is_digest_text(s: Seq<char>) -> bool {
    s.len() == 64 && forall|i: int| 0 <= i < 64 ==> is_lower_hex_char(#[trigger] s[i])
}

/// The canonical key of the object with content address `sha256`: under
/// `objects/sha256/`, a bucket named by its first two digits.
pub open spec fn canonical_object_key(sha256: Seq<char>) -> Seq<char> {
    "objects/sha256/"@ + sha256.subrange(0, 2) + "/"@ + sha256
}

/// The SHA-256 text of any bytes is a content address.
pub proof fn lemma_sha256_hex_is_digest(bytes: Seq<u8>)
    requires
        sha256_hex_text(bytes).len() == 64,
    ensures
        is_digest_text(sha256_hex_text(bytes)),
{
    lemma_hex_text_len(sha256_digest(bytes));
}

/// Whether `value` is a content address.
pub fn is_digest(value: &str) -> (ok: bool)
    ensures
        ok == is_digest_text(value@),
{
    let n = value.unicode_len();
    if n != 64 {
        return false;
    }
    let mut i: usize = 0;
    while i < 64
        invariant
            value@.len() == 64,
            i <= 64,
            forall|j: int| 0 <= j < i ==> is_lower_hex_char(#[trigger] value@[j]),
        decreases 64 - i,
    {
        let c = value.get_char(i);
        let u = c as u32;
        if !((48 <= u && u <= 57) || (97 <= u && u <= 102)) {
            return false;
        }
        i = i + 1;
    }
    true
}

/// The canonical object key of a content address.
pub fn canonical_key(sha256: &str) -> (r: Result<String>)
    ensures
        r is Ok <==> is_digest_text(sha256@),
        r matches Ok(k) ==> k@ == canonical_object_key(sha256@),
        r matches Err(e) ==> e is Object,
{
    if !is_digest(sha256) {
        return Err(Error::Object(text("object address is not a lowercase SHA-256 digest")));
    }
    let bucket = sha256.substring_char(0, 2);
    let head = join("objects/sha256/", bucket);
    let head = join(head.as_str(), "/");
    let key = join(head.as_str(), sha256);
    proof {
        reveal_strlit("objects/sha256/");
        reveal_strlit("/");
    }
    Ok(key)
}

/// The receipt the in-memory authority issues for content address `sha256`.
pub open spec fn memory_receipt(r: ObjectReceipt, sha256: Seq<char>) -> bool {
    &&& r.backend@ == "memory"@
    &&& r.key@ == canonical_object_key(sha256)
    &&& r.version is None
    &&& r.etag matches Some(tag) && tag@ == sha256
}

/// `v` verifies `bytes` under the content address `sha256` in memory.
pub open spec fn verifies_in_memory(v: VerifiedObject, sha256: Seq<char>, bytes: Seq<u8>) -> bool {
    &&& v.sha256@ == sha256
    &&& v.length == bytes.len()
    &&& memory_receipt(v.receipt, sha256)
}

/// Process-local immutable bytes, each stored under its content address.
pub struct MemoryObjectStore {
    objects: ByteMap<Vec<u8>>,
}

impl MemoryObjectStore {
    /// The stored objects, by the UTF-8 bytes of their content address.
    pub closed spec fn contents(&self) -> Map<Seq<u8>, Seq<u8>> {
        bytes_map(self.objects@)
    }

    /// The stored objects in ascending address order.
    pub closed spec fn listing(&self) -> Seq<(Seq<u8>, Seq<u8>)> {
        self.objects.ordered().map_values(|e: (Vec<u8>, Vec<u8>)| (e.0@, e.1@))
    }

    /// Every object is stored under the content address of its bytes, and
    /// the listing holds exactly the stored objects, each address once.
    pub closed spec fn wf(&self) -> bool {
        &&& self.objects.wf()
        &&& forall|k: Seq<u8>| #[trigger] self.contents().contains_key(k) ==> k == utf8(sha256_hex_text(self.contents()[k]))
    }

    /// The address under which `bytes` are stored: the UTF-8 of their digest.
    pub open spec fn address_of(bytes: Seq<u8>) -> Seq<u8> {
        utf8(sha256_hex_text(bytes))
    }

    /// The listing holds each stored object once, in ascending address order.
    pub proof fn lemma_listing(&self)
        requires
            self.wf(),
        ensures
            self.contents().dom().finite(),
            self.listing().len() == self.contents().dom().len(),
            forall|i: int| 0 <= i < self.listing().len() ==> self.contents().contains_key(#[trigger] self.listing()[i].0)
                && self.contents()[self.listing()[i].0] == self.listing()[i].1,
    {
        let es = self.objects.ordered();
        lemma_dom_is_key_set(es);
        assert(self.contents().dom() =~= map_of(es).dom());
        assert forall|i: int| 0 <= i < self.listing().len() implies self.contents().contains_key(#[trigger] self.listing()[i].0)
            && self.contents()[self.listing()[i].0] == self.listing()[i].1 by {
            lemma_map_of_index(es, i);
        }
    }

    /// An empty store.
    pub fn new() -> (s: Self)
        ensures
            s.wf(),
            s.contents() == Map::<Seq<u8>, Seq<u8>>::empty(),
    {
        let s = MemoryObjectStore { objects: ByteMap::new() };
        assert(s.contents() =~= Map::<Seq<u8>, Seq<u8>>::empty());
        s
    }

    /// Checks `bytes` against the content address `sha256`.
    fn verified(sha256: &str, bytes: &[u8]) -> (r: Result<VerifiedObject>)
        ensures
            sha256_hex_text(bytes@) != sha256@ ==> (r matches Err(Error::ObjectCorrupt { expected, actual })
                && expected@ == sha256@ && actual@ == sha256_hex_text(bytes@)),
            sha256_hex_text(bytes@) == sha256@ ==> (r matches Ok(v) && verifies_in_memory(v, sha256@, bytes@)),
    {
        let actual = sha256_hex(bytes);
        let expected = sha256.to_owned();
        if actual != expected {
            return Err(Error::ObjectCorrupt { expected, actual });
        }
        proof {
            lemma_sha256_hex_is_digest(bytes@);
        }
        let key = canonical_key(sha256)?;
        proof {
            reveal_strlit("memory");
        }
        Ok(VerifiedObject {
            sha256: sha256.to_owned(),
            length: bytes.len() as u64,
            receipt: ObjectReceipt { backend: text("memory"), key, version: None, etag: Some(sha256.to_owned()) },
        })
    }

    /// Stores `bytes` under their content address, keeping what is already
    /// stored there, and hands back their verified receipt.
    pub fn put(&mut self, bytes: &[u8]) -> (r: Result<VerifiedObject>)
        requires
            old(self).wf(),
        ensures
            final(self).wf(),
            r matches Ok(v) && verifies_in_memory(v, sha256_hex_text(bytes@), bytes@),
            final(self).contents() == if old(self).contents().contains_key(Self::address_of(bytes@)) {
                old(self).contents()
            } else {
                old(self).contents().insert(Self::address_of(bytes@), bytes@)
            },
    {
        let sha256 = sha256_hex(bytes);
        let verified = Self::verified(sha256.as_str(), bytes)?;
        let key = sha256.as_str().as_bytes();
        let mut stored_key: Vec<u8> = Vec::new();
        crate::bytes::push_all(&mut stored_key, key);
        if self.objects.get(key).is_none() {
            let mut value: Vec<u8> = Vec::new();
            crate::bytes::push_all(&mut value, bytes);
            assert(value@ =~= bytes@);
            self.objects.insert(stored_key, value);
            proof {
                assert(self.contents() =~= old(self).contents().insert(Self::address_of(bytes@), bytes@));
            }
        }
        Ok(verified)
    }

    /// Stores bytes read for the declared content address `expected_sha256`
    /// and length `expected_length`; other bytes are refused before they
    /// become addressable.
    pub fn put_verified_stream(&mut self, expected_sha256: &str, expected_length: u64, bytes: &[u8]) -> (r: Result<VerifiedObject>)
        requires
            old(self).wf(),
        ensures
            final(self).wf(),
            bytes@.len() != expected_length ==> (r == Err::<VerifiedObject, Error>(Error::ObjectLengthMismatch {
                expected: expected_length,
                actual: bytes@.len() as u64,
            })),
            bytes@.len() == expected_length && sha256_hex_text(bytes@) != expected_sha256@ ==> (r matches Err(
                Error::ObjectCorrupt { expected, actual },
            ) && expected@ == expected_sha256@ && actual@ == sha256_hex_text(bytes@)),
            bytes@.len() == expected_length && sha256_hex_text(bytes@) == expected_sha256@ ==> (r matches Ok(v)
                && verifies_in_memory(v, expected_sha256@, bytes@)),
            r is Err ==> final(self).contents() == old(self).contents(),
            r is Ok ==> final(self).contents() == if old(self).contents().contains_key(Self::address_of(bytes@)) {
                old(self).contents()
            } else {
                old(self).contents().insert(Self::address_of(bytes@), bytes@)
            },
    {
        let actual_length = bytes.len() as u64;
        if actual_length != expected_length {
            return Err(Error::ObjectLengthMismatch { expected: expected_length, actual: actual_length });
        }
        let verified = Self::verified(expected_sha256, bytes)?;
        let key = expected_sha256.as_bytes();
        let mut stored_key: Vec<u8> = Vec::new();
        crate::bytes::push_all(&mut stored_key, key);
        if self.objects.get(key).is_none() {
            let mut value: Vec<u8> = Vec::new();
            crate::bytes::push_all(&mut value, bytes);
            assert(value@ =~= bytes@);
            self.objects.insert(stored_key, value);
            proof {
                assert(self.contents() =~= old(self).contents().insert(Self::address_of(bytes@), bytes@));
            }
        }
        Ok(verified)
    }

    /// The verified receipt of the object stored under `sha256`.
    pub fn verify(&self, sha256: &str) -> (r: Result<VerifiedObject>)
        requires
            self.wf(),
        ensures
            !self.contents().contains_key(utf8(sha256@)) ==> (r matches Err(Error::ObjectMissing(m)) && m@ == sha256@),
            self.contents().contains_key(utf8(sha256@)) ==> (r matches Ok(v)
                && verifies_in_memory(v, sha256@, self.contents()[utf8(sha256@)])),
    {
        match self.objects.get(sha256.as_bytes()) {
            None => Err(Error::ObjectMissing(sha256.to_owned())),
            Some(bytes) => {
                proof {
                    let k = utf8(sha256@);
                    assert(self.contents().contains_key(k));
                    assert(k == utf8(sha256_hex_text(self.contents()[k])));
                    crate::backup::lemma_utf8_injective(sha256_hex_text(self.contents()[k]), sha256@);
                }
                Self::verified(sha256, bytes.as_slice())
            },
        }
    }

    /// The bytes of the object `reference` names, once its receipt is shown
    /// to be this authority's and its bytes match its address and length.
    pub fn get(&self, reference: &ObjectReference) -> (r: Result<Vec<u8>>)
        requires
            self.wf(),
        ensures
            !is_digest_text(reference.sha256@) ==> r matches Err(Error::Object(_)),
            is_digest_text(reference.sha256@) && !(reference.receipt.backend@ == "memory"@
                && reference.receipt.key@ == canonical_object_key(reference.sha256@)) ==> r matches Err(Error::Object(_)),
            r is Ok <==> is_digest_text(reference.sha256@) && reference.receipt.backend@ == "memory"@
                && reference.receipt.key@ == canonical_object_key(reference.sha256@)
                && self.contents().contains_key(utf8(reference.sha256@))
                && self.contents()[utf8(reference.sha256@)].len() == reference.length,
            r matches Ok(bytes) ==> bytes@ == self.contents()[utf8(reference.sha256@)],
    {
        let canonical = canonical_key(reference.sha256.as_str())?;
        proof {
            reveal_strlit("memory");
        }
        if reference.receipt.backend != text("memory") || reference.receipt.key != canonical {
            return Err(Error::Object(text("object receipt does not belong to the memory object authority")));
        }
        let bytes = match self.objects.get(reference.sha256.as_str().as_bytes()) {
            None => {
                return Err(Error::ObjectMissing(reference.sha256.clone()));
            },
            Some(bytes) => bytes,
        };
        proof {
            let k = utf8(reference.sha256@);
            assert(self.contents().contains_key(k));
            assert(k == utf8(sha256_hex_text(self.contents()[k])));
            crate::backup::lemma_utf8_injective(sha256_hex_text(self.contents()[k]), reference.sha256@);
        }
        let verified = Self::verified(reference.sha256.as_str(), bytes.as_slice())?;
        if verified.length != reference.length {
            return Err(Error::ObjectLengthMismatch { expected: reference.length, actual: verified.length });
        }
        let mut out: Vec<u8> = Vec::new();
        crate::bytes::push_all(&mut out, bytes.as_slice());
        assert(out@ =~= bytes@);
        Ok(out)
    }

    /// Every stored object with its length, in ascending address order,
    /// reachable when `reachable` names its address and an orphan otherwise.
    pub fn inventory(&self, reachable: &Vec<String>) -> (r: Result<ObjectInventory>)
        requires
            self.wf(),
        ensures
            r matches Ok(inv) && {
                &&& inv.entries@.len() == self.listing().len()
                &&& forall|i: int| 0 <= i < inv.entries@.len() ==> {
                    let e = #[trigger] inv.entries@[i];
                    &&& utf8(e.sha256@) == self.listing()[i].0
                    &&& e.length == self.listing()[i].1.len()
                    &&& e.state == if string_views(reachable@).contains(e.sha256@) {
                        ObjectInventoryState::Reachable
                    } else {
                        ObjectInventoryState::Orphan
                    }
                }
                &&& inv.staging_files@.len() == 0
                &&& inv.quarantined_files@.len() == 0
            },
    {
        let mut entries: Vec<ObjectInventoryEntry> = Vec::new();
        let n = self.objects.len();
        let mut i: usize = 0;
        while i < n
            invariant
                self.wf(),
                n == self.objects.ordered().len(),
                i <= n,
                entries@.len() == i,
                forall|j: int| 0 <= j < i ==> {
                    let e = #[trigger] entries@[j];
                    &&& utf8(e.sha256@) == self.listing()[j].0
                    &&& e.length == self.listing()[j].1.len()
                    &&& e.state == if string_views(reachable@).contains(e.sha256@) {
                        ObjectInventoryState::Reachable
                    } else {
                        ObjectInventoryState::Orphan
                    }
                },
            decreases n - i,
        {
            let key = self.objects.key_at(i);
            let bytes = self.objects.value_at(i);
            proof {
                self.lemma_listing();
                assert(self.listing()[i as int] == (key@, bytes@));
                lemma_map_of_index(self.objects.ordered(), i as int);
                assert(self.objects@[key@] == *bytes);
                assert(self.contents().contains_key(key@));
                assert(self.contents()[key@] == bytes@);
                assert(key@ == utf8(sha256_hex_text(self.contents()[key@])));
            }
            let mut owned: Vec<u8> = Vec::new();
            crate::bytes::push_all(&mut owned, key.as_slice());
            assert(owned@ =~= key@);
            let sha256 = match crate::key_codec::utf8_text(owned) {
                Some(text) => text,
                None => {
                    return Err(Error::Object(text("stored object address is not UTF-8")));
                },
            };
            let verified = Self::verified(sha256.as_str(), bytes.as_slice())?;
            let state = if crate::function::contains_string(reachable, &sha256) {
                ObjectInventoryState::Reachable
            } else {
                ObjectInventoryState::Orphan
            };
            entries.push(ObjectInventoryEntry { sha256, length: verified.length, state });
            i = i + 1;
        }
        Ok(ObjectInventory { entries, staging_files: Vec::new(), quarantined_files: Vec::new() })
    }

    /// Removes the objects whose addresses `unreachable` names, and hands
    /// back the addresses that were present, in the order named.
    pub fn reclaim_orphans(&mut self, unreachable: &Vec<String>) -> (r: Result<Vec<String>>)
        requires
            old(self).wf(),
        ensures
            final(self).wf(),
            r matches Ok(removed) && (final(self).contents(), string_views(removed@)) == reclaim(old(self).contents(), string_views(unreachable@)),
            forall|k: Seq<u8>| !named(k, string_views(unreachable@)) ==> #[trigger] final(self).contents().contains_key(k)
                == old(self).contents().contains_key(k) && final(self).contents()[k] == old(self).contents()[k],
            forall|k: Seq<u8>| named(k, string_views(unreachable@)) ==> !#[trigger] final(self).contents().contains_key(k),
    {
        let mut removed: Vec<String> = Vec::new();
        let mut i: usize = 0;
        assert(string_views(unreachable@).take(0) =~= Seq::<Seq<char>>::empty());
        assert(string_views(removed@) =~= Seq::<Seq<char>>::empty());
        while i < unreachable.len()
            invariant
                self.wf(),
                i <= unreachable@.len(),
                (self.contents(), string_views(removed@)) == reclaim(old(self).contents(), string_views(unreachable@).take(i as int)),
            decreases unreachable@.len() - i,
        {
            let ghost before = self.contents();
            let ghost u = string_views(unreachable@);
            let sha256 = &unreachable[i];
            match self.objects.remove(sha256.as_str().as_bytes()) {
                Some(_) => {
                    removed.push(sha256.clone());
                    proof {
                        assert(self.contents() =~= before.remove(utf8(sha256@)));
                    }
                },
                None => {
                    proof {
                        assert(self.contents() =~= before);
                    }
                },
            }
            proof {
                assert(u.take(i + 1).drop_last() =~= u.take(i as int));
                assert(u.take(i + 1).last() == sha256@);
                assert(string_views(removed@) =~= reclaim(old(self).contents(), u.take(i + 1)).1);
            }
            i = i + 1;
        }
        proof {
            assert(string_views(unreachable@).take(unreachable@.len() as int) =~= string_views(unreachable@));
            lemma_reclaim_keeps(old(self).contents(), string_views(unreachable@));
        }
        Ok(removed)
    }
}

/// `k` is the UTF-8 address of one of `addresses`.
pub open spec fn named(k: Seq<u8>, addresses: Seq<Seq<char>>) -> bool {
    exists|i: int| 0 <= i < addresses.len() && k == utf8(#[trigger] addresses[i])
}

/// Removing the objects named by `addresses` in order from `contents`: what
/// is left, and the addresses that were present when their turn came.
pub open spec fn reclaim(contents: Map<Seq<u8>, Seq<u8>>, addresses: Seq<Seq<char>>) -> (Map<Seq<u8>, Seq<u8>>, Seq<Seq<char>>)
    decreases addresses.len(),
{
    if addresses.len() == 0 {
        (contents, Seq::empty())
    } else {
        let (left, removed) = reclaim(contents, addresses.drop_last());
        let k = utf8(addresses.last());
        if left.contains_key(k) {
            (left.remove(k), removed.push(addresses.last()))
        } else {
            (left, removed)
        }
    }
}

/// Reclamation leaves every unnamed object as it was and no named one.
pub proof fn lemma_reclaim_keeps(contents: Map<Seq<u8>, Seq<u8>>, addresses: Seq<Seq<char>>)
    ensures
        forall|k: Seq<u8>| !named(k, addresses) ==> #[trigger] reclaim(contents, addresses).0.contains_key(k)
            == contents.contains_key(k) && reclaim(contents, addresses).0[k] == contents[k],
        forall|k: Seq<u8>| named(k, addresses) ==> !#[trigger] reclaim(contents, addresses).0.contains_key(k),
    decreases addresses.len(),
{
    if addresses.len() > 0 {
        let rest = addresses.drop_last();
        lemma_reclaim_keeps(contents, rest);
        let left = reclaim(contents, rest).0;
        let last = utf8(addresses.last());
        assert(reclaim(contents, addresses).0 == if left.contains_key(last) { left.remove(last) } else { left });
        assert forall|k: Seq<u8>| !named(k, addresses) implies #[trigger] reclaim(contents, addresses).0.contains_key(k)
            == contents.contains_key(k) && reclaim(contents, addresses).0[k] == contents[k] by {
            if named(k, rest) {
                let i = choose|i: int| 0 <= i < rest.len() && k == utf8(#[trigger] rest[i]);
                assert(addresses[i] == rest[i]);
            }
            assert(k != utf8(addresses[addresses.len() - 1]));
        }
        assert forall|k: Seq<u8>| named(k, addresses) implies !#[trigger] reclaim(contents, addresses).0.contains_key(k) by {
            let i = choose|i: int| 0 <= i < addresses.len() && k == utf8(#[trigger] addresses[i]);
            if i < addresses.len() - 1 {
                assert(rest[i] == addresses[i]);
            }
        }
    }
}


/// A durable object authority rooted at one directory; objects live under
/// their canonical keys below it.
#[derive(Debug, Clone)]
pub struct LocalObjectStore {
    root: String,
}

impl LocalObjectStore {
    /// The directory the authority is rooted at.
    pub closed spec fn root_path(&self) -> Seq<char> {
        self.root@
    }

    /// The authority rooted at `root`, whose directories already exist.
    pub fn new(root: String) -> (s: Self)
        ensures
            s.root_path() == root@,
    {
        LocalObjectStore { root }
    }

    /// The directory the authority is rooted at.
    pub fn root(&self) -> (r: &str)
        ensures
            r@ == self.root_path(),
    {
        self.root.as_str()
    }

    /// The file that holds the object with content address `sha256`.
    pub fn object_path(&self, sha256: &str) -> (r: Result<String>)
        ensures
            r is Ok <==> is_digest_text(sha256@),
            r matches Ok(p) ==> p@ == crate::archive::path_join(self.root_path(), canonical_object_key(sha256@)),
    {
        let key = canonical_key(sha256)?;
        Ok(crate::archive::std_join(self.root.as_str(), key.as_str()))
    }

    /// The verified receipt of a local object whose file, named `sha256`,
    /// hashed to `actual` over `length` bytes.
    pub fn verified(sha256: &str, actual: &str, length: u64) -> (r: Result<VerifiedObject>)
        ensures
            actual@ != sha256@ ==> (r matches Err(Error::ObjectCorrupt { expected, actual: found })
                && expected@ == sha256@ && found@ == actual@),
            actual@ == sha256@ ==> (r is Ok <==> is_digest_text(sha256@)),
            r matches Ok(v) ==> {
                &&& v.sha256@ == sha256@
                &&& v.length == length
                &&& v.receipt.backend@ == "local"@
                &&& v.receipt.key@ == canonical_object_key(sha256@)
                &&& v.receipt.version is None
                &&& v.receipt.etag matches Some(tag) && tag@ == sha256@
            },
    {
        let expected = sha256.to_owned();
        let found = actual.to_owned();
        if found != expected {
            return Err(Error::ObjectCorrupt { expected, actual: found });
        }
        let key = canonical_key(sha256)?;
        proof {
            reveal_strlit("local");
        }
        Ok(VerifiedObject {
            sha256: expected,
            length,
            receipt: ObjectReceipt { backend: text("local"), key, version: None, etag: Some(sha256.to_owned()) },
        })
    }

    /// The standing of a stored file named `name` whose bytes hash to
    /// `actual`: corrupt when they do not match its name, else reachable
    /// when `reachable` names it, else an orphan.
    pub fn inventory_state(name: &str, actual: &str, reachable: &Vec<String>) -> (s: ObjectInventoryState)
        ensures
            actual@ != name@ ==> (s matches ObjectInventoryState::Corrupt { actual_sha256 } && actual_sha256@ == actual@),
            actual@ == name@ ==> s == if string_views(reachable@).contains(name@) {
                ObjectInventoryState::Reachable
            } else {
                ObjectInventoryState::Orphan
            },
    {
        let found = actual.to_owned();
        let named = name.to_owned();
        if found != named {
            ObjectInventoryState::Corrupt { actual_sha256: found }
        } else if crate::function::contains_string(reachable, &named) {
            ObjectInventoryState::Reachable
        } else {
            ObjectInventoryState::Orphan
        }
    }
}


/// What verifying the object already at a staged object's target found.
#[derive(Debug, Clone, Copy, PartialEq, Eq, Structural)]
pub enum TargetVerdict {
    /// No object is at the target.
    Absent,
    /// The object there verifies.
    Intact,
    /// The object there does not match its address.
    Corrupt,
}

/// What publishing a staged object does.
#[derive(Debug, Clone, Copy, PartialEq, Eq, Structural)]
pub enum StageAction {
    /// Rename the staged file into place.
    Publish,
    /// An intact copy is already in place: remove the staged file.
    DropStage,
    /// Quarantine the corrupt copy in place, then rename the staged file into place.
    QuarantineThenPublish,
}

/// What publishing a staged object does, given what is at its target.
pub fn stage_action(target: TargetVerdict) -> (a: StageAction)
    ensures
        a == match target {
            TargetVerdict::Absent => StageAction::Publish,
            TargetVerdict::Intact => StageAction::DropStage,
            TargetVerdict::Corrupt => StageAction::QuarantineThenPublish,
        },
{
    match target {
        TargetVerdict::Absent => StageAction::Publish,
        TargetVerdict::Intact => StageAction::DropStage,
        TargetVerdict::Corrupt => StageAction::QuarantineThenPublish,
    }
}

} // verus!
