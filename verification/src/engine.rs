//! rrflowMX: the process-local, multi-version snapshot store that every
//! semantic repository runs on, and its snapshot transactions.
//!
//! Every committed write is one version of its key, stamped with the next
//! store sequence. A transaction reads the versions at or below the sequence
//! it began at, overlaid with its own writes, and commits only when none of
//! the keys it writes gained a version after its snapshot.

use crate::byte_map::{keys_of, map_of, strictly_ascending, ByteMap};
use crate::bytes::{bytes_lt, lemma_lex_lt_irreflexive, lemma_lex_lt_transitive, lemma_lex_lt_trichotomy, lex_le, lex_lt};
use crate::digest::is_sha256;
use crate::error::{text, Error, Result};
use crate::keyspaces::is_sha256_text;
use vstd::string::StringSliceAdditionalSpecFns;
use crate::keyspaces::Durability;
use vstd::prelude::*;

verus! {

/// The bytes of an optional value.
pub open spec fn bytes_opt(o: Option<Vec<u8>>) -> Option<Seq<u8>> {
    match o {
        Some(v) => Some(v@),
        None => None,
    }
}

/// One committed version of a key: the store sequence that wrote it, and the
/// value, or `None` for a deletion.
pub struct StoredVersion {
    pub sequence: u64,
    pub value: Option<Vec<u8>>,
}

/// A version as a pair of its sequence and its bytes.
pub open spec fn version_view(v: StoredVersion) -> (u64, Option<Seq<u8>>) {
    (v.sequence, bytes_opt(v.value))
}

/// A key's versions, oldest first.
pub open spec fn chain_view(c: Vec<StoredVersion>) -> Seq<(u64, Option<Seq<u8>>)> {
    c@.map_values(|v: StoredVersion| version_view(v))
}

/// What a reader at `snapshot` sees of a key: its newest version whose
/// sequence is at most `snapshot`, or nothing.
pub open spec fn visible_at(chain: Seq<(u64, Option<Seq<u8>>)>, snapshot: int) -> Option<Seq<u8>>
    decreases chain.len(),
{
    if chain.len() == 0 {
        None
    } else if chain.last().0 <= snapshot {
        chain.last().1
    } else {
        visible_at(chain.drop_last(), snapshot)
    }
}

/// A map's values as byte strings.
pub open spec fn bytes_map(m: Map<Seq<u8>, Vec<u8>>) -> Map<Seq<u8>, Seq<u8>> {
    m.map_values(|v: Vec<u8>| v@)
}

/// Key-value pairs as byte strings.
pub open spec fn pairs_view(r: Vec<(Vec<u8>, Vec<u8>)>) -> Seq<(Seq<u8>, Seq<u8>)> {
    r@.map_values(|p: (Vec<u8>, Vec<u8>)| (p.0@, p.1@))
}

/// `k` lies in the half-open key range `[start, end)`.
pub open spec fn in_range(k: Seq<u8>, start: Seq<u8>, end: Seq<u8>) -> bool {
    lex_le(start, k) && lex_lt(k, end)
}

/// The sequence of the newest version in a chain, or 0 for an empty chain.
pub open spec fn latest_sequence(chain: Seq<(u64, Option<Seq<u8>>)>) -> int {
    if chain.len() == 0 {
        0
    } else {
        chain.last().0 as int
    }
}

/// Versions ascend strictly, are numbered from 1 and none is above `bound`.
pub open spec fn chain_ordered(chain: Seq<(u64, Option<Seq<u8>>)>, bound: int) -> bool {
    &&& forall|i: int, j: int| 0 <= i < j < chain.len() ==> #[trigger] chain[i].0 < #[trigger] chain[j].0
    &&& forall|i: int| 0 <= i < chain.len() ==> 1 <= #[trigger] chain[i].0 <= bound
}

/// The chain of `key` in `chains`, empty where the key was never written.
pub open spec fn chain_of(chains: Map<Seq<u8>, Seq<(u64, Option<Seq<u8>>)>>, key: Seq<u8>) -> Seq<(u64, Option<Seq<u8>>)> {
    if chains.contains_key(key) {
        chains[key]
    } else {
        Seq::empty()
    }
}

/// The chains after appending `writes` (key, value) in order, the `i`-th of
/// them as version `base + 1 + i`.
pub open spec fn apply_writes(
    chains: Map<Seq<u8>, Seq<(u64, Option<Seq<u8>>)>>,
    writes: Seq<(Seq<u8>, Option<Seq<u8>>)>,
    base: int,
) -> Map<Seq<u8>, Seq<(u64, Option<Seq<u8>>)>>
    decreases writes.len(),
{
    if writes.len() == 0 {
        chains
    } else {
        let prev = apply_writes(chains, writes.drop_last(), base);
        let k = writes.last().0;
        prev.insert(k, chain_of(prev, k).push(((base + writes.len()) as u64, writes.last().1)))
    }
}

/// The newest version sequence of the first written key, in write order,
/// that gained a version after `snapshot`.
pub open spec fn first_conflict(
    chains: Map<Seq<u8>, Seq<(u64, Option<Seq<u8>>)>>,
    writes: Seq<(Seq<u8>, Option<Seq<u8>>)>,
    snapshot: int,
) -> Option<u64>
    decreases writes.len(),
{
    if writes.len() == 0 {
        None
    } else if latest_sequence(chain_of(chains, writes[0].0)) > snapshot {
        Some(latest_sequence(chain_of(chains, writes[0].0)) as u64)
    } else {
        first_conflict(chains, writes.drop_first(), snapshot)
    }
}

/// `first_conflict` finds a conflict exactly when some written key gained a
/// version after `snapshot`.
pub proof fn lemma_first_conflict_exists(
    chains: Map<Seq<u8>, Seq<(u64, Option<Seq<u8>>)>>,
    writes: Seq<(Seq<u8>, Option<Seq<u8>>)>,
    snapshot: int,
)
    ensures
        first_conflict(chains, writes, snapshot) is Some <==> exists|i: int|
            0 <= i < writes.len() && latest_sequence(chain_of(chains, #[trigger] writes[i].0)) > snapshot,
    decreases writes.len(),
{
    if writes.len() > 0 {
        lemma_first_conflict_exists(chains, writes.drop_first(), snapshot);
        if first_conflict(chains, writes.drop_first(), snapshot) is Some {
            let i = choose|i: int| 0 <= i < writes.drop_first().len() && latest_sequence(chain_of(chains, #[trigger] writes.drop_first()[i].0)) > snapshot;
            assert(writes[i + 1] == writes.drop_first()[i]);
        }
        if exists|i: int| 0 <= i < writes.len() && latest_sequence(chain_of(chains, #[trigger] writes[i].0)) > snapshot {
            let i = choose|i: int| 0 <= i < writes.len() && latest_sequence(chain_of(chains, #[trigger] writes[i].0)) > snapshot;
            if i > 0 {
                assert(writes.drop_first()[i - 1] == writes[i]);
            }
        }
    }
}

/// A version appended above `snapshot` does not change what `snapshot` sees.
proof fn lemma_visible_push_above(chain: Seq<(u64, Option<Seq<u8>>)>, v: (u64, Option<Seq<u8>>), snapshot: int)
    requires
        v.0 > snapshot,
    ensures
        visible_at(chain.push(v), snapshot) == visible_at(chain, snapshot),
{
    assert(chain.push(v).drop_last() =~= chain);
}

/// Appending writes numbered above `base` leaves every read at or below
/// `base` as it was.
pub proof fn lemma_apply_writes_keeps_reads(
    chains: Map<Seq<u8>, Seq<(u64, Option<Seq<u8>>)>>,
    writes: Seq<(Seq<u8>, Option<Seq<u8>>)>,
    base: int,
    key: Seq<u8>,
    snapshot: int,
)
    requires
        0 <= base,
        base + writes.len() <= u64::MAX,
        snapshot <= base,
    ensures
        visible_at(chain_of(apply_writes(chains, writes, base), key), snapshot) == visible_at(chain_of(chains, key), snapshot),
    decreases writes.len(),
{
    if writes.len() > 0 {
        lemma_apply_writes_keeps_reads(chains, writes.drop_last(), base, key, snapshot);
        let prev = apply_writes(chains, writes.drop_last(), base);
        let k = writes.last().0;
        if k == key {
            lemma_visible_push_above(chain_of(prev, k), ((base + writes.len()) as u64, writes.last().1), snapshot);
        }
    }
}

/// The newest version of a chain whose versions are all at or below `bound`
/// is what `bound` sees.
proof fn lemma_visible_newest(chain: Seq<(u64, Option<Seq<u8>>)>, v: (u64, Option<Seq<u8>>), at: int)
    requires
        v.0 <= at,
    ensures
        visible_at(chain.push(v), at) == v.1,
{
}

/// Keys of a write sequence, in order.
pub open spec fn write_keys(writes: Seq<(Seq<u8>, Option<Seq<u8>>)>) -> Seq<Seq<u8>> {
    Seq::new(writes.len(), |i: int| writes[i].0)
}

/// After appending distinct-key writes, the newest read of a written key is
/// its write and of any other key is what the old newest read was.
pub proof fn lemma_apply_writes_newest(
    chains: Map<Seq<u8>, Seq<(u64, Option<Seq<u8>>)>>,
    writes: Seq<(Seq<u8>, Option<Seq<u8>>)>,
    base: int,
    key: Seq<u8>,
)
    requires
        0 <= base,
        base + writes.len() <= u64::MAX,
        forall|k: Seq<u8>| #[trigger] chains.contains_key(k) ==> chain_ordered(chains[k], base),
        strictly_ascending(write_keys(writes)),
    ensures
        forall|i: int| 0 <= i < writes.len() && #[trigger] writes[i].0 == key
            ==> visible_at(chain_of(apply_writes(chains, writes, base), key), base + writes.len()) == writes[i].1,
        (forall|i: int| 0 <= i < writes.len() ==> #[trigger] writes[i].0 != key)
            ==> visible_at(chain_of(apply_writes(chains, writes, base), key), base + writes.len()) == visible_at(chain_of(chains, key), base),
    decreases writes.len(),
{
    let ws = writes;
    if ws.len() == 0 {
    } else {
        let prev = apply_writes(chains, ws.drop_last(), base);
        let n = ws.len() - 1;
        let k = ws.last().0;
        assert(strictly_ascending(write_keys(ws.drop_last()))) by {
            assert forall|a: int, b: int| 0 <= a < b < write_keys(ws.drop_last()).len() implies lex_lt(#[trigger] write_keys(ws.drop_last())[a], #[trigger] write_keys(ws.drop_last())[b]) by {
                assert(write_keys(ws)[a] == write_keys(ws.drop_last())[a]);
                assert(write_keys(ws)[b] == write_keys(ws.drop_last())[b]);
            }
        }
        if k == key {
            lemma_visible_newest(chain_of(prev, k), ((base + ws.len()) as u64, ws.last().1), base + ws.len());
            assert(ws[n].0 == key);
            assert forall|c: int| 0 <= c < ws.len() && #[trigger] ws[c].0 == key
                implies visible_at(chain_of(apply_writes(chains, ws, base), key), base + ws.len()) == ws[c].1 by {
                if c != n {
                    assert(lex_lt(write_keys(ws)[c], write_keys(ws)[n]));
                    lemma_lex_lt_irreflexive(key);
                }
            }
        } else {
            lemma_apply_writes_newest(chains, ws.drop_last(), base, key);
            assert(apply_writes(chains, ws, base) == prev.insert(k, chain_of(prev, k).push(((base + ws.len()) as u64, ws.last().1))));
            assert(chain_of(apply_writes(chains, ws, base), key) == chain_of(prev, key));
            lemma_apply_writes_newest_below(chains, ws.drop_last(), base, key);
            assert forall|c: int| 0 <= c < ws.len() && #[trigger] ws[c].0 == key
                implies visible_at(chain_of(apply_writes(chains, ws, base), key), base + ws.len()) == ws[c].1 by {
                assert(ws.drop_last()[c] == ws[c]);
            }
            if forall|i: int| 0 <= i < ws.len() ==> #[trigger] ws[i].0 != key {
                assert forall|i: int| 0 <= i < ws.drop_last().len() implies #[trigger] ws.drop_last()[i].0 != key by {
                    assert(ws[i] == ws.drop_last()[i]);
                }
            }
        }
    }
}

/// With every version at or below `base + writes.len()`, a read at one
/// sequence above that bound sees the same as at the bound.
proof fn lemma_apply_writes_newest_below(
    chains: Map<Seq<u8>, Seq<(u64, Option<Seq<u8>>)>>,
    writes: Seq<(Seq<u8>, Option<Seq<u8>>)>,
    base: int,
    key: Seq<u8>,
)
    requires
        0 <= base,
        base + writes.len() <= u64::MAX,
        forall|k: Seq<u8>| #[trigger] chains.contains_key(k) ==> chain_ordered(chains[k], base),
    ensures
        visible_at(chain_of(apply_writes(chains, writes, base), key), base + writes.len() + 1)
            == visible_at(chain_of(apply_writes(chains, writes, base), key), base + writes.len()),
{
    lemma_apply_writes_bounded(chains, writes, base, key);
    lemma_visible_bounded(chain_of(apply_writes(chains, writes, base), key), base + writes.len(), base + writes.len() + 1);
}

/// Every version after appending `writes` is at most `base + writes.len()`.
proof fn lemma_apply_writes_bounded(
    chains: Map<Seq<u8>, Seq<(u64, Option<Seq<u8>>)>>,
    writes: Seq<(Seq<u8>, Option<Seq<u8>>)>,
    base: int,
    key: Seq<u8>,
)
    requires
        0 <= base,
        base + writes.len() <= u64::MAX,
        forall|k: Seq<u8>| #[trigger] chains.contains_key(k) ==> chain_ordered(chains[k], base),
    ensures
        forall|i: int| 0 <= i < chain_of(apply_writes(chains, writes, base), key).len()
            ==> #[trigger] chain_of(apply_writes(chains, writes, base), key)[i].0 <= base + writes.len(),
    decreases writes.len(),
{
    if writes.len() > 0 {
        lemma_apply_writes_bounded(chains, writes.drop_last(), base, key);
        let prev = apply_writes(chains, writes.drop_last(), base);
        let k = writes.last().0;
        let c = chain_of(apply_writes(chains, writes, base), key);
        if k == key {
            assert(c == chain_of(prev, k).push(((base + writes.len()) as u64, writes.last().1)));
            assert forall|i: int| 0 <= i < c.len() implies #[trigger] c[i].0 <= base + writes.len() by {
                if i < c.len() - 1 {
                    assert(c[i] == chain_of(prev, key)[i]);
                }
            }
        } else {
            assert(c == chain_of(prev, key));
        }
    } else {
        if chains.contains_key(key) {
            assert(chain_ordered(chains[key], base));
        }
    }
}

/// Reads at two sequences at or above every version agree.
proof fn lemma_visible_bounded(chain: Seq<(u64, Option<Seq<u8>>)>, bound: int, at: int)
    requires
        bound <= at,
        forall|i: int| 0 <= i < chain.len() ==> #[trigger] chain[i].0 <= bound,
    ensures
        visible_at(chain, at) == visible_at(chain, bound),
{
    if chain.len() > 0 {
        assert(chain[chain.len() - 1].0 <= bound);
    }
}

/// A key written by `writes` ends with a version above `base`.
proof fn lemma_apply_writes_raises_latest(
    chains: Map<Seq<u8>, Seq<(u64, Option<Seq<u8>>)>>,
    writes: Seq<(Seq<u8>, Option<Seq<u8>>)>,
    base: int,
    i: int,
)
    requires
        0 <= base,
        base + writes.len() <= u64::MAX,
        0 <= i < writes.len(),
    ensures
        latest_sequence(chain_of(apply_writes(chains, writes, base), writes[i].0)) > base,
    decreases writes.len(),
{
    let prev = apply_writes(chains, writes.drop_last(), base);
    let k = writes.last().0;
    if k != writes[i].0 {
        assert(i < writes.len() - 1);
        assert(writes.drop_last()[i] == writes[i]);
        lemma_apply_writes_raises_latest(chains, writes.drop_last(), base, i);
    }
}

/// The newest version of `chain` visible at `snapshot`.
fn visible_value(chain: &Vec<StoredVersion>, snapshot: u64) -> (v: Option<&Vec<u8>>)
    ensures
        match v {
            Some(bytes) => visible_at(chain_view(*chain), snapshot as int) == Some(bytes@),
            None => visible_at(chain_view(*chain), snapshot as int) is None,
        },
{
    let ghost cv = chain_view(*chain);
    let mut i: usize = chain.len();
    assert(cv.take(i as int) =~= cv);
    while i > 0
        invariant
            i <= chain@.len(),
            cv == chain_view(*chain),
            visible_at(cv, snapshot as int) == visible_at(cv.take(i as int), snapshot as int),
        decreases i,
    {
        let version = &chain[i - 1];
        assert(cv.take(i as int).last() == version_view(*version));
        if version.sequence <= snapshot {
            return match &version.value {
                Some(bytes) => Some(bytes),
                None => None,
            };
        }
        assert(cv.take(i as int).drop_last() =~= cv.take(i - 1));
        i = i - 1;
    }
    None
}

/// The newest version sequence of `chain`, or 0.
fn newest_sequence(chain: &Vec<StoredVersion>) -> (s: u64)
    ensures
        s == latest_sequence(chain_view(*chain)),
{
    if chain.len() == 0 {
        0
    } else {
        chain[chain.len() - 1].sequence
    }
}

/// An owned copy of optional bytes.
fn copy_opt(o: &Option<Vec<u8>>) -> (c: Option<Vec<u8>>)
    ensures
        bytes_opt(c) == bytes_opt(*o),
{
    match o {
        Some(v) => {
            let c = v.clone();
            assert(c@ =~= v@);
            Some(c)
        },
        None => None,
    }
}

/// An owned copy of a byte vector.
fn copy_bytes(v: &Vec<u8>) -> (c: Vec<u8>)
    ensures
        c@ == v@,
{
    let c = v.clone();
    assert(c@ =~= v@);
    c
}

/// rrflowMX: the process-local, volatile implementation of the storage port.
/// Nothing here survives the process.
pub struct RrflowMxStore {
    transaction_sequence: u64,
    transaction_values: ByteMap<Vec<StoredVersion>>,
}

impl RrflowMxStore {
    /// The sequence of the newest committed write; 0 for a fresh store.
    pub closed spec fn sequence(&self) -> u64 {
        self.transaction_sequence
    }

    /// Every written key's versions, oldest first.
    pub closed spec fn chains(&self) -> Map<Seq<u8>, Seq<(u64, Option<Seq<u8>>)>> {
        self.transaction_values@.map_values(|c: Vec<StoredVersion>| chain_view(c))
    }

    /// The store's invariant: versions of each key ascend and none is newer
    /// than the store sequence.
    pub closed spec fn wf(&self) -> bool {
        &&& self.transaction_values.wf()
        &&& forall|k: Seq<u8>| #[trigger] self.chains().contains_key(k) ==> chain_ordered(self.chains()[k], self.sequence() as int)
    }

    /// The value of `key` that a reader at `snapshot` sees.
    pub open spec fn read_at(&self, key: Seq<u8>, snapshot: int) -> Option<Seq<u8>> {
        visible_at(chain_of(self.chains(), key), snapshot)
    }

    /// `r` is what a scan of `[start, end)` with `limit` gives a reader at
    /// `snapshot` that wrote nothing: at most `limit` pairs, each a visible
    /// key in the range with its value, in strictly ascending key order, and
    /// every visible key in the range not past the last pair, or any at all
    /// when fewer than `limit` came back.
    pub open spec fn scan_matches(&self, snapshot: int, r: Seq<(Seq<u8>, Seq<u8>)>, start: Seq<u8>, end: Seq<u8>, limit: int) -> bool {
        &&& r.len() <= limit
        &&& forall|i: int| 0 <= i < r.len() ==> in_range(#[trigger] r[i].0, start, end) && self.read_at(r[i].0, snapshot) == Some(r[i].1)
        &&& forall|i: int, j: int| 0 <= i < j < r.len() ==> lex_lt(#[trigger] r[i].0, #[trigger] r[j].0)
        &&& forall|k: Seq<u8>| #[trigger] in_range(k, start, end) && self.read_at(k, snapshot) is Some
            && (r.len() < limit || (r.len() > 0 && lex_le(k, r.last().0)))
            ==> exists|i: int| 0 <= i < r.len() && r[i].0 == k
    }

    /// An empty store.
    pub fn new() -> (store: Self)
        ensures
            store.wf(),
            store.sequence() == 0,
            store.chains() == Map::<Seq<u8>, Seq<(u64, Option<Seq<u8>>)>>::empty(),
    {
        let store = RrflowMxStore { transaction_sequence: 0, transaction_values: ByteMap::new() };
        assert(store.chains() =~= Map::<Seq<u8>, Seq<(u64, Option<Seq<u8>>)>>::empty());
        store
    }

    /// The number of access observations recorded, as of the newest commit.
    pub fn observe_count(&self) -> (n: u64)
        requires
            self.wf(),
        ensures
            crate::repository::claims::counts_accesses(*self, n as int),
    {
        match crate::repository::claims::ClaimRepository::new().access_count(self) {
            Ok(n) => n as u64,
            Err(_) => 0,
        }
    }

    /// Begins a snapshot transaction at the newest committed sequence.
    pub fn begin_transaction(&self) -> (t: RrflowMxTransaction)
        ensures
            t.snapshot() == self.sequence(),
            t.writes() == Map::<Seq<u8>, Option<Seq<u8>>>::empty(),
            t.wf(),
    {
        let t = RrflowMxTransaction { snapshot_sequence: self.transaction_sequence, writes: TransactionWriteSet::new() };
        t
    }

    /// The versions of `key`, if it was ever written.
    fn chain(&self, key: &[u8]) -> (c: Option<&Vec<StoredVersion>>)
        requires
            self.wf(),
        ensures
            match c {
                Some(c) => self.chains().contains_key(key@) && chain_view(*c) == self.chains()[key@],
                None => !self.chains().contains_key(key@),
            },
    {
        self.transaction_values.get(key)
    }
}

/// The uncommitted writes of one transaction: for each key, the value it
/// will hold, or `None` for a deletion.
pub struct TransactionWriteSet {
    mutations: ByteMap<Option<Vec<u8>>>,
}

impl TransactionWriteSet {
    /// The pending writes.
    pub closed spec fn view(&self) -> Map<Seq<u8>, Option<Seq<u8>>> {
        self.mutations@.map_values(|o: Option<Vec<u8>>| bytes_opt(o))
    }

    /// The pending writes in ascending key order.
    pub closed spec fn ordered(&self) -> Seq<(Seq<u8>, Option<Seq<u8>>)> {
        self.mutations.ordered().map_values(|e: (Vec<u8>, Option<Vec<u8>>)| (e.0@, bytes_opt(e.1)))
    }

    pub closed spec fn wf(&self) -> bool {
        self.mutations.wf()
    }

    /// No pending write.
    pub fn new() -> (w: Self)
        ensures
            w.wf(),
            w@ == Map::<Seq<u8>, Option<Seq<u8>>>::empty(),
            w.ordered().len() == 0,
    {
        let w = TransactionWriteSet { mutations: ByteMap::new() };
        assert(w@ =~= Map::<Seq<u8>, Option<Seq<u8>>>::empty());
        w
    }

    /// The number of pending writes.
    pub fn len(&self) -> (n: usize)
        requires
            self.wf(),
        ensures
            n == self.ordered().len(),
    {
        self.mutations.len()
    }

    /// The pending write of `key`: `Some(Some(v))` for a put, `Some(None)`
    /// for a deletion, `None` where the key is untouched.
    pub fn get(&self, key: &[u8]) -> (w: Option<Option<Vec<u8>>>)
        requires
            self.wf(),
        ensures
            match w {
                Some(o) => self@.contains_key(key@) && self@[key@] == bytes_opt(o),
                None => !self@.contains_key(key@),
            },
    {
        match self.mutations.get(key) {
            Some(o) => Some(copy_opt(o)),
            None => None,
        }
    }

    /// Stages `value` under `key`.
    pub fn put(&mut self, key: Vec<u8>, value: Vec<u8>)
        requires
            old(self).wf(),
        ensures
            final(self).wf(),
            final(self)@ == old(self)@.insert(key@, Some(value@)),
    {
        let ghost k = key@;
        let ghost v = value@;
        self.mutations.insert(key, Some(value));
        assert(self@ =~= old(self)@.insert(k, Some(v)));
    }

    /// Stages the deletion of `key`.
    pub fn delete(&mut self, key: Vec<u8>)
        requires
            old(self).wf(),
        ensures
            final(self).wf(),
            final(self)@ == old(self)@.insert(key@, None),
    {
        let ghost k = key@;
        self.mutations.insert(key, None);
        assert(self@ =~= old(self)@.insert(k, None));
    }
}

/// What a committed transaction reports.
#[derive(Debug, Clone, Copy, PartialEq, Eq)]
pub struct TransactionCommit {
    pub snapshot_sequence: u64,
    pub mutation_count: usize,
    pub first_sequence: Option<u64>,
    pub last_sequence: Option<u64>,
}

/// What a rolled-back transaction reports.
#[derive(Debug, Clone, Copy, PartialEq, Eq)]
pub struct TransactionRollback {
    pub snapshot_sequence: u64,
    pub discarded_mutations: usize,
}

/// A snapshot transaction over an rrflowMX store.
pub struct RrflowMxTransaction {
    snapshot_sequence: u64,
    writes: TransactionWriteSet,
}

impl RrflowMxTransaction {
    /// The store sequence this transaction reads at.
    pub closed spec fn snapshot(&self) -> u64 {
        self.snapshot_sequence
    }

    /// The transaction's pending writes.
    pub closed spec fn writes(&self) -> Map<Seq<u8>, Option<Seq<u8>>> {
        self.writes@
    }

    /// The pending writes in ascending key order.
    pub closed spec fn ordered_writes(&self) -> Seq<(Seq<u8>, Option<Seq<u8>>)> {
        self.writes.ordered()
    }

    pub closed spec fn wf(&self) -> bool {
        self.writes.wf()
    }

    /// What this transaction reads of `key` on `store`: its own pending write
    /// where there is one, else the store at its snapshot.
    pub open spec fn reads(&self, store: &RrflowMxStore, key: Seq<u8>) -> Option<Seq<u8>> {
        if self.writes().contains_key(key) {
            self.writes()[key]
        } else {
            store.read_at(key, self.snapshot() as int)
        }
    }

    /// The store sequence this transaction reads at.
    pub fn snapshot_sequence(&self) -> (s: u64)
        ensures
            s == self.snapshot(),
    {
        self.snapshot_sequence
    }

    /// Reads `key`.
    pub fn get(&self, store: &RrflowMxStore, key: &[u8]) -> (v: Option<Vec<u8>>)
        requires
            self.wf(),
            store.wf(),
        ensures
            bytes_opt(v) == self.reads(store, key@),
    {
        match self.writes.get(key) {
            Some(o) => o,
            None => match store.chain(key) {
                Some(chain) => match visible_value(chain, self.snapshot_sequence) {
                    Some(bytes) => Some(copy_bytes(bytes)),
                    None => None,
                },
                None => None,
            },
        }
    }

    /// The keys in `[start, end)` that this transaction sees a value for,
    /// with those values.
    pub open spec fn visible_range(&self, store: &RrflowMxStore, start: Seq<u8>, end: Seq<u8>) -> Map<Seq<u8>, Seq<u8>> {
        Map::new(
            |k: Seq<u8>| in_range(k, start, end) && self.reads(store, k) is Some,
            |k: Seq<u8>| self.reads(store, k).unwrap(),
        )
    }

    /// `r` is what a scan of `[start, end)` with `limit` gives: at most
    /// `limit` pairs, each a key in the range with the value this transaction
    /// sees, in strictly ascending key order, and every visible key in the
    /// range that is not past the last pair, or any at all when fewer than
    /// `limit` came back.
    pub open spec fn is_scan_of(&self, store: &RrflowMxStore, r: Seq<(Seq<u8>, Seq<u8>)>, start: Seq<u8>, end: Seq<u8>, limit: int) -> bool {
        &&& r.len() <= limit
        &&& forall|i: int| 0 <= i < r.len() ==> in_range(#[trigger] r[i].0, start, end) && self.reads(store, r[i].0) == Some(r[i].1)
        &&& forall|i: int, j: int| 0 <= i < j < r.len() ==> lex_lt(#[trigger] r[i].0, #[trigger] r[j].0)
        &&& forall|k: Seq<u8>| #[trigger] in_range(k, start, end) && self.reads(store, k) is Some
            && (r.len() < limit || (r.len() > 0 && lex_le(k, r.last().0)))
            ==> exists|i: int| 0 <= i < r.len() && r[i].0 == k
    }

    /// The first `limit` keys in `[start, end)` that this transaction sees a
    /// value for, in ascending order, with their values.
    pub fn scan(&self, store: &RrflowMxStore, start: &[u8], end: &[u8], limit: usize) -> (r: Vec<(Vec<u8>, Vec<u8>)>)
        requires
            self.wf(),
            store.wf(),
        ensures
            self.is_scan_of(store, pairs_view(r), start@, end@, limit as int),
    {
        let snapshot = self.snapshot_sequence;
        let ghost skeys = store.transaction_values.ordered_keys();
        let ghost sentries = store.transaction_values.ordered();
        let mut visible: ByteMap<Vec<u8>> = ByteMap::new();
        let n = store.transaction_values.len();
        let mut i: usize = 0;
        assert(bytes_map(visible@) =~= Map::new(
            |k: Seq<u8>| in_range(k, start@, end@) && skeys.take(0).contains(k) && store.read_at(k, snapshot as int) is Some,
            |k: Seq<u8>| store.read_at(k, snapshot as int).unwrap(),
        ));
        while i < n
            invariant
                store.wf(),
                visible.wf(),
                n == sentries.len(),
                i <= n,
                skeys == store.transaction_values.ordered_keys(),
                sentries == store.transaction_values.ordered(),
                snapshot == self.snapshot(),
                bytes_map(visible@) == Map::new(
                    |k: Seq<u8>| in_range(k, start@, end@) && skeys.take(i as int).contains(k) && store.read_at(k, snapshot as int) is Some,
                    |k: Seq<u8>| store.read_at(k, snapshot as int).unwrap(),
                ),
            decreases n - i,
        {
            let key = store.transaction_values.key_at(i);
            let chain = store.transaction_values.value_at(i);
            proof {
                crate::byte_map::lemma_map_of_index(sentries, i as int);
                assert(skeys[i as int] == key@);
                assert(store.chains()[key@] == chain_view(*chain));
            }
            let ghost before = bytes_map(visible@);
            let in_start = !bytes_lt(key.as_slice(), start);
            let in_end = bytes_lt(key.as_slice(), end);
            proof {
                assert(store.chains().contains_key(key@));
                assert(chain_of(store.chains(), key@) == chain_view(*chain));
            }
            if in_start && in_end {
                match visible_value(chain, snapshot) {
                    Some(bytes) => {
                        let c = copy_bytes(bytes);
                        let ghost cv = c@;
                        visible.insert(copy_bytes(key), c);
                        proof {
                            assert(store.read_at(key@, snapshot as int) == Some(cv));
                            assert(bytes_map(visible@) =~= before.insert(key@, cv));
                        }
                    },
                    None => {
                        proof {
                            assert(store.read_at(key@, snapshot as int) is None);
                        }
                    },
                }
            }
            proof {
                lemma_lex_lt_trichotomy(key@, start@);
                assert(skeys.take(i + 1) =~= skeys.take(i as int).push(key@));
                assert(bytes_map(visible@) =~= Map::new(
                    |k: Seq<u8>| in_range(k, start@, end@) && skeys.take(i + 1).contains(k) && store.read_at(k, snapshot as int) is Some,
                    |k: Seq<u8>| store.read_at(k, snapshot as int).unwrap(),
                )) by {
                    assert forall|k: Seq<u8>| #[trigger] skeys.take(i + 1).contains(k) == (skeys.take(i as int).contains(k) || k == key@) by {
                        if k == key@ {
                            assert(skeys.take(i + 1)[i as int] == k);
                        }
                        if skeys.take(i + 1).contains(k) {
                            let w = choose|w: int| 0 <= w < skeys.take(i + 1).len() && #[trigger] skeys.take(i + 1)[w] == k;
                            if w < i {
                                assert(skeys.take(i as int)[w] == k);
                            }
                        }
                        if skeys.take(i as int).contains(k) {
                            let w = choose|w: int| 0 <= w < skeys.take(i as int).len() && #[trigger] skeys.take(i as int)[w] == k;
                            assert(skeys.take(i + 1)[w] == k);
                        }
                    }
                }
            }
            i = i + 1;
        }
        proof {
            assert(skeys.take(n as int) =~= skeys);
            assert(bytes_map(visible@) =~= Map::new(
                |k: Seq<u8>| in_range(k, start@, end@) && store.read_at(k, snapshot as int) is Some,
                |k: Seq<u8>| store.read_at(k, snapshot as int).unwrap(),
            )) by {
                assert forall|k: Seq<u8>| store.read_at(k, snapshot as int) is Some implies #[trigger] skeys.contains(k) by {
                    assert(store.chains().contains_key(k));
                    let w = choose|w: int| 0 <= w < sentries.len() && #[trigger] sentries[w].0@ == k;
                    assert(skeys[w] == k);
                }
            }
        }
        let ghost wkeys = self.writes.mutations.ordered_keys();
        let ghost went = self.writes.mutations.ordered();
        let m = self.writes.mutations.len();
        let mut j: usize = 0;
        assert(bytes_map(visible@) =~= Map::new(
            |k: Seq<u8>| in_range(k, start@, end@) && (if wkeys.take(0).contains(k) { self.writes()[k] } else { store.read_at(k, snapshot as int) }) is Some,
            |k: Seq<u8>| (if wkeys.take(0).contains(k) { self.writes()[k] } else { store.read_at(k, snapshot as int) }).unwrap(),
        ));
        while j < m
            invariant
                self.wf(),
                visible.wf(),
                m == went.len(),
                j <= m,
                wkeys == self.writes.mutations.ordered_keys(),
                went == self.writes.mutations.ordered(),
                snapshot == self.snapshot(),
                bytes_map(visible@) == Map::new(
                    |k: Seq<u8>| in_range(k, start@, end@) && (if wkeys.take(j as int).contains(k) { self.writes()[k] } else { store.read_at(k, snapshot as int) }) is Some,
                    |k: Seq<u8>| (if wkeys.take(j as int).contains(k) { self.writes()[k] } else { store.read_at(k, snapshot as int) }).unwrap(),
                ),
            decreases m - j,
        {
            let key = self.writes.mutations.key_at(j);
            let value = self.writes.mutations.value_at(j);
            proof {
                crate::byte_map::lemma_map_of_index(went, j as int);
                assert(wkeys[j as int] == key@);
                assert(self.writes()[key@] == bytes_opt(*value));
                assert(!wkeys.take(j as int).contains(key@)) by {
                    if wkeys.take(j as int).contains(key@) {
                        let w = choose|w: int| 0 <= w < wkeys.take(j as int).len() && #[trigger] wkeys.take(j as int)[w] == key@;
                        assert(lex_lt(wkeys[w], wkeys[j as int]));
                        lemma_lex_lt_irreflexive(key@);
                    }
                }
            }
            let ghost before = bytes_map(visible@);
            let in_start = !bytes_lt(key.as_slice(), start);
            let in_end = bytes_lt(key.as_slice(), end);
            if in_start && in_end {
                match value {
                    Some(bytes) => {
                        visible.insert(copy_bytes(key), copy_bytes(bytes));
                        proof {
                            assert(bytes_map(visible@) =~= before.insert(key@, bytes@));
                        }
                    },
                    None => {
                        let _ = visible.remove(key.as_slice());
                        proof {
                            assert(bytes_map(visible@) =~= before.remove(key@));
                        }
                    },
                }
            }
            proof {
                lemma_lex_lt_trichotomy(key@, start@);
                assert forall|k: Seq<u8>| #[trigger] wkeys.take(j + 1).contains(k) == (wkeys.take(j as int).contains(k) || k == key@) by {
                    if k == key@ {
                        assert(wkeys.take(j + 1)[j as int] == k);
                    }
                    if wkeys.take(j + 1).contains(k) {
                        let w = choose|w: int| 0 <= w < wkeys.take(j + 1).len() && #[trigger] wkeys.take(j + 1)[w] == k;
                        if w < j {
                            assert(wkeys.take(j as int)[w] == k);
                        }
                    }
                    if wkeys.take(j as int).contains(k) {
                        let w = choose|w: int| 0 <= w < wkeys.take(j as int).len() && #[trigger] wkeys.take(j as int)[w] == k;
                        assert(wkeys.take(j + 1)[w] == k);
                    }
                }
                assert(bytes_map(visible@) =~= Map::new(
                    |k: Seq<u8>| in_range(k, start@, end@) && (if wkeys.take(j + 1).contains(k) { self.writes()[k] } else { store.read_at(k, snapshot as int) }) is Some,
                    |k: Seq<u8>| (if wkeys.take(j + 1).contains(k) { self.writes()[k] } else { store.read_at(k, snapshot as int) }).unwrap(),
                ));
            }
            j = j + 1;
        }
        proof {
            assert(wkeys.take(m as int) =~= wkeys);
            assert forall|k: Seq<u8>| #[trigger] wkeys.contains(k) == self.writes().contains_key(k) by {
                if wkeys.contains(k) {
                    let w = choose|w: int| 0 <= w < wkeys.len() && #[trigger] wkeys[w] == k;
                    assert(went[w].0@ == k);
                }
                if self.writes().contains_key(k) {
                    let w = choose|w: int| 0 <= w < went.len() && #[trigger] went[w].0@ == k;
                    assert(wkeys[w] == k);
                }
            }
            assert(bytes_map(visible@) =~= self.visible_range(store, start@, end@));
        }
        let total = visible.len();
        let count = if limit < total { limit } else { total };
        let ghost vent = visible.ordered();
        let mut out: Vec<(Vec<u8>, Vec<u8>)> = Vec::new();
        let mut p: usize = 0;
        while p < count
            invariant
                visible.wf(),
                vent == visible.ordered(),
                count <= vent.len(),
                p <= count,
                out.len() == p,
                forall|q: int| 0 <= q < p ==> (#[trigger] out[q]).0@ == vent[q].0@ && out[q].1@ == vent[q].1@,
            decreases count - p,
        {
            let key = copy_bytes(visible.key_at(p));
            let value = copy_bytes(visible.value_at(p));
            out.push((key, value));
            p = p + 1;
        }
        proof {
            let vk = keys_of(vent);
            assert forall|q: int| 0 <= q < out.len() implies in_range(#[trigger] out[q].0@, start@, end@) && self.reads(store, out[q].0@) == Some(out[q].1@) by {
                crate::byte_map::lemma_map_of_index(vent, q);
                let k = vent[q].0@;
                assert(visible@.contains_key(k));
                assert(bytes_map(visible@).contains_key(k));
                assert(bytes_map(visible@)[k] == visible@[k]@);
                assert(self.visible_range(store, start@, end@).contains_key(k));
            }
            assert forall|a: int, b: int| 0 <= a < b < out.len() implies lex_lt(#[trigger] out[a].0@, #[trigger] out[b].0@) by {
                assert(vk[a] == out[a].0@ && vk[b] == out[b].0@);
            }
            assert forall|k: Seq<u8>| #[trigger] in_range(k, start@, end@) && self.reads(store, k) is Some
                && (out.len() < limit || (out.len() > 0 && lex_le(k, out@.last().0@)))
                implies exists|q: int| 0 <= q < out.len() && out[q].0@ == k by {
                assert(bytes_map(visible@).contains_key(k));
                let w = choose|w: int| 0 <= w < vent.len() && #[trigger] vent[w].0@ == k;
                if w >= out.len() {
                    assert(out.len() == limit);
                    let last = out.len() - 1;
                    assert(vk[last] == out@.last().0@);
                    assert(lex_lt(vk[last], vk[w]));
                    lemma_lex_lt_trichotomy(vk[last], k);
                } else {
                    assert(out[w].0@ == k);
                }
            }
            let pv = pairs_view(out);
            assert forall|i: int| 0 <= i < pv.len() implies in_range(#[trigger] pv[i].0, start@, end@) && self.reads(store, pv[i].0) == Some(pv[i].1) by {
                assert(pv[i].0 == out[i].0@);
            }
            assert forall|a: int, b: int| 0 <= a < b < pv.len() implies lex_lt(#[trigger] pv[a].0, #[trigger] pv[b].0) by {
                assert(pv[a].0 == out[a].0@);
                assert(pv[b].0 == out[b].0@);
            }
            assert forall|k: Seq<u8>| #[trigger] in_range(k, start@, end@) && self.reads(store, k) is Some
                && (pv.len() < limit || (pv.len() > 0 && lex_le(k, pv.last().0)))
                implies exists|i: int| 0 <= i < pv.len() && pv[i].0 == k by {
                if pv.len() > 0 {
                    assert(pv.last().0 == out@.last().0@);
                }
                let q = choose|q: int| 0 <= q < out.len() && out[q].0@ == k;
                assert(pv[q].0 == k);
            }
        }
        out
    }

    /// Stages `value` under `key`.
    pub fn put(&mut self, key: Vec<u8>, value: Vec<u8>)
        requires
            old(self).wf(),
        ensures
            final(self).wf(),
            final(self).snapshot() == old(self).snapshot(),
            final(self).writes() == old(self).writes().insert(key@, Some(value@)),
    {
        self.writes.put(key, value);
    }

    /// Stages the deletion of `key`.
    pub fn delete(&mut self, key: Vec<u8>)
        requires
            old(self).wf(),
        ensures
            final(self).wf(),
            final(self).snapshot() == old(self).snapshot(),
            final(self).writes() == old(self).writes().insert(key@, None),
    {
        self.writes.delete(key);
    }

    /// Publishes the pending writes.
    ///
    /// A transaction without writes commits without touching the store. A
    /// transaction one of whose keys gained a version after its snapshot is
    /// refused with the newest sequence of the first such key in key order,
    /// and the store is left as it was; so is a commit whose sequences would
    /// pass `u64::MAX`. Otherwise the `i`-th write in key order becomes
    /// version `sequence + 1 + i` of its key.
    pub fn commit(self, store: &mut RrflowMxStore, durability: Durability) -> (r: Result<TransactionCommit>)
        requires
            self.wf(),
            old(store).wf(),
        ensures
            final(store).wf(),
            self.ordered_writes().len() == 0 ==> r == Ok::<TransactionCommit, Error>(TransactionCommit {
                snapshot_sequence: self.snapshot(),
                mutation_count: 0,
                first_sequence: None,
                last_sequence: None,
            }) && *final(store) == *old(store),
            self.ordered_writes().len() > 0 && first_conflict(old(store).chains(), self.ordered_writes(), self.snapshot() as int) is Some
                ==> r == Err::<TransactionCommit, Error>(Error::TransactionConflict {
                snapshot_sequence: self.snapshot(),
                conflicting_sequence: first_conflict(old(store).chains(), self.ordered_writes(), self.snapshot() as int).unwrap(),
            }) && *final(store) == *old(store),
            self.ordered_writes().len() > 0 && first_conflict(old(store).chains(), self.ordered_writes(), self.snapshot() as int) is None
                && old(store).sequence() + self.ordered_writes().len() > u64::MAX
                ==> r == Err::<TransactionCommit, Error>(Error::SequenceOverflow) && *final(store) == *old(store),
            self.ordered_writes().len() > 0 && first_conflict(old(store).chains(), self.ordered_writes(), self.snapshot() as int) is None
                && old(store).sequence() + self.ordered_writes().len() <= u64::MAX ==> {
                &&& r == Ok::<TransactionCommit, Error>(TransactionCommit {
                    snapshot_sequence: self.snapshot(),
                    mutation_count: self.ordered_writes().len() as usize,
                    first_sequence: Some((old(store).sequence() + 1) as u64),
                    last_sequence: Some((old(store).sequence() + self.ordered_writes().len()) as u64),
                })
                &&& final(store).sequence() == old(store).sequence() + self.ordered_writes().len()
                &&& final(store).chains() == apply_writes(old(store).chains(), self.ordered_writes(), old(store).sequence() as int)
            },
            r is Ok ==> forall|k: Seq<u8>, s: int| s <= old(store).sequence() ==> #[trigger] final(store).read_at(k, s) == old(store).read_at(k, s),
            r is Ok ==> forall|k: Seq<u8>| #[trigger] final(store).read_at(k, final(store).sequence() as int) == (
                if self.writes().contains_key(k) { self.writes()[k] } else { old(store).read_at(k, old(store).sequence() as int) }),
    {
        let _ = durability;
        let n = self.writes.len();
        let snapshot = self.snapshot_sequence;
        let ghost ws = self.ordered_writes();
        let ghost chains0 = store.chains();
        if n == 0 {
            return Ok(TransactionCommit { snapshot_sequence: snapshot, mutation_count: 0, first_sequence: None, last_sequence: None });
        }
        let mut i: usize = 0;
        assert(ws.skip(0) =~= ws);
        while i < n
            invariant
                self.wf(),
                store.wf(),
                store.chains() == chains0,
                ws == self.ordered_writes(),
                n == ws.len(),
                i <= n,
                snapshot == self.snapshot(),
                first_conflict(chains0, ws, snapshot as int) == first_conflict(chains0, ws.skip(i as int), snapshot as int),
            decreases n - i,
        {
            let key = self.writes.mutations.key_at(i);
            proof {
                assert(ws.skip(i as int)[0] == ws[i as int]);
                assert(ws[i as int].0 == key@);
                assert(ws.skip(i as int).drop_first() =~= ws.skip(i + 1));
            }
            match store.chain(key.as_slice()) {
                Some(chain) => {
                    let latest = newest_sequence(chain);
                    if latest > snapshot {
                        return Err(Error::TransactionConflict { snapshot_sequence: snapshot, conflicting_sequence: latest });
                    }
                },
                None => {},
            }
            i = i + 1;
        }
        assert(ws.skip(n as int).len() == 0);
        let count = n as u64;
        let base = store.transaction_sequence;
        if base > u64::MAX - count {
            return Err(Error::SequenceOverflow);
        }
        let mut j: usize = 0;
        assert(ws.take(0).len() == 0);
        assert(apply_writes(chains0, ws.take(0), base as int) == chains0);
        while j < n
            invariant
                self.wf(),
                ws == self.ordered_writes(),
                n == ws.len(),
                j <= n,
                base as int + n <= u64::MAX,
                store.transaction_sequence == base,
                base == old(store).sequence(),
                chains0 == old(store).chains(),
                store.transaction_values.wf(),
                forall|k: Seq<u8>| #[trigger] store.chains().contains_key(k) ==> chain_ordered(store.chains()[k], base + j),
                store.chains() == apply_writes(chains0, ws.take(j as int), base as int),
            decreases n - j,
        {
            let key = copy_bytes(self.writes.mutations.key_at(j));
            let value = copy_opt(self.writes.mutations.value_at(j));
            let ghost before = store.chains();
            let ghost kv = key@;
            let removed = store.transaction_values.remove(key.as_slice());
            let mut chain = match removed {
                Some(c) => c,
                None => Vec::new(),
            };
            let ghost cv = chain_view(chain);
            proof {
                assert(cv == chain_of(before, kv));
            }
            let sequence = base + 1 + j as u64;
            chain.push(StoredVersion { sequence, value });
            proof {
                assert(chain_view(chain) =~= cv.push((sequence, ws[j as int].1)));
            }
            store.transaction_values.insert(key, chain);
            proof {
                assert(ws[j as int].0 == kv);
                assert(ws.take(j + 1).drop_last() =~= ws.take(j as int));
                assert(ws.take(j + 1).last() == ws[j as int]);
                assert(store.chains() =~= before.insert(kv, chain_of(before, kv).push((sequence, ws[j as int].1))));
                assert forall|k: Seq<u8>| #[trigger] store.chains().contains_key(k) implies chain_ordered(store.chains()[k], base + j + 1) by {
                    if k == kv {
                        let c = store.chains()[k];
                        assert(c == cv.push((sequence, ws[j as int].1)));
                        if before.contains_key(k) {
                            assert(chain_ordered(before[k], base + j));
                        }
                        assert forall|a: int, b: int| 0 <= a < b < c.len() implies #[trigger] c[a].0 < #[trigger] c[b].0 by {
                            if b == c.len() - 1 {
                                assert(c[a] == cv[a]);
                            } else {
                                assert(c[a] == cv[a] && c[b] == cv[b]);
                            }
                        }
                        assert forall|a: int| 0 <= a < c.len() implies 1 <= #[trigger] c[a].0 <= base + j + 1 by {
                            if a < c.len() - 1 {
                                assert(c[a] == cv[a]);
                            }
                        }
                    } else {
                        assert(store.chains()[k] == before[k]);
                    }
                }
            }
            j = j + 1;
        }
        store.transaction_sequence = base + count;
        proof {
            assert(ws.take(n as int) =~= ws);
            assert(store.wf());
            assert forall|k: Seq<u8>, s: int| s <= old(store).sequence() implies #[trigger] store.read_at(k, s) == old(store).read_at(k, s) by {
                lemma_apply_writes_keeps_reads(chains0, ws, base as int, k, s);
            }
            assert(strictly_ascending(write_keys(ws))) by {
                assert forall|a: int, b: int| 0 <= a < b < write_keys(ws).len() implies lex_lt(#[trigger] write_keys(ws)[a], #[trigger] write_keys(ws)[b]) by {
                    assert(write_keys(ws)[a] == self.writes.mutations.ordered_keys()[a]);
                    assert(write_keys(ws)[b] == self.writes.mutations.ordered_keys()[b]);
                }
            }
            assert forall|k: Seq<u8>| #[trigger] store.read_at(k, store.sequence() as int) == (
                if self.writes().contains_key(k) { self.writes()[k] } else { old(store).read_at(k, old(store).sequence() as int) }) by {
                lemma_apply_writes_newest(chains0, ws, base as int, k);
                assert(store.chains() == apply_writes(chains0, ws, base as int));
                assert(store.sequence() as int == base as int + ws.len());
                let went = self.writes.mutations.ordered();
                if self.writes().contains_key(k) {
                    let w = choose|w: int| 0 <= w < went.len() && #[trigger] went[w].0@ == k;
                    crate::byte_map::lemma_map_of_index(went, w);
                    assert(ws[w].0 == k);
                    assert(self.writes.mutations@.contains_key(k));
                    assert(self.writes()[k] == bytes_opt(self.writes.mutations@[k]));
                    assert(ws[w].1 == bytes_opt(went[w].1));
                } else {
                    assert forall|i: int| 0 <= i < ws.len() implies #[trigger] ws[i].0 != k by {
                        if ws[i].0 == k {
                            assert(went[i].0@ == k);
                            assert(self.writes.mutations@.contains_key(k));
                        }
                    }
                }
            }
        }
        Ok(TransactionCommit { snapshot_sequence: snapshot, mutation_count: n, first_sequence: Some(base + 1), last_sequence: Some(base + count) })
    }

    /// Discards the pending writes.
    pub fn rollback(self) -> (r: TransactionRollback)
        requires
            self.wf(),
        ensures
            r.snapshot_sequence == self.snapshot(),
            r.discarded_mutations == self.ordered_writes().len(),
    {
        TransactionRollback { snapshot_sequence: self.snapshot_sequence, discarded_mutations: self.writes.len() }
    }
}

/// Physical counters attributed to one logical operation. Counters are
/// cumulative; a backend without stable physical counters reports
/// `logical_only` evidence and leaves every counter empty.
#[derive(Debug, Clone, PartialEq, Eq)]
pub struct PhysicalStoreEvidence {
    pub backend: String,
    pub evidence_level: String,
    pub physical_sequence: Option<u64>,
    pub manifest_generation: Option<u64>,
    pub durable_sequence: Option<u64>,
    pub memtable_versions: Option<u64>,
    pub memtable_bytes: Option<u64>,
    pub memtable_keys: Option<u64>,
    pub memtable_key_payload_bytes: Option<u64>,
    pub memtable_value_payload_bytes: Option<u64>,
    pub memtable_tombstones: Option<u64>,
    pub memtable_spilled_chains: Option<u64>,
    pub memtable_spilled_version_capacity: Option<u64>,
    pub memtable_version_record_bytes: Option<u64>,
    pub memtable_owned_bytes_lower_bound: Option<u64>,
    pub memtable_max_versions: Option<u64>,
    pub wal_payload_bytes: Option<u64>,
    pub wal_payload_max_bytes: Option<u64>,
    pub automatic_flushes: Option<u64>,
    pub maintenance_write_stalls: Option<u64>,
    pub failed_maintenance_flushes: Option<u64>,
    pub oversized_batches: Option<u64>,
    pub automatic_compactions: Option<u64>,
    pub failed_compactions: Option<u64>,
    pub compaction_input_bytes: Option<u64>,
    pub compaction_output_bytes: Option<u64>,
    pub peak_compaction_buffer_bytes: Option<u64>,
    pub l0_segment_count: Option<u64>,
    pub l0_compaction_trigger: Option<u64>,
    pub compaction_debt_segments: Option<u64>,
    pub compaction_target_segment_bytes: Option<u64>,
    pub segment_count: Option<u64>,
    pub segment_bytes: Option<u64>,
    pub cache_capacity_bytes: Option<u64>,
    pub cache_resident_bytes: Option<u64>,
    pub cache_entries: Option<u64>,
    pub cache_hits: Option<u64>,
    pub cache_misses: Option<u64>,
    pub cache_evictions: Option<u64>,
    pub block_loads: Option<u64>,
    pub block_bytes_loaded: Option<u64>,
    pub block_bytes_decoded: Option<u64>,
    pub filter_checks: Option<u64>,
    pub filter_negatives: Option<u64>,
    pub segment_io_requested_mode: Option<String>,
    pub segment_io_mmap_segments: Option<u64>,
    pub segment_io_uring_segments: Option<u64>,
    pub segment_io_bounded_segments: Option<u64>,
    pub segment_io_fallbacks: Option<u64>,
    pub segment_io_last_fallback: Option<String>,
    pub segment_io_read_operations: Option<u64>,
    pub segment_io_mmap_reads: Option<u64>,
    pub segment_io_uring_reads: Option<u64>,
    pub segment_io_bounded_reads: Option<u64>,
    pub segment_io_bytes_read: Option<u64>,
    pub segment_io_max_request_bytes: Option<u64>,
    pub segment_io_peak_request_bytes: Option<u64>,
}

impl PhysicalStoreEvidence {
    /// Every physical counter is absent.
    pub open spec fn has_no_counters(&self) -> bool {
        &&& self.physical_sequence is None
        &&& self.manifest_generation is None
        &&& self.durable_sequence is None
        &&& self.memtable_versions is None
        &&& self.memtable_bytes is None
        &&& self.memtable_keys is None
        &&& self.memtable_key_payload_bytes is None
        &&& self.memtable_value_payload_bytes is None
        &&& self.memtable_tombstones is None
        &&& self.memtable_spilled_chains is None
        &&& self.memtable_spilled_version_capacity is None
        &&& self.memtable_version_record_bytes is None
        &&& self.memtable_owned_bytes_lower_bound is None
        &&& self.memtable_max_versions is None
        &&& self.wal_payload_bytes is None
        &&& self.wal_payload_max_bytes is None
        &&& self.automatic_flushes is None
        &&& self.maintenance_write_stalls is None
        &&& self.failed_maintenance_flushes is None
        &&& self.oversized_batches is None
        &&& self.automatic_compactions is None
        &&& self.failed_compactions is None
        &&& self.compaction_input_bytes is None
        &&& self.compaction_output_bytes is None
        &&& self.peak_compaction_buffer_bytes is None
        &&& self.l0_segment_count is None
        &&& self.l0_compaction_trigger is None
        &&& self.compaction_debt_segments is None
        &&& self.compaction_target_segment_bytes is None
        &&& self.segment_count is None
        &&& self.segment_bytes is None
        &&& self.cache_capacity_bytes is None
        &&& self.cache_resident_bytes is None
        &&& self.cache_entries is None
        &&& self.cache_hits is None
        &&& self.cache_misses is None
        &&& self.cache_evictions is None
        &&& self.block_loads is None
        &&& self.block_bytes_loaded is None
        &&& self.block_bytes_decoded is None
        &&& self.filter_checks is None
        &&& self.filter_negatives is None
        &&& self.segment_io_requested_mode is None
        &&& self.segment_io_mmap_segments is None
        &&& self.segment_io_uring_segments is None
        &&& self.segment_io_bounded_segments is None
        &&& self.segment_io_fallbacks is None
        &&& self.segment_io_last_fallback is None
        &&& self.segment_io_read_operations is None
        &&& self.segment_io_mmap_reads is None
        &&& self.segment_io_uring_reads is None
        &&& self.segment_io_bounded_reads is None
        &&& self.segment_io_bytes_read is None
        &&& self.segment_io_max_request_bytes is None
        &&& self.segment_io_peak_request_bytes is None
    }

    /// Evidence of a backend without physical counters.
    pub fn logical_only(backend: &str) -> (e: Self)
        ensures
            e.backend@ == backend@,
            e.evidence_level@ == "logical_only"@,
            e.has_no_counters(),
    {
        PhysicalStoreEvidence {
            backend: text(backend),
            evidence_level: text("logical_only"),
            physical_sequence: None,
            manifest_generation: None,
            durable_sequence: None,
            memtable_versions: None,
            memtable_bytes: None,
            memtable_keys: None,
            memtable_key_payload_bytes: None,
            memtable_value_payload_bytes: None,
            memtable_tombstones: None,
            memtable_spilled_chains: None,
            memtable_spilled_version_capacity: None,
            memtable_version_record_bytes: None,
            memtable_owned_bytes_lower_bound: None,
            memtable_max_versions: None,
            wal_payload_bytes: None,
            wal_payload_max_bytes: None,
            automatic_flushes: None,
            maintenance_write_stalls: None,
            failed_maintenance_flushes: None,
            oversized_batches: None,
            automatic_compactions: None,
            failed_compactions: None,
            compaction_input_bytes: None,
            compaction_output_bytes: None,
            peak_compaction_buffer_bytes: None,
            l0_segment_count: None,
            l0_compaction_trigger: None,
            compaction_debt_segments: None,
            compaction_target_segment_bytes: None,
            segment_count: None,
            segment_bytes: None,
            cache_capacity_bytes: None,
            cache_resident_bytes: None,
            cache_entries: None,
            cache_hits: None,
            cache_misses: None,
            cache_evictions: None,
            block_loads: None,
            block_bytes_loaded: None,
            block_bytes_decoded: None,
            filter_checks: None,
            filter_negatives: None,
            segment_io_requested_mode: None,
            segment_io_mmap_segments: None,
            segment_io_uring_segments: None,
            segment_io_bounded_segments: None,
            segment_io_fallbacks: None,
            segment_io_last_fallback: None,
            segment_io_read_operations: None,
            segment_io_mmap_reads: None,
            segment_io_uring_reads: None,
            segment_io_bounded_reads: None,
            segment_io_bytes_read: None,
            segment_io_max_request_bytes: None,
            segment_io_peak_request_bytes: None,
        }
    }
}

/// A byte allowed in a client idempotency key.
pub open spec fn is_idempotency_key_byte(b: u8) -> bool {
    (48 <= b <= 57) || (65 <= b <= 90) || (97 <= b <= 122) || b == 45 || b == 95 || b == 46 || b == 58
}

/// A client idempotency key: 1 to 128 ASCII letters, digits, `-`, `_`, `.` or `:`.
pub open spec fn is_idempotency_key(key: Seq<u8>) -> bool {
    1 <= key.len() <= 128 && forall|i: int| 0 <= i < key.len() ==> is_idempotency_key_byte(#[trigger] key[i])
}

/// Checks a client idempotency key and the lowercase SHA-256 of its operation.
pub fn validate_idempotency(key: &str, digest: &str) -> (r: Result<()>)
    ensures
        r is Ok <==> is_idempotency_key(key.spec_bytes()) && is_sha256_text(digest.spec_bytes()),
        !is_idempotency_key(key.spec_bytes()) ==> (r matches Err(Error::Substrate(m)) && m@ == "invalid idempotency key"@),
        is_idempotency_key(key.spec_bytes()) && !is_sha256_text(digest.spec_bytes())
            ==> (r matches Err(Error::Substrate(m)) && m@ == "operation digest must be lowercase SHA-256"@),
{
    let bytes = key.as_bytes();
    let mut valid = bytes.len() >= 1 && bytes.len() <= 128;
    let mut i: usize = 0;
    while valid && i < bytes.len()
        invariant
            bytes@ == key.spec_bytes(),
            i <= bytes@.len(),
            valid ==> 1 <= bytes@.len() <= 128,
            valid ==> forall|j: int| 0 <= j < i ==> is_idempotency_key_byte(#[trigger] bytes@[j]),
            !valid ==> !is_idempotency_key(bytes@),
        decreases bytes@.len() - i,
    {
        let b = bytes[i];
        if !((48 <= b && b <= 57) || (65 <= b && b <= 90) || (97 <= b && b <= 122) || b == 45 || b == 95 || b == 46 || b == 58) {
            valid = false;
        }
        i = i + 1;
    }
    if !valid {
        return Err(Error::Substrate(text("invalid idempotency key")));
    }
    if !is_sha256(digest) {
        return Err(Error::Substrate(text("operation digest must be lowercase SHA-256")));
    }
    Ok(())
}

/// One composition-root-owned storage profile. Only the process-local
/// rrflowMX profile is provided by this library.
pub enum StorageProfile {
    RrflowMx(RrflowMxStore),
}

impl StorageProfile {
    /// A fresh rrflowMX profile.
    pub fn rrflow_mx() -> (p: Self)
        ensures
            p.engine_spec().wf(),
            p.engine_spec().sequence() == 0,
            p.engine_spec().chains() == Map::<Seq<u8>, Seq<(u64, Option<Seq<u8>>)>>::empty(),
    {
        StorageProfile::RrflowMx(RrflowMxStore::new())
    }

    /// The store behind the profile.
    pub open spec fn engine_spec(&self) -> RrflowMxStore {
        match self {
            StorageProfile::RrflowMx(store) => *store,
        }
    }

    /// The backend's name.
    pub fn backend_name(&self) -> (name: &'static str)
        ensures
            name@ == "rrflow_mx"@,
    {
        match self {
            StorageProfile::RrflowMx(_) => "rrflow_mx",
        }
    }

    /// The store behind the profile.
    pub fn engine(&self) -> (e: &RrflowMxStore)
        ensures
            *e == self.engine_spec(),
    {
        match self {
            StorageProfile::RrflowMx(store) => store,
        }
    }

    /// Physical evidence of the profile's backend.
    pub fn physical_store_evidence(&self) -> (e: PhysicalStoreEvidence)
        ensures
            e.backend@ == "rrflow_mx"@,
            e.evidence_level@ == "logical_only"@,
            e.has_no_counters(),
    {
        PhysicalStoreEvidence::logical_only(self.backend_name())
    }
}

/// First committer wins: once a transaction's writes of `key` are
/// committed, every transaction whose snapshot predates that commit and
/// which also writes `key` finds a conflict, so its own commit is refused.
pub proof fn lemma_first_committer_wins(
    before: RrflowMxStore,
    after: RrflowMxStore,
    first: RrflowMxTransaction,
    second: RrflowMxTransaction,
    key: Seq<u8>,
)
    requires
        first.wf(),
        second.wf(),
        before.sequence() + first.ordered_writes().len() <= u64::MAX,
        after.chains() == apply_writes(before.chains(), first.ordered_writes(), before.sequence() as int),
        second.snapshot() <= before.sequence(),
        first.writes().contains_key(key),
        second.writes().contains_key(key),
    ensures
        first_conflict(after.chains(), second.ordered_writes(), second.snapshot() as int) is Some,
{
    let fw = first.writes.mutations.ordered();
    let a = choose|a: int| 0 <= a < fw.len() && #[trigger] fw[a].0@ == key;
    assert(first.ordered_writes()[a].0 == key);
    lemma_apply_writes_raises_latest(before.chains(), first.ordered_writes(), before.sequence() as int, a);
    let sw = second.writes.mutations.ordered();
    let b = choose|b: int| 0 <= b < sw.len() && #[trigger] sw[b].0@ == key;
    assert(second.ordered_writes()[b].0 == key);
    lemma_first_conflict_exists(after.chains(), second.ordered_writes(), second.snapshot() as int);
}

/// A transaction reads what it wrote: after staging `value` under `key`,
/// reading `key` gives `value`; after staging its deletion, nothing.
pub proof fn lemma_read_your_writes(t: RrflowMxTransaction, store: RrflowMxStore, key: Seq<u8>)
    requires
        t.writes().contains_key(key),
    ensures
        t.reads(&store, key) == t.writes()[key],
{
}

/// A transaction that began at the newest sequence meets no conflict: no
/// key has a version newer than that.
pub proof fn lemma_fresh_snapshot_no_conflict(store: RrflowMxStore, t: RrflowMxTransaction)
    requires
        store.wf(),
        t.snapshot() == store.sequence(),
    ensures
        first_conflict(store.chains(), t.ordered_writes(), t.snapshot() as int) is None,
{
    lemma_first_conflict_exists(store.chains(), t.ordered_writes(), t.snapshot() as int);
    assert forall|i: int| 0 <= i < t.ordered_writes().len() implies latest_sequence(chain_of(store.chains(), #[trigger] t.ordered_writes()[i].0)) <= t.snapshot() by {
        let k = t.ordered_writes()[i].0;
        if store.chains().contains_key(k) {
            let c = store.chains()[k];
            assert(chain_ordered(c, store.sequence() as int));
            if c.len() > 0 {
                assert(c[c.len() - 1].0 <= store.sequence());
            }
        }
    }
}

/// A transaction has one ordered write per written key.
pub proof fn lemma_write_count(t: RrflowMxTransaction)
    requires
        t.wf(),
    ensures
        t.writes().dom().finite(),
        t.ordered_writes().len() == t.writes().dom().len(),
{
    crate::byte_map::lemma_dom_is_key_set(t.writes.mutations.ordered());
    assert(t.writes().dom() =~= t.writes.mutations@.dom());
}

/// A transaction that wrote nothing scans exactly what the store holds at
/// its snapshot.
pub proof fn lemma_clean_scan(t: RrflowMxTransaction, store: RrflowMxStore, r: Seq<(Seq<u8>, Seq<u8>)>, start: Seq<u8>, end: Seq<u8>, limit: int)
    requires
        t.writes() == Map::<Seq<u8>, Option<Seq<u8>>>::empty(),
    ensures
        t.is_scan_of(&store, r, start, end, limit) == store.scan_matches(t.snapshot() as int, r, start, end, limit),
{
    assert forall|k: Seq<u8>| #[trigger] t.reads(&store, k) == store.read_at(k, t.snapshot() as int) by {
    }
}

} // verus!
