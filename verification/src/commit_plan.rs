//! The sequence accounting of a semantic commit.
//!
//! A semantic commit applies at the runtime cursor it expects. Each of its
//! mutations takes the next runtime cursor for its change, each claim among
//! them the next claim sequence, and each mutation with a projection family
//! one outbox entry; the commit's outcome reports the cursors and claim
//! sequences it took. Beside each mutation's domain effect, the commit
//! writes its claims with their sequence-index entries, its changes, its
//! outbox entries, and then its watermarks, audit envelope and outcome.

use crate::error::{Error, Result};
use crate::key_codec::KeyPartValue;
use crate::keyspaces::{self, spec_space_key, Space, SystemEntry};
use vstd::prelude::*;

verus! {

/// What the accounting reads of one mutation: whether it is a claim, and
/// whether it feeds a projection family.
#[derive(Debug, Clone, Copy, PartialEq, Eq, Structural)]
pub struct MutationShape {
    pub is_claim: bool,
    pub projects: bool,
}

/// The cursors and claim sequences a commit takes.
#[derive(Debug, Clone, PartialEq, Eq)]
pub struct CommitAccount {
    pub first_cursor: u64,
    pub last_cursor: u64,
    pub count: usize,
    pub first_claim_sequence: Option<u64>,
    pub last_claim_sequence: Option<u64>,
    pub outbox_count: usize,
    /// The cursor of each mutation's change, in order.
    pub change_cursors: Vec<u64>,
    /// The claim sequence of each claim mutation, in order; none for others.
    pub claim_sequences: Vec<Option<u64>>,
}

/// How many of the mutations are claims.
pub open spec fn claims_in(ms: Seq<MutationShape>) -> int
    decreases ms.len(),
{
    if ms.len() == 0 {
        0
    } else {
        claims_in(ms.drop_last()) + if ms.last().is_claim { 1int } else { 0int }
    }
}

/// How many of the mutations feed a projection family.
pub open spec fn projections_in(ms: Seq<MutationShape>) -> int
    decreases ms.len(),
{
    if ms.len() == 0 {
        0
    } else {
        projections_in(ms.drop_last()) + if ms.last().projects { 1int } else { 0int }
    }
}

/// Whether a commit of `ms` from cursor `start` and claim sequence
/// `claim_start` overflows a counter: the cursor past its last change or
/// past `start` itself, or the claim sequence past its last claim or past
/// `claim_start` itself.
pub open spec fn account_overflows(start: u64, claim_start: u64, ms: Seq<MutationShape>) -> bool {
    start + ms.len() > u64::MAX || start == u64::MAX || claim_start + claims_in(ms) > u64::MAX || claim_start == u64::MAX
}

/// The account of a commit of `ms` from cursor `start` and claim sequence
/// `claim_start`, where nothing overflows.
pub open spec fn account_matches(a: CommitAccount, start: u64, claim_start: u64, ms: Seq<MutationShape>) -> bool {
    let c = claims_in(ms);
    &&& a.first_cursor == start + 1
    &&& a.last_cursor == start + ms.len()
    &&& a.count == ms.len()
    &&& a.first_claim_sequence == if c > 0 { Some((claim_start + 1) as u64) } else { None }
    &&& a.last_claim_sequence == if c > 0 { Some((claim_start + c) as u64) } else { None }
    &&& a.outbox_count == projections_in(ms)
    &&& a.change_cursors@.len() == ms.len()
    &&& a.claim_sequences@.len() == ms.len()
    &&& forall|k: int| 0 <= k < ms.len() ==> #[trigger] a.change_cursors@[k] == start + k + 1
    &&& forall|k: int| 0 <= k < ms.len() ==> #[trigger] a.claim_sequences@[k] == if ms[k].is_claim {
        Some((claim_start + claims_in(ms.take(k)) + 1) as u64)
    } else {
        None
    }
}

/// Counts never pass the number of mutations, and grow with the prefix.
proof fn lemma_counts_bounded(ms: Seq<MutationShape>)
    ensures
        0 <= claims_in(ms) <= ms.len(),
        0 <= projections_in(ms) <= ms.len(),
    decreases ms.len(),
{
    if ms.len() > 0 {
        lemma_counts_bounded(ms.drop_last());
    }
}

/// Prefix counts never pass the whole.
proof fn lemma_claims_prefix(ms: Seq<MutationShape>, k: int)
    requires
        0 <= k <= ms.len(),
    ensures
        claims_in(ms.take(k)) <= claims_in(ms),
    decreases ms.len() - k,
{
    if k < ms.len() {
        lemma_claims_prefix(ms, k + 1);
        assert(ms.take(k + 1).drop_last() =~= ms.take(k));
    } else {
        assert(ms.take(k) =~= ms);
    }
}

/// Accounts a commit that expects the runtime cursor `expected_cursor`
/// against the stored cursor `start` and claim sequence `claim_start`.
pub fn account_commit(expected_cursor: u64, start: u64, claim_start: u64, mutations: &Vec<MutationShape>) -> (r: Result<CommitAccount>)
    ensures
        start != expected_cursor ==> r == Err::<CommitAccount, Error>(Error::RuntimeConflict { expected: expected_cursor, actual: start }),
        start == expected_cursor && account_overflows(start, claim_start, mutations@) ==> r == Err::<CommitAccount, Error>(Error::SequenceOverflow),
        start == expected_cursor && !account_overflows(start, claim_start, mutations@) ==> (r matches Ok(a) && account_matches(a, start, claim_start, mutations@)),
{
    if start != expected_cursor {
        return Err(Error::RuntimeConflict { expected: expected_cursor, actual: start });
    }
    let ghost ms = mutations@;
    proof {
        lemma_counts_bounded(ms);
    }
    let mut claim_sequence = claim_start;
    let mut cursor = start;
    let mut outbox_count: usize = 0;
    let mut claims: usize = 0;
    let mut change_cursors: Vec<u64> = Vec::new();
    let mut claim_sequences: Vec<Option<u64>> = Vec::new();
    let mut k: usize = 0;
    while k < mutations.len()
        invariant
            ms == mutations@,
            start == expected_cursor,
            k <= ms.len(),
            cursor == start + k,
            claims == claims_in(ms.take(k as int)),
            claim_sequence == claim_start + claims,
            outbox_count == projections_in(ms.take(k as int)),
            claims <= k,
            outbox_count <= k,
            change_cursors@.len() == k,
            claim_sequences@.len() == k,
            forall|j: int| 0 <= j < k ==> #[trigger] change_cursors@[j] == start + j + 1,
            forall|j: int| 0 <= j < k ==> #[trigger] claim_sequences@[j] == if ms[j].is_claim {
                Some((claim_start + claims_in(ms.take(j)) + 1) as u64)
            } else {
                None
            },
        decreases ms.len() - k,
    {
        proof {
            assert(ms.take(k + 1).drop_last() =~= ms.take(k as int));
            lemma_claims_prefix(ms, k + 1);
        }
        let shape = mutations[k];
        if shape.is_claim {
            claim_sequence = match claim_sequence.checked_add(1) {
                Some(s) => s,
                None => {
                    return Err(Error::SequenceOverflow);
                },
            };
            claims = claims + 1;
            claim_sequences.push(Some(claim_sequence));
        } else {
            claim_sequences.push(None);
        }
        cursor = match cursor.checked_add(1) {
            Some(c) => c,
            None => {
                return Err(Error::SequenceOverflow);
            },
        };
        change_cursors.push(cursor);
        if shape.projects {
            outbox_count = outbox_count + 1;
        }
        k = k + 1;
    }
    proof {
        assert(ms.take(k as int) =~= ms);
    }
    let first_cursor = match start.checked_add(1) {
        Some(c) => c,
        None => {
            return Err(Error::SequenceOverflow);
        },
    };
    let first_claim = match claim_start.checked_add(1) {
        Some(c) => c,
        None => {
            return Err(Error::SequenceOverflow);
        },
    };
    Ok(CommitAccount {
        first_cursor,
        last_cursor: cursor,
        count: mutations.len(),
        first_claim_sequence: if claims > 0 { Some(first_claim) } else { None },
        last_claim_sequence: if claims > 0 { Some(claim_sequence) } else { None },
        outbox_count,
        change_cursors,
        claim_sequences,
    })
}


/// The fields of a claim that its keys are built from.
#[derive(Debug, Clone, PartialEq, Eq)]
pub struct ClaimFields {
    pub subject: String,
    pub predicate: String,
    pub valid_from: u64,
    pub tx_time: u64,
}

/// What the commit's own writes read of one mutation: its claim, where it
/// is one, and whether it feeds a projection family.
#[derive(Debug, Clone, PartialEq, Eq)]
pub struct CommitMutation {
    pub claim: Option<ClaimFields>,
    pub projects: bool,
}

/// What a commit write stores.
#[derive(Debug, Clone, Copy, PartialEq, Eq, Structural)]
pub enum CommitValue {
    /// The claim of the mutation.
    Claim,
    /// The bytes of the claim's own key.
    ClaimKey,
    /// The committed change of the mutation.
    Change,
    /// The projection work of the mutation.
    ProjectionWork,
    /// A sequence watermark with this value.
    Sequence(u64),
    /// The digest of the commit's last change.
    LastDigest,
    /// The accumulator state after the commit.
    AccumulatorState,
    /// The commit's audit envelope.
    Audit,
    /// The digest of the commit's audit envelope.
    LastAuditDigest,
    /// The commit's outcome.
    Outcome,
}

/// One write of a commit's own keys.
#[derive(Debug, Clone, PartialEq, Eq)]
pub struct CommitWrite {
    pub space: Space,
    pub key: Vec<u8>,
    pub value: CommitValue,
}

/// The view of commit writes.
pub open spec fn writes_view(ws: Seq<CommitWrite>) -> Seq<(Space, Seq<u8>, CommitValue)> {
    ws.map_values(|w: CommitWrite| (w.space, w.key@, w.value))
}

/// The accounting shape of a mutation.
pub open spec fn shape_of(m: CommitMutation) -> MutationShape {
    MutationShape { is_claim: m.claim is Some, projects: m.projects }
}

/// The accounting shapes of the mutations.
pub open spec fn shapes(ms: Seq<CommitMutation>) -> Seq<MutationShape> {
    ms.map_values(|m: CommitMutation| shape_of(m))
}

/// The key of a claim.
pub open spec fn claim_key_of(c: ClaimFields) -> Seq<u8> {
    spec_space_key(Space::Claims, seq![KeyPartValue::Text(c.subject@), KeyPartValue::Text(c.predicate@),
        KeyPartValue::DescU64(c.valid_from), KeyPartValue::DescU64(c.tx_time)])
}

/// The key of a system entry with one tag.
pub open spec fn system_key(entry: SystemEntry) -> Seq<u8> {
    spec_space_key(Space::System, seq![KeyPartValue::U8(entry.spec_tag())])
}

/// The writes of one mutation, whose change takes `cursor` and whose claim,
/// where it is one, takes `claim_sequence`: the claim under its key and its
/// key under the sequence index, the change, and the outbox entry of its
/// projection work.
pub open spec fn mutation_writes(m: CommitMutation, cursor: u64, claim_sequence: u64) -> Seq<(Space, Seq<u8>, CommitValue)> {
    (match m.claim {
        Some(c) => seq![
            (Space::Claims, claim_key_of(c), CommitValue::Claim),
            (Space::SequenceIndex, spec_space_key(Space::SequenceIndex, seq![KeyPartValue::U64(claim_sequence)]), CommitValue::ClaimKey),
        ],
        None => Seq::empty(),
    }) + seq![(Space::RuntimeChanges, spec_space_key(Space::RuntimeChanges, seq![KeyPartValue::U64(cursor)]), CommitValue::Change)]
        + if m.projects {
        seq![(Space::RuntimeOutbox, spec_space_key(Space::RuntimeOutbox, seq![KeyPartValue::U64(cursor)]), CommitValue::ProjectionWork)]
    } else {
        Seq::empty()
    }
}

/// The writes of the mutations, in order, from cursor `start` and claim
/// sequence `claim_start`.
pub open spec fn mutations_writes(ms: Seq<CommitMutation>, start: u64, claim_start: u64) -> Seq<(Space, Seq<u8>, CommitValue)>
    decreases ms.len(),
{
    if ms.len() == 0 {
        Seq::empty()
    } else {
        mutations_writes(ms.drop_last(), start, claim_start) + mutation_writes(ms.last(), (start + ms.len()) as u64,
            (claim_start + claims_in(shapes(ms))) as u64)
    }
}

/// The commit's closing writes: the claim watermark where it took claims,
/// the runtime cursor, the last change digest, the accumulator state, the
/// catalogue revision it observed, its audit envelope and digest, and its
/// outcome.
pub open spec fn closing_writes(ms: Seq<CommitMutation>, start: u64, claim_start: u64, scope: Seq<char>, commit_id: Seq<char>,
    catalogue_revision: u64) -> Seq<(Space, Seq<u8>, CommitValue)> {
    let c = claims_in(shapes(ms));
    (if c > 0 {
        seq![(Space::System, system_key(SystemEntry::ClaimSequence), CommitValue::Sequence((claim_start + c) as u64))]
    } else {
        Seq::empty()
    }) + seq![
        (Space::System, system_key(SystemEntry::RuntimeCursor), CommitValue::Sequence((start + ms.len()) as u64)),
        (Space::System, system_key(SystemEntry::RuntimeLastDigest), CommitValue::LastDigest),
        (Space::System, system_key(SystemEntry::RuntimeAccumulatorState), CommitValue::AccumulatorState),
        (Space::System, spec_space_key(Space::System, seq![KeyPartValue::U8(SystemEntry::CatalogueRevision.spec_tag()), KeyPartValue::Text(scope)]),
            CommitValue::Sequence(catalogue_revision)),
        (Space::RuntimeAudit, spec_space_key(Space::RuntimeAudit, seq![KeyPartValue::Text(commit_id)]), CommitValue::Audit),
        (Space::System, system_key(SystemEntry::RuntimeLastAuditDigest), CommitValue::LastAuditDigest),
        (Space::RuntimeCommits, spec_space_key(Space::RuntimeCommits, seq![KeyPartValue::Text(commit_id)]), CommitValue::Outcome),
    ]
}

/// The shapes of a prefix are the prefix of the shapes.
proof fn lemma_shapes_take(ms: Seq<CommitMutation>, k: int)
    requires
        0 <= k <= ms.len(),
    ensures
        shapes(ms.take(k)) == shapes(ms).take(k),
{
    assert(shapes(ms.take(k)) =~= shapes(ms).take(k));
}

/// The writes of a commit's own keys, beside the domain effects of its
/// mutations: per mutation, its claim and sequence-index entry, its change
/// and its outbox entry, then the closing watermarks, audit and outcome;
/// refused as `account_commit` refuses.
pub fn commit_key_writes(
    scope: &String,
    commit_id: &String,
    expected_cursor: u64,
    start: u64,
    claim_start: u64,
    catalogue_revision: u64,
    mutations: &Vec<CommitMutation>,
) -> (r: Result<Vec<CommitWrite>>)
    ensures
        start != expected_cursor ==> r == Err::<Vec<CommitWrite>, Error>(Error::RuntimeConflict { expected: expected_cursor, actual: start }),
        start == expected_cursor && account_overflows(start, claim_start, shapes(mutations@)) ==> r == Err::<Vec<CommitWrite>, Error>(Error::SequenceOverflow),
        start == expected_cursor && !account_overflows(start, claim_start, shapes(mutations@)) ==> (r matches Ok(ws) && writes_view(ws@)
            == mutations_writes(mutations@, start, claim_start) + closing_writes(mutations@, start, claim_start, scope@, commit_id@, catalogue_revision)),
{
    let ghost ms = mutations@;
    let mut shape_list: Vec<MutationShape> = Vec::new();
    let mut k: usize = 0;
    while k < mutations.len()
        invariant
            ms == mutations@,
            k <= ms.len(),
            shape_list@ == shapes(ms).take(k as int),
        decreases ms.len() - k,
    {
        shape_list.push(MutationShape { is_claim: mutations[k].claim.is_some(), projects: mutations[k].projects });
        k = k + 1;
        assert(shape_list@ =~= shapes(ms).take(k as int));
    }
    assert(shapes(ms).take(k as int) =~= shapes(ms));
    let account = match account_commit(expected_cursor, start, claim_start, &shape_list) {
        Ok(a) => a,
        Err(e) => {
            return Err(e);
        },
    };
    proof {
        lemma_counts_bounded(shapes(ms));
    }
    let mut writes: Vec<CommitWrite> = Vec::new();
    let mut k: usize = 0;
    while k < mutations.len()
        invariant
            ms == mutations@,
            shape_list@ == shapes(ms),
            k <= ms.len(),
            account_matches(account, start, claim_start, shapes(ms)),
            !account_overflows(start, claim_start, shapes(ms)),
            writes_view(writes@) == mutations_writes(ms.take(k as int), start, claim_start),
        decreases ms.len() - k,
    {
        let ghost before = writes_view(writes@);
        proof {
            assert(ms.take(k + 1).drop_last() =~= ms.take(k as int));
            lemma_shapes_take(ms, k + 1);
            lemma_shapes_take(ms, k as int);
            assert(shapes(ms).take(k + 1).drop_last() =~= shapes(ms).take(k as int));
            lemma_claims_prefix(shapes(ms), k + 1);
        }
        let cursor = account.change_cursors[k];
        let m = &mutations[k];
        match &m.claim {
            Some(c) => {
                let sequence = match account.claim_sequences[k] {
                    Some(s) => s,
                    None => 0,
                };
                let key = keyspaces::claim_key(c.subject.as_str(), c.predicate.as_str(), c.valid_from, c.tx_time);
                writes.push(CommitWrite { space: Space::Claims, key, value: CommitValue::Claim });
                writes.push(CommitWrite { space: Space::SequenceIndex, key: keyspaces::sequence_key(sequence), value: CommitValue::ClaimKey });
            },
            None => {},
        }
        writes.push(CommitWrite { space: Space::RuntimeChanges, key: keyspaces::runtime_change_key(cursor), value: CommitValue::Change });
        if m.projects {
            writes.push(CommitWrite { space: Space::RuntimeOutbox, key: keyspaces::runtime_outbox_key(cursor), value: CommitValue::ProjectionWork });
        }
        k = k + 1;
        proof {
            assert(writes_view(writes@) =~= before + mutation_writes(ms[k - 1], (start + k) as u64,
                (claim_start + claims_in(shapes(ms.take(k as int)))) as u64));
        }
    }
    assert(ms.take(k as int) =~= ms);
    let ghost before = writes_view(writes@);
    if account.last_claim_sequence.is_some() {
        let last = match account.last_claim_sequence {
            Some(s) => s,
            None => 0,
        };
        writes.push(CommitWrite { space: Space::System, key: keyspaces::sequence_watermark_key(), value: CommitValue::Sequence(last) });
    }
    writes.push(CommitWrite { space: Space::System, key: keyspaces::runtime_cursor_key(), value: CommitValue::Sequence(account.last_cursor) });
    writes.push(CommitWrite { space: Space::System, key: keyspaces::runtime_last_digest_key(), value: CommitValue::LastDigest });
    writes.push(CommitWrite { space: Space::System, key: keyspaces::runtime_accumulator_state_key(), value: CommitValue::AccumulatorState });
    writes.push(CommitWrite { space: Space::System, key: keyspaces::catalog_revision_key(scope.as_str()), value: CommitValue::Sequence(catalogue_revision) });
    writes.push(CommitWrite { space: Space::RuntimeAudit, key: keyspaces::runtime_audit_key(commit_id.as_str()), value: CommitValue::Audit });
    writes.push(CommitWrite { space: Space::System, key: keyspaces::runtime_last_audit_digest_key(), value: CommitValue::LastAuditDigest });
    writes.push(CommitWrite { space: Space::RuntimeCommits, key: keyspaces::runtime_commit_key(commit_id.as_str()), value: CommitValue::Outcome });
    proof {
        assert(writes_view(writes@) =~= before + closing_writes(ms, start, claim_start, scope@, commit_id@, catalogue_revision));
    }
    Ok(writes)
}

} // verus!
