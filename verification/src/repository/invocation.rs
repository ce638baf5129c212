//! Durable operator-invocation records, each under its time and the ordinal
//! the recording transaction allocates, and their watermark.

use crate::control::text_or_empty;
use crate::engine::{pairs_view, RrflowMxStore};
use crate::error::{text, Error, Result};
use crate::invocation::{Invocation, InvocationInput, Outcome, Trigger};
use crate::key_codec::{
    opt_string, part_values, spec_encode_key, spec_encode_key_value, spec_prefix_end, DecodedKeyPart, KeyAddress, KeyCodec, KeyFamily, KeyPart,
    KeyPartValue, KeyValue,
};
use crate::keyspaces::{self, spec_space_key, Durability, Space, SystemEntry, INVOCATIONS, META};
use crate::repository::common::{
    checked_key, decimal, lemma_is_space_key, lemma_space_key_has_end, parse_u64, put_sequence, read_sequence, scan_space_from,
};
use crate::repository::control::{newest, stored_watermark};
use vstd::prelude::*;

verus! {

/// The key of the invocation watermark.
pub open spec fn invocation_watermark_key_of() -> Seq<u8> {
    spec_space_key(Space::System, seq![KeyPartValue::U8(SystemEntry::InvocationOrdinal.spec_tag())])
}

/// The key invocation `ordinal`, made at `at`, is stored under.
pub open spec fn invocation_key_of(at: u64, ordinal: u64) -> Seq<u8> {
    spec_space_key(Space::Invocations, seq![KeyPartValue::U64(at), KeyPartValue::U64(ordinal)])
}

/// The stored tag of a trigger.
pub open spec fn trigger_tag(t: Trigger) -> u8 {
    match t {
        Trigger::Manual => 0,
        Trigger::Event => 1,
        Trigger::Interval => 2,
        Trigger::Threshold => 3,
    }
}

/// The stored tag of an outcome.
pub open spec fn outcome_tag(o: Outcome) -> u8 {
    match o {
        Outcome::Succeeded => 0,
        Outcome::Error => 1,
    }
}

/// The tuple an invocation is stored as: its ordinal, time, trigger,
/// command, the count of its arguments and each argument, its outcome,
/// duration and detail.
pub open spec fn invocation_parts(inv: Invocation) -> Seq<KeyPartValue> {
    seq![
        KeyPartValue::U64(inv.ordinal),
        KeyPartValue::U64(inv.at),
        KeyPartValue::U8(trigger_tag(inv.trigger)),
        KeyPartValue::Text(inv.command@),
        KeyPartValue::U64(inv.arguments@.len() as u64),
    ] + inv.arguments@.map_values(|a: String| KeyPartValue::Text(a@)) + seq![
        KeyPartValue::U8(outcome_tag(inv.outcome)),
        KeyPartValue::U64(inv.duration_ms),
        KeyPartValue::Bool(inv.detail is Some),
        KeyPartValue::Text(text_or_empty(inv.detail)),
    ]
}

/// The stored form of an invocation.
pub open spec fn invocation_bytes(inv: Invocation) -> Seq<u8> {
    spec_encode_key(None, None, KeyFamily::System, invocation_parts(inv))
}

/// The stored tag of a trigger.
fn encode_trigger(t: Trigger) -> (tag: u8)
    ensures
        tag == trigger_tag(t),
{
    match t {
        Trigger::Manual => 0,
        Trigger::Event => 1,
        Trigger::Interval => 2,
        Trigger::Threshold => 3,
    }
}

/// The stored tag of an outcome.
fn encode_outcome(o: Outcome) -> (tag: u8)
    ensures
        tag == outcome_tag(o),
{
    match o {
        Outcome::Succeeded => 0,
        Outcome::Error => 1,
    }
}

/// The text of a borrowed optional string, empty where absent.
fn text_or_blank(o: &Option<String>) -> (s: &str)
    ensures
        s@ == text_or_empty(*o),
{
    match o {
        Some(v) => v.as_str(),
        None => {
            proof {
                reveal_strlit("");
            }
            ""
        },
    }
}

/// The stored form of an invocation.
pub fn encode_invocation(inv: &Invocation) -> (bytes: Vec<u8>)
    requires
        inv.arguments@.len() <= u64::MAX,
    ensures
        bytes@ == invocation_bytes(*inv),
{
    let mut parts: Vec<KeyPart> = Vec::new();
    parts.push(KeyPart::U64(inv.ordinal));
    parts.push(KeyPart::U64(inv.at));
    parts.push(KeyPart::U8(encode_trigger(inv.trigger)));
    parts.push(KeyPart::Text(inv.command.as_str()));
    parts.push(KeyPart::U64(inv.arguments.len() as u64));
    let ghost head = part_values(parts@);
    let mut i: usize = 0;
    while i < inv.arguments.len()
        invariant
            i <= inv.arguments@.len(),
            part_values(parts@) == head + inv.arguments@.take(i as int).map_values(|a: String| KeyPartValue::Text(a@)),
        decreases inv.arguments@.len() - i,
    {
        let ghost before = part_values(parts@);
        parts.push(KeyPart::Text(inv.arguments[i].as_str()));
        proof {
            assert(inv.arguments@.take(i + 1).map_values(|a: String| KeyPartValue::Text(a@))
                =~= inv.arguments@.take(i as int).map_values(|a: String| KeyPartValue::Text(a@)).push(KeyPartValue::Text(inv.arguments@[i as int]@)));
            assert(part_values(parts@) =~= before.push(KeyPartValue::Text(inv.arguments@[i as int]@)));
        }
        i = i + 1;
    }
    let ghost middle = part_values(parts@);
    parts.push(KeyPart::U8(encode_outcome(inv.outcome)));
    parts.push(KeyPart::U64(inv.duration_ms));
    parts.push(KeyPart::Bool(inv.detail.is_some()));
    parts.push(KeyPart::Text(text_or_blank(&inv.detail)));
    proof {
        assert(inv.arguments@.take(inv.arguments@.len() as int) =~= inv.arguments@);
        assert(part_values(parts@) =~= middle + seq![
            KeyPartValue::U8(outcome_tag(inv.outcome)),
            KeyPartValue::U64(inv.duration_ms),
            KeyPartValue::Bool(inv.detail is Some),
            KeyPartValue::Text(text_or_empty(inv.detail)),
        ]);
        assert(part_values(parts@) =~= invocation_parts(*inv));
    }
    KeyCodec.encode(KeyAddress::global(), KeyFamily::System, parts.as_slice())
}

/// The two invocations agree in every field, text by its characters.
pub open spec fn same_invocation(a: Invocation, b: Invocation) -> bool {
    &&& a.ordinal == b.ordinal
    &&& a.at == b.at
    &&& a.trigger == b.trigger
    &&& a.command@ == b.command@
    &&& a.arguments@.len() == b.arguments@.len()
    &&& forall|i: int| 0 <= i < a.arguments@.len() ==> (#[trigger] a.arguments@[i])@ == b.arguments@[i]@
    &&& a.outcome == b.outcome
    &&& a.duration_ms == b.duration_ms
    &&& opt_string(a.detail) == opt_string(b.detail)
}

/// The stored tuple of an invocation, field by field.
proof fn lemma_invocation_parts_shape(x: Invocation)
    requires
        x.arguments@.len() <= u64::MAX,
    ensures
        ({
            let ps = invocation_parts(x);
            let l = x.arguments@.len() as int;
            &&& ps.len() == l + 9
            &&& ps[0] == KeyPartValue::U64(x.ordinal)
            &&& ps[1] == KeyPartValue::U64(x.at)
            &&& ps[2] == KeyPartValue::U8(trigger_tag(x.trigger))
            &&& ps[3] == KeyPartValue::Text(x.command@)
            &&& ps[4] == KeyPartValue::U64(l as u64)
            &&& forall|j: int| 0 <= j < l ==> ps[5 + j] == KeyPartValue::Text((#[trigger] x.arguments@[j])@)
            &&& ps[l + 5] == KeyPartValue::U8(outcome_tag(x.outcome))
            &&& ps[l + 6] == KeyPartValue::U64(x.duration_ms)
            &&& ps[l + 7] == KeyPartValue::Bool(x.detail is Some)
            &&& ps[l + 8] == KeyPartValue::Text(text_or_empty(x.detail))
        }),
{
    let l = x.arguments@.len() as int;
    let args = x.arguments@.map_values(|a: String| KeyPartValue::Text(a@));
    assert forall|j: int| 0 <= j < l implies invocation_parts(x)[5 + j] == KeyPartValue::Text((#[trigger] x.arguments@[j])@) by {
        assert(args[j] == KeyPartValue::Text(x.arguments@[j]@));
    }
}

/// Equal stored forms are the same invocation.
pub proof fn lemma_invocation_bytes_injective(a: Invocation, b: Invocation)
    requires
        a.arguments@.len() <= u64::MAX,
        b.arguments@.len() <= u64::MAX,
        invocation_bytes(a) == invocation_bytes(b),
    ensures
        same_invocation(a, b),
{
    let ka = KeyValue { tenant: None, scope: None, family: KeyFamily::System, parts: invocation_parts(a) };
    let kb = KeyValue { tenant: None, scope: None, family: KeyFamily::System, parts: invocation_parts(b) };
    crate::key_codec::lemma_encode_injective(ka, kb);
    lemma_invocation_parts_shape(a);
    lemma_invocation_parts_shape(b);
    let pa = invocation_parts(a);
    let l = a.arguments@.len() as int;
    assert(pa[2] == invocation_parts(b)[2]);
    assert(pa[3] == invocation_parts(b)[3]);
    assert forall|i: int| 0 <= i < l implies (#[trigger] a.arguments@[i])@ == b.arguments@[i]@ by {
        assert(pa[5 + i] == KeyPartValue::Text(a.arguments@[i]@));
        assert(invocation_parts(b)[5 + i] == KeyPartValue::Text(b.arguments@[i]@));
    }
    assert(pa[l + 5] == invocation_parts(b)[l + 5]);
    assert(pa[l + 7] == invocation_parts(b)[l + 7]);
    assert(pa[l + 8] == invocation_parts(b)[l + 8]);
}

/// The trigger a stored tag names.
fn trigger_of(tag: u8) -> (t: Option<Trigger>)
    ensures
        match t {
            Some(t) => trigger_tag(t) == tag,
            None => forall|t: Trigger| trigger_tag(t) != tag,
        },
{
    if tag == 0 {
        Some(Trigger::Manual)
    } else if tag == 1 {
        Some(Trigger::Event)
    } else if tag == 2 {
        Some(Trigger::Interval)
    } else if tag == 3 {
        Some(Trigger::Threshold)
    } else {
        None
    }
}

/// The outcome a stored tag names.
fn outcome_of(tag: u8) -> (o: Option<Outcome>)
    ensures
        match o {
            Some(o) => outcome_tag(o) == tag,
            None => forall|o: Outcome| outcome_tag(o) != tag,
        },
{
    if tag == 0 {
        Some(Outcome::Succeeded)
    } else if tag == 1 {
        Some(Outcome::Error)
    } else {
        None
    }
}

/// The invocation whose stored tuple is `parts`.
fn invocation_of_parts(parts: &Vec<DecodedKeyPart>) -> (r: Option<Invocation>)
    ensures
        match r {
            Some(inv) => inv.arguments@.len() <= u64::MAX && invocation_parts(inv) == parts@.map_values(|p: DecodedKeyPart| p@),
            None => forall|x: Invocation|
                x.arguments@.len() <= u64::MAX ==> #[trigger] invocation_parts(x) != parts@.map_values(|p: DecodedKeyPart| p@),
        },
{
    let ghost pv = parts@.map_values(|p: DecodedKeyPart| p@);
    let n = parts.len();
    if n < 9 {
        proof {
            assert forall|x: Invocation| x.arguments@.len() <= u64::MAX implies #[trigger] invocation_parts(x) != pv by {
                lemma_invocation_parts_shape(x);
            }
        }
        return None;
    }
    let count: usize = n - 9;
    proof {
        assert forall|k: int| 0 <= k < n implies pv[k] == (#[trigger] parts@[k])@ by {}
    }
    let (ordinal, at, ttag, command) = match (&parts[0], &parts[1], &parts[2], &parts[3], &parts[4]) {
        (DecodedKeyPart::U64(ordinal), DecodedKeyPart::U64(at), DecodedKeyPart::U8(ttag), DecodedKeyPart::Text(command), DecodedKeyPart::U64(c)) => {
            if *c != count as u64 {
                proof {
                    assert forall|x: Invocation| x.arguments@.len() <= u64::MAX implies #[trigger] invocation_parts(x) != pv by {
                        lemma_invocation_parts_shape(x);
                    }
                }
                return None;
            }
            (*ordinal, *at, *ttag, command)
        },
        _ => {
            proof {
                assert forall|x: Invocation| x.arguments@.len() <= u64::MAX implies #[trigger] invocation_parts(x) != pv by {
                    lemma_invocation_parts_shape(x);
                    if invocation_parts(x) == pv {
                        assert(pv[0] == parts@[0]@);
                        assert(pv[1] == parts@[1]@);
                        assert(pv[2] == parts@[2]@);
                        assert(pv[3] == parts@[3]@);
                        assert(pv[4] == parts@[4]@);
                    }
                }
            }
            return None;
        },
    };
    let trigger = match trigger_of(ttag) {
        Some(t) => t,
        None => {
            proof {
                assert forall|x: Invocation| x.arguments@.len() <= u64::MAX implies #[trigger] invocation_parts(x) != pv by {
                    lemma_invocation_parts_shape(x);
                }
            }
            return None;
        },
    };
    let mut arguments: Vec<String> = Vec::new();
    let mut j: usize = 0;
    while j < count
        invariant
            n == parts.len(),
            count == n - 9,
            j <= count,
            pv == parts@.map_values(|p: DecodedKeyPart| p@),
            pv[4] == KeyPartValue::U64(count as u64),
            arguments@.len() == j,
            forall|i: int| 0 <= i < j ==> pv[5 + i] == KeyPartValue::Text((#[trigger] arguments@[i])@),
        decreases count - j,
    {
        match &parts[5 + j] {
            DecodedKeyPart::Text(a) => {
                arguments.push(a.clone());
                proof {
                    assert(pv[5 + j] == parts@[5 + j as int]@);
                }
            },
            _ => {
                proof {
                    assert(pv[5 + j] == parts@[5 + j as int]@);
                    assert forall|x: Invocation| x.arguments@.len() <= u64::MAX implies #[trigger] invocation_parts(x) != pv by {
                        lemma_invocation_parts_shape(x);
                        if invocation_parts(x) == pv {
                            assert(x.arguments@.len() == count);
                            assert(invocation_parts(x)[5 + j] == KeyPartValue::Text(x.arguments@[j as int]@));
                        }
                    }
                }
                return None;
            },
        }
        j = j + 1;
    }
    match (&parts[n - 4], &parts[n - 3], &parts[n - 2], &parts[n - 1]) {
        (DecodedKeyPart::U8(otag), DecodedKeyPart::U64(duration), DecodedKeyPart::Bool(has_detail), DecodedKeyPart::Text(detail)) => {
            let outcome = match outcome_of(*otag) {
                Some(o) => o,
                None => {
                    proof {
                        assert forall|x: Invocation| x.arguments@.len() <= u64::MAX implies #[trigger] invocation_parts(x) != pv by {
                            lemma_invocation_parts_shape(x);
                            if invocation_parts(x) == pv {
                                assert(pv[n - 4] == parts@[n - 4]@);
                            }
                        }
                    }
                    return None;
                },
            };
            if !*has_detail && !detail.as_str().is_empty() {
                proof {
                    assert forall|x: Invocation| x.arguments@.len() <= u64::MAX implies #[trigger] invocation_parts(x) != pv by {
                        lemma_invocation_parts_shape(x);
                        if invocation_parts(x) == pv {
                            assert(pv[n - 2] == parts@[n - 2]@);
                            assert(pv[n - 1] == parts@[n - 1]@);
                        }
                    }
                }
                return None;
            }
            let inv = Invocation {
                ordinal,
                at,
                trigger,
                command: command.clone(),
                arguments,
                outcome,
                duration_ms: *duration,
                detail: if *has_detail {
                    Some(detail.clone())
                } else {
                    None
                },
            };
            proof {
                lemma_invocation_parts_shape(inv);
                assert(pv[n - 4] == parts@[n - 4]@);
                assert(pv[n - 3] == parts@[n - 3]@);
                assert(pv[n - 2] == parts@[n - 2]@);
                assert(pv[n - 1] == parts@[n - 1]@);
                if !*has_detail {
                    assert(detail@ =~= Seq::<char>::empty());
                }
                assert forall|k: int| 0 <= k < pv.len() implies #[trigger] invocation_parts(inv)[k] == pv[k] by {
                    if 5 <= k < 5 + count {
                        assert(invocation_parts(inv)[5 + (k - 5)] == KeyPartValue::Text(inv.arguments@[k - 5]@));
                        assert(pv[5 + (k - 5)] == KeyPartValue::Text(arguments@[k - 5]@));
                    }
                }
                assert(invocation_parts(inv) =~= pv);
            }
            Some(inv)
        },
        _ => {
            proof {
                assert forall|x: Invocation| x.arguments@.len() <= u64::MAX implies #[trigger] invocation_parts(x) != pv by {
                    lemma_invocation_parts_shape(x);
                    if invocation_parts(x) == pv {
                        assert(x.arguments@.len() == count);
                        assert(pv[n - 4] == parts@[n - 4]@);
                        assert(pv[n - 3] == parts@[n - 3]@);
                        assert(pv[n - 2] == parts@[n - 2]@);
                        assert(pv[n - 1] == parts@[n - 1]@);
                    }
                }
            }
            None
        },
    }
}

/// The invocation stored as `bytes`.
pub fn decode_invocation(bytes: &[u8]) -> (r: Result<Invocation>)
    ensures
        match r {
            Ok(inv) => inv.arguments@.len() <= u64::MAX && invocation_bytes(inv) == bytes@,
            Err(e) => e is Codec && forall|x: Invocation| x.arguments@.len() <= u64::MAX ==> #[trigger] invocation_bytes(x) != bytes@,
        },
{
    let key = match KeyCodec.decode(bytes) {
        Ok(key) => key,
        Err(_) => {
            proof {
                assert forall|x: Invocation| x.arguments@.len() <= u64::MAX implies #[trigger] invocation_bytes(x) != bytes@ by {
                    let k = KeyValue { tenant: None, scope: None, family: KeyFamily::System, parts: invocation_parts(x) };
                    assert(spec_encode_key_value(k) == invocation_bytes(x));
                }
            }
            return Err(Error::Codec(text("invocation record is not a canonical record")));
        },
    };
    let ghost kv = key@;
    if key.tenant.is_none() && key.scope.is_none() && key.family == KeyFamily::System {
        match invocation_of_parts(&key.parts) {
            Some(inv) => {
                proof {
                    let k = KeyValue { tenant: None, scope: None, family: KeyFamily::System, parts: invocation_parts(inv) };
                    assert(k == kv);
                }
                return Ok(inv);
            },
            None => {},
        }
    }
    proof {
        assert forall|x: Invocation| x.arguments@.len() <= u64::MAX implies #[trigger] invocation_bytes(x) != bytes@ by {
            let k = KeyValue { tenant: None, scope: None, family: KeyFamily::System, parts: invocation_parts(x) };
            if invocation_bytes(x) == bytes@ {
                assert(spec_encode_key_value(k) == invocation_bytes(x));
                crate::key_codec::lemma_encode_injective(k, kv);
            }
        }
    }
    Err(Error::Codec(text("invocation record is not a canonical record")))
}

/// No invocation is stored as `value`.
pub open spec fn undecodable(value: Seq<u8>) -> bool {
    forall|x: Invocation| x.arguments@.len() <= u64::MAX ==> #[trigger] invocation_bytes(x) != value
}

/// `rows` are the invocation records stored from time `since` on, as of the
/// newest commit, in time and ordinal order.
pub open spec fn invocation_rows(store: RrflowMxStore, since: u64, rows: Seq<(Seq<u8>, Seq<u8>)>) -> bool {
    store.scan_matches(
        store.sequence() as int,
        rows,
        spec_space_key(Space::Invocations, seq![KeyPartValue::U64(since)]),
        spec_prefix_end(spec_space_key(Space::Invocations, Seq::<KeyPartValue>::empty()))->Some_0,
        usize::MAX as int,
    )
}

/// The invocation repository.
pub struct InvocationRepository;

impl InvocationRepository {
    /// The repository.
    pub fn new() -> (r: Self) {
        InvocationRepository
    }

    /// How many invocations were recorded, as of the newest commit.
    pub fn count(&self, store: &RrflowMxStore) -> (r: Result<u64>)
        requires
            store.wf(),
        ensures
            match store.read_at(invocation_watermark_key_of(), store.sequence() as int) {
                None => r == Ok::<u64, Error>(0),
                Some(bytes) => match parse_u64(bytes) {
                    Some(n) => r == Ok::<u64, Error>(n),
                    None => r matches Err(Error::CorruptWatermark(_)),
                },
            },
    {
        let transaction = store.begin_transaction();
        let key = keyspaces::invocation_watermark_key();
        proof {
            lemma_is_space_key(Space::System, seq![KeyPartValue::U8(SystemEntry::InvocationOrdinal.spec_tag())]);
        }
        read_sequence(&transaction, store, key.as_slice())
    }

    /// Records `input` under the next ordinal, in one authoritative
    /// transaction that also advances the watermark.
    pub fn record(&self, store: &mut RrflowMxStore, input: InvocationInput) -> (r: Result<Invocation>)
        requires
            old(store).wf(),
            input.arguments@.len() <= u64::MAX,
        ensures
            final(store).wf(),
            r is Err ==> *final(store) == *old(store),
            match stored_watermark(newest(*old(store), invocation_watermark_key_of())) {
                None => r matches Err(Error::CorruptWatermark(_)),
                Some(n) => {
                    &&& n == u64::MAX ==> r == Err::<Invocation, Error>(Error::SequenceOverflow)
                    &&& n < u64::MAX ==> (r is Ok <==> old(store).sequence() + 2 <= u64::MAX)
                    &&& r matches Ok(inv) ==> {
                        &&& inv == Invocation::spec_recorded((n + 1) as u64, input)
                        &&& final(store).sequence() == old(store).sequence() + 2
                        &&& newest(*final(store), invocation_key_of(input.at, (n + 1) as u64)) == Some(invocation_bytes(inv))
                        &&& newest(*final(store), invocation_watermark_key_of()) == Some(decimal((n + 1) as nat))
                        &&& stored_watermark(newest(*final(store), invocation_watermark_key_of())) == Some((n + 1) as u64)
                        &&& forall|k: Seq<u8>| k != invocation_key_of(input.at, (n + 1) as u64) && k != invocation_watermark_key_of()
                            ==> #[trigger] newest(*final(store), k) == newest(*old(store), k)
                    }
                },
            },
    {
        let mut transaction = store.begin_transaction();
        let watermark = keyspaces::invocation_watermark_key();
        proof {
            lemma_is_space_key(Space::System, seq![KeyPartValue::U8(SystemEntry::InvocationOrdinal.spec_tag())]);
        }
        let previous = read_sequence(&transaction, store, watermark.as_slice())?;
        if previous == u64::MAX {
            return Err(Error::SequenceOverflow);
        }
        let ordinal = previous + 1;
        let at = input.at;
        let record = Invocation::recorded(ordinal, input);
        let key = keyspaces::invocation_key(at, ordinal);
        proof {
            lemma_is_space_key(Space::Invocations, seq![KeyPartValue::U64(at), KeyPartValue::U64(ordinal)]);
        }
        let checked = checked_key(INVOCATIONS, key.as_slice())?;
        transaction.put(checked, encode_invocation(&record));
        put_sequence(&mut transaction, watermark.as_slice(), ordinal)?;
        proof {
            let k1 = invocation_key_of(at, ordinal);
            let k2 = invocation_watermark_key_of();
            if k1 == k2 {
                crate::keyspaces::lemma_spaces_are_disjoint(Space::Invocations, seq![KeyPartValue::U64(at), KeyPartValue::U64(ordinal)],
                    Space::System, seq![KeyPartValue::U8(SystemEntry::InvocationOrdinal.spec_tag())]);
            }
            assert(transaction.writes().dom() =~= set![k1, k2]);
            assert(set![k1, k2].len() == 2) by {
                assert(!set![k1].contains(k2));
            }
            crate::engine::lemma_write_count(transaction);
            crate::engine::lemma_fresh_snapshot_no_conflict(*old(store), transaction);
            crate::repository::common::lemma_parse_decimal(ordinal);
        }
        transaction.commit(store, Durability::Authoritative)?;
        Ok(record)
    }

    /// The invocations recorded at or after `since`, in time and ordinal
    /// order, each decoded from its stored form.
    pub fn since(&self, store: &RrflowMxStore, since: u64) -> (r: Result<Vec<Invocation>>)
        requires
            store.wf(),
        ensures
            r matches Ok(v) ==> exists|rows: Seq<(Seq<u8>, Seq<u8>)>|
                #[trigger] invocation_rows(*store, since, rows) && v@.len() == rows.len() && forall|i: int|
                    0 <= i < rows.len() ==> (#[trigger] v@[i]).arguments@.len() <= u64::MAX && invocation_bytes(v@[i]) == rows[i].1,
            r is Err ==> exists|rows: Seq<(Seq<u8>, Seq<u8>)>|
                #[trigger] invocation_rows(*store, since, rows) && exists|i: int| 0 <= i < rows.len() && undecodable(#[trigger] rows[i].1),
    {
        let transaction = store.begin_transaction();
        let bound = keyspaces::invocation_bound(since);
        proof {
            lemma_is_space_key(Space::Invocations, seq![KeyPartValue::U64(since)]);
            lemma_space_key_has_end(Space::Invocations, Seq::<KeyPartValue>::empty());
        }
        let rows = scan_space_from(&transaction, store, INVOCATIONS, bound.as_slice())?;
        let ghost view = pairs_view(rows);
        proof {
            crate::engine::lemma_clean_scan(transaction, *store, view, spec_space_key(Space::Invocations, seq![KeyPartValue::U64(since)]),
                spec_prefix_end(spec_space_key(Space::Invocations, Seq::<KeyPartValue>::empty()))->Some_0, usize::MAX as int);
            assert(invocation_rows(*store, since, view));
        }
        let mut out: Vec<Invocation> = Vec::new();
        let mut i: usize = 0;
        while i < rows.len()
            invariant
                i <= rows.len(),
                view == pairs_view(rows),
                invocation_rows(*store, since, view),
                out@.len() == i,
                forall|j: int| 0 <= j < i ==> (#[trigger] out@[j]).arguments@.len() <= u64::MAX && invocation_bytes(out@[j]) == view[j].1,
            decreases rows.len() - i,
        {
            proof {
                assert(view[i as int].1 == rows@[i as int].1@);
            }
            match decode_invocation(rows[i].1.as_slice()) {
                Ok(inv) => {
                    out.push(inv);
                },
                Err(e) => {
                    proof {
                        assert(undecodable(view[i as int].1));
                    }
                    return Err(e);
                },
            }
            i = i + 1;
        }
        Ok(out)
    }
}

} // verus!
