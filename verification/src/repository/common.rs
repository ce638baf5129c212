//! Checked keys, watermarks and space scans shared by every repository.

use crate::engine::{bytes_opt, pairs_view, RrflowMxStore, RrflowMxTransaction};
use crate::error::{text, Error, Result};
use crate::key_codec::{prefix_end, spec_prefix_end, KeyCodec, KeyPartValue};
use crate::keyspaces::{self, spec_space_key, Space, META};
use vstd::prelude::*;

verus! {

/// `key` is a canonical key of `space`.
pub open spec fn is_space_key(space: Space, key: Seq<u8>) -> bool {
    exists|parts: Seq<KeyPartValue>| spec_space_key(space, parts) == key
}

/// An owned copy of `key` once it is checked to be a canonical key of `space`.
pub fn checked_key(space: Space, key: &[u8]) -> (r: Result<Vec<u8>>)
    ensures
        r is Ok <==> is_space_key(space, key@),
        r matches Ok(k) ==> k@ == key@,
{
    match keyspaces::validate_space(KeyCodec, space, key) {
        Ok(()) => {
            let mut out: Vec<u8> = Vec::new();
            crate::bytes::push_all(&mut out, key);
            assert(out@ =~= key@);
            Ok(out)
        },
        Err(e) => Err(e),
    }
}

/// Reads the canonical `space` key `key` through `transaction`.
pub fn get(transaction: &RrflowMxTransaction, store: &RrflowMxStore, space: Space, key: &[u8]) -> (r: Result<Option<Vec<u8>>>)
    requires
        transaction.wf(),
        store.wf(),
    ensures
        r is Ok <==> is_space_key(space, key@),
        r matches Ok(v) ==> bytes_opt(v) == transaction.reads(store, key@),
{
    let checked = checked_key(space, key)?;
    Ok(transaction.get(store, checked.as_slice()))
}

/// ASCII decimal digit.
pub open spec fn is_digit(b: u8) -> bool {
    48 <= b <= 57
}

/// The value of a string of decimal digits.
pub open spec fn digits_value(s: Seq<u8>) -> nat
    decreases s.len(),
{
    if s.len() == 0 {
        0
    } else {
        digits_value(s.drop_last()) * 10 + (s.last() - 48) as nat
    }
}

/// The digits of an optionally `+`-signed decimal numeral.
pub open spec fn numeral_digits(s: Seq<u8>) -> Seq<u8> {
    if s.len() > 0 && s[0] == 43 {
        s.drop_first()
    } else {
        s
    }
}

/// The `u64` that decimal text denotes: at least one digit after an optional
/// `+`, nothing else, and no more than `u64::MAX`.
pub open spec fn parse_u64(s: Seq<u8>) -> Option<u64> {
    let digits = numeral_digits(s);
    if digits.len() > 0 && (forall|i: int| 0 <= i < digits.len() ==> is_digit(#[trigger] digits[i])) && digits_value(digits) <= u64::MAX {
        Some(digits_value(digits) as u64)
    } else {
        None
    }
}

/// The shortest decimal numeral of `n`.
pub open spec fn decimal(n: nat) -> Seq<u8>
    decreases n,
{
    if n < 10 {
        seq![(48 + n) as u8]
    } else {
        decimal(n / 10).push((48 + n % 10) as u8)
    }
}

/// A decimal numeral is digits only and denotes its number.
pub proof fn lemma_decimal_digits(n: nat)
    ensures
        decimal(n).len() > 0,
        forall|i: int| 0 <= i < decimal(n).len() ==> is_digit(#[trigger] decimal(n)[i]),
        digits_value(decimal(n)) == n,
    decreases n,
{
    if n >= 10 {
        lemma_decimal_digits(n / 10);
        let d = decimal(n);
        assert(d.drop_last() =~= decimal(n / 10));
        assert(d.last() == (48 + n % 10) as u8);
        assert(digits_value(d) == digits_value(d.drop_last()) * 10 + (d.last() - 48) as nat);
        assert(n == (n / 10) * 10 + n % 10);
        assert forall|i: int| 0 <= i < d.len() implies is_digit(#[trigger] d[i]) by {
            if i < d.len() - 1 {
                assert(d[i] == decimal(n / 10)[i]);
            }
        }
    } else {
        let d = decimal(n);
        assert(d.drop_last() =~= Seq::<u8>::empty());
        assert(digits_value(d) == digits_value(d.drop_last()) * 10 + (d.last() - 48) as nat);
    }
}

/// Reading back a watermark written as a decimal numeral gives the watermark.
pub proof fn lemma_parse_decimal(n: u64)
    ensures
        parse_u64(decimal(n as nat)) == Some(n),
{
    lemma_decimal_digits(n as nat);
    assert(decimal(n as nat)[0] != 43);
}

/// A digit string is worth at least any of its prefixes.
proof fn lemma_digits_value_prefix(s: Seq<u8>, i: int)
    requires
        0 <= i <= s.len(),
        forall|j: int| 0 <= j < s.len() ==> is_digit(#[trigger] s[j]),
    ensures
        digits_value(s.take(i)) <= digits_value(s),
    decreases s.len() - i,
{
    if i < s.len() {
        lemma_digits_value_prefix(s, i + 1);
        assert(s.take(i + 1).drop_last() =~= s.take(i));
    } else {
        assert(s.take(i) =~= s);
    }
}

/// Appends the decimal numeral of `n`.
fn push_decimal(out: &mut Vec<u8>, n: u64)
    ensures
        final(out)@ == old(out)@ + decimal(n as nat),
    decreases n,
{
    if n >= 10 {
        push_decimal(out, n / 10);
    }
    out.push(48 + (n % 10) as u8);
    proof {
        if n >= 10 {
            assert(decimal(n as nat) == decimal((n / 10) as nat).push((48 + n % 10) as u8));
        }
        assert(final(out)@ =~= old(out)@ + decimal(n as nat));
    }
}

/// The stored form of a watermark: its decimal numeral.
pub fn encode_sequence(sequence: u64) -> (bytes: Vec<u8>)
    ensures
        bytes@ == decimal(sequence as nat),
{
    let mut out: Vec<u8> = Vec::new();
    push_decimal(&mut out, sequence);
    assert(out@ =~= decimal(sequence as nat));
    out
}

/// The watermark a stored decimal numeral denotes.
pub fn decode_sequence(value: &[u8]) -> (r: Result<u64>)
    ensures
        match r {
            Ok(n) => parse_u64(value@) == Some(n),
            Err(e) => parse_u64(value@) is None && e is CorruptWatermark,
        },
{
    let mut start: usize = 0;
    if value.len() > 0 && value[0] == 43 {
        start = 1;
    }
    let ghost digits = numeral_digits(value@);
    proof {
        assert(digits =~= value@.skip(start as int));
    }
    if start >= value.len() {
        return Err(Error::CorruptWatermark(text(if value.len() == 0 { "cannot parse integer from empty string" } else { "invalid digit found in string" })));
    }
    let mut i: usize = start;
    let mut acc: u64 = 0;
    let mut overflow = false;
    assert(digits.take(0) =~= Seq::<u8>::empty());
    while i < value.len()
        invariant
            start <= i <= value@.len(),
            digits == value@.skip(start as int),
            digits == numeral_digits(value@),
            forall|j: int| 0 <= j < i - start ==> is_digit(#[trigger] digits[j]),
            !overflow ==> acc == digits_value(digits.take(i - start)),
            overflow ==> digits_value(digits.take(i - start)) > u64::MAX,
        decreases value@.len() - i,
    {
        let b = value[i];
        if !(48 <= b && b <= 57) {
            proof {
                assert(digits[i - start] == b);
                assert(!is_digit(digits[i - start]));
                assert(numeral_digits(value@) == digits);
                assert(0 <= i - start < digits.len());
                assert(!(forall|j: int| 0 <= j < digits.len() ==> is_digit(#[trigger] digits[j])));
                assert(parse_u64(value@) is None);
            }
            return Err(Error::CorruptWatermark(text("invalid digit found in string")));
        }
        let d = (b - 48) as u64;
        proof {
            assert(digits[i - start] == b);
            assert(digits.take(i - start + 1).drop_last() =~= digits.take(i - start));
            assert(digits.take(i - start + 1).last() == b);
        }
        if !overflow {
            match acc.checked_mul(10) {
                Some(t) => match t.checked_add(d) {
                    Some(v) => {
                        acc = v;
                    },
                    None => {
                        overflow = true;
                    },
                },
                None => {
                    overflow = true;
                },
            }
        } else {
            proof {
                assert(digits_value(digits.take(i - start + 1)) >= digits_value(digits.take(i - start)) * 10) by (nonlinear_arith)
                    requires
                        digits_value(digits.take(i - start + 1)) == digits_value(digits.take(i - start)) * 10 + (b - 48) as nat,
                ;
            }
        }
        i = i + 1;
    }
    proof {
        assert(digits.take(i - start) =~= digits);
    }
    if overflow {
        return Err(Error::CorruptWatermark(text("number too large to fit in target type")));
    }
    Ok(acc)
}

/// The watermark stored under `key` in the system space; 0 where none is stored.
pub fn read_sequence(transaction: &RrflowMxTransaction, store: &RrflowMxStore, key: &[u8]) -> (r: Result<u64>)
    requires
        transaction.wf(),
        store.wf(),
    ensures
        !is_space_key(META, key@) ==> r is Err,
        is_space_key(META, key@) ==> match transaction.reads(store, key@) {
            None => r == Ok::<u64, Error>(0),
            Some(bytes) => match parse_u64(bytes) {
                Some(n) => r == Ok::<u64, Error>(n),
                None => r matches Err(Error::CorruptWatermark(_)),
            },
        },
{
    match get(transaction, store, META, key)? {
        None => Ok(0),
        Some(bytes) => decode_sequence(bytes.as_slice()),
    }
}

/// Stages the watermark `sequence` under `key` in the system space.
pub fn put_sequence(transaction: &mut RrflowMxTransaction, key: &[u8], sequence: u64) -> (r: Result<()>)
    requires
        old(transaction).wf(),
    ensures
        final(transaction).wf(),
        final(transaction).snapshot() == old(transaction).snapshot(),
        r is Ok <==> is_space_key(META, key@),
        r is Ok ==> final(transaction).writes() == old(transaction).writes().insert(key@, Some(decimal(sequence as nat))),
        r is Err ==> final(transaction).writes() == old(transaction).writes(),
{
    let checked = checked_key(META, key)?;
    transaction.put(checked, encode_sequence(sequence));
    Ok(())
}

/// The first key of a scan of `space` under `prefix`: the space's own
/// prefix when `prefix` is empty.
pub open spec fn scan_start(space: Space, prefix: Seq<u8>) -> Seq<u8> {
    if prefix.len() == 0 {
        spec_space_key(space, Seq::<KeyPartValue>::empty())
    } else {
        prefix
    }
}

/// Every pair of `space` whose key starts with `prefix` (the whole space
/// when `prefix` is empty), in key order.
pub fn scan_space(transaction: &RrflowMxTransaction, store: &RrflowMxStore, space: Space, prefix: &[u8]) -> (r: Result<Vec<(Vec<u8>, Vec<u8>)>>)
    requires
        transaction.wf(),
        store.wf(),
    ensures
        prefix@.len() > 0 && !is_space_key(space, prefix@) ==> r is Err,
        (prefix@.len() == 0 || is_space_key(space, prefix@)) ==> match spec_prefix_end(scan_start(space, prefix@)) {
            Some(end) => r matches Ok(pairs) && transaction.is_scan_of(store, pairs_view(pairs), scan_start(space, prefix@), end, usize::MAX as int),
            None => r matches Err(Error::Substrate(_)),
        },
{
    let start = if prefix.len() == 0 {
        keyspaces::space_prefix(space)
    } else {
        checked_key(space, prefix)?
    };
    let end = match prefix_end(start.as_slice()) {
        Some(end) => end,
        None => {
            return Err(Error::Substrate(text("canonical key prefix has no upper bound")));
        },
    };
    Ok(transaction.scan(store, start.as_slice(), end.as_slice(), usize::MAX))
}

/// Every pair of `space` from the key `from` on, in key order.
pub fn scan_space_from(transaction: &RrflowMxTransaction, store: &RrflowMxStore, space: Space, from: &[u8]) -> (r: Result<Vec<(Vec<u8>, Vec<u8>)>>)
    requires
        transaction.wf(),
        store.wf(),
    ensures
        !is_space_key(space, from@) ==> r is Err,
        is_space_key(space, from@) ==> match spec_prefix_end(spec_space_key(space, Seq::<KeyPartValue>::empty())) {
            Some(end) => r matches Ok(pairs) && transaction.is_scan_of(store, pairs_view(pairs), from@, end, usize::MAX as int),
            None => r matches Err(Error::Substrate(_)),
        },
{
    let start = checked_key(space, from)?;
    let prefix = keyspaces::space_prefix(space);
    let end = match prefix_end(prefix.as_slice()) {
        Some(end) => end,
        None => {
            return Err(Error::Substrate(text("canonical key space has no upper bound")));
        },
    };
    Ok(transaction.scan(store, start.as_slice(), end.as_slice(), usize::MAX))
}

/// A key built under a space is a canonical key of that space.
pub proof fn lemma_is_space_key(space: Space, parts: Seq<KeyPartValue>)
    ensures
        is_space_key(space, spec_space_key(space, parts)),
{
}

/// Every canonical key has an exclusive upper bound: it opens with the
/// format tag, which is not `0xff`.
pub proof fn lemma_space_key_has_end(space: Space, parts: Seq<KeyPartValue>)
    ensures
        spec_prefix_end(spec_space_key(space, parts)) is Some,
{
    let k = spec_space_key(space, parts);
    crate::key_codec::lemma_prefix_end_none_iff_all_ff(k);
    assert(k[0] == crate::key_codec::TAG_FORMAT);
}


/// Every key built under a space lies in the range of that space's scan:
/// from the space's own prefix up to the prefix's exclusive end.
pub proof fn lemma_space_key_in_space(space: Space, parts: Seq<KeyPartValue>)
    ensures
        crate::engine::in_range(spec_space_key(space, parts), spec_space_key(space, Seq::<KeyPartValue>::empty()),
            spec_prefix_end(spec_space_key(space, Seq::<KeyPartValue>::empty()))->Some_0),
{
    let head = seq![KeyPartValue::U8(space.spec_subspace())];
    crate::key_order::lemma_encode_parts_concat(head, parts);
    crate::key_order::lemma_encode_parts_concat(head, Seq::<KeyPartValue>::empty());
    assert(head + Seq::<KeyPartValue>::empty() =~= head);
    assert(crate::key_codec::spec_encode_parts(Seq::<KeyPartValue>::empty()) =~= Seq::<u8>::empty());
    let prefix = spec_space_key(space, Seq::<KeyPartValue>::empty());
    let key = spec_space_key(space, parts);
    assert(key =~= prefix + crate::key_codec::spec_encode_parts(parts));
    assert(key.take(prefix.len() as int) =~= prefix);
    lemma_space_key_has_end(space, Seq::<KeyPartValue>::empty());
    crate::key_codec::lemma_prefix_end_exact_range(prefix, key);
}

} // verus!
