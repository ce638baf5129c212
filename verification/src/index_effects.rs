//! What one record transition does to one committed index: the scalar
//! entry it retires and the one it adds, and the key of the source delta
//! that carries the old and new rows to the index's materializers; and the
//! checks that keep a unique index's live windows of one value apart.

use crate::error::{text, Error, Result};
use crate::index::IndexCommitBindingKind;
use crate::key_codec::KeyPartValue;
use crate::keyspaces::{
    self, is_index_scalar, spec_index_value_parts, spec_index_values_parts, spec_space_key, RuntimeRef, RuntimeValue, Space, RUNTIME_SCALAR_ENTRIES,
    RUNTIME_UNIQUE_ENTRIES,
};
use vstd::prelude::*;

verus! {

/// A record's values for the fields of one index, and the valid time of the
/// record version they come from.
#[derive(Debug, Clone, PartialEq, Eq)]
pub struct IndexSourceRow {
    pub values: Vec<RuntimeValue>,
    pub valid_from: u64,
    pub valid_to: Option<u64>,
}

/// Two values are the same, each text by its characters.
pub open spec fn same_value(a: RuntimeValue, b: RuntimeValue) -> bool {
    match (a, b) {
        (RuntimeValue::Null, RuntimeValue::Null) => true,
        (RuntimeValue::Bool(x), RuntimeValue::Bool(y)) => x == y,
        (RuntimeValue::Integer(x), RuntimeValue::Integer(y)) => x == y,
        (RuntimeValue::Unsigned(x), RuntimeValue::Unsigned(y)) => x == y,
        (RuntimeValue::Decimal(x), RuntimeValue::Decimal(y)) => x@ == y@,
        (RuntimeValue::String(x), RuntimeValue::String(y)) => x@ == y@,
        (RuntimeValue::Digest(x), RuntimeValue::Digest(y)) => x@ == y@,
        (RuntimeValue::List(x), RuntimeValue::List(y)) => x@.len() == y@.len() && forall|i: int| 0 <= i < x@.len() ==> (#[trigger] x@[i])@ == y@[i]@,
        (RuntimeValue::Mapping(x), RuntimeValue::Mapping(y)) => x@.len() == y@.len() && forall|i: int|
            0 <= i < x@.len() ==> (#[trigger] x@[i]).0@ == y@[i].0@ && x@[i].1@ == y@[i].1@,
        _ => false,
    }
}

/// Two rows are the same: the same values, valid from and to the same times.
pub open spec fn same_row(a: IndexSourceRow, b: IndexSourceRow) -> bool {
    &&& a.values@.len() == b.values@.len()
    &&& forall|i: int| 0 <= i < a.values@.len() ==> same_value(#[trigger] a.values@[i], b.values@[i])
    &&& a.valid_from == b.valid_from
    &&& a.valid_to == b.valid_to
}

/// The row an optional reference points to.
pub open spec fn opt_row(row: Option<&IndexSourceRow>) -> Option<IndexSourceRow> {
    match row {
        Some(r) => Some(*r),
        None => None,
    }
}

/// Two optional rows are the same: both absent, or both present and the same.
pub open spec fn same_opt_row(a: Option<IndexSourceRow>, b: Option<IndexSourceRow>) -> bool {
    match (a, b) {
        (None, None) => true,
        (Some(x), Some(y)) => same_row(x, y),
        _ => false,
    }
}

/// The row has a null value.
pub open spec fn has_null(row: IndexSourceRow) -> bool {
    exists|i: int| 0 <= i < row.values@.len() && #[trigger] row.values@[i] is Null
}

/// An index keeps an entry for the row: a unique index keeps none for a row
/// with a null value.
pub open spec fn entry_kept(unique: bool, row: IndexSourceRow) -> bool {
    !unique || !has_null(row)
}

/// Every value of the row can stand in an index key.
pub open spec fn row_keyable(row: IndexSourceRow) -> bool {
    forall|i: int| 0 <= i < row.values@.len() ==> is_index_scalar(#[trigger] row.values@[i])
}

/// The space of a scalar index's entries.
pub open spec fn entry_space(unique: bool) -> Space {
    if unique {
        Space::RuntimeUniqueEntries
    } else {
        Space::RuntimeScalarEntries
    }
}

/// The key of the entry of `row` of `reference` in index `index` of `scope`.
pub open spec fn entry_key_of(unique: bool, scope: Seq<char>, index: Seq<char>, row: IndexSourceRow, reference: RuntimeRef) -> Seq<u8> {
    spec_space_key(
        entry_space(unique),
        seq![KeyPartValue::Text(scope), KeyPartValue::Text(index)] + spec_index_values_parts(row.values@) + seq![
            KeyPartValue::Text(reference.kind@),
            KeyPartValue::Text(reference.id@),
            KeyPartValue::DescU64(row.valid_from),
        ],
    )
}

/// The key of the source delta of the transition at `cursor`, the
/// `ordinal`-th of its commit.
pub open spec fn delta_key_of(scope: Seq<char>, index: Seq<char>, cursor: u64, ordinal: u64) -> Seq<u8> {
    spec_space_key(
        Space::RuntimeIndexSourceDeltas,
        seq![KeyPartValue::Text(scope), KeyPartValue::Text(index), KeyPartValue::U64(cursor), KeyPartValue::U64(ordinal)],
    )
}

/// What one changed transition does to an index: the entry key it
/// retires, the entry key it adds, and the key of its source delta.
#[derive(Debug, Clone, PartialEq, Eq)]
pub struct IndexTransitionEffect {
    pub retired_entry: Option<Vec<u8>>,
    pub added_entry: Option<Vec<u8>>,
    pub delta_key: Vec<u8>,
}

/// The entry key an index of `kind` keeps for `row`, where it keeps one.
pub open spec fn kept_entry(
    kind: IndexCommitBindingKind,
    scope: Seq<char>,
    index: Seq<char>,
    row: Option<IndexSourceRow>,
    reference: RuntimeRef,
) -> Option<Seq<u8>> {
    match (kind, row) {
        (IndexCommitBindingKind::Scalar { unique }, Some(r)) => if entry_kept(unique, r) {
            Some(entry_key_of(unique, scope, index, r, reference))
        } else {
            None
        },
        _ => None,
    }
}

/// The entry an index of `kind` keeps for `row` can be keyed.
pub open spec fn entry_keyable(kind: IndexCommitBindingKind, row: Option<IndexSourceRow>) -> bool {
    match (kind, row) {
        (IndexCommitBindingKind::Scalar { unique }, Some(r)) => entry_kept(unique, r) ==> row_keyable(r),
        _ => true,
    }
}

/// Whether two texts are the same.
fn same_text(a: &String, b: &String) -> (e: bool)
    ensures
        e == (a@ == b@),
{
    a.eq(b)
}

/// Whether two lists of texts are the same.
fn same_texts(a: &Vec<String>, b: &Vec<String>) -> (e: bool)
    ensures
        e == (a@.len() == b@.len() && forall|i: int| 0 <= i < a@.len() ==> (#[trigger] a@[i])@ == b@[i]@),
{
    if a.len() != b.len() {
        return false;
    }
    let mut i: usize = 0;
    while i < a.len()
        invariant
            i <= a@.len(),
            a@.len() == b@.len(),
            forall|j: int| 0 <= j < i ==> (#[trigger] a@[j])@ == b@[j]@,
        decreases a@.len() - i,
    {
        if !same_text(&a[i], &b[i]) {
            return false;
        }
        i = i + 1;
    }
    true
}

/// Whether two lists of text pairs are the same.
fn same_text_pairs(a: &Vec<(String, String)>, b: &Vec<(String, String)>) -> (e: bool)
    ensures
        e == (a@.len() == b@.len() && forall|i: int| 0 <= i < a@.len() ==> (#[trigger] a@[i]).0@ == b@[i].0@ && a@[i].1@ == b@[i].1@),
{
    if a.len() != b.len() {
        return false;
    }
    let mut i: usize = 0;
    while i < a.len()
        invariant
            i <= a@.len(),
            a@.len() == b@.len(),
            forall|j: int| 0 <= j < i ==> (#[trigger] a@[j]).0@ == b@[j].0@ && a@[j].1@ == b@[j].1@,
        decreases a@.len() - i,
    {
        if !same_text(&a[i].0, &b[i].0) || !same_text(&a[i].1, &b[i].1) {
            return false;
        }
        i = i + 1;
    }
    true
}

/// Whether two values are the same.
pub fn values_same(a: &RuntimeValue, b: &RuntimeValue) -> (e: bool)
    ensures
        e == same_value(*a, *b),
{
    match (a, b) {
        (RuntimeValue::Null, RuntimeValue::Null) => true,
        (RuntimeValue::Bool(x), RuntimeValue::Bool(y)) => *x == *y,
        (RuntimeValue::Integer(x), RuntimeValue::Integer(y)) => *x == *y,
        (RuntimeValue::Unsigned(x), RuntimeValue::Unsigned(y)) => *x == *y,
        (RuntimeValue::Decimal(x), RuntimeValue::Decimal(y)) => same_text(x, y),
        (RuntimeValue::String(x), RuntimeValue::String(y)) => same_text(x, y),
        (RuntimeValue::Digest(x), RuntimeValue::Digest(y)) => same_text(x, y),
        (RuntimeValue::List(x), RuntimeValue::List(y)) => same_texts(x, y),
        (RuntimeValue::Mapping(x), RuntimeValue::Mapping(y)) => same_text_pairs(x, y),
        _ => false,
    }
}

/// Whether two rows are the same.
pub fn rows_same(a: &IndexSourceRow, b: &IndexSourceRow) -> (e: bool)
    ensures
        e == same_row(*a, *b),
{
    if a.valid_from != b.valid_from || a.valid_to != b.valid_to || a.values.len() != b.values.len() {
        return false;
    }
    let mut i: usize = 0;
    while i < a.values.len()
        invariant
            i <= a.values@.len(),
            a.values@.len() == b.values@.len(),
            forall|j: int| 0 <= j < i ==> same_value(#[trigger] a.values@[j], b.values@[j]),
        decreases a.values@.len() - i,
    {
        if !values_same(&a.values[i], &b.values[i]) {
            return false;
        }
        i = i + 1;
    }
    true
}

/// Whether the row holds a null value.
fn row_has_null(row: &IndexSourceRow) -> (n: bool)
    ensures
        n == has_null(*row),
{
    let mut i: usize = 0;
    while i < row.values.len()
        invariant
            i <= row.values@.len(),
            forall|j: int| 0 <= j < i ==> !(#[trigger] row.values@[j] is Null),
        decreases row.values@.len() - i,
    {
        if let RuntimeValue::Null = &row.values[i] {
            return true;
        }
        i = i + 1;
    }
    false
}

/// The entry key an index of `kind` keeps for `row`, where it keeps one;
/// refused where a kept entry holds a list or map value.
fn entry_for(
    kind: IndexCommitBindingKind,
    scope: &str,
    index: &str,
    row: Option<&IndexSourceRow>,
    reference: &RuntimeRef,
) -> (r: Result<Option<Vec<u8>>>)
    ensures
        r is Ok <==> entry_keyable(kind, opt_row(row)),
        r matches Ok(k) ==> match k {
            Some(key) => kept_entry(kind, scope@, index@, opt_row(row), *reference) == Some(key@),
            None => kept_entry(kind, scope@, index@, opt_row(row), *reference) is None,
        },
{
    match (kind, row) {
        (IndexCommitBindingKind::Scalar { unique }, Some(r)) => {
            if unique && row_has_null(r) {
                return Ok(None);
            }
            let space = if unique {
                RUNTIME_UNIQUE_ENTRIES
            } else {
                RUNTIME_SCALAR_ENTRIES
            };
            let key = keyspaces::runtime_index_entry_key(space, scope, index, r.values.as_slice(), reference, r.valid_from)?;
            Ok(Some(key))
        },
        _ => Ok(None),
    }
}

/// What the transition of `reference` from `before` to `after`, at source
/// cursor `cursor` and the `ordinal`-th of its commit, does to index `index`
/// of `scope`, of kind `kind`: nothing where the rows are the same;
/// otherwise a scalar index retires the entry of the old row and adds one
/// for the new, a unique index keeping no entry for a row with a null
/// value, and every index gets the transition's source delta. Refused where
/// an entry would hold a list or map value.
pub fn index_transition_effect(
    kind: IndexCommitBindingKind,
    scope: &str,
    index: &str,
    reference: &RuntimeRef,
    before: Option<&IndexSourceRow>,
    after: Option<&IndexSourceRow>,
    cursor: u64,
    ordinal: u64,
) -> (r: Result<Option<IndexTransitionEffect>>)
    ensures
        same_opt_row(opt_row(before), opt_row(after)) ==> r matches Ok(None),
        !same_opt_row(opt_row(before), opt_row(after)) ==> (r is Ok <==> entry_keyable(kind, opt_row(before)) && entry_keyable(kind, opt_row(after))),
        !same_opt_row(opt_row(before), opt_row(after)) ==> (r matches Ok(e) ==> e matches Some(effect) && {
            &&& match effect.retired_entry {
                Some(k) => kept_entry(kind, scope@, index@, opt_row(before), *reference) == Some(k@),
                None => kept_entry(kind, scope@, index@, opt_row(before), *reference) is None,
            }
            &&& match effect.added_entry {
                Some(k) => kept_entry(kind, scope@, index@, opt_row(after), *reference) == Some(k@),
                None => kept_entry(kind, scope@, index@, opt_row(after), *reference) is None,
            }
            &&& effect.delta_key@ == delta_key_of(scope@, index@, cursor, ordinal)
        }),
{
    let same = match (before, after) {
        (None, None) => true,
        (Some(x), Some(y)) => rows_same(x, y),
        _ => false,
    };
    if same {
        return Ok(None);
    }
    let retired_entry = entry_for(kind, scope, index, before, reference)?;
    let added_entry = entry_for(kind, scope, index, after, reference)?;
    let delta_key = keyspaces::runtime_index_source_delta_key(scope, index, cursor, ordinal);
    Ok(Some(IndexTransitionEffect { retired_entry, added_entry, delta_key }))
}


/// The most live entries one value of a unique index may have.
pub const MAX_UNIQUE_VALUE_ENTRIES: usize = 1000000;

/// The valid windows `[left_from, left_to)` and `[right_from, right_to)`
/// overlap, an open end lasting forever.
pub open spec fn windows_overlap(left_from: u64, left_to: Option<u64>, right_from: u64, right_to: Option<u64>) -> bool {
    &&& left_from < (match right_to {
        Some(t) => t,
        None => u64::MAX,
    })
    &&& right_from < (match left_to {
        Some(t) => t,
        None => u64::MAX,
    })
}

/// Two references name the same record.
pub open spec fn same_ref(a: RuntimeRef, b: RuntimeRef) -> bool {
    a.kind@ == b.kind@ && a.id@ == b.id@
}

/// Two lists of values are the same.
pub open spec fn same_values(a: Seq<RuntimeValue>, b: Seq<RuntimeValue>) -> bool {
    a.len() == b.len() && forall|i: int| 0 <= i < a.len() ==> same_value(#[trigger] a[i], b[i])
}

/// Two new rows of a unique index collide: different records with the same
/// values in overlapping windows.
pub open spec fn rows_collide(a: (RuntimeRef, IndexSourceRow), b: (RuntimeRef, IndexSourceRow)) -> bool {
    &&& !same_ref(a.0, b.0)
    &&& same_values(a.1.values@, b.1.values@)
    &&& windows_overlap(a.1.valid_from, a.1.valid_to, b.1.valid_from, b.1.valid_to)
}

/// A live entry of a unique index: the record it belongs to and its window.
#[derive(Debug, Clone, PartialEq, Eq)]
pub struct UniqueEntry {
    pub record: RuntimeRef,
    pub valid_from: u64,
    pub valid_to: Option<u64>,
}

/// A stored entry that the commit does not replace collides with the new row.
pub open spec fn entry_collides(row: IndexSourceRow, replaced: Seq<RuntimeRef>, entry: UniqueEntry) -> bool {
    &&& !(exists|k: int| 0 <= k < replaced.len() && same_ref(#[trigger] replaced[k], entry.record))
    &&& windows_overlap(row.valid_from, row.valid_to, entry.valid_from, entry.valid_to)
}

/// The new rows of a unique index can be committed: no two of them collide,
/// no value has more than the bound of live entries, and no stored entry of
/// a record the commit leaves alone collides with one of them.
pub open spec fn unique_rows_admitted(
    candidates: Seq<(RuntimeRef, IndexSourceRow)>,
    replaced: Seq<RuntimeRef>,
    existing: Seq<Seq<UniqueEntry>>,
) -> bool {
    &&& !(exists|i: int, j: int| 0 <= i < j < candidates.len() && rows_collide(#[trigger] candidates[i], #[trigger] candidates[j]))
    &&& forall|i: int| 0 <= i < candidates.len() ==> (#[trigger] existing[i]).len() <= MAX_UNIQUE_VALUE_ENTRIES
    &&& forall|i: int, e: int| 0 <= i < candidates.len() && 0 <= e < existing[i].len()
        ==> !entry_collides(candidates[i].1, replaced, #[trigger] existing[i][e])
}

/// Whether two references name the same record.
fn refs_same(a: &RuntimeRef, b: &RuntimeRef) -> (e: bool)
    ensures
        e == same_ref(*a, *b),
{
    same_text(&a.kind, &b.kind) && same_text(&a.id, &b.id)
}

/// Whether two lists of values are the same.
fn value_lists_same(a: &Vec<RuntimeValue>, b: &Vec<RuntimeValue>) -> (e: bool)
    ensures
        e == same_values(a@, b@),
{
    if a.len() != b.len() {
        return false;
    }
    let mut i: usize = 0;
    while i < a.len()
        invariant
            i <= a@.len(),
            a@.len() == b@.len(),
            forall|j: int| 0 <= j < i ==> same_value(#[trigger] a@[j], b@[j]),
        decreases a@.len() - i,
    {
        if !values_same(&a[i], &b[i]) {
            return false;
        }
        i = i + 1;
    }
    true
}

/// Whether two windows overlap.
fn overlap(left_from: u64, left_to: Option<u64>, right_from: u64, right_to: Option<u64>) -> (o: bool)
    ensures
        o == windows_overlap(left_from, left_to, right_from, right_to),
{
    let right_end = match right_to {
        Some(t) => t,
        None => u64::MAX,
    };
    let left_end = match left_to {
        Some(t) => t,
        None => u64::MAX,
    };
    left_from < right_end && right_from < left_end
}

/// Whether the commit replaces `record`.
fn is_replaced(replaced: &Vec<RuntimeRef>, record: &RuntimeRef) -> (found: bool)
    ensures
        found == exists|k: int| 0 <= k < replaced@.len() && same_ref(#[trigger] replaced@[k], *record),
{
    let mut k: usize = 0;
    while k < replaced.len()
        invariant
            k <= replaced@.len(),
            forall|q: int| 0 <= q < k ==> !same_ref(#[trigger] replaced@[q], *record),
        decreases replaced@.len() - k,
    {
        if refs_same(&replaced[k], record) {
            return true;
        }
        k = k + 1;
    }
    false
}

/// Checks the new rows of a unique index, `candidates`, one per changed
/// record whose new values hold no null, against each other and against
/// `existing`, the live entries stored under each candidate's values, one
/// list per candidate; `replaced` names the records the commit changes. Refused with an index
/// constraint error where two new rows collide, a value has more than the
/// bound of live entries, or a stored entry of a record the commit leaves
/// alone collides with a new row.
pub fn check_unique_rows(
    candidates: &Vec<(RuntimeRef, IndexSourceRow)>,
    replaced: &Vec<RuntimeRef>,
    existing: &Vec<Vec<UniqueEntry>>,
) -> (r: Result<()>)
    ensures
        r is Ok <==> existing@.len() == candidates@.len() && unique_rows_admitted(
            candidates@,
            replaced@,
            existing@.map_values(|v: Vec<UniqueEntry>| v@),
        ),
        r matches Err(e) ==> e is IndexConstraint,
{
    let ghost ex = existing@.map_values(|v: Vec<UniqueEntry>| v@);
    let n = candidates.len();
    if existing.len() != n {
        return Err(Error::IndexConstraint(text("unique index entries are not one list per new row")));
    }
    let mut i: usize = 0;
    while i < n
        invariant
            n == candidates@.len(),
            i <= n,
            forall|a: int, b: int| 0 <= a < i && a < b < n ==> !rows_collide(#[trigger] candidates@[a], #[trigger] candidates@[b]),
        decreases n - i,
    {
        let mut j: usize = i + 1;
        while j < n
            invariant
                n == candidates@.len(),
                i < n,
                i + 1 <= j <= n,
                forall|b: int| i < b < j ==> !rows_collide(candidates@[i as int], #[trigger] candidates@[b]),
            decreases n - j,
        {
            let (left_ref, left) = &candidates[i];
            let (right_ref, right) = &candidates[j];
            if !refs_same(left_ref, right_ref) && value_lists_same(&left.values, &right.values)
                && overlap(left.valid_from, left.valid_to, right.valid_from, right.valid_to) {
                return Err(Error::IndexConstraint(text("unique index rejects overlapping duplicate records")));
            }
            j = j + 1;
        }
        i = i + 1;
    }
    let mut c: usize = 0;
    while c < n
        invariant
            n == candidates@.len(),
            n == existing@.len(),
            ex == existing@.map_values(|v: Vec<UniqueEntry>| v@),
            c <= n,
            forall|a: int, b: int| 0 <= a < b < n ==> !rows_collide(#[trigger] candidates@[a], #[trigger] candidates@[b]),
            forall|a: int| 0 <= a < c ==> (#[trigger] ex[a]).len() <= MAX_UNIQUE_VALUE_ENTRIES,
            forall|a: int, e: int| 0 <= a < c && 0 <= e < ex[a].len() ==> !entry_collides(candidates@[a].1, replaced@, #[trigger] ex[a][e]),
        decreases n - c,
    {
        let entries = &existing[c];
        assert(ex[c as int] == entries@);
        if entries.len() > MAX_UNIQUE_VALUE_ENTRIES {
            return Err(Error::IndexConstraint(text("unique index value exceeds its bound of live windows")));
        }
        let row = &candidates[c].1;
        let mut e: usize = 0;
        while e < entries.len()
            invariant
                n == candidates@.len(),
                n == existing@.len(),
                ex == existing@.map_values(|v: Vec<UniqueEntry>| v@),
                c < n,
                ex[c as int] == entries@,
                *row == candidates@[c as int].1,
                e <= entries@.len(),
                forall|q: int| 0 <= q < e ==> !entry_collides(*row, replaced@, #[trigger] entries@[q]),
            decreases entries@.len() - e,
        {
            let entry = &entries[e];
            if !is_replaced(replaced, &entry.record) && overlap(row.valid_from, row.valid_to, entry.valid_from, entry.valid_to) {
                assert(entry_collides(candidates@[c as int].1, replaced@, ex[c as int][e as int]));
                return Err(Error::IndexConstraint(text("unique index rejects overlapping duplicate records")));
            }
            e = e + 1;
        }
        c = c + 1;
    }
    Ok(())
}


/// Where a valid window ends: its end, or the end of time for an open one.
pub open spec fn window_end(to: Option<u64>) -> int {
    match to {
        Some(t) => t as int,
        None => u64::MAX as int,
    }
}

/// The instant `t` lies in the window `[from, to)`.
pub open spec fn in_window(t: int, from: u64, to: Option<u64>) -> bool {
    from <= t < window_end(to)
}

/// Two windows that are not empty overlap exactly when some instant lies in
/// both: a window `[from, to)` holds the instants from its start up to, not
/// including, its end.
pub proof fn lemma_windows_overlap_share_an_instant(left_from: u64, left_to: Option<u64>, right_from: u64, right_to: Option<u64>)
    requires
        left_from < window_end(left_to),
        right_from < window_end(right_to),
    ensures
        windows_overlap(left_from, left_to, right_from, right_to) <==> exists|t: int|
            #[trigger] in_window(t, left_from, left_to) && in_window(t, right_from, right_to),
{
    if windows_overlap(left_from, left_to, right_from, right_to) {
        let t: int = if left_from <= right_from { right_from as int } else { left_from as int };
        assert(in_window(t, left_from, left_to) && in_window(t, right_from, right_to));
    }
}

/// Two different records whose new rows hold the same values from the same
/// instant, in windows that are not empty, collide in a unique index: a
/// commit of both rows is refused.
pub proof fn lemma_same_start_collides(a: (RuntimeRef, IndexSourceRow), b: (RuntimeRef, IndexSourceRow), replaced: Seq<RuntimeRef>, existing: Seq<Seq<UniqueEntry>>)
    requires
        !(a.0.kind@ == b.0.kind@ && a.0.id@ == b.0.id@),
        a.1.values@.len() == b.1.values@.len(),
        forall|i: int| 0 <= i < a.1.values@.len() ==> same_value(#[trigger] a.1.values@[i], b.1.values@[i]),
        a.1.valid_from == b.1.valid_from,
        a.1.valid_from < window_end(a.1.valid_to),
        b.1.valid_from < window_end(b.1.valid_to),
    ensures
        rows_collide(a, b),
        !unique_rows_admitted(seq![a, b], replaced, existing),
{
    lemma_windows_overlap_share_an_instant(a.1.valid_from, a.1.valid_to, b.1.valid_from, b.1.valid_to);
    assert(in_window(a.1.valid_from as int, a.1.valid_from, a.1.valid_to) && in_window(a.1.valid_from as int, b.1.valid_from, b.1.valid_to));
    let cs = seq![a, b];
    assert(rows_collide(cs[0], cs[1]));
}


/// The values a unique index compares are the ones its keys hold: two
/// scalar values are the same exactly when they take the same key fields.
pub proof fn lemma_same_value_is_same_key(a: RuntimeValue, b: RuntimeValue)
    requires
        is_index_scalar(a),
        is_index_scalar(b),
    ensures
        same_value(a, b) <==> spec_index_value_parts(a) == spec_index_value_parts(b),
{
    if spec_index_value_parts(a) == spec_index_value_parts(b) {
        assert(spec_index_value_parts(a)[0] == spec_index_value_parts(b)[0]);
        if spec_index_value_parts(a).len() > 1 {
            assert(spec_index_value_parts(a)[1] == spec_index_value_parts(b)[1]);
        }
    }
}

/// Stored entries decide a unique check by their record and window: an
/// entry of a record the commit replaces never refuses a new row, and one
/// of any other record whose window shares an instant with the new row's
/// refuses the commit.
pub proof fn lemma_stored_entries_decide(
    candidates: Seq<(RuntimeRef, IndexSourceRow)>,
    replaced: Seq<RuntimeRef>,
    existing: Seq<Seq<UniqueEntry>>,
    i: int,
    e: int,
    t: int,
)
    requires
        0 <= i < candidates.len(),
        0 <= e < existing[i].len(),
    ensures
        ({
            let row = candidates[i].1;
            let entry = existing[i][e];
            let replaced_record = exists|k: int| 0 <= k < replaced.len() && replaced[k].kind@ == entry.record.kind@ && #[trigger] replaced[k].id@
                == entry.record.id@;
            &&& replaced_record ==> !entry_collides(row, replaced, entry)
            &&& !replaced_record && in_window(t, row.valid_from, row.valid_to) && in_window(t, entry.valid_from, entry.valid_to)
                ==> entry_collides(row, replaced, entry) && !unique_rows_admitted(candidates, replaced, existing)
        }),
{
    let row = candidates[i].1;
    let entry = existing[i][e];
    if exists|k: int| 0 <= k < replaced.len() && same_ref(#[trigger] replaced[k], entry.record) {
        let k = choose|k: int| 0 <= k < replaced.len() && same_ref(#[trigger] replaced[k], entry.record);
        assert(replaced[k].id@ == entry.record.id@);
    }
    if in_window(t, row.valid_from, row.valid_to) && in_window(t, entry.valid_from, entry.valid_to) {
        lemma_windows_overlap_share_an_instant(row.valid_from, row.valid_to, entry.valid_from, entry.valid_to);
    }
}

/// Rows of one record never collide with each other, and neither do rows
/// whose windows share no instant.
pub proof fn lemma_rows_that_cannot_collide(a: (RuntimeRef, IndexSourceRow), b: (RuntimeRef, IndexSourceRow))
    requires
        a.1.valid_from < window_end(a.1.valid_to),
        b.1.valid_from < window_end(b.1.valid_to),
    ensures
        a.0.kind@ == b.0.kind@ && a.0.id@ == b.0.id@ ==> !rows_collide(a, b),
        (forall|t: int| !(#[trigger] in_window(t, a.1.valid_from, a.1.valid_to) && in_window(t, b.1.valid_from, b.1.valid_to)))
            ==> !rows_collide(a, b),
{
    lemma_windows_overlap_share_an_instant(a.1.valid_from, a.1.valid_to, b.1.valid_from, b.1.valid_to);
}


/// Which rows an index keeps entries for: a text index keeps none; a
/// scalar index keeps one for every row, under the row's values, the
/// record and its valid start; a unique index keeps none for a row holding
/// a null value.
pub proof fn lemma_kept_entries(kind: IndexCommitBindingKind, scope: Seq<char>, index: Seq<char>, row: IndexSourceRow, reference: RuntimeRef)
    ensures
        kind is Bm25 ==> kept_entry(kind, scope, index, Some(row), reference) is None,
        kept_entry(kind, scope, index, None, reference) is None,
        kind == (IndexCommitBindingKind::Scalar { unique: false }) ==> kept_entry(kind, scope, index, Some(row), reference) == Some(
            spec_space_key(
                Space::RuntimeScalarEntries,
                seq![KeyPartValue::Text(scope), KeyPartValue::Text(index)] + spec_index_values_parts(row.values@) + seq![
                    KeyPartValue::Text(reference.kind@),
                    KeyPartValue::Text(reference.id@),
                    KeyPartValue::DescU64(row.valid_from),
                ],
            ),
        ),
        kind == (IndexCommitBindingKind::Scalar { unique: true }) ==> (kept_entry(kind, scope, index, Some(row), reference) is None <==> exists|i: int|
            0 <= i < row.values@.len() && #[trigger] row.values@[i] is Null),
        kind == (IndexCommitBindingKind::Scalar { unique: true }) && kept_entry(kind, scope, index, Some(row), reference) is Some
            ==> kept_entry(kind, scope, index, Some(row), reference) == Some(spec_space_key(
            Space::RuntimeUniqueEntries,
            seq![KeyPartValue::Text(scope), KeyPartValue::Text(index)] + spec_index_values_parts(row.values@) + seq![
                KeyPartValue::Text(reference.kind@),
                KeyPartValue::Text(reference.id@),
                KeyPartValue::DescU64(row.valid_from),
            ],
        )),
{
}

} // verus!
