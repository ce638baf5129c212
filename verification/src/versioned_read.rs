//! Budgets and evidence of stamped direct reads.
//!
//! A direct semantic read examines at most its key budget of physical keys
//! and reports, per closed access path and in total, how many point reads,
//! range scans, examined keys, decoded values and decoded bytes it took.

use crate::engine::{bytes_opt, pairs_view, RrflowMxStore, RrflowMxTransaction};
use crate::error::{text, Error, Result};
use vstd::prelude::*;

verus! {

/// Version of the direct-read evidence contract.
pub const RUNTIME_VERSIONED_READ_CONTRACT_VERSION: u16 = 1;

/// Hard key-examination bound for one direct semantic read.
#[derive(Debug, Clone, Copy, PartialEq, Eq, Structural)]
pub struct RuntimeReadBudget {
    pub max_keys: u64,
}

impl RuntimeReadBudget {
    /// A budget of `max_keys` examined keys, which must be positive.
    pub fn new(max_keys: u64) -> (r: Result<Self>)
        ensures
            match r {
                Ok(b) => max_keys > 0 && b.max_keys == max_keys,
                Err(e) => max_keys == 0 && e is Substrate,
            },
    {
        let budget = RuntimeReadBudget { max_keys };
        budget.validate()?;
        Ok(budget)
    }

    /// Checks that the budget is positive.
    pub fn validate(self) -> (r: Result<()>)
        ensures
            r is Ok <==> self.max_keys > 0,
            r matches Err(e) ==> (e matches Error::Substrate(m) && m@ == "runtime versioned-read key budget must be greater than zero"@),
    {
        if self.max_keys == 0 {
            return Err(Error::Substrate(text("runtime versioned-read key budget must be greater than zero")));
        }
        Ok(())
    }
}

/// Closed physical path vocabulary for direct-read evidence, in its order.
#[derive(Debug, Clone, Copy, PartialEq, Eq, Structural)]
pub enum RuntimeReadAccessPath {
    ReadStamp,
    SchemaVersions,
    ClaimVersions,
    RecordVersions,
    RelationVersions,
    EventVersions,
    VectorVersions,
    SeriesVersions,
    GeoVersions,
    ObjectVersions,
    AccumulatorProof,
}

impl RuntimeReadAccessPath {
    /// The path's position in the vocabulary's order.
    pub open spec fn spec_rank(self) -> u8 {
        match self {
            RuntimeReadAccessPath::ReadStamp => 0,
            RuntimeReadAccessPath::SchemaVersions => 1,
            RuntimeReadAccessPath::ClaimVersions => 2,
            RuntimeReadAccessPath::RecordVersions => 3,
            RuntimeReadAccessPath::RelationVersions => 4,
            RuntimeReadAccessPath::EventVersions => 5,
            RuntimeReadAccessPath::VectorVersions => 6,
            RuntimeReadAccessPath::SeriesVersions => 7,
            RuntimeReadAccessPath::GeoVersions => 8,
            RuntimeReadAccessPath::ObjectVersions => 9,
            RuntimeReadAccessPath::AccumulatorProof => 10,
        }
    }

    /// The path's position in the vocabulary's order.
    pub fn rank(self) -> (r: u8)
        ensures
            r == self.spec_rank(),
    {
        match self {
            RuntimeReadAccessPath::ReadStamp => 0,
            RuntimeReadAccessPath::SchemaVersions => 1,
            RuntimeReadAccessPath::ClaimVersions => 2,
            RuntimeReadAccessPath::RecordVersions => 3,
            RuntimeReadAccessPath::RelationVersions => 4,
            RuntimeReadAccessPath::EventVersions => 5,
            RuntimeReadAccessPath::VectorVersions => 6,
            RuntimeReadAccessPath::SeriesVersions => 7,
            RuntimeReadAccessPath::GeoVersions => 8,
            RuntimeReadAccessPath::ObjectVersions => 9,
            RuntimeReadAccessPath::AccumulatorProof => 10,
        }
    }
}

/// Distinct paths have distinct ranks.
pub proof fn lemma_rank_injective(a: RuntimeReadAccessPath, b: RuntimeReadAccessPath)
    ensures
        a.spec_rank() == b.spec_rank() <==> a == b,
{
}

/// Counters attributed to one closed direct-read access path.
#[derive(Debug, Clone, Copy, PartialEq, Eq, Structural)]
pub struct RuntimeReadPathEvidence {
    pub path: RuntimeReadAccessPath,
    pub point_reads: u64,
    pub range_scans: u64,
    pub keys_examined: u64,
    pub values_decoded: u64,
    pub decoded_bytes: u64,
}

/// Cumulative read counters.
#[derive(Debug, Clone, Copy, PartialEq, Eq, Structural)]
pub struct PathCounters {
    pub point_reads: u64,
    pub range_scans: u64,
    pub keys_examined: u64,
    pub values_decoded: u64,
    pub decoded_bytes: u64,
}

/// `left + right`, or `SequenceOverflow`.
pub fn checked_add(left: u64, right: u64) -> (r: Result<u64>)
    ensures
        left + right <= u64::MAX ==> r == Ok::<u64, Error>((left + right) as u64),
        left + right > u64::MAX ==> r == Err::<u64, Error>(Error::SequenceOverflow),
{
    match left.checked_add(right) {
        Some(v) => Ok(v),
        None => Err(Error::SequenceOverflow),
    }
}

impl PathCounters {
    /// All counters at zero.
    pub open spec fn spec_zero() -> Self {
        PathCounters { point_reads: 0, range_scans: 0, keys_examined: 0, values_decoded: 0, decoded_bytes: 0 }
    }

    /// All counters at zero.
    pub fn zero() -> (c: Self)
        ensures
            c == Self::spec_zero(),
    {
        PathCounters { point_reads: 0, range_scans: 0, keys_examined: 0, values_decoded: 0, decoded_bytes: 0 }
    }

    /// Adds to each counter in turn. The first counter that would pass
    /// `u64::MAX` stops the addition with `SequenceOverflow`; counters before
    /// it keep their sums and the rest keep their old values.
    pub fn add(&mut self, point_reads: u64, range_scans: u64, keys_examined: u64, values_decoded: u64, decoded_bytes: u64) -> (r: Result<()>)
        ensures
            ({
                let p = old(self).point_reads + point_reads <= u64::MAX;
                let s = p && old(self).range_scans + range_scans <= u64::MAX;
                let k = s && old(self).keys_examined + keys_examined <= u64::MAX;
                let v = k && old(self).values_decoded + values_decoded <= u64::MAX;
                let b = v && old(self).decoded_bytes + decoded_bytes <= u64::MAX;
                &&& final(self).point_reads == if p { (old(self).point_reads + point_reads) as u64 } else { old(self).point_reads }
                &&& final(self).range_scans == if s { (old(self).range_scans + range_scans) as u64 } else { old(self).range_scans }
                &&& final(self).keys_examined == if k { (old(self).keys_examined + keys_examined) as u64 } else { old(self).keys_examined }
                &&& final(self).values_decoded == if v { (old(self).values_decoded + values_decoded) as u64 } else { old(self).values_decoded }
                &&& final(self).decoded_bytes == if b { (old(self).decoded_bytes + decoded_bytes) as u64 } else { old(self).decoded_bytes }
                &&& (r is Ok <==> b)
                &&& (r matches Err(e) ==> e is SequenceOverflow)
            }),
    {
        self.point_reads = checked_add(self.point_reads, point_reads)?;
        self.range_scans = checked_add(self.range_scans, range_scans)?;
        self.keys_examined = checked_add(self.keys_examined, keys_examined)?;
        self.values_decoded = checked_add(self.values_decoded, values_decoded)?;
        self.decoded_bytes = checked_add(self.decoded_bytes, decoded_bytes)?;
        Ok(())
    }
}

/// Complete logical I/O evidence for one stamped direct read; `V` is the
/// read-stamp validation it carries.
#[derive(Debug, Clone, PartialEq, Eq)]
pub struct RuntimeReadEvidence<V> {
    pub contract_version: u16,
    pub key_budget: u64,
    pub point_reads: u64,
    pub range_scans: u64,
    pub keys_examined: u64,
    pub values_decoded: u64,
    pub decoded_bytes: u64,
    pub stamp_validation: V,
    pub paths: Vec<RuntimeReadPathEvidence>,
}

/// The sum of one counter over a prefix of paths.
pub open spec fn path_sum(paths: Seq<RuntimeReadPathEvidence>, field: spec_fn(RuntimeReadPathEvidence) -> u64) -> int
    decreases paths.len(),
{
    if paths.len() == 0 {
        0
    } else {
        path_sum(paths.drop_last(), field) + field(paths.last()) as int
    }
}

/// Each counter's sums over the paths, one per field.
pub open spec fn sum_points(p: Seq<RuntimeReadPathEvidence>) -> int {
    path_sum(p, |e: RuntimeReadPathEvidence| e.point_reads)
}

pub open spec fn sum_scans(p: Seq<RuntimeReadPathEvidence>) -> int {
    path_sum(p, |e: RuntimeReadPathEvidence| e.range_scans)
}

pub open spec fn sum_keys(p: Seq<RuntimeReadPathEvidence>) -> int {
    path_sum(p, |e: RuntimeReadPathEvidence| e.keys_examined)
}

pub open spec fn sum_values(p: Seq<RuntimeReadPathEvidence>) -> int {
    path_sum(p, |e: RuntimeReadPathEvidence| e.values_decoded)
}

pub open spec fn sum_bytes(p: Seq<RuntimeReadPathEvidence>) -> int {
    path_sum(p, |e: RuntimeReadPathEvidence| e.decoded_bytes)
}

/// Evidence is consistent: the contract version is this one; the budget is
/// positive and covers the examined keys; no more values were decoded than
/// keys examined, in total and per path; paths are listed once each in
/// their order; and the totals are the sums over the paths.
pub open spec fn evidence_consistent<V>(e: RuntimeReadEvidence<V>) -> bool {
    let p = e.paths@;
    &&& e.contract_version == RUNTIME_VERSIONED_READ_CONTRACT_VERSION
    &&& e.key_budget != 0
    &&& e.keys_examined <= e.key_budget
    &&& e.values_decoded <= e.keys_examined
    &&& p.len() > 0
    &&& forall|i: int, j: int| 0 <= i < j < p.len() ==> (#[trigger] p[i]).path.spec_rank() < (#[trigger] p[j]).path.spec_rank()
    &&& forall|i: int| 0 <= i < p.len() ==> (#[trigger] p[i]).values_decoded <= p[i].keys_examined
    &&& sum_points(p) == e.point_reads
    &&& sum_scans(p) == e.range_scans
    &&& sum_keys(p) == e.keys_examined
    &&& sum_values(p) == e.values_decoded
    &&& sum_bytes(p) == e.decoded_bytes
}

/// Partial sums never decrease.
proof fn lemma_path_sum_monotone(p: Seq<RuntimeReadPathEvidence>, field: spec_fn(RuntimeReadPathEvidence) -> u64, i: int)
    requires
        0 <= i <= p.len(),
    ensures
        path_sum(p.take(i), field) <= path_sum(p, field),
    decreases p.len() - i,
{
    if i < p.len() {
        lemma_path_sum_monotone(p, field, i + 1);
        assert(p.take(i + 1).drop_last() =~= p.take(i));
    } else {
        assert(p.take(i) =~= p);
    }
}

/// The sum over one more path.
proof fn lemma_path_sum_step(p: Seq<RuntimeReadPathEvidence>, field: spec_fn(RuntimeReadPathEvidence) -> u64, i: int)
    requires
        0 <= i < p.len(),
    ensures
        path_sum(p.take(i + 1), field) == path_sum(p.take(i), field) + field(p[i]) as int,
{
    assert(p.take(i + 1).drop_last() =~= p.take(i));
}

impl<V> RuntimeReadEvidence<V> {
    /// Checks the evidence's header, paths and totals.
    pub fn validate(&self) -> (r: Result<()>)
        ensures
            r is Ok <==> evidence_consistent(*self),
            r matches Err(e) ==> e is Substrate || e is SequenceOverflow,
    {
        if self.contract_version != RUNTIME_VERSIONED_READ_CONTRACT_VERSION || self.key_budget == 0
            || self.keys_examined > self.key_budget || self.values_decoded > self.keys_examined
            || self.paths.len() == 0 {
            return Err(Error::Substrate(text("runtime versioned-read evidence header is invalid")));
        }
        let ghost p = self.paths@;
        let mut prior: Option<u8> = None;
        let mut totals = PathCounters::zero();
        let mut i: usize = 0;
        while i < self.paths.len()
            invariant
                p == self.paths@,
                i <= p.len(),
                forall|a: int, b: int| 0 <= a < b < i ==> (#[trigger] p[a]).path.spec_rank() < (#[trigger] p[b]).path.spec_rank(),
                forall|a: int| 0 <= a < i ==> (#[trigger] p[a]).values_decoded <= p[a].keys_examined,
                prior == if i == 0 { None::<u8> } else { Some(p[i - 1].path.spec_rank()) },
                totals.point_reads == sum_points(p.take(i as int)),
                totals.range_scans == sum_scans(p.take(i as int)),
                totals.keys_examined == sum_keys(p.take(i as int)),
                totals.values_decoded == sum_values(p.take(i as int)),
                totals.decoded_bytes == sum_bytes(p.take(i as int)),
            decreases p.len() - i,
        {
            let path = &self.paths[i];
            let rank = path.path.rank();
            let out_of_order = match prior {
                Some(value) => value >= rank,
                None => false,
            };
            if out_of_order || path.values_decoded > path.keys_examined {
                return Err(Error::Substrate(text("runtime versioned-read path evidence is invalid")));
            }
            prior = Some(rank);
            proof {
                lemma_path_sum_step(p, |e: RuntimeReadPathEvidence| e.point_reads, i as int);
                lemma_path_sum_step(p, |e: RuntimeReadPathEvidence| e.range_scans, i as int);
                lemma_path_sum_step(p, |e: RuntimeReadPathEvidence| e.keys_examined, i as int);
                lemma_path_sum_step(p, |e: RuntimeReadPathEvidence| e.values_decoded, i as int);
                lemma_path_sum_step(p, |e: RuntimeReadPathEvidence| e.decoded_bytes, i as int);
                lemma_path_sum_monotone(p, |e: RuntimeReadPathEvidence| e.point_reads, i + 1);
                lemma_path_sum_monotone(p, |e: RuntimeReadPathEvidence| e.range_scans, i + 1);
                lemma_path_sum_monotone(p, |e: RuntimeReadPathEvidence| e.keys_examined, i + 1);
                lemma_path_sum_monotone(p, |e: RuntimeReadPathEvidence| e.values_decoded, i + 1);
                lemma_path_sum_monotone(p, |e: RuntimeReadPathEvidence| e.decoded_bytes, i + 1);
            }
            let added = totals.add(path.point_reads, path.range_scans, path.keys_examined, path.values_decoded, path.decoded_bytes);
            if added.is_err() {
                return Err(Error::SequenceOverflow);
            }
            i = i + 1;
        }
        proof {
            assert(p.take(i as int) =~= p);
        }
        if totals.point_reads != self.point_reads || totals.range_scans != self.range_scans
            || totals.keys_examined != self.keys_examined || totals.values_decoded != self.values_decoded
            || totals.decoded_bytes != self.decoded_bytes {
            return Err(Error::Substrate(text("runtime versioned-read evidence totals do not match its paths")));
        }
        Ok(())
    }
}

/// Whether each counter of `c` can take its addend without passing `u64::MAX`.
pub open spec fn counters_fit(c: PathCounters, point_reads: u64, range_scans: u64, keys_examined: u64, values_decoded: u64, decoded_bytes: u64) -> bool {
    &&& c.point_reads + point_reads <= u64::MAX
    &&& c.range_scans + range_scans <= u64::MAX
    &&& c.keys_examined + keys_examined <= u64::MAX
    &&& c.values_decoded + values_decoded <= u64::MAX
    &&& c.decoded_bytes + decoded_bytes <= u64::MAX
}

/// `c` with each addend added to its counter.
pub open spec fn counters_plus(c: PathCounters, point_reads: u64, range_scans: u64, keys_examined: u64, values_decoded: u64, decoded_bytes: u64) -> PathCounters {
    PathCounters {
        point_reads: (c.point_reads + point_reads) as u64,
        range_scans: (c.range_scans + range_scans) as u64,
        keys_examined: (c.keys_examined + keys_examined) as u64,
        values_decoded: (c.values_decoded + values_decoded) as u64,
        decoded_bytes: (c.decoded_bytes + decoded_bytes) as u64,
    }
}

/// The counters of one path's evidence.
pub open spec fn counters_of(e: RuntimeReadPathEvidence) -> PathCounters {
    PathCounters {
        point_reads: e.point_reads,
        range_scans: e.range_scans,
        keys_examined: e.keys_examined,
        values_decoded: e.values_decoded,
        decoded_bytes: e.decoded_bytes,
    }
}

/// Paths are listed in strictly ascending rank, so once each.
pub open spec fn paths_ranked(p: Seq<RuntimeReadPathEvidence>) -> bool {
    forall|i: int, j: int| 0 <= i < j < p.len() ==> (#[trigger] p[i]).path.spec_rank() < (#[trigger] p[j]).path.spec_rank()
}

/// Whether `path` has an entry in `p`.
pub open spec fn path_listed(p: Seq<RuntimeReadPathEvidence>, path: RuntimeReadAccessPath) -> bool {
    exists|i: int| 0 <= i < p.len() && (#[trigger] p[i]).path == path
}

/// The counters that `p` lists for each path it lists.
pub open spec fn paths_view(p: Seq<RuntimeReadPathEvidence>) -> Map<RuntimeReadAccessPath, PathCounters> {
    Map::new(
        |path: RuntimeReadAccessPath| path_listed(p, path),
        |path: RuntimeReadAccessPath| counters_of(p[choose|i: int| 0 <= i < p.len() && (#[trigger] p[i]).path == path]),
    )
}

/// In ranked paths, the entry at `i` is the one listed for its path.
proof fn lemma_paths_view_at(p: Seq<RuntimeReadPathEvidence>, i: int)
    requires
        paths_ranked(p),
        0 <= i < p.len(),
    ensures
        paths_view(p).contains_key(p[i].path),
        paths_view(p)[p[i].path] == counters_of(p[i]),
{
    let path = p[i].path;
    assert(path_listed(p, path));
    let j = choose|j: int| 0 <= j < p.len() && (#[trigger] p[j]).path == path;
    if j != i {
        if j < i {
            assert(p[j].path.spec_rank() < p[i].path.spec_rank());
        } else {
            assert(p[i].path.spec_rank() < p[j].path.spec_rank());
        }
    }
}

/// Replacing the entry at `i` by one for the same path updates that path.
proof fn lemma_paths_view_update(p: Seq<RuntimeReadPathEvidence>, i: int, e: RuntimeReadPathEvidence)
    requires
        paths_ranked(p),
        0 <= i < p.len(),
        e.path == p[i].path,
    ensures
        paths_ranked(p.update(i, e)),
        paths_view(p.update(i, e)) == paths_view(p).insert(e.path, counters_of(e)),
{
    let q = p.update(i, e);
    assert(paths_ranked(q)) by {
        assert forall|a: int, b: int| 0 <= a < b < q.len() implies (#[trigger] q[a]).path.spec_rank() < (#[trigger] q[b]).path.spec_rank() by {
            assert(p[a].path.spec_rank() < p[b].path.spec_rank());
        }
    }
    assert forall|path: RuntimeReadAccessPath| path_listed(q, path) <==> path_listed(p, path) || path == e.path by {
        if path_listed(p, path) {
            let j = choose|j: int| 0 <= j < p.len() && (#[trigger] p[j]).path == path;
            assert(q[j].path == path);
        }
        if path_listed(q, path) {
            let j = choose|j: int| 0 <= j < q.len() && (#[trigger] q[j]).path == path;
            assert(p[j].path == path);
        }
        if path == e.path {
            assert(q[i].path == path);
        }
    }
    assert forall|path: RuntimeReadAccessPath| #[trigger] paths_view(q).contains_key(path) implies
        paths_view(q)[path] == paths_view(p).insert(e.path, counters_of(e))[path] by {
        let j = choose|j: int| 0 <= j < q.len() && (#[trigger] q[j]).path == path;
        lemma_paths_view_at(q, j);
        if j == i {
        } else {
            assert(p[j] == q[j]);
            lemma_paths_view_at(p, j);
        }
    }
    assert(paths_view(q) =~= paths_view(p).insert(e.path, counters_of(e)));
}

/// Inserting, at its place in rank order, an entry for a path not yet listed.
proof fn lemma_paths_view_insert(p: Seq<RuntimeReadPathEvidence>, i: int, e: RuntimeReadPathEvidence)
    requires
        paths_ranked(p),
        0 <= i <= p.len(),
        forall|j: int| 0 <= j < i ==> (#[trigger] p[j]).path.spec_rank() < e.path.spec_rank(),
        forall|j: int| i <= j < p.len() ==> (#[trigger] p[j]).path.spec_rank() > e.path.spec_rank(),
    ensures
        !paths_view(p).contains_key(e.path),
        paths_ranked(p.insert(i, e)),
        paths_view(p.insert(i, e)) == paths_view(p).insert(e.path, counters_of(e)),
{
    let q = p.insert(i, e);
    if path_listed(p, e.path) {
        let j = choose|j: int| 0 <= j < p.len() && (#[trigger] p[j]).path == e.path;
        assert(p[j].path.spec_rank() == e.path.spec_rank());
    }
    assert(paths_ranked(q)) by {
        assert forall|a: int, b: int| 0 <= a < b < q.len() implies (#[trigger] q[a]).path.spec_rank() < (#[trigger] q[b]).path.spec_rank() by {
            if b < i {
                assert(q[a] == p[a] && q[b] == p[b]);
            } else if b == i {
                assert(q[a] == p[a]);
            } else if a < i {
                assert(q[a] == p[a] && q[b] == p[b - 1]);
            } else if a == i {
                assert(q[b] == p[b - 1]);
            } else {
                assert(q[a] == p[a - 1] && q[b] == p[b - 1]);
            }
        }
    }
    assert forall|path: RuntimeReadAccessPath| path_listed(q, path) <==> path_listed(p, path) || path == e.path by {
        if path_listed(p, path) {
            let j = choose|j: int| 0 <= j < p.len() && (#[trigger] p[j]).path == path;
            if j < i {
                assert(q[j].path == path);
            } else {
                assert(q[j + 1].path == path);
            }
        }
        if path_listed(q, path) {
            let j = choose|j: int| 0 <= j < q.len() && (#[trigger] q[j]).path == path;
            if j < i {
                assert(p[j].path == path);
            } else if j > i {
                assert(p[j - 1].path == path);
            }
        }
        if path == e.path {
            assert(q[i].path == path);
        }
    }
    assert forall|path: RuntimeReadAccessPath| #[trigger] paths_view(q).contains_key(path) implies
        paths_view(q)[path] == paths_view(p).insert(e.path, counters_of(e))[path] by {
        let j = choose|j: int| 0 <= j < q.len() && (#[trigger] q[j]).path == path;
        lemma_paths_view_at(q, j);
        if j < i {
            assert(p[j] == q[j]);
            lemma_paths_view_at(p, j);
        } else if j > i {
            assert(p[j - 1] == q[j]);
            lemma_paths_view_at(p, j - 1);
        }
    }
    assert(paths_view(q) =~= paths_view(p).insert(e.path, counters_of(e)));
}

/// How many pairs a metered scan asks for: one past the `remaining` budget,
/// but no more than `limit`.
pub open spec fn scan_probe(remaining: int, limit: int) -> int {
    if remaining + 1 < limit { remaining + 1 } else { limit }
}

/// The total length of the values of `rows`.
pub open spec fn rows_bytes(rows: Seq<(Seq<u8>, Seq<u8>)>) -> int
    decreases rows.len(),
{
    if rows.len() == 0 {
        0
    } else {
        rows_bytes(rows.drop_last()) + rows.last().1.len()
    }
}

/// The sum over one more row.
proof fn lemma_rows_bytes_step(rows: Seq<(Seq<u8>, Seq<u8>)>, i: int)
    requires
        0 <= i < rows.len(),
    ensures
        rows_bytes(rows.take(i + 1)) == rows_bytes(rows.take(i)) + rows[i].1.len(),
{
    assert(rows.take(i + 1).drop_last() =~= rows.take(i));
}

/// Partial sums never decrease.
proof fn lemma_rows_bytes_monotone(rows: Seq<(Seq<u8>, Seq<u8>)>, i: int)
    requires
        0 <= i <= rows.len(),
    ensures
        rows_bytes(rows.take(i)) <= rows_bytes(rows),
    decreases rows.len() - i,
{
    if i < rows.len() {
        lemma_rows_bytes_monotone(rows, i + 1);
        lemma_rows_bytes_step(rows, i);
    } else {
        assert(rows.take(i) =~= rows);
    }
}

/// What a metered scan by `m` gives back when the scan yields `rows`: the
/// examined keys would overflow or pass the budget; the value bytes would
/// overflow; charging the scan would overflow; or the rows themselves.
pub open spec fn scan_outcome(m: MeteredRead, rows: Seq<(Seq<u8>, Seq<u8>)>, r: Result<Vec<(Vec<u8>, Vec<u8>)>>) -> bool {
    let examined = m.totals_spec().keys_examined;
    let n = rows.len();
    if examined + n > u64::MAX {
        r == Err::<Vec<(Vec<u8>, Vec<u8>)>, Error>(Error::SequenceOverflow)
    } else if examined + n > m.budget_spec().max_keys {
        r == Err::<Vec<(Vec<u8>, Vec<u8>)>, Error>(Error::RuntimeReadBudgetExceeded {
            limit: m.budget_spec().max_keys,
            observed: (examined + n) as u64,
        })
    } else if rows_bytes(rows) > u64::MAX {
        r == Err::<Vec<(Vec<u8>, Vec<u8>)>, Error>(Error::SequenceOverflow)
    } else if !m.record_fits(0, 1, n as u64, n as u64, rows_bytes(rows) as u64) {
        r == Err::<Vec<(Vec<u8>, Vec<u8>)>, Error>(Error::SequenceOverflow)
    } else {
        r matches Ok(v) && pairs_view(v) == rows
    }
}

/// A metered reader over one transaction: it charges every examined key
/// against the budget, attributing it to the access path in effect.
pub struct MeteredRead {
    budget: RuntimeReadBudget,
    path: RuntimeReadAccessPath,
    totals: PathCounters,
    paths: Vec<RuntimeReadPathEvidence>,
}

impl MeteredRead {
    /// The budget charged.
    pub closed spec fn budget_spec(&self) -> RuntimeReadBudget {
        self.budget
    }

    /// The counters so far.
    pub closed spec fn totals_spec(&self) -> PathCounters {
        self.totals
    }

    /// The path in effect.
    pub closed spec fn path_spec(&self) -> RuntimeReadAccessPath {
        self.path
    }

    /// The counters charged to each path so far.
    pub closed spec fn paths_spec(&self) -> Map<RuntimeReadAccessPath, PathCounters> {
        paths_view(self.paths@)
    }

    /// The counters charged to `path` so far; zero for a path not charged.
    pub open spec fn entry_spec(&self, path: RuntimeReadAccessPath) -> PathCounters {
        if self.paths_spec().contains_key(path) {
            self.paths_spec()[path]
        } else {
            PathCounters::spec_zero()
        }
    }

    /// Whether charging these counters fits both the totals and the entry of
    /// the path in effect.
    pub open spec fn record_fits(&self, point_reads: u64, range_scans: u64, keys_examined: u64, values_decoded: u64, decoded_bytes: u64) -> bool {
        &&& counters_fit(self.totals_spec(), point_reads, range_scans, keys_examined, values_decoded, decoded_bytes)
        &&& counters_fit(self.entry_spec(self.path_spec()), point_reads, range_scans, keys_examined, values_decoded, decoded_bytes)
    }

    /// The reader never examined more keys than its budget allows, and its
    /// per-path entries are listed once each, in rank order.
    pub closed spec fn wf(&self) -> bool {
        &&& self.totals.keys_examined <= self.budget.max_keys
        &&& paths_ranked(self.paths@)
    }

    /// A reader that has examined nothing, on the read-stamp path.
    pub fn new(budget: RuntimeReadBudget) -> (m: Self)
        ensures
            m.wf(),
            m.budget_spec() == budget,
            m.path_spec() == RuntimeReadAccessPath::ReadStamp,
            m.totals_spec() == PathCounters::spec_zero(),
            m.paths_spec() == Map::<RuntimeReadAccessPath, PathCounters>::empty(),
    {
        let m = MeteredRead { budget, path: RuntimeReadAccessPath::ReadStamp, totals: PathCounters::zero(), paths: Vec::new() };
        assert(m.paths_spec() =~= Map::<RuntimeReadAccessPath, PathCounters>::empty());
        m
    }

    /// Switches to `path` and gives back the path in effect before.
    pub fn with_path(&mut self, path: RuntimeReadAccessPath) -> (prior: RuntimeReadAccessPath)
        ensures
            prior == old(self).path_spec(),
            final(self).path_spec() == path,
            final(self).totals_spec() == old(self).totals_spec(),
            final(self).budget_spec() == old(self).budget_spec(),
            final(self).paths_spec() == old(self).paths_spec(),
            final(self).wf() == old(self).wf(),
    {
        let prior = self.path;
        self.path = path;
        prior
    }

    /// Charges counters to the totals and to the path in effect. Where
    /// either would overflow, nothing is charged and `SequenceOverflow`
    /// comes back.
    pub fn record(&mut self, point_reads: u64, range_scans: u64, keys_examined: u64, values_decoded: u64, decoded_bytes: u64) -> (r: Result<()>)
        requires
            old(self).wf(),
            old(self).totals_spec().keys_examined + keys_examined <= old(self).budget_spec().max_keys,
        ensures
            final(self).wf(),
            (r is Ok) == old(self).record_fits(point_reads, range_scans, keys_examined, values_decoded, decoded_bytes),
            r matches Err(e) ==> e is SequenceOverflow && *final(self) == *old(self),
            r is Ok ==> {
                &&& final(self).budget_spec() == old(self).budget_spec()
                &&& final(self).path_spec() == old(self).path_spec()
                &&& final(self).totals_spec() == counters_plus(old(self).totals_spec(), point_reads, range_scans, keys_examined, values_decoded, decoded_bytes)
                &&& final(self).paths_spec() == old(self).paths_spec().insert(old(self).path_spec(),
                    counters_plus(old(self).entry_spec(old(self).path_spec()), point_reads, range_scans, keys_examined, values_decoded, decoded_bytes))
            },
    {
        let mut totals = self.totals;
        let added = totals.add(point_reads, range_scans, keys_examined, values_decoded, decoded_bytes);
        if added.is_err() {
            return added;
        }
        let mut i: usize = 0;
        let rank = self.path.rank();
        while i < self.paths.len()
            invariant
                i <= self.paths@.len(),
                rank == self.path.spec_rank(),
                forall|j: int| 0 <= j < i ==> (#[trigger] self.paths@[j]).path.spec_rank() < rank,
            ensures
                i <= self.paths@.len(),
                forall|j: int| 0 <= j < i ==> (#[trigger] self.paths@[j]).path.spec_rank() < rank,
                i < self.paths@.len() ==> self.paths@[i as int].path.spec_rank() >= rank,
            decreases self.paths@.len() - i,
        {
            if self.paths[i].path.rank() >= rank {
                break;
            }
            i = i + 1;
        }
        let ghost p = self.paths@;
        if i < self.paths.len() && self.paths[i].path.rank() == rank {
            let mut entry = self.paths[i];
            proof {
                lemma_rank_injective(entry.path, self.path);
                lemma_paths_view_at(p, i as int);
            }
            let mut counters = PathCounters {
                point_reads: entry.point_reads,
                range_scans: entry.range_scans,
                keys_examined: entry.keys_examined,
                values_decoded: entry.values_decoded,
                decoded_bytes: entry.decoded_bytes,
            };
            let counted = counters.add(point_reads, range_scans, keys_examined, values_decoded, decoded_bytes);
            if counted.is_err() {
                return counted;
            }
            entry.point_reads = counters.point_reads;
            entry.range_scans = counters.range_scans;
            entry.keys_examined = counters.keys_examined;
            entry.values_decoded = counters.values_decoded;
            entry.decoded_bytes = counters.decoded_bytes;
            proof {
                lemma_paths_view_update(p, i as int, entry);
            }
            self.totals = totals;
            self.paths.set(i, entry);
        } else {
            let entry = RuntimeReadPathEvidence {
                path: self.path,
                point_reads,
                range_scans,
                keys_examined,
                values_decoded,
                decoded_bytes,
            };
            proof {
                assert forall|j: int| i <= j < p.len() implies (#[trigger] p[j]).path.spec_rank() > entry.path.spec_rank() by {
                    if j > i {
                        assert(p[i as int].path.spec_rank() < p[j].path.spec_rank());
                    }
                }
                lemma_paths_view_insert(p, i as int, entry);
            }
            self.totals = totals;
            self.paths.insert(i, entry);
        }
        Ok(())
    }

    /// Reads one key, charging one examined key; refused before the read
    /// when that key would pass the budget.
    pub fn read_key(&mut self, transaction: &RrflowMxTransaction, store: &RrflowMxStore, key: &[u8]) -> (r: Result<Option<Vec<u8>>>)
        requires
            old(self).wf(),
            transaction.wf(),
            store.wf(),
        ensures
            final(self).wf(),
            final(self).budget_spec() == old(self).budget_spec(),
            old(self).totals_spec().keys_examined == u64::MAX ==> r == Err::<Option<Vec<u8>>, Error>(Error::SequenceOverflow),
            old(self).totals_spec().keys_examined < u64::MAX && old(self).totals_spec().keys_examined + 1 > old(self).budget_spec().max_keys
                ==> r == Err::<Option<Vec<u8>>, Error>(Error::RuntimeReadBudgetExceeded {
                limit: old(self).budget_spec().max_keys,
                observed: (old(self).totals_spec().keys_examined + 1) as u64,
            }),
            r matches Ok(v) ==> bytes_opt(v) == transaction.reads(store, key@)
                && final(self).totals_spec().keys_examined == old(self).totals_spec().keys_examined + 1,
    {
        let observed = checked_add(self.totals.keys_examined, 1)?;
        if observed > self.budget.max_keys {
            return Err(Error::RuntimeReadBudgetExceeded { limit: self.budget.max_keys, observed });
        }
        let value = transaction.get(store, key);
        let (decoded, bytes): (u64, u64) = match &value {
            Some(v) => (1, v.len() as u64),
            None => (0, 0),
        };
        self.record(1, 0, 1, decoded, bytes)?;
        Ok(value)
    }

    /// Scans `[start, end)` for at most `limit` pairs, charging every
    /// returned key; refused when the keys returned would pass the budget.
    /// At most one key past the remaining budget is requested: the scan asks
    /// for `scan_probe(..)` pairs, and `scan_outcome` gives what comes back
    /// for the pairs that scan yields.
    pub fn scan_range(&mut self, transaction: &RrflowMxTransaction, store: &RrflowMxStore, start: &[u8], end: &[u8], limit: usize) -> (r: Result<Vec<(Vec<u8>, Vec<u8>)>>)
        requires
            old(self).wf(),
            transaction.wf(),
            store.wf(),
        ensures
            final(self).wf(),
            final(self).budget_spec() == old(self).budget_spec(),
            exists|rows: Seq<(Seq<u8>, Seq<u8>)>|
                #[trigger] transaction.is_scan_of(store, rows, start@, end@,
                    scan_probe(old(self).budget_spec().max_keys - old(self).totals_spec().keys_examined, limit as int))
                && scan_outcome(*old(self), rows, r),
            r is Err ==> *final(self) == *old(self),
            r matches Ok(rows) ==> {
                let n = rows.len() as u64;
                let bytes = rows_bytes(pairs_view(rows)) as u64;
                &&& rows.len() <= limit
                &&& final(self).path_spec() == old(self).path_spec()
                &&& final(self).totals_spec() == counters_plus(old(self).totals_spec(), 0, 1, n, n, bytes)
                &&& final(self).paths_spec() == old(self).paths_spec().insert(old(self).path_spec(),
                    counters_plus(old(self).entry_spec(old(self).path_spec()), 0, 1, n, n, bytes))
            },
    {
        let ghost before = *self;
        let examined = self.totals.keys_examined;
        let remaining = self.budget.max_keys - examined;
        let probe: u64 = if remaining < u64::MAX { remaining + 1 } else { u64::MAX };
        let probe_limit: usize = if (probe as u128) < (limit as u128) { probe as usize } else { limit };
        let rows = transaction.scan(store, start, end, probe_limit);
        let ghost seen = pairs_view(rows);
        assert(transaction.is_scan_of(store, seen, start@, end@,
            scan_probe(old(self).budget_spec().max_keys - old(self).totals_spec().keys_examined, limit as int)));
        let row_count = rows.len() as u64;
        let observed = match checked_add(examined, row_count) {
            Ok(v) => v,
            Err(e) => {
                return Err(e);
            },
        };
        if observed > self.budget.max_keys {
            return Err(Error::RuntimeReadBudgetExceeded { limit: self.budget.max_keys, observed });
        }
        let mut decoded_bytes: u64 = 0;
        let mut i: usize = 0;
        while i < rows.len()
            invariant
                i <= rows@.len(),
                seen == pairs_view(rows),
                decoded_bytes == rows_bytes(seen.take(i as int)),
                *self == before,
                before == *old(self),
                before.wf(),
                transaction.is_scan_of(store, seen, start@, end@,
                    scan_probe(old(self).budget_spec().max_keys - old(self).totals_spec().keys_examined, limit as int)),
                examined == before.totals_spec().keys_examined,
                examined + seen.len() <= before.budget_spec().max_keys,
            decreases rows@.len() - i,
        {
            proof {
                lemma_rows_bytes_step(seen, i as int);
            }
            let step = checked_add(decoded_bytes, rows[i].1.len() as u64);
            match step {
                Ok(v) => {
                    decoded_bytes = v;
                },
                Err(e) => {
                    proof {
                        lemma_rows_bytes_monotone(seen, i + 1);
                    }
                    return Err(e);
                },
            }
            i = i + 1;
        }
        proof {
            assert(seen.take(i as int) =~= seen);
        }
        let recorded = self.record(0, 1, row_count, row_count, decoded_bytes);
        match recorded {
            Ok(()) => Ok(rows),
            Err(e) => Err(e),
        }
    }

    /// The evidence gathered, with the read stamp's validation.
    pub fn finish<V>(self, stamp_validation: V) -> (e: RuntimeReadEvidence<V>)
        ensures
            e.contract_version == RUNTIME_VERSIONED_READ_CONTRACT_VERSION,
            e.key_budget == self.budget_spec().max_keys,
            e.point_reads == self.totals_spec().point_reads,
            e.range_scans == self.totals_spec().range_scans,
            e.keys_examined == self.totals_spec().keys_examined,
            e.values_decoded == self.totals_spec().values_decoded,
            e.decoded_bytes == self.totals_spec().decoded_bytes,
            e.stamp_validation == stamp_validation,
    {
        RuntimeReadEvidence {
            contract_version: RUNTIME_VERSIONED_READ_CONTRACT_VERSION,
            key_budget: self.budget.max_keys,
            point_reads: self.totals.point_reads,
            range_scans: self.totals.range_scans,
            keys_examined: self.totals.keys_examined,
            values_decoded: self.totals.values_decoded,
            decoded_bytes: self.totals.decoded_bytes,
            stamp_validation,
            paths: self.paths,
        }
    }
}

} // verus!
