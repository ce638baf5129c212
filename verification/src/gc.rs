//! Removal candidacy: which stored subject-predicate pairs went unread over
//! an interval. Analysis only; the decision remains the operator's.

use crate::bytes::{decimal_string, decimal_text};
use crate::error::push_str;
use crate::key_codec::opt_string;
use vstd::prelude::*;

verus! {

/// Whether a subject-predicate pair is unreferenced over the interval.
#[derive(Debug, Clone, Copy, PartialEq, Eq, Structural)]
pub enum Verdict {
    /// No access record within the interval.
    Candidate,
    /// Accessed within the interval, and therefore retained.
    Retained,
}

/// Per-pair evidence gathered during a scan.
#[derive(Debug, Clone, PartialEq, Eq)]
pub struct Tally {
    pub claim_count: usize,
    pub access_count: usize,
    pub last_access: Option<u64>,
    pub last_reader: Option<String>,
}

impl Tally {
    /// No evidence yet.
    pub fn new() -> (t: Self)
        ensures
            t.claim_count == 0,
            t.access_count == 0,
            t.last_access is None,
            t.last_reader is None,
    {
        Tally { claim_count: 0, access_count: 0, last_access: None, last_reader: None }
    }

    /// Counts one stored claim version of the pair.
    pub fn count_claim(&mut self)
        requires
            old(self).claim_count < usize::MAX,
        ensures
            final(self).claim_count == old(self).claim_count + 1,
            final(self).access_count == old(self).access_count,
            final(self).last_access == old(self).last_access,
            final(self).last_reader == old(self).last_reader,
    {
        self.claim_count = self.claim_count + 1;
    }

    /// Counts one access at `at` by `reader`; the latest access, the later
    /// one on a tie, becomes the evidence.
    pub fn count_access(&mut self, at: u64, reader: String)
        requires
            old(self).access_count < usize::MAX,
        ensures
            final(self).claim_count == old(self).claim_count,
            final(self).access_count == old(self).access_count + 1,
            match old(self).last_access {
                Some(previous) if at < previous => final(self).last_access == old(self).last_access
                    && final(self).last_reader == old(self).last_reader,
                _ => final(self).last_access == Some(at) && final(self).last_reader == Some(reader),
            },
    {
        self.access_count = self.access_count + 1;
        let newer = match self.last_access {
            Some(previous) => at >= previous,
            None => true,
        };
        if newer {
            self.last_access = Some(at);
            self.last_reader = Some(reader);
        }
    }

    /// The verdict for this pair: none when it holds no claim, since there
    /// is nothing to remove; a candidate when nothing read it; else retained.
    pub fn verdict(&self) -> (v: Option<Verdict>)
        ensures
            self.claim_count == 0 ==> v is None,
            self.claim_count > 0 && self.access_count == 0 ==> v == Some(Verdict::Candidate),
            self.claim_count > 0 && self.access_count > 0 ==> v == Some(Verdict::Retained),
    {
        if self.claim_count == 0 {
            None
        } else if self.access_count == 0 {
            Some(Verdict::Candidate)
        } else {
            Some(Verdict::Retained)
        }
    }
}

/// One pair's evidence as values: the pair, its stored claim versions, the
/// accesses within the interval, and the latest of them with its reader.
pub struct Evidence {
    pub subject: Seq<char>,
    pub predicate: Seq<char>,
    pub claim_count: nat,
    pub access_count: nat,
    pub last: Option<(u64, Seq<char>)>,
}

/// Where the evidence of `subject`/`predicate` stands in `e`, if anywhere.
pub open spec fn find_pair(e: Seq<Evidence>, subject: Seq<char>, predicate: Seq<char>) -> Option<int>
    decreases e.len(),
{
    if e.len() == 0 {
        None
    } else if e.last().subject == subject && e.last().predicate == predicate {
        Some(e.len() - 1)
    } else {
        find_pair(e.drop_last(), subject, predicate)
    }
}

/// `e` after one more stored claim version of `subject`/`predicate`: a new
/// entry at the end for a pair not seen before.
pub open spec fn count_claim(e: Seq<Evidence>, subject: Seq<char>, predicate: Seq<char>) -> Seq<Evidence> {
    match find_pair(e, subject, predicate) {
        Some(i) => e.update(
            i,
            Evidence {
                subject: e[i].subject,
                predicate: e[i].predicate,
                claim_count: e[i].claim_count + 1,
                access_count: e[i].access_count,
                last: e[i].last,
            },
        ),
        None => e.push(Evidence { subject, predicate, claim_count: 1, access_count: 0, last: None }),
    }
}

/// The latest access: the new one unless the previous one is later.
pub open spec fn latest(last: Option<(u64, Seq<char>)>, at: u64, reader: Seq<char>) -> Option<(u64, Seq<char>)> {
    match last {
        Some((previous, _)) => if at < previous {
            last
        } else {
            Some((at, reader))
        },
        None => Some((at, reader)),
    }
}

/// `e` after an access at `at` by `reader`: only a pair that holds a
/// stored claim is counted.
pub open spec fn count_access(e: Seq<Evidence>, at: u64, reader: Seq<char>, subject: Seq<char>, predicate: Seq<char>) -> Seq<Evidence> {
    match find_pair(e, subject, predicate) {
        Some(i) => e.update(
            i,
            Evidence {
                subject: e[i].subject,
                predicate: e[i].predicate,
                claim_count: e[i].claim_count,
                access_count: e[i].access_count + 1,
                last: latest(e[i].last, at, reader),
            },
        ),
        None => e,
    }
}

/// The evidence of the stored claim versions, one entry per distinct pair in
/// the order the pairs first occur.
pub open spec fn tally_claims(pairs: Seq<(Seq<char>, Seq<char>)>) -> Seq<Evidence>
    decreases pairs.len(),
{
    if pairs.len() == 0 {
        Seq::empty()
    } else {
        count_claim(tally_claims(pairs.drop_last()), pairs.last().0, pairs.last().1)
    }
}

/// `e` after the accesses `(at, reader, subject, predicate)`, in order.
pub open spec fn tally_accesses(e: Seq<Evidence>, accesses: Seq<(u64, Seq<char>, Seq<char>, Seq<char>)>) -> Seq<Evidence>
    decreases accesses.len(),
{
    if accesses.len() == 0 {
        e
    } else {
        let a = accesses.last();
        count_access(tally_accesses(e, accesses.drop_last()), a.0, a.1, a.2, a.3)
    }
}

/// The verdict the evidence gives.
pub open spec fn verdict_of(e: Evidence) -> Verdict {
    if e.access_count == 0 {
        Verdict::Candidate
    } else {
        Verdict::Retained
    }
}

/// The evidence a tally holds for its pair.
pub open spec fn tally_evidence(subject: String, predicate: String, t: Tally) -> Evidence {
    Evidence {
        subject: subject@,
        predicate: predicate@,
        claim_count: t.claim_count as nat,
        access_count: t.access_count as nat,
        last: match (t.last_access, t.last_reader) {
            (Some(at), Some(reader)) => Some((at, reader@)),
            _ => None,
        },
    }
}

/// The evidence of each tally.
pub open spec fn evidence_of(tallies: Seq<(String, String, Tally)>) -> Seq<Evidence> {
    tallies.map_values(|x: (String, String, Tally)| tally_evidence(x.0, x.1, x.2))
}

/// A tally's latest access and its reader are both known or both absent.
pub open spec fn paired_evidence(t: Tally) -> bool {
    t.last_access is Some <==> t.last_reader is Some
}

/// `find_pair` finds exactly the entries of the pair.
pub proof fn lemma_find_pair(e: Seq<Evidence>, subject: Seq<char>, predicate: Seq<char>)
    ensures
        match find_pair(e, subject, predicate) {
            Some(i) => 0 <= i < e.len() && e[i].subject == subject && e[i].predicate == predicate,
            None => forall|i: int| 0 <= i < e.len() ==> !((#[trigger] e[i]).subject == subject && e[i].predicate == predicate),
        },
    decreases e.len(),
{
    if e.len() > 0 {
        lemma_find_pair(e.drop_last(), subject, predicate);
        assert forall|i: int| 0 <= i < e.len() - 1 implies #[trigger] e[i] == e.drop_last()[i] by {}
    }
}

/// The pairs of the entries of `e` are distinct.
pub open spec fn distinct_pairs(e: Seq<Evidence>) -> bool {
    forall|i: int, j: int|
        0 <= i < e.len() && 0 <= j < e.len() && i != j ==> !((#[trigger] e[i]).subject == (#[trigger] e[j]).subject && e[i].predicate == e[j].predicate)
}

/// `e` holds an entry for `subject`/`predicate`.
pub open spec fn has_pair(e: Seq<Evidence>, subject: Seq<char>, predicate: Seq<char>) -> bool {
    exists|i: int| 0 <= i < e.len() && (#[trigger] e[i]).subject == subject && e[i].predicate == predicate
}

/// The tally of claim versions holds one entry per distinct stored pair and
/// none other, each with at least one claim version.
proof fn lemma_tally_claims_shape(pairs: Seq<(Seq<char>, Seq<char>)>)
    ensures
        distinct_pairs(tally_claims(pairs)),
        forall|i: int| 0 <= i < tally_claims(pairs).len() ==> (#[trigger] tally_claims(pairs)[i]).claim_count > 0,
        forall|k: int| 0 <= k < pairs.len() ==> has_pair(tally_claims(pairs), (#[trigger] pairs[k]).0, pairs[k].1),
        forall|i: int|
            0 <= i < tally_claims(pairs).len() ==> exists|k: int|
                0 <= k < pairs.len() && #[trigger] pairs[k] == ((#[trigger] tally_claims(pairs)[i]).subject, tally_claims(pairs)[i].predicate),
    decreases pairs.len(),
{
    if pairs.len() > 0 {
        let rest = pairs.drop_last();
        lemma_tally_claims_shape(rest);
        let prev = tally_claims(rest);
        let (s, p) = pairs.last();
        lemma_find_pair(prev, s, p);
        let cur = tally_claims(pairs);
        assert(cur == count_claim(prev, s, p));
        assert forall|k: int| 0 <= k < pairs.len() implies has_pair(cur, (#[trigger] pairs[k]).0, pairs[k].1) by {
            if k < pairs.len() - 1 {
                assert(pairs[k] == rest[k]);
                let i = choose|i: int| 0 <= i < prev.len() && (#[trigger] prev[i]).subject == rest[k].0 && prev[i].predicate == rest[k].1;
                assert(cur[i].subject == prev[i].subject && cur[i].predicate == prev[i].predicate);
            } else {
                match find_pair(prev, s, p) {
                    Some(i) => {
                        assert(cur[i].subject == s && cur[i].predicate == p);
                    },
                    None => {
                        assert(cur[prev.len() as int].subject == s);
                    },
                }
            }
        }
        assert forall|i: int| 0 <= i < cur.len() implies exists|k: int|
            0 <= k < pairs.len() && #[trigger] pairs[k] == ((#[trigger] cur[i]).subject, cur[i].predicate) by {
            if i < prev.len() {
                let k = choose|k: int| 0 <= k < rest.len() && #[trigger] rest[k] == ((#[trigger] prev[i]).subject, prev[i].predicate);
                assert(pairs[k] == rest[k]);
                assert(cur[i].subject == prev[i].subject && cur[i].predicate == prev[i].predicate);
            } else {
                assert(pairs[pairs.len() - 1] == (s, p));
            }
        }
    }
}

/// The accesses change no entry's pair or claim count.
proof fn lemma_tally_accesses_keeps(e: Seq<Evidence>, accesses: Seq<(u64, Seq<char>, Seq<char>, Seq<char>)>)
    ensures
        tally_accesses(e, accesses).len() == e.len(),
        forall|i: int| 0 <= i < e.len() ==> (#[trigger] tally_accesses(e, accesses)[i]).subject == e[i].subject
            && tally_accesses(e, accesses)[i].predicate == e[i].predicate
            && tally_accesses(e, accesses)[i].claim_count == e[i].claim_count,
    decreases accesses.len(),
{
    if accesses.len() > 0 {
        let rest = accesses.drop_last();
        lemma_tally_accesses_keeps(e, rest);
        let prev = tally_accesses(e, rest);
        let a = accesses.last();
        let cur = tally_accesses(e, accesses);
        assert(cur == count_access(prev, a.0, a.1, a.2, a.3));
        lemma_find_pair(prev, a.2, a.3);
        assert forall|i: int| 0 <= i < e.len() implies (#[trigger] cur[i]).subject == e[i].subject && cur[i].predicate == e[i].predicate
            && cur[i].claim_count == e[i].claim_count by {
            assert(prev[i].subject == e[i].subject);
        }
    }
}

/// The removal evidence holds exactly one entry for each distinct pair that
/// has a stored claim version, each with at least one claim version; a pair
/// seen only in access records has none.
pub proof fn lemma_evidence_covers_stored_pairs(pairs: Seq<(Seq<char>, Seq<char>)>, accesses: Seq<(u64, Seq<char>, Seq<char>, Seq<char>)>)
    ensures
        ({
            let e = tally_accesses(tally_claims(pairs), accesses);
            &&& distinct_pairs(e)
            &&& forall|i: int| 0 <= i < e.len() ==> (#[trigger] e[i]).claim_count > 0
            &&& forall|k: int| 0 <= k < pairs.len() ==> has_pair(e, (#[trigger] pairs[k]).0, pairs[k].1)
            &&& forall|i: int| 0 <= i < e.len() ==> exists|k: int| 0 <= k < pairs.len() && #[trigger] pairs[k] == ((#[trigger] e[i]).subject, e[i].predicate)
        }),
{
    let c = tally_claims(pairs);
    let e = tally_accesses(c, accesses);
    lemma_tally_claims_shape(pairs);
    lemma_tally_accesses_keeps(c, accesses);
    assert forall|i: int, j: int| 0 <= i < e.len() && 0 <= j < e.len() && i != j implies !((#[trigger] e[i]).subject == (#[trigger] e[j]).subject
        && e[i].predicate == e[j].predicate) by {
        assert(c[i].subject == e[i].subject && c[j].subject == e[j].subject);
    }
    assert forall|i: int| 0 <= i < e.len() implies (#[trigger] e[i]).claim_count > 0 by {
        assert(c[i].claim_count > 0);
    }
    assert forall|k: int| 0 <= k < pairs.len() implies has_pair(e, (#[trigger] pairs[k]).0, pairs[k].1) by {
        assert(has_pair(c, pairs[k].0, pairs[k].1));
        let i = choose|i: int| 0 <= i < c.len() && (#[trigger] c[i]).subject == pairs[k].0 && c[i].predicate == pairs[k].1;
        assert(e[i].subject == c[i].subject);
    }
    assert forall|i: int| 0 <= i < e.len() implies exists|k: int| 0 <= k < pairs.len() && #[trigger] pairs[k] == ((#[trigger] e[i]).subject, e[i].predicate) by {
        assert(e[i].subject == c[i].subject && e[i].predicate == c[i].predicate);
        let k = choose|k: int| 0 <= k < pairs.len() && #[trigger] pairs[k] == ((#[trigger] c[i]).subject, c[i].predicate);
    }
}

/// One pair, its verdict, and the evidence for it.
#[derive(Debug, Clone, PartialEq, Eq)]
pub struct PairStatus {
    pub subject: String,
    pub predicate: String,
    pub verdict: Verdict,
    /// Claim versions stored for this pair.
    pub claim_count: usize,
    /// Most recent access within the interval, if any. This is the evidence.
    pub last_access: Option<u64>,
    /// Reader responsible for that access.
    pub last_reader: Option<String>,
    /// Accesses observed within the interval.
    pub access_count: usize,
}

/// The status reported for a pair with its tally: none when it holds no
/// claim, since there is nothing to remove.
pub open spec fn status_of(subject: String, predicate: String, t: Tally) -> Option<PairStatus> {
    if t.claim_count == 0 {
        None
    } else {
        Some(
            PairStatus {
                subject,
                predicate,
                verdict: if t.access_count == 0 {
                    Verdict::Candidate
                } else {
                    Verdict::Retained
                },
                claim_count: t.claim_count,
                last_access: t.last_access,
                last_reader: t.last_reader,
                access_count: t.access_count,
            },
        )
    }
}

/// The statuses reported for the tallies, in their order.
pub open spec fn reported(tallies: Seq<(String, String, Tally)>) -> Seq<PairStatus> {
    tallies.filter_map(|x: (String, String, Tally)| status_of(x.0, x.1, x.2))
}

/// `p` reports the evidence `e`.
pub open spec fn reports(p: PairStatus, e: Evidence) -> bool {
    &&& p.subject@ == e.subject
    &&& p.predicate@ == e.predicate
    &&& p.verdict == verdict_of(e)
    &&& p.claim_count == e.claim_count
    &&& p.access_count == e.access_count
    &&& p.last_access == (match e.last {
        Some((at, _)) => Some(at),
        None => None::<u64>,
    })
    &&& opt_string(p.last_reader) == (match e.last {
        Some((_, reader)) => Some(reader),
        None => None::<Seq<char>>,
    })
}

/// `pairs` report the evidence `e`, one for one and in order.
pub open spec fn reports_all(pairs: Seq<PairStatus>, e: Seq<Evidence>) -> bool {
    pairs.len() == e.len() && forall|i: int| 0 <= i < e.len() ==> reports(#[trigger] pairs[i], e[i])
}

/// Tallies whose pairs all hold a claim are reported one for one.
pub proof fn lemma_reported_all(tallies: Seq<(String, String, Tally)>)
    requires
        forall|i: int| 0 <= i < tallies.len() ==> (#[trigger] tallies[i]).2.claim_count > 0 && paired_evidence(tallies[i].2),
    ensures
        reports_all(reported(tallies), evidence_of(tallies)),
    decreases tallies.len(),
{
    if tallies.len() > 0 {
        let rest = tallies.drop_last();
        assert forall|i: int| 0 <= i < rest.len() implies (#[trigger] rest[i]).2.claim_count > 0 && paired_evidence(rest[i].2) by {
            assert(rest[i] == tallies[i]);
        }
        lemma_reported_all(rest);
        assert(evidence_of(rest) =~= evidence_of(tallies).drop_last());
        let last = tallies.last();
        assert(tallies[tallies.len() - 1] == last);
        let p = status_of(last.0, last.1, last.2)->Some_0;
        assert(reported(tallies) == reported(rest) + seq![p]);
        assert forall|i: int| 0 <= i < tallies.len() implies reports(#[trigger] reported(tallies)[i], evidence_of(tallies)[i]) by {
            if i < tallies.len() - 1 {
                assert(reported(tallies)[i] == reported(rest)[i]);
                assert(evidence_of(tallies)[i] == evidence_of(rest)[i]);
            }
        }
    } else {
        assert(reported(tallies) =~= Seq::<PairStatus>::empty());
    }
}

/// Result of a candidacy evaluation.
#[derive(Debug, Clone, PartialEq, Eq)]
pub struct RemovalReport {
    /// Instant the evaluation was performed. Supplied by the caller; the
    /// store reads no clock.
    pub evaluated_at: u64,
    /// Inclusive lower bound of the interval considered.
    pub since: u64,
    /// Every stored pair, in key order, with its verdict.
    pub pairs: Vec<PairStatus>,
}

fn copy_reader(reader: &Option<String>) -> (c: Option<String>)
    ensures
        c == *reader,
{
    match reader {
        Some(r) => Some(r.clone()),
        None => None,
    }
}

fn copy_status(p: &PairStatus) -> (c: PairStatus)
    ensures
        c == *p,
{
    PairStatus {
        subject: p.subject.clone(),
        predicate: p.predicate.clone(),
        verdict: p.verdict,
        claim_count: p.claim_count,
        last_access: p.last_access,
        last_reader: copy_reader(&p.last_reader),
        access_count: p.access_count,
    }
}

/// Joins the tallies, in their order, into a report: a pair with claims but
/// no access in the interval is a candidate, a pair with any access is
/// retained, and a pair without claims is not reported.
pub fn build_report(tallies: &Vec<(String, String, Tally)>, since: u64, evaluated_at: u64) -> (report: RemovalReport)
    ensures
        report.since == since,
        report.evaluated_at == evaluated_at,
        report.pairs@ == reported(tallies@),
{
    let mut pairs: Vec<PairStatus> = Vec::new();
    let mut i: usize = 0;
    while i < tallies.len()
        invariant
            i <= tallies.len(),
            pairs@ == reported(tallies@.take(i as int)),
        decreases tallies.len() - i,
    {
        let (subject, predicate, tally) = &tallies[i];
        proof {
            assert(tallies@.take(i + 1).drop_last() =~= tallies@.take(i as int));
            assert(tallies@.take(i + 1).last() == tallies@[i as int]);
        }
        if tally.claim_count > 0 {
            let verdict = if tally.access_count == 0 {
                Verdict::Candidate
            } else {
                Verdict::Retained
            };
            pairs.push(
                PairStatus {
                    subject: subject.clone(),
                    predicate: predicate.clone(),
                    verdict,
                    claim_count: tally.claim_count,
                    last_access: tally.last_access,
                    last_reader: copy_reader(&tally.last_reader),
                    access_count: tally.access_count,
                },
            );
        }
        proof {
            assert(pairs@ =~= reported(tallies@.take(i + 1)));
        }
        i = i + 1;
    }
    assert(tallies@.take(tallies.len() as int) =~= tallies@);
    RemovalReport { evaluated_at, since, pairs }
}

/// The text that justifies a pair's verdict by its evidence.
pub open spec fn reason_text(p: PairStatus) -> Seq<char> {
    match p.verdict {
        Verdict::Retained => "retained: "@ + decimal_text(p.access_count as nat) + " access(es) in interval, most recent at "@
            + decimal_text(
            match p.last_access {
                Some(at) => at as nat,
                None => 0,
            },
        ) + " by "@ + match p.last_reader {
            Some(reader) => reader@,
            None => "unknown"@,
        },
        Verdict::Candidate => "candidate: "@ + decimal_text(p.claim_count as nat) + " claim version(s), no access in interval"@,
    }
}

impl PairStatus {
    /// Human-readable justification. Every verdict cites its evidence.
    pub fn reason(&self) -> (text: String)
        ensures
            text@ == reason_text(*self),
    {
        match self.verdict {
            Verdict::Retained => {
                let mut text = String::new();
                push_str(&mut text, "retained: ");
                push_str(&mut text, decimal_string(self.access_count as u64).as_str());
                push_str(&mut text, " access(es) in interval, most recent at ");
                let at: u64 = match self.last_access {
                    Some(at) => at,
                    None => 0,
                };
                push_str(&mut text, decimal_string(at).as_str());
                push_str(&mut text, " by ");
                match &self.last_reader {
                    Some(reader) => push_str(&mut text, reader.as_str()),
                    None => push_str(&mut text, "unknown"),
                }
                proof {
                    reveal_strlit("retained: ");
                    reveal_strlit(" access(es) in interval, most recent at ");
                    reveal_strlit(" by ");
                    reveal_strlit("unknown");
                    reveal_strlit("");
                    assert(text@ =~= reason_text(*self));
                }
                text
            },
            Verdict::Candidate => {
                let mut text = String::new();
                push_str(&mut text, "candidate: ");
                push_str(&mut text, decimal_string(self.claim_count as u64).as_str());
                push_str(&mut text, " claim version(s), no access in interval");
                proof {
                    reveal_strlit("candidate: ");
                    reveal_strlit(" claim version(s), no access in interval");
                    assert(text@ =~= reason_text(*self));
                }
                text
            },
        }
    }
}

/// The rendered line of one pair.
pub open spec fn pair_line(p: PairStatus) -> Seq<char> {
    "  "@ + p.subject@ + "/"@ + p.predicate@ + "  "@ + reason_text(p) + "\n"@
}

/// The rendered lines of `pairs`, in order.
pub open spec fn pair_lines(pairs: Seq<PairStatus>) -> Seq<char>
    decreases pairs.len(),
{
    if pairs.len() == 0 {
        Seq::empty()
    } else {
        pair_lines(pairs.drop_last()) + pair_line(pairs.last())
    }
}

/// The rendered report: its interval and counts, then one line per pair.
pub open spec fn render_text(r: RemovalReport) -> Seq<char> {
    "removal candidacy: interval ["@ + decimal_text(r.since as nat) + ", "@ + decimal_text(r.evaluated_at as nat) + "], "@
        + decimal_text(r.pairs@.len()) + " pair(s), "@ + decimal_text(
        r.pairs@.filter(|p: PairStatus| p.verdict == Verdict::Candidate).len(),
    ) + " candidate(s)\n"@ + pair_lines(r.pairs@)
}

impl RemovalReport {
    /// The pairs that went unread over the interval, in order.
    pub fn candidates(&self) -> (c: Vec<PairStatus>)
        ensures
            c@ == self.pairs@.filter(|p: PairStatus| p.verdict == Verdict::Candidate),
    {
        self.with_verdict(Verdict::Candidate)
    }

    /// The pairs read within the interval, in order.
    pub fn retained(&self) -> (c: Vec<PairStatus>)
        ensures
            c@ == self.pairs@.filter(|p: PairStatus| p.verdict == Verdict::Retained),
    {
        self.with_verdict(Verdict::Retained)
    }

    fn with_verdict(&self, verdict: Verdict) -> (c: Vec<PairStatus>)
        ensures
            c@ == self.pairs@.filter(|p: PairStatus| p.verdict == verdict),
    {
        let mut out: Vec<PairStatus> = Vec::new();
        let mut i: usize = 0;
        while i < self.pairs.len()
            invariant
                i <= self.pairs.len(),
                out@ == self.pairs@.take(i as int).filter(|p: PairStatus| p.verdict == verdict),
            decreases self.pairs.len() - i,
        {
            if self.pairs[i].verdict == verdict {
                out.push(copy_status(&self.pairs[i]));
            }
            proof {
                reveal(Seq::filter);
                let next = self.pairs@.take(i + 1);
                assert(next.drop_last() =~= self.pairs@.take(i as int));
                assert(next.last() == self.pairs@[i as int]);
                assert(out@ =~= next.filter(|p: PairStatus| p.verdict == verdict));
            }
            i = i + 1;
        }
        assert(self.pairs@.take(self.pairs.len() as int) =~= self.pairs@);
        out
    }

    /// Rendered report, one line per pair, each citing its evidence.
    pub fn render(&self) -> (text: String)
        ensures
            text@ == render_text(*self),
    {
        let candidates = self.candidates().len();
        let mut text = String::new();
        push_str(&mut text, "removal candidacy: interval [");
        push_str(&mut text, decimal_string(self.since).as_str());
        push_str(&mut text, ", ");
        push_str(&mut text, decimal_string(self.evaluated_at).as_str());
        push_str(&mut text, "], ");
        push_str(&mut text, decimal_string(self.pairs.len() as u64).as_str());
        push_str(&mut text, " pair(s), ");
        push_str(&mut text, decimal_string(candidates as u64).as_str());
        push_str(&mut text, " candidate(s)\n");
        let ghost head = text@;
        proof {
            reveal_strlit("removal candidacy: interval [");
            reveal_strlit(", ");
            reveal_strlit("], ");
            reveal_strlit(" pair(s), ");
            reveal_strlit(" candidate(s)\n");
            assert(head =~= "removal candidacy: interval ["@ + decimal_text(self.since as nat) + ", "@ + decimal_text(self.evaluated_at as nat) + "], "@
                + decimal_text(self.pairs@.len()) + " pair(s), "@ + decimal_text(
                self.pairs@.filter(|p: PairStatus| p.verdict == Verdict::Candidate).len(),
            ) + " candidate(s)\n"@);
        }
        let mut i: usize = 0;
        while i < self.pairs.len()
            invariant
                i <= self.pairs.len(),
                text@ == head + pair_lines(self.pairs@.take(i as int)),
            decreases self.pairs.len() - i,
        {
            let pair = &self.pairs[i];
            push_str(&mut text, "  ");
            push_str(&mut text, pair.subject.as_str());
            push_str(&mut text, "/");
            push_str(&mut text, pair.predicate.as_str());
            push_str(&mut text, "  ");
            push_str(&mut text, pair.reason().as_str());
            push_str(&mut text, "\n");
            proof {
                reveal_strlit("  ");
                reveal_strlit("/");
                reveal_strlit("\n");
                assert(self.pairs@.take(i + 1).drop_last() =~= self.pairs@.take(i as int));
                assert(self.pairs@.take(i + 1).last() == self.pairs@[i as int]);
                assert(text@ =~= head + pair_lines(self.pairs@.take(i + 1)));
            }
            i = i + 1;
        }
        assert(self.pairs@.take(self.pairs.len() as int) =~= self.pairs@);
        text
    }
}

} // verus!
