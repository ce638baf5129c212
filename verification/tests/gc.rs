use rrd_store::engine::RrflowMxStore;
use rrd_store::gc::{build_report, PairStatus, RemovalReport, Tally, Verdict};
use rrd_store::keyspaces::{claim_key, Durability};
use rrd_store::repository::claims::ClaimRepository;

fn store_claims(store: &mut RrflowMxStore, claims: &[(&str, &str, u64, u64)]) {
    let mut transaction = store.begin_transaction();
    for (subject, predicate, valid_from, tx_time) in claims {
        transaction.put(claim_key(subject, predicate, *valid_from, *tx_time), b"{}".to_vec());
    }
    transaction.commit(store, Durability::Authoritative).unwrap();
}

#[test]
fn unread_pairs_are_candidates_and_read_pairs_are_retained() {
    let mut store = RrflowMxStore::new();
    store_claims(&mut store, &[("wp3", "status", 100, 1), ("wp3", "status", 200, 2), ("wp4", "owner", 100, 3)]);
    let claims = ClaimRepository::new();
    claims.observe(&mut store, "agent:a", "wp3", "status", 150).unwrap();
    claims.observe(&mut store, "agent:b", "wp3", "status", 160).unwrap();
    claims.observe(&mut store, "agent:c", "wp9", "status", 170).unwrap();
    claims.observe(&mut store, "agent:d", "wp4", "owner", 50).unwrap();
    claims.observe(&mut store, "agent:e", "wp4", "owner", 900).unwrap();

    let report = claims.removal_report(&store, 100, 500).unwrap();
    assert_eq!(report.since, 100);
    assert_eq!(report.evaluated_at, 500);
    assert_eq!(report.pairs.len(), 2);
    let wp3 = &report.pairs[0];
    assert_eq!((wp3.subject.as_str(), wp3.predicate.as_str()), ("wp3", "status"));
    assert_eq!(wp3.verdict, Verdict::Retained);
    assert_eq!(wp3.claim_count, 2);
    assert_eq!(wp3.access_count, 2);
    assert_eq!(wp3.last_access, Some(160));
    assert_eq!(wp3.last_reader.as_deref(), Some("agent:b"));
    let wp4 = &report.pairs[1];
    assert_eq!((wp4.subject.as_str(), wp4.predicate.as_str()), ("wp4", "owner"));
    assert_eq!(wp4.verdict, Verdict::Candidate);
    assert_eq!(wp4.claim_count, 1);
    assert_eq!(wp4.access_count, 0);
    assert_eq!(wp4.last_access, None);

    assert_eq!(report.candidates().len(), 1);
    assert_eq!(report.candidates()[0].subject, "wp4");
    assert_eq!(report.retained().len(), 1);
    assert_eq!(report.retained()[0].subject, "wp3");
}

#[test]
fn an_empty_store_reports_no_pairs() {
    let store = RrflowMxStore::new();
    let report = ClaimRepository::new().removal_report(&store, 0, 10).unwrap();
    assert!(report.pairs.is_empty());
    assert_eq!(report.render(), "removal candidacy: interval [0, 10], 0 pair(s), 0 candidate(s)\n");
}

#[test]
fn reasons_cite_their_evidence() {
    let retained = PairStatus {
        subject: "wp3".into(),
        predicate: "status".into(),
        verdict: Verdict::Retained,
        claim_count: 2,
        last_access: Some(160),
        last_reader: Some("agent:b".into()),
        access_count: 3,
    };
    assert_eq!(retained.reason(), "retained: 3 access(es) in interval, most recent at 160 by agent:b");
    let unknown = PairStatus { last_access: None, last_reader: None, ..retained.clone() };
    assert_eq!(unknown.reason(), "retained: 3 access(es) in interval, most recent at 0 by unknown");
    let candidate = PairStatus { verdict: Verdict::Candidate, access_count: 0, ..unknown.clone() };
    assert_eq!(candidate.reason(), "candidate: 2 claim version(s), no access in interval");

    let report = RemovalReport { evaluated_at: 500, since: 100, pairs: vec![retained, candidate] };
    assert_eq!(
        report.render(),
        "removal candidacy: interval [100, 500], 2 pair(s), 1 candidate(s)\n  \
         wp3/status  retained: 3 access(es) in interval, most recent at 160 by agent:b\n  \
         wp3/status  candidate: 2 claim version(s), no access in interval\n"
    );
}

#[test]
fn tallies_without_claims_are_not_reported() {
    let mut claimed = Tally::new();
    claimed.count_claim();
    let mut accessed_only = Tally::new();
    accessed_only.count_access(7, "agent:x".into());
    let report = build_report(
        &vec![("a".to_string(), "p".to_string(), claimed), ("b".to_string(), "p".to_string(), accessed_only)],
        1,
        9,
    );
    assert_eq!(report.pairs.len(), 1);
    assert_eq!(report.pairs[0].subject, "a");
    assert_eq!(report.pairs[0].verdict, Verdict::Candidate);
}

#[test]
fn malformed_claim_keys_fail_the_report() {
    let mut store = RrflowMxStore::new();
    let mut bad = claim_key("wp3", "status", 1, 1);
    bad.truncate(bad.len() - 1);
    let mut transaction = store.begin_transaction();
    transaction.put(bad, Vec::new());
    transaction.commit(&mut store, Durability::Authoritative).unwrap();
    assert!(ClaimRepository::new().removal_report(&store, 0, 10).is_err());
}

#[test]
fn subjects_come_back_once_each_in_key_order() {
    let mut store = RrflowMxStore::new();
    let claims = ClaimRepository::new();
    assert!(claims.subjects(&store).unwrap().is_empty());
    store_claims(&mut store, &[("wp4", "owner", 100, 3), ("wp3", "status", 100, 1), ("wp3", "status", 200, 2), ("wp3", "owner", 100, 4)]);
    assert_eq!(claims.subjects(&store).unwrap(), vec!["wp3".to_string(), "wp4".to_string()]);
}
