use rrd_store::archive::{ArchiveHeader, ReplayState, ReplayedAction};
use rrd_store::archive_format::{encode_footer, encode_frame, encode_header, inspect_archive, parse_archive, verify_archive, ArchiveFooter};
use rrd_store::digest::sha256_hex;
use rrd_store::Error;
use sha2::Digest;

fn archive(payloads: &[&[u8]], footer: ArchiveFooter, header: ArchiveHeader) -> Vec<u8> {
    let mut bytes = encode_header(header);
    for payload in payloads {
        bytes.extend(encode_frame(payload).unwrap());
    }
    let digest = sha2::Sha256::digest(&bytes).to_vec();
    bytes.extend(encode_footer(footer, &digest));
    bytes
}

fn replayed(header: ArchiveHeader, footer: ArchiveFooter) -> ReplayState {
    ReplayState {
        action_count: header.action_count,
        standalone_claims: footer.standalone_claims,
        runtime_commits: footer.runtime_commits,
        runtime_mutations: footer.runtime_mutations,
        payload_bytes: footer.payload_bytes,
        claim_sequence: header.claim_sequence,
        runtime_cursor: header.runtime_cursor,
        runtime_audit_sha256: None,
    }
}

#[test]
fn archives_round_trip_through_their_frames() {
    let header = ArchiveHeader { claim_sequence: 2, runtime_cursor: 0, action_count: 2 };
    let footer = ArchiveFooter { standalone_claims: 2, runtime_commits: 0, runtime_mutations: 0, payload_bytes: 7 };
    let bytes = archive(&[b"abc", b"defg"], footer, header);
    assert_eq!(&bytes[..8], b"RRDLAR01");
    assert_eq!(bytes.len(), 36 + (9 + 3) + (9 + 4) + 65);
    let parsed = parse_archive(&bytes).unwrap();
    assert_eq!(parsed.header, header);
    assert_eq!(parsed.payloads, vec![b"abc".to_vec(), b"defg".to_vec()]);
    assert_eq!(parsed.footer, footer);
    let inventory = verify_archive(&bytes, &parsed, &replayed(header, footer)).unwrap();
    assert_eq!(inventory.archive_sha256, sha256_hex(&bytes[..bytes.len() - 65]));
    assert_eq!(inventory.action_count, 2);
    assert_eq!(inventory.payload_bytes, 7);
}

#[test]
fn malformed_archives_fail_closed() {
    let header = ArchiveHeader { claim_sequence: 0, runtime_cursor: 0, action_count: 1 };
    let footer = ArchiveFooter { standalone_claims: 1, runtime_commits: 0, runtime_mutations: 0, payload_bytes: 1 };
    let bytes = archive(&[b"x"], footer, header);
    let mut wrong_magic = bytes.clone();
    wrong_magic[0] = b'X';
    assert!(matches!(parse_archive(&wrong_magic), Err(Error::Archive(_))));
    let mut trailing = bytes.clone();
    trailing.push(0);
    assert!(parse_archive(&trailing).is_err());
    assert!(parse_archive(&bytes[..bytes.len() - 1]).is_err());
    let mut wrong_tag = bytes.clone();
    wrong_tag[36] = 2;
    assert!(parse_archive(&wrong_tag).is_err());
    let mut wrong_version = bytes.clone();
    wrong_version[9] = 2;
    assert!(parse_archive(&wrong_version).is_err());
}

#[test]
fn replay_disagreements_and_tampering_are_refused() {
    let header = ArchiveHeader { claim_sequence: 1, runtime_cursor: 0, action_count: 1 };
    let footer = ArchiveFooter { standalone_claims: 1, runtime_commits: 0, runtime_mutations: 0, payload_bytes: 1 };
    let bytes = archive(&[b"x"], footer, header);
    let parsed = parse_archive(&bytes).unwrap();
    let mut state = replayed(header, footer);
    state.claim_sequence = 0;
    assert!(matches!(verify_archive(&bytes, &parsed, &state), Err(Error::Archive(_))));
    let mut tampered = bytes.clone();
    tampered[45] ^= 1;
    let parsed = parse_archive(&tampered).unwrap();
    assert!(verify_archive(&tampered, &parsed, &replayed(header, footer)).is_err());
}

#[test]
fn oversized_actions_are_refused() {
    let big = vec![0u8; 64 * 1024 * 1024 + 1];
    assert!(matches!(encode_frame(&big), Err(Error::Archive(_))));
}

fn empty_replay() -> ReplayState {
    ReplayState {
        action_count: 0,
        standalone_claims: 0,
        runtime_commits: 0,
        runtime_mutations: 0,
        payload_bytes: 0,
        claim_sequence: 0,
        runtime_cursor: 0,
        runtime_audit_sha256: None,
    }
}

#[test]
fn replay_accounts_claims_and_contiguous_commits() {
    let mut state = empty_replay();
    state.accept(&ReplayedAction::StandaloneClaim, 40).unwrap();
    let commit = ReplayedAction::RuntimeCommit { expected_cursor: 0, mutations: 3, claims: 2, audit_sha256: "aa".repeat(32) };
    state.accept(&commit, 100).unwrap();
    assert_eq!(state.action_count, 2);
    assert_eq!(state.standalone_claims, 1);
    assert_eq!(state.runtime_commits, 1);
    assert_eq!(state.runtime_mutations, 3);
    assert_eq!(state.payload_bytes, 140);
    assert_eq!(state.claim_sequence, 3);
    assert_eq!(state.runtime_cursor, 3);
    assert_eq!(state.runtime_audit_sha256, Some("aa".repeat(32)));

    let before = state.clone();
    assert!(matches!(state.accept(&commit, 1), Err(Error::Archive(_))));
    assert_eq!(state, before);
    let mut full = empty_replay();
    full.runtime_cursor = u64::MAX - 1;
    let overflowing = ReplayedAction::RuntimeCommit { expected_cursor: u64::MAX - 1, mutations: 2, claims: 0, audit_sha256: String::new() };
    assert!(matches!(full.accept(&overflowing, 0), Err(Error::SequenceOverflow)));
    full.payload_bytes = u64::MAX;
    assert!(matches!(full.accept(&ReplayedAction::StandaloneClaim, 1), Err(Error::Archive(_))));
}

#[test]
fn inspection_replays_the_frames_and_checks_the_footer() {
    let header = ArchiveHeader { claim_sequence: 2, runtime_cursor: 0, action_count: 2 };
    let footer = ArchiveFooter { standalone_claims: 2, runtime_commits: 0, runtime_mutations: 0, payload_bytes: 7 };
    let bytes = archive(&[b"abc", b"defg"], footer, header);
    let claims = [ReplayedAction::StandaloneClaim, ReplayedAction::StandaloneClaim];
    let inventory = inspect_archive(&bytes, &claims).unwrap();
    assert_eq!(inventory.format_version, 1);
    assert_eq!(inventory.contract_version, 1);
    assert_eq!(inventory.action_count, 2);
    assert_eq!(inventory.standalone_claims, 2);
    assert_eq!(inventory.runtime_commits, 0);
    assert_eq!(inventory.payload_bytes, 7);
    assert_eq!(inventory.claim_sequence, 2);
    assert_eq!(inventory.runtime_audit_sha256, None);
    assert_eq!(inventory.archive_sha256, sha256_hex(&bytes[..bytes.len() - 65]));

    assert!(matches!(inspect_archive(&bytes, &claims[..1]), Err(Error::Archive(_))));
    let mut tampered_digest = bytes.clone();
    let last = tampered_digest.len() - 1;
    tampered_digest[last] ^= 1;
    assert!(matches!(inspect_archive(&tampered_digest, &claims), Err(Error::Archive(_))));
    let mut trailing = bytes.clone();
    trailing.push(0);
    assert!(matches!(inspect_archive(&trailing, &claims), Err(Error::Archive(_))));

    let wrong_footer = ArchiveFooter { payload_bytes: 8, ..footer };
    let bytes = archive(&[b"abc", b"defg"], wrong_footer, header);
    assert!(matches!(inspect_archive(&bytes, &claims), Err(Error::Archive(_))));
}

#[test]
fn inspection_follows_runtime_commits() {
    let header = ArchiveHeader { claim_sequence: 3, runtime_cursor: 4, action_count: 2 };
    let footer = ArchiveFooter { standalone_claims: 1, runtime_commits: 1, runtime_mutations: 4, payload_bytes: 5 };
    let bytes = archive(&[b"c", b"rtcm"], footer, header);
    let commit = ReplayedAction::RuntimeCommit { expected_cursor: 0, mutations: 4, claims: 2, audit_sha256: "bb".repeat(32) };
    let inventory = inspect_archive(&bytes, &[ReplayedAction::StandaloneClaim, commit.clone()]).unwrap();
    assert_eq!(inventory.runtime_cursor, 4);
    assert_eq!(inventory.runtime_mutations, 4);
    assert_eq!(inventory.action_count, inventory.standalone_claims + inventory.runtime_commits);
    assert_eq!(inventory.runtime_audit_sha256, Some("bb".repeat(32)));

    let skipped = ReplayedAction::RuntimeCommit { expected_cursor: 1, mutations: 4, claims: 2, audit_sha256: "bb".repeat(32) };
    assert!(matches!(inspect_archive(&bytes, &[ReplayedAction::StandaloneClaim, skipped]), Err(Error::Archive(_))));
}
