use rrd_store::digest::sha256_hex;
use rrd_store::function::{
    validate_canonical_json, validate_coordinate, validate_revision, validate_sha256, FunctionArtifactMediaTypeRecord,
    FunctionArtifactRecord,
};
use rrd_store::Error;

fn artifact(content: &[u8]) -> FunctionArtifactRecord {
    FunctionArtifactRecord {
        content_sha256: sha256_hex(content),
        media_type: FunctionArtifactMediaTypeRecord::JavaScriptUtf8,
        content: content.to_vec(),
    }
}

#[test]
fn artifacts_round_trip_through_their_stored_form() {
    let record = artifact(b"export default () => 1;");
    let encoded = record.encode().unwrap();
    assert_eq!(&encoded[..8], b"RRFNART1");
    assert_eq!(&encoded[8..10], &[0, 1]);
    assert_eq!(encoded[10], 1);
    assert_eq!(&encoded[11..15], &(23u32).to_be_bytes());
    let decoded = FunctionArtifactRecord::decode(&record.content_sha256, &encoded).unwrap();
    assert_eq!(decoded, record);
}

#[test]
fn artifacts_refuse_mismatched_addresses_and_empty_content() {
    let record = artifact(b"code");
    let encoded = record.encode().unwrap();
    assert!(matches!(FunctionArtifactRecord::decode(&"00".repeat(32), &encoded), Err(Error::FunctionConstraint(_))));
    let mut wrong = record.clone();
    wrong.content_sha256 = "00".repeat(32);
    assert!(matches!(wrong.encode(), Err(Error::FunctionConstraint(_))));
    assert!(artifact(b"").validate().is_err());
    assert!(FunctionArtifactRecord::decode(&record.content_sha256, &encoded[..14]).is_err());
}

#[test]
fn media_tags_are_frozen() {
    assert_eq!(FunctionArtifactMediaTypeRecord::JavaScriptUtf8.tag(), 1);
    assert_eq!(FunctionArtifactMediaTypeRecord::WebAssemblyBinary.tag(), 2);
    assert_eq!(FunctionArtifactMediaTypeRecord::from_tag(2), Ok(FunctionArtifactMediaTypeRecord::WebAssemblyBinary));
    assert!(matches!(FunctionArtifactMediaTypeRecord::from_tag(3), Err(Error::FunctionConstraint(_))));
}

#[test]
fn coordinates_digests_and_revisions_are_bounded() {
    assert!(validate_coordinate("lint:rule-1.v2", "function id").is_ok());
    assert!(matches!(
        validate_coordinate("", "function id"),
        Err(Error::FunctionConstraint(m)) if m == "function id is invalid"
    ));
    assert!(validate_coordinate(&"a".repeat(257), "function id").is_err());
    assert!(validate_sha256(&"0f".repeat(32), "digest").is_ok());
    assert!(validate_sha256(&"0F".repeat(32), "digest").is_err());
    assert!(validate_revision(1, None, "definition").is_ok());
    assert!(validate_revision(0, None, "definition").is_err());
    assert!(validate_revision(2, None, "definition").is_err());
    assert!(validate_revision(1, Some(&"ab".repeat(32)), "definition").is_err());
    assert!(validate_revision(2, Some(&"ab".repeat(32)), "definition").is_ok());
}

#[test]
fn canonical_json_must_parse_and_match_its_digest() {
    let json = r#"{"a":1}"#;
    assert!(validate_canonical_json(json, &sha256_hex(json.as_bytes()), "record").is_ok());
    assert!(matches!(validate_canonical_json(json, &"00".repeat(32), "record"), Err(Error::FunctionConstraint(_))));
    assert!(matches!(validate_canonical_json("{", &sha256_hex(b"{"), "record"), Err(Error::Codec(_))));
    assert!(matches!(validate_canonical_json("", &sha256_hex(b""), "record"), Err(Error::FunctionConstraint(_))));
}
