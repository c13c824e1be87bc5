use remitwise::hex::encode;
use remitwise::migration::{
    build_savings_snapshot, check_version_compatibility, export_to_csv,
    export_to_encrypted_payload, format_label, import_from_encrypted_payload, ExportFormat,
    ExportSnapshot, MigrationError, RemittanceSplitExport, SavingsGoalExport, SavingsGoalsExport,
    SnapshotPayload, MIN_SUPPORTED_VERSION, SCHEMA_VERSION,
};

/// Canonical JSON of the payload that `split_payload` builds, as serde_json writes it.
fn split_json(owner: &str, spending: u32, savings: u32, bills: u32, insurance: u32) -> Vec<u8> {
    format!(
        "{{\"RemittanceSplit\":{{\"owner\":\"{}\",\"spending_percent\":{},\"savings_percent\":{},\"bills_percent\":{},\"insurance_percent\":{}}}}}",
        owner, spending, savings, bills, insurance
    )
    .into_bytes()
}

fn split_payload(owner: &str, spending: u32, savings: u32, bills: u32, insurance: u32) -> SnapshotPayload {
    SnapshotPayload::RemittanceSplit(RemittanceSplitExport {
        owner: owner.into(),
        spending_percent: spending,
        savings_percent: savings,
        bills_percent: bills,
        insurance_percent: insurance,
    })
}

fn make_single_goal_export() -> SavingsGoalsExport {
    SavingsGoalsExport {
        next_id: 2,
        goals: vec![SavingsGoalExport {
            id: 1,
            owner: "GBSINGLE".into(),
            name: "Emergency Fund".into(),
            target_amount: 5_000_000,
            current_amount: 2_500_000,
            target_date: 2_000_000_000,
            locked: false,
        }],
    }
}

/// Canonical JSON of `SnapshotPayload::SavingsGoals(make_single_goal_export())`.
fn single_goal_json() -> Vec<u8> {
    b"{\"SavingsGoals\":{\"next_id\":2,\"goals\":[{\"id\":1,\"owner\":\"GBSINGLE\",\"name\":\"Emergency Fund\",\"target_amount\":5000000,\"current_amount\":2500000,\"target_date\":2000000000,\"locked\":false}]}}".to_vec()
}

#[test]
fn test_snapshot_checksum_roundtrip_succeeds() {
    let payload = split_payload("GABC", 50, 30, 15, 5);
    let json = split_json("GABC", 50, 30, 15, 5);
    let snapshot = ExportSnapshot::new(payload, ExportFormat::Json, &json);
    assert!(snapshot.verify_checksum(&json));
    assert!(snapshot.is_version_compatible());
    assert!(snapshot.validate_for_import(&json).is_ok());
}

#[test]
fn test_checksum_mismatch_import_fails() {
    let payload = split_payload("GX", 100, 0, 0, 0);
    let json = split_json("GX", 100, 0, 0, 0);
    let mut snapshot = ExportSnapshot::new(payload, ExportFormat::Json, &json);
    snapshot.header.checksum = "wrong".into();
    assert!(!snapshot.verify_checksum(&json));
    assert!(snapshot.validate_for_import(&json).is_err());
}

#[test]
fn test_check_version_compatibility_succeeds() {
    assert!(check_version_compatibility(1).is_ok());
    assert!(check_version_compatibility(SCHEMA_VERSION).is_ok());
    assert!(check_version_compatibility(0).is_err());
    assert!(check_version_compatibility(SCHEMA_VERSION + 1).is_err());
}

#[test]
fn test_e2e_tampered_checksum_import_fails() {
    let json = single_goal_json();
    let mut snapshot = build_savings_snapshot(make_single_goal_export(), ExportFormat::Json, &json);
    snapshot.header.checksum =
        "deadbeef00000000000000000000000000000000000000000000000000000000".into();
    assert!(
        !snapshot.verify_checksum(&json),
        "verify_checksum must return false for tampered header"
    );
    assert_eq!(
        snapshot.validate_for_import(&json),
        Err(MigrationError::ChecksumMismatch),
        "import must be rejected with ChecksumMismatch"
    );
}

#[test]
fn test_e2e_incompatible_version_import_fails() {
    let json = single_goal_json();
    let mut snapshot = build_savings_snapshot(make_single_goal_export(), ExportFormat::Json, &json);
    snapshot.header.version = 0;
    let err = snapshot.validate_for_import(&json);
    assert!(
        matches!(
            err,
            Err(MigrationError::IncompatibleVersion {
                found: 0,
                min: MIN_SUPPORTED_VERSION,
                max: SCHEMA_VERSION,
            })
        ),
        "import must be rejected with IncompatibleVersion, got {:?}",
        err
    );
}

#[test]
fn test_e2e_snapshot_checksum_is_deterministic() {
    let snap_a = build_savings_snapshot(make_single_goal_export(), ExportFormat::Json, &single_goal_json());
    let snap_b = build_savings_snapshot(make_single_goal_export(), ExportFormat::Json, &single_goal_json());
    assert_eq!(
        snap_a.header.checksum, snap_b.header.checksum,
        "identical payloads must produce identical checksums"
    );
}

#[test]
fn test_e2e_build_savings_snapshot_format_label() {
    let formats = [
        (ExportFormat::Json, "json"),
        (ExportFormat::Binary, "binary"),
        (ExportFormat::Csv, "csv"),
        (ExportFormat::Encrypted, "encrypted"),
    ];
    for (format, expected_label) in formats {
        let json = single_goal_json();
        let snapshot = build_savings_snapshot(make_single_goal_export(), format, &json);
        assert_eq!(snapshot.header.format, expected_label, "format label mismatch for {:?}", format);
        assert!(snapshot.verify_checksum(&json));
    }
}

#[test]
fn new_snapshot_header_fields() {
    let json = single_goal_json();
    let snapshot = build_savings_snapshot(make_single_goal_export(), ExportFormat::Binary, &json);
    assert_eq!(snapshot.header.version, SCHEMA_VERSION);
    assert_eq!(snapshot.header.created_at_ms, None);
    assert_eq!(snapshot.header.checksum.len(), 64);
    assert_eq!(snapshot.header.checksum, ExportSnapshot::compute_checksum(&json));
    match &snapshot.payload {
        SnapshotPayload::SavingsGoals(g) => {
            assert_eq!(g.next_id, 2);
            assert_eq!(g.goals[0].name, "Emergency Fund");
        }
        _ => panic!("Expected SavingsGoals payload variant"),
    }
    // a different payload encoding no longer matches
    let mut other = json.clone();
    other.push(b' ');
    assert!(!snapshot.verify_checksum(&other));
    assert_eq!(snapshot.validate_for_import(&other), Err(MigrationError::ChecksumMismatch));
}

#[test]
fn version_checked_before_checksum() {
    let json = single_goal_json();
    let mut snapshot = build_savings_snapshot(make_single_goal_export(), ExportFormat::Json, &json);
    snapshot.header.version = 2;
    snapshot.header.checksum = "wrong".into();
    assert_eq!(
        snapshot.validate_for_import(&json),
        Err(MigrationError::IncompatibleVersion { found: 2, min: 1, max: 1 })
    );
    assert_eq!(
        check_version_compatibility(7),
        Err(MigrationError::IncompatibleVersion { found: 7, min: 1, max: 1 })
    );
    assert!(!snapshot.is_version_compatible());
}

#[test]
fn checksum_is_sha256_hex() {
    assert_eq!(
        ExportSnapshot::compute_checksum(b"abc"),
        "ba7816bf8f01cfea414140de5dae2223b00361a396177a9cb410ff61f20015ad"
    );
    assert_eq!(
        ExportSnapshot::compute_checksum(b""),
        "e3b0c44298fc1c149afbf4c8996fb92427ae41e4649b934ca495991b7852b855"
    );
}

#[test]
fn hex_encoding() {
    assert_eq!(encode(&[]), "");
    assert_eq!(encode(&[0x00, 0x0f, 0xa5, 0xff, 0x10]), "000fa5ff10");
}

#[test]
fn format_labels() {
    assert_eq!(format_label(ExportFormat::Json), "json");
    assert_eq!(format_label(ExportFormat::Binary), "binary");
    assert_eq!(format_label(ExportFormat::Csv), "csv");
    assert_eq!(format_label(ExportFormat::Encrypted), "encrypted");
}

#[test]
fn error_messages() {
    assert_eq!(
        MigrationError::IncompatibleVersion { found: 0, min: 1, max: 1 }.message(),
        "incompatible version 0 (supported 1-1)"
    );
    assert_eq!(
        MigrationError::IncompatibleVersion { found: 4294967295, min: 10, max: 123 }.message(),
        "incompatible version 4294967295 (supported 10-123)"
    );
    assert_eq!(MigrationError::ChecksumMismatch.message(), "checksum mismatch");
    assert_eq!(MigrationError::InvalidFormat("x".into()).message(), "invalid format: x");
    assert_eq!(MigrationError::ValidationFailed("y".into()).message(), "validation failed: y");
    assert_eq!(MigrationError::DeserializeError("z".into()).message(), "deserialize error: z");
}

#[test]
fn encrypted_payload_roundtrip() {
    let plain = b"{\"version\":1}".to_vec();
    let encoded = export_to_encrypted_payload(&plain);
    assert!(!encoded.is_empty(), "encoded payload must be non-empty");
    assert_eq!(encoded, "eyJ2ZXJzaW9uIjoxfQ==");
    let decoded = import_from_encrypted_payload(&encoded).unwrap();
    assert_eq!(decoded, plain, "decoded bytes must match original");
    assert_eq!(export_to_encrypted_payload(b"\xFF\xEC\x20\x55\0"), "/+wgVQA=");
    assert_eq!(export_to_encrypted_payload(b""), "");
    assert_eq!(import_from_encrypted_payload("").unwrap(), Vec::<u8>::new());
}

#[test]
fn encrypted_payload_rejects_invalid_base64() {
    match import_from_encrypted_payload("not base64!") {
        Err(MigrationError::InvalidFormat(m)) => assert!(!m.is_empty()),
        other => panic!("expected InvalidFormat, got {:?}", other),
    }
    assert!(matches!(import_from_encrypted_payload("Zg="), Err(MigrationError::InvalidFormat(_))));
    assert!(matches!(import_from_encrypted_payload("!!!!"), Err(MigrationError::InvalidFormat(_))));
    assert!(matches!(import_from_encrypted_payload("a"), Err(MigrationError::InvalidFormat(_))));
    // Non-canonical: the last symbol carries bits that no byte uses.
    assert!(matches!(import_from_encrypted_payload("Zh=="), Err(MigrationError::InvalidFormat(_))));
    assert_eq!(import_from_encrypted_payload("Zg==").unwrap(), b"f".to_vec());
}

#[test]
fn csv_export_rows() {
    let export = SavingsGoalsExport {
        next_id: 3,
        goals: vec![
            SavingsGoalExport {
                id: 1,
                owner: "G1".into(),
                name: "Emergency".into(),
                target_amount: 1000,
                current_amount: 500,
                target_date: 2000000000,
                locked: true,
            },
            SavingsGoalExport {
                id: 2,
                owner: "G2".into(),
                name: "Trip, summer".into(),
                target_amount: -5,
                current_amount: i64::MIN,
                target_date: u64::MAX,
                locked: false,
            },
        ],
    };
    let bytes = export_to_csv(&export).unwrap();
    assert_eq!(
        String::from_utf8(bytes).unwrap(),
        "id,owner,name,target_amount,current_amount,target_date,locked\n\
         1,G1,Emergency,1000,500,2000000000,true\n\
         2,G2,\"Trip, summer\",-5,-9223372036854775808,18446744073709551615,false\n"
    );
    let quoted = SavingsGoalsExport {
        next_id: 2,
        goals: vec![SavingsGoalExport {
            id: 1,
            owner: String::new(),
            name: "say \"hi\"\nnow".into(),
            target_amount: 0,
            current_amount: 0,
            target_date: 0,
            locked: false,
        }],
    };
    assert_eq!(
        String::from_utf8(export_to_csv(&quoted).unwrap()).unwrap(),
        "id,owner,name,target_amount,current_amount,target_date,locked\n\
         1,,\"say \"\"hi\"\"\nnow\",0,0,0,false\n"
    );
    let empty = export_to_csv(&SavingsGoalsExport { next_id: 0, goals: vec![] }).unwrap();
    assert_eq!(empty, b"id,owner,name,target_amount,current_amount,target_date,locked\n".to_vec());
}
