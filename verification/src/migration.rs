//! Data migration: snapshots of contract data with a schema version and a checksum, and the
//! CSV and encrypted-payload exports.
//!
//! A snapshot's checksum is the lower-case hexadecimal SHA-256 digest of the canonical JSON
//! encoding of its payload.  Turning a payload into JSON (and any snapshot into JSON or bincode)
//! is serde's work, done where the serde-derived copies of these types live; the functions here
//! take the payload's JSON bytes as an argument and compute and check the checksum from them.
use vstd::prelude::*;
use std::collections::HashMap;
use crate::codec::{
    base64_decode, base64_decode_message, base64_encode, base64_standard, base64_text_char,
    csv_record, csv_write_record, is_base64_standard, lemma_base64_chars, lemma_base64_len,
    sha256, sha256_digest, strings_view,
};
use crate::hex::{encode, hex_lower, lower_hex_char};
use crate::text::{bool_text, decimal, decimal_int, push_bool, push_decimal, push_decimal_int};

verus! {

/// Current schema version for migration compatibility.
pub const SCHEMA_VERSION: u32 = 1;

/// Minimum supported schema version for import.
pub const MIN_SUPPORTED_VERSION: u32 = 1;

/// A JSON value, carried through unread.
#[verifier::external_type_specification]
#[verifier::external_body]
pub struct ExJsonValue(serde_json::Value);

/// Versioned migration event payload meant for indexing and historical tracking.
///
/// Indexers should match on `MigrationEvent::V1`; later schemas add variants, and indexers
/// must handle variants they do not know gracefully.
#[derive(Debug, Clone, PartialEq, Eq)]
pub enum MigrationEvent {
    V1(MigrationEventV1),
}

/// Base migration event containing metadata about the migration operation.
#[derive(Debug, Clone, PartialEq, Eq)]
pub struct MigrationEventV1 {
    pub contract_id: String,
    /// "export", "import", "upgrade", ...
    pub migration_type: String,
    pub version: u32,
    pub timestamp_ms: u64,
}

/// Export format for snapshot data.
#[derive(Debug, Clone, Copy, PartialEq, Eq, Structural)]
pub enum ExportFormat {
    /// Human-readable JSON.
    Json,
    /// Compact binary (bincode).
    Binary,
    /// CSV for spreadsheet compatibility (tabular exports).
    Csv,
    /// Opaque encrypted payload (caller handles encryption/decryption).
    Encrypted,
}

/// Snapshot header with version and checksum for integrity.
#[derive(Debug, Clone)]
pub struct SnapshotHeader {
    pub version: u32,
    pub checksum: String,
    pub format: String,
    pub created_at_ms: Option<u64>,
}

/// Full export snapshot for remittance split or other contract data.
#[derive(Debug, Clone)]
pub struct ExportSnapshot {
    pub header: SnapshotHeader,
    pub payload: SnapshotPayload,
}

/// Payload variants per contract type.
#[derive(Debug, Clone)]
pub enum SnapshotPayload {
    RemittanceSplit(RemittanceSplitExport),
    SavingsGoals(SavingsGoalsExport),
    Generic(HashMap<String, serde_json::Value>),
}

/// Exportable remittance split config (mirrors the contract's split configuration).
#[derive(Debug, Clone)]
pub struct RemittanceSplitExport {
    pub owner: String,
    pub spending_percent: u32,
    pub savings_percent: u32,
    pub bills_percent: u32,
    pub insurance_percent: u32,
}

/// Exportable savings goals list.
#[derive(Debug, Clone)]
pub struct SavingsGoalsExport {
    pub next_id: u32,
    pub goals: Vec<SavingsGoalExport>,
}

/// One exportable savings goal.
#[derive(Debug, Clone)]
pub struct SavingsGoalExport {
    pub id: u32,
    pub owner: String,
    pub name: String,
    pub target_amount: i64,
    pub current_amount: i64,
    pub target_date: u64,
    pub locked: bool,
}

/// Rollback metadata (for migration scripts to record the last good state).
#[derive(Debug, Clone)]
pub struct RollbackMetadata {
    pub previous_version: u32,
    pub previous_checksum: String,
    pub timestamp_ms: u64,
}

/// Migration/import errors.
#[derive(Debug, Clone, PartialEq, Eq)]
pub enum MigrationError {
    IncompatibleVersion { found: u32, min: u32, max: u32 },
    ChecksumMismatch,
    InvalidFormat(String),
    ValidationFailed(String),
    DeserializeError(String),
}

// ---------------------------------------------------------------------------
// Versions, labels, checksums
// ---------------------------------------------------------------------------

/// A schema version that import accepts.
pub open spec fn version_supported(version: u32) -> bool {
    MIN_SUPPORTED_VERSION <= version <= SCHEMA_VERSION
}

/// The error for a schema version outside the supported range.
pub open spec fn incompatible(version: u32) -> MigrationError {
    MigrationError::IncompatibleVersion {
        found: version,
        min: MIN_SUPPORTED_VERSION,
        max: SCHEMA_VERSION,
    }
}

/// The checksum of a payload whose canonical JSON encoding is `payload_json`: its SHA-256
/// digest in lower-case hexadecimal.
pub open spec fn checksum_of(payload_json: Seq<u8>) -> Seq<char> {
    hex_lower(sha256(payload_json))
}

/// The label written into a snapshot header for each format.
pub open spec fn format_label_spec(f: ExportFormat) -> Seq<char> {
    match f {
        ExportFormat::Json => "json"@,
        ExportFormat::Binary => "binary"@,
        ExportFormat::Csv => "csv"@,
        ExportFormat::Encrypted => "encrypted"@,
    }
}

/// The label of an export format, as written into snapshot headers.
pub fn format_label(f: ExportFormat) -> (s: String)
    ensures
        s@ == format_label_spec(f),
{
    match f {
        ExportFormat::Json => String::from_str("json"),
        ExportFormat::Binary => String::from_str("binary"),
        ExportFormat::Csv => String::from_str("csv"),
        ExportFormat::Encrypted => String::from_str("encrypted"),
    }
}

/// Version compatibility check for migration scripts.
pub fn check_version_compatibility(version: u32) -> (r: Result<(), MigrationError>)
    ensures
        version_supported(version) ==> r is Ok,
        !version_supported(version) ==> r == Err::<(), MigrationError>(incompatible(version)),
{
    if version >= MIN_SUPPORTED_VERSION && version <= SCHEMA_VERSION {
        Ok(())
    } else {
        Err(
            MigrationError::IncompatibleVersion {
                found: version,
                min: MIN_SUPPORTED_VERSION,
                max: SCHEMA_VERSION,
            },
        )
    }
}

/// Why a snapshot with this header and payload encoding is refused for import, if it is: the
/// version is checked first, then the checksum.
pub open spec fn import_error(header: SnapshotHeader, payload_json: Seq<u8>) -> Option<MigrationError> {
    if !version_supported(header.version) {
        Some(incompatible(header.version))
    } else if header.checksum@ != checksum_of(payload_json) {
        Some(MigrationError::ChecksumMismatch)
    } else {
        None
    }
}

impl ExportSnapshot {
    /// SHA-256 checksum, in lower-case hexadecimal, of a payload whose canonical JSON encoding
    /// is `payload_json`.
    pub fn compute_checksum(payload_json: &[u8]) -> (c: String)
        ensures
            c@ == checksum_of(payload_json@),
            c@.len() == 64,
            forall|i: int| 0 <= i < c@.len() ==> lower_hex_char(#[trigger] c@[i]),
    {
        let digest = sha256_digest(payload_json);
        encode(digest.as_slice())
    }

    /// Whether the stored checksum matches the payload, given the payload's canonical JSON
    /// encoding.
    pub fn verify_checksum(&self, payload_json: &[u8]) -> (b: bool)
        ensures
            b == (self.header.checksum@ == checksum_of(payload_json@)),
    {
        let computed = ExportSnapshot::compute_checksum(payload_json);
        self.header.checksum == computed
    }

    /// Whether the snapshot's schema version is supported for import.
    pub fn is_version_compatible(&self) -> (b: bool)
        ensures
            b == version_supported(self.header.version),
    {
        self.header.version >= MIN_SUPPORTED_VERSION && self.header.version <= SCHEMA_VERSION
    }

    /// Validates the snapshot for import: the version first, then the checksum.
    pub fn validate_for_import(&self, payload_json: &[u8]) -> (r: Result<(), MigrationError>)
        ensures
            import_error(self.header, payload_json@) is None ==> r is Ok,
            import_error(self.header, payload_json@) matches Some(e) ==> r == Err::<(), MigrationError>(e),
    {
        if !self.is_version_compatible() {
            return Err(
                MigrationError::IncompatibleVersion {
                    found: self.header.version,
                    min: MIN_SUPPORTED_VERSION,
                    max: SCHEMA_VERSION,
                },
            );
        }
        if !self.verify_checksum(payload_json) {
            return Err(MigrationError::ChecksumMismatch);
        }
        Ok(())
    }

    /// Builds a snapshot at the current schema version, labelled with `format`, whose checksum
    /// is computed from `payload_json`, the canonical JSON encoding of `payload`.
    pub fn new(payload: SnapshotPayload, format: ExportFormat, payload_json: &[u8]) -> (s: Self)
        ensures
            s.payload == payload,
            s.header.version == SCHEMA_VERSION,
            s.header.checksum@ == checksum_of(payload_json@),
            s.header.format@ == format_label_spec(format),
            s.header.created_at_ms is None,
    {
        let checksum = ExportSnapshot::compute_checksum(payload_json);
        ExportSnapshot {
            header: SnapshotHeader {
                version: SCHEMA_VERSION,
                checksum,
                format: format_label(format),
                created_at_ms: None,
            },
            payload,
        }
    }
}

/// Builds a checksummed snapshot of a savings goals export; `payload_json` is the canonical
/// JSON encoding of `SnapshotPayload::SavingsGoals(goals_export)`.
pub fn build_savings_snapshot(
    goals_export: SavingsGoalsExport,
    format: ExportFormat,
    payload_json: &[u8],
) -> (s: ExportSnapshot)
    ensures
        s.payload == SnapshotPayload::SavingsGoals(goals_export),
        s.header.version == SCHEMA_VERSION,
        s.header.checksum@ == checksum_of(payload_json@),
        s.header.format@ == format_label_spec(format),
        s.header.created_at_ms is None,
{
    ExportSnapshot::new(SnapshotPayload::SavingsGoals(goals_export), format, payload_json)
}

/// A snapshot just built passes import validation against the same payload encoding.
pub proof fn lemma_new_snapshot_validates(header: SnapshotHeader, payload_json: Seq<u8>)
    requires
        header.version == SCHEMA_VERSION,
        header.checksum@ == checksum_of(payload_json),
    ensures
        import_error(header, payload_json) is None,
{
}

/// A snapshot whose stored checksum differs from the payload's is refused with
/// `ChecksumMismatch` when its version is supported, and with `IncompatibleVersion` otherwise.
pub proof fn lemma_tampered_snapshot_refused(header: SnapshotHeader, payload_json: Seq<u8>)
    requires
        header.checksum@ != checksum_of(payload_json),
    ensures
        import_error(header, payload_json) == Some(
            if version_supported(header.version) {
                MigrationError::ChecksumMismatch
            } else {
                incompatible(header.version)
            },
        ),
{
}

/// Import refuses a snapshot whose schema version is below `MIN_SUPPORTED_VERSION` or above
/// `SCHEMA_VERSION` with `IncompatibleVersion` naming that version and the supported range,
/// whatever its checksum; with a version in that range it refuses exactly the snapshots whose
/// checksum is not the payload's, with `ChecksumMismatch`, and accepts the others.
pub proof fn lemma_version_gate(header: SnapshotHeader, payload_json: Seq<u8>)
    ensures
        header.version < MIN_SUPPORTED_VERSION || header.version > SCHEMA_VERSION ==> import_error(
            header,
            payload_json,
        ) == Some(
            MigrationError::IncompatibleVersion {
                found: header.version,
                min: MIN_SUPPORTED_VERSION,
                max: SCHEMA_VERSION,
            },
        ),
        MIN_SUPPORTED_VERSION <= header.version <= SCHEMA_VERSION ==> (import_error(
            header,
            payload_json,
        ) is None <==> header.checksum@ == hex_lower(sha256(payload_json))),
        MIN_SUPPORTED_VERSION <= header.version <= SCHEMA_VERSION && header.checksum@ != hex_lower(
            sha256(payload_json),
        ) ==> import_error(header, payload_json) == Some(MigrationError::ChecksumMismatch),
{
}

// ---------------------------------------------------------------------------
// Error messages
// ---------------------------------------------------------------------------

impl MigrationError {
    /// The human-readable text of the error.
    pub open spec fn message_spec(self) -> Seq<char> {
        match self {
            MigrationError::IncompatibleVersion { found, min, max } => "incompatible version "@
                + decimal(found as nat) + " (supported "@ + decimal(min as nat) + "-"@ + decimal(
                max as nat,
            ) + ")"@,
            MigrationError::ChecksumMismatch => "checksum mismatch"@,
            MigrationError::InvalidFormat(s) => "invalid format: "@ + s@,
            MigrationError::ValidationFailed(s) => "validation failed: "@ + s@,
            MigrationError::DeserializeError(s) => "deserialize error: "@ + s@,
        }
    }

    /// The human-readable text of the error.
    pub fn message(&self) -> (s: String)
        ensures
            s@ == self.message_spec(),
    {
        match self {
            MigrationError::IncompatibleVersion { found, min, max } => {
                let mut s = String::from_str("incompatible version ");
                push_decimal(&mut s, *found as u64);
                s.append(" (supported ");
                push_decimal(&mut s, *min as u64);
                s.append("-");
                push_decimal(&mut s, *max as u64);
                s.append(")");
                s
            },
            MigrationError::ChecksumMismatch => String::from_str("checksum mismatch"),
            MigrationError::InvalidFormat(m) => {
                let mut s = String::from_str("invalid format: ");
                s.append(m.as_str());
                s
            },
            MigrationError::ValidationFailed(m) => {
                let mut s = String::from_str("validation failed: ");
                s.append(m.as_str());
                s
            },
            MigrationError::DeserializeError(m) => {
                let mut s = String::from_str("deserialize error: ");
                s.append(m.as_str());
                s
            },
        }
    }
}

// ---------------------------------------------------------------------------
// Encrypted payloads
// ---------------------------------------------------------------------------

/// Encrypted format: the (already encrypted) bytes in standard padded base64.
pub fn export_to_encrypted_payload(plain_bytes: &[u8]) -> (s: String)
    requires
        plain_bytes@.len() <= usize::MAX / 2,
    ensures
        s@ == base64_standard(plain_bytes@),
        s@.len() == 4 * ((plain_bytes@.len() + 2) / 3),
{
    proof {
        lemma_base64_len(plain_bytes@);
    }
    base64_encode(plain_bytes)
}

/// Decodes an encrypted payload from standard padded base64 (the caller decrypts after): the
/// bytes whose encoding the text is, or `InvalidFormat` with the decoder's message when the
/// text is not such an encoding.  Decoding what `export_to_encrypted_payload` produced gives
/// the bytes back.
pub fn import_from_encrypted_payload(encoded: &str) -> (r: Result<Vec<u8>, MigrationError>)
    ensures
        forall|d: Seq<u8>| base64_standard(d) == encoded@ ==> (r matches Ok(v) && v@ == d),
        !is_base64_standard(encoded@) ==> (r matches Err(MigrationError::InvalidFormat(s))
            && s@ == base64_decode_message(encoded@)),
{
    match base64_decode(encoded) {
        Ok(v) => Ok(v),
        Err(m) => Err(MigrationError::InvalidFormat(m)),
    }
}

/// Text whose length is not a multiple of four, or that holds a character outside the base64
/// alphabet and `=`, is no standard encoding, so importing it fails with `InvalidFormat`.
pub proof fn lemma_non_base64_refused(text: Seq<char>)
    requires
        text.len() % 4 != 0 || exists|i: int| 0 <= i < text.len() && !base64_text_char(
            #[trigger] text[i],
        ),
    ensures
        !is_base64_standard(text),
{
    if is_base64_standard(text) {
        let d = choose|d: Seq<u8>| #[trigger] base64_standard(d) == text;
        lemma_base64_len(d);
        lemma_base64_chars(d);
        if text.len() % 4 == 0 {
            let i = choose|i: int| 0 <= i < text.len() && !base64_text_char(#[trigger] text[i]);
            assert(base64_text_char(base64_standard(d)[i]));
        }
    }
}

// ---------------------------------------------------------------------------
// CSV export
// ---------------------------------------------------------------------------

/// The header row of the goals CSV.
pub open spec fn csv_header() -> Seq<Seq<char>> {
    seq![
        "id"@,
        "owner"@,
        "name"@,
        "target_amount"@,
        "current_amount"@,
        "target_date"@,
        "locked"@,
    ]
}

/// The CSV row of one goal: numbers in decimal, the flag as `true` or `false`.
pub open spec fn goal_row(g: SavingsGoalExport) -> Seq<Seq<char>> {
    seq![
        decimal(g.id as nat),
        g.owner@,
        g.name@,
        decimal_int(g.target_amount as int),
        decimal_int(g.current_amount as int),
        decimal(g.target_date as nat),
        bool_text(g.locked),
    ]
}

/// The rows of the goals CSV: the header, then one row per goal, in order.
pub open spec fn csv_rows(goals: Seq<SavingsGoalExport>) -> Seq<Seq<Seq<char>>> {
    seq![csv_header()] + goals.map_values(|g: SavingsGoalExport| goal_row(g))
}

/// The records written one after another: the concatenated bytes.
pub open spec fn csv_records(rows: Seq<Seq<Seq<char>>>) -> Seq<u8>
    decreases rows.len(),
{
    if rows.len() == 0 {
        Seq::empty()
    } else {
        csv_records(rows.drop_last()) + csv_record(rows.last())
    }
}

fn csv_header_row() -> (row: Vec<String>)
    ensures
        strings_view(row@) == csv_header(),
{
    let mut row: Vec<String> = Vec::new();
    row.push(String::from_str("id"));
    row.push(String::from_str("owner"));
    row.push(String::from_str("name"));
    row.push(String::from_str("target_amount"));
    row.push(String::from_str("current_amount"));
    row.push(String::from_str("target_date"));
    row.push(String::from_str("locked"));
    assert(strings_view(row@) =~= csv_header());
    row
}

fn csv_goal_row(g: &SavingsGoalExport) -> (row: Vec<String>)
    ensures
        strings_view(row@) == goal_row(*g),
{
    let mut id = String::new();
    push_decimal(&mut id, g.id as u64);
    let mut target = String::new();
    push_decimal_int(&mut target, g.target_amount);
    let mut current = String::new();
    push_decimal_int(&mut current, g.current_amount);
    let mut date = String::new();
    push_decimal(&mut date, g.target_date);
    let mut locked = String::new();
    push_bool(&mut locked, g.locked);
    let mut row: Vec<String> = Vec::new();
    row.push(id);
    row.push(g.owner.clone());
    row.push(g.name.clone());
    row.push(target);
    row.push(current);
    row.push(date);
    row.push(locked);
    assert(strings_view(row@) =~= goal_row(*g));
    row
}

/// Exports the goals as CSV: a header row, then one row per goal.
pub fn export_to_csv(payload: &SavingsGoalsExport) -> (r: Result<Vec<u8>, MigrationError>)
    ensures
        r matches Ok(v) && v@ == csv_records(csv_rows(payload.goals@)),
{
    let ghost rows = csv_rows(payload.goals@);
    let mut out: Vec<u8> = Vec::new();
    let header = csv_header_row();
    proof {
        assert(rows[0] == csv_header());
        assert(rows.take(1).drop_last() =~= Seq::<Seq<Seq<char>>>::empty());
        assert(rows.take(1).last() == csv_header());
    }
    match csv_write_record(&header) {
        Ok(b) => {
            let mut b = b;
            let ghost first = b@;
            out.append(&mut b);
            proof {
                assert(csv_records(rows.take(1).drop_last()) =~= Seq::<u8>::empty());
                assert(first == csv_record(rows.take(1).last()));
                assert(out@ =~= csv_records(rows.take(1)));
            }
        },
        Err(m) => {
            return Err(MigrationError::InvalidFormat(m));
        },
    }

    let n = payload.goals.len();
    let mut i: usize = 0;
    while i < n
        invariant
            n == payload.goals@.len(),
            rows == csv_rows(payload.goals@),
            rows.len() == n + 1,
            i <= n,
            out@ == csv_records(rows.take(i + 1)),
        decreases n - i,
    {
        let row = csv_goal_row(&payload.goals[i]);
        proof {
            assert(rows.take(i + 2).drop_last() =~= rows.take(i + 1));
            assert(rows.take(i + 2).last() == goal_row(payload.goals@[i as int]));
        }
        match csv_write_record(&row) {
            Ok(b) => {
                let mut b = b;
                let ghost prev = out@;
                out.append(&mut b);
                proof {
                    assert(out@ =~= prev + csv_record(rows.take(i + 2).last()));
                }
            },
            Err(m) => {
                return Err(MigrationError::InvalidFormat(m));
            },
        }
        i = i + 1;
    }
    proof {
        assert(rows.take(n + 1) =~= rows);
    }
    Ok(out)
}

} // verus!
