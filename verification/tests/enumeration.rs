use std::collections::BTreeMap;

use fruitboard_scanner::enumeration::cancel::{CancellationToken, NeverCancelled};
use fruitboard_scanner::enumeration::conversions::{
    decimal_string, encode_identity, parse_canonical_decimal, u128_to_windows_file_id_bytes,
    unix_ns_to_i64_checked, validate_identity_pair, validate_scan_observation,
    windows_file_id_to_u128, windows_filetime_100ns_to_unix_ns,
    windows_filetime_100ns_to_unix_ns_checked, EncodedIdentity, ScanConversionError,
    ScanObservation, TimestampError, MAX_OBSERVATION_KEY_BYTES, WINDOWS_EPOCH_OFFSET_100NS,
};
use fruitboard_scanner::enumeration::engine::{enumerate, enumerate_into_run, validate_root_path};
use fruitboard_scanner::enumeration::paths::{
    is_flp_name, normalize_relative_path, validate_component, validate_entry_name, PathError,
};
use fruitboard_scanner::enumeration::{
    combine_outcomes, BatchSink, CoverageFailureKind, DirectoryCaseSensitivity, DirectoryCursor,
    DirectoryEntry, EntryKind, EnumerationLimits, EnumerationReport, ExclusionReason, FileMetadata,
    FilesystemPort, FilesystemQualification, IdentityQualification, NoProgress, ObservationBatch,
    OpenedDirectory, Outcome, PortError, QualifiedIdentity, RootMetadata, RunScopedSinkAdapter,
    RunScopedStorage, SinkError,
};

#[derive(Default)]
struct RecordingSink {
    batches: Vec<ObservationBatch>,
    error: Option<SinkError>,
    discarded: bool,
}

impl BatchSink for RecordingSink {
    fn accept(&mut self, batch: ObservationBatch) -> Result<(), SinkError> {
        if let Some(error) = self.error {
            return Err(error);
        }
        self.batches.push(batch);
        Ok(())
    }

    fn discard(&mut self) {
        self.batches.clear();
        self.discarded = true;
    }
}

#[derive(Default)]
struct RecordingRunStorage {
    staged: BTreeMap<String, Vec<ObservationBatch>>,
    invalidated: Vec<String>,
    error: Option<SinkError>,
}

impl RunScopedStorage for RecordingRunStorage {
    fn stage_batch(&mut self, run_id: &str, batch: ObservationBatch) -> Result<(), SinkError> {
        if let Some(error) = self.error {
            return Err(error);
        }
        self.staged.entry(run_id.to_owned()).or_default().push(batch);
        Ok(())
    }

    fn invalidate_run(&mut self, run_id: &str) {
        self.staged.remove(run_id);
        self.invalidated.push(run_id.to_owned());
    }
}

fn identity(value: u128) -> QualifiedIdentity {
    QualifiedIdentity {
        volume_serial: 7,
        file_id: value,
        qualification: IdentityQualification::LocalNtfs,
    }
}

/// Whether every `%` escape is followed by two hex digits, in either case.
fn storage_valid_pct_encoding(value: &str) -> bool {
    let bytes = value.as_bytes();
    let mut index = 0;
    while index < bytes.len() {
        if bytes[index] == b'%' {
            let high = bytes.get(index + 1).is_some_and(u8::is_ascii_hexdigit);
            let low = bytes.get(index + 2).is_some_and(u8::is_ascii_hexdigit);
            if !high || !low {
                return false;
            }
            index += 3;
        } else {
            index += 1;
        }
    }
    true
}

/// The syntactic locator-key check that storage applies when staging: it
/// accepts either hex case, where the producer emits only uppercase.
fn storage_accepts_locator_key(key: &str) -> bool {
    if key.len() > MAX_OBSERVATION_KEY_BYTES || !key.is_ascii() || key.contains('\0') {
        return false;
    }
    let Some(body) = key.strip_prefix("v1:") else {
        return false;
    };
    if body.is_empty() {
        return false;
    }
    body.split('/').all(|segment| {
        let Some((mode, encoded)) = segment.split_once(':') else {
            return false;
        };
        (mode == "i" || mode == "s")
            && !encoded.is_empty()
            && encoded.bytes().all(|byte| {
                byte.is_ascii_alphanumeric() || matches!(byte, b'-' | b'_' | b'.' | b'~' | b'%')
            })
            && storage_valid_pct_encoding(encoded)
    })
}

fn scan_observation_for_key(locator_key: &str) -> ScanObservation {
    ScanObservation {
        locator_key: locator_key.to_owned(),
        relative_path: "a.flp".to_owned(),
        byte_size: 1,
        modified_at_ns: 1,
        identity: None,
    }
}

#[test]
fn run_scoped_adapter_release_keeps_a_complete_run_staged_without_invalidation() {
    let mut storage = RecordingRunStorage::default();
    {
        let mut sink = RunScopedSinkAdapter::new(&mut storage, "run-complete");
        let _ = sink.accept(ObservationBatch {
            sequence: 0,
            records: Vec::new(),
            estimated_bytes: 0,
        });
        sink.release();
    }

    assert!(storage.invalidated.is_empty());
    assert!(storage.staged.contains_key("run-complete"));
}

#[test]
fn windows_timestamp_and_identity_conversions_are_checked() {
    // Unix epoch: the offset constant cancels exactly.
    assert_eq!(
        windows_filetime_100ns_to_unix_ns_checked(WINDOWS_EPOCH_OFFSET_100NS as i64),
        Ok(0)
    );
    // Single-tick edges around the epoch.
    assert_eq!(
        windows_filetime_100ns_to_unix_ns_checked(WINDOWS_EPOCH_OFFSET_100NS as i64 - 1),
        Ok(-100)
    );
    assert_eq!(
        windows_filetime_100ns_to_unix_ns_checked(WINDOWS_EPOCH_OFFSET_100NS as i64 + 1),
        Ok(100)
    );
    // FILETIME extremes fall outside the durable i64-nanosecond range and
    // must reject, never saturate.
    assert_eq!(
        windows_filetime_100ns_to_unix_ns_checked(i64::MIN),
        Err(TimestampError::OutOfRange)
    );
    assert_eq!(
        windows_filetime_100ns_to_unix_ns_checked(i64::MAX),
        Err(TimestampError::OutOfRange)
    );

    assert_eq!(windows_file_id_to_u128([0; 16]), 0);
    assert_eq!(
        windows_file_id_to_u128([1, 0, 0, 0, 0, 0, 0, 0, 0, 0, 0, 0, 0, 0, 0, 0]),
        1
    );
    assert_eq!(
        windows_file_id_to_u128([0, 0, 0, 0, 0, 0, 0, 0, 0, 0, 0, 0, 0, 0, 0, 1]),
        1u128 << 120
    );
    assert_eq!(windows_file_id_to_u128([u8::MAX; 16]), u128::MAX);
}

#[test]
fn path_normalization_rejects_absolute_parent_and_ads_components() {
    assert_eq!(
        normalize_relative_path("C:\\absolute\\file.flp"),
        Err(PathError::Absolute)
    );
    assert_eq!(
        normalize_relative_path("/absolute/file.flp"),
        Err(PathError::Absolute)
    );
    assert_eq!(
        normalize_relative_path("folder/../file.flp"),
        Err(PathError::ParentTraversal)
    );
    assert_eq!(
        normalize_relative_path("folder:ads.flp"),
        Err(PathError::AlternateDataStream)
    );
}

#[test]
fn locator_key_lowercase_hex_policy_is_explicit() {
    // The storage guard accepts either hex case, while the producer
    // requires canonical uppercase escapes and rejects a non-canonical
    // input rather than silently changing the opaque bytes.
    let lowercase = "v1:i:caf%c3%a9.flp";
    assert!(storage_accepts_locator_key(lowercase));
    assert_eq!(
        validate_scan_observation(&scan_observation_for_key(lowercase)),
        Err(ScanConversionError::LocatorKey)
    );
}

#[test]
fn scan_observation_locator_key_boundaries_match_storage() {
    let prefix_len = "v1:i:".len();
    let maximum = format!(
        "v1:i:{}",
        "a".repeat(MAX_OBSERVATION_KEY_BYTES - prefix_len)
    );
    assert_eq!(maximum.len(), MAX_OBSERVATION_KEY_BYTES);
    assert!(storage_accepts_locator_key(&maximum));
    assert!(validate_scan_observation(&scan_observation_for_key(&maximum)).is_ok());

    let over = format!("{}a", maximum);
    assert_eq!(over.len(), MAX_OBSERVATION_KEY_BYTES + 1);
    assert!(!storage_accepts_locator_key(&over));
    assert_eq!(
        validate_scan_observation(&scan_observation_for_key(&over)),
        Err(ScanConversionError::LocatorKey)
    );

    for key in ["v1:i:a\0b", "Projects/foo.flp"] {
        assert!(!storage_accepts_locator_key(key));
        assert_eq!(
            validate_scan_observation(&scan_observation_for_key(key)),
            Err(ScanConversionError::LocatorKey)
        );
    }
}

#[test]
fn file_id_byte_order_is_little_endian_and_round_trips() {
    // Byte edges.
    assert_eq!(windows_file_id_to_u128([0; 16]), 0);
    assert_eq!(windows_file_id_to_u128([u8::MAX; 16]), u128::MAX);

    // Fixed byte-order vector: bytes 0x01..=0x10 read little-endian.
    let vector: [u8; 16] = [
        0x01, 0x02, 0x03, 0x04, 0x05, 0x06, 0x07, 0x08, 0x09, 0x0A, 0x0B, 0x0C, 0x0D, 0x0E, 0x0F,
        0x10,
    ];
    assert_eq!(
        windows_file_id_to_u128(vector),
        0x100F_0E0D_0C0B_0A09_0807_0605_0403_0201u128
    );

    // The inverse helper is exact on edges and the vector.
    for value in [
        0u128,
        1,
        1u128 << 120,
        u128::MAX,
        windows_file_id_to_u128(vector),
    ] {
        assert_eq!(
            windows_file_id_to_u128(u128_to_windows_file_id_bytes(value)),
            value
        );
    }

    // Identity DTO decimals are exact at the numeric edges.
    let encoded = encode_identity(&QualifiedIdentity {
        volume_serial: u64::MAX,
        file_id: u128::MAX,
        qualification: IdentityQualification::LocalNtfs,
    })
    .expect("local NTFS identity encodes");
    assert_eq!(encoded.volume_serial, "18446744073709551615");
    assert_eq!(encoded.file_id, "340282366920938463463374607431768211455");
    let zero = encode_identity(&identity(0)).expect("zero identity encodes");
    assert_eq!(zero.volume_serial, "7");
    assert_eq!(zero.file_id, "0");
}

// --- Conversions and paths: edge cases of this library ---

#[test]
fn filetime_conversion_keeps_source_precision() {
    assert_eq!(windows_filetime_100ns_to_unix_ns(0), -WINDOWS_EPOCH_OFFSET_100NS * 100);
    assert_eq!(windows_filetime_100ns_to_unix_ns(WINDOWS_EPOCH_OFFSET_100NS as i64 + 3), 300);
    assert_eq!(unix_ns_to_i64_checked(i64::MIN as i128), Ok(i64::MIN));
    assert_eq!(unix_ns_to_i64_checked(i64::MAX as i128), Ok(i64::MAX));
    assert_eq!(unix_ns_to_i64_checked(i64::MIN as i128 - 1), Err(TimestampError::OutOfRange));
    assert_eq!(unix_ns_to_i64_checked(i64::MAX as i128 + 1), Err(TimestampError::OutOfRange));
}

#[test]
fn decimal_strings_round_trip_exactly() {
    for value in [0u128, 7, 10, 99, 100, 12345, u64::MAX as u128, u128::MAX] {
        let text = decimal_string(value);
        assert_eq!(text, value.to_string());
        assert_eq!(parse_canonical_decimal(&text, u128::MAX), Some(value));
    }
    assert_eq!(parse_canonical_decimal("18446744073709551616", u64::MAX as u128), None);
    assert_eq!(parse_canonical_decimal("18446744073709551615", u64::MAX as u128), Some(u64::MAX as u128));
    assert_eq!(parse_canonical_decimal("007", u128::MAX), None);
    assert_eq!(parse_canonical_decimal("", u128::MAX), None);
    assert_eq!(parse_canonical_decimal("1a", u128::MAX), None);
}

#[test]
fn identity_pairs_reject_non_canonical_decimals() {
    for (volume_serial, file_id) in [
        (Some("-1"), Some("1")),
        (Some("+1"), Some("1")),
        (Some("0x1"), Some("1")),
        (Some("01"), Some("1")),
        (Some("1"), Some("007")),
        (Some("18446744073709551616"), Some("1")),
        (Some("1"), Some("340282366920938463463374607431768211456")),
        (Some(""), Some("1")),
        (Some("1"), Some("")),
        (Some("1"), None),
        (None, Some("1")),
    ] {
        assert_eq!(
            validate_identity_pair(volume_serial, file_id),
            Err(ScanConversionError::Identity),
            "{volume_serial:?}/{file_id:?}"
        );
    }
    assert_eq!(validate_identity_pair(None, None), Ok(None));
    assert_eq!(
        validate_identity_pair(Some("0"), Some("0")),
        Ok(Some(EncodedIdentity {
            volume_serial: "0".to_owned(),
            file_id: "0".to_owned(),
        }))
    );
}

#[test]
fn scan_observation_checks_run_in_order() {
    let edge = ScanObservation {
        locator_key: "v1:i:edge.flp".to_owned(),
        relative_path: "edge.flp".to_owned(),
        byte_size: i64::MAX as u64,
        modified_at_ns: i64::MIN as i128,
        identity: Some(EncodedIdentity {
            volume_serial: u64::MAX.to_string(),
            file_id: u128::MAX.to_string(),
        }),
    };
    assert_eq!(validate_scan_observation(&edge), Ok(()));
    assert_eq!(
        validate_scan_observation(&ScanObservation { byte_size: i64::MAX as u64 + 1, modified_at_ns: i128::MIN, ..edge.clone() }),
        Err(ScanConversionError::ByteSizeOutOfRange)
    );
    assert_eq!(
        validate_scan_observation(&ScanObservation { modified_at_ns: i64::MAX as i128 + 1, ..edge.clone() }),
        Err(ScanConversionError::TimestampOutOfRange)
    );
    assert_eq!(
        validate_scan_observation(&ScanObservation {
            identity: Some(EncodedIdentity { volume_serial: "01".to_owned(), file_id: "1".to_owned() }),
            ..edge.clone()
        }),
        Err(ScanConversionError::Identity)
    );
    for key in ["v1:", "v1:i:", "v1:x:foo.flp", "v1:i:foo/bar", "v1:i:a//i:b", "v1:i:a\\b", "v1:i:café.flp",
        "v1:i:bad%2.flp", "v1:i:bad%zz.flp", "v1:i:ok.flp%", "v1:i:a/"] {
        assert_eq!(validate_scan_observation(&scan_observation_for_key(key)), Err(ScanConversionError::LocatorKey), "{key}");
    }
    for key in ["v1:i:caf%C3%A9.flp", "v1:s:BuildOutput/i:artifact.flp", "v1:i:a~b-c_d.e"] {
        assert_eq!(validate_scan_observation(&scan_observation_for_key(key)), Ok(()), "{key}");
    }
}

#[test]
fn normalization_joins_parts_with_backslashes() {
    let (display, locator) = normalize_relative_path("a/b\\c.flp").expect("valid");
    assert_eq!(display.as_str(), "a\\b\\c.flp");
    assert_eq!(locator.as_str(), "a\\b\\c.flp");
    let (display, _) = normalize_relative_path("a//./b/").expect("valid");
    assert_eq!(display.as_str(), "a\\b");
    assert_eq!(normalize_relative_path(""), Err(PathError::Empty));
    assert_eq!(normalize_relative_path("./a"), Err(PathError::CurrentComponent));
    assert_eq!(normalize_relative_path("a/b\0c"), Err(PathError::Nul));
    assert_eq!(normalize_relative_path("a/b*c"), Err(PathError::InvalidComponent));
    assert_eq!(normalize_relative_path("a/b\u{7}c"), Err(PathError::InvalidComponent));
    assert_eq!(validate_component("ok.flp"), Ok(()));
    assert_eq!(validate_component(""), Err(PathError::InvalidComponent));
    assert_eq!(validate_entry_name("a"), Ok(()));
    assert_eq!(validate_entry_name("a/b"), Err(PathError::InvalidComponent));
    assert_eq!(validate_entry_name(".."), Err(PathError::InvalidComponent));
    assert_eq!(validate_entry_name("a:b"), Err(PathError::InvalidComponent));
    assert_eq!(validate_entry_name("ab:c"), Err(PathError::AlternateDataStream));
    assert!(is_flp_name("Song.FLP"));
    assert!(is_flp_name("a.flp"));
    assert!(!is_flp_name(".flp"));
    assert!(!is_flp_name("song.flpx"));
    assert_eq!(validate_root_path("C:\\root", 100), Ok(()));
    assert_eq!(validate_root_path("relative", 100), Err(PathError::Absolute));
    assert_eq!(validate_root_path("C:\\root\\..\\x", 100), Err(PathError::ParentTraversal));
    assert_eq!(validate_root_path("C:\\root", 3), Err(PathError::InvalidComponent));
}

#[test]
fn combined_outcomes_keep_the_most_severe() {
    assert_eq!(combine_outcomes(None, Outcome::Partial), Outcome::Partial);
    assert_eq!(combine_outcomes(Some(Outcome::Partial), Outcome::Denied), Outcome::Denied);
    assert_eq!(combine_outcomes(Some(Outcome::Cancelled), Outcome::Invalid), Outcome::Cancelled);
    assert!(Outcome::Complete.is_authoritative());
    assert!(!Outcome::Partial.is_authoritative());
}

// --- The engine against an in-memory port ---

#[derive(Clone)]
struct FakeDir {
    entries: Vec<(String, FileMetadata, Option<usize>)>,
    identity: u128,
}

struct FakeCursor {
    tree: std::rc::Rc<Vec<FakeDir>>,
    dir: usize,
    next: usize,
}

fn dir_metadata(id: u128) -> FileMetadata {
    FileMetadata {
        kind: EntryKind::Directory,
        byte_size: 0,
        modified_unix_ns: 0,
        identity: Some(identity(id)),
        reparse_point: false,
        recall_or_offline: false,
    }
}

fn file_metadata(id: u128, size: u64) -> FileMetadata {
    FileMetadata {
        kind: EntryKind::File,
        byte_size: size,
        modified_unix_ns: 1,
        identity: Some(identity(id)),
        reparse_point: false,
        recall_or_offline: false,
    }
}

impl DirectoryCursor for FakeCursor {
    fn next_entry(&mut self) -> Result<Option<DirectoryEntry>, PortError> {
        let dir = &self.tree[self.dir];
        if self.next >= dir.entries.len() {
            return Ok(None);
        }
        let name = dir.entries[self.next].0.clone();
        self.next += 1;
        Ok(Some(DirectoryEntry::new(&name)))
    }

    fn read_metadata(&mut self, entry: &DirectoryEntry) -> Result<FileMetadata, PortError> {
        let name = entry.name.as_ref().ok_or(PortError::Other)?;
        self.tree[self.dir]
            .entries
            .iter()
            .find(|(n, _, _)| n == name)
            .map(|(_, m, _)| *m)
            .ok_or(PortError::NotFound)
    }

    fn open_directory(&mut self, entry: &DirectoryEntry) -> Result<OpenedDirectory<Self>, PortError> {
        let name = entry.name.as_ref().ok_or(PortError::Other)?;
        let child = self.tree[self.dir]
            .entries
            .iter()
            .find(|(n, _, _)| n == name)
            .and_then(|(_, _, c)| *c)
            .ok_or(PortError::NotFound)?;
        Ok(OpenedDirectory {
            metadata: dir_metadata(self.tree[child].identity),
            case_sensitivity: DirectoryCaseSensitivity::Insensitive,
            cursor: FakeCursor { tree: self.tree.clone(), dir: child, next: 0 },
        })
    }
}

struct FakePort {
    tree: std::rc::Rc<Vec<FakeDir>>,
    qualification: FilesystemQualification,
}

impl FilesystemPort for FakePort {
    type Cursor = FakeCursor;

    fn inspect_root(&mut self, _root: &str) -> Result<RootMetadata, PortError> {
        Ok(RootMetadata { metadata: dir_metadata(self.tree[0].identity), qualification: self.qualification })
    }

    fn open_root(&mut self, _root: &str) -> Result<OpenedDirectory<FakeCursor>, PortError> {
        Ok(OpenedDirectory {
            metadata: dir_metadata(self.tree[0].identity),
            case_sensitivity: DirectoryCaseSensitivity::Insensitive,
            cursor: FakeCursor { tree: self.tree.clone(), dir: 0, next: 0 },
        })
    }
}

fn port(dirs: Vec<FakeDir>) -> FakePort {
    FakePort { tree: std::rc::Rc::new(dirs), qualification: FilesystemQualification::LocalNtfs }
}

fn sample_tree() -> Vec<FakeDir> {
    vec![
        FakeDir {
            entries: vec![
                ("song.flp".to_owned(), file_metadata(10, 5), None),
                ("notes.txt".to_owned(), file_metadata(11, 5), None),
                ("Project".to_owned(), dir_metadata(2), Some(1)),
            ],
            identity: 1,
        },
        FakeDir {
            entries: vec![("Mix.FLP".to_owned(), file_metadata(12, 7), None)],
            identity: 2,
        },
    ]
}

#[test]
fn complete_walk_is_authoritative_and_stages_flp_files_only() {
    let mut port = port(sample_tree());
    let mut sink = RecordingSink::default();
    let report = enumerate(&mut port, "C:\\root", &EnumerationLimits::default(), &NeverCancelled, &mut sink, &mut NoProgress);
    assert_eq!(report.outcome, Outcome::Complete);
    assert!(report.authoritative);
    assert_eq!(report.directories_visited, 2);
    assert_eq!(report.entries_examined, 4);
    assert_eq!(report.observations_discovered, 2);
    assert!(report.coverage_failures.is_empty());
    assert!(!sink.discarded);
    let records: Vec<String> = sink
        .batches
        .iter()
        .flat_map(|batch| batch.records.iter().map(|record| record.display_path.as_str().to_owned()))
        .collect();
    assert_eq!(records, ["song.flp", "Project\\Mix.FLP"]);
}

#[test]
fn case_insensitive_duplicates_invalidate_the_run_and_discard() {
    let tree = vec![FakeDir {
        entries: vec![
            ("Song.flp".to_owned(), file_metadata(10, 5), None),
            ("song.FLP".to_owned(), file_metadata(11, 5), None),
        ],
        identity: 1,
    }];
    let mut port = port(tree);
    let mut sink = RecordingSink::default();
    let report = enumerate(&mut port, "C:\\root", &EnumerationLimits::default(), &NeverCancelled, &mut sink, &mut NoProgress);
    assert_eq!(report.outcome, Outcome::Invalid);
    assert!(!report.authoritative);
    assert!(report.coverage_failures.iter().any(|failure| failure.kind == CoverageFailureKind::DuplicateLocator));
    assert!(sink.discarded);
    assert!(sink.batches.is_empty());
}

#[test]
fn invalid_limits_and_roots_are_refused_before_any_port_call() {
    let mut port = port(sample_tree());
    let mut sink = RecordingSink::default();
    let limits = EnumerationLimits { max_batch_records: 0, ..EnumerationLimits::default() };
    let report = enumerate(&mut port, "C:\\root", &limits, &NeverCancelled, &mut sink, &mut NoProgress);
    assert_eq!(report.outcome, Outcome::Invalid);
    assert_eq!(report.coverage_failures.len(), 1);
    assert_eq!(report.coverage_failures[0].kind, CoverageFailureKind::InvalidLimits);
    assert!(sink.discarded);

    let mut sink = RecordingSink::default();
    let report = enumerate(&mut port, "relative\\root", &EnumerationLimits::default(), &NeverCancelled, &mut sink, &mut NoProgress);
    assert_eq!(report.outcome, Outcome::Invalid);
    assert_eq!(report.coverage_failures[0].kind, CoverageFailureKind::InvalidRoot);
}

#[test]
fn unsupported_filesystem_and_sink_failures_are_not_authoritative() {
    let mut unsupported = port(sample_tree());
    unsupported.qualification = FilesystemQualification::Unqualified;
    let mut sink = RecordingSink::default();
    let report = enumerate(&mut unsupported, "C:\\root", &EnumerationLimits::default(), &NeverCancelled, &mut sink, &mut NoProgress);
    assert_eq!(report.outcome, Outcome::UnsupportedFilesystem);
    assert!(sink.discarded);

    let mut port = port(sample_tree());
    let mut sink = RecordingSink { error: Some(SinkError::Rejected), ..RecordingSink::default() };
    let report = enumerate(&mut port, "C:\\root", &EnumerationLimits::default(), &NeverCancelled, &mut sink, &mut NoProgress);
    assert_eq!(report.outcome, Outcome::SinkFailed);
    assert!(!report.authoritative);
}

#[test]
fn cancellation_and_resource_limits_stop_the_walk() {
    let mut port = port(sample_tree());
    let mut sink = RecordingSink::default();
    let token = CancellationToken::new();
    token.cancel();
    let report = enumerate(&mut port, "C:\\root", &EnumerationLimits::default(), &token, &mut sink, &mut NoProgress);
    assert_eq!(report.outcome, Outcome::Cancelled);
    assert!(sink.discarded);

    let mut sink = RecordingSink::default();
    let limits = EnumerationLimits { max_directories: 1, ..EnumerationLimits::default() };
    let report = enumerate(&mut port, "C:\\root", &limits, &NeverCancelled, &mut sink, &mut NoProgress);
    assert_eq!(report.outcome, Outcome::ResourceLimit);
    assert!(report.directories_visited <= 1);
}

#[test]
fn small_batches_are_sequenced_and_bounded() {
    let tree = vec![FakeDir {
        entries: (0..5).map(|i| (format!("f{i}.flp"), file_metadata(100 + i as u128, 1), None)).collect(),
        identity: 1,
    }];
    let mut port = port(tree);
    let mut sink = RecordingSink::default();
    let limits = EnumerationLimits { max_batch_records: 2, ..EnumerationLimits::default() };
    let report = enumerate(&mut port, "C:\\root", &limits, &NeverCancelled, &mut sink, &mut NoProgress);
    assert_eq!(report.outcome, Outcome::Complete);
    assert_eq!(report.batches_delivered, 3);
    let sizes: Vec<usize> = sink.batches.iter().map(|batch| batch.records.len()).collect();
    assert_eq!(sizes, [2, 2, 1]);
    let sequences: Vec<u64> = sink.batches.iter().map(|batch| batch.sequence).collect();
    assert_eq!(sequences, [0, 1, 2]);
}

#[test]
fn run_scoped_enumeration_invalidates_failed_runs_only() {
    let mut port = port(sample_tree());
    let mut storage = RecordingRunStorage::default();
    let report = enumerate_into_run(&mut port, "C:\\root", &EnumerationLimits::default(), &NeverCancelled, &mut storage, "run-1", &mut NoProgress);
    assert!(report.authoritative);
    assert!(storage.invalidated.is_empty());
    assert!(storage.staged.contains_key("run-1"));

    let mut storage = RecordingRunStorage { error: Some(SinkError::Unavailable), ..RecordingRunStorage::default() };
    let report = enumerate_into_run(&mut port, "C:\\root", &EnumerationLimits::default(), &NeverCancelled, &mut storage, "run-2", &mut NoProgress);
    assert!(!report.authoritative);
    assert_eq!(storage.invalidated, ["run-2"]);
}

#[test]
fn reparse_points_are_excluded_by_policy() {
    let mut reparse = file_metadata(10, 1);
    reparse.reparse_point = true;
    let tree = vec![FakeDir {
        entries: vec![("link.flp".to_owned(), reparse, None)],
        identity: 1,
    }];
    let mut port = port(tree);
    let mut sink = RecordingSink::default();
    let report = enumerate(&mut port, "C:\\root", &EnumerationLimits::default(), &NeverCancelled, &mut sink, &mut NoProgress);
    assert_eq!(report.outcome, Outcome::Complete);
    assert_eq!(report.exclusions.len(), 1);
    assert_eq!(report.exclusions[0].reason, ExclusionReason::ReparsePoint);
    assert_eq!(report.observations_discovered, 0);
    let empty = EnumerationReport::new();
    assert_eq!(empty.outcome, Outcome::Invalid);
}
