use fruitboard_scanner::enumeration::windows::{
    case_sensitivity_from_flags, classify_metadata, directory_query_step, extended_path, identity_from_query,
    is_dot_entry, map_nt_status, map_win_error, needs_identity, parse_file_names_information,
    qualification_from_name, wide_name, wide_null, HandleFacts, QueryStep, STATUS_NO_MORE_FILES,
};
use fruitboard_scanner::enumeration::{
    DirectoryCaseSensitivity, EntryKind, FilesystemQualification, IdentityQualification, PortError,
    QualifiedIdentity,
};
use fruitboard_scanner::sidecar::{arguments, exit_code, is_ping, mode_of, SidecarMode};

#[test]
fn extended_paths_prefix_drives_and_unc_shares() {
    assert_eq!(extended_path("C:\\Music"), "\\\\?\\C:\\Music");
    assert_eq!(extended_path("\\\\server\\share\\x"), "\\\\?\\UNC\\server\\share\\x");
    assert_eq!(extended_path("\\\\?\\C:\\Music"), "\\\\?\\C:\\Music");
    assert_eq!(extended_path("\\\\.\\pipe"), "\\\\.\\pipe");
    assert_eq!(extended_path("relative"), "relative");
    assert_eq!(extended_path("é:"), "é:");
    assert_eq!(wide_null(&[0x43, 0x3a]), [0x43, 0x3a, 0]);
    assert_eq!(wide_name(&[]), Err(PortError::Other));
    assert_eq!(wide_name(&[0x61]), Ok(()));
}

#[test]
fn status_codes_map_to_port_errors() {
    assert_eq!(map_win_error(2), PortError::NotFound);
    assert_eq!(map_win_error(123), PortError::NotFound);
    assert_eq!(map_win_error(5), PortError::AccessDenied);
    assert_eq!(map_win_error(32), PortError::AccessDenied);
    assert_eq!(map_win_error(50), PortError::Unsupported);
    assert_eq!(map_win_error(999), PortError::Other);
    assert_eq!(map_nt_status(0xC000_0034u32 as i32), PortError::NotFound);
    assert_eq!(map_nt_status(0xC000_0022u32 as i32), PortError::AccessDenied);
    assert_eq!(map_nt_status(0xC000_0103u32 as i32), PortError::Other);
}

fn names_record(name: &str) -> Vec<u8> {
    let units: Vec<u8> = name.encode_utf16().flat_map(|u| u.to_le_bytes()).collect();
    let mut record = vec![0u8; 8];
    record.extend_from_slice(&(units.len() as u32).to_le_bytes());
    record.extend_from_slice(&units);
    record
}

#[test]
fn directory_records_parse_and_skip_dot_entries() {
    let record = names_record("song.flp");
    let units = parse_file_names_information(&record, record.len()).expect("valid record");
    assert_eq!(String::from_utf16(&units).unwrap(), "song.flp");
    assert_eq!(parse_file_names_information(&record, record.len() - 1), Err(PortError::Other));
    assert_eq!(parse_file_names_information(&record[..10], 10), Err(PortError::Other));
    assert_eq!(directory_query_step(0, &names_record("."), 64), QueryStep::Skip);
    assert_eq!(directory_query_step(0, &names_record(".."), 64), QueryStep::Skip);
    match directory_query_step(0, &record, 4096) {
        QueryStep::Entry(units) => assert_eq!(String::from_utf16(&units).unwrap(), "song.flp"),
        other => panic!("unexpected {other:?}"),
    }
    assert_eq!(directory_query_step(STATUS_NO_MORE_FILES as i32, &record, 0), QueryStep::End);
    assert_eq!(directory_query_step(0xC000_0022u32 as i32, &record, 0), QueryStep::Failed(PortError::AccessDenied));
    assert!(is_dot_entry(&[0x2e]));
    assert!(!is_dot_entry(&[0x2e, 0x61]));
}

#[test]
fn handle_facts_classify_metadata_and_identity() {
    let file = HandleFacts { basic_attributes: 0x20, tag_attributes: 0, end_of_file: 42, directory: 0, last_write_time: 116_444_736_000_000_001 };
    let metadata = classify_metadata(&file, None).expect("non-negative size");
    assert_eq!(metadata.kind, EntryKind::File);
    assert_eq!(metadata.byte_size, 42);
    assert_eq!(metadata.modified_unix_ns, 100);
    assert!(!metadata.reparse_point);
    assert!(needs_identity(&file, FilesystemQualification::LocalNtfs));
    assert!(!needs_identity(&file, FilesystemQualification::Unqualified));
    let link = HandleFacts { tag_attributes: 0x400, ..file };
    assert!(classify_metadata(&link, None).unwrap().reparse_point);
    assert!(!needs_identity(&link, FilesystemQualification::LocalNtfs));
    let offline = HandleFacts { basic_attributes: 0x1000, ..file };
    assert!(classify_metadata(&offline, None).unwrap().recall_or_offline);
    let dir = HandleFacts { directory: 1, ..file };
    assert_eq!(classify_metadata(&dir, None).unwrap().kind, EntryKind::Directory);
    assert_eq!(classify_metadata(&HandleFacts { end_of_file: -1, ..file }, None), Err(PortError::Other));

    let mut bytes = [0u8; 16];
    bytes[0] = 9;
    assert_eq!(
        identity_from_query(Ok((7, bytes))),
        Ok(Some(QualifiedIdentity { volume_serial: 7, file_id: 9, qualification: IdentityQualification::LocalNtfs }))
    );
    assert_eq!(identity_from_query(Err(PortError::AccessDenied)), Ok(None));
    assert_eq!(identity_from_query(Err(PortError::NotFound)), Err(PortError::NotFound));
    assert_eq!(identity_from_query(Err(PortError::ResourceLimit)), Err(PortError::ResourceLimit));
    assert_eq!(case_sensitivity_from_flags(1), DirectoryCaseSensitivity::Sensitive);
    assert_eq!(case_sensitivity_from_flags(2), DirectoryCaseSensitivity::Insensitive);
}

#[test]
fn only_a_trimmed_ntfs_name_qualifies() {
    let mut buffer = [0u16; 256];
    for (i, u) in "ntfs".encode_utf16().enumerate() {
        buffer[i] = u;
    }
    assert_eq!(qualification_from_name(&buffer), FilesystemQualification::LocalNtfs);
    buffer[1] = u16::from(b'X');
    assert_eq!(qualification_from_name(&buffer), FilesystemQualification::Unqualified);
    let fat: Vec<u16> = "FAT32".encode_utf16().collect();
    assert_eq!(qualification_from_name(&fat), FilesystemQualification::Unqualified);
}

#[test]
fn sidecar_arguments_modes_and_pings() {
    let args = |list: &[&str]| list.iter().map(|s| s.to_string()).collect::<Vec<String>>();
    assert_eq!(
        arguments(&args(&["--mode", "respond", "--probe-path", "C:\\a b\\音"])),
        Ok(("respond".to_owned(), "C:\\a b\\音".to_owned()))
    );
    assert_eq!(arguments(&args(&["--mode", "respond", "--probe-path", "C:\\ab\\音"])), Err(()));
    assert_eq!(arguments(&args(&["--mode", "respond", "--probe-path"])), Err(()));
    assert_eq!(arguments(&args(&["--mode", "respond", "--probe-path", "a 音", "extra"])), Err(()));
    assert_eq!(mode_of(&"respond".to_owned()), SidecarMode::Respond);
    assert_eq!(mode_of(&"fail".to_owned()), SidecarMode::Fail);
    assert_eq!(mode_of(&"wait".to_owned()), SidecarMode::Wait);
    assert_eq!(mode_of(&"other".to_owned()), SidecarMode::Invalid);
    assert!(is_ping(&"ping\n".to_owned()));
    assert!(is_ping(&"ping \r\n".to_owned()));
    assert!(!is_ping(&" ping".to_owned()));
    assert!(!is_ping(&"pong".to_owned()));
    assert_eq!(exit_code(SidecarMode::Respond, true), Some(0));
    assert_eq!(exit_code(SidecarMode::Respond, false), Some(3));
    assert_eq!(exit_code(SidecarMode::Fail, false), Some(17));
    assert_eq!(exit_code(SidecarMode::Invalid, false), Some(2));
    assert_eq!(exit_code(SidecarMode::Wait, false), None);
}
