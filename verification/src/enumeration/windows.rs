//! The decisions of the production Windows port, apart from its system
//! calls: the extended-length form of a root path, the mapping of Win32 and
//! NT status codes to port errors, the parsing of one directory-query record,
//! the classification of queried handle metadata, and the recognition of an
//! NTFS volume. The port itself makes the calls and hands these functions
//! their results.
use vstd::prelude::*;

use super::{
    DirectoryCaseSensitivity, EntryKind, FileMetadata, FilesystemQualification, IdentityQualification, PortError,
    QualifiedIdentity,
};
use super::conversions::{le_value, windows_file_id_to_u128, windows_filetime_100ns_to_unix_ns};
use crate::text::{chars_of, push_char};

verus! {

pub const ERROR_INVALID_FUNCTION: u32 = 1;
pub const ERROR_FILE_NOT_FOUND: u32 = 2;
pub const ERROR_PATH_NOT_FOUND: u32 = 3;
pub const ERROR_ACCESS_DENIED: u32 = 5;
pub const ERROR_SHARING_VIOLATION: u32 = 32;
pub const ERROR_NOT_SUPPORTED: u32 = 50;
pub const ERROR_INVALID_PARAMETER: u32 = 87;
pub const ERROR_INVALID_NAME: u32 = 123;

pub const STATUS_NO_MORE_FILES: u32 = 0x8000_0006;
pub const STATUS_BUFFER_OVERFLOW: u32 = 0x8000_0005;
pub const STATUS_OBJECT_NAME_INVALID: u32 = 0xC000_0033;
pub const STATUS_OBJECT_NAME_NOT_FOUND: u32 = 0xC000_0034;
pub const STATUS_OBJECT_PATH_NOT_FOUND: u32 = 0xC000_003A;
pub const STATUS_NOT_A_DIRECTORY: u32 = 0xC000_0103;
pub const STATUS_ACCESS_DENIED: u32 = 0xC000_0022;
pub const STATUS_SHARING_VIOLATION: u32 = 0xC000_0043;

pub const FILE_ATTRIBUTE_DIRECTORY: u32 = 0x0010;
pub const FILE_ATTRIBUTE_REPARSE_POINT: u32 = 0x0400;
pub const FILE_ATTRIBUTE_OFFLINE: u32 = 0x1000;
pub const FILE_ATTRIBUTE_RECALL_ON_OPEN: u32 = 0x0004_0000;
pub const FILE_ATTRIBUTE_RECALL_ON_DATA_ACCESS: u32 = 0x0040_0000;
pub const FILE_CS_FLAG_CASE_SENSITIVE_DIR: u32 = 0x0000_0001;

/// The port error of a Win32 error code.
pub open spec fn win_error_spec(error: u32) -> PortError {
    if error == ERROR_FILE_NOT_FOUND || error == ERROR_PATH_NOT_FOUND || error == ERROR_INVALID_NAME {
        PortError::NotFound
    } else if error == ERROR_ACCESS_DENIED || error == ERROR_SHARING_VIOLATION {
        PortError::AccessDenied
    } else if error == ERROR_INVALID_FUNCTION || error == ERROR_INVALID_PARAMETER || error == ERROR_NOT_SUPPORTED {
        PortError::Unsupported
    } else {
        PortError::Other
    }
}

pub fn map_win_error(error: u32) -> (r: PortError)
    ensures
        r == win_error_spec(error),
{
    match error {
        ERROR_FILE_NOT_FOUND | ERROR_PATH_NOT_FOUND | ERROR_INVALID_NAME => PortError::NotFound,
        ERROR_ACCESS_DENIED | ERROR_SHARING_VIOLATION => PortError::AccessDenied,
        ERROR_INVALID_FUNCTION | ERROR_INVALID_PARAMETER | ERROR_NOT_SUPPORTED => PortError::Unsupported,
        _ => PortError::Other,
    }
}

/// The port error of an NT status, read as its unsigned bit pattern.
pub open spec fn nt_status_spec(status: u32) -> PortError {
    if status == STATUS_OBJECT_NAME_NOT_FOUND || status == STATUS_OBJECT_PATH_NOT_FOUND || status == STATUS_OBJECT_NAME_INVALID {
        PortError::NotFound
    } else if status == STATUS_ACCESS_DENIED || status == STATUS_SHARING_VIOLATION {
        PortError::AccessDenied
    } else {
        PortError::Other
    }
}

/// Maps an NT status (the signed value the call returned) to a port error.
pub fn map_nt_status(status: i32) -> (r: PortError)
    ensures
        r == nt_status_spec(status as u32),
{
    let code = status as u32;
    match code {
        STATUS_OBJECT_NAME_NOT_FOUND | STATUS_OBJECT_PATH_NOT_FOUND | STATUS_OBJECT_NAME_INVALID => PortError::NotFound,
        STATUS_NOT_A_DIRECTORY => PortError::Other,
        STATUS_ACCESS_DENIED | STATUS_SHARING_VIOLATION => PortError::AccessDenied,
        _ => PortError::Other,
    }
}

pub open spec fn starts_with(s: Seq<char>, prefix: Seq<char>) -> bool {
    prefix.len() <= s.len() && s.subrange(0, prefix.len() as int) == prefix
}

/// The extended-length form of a path: `\\?\` and `\\.\` paths are kept,
/// a UNC path `\\server\share` becomes `\\?\UNC\server\share`, a path whose
/// second byte is `:` (a drive) gets the `\\?\` prefix, and anything else is
/// kept.
pub open spec fn extended_path_spec(s: Seq<char>) -> Seq<char> {
    if starts_with(s, seq!['\\', '\\', '?', '\\']) || starts_with(s, seq!['\\', '\\', '.', '\\']) {
        s
    } else if starts_with(s, seq!['\\', '\\']) {
        seq!['\\', '\\', '?', '\\', 'U', 'N', 'C', '\\'] + s.subrange(2, s.len() as int)
    } else if s.len() >= 2 && (s[0] as u32) < 0x80 && s[1] == ':' {
        seq!['\\', '\\', '?', '\\'] + s
    } else {
        s
    }
}

fn push_all(out: &mut String, chars: &Vec<char>, from: usize)
    requires
        from <= chars.len(),
    ensures
        final(out)@ == old(out)@ + chars@.subrange(from as int, chars@.len() as int),
{
    let mut i = from;
    while i < chars.len()
        invariant
            from <= i <= chars.len(),
            out@ == old(out)@ + chars@.subrange(from as int, i as int),
        decreases chars.len() - i,
    {
        push_char(out, chars[i]);
        i = i + 1;
        assert(out@ =~= old(out)@ + chars@.subrange(from as int, i as int));
    }
}

fn push_str_chars(out: &mut String, prefix: &str)
    ensures
        final(out)@ == old(out)@ + prefix@,
{
    let chars = chars_of(prefix);
    push_all(out, &chars, 0);
    assert(chars@.subrange(0, chars@.len() as int) =~= chars@);
}

/// Rewrites a root path into its extended-length form.
pub fn extended_path(path: &str) -> (r: String)
    ensures
        r@ == extended_path_spec(path@),
{
    let c = chars_of(path);
    let n = c.len();
    let verbatim = n >= 4 && c[0] == '\\' && c[1] == '\\' && (c[2] == '?' || c[2] == '.') && c[3] == '\\';
    let unc = n >= 2 && c[0] == '\\' && c[1] == '\\';
    proof {
        let s = path@;
        if n >= 4 {
            assert(s.subrange(0, 4) == seq![s[0], s[1], s[2], s[3]]);
        }
        if n >= 2 {
            assert(s.subrange(0, 2) == seq![s[0], s[1]]);
        }
        if starts_with(s, seq!['\\', '\\', '?', '\\']) {
            assert(s.subrange(0, 4)[2] == '?');
        }
        if starts_with(s, seq!['\\', '\\', '.', '\\']) {
            assert(s.subrange(0, 4)[2] == '.');
        }
        if starts_with(s, seq!['\\', '\\']) {
            assert(s.subrange(0, 2)[0] == '\\' && s.subrange(0, 2)[1] == '\\');
        }
    }
    let mut out = String::new();
    if verbatim {
        push_all(&mut out, &c, 0);
        assert(c@.subrange(0, n as int) =~= c@);
    } else if unc {
        push_str_chars(&mut out, "\\\\?\\UNC\\");
        proof {
            reveal_strlit("\\\\?\\UNC\\");
        }
        push_all(&mut out, &c, 2);
    } else if n >= 2 && (c[0] as u32) < 0x80 && c[1] == ':' {
        push_str_chars(&mut out, "\\\\?\\");
        proof {
            reveal_strlit("\\\\?\\");
        }
        push_all(&mut out, &c, 0);
        assert(c@.subrange(0, n as int) =~= c@);
    } else {
        push_all(&mut out, &c, 0);
        assert(c@.subrange(0, n as int) =~= c@);
    }
    assert(out@ =~= extended_path_spec(path@));
    out
}

/// The UTF-16 code units of a path with a terminating NUL.
pub fn wide_null(units: &[u16]) -> (r: Vec<u16>)
    ensures
        r@ == units@.push(0u16),
{
    let mut r: Vec<u16> = Vec::new();
    let mut i: usize = 0;
    while i < units.len()
        invariant
            i <= units@.len(),
            r@ == units@.subrange(0, i as int),
        decreases units.len() - i,
    {
        r.push(units[i]);
        i = i + 1;
        assert(r@ =~= units@.subrange(0, i as int));
    }
    r.push(0u16);
    assert(r@ =~= units@.push(0u16));
    r
}

/// A name the relative-open call can take: non-empty and at most
/// `u16::MAX / 2` code units.
pub fn wide_name(units: &[u16]) -> (r: Result<(), PortError>)
    ensures
        r is Ok <==> (units@.len() > 0 && units@.len() <= 32767),
        r matches Err(e) ==> e == PortError::Other,
{
    if units.len() == 0 || units.len() > 32767 {
        return Err(PortError::Other);
    }
    Ok(())
}

/// The little-endian (native) `u32` at `b[at..at + 4]`.
pub open spec fn le_u32(b: Seq<u8>, at: int) -> int {
    b[at] as int + b[at + 1] as int * 256 + b[at + 2] as int * 65536 + b[at + 3] as int * 16777216
}

/// The name in one `FILE_NAMES_INFORMATION` record of which `information`
/// bytes are valid: after a twelve-byte header whose last four bytes give
/// the name's length in bytes, a non-empty, even-length UTF-16 name that
/// lies inside both the valid bytes and the buffer.
pub open spec fn names_record_spec(buffer: Seq<u8>, information: int) -> Option<Seq<u16>> {
    if information < 12 || buffer.len() < 12 {
        None
    } else {
        let len = le_u32(buffer, 8);
        let end = 12 + len;
        if len == 0 || len % 2 != 0 || end > information || end > buffer.len() {
            None
        } else {
            Some(Seq::new((len / 2) as nat, |k: int| (buffer[12 + 2 * k] as int + buffer[13 + 2 * k] as int * 256) as u16))
        }
    }
}

/// Parses one directory-query record into its name's UTF-16 code units.
pub fn parse_file_names_information(buffer: &[u8], information: usize) -> (r: Result<Vec<u16>, PortError>)
    ensures
        match r {
            Ok(units) => names_record_spec(buffer@, information as int) == Some(units@),
            Err(e) => names_record_spec(buffer@, information as int) is None && e == PortError::Other,
        },
{
    if information < 12 || buffer.len() < 12 {
        return Err(PortError::Other);
    }
    let len = (buffer[8] as u32) + (buffer[9] as u32) * 256 + (buffer[10] as u32) * 65536 + (buffer[11] as u32) * 16777216;
    let name_length = len as usize;
    if name_length == 0 || name_length % 2 != 0 {
        return Err(PortError::Other);
    }
    if name_length > information - 12 || name_length > buffer.len() - 12 {
        return Err(PortError::Other);
    }
    let end = 12 + name_length;
    let mut units: Vec<u16> = Vec::new();
    let mut k: usize = 0;
    let count = name_length / 2;
    while k < count
        invariant
            count * 2 == name_length,
            end == 12 + name_length,
            end <= buffer.len(),
            k <= count,
            forall|j: int| 0 <= j < k ==> units@[j] == (buffer@[12 + 2 * j] as int + buffer@[13 + 2 * j] as int * 256) as u16,
            units@.len() == k,
        decreases count - k,
    {
        let u = (buffer[12 + 2 * k] as u16) + (buffer[13 + 2 * k] as u16) * 256;
        units.push(u);
        k = k + 1;
    }
    proof {
        let expect = Seq::new(count as nat, |j: int| (buffer@[12 + 2 * j] as int + buffer@[13 + 2 * j] as int * 256) as u16);
        assert(units@ =~= expect);
    }
    Ok(units)
}

/// Whether a queried name is the directory itself or its parent.
pub fn is_dot_entry(units: &[u16]) -> (r: bool)
    ensures
        r == (units@ == seq![0x2eu16] || units@ == seq![0x2eu16, 0x2eu16]),
{
    let one = units.len() == 1 && units[0] == 0x2e;
    let two = units.len() == 2 && units[0] == 0x2e && units[1] == 0x2e;
    proof {
        if units@.len() == 1 {
            assert(units@ == seq![0x2eu16] <==> units@[0] == 0x2eu16) by {
                if units@[0] == 0x2eu16 {
                    assert(units@ =~= seq![0x2eu16]);
                }
            }
        }
        if units@.len() == 2 {
            assert(units@ == seq![0x2eu16, 0x2eu16] <==> (units@[0] == 0x2eu16 && units@[1] == 0x2eu16)) by {
                if units@[0] == 0x2eu16 && units@[1] == 0x2eu16 {
                    assert(units@ =~= seq![0x2eu16, 0x2eu16]);
                }
            }
        }
    }
    one || two
}

/// What one directory query step yields.
#[derive(Clone, Debug, PartialEq, Eq)]
pub enum QueryStep {
    /// An entry's name, as UTF-16 code units.
    Entry(Vec<u16>),
    /// The directory itself or its parent: query again.
    Skip,
    /// No more entries.
    End,
    Failed(PortError),
}

/// Decides one directory query from its NT status and, when it returned a
/// record, the parsed name.
pub fn directory_query_step(status: i32, buffer: &[u8], information: usize) -> (r: QueryStep)
    ensures
        (status as u32 == 0 || status as u32 == STATUS_BUFFER_OVERFLOW) ==> match names_record_spec(buffer@, if information < buffer@.len() { information as int } else { buffer@.len() as int }) {
            None => r == QueryStep::Failed(PortError::Other),
            Some(name) => if name == seq![0x2eu16] || name == seq![0x2eu16, 0x2eu16] {
                r == QueryStep::Skip
            } else {
                r matches QueryStep::Entry(units) && units@ == name
            },
        },
        status as u32 == STATUS_NO_MORE_FILES ==> r == QueryStep::End,
        !(status as u32 == 0 || status as u32 == STATUS_BUFFER_OVERFLOW || status as u32 == STATUS_NO_MORE_FILES)
            ==> r == QueryStep::Failed(nt_status_spec(status as u32)),
{
    let code = status as u32;
    if code == 0 || code == STATUS_BUFFER_OVERFLOW {
        let information = if information < buffer.len() { information } else { buffer.len() };
        match parse_file_names_information(buffer, information) {
            Ok(units) => {
                if is_dot_entry(units.as_slice()) {
                    QueryStep::Skip
                } else {
                    QueryStep::Entry(units)
                }
            },
            Err(e) => QueryStep::Failed(e),
        }
    } else if code == STATUS_NO_MORE_FILES {
        QueryStep::End
    } else {
        QueryStep::Failed(map_nt_status(status))
    }
}

/// The raw facts a handle query returns about one file or directory.
#[derive(Clone, Copy, Debug, PartialEq, Eq, Structural)]
pub struct HandleFacts {
    pub basic_attributes: u32,
    pub tag_attributes: u32,
    pub end_of_file: i64,
    pub directory: u8,
    pub last_write_time: i64,
}

pub open spec fn attributes_of(f: HandleFacts) -> u32 {
    f.basic_attributes | f.tag_attributes
}

pub open spec fn is_reparse(f: HandleFacts) -> bool {
    attributes_of(f) & FILE_ATTRIBUTE_REPARSE_POINT != 0
}

pub open spec fn is_recall_or_offline(f: HandleFacts) -> bool {
    attributes_of(f) & (FILE_ATTRIBUTE_OFFLINE | FILE_ATTRIBUTE_RECALL_ON_OPEN | FILE_ATTRIBUTE_RECALL_ON_DATA_ACCESS) != 0
}

/// Whether the port asks for a physical identity: only on a local NTFS
/// volume, and never for reparse points or recalled or offline files.
pub open spec fn wants_identity(f: HandleFacts, qualification: FilesystemQualification) -> bool {
    qualification == FilesystemQualification::LocalNtfs && !is_reparse(f) && !is_recall_or_offline(f)
}

/// The metadata of a queried handle, given its raw facts and the identity
/// the port obtained (`None` when it asked for none or none was available).
/// A negative size is refused.
pub open spec fn metadata_spec(f: HandleFacts, identity: Option<QualifiedIdentity>) -> Option<FileMetadata> {
    if f.end_of_file < 0 {
        None
    } else {
        Some(FileMetadata {
            kind: if f.directory != 0 || attributes_of(f) & FILE_ATTRIBUTE_DIRECTORY != 0 {
                EntryKind::Directory
            } else {
                EntryKind::File
            },
            byte_size: f.end_of_file as u64,
            modified_unix_ns: super::conversions::filetime_unix_ns(f.last_write_time) as i128,
            identity,
            reparse_point: is_reparse(f),
            recall_or_offline: is_recall_or_offline(f),
        })
    }
}

pub fn needs_identity(f: &HandleFacts, qualification: FilesystemQualification) -> (r: bool)
    ensures
        r == wants_identity(*f, qualification),
{
    let attributes = f.basic_attributes | f.tag_attributes;
    let reparse = attributes & FILE_ATTRIBUTE_REPARSE_POINT != 0;
    let recall = attributes & (FILE_ATTRIBUTE_OFFLINE | FILE_ATTRIBUTE_RECALL_ON_OPEN | FILE_ATTRIBUTE_RECALL_ON_DATA_ACCESS) != 0;
    qualification == FilesystemQualification::LocalNtfs && !reparse && !recall
}

/// Builds the metadata of a queried handle.
pub fn classify_metadata(f: &HandleFacts, identity: Option<QualifiedIdentity>) -> (r: Result<FileMetadata, PortError>)
    ensures
        match r {
            Ok(m) => metadata_spec(*f, identity) == Some(m),
            Err(e) => metadata_spec(*f, identity) is None && e == PortError::Other,
        },
{
    if f.end_of_file < 0 {
        return Err(PortError::Other);
    }
    let attributes = f.basic_attributes | f.tag_attributes;
    let reparse_point = attributes & FILE_ATTRIBUTE_REPARSE_POINT != 0;
    let recall_or_offline = attributes & (FILE_ATTRIBUTE_OFFLINE | FILE_ATTRIBUTE_RECALL_ON_OPEN | FILE_ATTRIBUTE_RECALL_ON_DATA_ACCESS) != 0;
    let kind = if f.directory != 0 || attributes & FILE_ATTRIBUTE_DIRECTORY != 0 { EntryKind::Directory } else { EntryKind::File };
    Ok(FileMetadata {
        kind,
        byte_size: f.end_of_file as u64,
        modified_unix_ns: windows_filetime_100ns_to_unix_ns(f.last_write_time),
        identity,
        reparse_point,
        recall_or_offline,
    })
}

/// The identity from a file-id query: the volume serial and the 16 id bytes
/// read little-endian. A vanished file or an exhausted resource fails the
/// metadata read; a refused or unsupported query means no identity.
pub fn identity_from_query(result: Result<(u64, [u8; 16]), PortError>) -> (r: Result<Option<QualifiedIdentity>, PortError>)
    ensures
        match result {
            Ok((serial, bytes)) => r == Ok::<Option<QualifiedIdentity>, PortError>(Some(QualifiedIdentity {
                volume_serial: serial,
                file_id: le_value(bytes@) as u128,
                qualification: IdentityQualification::LocalNtfs,
            })),
            Err(PortError::AccessDenied) | Err(PortError::Unsupported) | Err(PortError::Other) =>
                r == Ok::<Option<QualifiedIdentity>, PortError>(None),
            Err(e) => r == Err::<Option<QualifiedIdentity>, PortError>(e),
        },
{
    match result {
        Ok((serial, bytes)) => Ok(Some(QualifiedIdentity {
            volume_serial: serial,
            file_id: windows_file_id_to_u128(bytes),
            qualification: IdentityQualification::LocalNtfs,
        })),
        Err(PortError::AccessDenied) | Err(PortError::Unsupported) | Err(PortError::Other) => Ok(None),
        Err(e) => Err(e),
    }
}

/// Whether a freshly opened handle may serve as a directory cursor: a
/// reparse point is refused as such, and anything but a directory fails.
pub fn directory_handle_check(metadata: &FileMetadata) -> (r: Result<(), PortError>)
    ensures
        metadata.reparse_point ==> r == Err::<(), PortError>(PortError::ReparsePoint),
        !metadata.reparse_point && metadata.kind != EntryKind::Directory ==> r == Err::<(), PortError>(PortError::Other),
        !metadata.reparse_point && metadata.kind == EntryKind::Directory ==> r is Ok,
{
    if metadata.reparse_point {
        return Err(PortError::ReparsePoint);
    }
    match metadata.kind {
        EntryKind::Directory => Ok(()),
        _ => Err(PortError::Other),
    }
}

/// Whether an ancestor, reopened by name from its parent, is still the
/// directory the walk entered: not a reparse point, a directory, and of the
/// identity recorded when it was entered.
pub fn ancestor_unchanged(metadata: &FileMetadata, expected: &QualifiedIdentity) -> (r: bool)
    ensures
        r == (!metadata.reparse_point && metadata.kind == EntryKind::Directory && metadata.identity == Some(*expected)),
{
    if metadata.reparse_point {
        return false;
    }
    match metadata.kind {
        EntryKind::Directory => {},
        _ => return false,
    }
    match metadata.identity {
        Some(id) => id == *expected,
        None => false,
    }
}

/// The case mode a directory's case-sensitivity flags report.
pub fn case_sensitivity_from_flags(flags: u32) -> (r: DirectoryCaseSensitivity)
    ensures
        r == (if flags & FILE_CS_FLAG_CASE_SENSITIVE_DIR != 0 {
            DirectoryCaseSensitivity::Sensitive
        } else {
            DirectoryCaseSensitivity::Insensitive
        }),
{
    if flags & FILE_CS_FLAG_CASE_SENSITIVE_DIR != 0 {
        DirectoryCaseSensitivity::Sensitive
    } else {
        DirectoryCaseSensitivity::Insensitive
    }
}

pub open spec fn ascii_upper_unit(u: u16) -> u16 {
    if 0x61 <= u <= 0x7a { (u - 32) as u16 } else { u }
}

/// The file-system name buffer, with its trailing NULs removed, is `NTFS`
/// ignoring ASCII case.
pub open spec fn is_ntfs_buffer(units: Seq<u16>) -> bool {
    &&& units.len() >= 4
    &&& ascii_upper_unit(units[0]) == 0x4e
    &&& ascii_upper_unit(units[1]) == 0x54
    &&& ascii_upper_unit(units[2]) == 0x46
    &&& ascii_upper_unit(units[3]) == 0x53
    &&& forall|k: int| 4 <= k < units.len() ==> units[k] == 0u16
}

fn upper(u: u16) -> (r: u16)
    ensures
        r == ascii_upper_unit(u),
{
    if 0x61 <= u && u <= 0x7a { u - 32 } else { u }
}

/// The qualification of a fixed volume from its file-system name buffer.
pub fn qualification_from_name(units: &[u16]) -> (r: FilesystemQualification)
    ensures
        r == (if is_ntfs_buffer(units@) { FilesystemQualification::LocalNtfs } else { FilesystemQualification::Unqualified }),
{
    if units.len() < 4 || upper(units[0]) != 0x4e || upper(units[1]) != 0x54 || upper(units[2]) != 0x46 || upper(units[3]) != 0x53 {
        return FilesystemQualification::Unqualified;
    }
    let mut k: usize = 4;
    while k < units.len()
        invariant
            4 <= k <= units@.len(),
            forall|j: int| 4 <= j < k ==> units@[j] == 0u16,
        decreases units.len() - k,
    {
        if units[k] != 0 {
            return FilesystemQualification::Unqualified;
        }
        k = k + 1;
    }
    FilesystemQualification::LocalNtfs
}

} // verus!
